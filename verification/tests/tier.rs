use reseda_server::client::{Client, Maximums};

#[test]
fn effective_caps_per_tier() {
    assert_eq!(Maximums::Free(0, 0).to_value(), 5_000_000_000);
    assert_eq!(Maximums::Free(0, 1_000_000_000).to_value(), 4_000_000_000);
    assert_eq!(Maximums::Supporter(0, 0).to_value(), 50_000_000_000);
    assert_eq!(Maximums::Supporter(7, 10).to_value(), 49_999_999_990);
    assert_eq!(Maximums::Basic(0, 0).to_value(), -1);
    assert_eq!(Maximums::Pro(123, 456).to_value(), -1);
    assert_eq!(Maximums::Unassigned.to_value(), 5_000_000);
}

#[test]
fn free_tier_cap_boundary() {
    let mut c = Client::new();
    c.set_tier(Maximums::Free(0, 0));
    // Strictly under the cap on both counters: under.
    assert!(!c.set_usage(&0, &4_999_999_999));
    // The cap equals the larger counter: exceeded.
    assert!(c.set_usage(&0, &5_000_000_000));
    assert!(c.set_usage(&5_000_000_000, &0));
}

#[test]
fn carried_usage_shrinks_the_cap() {
    let mut c = Client::new();
    c.set_tier(Maximums::Free(0, 4_999_999_900));
    // Remaining allowance is 100 bytes.
    assert!(!c.set_usage(&99, &99));
    assert!(c.set_usage(&100, &0));
    assert!(c.set_usage(&0, &100));
}

#[test]
fn unlimited_tiers_never_exceed() {
    let mut c = Client::new();
    c.set_tier(Maximums::Pro(0, 0));
    assert!(!c.set_usage(&i128::MAX, &i128::MAX));
    c.set_tier(Maximums::Basic(0, 0));
    assert!(!c.set_usage(&i128::MAX, &i128::MAX));
}

#[test]
fn unassigned_tier_always_exceeds() {
    let mut c = Client::new();
    assert!(c.set_usage(&0, &0));
}

#[test]
fn usage_is_reported_download_first() {
    let mut c = Client::new();
    c.set_usage(&11, &22);
    assert_eq!(c.get_usage(), (22, 11));
}
