use reseda_server::client::{Client, Clients, Connection, Host, Maximums};

const GOOD_PK: &str = "ABCDEFGHIJKLMNOPQRSTUVWXYZabcdefghijklmnopq=";

#[test]
fn accepts_a_well_shaped_public_key() {
    let c = Client::new().set_public_key(GOOD_PK.to_string());
    assert!(c.is_valid());
    assert_eq!(c.public_key.as_str(), GOOD_PK);
}

#[test]
fn canonicalizes_spaces_and_newlines() {
    let sent = "ABCDEFGHIJKLMNOPQRSTUVWXYZabcdefghijklmno q=";
    let c = Client::new().set_public_key(format!("{}\n", sent));
    // 45 characters with the newline: wrong shape, rejected.
    assert!(!c.is_valid());
    let c = Client::new().set_public_key(sent.to_string());
    assert!(c.is_valid());
    assert_eq!(
        c.public_key.as_str(),
        "ABCDEFGHIJKLMNOPQRSTUVWXYZabcdefghijklmno+q="
    );
}

#[test]
fn rejects_short_or_unterminated_keys() {
    let c = Client::new().set_public_key("short".to_string());
    assert!(!c.is_valid());
    let c = Client::new().set_public_key("ABCDEFGHIJKLMNOPQRSTUVWXYZabcdefghijklmnopq0".to_string());
    assert!(!c.is_valid());
}

#[test]
fn a_fresh_client_is_disconnected_and_unassigned() {
    let c = Client::new();
    assert!(!c.is_valid());
    assert_eq!(c.maximums, Maximums::Unassigned);
    assert_eq!(c.connected, Connection::Disconnected);
    assert_eq!(c.limit, -1);
    assert_eq!(c.get_usage(), (0, 0));
}

#[test]
fn merge_preserves_the_new_author() {
    let mut previous = Client::new()
        .set_public_key(GOOD_PK.to_string())
        .set_author("a1".to_string());
    previous.set_tier(Maximums::Free(3, 4));
    previous.set_usage(&10, &20);

    let mut returning = Client::new()
        .set_public_key(GOOD_PK.to_string())
        .set_author("a2".to_string());
    returning.merge_from(&previous);

    assert_eq!(returning.author.as_str(), "a2");
    assert_eq!(returning.maximums, Maximums::Free(3, 4));
    assert_eq!(returning.get_usage(), (20, 10));
    assert!(returning.is_valid());
}

#[test]
fn connectivity_and_limit_setters() {
    let mut c = Client::new();
    let h = Host { a: 2, b: 9, conn_time: 1 };
    c.set_connectivity(Connection::Connected(h));
    assert_eq!(c.connected, Connection::Connected(h));
    c.set_limit(42);
    assert_eq!(c.limit, 42);
}

#[test]
fn roster_inserts_replaces_and_removes() {
    let mut table = Clients::new();
    assert_eq!(table.len(), 0);

    let c1 = Client::new()
        .set_public_key(GOOD_PK.to_string())
        .set_author("a1".to_string());
    table.put(c1);
    assert_eq!(table.len(), 1);

    // Same key: replaced, not duplicated.
    let c2 = Client::new()
        .set_public_key(GOOD_PK.to_string())
        .set_author("a2".to_string());
    table.put(c2);
    assert_eq!(table.len(), 1);
    assert_eq!(table.get(GOOD_PK).unwrap().author.as_str(), "a2");

    let taken = table.take(GOOD_PK).unwrap();
    assert_eq!(taken.author.as_str(), "a2");
    assert_eq!(table.len(), 0);
    assert!(table.get(GOOD_PK).is_none());
    assert!(table.take(GOOD_PK).is_none());
}
