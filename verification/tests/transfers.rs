use reseda_server::meter::parse_transfers;

#[test]
fn parses_one_row() {
    let rows = parse_transfers("peerkey\t100\t200");
    assert_eq!(rows.len(), 1);
    assert_eq!(rows[0].public_key.as_str(), "peerkey");
    assert_eq!(rows[0].up, 100);
    assert_eq!(rows[0].down, 200);
}

#[test]
fn parses_several_rows_and_trims_the_report() {
    let rows = parse_transfers("\nk1\t1\t2\nk2\t3\t4 \n");
    assert_eq!(rows.len(), 2);
    assert_eq!(rows[0].public_key.as_str(), "k1");
    assert_eq!((rows[0].up, rows[0].down), (1, 2));
    assert_eq!(rows[1].public_key.as_str(), "k2");
    assert_eq!((rows[1].up, rows[1].down), (3, 4));
}

#[test]
fn empty_output_means_no_peers() {
    assert_eq!(parse_transfers("").len(), 0);
    assert_eq!(parse_transfers("   \n  ").len(), 0);
}

#[test]
fn malformed_lines_are_skipped() {
    let rows = parse_transfers("k1\t1\t2\nbroken line\nk2\tx\t4\nk3\t5\t6");
    assert_eq!(rows.len(), 2);
    assert_eq!(rows[0].public_key.as_str(), "k1");
    assert_eq!(rows[1].public_key.as_str(), "k3");
}

#[test]
fn extra_fields_are_ignored() {
    let rows = parse_transfers("k1\t7\t8\tanything");
    assert_eq!(rows.len(), 1);
    assert_eq!((rows[0].up, rows[0].down), (7, 8));
}
