use fileshare::peer::PeerId;

#[test]
fn parse_given_valid_peer_id_returns_some() {
    let expected_peer_id = PeerId { uuid: 0, hostname: "test".to_string() };
    let valid_peer_id_str = "test;00000000-0000-0000-0000-000000000000";

    let parsed = PeerId::parse(valid_peer_id_str);

    assert!(parsed.is_some());
    assert!(parsed.unwrap().eq_peer(&expected_peer_id));
}

#[test]
fn parse_given_invalid_peer_id_returns_none() {
    let invalid_peer_id_str = "test;00000000--000000000000";

    let parsed = PeerId::parse(invalid_peer_id_str);

    assert!(parsed.is_none());
}

#[test]
fn to_string_returns_correct_format() {
    let peer_id = PeerId { uuid: 0, hostname: "test".to_string() };

    let string = peer_id.to_string();

    assert_eq!(string, "test;00000000-0000-0000-0000-000000000000");
}

#[test]
fn parse_undoes_to_string() {
    let peer_id = PeerId { uuid: 0x0123456789abcdef0123456789abcdef, hostname: "host-7".to_string() };
    let parsed = PeerId::parse(peer_id.to_string().as_str()).unwrap();
    assert!(parsed.eq_peer(&peer_id));
}

#[test]
fn generate_yields_version_four_identity() {
    let p = fileshare::peer::PeerId::generate();
    assert_eq!((p.uuid >> 76) & 0xf, 4);
    assert!(PeerId::parse(p.to_string().as_str()).is_some());
}
