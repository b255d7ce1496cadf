use mega_save::x::url::parse_status_input;

#[test]
fn parses_x_url() {
    let r = parse_status_input("https://x.com/MadFrnrNpf/status/2071418683029676461?s=20").unwrap();
    assert_eq!(r.id, "2071418683029676461");
    assert_eq!(r.user.as_deref(), Some("MadFrnrNpf"));
}

#[test]
fn parses_twitter_url() {
    let r = parse_status_input("https://twitter.com/foo_bar/statuses/1234567890").unwrap();
    assert_eq!(r.id, "1234567890");
    assert_eq!(r.user.as_deref(), Some("foo_bar"));
}

#[test]
fn parses_bare_id() {
    let r = parse_status_input("2071418683029676461").unwrap();
    assert_eq!(r.id, "2071418683029676461");
    assert!(r.user.is_none());
}
