use anytask::invite::{parse_invite_url, target_space_id, trim_start_slashes, InviteError, ParsedInvite};

#[test]
fn anytype_scheme_reads_query() {
    let inv = parse_invite_url("anytype://invite/?cid=bafy123&key=secret&spaceId=sp1").unwrap();
    assert_eq!(inv.cid, "bafy123");
    assert_eq!(inv.key, "secret");
    assert_eq!(inv.space_id, "sp1");
}

#[test]
fn anytype_scheme_decodes_and_last_wins() {
    let inv = parse_invite_url("anytype://invite/?cid=a%20b&cid=c&other=1").unwrap();
    assert_eq!(inv.cid, "c");
    assert_eq!(inv.key, "");
    assert_eq!(inv.space_id, "");
}

#[test]
fn web_link_reads_path_and_fragment() {
    let inv = parse_invite_url("https://invite.any.coop/bafyabc#key123").unwrap();
    assert_eq!(inv.cid, "bafyabc");
    assert_eq!(inv.key, "key123");
    assert_eq!(inv.space_id, "");
    let no_fragment = parse_invite_url("http://invite.any.coop/xyz").unwrap();
    assert_eq!(no_fragment.cid, "xyz");
    assert_eq!(no_fragment.key, "");
}

#[test]
fn empty_link_is_refused() {
    assert!(matches!(parse_invite_url(""), Err(InviteError::Empty)));
}

#[test]
fn non_address_is_refused() {
    assert!(matches!(parse_invite_url("not a url"), Err(InviteError::InvalidUrl(_))));
}

#[test]
fn other_scheme_is_refused() {
    assert!(matches!(parse_invite_url("ftp://host/file"), Err(InviteError::InvalidScheme)));
}

#[test]
fn trim_slashes() {
    assert_eq!(trim_start_slashes("///abc/d"), "abc/d");
    assert_eq!(trim_start_slashes("abc"), "abc");
    assert_eq!(trim_start_slashes("/"), "");
}

#[test]
fn target_space_prefers_invite() {
    let with = ParsedInvite { cid: "c".to_string(), key: "k".to_string(), space_id: "mine".to_string() };
    assert_eq!(target_space_id(&with, "preview".to_string()), "mine");
    let without = ParsedInvite { cid: "c".to_string(), key: "k".to_string(), space_id: String::new() };
    assert_eq!(target_space_id(&without, "preview".to_string()), "preview");
}
