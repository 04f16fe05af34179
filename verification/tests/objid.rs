use twz::objid::{objid_from_parts, objid_join, objid_parse, objid_split};

#[test]
fn split_and_join_are_inverses() {
    let id: u128 = 0x0123_4567_89ab_cdef_fedc_ba98_7654_3210;
    let (hi, lo) = objid_split(id);
    assert_eq!(hi, 0x0123_4567_89ab_cdef);
    assert_eq!(lo, 0xfedc_ba98_7654_3210);
    assert_eq!(objid_from_parts(hi, lo), id);
    assert_eq!(objid_join(hi as i64, lo as i64), id);
}

#[test]
fn parse_plain_hex() {
    assert_eq!(objid_parse("1234"), Some(0x1234));
    assert_eq!(objid_parse("0xdeadBEEF"), Some(0xdead_beef));
    assert_eq!(objid_parse("  0xff  "), Some(0xff));
}

#[test]
fn parse_colon_halves() {
    assert_eq!(
        objid_parse("123:456"),
        Some(objid_from_parts(0x123, 0x456))
    );
    assert_eq!(
        objid_parse("0xabc:0xdef"),
        Some(objid_from_parts(0xabc, 0xdef))
    );
    // a second colon ends the lower half
    assert_eq!(objid_parse("1:2:3"), Some(objid_from_parts(1, 2)));
}

#[test]
fn parse_rejects_bad_input() {
    assert_eq!(objid_parse(""), None);
    assert_eq!(objid_parse("   "), None);
    assert_eq!(objid_parse("xyz"), None);
    assert_eq!(objid_parse("12:"), None);
    assert_eq!(objid_parse(":12"), None);
    // 33 hex digits overflow 128 bits
    assert_eq!(objid_parse("100000000000000000000000000000000"), None);
    // 17 hex digits overflow a 64-bit half
    assert_eq!(objid_parse("10000000000000000:1"), None);
}
