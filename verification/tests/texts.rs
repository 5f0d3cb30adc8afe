//! Texts, maps and JSON.
use cells::json;
use cells::json::{Json, Members};
use cells::maps::{IdMap, TextMap};
use cells::text;

#[test]
fn numbers_read_back() {
    for n in [0, 9, 10, 12345, u64::MAX] {
        assert_eq!(text::decimal_text(n), n.to_string());
        assert_eq!(text::parse_u64(&text::decimal_text(n)), Some(n));
    }
    for n in [i64::MIN, -1, 0, i64::MAX] {
        assert_eq!(text::signed_decimal_text(n), n.to_string());
        assert_eq!(text::parse_i64(&n.to_string()), Some(n));
    }
    assert_eq!(text::parse_u64("18446744073709551616"), None);
    assert_eq!(text::parse_u64("+7"), Some(7));
    assert_eq!(text::parse_u64(""), None);
    assert_eq!(text::parse_i64("-9223372036854775809"), None);
    assert_eq!(text::hex_text(&[0, 171, 255]), "00abff");
}

#[test]
fn texts_are_cut_and_trimmed() {
    assert_eq!(text::strip_prefix("abc", "ab"), Some("c".to_string()));
    assert_eq!(text::strip_prefix("abc", "b"), None);
    assert_eq!(text::trim(" \u{2003}a b\n"), "a b");
    assert_eq!(text::split("a,,b", ','), ["a", "", "b"]);
    assert_eq!(text::to_ascii_lowercase("AbC\u{c9}"), "abc\u{c9}");
    assert!(text::eq_ignore_ascii_case("HoSt", "host"));
    assert!(text::less("a", "ab") && text::less("Z", "a") && !text::less("b", "a"));
}

#[test]
fn maps_keep_their_order() {
    let mut ids: IdMap<u8> = IdMap::new();
    ids.insert(3, 1);
    ids.insert(1, 2);
    assert_eq!(ids.insert(3, 4), Some(1));
    assert_eq!(ids.ids(), [1, 3]);
    assert_eq!(ids.remove(1), Some(2));
    let mut texts: TextMap<u8> = TextMap::new();
    texts.insert("b".into(), 1);
    texts.insert("a".into(), 2);
    assert_eq!(texts.keys(), ["a", "b"]);
    assert_eq!(texts.get("b"), Some(&1));
    assert_eq!(texts.remove("b"), Some(1));
    assert_eq!(texts.len(), 1);
}

#[test]
fn json_members_are_found() {
    let mut members = Members::new();
    members.put("n", json::unsigned(u64::MAX));
    members.put("t", json::of_texts(&vec!["x".to_string()]));
    let object = members.object();
    assert!(matches!(object.get("n"), Some(Json::Uint(u64::MAX))));
    assert_eq!(object.get("t").unwrap().as_array().unwrap()[0].as_str(), Some("x"));
    assert!(object.get("none").is_none());
}
