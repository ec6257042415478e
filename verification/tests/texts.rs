use hydra_engine::commit_ledger::{engine_digest_v0, hex};
use hydra_engine::ids::Id;
use hydra_engine::text::{decimal, decimal_wide, join, quote, signed_decimal, str_less, str_same};
use std::collections::hash_map::DefaultHasher;
use std::hash::{Hash, Hasher};

#[test]
fn numbers_are_rendered_in_decimal() {
    for n in [0, 9, 10, 11, 99, 100, 1_234_567_890, u64::MAX] {
        assert_eq!(decimal(n), n.to_string());
    }
    assert_eq!(decimal_wide(u128::MAX), u128::MAX.to_string());
    for n in [0, 1, -1, 10, -10, i64::MIN, i64::MAX] {
        assert_eq!(signed_decimal(n), n.to_string());
    }
}

#[test]
fn numbers_are_rendered_in_hexadecimal() {
    for n in [0, 1, 15, 16, 255, 0xdead_beef, u64::MAX] {
        assert_eq!(hex(n, 16), format!("{n:016x}"));
    }
    assert_eq!(hex(0x1234, 2), "34");
    assert_eq!(hex(0x1234, 0), "");
}

#[test]
fn texts_are_compared_by_their_characters() {
    let words = ["", "a", "ab", "abc", "b", "B", "z", "ä", "é", "日本", "\u{10ffff}"];
    for a in words {
        for b in words {
            assert_eq!(str_less(a, b), a < b, "{a} < {b}");
            assert_eq!(str_same(a, b), a == b, "{a} == {b}");
            assert_eq!(Id::from_str(a).precedes(&Id::from_str(b)), a < b);
            assert_eq!(Id::from_str(a).same(&Id::from_str(b)), a == b);
        }
    }
}

#[test]
fn quotes_escape_what_is_special() {
    assert_eq!(quote("plain"), "\"plain\"");
    for text in ["", "with \"quotes\"", "line\nbreak", "tab\t", "back\\slash", "ä"] {
        assert_eq!(quote(text), format!("{text:?}"));
    }
}

#[test]
fn lists_are_joined() {
    assert_eq!(join(&vec![], "; "), "");
    assert_eq!(join(&vec!["a".to_string()], "; "), "a");
    assert_eq!(join(&vec!["a".to_string(), "b".to_string(), "".to_string()], "; "), "a; b; ");
}

#[test]
fn digests_are_those_of_the_default_hasher() {
    for text in ["", "a", "some material", "日本"] {
        let mut hasher = DefaultHasher::new();
        text.hash(&mut hasher);
        assert_eq!(engine_digest_v0(text), format!("engine-v0:{:016x}", hasher.finish()));
    }
    assert_ne!(engine_digest_v0("a"), engine_digest_v0("b"));
}
