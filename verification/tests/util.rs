//! Names, comments, digests and text measures.
use codeatlas::util::{
    clean_javadoc, digest_parts, estimate_tokens, has_cjk, sha256_hex, to_snake, truncate_chars,
};

#[test]
fn snake_handles_camel_and_separators() {
    assert_eq!(to_snake("groupBuying"), "group_buying");
    assert_eq!(to_snake("buyTogether"), "buy_together");
    assert_eq!(to_snake("t_coupon_template"), "t_coupon_template");
    assert_eq!(to_snake("ICouponDubboService"), "i_coupon_dubbo_service");
}

#[test]
fn javadoc_keeps_prose_and_tags() {
    let raw = "/**\n * 促销服务化接口\n * @param id 活动ID\n */";
    assert_eq!(
        clean_javadoc(raw).unwrap(),
        "促销服务化接口\n@param id 活动ID"
    );
}

#[test]
fn javadoc_empty_is_none() {
    assert!(clean_javadoc("/**\n *\n */").is_none());
}

#[test]
fn cjk_detection() {
    assert!(has_cjk("特价活动"));
    assert!(!has_cjk("bargain promotion"));
}

#[test]
fn digests_are_lower_case_hexadecimal() {
    assert_eq!(
        sha256_hex(b"abc"),
        "ba7816bf8f01cfea414140de5dae2223b00361a396177a9cb410ff61f20015ad"
    );
    assert_eq!(
        sha256_hex(b""),
        "e3b0c44298fc1c149afbf4c8996fb92427ae41e4649b934ca495991b7852b855"
    );
}

#[test]
fn digest_parts_keep_their_boundaries() {
    assert_eq!(digest_parts(&["ab"]), sha256_hex(b"ab\0"));
    assert_eq!(digest_parts(&["a", "b"]), sha256_hex(b"a\0b\0"));
    assert_ne!(digest_parts(&["ab", "c"]), digest_parts(&["a", "bc"]));
    assert_ne!(digest_parts(&["a"]), digest_parts(&["a", ""]));
}

#[test]
fn token_estimates_round_up() {
    assert_eq!(estimate_tokens(""), 0);
    assert_eq!(estimate_tokens("a"), 1);
    assert_eq!(estimate_tokens("abcde"), 2);
    assert_eq!(estimate_tokens("abcdef"), 3);
    // Three bytes a character.
    assert_eq!(estimate_tokens("特价活动"), 5);
}

#[test]
fn truncation_prefers_a_line_boundary() {
    assert_eq!(truncate_chars("short", 10), "short");
    assert_eq!(truncate_chars("aaaaaaaa\nbbbb", 10), "aaaaaaaa\n…（已截断）");
    // The only boundary is too early to be worth cutting at.
    assert_eq!(truncate_chars("a\nbbbbbbbbbbbb", 10), "a\nbbbbbbbb…（已截断）");
    assert_eq!(truncate_chars("特价活动优惠", 4), "特价活动…（已截断）");
}

#[test]
fn snake_splits_acronyms_before_their_last_letter() {
    assert_eq!(to_snake("HTTPServer"), "http_server");
    assert_eq!(to_snake("buy-2.Get 1"), "buy_2_get_1");
    assert_eq!(to_snake(""), "");
}

#[test]
fn snake_case_stays_as_it_is() {
    for s in ["groupBuying", "HTTPServer", "buy-2.Get 1", "t_coupon_template", ""] {
        let once = to_snake(s);
        assert_eq!(to_snake(&once), once);
    }
}

#[test]
fn digests_have_sixty_four_digits() {
    for d in [sha256_hex(b""), sha256_hex(b"abc"), digest_parts(&["a", "bc"])] {
        assert_eq!(d.len(), 64);
        assert!(d.chars().all(|c| matches!(c, '0'..='9' | 'a'..='f')));
    }
    assert_eq!(digest_parts(&["ab", "c"]), sha256_hex(b"ab\0c\0"));
    assert_ne!(digest_parts(&["ab", "c"]), digest_parts(&["a", "bc"]));
}
