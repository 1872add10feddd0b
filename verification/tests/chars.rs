use yomiage_bot::chars::{
    contains, decimal_text, ends_with, join, parse_i64, parse_u64, replace_text,
    signed_decimal_text, starts_with, strip_prefix, trim_text, two_digit_text, Edge,
};
use yomiage_bot::rank::rank;
use yomiage_bot::scale::{is_between, is_within, Scale, ONE};

#[test]
fn numbers_are_written_and_read_back() {
    for n in [0, 7, 10, 99, 100, 18_446_744_073_709_551_615] {
        assert_eq!(decimal_text(n), n.to_string());
        assert_eq!(parse_u64(&decimal_text(n)), Some(n));
    }
    for n in [0, 1, -1, 60, -60, i64::MAX, i64::MIN] {
        assert_eq!(signed_decimal_text(n), n.to_string());
        assert_eq!(parse_i64(&signed_decimal_text(n)), Some(n));
    }
    assert_eq!(two_digit_text(5), "05");
    assert_eq!(two_digit_text(45), "45");
}

#[test]
fn numbers_are_read_as_std_reads_them() {
    for text in [
        "", "+", "-", "+5", "-5", "--5", "007", " 7", "7 ", "1a", "１",
        "18446744073709551615", "18446744073709551616", "9223372036854775807",
        "9223372036854775808", "-9223372036854775808", "-9223372036854775809",
    ] {
        assert_eq!(parse_u64(text), text.parse::<u64>().ok(), "{text:?}");
        assert_eq!(parse_i64(text), text.parse::<i64>().ok(), "{text:?}");
    }
}

#[test]
fn texts_are_searched_as_std_searches_them() {
    for (text, part) in [("", ""), ("abc", ""), ("abcab", "ab"), ("aaa", "aa"), ("曲名", "名"), ("a", "ab")] {
        assert_eq!(starts_with(text, part), text.starts_with(part));
        assert_eq!(ends_with(text, part), text.ends_with(part));
        assert_eq!(contains(text, part), text.contains(part));
        assert_eq!(strip_prefix(text, part).as_deref(), text.strip_prefix(part));
        if !part.is_empty() {
            assert_eq!(replace_text(text, part, "x"), text.replace(part, "x"));
        }
    }
}

#[test]
fn edges_are_trimmed_of_any_white_space() {
    assert_eq!(trim_text(Edge::Space, " \t　a b\u{85}\n"), "a b");
    assert_eq!(trim_text(Edge::Space, "　 "), "");
    assert_eq!(trim_text(Edge::SpaceOrComma, "、 、a、b 、"), "a、b");
}

#[test]
fn parts_are_joined() {
    assert_eq!(join(&vec![], ", "), "");
    assert_eq!(join(&vec!["a".to_owned(), "b".to_owned()], ", "), "a, b");
}

#[test]
fn a_ranking_keeps_the_order_of_equals() {
    let things = vec![('a', 1), ('b', 3), ('c', 1), ('d', 3), ('e', 2)];
    assert_eq!(
        rank(things),
        [('b', 3), ('d', 3), ('e', 2), ('a', 1), ('c', 1)]
    );
}

#[test]
fn numbers_are_compared_by_their_value() {
    let scale = |value: f32| Scale {
        bits: value.to_bits(),
    };
    assert_eq!(ONE, 1.0f32.to_bits());
    let values = [
        0.0, -0.0, 1.0, -1.0, 0.999, 1.001, 1e-40, -1e-40, f32::MAX, f32::INFINITY, f32::NEG_INFINITY,
        f32::NAN,
    ];
    for value in values {
        let inside = (0.0..=1.0).contains(&value);
        assert_eq!(is_between(scale(value), 0, ONE), inside, "{value}");
        let near = (-1.0..=1.0).contains(&value);
        assert_eq!(is_within(scale(value), ONE), near, "{value}");
    }
}
