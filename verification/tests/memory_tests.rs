use rabin::memory::{
    btree_max_entries, memory_usage_of, parse_decimal, parse_memory_usage, scale, unit_of,
};

#[test]
fn test_parse_memory_usage() {
    assert_eq!(parse_memory_usage("100"), Some(100u64));
    assert_eq!(parse_memory_usage("100b"), Some(100u64));
    assert_eq!(parse_memory_usage("100B"), Some(100u64));
    assert_eq!(parse_memory_usage("100k"), Some(100u64 * 1024));
    assert_eq!(parse_memory_usage("100K"), Some(100u64 * 1024));
    assert_eq!(parse_memory_usage("100m"), Some(100u64 * 1024 * 1024));
    assert_eq!(parse_memory_usage("100M"), Some(100u64 * 1024 * 1024));
    assert_eq!(
        parse_memory_usage("100g"),
        Some(100u64 * 1024 * 1024 * 1024)
    );
    assert_eq!(
        parse_memory_usage("100G"),
        Some(100u64 * 1024 * 1024 * 1024)
    );
}

#[test]
fn memory_usage_without_digits() {
    assert_eq!(parse_memory_usage(""), None);
    assert_eq!(parse_memory_usage("M"), None);
    assert_eq!(parse_memory_usage("lots"), None);
}

#[test]
fn memory_usage_takes_the_first_number() {
    assert_eq!(parse_memory_usage("about 12k or 99M"), Some(12 * 1024));
    assert_eq!(parse_memory_usage("x7"), Some(7));
    assert_eq!(parse_memory_usage("12kb"), Some(12 * 1024));
    // The unit is the letter right behind the digits.
    assert_eq!(parse_memory_usage("42 m"), Some(42));
    assert_eq!(parse_memory_usage("42t"), Some(42));
    assert_eq!(parse_memory_usage("007G"), Some(7 * 1024 * 1024 * 1024));
}

#[test]
fn memory_usage_at_the_limit() {
    assert_eq!(parse_memory_usage("18446744073709551615"), Some(u64::MAX));
    assert_eq!(parse_memory_usage("18446744073709551616"), None);
    assert_eq!(parse_memory_usage("18014398509481983K"), Some(18014398509481983 * 1024));
    assert_eq!(parse_memory_usage("18014398509481984K"), None);
    assert_eq!(parse_memory_usage("17179869183G"), Some(17179869183 * 1024 * 1024 * 1024));
    assert_eq!(parse_memory_usage("17179869184G"), None);
    assert_eq!(parse_memory_usage("17592186044416M"), None);
}

#[test]
fn memory_usage_of_other_digits() {
    // The pattern takes any decimal digit, but only 0 to 9 spell a number.
    assert_eq!(parse_memory_usage("\u{661}\u{662}"), None);
    assert_eq!(parse_memory_usage("\u{661}5k"), None);
}

#[test]
fn decimal_numbers() {
    assert_eq!(parse_decimal("0"), Some(0));
    assert_eq!(parse_decimal("1856"), Some(1856));
    assert_eq!(parse_decimal("000123"), Some(123));
    assert_eq!(parse_decimal(""), None);
    assert_eq!(parse_decimal("12a"), None);
    assert_eq!(parse_decimal("+12"), None);
    assert_eq!(parse_decimal("-1"), None);
    assert_eq!(parse_decimal(" 1"), None);
    assert_eq!(parse_decimal("1\u{e9}"), None);
    assert_eq!(parse_decimal("18446744073709551615"), Some(u64::MAX));
    assert_eq!(parse_decimal("18446744073709551616"), None);
    assert_eq!(parse_decimal("99999999999999999999999"), None);
}

#[test]
fn units() {
    assert_eq!(unit_of("G"), 1024 * 1024 * 1024);
    assert_eq!(unit_of("g"), 1024 * 1024 * 1024);
    assert_eq!(unit_of("M"), 1024 * 1024);
    assert_eq!(unit_of("m"), 1024 * 1024);
    assert_eq!(unit_of("K"), 1024);
    assert_eq!(unit_of("k"), 1024);
    assert_eq!(unit_of("B"), 1);
    assert_eq!(unit_of("b"), 1);
    assert_eq!(unit_of(""), 1);
    assert_eq!(unit_of("GG"), 1);
    assert_eq!(unit_of("T"), 1);
    assert_eq!(unit_of("\u{e9}"), 1);
}

#[test]
fn number_times_unit() {
    assert_eq!(scale("3", "k"), Some(3072));
    assert_eq!(scale("3", ""), Some(3));
    assert_eq!(scale("", "k"), None);
    assert_eq!(scale("3x", "k"), None);
    assert_eq!(scale("18446744073709551615", "b"), Some(u64::MAX));
    assert_eq!(scale("18446744073709551615", "k"), None);
}

#[test]
fn groups_of_a_match() {
    let text = |s: &str| Some(s.to_string());
    assert_eq!(memory_usage_of(&None), None);
    assert_eq!(
        memory_usage_of(&Some(vec![text("5M"), text("5"), text("M")])),
        Some(5 * 1024 * 1024)
    );
    // A number that took no part counts as 0, a unit that took no part as none.
    assert_eq!(memory_usage_of(&Some(vec![text("")])), Some(0));
    assert_eq!(memory_usage_of(&Some(vec![text("x"), None, text("k")])), Some(0));
    assert_eq!(memory_usage_of(&Some(vec![text("9"), text("9")])), Some(9));
    assert_eq!(memory_usage_of(&Some(vec![text("9"), text("9"), None])), Some(9));
    assert_eq!(memory_usage_of(&Some(vec![text("9"), text("nine"), None])), None);
}

#[test]
fn entries_in_a_budget() {
    assert_eq!(btree_max_entries(0), 0);
    assert_eq!(btree_max_entries(29), 0);
    assert_eq!(btree_max_entries(30), 1);
    assert_eq!(btree_max_entries(100 * 1024 * 1024), 3495253);
    assert_eq!(btree_max_entries(u64::MAX), 614891469123651720);
}
