use spark::models::order::{order_by_title, precedes, title_keys};
use spark::util::text::{
    chars_of, next_line, push_decimal, push_range, range_starts_with, remove_all, same_chars,
    string_of, trim_range,
};

fn chars(s: &str) -> Vec<char> {
    s.chars().collect()
}

#[test]
fn characters_and_strings() {
    assert_eq!(chars_of("añ→z"), vec!['a', 'ñ', '→', 'z']);
    assert_eq!(chars_of(""), Vec::<char>::new());
    assert_eq!(string_of(&chars("hello"), 1, 4), "ell");
    assert_eq!(string_of(&chars("hello"), 2, 2), "");
    let mut s = "x".to_string();
    push_range(&mut s, &chars("hello"), 0, 5);
    assert_eq!(s, "xhello");
    assert!(same_chars(&chars("abc"), &chars("abc")));
    assert!(!same_chars(&chars("abc"), &chars("abd")));
    assert!(!same_chars(&chars("abc"), &chars("ab")));
}

#[test]
fn white_space_is_trimmed_at_both_ends() {
    let v = chars(" \t a b \r\n");
    assert_eq!(trim_range(&v, 0, v.len()), (3, 6));
    let v = chars("\u{a0}\u{2003}x\u{3000}");
    assert_eq!(trim_range(&v, 0, v.len()), (2, 3));
    let v = chars("   ");
    let (a, b) = trim_range(&v, 0, v.len());
    assert_eq!(a, b);
    let v = chars("ab");
    assert_eq!(trim_range(&v, 0, 2), (0, 2));
    assert_eq!(trim_range(&v, 1, 1), (1, 1));
    let v = chars("\u{200b}x");
    assert_eq!(trim_range(&v, 0, v.len()), (0, 2));
}

#[test]
fn prefixes() {
    let v = chars("xx# title");
    assert!(range_starts_with(&v, 2, v.len(), &chars("# ")));
    assert!(!range_starts_with(&v, 0, v.len(), &chars("# ")));
    assert!(!range_starts_with(&v, 2, 3, &chars("# ")));
    assert!(range_starts_with(&v, 2, 2, &chars("")));
}

#[test]
fn occurrences_are_removed() {
    assert_eq!(remove_all(&chars("a[x]b[x][x]c"), &chars("[x]")), chars("abc"));
    assert_eq!(remove_all(&chars("aaa"), &chars("aa")), chars("a"));
    assert_eq!(remove_all(&chars("abc"), &chars("")), chars("abc"));
    assert_eq!(remove_all(&chars("abc"), &chars("abcd")), chars("abc"));
    assert_eq!(remove_all(&chars("abab"), &chars("ab")), chars(""));
}

#[test]
fn lines_end_at_line_feeds() {
    let v = chars("one\r\ntwo\n\nlast");
    assert_eq!(next_line(&v, 0), (3, 5));
    assert_eq!(next_line(&v, 5), (8, 9));
    assert_eq!(next_line(&v, 9), (9, 10));
    assert_eq!(next_line(&v, 10), (14, 14));
    let v = chars("\r\nx\r");
    assert_eq!(next_line(&v, 0), (0, 2));
    assert_eq!(next_line(&v, 2), (4, 4));
}

#[test]
fn numbers_in_decimal() {
    let mut s = String::new();
    push_decimal(&mut s, 0);
    s.push(' ');
    push_decimal(&mut s, 7);
    s.push(' ');
    push_decimal(&mut s, 10);
    s.push(' ');
    push_decimal(&mut s, 1234567890);
    assert_eq!(s, "0 7 10 1234567890");
}

#[test]
fn titles_are_ordered_by_their_characters() {
    assert!(precedes(&chars("Apple"), &chars("Zebra")));
    assert!(!precedes(&chars("Zebra"), &chars("Apple")));
    assert!(precedes(&chars("Zebra"), &chars("apple")));
    assert!(precedes(&chars("App"), &chars("Apple")));
    assert!(!precedes(&chars("Apple"), &chars("App")));
    assert!(precedes(&chars("same"), &chars("same")));
    assert!(precedes(&chars(""), &chars("")));
    assert!(precedes(&chars("z"), &chars("é")));
    for (a, b) in [("a", "b"), ("Z", "a"), ("é", "z"), ("ab", "a"), ("", "x"), ("𝄞", "\u{ffff}")] {
        assert_eq!(precedes(&chars(a), &chars(b)), a <= b);
        assert_eq!(precedes(&chars(b), &chars(a)), b <= a);
    }
}

#[test]
fn the_order_of_titles_is_stable() {
    let titles: Vec<String> =
        ["pear", "apple", "fig", "apple", "Pear", ""].iter().map(|s| s.to_string()).collect();
    let keys = title_keys(&titles);
    assert_eq!(keys[2], vec!['f', 'i', 'g']);
    assert_eq!(order_by_title(&keys), vec![5, 4, 1, 3, 2, 0]);
    assert_eq!(order_by_title(&Vec::new()), Vec::<usize>::new());
}
