use version_watch::text::{
    chars_of, find_first, is_whitespace, lower_cased, matches_at, replaced, slice_of, string_of,
    to_ascii_lower, trimmed, without, without_leading, without_surrounding,
};

fn chars(s: &str) -> Vec<char> {
    s.chars().collect()
}

fn text(v: &Vec<char>) -> String {
    v.iter().collect()
}

#[test]
fn characters_and_strings_convert_both_ways() {
    assert_eq!(chars_of("a\u{e9}\u{1F600}z"), vec!['a', '\u{e9}', '\u{1F600}', 'z']);
    assert_eq!(chars_of(""), Vec::<char>::new());
    assert_eq!(string_of(&vec!['v', '1', '.', '0']), "v1.0".to_string());
    assert_eq!(string_of(&Vec::new()), String::new());
    for s in ["", "x", "1.2.3", "gr\u{fc}n \u{4e2d}"] {
        assert_eq!(string_of(&chars_of(s)), s.to_string());
    }
}

#[test]
fn white_space_is_what_unicode_says() {
    for n in 0..=0x10FFFFu32 {
        if let Some(c) = char::from_u32(n) {
            assert_eq!(is_whitespace(c), c.is_whitespace(), "U+{:04X}", n);
        }
    }
}

#[test]
fn trimming_agrees_with_the_standard_library() {
    for s in ["", " ", "a", "  a b  ", "\t\n1.2\r\n", "\u{a0}x\u{3000}", "a  ", "  a", " \u{2003} "]
    {
        assert_eq!(text(&trimmed(&chars(s))), s.trim().to_string());
    }
}

#[test]
fn removal_agrees_with_the_standard_library() {
    let cases = [
        ("mytool-2.3.1", "mytool"),
        ("aabb", "ab"),
        ("aaa", "aa"),
        ("abcabcabc", "abc"),
        ("abc", ""),
        ("", "abc"),
        ("ab", "abc"),
        ("xxabxx", "x"),
        ("foo foo-foo", "foo"),
    ];
    for (s, pat) in cases {
        assert_eq!(text(&without(&chars(s), &chars(pat))), s.replace(pat, ""));
    }
    assert_eq!(text(&without(&chars("aabb"), &chars("ab"))), "ab".to_string());
}

#[test]
fn occurrences_are_found_where_they_stand() {
    let s = chars("a_version=b_version=");
    let pat = chars("_version=");
    assert!(matches_at(&s, 1, &pat));
    assert!(!matches_at(&s, 0, &pat));
    assert!(!matches_at(&s, 12, &pat));
    assert!(!matches_at(&s, 100, &pat));
    assert!(matches_at(&s, 20, &Vec::new()));
    assert!(!matches_at(&s, 21, &Vec::new()));
    assert_eq!(find_first(&s, &pat), Some(1));
    assert_eq!(find_first(&s, &chars("b_")), Some(10));
    assert_eq!(find_first(&s, &chars("zz")), None);
    assert_eq!(find_first(&s, &Vec::new()), Some(0));
    assert_eq!(find_first(&Vec::new(), &Vec::new()), Some(0));
    assert_eq!(find_first(&Vec::new(), &pat), None);
}

#[test]
fn slices_replacements_and_strips() {
    let s = chars("v_1_2");
    assert_eq!(text(&slice_of(&s, 1, 4)), "_1_".to_string());
    assert_eq!(text(&slice_of(&s, 2, 2)), String::new());
    assert_eq!(text(&replaced(&s, '_', '-')), "v-1-2".to_string());
    assert_eq!(text(&replaced(&s, 'x', '-')), "v_1_2".to_string());
    assert_eq!(text(&without_leading(&s, 'v')), "_1_2".to_string());
    assert_eq!(text(&without_leading(&s, '_')), "v_1_2".to_string());
    assert_eq!(text(&without_leading(&chars("vv1"), 'v')), "v1".to_string());
    assert_eq!(text(&without_leading(&Vec::new(), 'v')), String::new());
    assert_eq!(text(&without_surrounding(&chars("\"\"1.0\""), '"')), "1.0".to_string());
    assert_eq!(text(&without_surrounding(&chars("\"\"\""), '"')), String::new());
    assert_eq!(text(&without_surrounding(&chars("1\"0"), '"')), "1\"0".to_string());
}

#[test]
fn lower_casing_agrees_with_the_standard_library() {
    for n in 0..=0x10FFFFu32 {
        if let Some(c) = char::from_u32(n) {
            assert_eq!(to_ascii_lower(c), c.to_ascii_lowercase(), "U+{:04X}", n);
            if n < 0x3000 {
                let text = c.to_string();
                assert_eq!(lower_cased(&text), text.to_lowercase(), "U+{:04X}", n);
            }
        }
    }
    let cases = [
        "",
        "Foo v3.2.1.TAR.GZ",
        "ALL UPPER_CASE-123",
        "already lower",
        "@[`{AZaz",
        "\u{c9}COLE Sup\u{e9}rieure",
        "\u{39f}\u{394}\u{39f}\u{3a3}",
        "STRASSE \u{1e9e}",
        "\u{130}stanbul",
    ];
    for text in cases {
        assert_eq!(lower_cased(text), text.to_lowercase(), "{:?}", text);
    }
    assert_eq!(lower_cased("Python3-3.11 RC"), "python3-3.11 rc".to_string());
    assert_eq!(lower_cased("\u{c9}COLE"), "\u{e9}cole".to_string());
}
