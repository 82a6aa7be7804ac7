use version_watch::error::Error;
use version_watch::normalize::{
    canonical_version, find_version_token, is_ascii_digit, normalize,
};

fn chars(s: &str) -> Vec<char> {
    s.chars().collect()
}

#[test]
fn strips_a_leading_v() {
    assert_eq!(normalize("v1.4.0", "pkg"), Ok("1.4.0".to_string()));
}

#[test]
fn removes_the_package_name() {
    assert_eq!(normalize("mytool-2.3.1", "mytool"), Ok("2.3.1".to_string()));
}

#[test]
fn canonical_input_is_unchanged() {
    assert_eq!(normalize("2.3.1", "pkg"), Ok("2.3.1".to_string()));
    assert_eq!(normalize("7", "pkg"), Ok("7".to_string()));
    assert_eq!(normalize("10.20.30.40.50", ""), Ok("10.20.30.40.50".to_string()));
}

#[test]
fn normalizing_twice_changes_nothing() {
    for raw in ["Foo v3.2.1.tar.gz", "release-0.9_beta", "v12", "tool 1.2.3.4.5 (stable)"] {
        let once = normalize(raw, "foo").unwrap();
        assert_eq!(normalize(&once, "foo"), Ok(once.clone()));
    }
}

#[test]
fn stops_at_the_first_non_numeric_separator() {
    let lowered = "Foo_2.0-linux.tar.gz".to_lowercase();
    assert_eq!(normalize(&lowered, "foo"), Ok("2.0".to_string()));
    assert_eq!(canonical_version(&lowered, "foo"), Ok("2.0".to_string()));
}

#[test]
fn text_without_digits_has_no_version() {
    assert_eq!(normalize("latest release", "pkg"), Err(Error::VersionNotFound));
    assert_eq!(normalize("", "pkg"), Err(Error::VersionNotFound));
    assert_eq!(normalize("v-._", "pkg"), Err(Error::VersionNotFound));
}

#[test]
fn text_and_name_are_lower_cased_before_the_name_is_removed() {
    assert_eq!(normalize("Python3-3.11", "python3"), Ok("3.11".to_string()));
    assert_eq!(normalize("python3-3.11", "Python3"), Ok("3.11".to_string()));
    assert_eq!(normalize("LIB2GEOM 1.3", "Lib2Geom"), Ok("1.3".to_string()));
}

#[test]
fn text_beyond_ascii_is_lower_cased_too() {
    assert_eq!(normalize("\u{c9}COLE3-3.11", "\u{e9}cole3"), Ok("3.11".to_string()));
    assert_eq!(normalize("\u{e9}cole3-3.11", "\u{c9}COLE3"), Ok("3.11".to_string()));
    assert_eq!(canonical_version("\u{c9}COLE3-3.11", "\u{e9}cole3"), Ok("3".to_string()));
}

#[test]
fn lowered_text_is_taken_as_it_stands() {
    assert_eq!(canonical_version("Python3-3.11", "python3"), Ok("3".to_string()));
    assert_eq!(canonical_version("python3-3.11", "python3"), Ok("3.11".to_string()));
}

#[test]
fn every_occurrence_of_the_name_is_removed() {
    assert_eq!(normalize("x264 x264-164", "x264"), Ok("164".to_string()));
    assert_eq!(normalize("aabb1", "ab"), Ok("1".to_string()));
}

#[test]
fn an_empty_name_removes_nothing() {
    assert_eq!(normalize("tool-4.5", ""), Ok("4.5".to_string()));
}

#[test]
fn a_name_inside_the_version_is_removed_too() {
    assert_eq!(normalize("1.2.3", "2"), Ok("1".to_string()));
    assert_eq!(normalize("1.2.3", "."), Ok("123".to_string()));
}

#[test]
fn a_dot_needs_a_digit_behind_it() {
    assert_eq!(normalize("1.", "pkg"), Ok("1".to_string()));
    assert_eq!(normalize("1..2", "pkg"), Ok("1".to_string()));
    assert_eq!(normalize("1.x", "pkg"), Ok("1".to_string()));
    assert_eq!(normalize(".5", "pkg"), Ok("5".to_string()));
    assert_eq!(normalize("3.2.1.tar.gz", "pkg"), Ok("3.2.1".to_string()));
}

#[test]
fn only_the_first_run_counts() {
    assert_eq!(normalize("2024-05-17", "pkg"), Ok("2024".to_string()));
    assert_eq!(normalize("release 1.2 of 3.4", "pkg"), Ok("1.2".to_string()));
}

#[test]
fn underscores_and_prefixes_do_not_reach_the_version() {
    assert_eq!(normalize("  v_1_2  ", "pkg"), Ok("1".to_string()));
    assert_eq!(normalize("-v9.9", "pkg"), Ok("9.9".to_string()));
    assert_eq!(normalize("vv2.0", "pkg"), Ok("2.0".to_string()));
}

#[test]
fn only_ascii_digits_are_digits() {
    assert!(is_ascii_digit('0') && is_ascii_digit('5') && is_ascii_digit('9'));
    assert!(!is_ascii_digit('/') && !is_ascii_digit(':') && !is_ascii_digit('a'));
    assert!(!is_ascii_digit('\u{0663}'));
    assert_eq!(normalize("\u{0663}.\u{0661}", "pkg"), Err(Error::VersionNotFound));
    for n in 0..=0x10FFFFu32 {
        if let Some(c) = char::from_u32(n) {
            assert_eq!(is_ascii_digit(c), c.is_ascii_digit());
        }
    }
}

#[test]
fn the_token_is_located_by_its_bounds() {
    assert_eq!(find_version_token(&chars("ab12.34.cd")), Some((2, 7)));
    assert_eq!(find_version_token(&chars("7")), Some((0, 1)));
    assert_eq!(find_version_token(&chars("x1.2.")), Some((1, 4)));
    assert_eq!(find_version_token(&chars("none")), None);
    assert_eq!(find_version_token(&chars("")), None);
}

#[test]
fn the_token_is_the_first_match_of_the_dotted_numeric_pattern() {
    let pattern = regex::Regex::new(r"[0-9]+(\.[0-9]+)*").unwrap();
    let alphabet = ['1', '2', '.', '-', 'v', ' '];
    let mut texts: Vec<String> = vec![String::new()];
    let mut last: Vec<String> = vec![String::new()];
    for _ in 0..6 {
        let mut next = Vec::new();
        for text in &last {
            for c in alphabet {
                let mut longer = text.clone();
                longer.push(c);
                next.push(longer);
            }
        }
        texts.extend(next.iter().cloned());
        last = next;
    }
    assert_eq!(texts.len(), 1 + 6 + 36 + 216 + 1296 + 7776 + 46656);
    for text in &texts {
        let expected = pattern.find(text).map(|m| (m.start(), m.end()));
        assert_eq!(find_version_token(&chars(text)), expected, "{:?}", text);
    }
}
