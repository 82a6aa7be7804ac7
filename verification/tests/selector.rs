use version_watch::error::Error;
use version_watch::model::SelectorRule;
use version_watch::selector::{
    choose_query, default_rules, overrides, resolve, rule, verdicts_for,
};

fn table() -> Vec<SelectorRule> {
    vec![
        rule("/tags", "h2 > a"),
        rule(r"pypi\.org", ".package-header__name"),
        rule("releases", "span.release"),
    ]
}

#[test]
fn a_url_that_one_rule_matches_gets_that_rules_query() {
    assert_eq!(resolve("https://example.org/tags", None, &table()), Ok("h2 > a".to_string()));
    assert_eq!(
        resolve("https://pypi.org/project/x/", None, &table()),
        Ok(".package-header__name".to_string())
    );
}

#[test]
fn a_url_that_no_rule_matches_has_no_selector() {
    assert_eq!(resolve("https://example.org/download", None, &table()), Err(Error::NoSelectorFound));
    assert_eq!(resolve("https://example.org/tags", None, &Vec::new()), Err(Error::NoSelectorFound));
    assert_eq!(resolve("", None, &table()), Err(Error::NoSelectorFound));
}

#[test]
fn an_explicit_query_takes_precedence() {
    assert_eq!(
        resolve("https://example.org/tags", Some("div.mine"), &table()),
        Ok("div.mine".to_string())
    );
    assert_eq!(
        resolve("https://example.org/none", Some("div.mine"), &table()),
        Ok("div.mine".to_string())
    );
    assert_eq!(resolve("x", Some("not a [ selector"), &Vec::new()), Ok("not a [ selector".to_string()));
}

#[test]
fn an_empty_explicit_query_counts_as_none() {
    assert_eq!(resolve("https://example.org/tags", Some(""), &table()), Ok("h2 > a".to_string()));
    assert_eq!(resolve("https://example.org/none", Some(""), &table()), Err(Error::NoSelectorFound));
}

#[test]
fn the_first_matching_rule_wins() {
    assert_eq!(
        resolve("https://example.org/releases/tags", None, &table()),
        Ok("h2 > a".to_string())
    );
    let reversed: Vec<SelectorRule> = table().into_iter().rev().collect();
    assert_eq!(
        resolve("https://example.org/releases/tags", None, &reversed),
        Ok("span.release".to_string())
    );
}

#[test]
fn patterns_match_without_regard_to_case() {
    assert_eq!(resolve("HTTPS://EXAMPLE.ORG/TAGS", None, &table()), Ok("h2 > a".to_string()));
    let upper = vec![rule("/TAGS", "q")];
    assert_eq!(resolve("https://example.org/tags", None, &upper), Ok("q".to_string()));
}

#[test]
fn patterns_are_regular_expressions_searched_anywhere() {
    let rules = vec![rule(r"^https://[a-z]+\.example\.org/v\d+$", "q")];
    assert_eq!(resolve("https://dl.example.org/v12", None, &rules), Ok("q".to_string()));
    assert_eq!(resolve("https://dl.example.org/v12/x", None, &rules), Err(Error::NoSelectorFound));
    assert_eq!(resolve("https://dlXexampleYorg/tags", None, &table()), Ok("h2 > a".to_string()));
    assert_eq!(resolve("https://pypiXorg/", None, &table()), Err(Error::NoSelectorFound));
}

#[test]
fn a_rule_whose_pattern_does_not_compile_is_passed_over() {
    let rules = vec![rule("(unclosed", "bad"), rule("/tags", "good")];
    assert_eq!(resolve("https://example.org/tags", None, &rules), Ok("good".to_string()));
    assert_eq!(resolve("(unclosed", None, &vec![rule("(unclosed", "bad")]), Err(Error::NoSelectorFound));
}

#[test]
fn verdicts_decide_the_query() {
    let rules = table();
    assert_eq!(
        choose_query(None, &rules, &vec![Some(false), Some(true), Some(true)]),
        Ok(".package-header__name".to_string())
    );
    assert_eq!(
        choose_query(None, &rules, &vec![None, Some(false), Some(true)]),
        Ok("span.release".to_string())
    );
    assert_eq!(
        choose_query(None, &rules, &vec![None, Some(false), None]),
        Err(Error::NoSelectorFound)
    );
    assert_eq!(
        choose_query(Some("mine"), &rules, &vec![Some(true), Some(true), Some(true)]),
        Ok("mine".to_string())
    );
    assert_eq!(
        choose_query(Some(""), &rules, &vec![Some(true), Some(true), Some(true)]),
        Ok("h2 > a".to_string())
    );
    assert_eq!(choose_query(None, &rules, &vec![Some(false)]), Err(Error::NoSelectorFound));
    assert_eq!(
        choose_query(None, &rules, &vec![Some(false), Some(false), Some(false), Some(true)]),
        Err(Error::NoSelectorFound)
    );
    assert_eq!(choose_query(None, &Vec::new(), &vec![Some(true)]), Err(Error::NoSelectorFound));
}

#[test]
fn the_built_in_table_knows_the_usual_hosts() {
    let rules = default_rules();
    assert_eq!(rules.len(), 10);
    let cases = [
        ("https://github.com/owner/project/tags", 0),
        ("https://GitHub.com/owner/project/releases/latest", 1),
        ("https://gitlab.com/owner/project/-/tags", 2),
        ("https://gitlab.gnome.org/GNOME/glib/-/tags", 2),
        ("https://pypi.org/project/meson/", 3),
        ("https://download.savannah.nongnu.org/releases/attr/?C=M&O=D", 4),
        ("https://ftp.gnu.org/gnu/make/?C=M;O=D", 5),
        ("https://archlinux.org/packages/core/x86_64/linux/", 6),
        ("https://repology.org/project/zlib/information", 7),
        ("https://sourceforge.net/projects/infozip/files/", 8),
        ("https://www.freedesktop.org/software/libevdev/releases/x/?C=M;O=D", 9),
    ];
    for (url, index) in cases {
        assert_eq!(resolve(url, None, &rules), Ok(rules[index].query.clone()), "{}", url);
    }
    assert_eq!(resolve("https://example.org/tags", None, &rules), Err(Error::NoSelectorFound));
    assert_eq!(rules[3].pattern, r".*pypi\.org.+".to_string());
    assert_eq!(rules[6].query, "#pkgdetails > h2:nth-child(1)".to_string());
}

#[test]
fn the_rules_are_asked_up_to_the_first_match() {
    let rules = table();
    assert_eq!(
        verdicts_for("https://example.org/releases/tags", &rules),
        vec![Some(true), None, None]
    );
    assert_eq!(
        verdicts_for("https://pypi.org/releases", &rules),
        vec![Some(false), Some(true), None]
    );
    assert_eq!(
        verdicts_for("https://example.org/download", &rules),
        vec![Some(false), Some(false), Some(false)]
    );
    let broken = vec![rule("(unclosed", "bad"), rule("/tags", "good"), rule("(", "worse")];
    assert_eq!(verdicts_for("https://example.org/tags", &broken), vec![None, Some(true), None]);
    assert_eq!(verdicts_for("https://example.org/", &broken), vec![None, Some(false), None]);
    assert_eq!(verdicts_for("x", &Vec::new()), Vec::<Option<bool>>::new());
}

#[test]
fn resolving_is_choosing_on_the_verdicts() {
    let rules = table();
    for url in ["https://example.org/tags", "https://pypi.org/x", "https://example.org/none", ""] {
        for explicit in [None, Some(""), Some("div.mine")] {
            assert_eq!(
                resolve(url, explicit, &rules),
                choose_query(explicit, &rules, &verdicts_for(url, &rules))
            );
        }
    }
}

#[test]
fn only_a_query_that_is_not_empty_overrides() {
    assert!(overrides(Some("a")));
    assert!(overrides(Some(" ")));
    assert!(!overrides(Some("")));
    assert!(!overrides(None));
}
