//! The selector resolver: from an upstream URL, and possibly an explicit
//! query, to the query that locates the version on the page.
//!
//! An explicit, non-empty query is used as it is.  Otherwise the rules of a
//! table are tried in order, and the first whose pattern matches the URL
//! gives its query.

use vstd::prelude::*;
use regex::RegexBuilder;
use crate::error::{result_view, Error};
use crate::model::{rules_view, RuleModel, SelectorRule};

verus! {

/// Whether the regular expression `pattern`, read without regard to case,
/// has a match somewhere in `text`: what `Regex::is_match` of the `regex`
/// crate returns for them.
pub uninterp spec fn pattern_matches(pattern: Seq<char>, text: Seq<char>) -> bool;

/// `RegexBuilder::new`, `case_insensitive`, `build` and `Regex::is_match` of
/// the `regex` crate: `pattern` is compiled as a case-insensitive regular
/// expression and searched for anywhere in `text`.  Nothing is claimed of
/// which patterns compile, since that depends on a size limit measured on
/// the machine; `None` says that this one did not.  Of a pattern that did
/// compile, the contract names the answer.
#[verifier::external_body]
fn match_pattern(pattern: &str, text: &str) -> (r: Option<bool>)
    ensures
        r matches Some(b) ==> b == pattern_matches(pattern@, text@),
{
    match RegexBuilder::new(pattern).case_insensitive(true).build() {
        Ok(regex) => Some(regex.is_match(text)),
        Err(_) => None,
    }
}

/// The view of an optional string slice.
pub open spec fn optional_text(o: Option<&str>) -> Option<Seq<char>> {
    match o {
        Some(s) => Some(s@),
        None => None,
    }
}

/// Whether an explicit query is given: present and not empty.
pub open spec fn has_override(explicit: Option<Seq<char>>) -> bool {
    explicit matches Some(q) && q.len() > 0
}

/// Whether `verdicts` may be what the rules said of `url`, one verdict for
/// each rule: `None` for a rule whose pattern did not compile, else whether
/// the pattern matches.
pub open spec fn verdicts_agree(
    rules: Seq<RuleModel>,
    url: Seq<char>,
    verdicts: Seq<Option<bool>>,
) -> bool {
    &&& verdicts.len() == rules.len()
    &&& forall|i: int|
        0 <= i < rules.len() ==> (#[trigger] verdicts[i] matches Some(b) ==> b == pattern_matches(
            rules[i].pattern,
            url,
        ))
}

/// Whether rule `i` is the first whose verdict is a match.
pub open spec fn is_first_hit(rules: Seq<RuleModel>, verdicts: Seq<Option<bool>>, i: int) -> bool {
    &&& 0 <= i < rules.len()
    &&& i < verdicts.len()
    &&& verdicts[i] == Some(true)
    &&& forall|j: int| 0 <= j < i ==> verdicts[j] != Some(true)
}

/// Whether no rule's verdict is a match.
pub open spec fn no_hit(rules: Seq<RuleModel>, verdicts: Seq<Option<bool>>) -> bool {
    forall|j: int| 0 <= j < rules.len() && j < verdicts.len() ==> verdicts[j] != Some(true)
}

/// The query for a page, given what each rule said of its URL: the explicit
/// query if there is one, else the query of the first rule that matched,
/// else `NoSelectorFound`.
pub open spec fn chosen_query(
    explicit: Option<Seq<char>>,
    rules: Seq<RuleModel>,
    verdicts: Seq<Option<bool>>,
) -> Result<Seq<char>, Error> {
    if has_override(explicit) {
        Ok(explicit->Some_0)
    } else if exists|i: int| is_first_hit(rules, verdicts, i) {
        Ok(rules[choose|i: int| is_first_hit(rules, verdicts, i)].query)
    } else {
        Err(Error::NoSelectorFound)
    }
}

/// Whether `r` is a result that resolving may give: the chosen query for
/// some verdicts that agree with the rules' patterns.
pub open spec fn resolution_allowed(
    upstream: Seq<char>,
    explicit: Option<Seq<char>>,
    rules: Seq<RuleModel>,
    r: Result<Seq<char>, Error>,
) -> bool {
    exists|verdicts: Seq<Option<bool>>| #[trigger]
        verdicts_agree(rules, upstream, verdicts) && r == chosen_query(explicit, rules, verdicts)
}

/// At most one rule is the first to match.
pub proof fn lemma_first_hit_unique(
    rules: Seq<RuleModel>,
    verdicts: Seq<Option<bool>>,
    i: int,
    j: int,
)
    requires
        is_first_hit(rules, verdicts, i),
        is_first_hit(rules, verdicts, j),
    ensures
        i == j,
{
}

/// Whether an explicit query is given: present and not empty.
pub fn overrides(explicit: Option<&str>) -> (b: bool)
    ensures
        b == has_override(optional_text(explicit)),
{
    match explicit {
        Some(q) => !q.is_empty(),
        None => false,
    }
}

/// The query for a page, given what each rule said of its URL.  A verdict
/// beyond the table's length, or a rule beyond the verdicts' length, is not
/// looked at.
pub fn choose_query(
    explicit: Option<&str>,
    rules: &Vec<SelectorRule>,
    verdicts: &Vec<Option<bool>>,
) -> (r: Result<String, Error>)
    ensures
        result_view(r) == chosen_query(optional_text(explicit), rules_view(rules@), verdicts@),
{
    if let Some(q) = explicit {
        if overrides(explicit) {
            return Ok(q.to_string());
        }
    }
    let ghost table = rules_view(rules@);
    let mut i: usize = 0;
    while i < rules.len() && i < verdicts.len()
        invariant
            !has_override(optional_text(explicit)),
            table == rules_view(rules@),
            forall|j: int| 0 <= j < i ==> verdicts@[j] != Some(true),
        decreases rules.len() - i,
    {
        if let Some(true) = verdicts[i] {
            proof {
                assert(is_first_hit(table, verdicts@, i as int));
                let k = choose|k: int| is_first_hit(table, verdicts@, k);
                lemma_first_hit_unique(table, verdicts@, i as int, k);
            }
            return Ok(rules[i].query.clone());
        }
        i += 1;
    }
    Err(Error::NoSelectorFound)
}

/// Whether no verdict is given behind a match: every verdict that follows
/// a match is `None`.
pub open spec fn stops_at_first_match(verdicts: Seq<Option<bool>>) -> bool {
    forall|i: int, j: int|
        0 <= i < j < verdicts.len() && #[trigger] verdicts[i] == Some(true) ==> (
        #[trigger] verdicts[j]) is None
}

/// What the rules say of `upstream`, one verdict for each rule in the
/// table's order: `None` for a rule whose pattern does not compile, else
/// whether the pattern matches.  The rules are asked in order up to the
/// first that matches; those behind it are not asked and get `None`.
pub fn verdicts_for(upstream: &str, rules: &Vec<SelectorRule>) -> (verdicts: Vec<Option<bool>>)
    ensures
        verdicts_agree(rules_view(rules@), upstream@, verdicts@),
        stops_at_first_match(verdicts@),
{
    let ghost table = rules_view(rules@);
    let mut verdicts: Vec<Option<bool>> = Vec::new();
    let mut matched = false;
    let mut i: usize = 0;
    while i < rules.len()
        invariant
            i <= rules.len(),
            table == rules_view(rules@),
            verdicts.len() == i,
            forall|j: int|
                0 <= j < i ==> (#[trigger] verdicts@[j] matches Some(b) ==> b == pattern_matches(
                    table[j].pattern,
                    upstream@,
                )),
            stops_at_first_match(verdicts@),
            !matched ==> forall|j: int| 0 <= j < i ==> verdicts@[j] != Some(true),
        decreases rules.len() - i,
    {
        let verdict = if matched {
            None
        } else {
            match_pattern(rules[i].pattern.as_str(), upstream)
        };
        let ghost before = verdicts@;
        verdicts.push(verdict);
        proof {
            assert forall|j: int, k: int|
                0 <= j < k < verdicts@.len() && #[trigger] verdicts@[j] == Some(true) implies (
            #[trigger] verdicts@[k]) is None by {
                assert(before[j] == verdicts@[j]);
                if k < i {
                    assert(before[k] == verdicts@[k]);
                }
            }
        }
        if let Some(true) = verdict {
            matched = true;
        }
        i += 1;
    }
    verdicts
}

/// The query for the page at `upstream`.
///
/// An explicit, non-empty query is returned as it is.  Otherwise the rules
/// are asked in order by `verdicts_for`, and `choose_query` decides on their
/// verdicts: the first rule whose pattern compiles and matches `upstream`
/// gives its query, and if there is none the result is `NoSelectorFound`.
pub fn resolve(upstream: &str, explicit: Option<&str>, rules: &Vec<SelectorRule>) -> (r: Result<
    String,
    Error,
>)
    ensures
        resolution_allowed(
            upstream@,
            optional_text(explicit),
            rules_view(rules@),
            result_view(r),
        ),
        has_override(optional_text(explicit)) ==> result_view(r) == Ok::<Seq<char>, Error>(
            explicit->Some_0@,
        ),
        r matches Err(e) ==> e == Error::NoSelectorFound,
        !has_override(optional_text(explicit)) ==> (r matches Ok(q) ==> exists|i: int|
            0 <= i < rules.len() && #[trigger] rules[i].query@ == q@ && pattern_matches(
                rules[i].pattern@,
                upstream@,
            )),
        !has_override(optional_text(explicit)) && (forall|i: int|
            0 <= i < rules.len() ==> !pattern_matches(#[trigger] rules[i].pattern@, upstream@))
            ==> r == Err::<String, Error>(Error::NoSelectorFound),
{
    let ghost table = rules_view(rules@);
    let verdicts = if overrides(explicit) {
        Vec::new()
    } else {
        verdicts_for(upstream, rules)
    };
    let r = choose_query(explicit, rules, &verdicts);
    proof {
        if has_override(optional_text(explicit)) {
            let unasked = Seq::new(rules.len() as nat, |i: int| None::<bool>);
            assert(verdicts_agree(table, upstream@, unasked));
            assert(result_view(r) == chosen_query(optional_text(explicit), table, unasked));
        } else {
            assert(verdicts_agree(table, upstream@, verdicts@));
            if exists|i: int| is_first_hit(table, verdicts@, i) {
                let i = choose|i: int| is_first_hit(table, verdicts@, i);
                assert(table[i].query == rules[i].query@);
                assert(verdicts@[i] == Some(true));
                assert(pattern_matches(rules[i].pattern@, upstream@));
            }
        }
    }
    r
}

/// An explicit query takes precedence over every rule, whatever the rules
/// say of the URL.
pub proof fn law_override_wins(
    explicit: Seq<char>,
    rules: Seq<RuleModel>,
    verdicts: Seq<Option<bool>>,
)
    requires
        explicit.len() > 0,
    ensures
        chosen_query(Some(explicit), rules, verdicts) == Ok::<Seq<char>, Error>(explicit),
{
}

/// Without an explicit query, the first rule that matches gives its query.
pub proof fn law_first_match_wins(
    explicit: Option<Seq<char>>,
    rules: Seq<RuleModel>,
    verdicts: Seq<Option<bool>>,
    i: int,
)
    requires
        !has_override(explicit),
        is_first_hit(rules, verdicts, i),
    ensures
        chosen_query(explicit, rules, verdicts) == Ok::<Seq<char>, Error>(rules[i].query),
{
    let k = choose|k: int| is_first_hit(rules, verdicts, k);
    lemma_first_hit_unique(rules, verdicts, i, k);
}

/// Without an explicit query, a URL that exactly one rule matches is queried
/// with that rule's query.
pub proof fn law_single_match(
    explicit: Option<Seq<char>>,
    rules: Seq<RuleModel>,
    verdicts: Seq<Option<bool>>,
    i: int,
)
    requires
        !has_override(explicit),
        verdicts.len() == rules.len(),
        0 <= i < rules.len(),
        forall|j: int| 0 <= j < rules.len() ==> (verdicts[j] == Some(true) <==> j == i),
    ensures
        chosen_query(explicit, rules, verdicts) == Ok::<Seq<char>, Error>(rules[i].query),
{
    law_first_match_wins(explicit, rules, verdicts, i);
}

/// Without an explicit query, a URL that no rule matches has no query.
pub proof fn law_no_match_fails(
    explicit: Option<Seq<char>>,
    rules: Seq<RuleModel>,
    verdicts: Seq<Option<bool>>,
)
    requires
        !has_override(explicit),
        no_hit(rules, verdicts),
    ensures
        chosen_query(explicit, rules, verdicts) == Err::<Seq<char>, Error>(Error::NoSelectorFound),
{
}

/// A rule with the given pattern and query.
pub fn rule(pattern: &str, query: &str) -> (r: SelectorRule)
    ensures
        r@ == (RuleModel { pattern: pattern@, query: query@ }),
{
    SelectorRule { pattern: pattern.to_string(), query: query.to_string() }
}

/// The built-in selector table: for each kind of upstream page that is
/// known, a pattern for its URLs and the query for its layout.
pub open spec fn default_table() -> Seq<RuleModel> {
    seq![
        RuleModel {
            pattern: r".*github\.com.+\/tags"@,
            query: "div.Box-row:nth-child(1) > div:nth-child(1) > div:nth-child(1) > div:nth-child(1) > div:nth-child(1) > h2:nth-child(1) > a:nth-child(1)"@,
        },
        RuleModel {
            pattern: r".*github\.com.+\/releases\/latest"@,
            query: ".css-truncate > span:nth-child(2)"@,
        },
        RuleModel {
            pattern: r".*gitlab.+\/-\/tags"@,
            query: "li.gl-justify-between:nth-child(1) > div:nth-child(1) > a:nth-child(2)"@,
        },
        RuleModel { pattern: r".*pypi\.org.+"@, query: ".package-header__name"@ },
        RuleModel {
            pattern: r".*download\.savannah\..*gnu.org\/releases.+\/\?C=M&O=D"@,
            query: "tr.e:nth-child(2) > td:nth-child(1) > a:nth-child(1)"@,
        },
        RuleModel {
            pattern: r".*ftp\.gnu\.org\/.+\/\?C=M;O=D"@,
            query: "body > table:nth-child(2) > tbody:nth-child(1) > tr:nth-child(4) > td:nth-child(2) > a:nth-child(1)"@,
        },
        RuleModel {
            pattern: r".*archlinux\.org\/packages\/.+"@,
            query: "#pkgdetails > h2:nth-child(1)"@,
        },
        RuleModel {
            pattern: r".*repology\.org\/project.*\/information.*"@,
            query: ".version-newest"@,
        },
        RuleModel { pattern: r".*sourceforge\.net.+\/files.*"@, query: ".sub-label"@ },
        RuleModel {
            pattern: r".*freedesktop\.org\/.*releases\/.+\/\?C=M;O=D"@,
            query: "body > table:nth-child(2) > tbody:nth-child(1) > tr:nth-child(4) > td:nth-child(2) > a:nth-child(1)"@,
        },
    ]
}

/// The built-in selector table, in the order in which its rules are tried.
pub fn default_rules() -> (rules: Vec<SelectorRule>)
    ensures
        rules_view(rules@) == default_table(),
{
    let mut rules: Vec<SelectorRule> = Vec::new();
    rules.push(
        rule(
            r".*github\.com.+\/tags",
            "div.Box-row:nth-child(1) > div:nth-child(1) > div:nth-child(1) > div:nth-child(1) > div:nth-child(1) > h2:nth-child(1) > a:nth-child(1)",
        ),
    );
    rules.push(rule(r".*github\.com.+\/releases\/latest", ".css-truncate > span:nth-child(2)"));
    rules.push(
        rule(
            r".*gitlab.+\/-\/tags",
            "li.gl-justify-between:nth-child(1) > div:nth-child(1) > a:nth-child(2)",
        ),
    );
    rules.push(rule(r".*pypi\.org.+", ".package-header__name"));
    rules.push(
        rule(
            r".*download\.savannah\..*gnu.org\/releases.+\/\?C=M&O=D",
            "tr.e:nth-child(2) > td:nth-child(1) > a:nth-child(1)",
        ),
    );
    rules.push(
        rule(
            r".*ftp\.gnu\.org\/.+\/\?C=M;O=D",
            "body > table:nth-child(2) > tbody:nth-child(1) > tr:nth-child(4) > td:nth-child(2) > a:nth-child(1)",
        ),
    );
    rules.push(rule(r".*archlinux\.org\/packages\/.+", "#pkgdetails > h2:nth-child(1)"));
    rules.push(rule(r".*repology\.org\/project.*\/information.*", ".version-newest"));
    rules.push(rule(r".*sourceforge\.net.+\/files.*", ".sub-label"));
    rules.push(
        rule(
            r".*freedesktop\.org\/.*releases\/.+\/\?C=M;O=D",
            "body > table:nth-child(2) > tbody:nth-child(1) > tr:nth-child(4) > td:nth-child(2) > a:nth-child(1)",
        ),
    );
    assert(rules_view(rules@) =~= default_table());
    rules
}

} // verus!
