use version_watch::baseline::Baseline;
use version_watch::diff::{diff, record, DiffResult};
use version_watch::error::Error;
use version_watch::model::{ResolutionOutcome, ResolvedVersion};
use version_watch::records::{
    parse_assignment_line, parse_export_line, read, render, render_line, Format,
};

fn found(name: &str, version: &str) -> ResolutionOutcome {
    ResolutionOutcome::Resolved(ResolvedVersion {
        name: name.to_string(),
        version: version.to_string(),
    })
}

fn pair(name: &str, version: &str) -> Option<(String, String)> {
    Some((name.to_string(), version.to_string()))
}

#[test]
fn a_version_without_baseline_entry_is_new() {
    let baseline = Baseline::new();
    match diff(&found("pkg", "1.0"), &baseline) {
        DiffResult::New { name, version } => {
            assert_eq!(name, "pkg".to_string());
            assert_eq!(version, "1.0".to_string());
        }
        other => panic!("unexpected {:?}", other),
    }
}

#[test]
fn the_recorded_version_is_unchanged() {
    let mut baseline = Baseline::new();
    baseline.insert("pkg", "1.0");
    match diff(&found("pkg", "1.0"), &baseline) {
        DiffResult::Unchanged { name, version } => {
            assert_eq!(name, "pkg".to_string());
            assert_eq!(version, "1.0".to_string());
        }
        other => panic!("unexpected {:?}", other),
    }
}

#[test]
fn another_version_is_a_change() {
    let mut baseline = Baseline::new();
    baseline.insert("pkg", "1.0");
    match diff(&found("pkg", "2.0"), &baseline) {
        DiffResult::Changed { name, previous, current } => {
            assert_eq!(name, "pkg".to_string());
            assert_eq!(previous, "1.0".to_string());
            assert_eq!(current, "2.0".to_string());
        }
        other => panic!("unexpected {:?}", other),
    }
}

#[test]
fn a_failure_is_reported_and_not_recorded() {
    let mut baseline = Baseline::new();
    baseline.insert("pkg", "1.0");
    let outcome = ResolutionOutcome::Failed { name: "pkg".to_string(), reason: Error::GenericFailure };
    match diff(&outcome, &baseline) {
        DiffResult::Failure { name, reason } => {
            assert_eq!(name, "pkg".to_string());
            assert_eq!(reason, Error::GenericFailure);
        }
        other => panic!("unexpected {:?}", other),
    }
    record(&mut baseline, &outcome);
    assert_eq!(baseline.len(), 1);
    assert_eq!(baseline.get("pkg"), Some(&"1.0".to_string()));
    assert_eq!(outcome.name(), &"pkg".to_string());
}

#[test]
fn recording_inserts_or_overwrites() {
    let mut baseline = Baseline::new();
    assert_eq!(baseline.len(), 0);
    assert_eq!(baseline.get("a"), None);
    record(&mut baseline, &found("a", "1"));
    record(&mut baseline, &found("b", "2"));
    assert_eq!(baseline.len(), 2);
    record(&mut baseline, &found("a", "3"));
    assert_eq!(baseline.len(), 2);
    assert_eq!(baseline.get("a"), Some(&"3".to_string()));
    assert_eq!(baseline.get("b"), Some(&"2".to_string()));
    assert_eq!(baseline.get("c"), None);
    assert!(matches!(diff(&found("a", "3"), &baseline), DiffResult::Unchanged { .. }));
    let names: Vec<String> = baseline.entries().iter().map(|e| e.name.clone()).collect();
    assert_eq!(names, vec!["a".to_string(), "b".to_string()]);
    assert_eq!(found("a", "3").name(), &"a".to_string());
}

#[test]
fn names_are_told_apart_exactly() {
    let mut baseline = Baseline::new();
    baseline.insert("pkg", "1.0");
    baseline.insert("Pkg", "2.0");
    baseline.insert("pkg ", "3.0");
    baseline.insert("", "4.0");
    assert_eq!(baseline.len(), 4);
    assert_eq!(baseline.get("pkg"), Some(&"1.0".to_string()));
    assert_eq!(baseline.get("Pkg"), Some(&"2.0".to_string()));
    assert_eq!(baseline.get(""), Some(&"4.0".to_string()));
}

#[test]
fn export_lines_declare_versions() {
    assert_eq!(parse_export_line("export foo_version=\"1.2.3\""), pair("foo", "1.2.3"));
    assert_eq!(parse_export_line("export  my_tool_version= \"0.9\" "), pair("my_tool", "0.9"));
    assert_eq!(parse_export_line("export foo_version=1.2.3"), pair("foo", "1.2.3"));
    assert_eq!(parse_export_line("export foo_version=\"\"1\"\"\""), pair("foo", "1"));
    assert_eq!(parse_export_line("exportfoo_version=1"), pair("foo", "1"));
    assert_eq!(parse_export_line("export _version="), pair("", ""));
    assert_eq!(parse_export_line("export foo_version=\" 1 \""), pair("foo", " 1 "));
}

#[test]
fn other_lines_declare_nothing() {
    assert_eq!(parse_export_line(""), None);
    assert_eq!(parse_export_line("foo_version=\"1\""), None);
    assert_eq!(parse_export_line(" export foo_version=\"1\""), None);
    assert_eq!(parse_export_line("export foo=\"1\""), None);
    assert_eq!(parse_export_line("export a_version=b_version=\"1\""), None);
    assert_eq!(parse_export_line("# export foo_version=\"1\""), None);
    assert_eq!(parse_export_line("Export foo_version=\"1\""), None);
}

#[test]
fn assignment_lines_record_versions() {
    assert_eq!(parse_assignment_line("foo=1.2.3"), pair("foo", "1.2.3"));
    assert_eq!(parse_assignment_line("  foo = 1.2.3  "), pair("foo", "1.2.3"));
    assert_eq!(parse_assignment_line("foo=a=b"), pair("foo", "a=b"));
    assert_eq!(parse_assignment_line("foo="), pair("foo", ""));
    assert_eq!(parse_assignment_line("=1"), None);
    assert_eq!(parse_assignment_line("   =1"), None);
    assert_eq!(parse_assignment_line("foo"), None);
    assert_eq!(parse_assignment_line(""), None);
}

#[test]
fn a_text_of_exports_is_read_line_by_line() {
    let text = "#!/bin/sh\nexport foo_version=\"1.0\"\r\n\nexport bar_version=\"2.1\"\nnoise\n\
        export foo_version=\"1.1\"\nexport baz_version=\"3\"";
    let baseline = read(Format::Exports, text);
    assert_eq!(baseline.len(), 3);
    assert_eq!(baseline.get("foo"), Some(&"1.1".to_string()));
    assert_eq!(baseline.get("bar"), Some(&"2.1".to_string()));
    assert_eq!(baseline.get("baz"), Some(&"3".to_string()));
    assert_eq!(read(Format::Exports, "").len(), 0);
    assert_eq!(read(Format::Exports, "\n\n").len(), 0);
    let other = read(Format::Assignments, text);
    assert_eq!(other.len(), 3);
    assert_eq!(other.get("export foo_version"), Some(&"\"1.1\"".to_string()));
    assert_eq!(read(Format::Exports, "foo=1.0\nbar=2.0\n").len(), 0);
}

#[test]
fn a_carriage_return_belongs_to_the_line_end_only_before_a_line_feed() {
    let baseline = read(Format::Assignments, "a=1\r\nb=2\r");
    assert_eq!(baseline.get("a"), Some(&"1".to_string()));
    assert_eq!(baseline.get("b"), Some(&"2".to_string()));
    let baseline = read(Format::Exports, "export a_version=\"1\"\r\nexport b_version=\"2\"\r");
    assert_eq!(baseline.get("a"), Some(&"1".to_string()));
    assert_eq!(baseline.get("b"), Some(&"2".to_string()));
}

#[test]
fn a_baseline_is_written_as_assignment_lines() {
    assert_eq!(render_line("foo", "1.2.3"), "foo=1.2.3\n".to_string());
    assert_eq!(render_line("", ""), "=\n".to_string());
    let mut baseline = Baseline::new();
    assert_eq!(render(&baseline), String::new());
    baseline.insert("foo", "1.0");
    baseline.insert("bar", "2.0");
    baseline.insert("foo", "1.1");
    assert_eq!(render(&baseline), "foo=1.1\nbar=2.0\n".to_string());
}

#[test]
fn what_is_written_reads_back() {
    let mut baseline = Baseline::new();
    baseline.insert("foo", "1.0");
    baseline.insert("bar", "2.0.1");
    baseline.insert("lib2geom", "1.3");
    let back = read(Format::Assignments, &render(&baseline));
    assert_eq!(back.len(), 3);
    for entry in baseline.entries() {
        assert_eq!(back.get(&entry.name), Some(&entry.version));
    }
}
