use narrowing::config::{
    follow_way, kind_from_name, let_through, passes, prefix_all, Config, ConfigValues,
    SecurityConfig, SecurityValues, TaintedNode,
};
use narrowing::issue::{HPos, Issue, IssueKind};
use narrowing::str_map::{NameSet, StrMap};

fn s(text: &str) -> String {
    text.to_string()
}

fn issue(kind: IssueKind) -> Issue {
    Issue {
        kind,
        description: s("d"),
        pos: HPos {
            file_path: s("a.hack"),
            start_offset: 0,
            end_offset: 1,
            start_line: 1,
            end_line: 1,
            start_column: 1,
            end_column: 2,
        },
    }
}

fn values() -> ConfigValues {
    let mut ignore_issue_files = StrMap::new();
    ignore_issue_files.insert(s("*"), vec![s("vendor/**")]);
    ignore_issue_files.insert(s("RedundantTypeComparison"), vec![s("tests/*.hack"), s("gen/?.hack")]);
    let mut ignore_sink_files = StrMap::new();
    ignore_sink_files.insert(s("UriRequestHeader -> Sql"), vec![s("legacy/*")]);
    ConfigValues {
        ignore_files: vec![s("build")],
        test_files: vec![s("tests"), s("spec")],
        ignore_issue_files,
        allowed_issues: vec![s("RedundantTypeComparison"), s("ImpossibleIssetCheck")],
        security_analysis: SecurityValues { ignore_files: vec![s("fixtures/*")], ignore_sink_files },
    }
}

#[test]
fn configuration_starts_without_filters() {
    let config = Config::new(s("/project"), NameSet::new());
    assert_eq!(config.root_dir, "/project");
    assert!(config.allowed_issues.is_none());
    assert!(config.can_add_issue(&issue(IssueKind::ImpossibleTypeComparison)));
    assert_eq!(config.allow_issues_in_file("a.hack"), Some(true));
    assert_eq!(config.allow_issue_kind_in_file(&IssueKind::RedundantIssetCheck, "a.hack"), Some(true));
    assert_eq!(config.allow_taints_in_file("a.hack"), Some(true));
    assert_eq!(config.security_config.max_depth, 40);
    assert_eq!(SecurityConfig::default().max_depth, 40);
    assert!(SecurityConfig::new().ignore_files.is_empty());
}

#[test]
fn settings_are_taken_over_below_the_working_directory() {
    let mut config = Config::new(s("/project"), NameSet::new());
    config.ignore_all_issues_in_files = vec![s("old")];
    let values = values();
    assert!(values.names_known());
    config.update(&s("/work"), &values);
    assert_eq!(config.ignore_files, vec![s("/work/build")]);
    assert_eq!(config.test_files, vec![s("/work/tests"), s("/work/spec")]);
    assert_eq!(
        config.ignore_issue_files,
        vec![(IssueKind::RedundantTypeComparison, vec![s("/work/tests/*.hack"), s("/work/gen/?.hack")])]
    );
    assert_eq!(config.ignore_all_issues_in_files, vec![s("/work/vendor/**")]);
    assert_eq!(
        config.allowed_issues,
        Some(vec![IssueKind::RedundantTypeComparison, IssueKind::ImpossibleIssetCheck])
    );
    assert_eq!(config.security_config.ignore_files, vec![s("/work/fixtures/*")]);
    assert_eq!(
        config.security_config.ignore_sink_files.get("UriRequestHeader -> Sql"),
        Some(&vec![s("/work/legacy/*")])
    );
    assert!(config.can_add_issue(&issue(IssueKind::ImpossibleIssetCheck)));
    assert!(!config.can_add_issue(&issue(IssueKind::ImpossibleTypeComparison)));
}

#[test]
fn settings_without_lists_leave_the_filters_open() {
    let mut config = Config::new(s("/project"), NameSet::new());
    config.ignore_all_issues_in_files = vec![s("old")];
    config.allowed_issues = Some(vec![IssueKind::RedundantIssetCheck]);
    let values = ConfigValues {
        ignore_files: vec![],
        test_files: vec![],
        ignore_issue_files: StrMap::new(),
        allowed_issues: vec![],
        security_analysis: SecurityValues { ignore_files: vec![], ignore_sink_files: StrMap::new() },
    };
    config.update(&s("/work"), &values);
    assert_eq!(config.ignore_all_issues_in_files, vec![s("old")]);
    assert!(config.allowed_issues.is_none());
    assert!(config.ignore_issue_files.is_empty());
}

#[test]
fn unknown_names_of_issues_are_found() {
    let mut unknown = values();
    unknown.allowed_issues.push(s("NoSuchIssue"));
    assert!(!unknown.names_known());
    let mut unknown = values();
    unknown.ignore_issue_files.insert(s("NoSuchIssue"), vec![]);
    assert!(!unknown.names_known());
    assert_eq!(kind_from_name("RedundantIssetCheck"), Some(IssueKind::RedundantIssetCheck));
    assert_eq!(kind_from_name("ImpossibleTruthinessCheck"), Some(IssueKind::ImpossibleTruthinessCheck));
    assert_eq!(kind_from_name("redundantissetcheck"), None);
    for kind in [
        IssueKind::ImpossibleTypeComparison,
        IssueKind::RedundantTypeComparison,
        IssueKind::ImpossibleTruthinessCheck,
        IssueKind::RedundantTruthinessCheck,
        IssueKind::ImpossibleIssetCheck,
        IssueKind::RedundantIssetCheck,
    ] {
        assert_eq!(kind_from_name(&kind.to_string()), Some(kind));
    }
}

#[test]
fn files_are_filtered_by_patterns() {
    let mut config = Config::new(s("/project"), NameSet::new());
    config.update(&s("/work"), &values());
    assert_eq!(config.allow_issues_in_file("/work/vendor/lib/a.hack"), Some(false));
    assert_eq!(config.allow_issues_in_file("/work/src/a.hack"), Some(true));
    assert_eq!(
        config.allow_issue_kind_in_file(&IssueKind::RedundantTypeComparison, "/work/tests/a.hack"),
        Some(false)
    );
    assert_eq!(
        config.allow_issue_kind_in_file(&IssueKind::RedundantTypeComparison, "/work/gen/b.hack"),
        Some(false)
    );
    assert_eq!(
        config.allow_issue_kind_in_file(&IssueKind::RedundantTypeComparison, "/work/gen/bb.hack"),
        Some(true)
    );
    assert_eq!(
        config.allow_issue_kind_in_file(&IssueKind::ImpossibleIssetCheck, "/work/tests/a.hack"),
        Some(true)
    );
    assert_eq!(config.allow_taints_in_file("/work/fixtures/x"), Some(false));
    assert_eq!(config.allow_taints_in_file("/work/src/x"), Some(true));
}

#[test]
fn text_that_is_no_pattern_leaves_the_question_open() {
    let patterns = vec![s("a*"), s("***"), s("b*")];
    assert_eq!(passes(&patterns, "abc"), Some(false));
    assert_eq!(passes(&patterns, "bcd"), None);
    assert_eq!(passes(&vec![s("a*"), s("b*")], "cde"), Some(true));
    assert_eq!(passes(&Vec::new(), "cde"), Some(true));
}

#[test]
fn first_deciding_outcome_gives_the_verdict() {
    assert_eq!(let_through(&vec![]), Some(true));
    assert_eq!(let_through(&vec![Some(false), Some(false)]), Some(true));
    assert_eq!(let_through(&vec![Some(false), Some(true), None]), Some(false));
    assert_eq!(let_through(&vec![Some(false), None, Some(true)]), None);
}

#[test]
fn paths_are_put_below_a_directory() {
    assert_eq!(prefix_all("/w", &vec![s("a"), s(""), s("b/c")]), vec![s("/w/a"), s("/w/"), s("/w/b/c")]);
    assert!(prefix_all("/w", &Vec::new()).is_empty());
}

#[test]
fn tainted_data_is_ignored_where_a_step_was_seen_in_a_listed_file() {
    let mut config = Config::new(s("/project"), NameSet::new());
    config.update(&s("/work"), &values());
    let clean = TaintedNode {
        file_path: Some(s("/work/src/a.hack")),
        previous: Some(Box::new(TaintedNode { file_path: None, previous: None })),
    };
    let through_legacy = TaintedNode {
        file_path: Some(s("/work/src/a.hack")),
        previous: Some(Box::new(TaintedNode {
            file_path: Some(s("/work/legacy/b.hack")),
            previous: None,
        })),
    };
    assert_eq!(config.allow_data_from_source_in_file("UriRequestHeader", "Sql", &clean), Some(true));
    assert_eq!(
        config.allow_data_from_source_in_file("UriRequestHeader", "Sql", &through_legacy),
        Some(false)
    );
    assert_eq!(
        config.allow_data_from_source_in_file("UriRequestHeader", "Shell", &through_legacy),
        Some(true)
    );
    config.security_config.ignore_sink_files.insert(s("UriRequestHeader -> Shell"), vec![s("***")]);
    assert_eq!(config.allow_data_from_source_in_file("UriRequestHeader", "Shell", &clean), None);
}

#[test]
fn first_file_that_is_not_let_through_decides_the_way() {
    assert_eq!(follow_way(&vec![]), Some(true));
    assert_eq!(follow_way(&vec![Some(true), Some(true)]), Some(true));
    assert_eq!(follow_way(&vec![Some(true), Some(false), None]), Some(false));
    assert_eq!(follow_way(&vec![Some(true), None, Some(false)]), None);
}

#[test]
fn way_without_files_is_followed() {
    let mut config = Config::new(s("/project"), NameSet::new());
    config.update(&s("/work"), &values());
    let nowhere = TaintedNode {
        file_path: None,
        previous: Some(Box::new(TaintedNode { file_path: None, previous: None })),
    };
    assert_eq!(config.allow_data_from_source_in_file("UriRequestHeader", "Sql", &nowhere), Some(true));
    assert_eq!(config.allow_data_from_source_in_file("Other", "Sql", &nowhere), Some(true));
    config.security_config.ignore_sink_files.insert(s("Other -> Sql"), vec![]);
    let seen = TaintedNode { file_path: Some(s("/work/legacy/a")), previous: None };
    assert_eq!(config.allow_data_from_source_in_file("Other", "Sql", &seen), Some(true));
    assert_eq!(config.allow_data_from_source_in_file("UriRequestHeader", "Sql", &seen), Some(false));
}
