use amu::status::{
    check_source_status, conflict_preview, count_links, find_broken_links, find_real_files,
    plan_required, PairObservation, SourceAccess, SourceStatus, TreeEntry,
};
use amu::summary::{batch_outcome, command_exit_code, severity, summarize, Severity, Summary};

fn entry(rel: &str, source_is_file: bool, target_is_symlink: bool, target_exists: bool) -> TreeEntry {
    TreeEntry {
        rel_path: String::from(rel),
        source_is_file,
        target_is_symlink,
        target_exists,
    }
}

fn clean_observation(entries: Vec<TreeEntry>, plan: Option<String>) -> PairObservation {
    PairObservation {
        source_access: SourceAccess::Readable,
        source_exists: true,
        target_exists: true,
        entries,
        plan,
    }
}

#[test]
fn test_status_permission_denied() {
    let obs = PairObservation {
        source_access: SourceAccess::Denied,
        source_exists: true,
        target_exists: true,
        entries: vec![],
        plan: None,
    };
    let s = check_source_status("/home/user/dotfiles/nvim", &obs);
    assert_eq!(
        s,
        SourceStatus::PermissionDenied(String::from("source: /home/user/dotfiles/nvim"))
    );
}

#[test]
fn test_status_source_not_found() {
    let obs = PairObservation {
        source_access: SourceAccess::Missing,
        source_exists: false,
        target_exists: true,
        entries: vec![],
        plan: None,
    };
    assert_eq!(check_source_status("/s", &obs), SourceStatus::SourceNotFound);
}

#[test]
fn test_status_target_not_found() {
    let obs = PairObservation {
        source_access: SourceAccess::Readable,
        source_exists: true,
        target_exists: false,
        entries: vec![],
        plan: None,
    };
    assert_eq!(check_source_status("/s", &obs), SourceStatus::TargetNotFound);
}

#[test]
fn test_status_broken_links_collects_paths() {
    let obs = clean_observation(
        vec![
            entry("ok.txt", true, true, true),
            entry("dangling.txt", true, true, false),
            entry("also-gone.txt", false, true, false),
        ],
        None,
    );
    let s = check_source_status("/s", &obs);
    assert_eq!(
        s,
        SourceStatus::BrokenLinks(vec![
            String::from("dangling.txt"),
            String::from("also-gone.txt")
        ])
    );
}

#[test]
fn test_status_broken_links_take_priority_over_real_files() {
    let obs = clean_observation(
        vec![
            entry("stray.txt", true, false, true),
            entry("dangling.txt", true, true, false),
        ],
        None,
    );
    let s = check_source_status("/s", &obs);
    assert_eq!(
        s,
        SourceStatus::BrokenLinks(vec![String::from("dangling.txt")])
    );
}

#[test]
fn test_status_real_files() {
    let obs = clean_observation(
        vec![
            entry("a.txt", true, false, true),
            entry("linked.txt", true, true, true),
        ],
        None,
    );
    let s = check_source_status("/s", &obs);
    assert_eq!(s, SourceStatus::RealFiles(vec![String::from("a.txt")]));
}

#[test]
fn test_status_conflicts_from_marker() {
    let transcript = String::from("WARNING! stow would cause conflicts:\nCONFLICT: a.txt\n");
    let obs = clean_observation(vec![], Some(transcript.clone()));
    assert_eq!(
        check_source_status("/s", &obs),
        SourceStatus::Conflicts(transcript)
    );
}

#[test]
fn test_status_conflicts_from_existing_target_marker() {
    let transcript = String::from("cannot stow: existing target is neither a link nor a directory\n");
    let obs = clean_observation(vec![], Some(transcript.clone()));
    assert_eq!(
        check_source_status("/s", &obs),
        SourceStatus::Conflicts(transcript)
    );
}

#[test]
fn test_status_ok_counts_links() {
    let obs = clean_observation(
        vec![
            entry("a.txt", true, true, true),
            entry("b.txt", true, true, true),
            entry("c.txt", true, false, false),
        ],
        Some(String::from("LINK: d.txt\n")),
    );
    assert_eq!(check_source_status("/s", &obs), SourceStatus::Okay { link_count: 2 });
}

#[test]
fn test_status_scenario_before_and_after_apply() {
    let before = clean_observation(vec![entry("a.txt", true, false, false)], None);
    assert_eq!(check_source_status("/s", &before), SourceStatus::Okay { link_count: 0 });

    let after = clean_observation(vec![entry("a.txt", true, true, true)], None);
    assert_eq!(check_source_status("/s", &after), SourceStatus::Okay { link_count: 1 });

    let replaced = clean_observation(vec![entry("a.txt", true, false, true)], None);
    assert_eq!(
        check_source_status("/s", &replaced),
        SourceStatus::RealFiles(vec![String::from("a.txt")])
    );

    let source_deleted = PairObservation {
        source_access: SourceAccess::Missing,
        source_exists: false,
        target_exists: true,
        entries: vec![],
        plan: None,
    };
    assert_eq!(check_source_status("/s", &source_deleted), SourceStatus::SourceNotFound);
}

#[test]
fn test_status_repeated_classification_agrees() {
    let obs = clean_observation(
        vec![entry("a.txt", true, true, true), entry("b.txt", true, false, true)],
        None,
    );
    let first = check_source_status("/s", &obs);
    let second = check_source_status("/s", &obs);
    assert_eq!(first, second);
}

#[test]
fn test_plan_required_only_without_local_findings() {
    let clean = clean_observation(vec![entry("a.txt", true, true, true)], None);
    assert!(plan_required(&clean));

    let broken = clean_observation(vec![entry("a.txt", true, true, false)], None);
    assert!(!plan_required(&broken));

    let stray = clean_observation(vec![entry("a.txt", true, false, true)], None);
    assert!(!plan_required(&stray));

    let missing_target = PairObservation {
        source_access: SourceAccess::Readable,
        source_exists: true,
        target_exists: false,
        entries: vec![],
        plan: None,
    };
    assert!(!plan_required(&missing_target));
}

#[test]
fn test_finders_and_counter() {
    let entries = vec![
        entry("a", true, true, false),
        entry("b", true, false, true),
        entry("c", false, true, true),
    ];
    assert_eq!(find_broken_links(&entries), vec![String::from("a")]);
    assert_eq!(find_real_files(&entries), vec![String::from("b")]);
    assert_eq!(count_links(&entries), 2);
}

#[test]
fn test_conflict_preview_takes_five_nonblank_trimmed_lines() {
    let text = "  first  \n\n   \nsecond\nthird\r\nfourth\nfifth\nsixth\n";
    let preview = conflict_preview(text);
    assert_eq!(
        preview,
        vec![
            String::from("first"),
            String::from("second"),
            String::from("third"),
            String::from("fourth"),
            String::from("fifth"),
        ]
    );
}

#[test]
fn test_severity_mapping_is_exhaustive() {
    assert_eq!(severity(&SourceStatus::Okay { link_count: 3 }), Severity::Okay);
    assert_eq!(severity(&SourceStatus::SourceNotFound), Severity::Error);
    assert_eq!(severity(&SourceStatus::TargetNotFound), Severity::Error);
    assert_eq!(
        severity(&SourceStatus::BrokenLinks(vec![String::from("x")])),
        Severity::Warning
    );
    assert_eq!(
        severity(&SourceStatus::Conflicts(String::from("text"))),
        Severity::Warning
    );
    assert_eq!(
        severity(&SourceStatus::RealFiles(vec![String::from("x")])),
        Severity::Warning
    );
    assert_eq!(
        severity(&SourceStatus::PermissionDenied(String::from("source: /s"))),
        Severity::Error
    );
}

#[test]
fn test_summary_counters_sum_to_pair_count() {
    let statuses = vec![
        SourceStatus::Okay { link_count: 1 },
        SourceStatus::BrokenLinks(vec![String::from("a")]),
        SourceStatus::SourceNotFound,
        SourceStatus::Okay { link_count: 0 },
        SourceStatus::PermissionDenied(String::from("source: /s")),
    ];
    let summary = summarize(&statuses);
    assert_eq!(summary, Summary { ok: 2, warning: 1, error: 2 });
    assert_eq!(summary.ok + summary.warning + summary.error, statuses.len());
    assert_eq!(command_exit_code(&summary), 1);

    let all_ok = vec![SourceStatus::Okay { link_count: 4 }];
    let summary_ok = summarize(&all_ok);
    assert_eq!(summary_ok, Summary { ok: 1, warning: 0, error: 0 });
    assert_eq!(command_exit_code(&summary_ok), 0);
}

#[test]
fn test_batch_outcome() {
    assert_eq!(batch_outcome(&vec![true, false, true, true]), (3, 1, 1));
    assert_eq!(batch_outcome(&vec![true, true]), (2, 0, 0));
    assert_eq!(batch_outcome(&vec![false]), (0, 1, 1));
    assert_eq!(batch_outcome(&Vec::new()), (0, 0, 0));
}
