use amu::error::DotlinkError;
use amu::stow::{
    dry_run, dry_run_restow, dry_run_unstow, has_conflict_marker, parse_dry_run_output, restow,
    run_outcome, split_source_path, stow, unstow, LinkAction,
};

#[test]
fn test_split_source_path() {
    let source = String::from("/home/user/dotfiles/nvim");
    let (parent, dirname) = split_source_path(&source).unwrap();
    assert_eq!(parent, "/home/user/dotfiles");
    assert_eq!(dirname, "nvim");
}

#[test]
fn test_split_source_path_nested() {
    let source = String::from("/home/user/work/dotfiles/.config");
    let (parent, dirname) = split_source_path(&source).unwrap();
    assert_eq!(parent, "/home/user/work/dotfiles");
    assert_eq!(dirname, ".config");
}

#[test]
fn test_split_source_path_directly_under_root() {
    let (parent, dirname) = split_source_path("/srv").unwrap();
    assert_eq!(parent, "/");
    assert_eq!(dirname, "srv");
}

#[test]
fn test_split_source_path_ignores_trailing_separators() {
    let (parent, dirname) = split_source_path("/home/user/").unwrap();
    assert_eq!(parent, "/home");
    assert_eq!(dirname, "user");
    let (parent, dirname) = split_source_path("/home/user//").unwrap();
    assert_eq!(parent, "/home");
    assert_eq!(dirname, "user");
}

#[test]
fn test_split_source_path_folds_trailing_dot_components() {
    let (parent, dirname) = split_source_path("/home/user/.").unwrap();
    assert_eq!(parent, "/home");
    assert_eq!(dirname, "user");
    let (parent, dirname) = split_source_path("/home/user/./.").unwrap();
    assert_eq!(parent, "/home");
    assert_eq!(dirname, "user");
    let (parent, dirname) = split_source_path("pkg/.").unwrap();
    assert_eq!(parent, "");
    assert_eq!(dirname, "pkg");
}

#[test]
fn test_split_source_path_errors() {
    let no_parent = split_source_path("");
    assert!(
        matches!(no_parent, Err(DotlinkError::StowError(m)) if m == "Invalid source path: no parent directory")
    );
    let root = split_source_path("/");
    assert!(
        matches!(root, Err(DotlinkError::StowError(m)) if m == "Invalid source path: no parent directory")
    );
    let slashes = split_source_path("///");
    assert!(
        matches!(slashes, Err(DotlinkError::StowError(m)) if m == "Invalid source path: no parent directory")
    );
    let root_dot = split_source_path("/.");
    assert!(
        matches!(root_dot, Err(DotlinkError::StowError(m)) if m == "Invalid source path: no parent directory")
    );
    let bare_dot = split_source_path(".");
    assert!(
        matches!(bare_dot, Err(DotlinkError::StowError(m)) if m == "Invalid source path: no directory name")
    );
    let dotdot = split_source_path("/home/user/..");
    assert!(
        matches!(dotdot, Err(DotlinkError::StowError(m)) if m == "Invalid source path: no directory name")
    );
    let bare_dotdot = split_source_path("..");
    assert!(
        matches!(bare_dotdot, Err(DotlinkError::StowError(m)) if m == "Invalid source path: no directory name")
    );
}

#[test]
fn test_stow_invocation_arguments() {
    let args = stow("/home/user/dotfiles/nvim", "/home/user/.config").unwrap();
    assert_eq!(
        args,
        vec![
            String::from("--no-folding"),
            String::from("-t"),
            String::from("/home/user/.config"),
            String::from("-d"),
            String::from("/home/user/dotfiles"),
            String::from("nvim"),
        ]
    );
}

#[test]
fn test_unstow_and_restow_invocation_arguments() {
    let removal = unstow("/src/pkg", "/tgt").unwrap();
    assert_eq!(
        removal,
        vec![
            String::from("--no-folding"),
            String::from("-D"),
            String::from("-t"),
            String::from("/tgt"),
            String::from("-d"),
            String::from("/src"),
            String::from("pkg"),
        ]
    );
    let refresh = restow("/src/pkg", "/tgt").unwrap();
    assert_eq!(
        refresh,
        vec![
            String::from("--no-folding"),
            String::from("-R"),
            String::from("-t"),
            String::from("/tgt"),
            String::from("-d"),
            String::from("/src"),
            String::from("pkg"),
        ]
    );
}

#[test]
fn test_dry_run_invocation_arguments() {
    let args = dry_run("/src/pkg", "/tgt").unwrap();
    assert_eq!(
        args,
        vec![
            String::from("-n"),
            String::from("-v"),
            String::from("--no-folding"),
            String::from("-t"),
            String::from("/tgt"),
            String::from("-d"),
            String::from("/src"),
            String::from("pkg"),
        ]
    );
}

#[test]
fn test_dry_run_unstow_invocation_arguments() {
    let args = dry_run_unstow("/src/pkg", "/tgt").unwrap();
    assert_eq!(
        args,
        vec![
            String::from("-n"),
            String::from("-v"),
            String::from("--no-folding"),
            String::from("-D"),
            String::from("-t"),
            String::from("/tgt"),
            String::from("-d"),
            String::from("/src"),
            String::from("pkg"),
        ]
    );
}

#[test]
fn test_dry_run_restow_invocation_arguments() {
    let args = dry_run_restow("/src/pkg", "/tgt").unwrap();
    assert_eq!(
        args,
        vec![
            String::from("-n"),
            String::from("-v"),
            String::from("--no-folding"),
            String::from("-R"),
            String::from("-t"),
            String::from("/tgt"),
            String::from("-d"),
            String::from("/src"),
            String::from("pkg"),
        ]
    );
}

#[test]
fn test_invocation_rejects_unsplittable_source() {
    let result = stow("/", "/tgt");
    assert!(matches!(result, Err(DotlinkError::StowError(_))));
}

#[test]
fn test_run_outcome() {
    assert!(run_outcome(true, String::from("ignored")).is_ok());
    let failed = run_outcome(false, String::from("some diagnostic"));
    assert!(matches!(failed, Err(DotlinkError::StowError(m)) if m == "some diagnostic"));
}

#[test]
fn test_parse_dry_run_output_two_lines_in_order() {
    let transcript = "LINK: a.txt\nUNLINK: b.txt\n";
    let ops = parse_dry_run_output(transcript);
    assert_eq!(ops.len(), 2);
    assert_eq!(ops[0].action, LinkAction::WouldLink);
    assert_eq!(ops[0].path, "a.txt");
    assert_eq!(ops[1].action, LinkAction::WouldUnlink);
    assert_eq!(ops[1].path, "b.txt");
}

#[test]
fn test_parse_dry_run_output_ignores_other_lines() {
    let transcript = "stow: simulating\nLINK: .bashrc => ../dotfiles/bash/.bashrc\nWARNING: nothing\nSKIP: readme.md\nCONFLICT: taken.txt\n";
    let ops = parse_dry_run_output(transcript);
    assert_eq!(ops.len(), 3);
    assert_eq!(ops[0].action, LinkAction::WouldLink);
    assert_eq!(ops[0].path, ".bashrc");
    assert_eq!(ops[1].action, LinkAction::WouldSkip);
    assert_eq!(ops[1].path, "readme.md");
    assert_eq!(ops[2].action, LinkAction::Conflict);
    assert_eq!(ops[2].path, "taken.txt");
}

#[test]
fn test_parse_dry_run_output_empty() {
    assert_eq!(parse_dry_run_output("").len(), 0);
    assert_eq!(parse_dry_run_output("no markers here\n").len(), 0);
}

#[test]
fn test_conflict_markers() {
    assert!(has_conflict_marker("CONFLICT: cannot link"));
    assert!(has_conflict_marker("stow: existing target is in the way"));
    assert!(!has_conflict_marker("LINK: a.txt"));
    assert!(!has_conflict_marker(""));
}
