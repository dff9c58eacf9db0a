use amu::error::DotlinkError;
use amu::paths::{abbreviate_path, link_points_into_sources, path_starts_with, resolve_link_destination};
use amu::render::{render_report_json, render_source_json, render_target_json};
use amu::status::SourceStatus;
use amu::summary::Summary;
use amu::text::{contains_str, escape_json, split_lines, str_eq, trim_str, usize_to_string};

#[test]
fn test_str_helpers() {
    assert!(str_eq("abc", "abc"));
    assert!(!str_eq("abc", "abd"));
    assert!(!str_eq("abc", "ab"));
    assert!(contains_str("a CONFLICT arose", "CONFLICT"));
    assert!(!contains_str("all calm", "CONFLICT"));
    assert!(contains_str("anything", ""));
}

#[test]
fn test_split_lines_matches_line_semantics() {
    assert_eq!(
        split_lines("a\nb\r\nc"),
        vec![String::from("a"), String::from("b"), String::from("c")]
    );
    assert_eq!(split_lines("a\n"), vec![String::from("a")]);
    assert_eq!(split_lines(""), Vec::<String>::new());
    assert_eq!(split_lines("\n"), vec![String::from("")]);
}

#[test]
fn test_trim_str() {
    assert_eq!(trim_str("  padded \t"), String::from("padded"));
    assert_eq!(trim_str("\r\n"), String::from(""));
    assert_eq!(trim_str("solid"), String::from("solid"));
}

#[test]
fn test_escape_json() {
    assert_eq!(
        escape_json("say \"hi\"\nbye"),
        String::from("say \\\"hi\\\"\\nbye")
    );
    assert_eq!(escape_json("plain"), String::from("plain"));
}

#[test]
fn test_usize_to_string() {
    assert_eq!(usize_to_string(0), String::from("0"));
    assert_eq!(usize_to_string(7), String::from("7"));
    assert_eq!(usize_to_string(42), String::from("42"));
    assert_eq!(usize_to_string(1230), String::from("1230"));
}

#[test]
fn test_path_prefix_is_component_wise() {
    assert!(path_starts_with("/home/u/x", "/home/u"));
    assert!(path_starts_with("/home/u", "/home/u"));
    assert!(!path_starts_with("/home/uu/x", "/home/u"));
    assert!(!path_starts_with("/home", "/home/u"));
    assert!(path_starts_with("/x", "/"));
    assert!(path_starts_with("/", "/"));
    assert!(!path_starts_with("rel/x", "/"));
}

#[test]
fn test_resolve_link_destination() {
    assert_eq!(
        resolve_link_destination("/tgt/sub", "/abs/file"),
        String::from("/abs/file")
    );
    assert_eq!(
        resolve_link_destination("/tgt/sub", "../src/file"),
        String::from("/tgt/sub/../src/file")
    );
}

#[test]
fn test_link_points_into_sources() {
    let sources = vec![String::from("/dots/bash"), String::from("/dots/vim")];
    assert!(link_points_into_sources("/dots/vim/init.vim", &sources));
    assert!(!link_points_into_sources("/dots/zsh/zshrc", &sources));
    assert!(!link_points_into_sources("/elsewhere", &Vec::new()));
}

#[test]
fn test_abbreviate_path() {
    assert_eq!(abbreviate_path("/home/u/x/y", "/home/u"), String::from("~/x/y"));
    assert_eq!(abbreviate_path("/home/u", "/home/u"), String::from("~/"));
    assert_eq!(abbreviate_path("/opt/tool", "/home/u"), String::from("/opt/tool"));
    assert_eq!(
        abbreviate_path("/home/uu/x", "/home/u"),
        String::from("/home/uu/x")
    );
}

#[test]
fn test_abbreviate_path_under_root_home() {
    assert_eq!(abbreviate_path("/x", "/"), String::from("~/x"));
    assert_eq!(abbreviate_path("/x/y", "/"), String::from("~/x/y"));
    assert_eq!(abbreviate_path("/", "/"), String::from("~/"));
}

#[test]
fn test_error_messages() {
    assert_eq!(
        DotlinkError::SourceNotFound(String::from("/s")).message(),
        String::from("Source directory does not exist: /s")
    );
    assert_eq!(
        DotlinkError::TargetNotFound(String::from("/t")).message(),
        String::from("Target directory does not exist: /t")
    );
    assert_eq!(
        DotlinkError::AlreadyRegistered {
            src: String::from("/s"),
            dest: String::from("/t")
        }
        .message(),
        String::from("Already registered: /s -> /t")
    );
    assert_eq!(
        DotlinkError::NotRegistered {
            src: String::from("/s"),
            dest: String::from("/t")
        }
        .message(),
        String::from("Not registered: /s -> /t")
    );
    assert_eq!(
        DotlinkError::ConfigParseError(String::from("bad yaml")).message(),
        String::from("Failed to parse config file: bad yaml")
    );
    assert_eq!(
        DotlinkError::ConfigSaveError(String::from("disk full")).message(),
        String::from("Failed to save config file: disk full")
    );
    assert_eq!(
        DotlinkError::StowError(String::from("exit 2")).message(),
        String::from("stow command failed: exit 2")
    );
    assert_eq!(
        DotlinkError::IoError(String::from("broken pipe")).message(),
        String::from("IO error: broken pipe")
    );
    assert!(DotlinkError::StowNotFound
        .message()
        .starts_with("stow is not installed"));
}

#[test]
fn test_render_source_json_ok_and_warning() {
    assert_eq!(
        render_source_json("~/dots/vim", &SourceStatus::Okay { link_count: 3 }),
        String::from("{\"path\": \"~/dots/vim\", \"status\": \"ok\", \"link_count\": 3}")
    );
    assert_eq!(
        render_source_json(
            "~/dots/vim",
            &SourceStatus::RealFiles(vec![String::from("a.txt"), String::from("b.txt")])
        ),
        String::from(
            "{\"path\": \"~/dots/vim\", \"status\": \"warning\", \"message\": \"real files (expected symlinks)\", \"details\": [\"a.txt\", \"b.txt\"]}"
        )
    );
    assert_eq!(
        render_source_json("~/dots/vim", &SourceStatus::Conflicts(String::from("a \"b\"\nc"))),
        String::from(
            "{\"path\": \"~/dots/vim\", \"status\": \"warning\", \"message\": \"conflicts\", \"details\": \"a \\\"b\\\"\\nc\"}"
        )
    );
    assert_eq!(
        render_source_json("~/dots/vim", &SourceStatus::SourceNotFound),
        String::from(
            "{\"path\": \"~/dots/vim\", \"status\": \"error\", \"message\": \"source not found\"}"
        )
    );
}

#[test]
fn test_render_report_json() {
    let sources = vec![render_source_json("~/s", &SourceStatus::Okay { link_count: 1 })];
    let target = render_target_json("~/t", &sources);
    assert_eq!(
        target,
        String::from(
            "{\"path\": \"~/t\", \"sources\": [{\"path\": \"~/s\", \"status\": \"ok\", \"link_count\": 1}]}"
        )
    );
    let report = render_report_json(&vec![target.clone()], &Summary { ok: 1, warning: 0, error: 0 });
    assert_eq!(
        report,
        format!(
            "{{\"targets\": [{}], \"summary\": {{\"ok\": 1, \"warning\": 0, \"error\": 0}}}}",
            target
        )
    );
    let empty = render_report_json(&Vec::new(), &Summary { ok: 0, warning: 0, error: 0 });
    assert_eq!(
        empty,
        String::from("{\"targets\": [], \"summary\": {\"ok\": 0, \"warning\": 0, \"error\": 0}}")
    );
}
