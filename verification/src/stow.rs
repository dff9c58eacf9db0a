//! The adapter for the external tree-linking utility. The utility is
//! addressed by the parent directory and leaf name of a source, so this
//! module splits paths, builds the exact argument lists for the apply and
//! simulate invocations, interprets exit outcomes, and parses the textual
//! plan that a simulate run emits. Running the process itself is input/
//! output and stays with the caller; everything here is pure and verified.
use vstd::prelude::*;
use vstd::string::StrSliceExecFns;
use vstd::string::StringExecFns;

use crate::error::DotlinkError;
use crate::text::{
    contains_seq, contains_str, find_str, first_match, has_prefix, matches_at, spec_lines,
    split_lines, starts_with_str,
};

verus! {

/// Index of the last '/' in `s`, or -1.
pub open spec fn last_slash(s: Seq<char>) -> int
    decreases s.len(),
{
    if s.len() == 0 {
        -1
    } else if s.last() == '/' {
        s.len() - 1
    } else {
        last_slash(s.drop_last())
    }
}

/// The defining properties of `last_slash`.
pub proof fn lemma_last_slash(s: Seq<char>)
    ensures
        -1 <= last_slash(s) < s.len(),
        last_slash(s) == -1 ==> forall|k: int| 0 <= k < s.len() ==> s[k] != '/',
        last_slash(s) >= 0 ==> last_slash(s) < s.len() && s[last_slash(s)] == '/',
        last_slash(s) >= 0 ==> forall|k: int| last_slash(s) < k < s.len() ==> s[k] != '/',
    decreases s.len(),
{
    if s.len() > 0 && s.last() != '/' {
        let u = s.drop_last();
        lemma_last_slash(u);
        let f = last_slash(u);
        if f == -1 {
            assert forall|k: int| 0 <= k < s.len() implies s[k] != '/' by {
                if k < s.len() - 1 {
                    assert(u[k] == s[k]);
                }
            }
        } else {
            assert(u[f] == s[f]);
            assert forall|k: int| f < k < s.len() implies s[k] != '/' by {
                if k < s.len() - 1 {
                    assert(u[k] == s[k]);
                }
            }
        }
    }
}

/// A slash with no later slash is exactly where `last_slash` points.
pub proof fn lemma_last_slash_is(s: Seq<char>, v: int)
    requires
        0 <= v < s.len(),
        s[v] == '/',
        forall|k: int| v < k < s.len() ==> s[k] != '/',
    ensures
        last_slash(s) == v,
{
    lemma_last_slash(s);
    let f = last_slash(s);
    if f == -1 {
        assert(s[v] != '/');
    } else if f < v {
        assert(s[v] != '/');
    } else if f > v {
        assert(s[f] != '/');
    }
}

/// No slash at all means `last_slash` returns -1.
pub proof fn lemma_last_slash_none(s: Seq<char>)
    requires
        forall|k: int| 0 <= k < s.len() ==> s[k] != '/',
    ensures
        last_slash(s) == -1,
{
    lemma_last_slash(s);
}

/// `s` with trailing separators and trailing `.` components removed: both
/// say nothing about a directory's name or parent, exactly as path
/// normalization folds them away.
pub open spec fn fold_dots(s: Seq<char>) -> Seq<char>
    decreases s.len(),
{
    if s.len() > 0 && s.last() == '/' {
        fold_dots(s.drop_last())
    } else if s.len() > 0 && s.last() == '.' && (s.len() == 1 || s[s.len() - 2] == '/') {
        fold_dots(s.drop_last())
    } else {
        s
    }
}

/// The path has no parent directory: it is empty, or only the root is left
/// of it once trailing separators and dot components fold away.
pub open spec fn split_no_parent(s: Seq<char>) -> bool {
    fold_dots(s).len() == 0 && (s.len() == 0 || s[0] == '/')
}

/// The final component of the path: everything after the last slash once
/// trailing separators and dot components fold away, or all of what
/// remains when no slash does.
pub open spec fn spec_leaf(s: Seq<char>) -> Seq<char> {
    let t = fold_dots(s);
    let j = last_slash(t);
    if j < 0 {
        t
    } else {
        t.skip(j + 1)
    }
}

/// Everything before the final component: the root when its slash is
/// leading, the empty path when no slash remains at all.
pub open spec fn spec_parent(s: Seq<char>) -> Seq<char> {
    let t = fold_dots(s);
    let j = last_slash(t);
    if j < 0 {
        Seq::empty()
    } else if j == 0 {
        seq!['/']
    } else {
        t.take(j)
    }
}

/// The path has a parent but no usable leaf name: it spells the current
/// directory without naming anything, or its final component walks upward.
pub open spec fn split_no_leaf(s: Seq<char>) -> bool {
    !split_no_parent(s) && (fold_dots(s).len() == 0 || spec_leaf(s) == seq!['.', '.'])
}

/// The path splits into a parent and a leaf directory name.
pub open spec fn split_ok(s: Seq<char>) -> bool {
    !split_no_parent(s) && !split_no_leaf(s)
}

/// The wording of the splitting error for a path that does not split.
pub open spec fn split_err_msg(s: Seq<char>) -> Seq<char> {
    if split_no_parent(s) {
        "Invalid source path: no parent directory"@
    } else {
        "Invalid source path: no directory name"@
    }
}

/// Splits a source path into the parent directory and the leaf directory
/// name that the linking utility is addressed by. Trailing separators and
/// trailing `.` components are folded away first; a path without a parent
/// or without a leaf name is rejected as a configuration error.
pub fn split_source_path(source: &str) -> (r: Result<(String, String), DotlinkError>)
    ensures
        split_ok(source@) ==> (r matches Ok(pd) && pd.0@ == spec_parent(source@) && pd.1@
            == spec_leaf(source@)),
        !split_ok(source@) ==> (r matches Err(DotlinkError::StowError(m)) && m@ == split_err_msg(
            source@,
        )),
{
    let n = source.unicode_len();
    let mut e: usize = n;
    proof {
        assert(source@.take(n as int) =~= source@);
    }
    while e > 0 && (source.get_char(e - 1) == '/' || (source.get_char(e - 1) == '.' && (e == 1
        || source.get_char(e - 2) == '/')))
        invariant
            e <= n,
            n == source@.len(),
            fold_dots(source@) == fold_dots(source@.take(e as int)),
        decreases e,
    {
        proof {
            let cur = source@.take(e as int);
            assert(cur.last() == source@[e - 1]);
            if e >= 2 {
                assert(cur[e - 2] == source@[e - 2]);
            }
            assert(cur.drop_last() =~= source@.take(e - 1));
        }
        e -= 1;
    }
    let ghost t = fold_dots(source@);
    proof {
        let cur = source@.take(e as int);
        if e > 0 {
            assert(cur.last() == source@[e - 1]);
            if e >= 2 {
                assert(cur[e - 2] == source@[e - 2]);
            }
        } else {
            assert(cur =~= Seq::<char>::empty());
        }
        assert(t == cur);
        assert(forall|k: int| 0 <= k < t.len() ==> t[k] == source@[k]);
    }
    if e == 0 {
        if n == 0 || source.get_char(0) == '/' {
            return Err(
                DotlinkError::StowError(
                    String::from_str("Invalid source path: no parent directory"),
                ),
            );
        }
        return Err(
            DotlinkError::StowError(String::from_str("Invalid source path: no directory name")),
        );
    }
    let mut j: usize = e;
    while j > 0 && source.get_char(j - 1) != '/'
        invariant
            j <= e,
            e <= n,
            n == source@.len(),
            forall|k: int| j <= k < e ==> source@[k] != '/',
        decreases j,
    {
        j -= 1;
    }
    if j == 0 {
        proof {
            lemma_last_slash_none(t);
        }
        let leaf_is_dotdot = e == 2 && source.get_char(0) == '.' && source.get_char(1) == '.';
        if leaf_is_dotdot {
            proof {
                assert(t =~= seq!['.', '.']);
            }
            return Err(
                DotlinkError::StowError(
                    String::from_str("Invalid source path: no directory name"),
                ),
            );
        }
        let leaf = source.substring_char(0, e).to_owned();
        proof {
            assert(leaf@ =~= t);
            if t == seq!['.', '.'] {
                assert(t.len() == 2 && t[0] == '.' && t[1] == '.');
            }
        }
        return Ok((String::new(), leaf));
    }
    let slash = j - 1;
    proof {
        lemma_last_slash_is(t, slash as int);
        assert(t.last() != '/');
        assert(slash < e - 1);
    }
    let leaf_len = e - 1 - slash;
    let leaf_is_dotdot = leaf_len == 2 && source.get_char(slash + 1) == '.' && source.get_char(
        slash + 2,
    ) == '.';
    proof {
        assert(spec_leaf(source@) =~= source@.subrange(slash + 1, e as int));
    }
    if leaf_is_dotdot {
        proof {
            assert(spec_leaf(source@) =~= seq!['.', '.']);
        }
        return Err(
            DotlinkError::StowError(String::from_str("Invalid source path: no directory name")),
        );
    }
    let parent = if slash == 0 {
        let p = source.substring_char(0, 1).to_owned();
        proof {
            assert(p@ =~= seq!['/']);
        }
        p
    } else {
        let p = source.substring_char(0, slash).to_owned();
        proof {
            assert(p@ =~= t.take(slash as int));
        }
        p
    };
    let leaf = source.substring_char(slash + 1, e).to_owned();
    proof {
        assert(leaf@ =~= spec_leaf(source@));
        let lf = spec_leaf(source@);
        if lf == seq!['.', '.'] {
            assert(lf.len() == 2 && lf[0] == source@[slash + 1] && lf[1] == source@[slash + 2]);
        }
    }
    Ok((parent, leaf))
}

/// The argument list of an apply invocation that creates the links.
pub open spec fn stow_args(src: Seq<char>, tgt: Seq<char>) -> Seq<Seq<char>> {
    seq!["--no-folding"@, "-t"@, tgt, "-d"@, spec_parent(src), spec_leaf(src)]
}

/// The argument list of an apply invocation that removes the links.
pub open spec fn unstow_args(src: Seq<char>, tgt: Seq<char>) -> Seq<Seq<char>> {
    seq!["--no-folding"@, "-D"@, "-t"@, tgt, "-d"@, spec_parent(src), spec_leaf(src)]
}

/// The argument list of an apply invocation that refreshes the links.
pub open spec fn restow_args(src: Seq<char>, tgt: Seq<char>) -> Seq<Seq<char>> {
    seq!["--no-folding"@, "-R"@, "-t"@, tgt, "-d"@, spec_parent(src), spec_leaf(src)]
}

/// The argument list of a simulate invocation: no-op plus verbose, so the
/// plan is written to the diagnostic channel without touching anything.
pub open spec fn dry_run_args(src: Seq<char>, tgt: Seq<char>) -> Seq<Seq<char>> {
    seq!["-n"@, "-v"@, "--no-folding"@, "-t"@, tgt, "-d"@, spec_parent(src), spec_leaf(src)]
}

/// The argument list of a simulate invocation of the removal: no-op plus
/// verbose, so the plan of what would be unlinked is written out without
/// removing anything.
pub open spec fn dry_run_unstow_args(src: Seq<char>, tgt: Seq<char>) -> Seq<Seq<char>> {
    seq![
        "-n"@,
        "-v"@,
        "--no-folding"@,
        "-D"@,
        "-t"@,
        tgt,
        "-d"@,
        spec_parent(src),
        spec_leaf(src),
    ]
}

/// The argument list of a simulate invocation of the refresh: no-op plus
/// verbose, so the plan of the remove-and-recreate is written out without
/// touching anything.
pub open spec fn dry_run_restow_args(src: Seq<char>, tgt: Seq<char>) -> Seq<Seq<char>> {
    seq![
        "-n"@,
        "-v"@,
        "--no-folding"@,
        "-R"@,
        "-t"@,
        tgt,
        "-d"@,
        spec_parent(src),
        spec_leaf(src),
    ]
}

/// Arguments for applying the links of `source` into `target`.
pub fn stow(source: &str, target: &str) -> (r: Result<Vec<String>, DotlinkError>)
    ensures
        split_ok(source@) ==> (r matches Ok(a) && a.deep_view() == stow_args(source@, target@)),
        !split_ok(source@) ==> (r matches Err(DotlinkError::StowError(m)) && m@ == split_err_msg(
            source@,
        )),
{
    match split_source_path(source) {
        Err(e) => Err(e),
        Ok((parent, dirname)) => {
            let mut a: Vec<String> = Vec::new();
            a.push(String::from_str("--no-folding"));
            a.push(String::from_str("-t"));
            a.push(target.to_owned());
            a.push(String::from_str("-d"));
            a.push(parent);
            a.push(dirname);
            proof {
                assert(a.deep_view() =~= stow_args(source@, target@));
            }
            Ok(a)
        },
    }
}

/// Arguments for removing the links of `source` from `target`.
pub fn unstow(source: &str, target: &str) -> (r: Result<Vec<String>, DotlinkError>)
    ensures
        split_ok(source@) ==> (r matches Ok(a) && a.deep_view() == unstow_args(source@, target@)),
        !split_ok(source@) ==> (r matches Err(DotlinkError::StowError(m)) && m@ == split_err_msg(
            source@,
        )),
{
    match split_source_path(source) {
        Err(e) => Err(e),
        Ok((parent, dirname)) => {
            let mut a: Vec<String> = Vec::new();
            a.push(String::from_str("--no-folding"));
            a.push(String::from_str("-D"));
            a.push(String::from_str("-t"));
            a.push(target.to_owned());
            a.push(String::from_str("-d"));
            a.push(parent);
            a.push(dirname);
            proof {
                assert(a.deep_view() =~= unstow_args(source@, target@));
            }
            Ok(a)
        },
    }
}

/// Arguments for refreshing (removing and recreating) the links of
/// `source` in `target`.
pub fn restow(source: &str, target: &str) -> (r: Result<Vec<String>, DotlinkError>)
    ensures
        split_ok(source@) ==> (r matches Ok(a) && a.deep_view() == restow_args(source@, target@)),
        !split_ok(source@) ==> (r matches Err(DotlinkError::StowError(m)) && m@ == split_err_msg(
            source@,
        )),
{
    match split_source_path(source) {
        Err(e) => Err(e),
        Ok((parent, dirname)) => {
            let mut a: Vec<String> = Vec::new();
            a.push(String::from_str("--no-folding"));
            a.push(String::from_str("-R"));
            a.push(String::from_str("-t"));
            a.push(target.to_owned());
            a.push(String::from_str("-d"));
            a.push(parent);
            a.push(dirname);
            proof {
                assert(a.deep_view() =~= restow_args(source@, target@));
            }
            Ok(a)
        },
    }
}

/// Arguments for a simulate-only run over `source` and `target`.
pub fn dry_run(source: &str, target: &str) -> (r: Result<Vec<String>, DotlinkError>)
    ensures
        split_ok(source@) ==> (r matches Ok(a) && a.deep_view() == dry_run_args(source@, target@)),
        !split_ok(source@) ==> (r matches Err(DotlinkError::StowError(m)) && m@ == split_err_msg(
            source@,
        )),
{
    match split_source_path(source) {
        Err(e) => Err(e),
        Ok((parent, dirname)) => {
            let mut a: Vec<String> = Vec::new();
            a.push(String::from_str("-n"));
            a.push(String::from_str("-v"));
            a.push(String::from_str("--no-folding"));
            a.push(String::from_str("-t"));
            a.push(target.to_owned());
            a.push(String::from_str("-d"));
            a.push(parent);
            a.push(dirname);
            proof {
                assert(a.deep_view() =~= dry_run_args(source@, target@));
            }
            Ok(a)
        },
    }
}

/// Arguments for a simulate-only run of removing the links of `source`
/// from `target`.
pub fn dry_run_unstow(source: &str, target: &str) -> (r: Result<Vec<String>, DotlinkError>)
    ensures
        split_ok(source@) ==> (r matches Ok(a) && a.deep_view() == dry_run_unstow_args(
            source@,
            target@,
        )),
        !split_ok(source@) ==> (r matches Err(DotlinkError::StowError(m)) && m@ == split_err_msg(
            source@,
        )),
{
    match split_source_path(source) {
        Err(e) => Err(e),
        Ok((parent, dirname)) => {
            let mut a: Vec<String> = Vec::new();
            a.push(String::from_str("-n"));
            a.push(String::from_str("-v"));
            a.push(String::from_str("--no-folding"));
            a.push(String::from_str("-D"));
            a.push(String::from_str("-t"));
            a.push(target.to_owned());
            a.push(String::from_str("-d"));
            a.push(parent);
            a.push(dirname);
            proof {
                assert(a.deep_view() =~= dry_run_unstow_args(source@, target@));
            }
            Ok(a)
        },
    }
}

/// Arguments for a simulate-only run of refreshing the links of `source`
/// in `target`.
pub fn dry_run_restow(source: &str, target: &str) -> (r: Result<Vec<String>, DotlinkError>)
    ensures
        split_ok(source@) ==> (r matches Ok(a) && a.deep_view() == dry_run_restow_args(
            source@,
            target@,
        )),
        !split_ok(source@) ==> (r matches Err(DotlinkError::StowError(m)) && m@ == split_err_msg(
            source@,
        )),
{
    match split_source_path(source) {
        Err(e) => Err(e),
        Ok((parent, dirname)) => {
            let mut a: Vec<String> = Vec::new();
            a.push(String::from_str("-n"));
            a.push(String::from_str("-v"));
            a.push(String::from_str("--no-folding"));
            a.push(String::from_str("-R"));
            a.push(String::from_str("-t"));
            a.push(target.to_owned());
            a.push(String::from_str("-d"));
            a.push(parent);
            a.push(dirname);
            proof {
                assert(a.deep_view() =~= dry_run_restow_args(source@, target@));
            }
            Ok(a)
        },
    }
}

/// Turns an apply run's exit outcome into the library's result: success is
/// success, failure carries the diagnostic text.
pub fn run_outcome(success: bool, diagnostics: String) -> (r: Result<(), DotlinkError>)
    ensures
        success ==> r is Ok,
        !success ==> (r matches Err(DotlinkError::StowError(m)) && m@ == diagnostics@),
{
    if success {
        Ok(())
    } else {
        Err(DotlinkError::StowError(diagnostics))
    }
}

/// A simulate transcript signals a conflict through either of two known
/// marker phrases.
pub open spec fn spec_has_conflict(t: Seq<char>) -> bool {
    contains_seq(t, "CONFLICT"@) || contains_seq(t, "existing target"@)
}

/// Whether a simulate transcript contains a conflict marker.
pub fn has_conflict_marker(t: &str) -> (r: bool)
    ensures
        r == spec_has_conflict(t@),
{
    contains_str(t, "CONFLICT") || contains_str(t, "existing target")
}

/// What a plan line says would happen to one entry.
#[derive(Clone, Copy, Debug, PartialEq, Eq, Structural)]
pub enum LinkAction {
    WouldLink,
    WouldUnlink,
    WouldSkip,
    Conflict,
}

/// One entry of a parsed plan: an action and the path the line names.
pub struct LinkOp {
    pub action: LinkAction,
    pub path: String,
}

impl View for LinkOp {
    type V = (LinkAction, Seq<char>);

    open spec fn view(&self) -> (LinkAction, Seq<char>) {
        (self.action, self.path@)
    }
}

/// A sequence of plan entries as mathematical values.
pub open spec fn ops_view(s: Seq<LinkOp>) -> Seq<(LinkAction, Seq<char>)> {
    Seq::new(s.len(), |i: int| s[i]@)
}

/// The path named after a marker: the rest of the line, with an arrow and
/// everything after it dropped.
pub open spec fn payload_of(rest: Seq<char>) -> Seq<char> {
    let m = first_match(rest, " =>"@);
    if m >= 0 {
        rest.take(m)
    } else {
        rest
    }
}

/// How one transcript line is read: a recognized marker yields an action
/// and the named path, anything else (headers, summaries) is ignored.
pub open spec fn spec_line_op(l: Seq<char>) -> Option<(LinkAction, Seq<char>)> {
    if has_prefix(l, "LINK: "@) {
        Some((LinkAction::WouldLink, payload_of(l.skip("LINK: "@.len() as int))))
    } else if has_prefix(l, "UNLINK: "@) {
        Some((LinkAction::WouldUnlink, payload_of(l.skip("UNLINK: "@.len() as int))))
    } else if has_prefix(l, "SKIP: "@) {
        Some((LinkAction::WouldSkip, payload_of(l.skip("SKIP: "@.len() as int))))
    } else if has_prefix(l, "CONFLICT: "@) {
        Some((LinkAction::Conflict, payload_of(l.skip("CONFLICT: "@.len() as int))))
    } else {
        None
    }
}

/// The plan entries of a sequence of lines, in order.
pub open spec fn spec_parse_lines(ls: Seq<Seq<char>>) -> Seq<(LinkAction, Seq<char>)>
    decreases ls.len(),
{
    if ls.len() == 0 {
        Seq::empty()
    } else {
        (match spec_line_op(ls[0]) {
            Some(op) => seq![op],
            None => Seq::empty(),
        }) + spec_parse_lines(ls.skip(1))
    }
}

/// The plan entries of a whole simulate transcript.
pub open spec fn spec_parse_plan(t: Seq<char>) -> Seq<(LinkAction, Seq<char>)> {
    spec_parse_lines(spec_lines(t))
}

fn payload(rest: &str) -> (r: String)
    ensures
        r@ == payload_of(rest@),
{
    proof {
        crate::text::lemma_first_match(rest@, " =>"@);
    }
    match find_str(rest, " =>") {
        Some(m) => {
            proof {
                assert(matches_at(rest@, " =>"@, m as int));
            }
            rest.substring_char(0, m).to_owned()
        },
        None => rest.to_owned(),
    }
}

fn parse_line(line: &str) -> (r: Option<LinkOp>)
    ensures
        match r {
            Some(op) => spec_line_op(line@) == Some(op@),
            None => spec_line_op(line@) is None,
        },
{
    let n = line.unicode_len();
    if starts_with_str(line, "LINK: ") {
        proof {
            reveal_strlit("LINK: ");
        }
        let rest = line.substring_char(6, n);
        proof {
            assert(rest@ =~= line@.skip(6));
        }
        Some(LinkOp { action: LinkAction::WouldLink, path: payload(rest) })
    } else if starts_with_str(line, "UNLINK: ") {
        proof {
            reveal_strlit("UNLINK: ");
        }
        let rest = line.substring_char(8, n);
        proof {
            assert(rest@ =~= line@.skip(8));
        }
        Some(LinkOp { action: LinkAction::WouldUnlink, path: payload(rest) })
    } else if starts_with_str(line, "SKIP: ") {
        proof {
            reveal_strlit("SKIP: ");
        }
        let rest = line.substring_char(6, n);
        proof {
            assert(rest@ =~= line@.skip(6));
        }
        Some(LinkOp { action: LinkAction::WouldSkip, path: payload(rest) })
    } else if starts_with_str(line, "CONFLICT: ") {
        proof {
            reveal_strlit("CONFLICT: ");
        }
        let rest = line.substring_char(10, n);
        proof {
            assert(rest@ =~= line@.skip(10));
        }
        Some(LinkOp { action: LinkAction::Conflict, path: payload(rest) })
    } else {
        None
    }
}

/// Parses a simulate transcript into its plan entries, in transcript
/// order. The parse serves counting and display only; decisions rest on
/// exit outcomes and conflict markers, never on this list.
pub fn parse_dry_run_output(output: &str) -> (r: Vec<LinkOp>)
    ensures
        ops_view(r@) == spec_parse_plan(output@),
{
    let lines = split_lines(output);
    let ghost ls = lines.deep_view();
    let mut out: Vec<LinkOp> = Vec::new();
    let mut i: usize = 0;
    proof {
        assert(ls.skip(0) =~= ls);
        assert(ops_view(out@) =~= Seq::<(LinkAction, Seq<char>)>::empty());
        assert(ops_view(out@) + spec_parse_lines(ls) =~= spec_parse_lines(ls));
    }
    while i < lines.len()
        invariant
            i <= lines@.len(),
            ls == lines.deep_view(),
            ls.len() == lines@.len(),
            spec_parse_lines(ls) == ops_view(out@) + spec_parse_lines(ls.skip(i as int)),
        decreases lines@.len() - i,
    {
        let ghost rest = ls.skip(i as int);
        proof {
            assert(rest[0] == ls[i as int]);
            assert(rest.skip(1) =~= ls.skip(i as int + 1));
        }
        let op = parse_line(lines[i].as_str());
        let ghost out0 = ops_view(out@);
        match op {
            Some(o) => {
                out.push(o);
                proof {
                    assert(ops_view(out@) =~= out0 + seq![o@]);
                    assert((out0 + seq![o@]) + spec_parse_lines(ls.skip(i as int + 1)) =~= out0 + (
                    seq![o@] + spec_parse_lines(ls.skip(i as int + 1))));
                }
            },
            None => {
                proof {
                    assert(spec_parse_lines(rest) =~= Seq::<(LinkAction, Seq<char>)>::empty()
                        + spec_parse_lines(ls.skip(i as int + 1)));
                    assert(Seq::<(LinkAction, Seq<char>)>::empty() + spec_parse_lines(
                        ls.skip(i as int + 1),
                    ) =~= spec_parse_lines(ls.skip(i as int + 1)));
                }
            },
        }
        i += 1;
    }
    proof {
        assert(ls.skip(i as int).len() == 0);
        assert(spec_parse_lines(ls.skip(i as int)) =~= Seq::<(LinkAction, Seq<char>)>::empty());
        assert(ops_view(out@) =~= ops_view(out@) + spec_parse_lines(ls.skip(i as int)));
    }
    out
}

} // verus!
