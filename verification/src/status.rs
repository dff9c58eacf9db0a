//! The status classifier: a pure, total function from what was observed on
//! the filesystem for one (source, target) pair to exactly one status. The
//! walk that produces the observations and the simulate run that produces
//! a transcript are input/output and stay with the caller; classification
//! itself is verified against `spec_status`, the mathematical description
//! of the priority cascade.
use vstd::prelude::*;
use vstd::string::StrSliceExecFns;
use vstd::string::StringExecFns;

use crate::stow::spec_has_conflict;
use crate::stow::has_conflict_marker;
use crate::text::{spec_lines, spec_trim, split_lines, trim_str};

verus! {

/// The outcome of attempting to read the source directory.
#[derive(Clone, Copy, Debug, PartialEq, Eq, Structural)]
pub enum SourceAccess {
    /// The directory could be read.
    Readable,
    /// Reading failed with a permission error.
    Denied,
    /// Reading failed because the directory is missing.
    Missing,
}

/// What the tree walk recorded for one terminal entry of the source tree:
/// the target-relative path, whether the source entry is a regular file,
/// and what sits at the corresponding target path.
pub struct TreeEntry {
    pub rel_path: String,
    pub source_is_file: bool,
    pub target_is_symlink: bool,
    pub target_exists: bool,
}

/// Everything the classifier consumes for one (source, target) pair. The
/// transcript is `Some` only when a simulate run was made and succeeded.
pub struct PairObservation {
    pub source_access: SourceAccess,
    pub source_exists: bool,
    pub target_exists: bool,
    pub entries: Vec<TreeEntry>,
    pub plan: Option<String>,
}

/// A dangling managed link: the target entry is a symlink whose resolution
/// does not exist.
pub open spec fn is_broken_link(e: TreeEntry) -> bool {
    e.target_is_symlink && !e.target_exists
}

/// A stray real file: the source entry is a regular file and the target
/// entry exists but is not a symlink.
pub open spec fn is_real_file(e: TreeEntry) -> bool {
    e.source_is_file && e.target_exists && !e.target_is_symlink
}

/// An applied link: the target entry is currently a symlink.
pub open spec fn is_live_link(e: TreeEntry) -> bool {
    e.target_is_symlink
}

/// The relative paths of the dangling links, in walk order.
pub open spec fn broken_rels(s: Seq<TreeEntry>) -> Seq<Seq<char>>
    decreases s.len(),
{
    if s.len() == 0 {
        Seq::empty()
    } else {
        broken_rels(s.drop_last()) + if is_broken_link(s.last()) {
            seq![s.last().rel_path@]
        } else {
            Seq::empty()
        }
    }
}

/// The relative paths of the stray real files, in walk order.
pub open spec fn real_rels(s: Seq<TreeEntry>) -> Seq<Seq<char>>
    decreases s.len(),
{
    if s.len() == 0 {
        Seq::empty()
    } else {
        real_rels(s.drop_last()) + if is_real_file(s.last()) {
            seq![s.last().rel_path@]
        } else {
            Seq::empty()
        }
    }
}

/// How many entries are currently applied links.
pub open spec fn link_count(s: Seq<TreeEntry>) -> nat
    decreases s.len(),
{
    if s.len() == 0 {
        0
    } else {
        link_count(s.drop_last()) + if is_live_link(s.last()) {
            1nat
        } else {
            0nat
        }
    }
}

/// The status of one (source, target) pair; exactly one applies.
#[derive(Debug, Clone, PartialEq, Eq)]
pub enum SourceStatus {
    /// Everything in order; carries the number of applied links.
    Okay { link_count: usize },
    /// The source directory is gone or unreadable for another reason.
    SourceNotFound,
    /// The target directory is gone.
    TargetNotFound,
    /// Dangling managed links; carries their relative paths.
    BrokenLinks(Vec<String>),
    /// The simulate run flagged a conflict; carries its raw transcript.
    Conflicts(String),
    /// Real files occupy slots meant for links; carries their paths.
    RealFiles(Vec<String>),
    /// The source directory could not be read; carries a description.
    PermissionDenied(String),
}

/// A status as a mathematical value.
pub enum StatusView {
    Okay { link_count: nat },
    SourceNotFound,
    TargetNotFound,
    BrokenLinks(Seq<Seq<char>>),
    Conflicts(Seq<char>),
    RealFiles(Seq<Seq<char>>),
    PermissionDenied(Seq<char>),
}

impl View for SourceStatus {
    type V = StatusView;

    open spec fn view(&self) -> StatusView {
        match self {
            SourceStatus::Okay { link_count } => StatusView::Okay { link_count: *link_count as nat },
            SourceStatus::SourceNotFound => StatusView::SourceNotFound,
            SourceStatus::TargetNotFound => StatusView::TargetNotFound,
            SourceStatus::BrokenLinks(v) => StatusView::BrokenLinks(v.deep_view()),
            SourceStatus::Conflicts(m) => StatusView::Conflicts(m@),
            SourceStatus::RealFiles(v) => StatusView::RealFiles(v.deep_view()),
            SourceStatus::PermissionDenied(m) => StatusView::PermissionDenied(m@),
        }
    }
}

/// The status of a pair as a function of what was observed, following the
/// strict priority order: permission failure, missing source, missing
/// target, dangling links, stray real files, flagged conflicts, and only
/// then the all-clear with its link count.
pub open spec fn spec_status(source_path: Seq<char>, obs: PairObservation) -> StatusView {
    match obs.source_access {
        SourceAccess::Denied => StatusView::PermissionDenied("source: "@ + source_path),
        SourceAccess::Missing => StatusView::SourceNotFound,
        SourceAccess::Readable => if !obs.source_exists {
            StatusView::SourceNotFound
        } else if !obs.target_exists {
            StatusView::TargetNotFound
        } else if broken_rels(obs.entries@).len() > 0 {
            StatusView::BrokenLinks(broken_rels(obs.entries@))
        } else if real_rels(obs.entries@).len() > 0 {
            StatusView::RealFiles(real_rels(obs.entries@))
        } else {
            match obs.plan {
                Some(p) => if spec_has_conflict(p@) {
                    StatusView::Conflicts(p@)
                } else {
                    StatusView::Okay { link_count: link_count(obs.entries@) }
                },
                None => StatusView::Okay { link_count: link_count(obs.entries@) },
            }
        },
    }
}

/// Collects the relative paths of the dangling links, in walk order.
pub fn find_broken_links(entries: &Vec<TreeEntry>) -> (r: Vec<String>)
    ensures
        r.deep_view() == broken_rels(entries@),
{
    let mut out: Vec<String> = Vec::new();
    let mut i: usize = 0;
    proof {
        assert(entries@.take(0) =~= Seq::<TreeEntry>::empty());
        assert(out.deep_view() =~= broken_rels(entries@.take(0)));
    }
    while i < entries.len()
        invariant
            i <= entries@.len(),
            out.deep_view() == broken_rels(entries@.take(i as int)),
        decreases entries@.len() - i,
    {
        proof {
            assert(entries@.take(i as int + 1).drop_last() =~= entries@.take(i as int));
            assert(entries@.take(i as int + 1).last() == entries@[i as int]);
        }
        let e = &entries[i];
        if e.target_is_symlink && !e.target_exists {
            let ghost out0 = out.deep_view();
            out.push(e.rel_path.clone());
            proof {
                assert(out.deep_view() =~= out0 + seq![entries@[i as int].rel_path@]);
            }
        } else {
            proof {
                assert(broken_rels(entries@.take(i as int + 1)) =~= out.deep_view());
            }
        }
        i += 1;
    }
    proof {
        assert(entries@.take(entries@.len() as int) =~= entries@);
    }
    out
}

/// Collects the relative paths of the stray real files, in walk order.
pub fn find_real_files(entries: &Vec<TreeEntry>) -> (r: Vec<String>)
    ensures
        r.deep_view() == real_rels(entries@),
{
    let mut out: Vec<String> = Vec::new();
    let mut i: usize = 0;
    proof {
        assert(entries@.take(0) =~= Seq::<TreeEntry>::empty());
        assert(out.deep_view() =~= real_rels(entries@.take(0)));
    }
    while i < entries.len()
        invariant
            i <= entries@.len(),
            out.deep_view() == real_rels(entries@.take(i as int)),
        decreases entries@.len() - i,
    {
        proof {
            assert(entries@.take(i as int + 1).drop_last() =~= entries@.take(i as int));
            assert(entries@.take(i as int + 1).last() == entries@[i as int]);
        }
        let e = &entries[i];
        if e.source_is_file && e.target_exists && !e.target_is_symlink {
            let ghost out0 = out.deep_view();
            out.push(e.rel_path.clone());
            proof {
                assert(out.deep_view() =~= out0 + seq![entries@[i as int].rel_path@]);
            }
        } else {
            proof {
                assert(real_rels(entries@.take(i as int + 1)) =~= out.deep_view());
            }
        }
        i += 1;
    }
    proof {
        assert(entries@.take(entries@.len() as int) =~= entries@);
    }
    out
}

/// Counts the entries that are currently applied links.
pub fn count_links(entries: &Vec<TreeEntry>) -> (r: usize)
    ensures
        r as nat == link_count(entries@),
{
    let mut count: usize = 0;
    let mut i: usize = 0;
    proof {
        assert(entries@.take(0) =~= Seq::<TreeEntry>::empty());
    }
    while i < entries.len()
        invariant
            i <= entries@.len(),
            count <= i,
            count as nat == link_count(entries@.take(i as int)),
        decreases entries@.len() - i,
    {
        proof {
            assert(entries@.take(i as int + 1).drop_last() =~= entries@.take(i as int));
            assert(entries@.take(i as int + 1).last() == entries@[i as int]);
        }
        let e = &entries[i];
        if e.target_is_symlink {
            count += 1;
        }
        i += 1;
    }
    proof {
        assert(entries@.take(entries@.len() as int) =~= entries@);
    }
    count
}

/// Classifies one pair from its observation. Total and deterministic: the
/// result is exactly `spec_status` of what was observed, so two
/// classifications of the same observation agree.
pub fn check_source_status(source_path: &str, obs: &PairObservation) -> (s: SourceStatus)
    ensures
        s@ == spec_status(source_path@, *obs),
{
    match obs.source_access {
        SourceAccess::Denied => {
            return SourceStatus::PermissionDenied(
                String::from_str("source: ").concat(source_path),
            );
        },
        SourceAccess::Missing => {
            return SourceStatus::SourceNotFound;
        },
        SourceAccess::Readable => {},
    }
    if !obs.source_exists {
        return SourceStatus::SourceNotFound;
    }
    if !obs.target_exists {
        return SourceStatus::TargetNotFound;
    }
    let broken = find_broken_links(&obs.entries);
    if broken.len() > 0 {
        return SourceStatus::BrokenLinks(broken);
    }
    let stray = find_real_files(&obs.entries);
    if stray.len() > 0 {
        return SourceStatus::RealFiles(stray);
    }
    match &obs.plan {
        Some(p) => {
            if has_conflict_marker(p.as_str()) {
                return SourceStatus::Conflicts(p.clone());
            }
        },
        None => {},
    }
    let n = count_links(&obs.entries);
    SourceStatus::Okay { link_count: n }
}

/// Classification needs a simulate transcript only when the source is
/// readable, both directories exist, and no local divergence was found.
pub open spec fn spec_plan_required(obs: PairObservation) -> bool {
    &&& obs.source_access is Readable
    &&& obs.source_exists
    &&& obs.target_exists
    &&& broken_rels(obs.entries@).len() == 0
    &&& real_rels(obs.entries@).len() == 0
}

/// Whether classification of this observation will consult the transcript,
/// so the caller can skip the comparatively expensive simulate run.
pub fn plan_required(obs: &PairObservation) -> (r: bool)
    ensures
        r == spec_plan_required(*obs),
{
    match obs.source_access {
        SourceAccess::Readable => {},
        _ => {
            return false;
        },
    }
    if !obs.source_exists || !obs.target_exists {
        return false;
    }
    let broken = find_broken_links(&obs.entries);
    if broken.len() > 0 {
        return false;
    }
    let stray = find_real_files(&obs.entries);
    stray.len() == 0
}

/// A dangling link at position `i` makes the collected list non-empty.
pub proof fn lemma_broken_rels_nonempty(s: Seq<TreeEntry>, i: int)
    requires
        0 <= i < s.len(),
        is_broken_link(s[i]),
    ensures
        broken_rels(s).len() > 0,
    decreases s.len(),
{
    if i < s.len() - 1 {
        assert(s.drop_last()[i] == s[i]);
        lemma_broken_rels_nonempty(s.drop_last(), i);
    }
}

/// Dangling links take priority: when an observation shows both a dangling
/// link and a stray real file, the status is `BrokenLinks` and never
/// `RealFiles`.
pub proof fn lemma_broken_links_take_priority(
    source_path: Seq<char>,
    obs: PairObservation,
    i: int,
    j: int,
)
    requires
        obs.source_access is Readable,
        obs.source_exists,
        obs.target_exists,
        0 <= i < obs.entries@.len(),
        is_broken_link(obs.entries@[i]),
        0 <= j < obs.entries@.len(),
        is_real_file(obs.entries@[j]),
    ensures
        spec_status(source_path, obs) is BrokenLinks,
{
    lemma_broken_rels_nonempty(obs.entries@, i);
}

/// Classification reads only the filesystem facts unless a transcript is
/// required: two observations that agree on access, existence and entries,
/// one of which shows the transcript is not consulted, classify alike
/// whatever transcripts they carry.
pub proof fn lemma_status_ignores_plan(
    source_path: Seq<char>,
    o1: PairObservation,
    o2: PairObservation,
)
    requires
        o1.source_access == o2.source_access,
        o1.source_exists == o2.source_exists,
        o1.target_exists == o2.target_exists,
        o1.entries@ == o2.entries@,
        !spec_plan_required(o1),
    ensures
        spec_status(source_path, o1) == spec_status(source_path, o2),
{
}

/// The first at most five non-blank lines of a transcript, trimmed, for
/// human display of a conflict.
pub open spec fn preview(lines: Seq<Seq<char>>, limit: int) -> Seq<Seq<char>>
    decreases lines.len(),
{
    if lines.len() == 0 || limit <= 0 {
        Seq::empty()
    } else if spec_trim(lines[0]).len() > 0 {
        seq![spec_trim(lines[0])] + preview(lines.skip(1), limit - 1)
    } else {
        preview(lines.skip(1), limit)
    }
}

/// Renders a conflict transcript for human display: its first at most five
/// non-blank lines, each trimmed.
pub fn conflict_preview(text: &str) -> (r: Vec<String>)
    ensures
        r.deep_view() == preview(spec_lines(text@), 5),
{
    let lines = split_lines(text);
    let ghost ls = lines.deep_view();
    let mut out: Vec<String> = Vec::new();
    let mut i: usize = 0;
    proof {
        assert(ls.skip(0) =~= ls);
        assert(out.deep_view() =~= Seq::<Seq<char>>::empty());
        assert(out.deep_view() + preview(ls, 5) =~= preview(ls, 5));
    }
    while i < lines.len() && out.len() < 5
        invariant
            i <= ls.len(),
            ls == lines.deep_view(),
            ls.len() == lines@.len(),
            out@.len() <= 5,
            preview(ls, 5) == out.deep_view() + preview(ls.skip(i as int), 5 - out@.len() as int),
        decreases ls.len() - i,
    {
        let ghost rest = ls.skip(i as int);
        let ghost budget = 5 - out@.len() as int;
        proof {
            assert(rest[0] == ls[i as int]);
            assert(rest.skip(1) =~= ls.skip(i as int + 1));
        }
        let t = trim_str(lines[i].as_str());
        if t.unicode_len() > 0 {
            let ghost out0 = out.deep_view();
            out.push(t);
            proof {
                assert(out.deep_view() =~= out0 + seq![spec_trim(rest[0])]);
                assert((out0 + seq![spec_trim(rest[0])]) + preview(ls.skip(i as int + 1), budget - 1)
                    =~= out0 + (seq![spec_trim(rest[0])] + preview(ls.skip(i as int + 1), budget
                    - 1)));
            }
        }
        i += 1;
    }
    proof {
        if out@.len() == 5 {
            assert(preview(ls.skip(i as int), 0) =~= Seq::<Seq<char>>::empty());
        } else {
            assert(ls.skip(i as int).len() == 0);
            assert(preview(ls.skip(i as int), 5 - out@.len() as int) =~= Seq::<Seq<char>>::empty());
        }
        assert(out.deep_view() =~= out.deep_view() + Seq::<Seq<char>>::empty());
    }
    out
}

} // verus!
