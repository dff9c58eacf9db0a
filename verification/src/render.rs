//! Machine-readable rendering of a status report: one JSON object per
//! source, one per target, and the closing report with its summary
//! counters. Every function is verified to produce exactly the text its
//! specification writes out.
use vstd::prelude::*;
use vstd::string::StringExecFns;

use crate::status::{SourceStatus, StatusView};
use crate::summary::Summary;
use crate::text::{dec_rep, escape_json, spec_escape, usize_to_string};

verus! {

/// The items each wrapped in quotes and joined with comma-space.
pub open spec fn spec_quoted_join(items: Seq<Seq<char>>) -> Seq<char>
    decreases items.len(),
{
    if items.len() == 0 {
        Seq::empty()
    } else if items.len() == 1 {
        seq!['"'] + items[0] + seq!['"']
    } else {
        spec_quoted_join(items.drop_last()) + ", "@ + seq!['"'] + items.last() + seq!['"']
    }
}

/// The items joined with comma-space as they stand.
pub open spec fn spec_comma_join(items: Seq<Seq<char>>) -> Seq<char>
    decreases items.len(),
{
    if items.len() == 0 {
        Seq::empty()
    } else if items.len() == 1 {
        items[0]
    } else {
        spec_comma_join(items.drop_last()) + ", "@ + items.last()
    }
}

/// Wraps each item in quotes and joins with comma-space.
pub fn quoted_join(items: &Vec<String>) -> (r: String)
    ensures
        r@ == spec_quoted_join(items.deep_view()),
{
    let ghost vw = items.deep_view();
    let mut out = String::new();
    let mut i: usize = 0;
    proof {
        assert(vw.take(0) =~= Seq::<Seq<char>>::empty());
        assert(out@ =~= spec_quoted_join(vw.take(0)));
    }
    while i < items.len()
        invariant
            i <= vw.len(),
            vw == items.deep_view(),
            vw.len() == items@.len(),
            out@ == spec_quoted_join(vw.take(i as int)),
        decreases vw.len() - i,
    {
        let ghost pre = out@;
        proof {
            assert(vw.take(i as int + 1).drop_last() =~= vw.take(i as int));
            assert(vw.take(i as int + 1).last() == vw[i as int]);
            assert(vw.take(1)[0] == vw[0]);
            reveal_strlit(", ");
            reveal_strlit("\"");
            assert("\""@ =~= seq!['"']);
        }
        if i > 0 {
            out.append(", ");
        }
        out.append("\"");
        out.append(items[i].as_str());
        out.append("\"");
        proof {
            if i == 0 {
                assert(out@ =~= spec_quoted_join(vw.take(1)));
            } else {
                assert(out@ =~= spec_quoted_join(vw.take(i as int)) + ", "@ + seq!['"'] + vw[
                    i as int] + seq!['"']);
                assert(out@ =~= spec_quoted_join(vw.take(i as int + 1)));
            }
        }
        i += 1;
    }
    proof {
        assert(vw.take(vw.len() as int) =~= vw);
    }
    out
}

/// Joins already-rendered pieces with comma-space.
pub fn comma_join(items: &Vec<String>) -> (r: String)
    ensures
        r@ == spec_comma_join(items.deep_view()),
{
    let ghost vw = items.deep_view();
    let mut out = String::new();
    let mut i: usize = 0;
    proof {
        assert(vw.take(0) =~= Seq::<Seq<char>>::empty());
        assert(out@ =~= spec_comma_join(vw.take(0)));
    }
    while i < items.len()
        invariant
            i <= vw.len(),
            vw == items.deep_view(),
            vw.len() == items@.len(),
            out@ == spec_comma_join(vw.take(i as int)),
        decreases vw.len() - i,
    {
        proof {
            assert(vw.take(i as int + 1).drop_last() =~= vw.take(i as int));
            assert(vw.take(i as int + 1).last() == vw[i as int]);
            assert(vw.take(1)[0] == vw[0]);
            reveal_strlit(", ");
        }
        if i > 0 {
            out.append(", ");
        }
        out.append(items[i].as_str());
        proof {
            if i == 0 {
                assert(out@ =~= spec_comma_join(vw.take(1)));
            } else {
                assert(out@ =~= spec_comma_join(vw.take(i as int + 1)));
            }
        }
        i += 1;
    }
    proof {
        assert(vw.take(vw.len() as int) =~= vw);
    }
    out
}

/// The JSON object describing one source's status. The displayed path and
/// permission text are written as given, list details are quoted raw, and
/// only a conflict transcript is escaped.
pub open spec fn spec_source_json(path: Seq<char>, s: StatusView) -> Seq<char> {
    match s {
        StatusView::Okay { link_count } => {
            "{\"path\": \""@ + path + "\", \"status\": \"ok\", \"link_count\": "@ + dec_rep(
                link_count,
            ) + "}"@
        },
        StatusView::SourceNotFound => {
            "{\"path\": \""@ + path + "\", \"status\": \"error\", \"message\": \"source not found\"}"@
        },
        StatusView::TargetNotFound => {
            "{\"path\": \""@ + path + "\", \"status\": \"error\", \"message\": \"target not found\"}"@
        },
        StatusView::BrokenLinks(ls) => {
            "{\"path\": \""@ + path
                + "\", \"status\": \"warning\", \"message\": \"broken links\", \"details\": ["@
                + spec_quoted_join(ls) + "]}"@
        },
        StatusView::Conflicts(m) => {
            "{\"path\": \""@ + path
                + "\", \"status\": \"warning\", \"message\": \"conflicts\", \"details\": \""@
                + spec_escape(m) + "\"}"@
        },
        StatusView::RealFiles(ls) => {
            "{\"path\": \""@ + path
                + "\", \"status\": \"warning\", \"message\": \"real files (expected symlinks)\", \"details\": ["@
                + spec_quoted_join(ls) + "]}"@
        },
        StatusView::PermissionDenied(m) => {
            "{\"path\": \""@ + path + "\", \"status\": \"error\", \"message\": \"permission denied: "@
                + m + "\"}"@
        },
    }
}

/// Renders one source's status as its JSON object; `path` is the already
/// abbreviated display path.
pub fn render_source_json(path: &str, status: &SourceStatus) -> (r: String)
    ensures
        r@ == spec_source_json(path@, status@),
{
    match status {
        SourceStatus::Okay { link_count } => {
            String::from_str("{\"path\": \"").concat(path).concat(
                "\", \"status\": \"ok\", \"link_count\": ",
            ).concat(usize_to_string(*link_count).as_str()).concat("}")
        },
        SourceStatus::SourceNotFound => {
            String::from_str("{\"path\": \"").concat(path).concat(
                "\", \"status\": \"error\", \"message\": \"source not found\"}",
            )
        },
        SourceStatus::TargetNotFound => {
            String::from_str("{\"path\": \"").concat(path).concat(
                "\", \"status\": \"error\", \"message\": \"target not found\"}",
            )
        },
        SourceStatus::BrokenLinks(ls) => {
            String::from_str("{\"path\": \"").concat(path).concat(
                "\", \"status\": \"warning\", \"message\": \"broken links\", \"details\": [",
            ).concat(quoted_join(ls).as_str()).concat("]}")
        },
        SourceStatus::Conflicts(m) => {
            String::from_str("{\"path\": \"").concat(path).concat(
                "\", \"status\": \"warning\", \"message\": \"conflicts\", \"details\": \"",
            ).concat(escape_json(m.as_str()).as_str()).concat("\"}")
        },
        SourceStatus::RealFiles(ls) => {
            String::from_str("{\"path\": \"").concat(path).concat(
                "\", \"status\": \"warning\", \"message\": \"real files (expected symlinks)\", \"details\": [",
            ).concat(quoted_join(ls).as_str()).concat("]}")
        },
        SourceStatus::PermissionDenied(m) => {
            String::from_str("{\"path\": \"").concat(path).concat(
                "\", \"status\": \"error\", \"message\": \"permission denied: ",
            ).concat(m.as_str()).concat("\"}")
        },
    }
}

/// The JSON object for one target: its display path and the rendered
/// objects of its sources.
pub open spec fn spec_target_json(path: Seq<char>, sources_json: Seq<Seq<char>>) -> Seq<char> {
    "{\"path\": \""@ + path + "\", \"sources\": ["@ + spec_comma_join(sources_json) + "]}"@
}

/// Renders one target with its already-rendered source objects.
pub fn render_target_json(path: &str, sources_json: &Vec<String>) -> (r: String)
    ensures
        r@ == spec_target_json(path@, sources_json.deep_view()),
{
    String::from_str("{\"path\": \"").concat(path).concat("\", \"sources\": [").concat(
        comma_join(sources_json).as_str(),
    ).concat("]}")
}

/// The closing JSON report: all rendered targets and the three summary
/// counters.
pub open spec fn spec_report_json(targets_json: Seq<Seq<char>>, s: Summary) -> Seq<char> {
    "{\"targets\": ["@ + spec_comma_join(targets_json) + "], \"summary\": {\"ok\": "@ + dec_rep(
        s.ok as nat,
    ) + ", \"warning\": "@ + dec_rep(s.warning as nat) + ", \"error\": "@ + dec_rep(s.error as nat)
        + "}}"@
}

/// Renders the whole report from its rendered targets and the summary.
pub fn render_report_json(targets_json: &Vec<String>, s: &Summary) -> (r: String)
    ensures
        r@ == spec_report_json(targets_json.deep_view(), *s),
{
    String::from_str("{\"targets\": [").concat(comma_join(targets_json).as_str()).concat(
        "], \"summary\": {\"ok\": ",
    ).concat(usize_to_string(s.ok).as_str()).concat(", \"warning\": ").concat(
        usize_to_string(s.warning).as_str(),
    ).concat(", \"error\": ").concat(usize_to_string(s.error).as_str()).concat("}}")
}

} // verus!
