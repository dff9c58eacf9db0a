//! The registry: an ordered mapping from target directories to the source
//! directories registered for them. Within a target the sources keep their
//! registration order, which display follows. Target entries also stand in
//! registration order — a deliberate simplification over keeping them
//! sorted by key, significant for display only; an embedding that persists
//! the registry in a key-sorted store and reloads it before each command,
//! as the bundled one does, lists targets in key order all the same. Every
//! stored path is already in canonical textual form; the registry itself
//! never touches the filesystem.
use vstd::prelude::*;
use vstd::string::StringExecFns;

use crate::error::DotlinkError;
use crate::text::str_eq;

verus! {

/// The sources registered for one target directory.
pub struct TargetEntry {
    pub target: String,
    pub sources: Vec<String>,
}

/// The registry as a mathematical value: a sequence of
/// (target path, source paths) pairs.
pub type RegView = Seq<(Seq<char>, Seq<Seq<char>>)>;

/// The in-memory registry.
pub struct Config {
    pub targets: Vec<TargetEntry>,
}

impl View for Config {
    type V = RegView;

    open spec fn view(&self) -> RegView {
        Seq::new(
            self.targets@.len(),
            |i: int| (self.targets@[i].target@, self.targets@[i].sources.deep_view()),
        )
    }
}

/// Index of the first entry whose target is `t`, or -1.
pub open spec fn find_target(r: RegView, t: Seq<char>) -> int
    decreases r.len(),
{
    if r.len() == 0 {
        -1
    } else if r[0].0 == t {
        0
    } else {
        let k = find_target(r.skip(1), t);
        if k < 0 {
            -1
        } else {
            k + 1
        }
    }
}

/// Index of the first element of `l` equal to `x`, or -1.
pub open spec fn first_index(l: Seq<Seq<char>>, x: Seq<char>) -> int
    decreases l.len(),
{
    if l.len() == 0 {
        -1
    } else if l[0] == x {
        0
    } else {
        let k = first_index(l.skip(1), x);
        if k < 0 {
            -1
        } else {
            k + 1
        }
    }
}

/// Well-formedness of the registry: target paths are pairwise distinct,
/// every target has at least one source, and no source is listed twice
/// under the same target.
pub open spec fn reg_wf(r: RegView) -> bool {
    &&& forall|i: int, j: int|
        #![trigger r[i], r[j]]
        0 <= i < j < r.len() ==> r[i].0 != r[j].0
    &&& forall|i: int| 0 <= i < r.len() ==> (#[trigger] r[i]).1.len() > 0
    &&& forall|i: int, a: int, b: int|
        #![trigger r[i].1[a], r[i].1[b]]
        0 <= i < r.len() && 0 <= a < b < r[i].1.len() ==> r[i].1[a] != r[i].1[b]
}

/// Registration succeeds exactly when `s` is not yet listed under `t`.
pub open spec fn spec_add_ok(r: RegView, t: Seq<char>, s: Seq<char>) -> bool {
    let i = find_target(r, t);
    i < 0 || !r[i].1.contains(s)
}

/// The registry after a successful registration of (t, s): the source is
/// appended to `t`'s list, a fresh entry being opened at the end when `t`
/// was not yet present.
pub open spec fn spec_add(r: RegView, t: Seq<char>, s: Seq<char>) -> RegView {
    let i = find_target(r, t);
    if i < 0 {
        r.push((t, seq![s]))
    } else {
        r.update(i, (t, r[i].1.push(s)))
    }
}

/// Unregistration succeeds exactly when `s` is listed under `t`.
pub open spec fn spec_remove_ok(r: RegView, t: Seq<char>, s: Seq<char>) -> bool {
    let i = find_target(r, t);
    i >= 0 && r[i].1.contains(s)
}

/// The registry after a successful unregistration of (t, s): the first
/// listing of the source leaves `t`'s list, and the whole entry leaves the
/// registry when that list becomes empty.
pub open spec fn spec_remove(r: RegView, t: Seq<char>, s: Seq<char>) -> RegView {
    let i = find_target(r, t);
    let l = r[i].1.remove(first_index(r[i].1, s));
    if l.len() == 0 {
        r.remove(i)
    } else {
        r.update(i, (t, l))
    }
}

/// The defining properties of `find_target`.
pub proof fn lemma_find_target(r: RegView, t: Seq<char>)
    ensures
        find_target(r, t) == -1 ==> forall|i: int| 0 <= i < r.len() ==> (#[trigger] r[i]).0 != t,
        find_target(r, t) >= 0 ==> find_target(r, t) < r.len() && r[find_target(r, t)].0 == t,
        find_target(r, t) >= 0 ==> forall|i: int|
            0 <= i < find_target(r, t) ==> (#[trigger] r[i]).0 != t,
    decreases r.len(),
{
    if r.len() > 0 && r[0].0 != t {
        lemma_find_target(r.skip(1), t);
        let u = r.skip(1);
        let k = find_target(u, t);
        if k == -1 {
            assert forall|i: int| 0 <= i < r.len() implies (#[trigger] r[i]).0 != t by {
                if i >= 1 {
                    assert(u[i - 1] == r[i]);
                }
            }
        } else {
            assert(u[k] == r[k + 1]);
            assert forall|i: int| 0 <= i < k + 1 implies (#[trigger] r[i]).0 != t by {
                if i >= 1 {
                    assert(u[i - 1] == r[i]);
                }
            }
        }
    }
}

/// An entry for `t` with no earlier entry for `t` is exactly where
/// `find_target` points.
pub proof fn lemma_find_target_is(r: RegView, t: Seq<char>, v: int)
    requires
        0 <= v < r.len(),
        r[v].0 == t,
        forall|i: int| 0 <= i < v ==> (#[trigger] r[i]).0 != t,
    ensures
        find_target(r, t) == v,
{
    lemma_find_target(r, t);
    let f = find_target(r, t);
    if f == -1 {
        assert(r[v].0 != t);
    } else if f < v {
        assert(r[f].0 != t);
    } else if f > v {
        assert(r[v].0 != t);
    }
}

/// `t` has no entry exactly when `find_target` returns -1.
pub proof fn lemma_find_target_none(r: RegView, t: Seq<char>)
    requires
        forall|i: int| 0 <= i < r.len() ==> (#[trigger] r[i]).0 != t,
    ensures
        find_target(r, t) == -1,
{
    lemma_find_target(r, t);
}

/// The defining properties of `first_index`.
pub proof fn lemma_first_index(l: Seq<Seq<char>>, x: Seq<char>)
    ensures
        first_index(l, x) == -1 ==> forall|i: int| 0 <= i < l.len() ==> l[i] != x,
        first_index(l, x) == -1 ==> !l.contains(x),
        first_index(l, x) >= 0 ==> first_index(l, x) < l.len() && l[first_index(l, x)] == x,
        first_index(l, x) >= 0 ==> forall|i: int| 0 <= i < first_index(l, x) ==> l[i] != x,
    decreases l.len(),
{
    if l.len() > 0 && l[0] != x {
        lemma_first_index(l.skip(1), x);
        let u = l.skip(1);
        let k = first_index(u, x);
        if k == -1 {
            assert forall|i: int| 0 <= i < l.len() implies l[i] != x by {
                if i >= 1 {
                    assert(u[i - 1] == l[i]);
                }
            }
        } else {
            assert(u[k] == l[k + 1]);
            assert forall|i: int| 0 <= i < k + 1 implies l[i] != x by {
                if i >= 1 {
                    assert(u[i - 1] == l[i]);
                }
            }
        }
    }
    if first_index(l, x) == -1 && l.contains(x) {
        let w = choose|i: int| 0 <= i < l.len() && l[i] == x;
        assert(l[w] != x);
    }
}

/// An occurrence of `x` with none before it is exactly where `first_index`
/// points.
pub proof fn lemma_first_index_is(l: Seq<Seq<char>>, x: Seq<char>, v: int)
    requires
        0 <= v < l.len(),
        l[v] == x,
        forall|i: int| 0 <= i < v ==> l[i] != x,
    ensures
        first_index(l, x) == v,
{
    lemma_first_index(l, x);
    let f = first_index(l, x);
    if f == -1 {
        assert(l[v] != x);
    } else if f < v {
        assert(l[f] != x);
    } else if f > v {
        assert(l[v] != x);
    }
}

/// Registration preserves well-formedness.
pub proof fn lemma_add_preserves_wf(r: RegView, t: Seq<char>, s: Seq<char>)
    requires
        reg_wf(r),
        spec_add_ok(r, t, s),
    ensures
        reg_wf(spec_add(r, t, s)),
{
    lemma_find_target(r, t);
    let i = find_target(r, t);
    if i < 0 {
        let r2 = r.push((t, seq![s]));
        assert forall|a: int, b: int|
            #![trigger r2[a], r2[b]]
            0 <= a < b < r2.len() implies r2[a].0 != r2[b].0 by {
            if b < r.len() {
                assert(r2[a] == r[a] && r2[b] == r[b]);
            } else {
                assert(r2[b].0 == t);
                assert(r2[a] == r[a]);
            }
        }
        assert forall|a: int| 0 <= a < r2.len() implies (#[trigger] r2[a]).1.len() > 0 by {
            if a < r.len() {
                assert(r2[a] == r[a]);
            }
        }
        assert forall|a: int, x: int, y: int|
            #![trigger r2[a].1[x], r2[a].1[y]]
            0 <= a < r2.len() && 0 <= x < y < r2[a].1.len() implies r2[a].1[x] != r2[a].1[y] by {
            if a < r.len() {
                assert(r2[a] == r[a]);
            }
        }
    } else {
        let l = r[i].1;
        let l2 = l.push(s);
        let r2 = r.update(i, (t, l2));
        assert(!l.contains(s));
        assert forall|a: int, b: int|
            #![trigger r2[a], r2[b]]
            0 <= a < b < r2.len() implies r2[a].0 != r2[b].0 by {
            assert(r[i].0 == t);
            assert(a != i ==> r2[a] == r[a]);
            assert(b != i ==> r2[b] == r[b]);
        }
        assert forall|a: int| 0 <= a < r2.len() implies (#[trigger] r2[a]).1.len() > 0 by {
            if a != i {
                assert(r2[a] == r[a]);
            }
        }
        assert forall|a: int, x: int, y: int|
            #![trigger r2[a].1[x], r2[a].1[y]]
            0 <= a < r2.len() && 0 <= x < y < r2[a].1.len() implies r2[a].1[x] != r2[a].1[y] by {
            if a != i {
                assert(r2[a] == r[a]);
                assert(r[a].1[x] != r[a].1[y]);
            } else {
                assert(r2[a].1 == l2);
                if y < l.len() {
                    assert(l[x] != l[y]);
                } else {
                    assert(l2[y] == s);
                    assert(l2[x] == l[x]);
                    assert(!l.contains(s));
                    assert(l[x] != s);
                }
            }
        }
    }
}

/// Unregistration preserves well-formedness.
pub proof fn lemma_remove_preserves_wf(r: RegView, t: Seq<char>, s: Seq<char>)
    requires
        reg_wf(r),
        spec_remove_ok(r, t, s),
    ensures
        reg_wf(spec_remove(r, t, s)),
{
    lemma_find_target(r, t);
    let i = find_target(r, t);
    let l = r[i].1;
    lemma_first_index(l, s);
    let j = first_index(l, s);
    assert(l.contains(s));
    if j == -1 {
        let w = choose|k: int| 0 <= k < l.len() && l[k] == s;
        assert(l[w] != s);
    }
    let l2 = l.remove(j);
    if l2.len() == 0 {
        let r2 = r.remove(i);
        assert forall|a: int, b: int|
            #![trigger r2[a], r2[b]]
            0 <= a < b < r2.len() implies r2[a].0 != r2[b].0 by {
            let a0 = if a < i {
                a
            } else {
                a + 1
            };
            let b0 = if b < i {
                b
            } else {
                b + 1
            };
            assert(r2[a] == r[a0] && r2[b] == r[b0]);
        }
        assert forall|a: int| 0 <= a < r2.len() implies (#[trigger] r2[a]).1.len() > 0 by {
            let a0 = if a < i {
                a
            } else {
                a + 1
            };
            assert(r2[a] == r[a0]);
        }
        assert forall|a: int, x: int, y: int|
            #![trigger r2[a].1[x], r2[a].1[y]]
            0 <= a < r2.len() && 0 <= x < y < r2[a].1.len() implies r2[a].1[x] != r2[a].1[y] by {
            let a0 = if a < i {
                a
            } else {
                a + 1
            };
            assert(r2[a] == r[a0]);
            assert(r[a0].1[x] != r[a0].1[y]);
        }
    } else {
        let r2 = r.update(i, (t, l2));
        assert forall|a: int, b: int|
            #![trigger r2[a], r2[b]]
            0 <= a < b < r2.len() implies r2[a].0 != r2[b].0 by {
            assert(r[i].0 == t);
            assert(a != i ==> r2[a] == r[a]);
            assert(b != i ==> r2[b] == r[b]);
        }
        assert forall|a: int| 0 <= a < r2.len() implies (#[trigger] r2[a]).1.len() > 0 by {
            if a != i {
                assert(r2[a] == r[a]);
            }
        }
        assert forall|a: int, x: int, y: int|
            #![trigger r2[a].1[x], r2[a].1[y]]
            0 <= a < r2.len() && 0 <= x < y < r2[a].1.len() implies r2[a].1[x] != r2[a].1[y] by {
            if a != i {
                assert(r2[a] == r[a]);
                assert(r[a].1[x] != r[a].1[y]);
            } else {
                assert(r2[a].1 == l2);
                let x0 = if x < j {
                    x
                } else {
                    x + 1
                };
                let y0 = if y < j {
                    y
                } else {
                    y + 1
                };
                assert(l2[x] == l[x0] && l2[y] == l[y0]);
                assert(l[x0] != l[y0]);
            }
        }
    }
}

/// Registering a pair and then unregistering the same pair restores the
/// registry exactly: the round trip is the identity on well-formed
/// registries whenever the registration is accepted.
pub proof fn lemma_add_remove_round_trip(r: RegView, t: Seq<char>, s: Seq<char>)
    requires
        reg_wf(r),
        spec_add_ok(r, t, s),
    ensures
        spec_remove_ok(spec_add(r, t, s), t, s),
        spec_remove(spec_add(r, t, s), t, s) == r,
{
    lemma_find_target(r, t);
    let i = find_target(r, t);
    if i < 0 {
        let r2 = r.push((t, seq![s]));
        assert forall|k: int| 0 <= k < r.len() implies (#[trigger] r2[k]).0 != t by {
            assert(r2[k] == r[k]);
        }
        assert(r2[r.len() as int].0 == t);
        lemma_find_target_is(r2, t, r.len() as int);
        assert(r2[r.len() as int].1 == seq![s]);
        assert(seq![s][0] == s);
        lemma_first_index_is(seq![s], s, 0);
        assert(seq![s].remove(0).len() == 0);
        assert(r2.remove(r.len() as int) =~= r);
    } else {
        let l = r[i].1;
        assert(!l.contains(s));
        let l2 = l.push(s);
        let r2 = r.update(i, (t, l2));
        assert forall|k: int| 0 <= k < i implies (#[trigger] r2[k]).0 != t by {
            assert(r2[k] == r[k]);
        }
        assert(r2[i].0 == t);
        lemma_find_target_is(r2, t, i);
        assert forall|k: int| 0 <= k < l.len() implies l2[k] != s by {
            assert(l2[k] == l[k]);
            if l[k] == s {
                assert(l.contains(s));
            }
        }
        assert(l2[l.len() as int] == s);
        lemma_first_index_is(l2, s, l.len() as int);
        assert(l2.remove(l.len() as int) =~= l);
        assert(l.len() > 0);
        assert(r2.update(i, (t, l)) =~= r);
    }
}

impl Config {
    /// Whether the registry is well-formed; constructors establish this and
    /// every mutation preserves it.
    pub open spec fn wf(&self) -> bool {
        reg_wf(self@)
    }

    /// Index of the entry for `target`, if one exists, together with the
    /// fact that it is the first one.
    fn find_entry(&self, target: &str) -> (r: Option<usize>)
        ensures
            match r {
                Some(i) => find_target(self@, target@) == i,
                None => find_target(self@, target@) == -1,
            },
    {
        let n = self.targets.len();
        let mut i: usize = 0;
        while i < n
            invariant
                i <= n,
                n == self.targets@.len(),
                forall|k: int| 0 <= k < i ==> (#[trigger] self@[k]).0 != target@,
            decreases n - i,
        {
            if str_eq(self.targets[i].target.as_str(), target) {
                proof {
                    lemma_find_target_is(self@, target@, i as int);
                }
                return Some(i);
            }
            i += 1;
        }
        proof {
            lemma_find_target_none(self@, target@);
        }
        None
    }

    /// Index of the first listing of `source` in `sources`, if any.
    fn find_source(sources: &Vec<String>, source: &str) -> (r: Option<usize>)
        ensures
            match r {
                Some(j) => first_index(sources.deep_view(), source@) == j,
                None => first_index(sources.deep_view(), source@) == -1,
            },
    {
        let n = sources.len();
        let mut j: usize = 0;
        while j < n
            invariant
                j <= n,
                n == sources@.len(),
                forall|k: int| 0 <= k < j ==> sources.deep_view()[k] != source@,
            decreases n - j,
        {
            if str_eq(sources[j].as_str(), source) {
                proof {
                    lemma_first_index_is(sources.deep_view(), source@, j as int);
                }
                return Some(j);
            }
            j += 1;
        }
        proof {
            lemma_first_index(sources.deep_view(), source@);
            if first_index(sources.deep_view(), source@) >= 0 {
                assert(sources.deep_view()[first_index(sources.deep_view(), source@)] == source@);
            }
        }
        None
    }

    /// Registers `source` under `target`. Fails with `AlreadyRegistered`,
    /// leaving the registry unchanged, exactly when the pair is already
    /// present; otherwise appends the source to the target's list, opening
    /// the entry when needed.
    pub fn add_source(&mut self, target: String, source: String) -> (r: Result<(), DotlinkError>)
        requires
            old(self).wf(),
        ensures
            final(self).wf(),
            spec_add_ok(old(self)@, target@, source@) ==> r is Ok && final(self)@ == spec_add(
                old(self)@,
                target@,
                source@,
            ),
            !spec_add_ok(old(self)@, target@, source@) ==> final(self)@ == old(self)@ && (r matches Err(
                DotlinkError::AlreadyRegistered { src, dest },
            ) && src@ == source@ && dest@ == target@),
    {
        proof {
            lemma_find_target(self@, target@);
        }
        match self.find_entry(target.as_str()) {
            None => {
                proof {
                    lemma_add_preserves_wf(self@, target@, source@);
                }
                let ghost r0 = self@;
                let mut sources: Vec<String> = Vec::new();
                sources.push(source);
                proof {
                    assert(sources.deep_view() =~= seq![source@]);
                }
                self.targets.push(TargetEntry { target, sources });
                proof {
                    assert(self@ =~= r0.push((target@, seq![source@])));
                }
                Ok(())
            },
            Some(i) => {
                let ghost r0 = self@;
                let ghost l = self@[i as int].1;
                if let Some(_j) = Self::find_source(&self.targets[i].sources, source.as_str()) {
                    proof {
                        lemma_first_index(l, source@);
                        assert(l.contains(source@));
                    }
                    return Err(
                        DotlinkError::AlreadyRegistered { src: source, dest: target },
                    );
                }
                proof {
                    lemma_first_index(l, source@);
                    if l.contains(source@) {
                        let w = choose|k: int| 0 <= k < l.len() && l[k] == source@;
                        assert(l[w] == source@);
                    }
                    lemma_add_preserves_wf(r0, target@, source@);
                }
                let ghost t0 = self.targets@;
                let mut e = self.targets.remove(i);
                e.sources.push(source);
                proof {
                    assert(e.sources.deep_view() =~= l.push(source@));
                }
                let ghost ev = e;
                self.targets.insert(i, e);
                proof {
                    assert(self.targets@ =~= t0.update(i as int, ev));
                    let r2 = r0.update(i as int, (target@, l.push(source@)));
                    assert forall|k: int| 0 <= k < self@.len() implies self@[k] == r2[k] by {
                        if k != i {
                            assert(self.targets@[k] == t0[k]);
                        }
                    }
                    assert(self@ =~= r2);
                }
                Ok(())
            },
        }
    }

    /// Unregisters `source` from `target`. Fails with `NotRegistered`,
    /// leaving the registry unchanged, exactly when the pair is not
    /// present; otherwise removes the source, and the whole entry when its
    /// list becomes empty.
    pub fn remove_source(&mut self, target: &str, source: &str) -> (r: Result<(), DotlinkError>)
        requires
            old(self).wf(),
        ensures
            final(self).wf(),
            spec_remove_ok(old(self)@, target@, source@) ==> r is Ok && final(self)@ == spec_remove(
                old(self)@,
                target@,
                source@,
            ),
            !spec_remove_ok(old(self)@, target@, source@) ==> final(self)@ == old(self)@ && (r matches Err(
                DotlinkError::NotRegistered { src, dest },
            ) && src@ == source@ && dest@ == target@),
    {
        proof {
            lemma_find_target(self@, target@);
        }
        let found = self.find_entry(target);
        match found {
            None => Err(
                DotlinkError::NotRegistered { src: source.to_owned(), dest: target.to_owned() },
            ),
            Some(i) => {
                let ghost r0 = self@;
                let ghost l = self@[i as int].1;
                proof {
                    lemma_first_index(l, source@);
                }
                match Self::find_source(&self.targets[i].sources, source) {
                    None => Err(
                        DotlinkError::NotRegistered {
                            src: source.to_owned(),
                            dest: target.to_owned(),
                        },
                    ),
                    Some(j) => {
                        proof {
                            assert(l[j as int] == source@);
                            lemma_remove_preserves_wf(r0, target@, source@);
                        }
                        let ghost t0 = self.targets@;
                        let mut e = self.targets.remove(i);
                        let _removed = e.sources.remove(j);
                        proof {
                            assert(e.sources.deep_view() =~= l.remove(j as int));
                        }
                        if e.sources.len() == 0 {
                            proof {
                                let r2 = r0.remove(i as int);
                                assert(self.targets@ =~= t0.remove(i as int));
                                assert forall|k: int| 0 <= k < self@.len() implies self@[k]
                                    == r2[k] by {
                                    if k < i {
                                        assert(self.targets@[k] == t0[k]);
                                    } else {
                                        assert(self.targets@[k] == t0[k + 1]);
                                    }
                                }
                                assert(self@ =~= r2);
                            }
                            Ok(())
                        } else {
                            let ghost ev = e;
                            self.targets.insert(i, e);
                            proof {
                                assert(self.targets@ =~= t0.update(i as int, ev));
                                let r2 = r0.update(i as int, (target@, l.remove(j as int)));
                                assert forall|k: int| 0 <= k < self@.len() implies self@[k]
                                    == r2[k] by {
                                    if k != i {
                                        assert(self.targets@[k] == t0[k]);
                                    }
                                }
                                assert(self@ =~= r2);
                                assert(r2 =~= spec_remove(r0, target@, source@));
                            }
                            Ok(())
                        }
                    },
                }
            },
        }
    }

    /// The sources registered for `target`, or `None` when the target has
    /// no entry.
    pub fn get_sources(&self, target: &str) -> (r: Option<&Vec<String>>)
        ensures
            match r {
                Some(v) => find_target(self@, target@) >= 0 && v.deep_view() == self@[find_target(
                    self@,
                    target@,
                )].1,
                None => find_target(self@, target@) == -1,
            },
    {
        proof {
            lemma_find_target(self@, target@);
        }
        match self.find_entry(target) {
            Some(i) => Some(&self.targets[i].sources),
            None => None,
        }
    }
}

impl Default for Config {
    /// The empty registry.
    fn default() -> (r: Self)
        ensures
            r@ == Seq::<(Seq<char>, Seq<Seq<char>>)>::empty(),
            r.wf(),
    {
        let c = Config { targets: Vec::new() };
        proof {
            assert(c@ =~= Seq::<(Seq<char>, Seq<Seq<char>>)>::empty());
        }
        c
    }
}

/// Which role a path plays when it fails to resolve.
#[derive(Clone, Copy, Debug, PartialEq, Eq, Structural)]
pub enum PathRole {
    Source,
    Target,
}

/// The error reported when resolving an expanded path fails: a path that
/// does not exist is the role's own not-found error carrying the path,
/// anything else is the underlying input/output failure in words.
pub fn canonicalize_failure(role: PathRole, path: String, not_found: bool, message: String) -> (r:
    DotlinkError)
    ensures
        not_found && role is Source ==> (r matches DotlinkError::SourceNotFound(p) && p@ == path@),
        not_found && role is Target ==> (r matches DotlinkError::TargetNotFound(p) && p@ == path@),
        !not_found ==> (r matches DotlinkError::IoError(m) && m@ == message@),
{
    if not_found {
        match role {
            PathRole::Source => DotlinkError::SourceNotFound(path),
            PathRole::Target => DotlinkError::TargetNotFound(path),
        }
    } else {
        DotlinkError::IoError(message)
    }
}

/// Relies on `shellexpand::tilde`: a path that does not begin with a tilde,
/// or that begins with a tilde naming another user, comes back unchanged;
/// `~` alone or a leading `~/` is replaced by some prefix (the home
/// directory when one is known, otherwise the tilde itself) followed by the
/// rest of the path.
#[verifier::external_body]
pub fn expand_path(path: &str) -> (r: String)
    ensures
        path@.len() == 0 ==> r@ == path@,
        path@.len() > 0 && path@[0] != '~' ==> r@ == path@,
        path@.len() > 1 && path@[0] == '~' && path@[1] != '/' ==> r@ == path@,
        path@.len() > 0 && path@[0] == '~' && (path@.len() == 1 || path@[1] == '/') ==> exists|
            h: Seq<char>,
        | r@ == h + path@.skip(1),
{
    shellexpand::tilde(path).into_owned()
}

} // verus!
