//! Verified text utilities: equality, prefix and substring tests, line
//! splitting, whitespace trimming and JSON string escaping, each proved
//! against a direct mathematical description of its result.
use vstd::prelude::*;
use vstd::string::StrSliceExecFns;
use vstd::string::StringExecFns;

verus! {

/// `p` occurs in `t` starting at position `i`.
pub open spec fn matches_at(t: Seq<char>, p: Seq<char>, i: int) -> bool {
    0 <= i && i + p.len() <= t.len() && t.subrange(i, i + p.len() as int) == p
}

/// `p` occurs somewhere in `t`.
pub open spec fn contains_seq(t: Seq<char>, p: Seq<char>) -> bool {
    exists|i: int| matches_at(t, p, i)
}

/// `p` is a prefix of `t`.
pub open spec fn has_prefix(t: Seq<char>, p: Seq<char>) -> bool {
    p.len() <= t.len() && t.subrange(0, p.len() as int) == p
}

/// Index of the first occurrence of `p` in `t`, or -1 if there is none.
pub open spec fn first_match(t: Seq<char>, p: Seq<char>) -> int
    decreases t.len(),
{
    if matches_at(t, p, 0) {
        0
    } else if t.len() == 0 {
        -1
    } else {
        let r = first_match(t.skip(1), p);
        if r < 0 {
            -1
        } else {
            r + 1
        }
    }
}

/// Index of the first occurrence of the character `c` in `t`, or -1.
pub open spec fn first_char(t: Seq<char>, c: char) -> int
    decreases t.len(),
{
    if t.len() == 0 {
        -1
    } else if t[0] == c {
        0
    } else {
        let r = first_char(t.skip(1), c);
        if r < 0 {
            -1
        } else {
            r + 1
        }
    }
}

proof fn lemma_matches_at_skip(t: Seq<char>, p: Seq<char>, i: int)
    requires
        t.len() > 0,
        i >= 0,
    ensures
        matches_at(t.skip(1), p, i) == matches_at(t, p, i + 1),
{
    if i + 1 + p.len() <= t.len() {
        assert(t.skip(1).subrange(i, i + p.len() as int) =~= t.subrange(
            i + 1,
            i + 1 + p.len() as int,
        ));
    }
}

/// The defining properties of `first_match`: -1 means no occurrence, a
/// non-negative result is the position of the leftmost occurrence.
pub proof fn lemma_first_match(t: Seq<char>, p: Seq<char>)
    ensures
        first_match(t, p) == -1 ==> forall|i: int| !matches_at(t, p, i),
        first_match(t, p) >= 0 ==> matches_at(t, p, first_match(t, p)),
        first_match(t, p) >= 0 ==> forall|i: int| 0 <= i < first_match(t, p) ==> !matches_at(
            t,
            p,
            i,
        ),
    decreases t.len(),
{
    if !matches_at(t, p, 0) && t.len() > 0 {
        lemma_first_match(t.skip(1), p);
        let r = first_match(t.skip(1), p);
        if r == -1 {
            assert forall|i: int| !matches_at(t, p, i) by {
                if i >= 1 {
                    lemma_matches_at_skip(t, p, i - 1);
                }
            }
        } else {
            lemma_matches_at_skip(t, p, r);
            assert forall|i: int| 0 <= i < r + 1 implies !matches_at(t, p, i) by {
                if i >= 1 {
                    lemma_matches_at_skip(t, p, i - 1);
                }
            }
        }
    }
}

/// A position that is an occurrence, with no occurrence before it, is
/// exactly what `first_match` returns.
pub proof fn lemma_first_match_is(t: Seq<char>, p: Seq<char>, v: int)
    requires
        matches_at(t, p, v),
        forall|i: int| 0 <= i < v ==> !matches_at(t, p, i),
    ensures
        first_match(t, p) == v,
{
    lemma_first_match(t, p);
    let r = first_match(t, p);
    if r == -1 {
        assert(!matches_at(t, p, v));
    } else if r < v {
        assert(!matches_at(t, p, r));
    } else if r > v {
        assert(!matches_at(t, p, v));
    }
}

/// There is no occurrence exactly when `first_match` returns -1.
pub proof fn lemma_first_match_none(t: Seq<char>, p: Seq<char>)
    requires
        forall|i: int| !matches_at(t, p, i),
    ensures
        first_match(t, p) == -1,
{
    lemma_first_match(t, p);
    let r = first_match(t, p);
    if r >= 0 {
        assert(!matches_at(t, p, r));
    }
}

/// The defining properties of `first_char`.
pub proof fn lemma_first_char(t: Seq<char>, c: char)
    ensures
        first_char(t, c) == -1 ==> forall|i: int| 0 <= i < t.len() ==> t[i] != c,
        first_char(t, c) >= 0 ==> first_char(t, c) < t.len() && t[first_char(t, c)] == c,
        first_char(t, c) >= 0 ==> forall|i: int| 0 <= i < first_char(t, c) ==> t[i] != c,
    decreases t.len(),
{
    if t.len() > 0 && t[0] != c {
        lemma_first_char(t.skip(1), c);
        let u = t.skip(1);
        let r = first_char(u, c);
        if r == -1 {
            assert forall|i: int| 0 <= i < t.len() implies t[i] != c by {
                if i >= 1 {
                    assert(u[i - 1] == t[i]);
                }
            }
        } else {
            assert(u[r] == t[r + 1]);
            assert forall|i: int| 0 <= i < r + 1 implies t[i] != c by {
                if i >= 1 {
                    assert(u[i - 1] == t[i]);
                }
            }
        }
    }
}

/// A position holding `c`, with no `c` before it, is exactly `first_char`.
pub proof fn lemma_first_char_is(t: Seq<char>, c: char, v: int)
    requires
        0 <= v < t.len(),
        t[v] == c,
        forall|i: int| 0 <= i < v ==> t[i] != c,
    ensures
        first_char(t, c) == v,
{
    lemma_first_char(t, c);
    let r = first_char(t, c);
    if r == -1 {
        assert(t[v] != c);
    }
}

/// `c` does not occur exactly when `first_char` returns -1.
pub proof fn lemma_first_char_none(t: Seq<char>, c: char)
    requires
        forall|i: int| 0 <= i < t.len() ==> t[i] != c,
    ensures
        first_char(t, c) == -1,
{
    lemma_first_char(t, c);
}

/// Character-for-character string equality.
pub fn str_eq(a: &str, b: &str) -> (r: bool)
    ensures
        r == (a@ == b@),
{
    let n = a.unicode_len();
    let m = b.unicode_len();
    if n != m {
        return false;
    }
    let mut i: usize = 0;
    while i < n
        invariant
            i <= n,
            n == a@.len(),
            n == b@.len(),
            forall|k: int| 0 <= k < i ==> a@[k] == b@[k],
        decreases n - i,
    {
        if a.get_char(i) != b.get_char(i) {
            return false;
        }
        i += 1;
    }
    proof {
        assert(a@ =~= b@);
    }
    true
}

/// Whether `p` is a prefix of `t`.
pub fn starts_with_str(t: &str, p: &str) -> (r: bool)
    ensures
        r == has_prefix(t@, p@),
{
    let n = t.unicode_len();
    let m = p.unicode_len();
    if m > n {
        return false;
    }
    let mut i: usize = 0;
    while i < m
        invariant
            i <= m,
            m <= n,
            n == t@.len(),
            m == p@.len(),
            forall|k: int| 0 <= k < i ==> t@[k] == p@[k],
        decreases m - i,
    {
        if t.get_char(i) != p.get_char(i) {
            proof {
                assert(t@.subrange(0, p@.len() as int)[i as int] != p@[i as int]);
            }
            return false;
        }
        i += 1;
    }
    proof {
        assert(t@.subrange(0, p@.len() as int) =~= p@);
    }
    true
}

/// Position of the first occurrence of the character `c` in `t`, at or after
/// `from`; `t@.len()` when there is none.
pub fn find_char(t: &str, from: usize, c: char) -> (r: usize)
    requires
        from <= t@.len(),
    ensures
        from <= r <= t@.len(),
        forall|k: int| from <= k < r ==> t@[k] != c,
        r < t@.len() ==> t@[r as int] == c,
{
    let n = t.unicode_len();
    let mut i: usize = from;
    while i < n
        invariant
            from <= i <= n,
            n == t@.len(),
            forall|k: int| from <= k < i ==> t@[k] != c,
        decreases n - i,
    {
        if t.get_char(i) == c {
            return i;
        }
        i += 1;
    }
    n
}

/// Position of the first occurrence of `p` in `t`, or `None`.
pub fn find_str(t: &str, p: &str) -> (r: Option<usize>)
    ensures
        match r {
            Some(i) => first_match(t@, p@) == i,
            None => first_match(t@, p@) == -1,
        },
{
    let n = t.unicode_len();
    let m = p.unicode_len();
    if m > n {
        proof {
            assert forall|i: int| !matches_at(t@, p@, i) by {}
            lemma_first_match_none(t@, p@);
        }
        return None;
    }
    if m == 0 {
        proof {
            assert(t@.subrange(0, 0) =~= p@);
            lemma_first_match_is(t@, p@, 0);
        }
        return Some(0);
    }
    let mut i: usize = 0;
    while i <= n - m
        invariant
            i <= n - m + 1,
            1 <= m <= n,
            n == t@.len(),
            m == p@.len(),
            forall|k: int| 0 <= k < i ==> !matches_at(t@, p@, k),
        decreases n - i,
    {
        let mut j: usize = 0;
        let mut hit: bool = true;
        while j < m
            invariant
                j <= m,
                hit ==> forall|k: int| 0 <= k < j ==> t@[i + k] == p@[k],
                !hit ==> !matches_at(t@, p@, i as int),
                i + m <= n,
                n == t@.len(),
                m == p@.len(),
            decreases m - j,
        {
            if t.get_char(i + j) != p.get_char(j) {
                proof {
                    if matches_at(t@, p@, i as int) {
                        assert(t@.subrange(i as int, i + p@.len() as int)[j as int] == t@[i + j]);
                    }
                }
                hit = false;
                j = m;
            } else {
                j += 1;
            }
        }
        if hit {
            proof {
                assert(t@.subrange(i as int, i + p@.len() as int) =~= p@);
                lemma_first_match_is(t@, p@, i as int);
            }
            return Some(i);
        }
        i += 1;
    }
    proof {
        assert forall|k: int| !matches_at(t@, p@, k) by {
            if 0 <= k < i {
            } else if k >= i {
                assert(k + m > n);
            }
        }
        lemma_first_match_none(t@, p@);
    }
    None
}

/// Whether `p` occurs in `t`.
pub fn contains_str(t: &str, p: &str) -> (r: bool)
    ensures
        r == contains_seq(t@, p@),
{
    let found = find_str(t, p);
    proof {
        lemma_first_match(t@, p@);
    }
    match found {
        Some(i) => {
            proof {
                assert(matches_at(t@, p@, i as int));
            }
            true
        },
        None => false,
    }
}

/// The line with a trailing carriage return removed, as `str::lines` does.
pub open spec fn strip_cr(l: Seq<char>) -> Seq<char> {
    if l.len() > 0 && l.last() == '\r' {
        l.drop_last()
    } else {
        l
    }
}

/// The lines of `t`: maximal runs between newline characters, each with a
/// trailing carriage return removed; a final newline ends the last line
/// rather than opening an empty one. This matches `str::lines` except on
/// an unterminated final line ending in a carriage return, which
/// `str::lines` keeps and this removes.
pub open spec fn spec_lines(t: Seq<char>) -> Seq<Seq<char>>
    decreases t.len(),
{
    if t.len() == 0 {
        Seq::empty()
    } else {
        let i = first_char(t, '\n');
        if !(0 <= i < t.len()) {
            seq![strip_cr(t)]
        } else {
            seq![strip_cr(t.take(i))] + spec_lines(t.skip(i + 1))
        }
    }
}

/// Splits `t` into its lines.
pub fn split_lines(t: &str) -> (r: Vec<String>)
    ensures
        r.deep_view() == spec_lines(t@),
{
    let n = t.unicode_len();
    let mut out: Vec<String> = Vec::new();
    let mut p: usize = 0;
    proof {
        assert(t@.skip(0) =~= t@);
        assert(out.deep_view() =~= Seq::<Seq<char>>::empty());
        assert(out.deep_view() + spec_lines(t@) =~= spec_lines(t@));
    }
    while p < n
        invariant
            p <= n,
            n == t@.len(),
            spec_lines(t@) == out.deep_view() + spec_lines(t@.skip(p as int)),
        decreases n - p,
    {
        let ghost rest = t@.skip(p as int);
        let j = find_char(t, p, '\n');
        let end: usize = if j > p && t.get_char(j - 1) == '\r' {
            j - 1
        } else {
            j
        };
        let line = t.substring_char(p, end).to_owned();
        let next: usize = if j < n {
            j + 1
        } else {
            n
        };
        let ghost next_rest = t@.skip(next as int);
        proof {
            assert(forall|k: int| 0 <= k < rest.len() ==> rest[k] == t@[p + k]);
            if j < n {
                lemma_first_char_is(rest, '\n', j - p as int);
                assert(rest.take(j - p as int) =~= t@.subrange(p as int, j as int));
                assert(strip_cr(t@.subrange(p as int, j as int)) =~= t@.subrange(
                    p as int,
                    end as int,
                ));
                assert(rest.skip(j - p as int + 1) =~= next_rest);
                assert(spec_lines(rest) == seq![line@] + spec_lines(next_rest));
            } else {
                lemma_first_char_none(rest, '\n');
                assert(rest =~= t@.subrange(p as int, j as int));
                assert(strip_cr(rest) =~= t@.subrange(p as int, end as int));
                assert(spec_lines(rest) == seq![line@]);
                assert(next_rest.len() == 0);
                assert(seq![line@] + spec_lines(next_rest) =~= spec_lines(rest));
            }
        }
        let ghost out0 = out.deep_view();
        out.push(line);
        proof {
            assert(out.deep_view() =~= out0 + seq![line@]);
            assert((out0 + seq![line@]) + spec_lines(next_rest) =~= out0 + (seq![line@]
                + spec_lines(next_rest)));
        }
        p = next;
    }
    proof {
        assert(t@.skip(p as int).len() == 0);
        assert(spec_lines(t@.skip(p as int)) =~= Seq::<Seq<char>>::empty());
        assert(out.deep_view() =~= out.deep_view() + spec_lines(t@.skip(p as int)));
    }
    out
}

/// The whitespace characters that trimming removes.
pub open spec fn is_ws_char(c: char) -> bool {
    c == ' ' || c == '\t' || c == '\r' || c == '\n'
}

/// `s` without its leading whitespace.
pub open spec fn trim_front(s: Seq<char>) -> Seq<char>
    decreases s.len(),
{
    if s.len() > 0 && is_ws_char(s[0]) {
        trim_front(s.skip(1))
    } else {
        s
    }
}

/// `s` without its trailing whitespace.
pub open spec fn trim_back(s: Seq<char>) -> Seq<char>
    decreases s.len(),
{
    if s.len() > 0 && is_ws_char(s.last()) {
        trim_back(s.drop_last())
    } else {
        s
    }
}

/// `s` without leading and trailing whitespace.
pub open spec fn spec_trim(s: Seq<char>) -> Seq<char> {
    trim_back(trim_front(s))
}

proof fn lemma_trim_front_at(s: Seq<char>, a: int)
    requires
        0 <= a <= s.len(),
        forall|k: int| 0 <= k < a ==> is_ws_char(s[k]),
        a < s.len() ==> !is_ws_char(s[a]),
    ensures
        trim_front(s) == s.skip(a),
    decreases a,
{
    if a == 0 {
        assert(s.skip(0) =~= s);
    } else {
        lemma_trim_front_at(s.skip(1), a - 1);
        assert(s.skip(1).skip(a - 1) =~= s.skip(a));
    }
}

proof fn lemma_trim_back_at(s: Seq<char>, b: int)
    requires
        0 <= b <= s.len(),
        forall|k: int| b <= k < s.len() ==> is_ws_char(s[k]),
        b > 0 ==> !is_ws_char(s[b - 1]),
    ensures
        trim_back(s) == s.take(b),
    decreases s.len() - b,
{
    if b == s.len() {
        assert(s.take(b) =~= s);
    } else {
        lemma_trim_back_at(s.drop_last(), b);
        assert(s.drop_last().take(b) =~= s.take(b));
    }
}

/// Removes leading and trailing whitespace.
pub fn trim_str(s: &str) -> (r: String)
    ensures
        r@ == spec_trim(s@),
{
    let n = s.unicode_len();
    let mut a: usize = 0;
    while a < n && is_ws_exec(s.get_char(a))
        invariant
            a <= n,
            n == s@.len(),
            forall|k: int| 0 <= k < a ==> is_ws_char(s@[k]),
        decreases n - a,
    {
        a += 1;
    }
    proof {
        lemma_trim_front_at(s@, a as int);
    }
    let mut b: usize = n;
    while b > a && is_ws_exec(s.get_char(b - 1))
        invariant
            a <= b <= n,
            n == s@.len(),
            forall|k: int| b <= k < n ==> is_ws_char(s@[k]),
        decreases b,
    {
        b -= 1;
    }
    let r = s.substring_char(a, b).to_owned();
    proof {
        let front = s@.skip(a as int);
        assert(forall|k: int| 0 <= k < front.len() ==> front[k] == s@[a + k]);
        lemma_trim_back_at(front, b - a as int);
        assert(front.take(b - a as int) =~= s@.subrange(a as int, b as int));
    }
    r
}

fn is_ws_exec(c: char) -> (r: bool)
    ensures
        r == is_ws_char(c),
{
    c == ' ' || c == '\t' || c == '\r' || c == '\n'
}

/// How one character is written inside a JSON string literal: quotes and
/// newlines are escaped, everything else stands as itself.
pub open spec fn esc_char(c: char) -> Seq<char> {
    if c == '"' {
        seq!['\\', '"']
    } else if c == '\n' {
        seq!['\\', 'n']
    } else {
        seq![c]
    }
}

/// `s` written as the body of a JSON string literal.
pub open spec fn spec_escape(s: Seq<char>) -> Seq<char>
    decreases s.len(),
{
    if s.len() == 0 {
        Seq::empty()
    } else {
        spec_escape(s.drop_last()) + esc_char(s.last())
    }
}

/// Escapes quotes and newlines for embedding in a JSON string literal.
pub fn escape_json(s: &str) -> (r: String)
    ensures
        r@ == spec_escape(s@),
{
    let n = s.unicode_len();
    let mut out = String::new();
    let mut i: usize = 0;
    while i < n
        invariant
            i <= n,
            n == s@.len(),
            out@ == spec_escape(s@.take(i as int)),
        decreases n - i,
    {
        let ghost prefix = s@.take(i as int);
        let c = s.get_char(i);
        if c == '"' {
            out.append("\\\"");
            proof {
                reveal_strlit("\\\"");
                assert("\\\""@ =~= esc_char(c));
            }
        } else if c == '\n' {
            out.append("\\n");
            proof {
                reveal_strlit("\\n");
                assert("\\n"@ =~= esc_char(c));
            }
        } else {
            let piece = s.substring_char(i, i + 1);
            out.append(piece);
            proof {
                assert(piece@ =~= esc_char(c));
            }
        }
        proof {
            assert(s@.take(i + 1int).drop_last() =~= prefix);
            assert(s@.take(i + 1int).last() == c);
        }
        i += 1;
    }
    proof {
        assert(s@.take(n as int) =~= s@);
    }
    out
}

/// The character for one decimal digit value.
pub open spec fn dec_digit(d: nat) -> char {
    if d == 0 {
        '0'
    } else if d == 1 {
        '1'
    } else if d == 2 {
        '2'
    } else if d == 3 {
        '3'
    } else if d == 4 {
        '4'
    } else if d == 5 {
        '5'
    } else if d == 6 {
        '6'
    } else if d == 7 {
        '7'
    } else if d == 8 {
        '8'
    } else {
        '9'
    }
}

/// The usual decimal writing of a number, most significant digit first and
/// without leading zeroes.
pub open spec fn dec_rep(n: nat) -> Seq<char>
    decreases n,
{
    if n < 10 {
        seq![dec_digit(n)]
    } else {
        dec_rep(n / 10) + seq![dec_digit(n % 10)]
    }
}

fn append_digit(out: &mut String, d: usize)
    requires
        d < 10,
    ensures
        final(out)@ == old(out)@ + seq![dec_digit(d as nat)],
{
    if d == 0 {
        out.append("0");
        proof {
            reveal_strlit("0");
            assert("0"@ =~= seq![dec_digit(0)]);
        }
    } else if d == 1 {
        out.append("1");
        proof {
            reveal_strlit("1");
            assert("1"@ =~= seq![dec_digit(1)]);
        }
    } else if d == 2 {
        out.append("2");
        proof {
            reveal_strlit("2");
            assert("2"@ =~= seq![dec_digit(2)]);
        }
    } else if d == 3 {
        out.append("3");
        proof {
            reveal_strlit("3");
            assert("3"@ =~= seq![dec_digit(3)]);
        }
    } else if d == 4 {
        out.append("4");
        proof {
            reveal_strlit("4");
            assert("4"@ =~= seq![dec_digit(4)]);
        }
    } else if d == 5 {
        out.append("5");
        proof {
            reveal_strlit("5");
            assert("5"@ =~= seq![dec_digit(5)]);
        }
    } else if d == 6 {
        out.append("6");
        proof {
            reveal_strlit("6");
            assert("6"@ =~= seq![dec_digit(6)]);
        }
    } else if d == 7 {
        out.append("7");
        proof {
            reveal_strlit("7");
            assert("7"@ =~= seq![dec_digit(7)]);
        }
    } else if d == 8 {
        out.append("8");
        proof {
            reveal_strlit("8");
            assert("8"@ =~= seq![dec_digit(8)]);
        }
    } else {
        out.append("9");
        proof {
            reveal_strlit("9");
            assert("9"@ =~= seq![dec_digit(9)]);
        }
    }
}

fn push_decimal(out: &mut String, n: usize)
    ensures
        final(out)@ == old(out)@ + dec_rep(n as nat),
    decreases n,
{
    let ghost pre = out@;
    if n >= 10 {
        push_decimal(out, n / 10);
        append_digit(out, n % 10);
        proof {
            assert((pre + dec_rep(n as nat / 10)) + seq![dec_digit(n as nat % 10)] =~= pre + (
            dec_rep(n as nat / 10) + seq![dec_digit(n as nat % 10)]));
        }
    } else {
        append_digit(out, n);
    }
}

/// Writes a number in decimal.
pub fn usize_to_string(n: usize) -> (r: String)
    ensures
        r@ == dec_rep(n as nat),
{
    let mut out = String::new();
    push_decimal(&mut out, n);
    proof {
        assert(Seq::<char>::empty() + dec_rep(n as nat) =~= dec_rep(n as nat));
    }
    out
}

} // verus!
