//! Character-level text helpers shared by the serializers, the draft
//! validator and the identity model: Unicode whitespace trimming, string
//! comparison in Rust's `Ord` order for `String`, and small builders.
use vstd::prelude::*;

verus! {

/// Whether `c` has the Unicode `White_Space` property, as `char::is_whitespace`
/// decides it.
pub uninterp spec fn unicode_white_space(c: char) -> bool;

/// Calls `char::is_whitespace`. Its documentation says it answers whether
/// `c` has the Unicode `White_Space` property (named `unicode_white_space`
/// here) and shows that a space, a line feed and a no-break space have it
/// and `'越'` does not; the full list of code points is the Unicode
/// database's and is not claimed here.
#[verifier::external_body]
pub(crate) fn char_is_whitespace(c: char) -> (r: bool)
    ensures
        r == unicode_white_space(c),
        c == ' ' || c == '\n' || c == '\u{A0}' ==> r,
        c == '越' ==> !r,
{
    c.is_whitespace()
}

/// Appends one character; `String::push`.
#[verifier::external_body]
pub(crate) fn push_char(s: &mut String, c: char)
    ensures
        final(s)@ == old(s)@.push(c),
{
    s.push(c)
}

/// Index of the first non-whitespace character at or after `i`
/// (`s.len()` when there is none).
pub open spec fn first_non_ws(s: Seq<char>, i: nat) -> nat
    decreases s.len() - i,
{
    if i >= s.len() {
        i
    } else if unicode_white_space(s[i as int]) {
        first_non_ws(s, i + 1)
    } else {
        i
    }
}

/// One past the last non-whitespace character before `j` (0 when there is
/// none).
pub open spec fn end_non_ws(s: Seq<char>, j: nat) -> nat
    decreases j,
{
    if j == 0 || j > s.len() {
        0
    } else if unicode_white_space(s[j - 1]) {
        end_non_ws(s, (j - 1) as nat)
    } else {
        j
    }
}

/// `str::trim`: `s` without leading and trailing whitespace.
pub open spec fn trimmed(s: Seq<char>) -> Seq<char> {
    let lo = first_non_ws(s, 0);
    let hi = end_non_ws(s, s.len());
    if lo < hi {
        s.subrange(lo as int, hi as int)
    } else {
        Seq::empty()
    }
}

/// Every character of `s` is whitespace (the empty string included).
pub open spec fn is_blank(s: Seq<char>) -> bool {
    forall|i: int| 0 <= i < s.len() ==> unicode_white_space(#[trigger] s[i])
}

proof fn lemma_first_non_ws_bounds(s: Seq<char>, i: nat)
    requires
        i <= s.len(),
    ensures
        i <= first_non_ws(s, i) <= s.len(),
        first_non_ws(s, i) < s.len() ==> !unicode_white_space(s[first_non_ws(s, i) as int]),
        forall|k: int| i <= k < first_non_ws(s, i) ==> unicode_white_space(#[trigger] s[k]),
    decreases s.len() - i,
{
    if i < s.len() && unicode_white_space(s[i as int]) {
        lemma_first_non_ws_bounds(s, i + 1);
    }
}

proof fn lemma_end_non_ws_bounds(s: Seq<char>, j: nat)
    requires
        j <= s.len(),
    ensures
        end_non_ws(s, j) <= j,
        end_non_ws(s, j) > 0 ==> !unicode_white_space(s[end_non_ws(s, j) - 1]),
        forall|k: int| end_non_ws(s, j) <= k < j ==> unicode_white_space(#[trigger] s[k]),
    decreases j,
{
    if j > 0 && unicode_white_space(s[j - 1]) {
        lemma_end_non_ws_bounds(s, (j - 1) as nat);
    }
}

/// The trimmed text is empty exactly when every character is whitespace.
pub proof fn lemma_trimmed_empty_iff_blank(s: Seq<char>)
    ensures
        (trimmed(s).len() == 0) <==> is_blank(s),
{
    lemma_first_non_ws_bounds(s, 0);
    lemma_end_non_ws_bounds(s, s.len());
    let lo = first_non_ws(s, 0);
    let hi = end_non_ws(s, s.len());
    if is_blank(s) {
        if lo < hi {
            assert(unicode_white_space(s[hi - 1]));
        }
    } else {
        let k = choose|k: int| 0 <= k < s.len() && !unicode_white_space(s[k]);
        assert(lo <= k);
        assert(k < hi);
    }
}

/// `s.trim()`, as an owned `String`.
pub fn trim(s: &str) -> (r: String)
    ensures
        r@ == trimmed(s@),
{
    let n = s.unicode_len();
    let mut lo: usize = 0;
    while lo < n && char_is_whitespace(s.get_char(lo))
        invariant
            n == s@.len(),
            lo <= n,
            first_non_ws(s@, lo as nat) == first_non_ws(s@, 0),
        decreases n - lo,
    {
        lo = lo + 1;
    }
    let mut hi: usize = n;
    while hi > 0 && char_is_whitespace(s.get_char(hi - 1))
        invariant
            n == s@.len(),
            hi <= n,
            end_non_ws(s@, hi as nat) == end_non_ws(s@, n as nat),
        decreases hi,
    {
        hi = hi - 1;
    }
    if lo < hi {
        let sub = s.substring_char(lo, hi);
        String::from_str(sub)
    } else {
        String::new()
    }
}

/// `s.trim().is_empty()`.
pub fn trim_is_empty(s: &str) -> (r: bool)
    ensures
        r == (trimmed(s@).len() == 0),
        r == is_blank(s@),
{
    proof {
        lemma_trimmed_empty_iff_blank(s@);
    }
    let n = s.unicode_len();
    let mut i: usize = 0;
    while i < n
        invariant
            n == s@.len(),
            i <= n,
            forall|k: int| 0 <= k < i ==> unicode_white_space(#[trigger] s@[k]),
        decreases n - i,
    {
        if !char_is_whitespace(s.get_char(i)) {
            assert(!unicode_white_space(s@[i as int]));
            proof {
                lemma_trimmed_empty_iff_blank(s@);
            }
            return false;
        }
        i = i + 1;
    }
    true
}

/// Character-by-character equality of two string slices.
pub fn str_eq(a: &str, b: &str) -> (r: bool)
    ensures
        r == (a@ == b@),
{
    let n = a.unicode_len();
    let m = b.unicode_len();
    if n != m {
        return false;
    }
    let mut i: usize = 0;
    while i < n
        invariant
            n == a@.len(),
            m == b@.len(),
            n == m,
            i <= n,
            forall|k: int| 0 <= k < i ==> a@[k] == b@[k],
        decreases n - i,
    {
        if a.get_char(i) != b.get_char(i) {
            return false;
        }
        i = i + 1;
    }
    assert(a@ =~= b@);
    true
}

/// Lexicographic strict order on character sequences, comparing code
/// points; for UTF-8 text this is the order `Ord for String` uses (byte-wise
/// order of UTF-8 encodings agrees with code point order).
pub open spec fn seq_lt(a: Seq<char>, b: Seq<char>) -> bool
    decreases a.len(),
{
    if a.len() == 0 {
        b.len() > 0
    } else if b.len() == 0 {
        false
    } else if a[0] != b[0] {
        a[0] < b[0]
    } else {
        seq_lt(a.drop_first(), b.drop_first())
    }
}

pub open spec fn seq_le(a: Seq<char>, b: Seq<char>) -> bool {
    a == b || seq_lt(a, b)
}

pub proof fn lemma_seq_lt_irreflexive(a: Seq<char>)
    ensures
        !seq_lt(a, a),
    decreases a.len(),
{
    if a.len() > 0 {
        lemma_seq_lt_irreflexive(a.drop_first());
    }
}

pub proof fn lemma_seq_lt_total(a: Seq<char>, b: Seq<char>)
    ensures
        a == b || seq_lt(a, b) || seq_lt(b, a),
    decreases a.len(),
{
    if a.len() > 0 && b.len() > 0 && a[0] == b[0] {
        lemma_seq_lt_total(a.drop_first(), b.drop_first());
        if a.drop_first() == b.drop_first() {
            assert(a =~= seq![a[0]] + a.drop_first());
            assert(b =~= seq![b[0]] + b.drop_first());
        }
    } else if a.len() == 0 && b.len() == 0 {
        assert(a =~= b);
    }
}

pub proof fn lemma_seq_lt_asymmetric(a: Seq<char>, b: Seq<char>)
    ensures
        seq_lt(a, b) ==> !seq_lt(b, a),
    decreases a.len(),
{
    if a.len() > 0 && b.len() > 0 && a[0] == b[0] {
        lemma_seq_lt_asymmetric(a.drop_first(), b.drop_first());
    }
}

pub proof fn lemma_seq_lt_transitive(a: Seq<char>, b: Seq<char>, c: Seq<char>)
    ensures
        seq_lt(a, b) && seq_lt(b, c) ==> seq_lt(a, c),
    decreases a.len(),
{
    if a.len() > 0 && b.len() > 0 && c.len() > 0 && a[0] == b[0] && b[0] == c[0] {
        lemma_seq_lt_transitive(a.drop_first(), b.drop_first(), c.drop_first());
    }
}

/// `a < b` in `String`'s order.
pub fn str_lt(a: &str, b: &str) -> (r: bool)
    ensures
        r == seq_lt(a@, b@),
{
    let n = a.unicode_len();
    let m = b.unicode_len();
    let mut i: usize = 0;
    assert(a@.skip(0) =~= a@);
    assert(b@.skip(0) =~= b@);
    while i < n && i < m
        invariant
            n == a@.len(),
            m == b@.len(),
            i <= n,
            i <= m,
            forall|k: int| 0 <= k < i ==> a@[k] == b@[k],
            seq_lt(a@, b@) == seq_lt(a@.skip(i as int), b@.skip(i as int)),
        decreases n - i,
    {
        let ca = a.get_char(i);
        let cb = b.get_char(i);
        if ca != cb {
            assert(a@.skip(i as int)[0] == ca);
            assert(b@.skip(i as int)[0] == cb);
            return ca < cb;
        }
        assert(a@.skip(i as int).drop_first() =~= a@.skip(i + 1));
        assert(b@.skip(i as int).drop_first() =~= b@.skip(i + 1));
        i = i + 1;
    }
    i < m
}

/// Whether `s` is strictly increasing (sorted, no duplicates) in `String`
/// order.
pub open spec fn strictly_sorted(s: Seq<Seq<char>>) -> bool {
    forall|i: int, j: int| 0 <= i < j < s.len() ==> seq_lt(#[trigger] s[i], #[trigger] s[j])
}

/// Whether `s` is sorted (non-decreasing) in `String` order.
pub open spec fn sorted(s: Seq<Seq<char>>) -> bool {
    forall|i: int, j: int| 0 <= i < j < s.len() ==> seq_le(#[trigger] s[i], #[trigger] s[j])
}

/// The character sequences of a list of strings.
pub open spec fn views(v: Seq<String>) -> Seq<Seq<char>> {
    v.map_values(|s: String| s@)
}

/// Sorts strings in ascending `String` order (`slice::sort`).
pub fn sort_strings(v: Vec<String>) -> (r: Vec<String>)
    ensures
        views(r@).to_multiset() == views(v@).to_multiset(),
        sorted(views(r@)),
{
    let mut out: Vec<String> = Vec::new();
    let mut i: usize = 0;
    proof {
        broadcast use vstd::seq_lib::group_to_multiset_ensures;
        assert(views(v@.take(0)) =~= views(out@));
    }
    while i < v.len()
        invariant
            i <= v.len(),
            views(out@).to_multiset() == views(v@.take(i as int)).to_multiset(),
            sorted(views(out@)),
        decreases v.len() - i,
    {
        let x = v[i].clone();
        // position: first element strictly greater than x
        let mut pos: usize = 0;
        while pos < out.len() && !str_lt(x.as_str(), out[pos].as_str())
            invariant
                pos <= out.len(),
                forall|k: int| 0 <= k < pos ==> seq_le(#[trigger] views(out@)[k], x@),
            decreases out.len() - pos,
        {
            proof {
                lemma_seq_lt_total(x@, out@[pos as int]@);
            }
            pos = pos + 1;
        }
        let ghost old_out = views(out@);
        out.insert(pos, x);
        proof {
            broadcast use vstd::seq_lib::group_to_multiset_ensures;
            let nv = views(out@);
            assert(nv =~= old_out.insert(pos as int, v@[i as int]@));
            assert(nv.remove(pos as int) =~= old_out);
            assert(nv.to_multiset() =~= old_out.to_multiset().insert(v@[i as int]@));
            assert forall|a: int, b: int| 0 <= a < b < nv.len() implies seq_le(
                #[trigger] nv[a],
                #[trigger] nv[b],
            ) by {
                if a < pos && b == pos {
                } else if a == pos && b > pos {
                    assert(seq_lt(x@, out@[pos as int + 1]@) || pos as int + 1 > b);
                    if b > pos + 1 {
                        assert(seq_le(old_out[pos as int], old_out[b - 1]));
                        lemma_seq_lt_transitive(x@, old_out[pos as int], old_out[b - 1]);
                    }
                } else if a < pos && b > pos {
                    assert(seq_le(old_out[a], old_out[b - 1]));
                } else if a > pos {
                    assert(seq_le(old_out[a - 1], old_out[b - 1]));
                } else {
                    assert(seq_le(old_out[a], old_out[b]));
                }
            }
            assert(v@.take(i + 1) =~= v@.take(i as int).push(v@[i as int]));
            assert(views(v@.take(i + 1)) =~= views(v@.take(i as int)).push(v@[i as int]@));
        }
        i = i + 1;
    }
    assert(v@.take(v.len() as int) =~= v@);
    out
}


/// Inserting `x` at `p` keeps a sorted list sorted when everything before
/// `p` is at most `x` and what stands at `p` is greater.
pub proof fn lemma_sorted_insert(ks: Seq<Seq<char>>, p: int, x: Seq<char>)
    requires
        sorted(ks),
        0 <= p <= ks.len(),
        forall|k: int| 0 <= k < p ==> seq_le(#[trigger] ks[k], x),
        p < ks.len() ==> seq_lt(x, ks[p]),
    ensures
        sorted(ks.insert(p, x)),
{
    let nv = ks.insert(p, x);
    assert forall|a: int, b: int| 0 <= a < b < nv.len() implies seq_le(
        #[trigger] nv[a],
        #[trigger] nv[b],
    ) by {
        if a < p && b == p {
            assert(nv[a] == ks[a]);
        } else if a == p && b > p {
            assert(nv[b] == ks[b - 1]);
            if b - 1 > p {
                assert(seq_le(ks[p], ks[b - 1]));
            }
            lemma_seq_lt_transitive(x, ks[p], ks[b - 1]);
        } else if a < p && b > p {
            assert(nv[a] == ks[a] && nv[b] == ks[b - 1]);
            assert(seq_le(ks[a], ks[b - 1]));
        } else if a > p {
            assert(nv[a] == ks[a - 1] && nv[b] == ks[b - 1]);
            assert(seq_le(ks[a - 1], ks[b - 1]));
        } else {
            assert(nv[a] == ks[a] && nv[b] == ks[b]);
            assert(seq_le(ks[a], ks[b]));
        }
    }
}

pub open spec fn le_rel() -> spec_fn(Seq<char>, Seq<char>) -> bool {
    |a: Seq<char>, b: Seq<char>| seq_le(a, b)
}

pub proof fn lemma_le_total_ordering()
    ensures
        vstd::relations::total_ordering(le_rel()),
{
    assert forall|a: Seq<char>| #[trigger] le_rel()(a, a) by {}
    assert forall|a: Seq<char>, b: Seq<char>| #[trigger] le_rel()(a, b) && #[trigger] le_rel()(b, a) implies a == b by {
        lemma_seq_lt_asymmetric(a, b);
    }
    assert forall|a: Seq<char>, b: Seq<char>, c: Seq<char>| #[trigger] le_rel()(a, b) && #[trigger] le_rel()(b, c) implies le_rel()(a, c) by {
        lemma_seq_lt_transitive(a, b, c);
    }
    assert forall|a: Seq<char>, b: Seq<char>| #[trigger] le_rel()(a, b) || #[trigger] le_rel()(b, a) by {
        lemma_seq_lt_total(a, b);
    }
}

/// Two sorted sequences with the same elements are equal.
pub proof fn lemma_sorted_unique(x: Seq<Seq<char>>, y: Seq<Seq<char>>)
    requires
        sorted(x),
        sorted(y),
        x.to_multiset() == y.to_multiset(),
    ensures
        x == y,
{
    lemma_le_total_ordering();
    assert(vstd::relations::sorted_by(x, le_rel()));
    assert(vstd::relations::sorted_by(y, le_rel()));
    vstd::seq_lib::lemma_sorted_unique(x, y, le_rel());
}

/// Adds `x` to a strictly sorted list, keeping it strictly sorted (nothing
/// changes when `x` is already there).
pub fn insert_sorted_unique(v: &mut Vec<String>, x: String)
    requires
        strictly_sorted(views(old(v)@)),
    ensures
        strictly_sorted(views(final(v)@)),
        views(final(v)@).to_set() == views(old(v)@).to_set().insert(x@),
{
    let ghost old_v = views(v@);
    let mut pos: usize = 0;
    while pos < v.len() && str_lt(v[pos].as_str(), x.as_str())
        invariant
            pos <= v@.len(),
            old_v == views(v@),
            forall|k: int| 0 <= k < pos ==> seq_lt(#[trigger] old_v[k], x@),
        decreases v.len() - pos,
    {
        pos = pos + 1;
    }
    if pos < v.len() && str_eq(v[pos].as_str(), x.as_str()) {
        proof {
            assert(old_v[pos as int] == x@);
            assert(old_v.to_set().insert(x@) =~= old_v.to_set()) by {
                assert(old_v.to_set().contains(old_v[pos as int]));
            }
        }
        return;
    }
    proof {
        if pos < old_v.len() {
            assert(old_v[pos as int] == v@[pos as int]@);
            lemma_seq_lt_total(old_v[pos as int], x@);
        }
    }
    v.insert(pos, x);
    proof {
        let nv = views(v@);
        assert(nv =~= old_v.insert(pos as int, x@));
        assert forall|a: int, b: int| 0 <= a < b < nv.len() implies seq_lt(
            #[trigger] nv[a],
            #[trigger] nv[b],
        ) by {
            if a < pos && b == pos {
            } else if a == pos && b > pos {
                if b > pos + 1 {
                    lemma_seq_lt_transitive(x@, old_v[pos as int], old_v[b - 1]);
                }
            } else if a < pos && b > pos {
            } else if a > pos {
            } else {
            }
        }
        assert forall|y: Seq<char>| nv.to_set().contains(y) <==> old_v.to_set().insert(x@).contains(y) by {
            if nv.to_set().contains(y) {
                let k = choose|k: int| 0 <= k < nv.len() && nv[k] == y;
                if k < pos {
                    assert(old_v[k] == y);
                } else if k > pos {
                    assert(old_v[k - 1] == y);
                }
            }
            if old_v.to_set().contains(y) {
                let k = choose|k: int| 0 <= k < old_v.len() && old_v[k] == y;
                if k < pos {
                    assert(nv[k] == y);
                } else {
                    assert(nv[k + 1] == y);
                }
            }
            if y == x@ {
                assert(nv[pos as int] == y);
            }
        }
        assert(nv.to_set() =~= old_v.to_set().insert(x@));
    }
}

/// Two strictly sorted sequences holding the same elements are equal.
pub proof fn lemma_strictly_sorted_unique(a: Seq<Seq<char>>, b: Seq<Seq<char>>)
    requires
        strictly_sorted(a),
        strictly_sorted(b),
        a.to_set() == b.to_set(),
    ensures
        a == b,
    decreases a.len(),
{
    if a.len() == 0 {
        if b.len() > 0 {
            assert(b.to_set().contains(b[0]));
            assert(a.to_set().contains(b[0]));
        }
        assert(a =~= b);
    } else {
        assert(a.to_set().contains(a[0]));
        assert(b.to_set().contains(a[0]));
        let j = choose|j: int| 0 <= j < b.len() && b[j] == a[0];
        assert(b.to_set().contains(b[0]));
        let i = choose|i: int| 0 <= i < a.len() && a[i] == b[0];
        if j > 0 {
            assert(seq_lt(b[0], b[j]));
            if i > 0 {
                assert(seq_lt(a[0], a[i]));
                lemma_seq_lt_asymmetric(a[0], b[0]);
            } else {
                lemma_seq_lt_irreflexive(a[0]);
            }
        }
        assert(a[0] == b[0]);
        let ra = a.drop_first();
        let rb = b.drop_first();
        assert(strictly_sorted(ra));
        assert(strictly_sorted(rb));
        assert forall|x: Seq<char>| ra.to_set().contains(x) <==> rb.to_set().contains(x) by {
            if ra.to_set().contains(x) {
                let k = choose|k: int| 0 <= k < ra.len() && ra[k] == x;
                assert(a[k + 1] == x);
                assert(a.to_set().contains(x));
                let m = choose|m: int| 0 <= m < b.len() && b[m] == x;
                if m == 0 {
                    assert(seq_lt(a[0], a[k + 1]));
                    lemma_seq_lt_irreflexive(x);
                }
                assert(rb[m - 1] == x);
            }
            if rb.to_set().contains(x) {
                let k = choose|k: int| 0 <= k < rb.len() && rb[k] == x;
                assert(b[k + 1] == x);
                assert(b.to_set().contains(x));
                let m = choose|m: int| 0 <= m < a.len() && a[m] == x;
                if m == 0 {
                    assert(seq_lt(b[0], b[k + 1]));
                    lemma_seq_lt_irreflexive(x);
                }
                assert(ra[m - 1] == x);
            }
        }
        assert(ra.to_set() =~= rb.to_set());
        lemma_strictly_sorted_unique(ra, rb);
        assert(a =~= seq![a[0]] + ra);
        assert(b =~= seq![b[0]] + rb);
    }
}

/// The elements of a finite set of strings, ascending.
pub open spec fn ascending(s: Set<Seq<char>>) -> Seq<Seq<char>> {
    choose|d: Seq<Seq<char>>| strictly_sorted(d) && d.to_set() == s
}

/// A strictly sorted sequence is the ascending listing of its elements.
pub proof fn lemma_ascending(d: Seq<Seq<char>>)
    requires
        strictly_sorted(d),
    ensures
        ascending(d.to_set()) == d,
{
    let e = ascending(d.to_set());
    assert(strictly_sorted(d) && d.to_set() == d.to_set());
    lemma_strictly_sorted_unique(e, d);
}

/// A copy of `v`, element by element.
pub fn copy_strings(v: &Vec<String>) -> (r: Vec<String>)
    ensures
        views(r@) == views(v@),
        r@.len() == v@.len(),
{
    let mut out: Vec<String> = Vec::new();
    let mut i: usize = 0;
    while i < v.len()
        invariant
            i <= v@.len(),
            views(out@) == views(v@.take(i as int)),
            out@.len() == i,
        decreases v.len() - i,
    {
        let ghost before = out@;
        out.push(v[i].clone());
        proof {
            assert(v@.take(i + 1) =~= v@.take(i as int).push(v@[i as int]));
            assert(out@ =~= before.push(out@[i as int]));
            assert(views(out@) =~= views(before).push(v@[i as int]@));
            assert(views(v@.take(i + 1)) =~= views(v@.take(i as int)).push(v@[i as int]@));
        }
        i = i + 1;
    }
    assert(v@.take(v@.len() as int) =~= v@);
    out
}

/// Whether `a` and `b` hold the same strings, counted with multiplicity
/// (their sorted copies are equal).
pub fn same_multiset(a: &Vec<String>, b: &Vec<String>) -> (r: bool)
    ensures
        r == (views(a@).to_multiset() == views(b@).to_multiset()),
{
    let sa = sort_strings(copy_strings(a));
    let sb = sort_strings(copy_strings(b));
    let ghost va = views(sa@);
    let ghost vb = views(sb@);
    let ghost same = views(a@).to_multiset() == views(b@).to_multiset();
    proof {
        broadcast use vstd::seq_lib::group_to_multiset_ensures;
        assert(same == (va.to_multiset() == vb.to_multiset()));
    }
    if sa.len() != sb.len() {
        proof {
            broadcast use vstd::seq_lib::group_to_multiset_ensures;
            assert(va.len() != vb.len());
            assert(va.to_multiset().len() != vb.to_multiset().len());
        }
        return false;
    }
    let mut i: usize = 0;
    while i < sa.len()
        invariant
            i <= sa@.len(),
            sa@.len() == sb@.len(),
            va == views(sa@),
            vb == views(sb@),
            sorted(va),
            sorted(vb),
            same == (va.to_multiset() == vb.to_multiset()),
            same == (views(a@).to_multiset() == views(b@).to_multiset()),
            forall|k: int| 0 <= k < i ==> va[k] == vb[k],
        decreases sa.len() - i,
    {
        if !str_eq(sa[i].as_str(), sb[i].as_str()) {
            proof {
                assert(va[i as int] == sa@[i as int]@);
                assert(vb[i as int] == sb@[i as int]@);
                if va.to_multiset() == vb.to_multiset() {
                    lemma_sorted_unique(va, vb);
                    assert(va[i as int] == vb[i as int]);
                }
                assert(!same);
            }
            return false;
        }
        i = i + 1;
    }
    assert(va =~= vb);
    true
}

/// The view of an optional string.
pub open spec fn opt_view(o: Option<String>) -> Option<Seq<char>> {
    match o {
        Some(s) => Some(s@),
        None => None,
    }
}

/// A copy of an optional string.
pub fn clone_opt(o: &Option<String>) -> (r: Option<String>)
    ensures
        opt_view(r) == opt_view(*o),
{
    match o {
        Some(s) => Some(s.clone()),
        None => None,
    }
}

pub open spec fn digit_char(d: nat) -> char {
    (48 + d) as char
}

/// The decimal text of `n` (`{}` formatting of an unsigned integer).
pub open spec fn decimal(n: nat) -> Seq<char>
    decreases n,
{
    if n < 10 {
        seq![digit_char(n)]
    } else {
        decimal(n / 10).push(digit_char(n % 10))
    }
}

pub fn usize_to_decimal(n: usize) -> (r: String)
    ensures
        r@ == decimal(n as nat),
    decreases n,
{
    if n < 10 {
        let mut s = String::new();
        push_char(&mut s, ((48u8 + (n as u8)) as char));
        s
    } else {
        let mut s = usize_to_decimal(n / 10);
        push_char(&mut s, ((48u8 + ((n % 10) as u8)) as char));
        s
    }
}


/// The decimal text of `n`.
pub fn u128_to_decimal(n: u128) -> (r: String)
    ensures
        r@ == decimal(n as nat),
    decreases n,
{
    if n < 10 {
        let mut s = String::new();
        push_char(&mut s, ((48u8 + (n as u8)) as char));
        s
    } else {
        let mut s = u128_to_decimal(n / 10);
        push_char(&mut s, ((48u8 + ((n % 10) as u8)) as char));
        s
    }
}

} // verus!
