//! Line handling for YAML block scalars: `"\r\n"` normalization, splitting
//! into lines the way `str::lines` does, and indenting.
use vstd::prelude::*;

use crate::text::push_char;

verus! {

/// `s[i..]` with every `"\r\n"` replaced by `"\n"`, scanning left to right
/// without overlap (`str::replace("\r\n", "\n")`).
pub open spec fn crlf_from(s: Seq<char>, i: nat) -> Seq<char>
    decreases s.len() - i,
{
    if i >= s.len() {
        Seq::empty()
    } else if s[i as int] == '\r' && i + 1 < s.len() && s[i + 1int] == '\n' {
        seq!['\n'] + crlf_from(s, i + 2)
    } else {
        seq![s[i as int]] + crlf_from(s, i + 1)
    }
}

pub open spec fn crlf_to_lf(s: Seq<char>) -> Seq<char> {
    crlf_from(s, 0)
}

/// The index of the first `'\n'` at or after `i` (`t.len()` when none).
pub open spec fn next_nl(t: Seq<char>, i: nat) -> nat
    decreases t.len() - i,
{
    if i >= t.len() {
        t.len()
    } else if t[i as int] == '\n' {
        i
    } else {
        next_nl(t, i + 1)
    }
}

pub proof fn lemma_next_nl_ge(t: Seq<char>, i: nat)
    ensures
        i <= t.len() ==> i <= next_nl(t, i) <= t.len(),
        next_nl(t, i) < t.len() ==> t[next_nl(t, i) as int] == '\n',
    decreases t.len() - i,
{
    if i < t.len() && t[i as int] != '\n' {
        lemma_next_nl_ge(t, i + 1);
    }
}

/// A `'\n'`-terminated line loses one trailing `'\r'`.
pub open spec fn strip_cr(x: Seq<char>) -> Seq<char> {
    if x.len() > 0 && x.last() == '\r' {
        x.drop_last()
    } else {
        x
    }
}

/// The lines of `t[i..]` as `str::lines` yields them: split after each
/// `'\n'`, the terminator (and a `'\r'` before it) removed, and no empty
/// final line after a trailing `'\n'`.
pub open spec fn lines_from(t: Seq<char>, i: nat) -> Seq<Seq<char>>
    decreases t.len() - i,
{
    if i >= t.len() {
        Seq::empty()
    } else {
        let j = next_nl(t, i);
        proof {
            lemma_next_nl_ge(t, i);
        }
        if j < t.len() {
            seq![strip_cr(t.subrange(i as int, j as int))] + lines_from(t, j + 1)
        } else {
            seq![t.subrange(i as int, t.len() as int)]
        }
    }
}

pub open spec fn lines_of(t: Seq<char>) -> Seq<Seq<char>> {
    lines_from(t, 0)
}

/// One line of a block scalar: an empty line stays a bare newline.
pub open spec fn indent_line(line: Seq<char>, indent: Seq<char>) -> Seq<char> {
    if line.len() == 0 {
        seq!['\n']
    } else {
        indent + line + seq!['\n']
    }
}

pub open spec fn indent_lines(ls: Seq<Seq<char>>, indent: Seq<char>) -> Seq<char>
    decreases ls.len(),
{
    if ls.len() == 0 {
        Seq::empty()
    } else {
        indent_lines(ls.drop_last(), indent) + indent_line(ls.last(), indent)
    }
}

/// `text` as the body of a YAML `key: |` block scalar: CRLF normalized to LF,
/// every non-empty line prefixed with `indent`.
pub open spec fn spec_indent_block_scalar(text: Seq<char>, indent: Seq<char>) -> Seq<char> {
    indent_lines(lines_of(crlf_to_lf(text)), indent)
}

fn crlf_normalized(s: &str) -> (r: Vec<char>)
    ensures
        r@ == crlf_to_lf(s@),
{
    let n = s.unicode_len();
    let mut out: Vec<char> = Vec::new();
    let mut i: usize = 0;
    while i < n
        invariant
            n == s@.len(),
            i <= n,
            out@ + crlf_from(s@, i as nat) == crlf_to_lf(s@),
        decreases n - i,
    {
        let c = s.get_char(i);
        if c == '\r' && i + 1 < n && s.get_char(i + 1) == '\n' {
            let ghost before = out@;
            out.push('\n');
            assert(out@ + crlf_from(s@, (i + 2) as nat) =~= before + crlf_from(s@, i as nat));
            i = i + 2;
        } else {
            let ghost before = out@;
            out.push(c);
            assert(out@ + crlf_from(s@, (i + 1) as nat) =~= before + crlf_from(s@, i as nat));
            i = i + 1;
        }
    }
    assert(out@ =~= out@ + crlf_from(s@, n as nat));
    out
}

fn chars_to_string(v: &Vec<char>, from: usize, to: usize) -> (r: String)
    requires
        from <= to <= v@.len(),
    ensures
        r@ == v@.subrange(from as int, to as int),
{
    let mut out = String::new();
    let mut i = from;
    while i < to
        invariant
            from <= i <= to <= v@.len(),
            out@ == v@.subrange(from as int, i as int),
        decreases to - i,
    {
        push_char(&mut out, v[i]);
        assert(v@.subrange(from as int, i + 1) =~= v@.subrange(from as int, i as int).push(v@[i as int]));
        i = i + 1;
    }
    out
}

proof fn lemma_next_nl_skip(t: Seq<char>, a: nat, b: nat)
    requires
        a <= b <= t.len(),
        forall|k: int| a <= k < b ==> t[k] != '\n',
    ensures
        next_nl(t, a) == next_nl(t, b),
    decreases b - a,
{
    if a < b {
        lemma_next_nl_skip(t, a + 1, b);
    }
}

fn split_lines(t: &Vec<char>) -> (r: Vec<String>)
    ensures
        r@.map_values(|l: String| l@) == lines_of(t@),
{
    let n = t.len();
    let mut out: Vec<String> = Vec::new();
    let mut start: usize = 0;
    let mut i: usize = 0;
    while i < n
        invariant
            n == t@.len(),
            start <= i <= n,
            forall|k: int| start <= k < i ==> t@[k] != '\n',
            out@.map_values(|l: String| l@) + lines_from(t@, start as nat) == lines_of(t@),
        decreases n - i,
    {
        if t[i] == '\n' {
            proof {
                lemma_next_nl_skip(t@, start as nat, i as nat);
            }
            let end = if i > start && t[i - 1] == '\r' {
                i - 1
            } else {
                i
            };
            let line = chars_to_string(t, start, end);
            let ghost before = out@.map_values(|l: String| l@);
            proof {
                assert(strip_cr(t@.subrange(start as int, i as int)) =~= t@.subrange(
                    start as int,
                    end as int,
                ));
            }
            out.push(line);
            assert(out@.map_values(|l: String| l@) =~= before.push(
                strip_cr(t@.subrange(start as int, i as int)),
            ));
            assert(lines_from(t@, start as nat) == seq![strip_cr(t@.subrange(start as int, i as int))]
                + lines_from(t@, (i + 1) as nat));
            assert(out@.map_values(|l: String| l@) + lines_from(t@, (i + 1) as nat) =~= before
                + lines_from(t@, start as nat));
            start = i + 1;
        }
        i = i + 1;
    }
    if start < n {
        proof {
            lemma_next_nl_skip(t@, start as nat, n as nat);
        }
        let line = chars_to_string(t, start, n);
        let ghost before = out@.map_values(|l: String| l@);
        out.push(line);
        assert(out@.map_values(|l: String| l@) =~= before + lines_from(t@, start as nat));
    } else {
        assert(out@.map_values(|l: String| l@) =~= out@.map_values(|l: String| l@) + lines_from(
            t@,
            start as nat,
        ));
    }
    out
}

/// `text` as the indented body of a YAML block scalar.
pub fn indent_block_scalar(text: &str, indent: &str) -> (r: String)
    ensures
        r@ == spec_indent_block_scalar(text@, indent@),
{
    let t = crlf_normalized(text);
    let ls = split_lines(&t);
    let ghost lv = ls@.map_values(|l: String| l@);
    let mut out = String::new();
    let mut k: usize = 0;
    while k < ls.len()
        invariant
            k <= ls@.len(),
            lv == ls@.map_values(|l: String| l@),
            out@ == indent_lines(lv.take(k as int), indent@),
        decreases ls.len() - k,
    {
        let line = &ls[k];
        if line.unicode_len() == 0 {
            push_char(&mut out, '\n');
        } else {
            out.append(indent);
            out.append(line.as_str());
            push_char(&mut out, '\n');
        }
        assert(lv.take(k + 1).drop_last() =~= lv.take(k as int));
        assert(out@ =~= indent_lines(lv.take(k + 1), indent@));
        k = k + 1;
    }
    assert(lv.take(ls@.len() as int) =~= lv);
    out
}

/// The lines of `text`, as `str::lines` yields them.
pub fn text_lines(text: &str) -> (r: Vec<String>)
    ensures
        crate::text::views(r@) == lines_of(text@),
{
    let n = text.unicode_len();
    let mut chars: Vec<char> = Vec::new();
    let mut i: usize = 0;
    while i < n
        invariant
            n == text@.len(),
            i <= n,
            chars@ == text@.take(i as int),
        decreases n - i,
    {
        chars.push(text.get_char(i));
        assert(text@.take(i + 1) =~= text@.take(i as int).push(text@[i as int]));
        i = i + 1;
    }
    assert(text@.take(n as int) =~= text@);
    let r = split_lines(&chars);
    assert(crate::text::views(r@) =~= r@.map_values(|l: String| l@));
    r
}

} // verus!
