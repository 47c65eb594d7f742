//! `markharness init`: the project's `.gitignore` entries.
use vstd::prelude::*;

use crate::lines::{lemma_next_nl_ge, lines_from, lines_of, next_nl, strip_cr, text_lines};
use crate::text::str_eq;

verus! {

/// The `.gitignore` entry `init` manages: the identity cache is rebuilt
/// per project and never committed.
pub open spec fn cache_entry() -> Seq<char> {
    ".markharness-cache/"@
}

/// The `.gitignore` text after `init`: unchanged (`None`) when a line is
/// already the cache entry; otherwise the existing text, a blank line
/// after it when it had any, and a commented block with the entry.
pub open spec fn gitignore_update(existing: Seq<char>) -> Option<Seq<char>> {
    if lines_of(existing).contains(cache_entry()) {
        None
    } else {
        let sep = if existing.len() == 0 {
            Seq::<char>::empty()
        } else if existing.last() == '\n' {
            "\n"@
        } else {
            "\n\n"@
        };
        Some(existing + sep + "# markharness init\n"@ + cache_entry() + "\n"@)
    }
}

/// The `.gitignore` text `init` writes, or `None` when it is fine as it is.
pub fn updated_gitignore(existing: &str) -> (r: Option<String>)
    ensures
        match r {
            Some(t) => gitignore_update(existing@) == Some(t@),
            None => gitignore_update(existing@) is None,
        },
{
    let lines = text_lines(existing);
    let mut k: usize = 0;
    while k < lines.len()
        invariant
            k <= lines@.len(),
            crate::text::views(lines@) == lines_of(existing@),
            forall|m: int| 0 <= m < k ==> lines@[m]@ != cache_entry(),
        decreases lines.len() - k,
    {
        if str_eq(lines[k].as_str(), ".markharness-cache/") {
            proof {
                assert(crate::text::views(lines@)[k as int] == lines@[k as int]@);
                assert(lines_of(existing@)[k as int] == cache_entry());
            }
            return None;
        }
        k = k + 1;
    }
    proof {
        if lines_of(existing@).contains(cache_entry()) {
            let m = choose|m: int| 0 <= m < lines_of(existing@).len() && lines_of(existing@)[m] == cache_entry();
            assert(crate::text::views(lines@)[m] == lines@[m]@);
            assert(lines@[m]@ == cache_entry());
        }
    }
    let mut updated = String::from_str(existing);
    let n = existing.unicode_len();
    if n > 0 {
        if existing.get_char(n - 1) == '\n' {
            updated.append("\n");
        } else {
            updated.append("\n\n");
        }
    }
    updated.append("# markharness init\n");
    updated.append(".markharness-cache/");
    updated.append("\n");
    Some(updated)
}

proof fn lemma_next_nl_exact(t: Seq<char>, i: nat, k: nat)
    requires
        i <= k < t.len(),
        t[k as int] == '\n',
        forall|m: int| i <= m < k ==> t[m] != '\n',
    ensures
        next_nl(t, i) == k,
    decreases k - i,
{
    if i < k {
        lemma_next_nl_exact(t, i + 1, k);
    }
}

proof fn lemma_next_nl_at_most(t: Seq<char>, i: nat, k: nat)
    requires
        i <= k < t.len(),
        t[k as int] == '\n',
    ensures
        next_nl(t, i) <= k,
    decreases k - i,
{
    if t[i as int] != '\n' {
        lemma_next_nl_at_most(t, i + 1, k);
    }
}

/// A line that starts right after a newline (or at the start) and ends
/// the text with a newline is one of the text's lines.
proof fn lemma_last_line_listed(t: Seq<char>, p: nat, line: Seq<char>, i: nat)
    requires
        p + line.len() + 1 == t.len(),
        t.subrange(p as int, t.len() as int) == line + "\n"@,
        p == 0 || t[p - 1] == '\n',
        forall|k: int| 0 <= k < line.len() ==> line[k] != '\n',
        line.len() == 0 || line.last() != '\r',
        i <= p,
    ensures
        lines_from(t, i).contains(line),
    decreases p - i,
{
    reveal_strlit("\n");
    lemma_next_nl_ge(t, i);
    assert forall|k: int| 0 <= k < line.len() implies t[p + k] == line[k] by {
        assert(t.subrange(p as int, t.len() as int)[k] == t[p + k]);
    }
    assert(t[(p + line.len()) as int] == '\n') by {
        assert(t.subrange(p as int, t.len() as int)[line.len() as int] == t[(p + line.len()) as int]);
    }
    if i == p {
        assert forall|m: int| p <= m < p + line.len() implies t[m] != '\n' by {
            assert(t[p + (m - p)] == line[m - p]);
        }
        lemma_next_nl_exact(t, p, p + line.len());
        assert(t.subrange(p as int, (p + line.len()) as int) =~= line);
        assert(strip_cr(line) == line);
        assert(lines_from(t, i)[0] == line);
    } else {
        lemma_next_nl_at_most(t, i, (p - 1) as nat);
        let j = next_nl(t, i);
        lemma_last_line_listed(t, p, line, j + 1);
        let rest = lines_from(t, j + 1);
        let k = choose|k: int| 0 <= k < rest.len() && rest[k] == line;
        assert(lines_from(t, i)[k + 1] == line);
    }
}

/// `init` is idempotent: once it updated `.gitignore`, running it again
/// leaves the file as it is.
pub proof fn lemma_gitignore_update_idempotent(existing: Seq<char>)
    ensures
        gitignore_update(existing) matches Some(t) ==> gitignore_update(t) is None,
{
    if let Some(t) = gitignore_update(existing) {
        reveal_strlit("\n");
        reveal_strlit("\n\n");
        reveal_strlit("# markharness init\n");
        reveal_strlit(".markharness-cache/");
        let sep = if existing.len() == 0 {
            Seq::<char>::empty()
        } else if existing.last() == '\n' {
            "\n"@
        } else {
            "\n\n"@
        };
        let prefix = existing + sep + "# markharness init\n"@;
        assert(t == prefix + cache_entry() + "\n"@);
        assert(prefix[prefix.len() - 1] == '\n');
        assert(t.subrange(prefix.len() as int, t.len() as int) =~= cache_entry() + "\n"@);
        lemma_last_line_listed(t, prefix.len(), cache_entry(), 0);
    }
}

} // verus!
