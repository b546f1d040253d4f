//! Extraction and validation of the subject line of a commit message.

use vstd::prelude::*;

use crate::config::RunConfig;

verus! {

/// Index of the first line feed in `m`, or `m.len()` if there is none.
pub open spec fn first_newline(m: Seq<char>) -> int
    decreases m.len(),
{
    if m.len() == 0 {
        0
    } else if m[0] == '\n' {
        0
    } else {
        1 + first_newline(m.drop_first())
    }
}

/// `first_newline` is pinned down by its two defining properties: no line
/// feed lies before it, and it points at a line feed unless none exists.
proof fn lemma_first_newline_at(m: Seq<char>, j: int)
    requires
        0 <= j <= m.len(),
        forall|k: int| 0 <= k < j ==> m[k] != '\n',
        j < m.len() ==> m[j] == '\n',
    ensures
        first_newline(m) == j,
    decreases m.len(),
{
    if m.len() == 0 {
    } else if m[0] == '\n' {
        assert(j == 0);
    } else {
        assert(j >= 1);
        let t = m.drop_first();
        assert(forall|k: int| 0 <= k < j - 1 ==> t[k] == m[k + 1] && t[k] != '\n');
        assert(j - 1 < t.len() ==> t[j - 1] == m[j]);
        lemma_first_newline_at(t, j - 1);
    }
}

/// The subject of message `m`: its first line, with the line terminator
/// removed. A carriage return is stripped only when it stood before a
/// line feed. An empty message has no subject.
pub open spec fn spec_subject(m: Seq<char>) -> Option<Seq<char>> {
    if m.len() == 0 {
        None
    } else {
        let j = first_newline(m);
        let line = m.take(j);
        if j < m.len() && line.len() > 0 && line[line.len() - 1] == '\r' {
            Some(line.drop_last())
        } else {
            Some(line)
        }
    }
}

/// First line of the commit message, or `None` if the message is empty.
pub fn subject_of(message: &str) -> (r: Option<String>)
    ensures
        match r {
            Some(s) => spec_subject(message@) == Some(s@),
            None => spec_subject(message@) is None,
        },
{
    let n = message.unicode_len();
    if n == 0 {
        return None;
    }
    let mut j: usize = 0;
    while j < n && message.get_char(j) != '\n'
        invariant
            n == message@.len(),
            j <= n,
            forall|k: int| 0 <= k < j ==> message@[k] != '\n',
        decreases n - j,
    {
        j += 1;
    }
    proof {
        lemma_first_newline_at(message@, j as int);
    }
    let end: usize = if j < n && j > 0 && message.get_char(j - 1) == '\r' {
        j - 1
    } else {
        j
    };
    let line = message.substring_char(0, end);
    proof {
        let m = message@;
        let fl = m.take(j as int);
        if (end as int) < j as int {
            assert(fl.drop_last() =~= m.subrange(0, end as int));
        } else {
            assert(fl =~= m.subrange(0, end as int));
        }
    }
    Some(line.to_owned())
}

/// Whether a subject's length lies within the configured bounds.
pub open spec fn subject_len_ok(cfg: RunConfig, s: Seq<char>) -> bool {
    cfg.message_len_min <= s.len() && s.len() <= cfg.message_len_max
}

/// Length filter on the subject line.
pub fn accept(cfg: &RunConfig, subject: &str) -> (r: bool)
    ensures
        r == subject_len_ok(*cfg, subject@),
{
    let n = subject.unicode_len();
    cfg.message_len_min <= n && n <= cfg.message_len_max
}

/// Whether `s` begins with the characters of `p`.
pub open spec fn spec_starts_with(s: Seq<char>, p: Seq<char>) -> bool {
    p.len() <= s.len() && s.take(p.len() as int) == p
}

/// Whether a subject announces a merge: it begins with the literal
/// prefix `"Merge pull request"` or `"Merge branch"`.
pub open spec fn is_merge_subject(s: Seq<char>) -> bool {
    spec_starts_with(s, "Merge pull request"@) || spec_starts_with(s, "Merge branch"@)
}

/// Character-wise prefix test.
fn starts_with_prefix(s: &str, p: &str) -> (r: bool)
    ensures
        r == spec_starts_with(s@, p@),
{
    let np = p.unicode_len();
    let ns = s.unicode_len();
    if np > ns {
        return false;
    }
    let mut k: usize = 0;
    while k < np
        invariant
            k <= np,
            np <= ns,
            ns == s@.len(),
            np == p@.len(),
            forall|t: int| 0 <= t < k ==> s@[t] == p@[t],
        decreases np - k,
    {
        if s.get_char(k) != p.get_char(k) {
            proof {
                assert(s@.take(np as int)[k as int] == s@[k as int]);
            }
            return false;
        }
        k += 1;
    }
    proof {
        assert(s@.take(np as int) =~= p@);
    }
    true
}

/// Merge-announcement test on the subject line.
pub fn looks_like_merge(subject: &str) -> (r: bool)
    ensures
        r == is_merge_subject(subject@),
{
    starts_with_prefix(subject, "Merge pull request") || starts_with_prefix(
        subject,
        "Merge branch",
    )
}

} // verus!
