//! Line-level diff data and the extension-purity rule.
//!
//! A changed file is a path together with its diff lines, each line
//! tagged with an origin marker (`+` addition, `-` deletion, ` ` context).
//! The extracted changes of a commit hold the lines of every changed
//! file, but only when every changed file carries an allowed extension;
//! a commit that touches any file with a disallowed or missing extension
//! yields nothing.

use vstd::prelude::*;

use crate::config::ext_views;
use crate::config::RunConfig;
use crate::text::push_char;

verus! {

/// One diff line: its origin marker and its text, which keeps the
/// trailing line terminator of the underlying patch.
#[derive(Clone)]
pub struct DiffLine {
    /// Origin marker: `+` for an addition, `-` for a deletion, a space
    /// for context.
    pub origin: char,
    /// The text of the line.
    pub content: String,
}

/// One changed file of a commit: its path and its diff lines.
#[derive(Clone)]
pub struct FileDiff {
    /// Path of the file, relative to the repository root.
    pub path: String,
    /// The file's diff lines, in patch order.
    pub lines: Vec<DiffLine>,
}

/// Index of the last occurrence of `c` in `s`, or `-1` if there is none.
pub open spec fn last_index_of(s: Seq<char>, c: char) -> int
    decreases s.len(),
{
    if s.len() == 0 {
        -1
    } else if s[s.len() - 1] == c {
        s.len() - 1
    } else {
        last_index_of(s.drop_last(), c)
    }
}

/// `last_index_of` is pinned down by its defining properties: nothing
/// beyond it equals `c`, and it points at `c` unless it is `-1`.
proof fn lemma_last_index_at(s: Seq<char>, c: char, j: int)
    requires
        -1 <= j < s.len(),
        j >= 0 ==> s[j] == c,
        forall|k: int| j < k < s.len() ==> s[k] != c,
    ensures
        last_index_of(s, c) == j,
    decreases s.len(),
{
    if s.len() == 0 {
    } else if s[s.len() - 1] == c {
        assert(j == s.len() - 1);
    } else {
        assert(j < s.len() - 1);
        let t = s.drop_last();
        assert(forall|k: int| j < k < t.len() ==> t[k] == s[k] && t[k] != c);
        lemma_last_index_at(t, c, j);
    }
}

/// The extension of the path `p`: what follows the last dot of its final
/// component. A component without a dot, or whose only dot starts it,
/// has none.
pub open spec fn ext_of(p: Seq<char>) -> Option<Seq<char>> {
    let comp = p.subrange(last_index_of(p, '/') + 1, p.len() as int);
    let d = last_index_of(comp, '.');
    if d <= 0 {
        None
    } else {
        Some(comp.subrange(d + 1, comp.len() as int))
    }
}

/// Whether the file at path `p` matches the allowed extensions: it has
/// an extension and that extension is allowed. A file without an
/// extension never matches.
pub open spec fn path_allowed(p: Seq<char>, cfg: RunConfig) -> bool {
    match ext_of(p) {
        Some(e) => cfg.allows(e),
        None => false,
    }
}

/// Extension of a path, by scanning its characters from the end.
pub fn extension_of(path: &str) -> (r: Option<String>)
    ensures
        match r {
            Some(e) => ext_of(path@) == Some(e@),
            None => ext_of(path@) is None,
        },
{
    let n = path.unicode_len();
    // Scan for the last path separator; the final component follows it.
    let mut k: usize = n;
    let mut comp_start: usize = 0;
    let mut found_slash = false;
    while k > 0
        invariant
            k <= n,
            n == path@.len(),
            found_slash ==> 1 <= comp_start <= n && path@[comp_start - 1] == '/' && forall|t: int|
                comp_start <= t < n ==> path@[t] != '/',
            !found_slash ==> comp_start == 0 && forall|t: int| k <= t < n ==> path@[t] != '/',
        decreases k,
    {
        if !found_slash && path.get_char(k - 1) == '/' {
            comp_start = k;
            found_slash = true;
        }
        k -= 1;
    }
    proof {
        lemma_last_index_at(path@, '/', comp_start - 1);
    }
    // Scan the final component for its last dot.
    let mut k2: usize = n;
    let mut dot: usize = 0;
    let mut found_dot = false;
    while k2 > comp_start
        invariant
            comp_start <= k2 <= n,
            n == path@.len(),
            found_dot ==> comp_start + 1 <= dot <= n && path@[dot - 1] == '.' && forall|t: int|
                dot <= t < n ==> path@[t] != '.',
            !found_dot ==> dot == 0 && forall|t: int| k2 <= t < n ==> path@[t] != '.',
        decreases k2,
    {
        if !found_dot && path.get_char(k2 - 1) == '.' {
            dot = k2;
            found_dot = true;
        }
        k2 -= 1;
    }
    let ghost comp = path@.subrange(comp_start as int, n as int);
    proof {
        if found_dot {
            assert(comp[dot - 1 - comp_start] == path@[dot - 1]);
            assert(forall|t: int|
                dot - comp_start <= t < comp.len() ==> comp[t] == path@[t + comp_start]);
            lemma_last_index_at(comp, '.', dot - 1 - comp_start);
        } else {
            assert(forall|t: int| 0 <= t < comp.len() ==> comp[t] == path@[t + comp_start]);
            lemma_last_index_at(comp, '.', -1);
        }
    }
    if !found_dot || dot - 1 == comp_start {
        return None;
    }
    let e = path.substring_char(dot, n);
    proof {
        assert(comp.subrange(
            dot - comp_start,
            comp.len() as int,
        ) =~= path@.subrange(dot as int, n as int));
    }
    Some(e.to_owned())
}

/// Whether the file at `path` matches one of the allowed extensions.
pub fn file_matches(cfg: &RunConfig, path: &str) -> (r: bool)
    ensures
        r == path_allowed(path@, *cfg),
{
    let ext = extension_of(path);
    match ext {
        None => false,
        Some(e) => {
            let mut idx: usize = 0;
            while idx < cfg.extensions.len()
                invariant
                    idx <= cfg.extensions@.len(),
                    ext_of(path@) == Some(e@),
                    forall|t: int|
                        0 <= t < idx ==> ext_views(cfg.extensions@)[t] != e@,
                decreases cfg.extensions@.len() - idx,
            {
                if cfg.extensions[idx] == e {
                    proof {
                        assert(ext_views(cfg.extensions@)[idx as int] == e@);
                        assert(ext_views(cfg.extensions@).contains(e@));
                        assert(ext_views(cfg.extensions@).to_set().contains(e@));
                        assert(cfg.allows(e@));
                    }
                    return true;
                }
                idx += 1;
            }
            proof {
                if ext_views(cfg.extensions@).contains(e@) {
                    let t = choose|t: int|
                        0 <= t < ext_views(cfg.extensions@).len() && ext_views(cfg.extensions@)[t]
                            == e@;
                    assert(ext_views(cfg.extensions@)[t] != e@);
                }
            }
            false
        },
    }
}

/// The text of one diff line: its origin marker, then its content.
pub open spec fn line_text(l: DiffLine) -> Seq<char> {
    seq![l.origin] + l.content@
}

/// The concatenated text of a run of diff lines.
pub open spec fn lines_text(ls: Seq<DiffLine>) -> Seq<char>
    decreases ls.len(),
{
    if ls.len() == 0 {
        Seq::empty()
    } else {
        lines_text(ls.drop_last()) + line_text(ls.last())
    }
}

/// The text contributed by one changed file: all of its lines.
pub open spec fn file_text(f: FileDiff) -> Seq<char> {
    lines_text(f.lines@)
}

/// Whether a changed file matches the allowed extensions.
pub open spec fn file_allowed(f: FileDiff, cfg: RunConfig) -> bool {
    path_allowed(f.path@, cfg)
}

/// The text of the matching files among `files`, in order.
pub open spec fn changes_text(files: Seq<FileDiff>, cfg: RunConfig) -> Seq<char>
    decreases files.len(),
{
    if files.len() == 0 {
        Seq::empty()
    } else {
        changes_text(files.drop_last(), cfg) + if file_allowed(files.last(), cfg) {
            file_text(files.last())
        } else {
            Seq::empty()
        }
    }
}

/// The extracted changes of a commit: the concatenated lines of its
/// changed files, but only when the commit touches at least one file
/// and every touched file matches the allowed extensions. Otherwise
/// nothing.
pub open spec fn spec_changes(files: Seq<FileDiff>, cfg: RunConfig) -> Option<Seq<char>> {
    if files.len() > 0 && (forall|t: int|
        0 <= t < files.len() ==> file_allowed(#[trigger] files[t], cfg)) {
        Some(changes_text(files, cfg))
    } else {
        None
    }
}

/// Extension purity: when a commit yields changes at all, every file it
/// touched matches the allowed extensions — so the extracted text never
/// holds a line from a file with a disallowed or missing extension, and
/// a commit touching any such file yields nothing, however many of its
/// other files qualify.
pub proof fn lemma_changes_pure(files: Seq<FileDiff>, cfg: RunConfig)
    ensures
        spec_changes(files, cfg) is Some ==> forall|t: int|
            0 <= t < files.len() ==> file_allowed(#[trigger] files[t], cfg),
        spec_changes(files, cfg) is Some ==> files.len() > 0,
        (exists|t: int| 0 <= t < files.len() && !file_allowed(#[trigger] files[t], cfg))
            ==> spec_changes(files, cfg) is None,
{
}

/// Accumulate the diff text of the changed files of one commit,
/// enforcing extension purity.
pub fn compute(cfg: &RunConfig, files: &Vec<FileDiff>) -> (r: Option<String>)
    ensures
        match r {
            Some(s) => spec_changes(files@, *cfg) == Some(s@),
            None => spec_changes(files@, *cfg) is None,
        },
{
    let mut acc = String::new();
    let mut target_touched = false;
    let mut foreign_touched = false;
    let mut i: usize = 0;
    while i < files.len()
        invariant
            i <= files@.len(),
            target_touched <==> exists|t: int|
                0 <= t < i && file_allowed(#[trigger] files@[t], *cfg),
            foreign_touched <==> exists|t: int|
                0 <= t < i && !file_allowed(#[trigger] files@[t], *cfg),
            acc@ == changes_text(files@.take(i as int), *cfg),
        decreases files@.len() - i,
    {
        let f = &files[i];
        if file_matches(cfg, f.path.as_str()) {
            target_touched = true;
            let mut j: usize = 0;
            while j < f.lines.len()
                invariant
                    j <= f.lines@.len(),
                    acc@ == changes_text(files@.take(i as int), *cfg) + lines_text(
                        f.lines@.take(j as int),
                    ),
                decreases f.lines@.len() - j,
            {
                let l = &f.lines[j];
                push_char(&mut acc, l.origin);
                acc.append(l.content.as_str());
                proof {
                    let taken = f.lines@.take(j + 1);
                    assert(taken.drop_last() =~= f.lines@.take(j as int));
                    assert(taken.last() == f.lines@[j as int]);
                    assert(line_text(f.lines@[j as int]) =~= seq![l.origin] + l.content@);
                }
                j += 1;
            }
            proof {
                assert(f.lines@.take(f.lines@.len() as int) =~= f.lines@);
            }
        } else {
            foreign_touched = true;
        }
        proof {
            let taken = files@.take(i + 1);
            assert(taken.drop_last() =~= files@.take(i as int));
            assert(taken.last() == files@[i as int]);
        }
        i += 1;
    }
    proof {
        assert(files@.take(files@.len() as int) =~= files@);
    }
    if !target_touched || foreign_touched {
        proof {
            if spec_changes(files@, *cfg) is Some {
                assert(file_allowed(files@[0], *cfg));
            }
        }
        return None;
    }
    proof {
        assert forall|t: int| 0 <= t < files@.len() implies file_allowed(
            #[trigger] files@[t],
            *cfg,
        ) by {}
    }
    Some(acc)
}

} // verus!
