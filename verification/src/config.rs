//! Immutable settings of one extraction run.

use vstd::prelude::*;

verus! {

/// The character sequences of a list of strings.
pub open spec fn ext_views(s: Seq<String>) -> Seq<Seq<char>> {
    s.map_values(|x: String| x@)
}

/// The settings a run is made with: the allowed file extensions, the
/// bounds on message and changes length, and the target dataset size.
///
/// The extension list is kept free of duplicates; [`RunConfig::new`]
/// deduplicates whatever it is given.
pub struct RunConfig {
    /// Allowed file extensions, without duplicates.
    pub extensions: Vec<String>,
    /// Least accepted subject length, in characters.
    pub message_len_min: usize,
    /// Greatest accepted subject length, in characters.
    pub message_len_max: usize,
    /// Least accepted changes length, in characters.
    pub changes_len_min: usize,
    /// Greatest accepted changes length, in characters.
    pub changes_len_max: usize,
    /// Target dataset size: the run saves at most this many records.
    pub size: usize,
}

/// Appending one element to a sequence inserts it into the sequence's set.
proof fn lemma_push_to_set<A>(s: Seq<A>, x: A)
    ensures
        s.push(x).to_set() =~= s.to_set().insert(x),
{
    assert forall|y: A| #[trigger] s.push(x).to_set().contains(y) implies s.to_set().insert(
        x,
    ).contains(y) by {
        let i = choose|i: int| 0 <= i < s.push(x).len() && s.push(x)[i] == y;
        if i < s.len() {
            assert(s[i] == y);
        }
    }
    assert forall|y: A| s.to_set().insert(x).contains(y) implies #[trigger] s.push(
        x,
    ).to_set().contains(y) by {
        if y == x {
            assert(s.push(x)[s.len() as int] == y);
        } else {
            let i = choose|i: int| 0 <= i < s.len() && s[i] == y;
            assert(s.push(x)[i] == y);
        }
    }
}

impl RunConfig {
    /// The set of allowed extensions.
    pub open spec fn allowed_set(self) -> Set<Seq<char>> {
        ext_views(self.extensions@).to_set()
    }

    /// Whether `e` is one of the allowed extensions.
    pub open spec fn allows(self, e: Seq<char>) -> bool {
        self.allowed_set().contains(e)
    }

    /// Build a configuration, deduplicating the extension list while
    /// keeping the first occurrence of each entry in order.
    pub fn new(
        extensions: Vec<String>,
        message_len_min: usize,
        message_len_max: usize,
        changes_len_min: usize,
        changes_len_max: usize,
        size: usize,
    ) -> (cfg: RunConfig)
        ensures
            ext_views(cfg.extensions@).no_duplicates(),
            cfg.allowed_set() == ext_views(extensions@).to_set(),
            cfg.message_len_min == message_len_min,
            cfg.message_len_max == message_len_max,
            cfg.changes_len_min == changes_len_min,
            cfg.changes_len_max == changes_len_max,
            cfg.size == size,
    {
        let mut deduped: Vec<String> = Vec::new();
        let mut i: usize = 0;
        while i < extensions.len()
            invariant
                i <= extensions@.len(),
                ext_views(deduped@).no_duplicates(),
                ext_views(deduped@).to_set() == ext_views(extensions@.take(i as int)).to_set(),
            decreases extensions@.len() - i,
        {
            let candidate = &extensions[i];
            let mut seen = false;
            let mut j: usize = 0;
            while j < deduped.len()
                invariant
                    j <= deduped@.len(),
                    seen <==> exists|p: int| 0 <= p < j && deduped@[p]@ == candidate@,
                decreases deduped@.len() - j,
            {
                if deduped[j] == *candidate {
                    seen = true;
                }
                j += 1;
            }
            let ghost pre = deduped@;
            if !seen {
                deduped.push(candidate.clone());
            }
            proof {
                let cand = candidate@;
                assert(ext_views(extensions@.take(i + 1)) =~= ext_views(
                    extensions@.take(i as int),
                ).push(cand));
                lemma_push_to_set(ext_views(extensions@.take(i as int)), cand);
                assert(ext_views(extensions@.take(i + 1)).to_set() =~= ext_views(
                    extensions@.take(i as int),
                ).to_set().insert(cand));
                if seen {
                    let p = choose|p: int| 0 <= p < pre.len() && pre[p]@ == cand;
                    assert(ext_views(pre)[p] == cand);
                    assert(ext_views(pre).to_set().contains(cand));
                    assert(ext_views(pre).to_set().insert(cand) =~= ext_views(pre).to_set());
                } else {
                    assert(ext_views(deduped@) =~= ext_views(pre).push(cand));
                    assert(!ext_views(pre).contains(cand)) by {
                        if exists|p: int|
                            0 <= p < ext_views(pre).len() && ext_views(pre)[p] == cand {
                            let p = choose|p: int|
                                0 <= p < ext_views(pre).len() && ext_views(pre)[p] == cand;
                            assert(pre[p]@ == cand);
                        }
                    }
                    assert(ext_views(deduped@).no_duplicates());
                    lemma_push_to_set(ext_views(pre), cand);
                    assert(ext_views(deduped@).to_set() =~= ext_views(pre).to_set().insert(cand));
                }
            }
            i += 1;
        }
        proof {
            assert(extensions@.take(extensions@.len() as int) =~= extensions@);
        }
        RunConfig {
            extensions: deduped,
            message_len_min,
            message_len_max,
            changes_len_min,
            changes_len_max,
            size,
        }
    }
}

} // verus!
