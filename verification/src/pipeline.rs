//! The commit filter pipeline: an ordered chain of guards that turns one
//! candidate commit into an accept-or-reject decision.
//!
//! The pipeline is a pure function of the candidate's data, the run
//! configuration and the set of already-processed identifiers; it neither
//! reads nor writes the processed set — that bookkeeping belongs to the
//! traversal.

use vstd::hash_set::HashSetWithView;
use vstd::prelude::*;

use crate::config::RunConfig;
use crate::diff::compute;
use crate::diff::spec_changes;
use crate::diff::FileDiff;
use crate::message::accept;
use crate::message::is_merge_subject;
use crate::message::looks_like_merge;
use crate::message::spec_subject;
use crate::message::subject_len_ok;
use crate::message::subject_of;
use crate::Record;

verus! {

/// The outcome of fetching a commit's diff against its first parent.
///
/// The caller resolves the commit's first parent and computes the
/// tree-to-tree diff before evaluation; this type records how that went.
#[derive(Clone)]
pub enum DiffFetch {
    /// The diff was computed: the changed files, in diff order.
    Computed { files: Vec<FileDiff> },
    /// The first parent could not be resolved.
    ParentUnavailable,
    /// A tree could not be read or the diff could not be computed.
    Failed,
}

/// Everything the pipeline reads of one candidate commit, as plain values.
#[derive(Clone)]
pub struct CommitInfo {
    /// The commit's identifier.
    pub id: u64,
    /// How many parents the commit has.
    pub parent_count: usize,
    /// The author's display name, if it is readable text.
    pub author_name: Option<String>,
    /// The full commit message, if it is readable text.
    pub message: Option<String>,
    /// The diff against the commit's first parent.
    pub diff: DiffFetch,
}

/// Why a candidate commit was rejected, one reason per guard.
#[derive(Clone, Copy, PartialEq, Eq, Structural, Debug)]
pub enum RejectReason {
    /// The identifier was already evaluated in this run.
    AlreadyProcessed,
    /// The commit has no parents, so no baseline for a diff.
    RootCommit,
    /// The first parent could not be resolved.
    ParentFetchFailure,
    /// The author display name indicates a bot.
    BotAuthor,
    /// The message is empty or its subject fails the length bounds.
    MessageLength,
    /// The subject announces a merge.
    MergeMessage,
    /// The diff could not be computed.
    DiffFailure,
    /// The commit does not change target-extension files exclusively.
    NoPureChanges,
    /// The extracted changes fail the length bounds.
    ChangesLength,
}

/// The pipeline's verdict on one candidate commit.
pub enum Decision {
    /// The commit is accepted with the record built from it.
    Accept { record: Record },
    /// The commit is rejected for the first reason that applied.
    Reject { reason: RejectReason },
}

/// Whether the three characters of `name` starting at `i` spell "bot" in
/// any mix of ASCII case.
pub open spec fn bot_at(name: Seq<char>, i: int) -> bool {
    &&& (name[i] == 'b' || name[i] == 'B')
    &&& (name[i + 1] == 'o' || name[i + 1] == 'O')
    &&& (name[i + 2] == 't' || name[i + 2] == 'T')
}

/// Whether `name` holds the substring "bot", compared without regard to
/// ASCII case.
pub open spec fn author_is_bot(name: Seq<char>) -> bool {
    exists|i: int| 0 <= i && i + 3 <= name.len() && bot_at(name, i)
}

/// Whether the candidate's author display name indicates a bot. A
/// missing name never does.
pub open spec fn commit_author_is_bot(c: CommitInfo) -> bool {
    match c.author_name {
        Some(n) => author_is_bot(n@),
        None => false,
    }
}

/// The candidate's subject line, if its message is present and not empty.
pub open spec fn commit_subject(c: CommitInfo) -> Option<Seq<char>> {
    match c.message {
        Some(m) => spec_subject(m@),
        None => None,
    }
}

/// Whether a changes text's length lies within the configured bounds.
pub open spec fn changes_len_ok(cfg: RunConfig, s: Seq<char>) -> bool {
    cfg.changes_len_min <= s.len() && s.len() <= cfg.changes_len_max
}

/// The first guard that rejects the candidate, or `None` if every guard
/// passes. The guards apply in this order: already processed, root
/// commit, unresolvable parent, bot author, subject missing or out of
/// bounds, merge subject, diff failure, impure changes, changes length.
pub open spec fn spec_rejects(c: CommitInfo, cfg: RunConfig, processed: Set<u64>) -> Option<
    RejectReason,
> {
    if processed.contains(c.id) {
        Some(RejectReason::AlreadyProcessed)
    } else if c.parent_count == 0 {
        Some(RejectReason::RootCommit)
    } else if c.diff is ParentUnavailable {
        Some(RejectReason::ParentFetchFailure)
    } else if commit_author_is_bot(c) {
        Some(RejectReason::BotAuthor)
    } else if !(commit_subject(c) matches Some(s) && subject_len_ok(cfg, s)) {
        Some(RejectReason::MessageLength)
    } else if is_merge_subject(commit_subject(c)->Some_0) {
        Some(RejectReason::MergeMessage)
    } else if c.diff is Failed {
        Some(RejectReason::DiffFailure)
    } else if spec_changes(c.diff->files@, cfg) is None {
        Some(RejectReason::NoPureChanges)
    } else if !changes_len_ok(cfg, spec_changes(c.diff->files@, cfg)->Some_0) {
        Some(RejectReason::ChangesLength)
    } else {
        None
    }
}

/// The message of the record an accepted candidate yields.
pub open spec fn accepted_message(c: CommitInfo) -> Seq<char> {
    commit_subject(c)->Some_0
}

/// The changes of the record an accepted candidate yields.
pub open spec fn accepted_changes(c: CommitInfo, cfg: RunConfig) -> Seq<char> {
    spec_changes(c.diff->files@, cfg)->Some_0
}

/// What a correct decision for a candidate looks like: a rejection
/// carries the first reason that applies; an acceptance carries the
/// record built from the candidate's subject and extracted changes.
pub open spec fn decision_ok(d: Decision, c: CommitInfo, cfg: RunConfig, processed: Set<
    u64,
>) -> bool {
    match spec_rejects(c, cfg, processed) {
        Some(why) => d matches Decision::Reject { reason } && reason == why,
        None => d matches Decision::Accept { record } && record.commit_message@
            == accepted_message(c) && record.commit_changes@ == accepted_changes(c, cfg),
    }
}

/// ASCII-case-insensitive search for the substring "bot".
pub fn is_bot_name(name: &str) -> (r: bool)
    ensures
        r == author_is_bot(name@),
{
    let n = name.unicode_len();
    if n < 3 {
        proof {
            if author_is_bot(name@) {
                let i = choose|i: int| 0 <= i && i + 3 <= name@.len() && bot_at(name@, i);
            }
        }
        return false;
    }
    let mut i: usize = 0;
    while i < n - 2
        invariant
            n == name@.len(),
            3 <= n,
            i <= n,
            forall|k: int| 0 <= k < i ==> !bot_at(name@, k),
        decreases n - i,
    {
        let c0 = name.get_char(i);
        let c1 = name.get_char(i + 1);
        let c2 = name.get_char(i + 2);
        if (c0 == 'b' || c0 == 'B') && (c1 == 'o' || c1 == 'O') && (c2 == 't' || c2 == 'T') {
            proof {
                assert(bot_at(name@, i as int));
            }
            return true;
        }
        i += 1;
    }
    proof {
        if author_is_bot(name@) {
            let k = choose|k: int| 0 <= k && k + 3 <= name@.len() && bot_at(name@, k);
            assert(!bot_at(name@, k));
        }
    }
    false
}

/// Evaluate one candidate commit against the configuration and the set
/// of already-processed identifiers, applying the guards in order and
/// stopping at the first that rejects.
pub fn evaluate(c: &CommitInfo, cfg: &RunConfig, processed: &HashSetWithView<u64>) -> (d: Decision)
    ensures
        decision_ok(d, *c, *cfg, processed@),
{
    if processed.contains(&c.id) {
        return Decision::Reject { reason: RejectReason::AlreadyProcessed };
    }
    if c.parent_count == 0 {
        return Decision::Reject { reason: RejectReason::RootCommit };
    }
    if let DiffFetch::ParentUnavailable = &c.diff {
        return Decision::Reject { reason: RejectReason::ParentFetchFailure };
    }
    if let Some(name) = &c.author_name {
        if is_bot_name(name.as_str()) {
            return Decision::Reject { reason: RejectReason::BotAuthor };
        }
    }
    let subject_opt = match &c.message {
        Some(m) => subject_of(m.as_str()),
        None => None,
    };
    let subject = match subject_opt {
        Some(s) => s,
        None => {
            return Decision::Reject { reason: RejectReason::MessageLength };
        },
    };
    if !accept(cfg, subject.as_str()) {
        return Decision::Reject { reason: RejectReason::MessageLength };
    }
    if looks_like_merge(subject.as_str()) {
        return Decision::Reject { reason: RejectReason::MergeMessage };
    }
    let files = match &c.diff {
        DiffFetch::Computed { files } => files,
        DiffFetch::Failed => {
            return Decision::Reject { reason: RejectReason::DiffFailure };
        },
        DiffFetch::ParentUnavailable => {
            return Decision::Reject { reason: RejectReason::ParentFetchFailure };
        },
    };
    let changes = match compute(cfg, files) {
        Some(ch) => ch,
        None => {
            return Decision::Reject { reason: RejectReason::NoPureChanges };
        },
    };
    let changes_len = changes.as_str().unicode_len();
    if changes_len < cfg.changes_len_min || changes_len > cfg.changes_len_max {
        return Decision::Reject { reason: RejectReason::ChangesLength };
    }
    Decision::Accept { record: Record { commit_message: subject, commit_changes: changes } }
}

/// A commit with no parents never yields a record: whatever else holds
/// of it, the pipeline rejects it.
pub proof fn lemma_root_commit_never_accepted(
    d: Decision,
    c: CommitInfo,
    cfg: RunConfig,
    processed: Set<u64>,
)
    requires
        decision_ok(d, c, cfg, processed),
        c.parent_count == 0,
    ensures
        d is Reject,
{
}

/// A commit whose author display name holds the substring "bot", in any
/// mix of ASCII case, never yields a record.
pub proof fn lemma_bot_author_never_accepted(
    d: Decision,
    c: CommitInfo,
    cfg: RunConfig,
    processed: Set<u64>,
)
    requires
        decision_ok(d, c, cfg, processed),
        commit_author_is_bot(c),
    ensures
        d is Reject,
{
}

/// A commit whose identifier was already processed never yields a record.
pub proof fn lemma_processed_never_accepted(
    d: Decision,
    c: CommitInfo,
    cfg: RunConfig,
    processed: Set<u64>,
)
    requires
        decision_ok(d, c, cfg, processed),
        processed.contains(c.id),
    ensures
        d is Reject,
{
}

} // verus!
