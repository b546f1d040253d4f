//! The traversal engine: a single forward pass over the history.
//!
//! The engine holds the run-wide state — the processed-identifier set,
//! the accepted records and their count — and is driven one candidate at
//! a time by the caller, which walks the repository's history in
//! reverse-topological order. A merge commit (more than one parent) is
//! never evaluated itself: each of its parents is evaluated instead, in
//! parent order. After every evaluation the evaluated identifier is
//! marked processed, so no identifier is ever evaluated twice in a run,
//! and evaluation stops as soon as the target dataset size is reached.

use vstd::hash_set::HashSetWithView;
use vstd::prelude::*;

use crate::config::RunConfig;
use crate::pipeline::accepted_changes;
use crate::pipeline::accepted_message;
use crate::pipeline::evaluate;
use crate::pipeline::spec_rejects;
use crate::pipeline::CommitInfo;
use crate::pipeline::Decision;
use crate::pipeline::RejectReason;
use crate::Record;

verus! {

broadcast use vstd::std_specs::hash::group_hash_axioms;

/// The run-wide state as one mathematical value: the processed
/// identifiers, the identifiers the pipeline has evaluated in order,
/// and the accepted records as (message, changes) pairs.
#[verifier::ext_equal]
pub struct EngineState {
    /// Identifiers already marked processed.
    pub processed: Set<u64>,
    /// Identifiers the pipeline has evaluated, in evaluation order.
    pub evaluated: Seq<u64>,
    /// Accepted (message, changes) pairs, in acceptance order.
    pub records: Seq<(Seq<char>, Seq<char>)>,
}

/// One evaluation step on candidate `c`. Once the record count has
/// reached the target size nothing happens. Otherwise the candidate is
/// evaluated, its identifier is marked processed, the identifier is
/// recorded as evaluated unless the pipeline rejected it as already
/// processed, and an accepted candidate appends its record.
pub open spec fn spec_step(cfg: RunConfig, c: CommitInfo, st: EngineState) -> EngineState {
    if st.records.len() >= cfg.size {
        st
    } else {
        EngineState {
            processed: st.processed.insert(c.id),
            evaluated: if spec_rejects(c, cfg, st.processed) == Some(
                RejectReason::AlreadyProcessed,
            ) {
                st.evaluated
            } else {
                st.evaluated.push(c.id)
            },
            records: if spec_rejects(c, cfg, st.processed) is None {
                st.records.push((accepted_message(c), accepted_changes(c, cfg)))
            } else {
                st.records
            },
        }
    }
}

/// Evaluation steps over a run of candidates, in order.
pub open spec fn spec_steps(cfg: RunConfig, cs: Seq<CommitInfo>, st: EngineState) -> EngineState
    decreases cs.len(),
{
    if cs.len() == 0 {
        st
    } else {
        spec_steps(cfg, cs.drop_first(), spec_step(cfg, cs.first(), st))
    }
}

/// One commit pulled from the history, together with its resolved
/// parents. The parents are consulted only when the commit is a merge;
/// a parent that could not be resolved is left out by the caller.
pub struct Candidate {
    /// The visited commit itself.
    pub info: CommitInfo,
    /// Its resolved parents, in parent order.
    pub parents: Vec<CommitInfo>,
}

/// Whether the candidate is a merge commit.
pub open spec fn is_merge(cand: Candidate) -> bool {
    cand.info.parent_count > 1
}

/// What visiting one candidate does to the state: a merge commit is
/// never evaluated itself — its parents are evaluated in order instead;
/// any other commit is evaluated directly.
pub open spec fn spec_visit(cfg: RunConfig, cand: Candidate, st: EngineState) -> EngineState {
    if is_merge(cand) {
        spec_steps(cfg, cand.parents@, st)
    } else {
        spec_step(cfg, cand.info, st)
    }
}

/// The traversal engine's concrete state.
pub struct Traversal {
    /// The run's immutable configuration.
    pub config: RunConfig,
    /// Identifiers already marked processed.
    pub processed: HashSetWithView<u64>,
    /// Accepted records, in acceptance order.
    pub records: Vec<Record>,
    /// Number of records accepted so far.
    pub saved: usize,
    /// Identifiers the pipeline has evaluated, in order.
    pub evaluated: Ghost<Seq<u64>>,
}

impl Traversal {
    /// The engine's state as one mathematical value.
    pub open spec fn state(self) -> EngineState {
        EngineState {
            processed: self.processed@,
            evaluated: self.evaluated@,
            records: self.records@.map_values(
                |r: Record| (r.commit_message@, r.commit_changes@),
            ),
        }
    }

    /// The engine's invariant: the saved count equals the number of
    /// records, the record count never exceeds the target size, no
    /// identifier is evaluated twice, and every evaluated identifier is
    /// marked processed.
    pub open spec fn wf(self) -> bool {
        &&& self.saved == self.records@.len()
        &&& self.records@.len() <= self.config.size
        &&& self.evaluated@.no_duplicates()
        &&& forall|k: int|
            0 <= k < self.evaluated@.len() ==> self.processed@.contains(#[trigger] self.evaluated@[k])
    }

    /// A fresh engine: nothing processed, nothing saved.
    pub fn new(config: RunConfig) -> (t: Traversal)
        ensures
            t.wf(),
            t.config == config,
            t.state().processed == Set::<u64>::empty(),
            t.state().evaluated == Seq::<u64>::empty(),
            t.state().records == Seq::<(Seq<char>, Seq<char>)>::empty(),
    {
        let t = Traversal {
            config,
            processed: HashSetWithView::new(),
            records: Vec::new(),
            saved: 0,
            evaluated: Ghost(Seq::empty()),
        };
        proof {
            assert(t.records@.map_values(|r: Record| (r.commit_message@, r.commit_changes@))
                =~= Seq::<(Seq<char>, Seq<char>)>::empty());
        }
        t
    }

    /// Whether the run is complete: the record count has reached the
    /// target size.
    pub fn done(&self) -> (r: bool)
        requires
            self.wf(),
        ensures
            r == (self.state().records.len() == self.config.size),
    {
        self.saved >= self.config.size
    }

    /// Evaluate one commit: mark it processed and append its record if
    /// the pipeline accepts it. Does nothing once the target size is
    /// reached.
    pub fn visit_commit(&mut self, c: &CommitInfo)
        requires
            old(self).wf(),
        ensures
            final(self).wf(),
            final(self).config == old(self).config,
            final(self).state() == spec_step(old(self).config, *c, old(self).state()),
    {
        if self.saved >= self.config.size {
            return;
        }
        let ghost st0 = self.state();
        let d = evaluate(c, &self.config, &self.processed);
        let dup = match &d {
            Decision::Reject { reason } => matches!(reason, RejectReason::AlreadyProcessed),
            Decision::Accept { .. } => false,
        };
        self.processed.insert(c.id);
        if !dup {
            proof {
                if self.evaluated@.contains(c.id) {
                    let k = choose|k: int|
                        0 <= k < self.evaluated@.len() && self.evaluated@[k] == c.id;
                }
            }
            self.evaluated = Ghost(self.evaluated@.push(c.id));
        }
        match d {
            Decision::Accept { record } => {
                self.records.push(record);
                self.saved = self.saved + 1;
            },
            Decision::Reject { .. } => {},
        }
        proof {
            let view_of = |r: Record| (r.commit_message@, r.commit_changes@);
            let stepped = spec_step(old(self).config, *c, st0);
            if spec_rejects(*c, old(self).config, st0.processed) is None {
                assert(self.records@.map_values(view_of) =~= st0.records.push(
                    (accepted_message(*c), accepted_changes(*c, old(self).config)),
                ));
            } else {
                assert(self.records@.map_values(view_of) =~= st0.records);
            }
            assert(self.state() =~= stepped);
        }
    }

    /// Evaluate a run of commits in order, typically the parents of a
    /// merge commit.
    pub fn visit_parents(&mut self, parents: &Vec<CommitInfo>)
        requires
            old(self).wf(),
        ensures
            final(self).wf(),
            final(self).config == old(self).config,
            final(self).state() == spec_steps(old(self).config, parents@, old(self).state()),
    {
        let mut i: usize = 0;
        while i < parents.len()
            invariant
                i <= parents@.len(),
                self.wf(),
                self.config == old(self).config,
                self.state() == spec_steps(
                    old(self).config,
                    parents@.take(i as int),
                    old(self).state(),
                ),
            decreases parents@.len() - i,
        {
            let ghost pre = self.state();
            self.visit_commit(&parents[i]);
            proof {
                assert(parents@.take(i + 1) =~= parents@.take(i as int).push(parents@[i as int]));
                lemma_steps_push(
                    old(self).config,
                    parents@.take(i as int),
                    parents@[i as int],
                    old(self).state(),
                );
            }
            i += 1;
        }
        proof {
            assert(parents@.take(parents@.len() as int) =~= parents@);
        }
    }

    /// Visit one candidate from the history: evaluate its parents if it
    /// is a merge, the commit itself otherwise.
    pub fn visit(&mut self, cand: &Candidate)
        requires
            old(self).wf(),
        ensures
            final(self).wf(),
            final(self).config == old(self).config,
            final(self).state() == spec_visit(old(self).config, *cand, old(self).state()),
    {
        if cand.info.parent_count > 1 {
            self.visit_parents(&cand.parents);
        } else {
            self.visit_commit(&cand.info);
        }
    }

    /// Number of distinct identifiers processed so far.
    pub fn processed_count(&self) -> (n: usize)
        ensures
            n == self.state().processed.len(),
    {
        self.processed.len()
    }

    /// Number of records saved so far.
    pub fn saved_count(&self) -> (n: usize)
        requires
            self.wf(),
        ensures
            n == self.state().records.len(),
    {
        self.saved
    }

    /// Hand the accepted records over, in acceptance order.
    pub fn into_records(self) -> (r: Vec<Record>)
        ensures
            r@.map_values(|x: Record| (x.commit_message@, x.commit_changes@))
                == self.state().records,
    {
        self.records
    }
}

/// Appending one candidate to a run of steps is one more step at the end.
proof fn lemma_steps_push(cfg: RunConfig, cs: Seq<CommitInfo>, c: CommitInfo, st: EngineState)
    ensures
        spec_steps(cfg, cs.push(c), st) == spec_step(cfg, c, spec_steps(cfg, cs, st)),
    decreases cs.len(),
{
    if cs.len() == 0 {
        assert(cs.push(c).drop_first() =~= Seq::<CommitInfo>::empty());
        assert(cs.push(c).first() == c);
        assert(spec_steps(cfg, cs.push(c), st) == spec_steps(
            cfg,
            cs.push(c).drop_first(),
            spec_step(cfg, c, st),
        ));
        assert(spec_steps(cfg, cs.push(c).drop_first(), spec_step(cfg, c, st)) == spec_step(
            cfg,
            c,
            st,
        ));
        assert(spec_steps(cfg, cs, st) == st);
    } else {
        assert(cs.push(c).first() == cs.first());
        assert(cs.push(c).drop_first() =~= cs.drop_first().push(c));
        lemma_steps_push(cfg, cs.drop_first(), c, spec_step(cfg, cs.first(), st));
        assert(spec_steps(cfg, cs.push(c), st) == spec_steps(
            cfg,
            cs.drop_first().push(c),
            spec_step(cfg, cs.first(), st),
        ));
        assert(spec_steps(cfg, cs, st) == spec_steps(
            cfg,
            cs.drop_first(),
            spec_step(cfg, cs.first(), st),
        ));
    }
}

/// Within one run no identifier is evaluated by the pipeline twice,
/// whether it was reached directly or through merge expansion.
pub proof fn lemma_no_duplicate_evaluation(t: Traversal)
    requires
        t.wf(),
    ensures
        t.state().evaluated.no_duplicates(),
{
}

/// The saved-record count never exceeds the configured target size.
pub proof fn lemma_record_count_bounded(t: Traversal)
    requires
        t.wf(),
    ensures
        t.state().records.len() <= t.config.size,
{
}

/// Once the record count has reached the target size, further steps
/// change nothing: traversal stops immediately at the target.
pub proof fn lemma_steps_stop_at_target(cfg: RunConfig, cs: Seq<CommitInfo>, st: EngineState)
    requires
        st.records.len() >= cfg.size,
    ensures
        spec_steps(cfg, cs, st) == st,
    decreases cs.len(),
{
    if cs.len() == 0 {
    } else {
        lemma_steps_stop_at_target(cfg, cs.drop_first(), st);
    }
}

/// Visiting a merge candidate evaluates only its parents: every
/// identifier newly recorded as evaluated is a parent's identifier, and
/// every record newly accepted is built from a parent. The merge commit
/// itself yields nothing.
pub proof fn lemma_merge_yields_only_parent_records(
    cfg: RunConfig,
    cand: Candidate,
    st: EngineState,
)
    requires
        is_merge(cand),
    ensures
        st.evaluated.is_prefix_of(spec_visit(cfg, cand, st).evaluated),
        forall|k: int|
            #![trigger spec_visit(cfg, cand, st).evaluated[k]]
            st.evaluated.len() <= k < spec_visit(cfg, cand, st).evaluated.len() ==> exists|t: int|
                0 <= t < cand.parents@.len() && cand.parents@[t].id == spec_visit(
                    cfg,
                    cand,
                    st,
                ).evaluated[k],
        st.records.is_prefix_of(spec_visit(cfg, cand, st).records),
        forall|k: int|
            #![trigger spec_visit(cfg, cand, st).records[k]]
            st.records.len() <= k < spec_visit(cfg, cand, st).records.len() ==> exists|t: int|
                0 <= t < cand.parents@.len() && spec_visit(cfg, cand, st).records[k] == (
                accepted_message(cand.parents@[t]),
                accepted_changes(cand.parents@[t], cfg),
                ),
{
    lemma_steps_touch_only_listed(cfg, cand.parents@, st);
}

/// Steps over a run of candidates extend the evaluated identifiers only
/// with identifiers from the run, and the records only with records
/// built from candidates of the run.
proof fn lemma_steps_touch_only_listed(cfg: RunConfig, cs: Seq<CommitInfo>, st: EngineState)
    ensures
        st.evaluated.is_prefix_of(spec_steps(cfg, cs, st).evaluated),
        forall|k: int|
            #![trigger spec_steps(cfg, cs, st).evaluated[k]]
            st.evaluated.len() <= k < spec_steps(cfg, cs, st).evaluated.len() ==> exists|t: int|
                0 <= t < cs.len() && cs[t].id == spec_steps(cfg, cs, st).evaluated[k],
        st.records.is_prefix_of(spec_steps(cfg, cs, st).records),
        forall|k: int|
            #![trigger spec_steps(cfg, cs, st).records[k]]
            st.records.len() <= k < spec_steps(cfg, cs, st).records.len() ==> exists|t: int|
                0 <= t < cs.len() && spec_steps(cfg, cs, st).records[k] == (
                accepted_message(cs[t]),
                accepted_changes(cs[t], cfg),
                ),
    decreases cs.len(),
{
    if cs.len() == 0 {
        assert(st.evaluated =~= spec_steps(cfg, cs, st).evaluated.subrange(
            0,
            st.evaluated.len() as int,
        ));
        assert(st.records =~= spec_steps(cfg, cs, st).records.subrange(
            0,
            st.records.len() as int,
        ));
    } else {
        let first = cs.first();
        let st1 = spec_step(cfg, first, st);
        let fin = spec_steps(cfg, cs, st);
        lemma_steps_touch_only_listed(cfg, cs.drop_first(), st1);
        assert(spec_steps(cfg, cs.drop_first(), st1) == fin);
        assert(st.evaluated.is_prefix_of(st1.evaluated));
        assert(st.records.is_prefix_of(st1.records));
        assert(st.evaluated =~= fin.evaluated.subrange(0, st.evaluated.len() as int));
        assert(st.records =~= fin.records.subrange(0, st.records.len() as int));
        assert forall|k: int|
            #![trigger fin.evaluated[k]]
            st.evaluated.len() <= k < fin.evaluated.len() implies exists|t: int|
            0 <= t < cs.len() && cs[t].id == fin.evaluated[k] by {
            if k < st1.evaluated.len() {
                assert(k == st.evaluated.len() && st1.evaluated[k] == first.id);
                assert(fin.evaluated.subrange(0, st1.evaluated.len() as int)[k] == fin.evaluated[k]);
                assert(cs[0].id == fin.evaluated[k]);
            } else {
                let t = choose|t: int|
                    0 <= t < cs.drop_first().len() && cs.drop_first()[t].id == fin.evaluated[k];
                assert(cs[t + 1].id == fin.evaluated[k]);
            }
        }
        assert forall|k: int|
            #![trigger fin.records[k]]
            st.records.len() <= k < fin.records.len() implies exists|t: int|
            0 <= t < cs.len() && fin.records[k] == (
            accepted_message(cs[t]),
            accepted_changes(cs[t], cfg),
            ) by {
            if k < st1.records.len() {
                assert(k == st.records.len());
                assert(st1.records[k] == (accepted_message(first), accepted_changes(first, cfg)));
                assert(fin.records.subrange(0, st1.records.len() as int)[k] == fin.records[k]);
                assert(fin.records[k] == (accepted_message(cs[0]), accepted_changes(cs[0], cfg)));
            } else {
                let t = choose|t: int|
                    0 <= t < cs.drop_first().len() && fin.records[k] == (
                    accepted_message(cs.drop_first()[t]),
                    accepted_changes(cs.drop_first()[t], cfg),
                    );
                assert(fin.records[k] == (accepted_message(cs[t + 1]), accepted_changes(
                    cs[t + 1],
                    cfg,
                )));
            }
        }
    }
}

} // verus!
