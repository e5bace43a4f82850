//! The record-at-a-time (RAT) executor and its trace model.
//!
//! The executor drives the same compiled stages as the batch executor, one
//! input record per step. Each step feeds one record through every stage
//! in sequence and records the contents of every pipe point (the buffer
//! between two adjacent stages) into a [`RecordTrace`]. After the input is
//! exhausted, stages holding buffered records would be drained in stage
//! order into [`FlushTrace`] entries; no current stage kind buffers, so
//! the flush list is always empty and the executor moves straight to
//! `Done`. The contracts tie every step to the model in
//! [`crate::semantics`], so the equivalence theorem there applies to the
//! actual trace this executor builds.

use crate::engine::{opt_view, stage_name, stages_view, CompiledPipeline, CompiledStage};
use crate::record::{recs_view, Record};
use crate::semantics::{
    rat_feed, rat_outputs, rat_record_traces, rat_states_after, record_pipe_points, StageModel,
};
use vstd::prelude::*;

verus! {

/// The contents of a list of pipe points, as byte sequences.
pub open spec fn points_view(v: Seq<Vec<Record>>) -> Seq<Seq<Seq<u8>>> {
    v.map_values(|p: Vec<Record>| recs_view(p@))
}

/// The records present at every pipe point as a consequence of processing
/// one input record: index 0 holds the raw input record, index `i + 1`
/// what stage `i` emitted (empty once the record was filtered out).
pub struct RecordTrace {
    pub pipe_points: Vec<Vec<Record>>,
}

impl View for RecordTrace {
    type V = Seq<Seq<Seq<u8>>>;

    open spec fn view(&self) -> Seq<Seq<Seq<u8>>> {
        points_view(self.pipe_points@)
    }
}

/// The abstract value of a flush trace.
pub struct FlushTraceModel {
    pub stage_index: usize,
    pub pipe_points: Seq<Seq<Seq<u8>>>,
}

/// The records released when one stage drains its buffered output at end
/// of input: `pipe_points[0]` is what the originating stage emitted,
/// `pipe_points[k]` the output of the stage `k` places downstream of it.
/// No current stage kind buffers records, so no executor run produces one
/// of these; the mechanism exists for stage kinds (sort, aggregate) that
/// would.
pub struct FlushTrace {
    pub stage_index: usize,
    pub pipe_points: Vec<Vec<Record>>,
}

impl View for FlushTrace {
    type V = FlushTraceModel;

    open spec fn view(&self) -> FlushTraceModel {
        FlushTraceModel {
            stage_index: self.stage_index,
            pipe_points: points_view(self.pipe_points@),
        }
    }
}

/// The abstract values of a record trace list.
pub open spec fn traces_view(v: Seq<RecordTrace>) -> Seq<Seq<Seq<Seq<u8>>>> {
    v.map_values(|t: RecordTrace| t@)
}

/// Everything one record-at-a-time run exposes for inspection: one record
/// trace per input record consumed, the flush traces (empty under the
/// current stage kinds), and a human-readable label per stage.
pub struct RatDebugTrace {
    pub record_traces: Vec<RecordTrace>,
    pub flush_traces: Vec<FlushTrace>,
    pub stage_names: Vec<String>,
}

/// The executor's state machine: it starts at `NotStarted`, consumes one
/// input record per step while `ConsumingInput`, would drain buffered
/// stages while `Flushing`, and is `Done` when no input and no buffered
/// state remains. No transition regresses.
#[derive(Clone, Copy, PartialEq, Eq, Structural, Debug)]
pub enum ExecPhase {
    NotStarted,
    ConsumingInput,
    Flushing,
    Done,
}

/// What one step produced: the trace of one consumed input record, the
/// trace of one drained stage, or nothing because the run is complete.
pub enum StepResult {
    Record(RecordTrace),
    Flush(FlushTrace),
    Finished,
}

/// The record-at-a-time executor. Forward-only and single-pass: a new run
/// needs a fresh executor, since stage-local counters advance as records
/// pass. The caller decides when to call [`RatExecutor::step`]; state
/// between steps stays valid and inspectable.
pub struct RatExecutor {
    stages: Vec<CompiledStage>,
    input: Vec<Record>,
    pos: usize,
    phase: ExecPhase,
    trace: RatDebugTrace,
    emitted: Vec<Record>,
    init: Ghost<Seq<StageModel>>,
}

impl RatExecutor {
    /// The stage states the run started from.
    pub closed spec fn initial_stages(&self) -> Seq<StageModel> {
        self.init@
    }

    /// The byte contents of the input records.
    pub closed spec fn input_views(&self) -> Seq<Seq<u8>> {
        recs_view(self.input@)
    }

    /// How many input records have been consumed.
    pub closed spec fn consumed(&self) -> int {
        self.pos as int
    }

    /// The executor's current state-machine phase.
    pub closed spec fn phase_spec(&self) -> ExecPhase {
        self.phase
    }

    /// The executor's invariant: its stages, trace and emitted output are
    /// exactly what the model says after consuming `consumed()` records,
    /// and the phase matches the progress made.
    pub closed spec fn inv(&self) -> bool {
        &&& self.pos <= self.input@.len()
        &&& stages_view(self.stages@) == rat_states_after(
            self.init@,
            self.input_views().take(self.pos as int),
        )
        &&& self.trace.record_traces@.len() == self.pos
        &&& traces_view(self.trace.record_traces@) == rat_record_traces(
            self.init@,
            self.input_views().take(self.pos as int),
        )
        &&& recs_view(self.emitted@) == rat_outputs(
            self.init@,
            self.input_views().take(self.pos as int),
        )
        &&& self.trace.flush_traces@.len() == 0
        &&& self.trace.stage_names@.len() == self.init@.len()
        &&& forall|i: int|
            0 <= i < self.init@.len() ==> #[trigger] self.trace.stage_names@[i]@ == stage_name(
                self.init@[i],
            )
        &&& match self.phase {
            ExecPhase::NotStarted => self.pos == 0,
            ExecPhase::ConsumingInput => 0 < self.pos < self.input@.len(),
            ExecPhase::Flushing => false,
            ExecPhase::Done => self.pos == self.input@.len(),
        }
    }

    /// How many steps have been taken: step 0 means nothing processed yet;
    /// after `current_step()` steps, trace index `current_step() - 1` is
    /// the entry just produced.
    pub fn current_step(&self) -> (r: usize)
        ensures
            r == self.consumed(),
    {
        self.pos
    }

    /// The total number of steps this run will take: one per input record,
    /// plus one per flush entry — and no current stage kind buffers, so
    /// the flush entries number zero and the total equals the input size.
    pub fn total_steps(&self) -> (r: usize)
        ensures
            r == self.input_views().len(),
    {
        self.input.len()
    }

    /// The executor's current phase.
    pub fn phase(&self) -> (r: ExecPhase)
        ensures
            r == self.phase_spec(),
    {
        self.phase
    }

    /// The trace accumulated so far: one record trace per consumed input
    /// record, exactly as the model records it, and no flush traces.
    pub fn trace(&self) -> (t: &RatDebugTrace)
        requires
            self.inv(),
        ensures
            traces_view(t.record_traces@) == rat_record_traces(
                self.initial_stages(),
                self.input_views().take(self.consumed()),
            ),
            t.record_traces@.len() == self.consumed(),
            t.flush_traces@.len() == 0,
            t.stage_names@.len() == self.initial_stages().len(),
            forall|i: int|
                0 <= i < self.initial_stages().len() ==> #[trigger] t.stage_names@[i]@
                    == stage_name(self.initial_stages()[i]),
    {
        &self.trace
    }

    /// The records emitted so far: the final pipe point of every step, in
    /// emission order, empty points skipped.
    pub fn outputs(&self) -> (out: &Vec<Record>)
        requires
            self.inv(),
        ensures
            recs_view(out@) == rat_outputs(
                self.initial_stages(),
                self.input_views().take(self.consumed()),
            ),
    {
        &self.emitted
    }

    /// Performs one step. While input remains, the step consumes exactly
    /// one input record, feeds it through every stage, and returns the
    /// record trace of that journey; once the input is exhausted (and, no
    /// stage kind buffering, nothing is left to flush) it returns
    /// `Finished` and the executor is done.
    pub fn step(&mut self) -> (r: StepResult)
        requires
            old(self).inv(),
        ensures
            final(self).inv(),
            final(self).initial_stages() == old(self).initial_stages(),
            final(self).input_views() == old(self).input_views(),
            old(self).consumed() < old(self).input_views().len() ==> ({
                &&& final(self).consumed() == old(self).consumed() + 1
                &&& r matches StepResult::Record(tr) && tr@ == record_pipe_points(
                    rat_states_after(
                        old(self).initial_stages(),
                        old(self).input_views().take(old(self).consumed()),
                    ),
                    old(self).input_views()[old(self).consumed()],
                )
            }),
            old(self).consumed() == old(self).input_views().len() ==> ({
                &&& final(self).consumed() == old(self).consumed()
                &&& r matches StepResult::Finished
                &&& final(self).phase_spec() == ExecPhase::Done
            }),
    {
        match self.phase {
            ExecPhase::NotStarted | ExecPhase::ConsumingInput => {
                if self.pos < self.input.len() {
                    let record = self.input[self.pos].clone();
                    let ghost rv = record@;
                    proof {
                        assert(rv == recs_view(self.input@)[self.pos as int]);
                    }
                    let ghost states_before = stages_view(self.stages@);
                    let mut first_point: Vec<Record> = Vec::new();
                    first_point.push(record.clone());
                    let ghost fp_v = recs_view(first_point@);
                    let (points_rest, out) = feed_records(&mut self.stages, Some(record));
                    let mut pipe_points: Vec<Vec<Record>> = points_rest;
                    let ghost rest_v = points_view(pipe_points@);
                    pipe_points.insert(0, first_point);
                    proof {
                        assert(fp_v =~= seq![rv]);
                        assert(points_view(pipe_points@) =~= seq![fp_v] + rest_v);
                        assert(points_view(pipe_points@) =~= seq![seq![rv]] + rat_feed(
                            states_before,
                            Some(rv),
                        ).points);
                    }
                    let tr = RecordTrace { pipe_points };
                    match out {
                        Some(x) => self.emitted.push(x),
                        None => {},
                    }
                    let stored = clone_record_trace(&tr);
                    self.trace.record_traces.push(stored);
                    self.pos = self.pos + 1;
                    self.phase = if self.pos < self.input.len() {
                        ExecPhase::ConsumingInput
                    } else {
                        ExecPhase::Done
                    };
                    proof {
                        let views = old(self).input_views();
                        let prefix = views.take(self.pos as int - 1);
                        crate::semantics::lemma_rat_run_snoc(self.init@, prefix, rv);
                        assert(prefix.push(rv) =~= views.take(self.pos as int));
                        assert(traces_view(self.trace.record_traces@) =~= rat_record_traces(
                            self.init@,
                            views.take(self.pos as int),
                        ));
                        assert(recs_view(self.emitted@) =~= rat_outputs(
                            self.init@,
                            views.take(self.pos as int),
                        ));
                    }
                    StepResult::Record(tr)
                } else {
                    self.phase = ExecPhase::Done;
                    StepResult::Finished
                }
            },
            ExecPhase::Flushing | ExecPhase::Done => StepResult::Finished,
        }
    }

    /// Steps the executor until it reports `Finished`: every input record
    /// is consumed, one record trace per record — with only non-buffering
    /// stages the run takes exactly as many steps as there are input
    /// records, and produces no flush trace.
    pub fn run_to_completion(&mut self)
        requires
            old(self).inv(),
        ensures
            final(self).inv(),
            final(self).initial_stages() == old(self).initial_stages(),
            final(self).input_views() == old(self).input_views(),
            final(self).consumed() == final(self).input_views().len(),
            final(self).phase_spec() == ExecPhase::Done,
    {
        loop
            invariant
                self.inv(),
                self.initial_stages() == old(self).initial_stages(),
                self.input_views() == old(self).input_views(),
            ensures
                self.inv(),
                self.initial_stages() == old(self).initial_stages(),
                self.input_views() == old(self).input_views(),
                self.consumed() == self.input_views().len(),
                self.phase_spec() == ExecPhase::Done,
            decreases self.input_views().len() - self.consumed() + 1,
        {
            let more = self.current_step() < self.total_steps();
            if !more {
                let _finished = self.step();
                break ;
            }
            let _taken = self.step();
        }
    }
}

/// Starts a record-at-a-time run of `pipeline` over `input`: a fresh
/// executor in phase `NotStarted`, with fresh stage state, that has
/// consumed nothing.
pub fn rat_start(pipeline: &CompiledPipeline, input: Vec<Record>) -> (e: RatExecutor)
    ensures
        e.inv(),
        e.initial_stages() == pipeline@,
        e.input_views() == recs_view(input@),
        e.consumed() == 0,
        e.phase_spec() == ExecPhase::NotStarted,
{
    let stages = pipeline.fresh_stages();
    let stage_names = pipeline.stage_names();
    let e = RatExecutor {
        stages,
        input,
        pos: 0,
        phase: ExecPhase::NotStarted,
        trace: RatDebugTrace { record_traces: Vec::new(), flush_traces: Vec::new(), stage_names },
        emitted: Vec::new(),
        init: Ghost(pipeline@),
    };
    proof {
        assert(e.input_views().take(0int) =~= Seq::<Seq<u8>>::empty());
        assert(traces_view(e.trace.record_traces@) =~= rat_record_traces(
            pipeline@,
            Seq::empty(),
        ));
        assert(recs_view(e.emitted@) =~= rat_outputs(pipeline@, Seq::empty()));
    }
    e
}

/// Splits an optional record into two with the same content: one to
/// record at the pipe point, one to pass downstream.
fn clone_opt(r: Option<Record>) -> (c: (Option<Record>, Option<Record>))
    ensures
        opt_view(c.0) == opt_view(r),
        opt_view(c.1) == opt_view(r),
{
    match r {
        Some(x) => {
            let y = x.clone();
            (Some(x), Some(y))
        },
        None => (None, None),
    }
}

/// Copies a record vector.
fn clone_records(v: &Vec<Record>) -> (r: Vec<Record>)
    ensures
        recs_view(r@) == recs_view(v@),
{
    let mut r: Vec<Record> = Vec::new();
    let mut i: usize = 0;
    let n: usize = v.len();
    while i < n
        invariant
            0 <= i <= n == v@.len(),
            r@.len() == i,
            forall|j: int| 0 <= j < i ==> #[trigger] r@[j]@ == v@[j]@,
        decreases n - i,
    {
        r.push(v[i].clone());
        i = i + 1;
    }
    proof {
        assert(recs_view(r@) =~= recs_view(v@));
    }
    r
}

/// Copies a record trace.
fn clone_record_trace(t: &RecordTrace) -> (r: RecordTrace)
    ensures
        r@ == t@,
{
    let mut points: Vec<Vec<Record>> = Vec::new();
    let mut i: usize = 0;
    let n: usize = t.pipe_points.len();
    while i < n
        invariant
            0 <= i <= n == t.pipe_points@.len(),
            points@.len() == i,
            forall|j: int| 0 <= j < i ==> #[trigger] recs_view(points@[j]@) == recs_view(
                t.pipe_points@[j]@,
            ),
        decreases n - i,
    {
        let p = clone_records(&t.pipe_points[i]);
        points.push(p);
        i = i + 1;
    }
    let r = RecordTrace { pipe_points: points };
    proof {
        assert(r@ =~= t@);
    }
    r
}

/// Feeds one record (or nothing) through the stages, front to back,
/// exactly as [`rat_feed`] describes: returns what every stage emitted and
/// what left the last stage, advancing each stage's state in place. A
/// stage whose input is already gone is not invoked.
fn feed_records(stages: &mut Vec<CompiledStage>, cur: Option<Record>) -> (res: (
    Vec<Vec<Record>>,
    Option<Record>,
))
    ensures
        stages_view(final(stages)@) == rat_feed(stages_view(old(stages)@), opt_view(cur)).states,
        points_view(res.0@) == rat_feed(stages_view(old(stages)@), opt_view(cur)).points,
        opt_view(res.1) == rat_feed(stages_view(old(stages)@), opt_view(cur)).out,
    decreases old(stages)@.len(),
{
    let ghost all = stages_view(old(stages)@);
    let ghost cur_v = opt_view(cur);
    if stages.len() == 0 {
        let empty_points: Vec<Vec<Record>> = Vec::new();
        proof {
            assert(points_view(empty_points@) =~= rat_feed(all, cur_v).points);
            assert(stages_view(stages@) =~= rat_feed(all, cur_v).states);
        }
        (empty_points, cur)
    } else {
        let mut first = stages.remove(0);
        proof {
            assert(stages_view(stages@) =~= all.drop_first());
        }
        let o: Option<Record> = match cur {
            Some(r) => first.process(r),
            None => None,
        };
        let ghost o_v = opt_view(o);
        let (o_pass, o_point) = clone_opt(o);
        let mut point: Vec<Record> = Vec::new();
        match o_point {
            Some(x) => point.push(x),
            None => {},
        }
        let ghost point_v = recs_view(point@);
        let ghost first_v = first@;
        proof {
            assert(point_v =~= crate::semantics::opt_out(o_v));
        }
        let (mut rest_points, out) = feed_records(stages, o_pass);
        let ghost rest_points_v = points_view(rest_points@);
        let ghost stages_rec_v = stages_view(stages@);
        stages.insert(0, first);
        rest_points.insert(0, point);
        proof {
            let feed = rat_feed(all, cur_v);
            let rest = rat_feed(all.drop_first(), o_v);
            assert(feed.states == seq![first_v] + rest.states);
            assert(feed.points == seq![crate::semantics::opt_out(o_v)] + rest.points);
            assert(feed.out == rest.out);
            assert(stages_view(stages@) =~= seq![first_v] + stages_rec_v);
            assert(points_view(rest_points@) =~= seq![point_v] + rest_points_v);
        }
        (rest_points, out)
    }
}

} // verus!
