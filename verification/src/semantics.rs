//! The mathematical model of pipeline execution.
//!
//! A stage is modelled as a value of [`StageModel`]; feeding it one record
//! yields a successor state and at most one output record ([`stage_step`]).
//! Batch execution ([`pipeline_run`]) transforms the whole record stream
//! stage by stage; record-at-a-time execution ([`rat_outputs`]) feeds one
//! input record through every stage per step. The central theorem,
//! [`lemma_batch_rat_equivalence`], states that the two orders of
//! evaluation produce the same output stream.

use crate::ascii;
use crate::record::{blank_record, field_range_spec, set_field_spec};
use vstd::prelude::*;

verus! {

/// The state of one pipeline stage.
///
/// `Filter` and `Select` are stateless; `Take` and `Skip` carry the count
/// of records they will still pass or still drop. None of these kinds
/// buffers records, so no stage ever holds output back until end of input.
pub enum StageModel {
    /// Keeps records whose field `[pos, pos+len)` equals (`keep_equal`)
    /// or differs from (`!keep_equal`) `value`, both sides trimmed of
    /// whitespace.
    Filter { keep_equal: bool, pos: usize, len: usize, value: Seq<u8> },
    /// Builds a fresh record from the source fields
    /// `(src_pos, len, dst_pos)`, applied in order.
    Select { fields: Seq<(usize, usize, usize)> },
    /// Passes the next `remaining` records, then drops the rest.
    Take { remaining: usize },
    /// Drops the next `remaining` records, then passes the rest.
    Skip { remaining: usize },
}

/// Whether a record's field matches a filter value: both sides are trimmed
/// of whitespace and compared byte for byte.
pub open spec fn filter_keep(pos: usize, len: usize, value: Seq<u8>, r: Seq<u8>) -> bool {
    ascii::trim_spec(field_range_spec(r, pos as int, len as int)) == ascii::trim_spec(value)
}

/// The record built by a select stage: starting from a blank record, each
/// `(src_pos, len, dst_pos)` in order copies the source field to the
/// destination position.
pub open spec fn select_apply(fields: Seq<(usize, usize, usize)>, r: Seq<u8>) -> Seq<u8>
    decreases fields.len(),
{
    if fields.len() == 0 {
        blank_record()
    } else {
        let f = fields.last();
        set_field_spec(
            select_apply(fields.drop_last(), r),
            f.2 as int,
            f.1 as int,
            field_range_spec(r, f.0 as int, f.1 as int),
        )
    }
}

/// One stage consuming one record: the successor stage state and the
/// record passed downstream, if any.
pub open spec fn stage_step(st: StageModel, r: Seq<u8>) -> (StageModel, Option<Seq<u8>>) {
    match st {
        StageModel::Filter { keep_equal, pos, len, value } => (
            st,
            if filter_keep(pos, len, value, r) == keep_equal {
                Some(r)
            } else {
                None
            },
        ),
        StageModel::Select { fields } => (st, Some(select_apply(fields, r))),
        StageModel::Take { remaining } => if remaining > 0 {
            (StageModel::Take { remaining: (remaining - 1) as usize }, Some(r))
        } else {
            (st, None)
        },
        StageModel::Skip { remaining } => if remaining > 0 {
            (StageModel::Skip { remaining: (remaining - 1) as usize }, None)
        } else {
            (st, Some(r))
        },
    }
}

/// Zero or one records as a sequence.
pub open spec fn opt_out(o: Option<Seq<u8>>) -> Seq<Seq<u8>> {
    match o {
        Some(r) => seq![r],
        None => Seq::empty(),
    }
}

/// One stage consuming a whole record stream, threading its state from
/// record to record.
pub open spec fn stage_run(st: StageModel, input: Seq<Seq<u8>>) -> Seq<Seq<u8>>
    decreases input.len(),
{
    if input.len() == 0 {
        Seq::empty()
    } else {
        let (st2, o) = stage_step(st, input.first());
        opt_out(o) + stage_run(st2, input.drop_first())
    }
}

/// The stage state after consuming a whole record stream.
pub open spec fn stage_run_state(st: StageModel, input: Seq<Seq<u8>>) -> StageModel
    decreases input.len(),
{
    if input.len() == 0 {
        st
    } else {
        stage_run_state(stage_step(st, input.first()).0, input.drop_first())
    }
}

/// Batch execution: each stage's output feeds the next stage's input.
/// This is the reference semantics the record-at-a-time executor must
/// reproduce.
pub open spec fn pipeline_run(stages: Seq<StageModel>, input: Seq<Seq<u8>>) -> Seq<Seq<u8>>
    decreases stages.len(),
{
    if stages.len() == 0 {
        input
    } else {
        pipeline_run(stages.drop_first(), stage_run(stages.first(), input))
    }
}

/// What feeding one (possibly already dropped) record through a stage
/// sequence yields: the successor states, the output of every stage, and
/// the record leaving the last stage, if any. A stage whose input is
/// already gone is not invoked and keeps its state.
pub struct RatStep {
    /// Successor state of every stage, in order.
    pub states: Seq<StageModel>,
    /// Output of stage `i` for this record, as a set of zero or one
    /// records.
    pub points: Seq<Seq<Seq<u8>>>,
    /// The record leaving the last stage, if it survived all stages.
    pub out: Option<Seq<u8>>,
}

/// Feeds one record (or nothing) through a stage sequence, one stage at a
/// time.
pub open spec fn rat_feed(stages: Seq<StageModel>, cur: Option<Seq<u8>>) -> RatStep
    decreases stages.len(),
{
    if stages.len() == 0 {
        RatStep { states: Seq::empty(), points: Seq::empty(), out: cur }
    } else {
        let (st2, o) = match cur {
            Some(r) => stage_step(stages.first(), r),
            None => (stages.first(), None::<Seq<u8>>),
        };
        let rest = rat_feed(stages.drop_first(), o);
        RatStep {
            states: seq![st2] + rest.states,
            points: seq![opt_out(o)] + rest.points,
            out: rest.out,
        }
    }
}

/// The pipe points recorded for one input record: index 0 is the raw
/// input, index `i + 1` the output of stage `i`.
pub open spec fn record_pipe_points(stages: Seq<StageModel>, r: Seq<u8>) -> Seq<Seq<Seq<u8>>> {
    seq![seq![r]] + rat_feed(stages, Some(r)).points
}

/// The stage states after the record-at-a-time executor has consumed a
/// stream of input records.
pub open spec fn rat_states_after(stages: Seq<StageModel>, input: Seq<Seq<u8>>) -> Seq<StageModel>
    decreases input.len(),
{
    if input.len() == 0 {
        stages
    } else {
        rat_states_after(rat_feed(stages, Some(input.first())).states, input.drop_first())
    }
}

/// The output stream of record-at-a-time execution: the concatenation of
/// the final pipe point of every step, empty points skipped.
pub open spec fn rat_outputs(stages: Seq<StageModel>, input: Seq<Seq<u8>>) -> Seq<Seq<u8>>
    decreases input.len(),
{
    if input.len() == 0 {
        Seq::empty()
    } else {
        let step = rat_feed(stages, Some(input.first()));
        opt_out(step.out) + rat_outputs(step.states, input.drop_first())
    }
}

/// The record traces of a whole record-at-a-time run: the pipe points
/// recorded for each input record, in input order.
pub open spec fn rat_record_traces(stages: Seq<StageModel>, input: Seq<Seq<u8>>) -> Seq<
    Seq<Seq<Seq<u8>>>,
>
    decreases input.len(),
{
    if input.len() == 0 {
        Seq::empty()
    } else {
        seq![record_pipe_points(stages, input.first())] + rat_record_traces(
            rat_feed(stages, Some(input.first())).states,
            input.drop_first(),
        )
    }
}

/// The concatenation of the final pipe point of every trace, in trace
/// order; an empty final pipe point contributes nothing.
pub open spec fn final_points_concat(traces: Seq<Seq<Seq<Seq<u8>>>>) -> Seq<Seq<u8>>
    decreases traces.len(),
{
    if traces.len() == 0 {
        Seq::empty()
    } else {
        traces.first().last() + final_points_concat(traces.drop_first())
    }
}

/// Feeding nothing changes nothing: every stage keeps its state, every
/// pipe point is empty and nothing comes out.
pub proof fn lemma_rat_feed_none(stages: Seq<StageModel>)
    ensures
        rat_feed(stages, None).states == stages,
        rat_feed(stages, None).out is None,
        rat_feed(stages, None).points.len() == stages.len(),
        forall|i: int|
            0 <= i < stages.len() ==> #[trigger] rat_feed(stages, None).points[i].len() == 0,
    decreases stages.len(),
{
    if stages.len() > 0 {
        lemma_rat_feed_none(stages.drop_first());
        assert(seq![stages.first()] + stages.drop_first() =~= stages);
    }
}

/// A record trace has one pipe point per stage, plus the raw input.
pub proof fn lemma_rat_feed_len(stages: Seq<StageModel>, cur: Option<Seq<u8>>)
    ensures
        rat_feed(stages, cur).states.len() == stages.len(),
        rat_feed(stages, cur).points.len() == stages.len(),
    decreases stages.len(),
{
    if stages.len() > 0 {
        let o = match cur {
            Some(r) => stage_step(stages.first(), r).1,
            None => None::<Seq<u8>>,
        };
        lemma_rat_feed_len(stages.drop_first(), o);
    }
}

/// A pipeline with no stages over no input yields no output; more
/// generally, batch execution of an empty stream is empty.
pub proof fn lemma_pipeline_run_empty(stages: Seq<StageModel>)
    ensures
        pipeline_run(stages, Seq::empty()) == Seq::<Seq<u8>>::empty(),
    decreases stages.len(),
{
    if stages.len() > 0 {
        lemma_pipeline_run_empty(stages.drop_first());
    }
}

/// The key step: batch-running a stream starting with `r` is the same as
/// first feeding `r` through all stages record-at-a-time, then
/// batch-running the rest of the stream from the successor states.
proof fn lemma_rat_feed_batch(stages: Seq<StageModel>, r: Seq<u8>, rest: Seq<Seq<u8>>)
    ensures
        pipeline_run(stages, seq![r] + rest) == opt_out(rat_feed(stages, Some(r)).out)
            + pipeline_run(rat_feed(stages, Some(r)).states, rest),
    decreases stages.len(),
{
    if stages.len() == 0 {
        assert(pipeline_run(stages, seq![r] + rest) == seq![r] + rest);
        assert(opt_out(rat_feed(stages, Some(r)).out) + pipeline_run(
            rat_feed(stages, Some(r)).states,
            rest,
        ) == seq![r] + rest);
    } else {
        let st = stages.first();
        let tail = stages.drop_first();
        let (st2, o) = stage_step(st, r);
        assert((seq![r] + rest).first() == r);
        assert((seq![r] + rest).drop_first() =~= rest);
        assert(stage_run(st, seq![r] + rest) == opt_out(o) + stage_run(st2, rest));
        match o {
            None => {
                lemma_rat_feed_none(tail);
                let states = rat_feed(stages, Some(r)).states;
                assert(states == seq![st2] + tail);
                assert(opt_out(o) + stage_run(st2, rest) =~= stage_run(st2, rest));
                assert((seq![st2] + tail).first() == st2);
                assert((seq![st2] + tail).drop_first() =~= tail);
                assert(pipeline_run(seq![st2] + tail, rest) == pipeline_run(
                    tail,
                    stage_run(st2, rest),
                ));
                assert(rat_feed(stages, Some(r)).out is None);
                assert(opt_out(rat_feed(stages, Some(r)).out) + pipeline_run(states, rest)
                    =~= pipeline_run(states, rest));
            },
            Some(r2) => {
                lemma_rat_feed_batch(tail, r2, stage_run(st2, rest));
                let inner = rat_feed(tail, Some(r2));
                assert(opt_out(o) + stage_run(st2, rest) =~= seq![r2] + stage_run(st2, rest));
                assert(pipeline_run(stages, seq![r] + rest) == pipeline_run(
                    tail,
                    seq![r2] + stage_run(st2, rest),
                ));
                let states = rat_feed(stages, Some(r)).states;
                assert(states == seq![st2] + inner.states);
                assert((seq![st2] + inner.states).first() == st2);
                assert((seq![st2] + inner.states).drop_first() =~= inner.states);
                assert(pipeline_run(states, rest) == pipeline_run(
                    inner.states,
                    stage_run(st2, rest),
                ));
                assert(rat_feed(stages, Some(r)).out == inner.out);
            },
        }
    }
}

/// Equivalence of the two executors: for every pipeline and every input
/// stream, batch execution produces exactly the record-at-a-time output
/// stream, in the same order.
pub proof fn lemma_batch_rat_equivalence(stages: Seq<StageModel>, input: Seq<Seq<u8>>)
    ensures
        pipeline_run(stages, input) == rat_outputs(stages, input),
    decreases input.len(),
{
    if input.len() == 0 {
        lemma_pipeline_run_empty(stages);
        assert(pipeline_run(stages, input) == pipeline_run(stages, Seq::<Seq<u8>>::empty()));
    } else {
        let r = input.first();
        let rest = input.drop_first();
        lemma_rat_feed_batch(stages, r, rest);
        lemma_batch_rat_equivalence(rat_feed(stages, Some(r)).states, rest);
        assert(seq![r] + rest =~= input);
    }
}

/// What leaves the last stage is exactly what the final pipe point of the
/// trace holds.
pub proof fn lemma_rat_feed_last_point(stages: Seq<StageModel>, r: Seq<u8>)
    ensures
        opt_out(rat_feed(stages, Some(r)).out) == record_pipe_points(stages, r).last(),
{
    lemma_rat_feed_len(stages, Some(r));
    if stages.len() == 0 {
        assert(record_pipe_points(stages, r).last() == seq![r]);
    } else {
        lemma_rat_feed_last_inner(stages, Some(r));
        assert(record_pipe_points(stages, r).last() == rat_feed(stages, Some(r)).points.last());
    }
}

/// For a nonempty stage sequence, the last recorded point holds what comes
/// out.
proof fn lemma_rat_feed_last_inner(stages: Seq<StageModel>, cur: Option<Seq<u8>>)
    requires
        stages.len() > 0,
    ensures
        opt_out(rat_feed(stages, cur).out) == rat_feed(stages, cur).points.last(),
    decreases stages.len(),
{
    lemma_rat_feed_len(stages, cur);
    let o = match cur {
        Some(r) => stage_step(stages.first(), r).1,
        None => None::<Seq<u8>>,
    };
    let rest = rat_feed(stages.drop_first(), o);
    if stages.len() == 1 {
        lemma_rat_feed_len(stages.drop_first(), o);
        assert(rat_feed(stages, cur).points == seq![opt_out(o)] + rest.points);
        assert(rest.points.len() == 0);
        assert(rat_feed(stages, cur).points.last() == opt_out(o));
        assert(rest.out == o);
    } else {
        lemma_rat_feed_last_inner(stages.drop_first(), o);
        lemma_rat_feed_len(stages.drop_first(), o);
        assert(rat_feed(stages, cur).points.last() == rest.points.last());
    }
}

/// The record-at-a-time output stream is the concatenation of each record
/// trace's final pipe point.
pub proof fn lemma_rat_outputs_are_final_points(stages: Seq<StageModel>, input: Seq<Seq<u8>>)
    ensures
        rat_outputs(stages, input) == final_points_concat(rat_record_traces(stages, input)),
    decreases input.len(),
{
    if input.len() == 0 {
    } else {
        let r = input.first();
        let step = rat_feed(stages, Some(r));
        lemma_rat_feed_last_point(stages, r);
        lemma_rat_outputs_are_final_points(step.states, input.drop_first());
        let traces = rat_record_traces(stages, input);
        assert(traces.first() == record_pipe_points(stages, r));
        assert(traces.drop_first() =~= rat_record_traces(step.states, input.drop_first()));
    }
}

/// The equivalence invariant in trace terms: the batch executor's output
/// equals the concatenation of every record trace's final pipe point (an
/// empty set contributing nothing), in emission order. With the current
/// stage kinds no stage buffers records, so there are no flush traces to
/// append after these.
pub proof fn lemma_equivalence(stages: Seq<StageModel>, input: Seq<Seq<u8>>)
    ensures
        pipeline_run(stages, input) == final_points_concat(rat_record_traces(stages, input)),
{
    lemma_batch_rat_equivalence(stages, input);
    lemma_rat_outputs_are_final_points(stages, input);
}

/// Consuming one more input record extends the executor's cumulative
/// state: the stage states advance by one feed, the output stream by that
/// feed's final record, and the trace list by that feed's pipe points.
pub proof fn lemma_rat_run_snoc(stages: Seq<StageModel>, input: Seq<Seq<u8>>, r: Seq<u8>)
    ensures
        rat_states_after(stages, input.push(r)) == rat_feed(
            rat_states_after(stages, input),
            Some(r),
        ).states,
        rat_outputs(stages, input.push(r)) == rat_outputs(stages, input) + opt_out(
            rat_feed(rat_states_after(stages, input), Some(r)).out,
        ),
        rat_record_traces(stages, input.push(r)) == rat_record_traces(stages, input).push(
            record_pipe_points(rat_states_after(stages, input), r),
        ),
    decreases input.len(),
{
    if input.len() == 0 {
        assert(input.push(r).first() == r);
        assert(input.push(r).drop_first() =~= Seq::<Seq<u8>>::empty());
        let step = rat_feed(stages, Some(r));
        assert(rat_states_after(stages, input) == stages);
        assert(rat_states_after(stages, input.push(r)) == rat_states_after(
            step.states,
            input.push(r).drop_first(),
        ));
        assert(rat_outputs(stages, input.push(r)) == opt_out(step.out) + rat_outputs(
            step.states,
            input.push(r).drop_first(),
        ));
        assert(opt_out(step.out) + Seq::<Seq<u8>>::empty() =~= opt_out(step.out));
        assert(Seq::<Seq<u8>>::empty() + opt_out(step.out) =~= opt_out(step.out));
        assert(rat_record_traces(stages, input.push(r)) == seq![record_pipe_points(stages, r)]
            + rat_record_traces(step.states, input.push(r).drop_first()));
        assert(seq![record_pipe_points(stages, r)] + Seq::<Seq<Seq<Seq<u8>>>>::empty()
            =~= Seq::<Seq<Seq<Seq<u8>>>>::empty().push(record_pipe_points(stages, r)));
    } else {
        let h = input.first();
        let step = rat_feed(stages, Some(h));
        assert(input.push(r).first() == h);
        assert(input.push(r).drop_first() =~= input.drop_first().push(r));
        lemma_rat_run_snoc(step.states, input.drop_first(), r);
        assert(rat_states_after(stages, input) == rat_states_after(
            step.states,
            input.drop_first(),
        ));
        assert(opt_out(step.out) + (rat_outputs(step.states, input.drop_first()) + opt_out(
            rat_feed(rat_states_after(stages, input), Some(r)).out,
        )) =~= (opt_out(step.out) + rat_outputs(step.states, input.drop_first())) + opt_out(
            rat_feed(rat_states_after(stages, input), Some(r)).out,
        ));
        assert(seq![record_pipe_points(stages, h)] + rat_record_traces(
            step.states,
            input.drop_first(),
        ).push(record_pipe_points(rat_states_after(stages, input), r)) =~= (seq![
            record_pipe_points(stages, h),
        ] + rat_record_traces(step.states, input.drop_first())).push(
            record_pipe_points(rat_states_after(stages, input), r),
        ));
    }
}

/// Filter monotonicity inside one step: once the record is gone, every
/// later pipe point of the same step is empty; and a step that starts
/// with nothing produces nothing anywhere.
proof fn lemma_rat_points_monotone(stages: Seq<StageModel>, cur: Option<Seq<u8>>)
    ensures
        cur is None ==> forall|i: int|
            0 <= i < rat_feed(stages, cur).points.len() ==> #[trigger] rat_feed(
                stages,
                cur,
            ).points[i].len() == 0,
        forall|k: int, j: int|
            0 <= k <= j < rat_feed(stages, cur).points.len() && #[trigger] rat_feed(
                stages,
                cur,
            ).points[k].len() == 0 ==> #[trigger] rat_feed(stages, cur).points[j].len() == 0,
    decreases stages.len(),
{
    if stages.len() == 0 {
    } else {
        let o = match cur {
            Some(r) => stage_step(stages.first(), r).1,
            None => None::<Seq<u8>>,
        };
        let rest = rat_feed(stages.drop_first(), o);
        lemma_rat_points_monotone(stages.drop_first(), o);
        let points = rat_feed(stages, cur).points;
        assert(points == seq![opt_out(o)] + rest.points);
        assert forall|k: int, j: int|
            0 <= k <= j < points.len() && #[trigger] points[k].len() == 0 implies #[trigger] points[j].len()
            == 0 by {
            if k == 0 {
                assert(opt_out(o).len() == 0);
                assert(o is None);
                if j > 0 {
                    assert(points[j] == rest.points[j - 1]);
                }
            } else {
                assert(points[k] == rest.points[k - 1]);
                if j > 0 {
                    assert(points[j] == rest.points[j - 1]);
                }
            }
        }
        if cur is None {
            assert(o is None);
            assert forall|i: int| 0 <= i < points.len() implies #[trigger] points[i].len()
                == 0 by {
                if i > 0 {
                    assert(points[i] == rest.points[i - 1]);
                }
            }
        }
    }
}

/// Pipe-point count: the record trace of one input record through an
/// N-stage pipeline has exactly N + 1 pipe points — index 0 the raw
/// input, index N the final output.
pub proof fn lemma_pipe_point_count(stages: Seq<StageModel>, r: Seq<u8>)
    ensures
        record_pipe_points(stages, r).len() == stages.len() + 1,
{
    lemma_rat_feed_len(stages, Some(r));
}

/// Step accounting: a record-at-a-time run over an input stream takes one
/// step per input record — every stage kind here is non-buffering, so no
/// flush steps exist and the trace list has exactly the input's length.
pub proof fn lemma_step_count(stages: Seq<StageModel>, input: Seq<Seq<u8>>)
    ensures
        rat_record_traces(stages, input).len() == input.len(),
    decreases input.len(),
{
    if input.len() > 0 {
        lemma_step_count(rat_feed(stages, Some(input.first())).states, input.drop_first());
    }
}

/// Filter monotonicity over a whole record trace: once a record is
/// filtered out at pipe point `k`, every pipe point after `k` in the same
/// trace is empty.
pub proof fn lemma_filter_monotone(stages: Seq<StageModel>, r: Seq<u8>, k: int, j: int)
    requires
        0 <= k <= j < record_pipe_points(stages, r).len(),
        record_pipe_points(stages, r)[k].len() == 0,
    ensures
        record_pipe_points(stages, r)[j].len() == 0,
{
    let points = record_pipe_points(stages, r);
    assert(points[0] == seq![r]);
    assert(k > 0);
    lemma_rat_points_monotone(stages, Some(r));
    assert(points[k] == rat_feed(stages, Some(r)).points[k - 1]);
    assert(points[j] == rat_feed(stages, Some(r)).points[j - 1]);
}

} // verus!
