//! The compiled pipeline and the batch executor.
//!
//! A [`Command`] is a parsed, validated instruction; [`compile`] maps each
//! command to one [`CompiledStage`], whose behaviour is exactly the
//! [`StageModel`] of the same shape. [`run_batch`] is the batch executor:
//! it transforms the whole record stream stage by stage and is proved to
//! compute [`pipeline_run`] of the model.

use crate::ascii;
use crate::record::{recs_view, Record};
use crate::semantics::{
    pipeline_run, select_apply, stage_run, stage_run_state, stage_step, StageModel,
};
use vstd::prelude::*;
use vstd::string::StringSliceAdditionalSpecFns;

verus! {

/// A parsed, validated pipeline instruction. Produced once from command
/// text (or built directly); compiled 1:1 into a stage.
#[derive(Debug)]
pub enum Command {
    /// `FILTER pos,len = "value"`: keep records whose field matches.
    FilterEq { pos: usize, len: usize, value: String },
    /// `FILTER pos,len != "value"`: keep records whose field differs.
    FilterNe { pos: usize, len: usize, value: String },
    /// `SELECT src,len,dst; ...`: build records from the given fields.
    Select { fields: Vec<(usize, usize, usize)> },
    /// `TAKE n`: keep the first n records.
    Take { n: usize },
    /// `SKIP n`: drop the first n records.
    Skip { n: usize },
}

/// The abstract value of a command: the same instruction with the filter
/// value as its bytes.
pub enum CommandModel {
    FilterEq { pos: usize, len: usize, value: Seq<u8> },
    FilterNe { pos: usize, len: usize, value: Seq<u8> },
    Select { fields: Seq<(usize, usize, usize)> },
    Take { n: usize },
    Skip { n: usize },
}

impl View for Command {
    type V = CommandModel;

    open spec fn view(&self) -> CommandModel {
        match self {
            Command::FilterEq { pos, len, value } => CommandModel::FilterEq {
                pos: *pos,
                len: *len,
                value: vstd::utf8::encode_utf8(value@),
            },
            Command::FilterNe { pos, len, value } => CommandModel::FilterNe {
                pos: *pos,
                len: *len,
                value: vstd::utf8::encode_utf8(value@),
            },
            Command::Select { fields } => CommandModel::Select { fields: fields@ },
            Command::Take { n } => CommandModel::Take { n: *n },
            Command::Skip { n } => CommandModel::Skip { n: *n },
        }
    }
}

/// The fixed mapping from commands to fresh stage states.
pub open spec fn command_to_stage(c: CommandModel) -> StageModel {
    match c {
        CommandModel::FilterEq { pos, len, value } => StageModel::Filter {
            keep_equal: true,
            pos,
            len,
            value,
        },
        CommandModel::FilterNe { pos, len, value } => StageModel::Filter {
            keep_equal: false,
            pos,
            len,
            value,
        },
        CommandModel::Select { fields } => StageModel::Select { fields },
        CommandModel::Take { n } => StageModel::Take { remaining: n },
        CommandModel::Skip { n } => StageModel::Skip { remaining: n },
    }
}

/// One stage of a compiled pipeline, holding whatever state it needs to
/// process records one at a time. Fresh instances start as the compiled
/// command says; `Take` and `Skip` count down as records pass.
pub enum CompiledStage {
    Filter { keep_equal: bool, pos: usize, len: usize, value: Vec<u8> },
    Select { fields: Vec<(usize, usize, usize)> },
    Take { remaining: usize },
    Skip { remaining: usize },
}

impl View for CompiledStage {
    type V = StageModel;

    open spec fn view(&self) -> StageModel {
        match self {
            CompiledStage::Filter { keep_equal, pos, len, value } => StageModel::Filter {
                keep_equal: *keep_equal,
                pos: *pos,
                len: *len,
                value: value@,
            },
            CompiledStage::Select { fields } => StageModel::Select { fields: fields@ },
            CompiledStage::Take { remaining } => StageModel::Take { remaining: *remaining },
            CompiledStage::Skip { remaining } => StageModel::Skip { remaining: *remaining },
        }
    }
}

/// The abstract values of a stage vector.
pub open spec fn stages_view(stages: Seq<CompiledStage>) -> Seq<StageModel> {
    stages.map_values(|s: CompiledStage| s@)
}

/// An optional record's byte content.
pub open spec fn opt_view(o: Option<Record>) -> Option<Seq<u8>> {
    match o {
        Some(r) => Some(r@),
        None => None,
    }
}

/// Copies a field list.
fn copy_fields(fields: &Vec<(usize, usize, usize)>) -> (r: Vec<(usize, usize, usize)>)
    ensures
        r@ == fields@,
{
    let mut r: Vec<(usize, usize, usize)> = Vec::new();
    let mut i: usize = 0;
    let n: usize = fields.len();
    while i < n
        invariant
            0 <= i <= n == fields@.len(),
            r@ == fields@.take(i as int),
        decreases n - i,
    {
        r.push(fields[i]);
        i = i + 1;
        proof {
            assert(r@ =~= fields@.take(i as int));
        }
    }
    proof {
        assert(fields@.take(n as int) =~= fields@);
    }
    r
}

/// Copies a byte vector.
fn copy_bytes(bytes: &Vec<u8>) -> (r: Vec<u8>)
    ensures
        r@ == bytes@,
{
    proof {
        assert(bytes@.subrange(0, bytes@.len() as int) =~= bytes@);
    }
    ascii::subrange_copy(bytes.as_slice(), 0, bytes.len())
}

impl Clone for CompiledStage {
    /// Cloning a stage keeps its state. A fresh clone of a fresh stage is
    /// how both executors start from the same compiled pipeline.
    fn clone(&self) -> (r: Self)
        ensures
            r@ == self@,
    {
        match self {
            CompiledStage::Filter { keep_equal, pos, len, value } => CompiledStage::Filter {
                keep_equal: *keep_equal,
                pos: *pos,
                len: *len,
                value: copy_bytes(value),
            },
            CompiledStage::Select { fields } => CompiledStage::Select {
                fields: copy_fields(fields),
            },
            CompiledStage::Take { remaining } => CompiledStage::Take { remaining: *remaining },
            CompiledStage::Skip { remaining } => CompiledStage::Skip { remaining: *remaining },
        }
    }
}

/// Builds the record a select stage emits for `record`.
pub(crate) fn apply_select(fields: &Vec<(usize, usize, usize)>, record: &Record) -> (out: Record)
    ensures
        out@ == select_apply(fields@, record@),
{
    let mut out = Record::new();
    let mut i: usize = 0;
    let n: usize = fields.len();
    proof {
        assert(fields@.take(0int) =~= Seq::<(usize, usize, usize)>::empty());
    }
    while i < n
        invariant
            0 <= i <= n == fields@.len(),
            out@ == select_apply(fields@.take(i as int), record@),
        decreases n - i,
    {
        let (src, len, dst) = fields[i];
        let value = record.field_bytes(src, len);
        out.set_field_bytes(dst, len, value.as_slice());
        i = i + 1;
        proof {
            assert(fields@.take(i as int).drop_last() =~= fields@.take(i as int - 1));
            assert(fields@.take(i as int).last() == fields@[i as int - 1]);
        }
    }
    proof {
        assert(fields@.take(n as int) =~= fields@);
    }
    out
}

impl CompiledStage {
    /// Processes a single record: returns the record to pass downstream,
    /// or `None` to filter it out, and advances the stage state, exactly
    /// as [`stage_step`] says.
    pub fn process(&mut self, record: Record) -> (out: Option<Record>)
        ensures
            final(self)@ == stage_step(old(self)@, record@).0,
            opt_view(out) == stage_step(old(self)@, record@).1,
    {
        match &*self {
            CompiledStage::Filter { keep_equal, pos, len, value } => {
                let field = record.field_bytes(*pos, *len);
                let ft = ascii::trim_copy(field.as_slice());
                let vt = ascii::trim_copy(value.as_slice());
                let matched = ascii::bytes_eq(ft.as_slice(), vt.as_slice());
                if matched == *keep_equal {
                    Some(record)
                } else {
                    None
                }
            },
            CompiledStage::Select { fields } => Some(apply_select(fields, &record)),
            CompiledStage::Take { remaining } => {
                let rem: usize = *remaining;
                if rem > 0 {
                    *self = CompiledStage::Take { remaining: rem - 1 };
                    Some(record)
                } else {
                    None
                }
            },
            CompiledStage::Skip { remaining } => {
                let rem: usize = *remaining;
                if rem > 0 {
                    *self = CompiledStage::Skip { remaining: rem - 1 };
                    None
                } else {
                    Some(record)
                }
            },
        }
    }

    /// Releases any records the stage still buffers at end of input. No
    /// current stage kind buffers, so the flush of every stage is empty;
    /// the mechanism exists for stage kinds (sort, aggregate) that would
    /// hold records back.
    pub fn flush(&mut self) -> (out: Vec<Record>)
        ensures
            final(self)@ == old(self)@,
            out@.len() == 0,
    {
        Vec::new()
    }

    /// The stage's human-readable label: its command keyword.
    pub fn name(&self) -> (r: String)
        ensures
            r@ == stage_name(self@),
    {
        match self {
            CompiledStage::Filter { .. } => "FILTER".to_owned(),
            CompiledStage::Select { .. } => "SELECT".to_owned(),
            CompiledStage::Take { .. } => "TAKE".to_owned(),
            CompiledStage::Skip { .. } => "SKIP".to_owned(),
        }
    }
}

/// The label of a stage: its command keyword.
pub open spec fn stage_name(st: StageModel) -> Seq<char> {
    match st {
        StageModel::Filter { .. } => "FILTER"@,
        StageModel::Select { .. } => "SELECT"@,
        StageModel::Take { .. } => "TAKE"@,
        StageModel::Skip { .. } => "SKIP"@,
    }
}

/// An ordered sequence of stages compiled from a command list, fixed once
/// compiled. Executors take fresh copies of the stages, so independent
/// runs never share stage-local counters.
pub struct CompiledPipeline {
    stages: Vec<CompiledStage>,
}

impl View for CompiledPipeline {
    type V = Seq<StageModel>;

    closed spec fn view(&self) -> Seq<StageModel> {
        stages_view(self.stages@)
    }
}

impl CompiledPipeline {
    /// The number of stages; the pipeline has one pipe point more.
    pub fn stage_count(&self) -> (r: usize)
        ensures
            r == self@.len(),
    {
        self.stages.len()
    }

    /// A fresh copy of the compiled stages, counters at their initial
    /// values.
    pub fn fresh_stages(&self) -> (r: Vec<CompiledStage>)
        ensures
            stages_view(r@) == self@,
    {
        let mut r: Vec<CompiledStage> = Vec::new();
        let mut i: usize = 0;
        let n: usize = self.stages.len();
        while i < n
            invariant
                0 <= i <= n == self.stages@.len(),
                r@.len() == i,
                forall|j: int| 0 <= j < i ==> r@[j]@ == self.stages@[j]@,
            decreases n - i,
        {
            let s = self.stages[i].clone();
            r.push(s);
            i = i + 1;
        }
        proof {
            assert(stages_view(r@) =~= stages_view(self.stages@));
        }
        r
    }

    /// The stage labels, in order.
    pub fn stage_names(&self) -> (r: Vec<String>)
        ensures
            r@.len() == self@.len(),
            forall|i: int| 0 <= i < self@.len() ==> #[trigger] r@[i]@ == stage_name(self@[i]),
    {
        let mut r: Vec<String> = Vec::new();
        let mut i: usize = 0;
        let n: usize = self.stages.len();
        while i < n
            invariant
                0 <= i <= n == self.stages@.len(),
                r@.len() == i,
                forall|j: int| 0 <= j < i ==> #[trigger] r@[j]@ == stage_name(stages_view(
                    self.stages@,
                )[j]),
            decreases n - i,
        {
            r.push(self.stages[i].name());
            i = i + 1;
        }
        r
    }
}

/// Compiles a command list into a pipeline, one stage per command, by the
/// fixed mapping [`command_to_stage`]. Commands are already structurally
/// valid by construction, so compilation is total.
pub fn compile(commands: &Vec<Command>) -> (p: CompiledPipeline)
    ensures
        p@ == commands@.map_values(|c: Command| command_to_stage(c@)),
{
    let mut stages: Vec<CompiledStage> = Vec::new();
    let mut i: usize = 0;
    let n: usize = commands.len();
    while i < n
        invariant
            0 <= i <= n == commands@.len(),
            stages@.len() == i,
            forall|j: int| 0 <= j < i ==> #[trigger] stages@[j]@ == command_to_stage(
                commands@[j]@,
            ),
        decreases n - i,
    {
        let stage = compile_command(&commands[i]);
        stages.push(stage);
        i = i + 1;
    }
    let p = CompiledPipeline { stages };
    proof {
        assert(p@ =~= commands@.map_values(|c: Command| command_to_stage(c@)));
    }
    p
}

/// Compiles one command into a fresh stage.
pub fn compile_command(command: &Command) -> (s: CompiledStage)
    ensures
        s@ == command_to_stage(command@),
{
    match command {
        Command::FilterEq { pos, len, value } => CompiledStage::Filter {
            keep_equal: true,
            pos: *pos,
            len: *len,
            value: str_bytes(value.as_str()),
        },
        Command::FilterNe { pos, len, value } => CompiledStage::Filter {
            keep_equal: false,
            pos: *pos,
            len: *len,
            value: str_bytes(value.as_str()),
        },
        Command::Select { fields } => CompiledStage::Select { fields: copy_fields(fields) },
        Command::Take { n } => CompiledStage::Take { remaining: *n },
        Command::Skip { n } => CompiledStage::Skip { remaining: *n },
    }
}

/// Copies the bytes of a string slice.
fn str_bytes(s: &str) -> (r: Vec<u8>)
    ensures
        r@ == s.spec_bytes(),
{
    let b: &[u8] = s.as_bytes();
    proof {
        assert(b@.subrange(0, b@.len() as int) =~= b@);
    }
    ascii::subrange_copy(b, 0, b.len())
}

/// Runs one stage over a whole record stream, threading its counter state
/// from record to record.
pub(crate) fn run_stage(stage: &mut CompiledStage, records: &Vec<Record>) -> (out: Vec<Record>)
    ensures
        recs_view(out@) == stage_run(old(stage)@, recs_view(records@)),
        final(stage)@ == stage_run_state(old(stage)@, recs_view(records@)),
{
    let mut out: Vec<Record> = Vec::new();
    let mut i: usize = 0;
    let n: usize = records.len();
    proof {
        assert(recs_view(records@).take(0int) =~= Seq::<Seq<u8>>::empty());
        assert(recs_view(out@) =~= Seq::<Seq<u8>>::empty());
    }
    while i < n
        invariant
            0 <= i <= n == records@.len(),
            recs_view(out@) == stage_run(old(stage)@, recs_view(records@).take(i as int)),
            stage@ == stage_run_state(old(stage)@, recs_view(records@).take(i as int)),
        decreases n - i,
    {
        let r = records[i].clone();
        let ghost pre = stage@;
        let produced = stage.process(r);
        match produced {
            Some(x) => {
                out.push(x);
            },
            None => {},
        }
        i = i + 1;
        proof {
            let views = recs_view(records@);
            lemma_stage_run_snoc(old(stage)@, views.take(i as int - 1), views[i as int - 1]);
            assert(views.take(i as int - 1).push(views[i as int - 1]) =~= views.take(i as int));
            assert(recs_view(out@) =~= stage_run(old(stage)@, views.take(i as int)));
        }
    }
    proof {
        assert(recs_view(records@).take(n as int) =~= recs_view(records@));
    }
    out
}

/// Appending one record to a stage's input stream appends that record's
/// step output to the stage's output stream.
proof fn lemma_stage_run_snoc(st: StageModel, input: Seq<Seq<u8>>, r: Seq<u8>)
    ensures
        stage_run(st, input.push(r)) == stage_run(st, input) + crate::semantics::opt_out(
            stage_step(stage_run_state(st, input), r).1,
        ),
        stage_run_state(st, input.push(r)) == stage_step(stage_run_state(st, input), r).0,
    decreases input.len(),
{
    if input.len() == 0 {
        assert(input.push(r).first() == r);
        assert(input.push(r).drop_first() =~= Seq::<Seq<u8>>::empty());
        assert(stage_run(st, input) =~= Seq::<Seq<u8>>::empty());
        let (st2, o) = stage_step(st, r);
        assert(stage_run(st, input.push(r)) == crate::semantics::opt_out(o) + stage_run(
            st2,
            Seq::empty(),
        ));
        assert(crate::semantics::opt_out(o) + stage_run(st2, Seq::<Seq<u8>>::empty())
            =~= crate::semantics::opt_out(o));
        assert(stage_run(st, input) + crate::semantics::opt_out(o) =~= crate::semantics::opt_out(
            o,
        ));
        assert(stage_run_state(st, input) == st);
        assert(stage_run_state(st, input.push(r)) == stage_run_state(
            st2,
            input.push(r).drop_first(),
        ));
        assert(stage_run_state(st2, input.push(r).drop_first()) == st2);
    } else {
        let (st2, o) = stage_step(st, input.first());
        assert(input.push(r).first() == input.first());
        assert(input.push(r).drop_first() =~= input.drop_first().push(r));
        lemma_stage_run_snoc(st2, input.drop_first(), r);
        assert(stage_run(st, input.push(r)) == crate::semantics::opt_out(o) + stage_run(
            st2,
            input.drop_first().push(r),
        ));
        assert(crate::semantics::opt_out(o) + (stage_run(st2, input.drop_first())
            + crate::semantics::opt_out(
            stage_step(stage_run_state(st2, input.drop_first()), r).1,
        )) =~= (crate::semantics::opt_out(o) + stage_run(st2, input.drop_first()))
            + crate::semantics::opt_out(
            stage_step(stage_run_state(st2, input.drop_first()), r).1,
        ));
        assert(stage_run_state(st, input) == stage_run_state(st2, input.drop_first()));
        assert(stage_run_state(st, input.push(r)) == stage_run_state(
            st2,
            input.drop_first().push(r),
        ));
    }
}

/// Appending one stage to a pipeline runs it over the shorter pipeline's
/// output.
proof fn lemma_pipeline_run_snoc(stages: Seq<StageModel>, st: StageModel, input: Seq<Seq<u8>>)
    ensures
        pipeline_run(stages.push(st), input) == stage_run(st, pipeline_run(stages, input)),
    decreases stages.len(),
{
    if stages.len() == 0 {
        assert(stages.push(st).first() == st);
        assert(stages.push(st).drop_first() =~= Seq::<StageModel>::empty());
        assert(pipeline_run(stages.push(st), input) == pipeline_run(
            stages.push(st).drop_first(),
            stage_run(st, input),
        ));
        assert(pipeline_run(stages.push(st).drop_first(), stage_run(st, input)) == stage_run(
            st,
            input,
        ));
        assert(pipeline_run(stages, input) == input);
    } else {
        assert(stages.push(st).first() == stages.first());
        assert(stages.push(st).drop_first() =~= stages.drop_first().push(st));
        lemma_pipeline_run_snoc(stages.drop_first(), st, stage_run(stages.first(), input));
        assert(pipeline_run(stages, input) == pipeline_run(
            stages.drop_first(),
            stage_run(stages.first(), input),
        ));
        assert(pipeline_run(stages.push(st), input) == pipeline_run(
            stages.drop_first().push(st),
            stage_run(stages.first(), input),
        ));
    }
}

/// The batch executor: applies the pipeline's stages in order, each
/// stage's output feeding the next stage's input, over fresh stage
/// state. The result is exactly [`pipeline_run`] of the model.
pub fn run_batch(pipeline: &CompiledPipeline, records: Vec<Record>) -> (out: Vec<Record>)
    ensures
        recs_view(out@) == pipeline_run(pipeline@, recs_view(records@)),
{
    let mut stages = pipeline.fresh_stages();
    let mut cur: Vec<Record> = records;
    let mut s: usize = 0;
    let n: usize = stages.len();
    proof {
        assert(stages_view(stages@).take(0int) =~= Seq::<StageModel>::empty());
    }
    while s < n
        invariant
            0 <= s <= n == stages@.len(),
            stages_view(stages@) == pipeline@,
            recs_view(cur@) == pipeline_run(pipeline@.take(s as int), recs_view(records@)),
        decreases n - s,
    {
        let mut stage = stages[s].clone();
        let next = run_stage(&mut stage, &cur);
        cur = next;
        s = s + 1;
        proof {
            lemma_pipeline_run_snoc(
                pipeline@.take(s as int - 1),
                pipeline@[s as int - 1],
                recs_view(records@),
            );
            assert(pipeline@.take(s as int - 1).push(pipeline@[s as int - 1]) =~= pipeline@.take(
                s as int,
            ));
        }
    }
    proof {
        assert(pipeline@.take(n as int) =~= pipeline@);
    }
    cur
}

} // verus!
