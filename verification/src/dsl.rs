//! The pipeline command language and its executor entry points.
//!
//! Command text is line-oriented: the first meaningful line begins with
//! `PIPE` followed by the first stage, continuation lines begin with `|`,
//! a trailing `?` optionally terminates the pipeline, and lines starting
//! with `#` are comments. Stages:
//!
//! - `FILTER pos,len = "value"` / `FILTER pos,len != "value"`
//! - `SELECT srcPos,len,dstPos; srcPos,len,dstPos; ...`
//! - `TAKE n`
//! - `SKIP n`
//!
//! The grammar is defined by spec functions over the text's bytes; the
//! parser is proved to accept exactly that grammar. [`execute_pipeline`]
//! and [`execute_pipeline_rat`] run parsed pipelines over record text with
//! the batch and the record-at-a-time executor; they carry the same
//! contract, because the two executors produce identical output.

use crate::ascii;
use crate::engine::{
    command_to_stage, compile, compile_command, run_batch, Command, CommandModel,
};
use crate::record::{record_of, recs_view, Record};
use crate::semantics::{pipeline_run, stage_run, StageModel};
use vstd::prelude::*;
use vstd::string::StringSliceAdditionalSpecFns;

verus! {

/// The bytes of each piece in a list.
pub open spec fn bytes_list_view(v: Seq<Vec<u8>>) -> Seq<Seq<u8>> {
    v.map_values(|x: Vec<u8>| x@)
}

/// The abstract values of a command list.
pub open spec fn commands_view(v: Seq<Command>) -> Seq<CommandModel> {
    v.map_values(|c: Command| c@)
}

// Keyword bytes.
pub open spec fn kw_filter() -> Seq<u8> {
    seq![70u8, 73u8, 76u8, 84u8, 69u8, 82u8]
}

pub open spec fn kw_select() -> Seq<u8> {
    seq![83u8, 69u8, 76u8, 69u8, 67u8, 84u8]
}

pub open spec fn kw_take() -> Seq<u8> {
    seq![84u8, 65u8, 75u8, 69u8]
}

pub open spec fn kw_skip() -> Seq<u8> {
    seq![83u8, 75u8, 73u8, 80u8]
}

pub open spec fn kw_pipe() -> Seq<u8> {
    seq![80u8, 73u8, 80u8, 69u8]
}

pub open spec fn kw_pipe_sp() -> Seq<u8> {
    seq![80u8, 73u8, 80u8, 69u8, 32u8]
}

pub open spec fn kw_ne() -> Seq<u8> {
    seq![33u8, 61u8]
}

/// The index of the first occurrence of `b` in `s`, or `s.len()` if `b`
/// does not occur.
pub open spec fn first_byte_at(s: Seq<u8>, b: u8) -> int
    decreases s.len(),
{
    if s.len() == 0 {
        0
    } else if s[0] == b {
        0
    } else {
        1 + first_byte_at(s.drop_first(), b)
    }
}

/// The index of the first occurrence of `n` in `h`, or `-1` if `n` does
/// not occur.
pub open spec fn first_sub_at(h: Seq<u8>, n: Seq<u8>) -> int
    decreases h.len(),
{
    if ascii::is_prefix_of(n, h) {
        0
    } else if h.len() == 0 {
        -1
    } else {
        let r = first_sub_at(h.drop_first(), n);
        if r < 0 {
            -1
        } else {
            1 + r
        }
    }
}

pub proof fn lemma_first_byte_at_bounds(s: Seq<u8>, b: u8)
    ensures
        0 <= first_byte_at(s, b) <= s.len(),
        first_byte_at(s, b) < s.len() ==> s[first_byte_at(s, b)] == b,
        forall|j: int| 0 <= j < first_byte_at(s, b) ==> s[j] != b,
    decreases s.len(),
{
    if s.len() > 0 && s[0] != b {
        lemma_first_byte_at_bounds(s.drop_first(), b);
        assert forall|j: int| 0 <= j < first_byte_at(s, b) implies s[j] != b by {
            if j > 0 {
                assert(s.drop_first()[j - 1] == s[j]);
            }
        }
    }
}

/// The characterization of [`first_byte_at`]: a position with no earlier
/// occurrence is the first occurrence.
pub proof fn lemma_first_byte_char(s: Seq<u8>, b: u8, i: int)
    requires
        0 <= i <= s.len(),
        forall|j: int| 0 <= j < i ==> s[j] != b,
        i < s.len() ==> s[i] == b,
    ensures
        first_byte_at(s, b) == i,
    decreases i,
{
    if i == 0 {
    } else {
        assert(s[0] != b);
        lemma_first_byte_char(s.drop_first(), b, i - 1);
    }
}

/// The characterization of [`first_sub_at`] when a match exists.
pub proof fn lemma_first_sub_char(h: Seq<u8>, n: Seq<u8>, i: int)
    requires
        0 <= i,
        i + n.len() <= h.len(),
        h.subrange(i, i + n.len() as int) == n,
        forall|j: int| 0 <= j < i ==> #[trigger] h.subrange(j, j + n.len() as int) != n,
    ensures
        first_sub_at(h, n) == i,
    decreases i,
{
    if i == 0 {
        assert(ascii::is_prefix_of(n, h));
    } else {
        assert(h.subrange(0, 0 + n.len() as int) != n);
        assert(h.subrange(0, n.len() as int) =~= h.subrange(0, 0 + n.len() as int));
        assert(!ascii::is_prefix_of(n, h));
        let t = h.drop_first();
        assert(t.subrange(i - 1, i - 1 + n.len() as int) =~= h.subrange(i, i + n.len() as int));
        assert forall|j: int| 0 <= j < i - 1 implies #[trigger] t.subrange(j, j + n.len() as int)
            != n by {
            assert(t.subrange(j, j + n.len() as int) =~= h.subrange(j + 1, j + 1 + n.len() as int));
        }
        lemma_first_sub_char(t, n, i - 1);
    }
}

/// The characterization of [`first_sub_at`] when no match exists.
pub proof fn lemma_first_sub_none(h: Seq<u8>, n: Seq<u8>)
    requires
        !ascii::contains_sub(h, n),
    ensures
        first_sub_at(h, n) == -1,
    decreases h.len(),
{
    assert(!ascii::is_prefix_of(n, h)) by {
        if ascii::is_prefix_of(n, h) {
            assert(h.subrange(0, 0 + n.len() as int) =~= h.subrange(0, n.len() as int));
            assert(h.subrange(0, 0 + n.len() as int) == n);
            assert(ascii::contains_sub(h, n));
        }
    }
    if h.len() > 0 {
        let t = h.drop_first();
        assert(!ascii::contains_sub(t, n)) by {
            if ascii::contains_sub(t, n) {
                let j = choose|j: int|
                    0 <= j <= t.len() - n.len() && #[trigger] t.subrange(j, j + n.len() as int)
                        == n;
                assert(h.subrange(j + 1, j + 1 + n.len() as int) =~= t.subrange(
                    j,
                    j + n.len() as int,
                ));
            }
        }
        lemma_first_sub_none(t, n);
    }
}

/// One line's content: the fragment before the newline, with one trailing
/// carriage return removed.
pub open spec fn strip_cr(l: Seq<u8>) -> Seq<u8> {
    if l.len() > 0 && l.last() == 13 {
        l.drop_last()
    } else {
        l
    }
}

/// The lines of a text, as `str::lines` splits them: at every newline,
/// with a carriage return before the newline removed; a final line without
/// a newline counts, a trailing newline adds no empty line.
pub open spec fn lines_spec(s: Seq<u8>) -> Seq<Seq<u8>>
    decreases s.len(),
    when true
    via lines_spec_decreases
{
    if s.len() == 0 {
        Seq::empty()
    } else {
        let i = first_byte_at(s, 10);
        if i == s.len() {
            seq![s]
        } else {
            seq![strip_cr(s.take(i))] + lines_spec(s.skip(i + 1))
        }
    }
}

#[via_fn]
proof fn lines_spec_decreases(s: Seq<u8>) {
    lemma_first_byte_at_bounds(s, 10);
}

/// The pieces of `s` split at every occurrence of `sep`: empty pieces
/// included, and the empty input is one empty piece.
pub open spec fn split_spec(s: Seq<u8>, sep: u8) -> Seq<Seq<u8>>
    decreases s.len(),
    when true
    via split_spec_decreases
{
    let i = first_byte_at(s, sep);
    if i == s.len() {
        seq![s]
    } else {
        seq![s.take(i)] + split_spec(s.skip(i + 1), sep)
    }
}

#[via_fn]
proof fn split_spec_decreases(s: Seq<u8>, sep: u8) {
    lemma_first_byte_at_bounds(s, sep);
}

/// `s` with every trailing occurrence of `c` removed, as
/// `str::trim_end_matches` does for a single character.
pub open spec fn strip_trailing(s: Seq<u8>, c: u8) -> Seq<u8>
    decreases s.len(),
{
    if s.len() > 0 && s.last() == c {
        strip_trailing(s.drop_last(), c)
    } else {
        s
    }
}

/// A quoted value: after trimming, at least two characters, the first and
/// last a double quote; the value is what stands between them.
pub open spec fn quoted_spec(s: Seq<u8>) -> Option<Seq<u8>> {
    let t = ascii::trim_spec(s);
    if t.len() >= 2 && t[0] == 34 && t.last() == 34 {
        Some(t.subrange(1, t.len() - 1))
    } else {
        None
    }
}

/// What one raw command line contributes: `None` if the line is skipped
/// (blank, comment, or a bare `PIPE`), otherwise the cleaned command text:
/// trimmed, a leading `PIPE ` or `|` removed, trailing `|` and `?`
/// stripped.
pub open spec fn preprocess(l: Seq<u8>) -> Option<Seq<u8>> {
    let t0 = ascii::trim_spec(l);
    if t0.len() == 0 || t0[0] == 35 {
        None
    } else if !ascii::is_prefix_of(ascii::upper_seq(kw_pipe_sp()), ascii::upper_seq(t0))
        && ascii::upper_seq(t0) == ascii::upper_seq(kw_pipe()) {
        None
    } else {
        let t1 = if ascii::is_prefix_of(ascii::upper_seq(kw_pipe_sp()), ascii::upper_seq(t0)) {
            ascii::trim_spec(t0.skip(5))
        } else {
            t0
        };
        let t2 = if t1.len() > 0 && t1[0] == 124 {
            ascii::trim_spec(t1.drop_first())
        } else {
            t1
        };
        let t3 = ascii::trim_spec(strip_trailing(t2, 124));
        let t4 = ascii::trim_spec(strip_trailing(t3, 63));
        if t4.len() == 0 {
            None
        } else {
            Some(t4)
        }
    }
}

/// The `pos,len` and value parts of a filter line, parsed.
pub open spec fn filter_parts_spec(fp: Seq<u8>, vp: Seq<u8>, eq: bool) -> Option<CommandModel> {
    let parts = split_spec(fp, 44);
    if parts.len() != 2 {
        None
    } else {
        match ascii::parse_usize_spec(ascii::trim_spec(parts[0])) {
            Some(pos) => match ascii::parse_usize_spec(ascii::trim_spec(parts[1])) {
                Some(len) => match quoted_spec(vp) {
                    Some(v) => if eq {
                        Some(CommandModel::FilterEq { pos, len, value: v })
                    } else {
                        Some(CommandModel::FilterNe { pos, len, value: v })
                    },
                    None => None,
                },
                None => None,
            },
            None => None,
        }
    }
}

/// A `FILTER` line: `FILTER pos,len = "value"` keeps matching records,
/// `FILTER pos,len != "value"` keeps the others; the first `!=` (or
/// failing that, the first `=`) is the operator.
pub open spec fn parse_filter_spec(l: Seq<u8>) -> Option<CommandModel> {
    let rest = ascii::trim_spec(l.skip(6));
    let ni = first_sub_at(rest, kw_ne());
    if ni >= 0 {
        filter_parts_spec(
            ascii::trim_spec(rest.take(ni)),
            ascii::trim_spec(rest.skip(ni + 2)),
            false,
        )
    } else {
        let ei = first_byte_at(rest, 61);
        if ei == rest.len() {
            None
        } else {
            filter_parts_spec(
                ascii::trim_spec(rest.take(ei)),
                ascii::trim_spec(rest.skip(ei + 1)),
                true,
            )
        }
    }
}

/// The field list of a `SELECT` line: semicolon-separated
/// `src,len,dst` triples; blank pieces are skipped.
pub open spec fn select_fields_spec(specs: Seq<Seq<u8>>) -> Option<Seq<(usize, usize, usize)>>
    decreases specs.len(),
{
    if specs.len() == 0 {
        Some(Seq::empty())
    } else {
        let sp = ascii::trim_spec(specs.first());
        if sp.len() == 0 {
            select_fields_spec(specs.drop_first())
        } else {
            let parts = split_spec(sp, 44);
            if parts.len() != 3 {
                None
            } else {
                match ascii::parse_usize_spec(ascii::trim_spec(parts[0])) {
                    Some(src) => match ascii::parse_usize_spec(ascii::trim_spec(parts[1])) {
                        Some(len) => match ascii::parse_usize_spec(ascii::trim_spec(parts[2])) {
                            Some(dst) => match select_fields_spec(specs.drop_first()) {
                                Some(fs) => Some(seq![(src, len, dst)] + fs),
                                None => None,
                            },
                            None => None,
                        },
                        None => None,
                    },
                    None => None,
                }
            }
        }
    }
}

/// A `SELECT` line: at least one field triple.
pub open spec fn parse_select_spec(l: Seq<u8>) -> Option<CommandModel> {
    let rest = ascii::trim_spec(l.skip(6));
    match select_fields_spec(split_spec(rest, 59)) {
        Some(fs) => if fs.len() == 0 {
            None
        } else {
            Some(CommandModel::Select { fields: fs })
        },
        None => None,
    }
}

/// A `TAKE n` line.
pub open spec fn parse_take_spec(l: Seq<u8>) -> Option<CommandModel> {
    match ascii::parse_usize_spec(ascii::trim_spec(l.skip(4))) {
        Some(n) => Some(CommandModel::Take { n }),
        None => None,
    }
}

/// A `SKIP n` line.
pub open spec fn parse_skip_spec(l: Seq<u8>) -> Option<CommandModel> {
    match ascii::parse_usize_spec(ascii::trim_spec(l.skip(4))) {
        Some(n) => Some(CommandModel::Skip { n }),
        None => None,
    }
}

/// One cleaned command line: dispatched on its (case-insensitive)
/// keyword.
pub open spec fn parse_command_spec(l: Seq<u8>) -> Option<CommandModel> {
    let u = ascii::upper_seq(l);
    if ascii::is_prefix_of(kw_filter(), u) {
        parse_filter_spec(l)
    } else if ascii::is_prefix_of(kw_select(), u) {
        parse_select_spec(l)
    } else if ascii::is_prefix_of(kw_take(), u) {
        parse_take_spec(l)
    } else if ascii::is_prefix_of(kw_skip(), u) {
        parse_skip_spec(l)
    } else {
        None
    }
}

/// The commands of a line list: skipped lines contribute nothing, one bad
/// line fails the whole text.
pub open spec fn commands_of_lines(ls: Seq<Seq<u8>>) -> Option<Seq<CommandModel>>
    decreases ls.len(),
{
    if ls.len() == 0 {
        Some(Seq::empty())
    } else {
        match preprocess(ls.first()) {
            None => commands_of_lines(ls.drop_first()),
            Some(cl) => match parse_command_spec(cl) {
                None => None,
                Some(c) => match commands_of_lines(ls.drop_first()) {
                    Some(cs) => Some(seq![c] + cs),
                    None => None,
                },
            },
        }
    }
}

/// What a whole command text denotes: its commands, or nothing if any
/// line is malformed.
pub open spec fn parse_commands_spec(bytes: Seq<u8>) -> Option<Seq<CommandModel>> {
    commands_of_lines(lines_spec(bytes))
}

/// A parsed filter value matches the grammar's value whenever the value
/// is ASCII text. (A non-ASCII quoted value reaches the command through a
/// UTF-8 decode the contracts do not follow; such a value can never equal
/// an ASCII record field anyway.)
pub open spec fn value_matches(spec_v: Seq<u8>, actual: Seq<u8>) -> bool {
    ascii::is_ascii_seq(spec_v) ==> actual == spec_v
}

/// A parsed command matches what the grammar says, exactly but for
/// non-ASCII filter values.
pub open spec fn command_matches(m: CommandModel, c: CommandModel) -> bool {
    match m {
        CommandModel::FilterEq { pos, len, value } => c matches CommandModel::FilterEq {
            pos: p2,
            len: l2,
            value: v2,
        } && p2 == pos && l2 == len && value_matches(value, v2),
        CommandModel::FilterNe { pos, len, value } => c matches CommandModel::FilterNe {
            pos: p2,
            len: l2,
            value: v2,
        } && p2 == pos && l2 == len && value_matches(value, v2),
        CommandModel::Select { fields } => c matches CommandModel::Select { fields: f2 } && f2
            == fields,
        CommandModel::Take { n } => c matches CommandModel::Take { n: n2 } && n2 == n,
        CommandModel::Skip { n } => c matches CommandModel::Skip { n: n2 } && n2 == n,
    }
}

pub open spec fn commands_match(ms: Seq<CommandModel>, cs: Seq<CommandModel>) -> bool {
    ms.len() == cs.len() && forall|i: int|
        0 <= i < ms.len() ==> command_matches(#[trigger] ms[i], cs[i])
}

/// Whether a parse result is what the grammar says: success exactly on
/// well-formed input, with the parsed command matching.
pub open spec fn cmd_result_matches(m: Option<CommandModel>, r: Result<Command, String>) -> bool {
    match r {
        Ok(c) => m matches Some(mc) && command_matches(mc, c@),
        Err(_) => m is None,
    }
}

pub open spec fn cmds_result_matches(
    m: Option<Seq<CommandModel>>,
    r: Result<Vec<Command>, String>,
) -> bool {
    match r {
        Ok(cs) => m matches Some(ms) && commands_match(ms, commands_view(cs@)),
        Err(_) => m is None,
    }
}

/// What a whole executor run denotes: success exactly when the command
/// text parses; on success the output text, the input record count, and
/// the output record count, with the output records computed by the
/// pipeline's reference semantics. Both executors carry this same
/// contract.
pub open spec fn execute_result_matches(
    ib: Seq<u8>,
    pb: Seq<u8>,
    r: Result<(String, usize, usize), String>,
) -> bool {
    match r {
        Ok(res) => parse_commands_spec(pb) matches Some(ms) && exists|cs: Seq<CommandModel>|
            {
                &&& #[trigger] commands_match(ms, cs)
                &&& ({
                    let outs = pipeline_run(
                        cs.map_values(|c: CommandModel| command_to_stage(c)),
                        input_records_spec(ib),
                    );
                    &&& res.0@ == ascii::ascii_chars_of(output_text_spec(outs))
                    &&& res.1 == input_records_spec(ib).len()
                    &&& res.2 == outs.len()
                })
            },
        Err(_) => parse_commands_spec(pb) is None,
    }
}

/// The input records a record text denotes: one record per non-empty
/// line.
pub open spec fn input_records_spec(bytes: Seq<u8>) -> Seq<Seq<u8>> {
    records_of_lines(lines_spec(bytes))
}

pub open spec fn records_of_lines(ls: Seq<Seq<u8>>) -> Seq<Seq<u8>>
    decreases ls.len(),
{
    if ls.len() == 0 {
        Seq::empty()
    } else {
        let rest = records_of_lines(ls.drop_last());
        if ls.last().len() > 0 {
            rest.push(record_of(ls.last()))
        } else {
            rest
        }
    }
}

/// The output text of a record stream: each record trimmed of trailing
/// whitespace, joined with newlines.
pub open spec fn output_text_spec(outs: Seq<Seq<u8>>) -> Seq<u8> {
    join_nl(outs.map_values(|r: Seq<u8>| ascii::trim_end_spec(r)))
}

pub open spec fn join_nl(rs: Seq<Seq<u8>>) -> Seq<u8>
    decreases rs.len(),
{
    if rs.len() == 0 {
        Seq::empty()
    } else {
        let rest = join_nl(rs.drop_last());
        if rs.len() == 1 {
            rs.last()
        } else {
            rest + seq![10u8] + rs.last()
        }
    }
}

// ---- executable keyword values ----

fn kw_filter_vec() -> (r: Vec<u8>)
    ensures
        r@ == kw_filter(),
{
    let mut v: Vec<u8> = Vec::new();
    v.push(70u8);
    v.push(73u8);
    v.push(76u8);
    v.push(84u8);
    v.push(69u8);
    v.push(82u8);
    proof {
        assert(v@ =~= kw_filter());
    }
    v
}

fn kw_select_vec() -> (r: Vec<u8>)
    ensures
        r@ == kw_select(),
{
    let mut v: Vec<u8> = Vec::new();
    v.push(83u8);
    v.push(69u8);
    v.push(76u8);
    v.push(69u8);
    v.push(67u8);
    v.push(84u8);
    proof {
        assert(v@ =~= kw_select());
    }
    v
}

fn kw_take_vec() -> (r: Vec<u8>)
    ensures
        r@ == kw_take(),
{
    let mut v: Vec<u8> = Vec::new();
    v.push(84u8);
    v.push(65u8);
    v.push(75u8);
    v.push(69u8);
    proof {
        assert(v@ =~= kw_take());
    }
    v
}

fn kw_skip_vec() -> (r: Vec<u8>)
    ensures
        r@ == kw_skip(),
{
    let mut v: Vec<u8> = Vec::new();
    v.push(83u8);
    v.push(75u8);
    v.push(73u8);
    v.push(80u8);
    proof {
        assert(v@ =~= kw_skip());
    }
    v
}

fn kw_pipe_vec() -> (r: Vec<u8>)
    ensures
        r@ == kw_pipe(),
{
    let mut v: Vec<u8> = Vec::new();
    v.push(80u8);
    v.push(73u8);
    v.push(80u8);
    v.push(69u8);
    proof {
        assert(v@ =~= kw_pipe());
    }
    v
}

fn kw_pipe_sp_vec() -> (r: Vec<u8>)
    ensures
        r@ == kw_pipe_sp(),
{
    let mut v: Vec<u8> = Vec::new();
    v.push(80u8);
    v.push(73u8);
    v.push(80u8);
    v.push(69u8);
    v.push(32u8);
    proof {
        assert(v@ =~= kw_pipe_sp());
    }
    v
}

fn kw_ne_vec() -> (r: Vec<u8>)
    ensures
        r@ == kw_ne(),
{
    let mut v: Vec<u8> = Vec::new();
    v.push(33u8);
    v.push(61u8);
    proof {
        assert(v@ =~= kw_ne());
    }
    v
}

// ---- executable text helpers ----

/// The first occurrence of `b` in `s` at or after `from`, or the length.
fn find_byte(s: &[u8], from: usize, b: u8) -> (r: usize)
    requires
        from <= s@.len(),
    ensures
        from <= r <= s@.len(),
        forall|j: int| from <= j < r ==> s@[j] != b,
        r < s@.len() ==> s@[r as int] == b,
{
    let n: usize = s.len();
    let mut i: usize = from;
    while i < n
        invariant
            from <= i <= n == s@.len(),
            forall|j: int| from <= j < i ==> s@[j] != b,
        decreases n - i,
    {
        if s[i] == b {
            return i;
        }
        i = i + 1;
    }
    i
}

/// Splits a text into its lines.
fn split_lines(s: &[u8]) -> (r: Vec<Vec<u8>>)
    ensures
        bytes_list_view(r@) == lines_spec(s@),
{
    let r = split_lines_from(s, 0);
    proof {
        assert(s@.skip(0int) =~= s@);
    }
    r
}

fn split_lines_from(s: &[u8], from: usize) -> (r: Vec<Vec<u8>>)
    requires
        from <= s@.len(),
    ensures
        bytes_list_view(r@) == lines_spec(s@.skip(from as int)),
    decreases s@.len() - from,
{
    let n: usize = s.len();
    let ghost t = s@.skip(from as int);
    if from == n {
        let r: Vec<Vec<u8>> = Vec::new();
        proof {
            assert(t.len() == 0);
            assert(bytes_list_view(r@) =~= lines_spec(t));
        }
        return r;
    }
    let i = find_byte(s, from, 10);
    proof {
        assert forall|j: int| 0 <= j < i - from implies t[j] != 10 by {
            assert(t[j] == s@[from + j]);
        }
        if i < n {
            assert(t[i - from] == s@[i as int]);
        }
        lemma_first_byte_char(t, 10, i - from);
    }
    if i == n {
        let line = ascii::subrange_copy(s, from, n);
        let mut r: Vec<Vec<u8>> = Vec::new();
        r.push(line);
        proof {
            assert(t =~= s@.subrange(from as int, n as int));
            assert(bytes_list_view(r@) =~= seq![t]);
        }
        r
    } else {
        let end: usize = if i > from && s[i - 1] == 13 {
            i - 1
        } else {
            i
        };
        let line = ascii::subrange_copy(s, from, end);
        let ghost line_v = line@;
        let mut rest = split_lines_from(s, i + 1);
        let ghost rest_v = bytes_list_view(rest@);
        rest.insert(0, line);
        proof {
            assert(t.take(i - from) =~= s@.subrange(from as int, i as int));
            if i > from && s@[i as int - 1] == 13 {
                assert(t.take(i - from).last() == s@[i as int - 1]);
                assert(t.take(i - from).drop_last() =~= s@.subrange(from as int, end as int));
            }
            assert(strip_cr(t.take(i - from)) =~= line_v);
            assert(t.skip(i - from + 1) =~= s@.skip(i as int + 1));
            assert(bytes_list_view(rest@) =~= seq![line_v] + rest_v);
            assert(lines_spec(t) == seq![strip_cr(t.take(i - from))] + lines_spec(
                t.skip(i - from + 1),
            ));
        }
        rest
    }
}

/// Splits a slice at every occurrence of `sep`.
fn split_on(s: &[u8], sep: u8) -> (r: Vec<Vec<u8>>)
    ensures
        bytes_list_view(r@) == split_spec(s@, sep),
{
    let r = split_on_from(s, 0, sep);
    proof {
        assert(s@.skip(0int) =~= s@);
    }
    r
}

fn split_on_from(s: &[u8], from: usize, sep: u8) -> (r: Vec<Vec<u8>>)
    requires
        from <= s@.len(),
    ensures
        bytes_list_view(r@) == split_spec(s@.skip(from as int), sep),
    decreases s@.len() - from,
{
    let n: usize = s.len();
    let ghost t = s@.skip(from as int);
    let i = find_byte(s, from, sep);
    proof {
        assert forall|j: int| 0 <= j < i - from implies t[j] != sep by {
            assert(t[j] == s@[from + j]);
        }
        if i < n {
            assert(t[i - from] == s@[i as int]);
        }
        lemma_first_byte_char(t, sep, i - from);
    }
    if i == n {
        let piece = ascii::subrange_copy(s, from, n);
        let mut r: Vec<Vec<u8>> = Vec::new();
        r.push(piece);
        proof {
            assert(t =~= s@.subrange(from as int, n as int));
            assert(bytes_list_view(r@) =~= seq![t]);
        }
        r
    } else {
        let piece = ascii::subrange_copy(s, from, i);
        let ghost piece_v = piece@;
        let mut rest = split_on_from(s, i + 1, sep);
        let ghost rest_v = bytes_list_view(rest@);
        rest.insert(0, piece);
        proof {
            assert(t.take(i - from) =~= s@.subrange(from as int, i as int));
            assert(t.skip(i - from + 1) =~= s@.skip(i as int + 1));
            assert(bytes_list_view(rest@) =~= seq![piece_v] + rest_v);
            assert(split_spec(t, sep) == seq![t.take(i - from)] + split_spec(
                t.skip(i - from + 1),
                sep,
            ));
        }
        rest
    }
}

/// Copies `s` with every trailing occurrence of `c` removed.
fn strip_trailing_copy(s: &[u8], c: u8) -> (r: Vec<u8>)
    ensures
        r@ == strip_trailing(s@, c),
{
    let n: usize = s.len();
    let mut end: usize = n;
    proof {
        assert(s@.take(n as int) =~= s@);
    }
    while end > 0 && s[end - 1] == c
        invariant
            0 <= end <= n == s@.len(),
            strip_trailing(s@.take(end as int), c) == strip_trailing(s@, c),
        decreases end,
    {
        proof {
            assert(s@.take(end as int).last() == s@[end as int - 1]);
            assert(s@.take(end as int).drop_last() =~= s@.take(end as int - 1));
        }
        end = end - 1;
    }
    proof {
        if end > 0 {
            assert(s@.take(end as int).last() == s@[end as int - 1]);
        }
        assert(strip_trailing(s@.take(end as int), c) == s@.take(end as int));
        assert(s@.take(end as int) =~= s@.subrange(0, end as int));
    }
    ascii::subrange_copy(s, 0, end)
}

/// Builds an error message around an echoed piece of the input.
fn echo_err(prefix: &str, payload: &[u8], suffix: &str) -> (r: String) {
    let mut s = String::new();
    s.append(prefix);
    let p = ascii::bytes_to_string(payload);
    s.append(p.as_str());
    s.append(suffix);
    s
}

/// Cleans one raw command line, or decides it contributes nothing.
fn preprocess_line(line: &[u8]) -> (r: Option<Vec<u8>>)
    ensures
        match r {
            Some(v) => preprocess(line@) == Some(v@),
            None => preprocess(line@) is None,
        },
{
    let t0 = ascii::trim_copy(line);
    if t0.len() == 0 {
        return None;
    }
    if t0[0] == 35 {
        return None;
    }
    let pipe_sp = kw_pipe_sp_vec();
    let has_pipe_prefix = ascii::starts_with_ci(t0.as_slice(), pipe_sp.as_slice());
    if !has_pipe_prefix {
        let pipe = kw_pipe_vec();
        if ascii::eq_ignore_case(t0.as_slice(), pipe.as_slice()) {
            return None;
        }
    }
    let t1: Vec<u8> = if has_pipe_prefix {
        proof {
            assert(ascii::upper_seq(t0@).len() == t0@.len());
        }
        let sliced = ascii::subrange_copy(t0.as_slice(), 5, t0.len());
        proof {
            assert(sliced@ =~= t0@.skip(5));
        }
        ascii::trim_copy(sliced.as_slice())
    } else {
        t0
    };
    let t2: Vec<u8> = if t1.len() > 0 && t1[0] == 124 {
        let sliced = ascii::subrange_copy(t1.as_slice(), 1, t1.len());
        proof {
            assert(sliced@ =~= t1@.drop_first());
        }
        ascii::trim_copy(sliced.as_slice())
    } else {
        t1
    };
    let s3 = strip_trailing_copy(t2.as_slice(), 124);
    let t3 = ascii::trim_copy(s3.as_slice());
    let s4 = strip_trailing_copy(t3.as_slice(), 63);
    let t4 = ascii::trim_copy(s4.as_slice());
    if t4.len() == 0 {
        None
    } else {
        Some(t4)
    }
}

// ---- the parser ----

/// Whether a quoted-value parse is what the grammar says.
pub open spec fn quoted_result_matches(m: Option<Seq<u8>>, r: Result<String, String>) -> bool {
    match r {
        Ok(v) => m matches Some(inner) && value_matches(inner, vstd::utf8::encode_utf8(v@)),
        Err(_) => m is None,
    }
}

/// Parses a quoted string value: the text between the surrounding double
/// quotes.
pub fn parse_quoted_string(s: &str) -> (r: Result<String, String>)
    ensures
        quoted_result_matches(quoted_spec(s.spec_bytes()), r),
{
    parse_quoted_bytes(s.as_bytes())
}

fn parse_quoted_bytes(s: &[u8]) -> (r: Result<String, String>)
    ensures
        quoted_result_matches(quoted_spec(s@), r),
{
    let t = ascii::trim_copy(s);
    let n: usize = t.len();
    if n >= 2 && t[0] == 34 && t[n - 1] == 34 {
        let inner = ascii::subrange_copy(t.as_slice(), 1, n - 1);
        let v = ascii::bytes_to_string(inner.as_slice());
        proof {
            if ascii::is_ascii_seq(inner@) {
                ascii::lemma_encode_ascii(inner@);
            }
        }
        Ok(v)
    } else {
        Err(echo_err("Value must be quoted: ", s, ""))
    }
}

/// Parses the `pos,len` part and the quoted value of a filter.
fn filter_parts(fp: &[u8], vp: &[u8], eq: bool) -> (r: Result<Command, String>)
    ensures
        cmd_result_matches(filter_parts_spec(fp@, vp@, eq), r),
{
    let parts = split_on(fp, 44);
    if parts.len() != 2 {
        return Err("FILTER requires pos,len before operator".to_owned());
    }
    let p0 = ascii::trim_copy(parts[0].as_slice());
    let pos = match ascii::parse_usize(p0.as_slice()) {
        Some(p) => p,
        None => {
            return Err("Invalid position number".to_owned());
        },
    };
    let p1 = ascii::trim_copy(parts[1].as_slice());
    let len = match ascii::parse_usize(p1.as_slice()) {
        Some(v) => v,
        None => {
            return Err("Invalid length number".to_owned());
        },
    };
    let value = match parse_quoted_bytes(vp) {
        Ok(v) => v,
        Err(e) => {
            return Err(e);
        },
    };
    if eq {
        Ok(Command::FilterEq { pos, len, value })
    } else {
        Ok(Command::FilterNe { pos, len, value })
    }
}

fn parse_filter_bytes(l: &[u8]) -> (r: Result<Command, String>)
    requires
        l@.len() >= 6,
    ensures
        cmd_result_matches(parse_filter_spec(l@), r),
{
    let sliced = ascii::subrange_copy(l, 6, l.len());
    proof {
        assert(sliced@ =~= l@.skip(6));
    }
    let rest = ascii::trim_copy(sliced.as_slice());
    let ne = kw_ne_vec();
    match ascii::find_sub(rest.as_slice(), ne.as_slice()) {
        Some(idx) => {
            proof {
                lemma_first_sub_char(rest@, kw_ne(), idx as int);
            }
            proof {
                assert(kw_ne().len() == 2);
                assert(idx + kw_ne().len() <= rest@.len());
                assert(idx + 2 <= rest@.len());
            }
            let a = ascii::subrange_copy(rest.as_slice(), 0, idx);
            proof {
                assert(a@ =~= rest@.take(idx as int));
            }
            let fp = ascii::trim_copy(a.as_slice());
            let rn: usize = rest.len();
            let b = ascii::subrange_copy(rest.as_slice(), idx + 2, rn);
            proof {
                assert(b@ =~= rest@.skip(idx as int + 2));
            }
            let vp = ascii::trim_copy(b.as_slice());
            filter_parts(fp.as_slice(), vp.as_slice(), false)
        },
        None => {
            proof {
                lemma_first_sub_none(rest@, kw_ne());
            }
            let ei = find_byte(rest.as_slice(), 0, 61);
            proof {
                lemma_first_byte_char(rest@, 61, ei as int);
            }
            if ei == rest.len() {
                Err("FILTER requires = or != operator".to_owned())
            } else {
                let a = ascii::subrange_copy(rest.as_slice(), 0, ei);
                proof {
                    assert(a@ =~= rest@.take(ei as int));
                }
                let fp = ascii::trim_copy(a.as_slice());
                let b = ascii::subrange_copy(rest.as_slice(), ei + 1, rest.len());
                proof {
                    assert(b@ =~= rest@.skip(ei as int + 1));
                }
                let vp = ascii::trim_copy(b.as_slice());
                filter_parts(fp.as_slice(), vp.as_slice(), true)
            }
        },
    }
}

/// Parses a `FILTER` command line.
pub fn parse_filter(line: &str) -> (r: Result<Command, String>)
    requires
        line.spec_bytes().len() >= 6,
    ensures
        cmd_result_matches(parse_filter_spec(line.spec_bytes()), r),
{
    parse_filter_bytes(line.as_bytes())
}

fn select_fields_from(pieces: &Vec<Vec<u8>>, from: usize) -> (r: Result<
    Vec<(usize, usize, usize)>,
    String,
>)
    requires
        from <= pieces@.len(),
    ensures
        match r {
            Ok(fs) => select_fields_spec(bytes_list_view(pieces@).skip(from as int)) == Some(fs@),
            Err(_) => select_fields_spec(bytes_list_view(pieces@).skip(from as int)) is None,
        },
    decreases pieces@.len() - from,
{
    let n: usize = pieces.len();
    let ghost ls = bytes_list_view(pieces@).skip(from as int);
    if from == n {
        let r: Vec<(usize, usize, usize)> = Vec::new();
        proof {
            assert(ls.len() == 0);
            assert(r@ =~= Seq::<(usize, usize, usize)>::empty());
        }
        return Ok(r);
    }
    proof {
        assert(ls.first() == pieces@[from as int]@);
        assert(ls.drop_first() =~= bytes_list_view(pieces@).skip(from as int + 1));
    }
    let sp = ascii::trim_copy(pieces[from].as_slice());
    if sp.len() == 0 {
        return select_fields_from(pieces, from + 1);
    }
    let parts = split_on(sp.as_slice(), 44);
    if parts.len() != 3 {
        return Err(echo_err("SELECT field '", sp.as_slice(), "' requires src_pos,len,dest_pos"));
    }
    let q0 = ascii::trim_copy(parts[0].as_slice());
    let src = match ascii::parse_usize(q0.as_slice()) {
        Some(v) => v,
        None => {
            return Err(echo_err("Invalid source position in '", sp.as_slice(), "'"));
        },
    };
    let q1 = ascii::trim_copy(parts[1].as_slice());
    let flen = match ascii::parse_usize(q1.as_slice()) {
        Some(v) => v,
        None => {
            return Err(echo_err("Invalid length in '", sp.as_slice(), "'"));
        },
    };
    let q2 = ascii::trim_copy(parts[2].as_slice());
    let dst = match ascii::parse_usize(q2.as_slice()) {
        Some(v) => v,
        None => {
            return Err(echo_err("Invalid destination position in '", sp.as_slice(), "'"));
        },
    };
    let rest = match select_fields_from(pieces, from + 1) {
        Ok(fs) => fs,
        Err(e) => {
            return Err(e);
        },
    };
    let mut out = rest;
    out.insert(0, (src, flen, dst));
    proof {
        assert(out@ =~= seq![(src, flen, dst)] + out@.drop_first());
    }
    Ok(out)
}

fn parse_select_bytes(l: &[u8]) -> (r: Result<Command, String>)
    requires
        l@.len() >= 6,
    ensures
        cmd_result_matches(parse_select_spec(l@), r),
{
    let sliced = ascii::subrange_copy(l, 6, l.len());
    proof {
        assert(sliced@ =~= l@.skip(6));
    }
    let rest = ascii::trim_copy(sliced.as_slice());
    let pieces = split_on(rest.as_slice(), 59);
    proof {
        assert(bytes_list_view(pieces@).skip(0int) =~= bytes_list_view(pieces@));
    }
    match select_fields_from(&pieces, 0) {
        Ok(fields) => {
            if fields.len() == 0 {
                Err("SELECT requires at least one field specification".to_owned())
            } else {
                Ok(Command::Select { fields })
            }
        },
        Err(e) => Err(e),
    }
}

/// Parses a `SELECT` command line.
pub fn parse_select(line: &str) -> (r: Result<Command, String>)
    requires
        line.spec_bytes().len() >= 6,
    ensures
        cmd_result_matches(parse_select_spec(line.spec_bytes()), r),
{
    parse_select_bytes(line.as_bytes())
}

fn parse_take_bytes(l: &[u8]) -> (r: Result<Command, String>)
    requires
        l@.len() >= 4,
    ensures
        cmd_result_matches(parse_take_spec(l@), r),
{
    let sliced = ascii::subrange_copy(l, 4, l.len());
    proof {
        assert(sliced@ =~= l@.skip(4));
    }
    let rest = ascii::trim_copy(sliced.as_slice());
    match ascii::parse_usize(rest.as_slice()) {
        Some(n) => Ok(Command::Take { n }),
        None => Err("TAKE requires a number".to_owned()),
    }
}

/// Parses a `TAKE` command line.
pub fn parse_take(line: &str) -> (r: Result<Command, String>)
    requires
        line.spec_bytes().len() >= 4,
    ensures
        cmd_result_matches(parse_take_spec(line.spec_bytes()), r),
{
    parse_take_bytes(line.as_bytes())
}

fn parse_skip_bytes(l: &[u8]) -> (r: Result<Command, String>)
    requires
        l@.len() >= 4,
    ensures
        cmd_result_matches(parse_skip_spec(l@), r),
{
    let sliced = ascii::subrange_copy(l, 4, l.len());
    proof {
        assert(sliced@ =~= l@.skip(4));
    }
    let rest = ascii::trim_copy(sliced.as_slice());
    match ascii::parse_usize(rest.as_slice()) {
        Some(n) => Ok(Command::Skip { n }),
        None => Err("SKIP requires a number".to_owned()),
    }
}

/// Parses a `SKIP` command line.
pub fn parse_skip(line: &str) -> (r: Result<Command, String>)
    requires
        line.spec_bytes().len() >= 4,
    ensures
        cmd_result_matches(parse_skip_spec(line.spec_bytes()), r),
{
    parse_skip_bytes(line.as_bytes())
}

/// The keyword-uppercase sequences are their own upper case.
proof fn lemma_keywords_upper()
    ensures
        ascii::upper_seq(kw_filter()) == kw_filter(),
        ascii::upper_seq(kw_select()) == kw_select(),
        ascii::upper_seq(kw_take()) == kw_take(),
        ascii::upper_seq(kw_skip()) == kw_skip(),
{
    assert(ascii::upper_seq(kw_filter()) =~= kw_filter());
    assert(ascii::upper_seq(kw_select()) =~= kw_select());
    assert(ascii::upper_seq(kw_take()) =~= kw_take());
    assert(ascii::upper_seq(kw_skip()) =~= kw_skip());
}

fn parse_command_bytes(l: &[u8]) -> (r: Result<Command, String>)
    ensures
        cmd_result_matches(parse_command_spec(l@), r),
{
    proof {
        lemma_keywords_upper();
        assert(ascii::upper_seq(l@).len() == l@.len());
    }
    let f = kw_filter_vec();
    if ascii::starts_with_ci(l, f.as_slice()) {
        return parse_filter_bytes(l);
    }
    let sel = kw_select_vec();
    if ascii::starts_with_ci(l, sel.as_slice()) {
        return parse_select_bytes(l);
    }
    let tk = kw_take_vec();
    if ascii::starts_with_ci(l, tk.as_slice()) {
        return parse_take_bytes(l);
    }
    let sk = kw_skip_vec();
    if ascii::starts_with_ci(l, sk.as_slice()) {
        return parse_skip_bytes(l);
    }
    // Echo the first whitespace-separated token, or the whole line.
    let start = ascii::trim_start_idx(l);
    if start == l.len() {
        Err(echo_err("Unknown command: ", l, ""))
    } else {
        let end = first_space_at(l, start);
        let token = ascii::subrange_copy(l, start, end);
        Err(echo_err("Unknown command: ", token.as_slice(), ""))
    }
}

/// The first whitespace at or after `from`, or the length.
fn first_space_at(s: &[u8], from: usize) -> (r: usize)
    requires
        from <= s@.len(),
    ensures
        from <= r <= s@.len(),
{
    let n: usize = s.len();
    let mut i: usize = from;
    while i < n
        invariant
            from <= i <= n == s@.len(),
        decreases n - i,
    {
        let b: u8 = s[i];
        if b == 32 || (9 <= b && b <= 13) {
            return i;
        }
        i = i + 1;
    }
    i
}

/// Parses a single command line, dispatching on its keyword.
pub fn parse_command(line: &str) -> (r: Result<Command, String>)
    ensures
        cmd_result_matches(parse_command_spec(line.spec_bytes()), r),
{
    parse_command_bytes(line.as_bytes())
}

fn parse_commands_from(lines: &Vec<Vec<u8>>, from: usize) -> (r: Result<Vec<Command>, String>)
    requires
        from <= lines@.len(),
    ensures
        cmds_result_matches(commands_of_lines(bytes_list_view(lines@).skip(from as int)), r),
    decreases lines@.len() - from,
{
    let n: usize = lines.len();
    let ghost ls = bytes_list_view(lines@).skip(from as int);
    if from == n {
        let r: Vec<Command> = Vec::new();
        proof {
            assert(ls.len() == 0);
            assert(commands_view(r@) =~= Seq::<CommandModel>::empty());
        }
        return Ok(r);
    }
    proof {
        assert(ls.first() == lines@[from as int]@);
        assert(ls.drop_first() =~= bytes_list_view(lines@).skip(from as int + 1));
    }
    match preprocess_line(lines[from].as_slice()) {
        None => parse_commands_from(lines, from + 1),
        Some(cl) => {
            match parse_command_bytes(cl.as_slice()) {
                Ok(c) => {
                    let rest = match parse_commands_from(lines, from + 1) {
                        Ok(cs) => cs,
                        Err(e) => {
                            return Err(e);
                        },
                    };
                    let ghost rest_v = commands_view(rest@);
                    let ghost cv = c@;
                    let mut out = rest;
                    out.insert(0, c);
                    proof {
                        assert(commands_view(out@) =~= seq![cv] + rest_v);
                    }
                    Ok(out)
                },
                Err(e) => {
                    let mut msg = String::new();
                    msg.append("Line ");
                    let num = crate::error::dec_string(from + 1);
                    msg.append(num.as_str());
                    msg.append(": ");
                    msg.append(e.as_str());
                    Err(msg)
                },
            }
        },
    }
}

/// Parses a whole command text: every meaningful line becomes one
/// command; the first malformed line fails the parse, reported with its
/// 1-based line number.
pub fn parse_commands(text: &str) -> (r: Result<Vec<Command>, String>)
    ensures
        cmds_result_matches(parse_commands_spec(text.spec_bytes()), r),
{
    let lines = split_lines(text.as_bytes());
    proof {
        assert(bytes_list_view(lines@).skip(0int) =~= bytes_list_view(lines@));
    }
    parse_commands_from(&lines, 0)
}

// ---- applying commands ----

/// Applies a single command to a record stream: the records a fresh stage
/// compiled from the command emits. Commands are structurally valid by
/// construction, so this never fails.
pub fn apply_command(records: Vec<Record>, command: &Command) -> (r: Result<Vec<Record>, String>)
    ensures
        r matches Ok(out) && recs_view(out@) == stage_run(
            command_to_stage(command@),
            recs_view(records@),
        ),
{
    let mut stage = compile_command(command);
    let out = crate::engine::run_stage(&mut stage, &records);
    Ok(out)
}

/// Applies a command list in order, each command's output feeding the
/// next: batch execution of the compiled pipeline.
pub fn apply_commands(records: Vec<Record>, commands: &Vec<Command>) -> (r: Result<
    Vec<Record>,
    String,
>)
    ensures
        r matches Ok(out) && recs_view(out@) == pipeline_run(
            commands_view(commands@).map_values(|c: CommandModel| command_to_stage(c)),
            recs_view(records@),
        ),
{
    let pipeline = compile(commands);
    let out = run_batch(&pipeline, records);
    proof {
        assert(commands@.map_values(|c: Command| command_to_stage(c@)) =~= commands_view(
            commands@,
        ).map_values(|c: CommandModel| command_to_stage(c)));
    }
    Ok(out)
}

// ---- the executor entry points ----

/// Reads the input records: one per non-empty line.
fn read_input_records(text: &str) -> (r: Vec<Record>)
    ensures
        recs_view(r@) == input_records_spec(text.spec_bytes()),
{
    let lines = split_lines(text.as_bytes());
    let ghost ls = bytes_list_view(lines@);
    let mut out: Vec<Record> = Vec::new();
    let mut i: usize = 0;
    let n: usize = lines.len();
    proof {
        assert(ls.take(0int) =~= Seq::<Seq<u8>>::empty());
        assert(recs_view(out@) =~= records_of_lines(ls.take(0int)));
    }
    while i < n
        invariant
            0 <= i <= n == lines@.len(),
            ls == bytes_list_view(lines@),
            recs_view(out@) == records_of_lines(ls.take(i as int)),
        decreases n - i,
    {
        if lines[i].len() > 0 {
            let rec = Record::from_bytes(lines[i].as_slice());
            out.push(rec);
        }
        i = i + 1;
        proof {
            assert(ls.take(i as int).drop_last() =~= ls.take(i as int - 1));
            assert(ls.take(i as int).last() == ls[i as int - 1]);
            assert(recs_view(out@) =~= records_of_lines(ls.take(i as int)));
        }
    }
    proof {
        assert(ls.take(n as int) =~= ls);
    }
    out
}

/// Formats the output records: each trimmed of trailing whitespace,
/// joined with newlines.
fn format_output(records: &Vec<Record>) -> (r: String)
    ensures
        r@ == ascii::ascii_chars_of(output_text_spec(recs_view(records@))),
{
    let ghost trimmed = recs_view(records@).map_values(|x: Seq<u8>| ascii::trim_end_spec(x));
    let mut acc: Vec<u8> = Vec::new();
    let mut i: usize = 0;
    let n: usize = records.len();
    proof {
        assert(trimmed.take(0int) =~= Seq::<Seq<u8>>::empty());
        assert(acc@ =~= join_nl(trimmed.take(0int)));
    }
    while i < n
        invariant
            0 <= i <= n == records@.len(),
            trimmed == recs_view(records@).map_values(|x: Seq<u8>| ascii::trim_end_spec(x)),
            acc@ == join_nl(trimmed.take(i as int)),
            ascii::is_ascii_seq(acc@),
        decreases n - i,
    {
        let rec: &Record = &records[i];
        proof {
            use_type_invariant(&*rec);
            ascii::lemma_trim_end_ascii(rec@);
        }
        let bytes = rec.as_bytes();
        let e = ascii::trim_end_idx(bytes);
        let mut tb = ascii::subrange_copy(bytes, 0, e);
        proof {
            assert(tb@ =~= ascii::trim_end_spec(rec@));
            assert(trimmed[i as int] == ascii::trim_end_spec(rec@));
        }
        let ghost acc0 = acc@;
        let ghost tb_v = tb@;
        if i > 0 {
            acc.push(10u8);
        }
        acc.append(&mut tb);
        i = i + 1;
        proof {
            assert(trimmed.take(i as int).drop_last() =~= trimmed.take(i as int - 1));
            assert(trimmed.take(i as int).last() == trimmed[i as int - 1]);
            if i == 1 {
                assert(acc@ =~= join_nl(trimmed.take(i as int)));
            } else {
                assert(acc@ =~= join_nl(trimmed.take(i as int - 1)) + seq![10u8] + tb_v);
            }
            assert(acc@ =~= join_nl(trimmed.take(i as int)));
        }
    }
    proof {
        assert(trimmed.take(n as int) =~= trimmed);
    }
    ascii::bytes_to_string(acc.as_slice())
}

/// Executes a pipeline over record text with the batch executor.
///
/// On success: the output text, the input record count, and the output
/// record count.
pub fn execute_pipeline(input_text: &str, pipeline_text: &str) -> (r: Result<
    (String, usize, usize),
    String,
>)
    ensures
        execute_result_matches(input_text.spec_bytes(), pipeline_text.spec_bytes(), r),
{
    let records = read_input_records(input_text);
    let input_count = records.len();
    let commands = match parse_commands(pipeline_text) {
        Ok(cs) => cs,
        Err(e) => {
            return Err(e);
        },
    };
    let output = match apply_commands(records, &commands) {
        Ok(o) => o,
        Err(e) => {
            return Err(e);
        },
    };
    let output_count = output.len();
    let text = format_output(&output);
    proof {
        let ms = parse_commands_spec(pipeline_text.spec_bytes()).unwrap();
        assert(commands_match(ms, commands_view(commands@)));
    }
    Ok((text, input_count, output_count))
}

/// Executes a pipeline over record text with the record-at-a-time
/// executor, stepping it to completion. Produces byte-for-byte the same
/// output as [`execute_pipeline`]: the two functions carry the same
/// contract.
pub fn execute_pipeline_rat(input_text: &str, pipeline_text: &str) -> (r: Result<
    (String, usize, usize),
    String,
>)
    ensures
        execute_result_matches(input_text.spec_bytes(), pipeline_text.spec_bytes(), r),
{
    let records = read_input_records(input_text);
    let input_count = records.len();
    let ghost inrecs = recs_view(records@);
    let commands = match parse_commands(pipeline_text) {
        Ok(cs) => cs,
        Err(e) => {
            return Err(e);
        },
    };
    let pipeline = compile(&commands);
    let mut executor = crate::rat::rat_start(&pipeline, records);
    executor.run_to_completion();
    let output = executor.outputs();
    let output_count = output.len();
    let text = format_output(output);
    proof {
        let stages = commands_view(commands@).map_values(
            |c: CommandModel| command_to_stage(c),
        );
        assert(pipeline@ =~= stages);
        assert(executor.input_views().take(executor.consumed()) =~= inrecs);
        crate::semantics::lemma_batch_rat_equivalence(pipeline@, inrecs);
        let ms = parse_commands_spec(pipeline_text.spec_bytes()).unwrap();
        assert(commands_match(ms, commands_view(commands@)));
    }
    Ok((text, input_count, output_count))
}


} // verus!
