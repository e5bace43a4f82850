//! The fluent record-pipeline API.
//!
//! A [`Pipeline`] holds a record stream and offers the classic batch
//! operations over it: filter, omit, map, select, reformat, take, skip,
//! chain, and the terminal reductions (count, collect, fold, first, last,
//! any, all). Closure-taking operations are specified through
//! `call_ensures`, so a caller who knows the closure's contract knows the
//! pipeline's output exactly.

use crate::engine::apply_select;
use crate::record::{record_of, Record};
use crate::semantics::select_apply;
use vstd::prelude::*;
use vstd::string::StringSliceAdditionalSpecFns;

verus! {

/// The records kept when `keep` decides element by element: record `i`
/// stays exactly when `keep[i]` holds, order preserved.
pub open spec fn mask_filter(s: Seq<Record>, keep: Seq<bool>) -> Seq<Record>
    decreases s.len(),
{
    if s.len() == 0 {
        Seq::empty()
    } else {
        let rest = mask_filter(s.drop_last(), keep.drop_last());
        if keep.last() {
            rest.push(s.last())
        } else {
            rest
        }
    }
}

/// The records present in a sequence of optional results, in order.
pub open spec fn collect_somes(s: Seq<Option<Record>>) -> Seq<Record>
    decreases s.len(),
{
    if s.len() == 0 {
        Seq::empty()
    } else {
        let rest = collect_somes(s.drop_last());
        match s.last() {
            Some(r) => rest.push(r),
            None => rest,
        }
    }
}

/// A pipeline for processing records with a fluent API.
///
/// Operations apply in the order they are written; terminal operations
/// consume the pipeline.
pub struct Pipeline {
    records: Vec<Record>,
}

impl View for Pipeline {
    type V = Seq<Record>;

    closed spec fn view(&self) -> Seq<Record> {
        self.records@
    }
}

impl Pipeline {
    /// Creates a new pipeline over the given records.
    pub fn new(records: Vec<Record>) -> (out: Self)
        ensures
            out@ == records@,
    {
        Pipeline { records }
    }

    /// Filters records using a predicate: records for which it returns
    /// `false` are removed.
    pub fn filter<F: Fn(&Record) -> bool>(self, predicate: F) -> (out: Pipeline)
        requires
            forall|r: &Record| #[trigger] call_requires(predicate, (r,)),
        ensures
            exists|keep: Seq<bool>|
                {
                    &&& keep.len() == self@.len()
                    &&& forall|j: int|
                        0 <= j < keep.len() ==> call_ensures(
                            predicate,
                            (&self@[j],),
                            #[trigger] keep[j],
                        )
                    &&& out@ == mask_filter(self@, keep)
                },
    {
        let Pipeline { mut records } = self;
        let ghost orig = records@;
        let mut out: Vec<Record> = Vec::new();
        let ghost mut keep: Seq<bool> = Seq::empty();
        let mut i: usize = 0;
        let n: usize = records.len();
        while i < n
            invariant
                0 <= i <= n == orig.len(),
                records@ == orig.skip(i as int),
                forall|r: &Record| #[trigger] call_requires(predicate, (r,)),
                keep.len() == i,
                forall|j: int|
                    0 <= j < i ==> call_ensures(predicate, (&orig[j],), #[trigger] keep[j]),
                out@ == mask_filter(orig.take(i as int), keep),
            decreases n - i,
        {
            let r = records.remove(0);
            proof {
                assert(r == orig[i as int]);
                assert(records@ =~= orig.skip(i as int + 1));
            }
            let k = predicate(&r);
            let ghost keep0 = keep;
            proof {
                keep = keep0.push(k);
            }
            if k {
                out.push(r);
            }
            i = i + 1;
            proof {
                assert(keep.drop_last() =~= keep0);
                assert(orig.take(i as int).drop_last() =~= orig.take(i as int - 1));
                assert(orig.take(i as int).last() == orig[i as int - 1]);
            }
        }
        proof {
            assert(orig.take(n as int) =~= orig);
            assert(keep.len() == self@.len());
            assert(forall|j: int|
                0 <= j < keep.len() ==> call_ensures(predicate, (&self@[j],), #[trigger] keep[j]));
            assert(out@ == mask_filter(self@, keep));
        }
        Pipeline { records: out }
    }

    /// Omits records matching a predicate: records for which it returns
    /// `true` are removed.
    pub fn omit<F: Fn(&Record) -> bool>(self, predicate: F) -> (out: Pipeline)
        requires
            forall|r: &Record| #[trigger] call_requires(predicate, (r,)),
        ensures
            exists|keep: Seq<bool>|
                {
                    &&& keep.len() == self@.len()
                    &&& forall|j: int|
                        0 <= j < keep.len() ==> call_ensures(
                            predicate,
                            (&self@[j],),
                            !#[trigger] keep[j],
                        )
                    &&& out@ == mask_filter(self@, keep)
                },
    {
        let Pipeline { mut records } = self;
        let ghost orig = records@;
        let mut out: Vec<Record> = Vec::new();
        let ghost mut keep: Seq<bool> = Seq::empty();
        let mut i: usize = 0;
        let n: usize = records.len();
        while i < n
            invariant
                0 <= i <= n == orig.len(),
                records@ == orig.skip(i as int),
                forall|r: &Record| #[trigger] call_requires(predicate, (r,)),
                keep.len() == i,
                forall|j: int|
                    0 <= j < i ==> call_ensures(predicate, (&orig[j],), !#[trigger] keep[j]),
                out@ == mask_filter(orig.take(i as int), keep),
            decreases n - i,
        {
            let r = records.remove(0);
            proof {
                assert(r == orig[i as int]);
                assert(records@ =~= orig.skip(i as int + 1));
            }
            let dropped = predicate(&r);
            let ghost keep0 = keep;
            proof {
                keep = keep0.push(!dropped);
            }
            if !dropped {
                out.push(r);
            }
            i = i + 1;
            proof {
                assert(keep.drop_last() =~= keep0);
                assert(orig.take(i as int).drop_last() =~= orig.take(i as int - 1));
                assert(orig.take(i as int).last() == orig[i as int - 1]);
            }
        }
        proof {
            assert(orig.take(n as int) =~= orig);
            assert(keep.len() == self@.len());
            assert(forall|j: int|
                0 <= j < keep.len() ==> call_ensures(predicate, (&self@[j],), !#[trigger] keep[j]));
            assert(out@ == mask_filter(self@, keep));
        }
        Pipeline { records: out }
    }

    /// Transforms each record using a function.
    pub fn map<F: Fn(Record) -> Record>(self, transform: F) -> (out: Pipeline)
        requires
            forall|r: Record| #[trigger] call_requires(transform, (r,)),
        ensures
            out@.len() == self@.len(),
            forall|j: int|
                0 <= j < self@.len() ==> call_ensures(transform, (self@[j],), #[trigger] out@[j]),
    {
        let Pipeline { mut records } = self;
        let ghost orig = records@;
        let mut out: Vec<Record> = Vec::new();
        let mut i: usize = 0;
        let n: usize = records.len();
        while i < n
            invariant
                0 <= i <= n == orig.len(),
                records@ == orig.skip(i as int),
                forall|r: Record| #[trigger] call_requires(transform, (r,)),
                out@.len() == i,
                forall|j: int|
                    0 <= j < i ==> call_ensures(transform, (orig[j],), #[trigger] out@[j]),
            decreases n - i,
        {
            let r = records.remove(0);
            proof {
                assert(r == orig[i as int]);
                assert(records@ =~= orig.skip(i as int + 1));
            }
            let mapped = transform(r);
            out.push(mapped);
            i = i + 1;
        }
        Pipeline { records: out }
    }

    /// Transforms records with the option to filter: records for which the
    /// transform returns `None` are removed.
    pub fn filter_map<F: Fn(Record) -> Option<Record>>(self, transform: F) -> (out: Pipeline)
        requires
            forall|r: Record| #[trigger] call_requires(transform, (r,)),
        ensures
            exists|results: Seq<Option<Record>>|
                {
                    &&& results.len() == self@.len()
                    &&& forall|j: int|
                        0 <= j < results.len() ==> call_ensures(
                            transform,
                            (self@[j],),
                            #[trigger] results[j],
                        )
                    &&& out@ == collect_somes(results)
                },
    {
        let Pipeline { mut records } = self;
        let ghost orig = records@;
        let mut out: Vec<Record> = Vec::new();
        let ghost mut results: Seq<Option<Record>> = Seq::empty();
        let mut i: usize = 0;
        let n: usize = records.len();
        while i < n
            invariant
                0 <= i <= n == orig.len(),
                records@ == orig.skip(i as int),
                forall|r: Record| #[trigger] call_requires(transform, (r,)),
                results.len() == i,
                forall|j: int|
                    0 <= j < i ==> call_ensures(transform, (orig[j],), #[trigger] results[j]),
                out@ == collect_somes(results),
            decreases n - i,
        {
            let r = records.remove(0);
            proof {
                assert(r == orig[i as int]);
                assert(records@ =~= orig.skip(i as int + 1));
            }
            let mapped = transform(r);
            let ghost results0 = results;
            proof {
                results = results0.push(mapped);
            }
            match mapped {
                Some(x) => out.push(x),
                None => {},
            }
            i = i + 1;
            proof {
                assert(results.drop_last() =~= results0);
            }
        }
        Pipeline { records: out }
    }

    /// Selects specific fields from records: builds for every record a new
    /// record containing only the fields `(src_start, length, dst_start)`.
    pub fn select(self, fields: Vec<(usize, usize, usize)>) -> (out: Pipeline)
        ensures
            out@.len() == self@.len(),
            forall|j: int|
                0 <= j < self@.len() ==> (#[trigger] out@[j])@ == select_apply(
                    fields@,
                    self@[j]@,
                ),
    {
        let mut out: Vec<Record> = Vec::new();
        let mut i: usize = 0;
        let n: usize = self.records.len();
        while i < n
            invariant
                0 <= i <= n == self.records@.len(),
                out@.len() == i,
                forall|j: int|
                    0 <= j < i ==> (#[trigger] out@[j])@ == select_apply(
                        fields@,
                        self.records@[j]@,
                    ),
            decreases n - i,
        {
            let built = apply_select(&fields, &self.records[i]);
            out.push(built);
            i = i + 1;
        }
        Pipeline { records: out }
    }

    /// Reformats records by rearranging fields: a transform over a
    /// borrowed record that builds the replacement.
    pub fn reformat<F: Fn(&Record) -> Record>(self, transform: F) -> (out: Pipeline)
        requires
            forall|r: &Record| #[trigger] call_requires(transform, (r,)),
        ensures
            out@.len() == self@.len(),
            forall|j: int|
                0 <= j < self@.len() ==> call_ensures(transform, (&self@[j],), #[trigger] out@[j]),
    {
        let mut out: Vec<Record> = Vec::new();
        let mut i: usize = 0;
        let n: usize = self.records.len();
        while i < n
            invariant
                0 <= i <= n == self.records@.len(),
                forall|r: &Record| #[trigger] call_requires(transform, (r,)),
                out@.len() == i,
                forall|j: int|
                    0 <= j < i ==> call_ensures(
                        transform,
                        (&self.records@[j],),
                        #[trigger] out@[j],
                    ),
            decreases n - i,
        {
            let built = transform(&self.records[i]);
            out.push(built);
            i = i + 1;
        }
        Pipeline { records: out }
    }

    /// Inspects each record without modifying the stream.
    pub fn inspect<F: Fn(&Record)>(self, callback: F) -> (out: Pipeline)
        requires
            forall|r: &Record| #[trigger] call_requires(callback, (r,)),
        ensures
            out@ == self@,
    {
        let mut i: usize = 0;
        let n: usize = self.records.len();
        while i < n
            invariant
                0 <= i <= n == self.records@.len(),
                forall|r: &Record| #[trigger] call_requires(callback, (r,)),
            decreases n - i,
        {
            callback(&self.records[i]);
            i = i + 1;
        }
        self
    }

    /// Takes the first `n` records.
    pub fn take(self, n: usize) -> (out: Pipeline)
        ensures
            out@ == if n <= self@.len() {
                self@.take(n as int)
            } else {
                self@
            },
    {
        let Pipeline { mut records } = self;
        records.truncate(n);
        Pipeline { records }
    }

    /// Skips the first `n` records.
    pub fn skip(self, n: usize) -> (out: Pipeline)
        ensures
            out@ == if n <= self@.len() {
                self@.skip(n as int)
            } else {
                Seq::<Record>::empty()
            },
    {
        let Pipeline { mut records } = self;
        let ghost orig = records@;
        let mut i: usize = 0;
        while i < n && records.len() > 0
            invariant
                0 <= i <= n,
                i <= orig.len(),
                records@ == orig.skip(i as int),
            decreases n - i,
        {
            records.remove(0);
            i = i + 1;
            proof {
                assert(records@ =~= orig.skip(i as int));
            }
        }
        proof {
            if n > orig.len() {
                assert(records@ =~= Seq::<Record>::empty());
            }
        }
        Pipeline { records }
    }

    /// Chains another record stream after this one.
    pub fn chain(self, other: Vec<Record>) -> (out: Pipeline)
        ensures
            out@ == self@ + other@,
    {
        let Pipeline { mut records } = self;
        let mut other = other;
        records.append(&mut other);
        Pipeline { records }
    }

    /// Counts the records; consumes the pipeline.
    pub fn count(self) -> (r: usize)
        ensures
            r == self@.len(),
    {
        self.records.len()
    }

    /// Collects all records into a vector; consumes the pipeline.
    pub fn collect(self) -> (r: Vec<Record>)
        ensures
            r@ == self@,
    {
        self.records
    }

    /// Consumes the pipeline, discarding the records. Useful when the
    /// pipeline was built for the side effects of `inspect`.
    pub fn run(self) {
    }

    /// Returns the first record, if any.
    pub fn first(self) -> (r: Option<Record>)
        ensures
            r == if self@.len() > 0 {
                Some(self@[0])
            } else {
                None::<Record>
            },
    {
        let Pipeline { mut records } = self;
        if records.len() > 0 {
            Some(records.remove(0))
        } else {
            None
        }
    }

    /// Returns the last record, if any; consumes the whole pipeline.
    pub fn last(self) -> (r: Option<Record>)
        ensures
            r == if self@.len() > 0 {
                Some(self@.last())
            } else {
                None::<Record>
            },
    {
        let Pipeline { mut records } = self;
        records.pop()
    }

    /// Removes and returns the next record, if any: the pipeline can be
    /// drained record by record.
    pub fn next(&mut self) -> (r: Option<Record>)
        ensures
            old(self)@.len() > 0 ==> r == Some(old(self)@[0]) && final(self)@ == old(
                self,
            )@.drop_first(),
            old(self)@.len() == 0 ==> r == None::<Record> && final(self)@ == old(self)@,
    {
        if self.records.len() > 0 {
            let r = self.records.remove(0);
            proof {
                assert(self.records@ =~= old(self)@.drop_first());
            }
            Some(r)
        } else {
            None
        }
    }

    /// Folds the records into an accumulator, front to back.
    pub fn fold<B, F: Fn(B, Record) -> B>(self, init: B, f: F) -> (r: B)
        requires
            forall|b: B, x: Record| #[trigger] call_requires(f, (b, x)),
        ensures
            exists|accs: Seq<B>|
                {
                    &&& accs.len() == self@.len() + 1
                    &&& accs[0] == init
                    &&& accs.last() == r
                    &&& forall|j: int|
                        0 <= j < self@.len() ==> call_ensures(
                            f,
                            (#[trigger] accs[j], self@[j]),
                            accs[j + 1],
                        )
                },
    {
        let Pipeline { mut records } = self;
        let ghost orig = records@;
        let mut acc = init;
        let ghost mut accs: Seq<B> = seq![init];
        let mut i: usize = 0;
        let n: usize = records.len();
        while i < n
            invariant
                0 <= i <= n == orig.len(),
                records@ == orig.skip(i as int),
                forall|b: B, x: Record| #[trigger] call_requires(f, (b, x)),
                accs.len() == i + 1,
                accs.last() == acc,
                accs[0] == init,
                forall|j: int|
                    0 <= j < i ==> call_ensures(f, (#[trigger] accs[j], orig[j]), accs[j + 1]),
            decreases n - i,
        {
            let r = records.remove(0);
            proof {
                assert(r == orig[i as int]);
                assert(records@ =~= orig.skip(i as int + 1));
            }
            acc = f(acc, r);
            proof {
                accs = accs.push(acc);
            }
            i = i + 1;
        }
        proof {
            assert(records@ =~= orig.skip(n as int));
            assert(accs.len() == orig.len() + 1 && accs[0] == init && accs.last() == acc
                && forall|j: int|
                0 <= j < orig.len() ==> call_ensures(f, (#[trigger] accs[j], orig[j]), accs[j + 1]));
        }
        acc
    }

    /// Checks if any record matches the predicate: a positive answer names
    /// a witness, a negative one says every record was refused.
    pub fn any<F: Fn(&Record) -> bool>(self, predicate: F) -> (r: bool)
        requires
            forall|x: &Record| #[trigger] call_requires(predicate, (x,)),
        ensures
            r ==> exists|j: int|
                0 <= j < self@.len() && call_ensures(predicate, (&self@[j],), true),
            !r ==> forall|j: int|
                0 <= j < self@.len() ==> #[trigger] call_ensures(predicate, (&self@[j],), false),
    {
        let mut i: usize = 0;
        let n: usize = self.records.len();
        while i < n
            invariant
                0 <= i <= n == self.records@.len(),
                forall|x: &Record| #[trigger] call_requires(predicate, (x,)),
                forall|j: int|
                    0 <= j < i ==> #[trigger] call_ensures(predicate, (&self.records@[j],), false),
            decreases n - i,
        {
            let hit = predicate(&self.records[i]);
            if hit {
                proof {
                    assert(call_ensures(predicate, (&self@[i as int],), true));
                }
                return true;
            }
            i = i + 1;
        }
        false
    }

    /// Checks if all records match the predicate: a negative answer names
    /// a counterexample, a positive one says every record was accepted.
    pub fn all<F: Fn(&Record) -> bool>(self, predicate: F) -> (r: bool)
        requires
            forall|x: &Record| #[trigger] call_requires(predicate, (x,)),
        ensures
            !r ==> exists|j: int|
                0 <= j < self@.len() && call_ensures(predicate, (&self@[j],), false),
            r ==> forall|j: int|
                0 <= j < self@.len() ==> #[trigger] call_ensures(predicate, (&self@[j],), true),
    {
        let mut i: usize = 0;
        let n: usize = self.records.len();
        while i < n
            invariant
                0 <= i <= n == self.records@.len(),
                forall|x: &Record| #[trigger] call_requires(predicate, (x,)),
                forall|j: int|
                    0 <= j < i ==> #[trigger] call_ensures(predicate, (&self.records@[j],), true),
            decreases n - i,
        {
            let ok = predicate(&self.records[i]);
            if !ok {
                proof {
                    assert(call_ensures(predicate, (&self@[i as int],), false));
                }
                return false;
            }
            i = i + 1;
        }
        true
    }
}

/// Creates a pipeline from string slices, one record per string.
pub fn from_strings(strings: &[&str]) -> (out: Pipeline)
    ensures
        out@.len() == strings@.len(),
        forall|j: int|
            0 <= j < strings@.len() ==> (#[trigger] out@[j])@ == record_of(
                strings@[j].spec_bytes(),
            ),
{
    let mut records: Vec<Record> = Vec::new();
    let mut i: usize = 0;
    let n: usize = strings.len();
    while i < n
        invariant
            0 <= i <= n == strings@.len(),
            records@.len() == i,
            forall|j: int|
                0 <= j < i ==> (#[trigger] records@[j])@ == record_of(strings@[j].spec_bytes()),
        decreases n - i,
    {
        let r = Record::from_str(strings[i]);
        records.push(r);
        i = i + 1;
    }
    Pipeline { records }
}

/// Creates a pipeline from owned lines, one record per line.
pub fn from_lines(lines: &Vec<String>) -> (out: Pipeline)
    ensures
        out@.len() == lines@.len(),
        forall|j: int|
            0 <= j < lines@.len() ==> (#[trigger] out@[j])@ == record_of(
                vstd::utf8::encode_utf8(lines@[j]@),
            ),
{
    let mut records: Vec<Record> = Vec::new();
    let mut i: usize = 0;
    let n: usize = lines.len();
    while i < n
        invariant
            0 <= i <= n == lines@.len(),
            records@.len() == i,
            forall|j: int|
                0 <= j < i ==> (#[trigger] records@[j])@ == record_of(
                    vstd::utf8::encode_utf8(lines@[j]@),
                ),
        decreases n - i,
    {
        let r = Record::from_str(lines[i].as_str());
        records.push(r);
        i = i + 1;
    }
    Pipeline { records }
}

} // verus!
