//! Pipeline stages over closures.
//!
//! A [`Stage`] processes records one at a time: `process` passes a record
//! downstream, possibly replaced, or filters it out. `process_batch` runs a
//! whole batch and is semantically identical to repeated `process` calls in
//! order: each implementation carries that as an exact contract.
//!
//! The closure-carrying stages here serve hand-built pipelines; the
//! command-compiled engine stages live in [`crate::engine`].

use crate::engine::apply_select;
use crate::pipeline::{collect_somes, mask_filter};
use crate::record::Record;
use crate::semantics::select_apply;
use vstd::prelude::*;

verus! {

/// A pipeline stage that processes records.
///
/// Each implementor says in `req` what must hold before it may process a
/// record, and in `ens` exactly what one processing step does; `process`
/// is held to that, and `process_batch` to repeated `process` calls.
pub trait Stage: Sized {
    /// What must hold before the stage may process `record`.
    spec fn req(&self, record: Record) -> bool;

    /// What one processing step guarantees, relating the stage state
    /// before (`self`) and after (`post`), the input record and the
    /// output.
    spec fn ens(&self, post: Self, record: Record, out: Option<Record>) -> bool;

    /// Processing one record keeps the stage able to process the next:
    /// the requirement carries over every step.
    proof fn req_preserved(pre: Self, post: Self, record: Record, out: Option<Record>, next: Record)
        requires
            pre.ens(post, record, out),
            pre.req(next),
        ensures
            post.req(next),
    ;

    /// Processes a single record: `Some` passes a record downstream,
    /// `None` filters it out.
    fn process(&mut self, record: Record) -> (out: Option<Record>)
        requires
            old(self).req(record),
        ensures
            old(self).ens(*final(self), record, out),
    ;

    /// Processes a batch of records: semantically identical to calling
    /// `process` once per record in order. Each implementation's own
    /// contract states exactly what that means for its stage kind.
    fn process_batch(&mut self, records: Vec<Record>) -> (out: Vec<Record>)
        requires
            forall|j: int| 0 <= j < records@.len() ==> old(self).req(#[trigger] records@[j]),
    ;
}

/// Filter stage: passes records matching its predicate, drops the rest.
pub struct Filter<F: Fn(&Record) -> bool> {
    predicate: F,
}

impl<F: Fn(&Record) -> bool> Filter<F> {
    /// The predicate the stage filters by.
    pub closed spec fn spec_predicate(&self) -> F {
        self.predicate
    }

    /// Creates a new filter stage with the given predicate.
    pub fn new(predicate: F) -> (s: Self)
        ensures
            s.spec_predicate() == predicate,
    {
        Filter { predicate }
    }
}

impl<F: Fn(&Record) -> bool> Stage for Filter<F> {
    open spec fn req(&self, record: Record) -> bool {
        call_requires(self.spec_predicate(), (&record,))
    }

    open spec fn ens(&self, post: Self, record: Record, out: Option<Record>) -> bool {
        &&& post == *self
        &&& match out {
            Some(r) => r == record && call_ensures(self.spec_predicate(), (&record,), true),
            None => call_ensures(self.spec_predicate(), (&record,), false),
        }
    }

    proof fn req_preserved(
        pre: Self,
        post: Self,
        record: Record,
        out: Option<Record>,
        next: Record,
    ) {
    }

    fn process(&mut self, record: Record) -> (out: Option<Record>) {
        if (self.predicate)(&record) {
            Some(record)
        } else {
            None
        }
    }

    fn process_batch(&mut self, records: Vec<Record>) -> (out: Vec<Record>)
        ensures
            *final(self) == *old(self),
            exists|keep: Seq<bool>|
                {
                    &&& keep.len() == records@.len()
                    &&& forall|j: int|
                        0 <= j < keep.len() ==> call_ensures(
                            old(self).spec_predicate(),
                            (&records@[j],),
                            #[trigger] keep[j],
                        )
                    &&& out@ == mask_filter(records@, keep)
                },
    {
        let mut records = records;
        let ghost orig = records@;
        let mut out: Vec<Record> = Vec::new();
        let ghost mut keep: Seq<bool> = Seq::empty();
        let mut i: usize = 0;
        let n: usize = records.len();
        while i < n
            invariant
                0 <= i <= n == orig.len(),
                records@ == orig.skip(i as int),
                forall|j: int| i <= j < n ==> call_requires(
                    self.spec_predicate(),
                    (&#[trigger] orig[j],),
                ),
                self == old(self),
                keep.len() == i,
                forall|j: int|
                    0 <= j < i ==> call_ensures(
                        self.spec_predicate(),
                        (&orig[j],),
                        #[trigger] keep[j],
                    ),
                out@ == mask_filter(orig.take(i as int), keep),
            decreases n - i,
        {
            let r = records.remove(0);
            proof {
                assert(r == orig[i as int]);
                assert(records@ =~= orig.skip(i as int + 1));
            }
            let k = (self.predicate)(&r);
            let ghost keep0 = keep;
            proof {
                keep = keep0.push(k);
            }
            if k {
                out.push(r);
            }
            i = i + 1;
            proof {
                assert(keep.drop_last() =~= keep0);
                assert(orig.take(i as int).drop_last() =~= orig.take(i as int - 1));
                assert(orig.take(i as int).last() == orig[i as int - 1]);
            }
        }
        proof {
            assert(orig.take(n as int) =~= orig);
        }
        out
    }
}

/// Select stage: builds, for every record, a fresh record holding only the
/// fields `(src_start, length, dst_start)`.
pub struct Select {
    fields: Vec<(usize, usize, usize)>,
}

impl Select {
    /// The field list the stage selects.
    pub closed spec fn spec_fields(&self) -> Seq<(usize, usize, usize)> {
        self.fields@
    }

    /// Creates a new select stage over the given field list.
    pub fn new(fields: Vec<(usize, usize, usize)>) -> (s: Self)
        ensures
            s.spec_fields() == fields@,
    {
        Select { fields }
    }
}

impl Stage for Select {
    open spec fn req(&self, record: Record) -> bool {
        true
    }

    open spec fn ens(&self, post: Self, record: Record, out: Option<Record>) -> bool {
        &&& post == *self
        &&& match out {
            Some(r) => r@ == select_apply(self.spec_fields(), record@),
            None => false,
        }
    }

    proof fn req_preserved(
        pre: Self,
        post: Self,
        record: Record,
        out: Option<Record>,
        next: Record,
    ) {
    }

    fn process(&mut self, record: Record) -> (out: Option<Record>) {
        Some(apply_select(&self.fields, &record))
    }

    fn process_batch(&mut self, records: Vec<Record>) -> (out: Vec<Record>)
        ensures
            *final(self) == *old(self),
            out@.len() == records@.len(),
            forall|j: int|
                0 <= j < records@.len() ==> (#[trigger] out@[j])@ == select_apply(
                    old(self).spec_fields(),
                    records@[j]@,
                ),
    {
        let mut out: Vec<Record> = Vec::new();
        let mut i: usize = 0;
        let n: usize = records.len();
        while i < n
            invariant
                0 <= i <= n == records@.len(),
                self == old(self),
                out@.len() == i,
                forall|j: int|
                    0 <= j < i ==> (#[trigger] out@[j])@ == select_apply(
                        self.spec_fields(),
                        records@[j]@,
                    ),
            decreases n - i,
        {
            let built = apply_select(&self.fields, &records[i]);
            out.push(built);
            i = i + 1;
        }
        out
    }
}

/// Reformat stage: replaces every record with what its transform builds
/// from it.
pub struct Reformat<F: Fn(&Record) -> Record> {
    transform: F,
}

impl<F: Fn(&Record) -> Record> Reformat<F> {
    /// The transform the stage applies.
    pub closed spec fn spec_transform(&self) -> F {
        self.transform
    }

    /// Creates a new reformat stage with the given transform.
    pub fn new(transform: F) -> (s: Self)
        ensures
            s.spec_transform() == transform,
    {
        Reformat { transform }
    }
}

impl<F: Fn(&Record) -> Record> Stage for Reformat<F> {
    open spec fn req(&self, record: Record) -> bool {
        call_requires(self.spec_transform(), (&record,))
    }

    open spec fn ens(&self, post: Self, record: Record, out: Option<Record>) -> bool {
        &&& post == *self
        &&& match out {
            Some(r) => call_ensures(self.spec_transform(), (&record,), r),
            None => false,
        }
    }

    proof fn req_preserved(
        pre: Self,
        post: Self,
        record: Record,
        out: Option<Record>,
        next: Record,
    ) {
    }

    fn process(&mut self, record: Record) -> (out: Option<Record>) {
        Some((self.transform)(&record))
    }

    fn process_batch(&mut self, records: Vec<Record>) -> (out: Vec<Record>)
        ensures
            *final(self) == *old(self),
            out@.len() == records@.len(),
            forall|j: int|
                0 <= j < records@.len() ==> call_ensures(
                    old(self).spec_transform(),
                    (&records@[j],),
                    #[trigger] out@[j],
                ),
    {
        let mut out: Vec<Record> = Vec::new();
        let mut i: usize = 0;
        let n: usize = records.len();
        while i < n
            invariant
                0 <= i <= n == records@.len(),
                forall|j: int| i <= j < n ==> call_requires(
                    self.spec_transform(),
                    (&#[trigger] records@[j],),
                ),
                self == old(self),
                out@.len() == i,
                forall|j: int|
                    0 <= j < i ==> call_ensures(
                        self.spec_transform(),
                        (&records@[j],),
                        #[trigger] out@[j],
                    ),
            decreases n - i,
        {
            let built = (self.transform)(&records[i]);
            out.push(built);
            i = i + 1;
        }
        out
    }
}

/// Map stage: transforms each record, with the option to filter it out.
pub struct MapStage<F: Fn(Record) -> Option<Record>> {
    transform: F,
}

impl<F: Fn(Record) -> Option<Record>> MapStage<F> {
    /// The transform the stage applies.
    pub closed spec fn spec_transform(&self) -> F {
        self.transform
    }

    /// Creates a new map stage with the given transform.
    pub fn new(transform: F) -> (s: Self)
        ensures
            s.spec_transform() == transform,
    {
        MapStage { transform }
    }
}

impl<F: Fn(Record) -> Option<Record>> Stage for MapStage<F> {
    open spec fn req(&self, record: Record) -> bool {
        call_requires(self.spec_transform(), (record,))
    }

    open spec fn ens(&self, post: Self, record: Record, out: Option<Record>) -> bool {
        &&& post == *self
        &&& call_ensures(self.spec_transform(), (record,), out)
    }

    proof fn req_preserved(
        pre: Self,
        post: Self,
        record: Record,
        out: Option<Record>,
        next: Record,
    ) {
    }

    fn process(&mut self, record: Record) -> (out: Option<Record>) {
        (self.transform)(record)
    }

    fn process_batch(&mut self, records: Vec<Record>) -> (out: Vec<Record>)
        ensures
            *final(self) == *old(self),
            exists|results: Seq<Option<Record>>|
                {
                    &&& results.len() == records@.len()
                    &&& forall|j: int|
                        0 <= j < results.len() ==> call_ensures(
                            old(self).spec_transform(),
                            (records@[j],),
                            #[trigger] results[j],
                        )
                    &&& out@ == collect_somes(results)
                },
    {
        let mut records = records;
        let ghost orig = records@;
        let mut out: Vec<Record> = Vec::new();
        let ghost mut results: Seq<Option<Record>> = Seq::empty();
        let mut i: usize = 0;
        let n: usize = records.len();
        while i < n
            invariant
                0 <= i <= n == orig.len(),
                records@ == orig.skip(i as int),
                forall|j: int| i <= j < n ==> call_requires(
                    self.spec_transform(),
                    (#[trigger] orig[j],),
                ),
                self == old(self),
                results.len() == i,
                forall|j: int|
                    0 <= j < i ==> call_ensures(
                        self.spec_transform(),
                        (orig[j],),
                        #[trigger] results[j],
                    ),
                out@ == collect_somes(results),
            decreases n - i,
        {
            let r = records.remove(0);
            proof {
                assert(r == orig[i as int]);
                assert(records@ =~= orig.skip(i as int + 1));
            }
            let mapped = (self.transform)(r);
            let ghost results0 = results;
            proof {
                results = results0.push(mapped);
            }
            match mapped {
                Some(x) => out.push(x),
                None => {},
            }
            i = i + 1;
            proof {
                assert(results.drop_last() =~= results0);
            }
        }
        proof {
            assert(orig.take(n as int) =~= orig);
        }
        out
    }
}

/// Inspect stage: observes records without modifying the stream.
pub struct Inspect<F: Fn(&Record)> {
    callback: F,
}

impl<F: Fn(&Record)> Inspect<F> {
    /// The callback the stage invokes.
    pub closed spec fn spec_callback(&self) -> F {
        self.callback
    }

    /// Creates a new inspect stage with the given callback.
    pub fn new(callback: F) -> (s: Self)
        ensures
            s.spec_callback() == callback,
    {
        Inspect { callback }
    }
}

impl<F: Fn(&Record)> Stage for Inspect<F> {
    open spec fn req(&self, record: Record) -> bool {
        call_requires(self.spec_callback(), (&record,))
    }

    open spec fn ens(&self, post: Self, record: Record, out: Option<Record>) -> bool {
        &&& post == *self
        &&& out == Some(record)
        &&& call_ensures(self.spec_callback(), (&record,), ())
    }

    proof fn req_preserved(
        pre: Self,
        post: Self,
        record: Record,
        out: Option<Record>,
        next: Record,
    ) {
    }

    fn process(&mut self, record: Record) -> (out: Option<Record>) {
        (self.callback)(&record);
        Some(record)
    }

    fn process_batch(&mut self, records: Vec<Record>) -> (out: Vec<Record>)
        ensures
            *final(self) == *old(self),
            out@ == records@,
    {
        let mut i: usize = 0;
        let n: usize = records.len();
        while i < n
            invariant
                0 <= i <= n == records@.len(),
                forall|j: int| i <= j < n ==> call_requires(
                    self.spec_callback(),
                    (&#[trigger] records@[j],),
                ),
                self == old(self),
            decreases n - i,
        {
            (self.callback)(&records[i]);
            i = i + 1;
        }
        records
    }
}

} // verus!
