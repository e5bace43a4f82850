//! Fixed-width 80-byte records.
//!
//! A record is exactly [`RECORD_WIDTH`] bytes of ASCII text, padded with
//! spaces. The width matches the historical punch card format used by
//! mainframe batch systems. Fields are byte ranges `[start, start+length)`;
//! accesses beyond the record are clamped, never an error.

use crate::ascii;
use vstd::prelude::*;
use vstd::string::StringSliceAdditionalSpecFns;

verus! {

/// The standard record width (punch card width).
pub const RECORD_WIDTH: usize = 80;

/// A byte as stored in a record: ASCII bytes are kept, anything else
/// becomes `?`.
pub open spec fn sanitize(b: u8) -> u8 {
    if b < 128 {
        b
    } else {
        63
    }
}

/// The bytes of a record built from `bytes`: sanitized, truncated to the
/// record width, and padded with spaces.
pub open spec fn record_of(bytes: Seq<u8>) -> Seq<u8> {
    Seq::new(
        RECORD_WIDTH as nat,
        |i: int|
            if i < bytes.len() {
                sanitize(bytes[i])
            } else {
                32u8
            },
    )
}

/// An all-spaces record.
pub open spec fn blank_record() -> Seq<u8> {
    Seq::new(RECORD_WIDTH as nat, |i: int| 32u8)
}

/// Positions are clamped to the record width.
pub open spec fn clamp_width(x: int) -> int {
    if x > RECORD_WIDTH as int {
        RECORD_WIDTH as int
    } else {
        x
    }
}

/// The bytes of the field `[start, start+length)` of a record, clamped to
/// the record bounds. Meaningful for `data` of record width.
pub open spec fn field_range_spec(data: Seq<u8>, start: int, length: int) -> Seq<u8> {
    data.subrange(clamp_width(start), clamp_width(start + length))
}

/// The bytes of a record after writing `value` into the field
/// `[start, start+length)`: the field is cleared to spaces, then the value
/// is copied (sanitized, truncated to the field); the rest is unchanged.
pub open spec fn set_field_spec(data: Seq<u8>, start: int, length: int, value: Seq<u8>) -> Seq<
    u8,
> {
    Seq::new(
        data.len(),
        |i: int|
            if clamp_width(start) <= i < clamp_width(start + length) {
                if i - clamp_width(start) < value.len() {
                    sanitize(value[i - clamp_width(start)])
                } else {
                    32u8
                }
            } else {
                data[i]
            },
    )
}

/// A fixed-width 80-byte record.
///
/// Records are immutable values as far as the pipeline is concerned: a
/// stage that "modifies" a record constructs a new one. The byte content
/// is always exactly [`RECORD_WIDTH`] ASCII bytes.
pub struct Record {
    data: Vec<u8>,
}

impl View for Record {
    type V = Seq<u8>;

    closed spec fn view(&self) -> Seq<u8> {
        self.data@
    }
}

impl Record {
    /// Every record holds exactly [`RECORD_WIDTH`] ASCII bytes.
    #[verifier::type_invariant]
    pub(crate) open spec fn type_inv(self) -> bool {
        self@.len() == RECORD_WIDTH as int && ascii::is_ascii_seq(self@)
    }

    /// Creates a new record filled with spaces.
    pub fn new() -> (r: Self)
        ensures
            r@ == blank_record(),
    {
        let mut data: Vec<u8> = Vec::new();
        let mut i: usize = 0;
        while i < RECORD_WIDTH
            invariant
                0 <= i <= RECORD_WIDTH,
                data@.len() == i,
                forall|j: int| 0 <= j < i ==> data@[j] == 32u8,
            decreases RECORD_WIDTH - i,
        {
            data.push(32u8);
            i = i + 1;
        }
        proof {
            assert(data@ =~= blank_record());
        }
        Record { data }
    }

    /// Creates a record from raw bytes: truncated to the record width or
    /// padded with spaces; non-ASCII bytes are replaced with `?`.
    pub fn from_bytes(bytes: &[u8]) -> (r: Self)
        ensures
            r@ == record_of(bytes@),
    {
        let n: usize = bytes.len();
        let mut data: Vec<u8> = Vec::new();
        let mut i: usize = 0;
        while i < RECORD_WIDTH
            invariant
                0 <= i <= RECORD_WIDTH,
                n == bytes@.len(),
                data@.len() == i,
                forall|j: int| 0 <= j < i ==> data@[j] == record_of(bytes@)[j],
            decreases RECORD_WIDTH - i,
        {
            if i < n {
                let b: u8 = bytes[i];
                if b < 128 {
                    data.push(b);
                } else {
                    data.push(63u8);
                }
            } else {
                data.push(32u8);
            }
            i = i + 1;
        }
        proof {
            assert(data@ =~= record_of(bytes@));
        }
        Record { data }
    }

    /// Creates a record from a string slice, going by its UTF-8 bytes:
    /// truncated to the record width or padded with spaces; non-ASCII
    /// bytes are replaced with `?`.
    ///
    /// Named `from_str` for convenience; it is not `std::str::FromStr`
    /// because record construction never fails.
    pub fn from_str(s: &str) -> (r: Self)
        ensures
            r@ == record_of(s.spec_bytes()),
    {
        Self::from_bytes(s.as_bytes())
    }

    /// Returns the record content as a string of exactly
    /// [`RECORD_WIDTH`] characters.
    pub fn as_str(&self) -> (r: String)
        ensures
            r@ == ascii::ascii_chars_of(self@),
            r@.len() == RECORD_WIDTH as int,
    {
        proof {
            use_type_invariant(&*self);
        }
        ascii::bytes_to_string(self.data.as_slice())
    }

    /// Returns the raw bytes of the record.
    pub fn as_bytes(&self) -> (r: &[u8])
        ensures
            r@ == self@,
            r@.len() == RECORD_WIDTH as int,
    {
        proof {
            use_type_invariant(&*self);
        }
        self.data.as_slice()
    }

    /// The clamped bounds of a field.
    fn field_bounds(start: usize, length: usize) -> (r: (usize, usize))
        ensures
            r.0 == clamp_width(start as int),
            r.1 == clamp_width(start as int + length as int),
            r.0 <= r.1 <= RECORD_WIDTH,
    {
        if start >= RECORD_WIDTH {
            (RECORD_WIDTH, RECORD_WIDTH)
        } else if length >= RECORD_WIDTH - start {
            (start, RECORD_WIDTH)
        } else {
            (start, start + length)
        }
    }

    /// The bytes of the field `[start, start+length)`, clamped to the
    /// record bounds.
    pub fn field_bytes(&self, start: usize, length: usize) -> (r: Vec<u8>)
        ensures
            r@ == field_range_spec(self@, start as int, length as int),
    {
        proof {
            use_type_invariant(&*self);
        }
        let (lo, hi) = Self::field_bounds(start, length);
        ascii::subrange_copy(self.data.as_slice(), lo, hi)
    }

    /// Extracts a field as a string. Fields are given by 0-indexed start
    /// position and length; a field reaching beyond the record is
    /// truncated.
    pub fn field(&self, start: usize, length: usize) -> (r: String)
        ensures
            r@ == ascii::ascii_chars_of(field_range_spec(self@, start as int, length as int)),
    {
        proof {
            use_type_invariant(&*self);
        }
        let bytes = self.field_bytes(start, length);
        ascii::bytes_to_string(bytes.as_slice())
    }

    /// Writes `value` into the field `[start, start+length)`: the field is
    /// cleared to spaces and the value copied into it, truncated to the
    /// field length, non-ASCII bytes replaced with `?`.
    pub fn set_field(&mut self, start: usize, length: usize, value: &str)
        ensures
            final(self)@ == set_field_spec(
                old(self)@,
                start as int,
                length as int,
                value.spec_bytes(),
            ),
    {
        self.set_field_bytes(start, length, value.as_bytes())
    }

    /// Writes raw bytes into the field `[start, start+length)`, as
    /// [`Record::set_field`] does for a string's bytes.
    pub fn set_field_bytes(&mut self, start: usize, length: usize, value: &[u8])
        ensures
            final(self)@ == set_field_spec(old(self)@, start as int, length as int, value@),
    {
        proof {
            use_type_invariant(&*self);
        }
        let (lo, hi) = Self::field_bounds(start, length);
        let vb: &[u8] = value;
        let m: usize = vb.len();
        let ghost target = set_field_spec(old(self)@, start as int, length as int, value@);
        let mut data: Vec<u8> = Vec::new();
        let mut i: usize = 0;
        while i < RECORD_WIDTH
            invariant
                0 <= i <= RECORD_WIDTH,
                self == old(self),
                self@.len() == RECORD_WIDTH as int,
                ascii::is_ascii_seq(self@),
                lo == clamp_width(start as int),
                hi == clamp_width(start as int + length as int),
                lo <= hi <= RECORD_WIDTH,
                m == vb@.len(),
                vb@ == value@,
                target == set_field_spec(self@, start as int, length as int, value@),
                data@.len() == i,
                forall|j: int| 0 <= j < i ==> data@[j] == target[j],
            decreases RECORD_WIDTH - i,
        {
            if i >= lo && i < hi {
                let off: usize = i - lo;
                if off < m {
                    let b: u8 = vb[off];
                    if b < 128 {
                        data.push(b);
                    } else {
                        data.push(63u8);
                    }
                } else {
                    data.push(32u8);
                }
            } else {
                data.push(self.data[i]);
            }
            i = i + 1;
        }
        proof {
            assert(data@ =~= target);
        }
        self.data = data;
    }

    /// Returns true if the record is blank (all spaces).
    pub fn is_blank(&self) -> (r: bool)
        ensures
            r == (self@ == blank_record()),
    {
        proof {
            use_type_invariant(&*self);
        }
        let mut i: usize = 0;
        let n: usize = self.data.len();
        while i < n
            invariant
                0 <= i <= n,
                n == self@.len() == RECORD_WIDTH as int,
                forall|j: int| 0 <= j < i ==> self@[j] == 32u8,
            decreases n - i,
        {
            if self.data[i] != 32u8 {
                proof {
                    assert(self@[i as int] != blank_record()[i as int]);
                }
                return false;
            }
            i = i + 1;
        }
        proof {
            assert(self@ =~= blank_record());
        }
        true
    }

    /// Compares a field to a value, ignoring leading and trailing
    /// whitespace on both sides. The convenience comparison used by
    /// filtering.
    pub fn field_eq(&self, start: usize, length: usize, value: &str) -> (r: bool)
        ensures
            r == (ascii::trim_spec(field_range_spec(self@, start as int, length as int))
                == ascii::trim_spec(value.spec_bytes())),
    {
        let f = self.field_bytes(start, length);
        let ft = ascii::trim_copy(f.as_slice());
        let vt = ascii::trim_copy(value.as_bytes());
        ascii::bytes_eq(ft.as_slice(), vt.as_slice())
    }

    /// Compares a field to a value exactly, spaces included.
    pub fn field_eq_exact(&self, start: usize, length: usize, value: &str) -> (r: bool)
        ensures
            r == (field_range_spec(self@, start as int, length as int) == value.spec_bytes()),
    {
        let f = self.field_bytes(start, length);
        ascii::bytes_eq(f.as_slice(), value.as_bytes())
    }

    /// Returns true if a field, after trimming leading whitespace, starts
    /// with the given prefix.
    pub fn field_starts_with(&self, start: usize, length: usize, prefix: &str) -> (r: bool)
        ensures
            r == ascii::is_prefix_of(
                prefix.spec_bytes(),
                ascii::trim_start_spec(field_range_spec(self@, start as int, length as int)),
            ),
    {
        let f = self.field_bytes(start, length);
        let ft = ascii::trim_start_copy(f.as_slice());
        ascii::starts_with_bytes(ft.as_slice(), prefix.as_bytes())
    }

    /// Returns true if a field contains the given substring.
    pub fn field_contains(&self, start: usize, length: usize, substring: &str) -> (r: bool)
        ensures
            r == ascii::contains_sub(
                field_range_spec(self@, start as int, length as int),
                substring.spec_bytes(),
            ),
    {
        let f = self.field_bytes(start, length);
        ascii::contains_bytes(f.as_slice(), substring.as_bytes())
    }

    /// A debug rendering: the record content with trailing whitespace
    /// removed, wrapped in `Record("...")`.
    pub fn debug_string(&self) -> (r: String)
        ensures
            r@ == ascii::ascii_chars_of(debug_bytes(self@)),
    {
        proof {
            use_type_invariant(&*self);
        }
        let mut out: Vec<u8> = Vec::new();
        out.push(82u8);  // R
        out.push(101u8);  // e
        out.push(99u8);  // c
        out.push(111u8);  // o
        out.push(114u8);  // r
        out.push(100u8);  // d
        out.push(40u8);  // (
        out.push(34u8);  // "
        let trimmed = ascii::trim_copy(self.data.as_slice());
        let mut k: usize = 0;
        let n: usize = trimmed.len();
        while k < n
            invariant
                0 <= k <= n,
                n == trimmed@.len(),
                out@ == seq![82u8, 101u8, 99u8, 111u8, 114u8, 100u8, 40u8, 34u8] + trimmed@.take(
                    k as int,
                ),
            decreases n - k,
        {
            out.push(trimmed[k]);
            k = k + 1;
            proof {
                assert(out@ =~= seq![82u8, 101u8, 99u8, 111u8, 114u8, 100u8, 40u8, 34u8]
                    + trimmed@.take(k as int));
            }
        }
        out.push(34u8);  // "
        out.push(41u8);  // )
        proof {
            assert(trimmed@.take(n as int) =~= trimmed@);
            assert(out@ =~= debug_bytes(self@));
            ascii::lemma_trim_ascii(self@);
        }
        ascii::bytes_to_string(out.as_slice())
    }
}

/// Record round-trip: a record built from ASCII content shorter than the
/// record width holds that content followed by space padding; content of
/// the record width or longer is truncated to exactly the first
/// [`RECORD_WIDTH`] bytes.
pub proof fn lemma_record_round_trip(bytes: Seq<u8>)
    requires
        ascii::is_ascii_seq(bytes),
    ensures
        bytes.len() < RECORD_WIDTH ==> record_of(bytes) == bytes + Seq::new(
            (RECORD_WIDTH - bytes.len()) as nat,
            |i: int| 32u8,
        ),
        bytes.len() >= RECORD_WIDTH ==> record_of(bytes) == bytes.take(RECORD_WIDTH as int),
{
    if bytes.len() < RECORD_WIDTH {
        assert(record_of(bytes) =~= bytes + Seq::new(
            (RECORD_WIDTH - bytes.len()) as nat,
            |i: int| 32u8,
        ));
    } else {
        assert(record_of(bytes) =~= bytes.take(RECORD_WIDTH as int));
    }
}

/// The byte contents of a sequence of records.
pub open spec fn recs_view(s: Seq<Record>) -> Seq<Seq<u8>> {
    s.map_values(|r: Record| r@)
}

/// The bytes of the debug rendering of a record: `Record("` plus the
/// content trimmed of whitespace at both ends plus `")`.
pub open spec fn debug_bytes(data: Seq<u8>) -> Seq<u8> {
    seq![82u8, 101u8, 99u8, 111u8, 114u8, 100u8, 40u8, 34u8] + ascii::trim_spec(data) + seq![
        34u8,
        41u8,
    ]
}

impl Clone for Record {
    /// Cloning keeps the record content.
    fn clone(&self) -> (r: Self)
        ensures
            r@ == self@,
    {
        proof {
            use_type_invariant(&*self);
        }
        let data = self.data.clone();
        proof {
            assert(data@ =~= self.data@);
        }
        Record { data }
    }
}

impl Default for Record {
    /// The default record is blank.
    fn default() -> (r: Self)
        ensures
            r@ == blank_record(),
    {
        Record::new()
    }
}

impl PartialEq for Record {
    /// Records compare byte for byte.
    fn eq(&self, other: &Self) -> (r: bool) {
        ascii::bytes_eq(self.data.as_slice(), other.data.as_slice())
    }
}

impl vstd::std_specs::cmp::PartialEqSpecImpl for Record {
    open spec fn obeys_eq_spec() -> bool {
        true
    }

    open spec fn eq_spec(&self, other: &Self) -> bool {
        self@ == other@
    }
}

} // verus!
