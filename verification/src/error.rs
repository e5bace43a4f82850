//! Error values for pipeline operations.
//!
//! Field access in records never produces these: out-of-range fields are
//! clamped, as mainframe layouts routinely carry filler regions. The
//! variants exist for callers that surface record-length and stage
//! problems of their own, and for wrapping input/output failures outside
//! the library.

use crate::ascii;
use vstd::prelude::*;

verus! {

/// Errors that can occur around pipeline processing.
pub enum PipelineError {
    /// A field position lies outside the record.
    FieldOutOfBounds { start: usize, length: usize, record_len: usize },
    /// A record was not exactly the record width.
    InvalidRecordLength(usize),
    /// An input/output failure, described by its message.
    Io(String),
    /// A stage-specific failure.
    Stage(String),
}

impl PipelineError {
    /// The error's message text.
    pub fn message(&self) -> (r: String)
        ensures
            r@ == match self {
                PipelineError::FieldOutOfBounds { start, length, record_len } => "field position "@
                    + ascii::ascii_chars_of(ascii::dec_digits(*start as nat)) + ":"@
                    + ascii::ascii_chars_of(ascii::dec_digits(*length as nat))
                    + " exceeds record length "@ + ascii::ascii_chars_of(
                    ascii::dec_digits(*record_len as nat),
                ),
                PipelineError::InvalidRecordLength(got) => "invalid record length: expected 80, got "@
                    + ascii::ascii_chars_of(ascii::dec_digits(*got as nat)),
                PipelineError::Io(msg) => "I/O error: "@ + msg@,
                PipelineError::Stage(msg) => "stage error: "@ + msg@,
            },
    {
        match self {
            PipelineError::FieldOutOfBounds { start, length, record_len } => {
                let mut s = String::new();
                s.append("field position ");
                let ds = dec_string(*start);
                s.append(ds.as_str());
                s.append(":");
                let dl = dec_string(*length);
                s.append(dl.as_str());
                s.append(" exceeds record length ");
                let dr = dec_string(*record_len);
                s.append(dr.as_str());
                s
            },
            PipelineError::InvalidRecordLength(got) => {
                let mut s = String::new();
                s.append("invalid record length: expected 80, got ");
                let d = dec_string(*got);
                s.append(d.as_str());
                s
            },
            PipelineError::Io(msg) => {
                let mut s = String::new();
                s.append("I/O error: ");
                s.append(msg.as_str());
                s
            },
            PipelineError::Stage(msg) => {
                let mut s = String::new();
                s.append("stage error: ");
                s.append(msg.as_str());
                s
            },
        }
    }
}

/// The decimal rendering of a number.
pub fn dec_string(n: usize) -> (r: String)
    ensures
        r@ == ascii::ascii_chars_of(ascii::dec_digits(n as nat)),
{
    let bytes = ascii::dec_bytes(n as u64);
    proof {
        lemma_dec_digits_ascii(n as nat);
    }
    ascii::bytes_to_string(bytes.as_slice())
}

/// Decimal digits are ASCII.
pub proof fn lemma_dec_digits_ascii(n: nat)
    ensures
        ascii::is_ascii_seq(ascii::dec_digits(n)),
    decreases n,
{
    if n >= 10 {
        lemma_dec_digits_ascii(n / 10);
        assert(forall|i: int|
            0 <= i < ascii::dec_digits(n).len() - 1 ==> ascii::dec_digits(n)[i] == ascii::dec_digits(
                n / 10,
            )[i]);
    }
}

} // verus!
