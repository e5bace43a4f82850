//! Byte-level text helpers for ASCII record data.
//!
//! Records and command lines are processed as byte sequences. The spec
//! functions here define trimming, prefix/substring search, case folding
//! and decimal digits over `Seq<u8>`; the executable functions are proved
//! to match them.

use vstd::prelude::*;

verus! {

/// The ASCII whitespace bytes: tab through carriage return, and space.
/// These are exactly the characters below 128 that Rust's `char::is_whitespace`
/// accepts.
pub open spec fn is_space(b: u8) -> bool {
    b == 32 || (9 <= b && b <= 13)
}

pub open spec fn is_ascii_byte(b: u8) -> bool {
    b < 128
}

pub open spec fn is_ascii_seq(s: Seq<u8>) -> bool {
    forall|i: int| 0 <= i < s.len() ==> is_ascii_byte(#[trigger] s[i])
}

/// The characters an ASCII byte sequence decodes to: one char per byte,
/// with the same code point.
pub open spec fn ascii_chars_of(s: Seq<u8>) -> Seq<char> {
    s.map_values(|b: u8| b as char)
}

pub open spec fn trim_start_spec(s: Seq<u8>) -> Seq<u8>
    decreases s.len(),
{
    if s.len() > 0 && is_space(s.first()) {
        trim_start_spec(s.drop_first())
    } else {
        s
    }
}

pub open spec fn trim_end_spec(s: Seq<u8>) -> Seq<u8>
    decreases s.len(),
{
    if s.len() > 0 && is_space(s.last()) {
        trim_end_spec(s.drop_last())
    } else {
        s
    }
}

/// Both-ends whitespace trim, as `str::trim` does on ASCII text.
pub open spec fn trim_spec(s: Seq<u8>) -> Seq<u8> {
    trim_end_spec(trim_start_spec(s))
}

pub open spec fn is_prefix_of(p: Seq<u8>, s: Seq<u8>) -> bool {
    p.len() <= s.len() && s.subrange(0, p.len() as int) == p
}

/// `needle` occurs contiguously somewhere in `hay`.
pub open spec fn contains_sub(hay: Seq<u8>, needle: Seq<u8>) -> bool {
    exists|i: int|
        0 <= i <= hay.len() - needle.len() && #[trigger] hay.subrange(i, i + needle.len())
            == needle
}

/// ASCII upper-casing of one byte.
pub open spec fn to_upper(b: u8) -> u8 {
    if 97 <= b && b <= 122 {
        (b - 32) as u8
    } else {
        b
    }
}

pub open spec fn upper_seq(s: Seq<u8>) -> Seq<u8> {
    s.map_values(|b: u8| to_upper(b))
}

/// The decimal digits of `n`, most significant first, as ASCII bytes.
pub open spec fn dec_digits(n: nat) -> Seq<u8>
    decreases n,
{
    if n < 10 {
        seq![(48 + n) as u8]
    } else {
        dec_digits(n / 10).push((48 + n % 10) as u8)
    }
}

/// Copies `s[from..to]` into a fresh vector.
pub fn subrange_copy(s: &[u8], from: usize, to: usize) -> (r: Vec<u8>)
    requires
        from <= to <= s@.len(),
    ensures
        r@ == s@.subrange(from as int, to as int),
{
    let mut r: Vec<u8> = Vec::new();
    let mut i: usize = from;
    while i < to
        invariant
            from <= i <= to <= s@.len(),
            r@ == s@.subrange(from as int, i as int),
        decreases to - i,
    {
        r.push(s[i]);
        i = i + 1;
        proof {
            assert(r@ =~= s@.subrange(from as int, i as int));
        }
    }
    r
}

fn is_space_byte(b: u8) -> (r: bool)
    ensures
        r == is_space(b),
{
    b == 32 || (9 <= b && b <= 13)
}

proof fn lemma_trim_start_step(s: Seq<u8>, i: int)
    requires
        0 <= i < s.len(),
        is_space(s[i]),
    ensures
        trim_start_spec(s.skip(i)) == trim_start_spec(s.skip(i + 1)),
{
    assert(s.skip(i).first() == s[i]);
    assert(s.skip(i).drop_first() =~= s.skip(i + 1));
}

/// The index where the trimmed-from-the-start part of `s` begins.
pub fn trim_start_idx(s: &[u8]) -> (r: usize)
    ensures
        r <= s@.len(),
        s@.skip(r as int) == trim_start_spec(s@),
{
    let n: usize = s.len();
    let mut i: usize = 0;
    proof {
        assert(s@.skip(0) =~= s@);
    }
    while i < n && is_space_byte(s[i])
        invariant
            0 <= i <= n == s@.len(),
            trim_start_spec(s@.skip(i as int)) == trim_start_spec(s@),
        decreases n - i,
    {
        proof {
            lemma_trim_start_step(s@, i as int);
        }
        i = i + 1;
    }
    proof {
        if i < n {
            assert(s@.skip(i as int).first() == s@[i as int]);
        }
        assert(trim_start_spec(s@.skip(i as int)) == s@.skip(i as int));
    }
    i
}

proof fn lemma_trim_end_step(s: Seq<u8>, i: int)
    requires
        0 < i <= s.len(),
        is_space(s[i - 1]),
    ensures
        trim_end_spec(s.take(i)) == trim_end_spec(s.take(i - 1)),
{
    assert(s.take(i).last() == s[i - 1]);
    assert(s.take(i).drop_last() =~= s.take(i - 1));
}

/// The index just past the trimmed-from-the-end part of `s`.
pub fn trim_end_idx(s: &[u8]) -> (r: usize)
    ensures
        r <= s@.len(),
        s@.take(r as int) == trim_end_spec(s@),
{
    let n: usize = s.len();
    let mut i: usize = n;
    proof {
        assert(s@.take(n as int) =~= s@);
    }
    while i > 0 && is_space_byte(s[i - 1])
        invariant
            0 <= i <= n == s@.len(),
            trim_end_spec(s@.take(i as int)) == trim_end_spec(s@),
        decreases i,
    {
        proof {
            lemma_trim_end_step(s@, i as int);
        }
        i = i - 1;
    }
    proof {
        if i > 0 {
            assert(s@.take(i as int).last() == s@[i as int - 1]);
        }
        assert(trim_end_spec(s@.take(i as int)) == s@.take(i as int));
    }
    i
}

/// Copies `s` with ASCII whitespace removed from both ends.
pub fn trim_copy(s: &[u8]) -> (r: Vec<u8>)
    ensures
        r@ == trim_spec(s@),
{
    let start: usize = trim_start_idx(s);
    let n: usize = s.len();
    let mut end: usize = n;
    proof {
        assert(s@.skip(start as int).take((n - start) as int) =~= s@.skip(start as int));
    }
    while end > start && is_space_byte(s[end - 1])
        invariant
            start <= end <= n == s@.len(),
            s@.skip(start as int) == trim_start_spec(s@),
            trim_end_spec(s@.skip(start as int).take(end - start)) == trim_end_spec(
                trim_start_spec(s@),
            ),
        decreases end,
    {
        proof {
            assert(s@.skip(start as int).take(end - start).last() == s@[end as int - 1]);
            lemma_trim_end_step(s@.skip(start as int), end - start);
            assert(s@.skip(start as int).take(end - start - 1) =~= s@.skip(start as int).take(
                (end - 1) - start,
            ));
        }
        end = end - 1;
    }
    proof {
        let t = s@.skip(start as int).take(end - start);
        if end > start {
            assert(t.last() == s@[end as int - 1]);
        }
        assert(trim_end_spec(t) == t);
        assert(t =~= s@.subrange(start as int, end as int));
    }
    subrange_copy(s, start, end)
}

/// Copies `s` with ASCII whitespace removed from the start only.
pub fn trim_start_copy(s: &[u8]) -> (r: Vec<u8>)
    ensures
        r@ == trim_start_spec(s@),
{
    let start: usize = trim_start_idx(s);
    proof {
        assert(s@.skip(start as int) =~= s@.subrange(start as int, s@.len() as int));
    }
    subrange_copy(s, start, s.len())
}

/// Byte-for-byte equality of two slices.
pub fn bytes_eq(a: &[u8], b: &[u8]) -> (r: bool)
    ensures
        r == (a@ == b@),
{
    let n: usize = a.len();
    if n != b.len() {
        proof {
            assert(a@.len() != b@.len());
        }
        return false;
    }
    let mut i: usize = 0;
    while i < n
        invariant
            0 <= i <= n,
            n == a@.len() == b@.len(),
            forall|j: int| 0 <= j < i ==> a@[j] == b@[j],
        decreases n - i,
    {
        if a[i] != b[i] {
            return false;
        }
        i = i + 1;
    }
    proof {
        assert(a@ =~= b@);
    }
    true
}

/// Whether `s` starts with `p`, byte for byte.
pub fn starts_with_bytes(s: &[u8], p: &[u8]) -> (r: bool)
    ensures
        r == is_prefix_of(p@, s@),
{
    let m: usize = p.len();
    if m > s.len() {
        return false;
    }
    let mut i: usize = 0;
    while i < m
        invariant
            0 <= i <= m == p@.len(),
            m <= s@.len(),
            forall|j: int| 0 <= j < i ==> s@[j] == p@[j],
        decreases m - i,
    {
        if s[i] != p[i] {
            proof {
                assert(s@.subrange(0, m as int)[i as int] != p@[i as int]);
            }
            return false;
        }
        i = i + 1;
    }
    proof {
        assert(s@.subrange(0, m as int) =~= p@);
    }
    true
}

/// Whether `needle` occurs contiguously in `hay`.
pub fn contains_bytes(hay: &[u8], needle: &[u8]) -> (r: bool)
    ensures
        r == contains_sub(hay@, needle@),
{
    match find_sub(hay, needle) {
        Some(_) => true,
        None => false,
    }
}

/// The first index where `needle` occurs in `hay`, if any.
pub fn find_sub(hay: &[u8], needle: &[u8]) -> (r: Option<usize>)
    ensures
        match r {
            Some(i) => i + needle@.len() <= hay@.len() && hay@.subrange(
                i as int,
                i + needle@.len(),
            ) == needle@ && forall|j: int|
                0 <= j < i ==> #[trigger] hay@.subrange(j, j + needle@.len()) != needle@,
            None => !contains_sub(hay@, needle@),
        },
{
    let m: usize = needle.len();
    let n: usize = hay.len();
    if m > n {
        return None;
    }
    if m == 0 {
        proof {
            assert(hay@.subrange(0, 0) =~= needle@);
        }
        return Some(0);
    }
    let mut i: usize = 0;
    while i <= n - m
        invariant
            0 <= i <= n - m + 1,
            1 <= m <= n,
            m == needle@.len(),
            n == hay@.len(),
            forall|j: int| 0 <= j < i ==> #[trigger] hay@.subrange(j, j + m as int) != needle@,
        decreases n - i,
    {
        let mut k: usize = 0;
        let mut matches: bool = true;
        while k < m && matches
            invariant
                0 <= k <= m,
                i + m <= n,
                m == needle@.len(),
                n == hay@.len(),
                matches ==> forall|t: int| 0 <= t < k ==> hay@[i + t] == needle@[t],
                !matches ==> hay@.subrange(i as int, i + m as int) != needle@,
            decreases m - k, (if matches { 1int } else { 0int }),
        {
            if hay[i + k] != needle[k] {
                proof {
                    assert(hay@.subrange(i as int, i + m as int)[k as int] != needle@[k as int]);
                }
                matches = false;
            } else {
                k = k + 1;
            }
        }
        if matches {
            proof {
                assert(hay@.subrange(i as int, i + m as int) =~= needle@);
            }
            return Some(i);
        }
        proof {
            assert(hay@.subrange(i as int, i + m as int) != needle@);
        }
        i = i + 1;
    }
    None
}

fn upper_byte(b: u8) -> (r: u8)
    ensures
        r == to_upper(b),
{
    if 97 <= b && b <= 122 {
        b - 32
    } else {
        b
    }
}

/// Whether `s` starts with `p` up to ASCII case.
pub fn starts_with_ci(s: &[u8], p: &[u8]) -> (r: bool)
    ensures
        r == is_prefix_of(upper_seq(p@), upper_seq(s@)),
{
    let m: usize = p.len();
    if m > s.len() {
        return false;
    }
    let mut i: usize = 0;
    while i < m
        invariant
            0 <= i <= m == p@.len(),
            m <= s@.len(),
            forall|j: int| 0 <= j < i ==> to_upper(s@[j]) == to_upper(p@[j]),
        decreases m - i,
    {
        if upper_byte(s[i]) != upper_byte(p[i]) {
            proof {
                assert(upper_seq(s@).subrange(0, m as int)[i as int] != upper_seq(p@)[i as int]);
            }
            return false;
        }
        i = i + 1;
    }
    proof {
        assert(upper_seq(s@).subrange(0, m as int) =~= upper_seq(p@));
    }
    true
}

/// Whether the two slices are equal up to ASCII case.
pub fn eq_ignore_case(a: &[u8], b: &[u8]) -> (r: bool)
    ensures
        r == (upper_seq(a@) == upper_seq(b@)),
{
    let n: usize = a.len();
    if n != b.len() {
        proof {
            assert(upper_seq(a@).len() != upper_seq(b@).len());
        }
        return false;
    }
    let mut i: usize = 0;
    while i < n
        invariant
            0 <= i <= n,
            n == a@.len() == b@.len(),
            forall|j: int| 0 <= j < i ==> to_upper(a@[j]) == to_upper(b@[j]),
        decreases n - i,
    {
        if upper_byte(a[i]) != upper_byte(b[i]) {
            proof {
                assert(upper_seq(a@)[i as int] != upper_seq(b@)[i as int]);
            }
            return false;
        }
        i = i + 1;
    }
    proof {
        assert(upper_seq(a@) =~= upper_seq(b@));
    }
    true
}

/// The decimal digits of `n` as ASCII bytes, most significant first.
pub fn dec_bytes(n: u64) -> (r: Vec<u8>)
    ensures
        r@ == dec_digits(n as nat),
    decreases n,
{
    if n < 10 {
        let mut v: Vec<u8> = Vec::new();
        v.push(48 + (n as u8));
        v
    } else {
        let mut v: Vec<u8> = dec_bytes(n / 10);
        v.push(48 + ((n % 10) as u8));
        v
    }
}

/// Relies on `String::from_utf8_lossy`: bytes that are valid UTF-8 decode
/// without replacement, so ASCII bytes come back as the characters with the
/// same code points.
#[verifier::external_body]
pub fn bytes_to_string(bytes: &[u8]) -> (r: String)
    ensures
        is_ascii_seq(bytes@) ==> r@ == ascii_chars_of(bytes@),
{
    String::from_utf8_lossy(bytes).into_owned()
}

/// ASCII bytes decode to chars that encode back to the same bytes.
pub proof fn lemma_encode_ascii(bytes: Seq<u8>)
    requires
        is_ascii_seq(bytes),
    ensures
        vstd::utf8::encode_utf8(ascii_chars_of(bytes)) == bytes,
{
    let chars = ascii_chars_of(bytes);
    assert(vstd::utf8::is_ascii_chars(chars)) by {
        assert forall|i: int| 0 <= i < chars.len() implies '\0' <= #[trigger] chars[i]
            <= '\u{7f}' by {
            assert(chars[i] == bytes[i] as char);
            assert(bytes[i] < 128);
        }
    }
    vstd::utf8::is_ascii_chars_encode_utf8(chars);
    assert forall|i: int| 0 <= i < chars.len() implies vstd::utf8::encode_utf8(chars)[i]
        == bytes[i] by {
        assert(chars[i] as u8 == vstd::utf8::encode_utf8(chars)[i]);
        assert((bytes[i] as char) as u8 == bytes[i]);
    }
    assert(vstd::utf8::encode_utf8(chars) =~= bytes);
}

/// An ASCII decimal digit.
pub open spec fn is_digit(b: u8) -> bool {
    48 <= b && b <= 57
}

pub open spec fn all_digits(s: Seq<u8>) -> bool {
    forall|i: int| 0 <= i < s.len() ==> is_digit(#[trigger] s[i])
}

/// The number a digit string denotes, most significant digit first.
pub open spec fn dec_value(s: Seq<u8>) -> nat
    decreases s.len(),
{
    if s.len() == 0 {
        0
    } else {
        dec_value(s.drop_last()) * 10 + (if is_digit(s.last()) {
            (s.last() - 48) as nat
        } else {
            0
        })
    }
}

/// What `str::parse::<usize>` accepts: an optional leading `+`, then one
/// or more decimal digits, denoting a value that fits.
pub open spec fn parse_usize_spec(s: Seq<u8>) -> Option<usize> {
    let t = if s.len() > 0 && s[0] == 43 {
        s.drop_first()
    } else {
        s
    };
    if t.len() > 0 && all_digits(t) && dec_value(t) <= usize::MAX as nat {
        Some(dec_value(t) as usize)
    } else {
        None
    }
}

/// A longer digit string never denotes a smaller number.
pub proof fn lemma_dec_value_mono(s: Seq<u8>, i: int)
    requires
        0 <= i <= s.len(),
    ensures
        dec_value(s.take(i)) <= dec_value(s),
    decreases s.len() - i,
{
    if i < s.len() {
        assert(s.take(i + 1).drop_last() =~= s.take(i));
        assert(s.take(i + 1).last() == s[i]);
        assert(dec_value(s.take(i)) <= dec_value(s.take(i + 1)));
        lemma_dec_value_mono(s, i + 1);
        assert(s.take(s.len() as int) =~= s);
    } else {
        assert(s.take(i) =~= s);
    }
}

/// Parses a decimal number as `str::parse::<usize>` does.
pub fn parse_usize(s: &[u8]) -> (r: Option<usize>)
    ensures
        r == parse_usize_spec(s@),
{
    let n: usize = s.len();
    let start: usize = if n > 0 && s[0] == 43 {
        1
    } else {
        0
    };
    let ghost t = if s@.len() > 0 && s@[0] == 43 {
        s@.drop_first()
    } else {
        s@
    };
    proof {
        assert(t =~= s@.skip(start as int));
    }
    if start == n {
        return None;
    }
    let mut acc: usize = 0;
    let mut i: usize = start;
    while i < n
        invariant
            start <= i <= n == s@.len(),
            start <= 1,
            (start == 1) == (s@.len() > 0 && s@[0] == 43),
            t == s@.skip(start as int),
            t == (if s@.len() > 0 && s@[0] == 43 {
                s@.drop_first()
            } else {
                s@
            }),
            start + t.len() == n,
            all_digits(t.take(i - start)),
            acc == dec_value(t.take(i - start)),
        decreases n - i,
    {
        let b: u8 = s[i];
        if b < 48 || b > 57 {
            proof {
                assert(t[i - start] == s@[i as int]);
                assert(!is_digit(t[i - start]));
            }
            return None;
        }
        let d: usize = (b - 48) as usize;
        let ghost k = i - start;
        proof {
            assert(t.take(k + 1).drop_last() =~= t.take(k as int));
            assert(t.take(k + 1).last() == t[k as int]);
            assert(t[k as int] == s@[i as int]);
            assert(dec_value(t.take(k + 1)) == acc * 10 + d);
        }
        let stepped = acc.checked_mul(10);
        match stepped {
            Some(v) => {
                let added = v.checked_add(d);
                match added {
                    Some(v2) => {
                        acc = v2;
                    },
                    None => {
                        proof {
                            lemma_dec_value_mono(t, k + 1);
                        }
                        return None;
                    },
                }
            },
            None => {
                proof {
                    lemma_dec_value_mono(t, k + 1);
                }
                return None;
            },
        }
        i = i + 1;
        proof {
            assert(all_digits(t.take(i - start)));
        }
    }
    proof {
        assert(t.take((n - start) as int) =~= t);
    }
    Some(acc)
}

/// Trimming keeps a sequence ASCII.
pub proof fn lemma_trim_ascii(s: Seq<u8>)
    requires
        is_ascii_seq(s),
    ensures
        is_ascii_seq(trim_spec(s)),
{
    lemma_trim_start_ascii(s);
    lemma_trim_end_ascii(trim_start_spec(s));
}

pub proof fn lemma_trim_start_ascii(s: Seq<u8>)
    requires
        is_ascii_seq(s),
    ensures
        is_ascii_seq(trim_start_spec(s)),
    decreases s.len(),
{
    if s.len() > 0 && is_space(s.first()) {
        assert(is_ascii_seq(s.drop_first()));
        lemma_trim_start_ascii(s.drop_first());
    }
}

pub proof fn lemma_trim_end_ascii(s: Seq<u8>)
    requires
        is_ascii_seq(s),
    ensures
        is_ascii_seq(trim_end_spec(s)),
    decreases s.len(),
{
    if s.len() > 0 && is_space(s.last()) {
        assert(is_ascii_seq(s.drop_last()));
        lemma_trim_end_ascii(s.drop_last());
    }
}

} // verus!
