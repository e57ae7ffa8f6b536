//! The header reader: three text fields at fixed offsets, each absent when it
//! cannot be read.
use crate::types::PatternMetadata;
use vstd::prelude::*;
use vstd::slice::slice_subrange;
use vstd::utf8::{decode_utf8, valid_utf8};

verus! {

/// Size of the file header in bytes; the stitch records follow it.
pub const HEADER_SIZE: usize = 512;

/// Byte range of the label field.
pub const LABEL_START: usize = 3;

pub const LABEL_END: usize = 19;

/// Byte range of the declared stitch count.
pub const STITCH_COUNT_START: usize = 23;

pub const STITCH_COUNT_END: usize = 30;

/// Byte range of the declared color count.
pub const COLOR_COUNT_START: usize = 31;

pub const COLOR_COUNT_END: usize = 34;

/// What `str::trim` leaves of `s`: `s` without its leading and trailing
/// Unicode white space.
pub uninterp spec fn trimmed(s: Seq<char>) -> Seq<char>;

/// `b` without its trailing zero bytes.
pub open spec fn strip_trailing_zeros(b: Seq<u8>) -> Seq<u8>
    decreases b.len(),
{
    if b.len() > 0 && b.last() == 0 {
        strip_trailing_zeros(b.drop_last())
    } else {
        b
    }
}

/// `c` is an ASCII decimal digit.
pub open spec fn is_digit(c: char) -> bool {
    '0' <= c <= '9'
}

/// Value of a string of decimal digits.
pub open spec fn digits_value(s: Seq<char>) -> nat
    decreases s.len(),
{
    if s.len() == 0 {
        0
    } else {
        digits_value(s.drop_last()) * 10 + (s.last() as nat - '0' as nat) as nat
    }
}

/// What `u32::from_str` accepts: an optional `+` and then one or more
/// decimal digits whose value fits in a `u32`.
pub open spec fn decimal_u32(s: Seq<char>) -> Option<u32> {
    let d = if s.len() > 0 && s[0] == '+' {
        s.drop_first()
    } else {
        s
    };
    if d.len() > 0 && (forall|i: int| 0 <= i < d.len() ==> is_digit(#[trigger] d[i]))
        && digits_value(d) <= u32::MAX {
        Some(digits_value(d) as u32)
    } else {
        None
    }
}

/// The text of the field `data[start..end]`: trailing zero bytes dropped,
/// decoded as UTF-8, then trimmed; absent when it is not UTF-8.
pub open spec fn field_text(data: Seq<u8>, start: int, end: int) -> Option<Seq<char>> {
    let raw = strip_trailing_zeros(data.subrange(start, end));
    if valid_utf8(raw) {
        Some(trimmed(decode_utf8(raw)))
    } else {
        None
    }
}

/// The label of the header: its text, absent when unreadable or empty.
pub open spec fn header_label(data: Seq<u8>) -> Option<Seq<char>> {
    match field_text(data, LABEL_START as int, LABEL_END as int) {
        Some(t) => if t.len() > 0 {
            Some(t)
        } else {
            None
        },
        None => None,
    }
}

/// A count field of the header: its text read as a `u32`, absent on failure.
pub open spec fn header_count(data: Seq<u8>, start: int, end: int) -> Option<u32> {
    match field_text(data, start, end) {
        Some(t) => decimal_u32(t),
        None => None,
    }
}

/// `m` holds what the header of `data` declares.
pub open spec fn header_matches(m: PatternMetadata, data: Seq<u8>) -> bool {
    &&& m.label_view() == header_label(data)
    &&& m.stitch_count == header_count(
        data,
        STITCH_COUNT_START as int,
        STITCH_COUNT_END as int,
    )
    &&& m.color_count == header_count(data, COLOR_COUNT_START as int, COLOR_COUNT_END as int)
}

/// Relies on `std::str::from_utf8`: it succeeds exactly on valid UTF-8, and
/// the string then holds the decoded characters.
#[verifier::external_body]
fn utf8_str(b: &[u8]) -> (r: Option<&str>)
    ensures
        r.is_some() == valid_utf8(b@),
        r matches Some(s) ==> s@ == decode_utf8(b@),
{
    std::str::from_utf8(b).ok()
}

/// Relies on `str::trim`: leading and trailing white space removed.
#[verifier::external_body]
fn trim_str(s: &str) -> (r: &str)
    ensures
        r@ == trimmed(s@),
{
    s.trim()
}

/// Relies on `u32::from_str`: an optional `+` and decimal digits, with no
/// overflow.
#[verifier::external_body]
fn parse_u32(s: &str) -> (r: Option<u32>)
    ensures
        r == decimal_u32(s@),
{
    s.parse::<u32>().ok()
}

/// The trimmed text of the field `data[start..end]`.
fn read_field(data: &[u8], start: usize, end: usize) -> (r: Option<&str>)
    requires
        start <= end <= data@.len(),
    ensures
        r matches Some(t) ==> field_text(data@, start as int, end as int) == Some(t@),
        r is None ==> field_text(data@, start as int, end as int) is None,
{
    let field = slice_subrange(data, start, end);
    let mut len = field.len();
    assert(field@.subrange(0, len as int) == field@);
    while len > 0 && field[len - 1] == 0
        invariant
            len <= field@.len(),
            strip_trailing_zeros(field@.subrange(0, len as int)) == strip_trailing_zeros(field@),
        decreases len,
    {
        proof {
            assert(field@.subrange(0, len as int).drop_last() == field@.subrange(0, len - 1));
        }
        len -= 1;
    }
    let raw = slice_subrange(field, 0, len);
    match utf8_str(raw) {
        Some(text) => Some(trim_str(text)),
        None => None,
    }
}

/// Reads the label, stitch count and color count from the header of `data`;
/// each field is absent where it cannot be read. A buffer shorter than the
/// header gives no fields.
pub fn parse_header(data: &[u8]) -> (r: PatternMetadata)
    ensures
        data@.len() < HEADER_SIZE ==> r.label is None && r.stitch_count is None && r.color_count is None,
        data@.len() >= HEADER_SIZE ==> header_matches(r, data@),
{
    let mut metadata = PatternMetadata::default();
    if data.len() < HEADER_SIZE {
        return metadata;
    }
    if let Some(label) = read_field(data, LABEL_START, LABEL_END) {
        if !label.is_empty() {
            metadata.label = Some(label.to_owned());
        }
    }
    if let Some(count) = read_field(data, STITCH_COUNT_START, STITCH_COUNT_END) {
        metadata.stitch_count = parse_u32(count);
    }
    if let Some(count) = read_field(data, COLOR_COUNT_START, COLOR_COUNT_END) {
        metadata.color_count = parse_u32(count);
    }
    metadata
}

} // verus!
