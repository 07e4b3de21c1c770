//! The outside functions the codec relies on, with the contracts assumed of
//! them.

use vstd::prelude::*;
use vstd::utf8::{valid_utf8, decode_utf8};
use csv_core::{ReadFieldResult, Reader, Writer};

verus! {

#[verifier::external_type_specification]
#[verifier::external_body]
pub struct ExReader(csv_core::Reader);

#[verifier::external_type_specification]
#[verifier::external_body]
pub struct ExWriter(csv_core::Writer);

/// Where a field reader stands between calls.
#[derive(Clone, Copy, Debug, PartialEq, Eq, Structural)]
pub enum ReaderMode {
    /// Made and not yet read from; a byte order mark is skipped here.
    Fresh,
    /// Between records, after the first read.
    Boundary,
    /// Just after a field delimiter, inside a record.
    InRecord,
    Other,
}

/// Where the reader stands.
pub uninterp spec fn reader_mode(r: csv_core::Reader) -> ReaderMode;

/// Where the writer stands: inside a field, inside quotes, and whether the
/// current record has bytes written.
pub uninterp spec fn writer_mode(w: csv_core::Writer) -> (bool, bool, bool);

pub assume_specification[ csv_core::Reader::new ]() -> (r: csv_core::Reader)
    ensures
        reader_mode(r) == ReaderMode::Fresh,
;

pub assume_specification[ csv_core::Writer::new ]() -> (w: csv_core::Writer)
    ensures
        writer_mode(w) == (false, false, false),
;

pub open spec fn is_separator(b: u8) -> bool {
    b == 44u8 || b == 10u8
}

/// Index of the first delimiter or line feed at or after `i`, or the length.
pub open spec fn first_separator(s: Seq<u8>, i: int) -> int
    decreases s.len() - i,
{
    if i >= s.len() {
        s.len() as int
    } else if is_separator(s[i]) {
        i
    } else {
        first_separator(s, i + 1)
    }
}

/// Index of the quote that closes a quoted field whose content starts at
/// `i`: the first quote not doubled; the length when there is none.
pub open spec fn quoted_end(s: Seq<u8>, i: int) -> int
    decreases s.len() - i,
{
    if i < 0 || i >= s.len() {
        s.len() as int
    } else if s[i] != 34u8 {
        quoted_end(s, i + 1)
    } else if i + 1 < s.len() && s[i + 1] == 34u8 {
        quoted_end(s, i + 2)
    } else {
        i
    }
}

/// Content of a quoted field from `i` up to `e`, doubled quotes made single.
pub open spec fn unquote(s: Seq<u8>, i: int, e: int) -> Seq<u8>
    decreases e - i,
{
    if i < 0 || i >= e {
        Seq::empty()
    } else if s[i] == 34u8 && i + 2 <= e {
        seq![34u8] + unquote(s, i + 2, e)
    } else {
        seq![s[i]] + unquote(s, i + 1, e)
    }
}

/// The reader is at the start of a field at `start`: inside a record, or
/// between records before a byte that is not a line feed (and, before the
/// first read, not a byte order mark).
pub open spec fn at_field_start(m: ReaderMode, line: Seq<u8>, start: int) -> bool {
    ||| m == ReaderMode::InRecord
    ||| (m == ReaderMode::Boundary && 0 <= start < line.len() && line[start] != 10u8)
    ||| (m == ReaderMode::Fresh && 0 <= start < line.len() && line[start] != 10u8 && !bom_at(line, start))
}

/// No quote or carriage return in `s` from `i` to `e` inclusive.
pub open spec fn plain_between(s: Seq<u8>, i: int, e: int) -> bool {
    forall|k: int| i <= k <= e && 0 <= k < s.len() ==> s[k] != 34u8 && s[k] != 13u8
}

/// A UTF-8 byte order mark starts at `i`.
pub open spec fn bom_at(s: Seq<u8>, i: int) -> bool {
    0 <= i && i + 3 <= s.len() && s[i] == 0xEFu8 && s[i + 1] == 0xBBu8 && s[i + 2] == 0xBFu8
}

/// Bytes that need quotes when written: delimiter, quote, CR, LF.
pub open spec fn is_special(b: u8) -> bool {
    b == 44u8 || b == 34u8 || b == 13u8 || b == 10u8
}

pub open spec fn needs_quotes(s: Seq<u8>) -> bool {
    exists|k: int| 0 <= k < s.len() && is_special(#[trigger] s[k])
}

/// The field with every quote doubled.
pub open spec fn escaped(s: Seq<u8>) -> Seq<u8>
    decreases s.len(),
{
    if s.len() == 0 {
        Seq::empty()
    } else {
        escaped(s.drop_last()) + (if s.last() == 34u8 { seq![34u8, 34u8] } else { seq![s.last()] })
    }
}

/// What one call of the field reader reported.
#[derive(Clone, Copy, Debug, PartialEq, Eq, Structural)]
pub enum FieldStep {
    InputEmpty,
    OutputFull,
    Field,
    End,
}

/// The text that lossy UTF-8 decoding gives for bytes that are not valid
/// UTF-8.
pub uninterp spec fn lossy_utf8(b: Seq<u8>) -> Seq<char>;

/// Text of a field: its decoding when it is valid UTF-8, else the lossy one.
pub open spec fn text_of(b: Seq<u8>) -> Seq<char> {
    if valid_utf8(b) {
        decode_utf8(b)
    } else {
        lossy_utf8(b)
    }
}

/// Unicode White_Space, as `char::is_whitespace` tests it.
pub open spec fn is_white_space(c: char) -> bool {
    let u = c as u32;
    ||| (0x9 <= u && u <= 0xD)
    ||| u == 0x20
    ||| u == 0x85
    ||| u == 0xA0
    ||| u == 0x1680
    ||| (0x2000 <= u && u <= 0x200A)
    ||| u == 0x2028
    ||| u == 0x2029
    ||| u == 0x202F
    ||| u == 0x205F
    ||| u == 0x3000
}

/// The text without its leading white space.
pub open spec fn trim_start(s: Seq<char>) -> Seq<char>
    decreases s.len(),
{
    if s.len() > 0 && is_white_space(s[0]) {
        trim_start(s.drop_first())
    } else {
        s
    }
}

/// The text without its trailing white space.
pub open spec fn trim_end(s: Seq<char>) -> Seq<char>
    decreases s.len(),
{
    if s.len() > 0 && is_white_space(s.last()) {
        trim_end(s.drop_last())
    } else {
        s
    }
}

/// The text with leading and trailing white space removed.
pub open spec fn trimmed(s: Seq<char>) -> Seq<char> {
    trim_end(trim_start(s))
}

/// Relies on csv_core::Reader::read_field (default settings) on the bytes
/// of `line` from `start`: it consumes part of that input (at least one byte
/// when there is any) and writes at most the length of `out`, whose length
/// stays. Between records, no input ends the data, and a lone line feed is
/// skipped. At a field start, an unquoted field without CR is copied up to
/// the next delimiter or line feed, which is consumed too; a quoted field
/// whose closing quote is followed by a delimiter or line feed has its
/// content copied with doubled quotes made single, and the quotes and that
/// separator consumed. Either only when the field fits in `out` with a byte
/// to spare; else the output is full.
#[verifier::external_body]
pub(crate) fn read_field(rdr: &mut Reader, line: &Vec<u8>, start: usize, out: &mut Vec<u8>) -> (r: (FieldStep, usize, usize))
    requires
        start <= line@.len(),
        old(out)@.len() > 0,
    ensures
        final(out)@.len() == old(out)@.len(),
        r.1 <= line@.len() - start,
        r.2 <= old(out)@.len(),
        start < line@.len() ==> r.1 >= 1,
        start == line@.len() ==> r.1 == 0,
        r.0 == FieldStep::Field ==> r.2 < old(out)@.len(),
        (reader_mode(*old(rdr)) == ReaderMode::Boundary || reader_mode(*old(rdr)) == ReaderMode::Fresh)
            && start == line@.len() ==> r.0 == FieldStep::End && reader_mode(*final(rdr))
            == ReaderMode::Boundary,
        (reader_mode(*old(rdr)) == ReaderMode::Boundary || reader_mode(*old(rdr)) == ReaderMode::Fresh)
            && start + 1 == line@.len() && line@[start as int] == 10u8 ==> r == (
            FieldStep::InputEmpty,
            1usize,
            0usize,
        ) && reader_mode(*final(rdr)) == ReaderMode::Boundary,
        ({
            let c = quoted_end(line@, start + 1);
            &&& at_field_start(reader_mode(*old(rdr)), line@, start as int)
            &&& start < line@.len() && line@[start as int] == 34u8
            &&& c + 1 < line@.len()
            &&& is_separator(line@[c + 1])
        }) ==> ({
            let c = quoted_end(line@, start + 1);
            let f = unquote(line@, start + 1, c);
            &&& f.len() < old(out)@.len() ==> {
                &&& r.0 == FieldStep::Field
                &&& r.1 == c + 2 - start
                &&& r.2 == f.len()
                &&& final(out)@.take(f.len() as int) == f
                &&& reader_mode(*final(rdr)) == (if line@[c + 1] == 44u8 {
                    ReaderMode::InRecord
                } else {
                    ReaderMode::Boundary
                })
            }
            &&& f.len() >= old(out)@.len() ==> r.0 == FieldStep::OutputFull
        }),
        ({
            let e = first_separator(line@, start as int);
            &&& at_field_start(reader_mode(*old(rdr)), line@, start as int)
            &&& e < line@.len()
            &&& plain_between(line@, start as int, e)
        }) ==> ({
            let e = first_separator(line@, start as int);
            &&& e - start < old(out)@.len() ==> {
                &&& r.0 == FieldStep::Field
                &&& r.1 == e - start + 1
                &&& r.2 == e - start
                &&& final(out)@.take(e - start) == line@.subrange(start as int, e)
                &&& reader_mode(*final(rdr)) == (if line@[e] == 44u8 {
                    ReaderMode::InRecord
                } else {
                    ReaderMode::Boundary
                })
            }
            &&& e - start >= old(out)@.len() ==> r.0 == FieldStep::OutputFull
        }),
{
    let (res, nin, nout) = rdr.read_field(&line[start..], out.as_mut_slice());
    let step = match res {
        ReadFieldResult::InputEmpty => FieldStep::InputEmpty,
        ReadFieldResult::OutputFull => FieldStep::OutputFull,
        ReadFieldResult::Field { .. } => FieldStep::Field,
        ReadFieldResult::End => FieldStep::End,
    };
    (step, nin, nout)
}

/// Relies on csv_core::Writer::field (default settings): at the start of a
/// field with room for every byte doubled plus two, it writes the whole
/// field, after an opening quote and with quotes doubled when it holds a
/// delimiter, quote, CR or LF, and returns how many bytes it wrote.
#[verifier::external_body]
pub(crate) fn write_field(wtr: &mut Writer, input: &[u8], out: &mut Vec<u8>) -> (r: usize)
    requires
        old(out)@.len() >= 2 + 2 * input@.len(),
    ensures
        final(out)@.len() == old(out)@.len(),
        r <= old(out)@.len(),
        !writer_mode(*old(wtr)).0 ==> {
            let q = needs_quotes(input@);
            let text = if q { seq![34u8] + escaped(input@) } else { input@ };
            &&& r == text.len()
            &&& final(out)@.take(r as int) == text
            &&& writer_mode(*final(wtr)) == (true, q, writer_mode(*old(wtr)).2 || r > 0)
        },
{
    let (_, _, nout) = wtr.field(input, out.as_mut_slice());
    nout
}

/// Relies on csv_core::Writer::delimiter: with room for two bytes it
/// closes an open quote and writes the delimiter, and returns how many bytes
/// it wrote.
#[verifier::external_body]
pub(crate) fn write_delimiter(wtr: &mut Writer, out: &mut Vec<u8>) -> (r: usize)
    requires
        old(out)@.len() >= 2,
    ensures
        final(out)@.len() == old(out)@.len(),
        r <= old(out)@.len(),
        final(out)@.take(r as int) == (if writer_mode(*old(wtr)).1 {
            seq![34u8, 44u8]
        } else {
            seq![44u8]
        }),
        writer_mode(*final(wtr)) == (false, false, true),
{
    let (_, nout) = wtr.delimiter(out.as_mut_slice());
    nout
}

/// Relies on csv_core::Writer::terminator: with room for four bytes it
/// writes `""` for a record with no bytes yet, closes an open quote, then
/// writes a line feed, and returns how many bytes it wrote. It asserts that
/// no quote is open in a record with no bytes.
#[verifier::external_body]
pub(crate) fn write_terminator(wtr: &mut Writer, out: &mut Vec<u8>) -> (r: usize)
    requires
        old(out)@.len() >= 4,
        !(writer_mode(*old(wtr)).1 && !writer_mode(*old(wtr)).2),
    ensures
        final(out)@.len() == old(out)@.len(),
        r <= old(out)@.len(),
        final(out)@.take(r as int) == (if writer_mode(*old(wtr)).2 {
            Seq::empty()
        } else {
            seq![34u8, 34u8]
        }) + (if writer_mode(*old(wtr)).1 {
            seq![34u8]
        } else {
            Seq::empty()
        }) + seq![10u8],
        writer_mode(*final(wtr)) == (false, false, false),
{
    let (_, nout) = wtr.terminator(out.as_mut_slice());
    nout
}

/// Relies on core::str::from_utf8: it succeeds exactly on valid UTF-8 and
/// then holds the decoded text.
#[verifier::external_body]
pub(crate) fn utf8_str(b: &[u8]) -> (r: Option<&str>)
    ensures
        r is Some <==> valid_utf8(b@),
        r is Some ==> r->0@ == decode_utf8(b@),
{
    core::str::from_utf8(b).ok()
}

/// Relies on String::from_utf8_lossy: valid UTF-8 is decoded as it is,
/// other bytes give the lossy text.
#[verifier::external_body]
pub(crate) fn lossy_string(b: &[u8]) -> (r: String)
    ensures
        valid_utf8(b@) ==> r@ == decode_utf8(b@),
        !valid_utf8(b@) ==> r@ == lossy_utf8(b@),
{
    String::from_utf8_lossy(b).to_string()
}

/// Relies on str::trim: leading and trailing Unicode White_Space is
/// removed.
#[verifier::external_body]
pub(crate) fn trim_str(s: &str) -> (r: &str)
    ensures
        r@ == trimmed(s@),
{
    s.trim()
}

} // verus!
