//! Flashcard records and the codec between them and delimited text lines.

use vstd::prelude::*;
use vstd::utf8::{valid_utf8, decode_utf8, encode_utf8, encode_scalar};
use crate::outside::{
    FieldStep, ReaderMode, text_of, trimmed, read_field, write_field, write_delimiter,
    write_terminator, utf8_str, lossy_string, trim_str, reader_mode, writer_mode, first_separator,
    is_separator, bom_at, needs_quotes, escaped, is_special, quoted_end, unquote, plain_between,
};
use csv_core::{Reader, Writer};

verus! {

/// One flashcard: front text, back text and the starred flag.
#[derive(Clone, Debug, Default, Eq, Hash)]
pub struct Flashcard {
    pub a: String,
    pub b: String,
    pub star: bool,
}

/// The mathematical value of a flashcard.
pub struct CardModel {
    pub front: Seq<char>,
    pub back: Seq<char>,
    pub star: bool,
}

impl View for Flashcard {
    type V = CardModel;

    open spec fn view(&self) -> CardModel {
        CardModel { front: self.a@, back: self.b@, star: self.star }
    }
}

impl PartialEq for Flashcard {
    fn eq(&self, other: &Flashcard) -> (r: bool) {
        self.a == other.a && self.b == other.b && self.star == other.star
    }
}

impl vstd::std_specs::cmp::PartialEqSpecImpl for Flashcard {
    open spec fn obeys_eq_spec() -> bool {
        true
    }

    open spec fn eq_spec(&self, other: &Flashcard) -> bool {
        self@ == other@
    }
}

impl Flashcard {
    /// A copy of this card.
    pub fn duplicate(&self) -> (r: Flashcard)
        ensures
            r@ == self@,
    {
        Flashcard { a: self.a.clone(), b: self.b.clone(), star: self.star }
    }

    /// A copy of this card with the starred flag flipped.
    pub fn star_toggled(&self) -> (r: Flashcard)
        ensures
            r@ == (CardModel { front: self@.front, back: self@.back, star: !self.star }),
    {
        Flashcard { a: self.a.clone(), b: self.b.clone(), star: !self.star }
    }
}

/// The models of a sequence of cards.
pub open spec fn models(cards: Seq<Flashcard>) -> Seq<CardModel> {
    cards.map_values(|c: Flashcard| c@)
}


/// Largest number of bytes a single field may hold when read.
pub const FIELD_CAPACITY: usize = 1024;

/// Number of leading fields of a line that make up a card.
pub const CARD_FIELDS: usize = 3;

/// Why a stream of lines could not be read as cards.
#[derive(Clone, Copy, Debug, PartialEq, Eq, Structural)]
pub enum CsvError {
    /// A field did not fit in the field buffer.
    FieldTooLarge,
}

/// ASCII lower case of a byte.
pub open spec fn lower(b: u8) -> u8 {
    if 65 <= b && b <= 90 { (b + 32) as u8 } else { b }
}

/// Equal up to ASCII case.
pub open spec fn ascii_ci_eq(x: Seq<u8>, y: Seq<u8>) -> bool {
    &&& x.len() == y.len()
    &&& forall|i: int| 0 <= i < x.len() ==> lower(#[trigger] x[i]) == lower(y[i])
}

/// Trimmed field text that marks a card as starred: `1`, `true` in any case,
/// or anything that starts with `star` in any case.
pub open spec fn truthy_bytes(t: Seq<u8>) -> bool {
    ||| t == seq![49u8]
    ||| ascii_ci_eq(t, seq![116u8, 114u8, 117u8, 101u8])
    ||| (t.len() >= 4 && ascii_ci_eq(t.take(4), seq![115u8, 116u8, 97u8, 114u8]))
}

/// Whether the bytes of a third field mark the card as starred: they are
/// UTF-8 and their trimmed text is truthy.
pub open spec fn star_marker(b: Seq<u8>) -> bool {
    valid_utf8(b) && truthy_bytes(encode_utf8(trimmed(decode_utf8(b))))
}

/// The card a line with these fields gives: none without a first field;
/// missing text defaults to empty, a missing marker to not starred; fields
/// after the third are ignored.
pub open spec fn card_of_fields(fields: Seq<Seq<u8>>) -> Option<CardModel> {
    if fields.len() == 0 {
        None
    } else {
        Some(CardModel {
            front: text_of(fields[0]),
            back: if fields.len() > 1 { text_of(fields[1]) } else { Seq::empty() },
            star: fields.len() > 2 && star_marker(fields[2]),
        })
    }
}

/// The cards that lines with these fields give, blank lines skipped.
pub open spec fn cards_of(lines: Seq<Seq<Seq<u8>>>) -> Seq<CardModel>
    decreases lines.len(),
{
    if lines.len() == 0 {
        Seq::empty()
    } else {
        let rest = cards_of(lines.drop_last());
        match card_of_fields(lines.last()) {
            Some(c) => rest.push(c),
            None => rest,
        }
    }
}

pub open spec fn field_views(fields: Seq<Vec<u8>>) -> Seq<Seq<u8>> {
    fields.map_values(|f: Vec<u8>| f@)
}

pub open spec fn option_model(c: Option<Flashcard>) -> Option<CardModel> {
    match c {
        Some(card) => Some(card@),
        None => None,
    }
}

/// The marker written for a starred card.
pub open spec fn starred_text() -> Seq<char> {
    seq!['s', 't', 'a', 'r', 'r', 'e', 'd']
}

/// The fields written for a card: front, back, and the marker when starred.
pub open spec fn record_fields(c: CardModel) -> Seq<Seq<u8>> {
    let base = seq![encode_utf8(c.front), encode_utf8(c.back)];
    if c.star {
        base.push(encode_utf8(starred_text()))
    } else {
        base
    }
}

fn to_lower(b: u8) -> (r: u8)
    ensures
        r == lower(b),
{
    if 65 <= b && b <= 90 {
        b + 32
    } else {
        b
    }
}

/// Whether `x` starts with `pat`, up to ASCII case.
fn starts_with_ignore_case(x: &[u8], pat: &Vec<u8>) -> (r: bool)
    ensures
        r == (x@.len() >= pat@.len() && ascii_ci_eq(x@.take(pat@.len() as int), pat@)),
{
    if x.len() < pat.len() {
        return false;
    }
    let mut i: usize = 0;
    while i < pat.len()
        invariant
            i <= pat@.len() <= x@.len(),
            forall|k: int| 0 <= k < i ==> lower(#[trigger] x@[k]) == lower(pat@[k]),
        decreases pat@.len() - i,
    {
        if to_lower(x[i]) != to_lower(pat[i]) {
            proof {
                assert(x@.take(pat@.len() as int)[i as int] == x@[i as int]);
            }
            return false;
        }
        i = i + 1;
    }
    proof {
        assert forall|k: int| 0 <= k < pat@.len() implies lower(
            #[trigger] x@.take(pat@.len() as int)[k],
        ) == lower(pat@[k]) by {
            assert(x@.take(pat@.len() as int)[k] == x@[k]);
        }
    }
    true
}

/// Whether a third field marks its card as starred.
pub fn is_str_truthy(bytes: &[u8]) -> (r: bool)
    ensures
        r == star_marker(bytes@),
{
    match utf8_str(bytes) {
        None => false,
        Some(phrase) => {
            let t = trim_str(phrase);
            let tb = t.as_bytes();
            let word_true: Vec<u8> = vec![116u8, 114u8, 117u8, 101u8];
            let word_star: Vec<u8> = vec![115u8, 116u8, 97u8, 114u8];
            let one = tb.len() == 1 && tb[0] == 49u8;
            let is_true = tb.len() == 4 && starts_with_ignore_case(tb, &word_true);
            let is_star = starts_with_ignore_case(tb, &word_star);
            proof {
                assert(t@ == trimmed(phrase@));
                if tb@.len() == 1 && tb@[0] == 49u8 {
                    assert(tb@ =~= seq![49u8]);
                }
                if tb@.len() == 4 {
                    assert(tb@.take(4) =~= tb@);
                }
            }
            one || is_true || is_star
        },
    }
}

/// A card whose fields are filled one by one, in order.
#[derive(Debug, Default)]
pub struct PartialFlashcard {
    pub a: Option<String>,
    pub b: Option<String>,
    pub star: Option<bool>,
}

pub struct PartialModel {
    pub a: Option<Seq<char>>,
    pub b: Option<Seq<char>>,
    pub star: Option<bool>,
}

pub open spec fn option_text(s: Option<String>) -> Option<Seq<char>> {
    match s {
        Some(t) => Some(t@),
        None => None,
    }
}

impl View for PartialFlashcard {
    type V = PartialModel;

    open spec fn view(&self) -> PartialModel {
        PartialModel { a: option_text(self.a), b: option_text(self.b), star: self.star }
    }
}

/// The partial card after the fields seen so far.
pub open spec fn partial_of(fields: Seq<Seq<u8>>) -> PartialModel {
    PartialModel {
        a: if fields.len() > 0 { Some(text_of(fields[0])) } else { None },
        b: if fields.len() > 1 { Some(text_of(fields[1])) } else { None },
        star: if fields.len() > 2 { Some(star_marker(fields[2])) } else { None },
    }
}

/// The partial card after one more field: it fills the first empty slot.
pub open spec fn filled(p: PartialModel, v: Seq<u8>) -> PartialModel {
    if p.a is None {
        PartialModel { a: Some(text_of(v)), b: p.b, star: p.star }
    } else if p.b is None {
        PartialModel { a: p.a, b: Some(text_of(v)), star: p.star }
    } else if p.star is None {
        PartialModel { a: p.a, b: p.b, star: Some(star_marker(v)) }
    } else {
        p
    }
}

impl PartialFlashcard {
    pub fn new() -> (r: PartialFlashcard)
        ensures
            r@ == partial_of(Seq::empty()),
    {
        PartialFlashcard { a: None, b: None, star: None }
    }

    /// Puts a field's value into the first slot still empty.
    pub fn fill_with_value(&mut self, val: &[u8])
        ensures
            final(self)@ == filled(old(self)@, val@),
    {
        if self.a.is_none() {
            self.a = Some(lossy_string(val));
        } else if self.b.is_none() {
            self.b = Some(lossy_string(val));
        } else if self.star.is_none() {
            self.star = Some(is_str_truthy(val));
        }
    }
}

impl Flashcard {
    /// The card of a partial one: empty text and not starred where unfilled.
    pub fn from_partial(part: PartialFlashcard) -> (r: Flashcard)
        ensures
            r@ == (CardModel {
                front: match part@.a { Some(t) => t, None => Seq::empty() },
                back: match part@.b { Some(t) => t, None => Seq::empty() },
                star: match part@.star { Some(s) => s, None => false },
            }),
    {
        let a = match part.a {
            Some(t) => t,
            None => String::new(),
        };
        let b = match part.b {
            Some(t) => t,
            None => String::new(),
        };
        let star = match part.star {
            Some(s) => s,
            None => false,
        };
        Flashcard { a, b, star }
    }
}

/// The card that a line with these fields gives.
pub fn card_from_fields(fields: &Vec<Vec<u8>>) -> (r: Option<Flashcard>)
    ensures
        option_model(r) == card_of_fields(field_views(fields@)),
{
    let ghost fv = field_views(fields@);
    let mut card = PartialFlashcard::new();
    let mut i: usize = 0;
    while i < fields.len()
        invariant
            i <= fields@.len(),
            fv == field_views(fields@),
            card@ == partial_of(fv.take(i as int)),
        decreases fields@.len() - i,
    {
        proof {
            assert(fv.take(i as int + 1) =~= fv.take(i as int).push(fv[i as int]));
        }
        card.fill_with_value(fields[i].as_slice());
        i = i + 1;
    }
    proof {
        assert(fv.take(i as int) =~= fv);
    }
    if card.a.is_some() {
        Some(Flashcard::from_partial(card))
    } else {
        None
    }
}


/// A buffer of `n` zero bytes.
fn zeroed(n: usize) -> (r: Vec<u8>)
    ensures
        r@.len() == n,
{
    let mut v: Vec<u8> = Vec::new();
    let mut i: usize = 0;
    while i < n
        invariant
            i <= n,
            v@.len() == i,
        decreases n - i,
    {
        v.push(0u8);
        i = i + 1;
    }
    v
}

/// Appends the first `n` bytes of `src` to `dst`.
fn append_prefix(dst: &mut Vec<u8>, src: &Vec<u8>, n: usize)
    requires
        n <= src@.len(),
    ensures
        final(dst)@ == old(dst)@ + src@.take(n as int),
{
    let mut i: usize = 0;
    while i < n
        invariant
            i <= n <= src@.len(),
            dst@ == old(dst)@ + src@.take(i as int),
        decreases n - i,
    {
        proof {
            assert(src@.take(i as int + 1) =~= src@.take(i as int).push(src@[i as int]));
        }
        dst.push(src[i]);
        i = i + 1;
    }
}

/// Appends all of `src` to `dst`.
fn append_all(dst: &mut Vec<u8>, src: &[u8])
    ensures
        final(dst)@ == old(dst)@ + src@,
{
    let mut i: usize = 0;
    while i < src.len()
        invariant
            i <= src@.len(),
            dst@ == old(dst)@ + src@.take(i as int),
        decreases src@.len() - i,
    {
        proof {
            assert(src@.take(i as int + 1) =~= src@.take(i as int).push(src@[i as int]));
        }
        dst.push(src[i]);
        i = i + 1;
    }
    proof {
        assert(src@.take(i as int) =~= src@);
    }
}

/// The bytes of a line followed by the line terminator.
fn terminated_line(line: &String) -> (r: Vec<u8>)
    ensures
        r@ == encode_utf8(line@).push(10u8),
{
    let mut v: Vec<u8> = Vec::new();
    append_all(&mut v, line.as_str().as_bytes());
    v.push(10u8);
    v
}

/// The fields of a terminated line from byte `s` on: a quoted field is its
/// content with doubled quotes made single; an unquoted one the bytes up to
/// the next delimiter or line feed.
pub open spec fn fields_from(t: Seq<u8>, s: int) -> Seq<Seq<u8>>
    decreases t.len() - s,
{
    if s < 0 || s >= t.len() {
        Seq::empty()
    } else if t[s] == 34u8 {
        let c = quoted_end(t, s + 1);
        if c < s + 1 || c + 1 >= t.len() {
            Seq::empty()
        } else if t[c + 1] == 44u8 {
            seq![unquote(t, s + 1, c)] + fields_from(t, c + 2)
        } else {
            seq![unquote(t, s + 1, c)]
        }
    } else {
        let e = first_separator(t, s);
        if e < s {
            Seq::empty()
        } else if e >= t.len() {
            seq![t.subrange(s, t.len() as int)]
        } else if t[e] == 10u8 {
            seq![t.subrange(s, e)]
        } else {
            seq![t.subrange(s, e)] + fields_from(t, e + 1)
        }
    }
}

/// From byte `s` on, a terminated line is a run of fields, each quoted with
/// its closing quote right before a separator, or unquoted without quote or
/// CR, separated by delimiters and ended by the final line feed.
pub open spec fn readable_from(t: Seq<u8>, s: int) -> bool
    decreases t.len() - s,
{
    if s < 0 || s >= t.len() {
        false
    } else if t[s] == 34u8 {
        let c = quoted_end(t, s + 1);
        &&& c >= s + 1
        &&& c + 1 < t.len()
        &&& is_separator(t[c + 1])
        &&& t[c + 1] == 10u8 ==> c + 2 == t.len()
        &&& t[c + 1] == 44u8 ==> readable_from(t, c + 2)
    } else {
        let e = first_separator(t, s);
        &&& e >= s
        &&& e < t.len()
        &&& plain_between(t, s, e)
        &&& t[e] == 10u8 ==> e + 1 == t.len()
        &&& t[e] == 44u8 ==> readable_from(t, e + 1)
    }
}

/// A line the reader's contract covers: blank, or a run of readable fields.
pub open spec fn readable_line(l: Seq<u8>) -> bool {
    l.len() == 0 || readable_from(l.push(10u8), 0)
}

/// A line without quotes, CR or LF.
pub open spec fn plain_line(l: Seq<u8>) -> bool {
    forall|k: int| 0 <= k < l.len() ==> #[trigger] l[k] != 34u8 && l[k] != 13u8 && l[k] != 10u8
}

/// The fields of a line; a blank line has none.
pub open spec fn line_fields(l: Seq<u8>) -> Seq<Seq<u8>> {
    if l.len() == 0 {
        Seq::empty()
    } else {
        fields_from(l.push(10u8), 0)
    }
}

/// Every field fits in the field buffer.
pub open spec fn fits(fields: Seq<Seq<u8>>) -> bool {
    forall|i: int| 0 <= i < fields.len() ==> (#[trigger] fields[i]).len() <= FIELD_CAPACITY
}

/// The fields that make up a card.
pub open spec fn keep_first(fields: Seq<Seq<u8>>) -> Seq<Seq<u8>> {
    if fields.len() > CARD_FIELDS {
        fields.take(CARD_FIELDS as int)
    } else {
        fields
    }
}

proof fn lemma_first_separator(t: Seq<u8>, s: int)
    requires
        0 <= s <= t.len(),
    ensures
        s <= first_separator(t, s) <= t.len(),
        forall|k: int| s <= k < first_separator(t, s) ==> !is_separator(#[trigger] t[k]),
        first_separator(t, s) < t.len() ==> is_separator(t[first_separator(t, s)]),
    decreases t.len() - s,
{
    if s < t.len() && !is_separator(t[s]) {
        lemma_first_separator(t, s + 1);
    }
}

proof fn lemma_keep_first(fields: Seq<Seq<u8>>)
    ensures
        card_of_fields(keep_first(fields)) == card_of_fields(fields),
{
}

/// Reads the fields of one terminated line, keeping the first three. Fails
/// when a field does not fit in the field buffer.
#[verifier::rlimit(80)]
fn read_fields(rdr: &mut Reader, line: &Vec<u8>) -> (r: Result<Vec<Vec<u8>>, CsvError>)
    ensures
        r is Ok ==> r->Ok_0@.len() <= CARD_FIELDS,
        r is Ok ==> forall|k: int| 0 <= k < r->Ok_0@.len() ==> (#[trigger] r->Ok_0@[k])@.len() <= FIELD_CAPACITY,
        (reader_mode(*old(rdr)) == ReaderMode::Boundary || (reader_mode(*old(rdr)) == ReaderMode::Fresh
            && !bom_at(line@, 0))) && line@.len() > 0 && line@.last() == 10u8 && readable_line(
            line@.drop_last(),
        ) ==> {
            &&& (r is Ok <==> fits(line_fields(line@.drop_last())))
            &&& r is Ok ==> field_views(r->Ok_0@) == keep_first(line_fields(line@.drop_last()))
            &&& r is Ok ==> reader_mode(*final(rdr)) == ReaderMode::Boundary
        },
{
    let ghost t = line@;
    let ghost p = (reader_mode(*old(rdr)) == ReaderMode::Boundary || (reader_mode(*old(rdr))
        == ReaderMode::Fresh && !bom_at(t, 0))) && t.len() > 0 && t.last() == 10u8 && readable_line(
        t.drop_last(),
    );
    let ghost all = line_fields(t.drop_last());
    let ghost mut done: Seq<Seq<u8>> = Seq::empty();
    proof {
        if p && t.len() > 1 {
            assert(t.drop_last().push(10u8) =~= t);
        }
    }
    let mut fields: Vec<Vec<u8>> = Vec::new();
    let mut out = zeroed(FIELD_CAPACITY + 1);
    let mut pos: usize = 0;
    // Once the input is used up the reader reports the end of the data within
    // two calls; `idle` counts the calls made on no input.
    let mut idle: usize = 0;
    while idle < 3
        invariant
            t == line@,
            p == ((reader_mode(*old(rdr)) == ReaderMode::Boundary || (reader_mode(*old(rdr))
                == ReaderMode::Fresh && !bom_at(t, 0))) && t.len() > 0 && t.last() == 10u8
                && readable_line(t.drop_last())),
            pos <= line@.len(),
            idle <= 3,
            idle > 0 ==> pos == line@.len(),
            out@.len() == FIELD_CAPACITY + 1,
            fields@.len() <= CARD_FIELDS,
            forall|k: int| 0 <= k < fields@.len() ==> (#[trigger] fields@[k])@.len() <= FIELD_CAPACITY,
            p ==> all == line_fields(t.drop_last()),
            p ==> fits(done) && field_views(fields@) == keep_first(done),
            p && pos < t.len() && pos == 0 ==> reader_mode(*rdr) == reader_mode(*old(rdr)),
            p && pos < t.len() && pos > 0 ==> reader_mode(*rdr) == ReaderMode::InRecord,
            p && pos < t.len() && t.len() > 1 ==> all == done + fields_from(t, pos as int) && readable_from(
                t,
                pos as int,
            ),
            p && pos < t.len() && t.len() == 1 ==> done.len() == 0,
            p && pos == 0 ==> done.len() == 0,
            p && pos == t.len() ==> all == done && reader_mode(*rdr) == ReaderMode::Boundary,
        ensures
            fields@.len() <= CARD_FIELDS,
            forall|k: int| 0 <= k < fields@.len() ==> (#[trigger] fields@[k])@.len() <= FIELD_CAPACITY,
            p ==> fits(done) && field_views(fields@) == keep_first(done),
            p ==> pos == t.len() && all == done && reader_mode(*rdr) == ReaderMode::Boundary,
        decreases line@.len() - pos + 3 - idle,
    {
        // The field that starts at `pos`, and where the next one starts.
        let ghost quoted = p && pos < t.len() && t.len() > 1 && t[pos as int] == 34u8;
        let ghost close = quoted_end(t, pos + 1);
        let ghost sep = if quoted { close + 1 } else { first_separator(t, pos as int) };
        let ghost f = if quoted { unquote(t, pos + 1, close) } else { t.subrange(pos as int, sep) };
        proof {
            if p && pos < t.len() && t.len() > 1 {
                if !quoted {
                    lemma_first_separator(t, pos as int);
                }
                if pos == 0 {
                    assert(t[pos as int] != 10u8);
                }
                assert(fields_from(t, pos as int) == seq![f] + (if t[sep] == 10u8 {
                    Seq::<Seq<u8>>::empty()
                } else {
                    fields_from(t, sep + 1)
                }));
            }
        }
        let (step, consumed, written) = read_field(rdr, line, pos, &mut out);
        match step {
            FieldStep::OutputFull => {
                proof {
                    if p {
                        assert(all[done.len() as int] == f);
                        assert(!fits(all));
                    }
                    assert(p ==> !fits(line_fields(line@.drop_last())));
                }
                return Err(CsvError::FieldTooLarge);
            },
            FieldStep::End => {
                break;
            },
            FieldStep::Field => {
                if fields.len() < CARD_FIELDS {
                    let mut field: Vec<u8> = Vec::new();
                    append_prefix(&mut field, &out, written);
                    fields.push(field);
                }
                proof {
                    if p {
                        let nd = done.push(f);
                        assert(field_views(fields@) =~= keep_first(nd));
                        if t[sep] != 10u8 {
                            assert(all =~= nd + fields_from(t, sep + 1));
                        } else {
                            assert(all =~= nd);
                        }
                        done = nd;
                    }
                }
            },
            FieldStep::InputEmpty => {
                proof {
                    if p && t.len() == 1 {
                        assert(t.drop_last().len() == 0);
                    }
                }
            },
        }
        if pos == line.len() {
            idle = idle + 1;
        }
        pos = pos + consumed;
    }
    proof {
        assert(p ==> fits(line_fields(line@.drop_last())));
    }
    Ok(fields)
}

/// The fields of each line, as bytes.
pub open spec fn fields_of_lines(lines: Seq<String>) -> Seq<Seq<Seq<u8>>> {
    Seq::new(lines.len(), |i: int| line_fields(encode_utf8(lines[i]@)))
}

/// Lines that the reader's contract covers: each readable, the first not
/// starting with a byte order mark.
pub open spec fn readable_lines(lines: Seq<String>) -> bool {
    &&& forall|i: int| 0 <= i < lines.len() ==> readable_line(encode_utf8(#[trigger] lines[i]@))
    &&& lines.len() > 0 ==> !bom_at(encode_utf8(lines[0]@), 0)
}

/// Reads cards from lines of delimited text: one card per line with a first
/// field, blank lines skipped. Fails, with no cards, when a field does not
/// fit in the field buffer.
pub fn parse_csv(lines: &Vec<String>) -> (r: Result<Vec<Flashcard>, CsvError>)
    ensures
        readable_lines(lines@) ==> {
            &&& (r is Ok <==> forall|i: int| 0 <= i < lines@.len() ==> fits(#[trigger] fields_of_lines(lines@)[i]))
            &&& r is Ok ==> models(r->Ok_0@) == cards_of(fields_of_lines(lines@))
        },
{
    let ghost p = readable_lines(lines@);
    let ghost all = fields_of_lines(lines@);
    let mut rdr = Reader::new();
    let mut cards: Vec<Flashcard> = Vec::new();
    let mut i: usize = 0;
    while i < lines.len()
        invariant
            i <= lines@.len(),
            all == fields_of_lines(lines@),
            p == readable_lines(lines@),
            p && i == 0 ==> reader_mode(rdr) == ReaderMode::Fresh,
            p && i > 0 ==> reader_mode(rdr) == ReaderMode::Boundary,
            p ==> forall|j: int| 0 <= j < i ==> fits(#[trigger] all[j]),
            p ==> models(cards@) == cards_of(all.take(i as int)),
        decreases lines@.len() - i,
    {
        let line = terminated_line(&lines[i]);
        proof {
            assert(line@.drop_last() =~= encode_utf8(lines@[i as int]@));
            if p && i == 0 {
                let l = encode_utf8(lines@[0]@);
                if l.len() >= 3 {
                    assert(line@[0] == l[0] && line@[1] == l[1] && line@[2] == l[2]);
                }
            }
        }
        let fields = match read_fields(&mut rdr, &line) {
            Ok(f) => f,
            Err(e) => {
                proof {
                    assert(all[i as int] == line_fields(line@.drop_last()));
                }
                return Err(e);
            },
        };
        let card = card_from_fields(&fields);
        proof {
            assert(all[i as int] == line_fields(line@.drop_last()));
            if p {
                lemma_keep_first(all[i as int]);
                assert(all.take(i as int + 1).drop_last() =~= all.take(i as int));
            }
        }
        match card {
            Some(c) => {
                cards.push(c);
                proof {
                    if p {
                        assert(models(cards@) =~= cards_of(all.take(i as int + 1)));
                    }
                }
            },
            None => {},
        }
        i = i + 1;
    }
    proof {
        assert(all.take(i as int) =~= all);
    }
    Ok(cards)
}

/// The fields written for a card.
pub fn card_fields(card: &Flashcard) -> (r: Vec<Vec<u8>>)
    ensures
        field_views(r@) == record_fields(card@),
{
    let mut front: Vec<u8> = Vec::new();
    append_all(&mut front, card.a.as_str().as_bytes());
    let mut back: Vec<u8> = Vec::new();
    append_all(&mut back, card.b.as_str().as_bytes());
    let mut fields: Vec<Vec<u8>> = Vec::new();
    fields.push(front);
    fields.push(back);
    if card.star {
        let mut marker: Vec<u8> = Vec::new();
        append_all(&mut marker, "starred".as_bytes());
        proof {
            reveal_strlit("starred");
            assert("starred"@ =~= starred_text());
        }
        fields.push(marker);
    }
    proof {
        assert(field_views(fields@) =~= record_fields(card@));
    }
    fields
}

/// A field as written: quoted, with quotes doubled, when it holds a
/// delimiter, quote, CR or LF.
pub open spec fn field_text(s: Seq<u8>) -> Seq<u8> {
    if needs_quotes(s) {
        seq![34u8] + escaped(s) + seq![34u8]
    } else {
        s
    }
}

/// The line written for a card.
pub open spec fn record_text(c: CardModel) -> Seq<u8> {
    field_text(encode_utf8(c.front)) + seq![44u8] + field_text(encode_utf8(c.back)) + (if c.star {
        seq![44u8] + field_text(encode_utf8(starred_text()))
    } else {
        Seq::empty()
    }) + seq![10u8]
}

/// The text written for a sequence of cards.
pub open spec fn cards_text(cards: Seq<CardModel>) -> Seq<u8>
    decreases cards.len(),
{
    if cards.len() == 0 {
        Seq::empty()
    } else {
        cards_text(cards.drop_last()) + record_text(cards.last())
    }
}

/// Writes one whole field at the start of a field.
fn put_field(wtr: &mut Writer, input: &[u8], text: &mut Vec<u8>)
    requires
        !writer_mode(*old(wtr)).0,
        2 + 2 * input@.len() <= usize::MAX,
    ensures
        ({
            let q = needs_quotes(input@);
            let written = if q { seq![34u8] + escaped(input@) } else { input@ };
            &&& final(text)@ == old(text)@ + written
            &&& writer_mode(*final(wtr)) == (true, q, writer_mode(*old(wtr)).2 || written.len() > 0)
        }),
{
    let mut out = zeroed(2 + 2 * input.len());
    let n = write_field(wtr, input, &mut out);
    append_prefix(text, &out, n);
}

/// Writes a field delimiter, closing an open quote.
fn put_delimiter(wtr: &mut Writer, text: &mut Vec<u8>)
    ensures
        final(text)@ == old(text)@ + (if writer_mode(*old(wtr)).1 {
            seq![34u8, 44u8]
        } else {
            seq![44u8]
        }),
        writer_mode(*final(wtr)) == (false, false, true),
{
    let mut out = zeroed(2);
    let n = write_delimiter(wtr, &mut out);
    append_prefix(text, &out, n);
}

/// Ends a record that has bytes, closing an open quote.
fn put_terminator(wtr: &mut Writer, text: &mut Vec<u8>)
    requires
        writer_mode(*old(wtr)).2,
    ensures
        final(text)@ == old(text)@ + (if writer_mode(*old(wtr)).1 {
            seq![34u8]
        } else {
            Seq::empty()
        }) + seq![10u8],
        writer_mode(*final(wtr)) == (false, false, false),
{
    let mut out = zeroed(4);
    let n = write_terminator(wtr, &mut out);
    append_prefix(text, &out, n);
    proof {
        assert(Seq::<u8>::empty() + (if writer_mode(*old(wtr)).1 {
            seq![34u8]
        } else {
            Seq::empty()
        }) + seq![10u8] =~= (if writer_mode(*old(wtr)).1 {
            seq![34u8]
        } else {
            Seq::empty()
        }) + seq![10u8]);
    }
}

/// Writes the line of one card.
#[verifier::rlimit(50)]
fn put_record(wtr: &mut Writer, card: &Flashcard, text: &mut Vec<u8>)
    requires
        writer_mode(*old(wtr)) == (false, false, false),
        2 + 2 * encode_utf8(card.a@).len() <= usize::MAX,
        2 + 2 * encode_utf8(card.b@).len() <= usize::MAX,
    ensures
        final(text)@ == old(text)@ + record_text(card@),
        writer_mode(*final(wtr)) == (false, false, false),
{
    let ghost before = text@;
    let ghost fa = encode_utf8(card.a@);
    let ghost fb = encode_utf8(card.b@);
    put_field(wtr, card.a.as_str().as_bytes(), text);
    put_delimiter(wtr, text);
    assert(text@ =~= before + field_text(fa) + seq![44u8]);
    put_field(wtr, card.b.as_str().as_bytes(), text);
    let ghost mid = before + field_text(fa) + seq![44u8];
    let ghost tail: Seq<u8> = Seq::empty();
    if card.star {
        put_delimiter(wtr, text);
        proof {
            reveal_strlit("starred");
            assert("starred"@ =~= starred_text());
            lemma_encode_ascii(starred_text());
        }
        let ghost fs = encode_utf8(starred_text());
        assert(text@ =~= mid + field_text(fb) + seq![44u8]);
        put_field(wtr, "starred".as_bytes(), text);
        proof {
            tail = seq![44u8] + field_text(fs);
        }
    }
    put_terminator(wtr, text);
    proof {
        assert(text@ =~= mid + field_text(fb) + tail + seq![10u8]);
        assert(text@ =~= before + record_text(card@));
    }
}

/// Writes cards as delimited text, one line per card: front, back, and the
/// `starred` marker when starred, each field quoted where it needs to be.
#[verifier::rlimit(50)]
pub fn write_csv(cards: &Vec<Flashcard>) -> (r: Vec<u8>)
    requires
        forall|i: int| 0 <= i < cards@.len() ==> 2 + 2 * encode_utf8((#[trigger] cards@[i]).a@).len() <= usize::MAX
            && 2 + 2 * encode_utf8(cards@[i].b@).len() <= usize::MAX,
    ensures
        r@ == cards_text(models(cards@)),
{
    let mut wtr = Writer::new();
    let mut text: Vec<u8> = Vec::new();
    let mut i: usize = 0;
    while i < cards.len()
        invariant
            i <= cards@.len(),
            writer_mode(wtr) == (false, false, false),
            text@ == cards_text(models(cards@).take(i as int)),
            forall|i: int| 0 <= i < cards@.len() ==> 2 + 2 * encode_utf8((#[trigger] cards@[i]).a@).len() <= usize::MAX
                && 2 + 2 * encode_utf8(cards@[i].b@).len() <= usize::MAX,
        decreases cards@.len() - i,
    {
        let ghost before = text@;
        put_record(&mut wtr, &cards[i], &mut text);
        proof {
            let m = models(cards@);
            assert(m.take(i as int + 1).drop_last() =~= m.take(i as int));
            assert(m[i as int] == cards@[i as int]@);
        }
        i = i + 1;
    }
    proof {
        assert(models(cards@).take(i as int) =~= models(cards@));
    }
    text
}

/// Text whose bytes hold no delimiter, quote, CR or LF.
pub open spec fn plain_text(s: Seq<u8>) -> bool {
    plain_line(s) && forall|k: int| 0 <= k < s.len() ==> #[trigger] s[k] != 44u8
}

proof fn lemma_first_separator_at(t: Seq<u8>, s: int, e: int)
    requires
        0 <= s <= e < t.len(),
        is_separator(t[e]),
        forall|k: int| s <= k < e ==> !is_separator(#[trigger] t[k]),
    ensures
        first_separator(t, s) == e,
    decreases e - s,
{
    if s < e {
        lemma_first_separator_at(t, s + 1, e);
    }
}

proof fn lemma_plain_no_quotes(s: Seq<u8>)
    requires
        plain_text(s),
    ensures
        field_text(s) == s,
{
    if needs_quotes(s) {
        let k = choose|k: int| 0 <= k < s.len() && is_special(#[trigger] s[k]);
        assert(s[k] != 34u8);
    }
}

/// The bytes of the `starred` marker.
proof fn lemma_starred_bytes()
    ensures
        encode_utf8(starred_text()) == seq![115u8, 116u8, 97u8, 114u8, 114u8, 101u8, 100u8],
        plain_text(encode_utf8(starred_text())),
{
    lemma_encode_ascii(starred_text());
    assert(encode_utf8(starred_text()) =~= seq![115u8, 116u8, 97u8, 114u8, 114u8, 101u8, 100u8]);
}

/// Two plain texts joined by a delimiter make a plain line whose fields are
/// the first text and the fields of the second.
#[verifier::rlimit(60)]
proof fn lemma_join_fields(a: Seq<u8>, rest: Seq<u8>, tail: Seq<Seq<u8>>)
    requires
        plain_text(a),
        plain_line(rest),
        fields_from(rest.push(10u8), 0) == tail,
    ensures
        plain_line(a + seq![44u8] + rest),
        fields_from((a + seq![44u8] + rest).push(10u8), 0) == seq![a] + tail,
{
    let l = a + seq![44u8] + rest;
    let t = l.push(10u8);
    let n = a.len() as int;
    assert(l[n] == 44u8);
    assert forall|k: int| 0 <= k < l.len() implies #[trigger] l[k] != 34u8 && l[k] != 13u8 && l[k] != 10u8 by {
        if k < n {
            assert(l[k] == a[k]);
        } else if k > n {
            assert(l[k] == rest[k - n - 1]);
        }
    }
    assert forall|k: int| 0 <= k < n implies !is_separator(#[trigger] t[k]) by {
        assert(t[k] == a[k]);
    }
    lemma_first_separator_at(t, 0, n);
    assert(t.subrange(0, n) =~= a);
    assert(t.subrange(n + 1, t.len() as int) =~= rest.push(10u8));
    assert forall|k: int| n + 1 <= k < t.len() implies #[trigger] t[k] != 34u8 by {
        if k < l.len() {
            assert(t[k] == l[k]);
        }
    }
    lemma_fields_shift(t, rest.push(10u8), n + 1, n + 1);
    assert(t[n] == 44u8);
    assert(fields_from(t, 0) == seq![t.subrange(0, n)] + fields_from(t, n + 1));
}

/// Fields of a suffix of a line are read the same from the suffix alone.
proof fn lemma_fields_shift(t: Seq<u8>, u: Seq<u8>, d: int, s: int)
    requires
        0 <= d <= s <= t.len(),
        t.subrange(d, t.len() as int) == u,
        forall|k: int| s <= k < t.len() ==> #[trigger] t[k] != 34u8,
    ensures
        fields_from(t, s) == fields_from(u, s - d),
    decreases t.len() - s,
{
    lemma_first_separator_shift(t, u, d, s);
    if s < t.len() {
        lemma_first_separator(t, s);
        let e = first_separator(t, s);
        if e < t.len() {
            assert(t[e] == u[e - d]);
            assert(t.subrange(s, e) =~= u.subrange(s - d, e - d));
            if t[e] != 10u8 {
                lemma_fields_shift(t, u, d, e + 1);
            }
        } else {
            assert(t.subrange(s, t.len() as int) =~= u.subrange(s - d, u.len() as int));
        }
    }
}

proof fn lemma_first_separator_shift(t: Seq<u8>, u: Seq<u8>, d: int, s: int)
    requires
        0 <= d <= s <= t.len(),
        t.subrange(d, t.len() as int) == u,
    ensures
        first_separator(t, s) == first_separator(u, s - d) + d,
    decreases t.len() - s,
{
    if s < t.len() {
        assert(t[s] == u[s - d]);
        if !is_separator(t[s]) {
            lemma_first_separator_shift(t, u, d, s + 1);
        }
    }
}

/// A terminated line with no quote, CR or inner line feed from `s` on is
/// readable from there.
proof fn lemma_plain_readable(t: Seq<u8>, s: int)
    requires
        0 <= s < t.len(),
        t.last() == 10u8,
        forall|k: int| s <= k < t.len() - 1 ==> #[trigger] t[k] != 34u8 && t[k] != 13u8 && t[k] != 10u8,
    ensures
        readable_from(t, s),
    decreases t.len() - s,
{
    lemma_first_separator(t, s);
    let e = first_separator(t, s);
    if e >= t.len() {
        assert(!is_separator(t[t.len() - 1]));
    }
    if t[e] == 44u8 {
        lemma_plain_readable(t, e + 1);
    }
}

/// A plain text alone on a line is that line's one field.
proof fn lemma_single_field(a: Seq<u8>)
    requires
        plain_text(a),
    ensures
        fields_from(a.push(10u8), 0) == seq![a],
{
    let t = a.push(10u8);
    assert forall|k: int| 0 <= k < a.len() implies !is_separator(#[trigger] t[k]) by {
        assert(t[k] == a[k]);
    }
    lemma_first_separator_at(t, 0, a.len() as int);
    assert(t.subrange(0, a.len() as int) =~= a);
}

/// The line written for a card whose front and back are plain text of at
/// most `FIELD_CAPACITY` bytes is a plain line whose fields fit and read
/// back as the same card.
#[verifier::rlimit(60)]
pub proof fn lemma_write_read_round_trip(c: CardModel)
    requires
        plain_text(encode_utf8(c.front)),
        plain_text(encode_utf8(c.back)),
        encode_utf8(c.front).len() <= FIELD_CAPACITY,
        encode_utf8(c.back).len() <= FIELD_CAPACITY,
    ensures
        ({
            let l = record_text(c).drop_last();
            &&& record_text(c) == l.push(10u8)
            &&& plain_line(l)
            &&& readable_line(l)
            &&& line_fields(l) == record_fields(c)
            &&& fits(line_fields(l))
            &&& card_of_fields(line_fields(l)) == Some(c)
        }),
{
    let fa = encode_utf8(c.front);
    let fb = encode_utf8(c.back);
    let fs = encode_utf8(starred_text());
    lemma_plain_no_quotes(fa);
    lemma_plain_no_quotes(fb);
    lemma_starred_bytes();
    lemma_plain_no_quotes(fs);
    lemma_record_fields_round_trip(c);
    let rest = if c.star { fb + seq![44u8] + fs } else { fb };
    if c.star {
        lemma_single_field(fs);
        lemma_join_fields(fb, fs, seq![fs]);
        assert(seq![fb] + seq![fs] =~= seq![fb, fs]);
    } else {
        lemma_single_field(fb);
    }
    let tail = if c.star { seq![fb, fs] } else { seq![fb] };
    lemma_join_fields(fa, rest, tail);
    let l = fa + seq![44u8] + rest;
    assert(record_text(c) =~= l.push(10u8));
    assert(record_text(c).drop_last() =~= l);
    assert(l.len() > 0);
    assert(seq![fa] + tail =~= record_fields(c));
    assert forall|k: int| 0 <= k < l.push(10u8).len() - 1 implies #[trigger] l.push(10u8)[k] != 34u8
        && l.push(10u8)[k] != 13u8 && l.push(10u8)[k] != 10u8 by {
        assert(l.push(10u8)[k] == l[k]);
    }
    lemma_plain_readable(l.push(10u8), 0);
}

/// Lines holding the text written for cards with plain texts of at most
/// `FIELD_CAPACITY` bytes, one card each without its line feed, the first
/// not starting with a byte order mark, are readable, their fields fit, and
/// they read back as the same cards in the same order.
pub proof fn lemma_cards_round_trip(cards: Seq<CardModel>, lines: Seq<String>)
    requires
        lines.len() == cards.len(),
        forall|i: int| 0 <= i < cards.len() ==> {
            &&& plain_text(encode_utf8((#[trigger] cards[i]).front))
            &&& plain_text(encode_utf8(cards[i].back))
            &&& encode_utf8(cards[i].front).len() <= FIELD_CAPACITY
            &&& encode_utf8(cards[i].back).len() <= FIELD_CAPACITY
        },
        forall|i: int| 0 <= i < lines.len() ==> encode_utf8((#[trigger] lines[i])@) == record_text(
            cards[i],
        ).drop_last(),
        cards.len() > 0 ==> !bom_at(encode_utf8(cards[0].front), 0),
    ensures
        readable_lines(lines),
        forall|i: int| 0 <= i < lines.len() ==> fits(#[trigger] fields_of_lines(lines)[i]),
        cards_of(fields_of_lines(lines)) == cards,
    decreases cards.len(),
{
    assert forall|i: int| 0 <= i < lines.len() implies readable_line(encode_utf8((#[trigger] lines[i])@)) && fits(
        fields_of_lines(lines)[i],
    ) by {
        lemma_write_read_round_trip(cards[i]);
    }
    if cards.len() > 0 {
        let fa = encode_utf8(cards[0].front);
        let l0 = encode_utf8(lines[0]@);
        lemma_write_read_round_trip(cards[0]);
        lemma_plain_no_quotes(fa);
        assert(l0 == record_text(cards[0]).drop_last());
        assert(record_text(cards[0]) =~= fa + (seq![44u8] + field_text(encode_utf8(cards[0].back)) + (if cards[0].star {
            seq![44u8] + field_text(encode_utf8(starred_text()))
        } else {
            Seq::empty()
        }) + seq![10u8]));
        if l0.len() >= 3 {
            if fa.len() >= 3 {
                assert(l0[0] == fa[0] && l0[1] == fa[1] && l0[2] == fa[2]);
            } else {
                assert(l0[fa.len() as int] == 44u8);
            }
        }
        let n = cards.len() - 1;
        if n > 0 {
            assert(cards.drop_last()[0] == cards[0]);
        }
        lemma_cards_round_trip(cards.drop_last(), lines.drop_last());
        assert(fields_of_lines(lines).drop_last() =~= fields_of_lines(lines.drop_last()));
        lemma_write_read_round_trip(cards[n]);
        assert(fields_of_lines(lines).last() == line_fields(record_text(cards[n]).drop_last()));
        assert(cards.drop_last().push(cards[n]) =~= cards);
    }
}

/// ASCII text is encoded one byte per character.
proof fn lemma_encode_ascii(s: Seq<char>)
    requires
        forall|i: int| 0 <= i < s.len() ==> (#[trigger] s[i]) as u32 <= 0x7F,
    ensures
        encode_utf8(s) =~= s.map_values(|c: char| (c as u32) as u8),
    decreases s.len(),
{
    if s.len() > 0 {
        let rest = s.drop_first();
        assert forall|i: int| 0 <= i < rest.len() implies (#[trigger] rest[i]) as u32 <= 0x7F by {
            assert(rest[i] == s[i + 1]);
        }
        lemma_encode_ascii(rest);
        let v = s[0] as u32;
        assert(v <= 0x7F);
        assert((v & 0x7F) == v) by (bit_vector)
            requires
                v <= 0x7F,
        ;
        assert(encode_utf8(s) =~= encode_scalar(v) + encode_utf8(rest));
        assert(s.map_values(|c: char| (c as u32) as u8) =~= seq![(s[0] as u32) as u8] + rest.map_values(|c: char| (c as u32) as u8));
    }
}

/// A card's written fields read back as the same card.
pub proof fn lemma_record_fields_round_trip(c: CardModel)
    ensures
        card_of_fields(record_fields(c)) == Some(c),
{
    vstd::utf8::encode_utf8_valid_utf8(c.front);
    vstd::utf8::encode_utf8_decode_utf8(c.front);
    vstd::utf8::encode_utf8_valid_utf8(c.back);
    vstd::utf8::encode_utf8_decode_utf8(c.back);
    let fields = record_fields(c);
    if c.star {
        let m = starred_text();
        vstd::utf8::encode_utf8_valid_utf8(m);
        vstd::utf8::encode_utf8_decode_utf8(m);
        assert(trimmed(m) == m);
        lemma_encode_ascii(m);
        assert(encode_utf8(m) =~= seq![115u8, 116u8, 97u8, 114u8, 114u8, 101u8, 100u8]);
        assert(encode_utf8(m).take(4) =~= seq![115u8, 116u8, 97u8, 114u8]);
        assert(star_marker(fields[2]));
    }
    assert(card_of_fields(fields) =~= Some(c));
}

} // verus!
