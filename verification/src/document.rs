//! The text of an open document, kept in a `Rope` of the `ropey` crate:
//! the edits that the editor sends, the conversion between char offsets
//! and line and column positions, and what the editor is sent of a
//! document: its semantic tokens and its errors.

use ropey::Rope;
use vstd::prelude::*;

use crate::grammar::Span;

verus! {

#[verifier::external_type_specification]
#[verifier::external_body]
pub struct ExRope(Rope);

/// The characters that a rope holds.
pub uninterp spec fn rope_text(r: Rope) -> Seq<char>;

/// The char offset at which line `line` of `text` starts, as ropey counts
/// lines; one past the last line, the end of the text.
pub uninterp spec fn line_start(text: Seq<char>, line: usize) -> usize;

/// The line of `text` on which the char at `offset` is, as ropey counts
/// lines.
pub uninterp spec fn line_of(text: Seq<char>, offset: usize) -> usize;

/// How many lines `text` has, as ropey counts them.
pub uninterp spec fn line_count(text: Seq<char>) -> usize;

/// The line of `text` on which the byte at `byte` of its UTF-8 encoding
/// is, as ropey counts lines.
pub uninterp spec fn byte_line(text: Seq<char>, byte: usize) -> usize;

/// The char offset in `text` of the char to which the byte at `byte` of
/// its UTF-8 encoding belongs, as ropey counts it.
pub uninterp spec fn byte_char(text: Seq<char>, byte: usize) -> usize;

/// How many bytes a char takes in UTF-8.
pub open spec fn utf8_width(c: char) -> nat {
    if (c as u32) < 0x80 {
        1
    } else if (c as u32) < 0x800 {
        2
    } else if (c as u32) < 0x10000 {
        3
    } else {
        4
    }
}

/// How many bytes `text` takes in UTF-8.
pub open spec fn utf8_len(text: Seq<char>) -> nat
    decreases text.len(),
{
    if text.len() == 0 {
        0
    } else {
        utf8_len(text.drop_last()) + utf8_width(text.last())
    }
}

/// `Rope::from_str`: a rope that holds `text`.
#[verifier::external_body]
fn rope_from_str(text: &str) -> (r: Rope)
    ensures
        rope_text(r) == text@,
{
    Rope::from_str(text)
}

/// `Rope::clone`: a second rope with the same text.
#[verifier::external_body]
fn rope_clone(r: &Rope) -> (c: Rope)
    ensures
        rope_text(c) == rope_text(*r),
{
    r.clone()
}

/// `Rope::len_chars`: how many chars the rope holds.
#[verifier::external_body]
fn rope_len_chars(r: &Rope) -> (n: usize)
    ensures
        n == rope_text(*r).len(),
{
    r.len_chars()
}

/// `Rope::len_lines`: how many lines the rope has.
#[verifier::external_body]
fn rope_len_lines(r: &Rope) -> (n: usize)
    ensures
        n == line_count(rope_text(*r)),
{
    r.len_lines()
}

/// `Rope::try_line_to_char`: the char offset at which line `line` starts,
/// where the rope has that line or `line` is one past its last line, in
/// which case it is the end of the text; an error past that.
#[verifier::external_body]
fn rope_line_to_char(r: &Rope, line: usize) -> (c: Option<usize>)
    ensures
        c is Some <==> line <= line_count(rope_text(*r)),
        c matches Some(x) ==> x == line_start(rope_text(*r), line) && x <= rope_text(*r).len(),
        line == line_count(rope_text(*r)) ==> c == Some(rope_text(*r).len() as usize),
{
    r.try_line_to_char(line).ok()
}

/// `Rope::try_char_to_line`: the line on which the char at `offset` is,
/// where `offset` is at most the end of the text; that line starts at or
/// before `offset`.
#[verifier::external_body]
fn rope_char_to_line(r: &Rope, offset: usize) -> (l: Option<usize>)
    ensures
        l is Some <==> offset <= rope_text(*r).len(),
        l matches Some(x) ==> x == line_of(rope_text(*r), offset) && x < line_count(
            rope_text(*r),
        ) && line_start(rope_text(*r), x) <= offset,
{
    r.try_char_to_line(offset).ok()
}

/// `Rope::try_byte_to_line`: the line on which the byte at `byte` is,
/// where `byte` is at most the length of the text in bytes.
#[verifier::external_body]
fn rope_byte_to_line(r: &Rope, byte: usize) -> (l: Option<usize>)
    ensures
        l is Some <==> byte <= utf8_len(rope_text(*r)),
        l matches Some(x) ==> x == byte_line(rope_text(*r), byte),
{
    r.try_byte_to_line(byte).ok()
}

/// `Rope::try_byte_to_char`: the char offset of the char to which the byte
/// at `byte` belongs, where `byte` is at most the length of the text in
/// bytes.
#[verifier::external_body]
fn rope_byte_to_char(r: &Rope, byte: usize) -> (c: Option<usize>)
    ensures
        c is Some <==> byte <= utf8_len(rope_text(*r)),
        c matches Some(x) ==> x == byte_char(rope_text(*r), byte),
{
    r.try_byte_to_char(byte).ok()
}

/// `Rope::try_remove`: the chars from `start` up to `end` are removed,
/// where `start <= end <= ` the length; otherwise the rope is unchanged
/// and an error comes back.
#[verifier::external_body]
fn rope_remove(r: &mut Rope, start: usize, end: usize) -> (ok: bool)
    ensures
        ok <==> start <= end <= rope_text(*old(r)).len(),
        ok ==> rope_text(*final(r)) == rope_text(*old(r)).subrange(0, start as int)
            + rope_text(*old(r)).subrange(end as int, rope_text(*old(r)).len() as int),
        !ok ==> rope_text(*final(r)) == rope_text(*old(r)),
{
    r.try_remove(start..end).is_ok()
}

/// `Rope::try_insert`: `text` is inserted at `at`, where `at` is at most
/// the length; otherwise the rope is unchanged and an error comes back.
#[verifier::external_body]
fn rope_insert(r: &mut Rope, at: usize, text: &str) -> (ok: bool)
    ensures
        ok <==> at <= rope_text(*old(r)).len(),
        ok ==> rope_text(*final(r)) == rope_text(*old(r)).subrange(0, at as int) + text@
            + rope_text(*old(r)).subrange(at as int, rope_text(*old(r)).len() as int),
        !ok ==> rope_text(*final(r)) == rope_text(*old(r)),
{
    r.try_insert(at, text).is_ok()
}

/// A position in a document: a line and a column, both counted in chars
/// from zero.
#[derive(Clone, Copy, Debug, PartialEq, Eq)]
pub struct Position {
    pub line: u32,
    pub character: u32,
}

/// A change that the editor made to a document: the new text of the
/// range it replaced, or of the whole document where it gives no range.
#[derive(Debug, PartialEq, Eq)]
pub struct ContentChange {
    pub range: Option<(Position, Position)>,
    pub range_length: Option<u32>,
    pub text: String,
}

/// Why the changes could not be applied.
#[derive(Clone, Copy, Debug, PartialEq, Eq)]
pub enum ChangeError {
    /// A change gives the length of its range, which is not supported.
    RangeLength,
    /// A change reaches past the document, or ends before it starts.
    OutOfRange,
}

/// The char offset of a position in `text`: the start of its line plus
/// its column, where the text has that line.
pub open spec fn offset_of(text: Seq<char>, p: Position) -> Option<int> {
    if p.line as usize <= line_count(text) {
        Some(line_start(text, p.line as usize) + p.character)
    } else {
        None
    }
}

/// `text` with the chars from `start` up to `end` replaced by `new`, where
/// the range lies within it.
pub open spec fn replaced(text: Seq<char>, start: int, end: int, new: Seq<char>) -> Option<
    Seq<char>,
> {
    if 0 <= start <= end <= text.len() {
        Some(text.subrange(0, start) + new + text.subrange(end, text.len() as int))
    } else {
        None
    }
}

/// `text` with the range from `s` to `e` replaced by `new`, where both
/// positions lie on lines of the text and the range lies within it.
pub open spec fn range_edit(text: Seq<char>, s: Position, e: Position, new: Seq<char>) -> Option<
    Seq<char>,
> {
    match (offset_of(text, s), offset_of(text, e)) {
        (Some(a), Some(b)) => replaced(text, a, b, new),
        _ => None,
    }
}

/// `text` with each change that gives a range applied in turn, its range
/// read against the text as the changes before it left it; none where a
/// range does not lie within that text.
pub open spec fn edited(text: Seq<char>, changes: Seq<ContentChange>) -> Option<Seq<char>>
    decreases changes.len(),
{
    if changes.len() == 0 {
        Some(text)
    } else {
        match edited(text, changes.drop_last()) {
            None => None,
            Some(t) => match changes.last().range {
                None => Some(t),
                Some((s, e)) => range_edit(t, s, e, changes.last().text@),
            },
        }
    }
}

/// The text of the first change that replaces the whole document, where
/// there is one.
pub open spec fn first_whole(changes: Seq<ContentChange>) -> Option<Seq<char>>
    decreases changes.len(),
{
    if changes.len() == 0 {
        None
    } else {
        match first_whole(changes.drop_last()) {
            Some(t) => Some(t),
            None => if changes.last().range is None {
                Some(changes.last().text@)
            } else {
                None
            },
        }
    }
}

/// The text of a document after the changes: none is applied where one
/// gives the length of its range; where one replaces the whole document,
/// the first such one gives the text; otherwise each change is applied
/// to the text in turn, as [`edited`] says.
pub open spec fn changed_text(text: Seq<char>, changes: Seq<ContentChange>) -> Result<
    Seq<char>,
    ChangeError,
> {
    if exists|i: int| 0 <= i < changes.len() && (#[trigger] changes[i]).range_length is Some {
        Err(ChangeError::RangeLength)
    } else {
        match first_whole(changes) {
            Some(t) => Ok(t),
            None => match edited(text, changes) {
                Some(t) => Ok(t),
                None => Err(ChangeError::OutOfRange),
            },
        }
    }
}

/// Replaces the range from `s` to `e` of the document by `text`, as
/// [`range_edit`] says; where that gives nothing, reports it and leaves
/// the document as it was.
fn apply_range_edit(doc: &mut Rope, s: Position, e: Position, text: &str) -> (ok: bool)
    ensures
        ok ==> range_edit(rope_text(*old(doc)), s, e, text@) == Some(rope_text(*final(doc))),
        !ok ==> range_edit(rope_text(*old(doc)), s, e, text@) is None,
{
    let ghost t = rope_text(*doc);
    let len = rope_len_chars(doc);
    let start = match rope_line_to_char(doc, s.line as usize) {
        Some(c) => {
            if c > usize::MAX - s.character as usize {
                return false;
            }
            c + s.character as usize
        },
        None => {
            return false;
        },
    };
    let end = match rope_line_to_char(doc, e.line as usize) {
        Some(c) => {
            if c > usize::MAX - e.character as usize {
                return false;
            }
            c + e.character as usize
        },
        None => {
            return false;
        },
    };
    if !rope_remove(doc, start, end) {
        return false;
    }
    let inserted = rope_insert(doc, start, text);
    proof {
        assert(inserted);
        assert(rope_text(*doc) =~= t.subrange(0, start as int) + text@ + t.subrange(
            end as int,
            t.len() as int,
        ));
    }
    true
}

/// The document after the changes that the editor sent, as
/// [`changed_text`] says.
pub fn apply_changes(document: &Rope, changes: &Vec<ContentChange>) -> (r: Result<Rope, ChangeError>)
    ensures
        match r {
            Ok(d) => changed_text(rope_text(*document), changes@) == Ok::<Seq<char>, ChangeError>(
                rope_text(d),
            ),
            Err(e) => changed_text(rope_text(*document), changes@) == Err::<Seq<char>, ChangeError>(
                e,
            ),
        },
{
    let mut i: usize = 0;
    while i < changes.len()
        invariant
            i <= changes.len(),
            forall|j: int| 0 <= j < i ==> (#[trigger] changes@[j]).range_length is None,
        decreases changes.len() - i,
    {
        if changes[i].range_length.is_some() {
            return Err(ChangeError::RangeLength);
        }
        i += 1;
    }
    let mut k: usize = 0;
    proof {
        assert(changes@.take(0) =~= Seq::<ContentChange>::empty());
    }
    while k < changes.len()
        invariant
            k <= changes.len(),
            first_whole(changes@.take(k as int)) is None,
            forall|j: int| 0 <= j < changes@.len() ==> (#[trigger] changes@[j]).range_length is None,
        decreases changes.len() - k,
    {
        proof {
            assert(changes@.take(k + 1).drop_last() =~= changes@.take(k as int));
            assert(changes@.take(k + 1).last() == changes@[k as int]);
        }
        if changes[k].range.is_none() {
            proof {
                lemma_first_whole_found(changes@, k as int + 1);
            }
            return Ok(rope_from_str(changes[k].text.as_str()));
        }
        k += 1;
    }
    proof {
        assert(changes@.take(k as int) =~= changes@);
    }
    let mut doc = rope_clone(document);
    let mut n: usize = 0;
    while n < changes.len()
        invariant
            n <= changes.len(),
            edited(rope_text(*document), changes@.take(n as int)) == Some(rope_text(doc)),
            first_whole(changes@) is None,
            forall|j: int| 0 <= j < changes@.len() ==> (#[trigger] changes@[j]).range_length is None,
        decreases changes.len() - n,
    {
        proof {
            assert(changes@.take(n + 1).drop_last() =~= changes@.take(n as int));
        }
        if let Some((s, e)) = changes[n].range {
            if !apply_range_edit(&mut doc, s, e, changes[n].text.as_str()) {
                proof {
                    lemma_edited_failure_persists(rope_text(*document), changes@, n as int + 1);
                }
                return Err(ChangeError::OutOfRange);
            }
        }
        n += 1;
    }
    proof {
        assert(changes@.take(n as int) =~= changes@);
    }
    Ok(doc)
}

/// Once a prefix of the changes holds one that replaces the whole
/// document, all of them give that one's text.
proof fn lemma_first_whole_found(changes: Seq<ContentChange>, k: int)
    requires
        0 <= k <= changes.len(),
        first_whole(changes.take(k)) is Some,
    ensures
        first_whole(changes) == first_whole(changes.take(k)),
    decreases changes.len() - k,
{
    if k == changes.len() {
        assert(changes.take(k) =~= changes);
    } else {
        assert(changes.take(k + 1).drop_last() =~= changes.take(k));
        lemma_first_whole_found(changes, k + 1);
    }
}

/// Once applying a prefix of the changes fails, applying all of them
/// fails too.
proof fn lemma_edited_failure_persists(text: Seq<char>, changes: Seq<ContentChange>, k: int)
    requires
        0 <= k <= changes.len(),
        edited(text, changes.take(k)) is None,
    ensures
        edited(text, changes) is None,
    decreases changes.len() - k,
{
    if k == changes.len() {
        assert(changes.take(k) =~= changes);
    } else {
        assert(changes.take(k + 1).drop_last() =~= changes.take(k));
        lemma_edited_failure_persists(text, changes, k + 1);
    }
}

/// The position of the char at `offset` of `text`: its line, and its
/// column from the start of that line; an offset past the end of the text
/// is on the line after the last one.
pub open spec fn position_of(text: Seq<char>, offset: usize) -> Position {
    let line = if offset <= text.len() {
        line_of(text, offset)
    } else {
        line_count(text)
    };
    let first = if line <= line_count(text) {
        line_start(text, line)
    } else {
        text.len() as usize
    };
    Position { line: line as u32, character: (offset - first) as u32 }
}

/// The position of the char at `offset` of a document, as
/// [`position_of`] says.
pub fn offset_to_position(offset: usize, rope: &Rope) -> (r: Position)
    ensures
        r == position_of(rope_text(*rope), offset),
        ({
            let text = rope_text(*rope);
            offset <= text.len() && line_of(text, offset) <= u32::MAX && offset - line_start(
                text,
                line_of(text, offset),
            ) <= u32::MAX ==> offset_at(text, r) == offset
        }),
{
    let line = match rope_char_to_line(rope, offset) {
        Some(l) => l,
        None => rope_len_lines(rope),
    };
    let first = match rope_line_to_char(rope, line) {
        Some(c) => c,
        None => rope_len_chars(rope),
    };
    Position { line: line as u32, character: (offset - first) as u32 }
}

/// The char offset that a position names in `text`: the start of its
/// line, or the end of the text where the text has no such line, plus its
/// column.
pub open spec fn offset_at(text: Seq<char>, p: Position) -> int {
    match offset_of(text, p) {
        Some(o) => o,
        None => text.len() + p.character,
    }
}

/// The char offset that a position names in a document, as [`offset_at`]
/// says; none where it does not fit in a `usize`.
pub fn position_to_offset(position: Position, rope: &Rope) -> (r: Option<usize>)
    ensures
        r matches Some(o) ==> o == offset_at(rope_text(*rope), position),
        r is None <==> offset_at(rope_text(*rope), position) > usize::MAX,
{
    let len = rope_len_chars(rope);
    let first = match rope_line_to_char(rope, position.line as usize) {
        Some(c) => c,
        None => len,
    };
    if first > usize::MAX - position.character as usize {
        return None;
    }
    Some(first + position.character as usize)
}

/// A semantic token as the editor receives it: its line and start column,
/// each relative to the token before it, its length, and its type.
#[derive(Clone, Copy, Debug, PartialEq, Eq)]
pub struct EncodedToken {
    pub delta_line: u32,
    pub delta_start: u32,
    pub length: u32,
    pub token_type: u32,
    pub token_modifiers_bitset: u32,
}

/// The line of the token that starts at byte `byte` of `text`, and its
/// column in chars from the start of that line, both as `u32`; none
/// where ropey cannot place the byte or the line.
pub open spec fn token_place(text: Seq<char>, byte: usize) -> Option<(u32, u32)> {
    if byte <= utf8_len(text) {
        let line = byte_line(text, byte) as u32;
        if line as usize <= line_count(text) {
            let first = line_start(text, line as usize) as u32;
            Some((line, (byte_char(text, byte) as u32).wrapping_sub(first)))
        } else {
            None
        }
    } else {
        None
    }
}

/// Whether a token at `line` and column `start` lies in the range that
/// the editor asked for: from the start line of the range up to the end
/// line, and on the end line up to its column.
pub open spec fn in_range(range: (Position, Position), line: u32, start: u32) -> bool {
    line >= range.0.line && (line < range.1.line || (line == range.1.line && start
        <= range.1.character))
}

/// The state of the encoding after the tokens: the tokens sent, and the
/// line and column of the last one sent. A token is skipped where its
/// span ends before it starts, where ropey cannot place it, or, where a
/// range is given, where it lies outside it; each other one is sent with
/// its line relative to the last one sent and, on the same line, its
/// column relative to that one's, in `u32` arithmetic that wraps.
pub open spec fn encoded(
    text: Seq<char>,
    tokens: Seq<(usize, Span)>,
    range: Option<(Position, Position)>,
) -> (Seq<EncodedToken>, u32, u32)
    decreases tokens.len(),
{
    if tokens.len() == 0 {
        (Seq::empty(), 0, 0)
    } else {
        let (sent, pre_line, pre_start) = encoded(text, tokens.drop_last(), range);
        let (token, span) = tokens.last();
        match token_place(text, span.start) {
            None => (sent, pre_line, pre_start),
            Some((line, start)) => if (range matches Some(r) && !in_range(r, line, start))
                || span.start > span.end {
                (sent, pre_line, pre_start)
            } else {
                let delta_line = line.wrapping_sub(pre_line);
                let delta_start = if delta_line == 0 {
                    start.wrapping_sub(pre_start)
                } else {
                    start
                };
                (
                    sent.push(
                        EncodedToken {
                            delta_line,
                            delta_start,
                            length: (span.end - span.start) as u32,
                            token_type: token as u32,
                            token_modifiers_bitset: 0,
                        },
                    ),
                    line,
                    start,
                )
            },
        }
    }
}

/// Where the editor places the last of the tokens `sent`, decoding them
/// as the protocol says: starting from line 0 and column 0, each token
/// moves the line by its `delta_line`; on the same line it moves the
/// column by its `delta_start`, and on a new line its `delta_start` is the
/// column; in `u32` arithmetic that wraps.
pub open spec fn decoded_place(sent: Seq<EncodedToken>) -> (u32, u32)
    decreases sent.len(),
{
    if sent.len() == 0 {
        (0, 0)
    } else {
        let (line, column) = decoded_place(sent.drop_last());
        let t = sent.last();
        (
            line.wrapping_add(t.delta_line),
            if t.delta_line == 0 {
                column.wrapping_add(t.delta_start)
            } else {
                t.delta_start
            },
        )
    }
}

/// Decoding the tokens sent gives back the line and column of the last
/// one sent; and a token that is sent is at the line and column where
/// ropey places its start. So each token sent is decoded at its own
/// place: on the line of the token before it, its `delta_start` is its
/// column minus that token's column. A token sent carries the length of
/// its span and its own type, and, where a range is asked for, lies in it;
/// no more tokens are sent than given.
pub proof fn law_tokens_decode_to_their_places(
    text: Seq<char>,
    tokens: Seq<(usize, Span)>,
    range: Option<(Position, Position)>,
)
    ensures
        decoded_place(encoded(text, tokens, range).0) == (encoded(text, tokens, range).1, encoded(
            text,
            tokens,
            range,
        ).2),
        tokens.len() > 0 && encoded(text, tokens, range).0.len() > encoded(
            text,
            tokens.drop_last(),
            range,
        ).0.len() ==> token_place(text, tokens.last().1.start) == Some(
            (encoded(text, tokens, range).1, encoded(text, tokens, range).2),
        ),
        tokens.len() > 0 && encoded(text, tokens, range).0.len() > encoded(
            text,
            tokens.drop_last(),
            range,
        ).0.len() ==> {
            let t = encoded(text, tokens, range).0.last();
            let span = tokens.last().1;
            &&& span.start <= span.end
            &&& t.length == (span.end - span.start) as u32
            &&& t.token_type == tokens.last().0 as u32
            &&& t.token_modifiers_bitset == 0
            &&& range matches Some(rg) ==> in_range(
                rg,
                encoded(text, tokens, range).1,
                encoded(text, tokens, range).2,
            )
        },
        encoded(text, tokens, range).0.len() <= tokens.len(),
    decreases tokens.len(),
{
    if tokens.len() > 0 {
        law_tokens_decode_to_their_places(text, tokens.drop_last(), range);
        let (sent, pre_line, pre_start) = encoded(text, tokens.drop_last(), range);
        let (token, span) = tokens.last();
        if let Some((line, start)) = token_place(text, span.start) {
            if !((range matches Some(r) && !in_range(r, line, start)) || span.start > span.end) {
                let out = encoded(text, tokens, range).0;
                assert(out.drop_last() =~= sent);
            }
        }
    }
}

/// The semantic tokens of a document as the editor receives them, those
/// in `range` only where one is given, as [`encoded`] says.
fn encode(tokens: &Vec<(usize, Span)>, rope: &Rope, range: Option<(Position, Position)>) -> (r: Vec<
    EncodedToken,
>)
    ensures
        r@ == encoded(rope_text(*rope), tokens@, range).0,
{
    let mut data: Vec<EncodedToken> = Vec::new();
    let mut pre_line: u32 = 0;
    let mut pre_start: u32 = 0;
    let mut i: usize = 0;
    while i < tokens.len()
        invariant
            i <= tokens.len(),
            encoded(rope_text(*rope), tokens@.take(i as int), range) == (data@, pre_line, pre_start),
        decreases tokens.len() - i,
    {
        proof {
            assert(tokens@.take(i + 1).drop_last() =~= tokens@.take(i as int));
            assert(tokens@.take(i + 1).last() == tokens@[i as int]);
        }
        let (token, span) = tokens[i];
        let place = match rope_byte_to_line(rope, span.start) {
            None => None,
            Some(l) => {
                let line = l as u32;
                match rope_line_to_char(rope, line as usize) {
                    None => None,
                    Some(c) => match rope_byte_to_char(rope, span.start) {
                        None => None,
                        Some(b) => Some((line, (b as u32).wrapping_sub(c as u32))),
                    },
                }
            },
        };
        if let Some((line, start)) = place {
            let outside = match range {
                Some(r) => !(line >= r.0.line && (line < r.1.line || (line == r.1.line && start
                    <= r.1.character))),
                None => false,
            };
            if !outside && span.start <= span.end {
                let delta_line = line.wrapping_sub(pre_line);
                let delta_start = if delta_line == 0 {
                    start.wrapping_sub(pre_start)
                } else {
                    start
                };
                data.push(
                    EncodedToken {
                        delta_line,
                        delta_start,
                        length: (span.end - span.start) as u32,
                        token_type: token as u32,
                        token_modifiers_bitset: 0,
                    },
                );
                pre_line = line;
                pre_start = start;
            }
        }
        i += 1;
    }
    proof {
        assert(tokens@.take(i as int) =~= tokens@);
    }
    data
}

/// The semantic tokens of a whole document as the editor receives them,
/// as [`encoded`] says with no range.
pub fn encode_tokens(tokens: &Vec<(usize, Span)>, rope: &Rope) -> (r: Vec<EncodedToken>)
    ensures
        r@ == encoded(rope_text(*rope), tokens@, None).0,
{
    encode(tokens, rope, None)
}

/// The semantic tokens of a document that lie in `range`, as the editor
/// receives them, as [`encoded`] says with that range.
pub fn encode_tokens_in_range(
    tokens: &Vec<(usize, Span)>,
    rope: &Rope,
    range: (Position, Position),
) -> (r: Vec<EncodedToken>)
    ensures
        r@ == encoded(rope_text(*rope), tokens@, Some(range)).0,
{
    encode(tokens, rope, Some(range))
}

/// An error of a document as the editor shows it: the positions of the
/// start and the end of its span, and its message.
#[derive(Debug, PartialEq, Eq)]
pub struct Diagnostic {
    pub start: Position,
    pub end: Position,
    pub message: String,
}

/// The value of a [`Diagnostic`].
pub struct DiagnosticView {
    pub start: Position,
    pub end: Position,
    pub message: Seq<char>,
}

impl View for Diagnostic {
    type V = DiagnosticView;

    open spec fn view(&self) -> DiagnosticView {
        DiagnosticView { start: self.start, end: self.end, message: self.message@ }
    }
}

/// The diagnostics of the errors of a document of text `text`, one for
/// each error, in order, placed as [`position_of`] says.
pub open spec fn diagnostics_of(text: Seq<char>, errors: Seq<(String, Span)>) -> Seq<DiagnosticView> {
    errors.map_values(
        |e: (String, Span)|
            DiagnosticView {
                start: position_of(text, e.1.start),
                end: position_of(text, e.1.end),
                message: e.0@,
            },
    )
}

/// The diagnostics of the errors of a document, as [`diagnostics_of`]
/// says.
pub fn error_diagnostics(errors: &Vec<(String, Span)>, rope: &Rope) -> (r: Vec<Diagnostic>)
    ensures
        r@.map_values(|d: Diagnostic| d@) == diagnostics_of(rope_text(*rope), errors@),
{
    let mut out: Vec<Diagnostic> = Vec::new();
    let mut i: usize = 0;
    while i < errors.len()
        invariant
            i <= errors.len(),
            out@.map_values(|d: Diagnostic| d@) == diagnostics_of(rope_text(*rope), errors@.take(i as int)),
        decreases errors.len() - i,
    {
        let ghost before = out@;
        let span = errors[i].1;
        let start = offset_to_position(span.start, rope);
        let end = offset_to_position(span.end, rope);
        let message = errors[i].0.clone();
        let d = Diagnostic { start, end, message };
        proof {
            let want = diagnostics_of(rope_text(*rope), errors@.take(i + 1));
            assert(want[i as int] == d@);
            assert(want.take(i as int) =~= diagnostics_of(rope_text(*rope), errors@.take(i as int)));
        }
        out.push(d);
        proof {
            assert(out@.map_values(|d: Diagnostic| d@) =~= before.map_values(|d: Diagnostic| d@).push(
                d@,
            ));
            assert(out@.map_values(|d: Diagnostic| d@) =~= diagnostics_of(
                rope_text(*rope),
                errors@.take(i + 1),
            ));
        }
        i += 1;
    }
    proof {
        assert(errors@.take(i as int) =~= errors@);
    }
    out
}

} // verus!
