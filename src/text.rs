//! Document text as UTF-8 bytes, with line/column positions and ranged edits.
use vstd::prelude::*;

verus! {

/// The byte that ends a line.
pub const NEWLINE: u8 = 10;

/// A line/column position; the column counts UTF-16 code units from the start of the
/// line, as the editor protocol does.
#[derive(Clone, Copy, Debug, PartialEq, Eq, Structural)]
pub struct Position {
    pub line: usize,
    pub character: usize,
}

/// A range of a text, from `start` up to `end`.
#[derive(Clone, Copy, Debug, PartialEq, Eq, Structural)]
pub struct Range {
    pub start: Position,
    pub end: Position,
}

/// A byte that continues a multi-byte UTF-8 sequence.
pub open spec fn is_continuation(b: u8) -> bool {
    0x80 <= b < 0xC0
}

/// Offset `o` of `t` starts a character, or is the end of the text.
pub open spec fn is_boundary(t: Seq<u8>, o: int) -> bool {
    o == t.len() || (0 <= o < t.len() && !is_continuation(t[o]))
}

/// The UTF-16 code units that byte `i` of `t` adds to its line: one for the first
/// byte of a character, one more for the byte after the first byte of a four-byte
/// character (which needs a surrogate pair), none for the other bytes.
pub open spec fn units_of(t: Seq<u8>, i: int) -> nat {
    if !is_continuation(t[i]) {
        1
    } else if i > 0 && t[i - 1] >= 0xF0 {
        1
    } else {
        0
    }
}

/// The number of line breaks among the first `o` bytes of `t`.
pub open spec fn line_of(t: Seq<u8>, o: int) -> nat
    decreases o,
{
    if o <= 0 {
        0
    } else {
        line_of(t, o - 1) + if t[o - 1] == NEWLINE { 1nat } else { 0nat }
    }
}

/// The UTF-16 code units between the last line break before offset `o` and `o`.
pub open spec fn column_of(t: Seq<u8>, o: int) -> nat
    decreases o,
{
    if o <= 0 {
        0
    } else if t[o - 1] == NEWLINE {
        0
    } else {
        column_of(t, o - 1) + units_of(t, o - 1)
    }
}

/// `o` is a character boundary of `t` (the end included) that sits at position `p`.
pub open spec fn is_offset_of(t: Seq<u8>, p: Position, o: int) -> bool {
    &&& is_boundary(t, o)
    &&& line_of(t, o) == p.line
    &&& column_of(t, o) == p.character
}

/// The offset of `t` at position `p`, if the text has one.
pub open spec fn offset_of(t: Seq<u8>, p: Position) -> Option<int> {
    if exists|o: int| is_offset_of(t, p, o) {
        Some(choose|o: int| is_offset_of(t, p, o))
    } else {
        None
    }
}

/// The line count grows by at most one per byte; on one line the column never
/// shrinks, and grows by the units of each byte passed.
pub proof fn lemma_counts_grow(t: Seq<u8>, a: int, b: int)
    requires
        0 <= a <= b <= t.len(),
    ensures
        line_of(t, b) >= line_of(t, a),
        line_of(t, b) <= line_of(t, a) + (b - a),
        line_of(t, b) == line_of(t, a) ==> column_of(t, b) >= column_of(t, a),
        line_of(t, b) == line_of(t, a) && a < b ==> column_of(t, b) >= column_of(t, a) + units_of(
            t,
            a,
        ),
    decreases b - a,
{
    if b > a {
        lemma_counts_grow(t, a, b - 1);
    }
}

proof fn lemma_column_bound(t: Seq<u8>, o: int)
    requires
        0 <= o <= t.len(),
    ensures
        column_of(t, o) <= o,
        line_of(t, o) <= o,
    decreases o,
{
    if o > 0 {
        lemma_column_bound(t, o - 1);
    }
}

/// Two offsets of one text never share a position.
pub proof fn lemma_positions_distinct(t: Seq<u8>, a: int, b: int)
    requires
        0 <= a < b <= t.len(),
        is_boundary(t, a),
    ensures
        line_of(t, a) != line_of(t, b) || column_of(t, a) != column_of(t, b),
{
    lemma_counts_grow(t, a, b);
}

/// Each position names at most one offset.
pub proof fn lemma_offset_unique(t: Seq<u8>, p: Position, o: int)
    requires
        is_offset_of(t, p, o),
    ensures
        offset_of(t, p) == Some(o),
{
    let c = choose|x: int| is_offset_of(t, p, x);
    if c < o {
        lemma_positions_distinct(t, c, o);
    } else if o < c {
        lemma_positions_distinct(t, o, c);
    }
}

/// The byte offset of `pos` in `text`: `None` where the line does not exist or the
/// column lies past the end of its line.
pub fn pos_to_offset(text: &Vec<u8>, pos: Position) -> (r: Option<usize>)
    ensures
        match r {
            Some(o) => offset_of(text@, pos) == Some(o as int),
            None => offset_of(text@, pos) is None,
        },
{
    let n = text.len();
    let mut i: usize = 0;
    let mut line: usize = 0;
    let mut col: usize = 0;
    loop
        invariant
            i <= n,
            n == text@.len(),
            line == line_of(text@, i as int),
            col == column_of(text@, i as int),
            forall|j: int| 0 <= j < i ==> !is_offset_of(text@, pos, j),
        decreases n - i,
    {
        let boundary = i == n || text[i] < 0x80 || text[i] >= 0xC0;
        if boundary && line == pos.line && col == pos.character {
            proof {
                lemma_offset_unique(text@, pos, i as int);
            }
            return Some(i);
        }
        if i == n {
            assert forall|o: int| !is_offset_of(text@, pos, o) by {
                if is_offset_of(text@, pos, o) && o < i {
                }
            }
            return None;
        }
        proof {
            lemma_column_bound(text@, i as int);
        }
        if text[i] == NEWLINE {
            line = line + 1;
            col = 0;
        } else if text[i] < 0x80 || text[i] >= 0xC0 || (i > 0 && text[i - 1] >= 0xF0) {
            col = col + 1;
        }
        i = i + 1;
    }
}

/// The position of byte offset `offset` in `text`, for an offset that starts a
/// character or is the text's end.
pub fn offset_to_pos(text: &Vec<u8>, offset: usize) -> (r: Option<Position>)
    ensures
        is_boundary(text@, offset as int) <==> r is Some,
        r matches Some(p) ==> is_offset_of(text@, p, offset as int),
{
    if offset > text.len() {
        return None;
    }
    if offset < text.len() && text[offset] >= 0x80 && text[offset] < 0xC0 {
        return None;
    }
    let mut i: usize = 0;
    let mut line: usize = 0;
    let mut col: usize = 0;
    while i < offset
        invariant
            i <= offset <= text@.len(),
            line == line_of(text@, i as int),
            col == column_of(text@, i as int),
        decreases offset - i,
    {
        proof {
            lemma_column_bound(text@, i as int);
        }
        if text[i] == NEWLINE {
            line = line + 1;
            col = 0;
        } else if text[i] < 0x80 || text[i] >= 0xC0 || (i > 0 && text[i - 1] >= 0xF0) {
            col = col + 1;
        }
        i = i + 1;
    }
    Some(Position { line, character: col })
}

/// Mapping an offset to its position and back gives the offset again: the position
/// that `offset_to_pos` gives for `o` is one that `pos_to_offset` maps to `o`.
pub proof fn lemma_position_round_trip(t: Seq<u8>, o: int, p: Position)
    requires
        0 <= o <= t.len(),
        is_offset_of(t, p, o),
    ensures
        offset_of(t, p) == Some(o),
{
    lemma_offset_unique(t, p, o);
}

/// One edit of a document: a ranged replacement, or the whole new text where the
/// range is absent.
#[derive(Clone, Debug)]
pub struct TextChange {
    pub range: Option<Range>,
    pub text: Vec<u8>,
}

/// Why an edit could not be applied.
#[derive(Clone, Copy, Debug, PartialEq, Eq, Structural)]
pub enum EditError {
    /// A position of the range names no offset of the text.
    PositionOutOfRange,
    /// The range ends before it starts.
    InvertedRange,
}

/// `t` with the bytes from `s` up to `e` replaced by `x`.
pub open spec fn spliced(t: Seq<u8>, s: int, e: int, x: Seq<u8>) -> Seq<u8> {
    t.subrange(0, s) + x + t.subrange(e, t.len() as int)
}

/// The text after one change with the given range and replacement.
pub open spec fn change_result(t: Seq<u8>, range: Option<Range>, x: Seq<u8>) -> Result<
    Seq<u8>,
    EditError,
> {
    match range {
        None => Ok(x),
        Some(r) => match (offset_of(t, r.start), offset_of(t, r.end)) {
            (Some(s), Some(e)) => if s <= e {
                Ok(spliced(t, s, e, x))
            } else {
                Err(EditError::InvertedRange)
            },
            _ => Err(EditError::PositionOutOfRange),
        },
    }
}

/// The text after the changes, applied in order; the first failing change decides.
pub open spec fn changes_result(t: Seq<u8>, cs: Seq<TextChange>) -> Result<Seq<u8>, EditError>
    decreases cs.len(),
{
    if cs.len() == 0 {
        Ok(t)
    } else {
        match change_result(t, cs[0].range, cs[0].text@) {
            Ok(t2) => changes_result(t2, cs.drop_first()),
            Err(e) => Err(e),
        }
    }
}

fn splice(t: &Vec<u8>, s: usize, e: usize, x: &Vec<u8>) -> (r: Vec<u8>)
    requires
        s <= e <= t@.len(),
    ensures
        r@ == spliced(t@, s as int, e as int, x@),
{
    let mut r: Vec<u8> = Vec::new();
    let mut i: usize = 0;
    while i < s
        invariant
            i <= s <= e <= t@.len(),
            r@ == t@.subrange(0, i as int),
        decreases s - i,
    {
        r.push(t[i]);
        i = i + 1;
        assert(r@ =~= t@.subrange(0, i as int));
    }
    let mut j: usize = 0;
    while j < x.len()
        invariant
            j <= x@.len(),
            r@ == t@.subrange(0, s as int) + x@.subrange(0, j as int),
        decreases x@.len() - j,
    {
        r.push(x[j]);
        j = j + 1;
        assert(r@ =~= t@.subrange(0, s as int) + x@.subrange(0, j as int));
    }
    let mut k: usize = e;
    while k < t.len()
        invariant
            e <= k <= t@.len(),
            r@ == t@.subrange(0, s as int) + x@ + t@.subrange(e as int, k as int),
        decreases t@.len() - k,
    {
        r.push(t[k]);
        k = k + 1;
        assert(r@ =~= t@.subrange(0, s as int) + x@ + t@.subrange(e as int, k as int));
    }
    assert(x@.subrange(0, x@.len() as int) =~= x@);
    r
}

/// A copy of `t`.
pub fn copy_bytes(t: &Vec<u8>) -> (r: Vec<u8>)
    ensures
        r@ == t@,
{
    let empty: Vec<u8> = Vec::new();
    let r = splice(t, 0, 0, &empty);
    assert(r@ =~= t@);
    r
}

/// The text after applying `change` to `text`.
pub fn apply_change(text: &Vec<u8>, change: &TextChange) -> (r: Result<Vec<u8>, EditError>)
    ensures
        match r {
            Ok(v) => change_result(text@, change.range, change.text@) == Ok::<Seq<u8>, EditError>(v@),
            Err(e) => change_result(text@, change.range, change.text@) == Err::<Seq<u8>, EditError>(e),
        },
{
    match change.range {
        None => Ok(copy_bytes(&change.text)),
        Some(range) => {
            let s = pos_to_offset(text, range.start);
            let e = pos_to_offset(text, range.end);
            match (s, e) {
                (Some(s), Some(e)) => {
                    if s <= e {
                        Ok(splice(text, s, e, &change.text))
                    } else {
                        Err(EditError::InvertedRange)
                    }
                },
                _ => Err(EditError::PositionOutOfRange),
            }
        },
    }
}

/// Applies `changes` in order. On failure the text is left as it was.
pub fn apply_changes(text: &mut Vec<u8>, changes: &Vec<TextChange>) -> (r: Result<(), EditError>)
    ensures
        match changes_result(old(text)@, changes@) {
            Ok(t) => r is Ok && final(text)@ == t,
            Err(e) => r == Err::<(), EditError>(e) && final(text)@ == old(text)@,
        },
{
    let mut cur = copy_bytes(text);
    assert(changes@.skip(0) =~= changes@);
    let mut i: usize = 0;
    while i < changes.len()
        invariant
            i <= changes@.len(),
            changes_result(text@, changes@) == changes_result(cur@, changes@.skip(i as int)),
        decreases changes@.len() - i,
    {
        assert(changes@.skip(i as int).drop_first() =~= changes@.skip(i as int + 1));
        match apply_change(&cur, &changes[i]) {
            Ok(next) => {
                cur = next;
            },
            Err(e) => {
                return Err(e);
            },
        }
        i = i + 1;
    }
    *text = cur;
    Ok(())
}

/// Edits compose: once a list of changes applies, replacing the whole text by its
/// outcome gives the same text, and so does one ranged replacement that spans the
/// whole original text.
pub proof fn lemma_edits_equal_full_replacement(t: Seq<u8>, cs: Seq<TextChange>, whole: Range)
    requires
        changes_result(t, cs) is Ok,
        is_offset_of(t, whole.start, 0),
        is_offset_of(t, whole.end, t.len() as int),
    ensures
        change_result(t, None, changes_result(t, cs)->Ok_0) == changes_result(t, cs),
        change_result(t, Some(whole), changes_result(t, cs)->Ok_0) == changes_result(t, cs),
{
    let x = changes_result(t, cs)->Ok_0;
    lemma_offset_unique(t, whole.start, 0);
    lemma_offset_unique(t, whole.end, t.len() as int);
    assert(spliced(t, 0, t.len() as int, x) =~= x);
}

} // verus!
