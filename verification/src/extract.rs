//! Finding the JSON in a reply that may wrap it in prose or a code fence.
use vstd::prelude::*;
use vstd::string::*;

use crate::text::chars_of;

verus! {

/// Whether a character opens an object or an array.
pub open spec fn is_opener(c: char) -> bool {
    c == '{' || c == '['
}

/// The character that closes what `open` opens.
pub open spec fn closer(open: char) -> char {
    if open == '{' {
        '}'
    } else {
        ']'
    }
}

/// `start` is where the first object or array opens.
pub open spec fn first_opener(text: Seq<char>, start: int) -> bool {
    &&& 0 <= start < text.len()
    &&& is_opener(text[start])
    &&& forall|i: int| 0 <= i < start ==> !is_opener(#[trigger] text[i])
}

/// Whether, reading from `start`, the place `i` is inside a quoted string, and
/// whether the character there is escaped.
pub open spec fn quoting(text: Seq<char>, start: int, i: int) -> (bool, bool)
    decreases i - start,
{
    if i <= start {
        (false, false)
    } else {
        let (quoted, escaped) = quoting(text, start, i - 1);
        let c = text[i - 1];
        if escaped {
            (quoted, false)
        } else if c == '\\' && quoted {
            (true, true)
        } else if c == '"' {
            (!quoted, false)
        } else {
            (quoted, false)
        }
    }
}

/// How many more times than it closes, what opens at `start` opens before `i`,
/// quoted strings left out.
pub open spec fn nesting(text: Seq<char>, start: int, i: int) -> int
    decreases i - start,
{
    if i <= start {
        0
    } else {
        let c = text[i - 1];
        nesting(text, start, i - 1) + if quoting(text, start, i - 1).0 {
            0
        } else if c == text[start] {
            1
        } else if c == closer(text[start]) {
            -1
        } else {
            0int
        }
    }
}

/// Whether what opens at `start` is closed by the character at `end`.
pub open spec fn closes_at(text: Seq<char>, start: int, end: int) -> bool {
    &&& start <= end < text.len()
    &&& text[end] == closer(text[start])
    &&& !quoting(text, start, end).0
    &&& nesting(text, start, end + 1) == 0
}

/// `start` to `end` is the first object or array of the text.
pub open spec fn json_span(text: Seq<char>, start: int, end: int) -> bool {
    &&& first_opener(text, start)
    &&& closes_at(text, start, end)
    &&& forall|i: int| start <= i < end ==> !closes_at(text, start, i)
}

/// The first object or array of the text, if it is closed.
pub open spec fn extracted(text: Seq<char>) -> Option<Seq<char>> {
    if exists|start: int, end: int| json_span(text, start, end) {
        let (start, end) = choose|start: int, end: int| json_span(text, start, end);
        Some(text.subrange(start, end + 1))
    } else {
        None
    }
}

/// A text has no more than one first object or array.
proof fn lemma_span_unique(text: Seq<char>, s1: int, e1: int, s2: int, e2: int)
    requires
        json_span(text, s1, e1),
        json_span(text, s2, e2),
    ensures
        s1 == s2,
        e1 == e2,
{
    if s1 < s2 {
        assert(!is_opener(text[s1]));
    }
    if s2 < s1 {
        assert(!is_opener(text[s2]));
    }
    if e1 < e2 {
        assert(!closes_at(text, s1, e1));
    }
    if e2 < e1 {
        assert(!closes_at(text, s1, e2));
    }
}

/// What a span says is what is extracted.
pub proof fn lemma_extracted(text: Seq<char>, start: int, end: int)
    requires
        json_span(text, start, end),
    ensures
        extracted(text) == Some(text.subrange(start, end + 1)),
{
    let (s, e) = choose|start: int, end: int| json_span(text, start, end);
    lemma_span_unique(text, start, end, s, e);
}

/// Pull the first object or array out of a text that may hold more than that.
#[must_use]
pub fn extract_json(text: &str) -> (res: Option<&str>)
    ensures
        match res {
            Some(json) => extracted(text@) == Some(json@),
            None => extracted(text@) is None,
        },
{
    let chars = chars_of(text);
    let mut start: usize = 0;
    while start < chars.len() && chars[start] != '{' && chars[start] != '['
        invariant
            start <= chars@.len(),
            chars@ == text@,
            forall|i: int| 0 <= i < start ==> !is_opener(#[trigger] text@[i]),
        decreases chars@.len() - start,
    {
        start += 1;
    }
    if start >= chars.len() {
        return None;
    }
    let open = chars[start];
    let close = if open == '{' {
        '}'
    } else {
        ']'
    };
    let mut depth: usize = 0;
    let mut in_string = false;
    let mut escaped = false;
    assert(first_opener(text@, start as int));
    for i in start..chars.len()
        invariant
            chars@ == text@,
            start < chars@.len(),
            first_opener(text@, start as int),
            open == text@[start as int],
            close == closer(open),
            depth == nesting(text@, start as int, i as int),
            depth <= i - start,
            i > start ==> depth > 0,
            (in_string, escaped) == quoting(text@, start as int, i as int),
            escaped ==> in_string,
            forall|j: int| start <= j < i ==> !closes_at(text@, start as int, j),
    {
        let c = chars[i];
        assert(quoting(text@, start as int, i as int) == (in_string, escaped));
        assert(nesting(text@, start as int, i + 1) == depth + if in_string {
            0
        } else if c == open {
            1
        } else if c == close {
            -1
        } else {
            0int
        });
        if escaped {
            escaped = false;
        } else if c == '\\' && in_string {
            escaped = true;
        } else if c == '"' {
            in_string = !in_string;
        } else if c == open && !in_string {
            depth += 1;
        } else if c == close && !in_string {
            depth -= 1;
            if depth == 0 {
                proof {
                    lemma_extracted(text@, start as int, i as int);
                }
                return Some(text.substring_char(start, i + 1));
            }
        }
    }
    proof {
        assert forall|s: int, e: int| !json_span(text@, s, e) by {
            if json_span(text@, s, e) {
                if s < start {
                    assert(!is_opener(text@[s]));
                } else if s > start {
                    assert(!is_opener(text@[start as int]));
                }
                assert(!closes_at(text@, start as int, e));
            }
        }
    }
    None
}

/// What quoting and nesting say of a part of a text, they say of the part alone.
proof fn lemma_scan_of_part(text: Seq<char>, from: int, to: int, start: int, i: int)
    requires
        0 <= from <= to <= text.len(),
        0 <= start <= i <= to - from,
    ensures
        quoting(text.subrange(from, to), start, i) == quoting(text, from + start, from + i),
        nesting(text.subrange(from, to), start, i) == nesting(text, from + start, from + i),
    decreases i,
{
    if i > start {
        lemma_scan_of_part(text, from, to, start, i - 1);
        assert(text.subrange(from, to)[i - 1] == text[from + i - 1]);
        assert(text.subrange(from, to)[start] == text[from + start]);
    }
}

/// Where something closes in a part of a text, it closes in the text.
proof fn lemma_closes_in_part(text: Seq<char>, from: int, to: int, start: int, end: int)
    requires
        0 <= from <= to <= text.len(),
        0 <= start <= end < to - from,
    ensures
        closes_at(text.subrange(from, to), start, end) == closes_at(
            text,
            from + start,
            from + end,
        ),
{
    lemma_scan_of_part(text, from, to, start, end);
    lemma_scan_of_part(text, from, to, start, end + 1);
}

/// The first object or array of a part of a text is that of the text, where
/// nothing opens before the part.
proof fn lemma_span_of_part(text: Seq<char>, from: int, to: int, start: int, end: int)
    requires
        0 <= from <= to <= text.len(),
        forall|i: int| 0 <= i < from ==> !is_opener(#[trigger] text[i]),
        0 <= start <= end < to - from,
    ensures
        json_span(text.subrange(from, to), start, end) == json_span(text, from + start, from + end),
{
    let part = text.subrange(from, to);
    assert(first_opener(part, start) == first_opener(text, from + start)) by {
        if first_opener(part, start) {
            assert forall|i: int| 0 <= i < from + start implies !is_opener(#[trigger] text[i]) by {
                if i >= from {
                    assert(!is_opener(part[i - from]));
                }
            }
        }
        if first_opener(text, from + start) {
            assert forall|i: int| 0 <= i < start implies !is_opener(#[trigger] part[i]) by {
                assert(!is_opener(text[from + i]));
            }
        }
    }
    assert forall|i: int| start <= i <= end implies closes_at(part, start, i) == closes_at(
        text,
        from + start,
        from + i,
    ) by {
        lemma_closes_in_part(text, from, to, start, i);
    }
    let opens = from + start;
    if json_span(part, start, end) {
        assert forall|i: int| opens <= i < from + end implies !closes_at(text, opens, i) by {
            assert(!closes_at(part, start, i - from));
        }
    }
    if json_span(text, opens, from + end) {
        assert forall|i: int| start <= i < end implies !closes_at(part, start, i) by {
            assert(!closes_at(text, opens, from + i));
        }
    }
}

/// Prose around the JSON changes nothing: neither text before it in which nothing
/// opens, nor, once the JSON is closed, any text after it.
pub proof fn text_around_the_json_changes_nothing(
    before: Seq<char>,
    text: Seq<char>,
    after: Seq<char>,
)
    requires
        forall|i: int| 0 <= i < before.len() ==> !is_opener(#[trigger] before[i]),
    ensures
        extracted(before + text) == extracted(text),
        extracted(text) is Some ==> extracted(before + text + after) == extracted(text),
{
    let from = before.len() as int;
    let to = from + text.len();
    let led = before + text;
    let whole = led + after;
    assert(led.subrange(from, to) =~= text);
    assert(whole.subrange(from, to) =~= text);
    if exists|start: int, end: int| json_span(text, start, end) {
        let (start, end) = choose|start: int, end: int| json_span(text, start, end);
        let json = text.subrange(start, end + 1);
        lemma_span_of_part(led, from, to, start, end);
        lemma_extracted(led, from + start, from + end);
        assert(led.subrange(from + start, from + end + 1) =~= json);
        lemma_span_of_part(whole, from, to, start, end);
        lemma_extracted(whole, from + start, from + end);
        assert(whole.subrange(from + start, from + end + 1) =~= json);
    } else {
        assert forall|s: int, e: int| !json_span(led, s, e) by {
            if json_span(led, s, e) {
                if s < from {
                    assert(!is_opener(before[s]));
                }
                lemma_span_of_part(led, from, to, s - from, e - from);
                assert(json_span(text, s - from, e - from));
            }
        }
    }
}

/// What was extracted is itself an object or an array from end to end:
/// extracting once more changes nothing.
pub proof fn extracting_again_changes_nothing(text: Seq<char>)
    ensures
        extracted(text) matches Some(json) ==> extracted(json) == Some(json),
{
    if exists|start: int, end: int| json_span(text, start, end) {
        let (start, end) = choose|start: int, end: int| json_span(text, start, end);
        let json = text.subrange(start, end + 1);
        let last = end - start;
        assert forall|i: int| 0 <= i <= last implies closes_at(json, 0, i) == closes_at(
            text,
            start,
            start + i,
        ) by {
            lemma_closes_in_part(text, start, end + 1, 0, i);
        }
        assert(closes_at(json, 0, last));
        assert forall|i: int| 0 <= i < last implies !closes_at(json, 0, i) by {
            assert(!closes_at(text, start, start + i));
        }
        assert(json_span(json, 0, last));
        lemma_extracted(json, 0, last);
        assert(json.subrange(0, last + 1) == json);
    }
}

/// What was extracted stands in the text as it is, from where the first object
/// or array opens to what closes it.
pub proof fn extracted_json_is_part_of_the_text(text: Seq<char>)
    ensures
        extracted(text) matches Some(json) ==> exists|start: int, end: int|
            {
                &&& first_opener(text, start)
                &&& start < end < text.len()
                &&& json == #[trigger] text.subrange(start, end + 1)
                &&& json.last() == closer(json[0])
                &&& nesting(json, 0, json.len() as int) == 0
            },
{
    if exists|start: int, end: int| json_span(text, start, end) {
        let (start, end) = choose|start: int, end: int| json_span(text, start, end);
        let json = text.subrange(start, end + 1);
        lemma_scan_of_part(text, start, end + 1, 0, end + 1 - start);
        assert(text[end] != text[start]);
        assert(json == text.subrange(start, end + 1));
    }
}

/// A character of a quoted string: one that stands for itself, or one after a
/// backslash.
pub enum Mark {
    Plain(char),
    Escaped(char),
}

/// A part of what stands between a pair of brackets: a character, a quoted string,
/// or another pair of the same brackets with what stands between them.
pub enum Piece {
    Plain(char),
    Quoted(Seq<Mark>),
    Nested(Seq<Piece>),
}

/// The text of the characters of a quoted string.
pub open spec fn marks_text(marks: Seq<Mark>) -> Seq<char>
    decreases marks.len(),
{
    if marks.len() == 0 {
        Seq::empty()
    } else {
        marks_text(marks.drop_last()) + match marks.last() {
            Mark::Plain(c) => seq![c],
            Mark::Escaped(c) => seq!['\\', c],
        }
    }
}

/// Whether the characters of a quoted string that stand for themselves neither end
/// it nor escape another.
pub open spec fn marks_fine(marks: Seq<Mark>) -> bool {
    forall|i: int|
        0 <= i < marks.len() ==> (#[trigger] marks[i] matches Mark::Plain(c) ==> c != '"' && c
            != '\\')
}

/// The text of a part, between brackets `open` and `close`.
pub open spec fn piece_text(piece: Piece, open: char, close: char) -> Seq<char>
    decreases piece, 0nat,
{
    match piece {
        Piece::Plain(c) => seq![c],
        Piece::Quoted(marks) => seq!['"'] + marks_text(marks) + seq!['"'],
        Piece::Nested(pieces) => seq![open] + pieces_text(pieces, open, close) + seq![close],
    }
}

/// The text of parts in a row.
pub open spec fn pieces_text(pieces: Seq<Piece>, open: char, close: char) -> Seq<char>
    decreases pieces, pieces.len(),
{
    if pieces.len() == 0 {
        Seq::empty()
    } else {
        pieces_text(pieces.drop_last(), open, close) + piece_text(pieces.last(), open, close)
    }
}

/// Whether a part is one: a character in it that stands for itself neither opens a
/// quoted string nor is one of the brackets.
pub open spec fn piece_fine(piece: Piece, open: char, close: char) -> bool
    decreases piece, 0nat,
{
    match piece {
        Piece::Plain(c) => c != '"' && c != open && c != close,
        Piece::Quoted(marks) => marks_fine(marks),
        Piece::Nested(pieces) => pieces_fine(pieces, open, close),
    }
}

/// Whether parts in a row are parts.
pub open spec fn pieces_fine(pieces: Seq<Piece>, open: char, close: char) -> bool
    decreases pieces, pieces.len(),
{
    pieces.len() > 0 ==> pieces_fine(pieces.drop_last(), open, close) && piece_fine(
        pieces.last(),
        open,
        close,
    )
}

/// A pair of brackets with what stands between them.
pub open spec fn bracketed(pieces: Seq<Piece>, open: char, close: char) -> Seq<char> {
    seq![open] + pieces_text(pieces, open, close) + seq![close]
}

/// Whether these are the brackets of an object or of an array.
pub open spec fn are_brackets(open: char, close: char) -> bool {
    (open == '{' && close == '}') || (open == '[' && close == ']')
}

/// Reading the characters of a quoted string.
proof fn lemma_read_marks(text: Seq<char>, start: int, p: int, marks: Seq<Mark>)
    requires
        0 <= start < p,
        p + marks_text(marks).len() <= text.len(),
        text.subrange(p, p + marks_text(marks).len()) == marks_text(marks),
        marks_fine(marks),
        quoting(text, start, p) == (true, false),
    ensures
        quoting(text, start, p + marks_text(marks).len()) == (true, false),
        forall|j: int|
            p <= j <= p + marks_text(marks).len() ==> #[trigger] nesting(text, start, j) == nesting(
                text,
                start,
                p,
            ) && quoting(text, start, j).0,
    decreases marks.len(),
{
    if marks.len() > 0 {
        let rest = marks.drop_last();
        let whole = marks_text(marks);
        let done = marks_text(rest);
        let mid = p + done.len();
        let end = p + whole.len();
        assert(text.subrange(p, mid) =~= text.subrange(p, end).take(done.len() as int));
        assert(text.subrange(p, mid) =~= done);
        assert forall|i: int| 0 <= i < rest.len() implies (#[trigger] rest[i] matches Mark::Plain(
            c,
        ) ==> c != '"' && c != '\\') by {
            assert(rest[i] == marks[i]);
        }
        lemma_read_marks(text, start, p, rest);
        assert(text[mid] == text.subrange(p, end)[done.len() as int]);
        assert(marks[marks.len() - 1] == marks.last());
        match marks.last() {
            Mark::Plain(c) => {
                assert(end == mid + 1);
                assert(quoting(text, start, mid + 1) == (true, false));
                assert(nesting(text, start, mid + 1) == nesting(text, start, mid));
            },
            Mark::Escaped(c) => {
                assert(end == mid + 2);
                assert(quoting(text, start, mid + 1) == (true, true));
                assert(quoting(text, start, mid + 2) == (true, false));
                assert(nesting(text, start, mid + 1) == nesting(text, start, mid));
                assert(nesting(text, start, mid + 2) == nesting(text, start, mid + 1));
            },
        }
        assert forall|j: int| p <= j <= end implies #[trigger] nesting(text, start, j) == nesting(
            text,
            start,
            p,
        ) && quoting(text, start, j).0 by {
            assert(nesting(text, start, mid) == nesting(text, start, p));
            if j <= mid {
                assert(nesting(text, start, j) == nesting(text, start, p));
            } else if j == mid + 1 {
                assert(quoting(text, start, j).0);
                assert(nesting(text, start, j) == nesting(text, start, p));
            } else {
                assert(j == mid + 2);
                assert(quoting(text, start, j).0);
                assert(nesting(text, start, j) == nesting(text, start, p));
            }
        }
    }
}

/// Reading a part leaves everything closed that it opens, and closes nothing else.
proof fn lemma_read_piece(
    text: Seq<char>,
    start: int,
    p: int,
    piece: Piece,
    open: char,
    close: char,
)
    requires
        0 <= start < p,
        are_brackets(open, close),
        text[start] == open,
        p + piece_text(piece, open, close).len() <= text.len(),
        text.subrange(p, p + piece_text(piece, open, close).len()) == piece_text(
            piece,
            open,
            close,
        ),
        piece_fine(piece, open, close),
        quoting(text, start, p) == (false, false),
    ensures
        quoting(text, start, p + piece_text(piece, open, close).len()) == (false, false),
        nesting(text, start, p + piece_text(piece, open, close).len()) == nesting(text, start, p),
        forall|j: int|
            p <= j <= p + piece_text(piece, open, close).len() ==> #[trigger] nesting(
                text,
                start,
                j,
            ) >= nesting(text, start, p),
    decreases piece, 0nat,
{
    let whole = piece_text(piece, open, close);
    let end = p + whole.len();
    let d = nesting(text, start, p);
    match piece {
        Piece::Plain(c) => {
            assert(text[p] == text.subrange(p, end)[0]);
        },
        Piece::Quoted(marks) => {
            let inner = marks_text(marks);
            assert(text[p] == text.subrange(p, end)[0]);
            assert(text[end - 1] == text.subrange(p, end)[whole.len() - 1]);
            assert(text.subrange(p + 1, end - 1) =~= text.subrange(p, end).subrange(
                1,
                whole.len() - 1,
            ));
            assert(text.subrange(p + 1, end - 1) =~= inner);
            assert(quoting(text, start, p + 1) == (true, false));
            assert(nesting(text, start, p + 1) == d);
            lemma_read_marks(text, start, p + 1, marks);
            let last = p + 1 + inner.len();
            assert(last == end - 1);
            assert(nesting(text, start, last) == d && quoting(text, start, last) == (true, false));
            assert(quoting(text, start, last + 1) == (false, false));
            assert(nesting(text, start, last + 1) == d);
            assert(nesting(text, start, end) == d);
            assert forall|j: int| p <= j <= end implies #[trigger] nesting(text, start, j)
                >= d by {
                if p < j < end {
                    assert(nesting(text, start, j) == nesting(text, start, p + 1));
                }
            }
        },
        Piece::Nested(pieces) => {
            let inner = pieces_text(pieces, open, close);
            assert(text[p] == text.subrange(p, end)[0]);
            assert(text[end - 1] == text.subrange(p, end)[whole.len() - 1]);
            assert(text.subrange(p + 1, end - 1) =~= text.subrange(p, end).subrange(
                1,
                whole.len() - 1,
            ));
            assert(text.subrange(p + 1, end - 1) =~= inner);
            assert(quoting(text, start, p + 1) == (false, false));
            assert(nesting(text, start, p + 1) == d + 1);
            lemma_read_pieces(text, start, p + 1, pieces, open, close);
            let last = p + 1 + inner.len();
            assert(last == end - 1);
            assert(quoting(text, start, last + 1) == (false, false));
            assert(nesting(text, start, last + 1) == d);
            assert(nesting(text, start, end) == d);
            assert forall|j: int| p <= j <= end implies #[trigger] nesting(text, start, j)
                >= d by {
                if p < j < end {
                    assert(nesting(text, start, j) >= nesting(text, start, p + 1));
                }
            }
        },
    }
}

/// Reading parts in a row.
proof fn lemma_read_pieces(
    text: Seq<char>,
    start: int,
    p: int,
    pieces: Seq<Piece>,
    open: char,
    close: char,
)
    requires
        0 <= start < p,
        are_brackets(open, close),
        text[start] == open,
        p + pieces_text(pieces, open, close).len() <= text.len(),
        text.subrange(p, p + pieces_text(pieces, open, close).len()) == pieces_text(
            pieces,
            open,
            close,
        ),
        pieces_fine(pieces, open, close),
        quoting(text, start, p) == (false, false),
    ensures
        quoting(text, start, p + pieces_text(pieces, open, close).len()) == (false, false),
        nesting(text, start, p + pieces_text(pieces, open, close).len()) == nesting(text, start, p),
        forall|j: int|
            p <= j <= p + pieces_text(pieces, open, close).len() ==> #[trigger] nesting(
                text,
                start,
                j,
            ) >= nesting(text, start, p),
    decreases pieces, pieces.len(),
{
    if pieces.len() > 0 {
        let rest = pieces.drop_last();
        let whole = pieces_text(pieces, open, close);
        let done = pieces_text(rest, open, close);
        let mid = p + done.len();
        let end = p + whole.len();
        assert(text.subrange(p, mid) =~= text.subrange(p, end).take(done.len() as int));
        assert(text.subrange(p, mid) =~= done);
        assert(text.subrange(mid, end) =~= text.subrange(p, end).skip(done.len() as int));
        assert(text.subrange(mid, end) =~= piece_text(pieces.last(), open, close));
        lemma_read_pieces(text, start, p, rest, open, close);
        lemma_read_piece(text, start, mid, pieces.last(), open, close);
        assert forall|j: int| p <= j <= end implies #[trigger] nesting(text, start, j) >= nesting(
            text,
            start,
            p,
        ) by {
            if j > mid {
                assert(nesting(text, start, j) >= nesting(text, start, mid));
            }
        }
    }
}

/// An object or an array is extracted whole, whatever its strings hold and whatever
/// stands after it, and whatever stands before it without opening another.
pub proof fn a_whole_object_or_array_is_extracted(
    before: Seq<char>,
    pieces: Seq<Piece>,
    open: char,
    close: char,
    after: Seq<char>,
)
    requires
        are_brackets(open, close),
        pieces_fine(pieces, open, close),
        forall|i: int|
            0 <= i < before.len() ==> #[trigger] before[i] != '{' && before[i] != '[',
    ensures
        extracted(before + bracketed(pieces, open, close) + after) == Some(
            bracketed(pieces, open, close),
        ),
{
    let json = bracketed(pieces, open, close);
    let text = before + json + after;
    let inner = pieces_text(pieces, open, close);
    let start = before.len() as int;
    let end = start + json.len() - 1;
    assert(text[start] == json[0] == open);
    assert(text[end] == json[json.len() - 1] == close);
    assert(text.subrange(start + 1, start + 1 + inner.len()) =~= inner);
    assert(quoting(text, start, start) == (false, false));
    assert(quoting(text, start, start + 1) == (false, false));
    assert(nesting(text, start, start) == 0);
    assert(nesting(text, start, start + 1) == 1);
    lemma_read_pieces(text, start, start + 1, pieces, open, close);
    assert(nesting(text, start, end + 1) == 0);
    assert(first_opener(text, start)) by {
        assert forall|i: int| 0 <= i < start implies !is_opener(#[trigger] text[i]) by {
            assert(text[i] == before[i]);
        }
    }
    assert forall|i: int| start <= i < end implies !closes_at(text, start, i) by {
        assert(nesting(text, start, i + 1) >= 1);
    }
    assert(json_span(text, start, end));
    lemma_extracted(text, start, end);
    assert(text.subrange(start, end + 1) =~= json);
}

/// The text of brackets that are open, one in the other, each with what stands in it
/// so far.
spec fn levels_text(levels: Seq<Seq<Piece>>, open: char, close: char) -> Seq<char>
    decreases levels.len(),
{
    if levels.len() == 0 {
        Seq::empty()
    } else {
        levels_text(levels.drop_last(), open, close) + seq![open] + pieces_text(
            levels.last(),
            open,
            close,
        )
    }
}

/// Whether what stands in open brackets is made of parts.
spec fn levels_fine(levels: Seq<Seq<Piece>>, open: char, close: char) -> bool {
    forall|i: int| 0 <= i < levels.len() ==> pieces_fine(#[trigger] levels[i], open, close)
}

/// The text of a quoted string that is open, if one is.
spec fn tail_text(tail: Option<Seq<Mark>>, escaped: bool) -> Seq<char> {
    match tail {
        Some(marks) => seq!['"'] + marks_text(marks) + if escaped {
            seq!['\\']
        } else {
            Seq::empty()
        },
        None => Seq::empty(),
    }
}

/// One more character in a quoted string.
proof fn lemma_one_more_mark(marks: Seq<Mark>, mark: Mark)
    requires
        marks_fine(marks),
        mark matches Mark::Plain(c) ==> c != '"' && c != '\\',
    ensures
        marks_fine(marks.push(mark)),
        marks_text(marks.push(mark)) == marks_text(marks) + match mark {
            Mark::Plain(c) => seq![c],
            Mark::Escaped(c) => seq!['\\', c],
        },
{
    assert(marks.push(mark).drop_last() =~= marks);
}

/// One more part in the innermost brackets.
proof fn lemma_one_more_piece(
    levels: Seq<Seq<Piece>>,
    piece: Piece,
    open: char,
    close: char,
) -> (more: Seq<Seq<Piece>>)
    requires
        levels.len() > 0,
        levels_fine(levels, open, close),
        piece_fine(piece, open, close),
    ensures
        more.len() == levels.len(),
        levels_fine(more, open, close),
        levels_text(more, open, close) == levels_text(levels, open, close) + piece_text(
            piece,
            open,
            close,
        ),
{
    let pieces = levels.last().push(piece);
    let more = levels.drop_last().push(pieces);
    assert(levels[levels.len() - 1] == levels.last());
    assert(pieces.drop_last() =~= levels.last());
    assert(pieces_fine(pieces, open, close));
    assert forall|i: int| 0 <= i < more.len() implies pieces_fine(
        #[trigger] more[i],
        open,
        close,
    ) by {
        if i < levels.len() - 1 {
            assert(more[i] == levels[i]);
        }
    }
    assert(more.drop_last() =~= levels.drop_last());
    assert(levels_text(more, open, close) =~= levels_text(levels, open, close) + piece_text(
        piece,
        open,
        close,
    ));
    more
}

/// One more character after brackets that are open and parts in them. A bracket
/// that closes closes no more than the innermost of at least two.
proof fn lemma_one_more_char(
    levels: Seq<Seq<Piece>>,
    tail: Option<Seq<Mark>>,
    escaped: bool,
    c: char,
    open: char,
    close: char,
) -> (res: (Seq<Seq<Piece>>, Option<Seq<Mark>>))
    requires
        are_brackets(open, close),
        levels.len() > 0,
        levels_fine(levels, open, close),
        tail matches Some(marks) ==> marks_fine(marks),
        escaped ==> tail is Some,
        tail is None && c == close ==> levels.len() > 1,
    ensures
        levels_fine(res.0, open, close),
        res.1 matches Some(marks) ==> marks_fine(marks),
        res.0.len() == levels.len() + if tail is Some {
            0
        } else if c == open {
            1
        } else if c == close {
            -1
        } else {
            0int
        },
        res.1 is Some == if !escaped && c == '"' {
            tail is None
        } else {
            tail is Some
        },
        levels_text(res.0, open, close) + tail_text(
            res.1,
            tail is Some && !escaped && c == '\\',
        ) == (levels_text(levels, open, close) + tail_text(tail, escaped)).push(c),
{
    let goal = (levels_text(levels, open, close) + tail_text(tail, escaped)).push(c);
    if let Some(marks) = tail {
        if escaped {
            let more = marks.push(Mark::Escaped(c));
            lemma_one_more_mark(marks, Mark::Escaped(c));
            assert(levels_text(levels, open, close) + tail_text(Some(more), false) =~= goal);
            (levels, Some(more))
        } else if c == '\\' {
            assert(levels_text(levels, open, close) + tail_text(Some(marks), true) =~= goal);
            (levels, Some(marks))
        } else if c == '"' {
            let more = lemma_one_more_piece(levels, Piece::Quoted(marks), open, close);
            assert(levels_text(more, open, close) + tail_text(None, false) =~= goal);
            (more, None)
        } else {
            let more = marks.push(Mark::Plain(c));
            lemma_one_more_mark(marks, Mark::Plain(c));
            assert(levels_text(levels, open, close) + tail_text(Some(more), false) =~= goal);
            (levels, Some(more))
        }
    } else if c == '"' {
        let marks = Seq::<Mark>::empty();
        assert(levels_text(levels, open, close) + tail_text(Some(marks), false) =~= goal);
        (levels, Some(marks))
    } else if c == open {
        let empty = Seq::<Piece>::empty();
        let more = levels.push(empty);
        assert(more.drop_last() =~= levels);
        assert(pieces_text(empty, open, close) =~= Seq::empty());
        assert(levels_text(more, open, close) + tail_text(None, false) =~= goal);
        (more, None)
    } else if c == close {
        let inner = levels.last();
        assert(levels[levels.len() - 1] == inner);
        let outer = levels.drop_last();
        assert forall|j: int| 0 <= j < outer.len() implies pieces_fine(
            #[trigger] outer[j],
            open,
            close,
        ) by {
            assert(outer[j] == levels[j]);
        }
        let more = lemma_one_more_piece(outer, Piece::Nested(inner), open, close);
        assert(levels_text(more, open, close) + tail_text(None, false) =~= goal);
        (more, None)
    } else {
        let more = lemma_one_more_piece(levels, Piece::Plain(c), open, close);
        assert(levels_text(more, open, close) + tail_text(None, false) =~= goal);
        (more, None)
    }
}

/// What was read before `i` is made of brackets that are open and of parts in them.
proof fn lemma_levels(text: Seq<char>, start: int, i: int, open: char, close: char) -> (res: (
    Seq<Seq<Piece>>,
    Option<Seq<Mark>>,
))
    requires
        0 <= start < i <= text.len(),
        are_brackets(open, close),
        text[start] == open,
        closer(open) == close,
        forall|j: int| start <= j < i ==> !closes_at(text, start, j),
    ensures
        levels_fine(res.0, open, close),
        res.0.len() == nesting(text, start, i) >= 1,
        res.1 matches Some(marks) ==> marks_fine(marks),
        quoting(text, start, i).0 == (res.1 is Some),
        quoting(text, start, i).1 ==> res.1 is Some,
        text.subrange(start, i) == levels_text(res.0, open, close) + tail_text(
            res.1,
            quoting(text, start, i).1,
        ),
    decreases i,
{
    if i == start + 1 {
        let empty = Seq::<Piece>::empty();
        let levels = seq![empty];
        assert(quoting(text, start, start) == (false, false));
        assert(nesting(text, start, start) == 0);
        assert(levels.drop_last() =~= Seq::empty());
        assert(levels_text(levels.drop_last(), open, close) =~= Seq::empty());
        assert(text.subrange(start, i) =~= levels_text(levels, open, close) + tail_text(
            None,
            false,
        ));
        (levels, None)
    } else {
        let (levels, tail) = lemma_levels(text, start, i - 1, open, close);
        let c = text[i - 1];
        let (quoted, escaped) = quoting(text, start, i - 1);
        assert(!closes_at(text, start, i - 1));
        assert(text.subrange(start, i) =~= text.subrange(start, i - 1).push(c));
        lemma_one_more_char(levels, tail, escaped, c, open, close)
    }
}

/// Whether a text is an object or an array from end to end.
pub open spec fn is_whole(json: Seq<char>) -> bool {
    exists|pieces: Seq<Piece>, open: char, close: char|
        {
            &&& are_brackets(open, close)
            &&& pieces_fine(pieces, open, close)
            &&& json == #[trigger] bracketed(pieces, open, close)
        }
}

/// Whether `json` stands in the text at `start`, and no object or array opens before.
pub open spec fn stands_first(text: Seq<char>, json: Seq<char>, start: int) -> bool {
    &&& 0 <= start
    &&& start + json.len() <= text.len()
    &&& json == text.subrange(start, start + json.len())
    &&& forall|i: int| 0 <= i < start ==> #[trigger] text[i] != '{' && text[i] != '['
}

/// What is extracted is an object or an array from end to end, and stands where the
/// first one opens; from a text in which the first one is never closed nothing is
/// extracted.
pub proof fn nothing_but_a_whole_object_or_array_is_extracted(text: Seq<char>)
    ensures
        extracted(text) matches Some(json) ==> is_whole(json) && exists|start: int|
            stands_first(text, json, start),
{
    if exists|start: int, end: int| json_span(text, start, end) {
        let (start, end) = choose|start: int, end: int| json_span(text, start, end);
        let json = text.subrange(start, end + 1);
        let (open, close) = (text[start], text[end]);
        assert(quoting(text, start, start) == (false, false));
        assert(nesting(text, start, start) == 0);
        assert(end > start);
        assert(are_brackets(open, close));
        let (levels, tail) = lemma_levels(text, start, end, open, close);
        assert(nesting(text, start, end) == 1);
        assert(levels.drop_last() =~= Seq::empty());
        assert(levels_text(levels.drop_last(), open, close) =~= Seq::empty());
        assert(levels[0] == levels.last());
        assert(text.subrange(start, end) =~= seq![open] + pieces_text(levels[0], open, close)) by {
            assert(quoting(text, start, end) == (false, false));
        }
        assert(json =~= text.subrange(start, end).push(close));
        assert(json =~= bracketed(levels[0], open, close));
        assert forall|i: int| 0 <= i < start implies #[trigger] text[i] != '{' && text[i]
            != '[' by {
            assert(!is_opener(text[i]));
        }
        assert(stands_first(text, json, start));
        assert(extracted(text) == Some(json));
    }
}

} // verus!
