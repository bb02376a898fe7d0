//! The lexical layer: bytes, runs of bytes, lines and whitespace-separated
//! tokens.

use vstd::prelude::*;

verus! {

pub const TAB: u8 = 9;

pub const LINE_FEED: u8 = 10;

pub const FORM_FEED: u8 = 12;

pub const CARRIAGE_RETURN: u8 = 13;

pub const SPACE: u8 = 32;

pub const DIGIT_ZERO: u8 = 48;

pub const DIGIT_NINE: u8 = 57;

/// A class of bytes that a scan can run over.
#[derive(Debug, Clone, Copy, PartialEq, Eq, Structural)]
pub enum ByteClass {
    /// The decimal digits `0` to `9`.
    Digit,
    /// ASCII whitespace: space, tab, line feed, form feed, carriage return.
    Space,
    /// Everything but ASCII whitespace.
    Visible,
    /// Everything but the line feed.
    InLine,
}

pub open spec fn is_digit(b: u8) -> bool {
    DIGIT_ZERO <= b <= DIGIT_NINE
}

pub open spec fn is_space(b: u8) -> bool {
    b == SPACE || b == TAB || b == LINE_FEED || b == FORM_FEED || b == CARRIAGE_RETURN
}

impl ByteClass {
    pub open spec fn holds(self, b: u8) -> bool {
        match self {
            ByteClass::Digit => is_digit(b),
            ByteClass::Space => is_space(b),
            ByteClass::Visible => !is_space(b),
            ByteClass::InLine => b != LINE_FEED,
        }
    }

    /// Whether `b` belongs to the class.
    pub fn contains(self, b: u8) -> (r: bool)
        ensures
            r == self.holds(b),
    {
        match self {
            ByteClass::Digit => DIGIT_ZERO <= b && b <= DIGIT_NINE,
            ByteClass::Space => b == SPACE || b == TAB || b == LINE_FEED || b == FORM_FEED || b
                == CARRIAGE_RETURN,
            ByteClass::Visible => !(b == SPACE || b == TAB || b == LINE_FEED || b == FORM_FEED || b
                == CARRIAGE_RETURN),
            ByteClass::InLine => b != LINE_FEED,
        }
    }
}

/// Where the run of `class` bytes that starts at `from` ends: the first
/// position at or after `from` whose byte is not in the class, or the length
/// of `s` if there is none.
pub open spec fn run_end(s: Seq<u8>, from: int, class: ByteClass) -> int
    decreases s.len() - from,
{
    if 0 <= from < s.len() && class.holds(s[from]) {
        run_end(s, from + 1, class)
    } else {
        from
    }
}

pub proof fn lemma_run_end(s: Seq<u8>, from: int, class: ByteClass)
    requires
        0 <= from <= s.len(),
    ensures
        from <= run_end(s, from, class) <= s.len(),
        run_end(s, from, class) < s.len() ==> !class.holds(s[run_end(s, from, class)]),
        forall|k: int| from <= k < run_end(s, from, class) ==> class.holds(#[trigger] s[k]),
    decreases s.len() - from,
{
    if from < s.len() && class.holds(s[from]) {
        lemma_run_end(s, from + 1, class);
    }
}

/// Scans over the run of `class` bytes that starts at `from`.
pub fn scan(s: &[u8], from: usize, class: ByteClass) -> (end: usize)
    requires
        from <= s@.len(),
    ensures
        end == run_end(s@, from as int, class),
        from <= end <= s@.len(),
{
    let mut i = from;
    while i < s.len() && class.contains(s[i])
        invariant
            from <= i <= s@.len(),
            run_end(s@, from as int, class) == run_end(s@, i as int, class),
        decreases s@.len() - i,
    {
        i += 1;
    }
    i
}

/// Where the line that starts at `from` stops: at its line feed, or at the end
/// of the data.
pub open spec fn line_end(data: Seq<u8>, from: int) -> int {
    run_end(data, from, ByteClass::InLine)
}

/// Where the line after the one at `from` starts: behind the line feed, if
/// there is one.
pub open spec fn next_line(data: Seq<u8>, from: int) -> int {
    if line_end(data, from) < data.len() {
        line_end(data, from) + 1
    } else {
        line_end(data, from)
    }
}

/// The lines of `data` from position `from` on. A line runs up to a line feed,
/// which is not part of it, or to the end of the data. Nothing follows a final
/// line feed: `"a\nb\n"` has two lines, and so has `"a\nb"`.
pub open spec fn lines_from(data: Seq<u8>, from: int) -> Seq<Seq<u8>>
    decreases data.len() - from,
    via lines_from_decreases
{
    if 0 <= from < data.len() {
        seq![data.subrange(from, line_end(data, from))] + lines_from(data, next_line(data, from))
    } else {
        Seq::empty()
    }
}

#[via_fn]
proof fn lines_from_decreases(data: Seq<u8>, from: int) {
    if 0 <= from < data.len() {
        lemma_run_end(data, from, ByteClass::InLine);
    }
}

/// All lines of `data`.
pub open spec fn lines(data: Seq<u8>) -> Seq<Seq<u8>> {
    lines_from(data, 0)
}

/// Position `pos` is where line number `k` of `data` starts, or the end of
/// the data if it has just `k` lines.
pub open spec fn at_line(data: Seq<u8>, pos: int, k: int) -> bool {
    &&& 0 <= pos <= data.len()
    &&& 0 <= k <= lines(data).len()
    &&& lines(data).skip(k) == lines_from(data, pos)
}

pub proof fn lemma_first_line(data: Seq<u8>)
    ensures
        at_line(data, 0, 0),
{
    assert(lines(data).skip(0) =~= lines(data));
}

pub proof fn lemma_line_step(data: Seq<u8>, pos: int, k: int)
    requires
        at_line(data, pos, k),
    ensures
        pos <= line_end(data, pos) <= data.len(),
        pos < data.len() ==> {
            &&& k < lines(data).len()
            &&& lines(data)[k] == data.subrange(pos, line_end(data, pos))
            &&& at_line(data, next_line(data, pos), k + 1)
        },
        pos == data.len() ==> lines(data).len() == k,
{
    lemma_run_end(data, pos, ByteClass::InLine);
    let rest = lines_from(data, pos);
    assert(rest.len() == lines(data).len() - k);
    if pos < data.len() {
        let tail = lines_from(data, next_line(data, pos));
        assert(rest == seq![data.subrange(pos, line_end(data, pos))] + tail);
        assert(lines(data)[k] == rest[0]);
        assert(lines(data).skip(k + 1) =~= rest.skip(1));
        assert(rest.skip(1) =~= tail);
    }
}

/// Where the first token at or after `from` starts: behind the whitespace.
pub open spec fn token_start(s: Seq<u8>, from: int) -> int {
    run_end(s, from, ByteClass::Space)
}

/// Where the token that starts at `start` stops: at the next whitespace.
pub open spec fn token_end(s: Seq<u8>, start: int) -> int {
    run_end(s, start, ByteClass::Visible)
}

/// The tokens of `s` from position `from` on: the maximal runs of bytes that
/// are not ASCII whitespace.
pub open spec fn tokens_from(s: Seq<u8>, from: int) -> Seq<Seq<u8>>
    decreases s.len() - from,
    via tokens_from_decreases
{
    if 0 <= from && token_start(s, from) < s.len() {
        seq![s.subrange(token_start(s, from), token_end(s, token_start(s, from)))] + tokens_from(
            s,
            token_end(s, token_start(s, from)),
        )
    } else {
        Seq::empty()
    }
}

#[via_fn]
proof fn tokens_from_decreases(s: Seq<u8>, from: int) {
    if 0 <= from && token_start(s, from) < s.len() {
        lemma_token_bounds(s, from);
    }
}

pub proof fn lemma_token_bounds(s: Seq<u8>, from: int)
    requires
        0 <= from <= s.len(),
    ensures
        from <= token_start(s, from) <= s.len(),
        token_start(s, from) < s.len() ==> token_start(s, from) < token_end(
            s,
            token_start(s, from),
        ) <= s.len(),
{
    lemma_run_end(s, from, ByteClass::Space);
    let start = token_start(s, from);
    if start < s.len() {
        lemma_run_end(s, start + 1, ByteClass::Visible);
    }
}

/// All tokens of `s`.
pub open spec fn tokens(s: Seq<u8>) -> Seq<Seq<u8>> {
    tokens_from(s, 0)
}

/// `k` tokens of `s` lie before position `pos`, and the rest from there on.
pub open spec fn at_token(s: Seq<u8>, pos: int, k: int) -> bool {
    &&& 0 <= pos <= s.len()
    &&& 0 <= k <= tokens(s).len()
    &&& tokens(s).skip(k) == tokens_from(s, pos)
}

pub proof fn lemma_first_token(s: Seq<u8>)
    ensures
        at_token(s, 0, 0),
{
    assert(tokens(s).skip(0) =~= tokens(s));
}

pub proof fn lemma_token_step(s: Seq<u8>, pos: int, k: int)
    requires
        at_token(s, pos, k),
    ensures
        pos <= token_start(s, pos) <= s.len(),
        token_start(s, pos) < s.len() ==> {
            &&& token_start(s, pos) < token_end(s, token_start(s, pos)) <= s.len()
            &&& k < tokens(s).len()
            &&& tokens(s)[k] == s.subrange(
                token_start(s, pos),
                token_end(s, token_start(s, pos)),
            )
            &&& at_token(s, token_end(s, token_start(s, pos)), k + 1)
        },
        token_start(s, pos) == s.len() ==> tokens(s).len() == k,
{
    lemma_token_bounds(s, pos);
    let rest = tokens_from(s, pos);
    assert(rest.len() == tokens(s).len() - k);
    let start = token_start(s, pos);
    if start < s.len() {
        let end = token_end(s, start);
        let tail = tokens_from(s, end);
        assert(rest == seq![s.subrange(start, end)] + tail);
        assert(tokens(s)[k] == rest[0]);
        assert(tokens(s).skip(k + 1) =~= rest.skip(1));
        assert(rest.skip(1) =~= tail);
    }
}

/// Finds the token at or after `pos`: where it starts and where it stops.
pub fn next_token(s: &[u8], pos: usize) -> (r: Option<(usize, usize)>)
    requires
        pos <= s@.len(),
    ensures
        match r {
            Some((start, end)) => {
                &&& start == token_start(s@, pos as int)
                &&& end == token_end(s@, start as int)
                &&& pos <= start < end <= s@.len()
            },
            None => token_start(s@, pos as int) == s@.len(),
        },
{
    let start = scan(s, pos, ByteClass::Space);
    if start < s.len() {
        proof {
            lemma_token_bounds(s@, pos as int);
        }
        Some((start, scan(s, start, ByteClass::Visible)))
    } else {
        None
    }
}

} // verus!
