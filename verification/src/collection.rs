//! The equivalence-class file: what its text means, and the loader that turns
//! it into a collection.
//!
//! The format is line oriented. Two lines give the number of targets and the
//! number of records, then come the target names, one to a line, then the
//! records, one to a line. A record is a row of whitespace-separated tokens:
//! the number `n` of its transcripts, `n` labels, `n` weights, one count.
//! Nothing but position tells labels from weights: a record whose `n` is wrong
//! is read with its fields shifted, and is rejected only where a field is then
//! missing or not a number.

use crate::codec::{gunzip, gzip_inflated, lossy_string, lossy_text};
use crate::eq_class::{EqClass, EqClassList, EqClassRecord, EqClassView};
use crate::failure::ParseFailure;
use crate::number::{is_float_literal, is_float_token, parse_u32, parse_usize, u32_value, usize_value};
use crate::text::{
    at_line, at_token, lemma_first_line, lemma_first_token, lemma_line_step, lemma_token_step,
    lines, next_token, scan, tokens, ByteClass,
};
use vstd::prelude::*;
use vstd::slice::slice_subrange;
use vstd::string::StringSliceAdditionalSpecFns;

verus! {

/// One record as the text gives it: the labels as numbers, the weights still
/// as their tokens.
pub ghost struct RecordText {
    pub labels: Seq<usize>,
    pub weights: Seq<Seq<u8>>,
    pub count: u32,
}

/// A whole file as the text gives it.
pub ghost struct EqClassText {
    pub ntarget: usize,
    pub neq: usize,
    pub targets: Seq<Seq<u8>>,
    pub records: Seq<RecordText>,
}

/// Every token is an unsigned integer that fits a `usize`.
pub open spec fn all_integers(tokens: Seq<Seq<u8>>) -> bool {
    forall|j: int| 0 <= j < tokens.len() ==> usize_value(#[trigger] tokens[j]) is Some
}

/// Every token is a floating-point literal.
pub open spec fn all_floats(tokens: Seq<Seq<u8>>) -> bool {
    forall|j: int| 0 <= j < tokens.len() ==> is_float_literal(#[trigger] tokens[j])
}

/// The numbers that integer tokens denote.
pub open spec fn integers(tokens: Seq<Seq<u8>>) -> Seq<usize> {
    tokens.map_values(|t: Seq<u8>| usize_value(t).unwrap())
}

/// What a record line says, or nothing where it is malformed: where it has
/// fewer than `2 n + 2` tokens, `n` being its first, or where one of those
/// tokens is not a number of its kind. Tokens beyond them are ignored.
pub open spec fn record_of(line: Seq<u8>) -> Option<RecordText> {
    let toks = tokens(line);
    if toks.len() == 0 {
        None
    } else {
        match usize_value(toks[0]) {
            None => None,
            Some(n) => {
                if toks.len() < 2 * n + 2 {
                    None
                } else if all_integers(toks.subrange(1, 1 + n)) && all_floats(
                    toks.subrange(1 + n, 1 + 2 * n),
                ) && u32_value(toks[1 + 2 * n]) is Some {
                    Some(
                        RecordText {
                            labels: integers(toks.subrange(1, 1 + n)),
                            weights: toks.subrange(1 + n, 1 + 2 * n),
                            count: u32_value(toks[1 + 2 * n]).unwrap(),
                        },
                    )
                } else {
                    None
                }
            },
        }
    }
}

/// The lines among `record_lines` that a load looks at: the declared number
/// of them, or all there are if that is fewer.
pub open spec fn lines_read(record_lines: Seq<Seq<u8>>, neq: usize) -> Seq<Seq<u8>> {
    if record_lines.len() < neq {
        record_lines
    } else {
        record_lines.take(neq as int)
    }
}

/// What the text of a file says, or why it says nothing.
///
/// The first failure in reading order decides: a count line that is not a
/// number, then too few name lines, then the first record line that is
/// malformed or missing.
pub open spec fn parse_text(data: Seq<u8>) -> Result<EqClassText, ParseFailure> {
    let ls = lines(data);
    if ls.len() < 2 || usize_value(ls[0]) is None || usize_value(ls[1]) is None {
        Err(ParseFailure::MalformedHeader)
    } else {
        let ntarget = usize_value(ls[0]).unwrap();
        let neq = usize_value(ls[1]).unwrap();
        if ls.len() < 2 + ntarget {
            Err(ParseFailure::TruncatedInput)
        } else {
            let read = lines_read(ls.skip(2 + ntarget), neq);
            if exists|i: int| 0 <= i < read.len() && record_of(#[trigger] read[i]) is None {
                Err(ParseFailure::MalformedRecord)
            } else if read.len() < neq {
                Err(ParseFailure::TruncatedInput)
            } else {
                Ok(
                    EqClassText {
                        ntarget,
                        neq,
                        targets: ls.subrange(2, 2 + ntarget),
                        records: read.map_values(|l: Seq<u8>| record_of(l).unwrap()),
                    },
                )
            }
        }
    }
}

/// `w` is a value that `decode` may return for a token with the bytes
/// `token`.
pub open spec fn decodes<W, F: Fn(&[u8]) -> W>(decode: F, token: Seq<u8>, w: W) -> bool {
    exists|t: &[u8]| t@ == token && #[trigger] call_ensures(decode, (t,), w)
}

/// `decode` may be called on every floating-point literal.
pub open spec fn decodes_floats<W, F: Fn(&[u8]) -> W>(decode: F) -> bool {
    forall|t: &[u8]| is_float_literal(t@) ==> #[trigger] call_requires(decode, (t,))
}

/// `record` holds what `text` says, each weight as `decode` turned its token.
pub open spec fn record_renders<W, F: Fn(&[u8]) -> W>(
    record: EqClassRecord<W>,
    text: RecordText,
    decode: F,
) -> bool {
    &&& record.labels == text.labels
    &&& record.count == text.count
    &&& record.weights.len() == text.weights.len()
    &&& forall|j: int|
        0 <= j < text.weights.len() ==> decodes(decode, text.weights[j], #[trigger] record.weights[j])
}

/// The line of `data` that starts at `pos`, and where the next one starts.
fn take_line<'a>(data: &'a [u8], pos: usize, Ghost(k): Ghost<int>) -> (r: Option<(&'a [u8], usize)>)
    requires
        at_line(data@, pos as int, k),
    ensures
        match r {
            Some((line, next)) => {
                &&& k < lines(data@).len()
                &&& line@ == lines(data@)[k]
                &&& at_line(data@, next as int, k + 1)
            },
            None => lines(data@).len() == k,
        },
{
    proof {
        lemma_line_step(data@, pos as int, k);
    }
    if pos >= data.len() {
        None
    } else {
        let end = scan(data, pos, ByteClass::InLine);
        let next = if end < data.len() {
            end + 1
        } else {
            end
        };
        Some((slice_subrange(data, pos, end), next))
    }
}

/// The token of `line` at or after `pos`, and where it stops.
fn take_token<'a>(line: &'a [u8], pos: usize, Ghost(k): Ghost<int>) -> (r: Option<
    (&'a [u8], usize),
>)
    requires
        at_token(line@, pos as int, k),
    ensures
        match r {
            Some((token, next)) => {
                &&& k < tokens(line@).len()
                &&& token@ == tokens(line@)[k]
                &&& at_token(line@, next as int, k + 1)
            },
            None => tokens(line@).len() == k,
        },
{
    proof {
        lemma_token_step(line@, pos as int, k);
    }
    match next_token(line, pos) {
        Some((start, end)) => Some((slice_subrange(line, start, end), end)),
        None => None,
    }
}

/// Reads `count` labels from `line`, starting with its token number `k`.
fn take_labels(line: &[u8], pos: usize, count: usize, Ghost(k): Ghost<int>) -> (r: Option<
    (Vec<usize>, usize),
>)
    requires
        at_token(line@, pos as int, k),
    ensures
        match r {
            Some((labels, next)) => {
                &&& k + count <= tokens(line@).len()
                &&& all_integers(tokens(line@).subrange(k, k + count))
                &&& labels@ == integers(tokens(line@).subrange(k, k + count))
                &&& at_token(line@, next as int, k + count)
            },
            None => tokens(line@).len() < k + count || !all_integers(
                tokens(line@).subrange(k, k + count),
            ),
        },
{
    let ghost rest = tokens(line@).skip(k);
    let mut labels: Vec<usize> = Vec::new();
    let mut pos = pos;
    let mut j: usize = 0;
    while j < count
        invariant
            j <= count,
            0 <= k,
            at_token(line@, pos as int, k + j),
            rest == tokens(line@).skip(k),
            labels@.len() == j,
            forall|i: int| 0 <= i < j ==> usize_value(#[trigger] rest[i]) == Some(labels@[i]),
        decreases count - j,
    {
        match take_token(line, pos, Ghost(k + j)) {
            None => {
                return None;
            },
            Some((token, next)) => {
                match parse_usize(token) {
                    None => {
                        proof {
                            let wanted = tokens(line@).subrange(k, k + count);
                            if tokens(line@).len() >= k + count {
                                assert(wanted[j as int] == token@);
                            }
                        }
                        return None;
                    },
                    Some(label) => {
                        assert(rest[j as int] == token@);
                        labels.push(label);
                        pos = next;
                    },
                }
            },
        }
        j += 1;
    }
    proof {
        let wanted = tokens(line@).subrange(k, k + count);
        assert forall|i: int| 0 <= i < wanted.len() implies usize_value(#[trigger] wanted[i])
            == Some(labels@[i]) by {
            assert(wanted[i] == rest[i]);
        }
        assert(labels@ =~= integers(wanted));
    }
    Some((labels, pos))
}

/// Reads `count` weights from `line`, starting with its token number `k`.
fn take_weights<W, F: Fn(&[u8]) -> W>(
    line: &[u8],
    pos: usize,
    count: usize,
    decode: &F,
    Ghost(k): Ghost<int>,
) -> (r: Option<(Vec<W>, usize)>)
    requires
        at_token(line@, pos as int, k),
        decodes_floats(*decode),
    ensures
        match r {
            Some((weights, next)) => {
                &&& k + count <= tokens(line@).len()
                &&& all_floats(tokens(line@).subrange(k, k + count))
                &&& weights@.len() == count
                &&& forall|j: int|
                    0 <= j < count ==> decodes(
                        *decode,
                        tokens(line@).subrange(k, k + count)[j],
                        #[trigger] weights@[j],
                    )
                &&& at_token(line@, next as int, k + count)
            },
            None => tokens(line@).len() < k + count || !all_floats(
                tokens(line@).subrange(k, k + count),
            ),
        },
{
    let ghost rest = tokens(line@).skip(k);
    let mut weights: Vec<W> = Vec::new();
    let mut pos = pos;
    let mut j: usize = 0;
    while j < count
        invariant
            j <= count,
            0 <= k,
            at_token(line@, pos as int, k + j),
            decodes_floats(*decode),
            rest == tokens(line@).skip(k),
            weights@.len() == j,
            forall|i: int| 0 <= i < j ==> is_float_literal(#[trigger] rest[i]),
            forall|i: int| 0 <= i < j ==> decodes(*decode, rest[i], #[trigger] weights@[i]),
        decreases count - j,
    {
        match take_token(line, pos, Ghost(k + j)) {
            None => {
                return None;
            },
            Some((token, next)) => {
                if !is_float_token(token) {
                    proof {
                        let wanted = tokens(line@).subrange(k, k + count);
                        if tokens(line@).len() >= k + count {
                            assert(wanted[j as int] == token@);
                        }
                    }
                    return None;
                }
                assert(rest[j as int] == token@);
                let w = decode(token);
                assert(call_ensures(*decode, (token,), w));
                weights.push(w);
                pos = next;
            },
        }
        j += 1;
    }
    proof {
        let wanted = tokens(line@).subrange(k, k + count);
        assert forall|i: int| 0 <= i < wanted.len() implies is_float_literal(
            #[trigger] wanted[i],
        ) by {
            assert(wanted[i] == rest[i]);
        }
        assert forall|i: int| 0 <= i < count implies decodes(
            *decode,
            wanted[i],
            #[trigger] weights@[i],
        ) by {
            assert(wanted[i] == rest[i]);
        }
    }
    Some((weights, pos))
}

/// Reads one record line.
pub fn parse_record<W, F: Fn(&[u8]) -> W>(line: &[u8], decode: &F) -> (r: Option<EqClass<W>>)
    requires
        decodes_floats(*decode),
    ensures
        match r {
            Some(ec) => {
                &&& ec.wf()
                &&& record_of(line@) matches Some(text)
                &&& record_renders(ec@, text, *decode)
            },
            None => record_of(line@) is None,
        },
{
    proof {
        lemma_first_token(line@);
    }
    let (n, pos) = match take_token(line, 0, Ghost(0)) {
        None => {
            return None;
        },
        Some((token, next)) => match parse_usize(token) {
            None => {
                return None;
            },
            Some(n) => (n, next),
        },
    };
    let (labels, pos) = match take_labels(line, pos, n, Ghost(1)) {
        None => {
            return None;
        },
        Some(found) => found,
    };
    let (weights, pos) = match take_weights(line, pos, n, decode, Ghost(1 + n)) {
        None => {
            return None;
        },
        Some(found) => found,
    };
    let count = match take_token(line, pos, Ghost(1 + 2 * n)) {
        None => {
            return None;
        },
        Some((token, _)) => match parse_u32(token) {
            None => {
                return None;
            },
            Some(count) => count,
        },
    };
    Some(EqClass { labels, weights, count })
}

/// The equivalence classes of one quantification run, with the names of the
/// targets that their labels index.
#[derive(Debug)]
pub struct EqClassCollection<W> {
    pub targets: Vec<String>,
    /// The number of targets that the file declares.
    pub ntarget: usize,
    /// The number of records that the file declares.
    pub neq: usize,
    pub classes: EqClassList<W>,
}

/// The name of the gzip-compressed equivalence-class file.
pub const GZIP_FILE_NAME: &'static str = "eq_classes.txt.gz";

pub const SLASH: u8 = 47;

/// The last component of `path` is `name`: the path is the name, or ends in a
/// slash and the name.
pub open spec fn names_file(path: Seq<u8>, name: Seq<u8>) -> bool {
    &&& name.len() <= path.len()
    &&& path.skip(path.len() - name.len()) == name
    &&& (path.len() == name.len() || path[path.len() - name.len() - 1] == SLASH)
}

/// Whether a path names the gzip-compressed file, going by its UTF-8 bytes.
pub open spec fn is_gzip_path(path: &str) -> bool {
    names_file(path.spec_bytes(), GZIP_FILE_NAME.spec_bytes())
}

/// What the file at `path` with the bytes `contents` says: its text if the
/// path names the plain file, the text of what it decompresses to if the path
/// names the gzip file.
pub open spec fn file_text(path: &str, contents: Seq<u8>) -> Result<EqClassText, ParseFailure> {
    if is_gzip_path(path) {
        match gzip_inflated(contents) {
            Some(plain) => parse_text(plain),
            None => Err(ParseFailure::IoFailure),
        }
    } else {
        parse_text(contents)
    }
}

/// Whether the last component of `path` is `name`.
pub fn path_names_file(path: &[u8], name: &[u8]) -> (r: bool)
    ensures
        r == names_file(path@, name@),
{
    let n = path.len();
    let m = name.len();
    if m > n {
        return false;
    }
    let start = n - m;
    if start > 0 && path[start - 1] != SLASH {
        return false;
    }
    let mut i: usize = 0;
    while i < m
        invariant
            i <= m,
            m == name@.len(),
            n == path@.len(),
            start == n - m,
            forall|j: int| 0 <= j < i ==> path@[start + j] == name@[j],
        decreases m - i,
    {
        if path[start + i] != name[i] {
            assert(path@.skip(n - m)[i as int] != name@[i as int]);
            return false;
        }
        i += 1;
    }
    assert(path@.skip(n - m) =~= name@);
    true
}

impl<W> EqClassCollection<W> {
    /// The record store is well formed.
    pub open spec fn wf(&self) -> bool {
        self.classes.wf()
    }

    /// The collection holds what `text` says: the declared counts, the names
    /// in their order, decoded leniently, and the records in their order,
    /// each weight as `decode` turned its token.
    pub open spec fn renders<F: Fn(&[u8]) -> W>(&self, text: EqClassText, decode: F) -> bool {
        &&& self.ntarget == text.ntarget
        &&& self.neq == text.neq
        &&& self.targets@.len() == text.targets.len()
        &&& forall|i: int|
            0 <= i < text.targets.len() ==> (#[trigger] self.targets@[i])@ == lossy_text(
                text.targets[i],
            )
        &&& self.classes@.len() == text.records.len()
        &&& forall|i: int|
            0 <= i < text.records.len() ==> record_renders(
                #[trigger] self.classes@[i],
                text.records[i],
                decode,
            )
    }

    /// A collection without targets and without records.
    pub fn new() -> (c: Self)
        ensures
            c.wf(),
            c.targets@.len() == 0,
            c.ntarget == 0,
            c.neq == 0,
            c.classes@.len() == 0,
    {
        EqClassCollection { targets: Vec::new(), ntarget: 0, neq: 0, classes: EqClassList::new() }
    }

    /// The record at position `i`, or nothing where there is no such record.
    pub fn get(&self, i: usize) -> (r: Option<EqClassView<'_, W>>)
        requires
            self.wf(),
        ensures
            match r {
                Some(v) => i < self.classes@.len() && v@ == self.classes@[i as int],
                None => i >= self.classes@.len(),
            },
    {
        self.classes.get(i)
    }

    /// Reads `ntarget` names, one from each line, starting with line 2.
    fn read_targets(data: &[u8], pos: usize, ntarget: usize) -> (r: Option<(Vec<String>, usize)>)
        requires
            at_line(data@, pos as int, 2),
        ensures
            match r {
                Some((targets, next)) => {
                    &&& 2 + ntarget <= lines(data@).len()
                    &&& targets@.len() == ntarget
                    &&& forall|i: int|
                        0 <= i < ntarget ==> (#[trigger] targets@[i])@ == lossy_text(
                            lines(data@).subrange(2, 2 + ntarget)[i],
                        )
                    &&& at_line(data@, next as int, 2 + ntarget)
                },
                None => lines(data@).len() < 2 + ntarget,
            },
    {
        let ghost rest = lines(data@).skip(2);
        let mut targets: Vec<String> = Vec::new();
        let mut pos = pos;
        let mut i: usize = 0;
        while i < ntarget
            invariant
                i <= ntarget,
                at_line(data@, pos as int, 2 + i),
                rest == lines(data@).skip(2),
                targets@.len() == i,
                forall|j: int| 0 <= j < i ==> (#[trigger] targets@[j])@ == lossy_text(rest[j]),
            decreases ntarget - i,
        {
            match take_line(data, pos, Ghost(2 + i)) {
                None => {
                    return None;
                },
                Some((line, next)) => {
                    assert(rest[i as int] == line@);
                    targets.push(lossy_string(line));
                    pos = next;
                },
            }
            i += 1;
        }
        proof {
            let names = lines(data@).subrange(2, 2 + ntarget);
            assert forall|j: int| 0 <= j < ntarget implies (#[trigger] targets@[j])@ == lossy_text(
                names[j],
            ) by {
                assert(names[j] == rest[j]);
            }
        }
        Some((targets, pos))
    }

    /// Reads `neq` records, one from each line, starting with line `first`.
    fn read_records<F: Fn(&[u8]) -> W>(
        data: &[u8],
        pos: usize,
        neq: usize,
        decode: &F,
        Ghost(first): Ghost<int>,
    ) -> (r: Result<EqClassList<W>, ParseFailure>)
        requires
            at_line(data@, pos as int, first),
            decodes_floats(*decode),
        ensures
            ({
                let read = lines_read(lines(data@).skip(first), neq);
                let malformed = exists|i: int|
                    0 <= i < read.len() && record_of(#[trigger] read[i]) is None;
                match r {
                    Ok(classes) => {
                        &&& !malformed
                        &&& read.len() == neq
                        &&& classes.wf()
                        &&& classes@.len() == neq
                        &&& forall|i: int|
                            0 <= i < neq ==> record_renders(
                                #[trigger] classes@[i],
                                record_of(read[i]).unwrap(),
                                *decode,
                            )
                    },
                    Err(e) => if malformed {
                        e == ParseFailure::MalformedRecord
                    } else {
                        e == ParseFailure::TruncatedInput && read.len() < neq
                    },
                }
            }),
    {
        let ghost rest = lines(data@).skip(first);
        let ghost read = lines_read(rest, neq);
        let mut classes: EqClassList<W> = EqClassList::new();
        let mut pos = pos;
        let mut i: usize = 0;
        while i < neq
            invariant
                i <= neq,
                0 <= first,
                at_line(data@, pos as int, first + i),
                decodes_floats(*decode),
                rest == lines(data@).skip(first),
                read == lines_read(rest, neq),
                classes.wf(),
                classes@.len() == i,
                forall|j: int| 0 <= j < i ==> record_of(#[trigger] read[j]) is Some,
                forall|j: int|
                    0 <= j < i ==> record_renders(
                        #[trigger] classes@[j],
                        record_of(read[j]).unwrap(),
                        *decode,
                    ),
            decreases neq - i,
        {
            match take_line(data, pos, Ghost(first + i)) {
                None => {
                    assert(read.len() == i);
                    return Err(ParseFailure::TruncatedInput);
                },
                Some((line, next)) => {
                    assert(read[i as int] == line@);
                    match parse_record(line, decode) {
                        None => {
                            return Err(ParseFailure::MalformedRecord);
                        },
                        Some(ec) => {
                            classes.push(ec);
                            pos = next;
                        },
                    }
                },
            }
            i += 1;
        }
        assert(read.len() == neq);
        Ok(classes)
    }

    /// Loads a collection from the text of an equivalence-class file.
    ///
    /// `decode_weight` turns the token of a weight into its value. It is
    /// called on floating-point literals only, once for each weight, in the
    /// order of the file.
    pub fn from_bytes<F: Fn(&[u8]) -> W>(data: &[u8], decode_weight: F) -> (r: Result<
        Self,
        ParseFailure,
    >)
        requires
            decodes_floats(decode_weight),
        ensures
            match r {
                Ok(c) => {
                    &&& c.wf()
                    &&& parse_text(data@) matches Ok(text)
                    &&& c.renders(text, decode_weight)
                    &&& c.targets@.len() == c.ntarget
                    &&& c.classes@.len() == c.neq
                },
                Err(e) => parse_text(data@) == Err::<EqClassText, ParseFailure>(e),
            },
    {
        proof {
            lemma_first_line(data@);
        }
        let (ntarget, pos) = match take_line(data, 0, Ghost(0)) {
            None => {
                return Err(ParseFailure::MalformedHeader);
            },
            Some((line, next)) => match parse_usize(line) {
                None => {
                    return Err(ParseFailure::MalformedHeader);
                },
                Some(n) => (n, next),
            },
        };
        let (neq, pos) = match take_line(data, pos, Ghost(1)) {
            None => {
                return Err(ParseFailure::MalformedHeader);
            },
            Some((line, next)) => match parse_usize(line) {
                None => {
                    return Err(ParseFailure::MalformedHeader);
                },
                Some(n) => (n, next),
            },
        };
        let (targets, pos) = match Self::read_targets(data, pos, ntarget) {
            None => {
                return Err(ParseFailure::TruncatedInput);
            },
            Some(found) => found,
        };
        let classes = match Self::read_records(data, pos, neq, &decode_weight, Ghost(2 + ntarget)) {
            Err(e) => {
                return Err(e);
            },
            Ok(classes) => classes,
        };
        Ok(EqClassCollection { targets, ntarget, neq, classes })
    }

    /// Loads a collection from the bytes of the file at `filename`, which are
    /// decompressed first where the name is that of the gzip file.
    pub fn from_path<F: Fn(&[u8]) -> W>(filename: &str, contents: &[u8], decode_weight: F) -> (r:
        Result<Self, ParseFailure>)
        requires
            decodes_floats(decode_weight),
        ensures
            match r {
                Ok(c) => {
                    &&& c.wf()
                    &&& file_text(filename, contents@) matches Ok(text)
                    &&& c.renders(text, decode_weight)
                    &&& c.targets@.len() == c.ntarget
                    &&& c.classes@.len() == c.neq
                },
                Err(e) => file_text(filename, contents@) == Err::<EqClassText, ParseFailure>(e),
            },
    {
        if path_names_file(filename.as_bytes(), GZIP_FILE_NAME.as_bytes()) {
            match gunzip(contents) {
                Some(plain) => Self::from_bytes(plain.as_slice(), decode_weight),
                None => Err(ParseFailure::IoFailure),
            }
        } else {
            Self::from_bytes(contents, decode_weight)
        }
    }
}

impl<W> Default for EqClassCollection<W> {
    fn default() -> (c: Self)
        ensures
            c.wf(),
            c.targets@.len() == 0,
            c.ntarget == 0,
            c.neq == 0,
            c.classes@.len() == 0,
    {
        Self::new()
    }
}

/// A text that parses has as many target names as it declares, and as many
/// records.
pub proof fn lemma_parsed_counts(data: Seq<u8>)
    requires
        parse_text(data) is Ok,
    ensures
        parse_text(data).unwrap().targets.len() == parse_text(data).unwrap().ntarget,
        parse_text(data).unwrap().records.len() == parse_text(data).unwrap().neq,
{
}

/// A text with sound count lines and fewer name lines than it declares does
/// not parse: it is truncated.
pub proof fn lemma_missing_names_truncate(data: Seq<u8>)
    requires
        lines(data).len() >= 2,
        usize_value(lines(data)[0]) is Some,
        usize_value(lines(data)[1]) is Some,
        lines(data).len() < 2 + usize_value(lines(data)[0]).unwrap(),
    ensures
        parse_text(data) == Err::<EqClassText, ParseFailure>(ParseFailure::TruncatedInput),
{
}

/// A record line with fewer tokens than its leading count calls for is
/// malformed.
pub proof fn lemma_short_record_is_malformed(line: Seq<u8>, n: usize)
    requires
        tokens(line).len() > 0,
        usize_value(tokens(line)[0]) == Some(n),
        tokens(line).len() < 2 * n + 2,
    ensures
        record_of(line) is None,
{
}

/// A text with sound count lines and all its name lines does not parse if
/// one of the record lines that a load reads is malformed.
pub proof fn lemma_malformed_record_fails(data: Seq<u8>, i: int)
    requires
        lines(data).len() >= 2,
        usize_value(lines(data)[0]) is Some,
        usize_value(lines(data)[1]) is Some,
        lines(data).len() >= 2 + usize_value(lines(data)[0]).unwrap(),
        0 <= i < usize_value(lines(data)[1]).unwrap(),
        2 + usize_value(lines(data)[0]).unwrap() + i < lines(data).len(),
        record_of(lines(data)[2 + usize_value(lines(data)[0]).unwrap() + i]) is None,
    ensures
        parse_text(data) == Err::<EqClassText, ParseFailure>(ParseFailure::MalformedRecord),
{
    let ls = lines(data);
    let ntarget = usize_value(ls[0]).unwrap();
    let neq = usize_value(ls[1]).unwrap();
    let read = lines_read(ls.skip(2 + ntarget), neq);
    assert(read[i] == ls[2 + ntarget + i]);
}

/// A gzip file says what the plain file says that holds its decompressed
/// bytes.
pub proof fn lemma_gzip_says_what_plain_says(
    gzip_path: &str,
    plain_path: &str,
    compressed: Seq<u8>,
    plain: Seq<u8>,
)
    requires
        is_gzip_path(gzip_path),
        !is_gzip_path(plain_path),
        gzip_inflated(compressed) == Some(plain),
    ensures
        file_text(gzip_path, compressed) == file_text(plain_path, plain),
{
}

/// `decode` gives one value for tokens with the same bytes.
pub open spec fn decodes_uniquely<W, F: Fn(&[u8]) -> W>(decode: F) -> bool {
    forall|t1: &[u8], t2: &[u8], w1: W, w2: W|
        t1@ == t2@ && #[trigger] call_ensures(decode, (t1,), w1) && #[trigger] call_ensures(
            decode,
            (t2,),
            w2,
        ) ==> w1 == w2
}

/// Two collections that hold what one text says, through one decoder that
/// gives one value for one token, hold the same: counts, names and records.
pub proof fn lemma_same_text_same_collection<W, F: Fn(&[u8]) -> W>(
    a: EqClassCollection<W>,
    b: EqClassCollection<W>,
    text: EqClassText,
    decode: F,
)
    requires
        a.renders(text, decode),
        b.renders(text, decode),
        decodes_uniquely(decode),
    ensures
        a.ntarget == b.ntarget,
        a.neq == b.neq,
        a.targets@.len() == b.targets@.len(),
        forall|i: int| 0 <= i < a.targets@.len() ==> a.targets@[i]@ == b.targets@[i]@,
        a.classes@ == b.classes@,
{
    assert forall|i: int| 0 <= i < a.classes@.len() implies a.classes@[i] == b.classes@[i] by {
        let ra = a.classes@[i];
        let rb = b.classes@[i];
        assert(record_renders(ra, text.records[i], decode));
        assert(record_renders(rb, text.records[i], decode));
        assert forall|j: int| 0 <= j < ra.weights.len() implies ra.weights[j] == rb.weights[j] by {
            assert(decodes(decode, text.records[i].weights[j], ra.weights[j]));
            assert(decodes(decode, text.records[i].weights[j], rb.weights[j]));
        }
        assert(ra.weights =~= rb.weights);
    }
    assert(a.classes@ =~= b.classes@);
}

} // verus!
