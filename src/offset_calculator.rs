//! Per-line indentation offsets of a file's text.
use vstd::prelude::*;
use vstd::std_specs::iter::IteratorSpec;

verus! {

/// The offsets of one file, one per line, index = line number.
pub type LineOffsets = Vec<u16>;

/// The largest offset that a `LineOffsets` can hold.
pub const MAX_OFFSET: u16 = 65535;

/// Number of ASCII spaces at the start of `line`.
pub open spec fn leading_spaces(line: Seq<char>) -> nat
    decreases line.len(),
{
    if line.len() > 0 && line[0] == ' ' {
        1 + leading_spaces(line.drop_first())
    } else {
        0
    }
}

/// A line that is empty or holds only spaces.
pub open spec fn is_blank(line: Seq<char>) -> bool {
    forall|i: int| 0 <= i < line.len() ==> line[i] == ' '
}

/// The offset of one line (without its terminator): the column of its first
/// character that is not an ASCII space; a blank line has offset 0.
pub open spec fn line_offset(line: Seq<char>) -> nat {
    if is_blank(line) {
        0
    } else {
        leading_spaces(line)
    }
}

/// Number of characters before the first line feed (all of them if none).
pub open spec fn line_length(text: Seq<char>) -> nat
    decreases text.len(),
{
    if text.len() > 0 && text[0] != '\n' {
        1 + line_length(text.drop_first())
    } else {
        0
    }
}

/// The lines of a text, split at each line feed, terminators removed. A last
/// line without a terminator counts; the empty text has no lines.
pub open spec fn lines(text: Seq<char>) -> Seq<Seq<char>>
    decreases text.len(),
{
    if text.len() == 0 {
        seq![]
    } else if line_length(text) < text.len() {
        seq![text.take(line_length(text) as int)] + lines(text.skip(line_length(text) + 1 as int))
    } else {
        seq![text]
    }
}

/// The offset of each line of a text.
pub open spec fn line_offsets(text: Seq<char>) -> Seq<nat> {
    lines(text).map_values(|l: Seq<char>| line_offset(l))
}

/// Every line of the text has an offset that a `u16` holds.
pub open spec fn offsets_fit(text: Seq<char>) -> bool {
    forall|i: int| 0 <= i < line_offsets(text).len() ==> line_offsets(text)[i] <= MAX_OFFSET
}

/// The offsets as plain numbers.
pub open spec fn offsets_view(v: Seq<u16>) -> Seq<nat> {
    v.map_values(|o: u16| o as nat)
}

proof fn lemma_leading_spaces_prefix(line: Seq<char>, j: int)
    requires
        0 <= j <= line.len(),
        forall|i: int| 0 <= i < j ==> line[i] == ' ',
    ensures
        leading_spaces(line) == j + leading_spaces(line.skip(j)),
    decreases j,
{
    if j == 0 {
        assert(line.skip(0) =~= line);
    } else {
        lemma_leading_spaces_prefix(line.drop_first(), j - 1);
        assert(line.drop_first().skip(j - 1) =~= line.skip(j));
    }
}

proof fn lemma_line_length_prefix(text: Seq<char>, j: int)
    requires
        0 <= j <= text.len(),
        forall|i: int| 0 <= i < j ==> text[i] != '\n',
    ensures
        line_length(text) == j + line_length(text.skip(j)),
    decreases j,
{
    if j == 0 {
        assert(text.skip(0) =~= text);
    } else {
        lemma_line_length_prefix(text.drop_first(), j - 1);
        assert(text.drop_first().skip(j - 1) =~= text.skip(j));
    }
}

/// The offset of each line of `text`, in order. Fails with the index of the
/// first line whose offset exceeds `MAX_OFFSET`; no offset is ever wrapped.
pub fn get_offset(text: &str) -> (r: Result<LineOffsets, usize>)
    ensures
        r is Ok <==> offsets_fit(text@),
        r matches Ok(v) ==> offsets_view(v@) == line_offsets(text@),
        r matches Err(i) ==> i < line_offsets(text@).len() && line_offsets(text@)[i as int]
            > MAX_OFFSET && forall|j: int| 0 <= j < i ==> line_offsets(text@)[j] <= MAX_OFFSET,
{
    let chars = chars_of(text);
    let n = chars.len();
    let ghost all = chars@;
    let mut out: LineOffsets = Vec::new();
    let mut pos: usize = 0;
    proof {
        assert(all.skip(0) =~= all);
        assert(offsets_view(out@) + line_offsets(all) =~= line_offsets(all));
    }
    while pos < n
        invariant
            n == all.len(),
            chars@ == all,
            all == text@,
            pos <= n,
            line_offsets(all) == offsets_view(out@) + line_offsets(all.skip(pos as int)),
            forall|j: int| 0 <= j < out@.len() ==> line_offsets(all)[j] <= MAX_OFFSET,
        decreases n - pos,
    {
        let ghost t = all.skip(pos as int);
        let mut j: usize = pos;
        while j < n && chars[j] == ' '
            invariant
                pos <= j <= n,
                n == all.len(),
                chars@ == all,
                forall|i: int| pos <= i < j ==> all[i] == ' ',
            decreases n - j,
        {
            j = j + 1;
        }
        let mut k: usize = j;
        while k < n && chars[k] != '\n'
            invariant
                j <= k <= n,
                n == all.len(),
                chars@ == all,
                forall|i: int| j <= i < k ==> all[i] != '\n',
            decreases n - k,
        {
            k = k + 1;
        }
        let ghost len = (k - pos) as int;
        let ghost line = t.take(len);
        proof {
            lemma_line_length_prefix(t, len);
            if k < n {
                assert(t.skip(len)[0] == '\n');
            }
            assert(line_length(t) == len);
            lemma_leading_spaces_prefix(line, (j - pos) as int);
            if j < k {
                assert(line.skip((j - pos) as int)[0] == all[j as int]);
                assert(!is_blank(line) ==> line_offset(line) == leading_spaces(line));
                assert(line[(j - pos) as int] != ' ');
            } else {
                assert(is_blank(line));
            }
        }
        let offset: usize = if j < k {
            j - pos
        } else {
            0
        };
        proof {
            assert(offset == line_offset(line));
            let rest = if k < n {
                all.skip(k + 1)
            } else {
                seq![]
            };
            if k < n {
                assert(t.skip(len + 1) =~= all.skip(k + 1));
            } else {
                assert(line =~= t);
            }
            assert(lines(t) == seq![line] + lines(rest));
            assert(line_offsets(t) =~= seq![line_offset(line)] + line_offsets(rest));
        }
        if offset > MAX_OFFSET as usize {
            proof {
                assert(line_offsets(all)[out@.len() as int] == offset);
            }
            return Err(out.len());
        }
        let ghost before = out@;
        out.push(offset as u16);
        proof {
            assert(offsets_view(out@) =~= offsets_view(before) + seq![offset as nat]);
        }
        if k < n {
            pos = k + 1;
        } else {
            pos = n;
            assert(all.skip(n as int) =~= Seq::<char>::empty());
        }
    }
    proof {
        assert(all.skip(pos as int) =~= Seq::<char>::empty());
        assert(offsets_view(out@) + line_offsets(all.skip(pos as int)) =~= offsets_view(out@));
    }
    Ok(out)
}

/// Why drawing an offset collection failed.
#[derive(Debug, PartialEq, Eq)]
pub enum RenderError {
    /// The image could not be written to its path.
    WriteFailed(String),
    /// The rendering engine failed to produce the image.
    Engine(String),
}

/// Draws a collection of offset sequences as one image. An empty collection
/// is drawn as a blank image, not refused.
pub trait OffsetPlotter {
    fn plot_offsets(&self, offsets: Vec<LineOffsets>) -> Result<(), RenderError>;
}

/// Extraction failure: the offset of a line does not fit a `LineOffsets`.
#[derive(Clone, Copy, Debug, PartialEq, Eq)]
pub enum ExtractionError {
    /// Line `line` (0-based) of file `file` (0-based) is indented beyond `MAX_OFFSET`.
    OffsetOverflow { file: usize, line: usize },
}

/// The offsets of each file's text, in the order of the files. The first file
/// with a line indented beyond `MAX_OFFSET` fails the whole collection.
pub fn get_code_offsets(files: &Vec<String>) -> (r: Result<Vec<LineOffsets>, ExtractionError>)
    ensures
        r is Ok <==> forall|f: int| 0 <= f < files@.len() ==> offsets_fit(#[trigger] files@[f]@),
        r matches Ok(v) ==> v@.len() == files@.len() && forall|f: int|
            0 <= f < files@.len() ==> offsets_view(#[trigger] v@[f]@) == line_offsets(files@[f]@),
        r matches Err(ExtractionError::OffsetOverflow { file, line }) ==> {
            &&& file < files@.len()
            &&& forall|g: int| 0 <= g < file ==> offsets_fit(#[trigger] files@[g]@)
            &&& line < line_offsets(files@[file as int]@).len()
            &&& line_offsets(files@[file as int]@)[line as int] > MAX_OFFSET
            &&& forall|j: int|
                0 <= j < line ==> line_offsets(files@[file as int]@)[j] <= MAX_OFFSET
        },
{
    let mut out: Vec<LineOffsets> = Vec::new();
    let mut f: usize = 0;
    while f < files.len()
        invariant
            f <= files@.len(),
            out@.len() == f,
            forall|g: int| 0 <= g < f ==> offsets_fit(#[trigger] files@[g]@),
            forall|g: int|
                0 <= g < f ==> offsets_view(#[trigger] out@[g]@) == line_offsets(files@[g]@),
        decreases files@.len() - f,
    {
        match get_offset(files[f].as_str()) {
            Ok(v) => {
                out.push(v);
            },
            Err(line) => {
                return Err(ExtractionError::OffsetOverflow { file: f, line });
            },
        }
        f = f + 1;
    }
    Ok(out)
}

/// Number of line feeds in a text.
pub open spec fn newline_count(text: Seq<char>) -> nat
    decreases text.len(),
{
    if text.len() == 0 {
        0
    } else {
        (if text[0] == '\n' {
            1nat
        } else {
            0nat
        }) + newline_count(text.drop_first())
    }
}

proof fn lemma_newline_count_prefix(text: Seq<char>, j: int)
    requires
        0 <= j <= text.len(),
        forall|i: int| 0 <= i < j ==> text[i] != '\n',
    ensures
        newline_count(text) == newline_count(text.skip(j)),
    decreases j,
{
    if j == 0 {
        assert(text.skip(0) =~= text);
    } else {
        lemma_newline_count_prefix(text.drop_first(), j - 1);
        assert(text.drop_first().skip(j - 1) =~= text.skip(j));
    }
}

/// One offset per line: a text has as many offsets as line feeds, plus one
/// for a last line that no line feed ends.
pub proof fn lemma_one_offset_per_line(text: Seq<char>)
    ensures
        line_offsets(text).len() == newline_count(text) + (if text.len() > 0 && text.last()
            != '\n' {
            1nat
        } else {
            0nat
        }),
    decreases text.len(),
{
    if text.len() > 0 {
        let k = line_length(text) as int;
        lemma_line_length_bound(text);
        lemma_newline_count_prefix(text, k);
        if k < text.len() {
            let rest = text.skip(k + 1);
            lemma_one_offset_per_line(rest);
            assert(text.skip(k).drop_first() =~= rest);
            if rest.len() > 0 {
                assert(rest.last() == text.last());
            }
        } else {
            assert(text.skip(k) =~= Seq::<char>::empty());
        }
    }
}

proof fn lemma_line_length_bound(text: Seq<char>)
    ensures
        line_length(text) <= text.len(),
        forall|i: int| 0 <= i < line_length(text) ==> text[i] != '\n',
        line_length(text) < text.len() ==> text[line_length(text) as int] == '\n',
    decreases text.len(),
{
    if text.len() > 0 && text[0] != '\n' {
        lemma_line_length_bound(text.drop_first());
        assert forall|i: int| 0 <= i < line_length(text) implies text[i] != '\n' by {
            if i > 0 {
                assert(text[i] == text.drop_first()[i - 1]);
            }
        }
    }
}

/// A line of `k` spaces followed by a character that is not a space has offset `k`.
pub proof fn lemma_offset_counts_leading_spaces(k: nat, rest: Seq<char>)
    requires
        rest.len() > 0,
        rest[0] != ' ',
    ensures
        line_offset(Seq::new(k, |i: int| ' ') + rest) == k,
{
    let line = Seq::new(k, |i: int| ' ') + rest;
    lemma_leading_spaces_prefix(line, k as int);
    assert(line.skip(k as int) =~= rest);
    assert(line[k as int] != ' ');
}

/// A blank line (empty, or spaces only) has offset 0.
pub proof fn lemma_blank_line_offset(line: Seq<char>)
    requires
        is_blank(line),
    ensures
        line_offset(line) == 0,
{
}

/// The characters of a string, in order.
pub(crate) fn chars_of(text: &str) -> (r: Vec<char>)
    ensures
        r@ == text@,
{
    broadcast use vstd::string::group_string_axioms;

    let mut out: Vec<char> = Vec::new();
    let mut it = text.chars();
    loop
        invariant
            out@ + it.remaining() == text@,
            it.obeys_prophetic_iter_laws(),
        ensures
            out@ == text@,
        decreases text@.len() - out@.len(),
    {
        match it.next() {
            Some(c) => {
                out.push(c);
            },
            None => {
                assert(out@ + it.remaining() =~= out@);
                break;
            },
        }
    }
    out
}

} // verus!
