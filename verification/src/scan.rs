//! The cell scanner: partitions the lines of a script into notebook cells.
//!
//! A line starting with the marker `#%%` is a delimiter; the rest of the
//! line, trimmed of surrounding ASCII whitespace, is a label naming the
//! type of the cell that follows (`code`, `markdown` or `raw`).  Lines
//! under an unrecognized label belong to no cell and are discarded.  In a
//! cell that is not code, a leading `# ` is stripped from each line, so
//! prose can be written as comments in the script.  A cell's source is its
//! lines joined with newlines, trimmed of leading and trailing blank
//! lines.  A cell still open when input ends is flushed like any other.

use vstd::prelude::*;
use vstd::string::*;
use crate::text::str_eq;

verus! {

/// The kind of a notebook cell.
#[derive(PartialEq, Eq, Structural, Clone, Copy, Debug)]
pub enum CellType {
    Code,
    Markdown,
    Raw,
}

/// Per-cell metadata; this tool always emits the empty object.
#[derive(PartialEq, Eq, Structural, Clone, Copy, Debug)]
pub struct Metadata {}

/// One cell of the output document.
#[derive(Debug, Clone)]
pub struct NotebookCell {
    pub cell_type: CellType,
    pub source: String,
    pub metadata: Metadata,
}

/// The mathematical value of a cell: its kind and its source text.
pub ghost struct CellView {
    pub cell_type: CellType,
    pub source: Seq<char>,
}

impl View for NotebookCell {
    type V = CellView;

    open spec fn view(&self) -> CellView {
        CellView { cell_type: self.cell_type, source: self.source@ }
    }
}

/// The views of a sequence of owned lines.
pub open spec fn views_of(lines: Seq<String>) -> Seq<Seq<char>> {
    lines.map_values(|l: String| l@)
}

/// The views of a sequence of cells.
pub open spec fn cell_views(cells: Seq<NotebookCell>) -> Seq<CellView> {
    cells.map_values(|c: NotebookCell| c@)
}

/// Whether a line is a cell delimiter: it starts with the marker `#%%`.
pub open spec fn is_delim(line: Seq<char>) -> bool {
    line.len() >= 3 && line[0] == '#' && line[1] == '%' && line[2] == '%'
}

/// ASCII whitespace, as trimmed around a delimiter's label.
pub open spec fn is_space_char(c: char) -> bool {
    c == ' ' || c == '\t' || c == '\r' || c == '\n'
}

pub open spec fn trim_start_spaces(s: Seq<char>) -> Seq<char>
    decreases s.len(),
{
    if s.len() > 0 && is_space_char(s[0]) {
        trim_start_spaces(s.skip(1))
    } else {
        s
    }
}

pub open spec fn trim_end_spaces(s: Seq<char>) -> Seq<char>
    decreases s.len(),
{
    if s.len() > 0 && is_space_char(s.last()) {
        trim_end_spaces(s.drop_last())
    } else {
        s
    }
}

/// A string trimmed of surrounding ASCII whitespace.
pub open spec fn spec_trim(s: Seq<char>) -> Seq<char> {
    trim_end_spaces(trim_start_spaces(s))
}

/// The label carried by a delimiter line: everything after the three
/// marker characters, trimmed of surrounding whitespace.
pub open spec fn label_of(line: Seq<char>) -> Seq<char>
    recommends
        is_delim(line),
{
    spec_trim(line.skip(3))
}

/// The fixed label vocabulary; any other label maps to `None`.
pub open spec fn cell_type_of_label(label: Seq<char>) -> Option<CellType> {
    if label == "code"@ {
        Some(CellType::Code)
    } else if label == "markdown"@ {
        Some(CellType::Markdown)
    } else if label == "raw"@ {
        Some(CellType::Raw)
    } else {
        None
    }
}

/// A line with a leading `# ` removed, if it has one.
pub open spec fn strip_comment_prefix(line: Seq<char>) -> Seq<char> {
    if line.len() >= 2 && line[0] == '#' && line[1] == ' ' {
        line.skip(2)
    } else {
        line
    }
}

/// How a line is stored in a cell of the given type: verbatim for code,
/// with a leading `# ` stripped otherwise.
pub open spec fn stored_line(t: CellType, line: Seq<char>) -> Seq<char> {
    if t == CellType::Code {
        line
    } else {
        strip_comment_prefix(line)
    }
}

/// Lines joined with single newline characters.
pub open spec fn join_lines(lines: Seq<Seq<char>>) -> Seq<char>
    decreases lines.len(),
{
    if lines.len() == 0 {
        Seq::empty()
    } else if lines.len() == 1 {
        lines[0]
    } else {
        lines[0] + seq!['\n'] + join_lines(lines.skip(1))
    }
}

pub open spec fn trim_start_nl(s: Seq<char>) -> Seq<char>
    decreases s.len(),
{
    if s.len() > 0 && s[0] == '\n' {
        trim_start_nl(s.skip(1))
    } else {
        s
    }
}

pub open spec fn trim_end_nl(s: Seq<char>) -> Seq<char>
    decreases s.len(),
{
    if s.len() > 0 && s.last() == '\n' {
        trim_end_nl(s.drop_last())
    } else {
        s
    }
}

/// The source text of a cell built from the given buffered lines: the
/// lines joined with newlines, trimmed of leading and trailing newline
/// characters (that is, of leading and trailing blank lines).
pub open spec fn cell_source(buf: Seq<Seq<char>>) -> Seq<char> {
    trim_end_nl(trim_start_nl(join_lines(buf)))
}

/// The cell emitted when a delimiter (or the end of input) closes the
/// scanner's current state: one cell if a type is active, none otherwise.
pub open spec fn flush_cell(active: Option<CellType>, buf: Seq<Seq<char>>) -> Seq<CellView> {
    match active {
        Some(t) => seq![CellView { cell_type: t, source: cell_source(buf) }],
        None => Seq::empty(),
    }
}

/// The cells emitted by the scanner from `lines`, starting in a state
/// with active cell type `active` and buffered lines `buf`.
pub open spec fn scan_from(
    lines: Seq<Seq<char>>,
    active: Option<CellType>,
    buf: Seq<Seq<char>>,
) -> Seq<CellView>
    decreases lines.len(),
{
    if lines.len() == 0 {
        flush_cell(active, buf)
    } else {
        let line = lines[0];
        let rest = lines.skip(1);
        if is_delim(line) {
            flush_cell(active, buf) + scan_from(
                rest,
                cell_type_of_label(label_of(line)),
                Seq::empty(),
            )
        } else {
            match active {
                Some(t) => scan_from(rest, active, buf.push(stored_line(t, line))),
                None => scan_from(rest, None, buf),
            }
        }
    }
}

/// The cells emitted by a full scan of `lines`.
pub open spec fn scan_lines(lines: Seq<Seq<char>>) -> Seq<CellView> {
    scan_from(lines, None, Seq::empty())
}

/// The number of delimiter lines carrying a recognized label.
pub open spec fn count_valid_delims(lines: Seq<Seq<char>>) -> nat
    decreases lines.len(),
{
    if lines.len() == 0 {
        0
    } else {
        (if is_delim(lines[0]) && cell_type_of_label(label_of(lines[0])) is Some {
            1nat
        } else {
            0nat
        }) + count_valid_delims(lines.skip(1))
    }
}

proof fn lemma_count_from(lines: Seq<Seq<char>>, active: Option<CellType>, buf: Seq<Seq<char>>)
    ensures
        scan_from(lines, active, buf).len() == (if active is Some {
            1nat
        } else {
            0nat
        }) + count_valid_delims(lines),
    decreases lines.len(),
{
    if lines.len() > 0 {
        if is_delim(lines[0]) {
            lemma_count_from(lines.skip(1), cell_type_of_label(label_of(lines[0])), Seq::empty());
        } else {
            match active {
                Some(t) => lemma_count_from(
                    lines.skip(1),
                    active,
                    buf.push(stored_line(t, lines[0])),
                ),
                None => lemma_count_from(lines.skip(1), None, buf),
            }
        }
    }
}

/// Law: a full scan emits exactly one cell per delimiter line carrying a
/// recognized label; every open cell, the last included, is flushed.
pub proof fn lemma_cell_count(lines: Seq<Seq<char>>)
    ensures
        scan_lines(lines).len() == count_valid_delims(lines),
{
    lemma_count_from(lines, None, Seq::empty());
}

/// While a cell type is active, non-delimiter lines accumulate into the
/// buffer in order, each transformed by `stored_line`.
proof fn lemma_scan_accumulate(
    content: Seq<Seq<char>>,
    rest: Seq<Seq<char>>,
    t: CellType,
    buf: Seq<Seq<char>>,
)
    requires
        forall|i: int| 0 <= i < content.len() ==> !is_delim(content[i]),
    ensures
        scan_from(content + rest, Some(t), buf) == scan_from(
            rest,
            Some(t),
            buf + content.map_values(|l: Seq<char>| stored_line(t, l)),
        ),
    decreases content.len(),
{
    let f = (|l: Seq<char>| stored_line(t, l));
    if content.len() == 0 {
        assert(content + rest =~= rest);
        assert(buf + content.map_values(f) =~= buf);
    } else {
        let line = content[0];
        assert((content + rest)[0] == line);
        assert((content + rest).skip(1) =~= content.skip(1) + rest);
        lemma_scan_accumulate(content.skip(1), rest, t, buf.push(stored_line(t, line)));
        assert(buf.push(stored_line(t, line)) + content.skip(1).map_values(f) =~= buf
            + content.map_values(f));
    }
}

/// While no cell type is active, non-delimiter lines are discarded.
proof fn lemma_scan_discard(content: Seq<Seq<char>>, rest: Seq<Seq<char>>, buf: Seq<Seq<char>>)
    requires
        forall|i: int| 0 <= i < content.len() ==> !is_delim(content[i]),
    ensures
        scan_from(content + rest, None, buf) == scan_from(rest, None, buf),
    decreases content.len(),
{
    if content.len() == 0 {
        assert(content + rest =~= rest);
    } else {
        assert((content + rest)[0] == content[0]);
        assert((content + rest).skip(1) =~= content.skip(1) + rest);
        lemma_scan_discard(content.skip(1), rest, buf);
    }
}

proof fn lemma_scan_from_split(
    pre: Seq<Seq<char>>,
    suf: Seq<Seq<char>>,
    active: Option<CellType>,
    buf: Seq<Seq<char>>,
)
    requires
        suf.len() > 0,
        is_delim(suf[0]),
    ensures
        scan_from(pre + suf, active, buf) == scan_from(pre, active, buf) + scan_lines(suf),
    decreases pre.len(),
{
    if pre.len() == 0 {
        assert(pre + suf =~= suf);
        let next = cell_type_of_label(label_of(suf[0]));
        assert(Seq::<CellView>::empty() + scan_from(suf.skip(1), next, Seq::empty()) =~= scan_from(
            suf.skip(1),
            next,
            Seq::empty(),
        ));
    } else {
        assert((pre + suf)[0] == pre[0]);
        assert((pre + suf).skip(1) =~= pre.skip(1) + suf);
        if is_delim(pre[0]) {
            let next = cell_type_of_label(label_of(pre[0]));
            lemma_scan_from_split(pre.skip(1), suf, next, Seq::empty());
            assert(flush_cell(active, buf) + (scan_from(pre.skip(1), next, Seq::empty())
                + scan_lines(suf)) =~= (flush_cell(active, buf) + scan_from(
                pre.skip(1),
                next,
                Seq::empty(),
            )) + scan_lines(suf));
        } else {
            match active {
                Some(t) => lemma_scan_from_split(
                    pre.skip(1),
                    suf,
                    active,
                    buf.push(stored_line(t, pre[0])),
                ),
                None => lemma_scan_from_split(pre.skip(1), suf, None, buf),
            }
        }
    }
}

/// Law: the scan composes at every delimiter: the cells of a script
/// followed by a continuation that starts with a delimiter (or is empty)
/// are the cells of each part, in order.  With it, the span laws below
/// describe a span at any position in the input, not only at its head.
pub proof fn lemma_scan_concat(pre: Seq<Seq<char>>, suf: Seq<Seq<char>>)
    requires
        suf.len() == 0 || is_delim(suf[0]),
    ensures
        scan_lines(pre + suf) == scan_lines(pre) + scan_lines(suf),
{
    if suf.len() == 0 {
        assert(pre + suf =~= pre);
        assert(scan_lines(pre) + scan_lines(suf) =~= scan_lines(pre));
    } else {
        lemma_scan_from_split(pre, suf, None, Seq::empty());
    }
}

/// A span closed by a delimiter (or by the end of input) yields one cell
/// of the span's type, and the scan continues independently on the rest.
proof fn lemma_span(delim: Seq<char>, content: Seq<Seq<char>>, rest: Seq<Seq<char>>, t: CellType)
    requires
        is_delim(delim),
        cell_type_of_label(label_of(delim)) == Some(t),
        forall|i: int| 0 <= i < content.len() ==> !is_delim(content[i]),
        rest.len() == 0 || is_delim(rest[0]),
    ensures
        scan_lines(seq![delim] + content + rest) == seq![
            CellView {
                cell_type: t,
                source: cell_source(content.map_values(|l: Seq<char>| stored_line(t, l))),
            },
        ] + scan_lines(rest),
{
    let input = seq![delim] + content + rest;
    let processed = content.map_values(|l: Seq<char>| stored_line(t, l));
    assert(input[0] == delim);
    assert(input.skip(1) =~= content + rest);
    lemma_scan_accumulate(content, rest, t, Seq::empty());
    assert(Seq::<Seq<char>>::empty() + processed =~= processed);
    let cell = CellView { cell_type: t, source: cell_source(processed) };
    if rest.len() == 0 {
        assert(scan_from(rest, Some(t), processed) == seq![cell]);
        assert(scan_lines(rest) =~= Seq::<CellView>::empty());
    } else {
        let next = cell_type_of_label(label_of(rest[0]));
        assert(scan_from(rest, Some(t), processed) == seq![cell] + scan_from(
            rest.skip(1),
            next,
            Seq::empty(),
        ));
        assert(scan_lines(rest) =~= scan_from(rest.skip(1), next, Seq::empty()));
    }
    assert(Seq::<CellView>::empty() + scan_from(rest, Some(t), processed) =~= scan_from(
        rest,
        Some(t),
        processed,
    ));
    assert(seq![cell] + scan_lines(rest) =~= scan_from(rest, Some(t), processed));
}

/// Law: a code cell's source preserves every line of its span verbatim,
/// leading `#` characters included.
pub proof fn lemma_code_span(delim: Seq<char>, content: Seq<Seq<char>>, rest: Seq<Seq<char>>)
    requires
        is_delim(delim),
        cell_type_of_label(label_of(delim)) == Some(CellType::Code),
        forall|i: int| 0 <= i < content.len() ==> !is_delim(content[i]),
        rest.len() == 0 || is_delim(rest[0]),
    ensures
        scan_lines(seq![delim] + content + rest) == seq![
            CellView { cell_type: CellType::Code, source: cell_source(content) },
        ] + scan_lines(rest),
{
    lemma_span(delim, content, rest, CellType::Code);
    assert(content.map_values(|l: Seq<char>| stored_line(CellType::Code, l)) =~= content);
}

/// Law: a non-code cell's source has the `# ` prefix stripped from each
/// line that carries it; lines without the prefix pass through as they
/// are.
pub proof fn lemma_prose_span(
    delim: Seq<char>,
    content: Seq<Seq<char>>,
    rest: Seq<Seq<char>>,
    t: CellType,
)
    requires
        is_delim(delim),
        cell_type_of_label(label_of(delim)) == Some(t),
        t != CellType::Code,
        forall|i: int| 0 <= i < content.len() ==> !is_delim(content[i]),
        rest.len() == 0 || is_delim(rest[0]),
    ensures
        scan_lines(seq![delim] + content + rest) == seq![
            CellView {
                cell_type: t,
                source: cell_source(content.map_values(|l: Seq<char>| strip_comment_prefix(l))),
            },
        ] + scan_lines(rest),
{
    lemma_span(delim, content, rest, t);
    assert(content.map_values(|l: Seq<char>| stored_line(t, l)) =~= content.map_values(
        |l: Seq<char>| strip_comment_prefix(l),
    ));
}

/// Law: a span opened by a delimiter with an unrecognized label yields no
/// cell, and every line of that span is absent from the scan's output.
pub proof fn lemma_unknown_span(delim: Seq<char>, content: Seq<Seq<char>>, rest: Seq<Seq<char>>)
    requires
        is_delim(delim),
        cell_type_of_label(label_of(delim)) is None,
        forall|i: int| 0 <= i < content.len() ==> !is_delim(content[i]),
    ensures
        scan_lines(seq![delim] + content + rest) == scan_lines(rest),
{
    let input = seq![delim] + content + rest;
    assert(input[0] == delim);
    assert(input.skip(1) =~= content + rest);
    lemma_scan_discard(content, rest, Seq::empty());
    assert(Seq::<CellView>::empty() + scan_from(content + rest, None, Seq::empty()) =~= scan_from(
        content + rest,
        None,
        Seq::empty(),
    ));
}

/// Whether a character is trimmed around a delimiter label.
pub fn is_space(c: char) -> (r: bool)
    ensures
        r == is_space_char(c),
{
    c == ' ' || c == '\t' || c == '\r' || c == '\n'
}

/// Whether a line opens a new cell: it starts with the marker `#%%`.
pub fn is_delimiter(line: &str) -> (r: bool)
    ensures
        r == is_delim(line@),
{
    let n = line.unicode_len();
    n >= 3 && line.get_char(0) == '#' && line.get_char(1) == '%' && line.get_char(2) == '%'
}

/// Maps a delimiter label to a cell type; unrecognized labels yield `None`.
pub fn parse_cell_type(label: &str) -> (r: Option<CellType>)
    ensures
        r == cell_type_of_label(label@),
{
    proof {
        reveal_strlit("code");
        reveal_strlit("markdown");
        reveal_strlit("raw");
        assert("code"@.len() == 4);
        assert("markdown"@.len() == 8);
        assert("raw"@.len() == 3);
    }
    if str_eq(label, "code") {
        Some(CellType::Code)
    } else if str_eq(label, "markdown") {
        Some(CellType::Markdown)
    } else if str_eq(label, "raw") {
        Some(CellType::Raw)
    } else {
        None
    }
}

/// Trims surrounding ASCII whitespace from a string slice.
pub fn trim_spaces(s: &str) -> (r: String)
    ensures
        r@ == spec_trim(s@),
{
    let n = s.unicode_len();
    proof {
        assert(s@.skip(0) =~= s@);
    }
    let mut lo: usize = 0;
    while lo < n && is_space(s.get_char(lo))
        invariant
            n == s@.len(),
            0 <= lo <= n,
            trim_start_spaces(s@) == trim_start_spaces(s@.skip(lo as int)),
        decreases n - lo,
    {
        proof {
            assert(s@.skip(lo as int).skip(1) =~= s@.skip(lo as int + 1));
        }
        lo = lo + 1;
    }
    proof {
        assert(trim_start_spaces(s@.skip(lo as int)) == s@.skip(lo as int));
        assert(s@.skip(lo as int) =~= s@.subrange(lo as int, n as int));
    }
    let mut hi: usize = n;
    while hi > lo && is_space(s.get_char(hi - 1))
        invariant
            n == s@.len(),
            0 <= lo <= hi <= n,
            trim_start_spaces(s@) == s@.skip(lo as int),
            trim_end_spaces(s@.skip(lo as int)) == trim_end_spaces(
                s@.subrange(lo as int, hi as int),
            ),
        decreases hi,
    {
        proof {
            assert(s@.subrange(lo as int, hi as int).drop_last() =~= s@.subrange(
                lo as int,
                hi as int - 1,
            ));
        }
        hi = hi - 1;
    }
    proof {
        assert(trim_end_spaces(s@.subrange(lo as int, hi as int)) == s@.subrange(
            lo as int,
            hi as int,
        ));
    }
    let r = s.substring_char(lo, hi);
    r.to_owned()
}

/// The label of a delimiter line: everything after the marker, trimmed.
pub fn delimiter_label(line: &str) -> (r: String)
    requires
        is_delim(line@),
    ensures
        r@ == label_of(line@),
{
    let n = line.unicode_len();
    let tail = line.substring_char(3, n);
    proof {
        assert(line@.subrange(3, n as int) =~= line@.skip(3));
    }
    trim_spaces(tail)
}

/// A line with a leading `# ` removed, if it has one.
pub fn strip_prefix(line: &str) -> (r: String)
    ensures
        r@ == strip_comment_prefix(line@),
{
    let n = line.unicode_len();
    if n >= 2 && line.get_char(0) == '#' && line.get_char(1) == ' ' {
        let rest = line.substring_char(2, n);
        proof {
            assert(line@.subrange(2, n as int) =~= line@.skip(2));
        }
        rest.to_owned()
    } else {
        line.to_owned()
    }
}

/// Joining lines and then appending one more appends a newline and the
/// new line's text (the newline only when something precedes it).
pub proof fn lemma_join_push(lines: Seq<Seq<char>>, x: Seq<char>)
    ensures
        join_lines(lines.push(x)) == if lines.len() == 0 {
            x
        } else {
            join_lines(lines) + seq!['\n'] + x
        },
    decreases lines.len(),
{
    if lines.len() == 0 {
        assert(lines.push(x).len() == 1);
        assert(join_lines(lines.push(x)) == lines.push(x)[0]);
    } else {
        assert(lines.push(x).skip(1) =~= lines.skip(1).push(x));
        lemma_join_push(lines.skip(1), x);
        if lines.len() == 1 {
            assert(lines.skip(1).len() == 0);
            assert(join_lines(lines.push(x)) == lines[0] + seq!['\n'] + x);
            assert(join_lines(lines) == lines[0]);
        } else {
            assert(join_lines(lines.push(x)) == lines[0] + seq!['\n'] + (join_lines(lines.skip(1))
                + seq!['\n'] + x));
            assert(lines[0] + seq!['\n'] + (join_lines(lines.skip(1)) + seq!['\n'] + x) =~= (
            lines[0] + seq!['\n'] + join_lines(lines.skip(1))) + seq!['\n'] + x);
        }
    }
}

/// Joins buffered lines with single newline characters.
fn join_buffer(buf: &Vec<String>) -> (r: String)
    ensures
        r@ == join_lines(views_of(buf@)),
{
    let ghost dv = views_of(buf@);
    let mut r = String::new();
    let mut i: usize = 0;
    while i < buf.len()
        invariant
            0 <= i <= buf.len(),
            dv == views_of(buf@),
            dv.len() == buf.len(),
            r@ == join_lines(dv.take(i as int)),
        decreases buf.len() - i,
    {
        if i > 0 {
            r.append("\n");
        }
        r.append(buf[i].as_str());
        proof {
            reveal_strlit("\n");
            assert("\n"@ =~= seq!['\n']);
            assert(dv.take(i as int).push(dv[i as int]) =~= dv.take(i as int + 1));
            lemma_join_push(dv.take(i as int), dv[i as int]);
        }
        i = i + 1;
    }
    proof {
        assert(dv.take(buf.len() as int) =~= dv);
    }
    r
}

/// Trims leading and trailing newline characters from a string slice.
fn trim_newlines(s: &str) -> (r: String)
    ensures
        r@ == trim_end_nl(trim_start_nl(s@)),
{
    let n = s.unicode_len();
    proof {
        assert(s@.skip(0) =~= s@);
    }
    let mut lo: usize = 0;
    while lo < n && s.get_char(lo) == '\n'
        invariant
            n == s@.len(),
            0 <= lo <= n,
            trim_start_nl(s@) == trim_start_nl(s@.skip(lo as int)),
        decreases n - lo,
    {
        proof {
            assert(s@.skip(lo as int).skip(1) =~= s@.skip(lo as int + 1));
        }
        lo = lo + 1;
    }
    proof {
        assert(trim_start_nl(s@.skip(lo as int)) == s@.skip(lo as int));
        assert(s@.skip(lo as int) =~= s@.subrange(lo as int, n as int));
    }
    let mut hi: usize = n;
    while hi > lo && s.get_char(hi - 1) == '\n'
        invariant
            n == s@.len(),
            0 <= lo <= hi <= n,
            trim_start_nl(s@) == s@.skip(lo as int),
            trim_end_nl(s@.skip(lo as int)) == trim_end_nl(s@.subrange(lo as int, hi as int)),
        decreases hi,
    {
        proof {
            assert(s@.subrange(lo as int, hi as int).drop_last() =~= s@.subrange(
                lo as int,
                hi as int - 1,
            ));
        }
        hi = hi - 1;
    }
    proof {
        assert(trim_end_nl(s@.subrange(lo as int, hi as int)) == s@.subrange(
            lo as int,
            hi as int,
        ));
    }
    let r = s.substring_char(lo, hi);
    r.to_owned()
}

/// The source text of a cell built from the buffered lines.
fn render_source(buf: &Vec<String>) -> (r: String)
    ensures
        r@ == cell_source(views_of(buf@)),
{
    let joined = join_buffer(buf);
    trim_newlines(joined.as_str())
}

/// How a line is stored in a cell of the given type.
pub fn store_line(t: CellType, line: &str) -> (r: String)
    ensures
        r@ == stored_line(t, line@),
{
    match t {
        CellType::Code => line.to_owned(),
        CellType::Markdown => strip_prefix(line),
        CellType::Raw => strip_prefix(line),
    }
}

/// Scans the input lines into cells: one forward pass, flushing the open
/// cell at each delimiter and once more at the end of input.
pub fn scan(lines: &Vec<String>) -> (cells: Vec<NotebookCell>)
    ensures
        cell_views(cells@) == scan_lines(views_of(lines@)),
{
    let ghost all = views_of(lines@);
    let mut cells: Vec<NotebookCell> = Vec::new();
    let mut active: Option<CellType> = None;
    let mut buf: Vec<String> = Vec::new();
    proof {
        assert(all.skip(0) =~= all);
        assert(cell_views(cells@) =~= Seq::<CellView>::empty());
        assert(views_of(buf@) =~= Seq::<Seq<char>>::empty());
        assert(Seq::<CellView>::empty() + scan_from(all, None, Seq::empty()) =~= scan_lines(all));
    }
    let mut i: usize = 0;
    while i < lines.len()
        invariant
            0 <= i <= lines.len(),
            all == views_of(lines@),
            all.len() == lines.len(),
            cell_views(cells@) + scan_from(all.skip(i as int), active, views_of(buf@))
                == scan_lines(all),
        decreases lines.len() - i,
    {
        let line = &lines[i];
        proof {
            assert(all.skip(i as int)[0] == line@);
            assert(all.skip(i as int).skip(1) =~= all.skip(i as int + 1));
        }
        if is_delimiter(line.as_str()) {
            let ghost old_cells_v = cell_views(cells@);
            let ghost old_buf_views = views_of(buf@);
            let ghost old_active = active;
            if let Some(t) = active {
                let src = render_source(&buf);
                cells.push(NotebookCell { cell_type: t, source: src, metadata: Metadata {  } });
            }
            buf = Vec::new();
            let label = delimiter_label(line.as_str());
            active = parse_cell_type(label.as_str());
            proof {
                assert(cell_views(cells@) =~= old_cells_v + flush_cell(
                    old_active,
                    old_buf_views,
                ));
                assert(views_of(buf@) =~= Seq::<Seq<char>>::empty());
                assert(scan_from(all.skip(i as int), old_active, old_buf_views) == flush_cell(
                    old_active,
                    old_buf_views,
                ) + scan_from(all.skip(i as int + 1), active, views_of(buf@)));
                assert((old_cells_v + flush_cell(old_active, old_buf_views)) + scan_from(
                    all.skip(i as int + 1),
                    active,
                    views_of(buf@),
                ) =~= old_cells_v + (flush_cell(old_active, old_buf_views) + scan_from(
                    all.skip(i as int + 1),
                    active,
                    views_of(buf@),
                )));
            }
        } else {
            if let Some(t) = active {
                let ghost old_buf_views = views_of(buf@);
                let stored = store_line(t, line.as_str());
                buf.push(stored);
                proof {
                    assert(views_of(buf@) =~= old_buf_views.push(stored_line(t, line@)));
                }
            }
        }
        i = i + 1;
    }
    proof {
        assert(all.skip(lines.len() as int) =~= Seq::<Seq<char>>::empty());
    }
    if let Some(t) = active {
        let ghost old_cells_v = cell_views(cells@);
        let src = render_source(&buf);
        cells.push(NotebookCell { cell_type: t, source: src, metadata: Metadata {  } });
        proof {
            assert(cell_views(cells@) =~= old_cells_v + flush_cell(Some(t), views_of(buf@)));
        }
    }
    cells
}

} // verus!
