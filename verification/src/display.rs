//! Text shown for chunks on a terminal.

use vstd::prelude::*;

use crate::text::{decimal, push_decimal};
use crate::cli::{Cli, TemplateArg};
use crate::types::{AstChunk, TextChunk};

verus! {

broadcast use vstd::string::group_string_axioms;

/// The characters of a string.
fn chars_of(s: &str) -> (r: Vec<char>)
    ensures
        r@ == s@,
{
    let mut r: Vec<char> = Vec::new();
    for c in it: s.chars()
        invariant
            r@ == it.seq().take(it.index() as int),
    {
        r.push(c);
    }
    r
}

/// A character with the Unicode `White_Space` property, the set that
/// `char::is_whitespace` tests: tab to carriage return, space, next line,
/// no-break space, ogham space mark, the spaces from en quad to hair space,
/// line and paragraph separators, narrow no-break space, medium mathematical
/// space and ideographic space.
pub open spec fn is_white_space(c: char) -> bool {
    let u = c as u32;
    ||| 0x09 <= u <= 0x0D
    ||| u == 0x20
    ||| u == 0x85
    ||| u == 0xA0
    ||| u == 0x1680
    ||| 0x2000 <= u <= 0x200A
    ||| u == 0x2028
    ||| u == 0x2029
    ||| u == 0x202F
    ||| u == 0x205F
    ||| u == 0x3000
}

/// Whether `c` is white space.
fn char_is_whitespace(c: char) -> (r: bool)
    ensures
        r == is_white_space(c),
{
    let u = c as u32;
    (0x09 <= u && u <= 0x0D) || u == 0x20 || u == 0x85 || u == 0xA0 || u == 0x1680
        || (0x2000 <= u && u <= 0x200A) || u == 0x2028 || u == 0x2029 || u == 0x202F
        || u == 0x205F || u == 0x3000
}

/// Appends a character (through `String::push`).
#[verifier::external_body]
fn string_push(s: &mut String, c: char)
    ensures
        final(s)@ == old(s)@.push(c),
{
    s.push(c)
}

/// Index of the first `'\n'` at or after `i`, or the length of `s`.
pub open spec fn line_end(s: Seq<char>, i: int) -> int
    decreases s.len() - i,
{
    if i >= s.len() {
        s.len() as int
    } else if s[i] == '\n' {
        i
    } else {
        line_end(s, i + 1)
    }
}

/// A line ends at or after its start and within the text.
pub proof fn lemma_line_end_bounds(s: Seq<char>, i: int)
    requires
        0 <= i <= s.len(),
    ensures
        i <= line_end(s, i) <= s.len(),
    decreases s.len() - i,
{
    if i < s.len() && s[i] != '\n' {
        lemma_line_end_bounds(s, i + 1);
    }
}

/// The line starting at `i`, as `str::lines` yields it: up to the next
/// `'\n'`, without a `'\r'` just before that `'\n'`.
pub open spec fn line_at(s: Seq<char>, i: int) -> Seq<char> {
    let e = line_end(s, i);
    let l = s.subrange(i, e);
    if e < s.len() && l.len() > 0 && l.last() == '\r' {
        l.drop_last()
    } else {
        l
    }
}

/// Every character of `l` is white space.
pub open spec fn is_blank(l: Seq<char>) -> bool {
    forall|k: int| 0 <= k < l.len() ==> is_white_space(#[trigger] l[k])
}

/// The first line at or after `i` that is not blank, or nothing.
pub open spec fn first_nonblank_line(s: Seq<char>, i: int) -> Seq<char>
    decreases s.len() + 1 - i,
{
    if i < 0 || i >= s.len() {
        seq![]
    } else if !is_blank(line_at(s, i)) {
        line_at(s, i)
    } else {
        proof {
            lemma_line_end_bounds(s, i);
        }
        first_nonblank_line(s, line_end(s, i) + 1)
    }
}

/// Widest preview of a line, in characters.
pub const PREVIEW_WIDTH: usize = 60;

/// The preview of a chunk: its first line that is not blank, cut to
/// [`PREVIEW_WIDTH`] characters, of which the last three are `...` when it
/// is cut.
pub open spec fn spec_first_code_line(content: Seq<char>) -> Seq<char> {
    let l = first_nonblank_line(content, 0);
    if l.len() <= PREVIEW_WIDTH {
        l
    } else {
        l.take(PREVIEW_WIDTH - 3) + seq!['.', '.', '.']
    }
}

/// The end of the line starting at `i` (see [`line_end`]) and where its
/// text stops (see [`line_at`]).
fn scan_line(cs: &Vec<char>, i: usize) -> (r: (usize, usize))
    requires
        i < cs@.len(),
    ensures
        r.0 == line_end(cs@, i as int),
        i <= r.1 <= r.0 <= cs@.len(),
        line_at(cs@, i as int) == cs@.subrange(i as int, r.1 as int),
{
    let ghost s = cs@;
    let n = cs.len();
    let mut e = i;
    while e < n && cs[e] != '\n'
        invariant
            s == cs@,
            n == s.len(),
            i <= e <= n,
            line_end(s, i as int) == line_end(s, e as int),
        decreases n - e,
    {
        e = e + 1;
    }
    assert(line_end(s, e as int) == e);
    let stop = if e < n && e > i && cs[e - 1] == '\r' {
        e - 1
    } else {
        e
    };
    assert(line_at(s, i as int) =~= s.subrange(i as int, stop as int));
    (e, stop)
}

/// Appends the characters `cs[from..to]`.
fn push_char_range(out: &mut String, cs: &Vec<char>, from: usize, to: usize)
    requires
        from <= to <= cs@.len(),
    ensures
        final(out)@ == old(out)@ + cs@.subrange(from as int, to as int),
{
    let ghost before = out@;
    let mut k = from;
    while k < to
        invariant
            from <= k <= to <= cs@.len(),
            out@ == before + cs@.subrange(from as int, k as int),
        decreases to - k,
    {
        string_push(out, cs[k]);
        k = k + 1;
        assert(out@ =~= before + cs@.subrange(from as int, k as int));
    }
}

/// The characters `cs[from..to]` as a string, followed by `...` when
/// `dots` holds.
fn string_of(cs: &Vec<char>, from: usize, to: usize, dots: bool) -> (r: String)
    requires
        from <= to <= cs@.len(),
    ensures
        r@ == cs@.subrange(from as int, to as int) + if dots {
            seq!['.', '.', '.']
        } else {
            Seq::<char>::empty()
        },
{
    let mut r = String::new();
    push_char_range(&mut r, cs, from, to);
    if dots {
        string_push(&mut r, '.');
        string_push(&mut r, '.');
        string_push(&mut r, '.');
    }
    assert(r@ =~= cs@.subrange(from as int, to as int) + if dots {
        seq!['.', '.', '.']
    } else {
        Seq::<char>::empty()
    });
    r
}

/// The first line of code that is not blank, cut to fit a table cell (see
/// [`spec_first_code_line`]).
pub fn first_code_line(content: &str) -> (r: String)
    ensures
        r@ == spec_first_code_line(content@),
{
    let cs = chars_of(content);
    let ghost s = cs@;
    let n = cs.len();
    let mut i: usize = 0;
    while i < n
        invariant
            s == cs@,
            s == content@,
            n == s.len(),
            i <= n,
            first_nonblank_line(s, 0) == first_nonblank_line(s, i as int),
        decreases n - i,
    {
        let (e, stop) = scan_line(&cs, i);
        let mut k = i;
        let mut blank = true;
        while k < stop
            invariant
                s == cs@,
                i <= k <= stop <= n == s.len(),
                blank ==> forall|j: int| i <= j < k ==> is_white_space(#[trigger] s[j]),
                !blank ==> !is_blank(s.subrange(i as int, stop as int)),
            decreases stop - k,
        {
            if !char_is_whitespace(cs[k]) {
                blank = false;
                assert(s.subrange(i as int, stop as int)[k - i] == s[k as int]);
            }
            k = k + 1;
        }
        if !blank {
            let cut = stop - i > PREVIEW_WIDTH;
            let to = if cut {
                i + (PREVIEW_WIDTH - 3)
            } else {
                stop
            };
            let r = string_of(&cs, i, to, cut);
            proof {
                let l = s.subrange(i as int, stop as int);
                assert(!is_blank(line_at(s, i as int)));
                assert(first_nonblank_line(s, i as int) == l);
                if cut {
                    assert(l.take(PREVIEW_WIDTH - 3) =~= s.subrange(i as int, to as int));
                }
            }
            return r;
        }
        assert forall|j: int| 0 <= j < s.subrange(i as int, stop as int).len() implies is_white_space(
            #[trigger] s.subrange(i as int, stop as int)[j],
        ) by {
            assert(s.subrange(i as int, stop as int)[j] == s[i + j]);
        }
        if e >= n {
            assert(first_nonblank_line(s, e as int + 1) == Seq::<char>::empty());
            i = n;
        } else {
            i = e + 1;
        }
    }
    let r = String::new();
    assert(r@ =~= spec_first_code_line(s));
    r
}

/// What a terminal shows of a chunk.
#[derive(Debug, Clone)]
pub struct ChunkInfo {
    /// 0-based position of the chunk.
    pub index: usize,
    /// Text of the chunk.
    pub content: String,
    /// Number of lines of the text.
    pub line_count: u32,
    /// Non-whitespace size of the chunk.
    pub nws_size: u32,
    /// Number of nodes of the chunk.
    pub node_count: u32,
    /// 1-based first line in the source.
    pub start_line: u32,
    /// 1-based last line in the source.
    pub end_line: u32,
}

/// The terminal view of a chunk at position `index`: its text and metrics,
/// with 1-based line numbers.
pub fn extract_chunk_info(ast_chunk: &AstChunk, text_chunk: &TextChunk, index: usize) -> (r: ChunkInfo)
    requires
        text_chunk.source_line_index_range.start < u32::MAX,
    ensures
        r.index == index,
        r.content@ == text_chunk.content@,
        r.line_count == text_chunk.metrics.content_line_count,
        r.nws_size == ast_chunk.metrics.nws_size,
        r.node_count == ast_chunk.metrics.node_count,
        r.start_line == text_chunk.source_line_index_range.start + 1,
        r.end_line == text_chunk.source_line_index_range.end,
{
    let line_numbers = text_chunk.source_line_index_range.to_line_number_range();
    ChunkInfo {
        index,
        content: text_chunk.content.clone(),
        line_count: text_chunk.metrics.content_line_count,
        nws_size: ast_chunk.metrics.nws_size,
        node_count: ast_chunk.metrics.node_count,
        start_line: line_numbers.start,
        end_line: line_numbers.end,
    }
}

/// The decimal digits of `n` as characters.
pub open spec fn digits(n: nat) -> Seq<char> {
    Seq::new(decimal(n).len(), |k: int| decimal(n)[k] as char)
}

/// `d` right-aligned in a field of `width` characters, padded with spaces.
pub open spec fn pad_left(d: Seq<char>, width: nat) -> Seq<char> {
    if d.len() < width {
        Seq::new((width - d.len()) as nat, |k: int| ' ') + d
    } else {
        d
    }
}

/// The header line of a chunk: its position among `total`, its metrics and
/// its line range.
pub open spec fn chunk_header(info: ChunkInfo, total: usize) -> Seq<char> {
    "─── Chunk "@ + digits((info.index + 1) as nat) + seq!['/'] + digits(total as nat) + " │ Lines: "@ + digits(
        info.line_count as nat,
    ) + " │ NWS: "@ + digits(info.nws_size as nat) + " │ Nodes: "@ + digits(info.node_count as nat)
        + " │ L"@ + digits(info.start_line as nat) + "..L"@ + digits(info.end_line as nat) + " ───"@
}

/// The lines of `s` from the one starting at `i`, each on a new line after
/// its number (counting from `no`) right-aligned to `width` and `│`.
pub open spec fn numbered_lines(s: Seq<char>, i: int, no: nat, width: nat) -> Seq<char>
    decreases s.len() + 1 - i,
{
    if i < 0 || i >= s.len() {
        seq![]
    } else {
        proof {
            lemma_line_end_bounds(s, i);
        }
        seq!['\n', ' '] + pad_left(digits(no), width) + " │ "@ + line_at(s, i) + numbered_lines(
            s,
            line_end(s, i) + 1,
            no + 1,
            width,
        )
    }
}

/// A chunk as a compact header line, followed, when `include_code` holds,
/// by its lines numbered from its first source line.
pub open spec fn spec_format_chunk(info: ChunkInfo, total: usize, include_code: bool) -> Seq<char> {
    let width = decimal((info.end_line + 1) as nat).len();
    chunk_header(info, total) + if include_code {
        numbered_lines(info.content@, 0, info.start_line as nat, width)
    } else {
        Seq::<char>::empty()
    }
}

/// Appends the characters of `t`.
fn push_chars(out: &mut String, t: &str)
    ensures
        final(out)@ == old(out)@ + t@,
{
    let cs = chars_of(t);
    let ghost before = out@;
    let mut k: usize = 0;
    while k < cs.len()
        invariant
            cs@ == t@,
            k <= cs@.len(),
            out@ == before + cs@.take(k as int),
        decreases cs@.len() - k,
    {
        string_push(out, cs[k]);
        k = k + 1;
        assert(out@ =~= before + cs@.take(k as int));
    }
    assert(cs@.take(cs@.len() as int) =~= cs@);
}

/// Appends the decimal digits of `n`, right-aligned to `width`.
fn push_digits(out: &mut String, n: u64, width: usize)
    ensures
        final(out)@ == old(out)@ + pad_left(digits(n as nat), width as nat),
{
    let mut d: Vec<u8> = Vec::new();
    push_decimal(&mut d, n);
    assert(d@ =~= decimal(n as nat));
    let ghost before = out@;
    let ghost ds = digits(n as nat);
    let mut p: usize = d.len();
    while p < width
        invariant
            d@ == decimal(n as nat),
            d@.len() <= p <= width || (p == d@.len() && p >= width),
            out@ == before + Seq::new((p - d@.len()) as nat, |k: int| ' '),
        decreases width - p,
    {
        string_push(out, ' ');
        p = p + 1;
        assert(out@ =~= before + Seq::new((p - d@.len()) as nat, |k: int| ' '));
    }
    let ghost padded = out@;
    let mut k: usize = 0;
    while k < d.len()
        invariant
            d@ == decimal(n as nat),
            ds == digits(n as nat),
            k <= d@.len(),
            out@ == padded + ds.take(k as int),
        decreases d@.len() - k,
    {
        string_push(out, d[k] as char);
        k = k + 1;
        assert(out@ =~= padded + ds.take(k as int));
    }
    assert(ds.take(d@.len() as int) =~= ds);
    assert(out@ =~= before + pad_left(ds, width as nat));
}

/// Appends a new line holding `no` right-aligned to `width`, `│` and the
/// characters `cs[from..to]`.
fn push_numbered_line(out: &mut String, cs: &Vec<char>, from: usize, to: usize, no: u64, width: usize)
    requires
        from <= to <= cs@.len(),
    ensures
        final(out)@ == old(out)@ + (seq!['\n', ' '] + pad_left(digits(no as nat), width as nat) + " │ "@
            + cs@.subrange(from as int, to as int)),
{
    let ghost before = out@;
    string_push(out, '\n');
    string_push(out, ' ');
    push_digits(out, no, width);
    push_chars(out, " │ ");
    push_char_range(out, cs, from, to);
    assert(out@ =~= before + (seq!['\n', ' '] + pad_left(digits(no as nat), width as nat) + " │ "@
        + cs@.subrange(from as int, to as int)));
}

/// The chunk as a compact header line followed, when `include_code` holds,
/// by its line-numbered text (see [`spec_format_chunk`]).
pub fn format_chunk(info: &ChunkInfo, total: usize, include_code: bool) -> (r: String)
    requires
        info.index < usize::MAX,
        info.end_line < u32::MAX,
        info.start_line + info.content@.len() <= u64::MAX,
    ensures
        r@ == spec_format_chunk(*info, total, include_code),
{
    let mut out = String::new();
    push_chars(&mut out, "─── Chunk ");
    push_digits(&mut out, (info.index + 1) as u64, 0);
    string_push(&mut out, '/');
    push_digits(&mut out, total as u64, 0);
    push_chars(&mut out, " │ Lines: ");
    push_digits(&mut out, info.line_count as u64, 0);
    push_chars(&mut out, " │ NWS: ");
    push_digits(&mut out, info.nws_size as u64, 0);
    push_chars(&mut out, " │ Nodes: ");
    push_digits(&mut out, info.node_count as u64, 0);
    push_chars(&mut out, " │ L");
    push_digits(&mut out, info.start_line as u64, 0);
    push_chars(&mut out, "..L");
    push_digits(&mut out, info.end_line as u64, 0);
    push_chars(&mut out, " ───");
    assert(out@ =~= chunk_header(*info, total));
    if !include_code {
        assert(out@ =~= spec_format_chunk(*info, total, include_code));
        return out;
    }
    let mut wd: Vec<u8> = Vec::new();
    push_decimal(&mut wd, (info.end_line + 1) as u64);
    let width = wd.len();
    let ghost width_n = decimal((info.end_line + 1) as nat).len();
    assert(width == width_n);
    let cs = chars_of(info.content.as_str());
    let ghost s = cs@;
    let ghost header = out@;
    assert(header == chunk_header(*info, total));
    let n = cs.len();
    let mut i: usize = 0;
    let mut no: u64 = info.start_line as u64;
    while i < n
        invariant
            s == cs@,
            s == info.content@,
            n == s.len(),
            i <= n,
            info.start_line + n <= u64::MAX,
            include_code,
            width == decimal((info.end_line + 1) as nat).len(),
            header == chunk_header(*info, total),
            no <= info.start_line + i,
            out@ + numbered_lines(s, i as int, no as nat, width as nat) == header + numbered_lines(
                s,
                0,
                info.start_line as nat,
                width as nat,
            ),
        decreases n - i,
    {
        let (e, stop) = scan_line(&cs, i);
        let ghost before = out@;
        push_numbered_line(&mut out, &cs, i, stop, no, width);
        proof {
            let piece = seq!['\n', ' '] + pad_left(digits(no as nat), width as nat) + " │ "@ + line_at(
                s,
                i as int,
            );
            assert(out@ == before + piece);
            assert(numbered_lines(s, i as int, no as nat, width as nat) == piece + numbered_lines(
                s,
                e + 1,
                (no + 1) as nat,
                width as nat,
            ));
        }
        if e >= n {
            assert(numbered_lines(s, e + 1, (no + 1) as nat, width as nat) == Seq::<char>::empty());
            assert(out@ =~= header + numbered_lines(s, 0, info.start_line as nat, width as nat));
            assert(out@ =~= spec_format_chunk(*info, total, include_code));
            return out;
        }
        i = e + 1;
        no = no + 1;
    }
    assert(numbered_lines(s, i as int, no as nat, width as nat) == Seq::<char>::empty());
    assert(out@ =~= header + numbered_lines(s, 0, info.start_line as nat, width as nat));
    out
}

/// The decimal rendering of `n`.
pub fn decimal_string(n: u64) -> (r: String)
    ensures
        r@ == digits(n as nat),
{
    let mut r = String::new();
    push_digits(&mut r, n, 0);
    assert(r@ =~= digits(n as nat));
    r
}

/// The column titles of the chunk summary table; the brief table also shows
/// each chunk's first line of code.
pub fn summary_header(brief: bool) -> (r: Vec<&'static str>)
    ensures
        r@.len() == if brief {
            7int
        } else {
            6int
        },
        r@[0]@ == "#"@,
        r@[1]@ == "Lines"@,
        r@[2]@ == "NWS Size"@,
        r@[3]@ == "Nodes"@,
        r@[4]@ == "Start Line"@,
        r@[5]@ == "End Line"@,
        brief ==> r@[6]@ == "First Line"@,
{
    let mut r: Vec<&'static str> = Vec::new();
    r.push("#");
    r.push("Lines");
    r.push("NWS Size");
    r.push("Nodes");
    r.push("Start Line");
    r.push("End Line");
    if brief {
        r.push("First Line");
    }
    r
}

/// The summary table row of a chunk: its 1-based number, line count,
/// non-whitespace size, node count and line range; the brief table adds the
/// chunk's first line of code.
pub fn summary_row(info: &ChunkInfo, brief: bool) -> (r: Vec<String>)
    requires
        info.index < usize::MAX,
    ensures
        r@.len() == if brief {
            7int
        } else {
            6int
        },
        r@[0]@ == digits((info.index + 1) as nat),
        r@[1]@ == digits(info.line_count as nat),
        r@[2]@ == digits(info.nws_size as nat),
        r@[3]@ == digits(info.node_count as nat),
        r@[4]@ == digits(info.start_line as nat),
        r@[5]@ == digits(info.end_line as nat),
        brief ==> r@[6]@ == spec_first_code_line(info.content@),
{
    let mut r: Vec<String> = Vec::new();
    r.push(decimal_string((info.index + 1) as u64));
    r.push(decimal_string(info.line_count as u64));
    r.push(decimal_string(info.nws_size as u64));
    r.push(decimal_string(info.node_count as u64));
    r.push(decimal_string(info.start_line as u64));
    r.push(decimal_string(info.end_line as u64));
    if brief {
        r.push(first_code_line(info.content.as_str()));
    }
    r
}

/// The name under which a template is listed.
pub open spec fn template_name(t: TemplateArg) -> Seq<char> {
    match t {
        TemplateArg::NoMetadata => "None"@,
        TemplateArg::Default => "Default"@,
        TemplateArg::RepoEval => "RepoEval"@,
        TemplateArg::SwebenchLite => "SwebenchLite"@,
    }
}

/// The column titles of the parameter table.
pub fn params_header() -> (r: Vec<&'static str>)
    ensures
        r@.len() == 6,
        r@[0]@ == "Language"@,
        r@[1]@ == "Max Chunk Size"@,
        r@[2]@ == "Overlap"@,
        r@[3]@ == "Expansion"@,
        r@[4]@ == "Template"@,
        r@[5]@ == "Total Chunks"@,
{
    let mut r: Vec<&'static str> = Vec::new();
    r.push("Language");
    r.push("Max Chunk Size");
    r.push("Overlap");
    r.push("Expansion");
    r.push("Template");
    r.push("Total Chunks");
    r
}

/// The parameter table row of a run: the language, the budget, the overlap,
/// whether expansion is on, the template and the number of chunks.
pub fn params_row(lang_str: &str, cli: &Cli, chunk_count: usize) -> (r: Vec<String>)
    ensures
        r@.len() == 6,
        r@[0]@ == lang_str@,
        r@[1]@ == digits(cli.max_chunk_size as nat),
        r@[2]@ == digits(cli.overlap as nat),
        r@[3]@ == if cli.expansion {
            "enabled"@
        } else {
            "disabled"@
        },
        r@[4]@ == template_name(cli.template),
        r@[5]@ == digits(chunk_count as nat),
{
    let mut r: Vec<String> = Vec::new();
    r.push(lang_str.to_owned());
    r.push(decimal_string(cli.max_chunk_size as u64));
    r.push(decimal_string(cli.overlap as u64));
    r.push(
        if cli.expansion {
            "enabled".to_owned()
        } else {
            "disabled".to_owned()
        },
    );
    r.push(
        match cli.template {
            TemplateArg::NoMetadata => "None".to_owned(),
            TemplateArg::Default => "Default".to_owned(),
            TemplateArg::RepoEval => "RepoEval".to_owned(),
            TemplateArg::SwebenchLite => "SwebenchLite".to_owned(),
        },
    );
    r.push(decimal_string(chunk_count as u64));
    r
}

} // verus!
