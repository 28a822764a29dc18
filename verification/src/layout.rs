//! The line-layout and wrap engine: turns document text and
//! per-character advance widths into visual lines, one or more per
//! logical line, and answers offset/position queries over them.
//!
//! Wrapping is greedy: characters fill a visual row until the next
//! one would overflow the wrap width; the row then breaks at the
//! last whitespace-run start seen in the row, or right before the
//! overflowing character when the row holds a single unbroken word.

use vstd::prelude::*;
use vstd::utf8::{encode_scalar, encode_utf8};

use crate::char_kind::{char_is_whitespace, is_whitespace_char};
use crate::text::byte_offset_of;

verus! {

/// Upper bound on characters in a laid-out document. The value
/// keeps every derived pixel quantity small — row widths below
/// 2^30, total heights below 2^32 — so the scroll controller's
/// clamp arithmetic, which mixes these with window coordinates and
/// stored offsets, stays within its proven i64 budget; a host with
/// a larger document lays out a window of it.
pub const MAX_LAYOUT_CHARS: usize = 0x100000;

/// Upper bound on a character's advance width and on the line height.
pub const MAX_ADVANCE: u64 = 1024;

/// A break opportunity within a row starting at `start`: position
/// `i` begins a whitespace run (its predecessor is not whitespace).
pub open spec fn is_break_opportunity(chars: Seq<char>, start: int, i: int) -> bool {
    start < i < chars.len() && char_is_whitespace(chars[i]) && !char_is_whitespace(chars[i - 1])
}

/// Greedy scan for where the row starting at `start` must break,
/// having reached position `i` with accumulated width `cum` and
/// `br` the latest break opportunity seen so far. `None` means the
/// rest of the line fits.
pub open spec fn row_break_from(
    chars: Seq<char>,
    widths: Seq<u64>,
    start: int,
    i: int,
    cum: int,
    br: Option<int>,
    w: int,
) -> Option<int>
    decreases chars.len() - i,
    when 0 <= i <= chars.len()
{
    if i >= chars.len() {
        None
    } else {
        let br2 = if is_break_opportunity(chars, start, i) {
            Some(i)
        } else {
            br
        };
        if i > start && cum + widths[i] > w {
            match br2 {
                Some(j) => Some(j),
                None => Some(i),
            }
        } else {
            row_break_from(chars, widths, start, i + 1, cum + widths[i], br2, w)
        }
    }
}

/// A break position lies strictly inside `(start, chars.len())`.
pub proof fn lemma_row_break_bounds(
    chars: Seq<char>,
    widths: Seq<u64>,
    start: int,
    i: int,
    cum: int,
    br: Option<int>,
    w: int,
)
    requires
        0 <= start <= i <= chars.len(),
        br is Some ==> start < br.unwrap() < chars.len(),
    ensures
        row_break_from(chars, widths, start, i, cum, br, w) is Some ==> start < row_break_from(
            chars,
            widths,
            start,
            i,
            cum,
            br,
            w,
        ).unwrap() < chars.len(),
    decreases chars.len() - i,
{
    if i < chars.len() {
        let br2 = if is_break_opportunity(chars, start, i) {
            Some(i)
        } else {
            br
        };
        if !(i > start && cum + widths[i] > w) {
            lemma_row_break_bounds(chars, widths, start, i + 1, cum + widths[i] as int, br2, w);
        }
    }
}

/// The visual row starts after the first: each row begins where the
/// previous one broke.
pub open spec fn rows_from(chars: Seq<char>, widths: Seq<u64>, start: int, w: int) -> Seq<int>
    decreases chars.len() - start,
    when 0 <= start <= chars.len()
    via rows_from_decreases
{
    if start >= chars.len() {
        seq![]
    } else {
        match row_break_from(chars, widths, start, start, 0, None, w) {
            None => seq![],
            Some(j) => seq![j] + rows_from(chars, widths, j, w),
        }
    }
}

#[via_fn]
proof fn rows_from_decreases(chars: Seq<char>, widths: Seq<u64>, start: int, w: int) {
    lemma_row_break_bounds(chars, widths, start, start, 0, None, w);
}

/// All row starts of a line: 0, then the greedy break positions
/// when a wrap width constrains the line.
pub open spec fn row_starts_spec(chars: Seq<char>, widths: Seq<u64>, wrap: Option<u64>) -> Seq<
    int,
> {
    match wrap {
        None => seq![0int],
        Some(w) => seq![0int] + rows_from(chars, widths, 0, w as int),
    }
}

/// One logical line of the layout: its characters (the line feed
/// excluded), their advance widths and line-local byte offsets, and
/// the character indices at which its visual rows start.
pub struct LineLayout {
    /// Byte offset of the line's first character in the document.
    pub start_byte: usize,
    /// The line's characters, without the trailing line feed.
    pub chars: Vec<char>,
    /// Advance width of each character.
    pub widths: Vec<u64>,
    /// Byte offset of each character within the line.
    pub char_bytes: Vec<usize>,
    /// Total bytes of the line's characters.
    pub len_bytes: usize,
    /// Character indices at which visual rows start; always begins
    /// with 0.
    pub row_starts: Vec<usize>,
    /// Whether a line feed follows this line in the document.
    pub has_newline: bool,
}

impl LineLayout {
    /// Structural soundness relative to the wrap width the layout
    /// was built with.
    pub open spec fn wf(&self, wrap: Option<u64>) -> bool {
        &&& self.chars@.len() <= MAX_LAYOUT_CHARS
        &&& self.widths@.len() == self.chars@.len()
        &&& self.char_bytes@.len() == self.chars@.len()
        &&& (forall|i: int|
            0 <= i < self.chars@.len() ==> self.chars@[i] != '\n' && #[trigger] self.widths@[i]
                <= MAX_ADVANCE)
        &&& (forall|i: int|
            0 <= i < self.chars@.len() ==> #[trigger] self.char_bytes@[i] == byte_offset_of(
                self.chars@,
                i,
            ))
        &&& self.len_bytes == byte_offset_of(self.chars@, self.chars@.len() as int)
        &&& self.row_starts@.map_values(|v: usize| v as int) == row_starts_spec(
            self.chars@,
            self.widths@,
            wrap,
        )
    }

    /// Number of visual rows.
    pub open spec fn rows(&self) -> int {
        self.row_starts@.len() as int
    }

    /// Char index one past the end of visual row `k`.
    pub open spec fn row_end(&self, k: int) -> int {
        if k + 1 < self.row_starts@.len() {
            self.row_starts@[k + 1] as int
        } else {
            self.chars@.len() as int
        }
    }

    /// Bytes the line covers in the document, its line feed included.
    pub open spec fn covered_bytes(&self) -> int {
        self.len_bytes + if self.has_newline {
            1int
        } else {
            0int
        }
    }
}

/// Sum of `widths[a..b)`.
pub open spec fn sum_widths(widths: Seq<u64>, a: int, b: int) -> int
    decreases b - a,
{
    if a >= b {
        0
    } else {
        sum_widths(widths, a, b - 1) + widths[b - 1]
    }
}

/// The document text a sequence of laid-out lines stands for.
pub open spec fn joined(lines: Seq<LineLayout>) -> Seq<char>
    decreases lines.len(),
{
    if lines.len() == 0 {
        Seq::empty()
    } else {
        line_chunk(lines[0]) + joined(lines.drop_first())
    }
}

/// A line's characters together with its line feed, if any.
pub open spec fn line_chunk(l: LineLayout) -> Seq<char> {
    l.chars@ + if l.has_newline {
        seq!['\n']
    } else {
        Seq::<char>::empty()
    }
}

/// Appending a line extends the joined text by that line's chunk.
pub proof fn lemma_joined_snoc(lines: Seq<LineLayout>, l: LineLayout)
    ensures
        joined(lines.push(l)) == joined(lines) + line_chunk(l),
    decreases lines.len(),
{
    if lines.len() == 0 {
        let single = lines.push(l);
        assert(single.len() == 1);
        assert(single[0] == l);
        assert(single.drop_first() =~= Seq::<LineLayout>::empty());
        assert(joined(single.drop_first()) == Seq::<char>::empty());
        assert(joined(single) == line_chunk(l) + joined(single.drop_first()));
        assert(joined(single) =~= line_chunk(l));
        assert(joined(lines) + line_chunk(l) =~= line_chunk(l));
    } else {
        assert(lines.push(l).drop_first() =~= lines.drop_first().push(l));
        assert(lines.push(l)[0] == lines[0]);
        lemma_joined_snoc(lines.drop_first(), l);
        assert(joined(lines.push(l)) =~= joined(lines) + line_chunk(l));
    }
}

/// Character offset in the document at which line `i` of a layout
/// begins (line feeds of earlier lines included).
pub open spec fn line_char_offset(lines: Seq<LineLayout>, i: int) -> int {
    joined(lines.take(i)).len() as int
}

/// The full layout: the laid-out lines of a document, in order,
/// with the uniform line height and the wrap width they were built
/// with.
pub struct Lines {
    pub lines: Vec<LineLayout>,
    pub line_height: u64,
    pub wrap_width: Option<u64>,
}

impl Lines {
    /// Soundness: at least one line, every line well-formed, only
    /// the last line lacks a trailing line feed, and the lines'
    /// byte ranges tile the document contiguously from zero.
    pub open spec fn wf(&self) -> bool {
        &&& 1 <= self.line_height <= MAX_ADVANCE
        &&& self.lines@.len() >= 1
        &&& (forall|i: int|
            0 <= i < self.lines@.len() ==> #[trigger] self.lines@[i].wf(self.wrap_width))
        &&& (forall|i: int|
            0 <= i < self.lines@.len() ==> (#[trigger] self.lines@[i].has_newline <==> i
                < self.lines@.len() - 1))
        &&& self.lines@[0].start_byte == 0
        &&& (forall|i: int|
            0 < i < self.lines@.len() ==> #[trigger] self.lines@[i].start_byte == self.lines@[i
                - 1].start_byte + self.lines@[i - 1].covered_bytes())
        &&& joined(self.lines@).len() <= MAX_LAYOUT_CHARS
    }

    /// The document text this layout was built from.
    pub open spec fn text(&self) -> Seq<char> {
        joined(self.lines@)
    }

    /// One past the last byte the layout covers.
    pub open spec fn end_byte(&self) -> int {
        self.lines@.last().start_byte + self.lines@.last().covered_bytes()
    }
}

/// Number of bytes of the UTF-8 encoding of `c`.
pub fn char_len_utf8(c: char) -> (r: usize)
    ensures
        r == encode_scalar(c as u32).len(),
        1 <= r <= 4,
{
    let u = c as u32;
    if u < 0x80 {
        1
    } else if u < 0x800 {
        2
    } else if u < 0x10000 {
        3
    } else {
        4
    }
}

/// The UTF-8 encoding takes at most four bytes per character.
pub proof fn lemma_encode_utf8_len_bound(s: Seq<char>)
    ensures
        encode_utf8(s).len() <= 4 * s.len(),
    decreases s.len(),
{
    if s.len() > 0 {
        lemma_encode_utf8_len_bound(s.drop_first());
    }
}

/// One past the end of the prefix is one character's encoding
/// longer than the prefix.
pub proof fn lemma_byte_offset_step(s: Seq<char>, i: int)
    requires
        0 <= i < s.len(),
    ensures
        byte_offset_of(s, i + 1) == byte_offset_of(s, i) + encode_scalar(s[i] as u32).len(),
{
    assert(s.take(i + 1) =~= s.take(i) + seq![s[i]]);
    crate::text::lemma_encode_utf8_concat(s.take(i), seq![s[i]]);
    assert(encode_utf8(seq![s[i]]) =~= encode_scalar(s[i] as u32) + encode_utf8(
        seq![s[i]].drop_first(),
    ));
    assert(seq![s[i]].drop_first() =~= Seq::<char>::empty());
    assert(encode_utf8(Seq::<char>::empty()) =~= Seq::<u8>::empty());
}

/// Where the visual row of `chars` starting at `start` breaks, or
/// `None` when the rest of the line fits within `w`.
fn compute_row_break(chars: &Vec<char>, widths: &Vec<u64>, start: usize, w: u64) -> (r: Option<
    usize,
>)
    requires
        start <= chars@.len() <= MAX_LAYOUT_CHARS,
        widths@.len() == chars@.len(),
        forall|i: int| 0 <= i < widths@.len() ==> #[trigger] widths@[i] <= MAX_ADVANCE,
    ensures
        match r {
            Some(j) => start < j < chars@.len() && row_break_from(
                chars@,
                widths@,
                start as int,
                start as int,
                0,
                None,
                w as int,
            ) == Some(j as int),
            None => row_break_from(
                chars@,
                widths@,
                start as int,
                start as int,
                0,
                None,
                w as int,
            ) is None,
        },
{
    let ghost target = row_break_from(chars@, widths@, start as int, start as int, 0, None, w as int);
    proof {
        lemma_row_break_bounds(chars@, widths@, start as int, start as int, 0, None, w as int);
    }
    let mut i: usize = start;
    let mut cum: u64 = 0;
    let mut br: Option<usize> = None;
    loop
        invariant
            start <= i <= chars@.len() <= MAX_LAYOUT_CHARS,
            widths@.len() == chars@.len(),
            forall|k: int| 0 <= k < widths@.len() ==> #[trigger] widths@[k] <= MAX_ADVANCE,
            cum <= (i - start) * (MAX_ADVANCE as int),
            br is Some ==> start < br.unwrap() < chars@.len(),
            target == row_break_from(chars@, widths@, start as int, start as int, 0, None, w as int),
            target is Some ==> start < target.unwrap() < chars@.len(),
            row_break_from(
                chars@,
                widths@,
                start as int,
                i as int,
                cum as int,
                match br {
                    Some(b) => Some(b as int),
                    None => None,
                },
                w as int,
            ) == target,
        decreases chars@.len() - i,
    {
        let ghost br_head: Option<int> = match br {
            Some(b) => Some(b as int),
            None => None,
        };
        if i >= chars.len() {
            assert(row_break_from(chars@, widths@, start as int, i as int, cum as int, br_head, w as int) is None);
            return None;
        }
        assert(row_break_from(chars@, widths@, start as int, i as int, cum as int, br_head, w as int) == target);
        let is_op = i > start && is_whitespace_char(chars[i]) && !is_whitespace_char(chars[i - 1]);
        if is_op {
            br = Some(i);
        }
        let ghost br2: Option<int> = match br {
            Some(b) => Some(b as int),
            None => None,
        };
        proof {
            assert(is_op == is_break_opportunity(chars@, start as int, i as int));
            assert(br2 == if is_break_opportunity(chars@, start as int, i as int) {
                Some(i as int)
            } else {
                br_head
            });
            assert((i - start) * (MAX_ADVANCE as int) <= (MAX_LAYOUT_CHARS as int) * (
            MAX_ADVANCE as int)) by {
                vstd::arithmetic::mul::lemma_mul_inequality(
                    (i - start) as int,
                    MAX_LAYOUT_CHARS as int,
                    MAX_ADVANCE as int,
                );
            }
        }
        if i > start && cum + widths[i] > w {
            let r = match br {
                Some(j) => j,
                None => i,
            };
            assert(row_break_from(chars@, widths@, start as int, i as int, cum as int, br_head, w as int) == Some(r as int));
            return Some(r);
        }
        proof {
            assert(row_break_from(chars@, widths@, start as int, i as int, cum as int, br_head, w as int)
                == row_break_from(chars@, widths@, start as int, i as int + 1, cum as int + widths@[i as int], br2, w as int));
            assert((i + 1 - start) * (MAX_ADVANCE as int) == (i - start) * (MAX_ADVANCE as int)
                + MAX_ADVANCE) by {
                vstd::arithmetic::mul::lemma_mul_is_distributive_add_other_way(
                    MAX_ADVANCE as int,
                    (i - start) as int,
                    1,
                );
            }
        }
        cum = cum + widths[i];
        i = i + 1;
    }
}

/// All visual row starts of one line under the given wrap width.
fn compute_row_starts(chars: &Vec<char>, widths: &Vec<u64>, wrap: Option<u64>) -> (r: Vec<usize>)
    requires
        chars@.len() <= MAX_LAYOUT_CHARS,
        widths@.len() == chars@.len(),
        forall|i: int| 0 <= i < widths@.len() ==> #[trigger] widths@[i] <= MAX_ADVANCE,
    ensures
        r@.map_values(|v: usize| v as int) == row_starts_spec(chars@, widths@, wrap),
        r@.len() >= 1,
        r@[0] == 0,
{
    let mut starts: Vec<usize> = Vec::new();
    starts.push(0);
    let w = match wrap {
        None => {
            assert(starts@.map_values(|v: usize| v as int) =~= seq![0int]);
            return starts;
        },
        Some(w) => w,
    };
    let mut cur: usize = 0;
    loop
        invariant
            wrap == Some(w),
            cur <= chars@.len() <= MAX_LAYOUT_CHARS,
            widths@.len() == chars@.len(),
            forall|i: int| 0 <= i < widths@.len() ==> #[trigger] widths@[i] <= MAX_ADVANCE,
            starts@.len() >= 1,
            starts@[0] == 0,
            starts@.map_values(|v: usize| v as int) + rows_from(
                chars@,
                widths@,
                cur as int,
                w as int,
            ) == row_starts_spec(chars@, widths@, Some(w)),
        decreases chars@.len() - cur,
    {
        match compute_row_break(chars, widths, cur, w) {
            None => {
                proof {
                    assert(rows_from(chars@, widths@, cur as int, w as int) =~= Seq::<int>::empty());
                    assert(starts@.map_values(|v: usize| v as int) + Seq::<int>::empty()
                        =~= starts@.map_values(|v: usize| v as int));
                }
                return starts;
            },
            Some(j) => {
                proof {
                    assert(rows_from(chars@, widths@, cur as int, w as int) == seq![j as int]
                        + rows_from(chars@, widths@, j as int, w as int));
                    assert(starts@.push(j).map_values(|v: usize| v as int) =~= starts@.map_values(
                        |v: usize| v as int,
                    ).push(j as int));
                    assert(starts@.map_values(|v: usize| v as int).push(j as int) + rows_from(
                        chars@,
                        widths@,
                        j as int,
                        w as int,
                    ) =~= starts@.map_values(|v: usize| v as int) + (seq![j as int] + rows_from(
                        chars@,
                        widths@,
                        j as int,
                        w as int,
                    )));
                }
                starts.push(j);
                cur = j;
            },
        }
    }
}

/// Lays out one logical line: byte offsets from the characters'
/// UTF-8 lengths, visual rows from the greedy wrap.
fn layout_line(
    chars: Vec<char>,
    widths: Vec<u64>,
    wrap: Option<u64>,
    start_byte: usize,
    has_newline: bool,
) -> (r: LineLayout)
    requires
        chars@.len() <= MAX_LAYOUT_CHARS,
        widths@.len() == chars@.len(),
        forall|i: int| 0 <= i < widths@.len() ==> #[trigger] widths@[i] <= MAX_ADVANCE,
        forall|i: int| 0 <= i < chars@.len() ==> chars@[i] != '\n',
        start_byte + 4 * chars@.len() <= usize::MAX,
    ensures
        r.wf(wrap),
        r.chars@ == chars@,
        r.widths@ == widths@,
        r.start_byte == start_byte,
        r.has_newline == has_newline,
{
    let n = chars.len();
    let mut char_bytes: Vec<usize> = Vec::new();
    let mut off: usize = 0;
    let mut i: usize = 0;
    proof {
        assert(chars@.take(0) =~= Seq::<char>::empty());
        assert(encode_utf8(Seq::<char>::empty()) =~= Seq::<u8>::empty());
    }
    while i < n
        invariant
            i <= n == chars@.len() <= MAX_LAYOUT_CHARS,
            char_bytes@.len() == i,
            off == byte_offset_of(chars@, i as int),
            off <= 4 * i,
            forall|k: int|
                0 <= k < i ==> #[trigger] char_bytes@[k] == byte_offset_of(chars@, k),
        decreases n - i,
    {
        char_bytes.push(off);
        let l = char_len_utf8(chars[i]);
        proof {
            lemma_byte_offset_step(chars@, i as int);
        }
        off = off + l;
        i = i + 1;
    }
    let row_starts = compute_row_starts(&chars, &widths, wrap);
    LineLayout { start_byte, chars, widths, char_bytes, len_bytes: off, row_starts, has_newline }
}

/// Lays out a whole document: one `LineLayout` per logical line, in
/// document order. The lines' byte ranges tile `[0, len_bytes)`
/// contiguously — each line starts where its predecessor ended —
/// and joining the lines back together yields the text exactly.
pub fn layout(chars: &Vec<char>, widths: &Vec<u64>, wrap_width: Option<u64>, line_height: u64) -> (r:
    Lines)
    requires
        chars@.len() <= MAX_LAYOUT_CHARS,
        widths@.len() == chars@.len(),
        forall|i: int| 0 <= i < widths@.len() ==> #[trigger] widths@[i] <= MAX_ADVANCE,
        1 <= line_height <= MAX_ADVANCE,
    ensures
        r.wf(),
        r.text() == chars@,
        r.line_height == line_height,
        r.wrap_width == wrap_width,
        r.lines@.len() == crate::text::newline_count(chars@) + 1,
        r.end_byte() == encode_utf8(chars@).len(),
        forall|li: int, j: int|
            0 <= li < r.lines@.len() && 0 <= j < r.lines@[li].widths@.len() ==> (
            #[trigger] r.lines@[li].widths@[j]) == widths@[line_char_offset(r.lines@, li) + j],
{
    let n = chars.len();
    let mut lines: Vec<LineLayout> = Vec::new();
    let mut line_chars: Vec<char> = Vec::new();
    let mut line_widths: Vec<u64> = Vec::new();
    let mut start_byte: usize = 0;
    let mut i: usize = 0;
    proof {
        assert(chars@.take(0) =~= Seq::<char>::empty());
        assert(joined(lines@) =~= Seq::<char>::empty());
        assert(encode_utf8(Seq::<char>::empty()) =~= Seq::<u8>::empty());
    }
    while i < n
        invariant
            i <= n == chars@.len() <= MAX_LAYOUT_CHARS,
            widths@.len() == chars@.len(),
            forall|k: int| 0 <= k < widths@.len() ==> #[trigger] widths@[k] <= MAX_ADVANCE,
            1 <= line_height <= MAX_ADVANCE,
            line_chars@.len() == line_widths@.len() <= i,
            line_widths@ == widths@.subrange(i - line_widths@.len(), i as int),
            forall|li: int, j: int|
                0 <= li < lines@.len() && 0 <= j < lines@[li].widths@.len() ==> (
                #[trigger] lines@[li].widths@[j]) == widths@[line_char_offset(lines@, li) + j],
            forall|k: int| 0 <= k < line_chars@.len() ==> #[trigger] line_chars@[k] != '\n',
            forall|k: int| 0 <= k < line_widths@.len() ==> #[trigger] line_widths@[k] <= MAX_ADVANCE,
            joined(lines@) + line_chars@ == chars@.take(i as int),
            start_byte == encode_utf8(joined(lines@)).len(),
            start_byte + 4 * line_chars@.len() <= 4 * i,
            lines@.len() == crate::text::newlines_before(chars@, i as int),
            forall|k: int| 0 <= k < lines@.len() ==> #[trigger] lines@[k].wf(wrap_width),
            forall|k: int| 0 <= k < lines@.len() ==> #[trigger] lines@[k].has_newline,
            lines@.len() > 0 ==> lines@[0].start_byte == 0,
            forall|k: int|
                0 < k < lines@.len() ==> #[trigger] lines@[k].start_byte == lines@[k
                    - 1].start_byte + lines@[k - 1].covered_bytes(),
            lines@.len() > 0 ==> start_byte == lines@.last().start_byte
                + lines@.last().covered_bytes(),
        decreases n - i,
    {
        let c = chars[i];
        proof {
            assert(chars@.take(i + 1) =~= chars@.take(i as int) + seq![chars@[i as int]]);
            crate::text::lemma_newlines_before_step(chars@, i as int);
        }
        if c == '\n' {
            let ghost old_lines = lines@;
            let ghost old_line_chars = line_chars@;
            let ll = layout_line(line_chars, line_widths, wrap_width, start_byte, true);
            proof {
                lemma_joined_snoc(old_lines, ll);
                assert(line_chunk(ll) =~= old_line_chars + seq!['\n']);
                assert(joined(old_lines.push(ll)) =~= chars@.take(i + 1));
                crate::text::lemma_encode_utf8_concat(joined(old_lines), line_chunk(ll));
                crate::text::lemma_encode_utf8_concat(old_line_chars, seq!['\n']);
                assert(encode_utf8(seq!['\n']) =~= encode_scalar('\n' as u32) + encode_utf8(
                    seq!['\n'].drop_first(),
                ));
                assert(seq!['\n'].drop_first() =~= Seq::<char>::empty());
                assert(encode_scalar('\n' as u32).len() == 1);
                assert(old_line_chars.take(old_line_chars.len() as int) =~= old_line_chars);
                lemma_encode_utf8_len_bound(old_line_chars);
                assert(ll.len_bytes <= 4 * old_line_chars.len());
            }
            start_byte = start_byte + ll.len_bytes + 1;
            lines.push(ll);
            line_chars = Vec::new();
            line_widths = Vec::new();
            proof {
                assert(line_widths@ =~= widths@.subrange(i + 1, i + 1));
                assert forall|li: int, j: int|
                    0 <= li < lines@.len() && 0 <= j < lines@[li].widths@.len() implies (
                #[trigger] lines@[li].widths@[j]) == widths@[line_char_offset(lines@, li) + j] by {
                    if li < old_lines.len() {
                        assert(lines@.take(li) =~= old_lines.take(li));
                        assert(lines@[li] == old_lines[li]);
                    } else {
                        assert(lines@.take(li) =~= old_lines);
                        assert(lines@[li] == ll);
                        assert(joined(old_lines).len() + old_line_chars.len() == i);
                        assert(ll.widths@[j] == widths@[i - old_line_chars.len() + j]);
                    }
                }
            }
        } else {
            line_chars.push(c);
            line_widths.push(widths[i]);
            proof {
                assert(joined(lines@) + line_chars@ =~= chars@.take(i + 1));
                assert(line_widths@ =~= widths@.subrange(i + 1 - line_widths@.len(), i + 1));
            }
        }
        i = i + 1;
    }
    let ghost old_lines = lines@;
    let ghost old_line_chars = line_chars@;
    let ll = layout_line(line_chars, line_widths, wrap_width, start_byte, false);
    lines.push(ll);
    proof {
        lemma_joined_snoc(old_lines, ll);
        assert(line_chunk(ll) =~= old_line_chars);
        assert(chars@.take(n as int) =~= chars@);
        assert(joined(lines@) =~= chars@);
        crate::text::lemma_encode_utf8_concat(joined(old_lines), old_line_chars);
        assert(old_line_chars.take(old_line_chars.len() as int) =~= old_line_chars);
        crate::text::lemma_newlines_before_le_count(chars@, n as int);
        assert forall|li: int, j: int|
            0 <= li < lines@.len() && 0 <= j < lines@[li].widths@.len() implies (
        #[trigger] lines@[li].widths@[j]) == widths@[line_char_offset(lines@, li) + j] by {
            if li < old_lines.len() {
                assert(lines@.take(li) =~= old_lines.take(li));
                assert(lines@[li] == old_lines[li]);
            } else {
                assert(lines@.take(li) =~= old_lines);
                assert(lines@[li] == ll);
                assert(joined(old_lines).len() + old_line_chars.len() == n);
                assert(ll.widths@[j] == widths@[n - old_line_chars.len() + j]);
            }
        }
    }
    Lines { lines, line_height, wrap_width }
}

/// Sum of the characters held by the first `i` lines.
pub open spec fn chars_sum(lines: Seq<LineLayout>, i: int) -> int
    decreases i,
{
    if i <= 0 {
        0
    } else {
        chars_sum(lines, i - 1) + lines[i - 1].chars@.len()
    }
}

/// Pixel height of the first `i` lines: each line is as tall as its
/// visual row count.
pub open spec fn height_before(lines: Seq<LineLayout>, i: int, lh: int) -> int
    decreases i,
{
    if i <= 0 {
        0
    } else {
        height_before(lines, i - 1, lh) + lines[i - 1].rows() * lh
    }
}

/// Row starts beyond the first are at most one per character.
pub proof fn lemma_rows_from_len(chars: Seq<char>, widths: Seq<u64>, start: int, w: int)
    requires
        0 <= start <= chars.len(),
    ensures
        rows_from(chars, widths, start, w).len() <= chars.len() - start,
    decreases chars.len() - start,
{
    if start < chars.len() {
        lemma_row_break_bounds(chars, widths, start, start, 0, None, w);
        match row_break_from(chars, widths, start, start, 0, None, w) {
            None => {},
            Some(j) => {
                lemma_rows_from_len(chars, widths, j, w);
            },
        }
    }
}

/// A line has at most one visual row per character, plus the first.
pub proof fn lemma_line_rows_bound(l: LineLayout, wrap: Option<u64>)
    requires
        l.wf(wrap),
    ensures
        1 <= l.rows() <= l.chars@.len() + 1,
{
    let m = l.row_starts@.map_values(|v: usize| v as int);
    assert(m.len() == l.row_starts@.len());
    match wrap {
        None => {
            assert(m == seq![0int]);
        },
        Some(w) => {
            lemma_rows_from_len(l.chars@, l.widths@, 0, w as int);
            assert(m == seq![0int] + rows_from(l.chars@, l.widths@, 0, w as int));
            assert(m.len() == 1 + rows_from(l.chars@, l.widths@, 0, w as int).len());
        },
    }
}

/// Joining distributes over splitting the line sequence.
pub proof fn lemma_joined_split(lines: Seq<LineLayout>, i: int)
    requires
        0 <= i <= lines.len(),
    ensures
        joined(lines) == joined(lines.take(i)) + joined(lines.skip(i)),
    decreases i,
{
    if i == 0 {
        assert(lines.take(0) =~= Seq::<LineLayout>::empty());
        assert(lines.skip(0) =~= lines);
        assert(joined(lines.take(0)) + joined(lines.skip(0)) =~= joined(lines));
    } else {
        assert(lines.take(i) =~= lines.take(i - 1).push(lines[i - 1]));
        lemma_joined_snoc(lines.take(i - 1), lines[i - 1]);
        lemma_joined_split(lines, i - 1);
        assert(lines.skip(i - 1) =~= seq![lines[i - 1]] + lines.skip(i));
        assert(joined(seq![lines[i - 1]] + lines.skip(i)) == line_chunk(lines[i - 1]) + joined(
            (seq![lines[i - 1]] + lines.skip(i)).drop_first(),
        ));
        assert((seq![lines[i - 1]] + lines.skip(i)).drop_first() =~= lines.skip(i));
        assert(joined(lines) =~= joined(lines.take(i)) + joined(lines.skip(i)));
    }
}

/// The first `i` lines hold no more characters than the whole text.
pub proof fn lemma_chars_sum_bound(lines: Seq<LineLayout>, i: int)
    requires
        0 <= i <= lines.len(),
    ensures
        chars_sum(lines, i) <= joined(lines).len(),
{
    lemma_chars_sum_take(lines, i);
    lemma_joined_split(lines, i);
}

/// The joined prefix is at least as long as the characters it holds.
proof fn lemma_chars_sum_take(lines: Seq<LineLayout>, i: int)
    requires
        0 <= i <= lines.len(),
    ensures
        joined(lines.take(i)).len() >= chars_sum(lines, i),
    decreases i,
{
    if i > 0 {
        assert(lines.take(i) =~= lines.take(i - 1).push(lines[i - 1]));
        lemma_joined_snoc(lines.take(i - 1), lines[i - 1]);
        lemma_chars_sum_take(lines, i - 1);
    }
}

/// Heights stay within machine range: the first `i` lines are at
/// most one row per character plus one row per line tall.
pub proof fn lemma_height_before_bound(lines: Seq<LineLayout>, i: int, lh: int, wrap: Option<u64>)
    requires
        0 <= i <= lines.len(),
        1 <= lh <= MAX_ADVANCE,
        forall|k: int| 0 <= k < lines.len() ==> #[trigger] lines[k].wf(wrap),
    ensures
        0 <= height_before(lines, i, lh) <= (chars_sum(lines, i) + i) * lh,
    decreases i,
{
    if i > 0 {
        lemma_height_before_bound(lines, i - 1, lh, wrap);
        lemma_line_rows_bound(lines[i - 1], wrap);
        vstd::arithmetic::mul::lemma_mul_inequality(
            lines[i - 1].rows(),
            lines[i - 1].chars@.len() + 1int,
            lh,
        );
        assert((chars_sum(lines, i - 1) + (i - 1) + (lines[i - 1].chars@.len() + 1)) * lh
            == (chars_sum(lines, i - 1) + (i - 1)) * lh + (lines[i - 1].chars@.len() + 1) * lh)
            by {
            vstd::arithmetic::mul::lemma_mul_is_distributive_add_other_way(
                lh,
                chars_sum(lines, i - 1) + (i - 1),
                lines[i - 1].chars@.len() + 1int,
            );
        }
    }
}

/// Heights are monotone and additive in document order.
pub proof fn lemma_height_before_monotone(lines: Seq<LineLayout>, i: int, j: int, lh: int)
    requires
        0 <= i <= j <= lines.len(),
        lh >= 1,
        forall|k: int| 0 <= k < lines.len() ==> #[trigger] lines[k].rows() >= 1,
    ensures
        height_before(lines, i, lh) <= height_before(lines, j, lh),
    decreases j - i,
{
    if i < j {
        lemma_height_before_monotone(lines, i, j - 1, lh);
        vstd::arithmetic::mul::lemma_mul_inequality(1, lines[j - 1].rows(), lh);
    }
}

impl Lines {
    /// Everything `height_before` can reach fits comfortably in u64.
    pub proof fn lemma_height_fits(&self, i: int)
        requires
            self.wf(),
            0 <= i <= self.lines@.len(),
        ensures
            0 <= height_before(self.lines@, i, self.line_height as int) <= 0x1_0000_0000,
    {
        lemma_height_before_bound(self.lines@, i, self.line_height as int, self.wrap_width);
        lemma_chars_sum_bound(self.lines@, i);
        lemma_lines_len_bound(self.lines@);
        assert(chars_sum(self.lines@, i) + i <= 2 * (MAX_LAYOUT_CHARS as int) + 1);
        vstd::arithmetic::mul::lemma_mul_inequality(
            chars_sum(self.lines@, i) + i,
            2 * (MAX_LAYOUT_CHARS as int) + 2,
            self.line_height as int,
        );
        vstd::arithmetic::mul::lemma_mul_inequality(
            self.line_height as int,
            MAX_ADVANCE as int,
            2 * (MAX_LAYOUT_CHARS as int) + 2,
        );
    }

    /// Total pixel height of the lines before line `line_idx`; an
    /// index beyond the layout counts every line, so the query is
    /// total.
    pub fn height_till_line_idx(&self, line_idx: usize) -> (r: u64)
        requires
            self.wf(),
        ensures
            r == height_before(
                self.lines@,
                if line_idx <= self.lines@.len() {
                    line_idx as int
                } else {
                    self.lines@.len() as int
                },
                self.line_height as int,
            ),
    {
        let n = self.lines.len();
        let line_idx = if line_idx <= n {
            line_idx
        } else {
            n
        };
        let mut acc: u64 = 0;
        let mut i: usize = 0;
        while i < line_idx
            invariant
                self.wf(),
                i <= line_idx <= self.lines@.len(),
                acc == height_before(self.lines@, i as int, self.line_height as int),
            decreases line_idx - i,
        {
            proof {
                self.lemma_height_fits(i + 1);
                self.lemma_height_fits(i as int);
                assert(self.lines@[i as int].wf(self.wrap_width));
                assert(self.lines@[i as int].chars@.len() <= MAX_LAYOUT_CHARS);
                lemma_line_rows_bound(self.lines@[i as int], self.wrap_width);
                assert(self.lines@[i as int].rows() <= (MAX_LAYOUT_CHARS as int) + 1);
                vstd::arithmetic::mul::lemma_mul_inequality(
                    self.lines@[i as int].rows(),
                    (MAX_LAYOUT_CHARS as int) + 1,
                    self.line_height as int,
                );
                assert(self.lines@[i as int].rows() * (self.line_height as int) <= ((
                MAX_LAYOUT_CHARS as int) + 1) * (self.line_height as int));
                vstd::arithmetic::mul::lemma_mul_inequality(
                    self.line_height as int,
                    MAX_ADVANCE as int,
                    (MAX_LAYOUT_CHARS as int) + 1,
                );
            }
            let rows = self.lines[i].row_starts.len() as u64;
            acc = acc + rows * self.line_height;
            i = i + 1;
        }
        acc
    }

    /// Total pixel height of the whole layout.
    pub fn height(&self) -> (r: u64)
        requires
            self.wf(),
        ensures
            r == height_before(self.lines@, self.lines@.len() as int, self.line_height as int),
    {
        let n = self.lines.len();
        self.height_till_line_idx(n)
    }
}

/// A layout has at most one line per character of text, plus one:
/// every line but the last ends in a line feed that the text holds.
pub proof fn lemma_lines_len_bound(lines: Seq<LineLayout>)
    requires
        forall|k: int|
            0 <= k < lines.len() ==> (#[trigger] lines[k].has_newline <==> k < lines.len() - 1),
    ensures
        lines.len() <= joined(lines).len() + 1,
    decreases lines.len(),
{
    if lines.len() > 1 {
        let rest = lines.drop_first();
        assert(forall|k: int|
            0 <= k < rest.len() ==> (#[trigger] rest[k].has_newline <==> k < rest.len() - 1));
        lemma_lines_len_bound(rest);
        assert(lines[0].has_newline);
        assert(line_chunk(lines[0]).len() >= 1);
    }
}

/// Each character's encoding is at least one byte, so line-local
/// byte offsets grow strictly.
pub proof fn lemma_byte_offset_strict(s: Seq<char>, i: int)
    requires
        0 <= i < s.len(),
    ensures
        byte_offset_of(s, i) < byte_offset_of(s, i + 1),
{
    lemma_byte_offset_step(s, i);
}

/// Sums of bounded widths are themselves bounded.
pub proof fn lemma_sum_widths_bound(widths: Seq<u64>, a: int, b: int)
    requires
        0 <= a,
        b <= widths.len(),
        forall|i: int| 0 <= i < widths.len() ==> #[trigger] widths[i] <= MAX_ADVANCE,
    ensures
        0 <= sum_widths(widths, a, b),
        a <= b ==> sum_widths(widths, a, b) <= (b - a) * MAX_ADVANCE,
    decreases b - a,
{
    if a < b {
        lemma_sum_widths_bound(widths, a, b - 1);
        vstd::arithmetic::mul::lemma_mul_is_distributive_add_other_way(
            MAX_ADVANCE as int,
            b - 1 - a,
            1,
        );
    }
}

/// Sum of `widths[a..b)`, computed.
pub fn sum_widths_exec(widths: &Vec<u64>, a: usize, b: usize) -> (r: u64)
    requires
        a <= b <= widths@.len() <= MAX_LAYOUT_CHARS,
        forall|i: int| 0 <= i < widths@.len() ==> #[trigger] widths@[i] <= MAX_ADVANCE,
    ensures
        r == sum_widths(widths@, a as int, b as int),
{
    let mut acc: u64 = 0;
    let mut i: usize = a;
    while i < b
        invariant
            a <= i <= b <= widths@.len() <= MAX_LAYOUT_CHARS,
            forall|k: int| 0 <= k < widths@.len() ==> #[trigger] widths@[k] <= MAX_ADVANCE,
            acc == sum_widths(widths@, a as int, i as int),
        decreases b - i,
    {
        proof {
            lemma_sum_widths_bound(widths@, a as int, i as int);
            vstd::arithmetic::mul::lemma_mul_inequality(
                i - a,
                MAX_LAYOUT_CHARS as int,
                MAX_ADVANCE as int,
            );
            assert(sum_widths(widths@, a as int, i + 1) == sum_widths(widths@, a as int, i as int)
                + widths@[i as int]);
        }
        acc = acc + widths[i];
        i = i + 1;
    }
    acc
}

/// The visual row holding char index `c`, scanning from row `k`.
pub open spec fn row_of_from(l: LineLayout, c: int, k: int) -> int
    decreases l.rows() - k,
    when 0 <= k < l.rows()
{
    if k + 1 < l.rows() && l.row_starts@[k + 1] <= c {
        row_of_from(l, c, k + 1)
    } else {
        k
    }
}

/// The visual row holding char index `c`: the last row starting at
/// or before it.
pub open spec fn row_of(l: LineLayout, c: int) -> int {
    row_of_from(l, c, 0)
}

/// `row_of` lands on a row that starts at or before `c`.
pub proof fn lemma_row_of_from_props(l: LineLayout, c: int, k: int)
    requires
        0 <= k < l.rows(),
        l.row_starts@[k] <= c,
    ensures
        k <= row_of_from(l, c, k) < l.rows(),
        l.row_starts@[row_of_from(l, c, k)] <= c,
        row_of_from(l, c, k) + 1 < l.rows() ==> c < l.row_starts@[row_of_from(l, c, k) + 1],
    decreases l.rows() - k,
{
    if k + 1 < l.rows() && l.row_starts@[k + 1] <= c {
        lemma_row_of_from_props(l, c, k + 1);
    }
}

/// Scan for the character whose width band contains `x`, starting
/// at char `c` with accumulated width `acc`.
pub open spec fn find_char_at_x(l: LineLayout, c: int, end: int, x: int, acc: int) -> Option<int>
    decreases end - c,
    when c <= end
{
    if c >= end {
        None
    } else if acc <= x < acc + l.widths@[c] {
        Some(c)
    } else {
        find_char_at_x(l, c + 1, end, x, acc + l.widths@[c])
    }
}

/// A found character lies within the scanned range.
pub proof fn lemma_find_char_bounds(l: LineLayout, c: int, end: int, x: int, acc: int)
    requires
        c <= end,
    ensures
        find_char_at_x(l, c, end, x, acc) is Some ==> c <= find_char_at_x(
            l,
            c,
            end,
            x,
            acc,
        ).unwrap() < end,
    decreases end - c,
{
    if c < end && !(acc <= x < acc + l.widths@[c]) {
        lemma_find_char_bounds(l, c + 1, end, x, acc + l.widths@[c] as int);
    }
}

/// Where a point hits the laid-out text, scanning lines from `i`
/// with `y` local to line `i`: the line index and the line-local
/// byte offset of the character under the point, or `None` when the
/// point lies above the text, below it, or past a row's end.
pub open spec fn hit_from(lines: Seq<LineLayout>, lh: int, i: int, x: int, y: int) -> Option<
    (int, int),
>
    decreases lines.len() - i,
    when 0 <= i <= lines.len() && lh >= 1
{
    if i >= lines.len() {
        None
    } else if y < 0 {
        None
    } else if y < lines[i].rows() * lh {
        let k = y / lh;
        let l = lines[i];
        match find_char_at_x(l, l.row_starts@[k] as int, l.row_end(k), x, 0) {
            Some(c) => Some((i, l.char_bytes@[c] as int)),
            None => None,
        }
    } else {
        hit_from(lines, lh, i + 1, x, y - lines[i].rows() * lh)
    }
}

/// The first line whose vertical band contains `y`, with `y` local
/// to line `i`; band ends are inclusive on both sides.
pub open spec fn line_for_y_from(lines: Seq<LineLayout>, lh: int, i: int, y: int) -> Option<int>
    decreases lines.len() - i,
    when 0 <= i <= lines.len()
{
    if i >= lines.len() {
        None
    } else if 0 <= y <= lines[i].rows() * lh {
        Some(i)
    } else {
        line_for_y_from(lines, lh, i + 1, y - lines[i].rows() * lh)
    }
}

/// Largest visual row width from row `k` on.
pub open spec fn line_width_from(l: LineLayout, k: int) -> int
    decreases l.rows() - k,
    when 0 <= k <= l.rows()
{
    if k >= l.rows() {
        0
    } else {
        let rw = sum_widths(l.widths@, l.row_starts@[k] as int, l.row_end(k));
        let rest = line_width_from(l, k + 1);
        if rw >= rest {
            rw
        } else {
            rest
        }
    }
}

/// Largest visual row width from line `i` on.
pub open spec fn width_from(lines: Seq<LineLayout>, i: int) -> int
    decreases lines.len() - i,
    when 0 <= i <= lines.len()
{
    if i >= lines.len() {
        0
    } else {
        let lw = line_width_from(lines[i], 0);
        let rest = width_from(lines, i + 1);
        if lw >= rest {
            lw
        } else {
            rest
        }
    }
}

/// The wrap boundary that ends the visual segment holding byte
/// `b`, scanning boundaries from row `k`: the first row start whose
/// byte offset exceeds `b`, or the line's byte length.
pub open spec fn wrap_end_from(l: LineLayout, b: int, k: int) -> int
    decreases l.rows() - k,
    when 1 <= k <= l.rows()
{
    if k >= l.rows() {
        l.len_bytes as int
    } else if l.char_bytes@[l.row_starts@[k] as int] > b {
        l.char_bytes@[l.row_starts@[k] as int] as int
    } else {
        wrap_end_from(l, b, k + 1)
    }
}

/// Greedy break positions are strictly increasing and lie strictly
/// inside the line.
pub proof fn lemma_rows_from_elems(chars: Seq<char>, widths: Seq<u64>, start: int, w: int)
    requires
        0 <= start <= chars.len(),
    ensures
        forall|j: int|
            0 <= j < rows_from(chars, widths, start, w).len() ==> start < #[trigger] rows_from(
                chars,
                widths,
                start,
                w,
            )[j] < chars.len(),
        forall|j: int|
            0 <= j && j + 1 < rows_from(chars, widths, start, w).len() ==> #[trigger] rows_from(
                chars,
                widths,
                start,
                w,
            )[j] < rows_from(chars, widths, start, w)[j + 1],
    decreases chars.len() - start,
{
    if start < chars.len() {
        lemma_row_break_bounds(chars, widths, start, start, 0, None, w);
        match row_break_from(chars, widths, start, start, 0, None, w) {
            None => {},
            Some(j) => {
                lemma_rows_from_elems(chars, widths, j, w);
                let r = rows_from(chars, widths, start, w);
                let tail = rows_from(chars, widths, j, w);
                assert(r == seq![j] + tail);
                assert(forall|k: int| 0 <= k < tail.len() ==> r[k + 1] == #[trigger] tail[k]);
            },
        }
    }
}

/// Row starts of a well-formed line: the first is zero, they grow
/// strictly, and each row's end bounds its start.
pub proof fn lemma_row_starts_props(l: LineLayout, wrap: Option<u64>)
    requires
        l.wf(wrap),
    ensures
        l.rows() >= 1,
        l.row_starts@[0] == 0,
        forall|k: int| 0 <= k < l.rows() ==> #[trigger] l.row_starts@[k] <= l.chars@.len(),
        forall|k: int| 1 <= k < l.rows() ==> 0 < #[trigger] l.row_starts@[k] < l.chars@.len(),
        forall|k: int|
            0 <= k && k + 1 < l.rows() ==> #[trigger] l.row_starts@[k] < l.row_starts@[k + 1],
        forall|k: int|
            0 <= k < l.rows() ==> #[trigger] l.row_starts@[k] <= l.row_end(k) <= l.chars@.len(),
{
    let m = l.row_starts@.map_values(|v: usize| v as int);
    assert(m.len() == l.row_starts@.len());
    assert(forall|k: int| 0 <= k < m.len() ==> m[k] == #[trigger] l.row_starts@[k] as int);
    match wrap {
        None => {
            assert(m == seq![0int]);
        },
        Some(w) => {
            let rf = rows_from(l.chars@, l.widths@, 0, w as int);
            assert(m == seq![0int] + rf);
            lemma_rows_from_elems(l.chars@, l.widths@, 0, w as int);
            assert(forall|k: int| 0 <= k < rf.len() ==> m[k + 1] == #[trigger] rf[k]);
            assert(m[0] == 0);
        },
    }
}

/// Restates the tiling that `Lines::wf` carries: line `i + 1`
/// begins at the byte where line `i` ends, the first line begins at
/// byte 0, and the last line ends at the document's byte length —
/// so the lines' covered byte ranges, concatenated in order, are
/// exactly `[0, len_bytes)`, without gap or overlap.
pub proof fn lemma_layout_partition(l: Lines)
    requires
        l.wf(),
        l.end_byte() == encode_utf8(l.text()).len(),
    ensures
        l.lines@[0].start_byte == 0,
        forall|i: int|
            0 <= i < l.lines@.len() - 1 ==> #[trigger] l.lines@[i + 1].start_byte
                == l.lines@[i].start_byte + l.lines@[i].covered_bytes(),
        l.lines@.last().start_byte + l.lines@.last().covered_bytes() == encode_utf8(
            l.text(),
        ).len(),
{
}



/// Visual row widths are never negative.
pub proof fn lemma_line_width_nonneg(l: LineLayout, k: int)
    requires
        0 <= k <= l.rows(),
        forall|j: int| 0 <= j < l.rows() ==> #[trigger] l.row_starts@[j] <= l.row_end(j) <= l.chars@.len(),
        l.widths@.len() == l.chars@.len(),
        forall|j: int| 0 <= j < l.widths@.len() ==> #[trigger] l.widths@[j] <= MAX_ADVANCE,
    ensures
        0 <= line_width_from(l, k),
    decreases l.rows() - k,
{
    if k < l.rows() {
        lemma_line_width_nonneg(l, k + 1);
        lemma_sum_widths_bound(l.widths@, l.row_starts@[k] as int, l.row_end(k));
    }
}

impl Lines {
    /// The line at `line_number`, if there is one.
    pub fn line(&self, line_number: usize) -> (r: Option<&LineLayout>)
        ensures
            line_number < self.lines@.len() ==> r == Some(&self.lines@[line_number as int]),
            line_number >= self.lines@.len() ==> r is None,
    {
        if line_number < self.lines.len() {
            Some(&self.lines[line_number])
        } else {
            None
        }
    }

    /// Pixel position of char index `char_idx` within line
    /// `line_idx`: x is measured from the start of the visual row
    /// holding the char, y from the top of the layout. An index
    /// beyond the line clamps to its end.
    #[verifier::loop_isolation(false)]
    #[verifier::rlimit(30)]
    pub fn position_for_char_idx_in_line(&self, char_idx: usize, line_idx: usize) -> (r: (
        u64,
        u64,
    ))
        requires
            self.wf(),
            line_idx < self.lines@.len(),
        ensures
            ({
                let l = self.lines@[line_idx as int];
                let c = if char_idx <= l.chars@.len() {
                    char_idx as int
                } else {
                    l.chars@.len() as int
                };
                let k = row_of(l, c);
                r.0 == sum_widths(l.widths@, l.row_starts@[k] as int, c) && r.1 == height_before(
                    self.lines@,
                    line_idx as int,
                    self.line_height as int,
                ) + k * self.line_height
            }),
    {
        let l = &self.lines[line_idx];
        proof {
            assert(self.lines@[line_idx as int].wf(self.wrap_width));
            lemma_row_starts_props(*l, self.wrap_width);
        }
        let n = l.chars.len();
        let c = if char_idx <= n {
            char_idx
        } else {
            n
        };
        let rows = l.row_starts.len();
        let mut k: usize = 0;
        while k + 1 < rows && l.row_starts[k + 1] <= c
            invariant
                0 <= k < rows,
                l.row_starts@[k as int] <= c,
                row_of_from(*l, c as int, k as int) == row_of(*l, c as int),
            decreases rows - k,
        {
            k = k + 1;
        }
        proof {
            assert(row_of_from(*l, c as int, k as int) == k as int);
            lemma_row_of_from_props(*l, c as int, k as int);
        }
        let x = sum_widths_exec(&l.widths, l.row_starts[k], c);
        let base = self.height_till_line_idx(line_idx);
        proof {
            self.lemma_height_fits(line_idx as int);
            lemma_line_rows_bound(*l, self.wrap_width);
            vstd::arithmetic::mul::lemma_mul_inequality(
                k as int,
                (MAX_LAYOUT_CHARS as int) + 1,
                self.line_height as int,
            );
            vstd::arithmetic::mul::lemma_mul_inequality(
                self.line_height as int,
                MAX_ADVANCE as int,
                (MAX_LAYOUT_CHARS as int) + 1,
            );
            vstd::arithmetic::mul::lemma_mul_inequality(0, k as int, self.line_height as int);
        }
        let y = base + (k as u64) * self.line_height;
        (x, y)
    }

    /// Pixel position for a line-local byte offset: the position of
    /// the first character at or after that byte.
    pub fn position_for_byte_idx_in_line(&self, byte_idx: usize, line_idx: usize) -> (r: (
        u64,
        u64,
    ))
        requires
            self.wf(),
            line_idx < self.lines@.len(),
        ensures
            ({
                let l = self.lines@[line_idx as int];
                let c = char_idx_for_byte_from(l, byte_idx as int, 0);
                let k = row_of(l, c);
                r.0 == sum_widths(l.widths@, l.row_starts@[k] as int, c) && r.1 == height_before(
                    self.lines@,
                    line_idx as int,
                    self.line_height as int,
                ) + k * self.line_height
            }),
    {
        let l = &self.lines[line_idx];
        proof {
            assert(self.lines@[line_idx as int].wf(self.wrap_width));
        }
        let c = char_idx_for_byte(l, byte_idx);
        proof {
            lemma_char_idx_for_byte_bounds(*l, byte_idx as int, 0);
        }
        self.position_for_char_idx_in_line(c, line_idx)
    }

    /// Line index and line-local byte offset of the character under
    /// the point, or `None` when the point misses the text.
    #[verifier::loop_isolation(false)]
    #[verifier::rlimit(60)]
    pub fn byte_index_for_position(&self, x: i64, y: i64) -> (r: Option<(usize, usize)>)
        requires
            self.wf(),
        ensures
            match r {
                Some((li, b)) => hit_from(self.lines@, self.line_height as int, 0, x as int, y as int)
                    == Some((li as int, b as int)) && li < self.lines@.len(),
                None => hit_from(self.lines@, self.line_height as int, 0, x as int, y as int)
                    is None,
            },
    {
        let ghost lh = self.line_height as int;
        let mut i: usize = 0;
        let mut yy: i64 = y;
        loop
            invariant
                0 <= i <= self.lines@.len(),
                hit_from(self.lines@, lh, i as int, x as int, yy as int) == hit_from(
                    self.lines@,
                    lh,
                    0,
                    x as int,
                    y as int,
                ),
            decreases self.lines@.len() - i,
        {
            if i >= self.lines.len() {
                return None;
            }
            if yy < 0 {
                return None;
            }
            let l = &self.lines[i];
            proof {
                assert(self.lines@[i as int].wf(self.wrap_width));
                lemma_row_starts_props(*l, self.wrap_width);
                lemma_line_rows_bound(*l, self.wrap_width);
                vstd::arithmetic::mul::lemma_mul_inequality(
                    l.rows(),
                    (MAX_LAYOUT_CHARS as int) + 1,
                    lh,
                );
                vstd::arithmetic::mul::lemma_mul_inequality(
                    lh,
                    MAX_ADVANCE as int,
                    (MAX_LAYOUT_CHARS as int) + 1,
                );
                vstd::arithmetic::mul::lemma_mul_inequality(1, l.rows(), lh);
            }
            let band: u64 = (l.row_starts.len() as u64) * self.line_height;
            if (yy as u64) < band {
                let k: usize = ((yy as u64) / self.line_height) as usize;
                proof {
                    assert((yy as int) / lh < l.rows() && (yy as int) / lh >= 0) by (nonlinear_arith)
                        requires
                            0 <= yy as int,
                            (yy as int) < l.rows() * lh,
                            lh >= 1,
                    ;
                    assert(k as int == (yy as int) / lh);
                }
                let rs = l.row_starts[k];
                let re = if k + 1 < l.row_starts.len() {
                    l.row_starts[k + 1]
                } else {
                    l.chars.len()
                };
                proof {
                    assert(re as int == l.row_end(k as int));
                    lemma_find_char_bounds(*l, rs as int, re as int, x as int, 0);
                }
                let ghost fc = find_char_at_x(*l, rs as int, re as int, x as int, 0);
                let mut c: usize = rs;
                let mut acc: u64 = 0;
                loop
                    invariant
                        i < self.lines@.len(),
                        l == &self.lines@[i as int],
                        k < l.rows(),
                        rs == l.row_starts@[k as int],
                        re as int == l.row_end(k as int),
                        rs <= c <= re <= l.chars@.len(),
                        0 <= acc <= (c - rs) * (MAX_ADVANCE as int),
                        find_char_at_x(*l, c as int, re as int, x as int, acc as int) == fc,
                    decreases re - c,
                {
                    if c >= re {
                        assert(fc is None);
                        assert(hit_from(self.lines@, lh, i as int, x as int, yy as int) is None);
                        return None;
                    }
                    proof {
                        vstd::arithmetic::mul::lemma_mul_inequality(
                            c - rs,
                            MAX_LAYOUT_CHARS as int,
                            MAX_ADVANCE as int,
                        );
                        vstd::arithmetic::mul::lemma_mul_is_distributive_add_other_way(
                            MAX_ADVANCE as int,
                            c - rs,
                            1,
                        );
                    }
                    let wc = l.widths[c];
                    if (acc as i64) <= x && x < (acc as i64) + (wc as i64) {
                        assert(fc == Some(c as int));
                        assert(hit_from(self.lines@, lh, i as int, x as int, yy as int) == Some(
                            (i as int, l.char_bytes@[c as int] as int),
                        ));
                        return Some((i, l.char_bytes[c]));
                    }
                    acc = acc + wc;
                    c = c + 1;
                }
            }
            yy = yy - (band as i64);
            i = i + 1;
        }
    }

    /// The first line whose vertical band contains `y`; both band
    /// edges count as inside.
    #[verifier::loop_isolation(false)]
    pub fn line_idx_for_y(&self, y: i64) -> (r: Option<usize>)
        requires
            self.wf(),
        ensures
            match r {
                Some(li) => line_for_y_from(self.lines@, self.line_height as int, 0, y as int)
                    == Some(li as int) && li < self.lines@.len(),
                None => line_for_y_from(self.lines@, self.line_height as int, 0, y as int) is None,
            },
    {
        let ghost lh = self.line_height as int;
        let mut i: usize = 0;
        let mut yy: i64 = y;
        loop
            invariant
                0 <= i <= self.lines@.len(),
                line_for_y_from(self.lines@, lh, i as int, yy as int) == line_for_y_from(
                    self.lines@,
                    lh,
                    0,
                    y as int,
                ),
            decreases self.lines@.len() - i,
        {
            if i >= self.lines.len() {
                return None;
            }
            let l = &self.lines[i];
            proof {
                assert(self.lines@[i as int].wf(self.wrap_width));
                lemma_line_rows_bound(*l, self.wrap_width);
                vstd::arithmetic::mul::lemma_mul_inequality(
                    l.rows(),
                    (MAX_LAYOUT_CHARS as int) + 1,
                    lh,
                );
                vstd::arithmetic::mul::lemma_mul_inequality(
                    lh,
                    MAX_ADVANCE as int,
                    (MAX_LAYOUT_CHARS as int) + 1,
                );
                vstd::arithmetic::mul::lemma_mul_inequality(0, l.rows(), lh);
            }
            let band: u64 = (l.row_starts.len() as u64) * self.line_height;
            if 0 <= yy && (yy as u64) <= band {
                return Some(i);
            }
            if yy < -0x2000_0000_0000_0000 {
                proof {
                    lemma_line_for_y_stays_none(self.lines@, lh, i + 1, yy - band as int);
                }
                return None;
            }
            yy = yy - (band as i64);
            i = i + 1;
        }
    }

    /// Line-local byte offset at which the visual segment holding
    /// `byte_idx_in_line` ends: the next wrap boundary, or the end
    /// of the line. `None` only for a line index out of range.
    #[verifier::loop_isolation(false)]
    pub fn wrapped_line_end_idx(&self, line_idx: usize, byte_idx_in_line: usize) -> (r: Option<
        usize,
    >)
        requires
            self.wf(),
        ensures
            line_idx >= self.lines@.len() ==> r is None,
            line_idx < self.lines@.len() ==> r == Some(
                wrap_end_from(self.lines@[line_idx as int], byte_idx_in_line as int, 1) as usize,
            ),
    {
        if line_idx >= self.lines.len() {
            return None;
        }
        let l = &self.lines[line_idx];
        proof {
            assert(self.lines@[line_idx as int].wf(self.wrap_width));
            lemma_row_starts_props(*l, self.wrap_width);
        }
        let rows = l.row_starts.len();
        let mut k: usize = 1;
        loop
            invariant
                1 <= k <= rows,
                wrap_end_from(*l, byte_idx_in_line as int, k as int) == wrap_end_from(
                    *l,
                    byte_idx_in_line as int,
                    1,
                ),
            decreases rows - k,
        {
            if k >= rows {
                return Some(l.len_bytes);
            }
            let rs = l.row_starts[k];
            let boundary = l.char_bytes[rs];
            if boundary > byte_idx_in_line {
                return Some(boundary);
            }
            k = k + 1;
        }
    }

    /// Line-local pixel position of the wrap boundary that ends the
    /// visual segment holding `byte_idx_in_line`.
    pub fn wrapped_line_end_point(&self, line_idx: usize, byte_idx_in_line: usize) -> (r: Option<
        (u64, u64),
    >)
        requires
            self.wf(),
        ensures
            line_idx >= self.lines@.len() ==> r is None,
            line_idx < self.lines@.len() ==> ({
                let l = self.lines@[line_idx as int];
                let c = char_idx_for_byte_from(
                    l,
                    wrap_end_from(l, byte_idx_in_line as int, 1),
                    0,
                );
                let k = row_of(l, c);
                r == Some(
                    (
                        sum_widths(l.widths@, l.row_starts@[k] as int, c) as u64,
                        (k * self.line_height) as u64,
                    ),
                )
            }),
    {
        let end_idx = match self.wrapped_line_end_idx(line_idx, byte_idx_in_line) {
            None => {
                return None;
            },
            Some(e) => e,
        };
        let l = &self.lines[line_idx];
        proof {
            assert(self.lines@[line_idx as int].wf(self.wrap_width));
        }
        let c = char_idx_for_byte(l, end_idx);
        proof {
            lemma_char_idx_for_byte_bounds(*l, end_idx as int, 0);
        }
        let (x, y) = self.position_for_char_idx_in_line(c, line_idx);
        let base = self.height_till_line_idx(line_idx);
        proof {
            self.lemma_height_fits(line_idx as int);
            assert(self.lines@[line_idx as int].wf(self.wrap_width));
            lemma_row_starts_props(self.lines@[line_idx as int], self.wrap_width);
            let ll = self.lines@[line_idx as int];
            let cc = char_idx_for_byte_from(ll, wrap_end_from(ll, byte_idx_in_line as int, 1), 0);
            lemma_wrap_end_bounds(ll, byte_idx_in_line as int, 1, self.wrap_width);
            assert(end_idx as int == wrap_end_from(ll, byte_idx_in_line as int, 1));
            lemma_char_idx_for_byte_bounds(ll, wrap_end_from(ll, byte_idx_in_line as int, 1), 0);
            lemma_row_of_from_props(ll, cc, 0);
            vstd::arithmetic::mul::lemma_mul_inequality(
                0,
                row_of(ll, cc),
                self.line_height as int,
            );
        }
        Some((x, y - base))
    }

    /// Widest visual row of the layout.
    #[verifier::loop_isolation(false)]
    pub fn width(&self) -> (r: u64)
        requires
            self.wf(),
        ensures
            r == width_from(self.lines@, 0),
            r <= (MAX_LAYOUT_CHARS as int) * (MAX_ADVANCE as int),
    {
        let mut best: u64 = 0;
        let mut i: usize = 0;
        proof {
            lemma_width_from_nonneg(self.lines@, 0, self.wrap_width);
        }
        loop
            invariant
                0 <= i <= self.lines@.len(),
                0 <= best <= (MAX_LAYOUT_CHARS as int) * (MAX_ADVANCE as int),
                ({
                    let rest = width_from(self.lines@, i as int);
                    width_from(self.lines@, 0) == if best >= rest {
                        best as int
                    } else {
                        rest
                    }
                }),
            decreases self.lines@.len() - i,
        {
            if i >= self.lines.len() {
                return best;
            }
            proof {
                lemma_width_from_nonneg(self.lines@, i + 1, self.wrap_width);
            }
            let lw = self.line_width_exec(i);
            if lw > best {
                best = lw;
            }
            i = i + 1;
        }
    }

    /// Widest visual row of line `line_idx`.
    #[verifier::loop_isolation(false)]
    fn line_width_exec(&self, line_idx: usize) -> (r: u64)
        requires
            self.wf(),
            line_idx < self.lines@.len(),
        ensures
            r == line_width_from(self.lines@[line_idx as int], 0),
            0 <= r <= (MAX_LAYOUT_CHARS as int) * (MAX_ADVANCE as int),
    {
        let l = &self.lines[line_idx];
        proof {
            assert(self.lines@[line_idx as int].wf(self.wrap_width));
            lemma_row_starts_props(*l, self.wrap_width);
            lemma_line_width_nonneg(*l, 0);
        }
        let rows = l.row_starts.len();
        let mut best: u64 = 0;
        let mut k: usize = 0;
        loop
            invariant
                0 <= k <= rows,
                0 <= best <= (MAX_LAYOUT_CHARS as int) * (MAX_ADVANCE as int),
                ({
                    let rest = line_width_from(*l, k as int);
                    line_width_from(*l, 0) == if best >= rest {
                        best as int
                    } else {
                        rest
                    }
                }),
            decreases rows - k,
        {
            if k >= rows {
                return best;
            }
            proof {
                lemma_line_width_nonneg(*l, k + 1);
            }
            let rs = l.row_starts[k];
            let re = if k + 1 < rows {
                l.row_starts[k + 1]
            } else {
                l.chars.len()
            };
            proof {
                assert(re as int == l.row_end(k as int));
                lemma_sum_widths_bound(l.widths@, rs as int, re as int);
                vstd::arithmetic::mul::lemma_mul_inequality(
                    re - rs,
                    MAX_LAYOUT_CHARS as int,
                    MAX_ADVANCE as int,
                );
            }
            let rw = sum_widths_exec(&l.widths, rs, re);
            if rw > best {
                best = rw;
            }
            k = k + 1;
        }
    }
}

/// Layout-wide widths are never negative.
pub proof fn lemma_width_from_nonneg(lines: Seq<LineLayout>, i: int, wrap: Option<u64>)
    requires
        0 <= i <= lines.len(),
        forall|k: int| 0 <= k < lines.len() ==> #[trigger] lines[k].wf(wrap),
    ensures
        0 <= width_from(lines, i),
    decreases lines.len() - i,
{
    if i < lines.len() {
        lemma_width_from_nonneg(lines, i + 1, wrap);
        lemma_row_starts_props(lines[i], wrap);
        lemma_line_width_nonneg(lines[i], 0);
    }
}

/// A point far above the text misses every line.
pub proof fn lemma_line_for_y_stays_none(lines: Seq<LineLayout>, lh: int, i: int, y: int)
    requires
        0 <= i <= lines.len(),
        y < 0,
        forall|k: int| 0 <= k < lines.len() ==> #[trigger] lines[k].rows() >= 0,
        lh >= 1,
    ensures
        line_for_y_from(lines, lh, i, y) is None,
    decreases lines.len() - i,
{
    if i < lines.len() {
        vstd::arithmetic::mul::lemma_mul_inequality(0, lines[i].rows(), lh);
        lemma_line_for_y_stays_none(lines, lh, i + 1, y - lines[i].rows() * lh);
    }
}

/// A wrap end is a byte offset within the line.
pub proof fn lemma_wrap_end_bounds(l: LineLayout, b: int, k: int, wrap: Option<u64>)
    requires
        l.wf(wrap),
        1 <= k <= l.rows(),
        forall|j: int| 1 <= j < l.rows() ==> 0 < #[trigger] l.row_starts@[j] < l.chars@.len(),
    ensures
        0 <= wrap_end_from(l, b, k) <= l.len_bytes,
    decreases l.rows() - k,
{
    if k < l.rows() {
        let rs = l.row_starts@[k] as int;
        crate::text::lemma_byte_offset_monotone(l.chars@, rs, l.chars@.len() as int);
        assert(l.char_bytes@[rs] == byte_offset_of(l.chars@, rs));
        crate::text::lemma_byte_offset_monotone(l.chars@, 0, rs);
        assert(byte_offset_of(l.chars@, 0) == 0) by {
            assert(l.chars@.take(0) =~= Seq::<char>::empty());
            assert(encode_utf8(Seq::<char>::empty()) =~= Seq::<u8>::empty());
        }
        lemma_wrap_end_bounds(l, b, k + 1, wrap);
    }
}

/// Byte offsets grow strictly across any span of characters.
pub proof fn lemma_byte_offset_strict_range(s: Seq<char>, i: int, j: int)
    requires
        0 <= i < j <= s.len(),
    ensures
        byte_offset_of(s, i) < byte_offset_of(s, j),
{
    lemma_byte_offset_strict(s, i);
    crate::text::lemma_byte_offset_monotone(s, i + 1, j);
}

/// The byte scan cannot stop before `j` while every char before
/// `j` starts below `b`.
pub proof fn lemma_char_idx_for_byte_lower(l: LineLayout, b: int, c0: int, j: int)
    requires
        0 <= c0 <= j <= l.chars@.len(),
        l.char_bytes@.len() == l.chars@.len(),
        forall|i: int| c0 <= i < j ==> (#[trigger] l.char_bytes@[i]) < b,
    ensures
        char_idx_for_byte_from(l, b, c0) >= j,
    decreases j - c0,
{
    if c0 < j {
        assert(l.char_bytes@[c0] < b);
        assert(char_idx_for_byte_from(l, b, c0) == char_idx_for_byte_from(l, b, c0 + 1));
        lemma_char_idx_for_byte_lower(l, b, c0 + 1, j);
    } else {
        lemma_char_idx_for_byte_bounds(l, b, c0);
    }
}

/// The byte scan stops at or before any char whose offset already
/// reaches `b`.
pub proof fn lemma_char_idx_for_byte_upper(l: LineLayout, b: int, c0: int, j: int)
    requires
        0 <= c0 <= j <= l.chars@.len(),
        l.char_bytes@.len() == l.chars@.len(),
        j < l.chars@.len() ==> (l.char_bytes@[j]) >= b,
    ensures
        char_idx_for_byte_from(l, b, c0) <= j,
    decreases j - c0,
{
    lemma_char_idx_for_byte_bounds(l, b, c0);
    if c0 < j {
        if l.char_bytes@[c0] < b {
            lemma_char_idx_for_byte_upper(l, b, c0 + 1, j);
        } else {
            assert(char_idx_for_byte_from(l, b, c0) == c0);
        }
    }
}

/// The found character index never precedes the scan start nor
/// exceeds the line.
pub proof fn lemma_char_idx_for_byte_bounds(l: LineLayout, b: int, c: int)
    requires
        0 <= c <= l.chars@.len(),
    ensures
        c <= char_idx_for_byte_from(l, b, c) <= l.chars@.len(),
    decreases l.chars@.len() - c,
{
    if c < l.chars@.len() && l.char_bytes@[c] < b {
        lemma_char_idx_for_byte_bounds(l, b, c + 1);
    }
}

/// The first character of the line at or after byte offset `b`,
/// scanning from char `c`.
pub open spec fn char_idx_for_byte_from(l: LineLayout, b: int, c: int) -> int
    decreases l.chars@.len() - c,
    when 0 <= c <= l.chars@.len()
{
    if c >= l.chars@.len() {
        c
    } else if l.char_bytes@[c] >= b {
        c
    } else {
        char_idx_for_byte_from(l, b, c + 1)
    }
}

/// The first character of `l` at or after byte offset `b`, computed.
pub fn char_idx_for_byte(l: &LineLayout, byte_idx: usize) -> (r: usize)
    requires
        l.char_bytes@.len() == l.chars@.len() <= MAX_LAYOUT_CHARS,
    ensures
        r == char_idx_for_byte_from(*l, byte_idx as int, 0),
        r <= l.chars@.len(),
{
    let n = l.char_bytes.len();
    let mut c: usize = 0;
    while c < n && l.char_bytes[c] < byte_idx
        invariant
            0 <= c <= n == l.chars@.len(),
            n == l.char_bytes@.len(),
            char_idx_for_byte_from(*l, byte_idx as int, c as int) == char_idx_for_byte_from(
                *l,
                byte_idx as int,
                0,
            ),
        decreases n - c,
    {
        c = c + 1;
    }
    c
}

} // verus!
