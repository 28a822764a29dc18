//! The mathematical model of document text: a sequence of characters,
//! with byte offsets given by its UTF-8 encoding and line indices
//! given by counting line feeds.

use vstd::prelude::*;
use vstd::utf8::encode_utf8;

verus! {

/// Number of bytes taken by the first `k` characters of `s` when
/// encoded as UTF-8.
pub open spec fn byte_offset_of(s: Seq<char>, k: int) -> int {
    encode_utf8(s.take(k)).len() as int
}

/// Number of line feeds among the first `k` characters of `s`: the
/// line index of character offset `k`.
pub open spec fn newlines_before(s: Seq<char>, k: int) -> int {
    s.take(k).filter(|c: char| c == '\n').len() as int
}

/// Total number of line feeds in `s`.
pub open spec fn newline_count(s: Seq<char>) -> int {
    s.filter(|c: char| c == '\n').len() as int
}

/// Character offset of the start of line `l`: 0 for the first line,
/// one past the `l`-th line feed otherwise.
pub open spec fn is_line_start(s: Seq<char>, l: int, k: int) -> bool {
    &&& 0 <= k <= s.len()
    &&& newlines_before(s, k) == l
    &&& (k > 0 ==> s[k - 1] == '\n')
    &&& (l == 0 ==> k == 0)
}

/// `s` with `text` inserted at character offset `p`.
pub open spec fn insert_text(s: Seq<char>, p: int, text: Seq<char>) -> Seq<char> {
    s.take(p) + text + s.skip(p)
}

/// `s` with the characters of `[p, p + n)` removed.
pub open spec fn remove_text(s: Seq<char>, p: int, n: int) -> Seq<char> {
    s.take(p) + s.skip(p + n)
}

/// Removing what was inserted restores the original sequence.
pub proof fn lemma_insert_then_remove(s: Seq<char>, p: int, text: Seq<char>)
    requires
        0 <= p <= s.len(),
    ensures
        remove_text(insert_text(s, p, text), p, text.len() as int) == s,
{
    let ins = insert_text(s, p, text);
    assert(ins.take(p) =~= s.take(p));
    assert(ins.skip(p + text.len()) =~= s.skip(p));
    assert(remove_text(ins, p, text.len() as int) =~= s);
}

/// Re-inserting what was removed restores the original sequence,
/// provided the removed text is what stood there.
pub proof fn lemma_remove_then_insert(s: Seq<char>, p: int, n: int)
    requires
        0 <= p,
        0 <= n,
        p + n <= s.len(),
    ensures
        insert_text(remove_text(s, p, n), p, s.subrange(p, p + n)) == s,
{
    let rem = remove_text(s, p, n);
    assert(rem.take(p) =~= s.take(p));
    assert(rem.skip(p) =~= s.skip(p + n));
    assert(insert_text(rem, p, s.subrange(p, p + n)) =~= s);
}

/// The inserted text is found at the position it was inserted at.
pub proof fn lemma_insert_text_subrange(s: Seq<char>, p: int, text: Seq<char>)
    requires
        0 <= p <= s.len(),
    ensures
        insert_text(s, p, text).subrange(p, p + text.len()) == text,
        insert_text(s, p, text).len() == s.len() + text.len(),
{
    assert(insert_text(s, p, text).subrange(p, p + text.len()) =~= text);
}

/// UTF-8 encoding distributes over concatenation.
pub proof fn lemma_encode_utf8_concat(a: Seq<char>, b: Seq<char>)
    ensures
        encode_utf8(a + b) == encode_utf8(a) + encode_utf8(b),
    decreases a.len(),
{
    if a.len() == 0 {
        assert(a + b =~= b);
        assert(encode_utf8(a) + encode_utf8(b) =~= encode_utf8(b));
    } else {
        assert((a + b).drop_first() =~= a.drop_first() + b);
        lemma_encode_utf8_concat(a.drop_first(), b);
        assert(encode_utf8(a + b) =~= encode_utf8(a) + encode_utf8(b));
    }
}

/// Byte offsets are monotone in the character offset.
pub proof fn lemma_byte_offset_monotone(s: Seq<char>, i: int, j: int)
    requires
        0 <= i <= j <= s.len(),
    ensures
        byte_offset_of(s, i) <= byte_offset_of(s, j),
{
    assert(s.take(j) =~= s.take(i) + s.take(j).skip(i));
    lemma_encode_utf8_concat(s.take(i), s.take(j).skip(i));
}

/// Counting line feeds distributes over concatenation.
pub proof fn lemma_filter_concat(a: Seq<char>, b: Seq<char>)
    ensures
        (a + b).filter(|c: char| c == '\n') == a.filter(|c: char| c == '\n') + b.filter(
            |c: char| c == '\n',
        ),
{
    Seq::filter_distributes_over_add(a, b, |c: char| c == '\n');
}

/// Line indices are monotone in the character offset.
pub proof fn lemma_newlines_before_monotone(s: Seq<char>, i: int, j: int)
    requires
        0 <= i <= j <= s.len(),
    ensures
        newlines_before(s, i) <= newlines_before(s, j),
        newlines_before(s, j) <= newlines_before(s, i) + (j - i),
{
    assert(s.take(j) =~= s.take(i) + s.take(j).skip(i));
    lemma_filter_concat(s.take(i), s.take(j).skip(i));
    lemma_filter_length_bound(s.take(j).skip(i));
}

/// One more character extends the line-feed count by one exactly
/// when that character is a line feed.
pub proof fn lemma_newlines_before_step(s: Seq<char>, i: int)
    requires
        0 <= i < s.len(),
    ensures
        newlines_before(s, i + 1) == newlines_before(s, i) + if s[i] == '\n' {
            1int
        } else {
            0int
        },
{
    reveal(Seq::filter);
    assert(s.take(i + 1).drop_last() =~= s.take(i));
    assert(s.take(i + 1).last() == s[i]);
}

/// A filtered sequence is no longer than the original.
pub proof fn lemma_filter_length_bound(s: Seq<char>)
    ensures
        s.filter(|c: char| c == '\n').len() <= s.len(),
    decreases s.len(),
{
    reveal(Seq::filter);
    if s.len() > 0 {
        lemma_filter_length_bound(s.drop_last());
    }
}

/// A line's start does not lie beyond any offset on that line.
pub proof fn lemma_line_start_le(s: Seq<char>, l: int, k: int, c: int)
    requires
        is_line_start(s, l, k),
        0 <= c <= s.len(),
        newlines_before(s, c) == l,
    ensures
        k <= c,
{
    if k > c {
        assert(k > 0);
        assert(s[k - 1] == '\n');
        lemma_newlines_before_step(s, k - 1);
        lemma_newlines_before_monotone(s, c, k - 1);
    }
}

/// Two offsets that both start line `l` are the same offset.
pub proof fn lemma_line_start_unique(s: Seq<char>, l: int, k1: int, k2: int)
    requires
        is_line_start(s, l, k1),
        is_line_start(s, l, k2),
    ensures
        k1 == k2,
{
    lemma_line_start_le(s, l, k1, k2);
    lemma_line_start_le(s, l, k2, k1);
}

/// The character offset at which line `l` starts, where one exists.
pub open spec fn line_start_at(s: Seq<char>, l: int) -> int {
    choose|k: int| is_line_start(s, l, k)
}

/// Character offset at which line `l` ends: its line feed, or the
/// end of the text for the last line.
pub open spec fn is_line_end(s: Seq<char>, l: int, k: int) -> bool {
    &&& 0 <= k <= s.len()
    &&& newlines_before(s, k) == l
    &&& (k < s.len() ==> s[k] == '\n')
}

/// Two offsets that both end line `l` are the same offset.
pub proof fn lemma_line_end_unique(s: Seq<char>, l: int, k1: int, k2: int)
    requires
        is_line_end(s, l, k1),
        is_line_end(s, l, k2),
    ensures
        k1 == k2,
{
    if k1 < k2 {
        lemma_newlines_before_step(s, k1);
        lemma_newlines_before_monotone(s, k1 + 1, k2);
    }
    if k2 < k1 {
        lemma_newlines_before_step(s, k2);
        lemma_newlines_before_monotone(s, k2 + 1, k1);
    }
}

/// The character offset at which line `l` ends, where one exists.
pub open spec fn line_end_at(s: Seq<char>, l: int) -> int {
    choose|k: int| is_line_end(s, l, k)
}

/// A character offset owns a byte offset when the byte falls inside
/// that character's encoding (or both sit at the very end).
pub open spec fn char_owns_byte(s: Seq<char>, k: int, byte: int) -> bool {
    &&& 0 <= k <= s.len()
    &&& byte_offset_of(s, k) <= byte
    &&& (k < s.len() ==> byte < byte_offset_of(s, k + 1))
    &&& (byte >= byte_offset_of(s, s.len() as int) ==> k == s.len())
}

/// Each byte offset has at most one owning character.
pub proof fn lemma_char_owns_byte_unique(s: Seq<char>, byte: int, k1: int, k2: int)
    requires
        char_owns_byte(s, k1, byte),
        char_owns_byte(s, k2, byte),
    ensures
        k1 == k2,
{
    if k1 < k2 {
        lemma_byte_offset_monotone(s, k1 + 1, k2);
    }
    if k2 < k1 {
        lemma_byte_offset_monotone(s, k2 + 1, k1);
    }
}

/// The character that owns byte offset `byte`, where one exists.
pub open spec fn char_at_byte(s: Seq<char>, byte: int) -> int {
    choose|k: int| char_owns_byte(s, k, byte)
}

/// UTF-16 code units taken by one character: one for the basic
/// plane, two (a surrogate pair) beyond it.
pub open spec fn char_utf16_len(c: char) -> int {
    if (c as u32) < 0x10000 {
        1
    } else {
        2
    }
}

/// UTF-16 code units taken by the first `k` characters of `s`.
pub open spec fn utf16_offset_of(s: Seq<char>, k: int) -> int
    decreases k,
{
    if k <= 0 {
        0
    } else {
        utf16_offset_of(s, k - 1) + if k <= s.len() {
            char_utf16_len(s[k - 1])
        } else {
            0int
        }
    }
}

/// UTF-16 offsets are monotone in the character offset.
pub proof fn lemma_utf16_offset_monotone(s: Seq<char>, i: int, j: int)
    requires
        0 <= i <= j,
    ensures
        utf16_offset_of(s, i) <= utf16_offset_of(s, j),
    decreases j - i,
{
    if i < j {
        lemma_utf16_offset_monotone(s, i, j - 1);
    }
}

/// A character offset owns a UTF-16 offset when the code unit falls
/// inside that character's encoding (or both sit at the very end).
pub open spec fn char_owns_utf16(s: Seq<char>, k: int, cu: int) -> bool {
    &&& 0 <= k <= s.len()
    &&& utf16_offset_of(s, k) <= cu
    &&& (k < s.len() ==> cu < utf16_offset_of(s, k + 1))
    &&& (cu >= utf16_offset_of(s, s.len() as int) ==> k == s.len())
}

/// The line index of an offset never exceeds the total line-feed count.
pub proof fn lemma_newlines_before_le_count(s: Seq<char>, k: int)
    requires
        0 <= k <= s.len(),
    ensures
        newlines_before(s, k) <= newline_count(s),
        newlines_before(s, s.len() as int) == newline_count(s),
{
    assert(s.take(s.len() as int) =~= s);
    lemma_newlines_before_monotone(s, k, s.len() as int);
}

} // verus!
