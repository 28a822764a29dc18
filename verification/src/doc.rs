//! The document buffer: UTF-8 text held in a `ropey::Rope`, with
//! O(log n) conversions among byte offsets, character offsets and
//! line indices.
//!
//! The rope's contents are modelled as a `Seq<char>`; byte offsets
//! are those of the UTF-8 encoding (`vstd::utf8::encode_utf8`), and
//! line indices count line feeds, which is how ropey counts lines
//! when built with only the line-feed line-break set.

use vstd::prelude::*;
use vstd::utf8::encode_utf8;

use crate::text::{
    byte_offset_of, char_at_byte, char_owns_byte, insert_text, is_line_end, is_line_start,
    lemma_byte_offset_monotone, lemma_char_owns_byte_unique, lemma_line_end_unique,
    lemma_line_start_unique, lemma_newlines_before_le_count, line_end_at, line_start_at,
    newline_count, newlines_before, remove_text,
};

verus! {

#[verifier::external_type_specification]
#[verifier::external_body]
pub struct ExRope(ropey::Rope);

/// The characters a rope holds, in order.
pub uninterp spec fn rope_chars(r: &ropey::Rope) -> Seq<char>;

/// Relies on ropey::Rope::new: creates an empty rope.
#[verifier::external_body]
fn rope_new() -> (r: ropey::Rope)
    ensures
        rope_chars(&r) == Seq::<char>::empty(),
{
    ropey::Rope::new()
}

/// Relies on ropey::Rope::from_str: builds a rope holding exactly
/// the characters of `text`.
#[verifier::external_body]
fn rope_from_str(text: &str) -> (r: ropey::Rope)
    ensures
        rope_chars(&r) == text@,
{
    ropey::Rope::from_str(text)
}

/// Relies on ropey::Rope::len_chars: the total number of chars.
#[verifier::external_body]
fn rope_len_chars(r: &ropey::Rope) -> (n: usize)
    ensures
        n == rope_chars(r).len(),
{
    r.len_chars()
}

/// Relies on ropey::Rope::len_bytes: the total number of bytes of
/// the UTF-8 encoding.
#[verifier::external_body]
fn rope_len_bytes(r: &ropey::Rope) -> (n: usize)
    ensures
        n == encode_utf8(rope_chars(r)).len(),
{
    r.len_bytes()
}

/// Relies on ropey::Rope::len_lines: one more than the number of
/// line breaks; with the line-feed-only line-break set, one more
/// than the number of `'\n'` chars.
#[verifier::external_body]
fn rope_len_lines(r: &ropey::Rope) -> (n: usize)
    ensures
        n == newline_count(rope_chars(r)) + 1,
{
    r.len_lines()
}

/// Relies on ropey::Rope::insert: inserts `text` at char offset
/// `char_idx`; panics if `char_idx > len_chars()`, which the
/// precondition rules out.
#[verifier::external_body]
fn rope_insert(r: &mut ropey::Rope, char_idx: usize, text: &str)
    requires
        char_idx <= rope_chars(old(r)).len(),
    ensures
        rope_chars(final(r)) == insert_text(rope_chars(old(r)), char_idx as int, text@),
{
    r.insert(char_idx, text);
}

/// Relies on ropey::Rope::remove: removes the chars of
/// `[start, end)`; panics if `start > end` or `end > len_chars()`,
/// which the precondition rules out.
#[verifier::external_body]
fn rope_remove(r: &mut ropey::Rope, start: usize, end: usize)
    requires
        start <= end <= rope_chars(old(r)).len(),
    ensures
        rope_chars(final(r)) == remove_text(
            rope_chars(old(r)),
            start as int,
            (end - start) as int,
        ),
{
    r.remove(start..end);
}

/// Relies on ropey::Rope::char: the char at offset `char_idx`;
/// panics if out of bounds, which the precondition rules out.
#[verifier::external_body]
fn rope_char(r: &ropey::Rope, char_idx: usize) -> (c: char)
    requires
        char_idx < rope_chars(r).len(),
    ensures
        c == rope_chars(r)[char_idx as int],
{
    r.char(char_idx)
}

/// Relies on ropey::Rope::char_to_byte: the byte offset of the
/// given char offset, i.e. the UTF-8 length of the chars before it.
#[verifier::external_body]
fn rope_char_to_byte(r: &ropey::Rope, char_idx: usize) -> (n: usize)
    requires
        char_idx <= rope_chars(r).len(),
    ensures
        n == byte_offset_of(rope_chars(r), char_idx as int),
{
    r.char_to_byte(char_idx)
}

/// Relies on ropey::Rope::byte_to_char: the char offset owning the
/// given byte; a byte inside a multi-byte char maps to that char's
/// offset, and the one-past-the-end byte maps to len_chars().
#[verifier::external_body]
fn rope_byte_to_char(r: &ropey::Rope, byte_idx: usize) -> (n: usize)
    requires
        byte_idx <= encode_utf8(rope_chars(r)).len(),
    ensures
        n <= rope_chars(r).len(),
        byte_offset_of(rope_chars(r), n as int) <= byte_idx,
        n < rope_chars(r).len() ==> byte_idx < byte_offset_of(rope_chars(r), n as int + 1),
        byte_idx == encode_utf8(rope_chars(r)).len() ==> n == rope_chars(r).len(),
{
    r.byte_to_char(byte_idx)
}

/// Relies on ropey::Rope::char_to_line: the number of line endings
/// before the given char offset.
#[verifier::external_body]
fn rope_char_to_line(r: &ropey::Rope, char_idx: usize) -> (n: usize)
    requires
        char_idx <= rope_chars(r).len(),
    ensures
        n == newlines_before(rope_chars(r), char_idx as int),
{
    r.char_to_line(char_idx)
}

/// Relies on ropey::Rope::line_to_char: the char offset at which
/// line `line_idx` starts; the one-past-the-end line index maps to
/// len_chars().
#[verifier::external_body]
fn rope_line_to_char(r: &ropey::Rope, line_idx: usize) -> (n: usize)
    requires
        line_idx <= newline_count(rope_chars(r)) + 1,
    ensures
        n <= rope_chars(r).len(),
        line_idx <= newline_count(rope_chars(r)) ==> crate::text::is_line_start(
            rope_chars(r),
            line_idx as int,
            n as int,
        ),
        line_idx == newline_count(rope_chars(r)) + 1 ==> n == rope_chars(r).len(),
{
    r.line_to_char(line_idx)
}

/// Relies on ropey::Rope::char_to_utf16_cu: the UTF-16 code-unit
/// offset of the given char offset — one unit per basic-plane char,
/// two per supplementary char.
#[verifier::external_body]
fn rope_char_to_utf16_cu(r: &ropey::Rope, char_idx: usize) -> (n: usize)
    requires
        char_idx <= rope_chars(r).len(),
    ensures
        n == crate::text::utf16_offset_of(rope_chars(r), char_idx as int),
{
    r.char_to_utf16_cu(char_idx)
}

/// Relies on ropey::Rope::utf16_cu_to_char: the char offset owning
/// the given UTF-16 code unit; a unit inside a surrogate pair maps
/// to that char's offset, and the one-past-the-end unit maps to
/// len_chars().
#[verifier::external_body]
fn rope_utf16_cu_to_char(r: &ropey::Rope, cu_idx: usize) -> (n: usize)
    requires
        cu_idx <= crate::text::utf16_offset_of(rope_chars(r), rope_chars(r).len() as int),
    ensures
        n <= rope_chars(r).len(),
        crate::text::utf16_offset_of(rope_chars(r), n as int) <= cu_idx,
        n < rope_chars(r).len() ==> cu_idx < crate::text::utf16_offset_of(
            rope_chars(r),
            n as int + 1,
        ),
        cu_idx == crate::text::utf16_offset_of(rope_chars(r), rope_chars(r).len() as int) ==> n
            == rope_chars(r).len(),
{
    r.utf16_cu_to_char(cu_idx)
}

/// Relies on ropey::Rope::slice and RopeSlice::to_string: the chars
/// of `[start, end)` as an owned string.
#[verifier::external_body]
fn rope_slice_string(r: &ropey::Rope, start: usize, end: usize) -> (s: String)
    requires
        start <= end <= rope_chars(r).len(),
    ensures
        s@ == rope_chars(r).subrange(start as int, end as int),
{
    r.slice(start..end).to_string()
}

/// Relies on ropey::Rope::chars and Iterator::collect: all chars of
/// the rope, in order.
#[verifier::external_body]
fn rope_chars_vec(r: &ropey::Rope) -> (v: Vec<char>)
    ensures
        v@ == rope_chars(r),
{
    r.chars().collect()
}

/// A text document: an ordered sequence of UTF-8 characters,
/// mutated only through `insert` and `remove`, with total index
/// conversions over valid offsets.
pub struct Document {
    rope: ropey::Rope,
}

impl View for Document {
    type V = Seq<char>;

    closed spec fn view(&self) -> Seq<char> {
        rope_chars(&self.rope)
    }
}

impl Document {
    /// An empty document.
    pub fn new() -> (r: Self)
        ensures
            r@ == Seq::<char>::empty(),
    {
        Document { rope: rope_new() }
    }

    /// A document holding exactly the characters of `text`.
    pub fn from_text(text: &str) -> (r: Self)
        ensures
            r@ == text@,
    {
        Document { rope: rope_from_str(text) }
    }

    pub fn len_chars(&self) -> (n: usize)
        ensures
            n == self@.len(),
    {
        rope_len_chars(&self.rope)
    }

    pub fn len_bytes(&self) -> (n: usize)
        ensures
            n == encode_utf8(self@).len(),
    {
        rope_len_bytes(&self.rope)
    }

    /// Number of lines: one more than the number of line feeds.
    pub fn len_lines(&self) -> (n: usize)
        ensures
            n == newline_count(self@) + 1,
    {
        rope_len_lines(&self.rope)
    }

    /// Inserts `text` at char offset `char_idx`.
    pub fn insert(&mut self, char_idx: usize, text: &str)
        requires
            char_idx <= old(self)@.len(),
        ensures
            final(self)@ == insert_text(old(self)@, char_idx as int, text@),
    {
        rope_insert(&mut self.rope, char_idx, text);
    }

    /// Removes the chars of `[start, end)`.
    pub fn remove(&mut self, start: usize, end: usize)
        requires
            start <= end <= old(self)@.len(),
        ensures
            final(self)@ == remove_text(old(self)@, start as int, (end - start) as int),
    {
        rope_remove(&mut self.rope, start, end);
    }

    /// The char at offset `char_idx`.
    pub fn char_at(&self, char_idx: usize) -> (c: char)
        requires
            char_idx < self@.len(),
        ensures
            c == self@[char_idx as int],
    {
        rope_char(&self.rope, char_idx)
    }

    /// Byte offset of the given char offset.
    pub fn char_to_byte(&self, char_idx: usize) -> (n: usize)
        requires
            char_idx <= self@.len(),
        ensures
            n == byte_offset_of(self@, char_idx as int),
    {
        rope_char_to_byte(&self.rope, char_idx)
    }

    /// Char offset owning the given byte offset.
    pub fn byte_to_char(&self, byte_idx: usize) -> (n: usize)
        requires
            byte_idx <= encode_utf8(self@).len(),
        ensures
            n <= self@.len(),
            byte_offset_of(self@, n as int) <= byte_idx,
            n < self@.len() ==> byte_idx < byte_offset_of(self@, n as int + 1),
            byte_idx == encode_utf8(self@).len() ==> n == self@.len(),
            char_owns_byte(self@, n as int, byte_idx as int),
            n == char_at_byte(self@, byte_idx as int),
    {
        let n = rope_byte_to_char(&self.rope, byte_idx);
        proof {
            let s = self@;
            assert(s.take(s.len() as int) =~= s);
            assert(char_owns_byte(s, n as int, byte_idx as int));
            let k = char_at_byte(s, byte_idx as int);
            assert(char_owns_byte(s, k, byte_idx as int));
            lemma_char_owns_byte_unique(s, byte_idx as int, k, n as int);
        }
        n
    }

    /// UTF-16 code-unit offset of the given char offset.
    pub fn char_to_utf16_cu(&self, char_idx: usize) -> (n: usize)
        requires
            char_idx <= self@.len(),
        ensures
            n == crate::text::utf16_offset_of(self@, char_idx as int),
    {
        rope_char_to_utf16_cu(&self.rope, char_idx)
    }

    /// Char offset owning the given UTF-16 code-unit offset.
    pub fn utf16_cu_to_char(&self, cu_idx: usize) -> (n: usize)
        requires
            cu_idx <= crate::text::utf16_offset_of(self@, self@.len() as int),
        ensures
            n <= self@.len(),
            crate::text::char_owns_utf16(self@, n as int, cu_idx as int),
    {
        rope_utf16_cu_to_char(&self.rope, cu_idx)
    }

    /// Line index of the given char offset: the number of line
    /// feeds before it.
    pub fn char_to_line(&self, char_idx: usize) -> (n: usize)
        requires
            char_idx <= self@.len(),
        ensures
            n == newlines_before(self@, char_idx as int),
            n <= newline_count(self@),
    {
        proof {
            lemma_newlines_before_le_count(self@, char_idx as int);
        }
        rope_char_to_line(&self.rope, char_idx)
    }

    /// Char offset at which line `line_idx` starts.
    pub fn line_to_char(&self, line_idx: usize) -> (n: usize)
        requires
            line_idx <= newline_count(self@),
        ensures
            is_line_start(self@, line_idx as int, n as int),
            n == line_start_at(self@, line_idx as int),
    {
        let n = rope_line_to_char(&self.rope, line_idx);
        proof {
            let s = self@;
            let k = line_start_at(s, line_idx as int);
            assert(is_line_start(s, line_idx as int, k));
            lemma_line_start_unique(s, line_idx as int, k, n as int);
        }
        n
    }

    /// Byte offset at which line `line_idx` starts.
    pub fn line_to_byte(&self, line_idx: usize) -> (n: usize)
        requires
            line_idx <= newline_count(self@),
        ensures
            exists|k: int|
                is_line_start(self@, line_idx as int, k) && n == byte_offset_of(self@, k),
            n == byte_offset_of(self@, line_start_at(self@, line_idx as int)),
    {
        let start = self.line_to_char(line_idx);
        self.char_to_byte(start)
    }

    /// Line index owning the given byte offset.
    pub fn byte_to_line(&self, byte_idx: usize) -> (n: usize)
        requires
            byte_idx <= encode_utf8(self@).len(),
        ensures
            exists|k: int|
                0 <= k <= self@.len() && byte_offset_of(self@, k) <= byte_idx && n
                    == newlines_before(self@, k),
    {
        let c = self.byte_to_char(byte_idx);
        self.char_to_line(c)
    }

    /// The chars of `[start, end)` as an owned string.
    pub fn slice_string(&self, start: usize, end: usize) -> (s: String)
        requires
            start <= end <= self@.len(),
        ensures
            s@ == self@.subrange(start as int, end as int),
    {
        rope_slice_string(&self.rope, start, end)
    }

    /// All chars of the document, in order.
    pub fn chars_vec(&self) -> (v: Vec<char>)
        ensures
            v@ == self@,
    {
        rope_chars_vec(&self.rope)
    }

    /// Char offset one past the end of line `line_idx`, before its
    /// line feed; for the last line, the end of the document.
    pub fn line_end_char(&self, line_idx: usize) -> (n: usize)
        requires
            line_idx <= newline_count(self@),
        ensures
            n <= self@.len(),
            newlines_before(self@, n as int) == line_idx,
            n < self@.len() ==> self@[n as int] == '\n',
            n == line_end_at(self@, line_idx as int),
    {
        let nl_total = self.len_lines() - 1;
        if line_idx < nl_total {
            let next_start = self.line_to_char(line_idx + 1);
            proof {
                let s = self@;
                let k = next_start as int;
                assert(k > 0 && s[k - 1] == '\n');
                assert(s.take(k).drop_last() =~= s.take(k - 1));
                reveal(Seq::filter);
                assert(s.take(k).last() == '\n');
                assert(newlines_before(s, k - 1) + 1 == newlines_before(s, k));
                assert(is_line_end(s, line_idx as int, k - 1));
                let ke = line_end_at(s, line_idx as int);
                assert(is_line_end(s, line_idx as int, ke));
                lemma_line_end_unique(s, line_idx as int, ke, k - 1);
            }
            next_start - 1
        } else {
            proof {
                lemma_newlines_before_le_count(self@, self@.len() as int);
                assert(self@.take(self@.len() as int) =~= self@);
                let s = self@;
                assert(is_line_end(s, line_idx as int, s.len() as int));
                let ke = line_end_at(s, line_idx as int);
                assert(is_line_end(s, line_idx as int, ke));
                lemma_line_end_unique(s, line_idx as int, ke, s.len() as int);
            }
            self.len_chars()
        }
    }
}

} // verus!
