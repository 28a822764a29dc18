//! The search engine: multi-pattern matching over the document's
//! UTF-8 bytes with optional ASCII case folding, and cyclic match
//! navigation. Repeating a search with an unchanged term cycles the
//! current match instead of re-scanning; changing the term or the
//! case mode rescans from scratch.

use vstd::prelude::*;
use vstd::utf8::encode_utf8;

use crate::command::CharRange;
use crate::editor::TextInput;

verus! {

/// ASCII-only case folding: upper-case letters map to lower case
/// when folding is on; every other byte is itself.
pub open spec fn ascii_fold(b: u8, ci: bool) -> u8 {
    if ci && 0x41 <= b <= 0x5A {
        (b + 0x20) as u8
    } else {
        b
    }
}

/// The term occurs at byte offset `i` of the haystack, up to ASCII
/// case folding.
pub open spec fn matches_at(term: Seq<u8>, hay: Seq<u8>, i: int, ci: bool) -> bool {
    &&& 0 <= i
    &&& i + term.len() <= hay.len()
    &&& forall|j: int|
        0 <= j < term.len() ==> ascii_fold(#[trigger] hay[i + j], ci) == ascii_fold(term[j], ci)
}

/// The non-overlapping occurrences of the term from offset `i` on,
/// scanning left to right and resuming after each match's end.
pub open spec fn match_ranges_from(term: Seq<u8>, hay: Seq<u8>, ci: bool, i: int) -> Seq<
    (usize, usize),
>
    decreases hay.len() - i,
    when 0 <= i && term.len() > 0
{
    if i + term.len() > hay.len() {
        seq![]
    } else if matches_at(term, hay, i, ci) {
        seq![((i as usize), ((i + term.len()) as usize))] + match_ranges_from(
            term,
            hay,
            ci,
            i + term.len(),
        )
    } else {
        match_ranges_from(term, hay, ci, i + 1)
    }
}

/// All matches of the term in the haystack: empty for an empty term.
pub open spec fn ac_match_ranges(term: Seq<u8>, hay: Seq<u8>, ci: bool) -> Seq<(usize, usize)> {
    if term.len() == 0 {
        seq![]
    } else {
        match_ranges_from(term, hay, ci, 0)
    }
}

/// Every reported range is an in-bounds, term-length byte range.
pub proof fn lemma_match_ranges_bounds(term: Seq<u8>, hay: Seq<u8>, ci: bool, i: int)
    requires
        0 <= i,
        0 < term.len(),
        hay.len() <= usize::MAX,
        term.len() <= usize::MAX,
    ensures
        forall|k: int|
            0 <= k < match_ranges_from(term, hay, ci, i).len() ==> {
                let r = #[trigger] match_ranges_from(term, hay, ci, i)[k];
                i <= r.0 && r.0 + term.len() == r.1 && r.1 <= hay.len()
            },
    decreases hay.len() - i,
{
    if i + term.len() <= hay.len() {
        if matches_at(term, hay, i, ci) {
            lemma_match_ranges_bounds(term, hay, ci, i + term.len() as int);
            let rest = match_ranges_from(term, hay, ci, i + term.len());
            let whole = match_ranges_from(term, hay, ci, i);
            assert(whole == seq![((i as usize), ((i + term.len()) as usize))] + rest);
            assert forall|k: int| 0 <= k < whole.len() implies {
                let r = #[trigger] whole[k];
                i <= r.0 && r.0 + term.len() == r.1 && r.1 <= hay.len()
            } by {
                if k == 0 {
                    assert(whole[0] == ((i as usize), ((i + term.len()) as usize)));
                } else {
                    assert(whole[k] == rest[k - 1]);
                }
            }
        } else {
            lemma_match_ranges_bounds(term, hay, ci, i + 1);
            let rest = match_ranges_from(term, hay, ci, i + 1);
            let whole = match_ranges_from(term, hay, ci, i);
            assert(whole == rest);
        }
    }
}

/// Relies on aho_corasick::AhoCorasickBuilder::build and
/// AhoCorasick::find_iter with the default (standard) match kind
/// and a single pattern: the iterator yields the non-overlapping
/// occurrences of the pattern, leftmost first, resuming after each
/// match's end, comparing ASCII-case-insensitively when configured.
/// Building cannot fail for one pattern of this bounded length:
/// the automaton's transition ids are capped near 2^31, and with
/// case folding on, each ASCII-letter byte of the pattern costs two
/// transitions, so a pattern of at most 2^29 bytes stays well under
/// the cap either way.
#[verifier::external_body]
fn ac_find_ranges(term: &Vec<u8>, haystack: &Vec<u8>, case_insensitive: bool) -> (r: Vec<
    (usize, usize),
>)
    requires
        0 < term@.len() <= 0x2000_0000,
    ensures
        r@ == ac_match_ranges(term@, haystack@, case_insensitive),
{
    let ac = aho_corasick::AhoCorasickBuilder::new().ascii_case_insensitive(case_insensitive)
        .build([term.as_slice()])
        .unwrap();
    ac.find_iter(haystack.as_slice()).map(|m| (m.start(), m.end())).collect()
}

/// The next value of the cycling index over `n` matches.
pub open spec fn advance_idx(i: int, n: int) -> int {
    if n > 0 && i < n - 1 {
        i + 1
    } else {
        0
    }
}

/// `advance_idx` applied `k` times to `i`.
pub open spec fn advance_k(i: int, n: int, k: int) -> int
    decreases k,
    when k >= 0
{
    if k <= 0 {
        i
    } else {
        advance_idx(advance_k(i, n, k - 1), n)
    }
}

/// Cycling wraps: from any match index, advancing once per match
/// returns to the same index; in particular, after a fresh search
/// selected the first match, `n` further repeats come back to it.
pub proof fn lemma_search_cycles(n: int)
    requires
        n >= 1,
    ensures
        advance_k(0, n, n) == 0,
{
    lemma_advance_below(n, n - 1);
    assert(advance_k(0, n, n) == advance_idx(advance_k(0, n, n - 1), n));
}

/// Before a full lap, `k` advances from 0 reach exactly `k`.
proof fn lemma_advance_below(n: int, k: int)
    requires
        n >= 1,
        0 <= k <= n - 1,
    ensures
        advance_k(0, n, k) == k,
    decreases k,
{
    if k > 0 {
        lemma_advance_below(n, k - 1);
    }
}

/// Two byte strings hold the same bytes.
fn bytes_eq(a: &Vec<u8>, b: &Vec<u8>) -> (r: bool)
    ensures
        r == (a@ == b@),
{
    if a.len() != b.len() {
        proof {
            assert(a@ != b@);
        }
        return false;
    }
    let n = a.len();
    let mut i: usize = 0;
    while i < n
        invariant
            i <= n == a@.len() == b@.len(),
            forall|j: int| 0 <= j < i ==> a@[j] == b@[j],
        decreases n - i,
    {
        if a[i] != b[i] {
            return false;
        }
        i = i + 1;
    }
    proof {
        assert(a@ =~= b@);
    }
    true
}

/// Search state: the last term scanned, its matches, and the index
/// of the match currently promoted to the selection.
pub struct SearchView {
    /// Whether the search panel is open.
    pub show: bool,
    pub last_term: Option<Vec<u8>>,
    pub last_highlight_idx: Option<usize>,
    pub last_matches: Option<Vec<(usize, usize)>>,
    pub case_insensitive: bool,
}

impl SearchView {
    /// Whether a repeated search for `term` would cycle rather than
    /// rescan.
    pub open spec fn same_term(&self, term: Seq<u8>) -> bool {
        &&& self.last_term is Some
        &&& self.last_term.unwrap()@ == term
        &&& self.last_highlight_idx is Some
        &&& self.last_matches is Some
    }

    pub fn new() -> (r: Self)
        ensures
            !r.show,
            r.last_term is None,
            r.last_highlight_idx is None,
            r.last_matches is None,
            r.case_insensitive,
    {
        SearchView {
            show: false,
            last_term: None,
            last_highlight_idx: None,
            last_matches: None,
            case_insensitive: true,
        }
    }

    /// Opens the panel.
    pub fn show(&mut self)
        ensures
            *final(self) == (SearchView { show: true, ..*old(self) }),
    {
        self.show = true;
    }

    /// Closes the panel and drops the emphasis in the target.
    pub fn dismiss(&mut self, target: &mut TextInput)
        ensures
            !final(self).show,
            final(target).highlights@.len() == 0,
            final(target)@ == old(target)@,
            final(target).wf() == old(target).wf(),
    {
        self.show = false;
        target.clear_highlights();
    }

    /// Forgets the previous scan, so the next search starts fresh.
    pub fn reset(&mut self)
        ensures
            *final(self) == (SearchView {
                last_term: None,
                last_highlight_idx: None,
                last_matches: None,
                ..*old(self)
            }),
    {
        self.last_term = None;
        self.last_highlight_idx = None;
        self.last_matches = None;
    }

    /// Runs or repeats a search. An empty term does nothing. An
    /// unchanged term keeps the match set and only advances the
    /// cycling index, wrapping past the last match; the newly
    /// current match is highlighted and promoted to the selection.
    /// A changed term scans the whole content and selects the first
    /// match, if any.
    pub fn search(&mut self, term: &Vec<u8>, target: &mut TextInput)
        requires
            old(target).wf(),
            old(target).blink_manager.epoch < usize::MAX - 2,
            old(target).scroll_manager.calc_epoch < usize::MAX - 2,
            term@.len() <= 0x2000_0000,
        ensures
            final(target).wf(),
            final(target)@ == old(target)@,
            crate::editor::epoch_deltas(*old(target), *final(target), 1, 1, 0, 0),
            final(self).case_insensitive == old(self).case_insensitive,
            final(self).show == old(self).show,
            term@.len() == 0 ==> *final(self) == *old(self) && *final(target) == *old(target),
            term@.len() > 0 && old(self).same_term(term@) ==> ({
                let m = old(self).last_matches.unwrap()@;
                let n = m.len() as int;
                let ni = advance_idx(old(self).last_highlight_idx.unwrap() as int, n);
                &&& final(self).last_matches == old(self).last_matches
                &&& final(self).last_term == old(self).last_term
                &&& final(self).last_highlight_idx == Some(ni as usize)
                &&& n == 0 ==> *final(target) == *old(target)
                &&& n > 0 ==> ({
                    &&& final(target).highlights@.len() == n
                    &&& (forall|i: int|
                        0 <= i < n ==> (#[trigger] final(target).highlights@[i]) == (CharRange {
                            start: m[i].0,
                            end: m[i].1,
                        }))
                    &&& (m[ni].0 <= m[ni].1 <= encode_utf8(old(target)@).len()
                        ==> crate::editor::byte_selection(
                        old(target)@,
                        final(target).selected_range,
                        m[ni].0 as int,
                        m[ni].1 as int,
                    ))
                    &&& (!(m[ni].0 <= m[ni].1 <= encode_utf8(old(target)@).len())
                        ==> final(target).selected_range == old(target).selected_range)
                })
            }),
            term@.len() > 0 && !old(self).same_term(term@) ==> ({
                let m = ac_match_ranges(term@, encode_utf8(old(target)@), old(self).case_insensitive);
                &&& final(self).last_term is Some && final(self).last_term.unwrap()@ == term@
                &&& final(self).last_highlight_idx == Some(0usize)
                &&& final(self).last_matches is Some
                &&& final(self).last_matches.unwrap()@ == m
                &&& final(target).highlights@.len() == m.len()
                &&& (forall|i: int|
                    0 <= i < m.len() ==> (#[trigger] final(target).highlights@[i]) == (CharRange {
                        start: m[i].0,
                        end: m[i].1,
                    }))
                &&& m.len() > 0 ==> crate::editor::byte_selection(
                    old(target)@,
                    final(target).selected_range,
                    m[0].0 as int,
                    m[0].1 as int,
                )
                &&& m.len() == 0 ==> final(target).selected_range == old(target).selected_range
            }),
    {
        if term.len() == 0 {
            return ;
        }

        let is_same = match &self.last_term {
            Some(t) => bytes_eq(t, term) && self.last_highlight_idx.is_some()
                && self.last_matches.is_some(),
            None => false,
        };

        if is_same {
            let last_idx = match self.last_highlight_idx {
                Some(i) => i,
                None => {
                    return ;
                },
            };
            let matches = match &self.last_matches {
                Some(m) => m,
                None => {
                    return ;
                },
            };
            let n = matches.len();
            let new_idx: usize = if n > 0 && last_idx < n - 1 {
                last_idx + 1
            } else {
                0
            };
            self.last_highlight_idx = Some(new_idx);
            if new_idx < n {
                let (ms, me) = matches[new_idx];
                let ranges = ranges_to_char_ranges(matches);
                target.highlight(ranges);
                let total = target.content.len_bytes();
                if ms <= me && me <= total {
                    target.update_selected_range_bytes(ms, me);
                }
            }
            return ;
        }

        let haystack = content_bytes(target);
        let hay_len = haystack.len();
        let term_len = term.len();
        proof {
            assert(haystack@.len() == hay_len && term@.len() == term_len);
        }
        let matches = ac_find_ranges(term, &haystack, self.case_insensitive);
        proof {
            lemma_match_ranges_bounds(term@, haystack@, self.case_insensitive, 0);
        }

        self.last_term = Some(clone_bytes(term));
        self.last_highlight_idx = Some(0);
        let ranges = ranges_to_char_ranges(&matches);
        target.highlight(ranges);
        if matches.len() > 0 {
            let (ms, me) = matches[0];
            let total = target.content.len_bytes();
            if ms <= me && me <= total {
                target.update_selected_range_bytes(ms, me);
            }
        }
        self.last_matches = Some(matches);
    }

    /// Flips case sensitivity and re-runs the search from scratch.
    pub fn toggle_case(&mut self, term: &Vec<u8>, target: &mut TextInput)
        requires
            old(target).wf(),
            old(target).blink_manager.epoch < usize::MAX - 2,
            old(target).scroll_manager.calc_epoch < usize::MAX - 2,
            term@.len() <= 0x2000_0000,
        ensures
            final(target).wf(),
            final(target)@ == old(target)@,
            crate::editor::epoch_deltas(*old(target), *final(target), 1, 1, 0, 0),
            final(self).case_insensitive == !old(self).case_insensitive,
            term@.len() > 0 ==> {
                &&& final(self).last_matches is Some
                &&& final(self).last_matches.unwrap()@ == ac_match_ranges(
                    term@,
                    encode_utf8(old(target)@),
                    !old(self).case_insensitive,
                )
                &&& final(self).last_highlight_idx == Some(0usize)
            },
    {
        self.case_insensitive = !self.case_insensitive;
        self.reset();
        self.search(term, target);
    }
}

/// The document's bytes, for scanning.
fn content_bytes(target: &TextInput) -> (r: Vec<u8>)
    ensures
        r@ == encode_utf8(target@),
{
    let n = target.content.len_chars();
    let s = target.content.slice_string(0, n);
    proof {
        assert(target@.subrange(0, target@.len() as int) =~= target@);
    }
    let bs = s.as_str().as_bytes();
    let m = bs.len();
    let mut out: Vec<u8> = Vec::new();
    let mut i: usize = 0;
    while i < m
        invariant
            i <= m == bs@.len(),
            bs@ == encode_utf8(target@),
            out@.len() == i,
            forall|j: int| 0 <= j < i ==> #[trigger] out@[j] == bs@[j],
        decreases m - i,
    {
        out.push(bs[i]);
        i = i + 1;
    }
    proof {
        assert(out@ =~= bs@);
    }
    out
}

/// Byte pairs as `CharRange` values for the highlight list.
fn ranges_to_char_ranges(ranges: &Vec<(usize, usize)>) -> (r: Vec<CharRange>)
    ensures
        r@.len() == ranges@.len(),
        forall|i: int|
            0 <= i < ranges@.len() ==> #[trigger] r@[i] == (CharRange {
                start: ranges@[i].0,
                end: ranges@[i].1,
            }),
{
    let mut out: Vec<CharRange> = Vec::new();
    let n = ranges.len();
    let mut i: usize = 0;
    while i < n
        invariant
            i <= n == ranges@.len(),
            out@.len() == i,
            forall|j: int|
                0 <= j < i ==> #[trigger] out@[j] == (CharRange {
                    start: ranges@[j].0,
                    end: ranges@[j].1,
                }),
        decreases n - i,
    {
        let (s, e) = ranges[i];
        out.push(CharRange::new(s, e));
        i = i + 1;
    }
    out
}

/// A copy of a byte string.
fn clone_bytes(v: &Vec<u8>) -> (r: Vec<u8>)
    ensures
        r@ == v@,
{
    let mut out: Vec<u8> = Vec::new();
    let n = v.len();
    let mut i: usize = 0;
    while i < n
        invariant
            i <= n == v@.len(),
            out@.len() == i,
            forall|j: int| 0 <= j < i ==> #[trigger] out@[j] == v@[j],
        decreases n - i,
    {
        out.push(v[i]);
        i = i + 1;
    }
    proof {
        assert(out@ =~= v@);
    }
    out
}

} // verus!
