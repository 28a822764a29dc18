//! The syntax subsystem: language configurations (grammar plus
//! injection and highlight queries), the incrementally re-parsed
//! host tree, injection resolution over plain capture data, the
//! capture-name-to-style table, and the construction of the style
//! run list that covers the document exactly once.
//!
//! Parsing and querying are done by the tree-sitter library behind
//! trusted wrappers; everything that reads the resulting plain data
//! is verified.

use vstd::prelude::*;

use streaming_iterator::StreamingIterator;

use crate::doc::Document;

verus! {

#[verifier::external_type_specification]
#[verifier::external_body]
pub struct ExLanguage(tree_sitter::Language);

#[verifier::external_type_specification]
#[verifier::external_body]
pub struct ExParser(tree_sitter::Parser);

#[verifier::external_type_specification]
#[verifier::external_body]
pub struct ExTree(tree_sitter::Tree);

#[verifier::external_type_specification]
#[verifier::external_body]
pub struct ExQuery(tree_sitter::Query);

/// Relies on tree_sitter_md::LANGUAGE: the block grammar of the
/// document-level markup language.
#[verifier::external_body]
fn language_markdown() -> tree_sitter::Language {
    tree_sitter_md::LANGUAGE.into()
}

/// Relies on tree_sitter_md::INLINE_LANGUAGE: the inline grammar
/// injected into block documents.
#[verifier::external_body]
fn language_markdown_inline() -> tree_sitter::Language {
    tree_sitter_md::INLINE_LANGUAGE.into()
}

/// Relies on tree_sitter_yaml::LANGUAGE.
#[verifier::external_body]
fn language_yaml() -> tree_sitter::Language {
    tree_sitter_yaml::LANGUAGE.into()
}

/// Relies on tree_sitter_html::LANGUAGE.
#[verifier::external_body]
fn language_html() -> tree_sitter::Language {
    tree_sitter_html::LANGUAGE.into()
}

/// Relies on tree_sitter_md::HIGHLIGHT_QUERY_BLOCK.
#[verifier::external_body]
fn md_highlight_query_src() -> &'static str {
    tree_sitter_md::HIGHLIGHT_QUERY_BLOCK
}

/// Relies on tree_sitter_md::INJECTION_QUERY_BLOCK.
#[verifier::external_body]
fn md_injection_query_src() -> &'static str {
    tree_sitter_md::INJECTION_QUERY_BLOCK
}

/// Relies on tree_sitter_md::HIGHLIGHT_QUERY_INLINE.
#[verifier::external_body]
fn md_inline_highlight_query_src() -> &'static str {
    tree_sitter_md::HIGHLIGHT_QUERY_INLINE
}

/// Relies on tree_sitter_yaml::HIGHLIGHTS_QUERY.
#[verifier::external_body]
fn yaml_highlight_query_src() -> &'static str {
    tree_sitter_yaml::HIGHLIGHTS_QUERY
}

/// Relies on tree_sitter_html::HIGHLIGHTS_QUERY.
#[verifier::external_body]
fn html_highlight_query_src() -> &'static str {
    tree_sitter_html::HIGHLIGHTS_QUERY
}

/// Relies on tree_sitter_html::INJECTIONS_QUERY.
#[verifier::external_body]
fn html_injection_query_src() -> &'static str {
    tree_sitter_html::INJECTIONS_QUERY
}

/// Relies on tree_sitter::Query::new: compiles a query; a malformed
/// source yields `None`.
#[verifier::external_body]
fn query_new(language: &tree_sitter::Language, source: &str) -> Option<tree_sitter::Query> {
    match tree_sitter::Query::new(language, source) {
        Ok(q) => Some(q),
        Err(_) => None,
    }
}

/// Relies on tree_sitter::Parser::new.
#[verifier::external_body]
fn parser_new() -> tree_sitter::Parser {
    tree_sitter::Parser::new()
}

/// Relies on tree_sitter::Parser::set_language: true on success,
/// false on a grammar version mismatch.
#[verifier::external_body]
fn parser_set_language(parser: &mut tree_sitter::Parser, language: &tree_sitter::Language) -> bool {
    parser.set_language(language).is_ok()
}

/// Relies on tree_sitter::Parser::parse: parses the bytes, reusing
/// the old tree as an incremental hint when given; `None` only when
/// no language was set.
#[verifier::external_body]
fn parser_parse(
    parser: &mut tree_sitter::Parser,
    text: &Vec<u8>,
    old_tree: Option<&tree_sitter::Tree>,
) -> Option<tree_sitter::Tree> {
    parser.parse(text.as_slice(), old_tree)
}

/// Relies on tree_sitter::Tree::edit: shifts the tree's byte and
/// row/column extents to account for an edit, so the next parse can
/// reuse unaffected subtrees.
#[verifier::external_body]
fn tree_edit(
    tree: &mut tree_sitter::Tree,
    start_byte: usize,
    old_end_byte: usize,
    new_end_byte: usize,
    start_row: usize,
    start_col: usize,
    old_end_row: usize,
    old_end_col: usize,
    new_end_row: usize,
    new_end_col: usize,
) {
    tree.edit(
        &tree_sitter::InputEdit {
            start_byte,
            old_end_byte,
            new_end_byte,
            start_position: tree_sitter::Point::new(start_row, start_col),
            old_end_position: tree_sitter::Point::new(old_end_row, old_end_col),
            new_end_position: tree_sitter::Point::new(new_end_row, new_end_col),
        },
    );
}

/// One capture of a query: its capture-name index and the byte
/// range of the captured node.
pub struct CaptureData {
    pub capture_index: usize,
    pub start_byte: usize,
    pub end_byte: usize,
}

/// One query match: the pattern that matched and its captures.
pub struct QueryMatchData {
    pub pattern_index: usize,
    pub captures: Vec<CaptureData>,
}

/// Relies on tree_sitter::Query::capture_names: the query's capture
/// names, indexed by capture index.
#[verifier::external_body]
fn query_capture_names(query: &tree_sitter::Query) -> Vec<String> {
    query.capture_names().iter().map(|s| s.to_string()).collect()
}

/// Relies on tree_sitter::QueryCursor::captures over the whole
/// tree: every individual capture in the order the cursor yields
/// them, each reduced to its capture index and byte range.
#[verifier::external_body]
fn query_captures_data(
    query: &tree_sitter::Query,
    tree: &tree_sitter::Tree,
    text: &Vec<u8>,
) -> Vec<CaptureData> {
    let mut cursor = tree_sitter::QueryCursor::new();
    let mut it = cursor.captures(query, tree.root_node(), text.as_slice());
    let mut out = Vec::new();
    while let Some((m, ix)) = it.next() {
        let c = m.captures()[*ix];
        out.push(
            CaptureData {
                capture_index: c.index as usize,
                start_byte: c.node.start_byte(),
                end_byte: c.node.end_byte(),
            },
        );
    }
    out
}

/// Relies on tree_sitter::QueryCursor::matches over the whole tree:
/// every match with its pattern index and captures, in cursor order.
#[verifier::external_body]
fn query_matches_data(
    query: &tree_sitter::Query,
    tree: &tree_sitter::Tree,
    text: &Vec<u8>,
) -> Vec<QueryMatchData> {
    let mut cursor = tree_sitter::QueryCursor::new();
    let mut it = cursor.matches(query, tree.root_node(), text.as_slice());
    let mut out = Vec::new();
    while let Some(m) = it.next() {
        let captures = m.captures().iter().map(|c| CaptureData {
            capture_index: c.index as usize,
            start_byte: c.node.start_byte(),
            end_byte: c.node.end_byte(),
        }).collect();
        out.push(QueryMatchData { pattern_index: m.pattern_index, captures });
    }
    out
}

/// Relies on tree_sitter::Query::property_settings: the `#set!`
/// key/value pairs of a pattern; an out-of-range pattern index
/// yields no pairs rather than a panic.
#[verifier::external_body]
fn query_property_settings(query: &tree_sitter::Query, pattern_index: usize) -> Vec<
    (String, Option<String>),
> {
    if pattern_index >= query.pattern_count() {
        return Vec::new();
    }
    query.property_settings(pattern_index).iter().map(
        |p| (p.key.to_string(), p.value.as_ref().map(|v| v.to_string())),
    ).collect()
}

/// Whether two strings are the same text.
fn str_equal(a: &String, b: &str) -> (r: bool)
    ensures
        r == (a@ == b@),
{
    let bo = b.to_owned();
    a.eq(&bo)
}

/// One grammar with its injection and highlight queries.
pub struct LanguageConfig {
    pub language_id: String,
    pub file_types: Vec<String>,
    pub language: tree_sitter::Language,
    pub injection_query: Option<tree_sitter::Query>,
    pub highlight_query: tree_sitter::Query,
}

impl LanguageConfig {
    pub fn new(
        language_id: String,
        file_types: Vec<String>,
        language: tree_sitter::Language,
        injection_query: Option<tree_sitter::Query>,
        highlight_query: tree_sitter::Query,
    ) -> (r: Self)
        ensures
            r.language_id == language_id,
            r.file_types == file_types,
            r.language == language,
            r.injection_query == injection_query,
            r.highlight_query == highlight_query,
    {
        LanguageConfig { language_id, file_types, language, injection_query, highlight_query }
    }
}

/// The built-in language set, looked up by language identifier when
/// an injection names its language.
pub struct LanguageConfigManager {
    pub language_configs: Vec<LanguageConfig>,
}

impl LanguageConfigManager {
    /// Loads the four built-in grammars and their queries; `None`
    /// when a grammar rejects its bundled query.
    pub fn new() -> (r: Option<Self>)
        ensures
            r is Some ==> ({
                let c = r.unwrap().language_configs;
                &&& c@.len() == 4
                &&& c@[0].language_id@ == "markdown"@
                &&& c@[1].language_id@ == "markdown_inline"@
                &&& c@[2].language_id@ == "yml"@
                &&& c@[3].language_id@ == "html"@
                &&& c@[0].injection_query is Some
            }),
    {
        let md = language_markdown();
        let md_injection = match query_new(&md, md_injection_query_src()) {
            None => {
                return None;
            },
            Some(q) => q,
        };
        let md_highlight = match query_new(&md, md_highlight_query_src()) {
            None => {
                return None;
            },
            Some(q) => q,
        };
        let inline = language_markdown_inline();
        let inline_highlight = match query_new(&inline, md_inline_highlight_query_src()) {
            None => {
                return None;
            },
            Some(q) => q,
        };
        let yaml = language_yaml();
        let yaml_highlight = match query_new(&yaml, yaml_highlight_query_src()) {
            None => {
                return None;
            },
            Some(q) => q,
        };
        let html = language_html();
        let html_injection = match query_new(&html, html_injection_query_src()) {
            None => {
                return None;
            },
            Some(q) => q,
        };
        let html_highlight = match query_new(&html, html_highlight_query_src()) {
            None => {
                return None;
            },
            Some(q) => q,
        };

        let mut md_types: Vec<String> = Vec::new();
        md_types.push("md".to_owned());
        let mut yaml_types: Vec<String> = Vec::new();
        yaml_types.push("yaml".to_owned());
        yaml_types.push("yml".to_owned());
        let mut html_types: Vec<String> = Vec::new();
        html_types.push("html".to_owned());

        let mut configs: Vec<LanguageConfig> = Vec::new();
        configs.push(
            LanguageConfig::new(
                "markdown".to_owned(),
                md_types,
                md,
                Some(md_injection),
                md_highlight,
            ),
        );
        configs.push(
            LanguageConfig::new(
                "markdown_inline".to_owned(),
                Vec::new(),
                inline,
                None,
                inline_highlight,
            ),
        );
        configs.push(
            LanguageConfig::new("yml".to_owned(), yaml_types, yaml, None, yaml_highlight),
        );
        configs.push(
            LanguageConfig::new("html".to_owned(), html_types, html, Some(html_injection), html_highlight),
        );
        Some(LanguageConfigManager { language_configs: configs })
    }

    /// Index of the configuration for a language identifier.
    pub fn language_config_for_language_id(&self, id: &str) -> (r: Option<usize>)
        ensures
            r is Some ==> r.unwrap() < self.language_configs@.len()
                && self.language_configs@[r.unwrap() as int].language_id@ == id@,
            r is None ==> forall|i: int|
                0 <= i < self.language_configs@.len()
                    ==> #[trigger] self.language_configs@[i].language_id@ != id@,
    {
        let n = self.language_configs.len();
        let mut i: usize = 0;
        while i < n
            invariant
                i <= n == self.language_configs@.len(),
                forall|j: int|
                    0 <= j < i ==> #[trigger] self.language_configs@[j].language_id@ != id@,
            decreases n - i,
        {
            if str_equal(&self.language_configs[i].language_id, id) {
                return Some(i);
            }
            i = i + 1;
        }
        None
    }
}


/// The style attributes a capture name maps to; unknown names map
/// to nothing and leave the text unstyled.
#[derive(Clone, Copy, PartialEq, Eq, Structural, Debug)]
pub enum HighlightKind {
    /// Bold face (strong emphasis and special punctuation).
    Strong,
    /// Bold face with the title color.
    Title,
    /// Italic face.
    Emphasis,
    /// Dimmed color (delimiters and brackets).
    Dim,
    /// Accent color (properties, tags, literals, references).
    Accent,
    /// The number color.
    Number,
    /// The boolean color.
    Boolean,
}

/// The fixed lookup table from capture names to styles.
pub open spec fn style_for_name_spec(name: Seq<char>) -> Option<HighlightKind> {
    if name == "text.strong"@ || name == "punctuation.special"@ {
        Some(HighlightKind::Strong)
    } else if name == "text.title"@ {
        Some(HighlightKind::Title)
    } else if name == "text.emphasis"@ {
        Some(HighlightKind::Emphasis)
    } else if name == "punctuation.delimiter"@ || name == "punctuation.bracket"@ {
        Some(HighlightKind::Dim)
    } else if name == "property"@ || name == "tag"@ || name == "text.literal"@ || name
        == "text.uri"@ || name == "text.reference"@ {
        Some(HighlightKind::Accent)
    } else if name == "number"@ {
        Some(HighlightKind::Number)
    } else if name == "boolean"@ {
        Some(HighlightKind::Boolean)
    } else {
        None
    }
}

/// Style for a capture name, by the fixed table.
pub fn style_for_capture(name: &String) -> (r: Option<HighlightKind>)
    ensures
        r == style_for_name_spec(name@),
{
    if str_equal(name, "text.strong") || str_equal(name, "punctuation.special") {
        Some(HighlightKind::Strong)
    } else if str_equal(name, "text.title") {
        Some(HighlightKind::Title)
    } else if str_equal(name, "text.emphasis") {
        Some(HighlightKind::Emphasis)
    } else if str_equal(name, "punctuation.delimiter") || str_equal(name, "punctuation.bracket") {
        Some(HighlightKind::Dim)
    } else if str_equal(name, "property") || str_equal(name, "tag") || str_equal(
        name,
        "text.literal",
    ) || str_equal(name, "text.uri") || str_equal(name, "text.reference") {
        Some(HighlightKind::Accent)
    } else if str_equal(name, "number") {
        Some(HighlightKind::Number)
    } else if str_equal(name, "boolean") {
        Some(HighlightKind::Boolean)
    } else {
        None
    }
}

/// One style run: a byte length and the style that applies to it.
#[derive(Clone, Copy, PartialEq, Eq, Structural, Debug)]
pub struct StyleRun {
    pub len: usize,
    pub style: Option<HighlightKind>,
}

/// Total bytes the runs cover.
pub open spec fn runs_len(runs: Seq<StyleRun>) -> int
    decreases runs.len(),
{
    if runs.len() == 0 {
        0
    } else {
        runs_len(runs.drop_last()) + runs.last().len
    }
}

/// A styled byte range of the document.
#[derive(Clone, Copy, PartialEq, Eq, Structural, Debug)]
pub struct StyledSpan {
    pub start: usize,
    pub end: usize,
    pub style: HighlightKind,
}

/// Appending a run extends the covered length by that run.
pub proof fn lemma_runs_len_snoc(runs: Seq<StyleRun>, r: StyleRun)
    ensures
        runs_len(runs.push(r)) == runs_len(runs) + r.len,
{
    assert(runs.push(r).drop_last() =~= runs);
    assert(runs.push(r).last() == r);
}

/// Builds the run list for one paint pass: walking the styled spans
/// in document order, a span starting before the previous span's
/// end is dropped (a later span has already split it), a gap gets
/// an unstyled run, and the tail after the last span is unstyled.
/// The runs cover `[0, total_len)` exactly once.
/// The run list the span walk produces from position `i` on, with
/// `last_end` bytes already covered: spans starting before the
/// covered point are dropped (a later span already split them), a
/// gap before a span becomes an unstyled run, out-of-range ends are
/// clamped, and the uncovered tail is unstyled.
pub open spec fn runs_from_spec(spans: Seq<StyledSpan>, total: int, i: int, last_end: int) -> Seq<
    StyleRun,
>
    decreases spans.len() - i,
    when 0 <= i
{
    if i >= spans.len() {
        if last_end < total {
            seq![StyleRun { len: (total - last_end) as usize, style: None }]
        } else {
            seq![]
        }
    } else {
        let sp = spans[i];
        if sp.start < last_end {
            runs_from_spec(spans, total, i + 1, last_end)
        } else {
            let start = if sp.start <= total {
                sp.start as int
            } else {
                total
            };
            let end = if sp.end <= total {
                sp.end as int
            } else {
                total
            };
            if end <= start {
                runs_from_spec(spans, total, i + 1, last_end)
            } else {
                (if start > last_end {
                    seq![StyleRun { len: (start - last_end) as usize, style: None }]
                } else {
                    seq![]
                }) + seq![StyleRun { len: (end - start) as usize, style: Some(sp.style) }]
                    + runs_from_spec(spans, total, i + 1, end)
            }
        }
    }
}

/// Builds the run list for one paint pass: walking the styled spans
/// in document order, a span starting before the previous span's
/// end is dropped (a later span has already split it), a gap gets
/// an unstyled run, and the tail after the last span is unstyled.
/// The runs are exactly the span walk's, and cover `[0, total_len)`
/// exactly once.
pub fn build_runs(spans: &Vec<StyledSpan>, total_len: usize) -> (r: Vec<StyleRun>)
    ensures
        runs_len(r@) == total_len,
        r@ == runs_from_spec(spans@, total_len as int, 0, 0),
{
    let mut runs: Vec<StyleRun> = Vec::new();
    let mut last_end: usize = 0;
    let n = spans.len();
    let mut i: usize = 0;
    proof {
        assert(runs_len(runs@) == 0);
        assert(runs@ + runs_from_spec(spans@, total_len as int, 0, 0) =~= runs_from_spec(
            spans@,
            total_len as int,
            0,
            0,
        ));
    }
    while i < n
        invariant
            i <= n == spans@.len(),
            last_end <= total_len,
            runs_len(runs@) == last_end,
            runs@ + runs_from_spec(spans@, total_len as int, i as int, last_end as int)
                == runs_from_spec(spans@, total_len as int, 0, 0),
        decreases n - i,
    {
        let ghost pre_i = i as int;
        let ghost pre_last = last_end as int;
        let sp = spans[i];
        i = i + 1;
        if sp.start < last_end {
            continue ;
        }
        let start = if sp.start <= total_len {
            sp.start
        } else {
            total_len
        };
        let end = if sp.end <= total_len {
            sp.end
        } else {
            total_len
        };
        if end <= start {
            continue ;
        }
        let ghost pre_runs = runs@;
        if start > last_end {
            let gap = StyleRun { len: start - last_end, style: None };
            proof {
                lemma_runs_len_snoc(runs@, gap);
            }
            runs.push(gap);
        }
        let styled = StyleRun { len: end - start, style: Some(sp.style) };
        proof {
            lemma_runs_len_snoc(runs@, styled);
        }
        runs.push(styled);
        last_end = end;
        proof {
            let total = total_len as int;
            let head: Seq<StyleRun> = if start > pre_last {
                seq![StyleRun { len: (start - pre_last) as usize, style: None }]
            } else {
                seq![]
            };
            assert(runs@ =~= pre_runs + head + seq![styled]);
            assert(runs_from_spec(spans@, total, pre_i, pre_last) == head + seq![styled]
                + runs_from_spec(spans@, total, pre_i + 1, end as int));
            assert(runs@ + runs_from_spec(spans@, total, i as int, last_end as int)
                =~= pre_runs + runs_from_spec(spans@, total, pre_i, pre_last));
        }
    }
    if last_end < total_len {
        let tail = StyleRun { len: total_len - last_end, style: None };
        proof {
            lemma_runs_len_snoc(runs@, tail);
            assert(runs@.push(tail) =~= runs@ + runs_from_spec(
                spans@,
                total_len as int,
                n as int,
                last_end as int,
            ));
        }
        runs.push(tail);
    } else {
        proof {
            assert(runs@ + runs_from_spec(spans@, total_len as int, n as int, last_end as int)
                =~= runs@);
        }
    }
    runs
}

/// An injection found in the host tree: which language configuration
/// parses it and the byte range it covers.
pub struct Injection {
    pub config_index: usize,
    pub start_byte: usize,
    pub end_byte: usize,
}

/// One step of the capture walk of `injection_pair`: the last
/// usable `injection.language` and `injection.content` captures win.
pub open spec fn pair_from(
    names: Seq<String>,
    caps: Seq<CaptureData>,
    text: Seq<u8>,
    i: int,
    lang: Option<Seq<u8>>,
    content: Option<(int, int)>,
) -> (Option<Seq<u8>>, Option<(int, int)>)
    decreases caps.len() - i,
    when 0 <= i
{
    if i >= caps.len() {
        (lang, content)
    } else {
        let c = caps[i];
        let usable = c.capture_index < names.len() && c.start_byte <= c.end_byte && c.end_byte
            <= text.len();
        let lang2 = if usable && names[c.capture_index as int]@ == "injection.language"@ {
            Some(text.subrange(c.start_byte as int, c.end_byte as int))
        } else {
            lang
        };
        let content2 = if c.capture_index < names.len() && names[c.capture_index as int]@
            != "injection.language"@ && names[c.capture_index as int]@ == "injection.content"@
            && c.start_byte <= c.end_byte && c.end_byte <= text.len() {
            Some((c.start_byte as int, c.end_byte as int))
        } else {
            content
        };
        pair_from(names, caps, text, i + 1, lang2, content2)
    }
}

/// The language name and content range of one injection match: the
/// text under the `injection.language` capture names the language,
/// and the `injection.content` capture carries the range; a pattern
/// may instead name its language statically in its properties.
fn injection_pair(
    capture_names: &Vec<String>,
    m: &QueryMatchData,
    text: &Vec<u8>,
) -> (r: (Option<Vec<u8>>, Option<(usize, usize)>))
    ensures
        r.1 is Some ==> r.1.unwrap().0 <= r.1.unwrap().1 <= text@.len(),
        ({
            let p = pair_from(capture_names@, m.captures@, text@, 0, None, None);
            &&& (r.0 is Some <==> p.0 is Some)
            &&& (r.0 is Some ==> r.0.unwrap()@ == p.0.unwrap())
            &&& (r.1 is Some <==> p.1 is Some)
            &&& (r.1 is Some ==> r.1.unwrap().0 as int == p.1.unwrap().0 && r.1.unwrap().1 as int
                == p.1.unwrap().1)
        }),
{
    let ghost target = pair_from(capture_names@, m.captures@, text@, 0, None, None);
    let mut language: Option<Vec<u8>> = None;
    let mut content: Option<(usize, usize)> = None;
    let ncaps = m.captures.len();
    let total = text.len();
    let mut i: usize = 0;
    while i < ncaps
        invariant
            i <= ncaps == m.captures@.len(),
            total == text@.len(),
            content is Some ==> content.unwrap().0 <= content.unwrap().1 <= text@.len(),
            target == pair_from(capture_names@, m.captures@, text@, 0, None, None),
            pair_from(
                capture_names@,
                m.captures@,
                text@,
                i as int,
                match language {
                    Some(l) => Some(l@),
                    None => None,
                },
                match content {
                    Some((a, b)) => Some((a as int, b as int)),
                    None => None,
                },
            ) == target,
        decreases ncaps - i,
    {
        let cap = &m.captures[i];
        if cap.capture_index < capture_names.len() {
            let name = &capture_names[cap.capture_index];
            if str_equal(name, "injection.language") {
                if cap.start_byte <= cap.end_byte && cap.end_byte <= total {
                    language = Some(slice_bytes(text, cap.start_byte, cap.end_byte));
                }
            } else if str_equal(name, "injection.content") {
                if cap.start_byte <= cap.end_byte && cap.end_byte <= total {
                    content = Some((cap.start_byte, cap.end_byte));
                }
            }
        }
        i = i + 1;
    }
    (language, content)
}

/// The bytes of `[start, end)`.
fn slice_bytes(text: &Vec<u8>, start: usize, end: usize) -> (r: Vec<u8>)
    requires
        start <= end <= text@.len(),
    ensures
        r@ == text@.subrange(start as int, end as int),
{
    let mut out: Vec<u8> = Vec::new();
    let mut i: usize = start;
    while i < end
        invariant
            start <= i <= end <= text@.len(),
            out@.len() == i - start,
            forall|j: int| 0 <= j < out@.len() ==> #[trigger] out@[j] == text@[start + j],
        decreases end - i,
    {
        out.push(text[i]);
        i = i + 1;
    }
    proof {
        assert(out@ =~= text@.subrange(start as int, end as int));
    }
    out
}

/// Whether a configuration answers to this language name: by its
/// identifier or by one of its file types.
pub open spec fn config_matches(c: LanguageConfig, id: Seq<u8>) -> bool {
    ||| vstd::utf8::encode_utf8(c.language_id@) == id
    ||| exists|j: int|
        0 <= j < c.file_types@.len() && vstd::utf8::encode_utf8(#[trigger] c.file_types@[j]@) == id
}

/// Index of the first configuration answering to `id`, from `i` on.
pub open spec fn config_idx_from(configs: Seq<LanguageConfig>, id: Seq<u8>, i: int) -> Option<int>
    decreases configs.len() - i,
    when 0 <= i
{
    if i >= configs.len() {
        None
    } else if config_matches(configs[i], id) {
        Some(i)
    } else {
        config_idx_from(configs, id, i + 1)
    }
}

/// The first configuration whose identifier or file types name this
/// language.
#[verifier::loop_isolation(false)]
fn config_for_language_bytes(manager: &LanguageConfigManager, id: &Vec<u8>) -> (r: Option<usize>)
    ensures
        r is Some ==> r.unwrap() < manager.language_configs@.len(),
        ({
            let c = config_idx_from(manager.language_configs@, id@, 0);
            &&& (r is Some <==> c is Some)
            &&& (r is Some ==> r.unwrap() as int == c.unwrap())
        }),
{
    let n = manager.language_configs.len();
    let mut i: usize = 0;
    while i < n
        invariant
            i <= n == manager.language_configs@.len(),
            config_idx_from(manager.language_configs@, id@, i as int) == config_idx_from(
                manager.language_configs@,
                id@,
                0,
            ),
        decreases n - i,
    {
        let cfg = &manager.language_configs[i];
        let nb = cfg.language_id.as_str().as_bytes();
        if bytes_equal_slice(id, nb) {
            proof {
                assert(config_matches(manager.language_configs@[i as int], id@));
                assert(config_idx_from(manager.language_configs@, id@, i as int) == Some(i as int));
            }
            return Some(i);
        }
        let nt = cfg.file_types.len();
        let mut j: usize = 0;
        while j < nt
            invariant
                j <= nt == cfg.file_types@.len(),
                i < manager.language_configs@.len(),
                cfg == &manager.language_configs@[i as int],
                forall|k: int|
                    0 <= k < j ==> vstd::utf8::encode_utf8(#[trigger] cfg.file_types@[k]@) != id@,
            decreases nt - j,
        {
            let tb = cfg.file_types[j].as_str().as_bytes();
            if bytes_equal_slice(id, tb) {
                proof {
                    assert(config_matches(manager.language_configs@[i as int], id@));
                }
                return Some(i);
            }
            j = j + 1;
        }
        proof {
            assert(!config_matches(manager.language_configs@[i as int], id@));
        }
        i = i + 1;
    }
    None
}

/// Whether a byte vector equals a byte slice.
fn bytes_equal_slice(a: &Vec<u8>, b: &[u8]) -> (r: bool)
    ensures
        r == (a@ == b@),
{
    if a.len() != b.len() {
        proof {
            assert(a@ != b@);
        }
        return false;
    }
    let n = a.len();
    let mut i: usize = 0;
    while i < n
        invariant
            i <= n == a@.len() == b@.len(),
            forall|j: int| 0 <= j < i ==> a@[j] == b@[j],
        decreases n - i,
    {
        if a[i] != b[i] {
            return false;
        }
        i = i + 1;
    }
    proof {
        assert(a@ =~= b@);
    }
    true
}

/// The language a pattern's `#set!` properties name, walking the
/// pairs in order with the last `injection.language` value winning.
pub open spec fn prop_lang_from(
    props: Seq<(String, Option<String>)>,
    i: int,
    acc: Option<Seq<u8>>,
) -> Option<Seq<u8>>
    decreases props.len() - i,
    when 0 <= i
{
    if i >= props.len() {
        acc
    } else {
        let kv = props[i];
        let acc2 = if kv.0@ == "injection.language"@ && kv.1 is Some {
            Some(vstd::utf8::encode_utf8(kv.1.unwrap()@))
        } else {
            acc
        };
        prop_lang_from(props, i + 1, acc2)
    }
}

/// The injection one match yields, if any: a known language (named
/// by capture, else by pattern property) together with a content
/// range.
pub open spec fn injection_of(
    configs: Seq<LanguageConfig>,
    names: Seq<String>,
    m: QueryMatchData,
    props: Seq<(String, Option<String>)>,
    text: Seq<u8>,
) -> Option<Injection> {
    let p = pair_from(names, m.captures@, text, 0, None, None);
    let lang = if p.0 is Some {
        p.0
    } else {
        prop_lang_from(props, 0, None)
    };
    if lang is Some && p.1 is Some {
        match config_idx_from(configs, lang.unwrap(), 0) {
            Some(cfg) => Some(
                Injection {
                    config_index: cfg as usize,
                    start_byte: p.1.unwrap().0 as usize,
                    end_byte: p.1.unwrap().1 as usize,
                },
            ),
            None => None,
        }
    } else {
        None
    }
}

/// The injections a match list yields, in order, from match `i` on.
pub open spec fn injections_of(
    configs: Seq<LanguageConfig>,
    names: Seq<String>,
    ms: Seq<QueryMatchData>,
    ps: Seq<Seq<(String, Option<String>)>>,
    text: Seq<u8>,
    i: int,
) -> Seq<Injection>
    decreases ms.len() - i,
    when 0 <= i
{
    if i >= ms.len() || i >= ps.len() {
        seq![]
    } else {
        let rest = injections_of(configs, names, ms, ps, text, i + 1);
        match injection_of(configs, names, ms[i], ps[i], text) {
            Some(inj) => seq![inj] + rest,
            None => rest,
        }
    }
}

/// Turns plain match data into injections: a match whose language
/// text (or `#set!` property) names a known configuration and which
/// carries a content range yields exactly that injection; everything
/// else is skipped and degrades to unstyled text.
pub fn injections_from(
    manager: &LanguageConfigManager,
    names: &Vec<String>,
    matches: &Vec<QueryMatchData>,
    props: &Vec<Vec<(String, Option<String>)>>,
    text: &Vec<u8>,
) -> (r: Vec<Injection>)
    requires
        props@.len() == matches@.len(),
    ensures
        r@ == injections_of(
            manager.language_configs@,
            names@,
            matches@.map_values(|m: QueryMatchData| m),
            props@.map_values(|p: Vec<(String, Option<String>)>| p@),
            text@,
            0,
        ),
        forall|k: int|
            0 <= k < r@.len() ==> (#[trigger] r@[k]).config_index < manager.language_configs@.len()
                && r@[k].start_byte <= r@[k].end_byte <= text@.len(),
{
    let ghost ms = matches@.map_values(|m: QueryMatchData| m);
    let ghost ps = props@.map_values(|p: Vec<(String, Option<String>)>| p@);
    let mut out: Vec<Injection> = Vec::new();
    let nm = matches.len();
    let mut i: usize = 0;
    proof {
        assert(out@ + injections_of(manager.language_configs@, names@, ms, ps, text@, 0)
            =~= injections_of(manager.language_configs@, names@, ms, ps, text@, 0));
    }
    while i < nm
        invariant
            i <= nm == matches@.len() == props@.len(),
            ms == matches@.map_values(|m: QueryMatchData| m),
            ps == props@.map_values(|p: Vec<(String, Option<String>)>| p@),
            out@ + injections_of(manager.language_configs@, names@, ms, ps, text@, i as int)
                == injections_of(manager.language_configs@, names@, ms, ps, text@, 0),
            forall|k: int|
                0 <= k < out@.len() ==> (#[trigger] out@[k]).config_index
                    < manager.language_configs@.len() && out@[k].start_byte <= out@[k].end_byte
                    <= text@.len(),
        decreases nm - i,
    {
        let ghost pre = out@;
        let ghost pre_i = i as int;
        let m = &matches[i];
        proof {
            assert(ms[pre_i] == matches@[pre_i]);
            assert(ps[pre_i] == props@[pre_i]@);
        }
        let (mut language, content) = injection_pair(names, m, text);
        if language.is_none() {
            let mprops = &props[i];
            let np = mprops.len();
            let ghost target_lang = prop_lang_from(mprops@, 0, None);
            let mut j: usize = 0;
            while j < np
                invariant
                    j <= np == mprops@.len(),
                    target_lang == prop_lang_from(mprops@, 0, None),
                    prop_lang_from(
                        mprops@,
                        j as int,
                        match language {
                            Some(l) => Some(l@),
                            None => None,
                        },
                    ) == target_lang,
                decreases np - j,
            {
                let (key, value) = &mprops[j];
                if str_equal(key, "injection.language") {
                    if let Some(v) = value {
                        language = Some(string_bytes(v));
                    }
                }
                j = j + 1;
            }
        }
        let ghost inj_spec = injection_of(manager.language_configs@, names@, ms[pre_i], ps[pre_i], text@);
        if let (Some(lang), Some((cs, ce))) = (language, content) {
            match config_for_language_bytes(manager, &lang) {
                Some(cfg) => {
                    let inj = Injection { config_index: cfg, start_byte: cs, end_byte: ce };
                    out.push(inj);
                    proof {
                        assert(inj_spec == Some(inj));
                        assert(out@ + injections_of(
                            manager.language_configs@,
                            names@,
                            ms,
                            ps,
                            text@,
                            pre_i + 1,
                        ) =~= pre + injections_of(
                            manager.language_configs@,
                            names@,
                            ms,
                            ps,
                            text@,
                            pre_i,
                        ));
                    }
                },
                None => {
                    proof {
                        assert(inj_spec is None);
                    }
                },
            }
        } else {
            proof {
                assert(inj_spec is None);
            }
        }
        i = i + 1;
    }
    proof {
        assert(out@ + injections_of(manager.language_configs@, names@, ms, ps, text@, nm as int)
            =~= out@);
    }
    out
}

/// Resolves the injections of a host tree: runs the host's
/// injection query, fetches each matching pattern's properties, and
/// hands the plain data to `injections_from`, whose contract pins
/// which matches become injections.
pub fn resolve_injections(
    manager: &LanguageConfigManager,
    host_query: &tree_sitter::Query,
    tree: &tree_sitter::Tree,
    text: &Vec<u8>,
) -> (r: Vec<Injection>)
    ensures
        forall|k: int|
            0 <= k < r@.len() ==> (#[trigger] r@[k]).config_index < manager.language_configs@.len()
                && r@[k].start_byte <= r@[k].end_byte <= text@.len(),
{
    let names = query_capture_names(host_query);
    let matches = query_matches_data(host_query, tree, text);
    let mut props: Vec<Vec<(String, Option<String>)>> = Vec::new();
    let nm = matches.len();
    let mut i: usize = 0;
    while i < nm
        invariant
            i <= nm == matches@.len(),
            props@.len() == i,
        decreases nm - i,
    {
        props.push(query_property_settings(host_query, matches[i].pattern_index));
        i = i + 1;
    }
    injections_from(manager, &names, &matches, &props, text)
}

/// A string's UTF-8 bytes as an owned vector.
fn string_bytes(s: &String) -> (r: Vec<u8>)
    ensures
        r@ == vstd::utf8::encode_utf8(s@),
{
    let bs = s.as_str().as_bytes();
    let m = bs.len();
    let mut out: Vec<u8> = Vec::new();
    let mut i: usize = 0;
    while i < m
        invariant
            i <= m == bs@.len(),
            bs@ == vstd::utf8::encode_utf8(s@),
            out@.len() == i,
            forall|j: int| 0 <= j < i ==> #[trigger] out@[j] == bs@[j],
        decreases m - i,
    {
        out.push(bs[i]);
        i = i + 1;
    }
    proof {
        assert(out@ =~= bs@);
    }
    out
}

/// The incrementally maintained parse state of the host grammar.
pub struct SyntaxManager {
    pub parser: tree_sitter::Parser,
    pub parse_tree: Option<tree_sitter::Tree>,
}

impl SyntaxManager {
    /// Sets up the parser for the host grammar and parses the empty
    /// document; `None` when the grammar cannot be loaded.
    pub fn new(host: &LanguageConfig) -> (r: Option<Self>)
    {
        let mut parser = parser_new();
        if !parser_set_language(&mut parser, &host.language) {
            return None;
        }
        let empty: Vec<u8> = Vec::new();
        let tree = parser_parse(&mut parser, &empty, None);
        Some(SyntaxManager { parser, parse_tree: tree })
    }

    /// Parses the whole document afresh, discarding any prior tree.
    pub fn parse_full(&mut self, text: &Vec<u8>)
    {
        self.parse_tree = parser_parse(&mut self.parser, text, None);
    }

    /// Applies an edit to the tree and re-parses incrementally: the
    /// chars of `[start_char, end_char)` of `doc` replaced
    /// `removed_bytes` bytes that began at the same start. Only the
    /// edited range and its ancestors are re-walked by the parser;
    /// the rest of the tree is reused.
    pub fn update_tree(&mut self, doc: &Document, start_char: usize, end_char: usize, removed_bytes: usize)
        requires
            start_char <= end_char <= doc@.len(),
        ensures
            old(self).parse_tree is None ==> final(self).parse_tree is None,
    {
        let start_byte = doc.char_to_byte(start_char);
        let end_byte = doc.char_to_byte(end_char);
        proof {
            crate::text::lemma_byte_offset_monotone(doc@, start_char as int, end_char as int);
        }

        let start_line = doc.char_to_line(start_char);
        let start_line_byte = doc.line_to_byte(start_line);
        let end_line = doc.char_to_line(end_char);
        let end_line_byte = doc.line_to_byte(end_line);

        let start_col = if start_byte >= start_line_byte {
            start_byte - start_line_byte
        } else {
            0
        };
        let end_col = if end_byte >= end_line_byte {
            end_byte - end_line_byte
        } else {
            0
        };
        let old_end_byte = if start_byte <= usize::MAX - removed_bytes {
            start_byte + removed_bytes
        } else {
            usize::MAX
        };
        let old_end_col = if start_col <= usize::MAX - removed_bytes {
            start_col + removed_bytes
        } else {
            usize::MAX
        };

        let tree = self.parse_tree.take();
        if let Some(mut tree) = tree {
            tree_edit(
                &mut tree,
                start_byte,
                old_end_byte,
                end_byte,
                start_line,
                start_col,
                start_line,
                old_end_col,
                end_line,
                end_col,
            );
            let text = doc_bytes(doc);
            self.parse_tree = parser_parse(&mut self.parser, &text, Some(&tree));
        }
    }

    /// Style spans for a paint pass: the host tree's highlight
    /// captures, with each resolved injection parsed by its own
    /// grammar and its captures offset by the injection's base, all
    /// in document order by start byte.
    pub fn highlight_spans(
        &self,
        manager: &LanguageConfigManager,
        host: &LanguageConfig,
        text: &Vec<u8>,
    ) -> (r: Vec<StyledSpan>)
        ensures
            sorted_by_start(r@),
            forall|i: int| 0 <= i < r@.len() ==> (#[trigger] r@[i]).start <= r@[i].end,
    {
        let mut spans: Vec<StyledSpan> = Vec::new();
        let tree = match &self.parse_tree {
            None => {
                return spans;
            },
            Some(t) => t,
        };

        let host_names = query_capture_names(&host.highlight_query);
        let host_caps = query_captures_data(&host.highlight_query, tree, text);
        push_styled(&mut spans, &host_names, &host_caps, 0);
        proof {
            lemma_styled_of_sane(host_names@, host_caps@, 0, 0);
        }

        if let Some(iq) = &host.injection_query {
            let injections = resolve_injections(manager, iq, tree, text);
            let ni = injections.len();
            let mut i: usize = 0;
            while i < ni
                invariant
                    i <= ni == injections@.len(),
                    forall|k: int|
                        0 <= k < injections@.len() ==> (#[trigger] injections@[k]).config_index
                            < manager.language_configs@.len() && injections@[k].start_byte
                            <= injections@[k].end_byte <= text@.len(),
                    forall|k: int|
                        0 <= k < spans@.len() ==> (#[trigger] spans@[k]).start <= spans@[k].end,
                decreases ni - i,
            {
                let inj = &injections[i];
                let cfg = &manager.language_configs[inj.config_index];
                let sub = slice_bytes(text, inj.start_byte, inj.end_byte);
                let mut sub_parser = parser_new();
                if parser_set_language(&mut sub_parser, &cfg.language) {
                    if let Some(sub_tree) = parser_parse(&mut sub_parser, &sub, None) {
                        let names = query_capture_names(&cfg.highlight_query);
                        let caps = query_captures_data(&cfg.highlight_query, &sub_tree, &sub);
                        push_styled(&mut spans, &names, &caps, inj.start_byte);
                        proof {
                            lemma_styled_of_sane(names@, caps@, inj.start_byte as int, 0);
                        }
                    }
                }
                i = i + 1;
            }
        }

        sort_spans(&mut spans);
        spans
    }
}

/// The document's bytes.
fn doc_bytes(doc: &Document) -> (r: Vec<u8>)
    ensures
        r@ == vstd::utf8::encode_utf8(doc@),
{
    let n = doc.len_chars();
    let s = doc.slice_string(0, n);
    proof {
        assert(doc@.subrange(0, doc@.len() as int) =~= doc@);
    }
    string_bytes(&s)
}

/// The styled spans a capture list yields, offset by `base`, from
/// capture `i` on: captures with unknown names, inverted ranges or
/// offsets beyond machine range style nothing.
pub open spec fn styled_of(names: Seq<String>, caps: Seq<CaptureData>, base: int, i: int) -> Seq<
    StyledSpan,
>
    decreases caps.len() - i,
    when 0 <= i
{
    if i >= caps.len() {
        seq![]
    } else {
        let c = caps[i];
        let rest = styled_of(names, caps, base, i + 1);
        if c.capture_index < names.len() && style_for_name_spec(names[c.capture_index as int]@)
            is Some && c.start_byte <= c.end_byte && base + c.end_byte <= usize::MAX {
            seq![
                StyledSpan {
                    start: (base + c.start_byte) as usize,
                    end: (base + c.end_byte) as usize,
                    style: style_for_name_spec(names[c.capture_index as int]@).unwrap(),
                },
            ] + rest
        } else {
            rest
        }
    }
}

/// Appends exactly the styled spans of a capture list, offset by
/// `base`; captures with unknown names or unusable ranges style
/// nothing.
fn push_styled(
    spans: &mut Vec<StyledSpan>,
    names: &Vec<String>,
    caps: &Vec<CaptureData>,
    base: usize,
)
    ensures
        final(spans)@ == old(spans)@ + styled_of(names@, caps@, base as int, 0),
{
    let n = caps.len();
    let mut i: usize = 0;
    proof {
        assert(old(spans)@ + styled_of(names@, caps@, base as int, 0) =~= spans@ + styled_of(
            names@,
            caps@,
            base as int,
            0,
        ));
    }
    while i < n
        invariant
            i <= n == caps@.len(),
            spans@ + styled_of(names@, caps@, base as int, i as int) == old(spans)@ + styled_of(
                names@,
                caps@,
                base as int,
                0,
            ),
        decreases n - i,
    {
        let ghost pre = spans@;
        let ghost pre_i = i as int;
        let c = &caps[i];
        i = i + 1;
        if c.capture_index >= names.len() {
            continue ;
        }
        let style = match style_for_capture(&names[c.capture_index]) {
            None => {
                continue ;
            },
            Some(st) => st,
        };
        if c.start_byte > c.end_byte {
            continue ;
        }
        if base > usize::MAX - c.end_byte {
            continue ;
        }
        let sp = StyledSpan { start: base + c.start_byte, end: base + c.end_byte, style };
        spans.push(sp);
        proof {
            assert(styled_of(names@, caps@, base as int, pre_i) == seq![sp] + styled_of(
                names@,
                caps@,
                base as int,
                pre_i + 1,
            ));
            assert(spans@ + styled_of(names@, caps@, base as int, i as int) =~= pre + styled_of(
                names@,
                caps@,
                base as int,
                pre_i,
            ));
        }
    }
    proof {
        assert(spans@ + styled_of(names@, caps@, base as int, n as int) =~= spans@);
    }
}

/// Spans in document order of their start bytes.
pub open spec fn sorted_by_start(spans: Seq<StyledSpan>) -> bool {
    forall|i: int, j: int| 0 <= i < j < spans.len() ==> (#[trigger] spans[i]).start <= (#[trigger] spans[j]).start
}

/// Every span the capture walk yields is an ordered range.
pub proof fn lemma_styled_of_sane(names: Seq<String>, caps: Seq<CaptureData>, base: int, i: int)
    requires
        0 <= i,
        0 <= base,
    ensures
        forall|k: int|
            0 <= k < styled_of(names, caps, base, i).len() ==> (#[trigger] styled_of(
                names,
                caps,
                base,
                i,
            )[k]).start <= styled_of(names, caps, base, i)[k].end,
    decreases caps.len() - i,
{
    if i < caps.len() {
        lemma_styled_of_sane(names, caps, base, i + 1);
        let whole = styled_of(names, caps, base, i);
        let rest = styled_of(names, caps, base, i + 1);
        let c = caps[i];
        if c.capture_index < names.len() && style_for_name_spec(names[c.capture_index as int]@)
            is Some && c.start_byte <= c.end_byte && base + c.end_byte <= usize::MAX {
            let sp = StyledSpan {
                start: (base + c.start_byte) as usize,
                end: (base + c.end_byte) as usize,
                style: style_for_name_spec(names[c.capture_index as int]@).unwrap(),
            };
            assert(whole == seq![sp] + rest);
            assert(whole[0] == sp);
            assert(forall|k: int| 1 <= k < whole.len() ==> whole[k] == #[trigger] rest[k - 1]);
        } else {
            assert(whole == rest);
        }
    }
}

/// Sorts spans by start byte, inserting each into its place; the
/// result holds exactly the given spans.
fn sort_spans(spans: &mut Vec<StyledSpan>)
    ensures
        sorted_by_start(final(spans)@),
        final(spans)@.len() == old(spans)@.len(),
        forall|i: int|
            0 <= i < final(spans)@.len() ==> old(spans)@.contains(#[trigger] final(spans)@[i]),
{
    let n = spans.len();
    let mut out: Vec<StyledSpan> = Vec::new();
    let mut i: usize = 0;
    while i < n
        invariant
            i <= n == spans@.len(),
            spans@ == old(spans)@,
            out@.len() == i,
            sorted_by_start(out@),
            forall|k: int| 0 <= k < out@.len() ==> spans@.contains(#[trigger] out@[k]),
        decreases n - i,
    {
        let s = spans[i];
        let m = out.len();
        let mut p: usize = 0;
        while p < m && out[p].start <= s.start
            invariant
                p <= m == out@.len(),
                sorted_by_start(out@),
                forall|k: int| 0 <= k < p ==> (#[trigger] out@[k]).start <= s.start,
            decreases m - p,
        {
            p = p + 1;
        }
        let ghost before = out@;
        proof {
            assert(spans@.contains(spans@[i as int]));
        }
        out.insert(p, s);
        proof {
            assert(out@ == before.insert(p as int, s));
            assert forall|k: int| 0 <= k < out@.len() implies spans@.contains(
                #[trigger] out@[k],
            ) by {
                if k < p {
                    assert(out@[k] == before[k]);
                } else if k == p {
                    assert(out@[k] == s);
                } else {
                    assert(out@[k] == before[k - 1]);
                }
            }
            assert forall|a: int, b: int| 0 <= a < b < out@.len() implies (
            #[trigger] out@[a]).start <= (#[trigger] out@[b]).start by {
                if a < p && b < p {
                    assert(out@[a] == before[a] && out@[b] == before[b]);
                } else if a < p && b == p {
                    assert(out@[a] == before[a]);
                    assert(out@[b] == s);
                } else if a < p && b > p {
                    assert(out@[a] == before[a] && out@[b] == before[b - 1]);
                } else if a == p && b > p {
                    assert(out@[a] == s && out@[b] == before[b - 1]);
                    assert(p <= b - 1 < before.len());
                    if p < before.len() {
                        assert(before[p as int].start > s.start || p == before.len());
                        assert(before[p as int].start <= before[b - 1].start || p == b - 1);
                    }
                } else {
                    assert(out@[a] == before[a - 1] && out@[b] == before[b - 1]);
                }
            }
        }
        i = i + 1;
    }
    *spans = out;
}
} // verus!
