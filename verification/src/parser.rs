//! Structural parser: selects a grammar by file extension, runs the
//! entity-and-dependency capture query over the source text through the
//! grammar engine, and turns the captures into typed entities and links.
//! Parsing is deterministic: unchanged text yields identical entities.

use vstd::prelude::*;
use crate::models::{CodeEntity, EntityType, FileStructure, LinkEntity, LinkType};
use crate::error::AppError;
use crate::digest::{md5_hex, md5_hex_of};
use crate::text::{
    eq_lowercase,
    spec_ascii_lower,
    extension,
    extension_of,
    parent_of,
    parent_path,
    concat2,
    concat3,
    count_lines,
    line_count,
    seq_ends_with,
    seq_starts_with,
    str_ends_with,
    str_starts_with,
};
use crate::watcher::{should_ignore, spec_should_ignore};
use crate::ts_queries::{
    ts_entity_and_dep_query,
    js_entity_and_dep_query,
    spec_ts_query,
    spec_js_query,
};

verus! {

/// A source language the parser has a grammar for.
#[derive(Clone, Copy, Debug, PartialEq, Eq, Structural)]
pub enum CodeLanguage {
    JavaScript,
    TypeScript,
    Tsx,
    Jsx,
    Unknown,
}

/// The language selected for a file extension, matched without regard
/// to ASCII case.
pub open spec fn spec_language_of(ext: Seq<char>) -> CodeLanguage {
    if spec_ascii_lower(ext) == "js"@ {
        CodeLanguage::JavaScript
    } else if spec_ascii_lower(ext) == "jsx"@ {
        CodeLanguage::Jsx
    } else if spec_ascii_lower(ext) == "ts"@ {
        CodeLanguage::TypeScript
    } else if spec_ascii_lower(ext) == "tsx"@ {
        CodeLanguage::Tsx
    } else {
        CodeLanguage::Unknown
    }
}

impl CodeLanguage {
    /// Selects the language for a file extension, case-insensitively.
    pub fn from_extension(ext: &String) -> (r: CodeLanguage)
        ensures
            r == spec_language_of(ext@),
    {
        if eq_lowercase(ext, &"js".to_owned()) {
            CodeLanguage::JavaScript
        } else if eq_lowercase(ext, &"jsx".to_owned()) {
            CodeLanguage::Jsx
        } else if eq_lowercase(ext, &"ts".to_owned()) {
            CodeLanguage::TypeScript
        } else if eq_lowercase(ext, &"tsx".to_owned()) {
            CodeLanguage::Tsx
        } else {
            CodeLanguage::Unknown
        }
    }
}

/// The grammar tag handed to the grammar engine: JavaScript also serves
/// JSX; TypeScript and TSX are distinct grammars.
pub open spec fn spec_lang_tag(lang: CodeLanguage) -> int {
    match lang {
        CodeLanguage::JavaScript => 0,
        CodeLanguage::Jsx => 0,
        CodeLanguage::TypeScript => 1,
        CodeLanguage::Tsx => 2,
        CodeLanguage::Unknown => 3,
    }
}

/// The capture query run for a language.
pub open spec fn spec_query_of(lang: CodeLanguage) -> Seq<char> {
    match lang {
        CodeLanguage::TypeScript => spec_ts_query(),
        CodeLanguage::Tsx => spec_ts_query(),
        _ => spec_js_query(),
    }
}

/// One capture reported by the grammar engine: the capture's name, the
/// captured node's text, and its zero-based row span.
#[derive(Debug)]
pub struct CaptureRec {
    pub name: String,
    pub text: String,
    pub start_row: usize,
    pub end_row: usize,
}

/// The mathematical shape of one capture.
pub struct CaptureView {
    pub name: Seq<char>,
    pub text: Seq<char>,
    pub start_row: usize,
    pub end_row: usize,
}

impl View for CaptureRec {
    type V = CaptureView;

    open spec fn view(&self) -> CaptureView {
        CaptureView {
            name: self.name@,
            text: self.text@,
            start_row: self.start_row,
            end_row: self.end_row,
        }
    }
}

/// The capture run the grammar engine reports for a grammar, query and
/// source text. Parsing depends on those three alone, so the run is the
/// same in every process — the determinism the synchronizer relies on.
pub uninterp spec fn ts_captures_of(lang: int, query: Seq<char>, source: Seq<char>) -> Seq<
    CaptureView,
>;

/// Whether the grammar engine succeeds for a grammar, query and source.
/// Like the capture run, success depends on those three alone: the
/// engine consults nothing else, so two runs on the same input agree.
pub uninterp spec fn ts_parse_ok(lang: int, query: Seq<char>, source: Seq<char>) -> bool;

/// A built syntax tree of the grammar engine, opaque to the library.
#[verifier::external_type_specification]
#[verifier::external_body]
pub struct ExTree(tree_sitter::Tree);

/// A compiled capture query of the grammar engine, opaque to the library.
#[verifier::external_type_specification]
#[verifier::external_body]
pub struct ExQuery(tree_sitter::Query);

/// Relies on the grammar constructors of tree-sitter-typescript and
/// tree-sitter-javascript, on tree_sitter::Parser (new, set_language,
/// parse) and on tree_sitter::Query::new: the syntax tree of the source
/// under the grammar a tag selects (the JavaScript grammar for any tag
/// naming no other) and the compiled query, or the engine's error.
#[verifier::external_body]
fn engine_parse(lang_tag: u8, query_src: &str, source: &str) -> Result<
    (tree_sitter::Tree, tree_sitter::Query),
    String,
> {
    let lang = if lang_tag == 1 {
        tree_sitter_typescript::language_typescript()
    } else if lang_tag == 2 {
        tree_sitter_typescript::language_tsx()
    } else {
        tree_sitter_javascript::language()
    };
    let mut p = tree_sitter::Parser::new();
    p.set_language(lang).map_err(|e| e.to_string())?;
    let t = p.parse(source, None).ok_or("parse failed".to_string())?;
    let q = tree_sitter::Query::new(lang, query_src).map_err(|e| e.to_string())?;
    Ok((t, q))
}

/// Relies on tree_sitter::QueryCursor::captures over the built tree:
/// the capture run — and whether the run succeeds at all — is a pure
/// function of grammar, query and source; a grammar or parse failure
/// becomes an error message. Every captured node's start position row is
/// at or before its end position row, as the engine's spans are ordered.
#[verifier::external_body]
pub(crate) fn ts_collect_captures(lang_tag: u8, query_src: &str, source: &str) -> (r: Result<
    Vec<CaptureRec>,
    String,
>)
    ensures
        r is Ok <==> ts_parse_ok(lang_tag as int, query_src@, source@),
        r matches Ok(v) ==> v@.map_values(|c: CaptureRec| c@) == ts_captures_of(
            lang_tag as int,
            query_src@,
            source@,
        ),
        r matches Ok(v) ==> forall|i: int|
            0 <= i < v@.len() ==> (#[trigger] v@[i]).start_row <= v@[i].end_row,
{
    let (t, q) = engine_parse(lang_tag, query_src, source)?;
    let mut out = Vec::new();
    for (m, ci) in tree_sitter::QueryCursor::new().captures(&q, t.root_node(), source.as_bytes()) {
        let c = m.captures[ci];
        out.push(CaptureRec { name: q.capture_names()[c.index as usize].clone(), text: c.node.utf8_text(source.as_bytes()).unwrap_or("").to_string(), start_row: c.node.start_position().row, end_row: c.node.end_position().row });
    }
    Ok(out)
}

/// Does this capture yield an entity? Declarations are captured through
/// their name identifier (or, when anonymous, through the declaration
/// itself), dependencies through their source string.
pub open spec fn spec_cap_kept(c: CaptureView) -> bool {
    seq_ends_with(c.name, ".name"@) || seq_ends_with(c.name, ".source"@) || seq_ends_with(
        c.name,
        ".anon"@,
    )
}

/// The captures that yield entities, in capture order.
pub open spec fn spec_kept_captures(caps: Seq<CaptureView>) -> Seq<CaptureView>
    decreases caps.len(),
{
    if caps.len() == 0 {
        Seq::empty()
    } else if spec_cap_kept(caps[0]) {
        seq![caps[0]] + spec_kept_captures(caps.drop_first())
    } else {
        spec_kept_captures(caps.drop_first())
    }
}

proof fn lemma_kept_captures_push(caps: Seq<CaptureView>, x: CaptureView)
    ensures
        spec_kept_captures(caps.push(x)) =~= spec_kept_captures(caps) + (if spec_cap_kept(x) {
            seq![x]
        } else {
            Seq::<CaptureView>::empty()
        }),
    decreases caps.len(),
{
    if caps.len() == 0 {
        assert(caps.push(x)[0] == x);
        assert(caps.push(x).drop_first() =~= Seq::<CaptureView>::empty());
        assert(spec_kept_captures(Seq::<CaptureView>::empty()) =~= Seq::<CaptureView>::empty());
    } else {
        assert(caps.push(x)[0] == caps[0]);
        assert(caps.push(x).drop_first() =~= caps.drop_first().push(x));
        lemma_kept_captures_push(caps.drop_first(), x);
    }
}

/// The entity kind a capture name stands for, by its `<kind>.` prefix.
pub open spec fn spec_capture_kind(name: Seq<char>) -> EntityType {
    if seq_starts_with(name, "class"@) {
        EntityType::Class
    } else if seq_starts_with(name, "interface"@) {
        EntityType::Interface
    } else if seq_starts_with(name, "method"@) {
        EntityType::Method
    } else if seq_starts_with(name, "import"@) || seq_starts_with(name, "export"@) {
        EntityType::Import
    } else {
        EntityType::Function
    }
}

/// One-based display line of a zero-based row.
pub open spec fn spec_line_of_row(row: usize) -> usize {
    if row < usize::MAX {
        (row + 1) as usize
    } else {
        row
    }
}

/// A source string with its surrounding quotes removed.
pub open spec fn spec_strip_quotes(t: Seq<char>) -> Seq<char> {
    if t.len() >= 2 && ((t[0] == '"' && t[t.len() - 1] == '"') || (t[0] == '\'' && t[t.len() - 1]
        == '\'')) {
        t.subrange(1, t.len() - 1)
    } else {
        t
    }
}

/// Removes surrounding quotes from a captured source string.
pub fn strip_quotes(t: &String) -> (r: String)
    ensures
        r@ == spec_strip_quotes(t@),
{
    let n = t.as_str().unicode_len();
    if n >= 2 {
        let first = t.as_str().get_char(0);
        let last = t.as_str().get_char(n - 1);
        if (first == '"' && last == '"') || (first == '\'' && last == '\'') {
            return t.as_str().substring_char(1, n - 1).to_owned();
        }
    }
    t.clone()
}

/// The entity one kept capture yields for a file. A declaration's id is
/// its captured name; an anonymous declaration gets an empty id, which
/// the synchronizer later replaces by a synthesized stable key.
pub open spec fn spec_entity_matches(e: CodeEntity, path: Seq<char>, c: CaptureView) -> bool {
    &&& e.path@ == path
    &&& e.entity_type == spec_capture_kind(c.name)
    &&& e.start_line == Some(spec_line_of_row(c.start_row))
    &&& e.end_line == Some(spec_line_of_row(c.end_row))
    &&& e.children is None
    &&& if spec_capture_kind(c.name) is Import {
        &&& e.id@ == spec_strip_quotes(c.text)
        &&& crate::graph::props_view(e.properties@) == seq![("target"@, spec_strip_quotes(c.text))]
    } else if seq_ends_with(c.name, ".anon"@) {
        &&& e.id@.len() == 0
        &&& e.properties@.len() == 0
    } else {
        &&& e.id@ == c.text
        &&& e.properties@.len() == 0
    }
}

/// The parser: stateless, grammars and queries are fixed at build time.
pub struct Parser {}

impl Parser {
    /// Creates a parser.
    pub fn new() -> (r: Parser) {
        Parser {  }
    }

    /// Counts the display lines of a file's text.
    pub fn count_lines_in_file(&self, content: &String) -> (r: usize)
        ensures
            r as nat == line_count(content@),
    {
        count_lines(content)
    }

    /// Parses one file's text: every declaration and dependency capture
    /// becomes one entity, in capture order, with one-based lines whose
    /// start never exceeds the end. The call succeeds exactly when the
    /// language is known and the engine succeeds on this text, so the
    /// result — success included — is fully determined by language and
    /// text.
    pub fn parse_file(&self, path: &String, content: &String, language: CodeLanguage) -> (r:
        Result<Vec<CodeEntity>, AppError>)
        ensures
            r is Ok <==> (!(language is Unknown) && ts_parse_ok(
                spec_lang_tag(language),
                spec_query_of(language),
                content@,
            )),
            r matches Ok(items) ==> {
                let ks = spec_kept_captures(
                    ts_captures_of(
                        spec_lang_tag(language),
                        spec_query_of(language),
                        content@,
                    ),
                );
                items@.len() == ks.len() && forall|i: int|
                    0 <= i < items@.len() ==> spec_entity_matches(#[trigger] items@[i], path@, ks[i])
            },
            r matches Ok(items) ==> forall|i: int|
                0 <= i < items@.len() ==> (#[trigger] items@[i]).start_line->0
                    <= items@[i].end_line->0,
    {
        let (tag, query): (u8, &'static str) = match language {
            CodeLanguage::TypeScript => (1u8, ts_entity_and_dep_query()),
            CodeLanguage::Tsx => (2u8, ts_entity_and_dep_query()),
            CodeLanguage::JavaScript => (0u8, js_entity_and_dep_query()),
            CodeLanguage::Jsx => (0u8, js_entity_and_dep_query()),
            CodeLanguage::Unknown => {
                return Err(AppError::UnsupportedLanguage("Unknown language".to_owned()));
            },
        };
        let caps = match ts_collect_captures(tag, query, content.as_str()) {
            Ok(v) => v,
            Err(m) => {
                return Err(AppError::TreeSitter(m));
            },
        };
        let ghost capsv = caps@.map_values(|c: CaptureRec| c@);
        let n = caps.len();
        let mut items: Vec<CodeEntity> = Vec::new();
        let mut i: usize = 0;
        proof {
            assert(capsv.take(0) =~= Seq::<CaptureView>::empty());
            assert(spec_kept_captures(Seq::<CaptureView>::empty()) =~= Seq::<
                CaptureView,
            >::empty());
            assert forall|j: int| 0 <= j < capsv.len() implies (#[trigger] capsv[j]).start_row
                <= capsv[j].end_row by {
                assert(capsv[j] == caps@[j]@);
            }
        }
        while i < n
            invariant
                n == caps@.len(),
                capsv == caps@.map_values(|c: CaptureRec| c@),
                i <= n,
                items@.len() == spec_kept_captures(capsv.take(i as int)).len(),
                forall|j: int|
                    0 <= j < items@.len() ==> spec_entity_matches(
                        #[trigger] items@[j],
                        path@,
                        spec_kept_captures(capsv.take(i as int))[j],
                    ),
                forall|j: int|
                    0 <= j < items@.len() ==> (#[trigger] items@[j]).start_line->0
                        <= items@[j].end_line->0,
                forall|j: int|
                    0 <= j < capsv.len() ==> (#[trigger] capsv[j]).start_row <= capsv[j].end_row,
            decreases n - i,
        {
            let cap = &caps[i];
            let is_name = str_ends_with(&cap.name, &".name".to_owned());
            let is_source = str_ends_with(&cap.name, &".source".to_owned());
            let is_anon = str_ends_with(&cap.name, &".anon".to_owned());
            proof {
                assert(capsv[i as int] == caps@[i as int]@);
            }
            if is_name || is_source || is_anon {
                let kind = self.capture_kind(&cap.name);
                let start_line: usize = if cap.start_row < usize::MAX {
                    cap.start_row + 1
                } else {
                    cap.start_row
                };
                let end_line: usize = if cap.end_row < usize::MAX {
                    cap.end_row + 1
                } else {
                    cap.end_row
                };
                let is_import = kind == EntityType::Import;
                let (id, props): (String, Vec<(String, String)>) = if is_import {
                    let target = strip_quotes(&cap.text);
                    let mut ps: Vec<(String, String)> = Vec::new();
                    ps.push(("target".to_owned(), target.clone()));
                    proof {
                        assert(crate::graph::props_view(ps@) =~= seq![
                            ("target"@, spec_strip_quotes(capsv[i as int].text)),
                        ]);
                    }
                    (target, ps)
                } else if is_anon {
                    (String::new(), Vec::new())
                } else {
                    (cap.text.clone(), Vec::new())
                };
                let e = CodeEntity {
                    id,
                    path: path.clone(),
                    entity_type: kind,
                    start_line: Some(start_line),
                    end_line: Some(end_line),
                    properties: props,
                    children: None,
                };
                let ghost prev = items@;
                items.push(e);
                proof {
                    assert(spec_entity_matches(items@[prev.len() as int], path@, capsv[i as int]));
                }
            }
            proof {
                lemma_kept_captures_push(capsv.take(i as int), capsv[i as int]);
                assert(capsv.take(i + 1) =~= capsv.take(i as int).push(capsv[i as int]));
            }
            i = i + 1;
        }
        proof {
            assert(capsv.take(n as int) =~= capsv);
        }
        Ok(items)
    }

    /// The entity kind of a capture name.
    fn capture_kind(&self, name: &String) -> (r: EntityType)
        ensures
            r == spec_capture_kind(name@),
    {
        if str_starts_with(name, &"class".to_owned()) {
            EntityType::Class
        } else if str_starts_with(name, &"interface".to_owned()) {
            EntityType::Interface
        } else if str_starts_with(name, &"method".to_owned()) {
            EntityType::Method
        } else if str_starts_with(name, &"import".to_owned()) || str_starts_with(
            name,
            &"export".to_owned(),
        ) {
            EntityType::Import
        } else {
            EntityType::Function
        }
    }

    /// Parses one file by its extension and aggregates the result with
    /// the file's content hash. Only TypeScript sources are processed on
    /// this path; everything else is an unsupported-language error. The
    /// call succeeds exactly when the extension names TypeScript or TSX
    /// (in any letter case) and the engine succeeds on this text.
    pub fn parse_single_file(&self, path: &String, content: &String, extension_str: &String) -> (
        r: Result<FileStructure, AppError>)
        ensures
            ({
                let lang = spec_language_of(extension_str@);
                r is Ok <==> ((lang is TypeScript || lang is Tsx) && ts_parse_ok(
                    spec_lang_tag(lang),
                    spec_query_of(lang),
                    content@,
                ))
            }),
            r matches Ok(fs) ==> {
                let lang = spec_language_of(extension_str@);
                let ks = spec_kept_captures(
                    ts_captures_of(spec_lang_tag(lang), spec_query_of(lang), content@),
                );
                fs.file_path@ == path@ && fs.file_hash@ == md5_hex_of(
                    vstd::utf8::encode_utf8(content@),
                ) && fs.structure_type@ == "file_structure"@ && fs.items@.len() == ks.len()
                    && forall|i: int|
                    0 <= i < fs.items@.len() ==> spec_entity_matches(
                        #[trigger] fs.items@[i],
                        path@,
                        ks[i],
                    )
            },
    {
        let language = CodeLanguage::from_extension(extension_str);
        let is_ts = language == CodeLanguage::TypeScript;
        let is_tsx = language == CodeLanguage::Tsx;
        if !is_ts && !is_tsx {
            return Err(
                AppError::UnsupportedLanguage(
                    "Only processing TypeScript files for now".to_owned(),
                ),
            );
        }
        let items = match self.parse_file(path, content, language) {
            Ok(items) => items,
            Err(e) => {
                return Err(e);
            },
        };
        let file_hash = md5_hex(content.as_str().as_bytes());
        Ok(
            FileStructure {
                structure_type: "file_structure".to_owned(),
                file_path: path.clone(),
                items,
                file_hash,
            },
        )
    }
}

/// Is this path one of the known files?
pub open spec fn spec_known_has(known: Seq<String>, p: Seq<char>) -> bool {
    exists|i: int| 0 <= i < known.len() && (#[trigger] known[i])@ == p
}

/// Where a relative import specifier points, against the known file list:
/// the specifier is joined to the importing file's directory and tried
/// bare and with each source extension, first known candidate wins. A
/// non-relative specifier (a package) resolves to nothing.
pub open spec fn spec_resolve_import(
    file: Seq<char>,
    specifier: Seq<char>,
    known: Seq<String>,
) -> Option<Seq<char>> {
    if seq_starts_with(specifier, "./"@) {
        let rel = specifier.subrange(2, specifier.len() as int);
        let base = parent_of(file);
        let joined = if base.len() == 0 {
            rel
        } else {
            base + seq!['/'] + rel
        };
        if spec_known_has(known, joined) {
            Some(joined)
        } else if spec_known_has(known, joined + ".ts"@) {
            Some(joined + ".ts"@)
        } else if spec_known_has(known, joined + ".tsx"@) {
            Some(joined + ".tsx"@)
        } else if spec_known_has(known, joined + ".js"@) {
            Some(joined + ".js"@)
        } else if spec_known_has(known, joined + ".jsx"@) {
            Some(joined + ".jsx"@)
        } else {
            None
        }
    } else {
        None
    }
}

/// Does the known file list hold this path?
pub fn known_has(known: &Vec<String>, p: &String) -> (r: bool)
    ensures
        r == spec_known_has(known@, p@),
{
    let n = known.len();
    let mut i: usize = 0;
    while i < n
        invariant
            n == known@.len(),
            i <= n,
            forall|j: int| 0 <= j < i ==> (#[trigger] known@[j])@ != p@,
        decreases n - i,
    {
        if known[i] == *p {
            return true;
        }
        i = i + 1;
    }
    false
}

/// Resolves a relative import specifier to a known file path.
pub fn resolve_import(file: &String, specifier: &String, known: &Vec<String>) -> (r: Option<
    String,
>)
    ensures
        match r {
            Some(p) => spec_resolve_import(file@, specifier@, known@) == Some(p@),
            None => spec_resolve_import(file@, specifier@, known@) is None,
        },
{
    let dot_slash = "./".to_owned();
    if !str_starts_with(specifier, &dot_slash) {
        return None;
    }
    proof {
        reveal_strlit("./");
        assert("./"@.len() == 2);
    }
    let n = specifier.as_str().unicode_len();
    let rel = specifier.as_str().substring_char(2, n).to_owned();
    let base = parent_path(file);
    let joined = if base.as_str().unicode_len() == 0 {
        rel
    } else {
        concat3(base.as_str(), "/", rel.as_str())
    };
    proof {
        reveal_strlit("/");
        assert("/"@ =~= seq!['/']);
    }
    if known_has(known, &joined) {
        return Some(joined);
    }
    let c_ts = concat2(joined.as_str(), ".ts");
    if known_has(known, &c_ts) {
        return Some(c_ts);
    }
    let c_tsx = concat2(joined.as_str(), ".tsx");
    if known_has(known, &c_tsx) {
        return Some(c_tsx);
    }
    let c_js = concat2(joined.as_str(), ".js");
    if known_has(known, &c_js) {
        return Some(c_js);
    }
    let c_jsx = concat2(joined.as_str(), ".jsx");
    if known_has(known, &c_jsx) {
        return Some(c_jsx);
    }
    None
}


proof fn lemma_dir_witness_push(
    nodes: Seq<CodeEntity>,
    x: CodeEntity,
    entries: Seq<DirEntry>,
    patterns: Seq<String>,
    upto: int,
)
    requires
        forall|a: int|
            0 <= a < upto && (#[trigger] entries[a]).is_dir && !spec_should_ignore(
                entries[a].path@,
                patterns,
            ) ==> exists|j: int|
                0 <= j < nodes.len() && (#[trigger] nodes[j]).id@ == entries[a].path@
                    && nodes[j].entity_type is Directory,
    ensures
        forall|a: int|
            0 <= a < upto && (#[trigger] entries[a]).is_dir && !spec_should_ignore(
                entries[a].path@,
                patterns,
            ) ==> exists|j: int|
                0 <= j < nodes.push(x).len() && (#[trigger] nodes.push(x)[j]).id@
                    == entries[a].path@ && nodes.push(x)[j].entity_type is Directory,
{
    assert forall|a: int|
        0 <= a < upto && (#[trigger] entries[a]).is_dir && !spec_should_ignore(
            entries[a].path@,
            patterns,
        ) implies exists|j: int|
        0 <= j < nodes.push(x).len() && (#[trigger] nodes.push(x)[j]).id@ == entries[a].path@
            && nodes.push(x)[j].entity_type is Directory by {
        let j = choose|j: int|
            0 <= j < nodes.len() && (#[trigger] nodes[j]).id@ == entries[a].path@
                && nodes[j].entity_type is Directory;
        assert(nodes.push(x)[j] == nodes[j]);
    }
}

/// Appends a link whose origin survives the ignore rules, keeping the
/// whole run clean.
fn push_clean_link(
    links: &mut Vec<LinkEntity>,
    link: LinkEntity,
    Ghost(patterns): Ghost<Seq<String>>,
)
    requires
        forall|a: int|
            0 <= a < old(links)@.len() ==> !spec_should_ignore(
                (#[trigger] old(links)@[a]).from_name@,
                patterns,
            ),
        !spec_should_ignore(link.from_name@, patterns),
    ensures
        forall|a: int|
            0 <= a < final(links)@.len() ==> !spec_should_ignore(
                (#[trigger] final(links)@[a]).from_name@,
                patterns,
            ),
        final(links)@ =~= old(links)@.push(link),
{
    let ghost prev = links@;
    links.push(link);
    proof {
        assert forall|a: int| 0 <= a < links@.len() implies !spec_should_ignore(
            (#[trigger] links@[a]).from_name@,
            patterns,
        ) by {
            if a < prev.len() {
                assert(links@[a] == prev[a]);
            }
        }
    }
}

/// One entry of a repository listing, as observed at the filesystem edge.
pub struct DirEntry {
    pub path: String,
    pub is_dir: bool,
    pub content: String,
}

/// The file paths a listing offers for import resolution: its
/// non-ignored files, in listing order.
pub open spec fn spec_known_files(entries: Seq<DirEntry>, patterns: Seq<String>) -> Seq<String>
    decreases entries.len(),
{
    if entries.len() == 0 {
        Seq::empty()
    } else {
        let rest = spec_known_files(entries.drop_first(), patterns);
        if !entries[0].is_dir && !spec_should_ignore(entries[0].path@, patterns) {
            seq![entries[0].path] + rest
        } else {
            rest
        }
    }
}

proof fn lemma_known_files_push(entries: Seq<DirEntry>, x: DirEntry, patterns: Seq<String>)
    ensures
        spec_known_files(entries.push(x), patterns) =~= spec_known_files(entries, patterns) + (
        if !x.is_dir && !spec_should_ignore(x.path@, patterns) {
            seq![x.path]
        } else {
            Seq::<String>::empty()
        }),
    decreases entries.len(),
{
    if entries.len() == 0 {
        assert(entries.push(x)[0] == x);
        assert(entries.push(x).drop_first() =~= Seq::<DirEntry>::empty());
        assert(spec_known_files(Seq::<DirEntry>::empty(), patterns) =~= Seq::<String>::empty());
    } else {
        assert(entries.push(x)[0] == entries[0]);
        assert(entries.push(x).drop_first() =~= entries.drop_first().push(x));
        lemma_known_files_push(entries.drop_first(), x, patterns);
    }
}

/// Is this listing entry parsed by the scan: a file that survives the
/// ignore rules, has a known language, and the engine succeeds on?
pub open spec fn spec_entry_parsed(e: DirEntry, patterns: Seq<String>) -> bool {
    &&& !e.is_dir
    &&& !spec_should_ignore(e.path@, patterns)
    &&& !(spec_language_of(extension_of(e.path@)) is Unknown)
    &&& ts_parse_ok(
        spec_lang_tag(spec_language_of(extension_of(e.path@))),
        spec_query_of(spec_language_of(extension_of(e.path@))),
        e.content@,
    )
}

/// The entity captures of one entry's text under its language.
pub open spec fn spec_entry_captures(e: DirEntry) -> Seq<CaptureView> {
    spec_kept_captures(
        ts_captures_of(
            spec_lang_tag(spec_language_of(extension_of(e.path@))),
            spec_query_of(spec_language_of(extension_of(e.path@))),
            e.content@,
        ),
    )
}

/// The scan emitted this entry's file node: id and path are the entry's
/// path, the kind is File, and the line span covers the whole text.
pub open spec fn spec_file_node_present(nodes: Seq<CodeEntity>, e: DirEntry) -> bool {
    exists|j: int|
        0 <= j < nodes.len() && (#[trigger] nodes[j]).id@ == e.path@ && nodes[j].path@ == e.path@
            && nodes[j].entity_type is File && nodes[j].start_line == Some(0usize)
            && nodes[j].end_line is Some && nodes[j].end_line->0 as nat == line_count(e.content@)
}

/// The scan emitted an entity for this capture of this file.
pub open spec fn spec_capture_entity_present(
    nodes: Seq<CodeEntity>,
    path: Seq<char>,
    c: CaptureView,
) -> bool {
    exists|j: int| 0 <= j < nodes.len() && spec_entity_matches(#[trigger] nodes[j], path, c)
}

/// The scan emitted the link this capture calls for: a containment edge
/// from the file for functions, methods and classes, and a resolved
/// cross-file import edge for dependency captures whose target is a
/// known, non-ignored file. Interfaces carry no link of their own.
pub open spec fn spec_capture_link_present(
    links: Seq<LinkEntity>,
    path: Seq<char>,
    c: CaptureView,
    known: Seq<String>,
    patterns: Seq<String>,
) -> bool {
    if seq_ends_with(c.name, ".anon"@) || c.text.len() == 0 {
        true  // a nameless declaration gets no containment link of its own
    } else if spec_capture_kind(c.name) is Function || spec_capture_kind(c.name) is Method {
        exists|l: int|
            0 <= l < links.len() && (#[trigger] links[l]).from_name@ == path && links[l].to_name@
                == c.text && links[l].link_type is Has
    } else if spec_capture_kind(c.name) is Class {
        exists|l: int|
            0 <= l < links.len() && (#[trigger] links[l]).from_name@ == path && links[l].to_name@
                == c.text && links[l].link_type is Owns
    } else if spec_capture_kind(c.name) is Import {
        match spec_resolve_import(path, spec_strip_quotes(c.text), known) {
            Some(t) => !spec_should_ignore(t, patterns) ==> exists|l: int|
                0 <= l < links.len() && (#[trigger] links[l]).from_name@ == path
                    && links[l].to_name@ == t && links[l].link_type is Import,
            None => true,
        }
    } else {
        true
    }
}

proof fn lemma_capture_link_present_push(
    links: Seq<LinkEntity>,
    x: LinkEntity,
    path: Seq<char>,
    c: CaptureView,
    known: Seq<String>,
    patterns: Seq<String>,
)
    requires
        spec_capture_link_present(links, path, c, known, patterns),
    ensures
        spec_capture_link_present(links.push(x), path, c, known, patterns),
{
    let kind = spec_capture_kind(c.name);
    if seq_ends_with(c.name, ".anon"@) || c.text.len() == 0 {
    } else if kind is Function || kind is Method {
        let l = choose|l: int|
            0 <= l < links.len() && (#[trigger] links[l]).from_name@ == path && links[l].to_name@
                == c.text && links[l].link_type is Has;
        assert(links.push(x)[l] == links[l]);
    } else if kind is Class {
        let l = choose|l: int|
            0 <= l < links.len() && (#[trigger] links[l]).from_name@ == path && links[l].to_name@
                == c.text && links[l].link_type is Owns;
        assert(links.push(x)[l] == links[l]);
    } else if kind is Import {
        match spec_resolve_import(path, spec_strip_quotes(c.text), known) {
            Some(t) => {
                if !spec_should_ignore(t, patterns) {
                    let l = choose|l: int|
                        0 <= l < links.len() && (#[trigger] links[l]).from_name@ == path
                            && links[l].to_name@ == t && links[l].link_type is Import;
                    assert(links.push(x)[l] == links[l]);
                }
            },
            None => {},
        }
    }
}

proof fn lemma_parsed_node_clauses_push(
    nodes: Seq<CodeEntity>,
    x: CodeEntity,
    entries: Seq<DirEntry>,
    patterns: Seq<String>,
    upto: int,
)
    requires
        forall|a: int|
            0 <= a < upto && #[trigger] spec_entry_parsed(entries[a], patterns)
                ==> spec_file_node_present(nodes, entries[a]),
        forall|a: int, k: int|
            #![trigger spec_entry_captures(entries[a])[k]]
            0 <= a < upto && spec_entry_parsed(entries[a], patterns) && 0 <= k
                < spec_entry_captures(entries[a]).len() ==> spec_capture_entity_present(
                nodes,
                entries[a].path@,
                spec_entry_captures(entries[a])[k],
            ),
    ensures
        forall|a: int|
            0 <= a < upto && #[trigger] spec_entry_parsed(entries[a], patterns)
                ==> spec_file_node_present(nodes.push(x), entries[a]),
        forall|a: int, k: int|
            #![trigger spec_entry_captures(entries[a])[k]]
            0 <= a < upto && spec_entry_parsed(entries[a], patterns) && 0 <= k
                < spec_entry_captures(entries[a]).len() ==> spec_capture_entity_present(
                nodes.push(x),
                entries[a].path@,
                spec_entry_captures(entries[a])[k],
            ),
{
    assert forall|a: int|
        0 <= a < upto && #[trigger] spec_entry_parsed(entries[a], patterns) implies
        spec_file_node_present(nodes.push(x), entries[a]) by {
        let j = choose|j: int|
            0 <= j < nodes.len() && (#[trigger] nodes[j]).id@ == entries[a].path@
                && nodes[j].path@ == entries[a].path@ && nodes[j].entity_type is File
                && nodes[j].start_line == Some(0usize) && nodes[j].end_line is Some
                && nodes[j].end_line->0 as nat == line_count(entries[a].content@);
        assert(nodes.push(x)[j] == nodes[j]);
    }
    assert forall|a: int, k: int|
        #![trigger spec_entry_captures(entries[a])[k]]
        0 <= a < upto && spec_entry_parsed(entries[a], patterns) && 0 <= k < spec_entry_captures(
            entries[a],
        ).len() implies spec_capture_entity_present(
        nodes.push(x),
        entries[a].path@,
        spec_entry_captures(entries[a])[k],
    ) by {
        let j = choose|j: int|
            0 <= j < nodes.len() && spec_entity_matches(
                #[trigger] nodes[j],
                entries[a].path@,
                spec_entry_captures(entries[a])[k],
            );
        assert(nodes.push(x)[j] == nodes[j]);
    }
}

proof fn lemma_parsed_link_clause_push(
    links: Seq<LinkEntity>,
    x: LinkEntity,
    entries: Seq<DirEntry>,
    patterns: Seq<String>,
    known: Seq<String>,
    upto: int,
)
    requires
        forall|a: int, k: int|
            #![trigger spec_entry_captures(entries[a])[k]]
            0 <= a < upto && spec_entry_parsed(entries[a], patterns) && 0 <= k
                < spec_entry_captures(entries[a]).len() ==> spec_capture_link_present(
                links,
                entries[a].path@,
                spec_entry_captures(entries[a])[k],
                known,
                patterns,
            ),
    ensures
        forall|a: int, k: int|
            #![trigger spec_entry_captures(entries[a])[k]]
            0 <= a < upto && spec_entry_parsed(entries[a], patterns) && 0 <= k
                < spec_entry_captures(entries[a]).len() ==> spec_capture_link_present(
                links.push(x),
                entries[a].path@,
                spec_entry_captures(entries[a])[k],
                known,
                patterns,
            ),
{
    assert forall|a: int, k: int|
        #![trigger spec_entry_captures(entries[a])[k]]
        0 <= a < upto && spec_entry_parsed(entries[a], patterns) && 0 <= k < spec_entry_captures(
            entries[a],
        ).len() implies spec_capture_link_present(
        links.push(x),
        entries[a].path@,
        spec_entry_captures(entries[a])[k],
        known,
        patterns,
    ) by {
        lemma_capture_link_present_push(
            links,
            x,
            entries[a].path@,
            spec_entry_captures(entries[a])[k],
            known,
            patterns,
        );
    }
}

proof fn lemma_capture_links_prefix_push(
    links: Seq<LinkEntity>,
    x: LinkEntity,
    path: Seq<char>,
    ks: Seq<CaptureView>,
    known: Seq<String>,
    patterns: Seq<String>,
    upto: int,
)
    requires
        forall|b: int|
            0 <= b < upto ==> spec_capture_link_present(
                links,
                path,
                #[trigger] ks[b],
                known,
                patterns,
            ),
    ensures
        forall|b: int|
            0 <= b < upto ==> spec_capture_link_present(
                links.push(x),
                path,
                #[trigger] ks[b],
                known,
                patterns,
            ),
{
    assert forall|b: int| 0 <= b < upto implies spec_capture_link_present(
        links.push(x),
        path,
        #[trigger] ks[b],
        known,
        patterns,
    ) by {
        lemma_capture_link_present_push(links, x, path, ks[b], known, patterns);
    }
}

impl Parser {
    /// Walks a repository listing. Every surviving directory becomes a
    /// Directory entity. Every surviving source file the engine succeeds
    /// on contributes its File node spanning the whole text, one entity
    /// per declaration or dependency capture, a containment link from
    /// the file per function, method and class, and a resolved import
    /// link per dependency whose target is a known file — so a failing
    /// parse costs only that one file's contributions. Nothing that
    /// matches the ignore rules is parsed or reported, no link leaves an
    /// ignored path, and every Directory or File entity names a real
    /// listing entry.
    pub fn parse_and_ingest_directory(&self, entries: &Vec<DirEntry>, patterns: &Vec<String>) -> (
        r: (Vec<CodeEntity>, Vec<LinkEntity>))
        ensures
            forall|i: int|
                0 <= i < r.0@.len() ==> !spec_should_ignore((#[trigger] r.0@[i]).path@, patterns@),
            forall|i: int|
                0 <= i < r.1@.len() ==> !spec_should_ignore(
                    (#[trigger] r.1@[i]).from_name@,
                    patterns@,
                ),
            forall|i: int|
                0 <= i < entries@.len() && (#[trigger] entries@[i]).is_dir && !spec_should_ignore(
                    entries@[i].path@,
                    patterns@,
                ) ==> exists|j: int|
                    0 <= j < r.0@.len() && (#[trigger] r.0@[j]).id@ == entries@[i].path@
                        && r.0@[j].entity_type is Directory,
            forall|i: int|
                0 <= i < r.0@.len() && (#[trigger] r.0@[i]).entity_type is Directory
                    ==> exists|j: int|
                    0 <= j < entries@.len() && (#[trigger] entries@[j]).is_dir
                        && entries@[j].path@ == r.0@[i].path@,
            forall|i: int|
                0 <= i < r.0@.len() && (#[trigger] r.0@[i]).entity_type is File ==> exists|j: int|
                    0 <= j < entries@.len() && !(#[trigger] entries@[j]).is_dir
                        && entries@[j].path@ == r.0@[i].path@,
            forall|i: int|
                0 <= i < entries@.len() && #[trigger] spec_entry_parsed(entries@[i], patterns@)
                    ==> spec_file_node_present(r.0@, entries@[i]),
            forall|i: int, k: int|
                #![trigger spec_entry_captures(entries@[i])[k]]
                0 <= i < entries@.len() && spec_entry_parsed(entries@[i], patterns@) && 0 <= k
                    < spec_entry_captures(entries@[i]).len() ==> spec_capture_entity_present(
                    r.0@,
                    entries@[i].path@,
                    spec_entry_captures(entries@[i])[k],
                ),
            forall|i: int, k: int|
                #![trigger spec_entry_captures(entries@[i])[k]]
                0 <= i < entries@.len() && spec_entry_parsed(entries@[i], patterns@) && 0 <= k
                    < spec_entry_captures(entries@[i]).len() ==> spec_capture_link_present(
                    r.1@,
                    entries@[i].path@,
                    spec_entry_captures(entries@[i])[k],
                    spec_known_files(entries@, patterns@),
                    patterns@,
                ),
    {
        let n = entries.len();

        // The known, non-ignored file paths, for import resolution.
        let mut known: Vec<String> = Vec::new();
        let mut k: usize = 0;
        proof {
            assert(entries@.take(0) =~= Seq::<DirEntry>::empty());
            assert(spec_known_files(Seq::<DirEntry>::empty(), patterns@) =~= Seq::<
                String,
            >::empty());
        }
        while k < n
            invariant
                n == entries@.len(),
                k <= n,
                known@ =~= spec_known_files(entries@.take(k as int), patterns@),
            decreases n - k,
        {
            if !entries[k].is_dir && !should_ignore(&entries[k].path, patterns) {
                known.push(entries[k].path.clone());
            }
            proof {
                lemma_known_files_push(entries@.take(k as int), entries@[k as int], patterns@);
                assert(entries@.take(k + 1) =~= entries@.take(k as int).push(entries@[k as int]));
            }
            k = k + 1;
        }
        proof {
            assert(entries@.take(n as int) =~= entries@);
        }
        let ghost knownv = known@;

        let mut nodes: Vec<CodeEntity> = Vec::new();
        let mut links: Vec<LinkEntity> = Vec::new();
        let mut i: usize = 0;
        while i < n
            invariant
                n == entries@.len(),
                i <= n,
                knownv == known@,
                knownv =~= spec_known_files(entries@, patterns@),
                forall|a: int|
                    0 <= a < nodes@.len() ==> !spec_should_ignore(
                        (#[trigger] nodes@[a]).path@,
                        patterns@,
                    ),
                forall|a: int|
                    0 <= a < links@.len() ==> !spec_should_ignore(
                        (#[trigger] links@[a]).from_name@,
                        patterns@,
                    ),
                forall|a: int|
                    0 <= a < i && (#[trigger] entries@[a]).is_dir && !spec_should_ignore(
                        entries@[a].path@,
                        patterns@,
                    ) ==> exists|j: int|
                        0 <= j < nodes@.len() && (#[trigger] nodes@[j]).id@ == entries@[a].path@
                            && nodes@[j].entity_type is Directory,
                forall|a: int|
                    0 <= a < nodes@.len() && (#[trigger] nodes@[a]).entity_type is Directory
                        ==> exists|j: int|
                        0 <= j < entries@.len() && (#[trigger] entries@[j]).is_dir
                            && entries@[j].path@ == nodes@[a].path@,
                forall|a: int|
                    0 <= a < nodes@.len() && (#[trigger] nodes@[a]).entity_type is File
                        ==> exists|j: int|
                        0 <= j < entries@.len() && !(#[trigger] entries@[j]).is_dir
                            && entries@[j].path@ == nodes@[a].path@,
                forall|a: int|
                    0 <= a < i && #[trigger] spec_entry_parsed(entries@[a], patterns@)
                        ==> spec_file_node_present(nodes@, entries@[a]),
                forall|a: int, k2: int|
                    #![trigger spec_entry_captures(entries@[a])[k2]]
                    0 <= a < i && spec_entry_parsed(entries@[a], patterns@) && 0 <= k2
                        < spec_entry_captures(entries@[a]).len() ==> spec_capture_entity_present(
                        nodes@,
                        entries@[a].path@,
                        spec_entry_captures(entries@[a])[k2],
                    ),
                forall|a: int, k2: int|
                    #![trigger spec_entry_captures(entries@[a])[k2]]
                    0 <= a < i && spec_entry_parsed(entries@[a], patterns@) && 0 <= k2
                        < spec_entry_captures(entries@[a]).len() ==> spec_capture_link_present(
                        links@,
                        entries@[a].path@,
                        spec_entry_captures(entries@[a])[k2],
                        knownv,
                        patterns@,
                    ),
            decreases n - i,
        {
            let entry = &entries[i];
            if should_ignore(&entry.path, patterns) {
                proof {
                    assert(!spec_entry_parsed(entries@[i as int], patterns@));
                }
                i = i + 1;
                continue ;
            }
            if entry.is_dir {
                let dir_node = CodeEntity {
                    id: entry.path.clone(),
                    path: entry.path.clone(),
                    entity_type: EntityType::Directory,
                    start_line: Some(0),
                    end_line: Some(0),
                    properties: Vec::new(),
                    children: Some(Vec::new()),
                };
                proof {
                    lemma_dir_witness_push(nodes@, dir_node, entries@, patterns@, i as int);
                    lemma_parsed_node_clauses_push(
                        nodes@,
                        dir_node,
                        entries@,
                        patterns@,
                        i as int,
                    );
                }
                nodes.push(dir_node);
                proof {
                    assert(nodes@[nodes@.len() - 1].id@ == entries@[i as int].path@);
                    assert(nodes@[nodes@.len() - 1].entity_type is Directory);
                    assert(nodes@[nodes@.len() - 1].path@ == entries@[i as int].path@);
                }
                let parent = parent_path(&entry.path);
                if parent.as_str().unicode_len() > 0 && !should_ignore(&parent, patterns) {
                    let link = LinkEntity {
                        from_name: parent,
                        to_name: entry.path.clone(),
                        link_type: LinkType::Has,
                    };
                    proof {
                        lemma_parsed_link_clause_push(
                            links@,
                            link,
                            entries@,
                            patterns@,
                            knownv,
                            i as int,
                        );
                    }
                    push_clean_link(&mut links, link, Ghost(patterns@));
                }
                proof {
                    assert(!spec_entry_parsed(entries@[i as int], patterns@));
                }
            } else {
                let ext = extension(&entry.path);
                let language = CodeLanguage::from_extension(&ext);
                let is_unknown = language == CodeLanguage::Unknown;
                if !is_unknown {
                    match self.parse_file(&entry.path, &entry.content, language) {
                        Ok(mut children) => {
                            let ghost ks = spec_entry_captures(entries@[i as int]);
                            proof {
                                assert(spec_entry_parsed(entries@[i as int], patterns@));
                                assert(children@.len() == ks.len());
                                assert forall|b: int| 0 <= b < children@.len() implies
                                    spec_entity_matches(
                                    #[trigger] children@[b],
                                    entries@[i as int].path@,
                                    ks[b],
                                ) by {}
                                assert forall|b: int| 0 <= b < children@.len() implies !((
                                #[trigger] children@[b]).entity_type is Directory) && !(
                                children@[b].entity_type is File) by {
                                    assert(spec_entity_matches(
                                        children@[b],
                                        entries@[i as int].path@,
                                        ks[b],
                                    ));
                                }
                            }
                            // Containment link from the parent directory.
                            let parent = parent_path(&entry.path);
                            if parent.as_str().unicode_len() > 0 && !should_ignore(
                                &parent,
                                patterns,
                            ) {
                                let link = LinkEntity {
                                    from_name: parent,
                                    to_name: entry.path.clone(),
                                    link_type: LinkType::Owns,
                                };
                                proof {
                                    lemma_parsed_link_clause_push(
                                        links@,
                                        link,
                                        entries@,
                                        patterns@,
                                        knownv,
                                        i as int,
                                    );
                                }
                                push_clean_link(&mut links, link, Ghost(patterns@));
                            }
                            // Links for every extracted entity, then the
                            // entities themselves.
                            let ghost childrenv = children@;
                            let m = children.len();
                            let mut j: usize = 0;
                            while j < m
                                invariant
                                    m == childrenv.len(),
                                    children@.len() + j == m,
                                    childrenv.len() == ks.len(),
                                    ks == spec_entry_captures(entries@[i as int]),
                                    knownv == known@,
                                    knownv =~= spec_known_files(entries@, patterns@),
                                    forall|b: int|
                                        0 <= b < children@.len() ==> (#[trigger] children@[b])
                                            == childrenv[j + b],
                                    forall|b: int|
                                        0 <= b < childrenv.len() ==> spec_entity_matches(
                                            #[trigger] childrenv[b],
                                            entries@[i as int].path@,
                                            ks[b],
                                        ),
                                    forall|b: int|
                                        0 <= b < childrenv.len() ==> (
                                        #[trigger] childrenv[b]).path@ == entries@[i as int].path@,
                                    forall|b: int|
                                        0 <= b < childrenv.len() ==> !((
                                        #[trigger] childrenv[b]).entity_type is Directory) && !(
                                        childrenv[b].entity_type is File),
                                    !spec_should_ignore(entries@[i as int].path@, patterns@),
                                    entry.path@ == entries@[i as int].path@,
                                    i < n,
                                    n == entries@.len(),
                                    forall|b: int|
                                        #![trigger childrenv[b]]
                                        0 <= b < j ==> exists|idx: int|
                                            0 <= idx < nodes@.len() && (#[trigger] nodes@[idx])
                                                == childrenv[b],
                                    forall|b: int|
                                        0 <= b < j ==> spec_capture_link_present(
                                            links@,
                                            entries@[i as int].path@,
                                            #[trigger] ks[b],
                                            knownv,
                                            patterns@,
                                        ),
                                    forall|a: int|
                                        0 <= a < nodes@.len() ==> !spec_should_ignore(
                                            (#[trigger] nodes@[a]).path@,
                                            patterns@,
                                        ),
                                    forall|a: int|
                                        0 <= a < links@.len() ==> !spec_should_ignore(
                                            (#[trigger] links@[a]).from_name@,
                                            patterns@,
                                        ),
                                    forall|a: int|
                                        0 <= a < i && (#[trigger] entries@[a]).is_dir
                                            && !spec_should_ignore(entries@[a].path@, patterns@)
                                            ==> exists|j2: int|
                                            0 <= j2 < nodes@.len() && (#[trigger] nodes@[j2]).id@
                                                == entries@[a].path@ && nodes@[j2].entity_type
                                                is Directory,
                                    forall|a: int|
                                        0 <= a < nodes@.len() && (#[trigger] nodes@[a]).entity_type
                                            is Directory ==> exists|j2: int|
                                            0 <= j2 < entries@.len() && (
                                            #[trigger] entries@[j2]).is_dir && entries@[j2].path@
                                                == nodes@[a].path@,
                                    forall|a: int|
                                        0 <= a < nodes@.len() && (#[trigger] nodes@[a]).entity_type
                                            is File ==> exists|j2: int|
                                            0 <= j2 < entries@.len() && !(
                                            #[trigger] entries@[j2]).is_dir && entries@[j2].path@
                                                == nodes@[a].path@,
                                    forall|a: int|
                                        0 <= a < i && #[trigger] spec_entry_parsed(
                                            entries@[a],
                                            patterns@,
                                        ) ==> spec_file_node_present(nodes@, entries@[a]),
                                    forall|a: int, k2: int|
                                        #![trigger spec_entry_captures(entries@[a])[k2]]
                                        0 <= a < i && spec_entry_parsed(entries@[a], patterns@)
                                            && 0 <= k2 < spec_entry_captures(entries@[a]).len()
                                            ==> spec_capture_entity_present(
                                            nodes@,
                                            entries@[a].path@,
                                            spec_entry_captures(entries@[a])[k2],
                                        ),
                                    forall|a: int, k2: int|
                                        #![trigger spec_entry_captures(entries@[a])[k2]]
                                        0 <= a < i && spec_entry_parsed(entries@[a], patterns@)
                                            && 0 <= k2 < spec_entry_captures(entries@[a]).len()
                                            ==> spec_capture_link_present(
                                            links@,
                                            entries@[a].path@,
                                            spec_entry_captures(entries@[a])[k2],
                                            knownv,
                                            patterns@,
                                        ),
                                decreases m - j,
                            {
                                let ghost prevchildren = children@;
                                let child = children.remove(0);
                                proof {
                                    assert(child == childrenv[j as int]);
                                    assert(forall|b: int|
                                        0 <= b < children@.len() ==> (#[trigger] children@[b])
                                            == prevchildren[b + 1]);
                                }
                                let is_import = child.entity_type == EntityType::Import;
                                let is_fn = child.entity_type == EntityType::Function
                                    || child.entity_type == EntityType::Method;
                                let is_class = child.entity_type == EntityType::Class;
                                if is_import {
                                    match resolve_import(&entry.path, &child.id, &known) {
                                        Some(target) => {
                                            if !should_ignore(&target, patterns) {
                                                let link = LinkEntity {
                                                    from_name: entry.path.clone(),
                                                    to_name: target,
                                                    link_type: LinkType::Import,
                                                };
                                                proof {
                                                    lemma_parsed_link_clause_push(
                                                        links@,
                                                        link,
                                                        entries@,
                                                        patterns@,
                                                        knownv,
                                                        i as int,
                                                    );
                                                    lemma_capture_links_prefix_push(
                                                        links@,
                                                        link,
                                                        entries@[i as int].path@,
                                                        ks,
                                                        knownv,
                                                        patterns@,
                                                        j as int,
                                                    );
                                                }
                                                push_clean_link(
                                                    &mut links,
                                                    link,
                                                    Ghost(patterns@),
                                                );
                                                proof {
                                                    assert(links@[links@.len() - 1].to_name@
                                                        == spec_resolve_import(
                                                        entries@[i as int].path@,
                                                        spec_strip_quotes(ks[j as int].text),
                                                        knownv,
                                                    )->0);
                                                    assert(spec_capture_link_present(
                                                        links@,
                                                        entries@[i as int].path@,
                                                        ks[j as int],
                                                        knownv,
                                                        patterns@,
                                                    ));
                                                }
                                            } else {
                                                proof {
                                                    assert(spec_capture_link_present(
                                                        links@,
                                                        entries@[i as int].path@,
                                                        ks[j as int],
                                                        knownv,
                                                        patterns@,
                                                    ));
                                                }
                                            }
                                        },
                                        None => {
                                            proof {
                                                assert(spec_capture_link_present(
                                                    links@,
                                                    entries@[i as int].path@,
                                                    ks[j as int],
                                                    knownv,
                                                    patterns@,
                                                ));
                                            }
                                        },
                                    }
                                } else if is_fn && child.id.as_str().unicode_len() > 0 {
                                    let link = LinkEntity {
                                        from_name: entry.path.clone(),
                                        to_name: child.id.clone(),
                                        link_type: LinkType::Has,
                                    };
                                    proof {
                                        lemma_parsed_link_clause_push(
                                            links@,
                                            link,
                                            entries@,
                                            patterns@,
                                            knownv,
                                            i as int,
                                        );
                                        lemma_capture_links_prefix_push(
                                            links@,
                                            link,
                                            entries@[i as int].path@,
                                            ks,
                                            knownv,
                                            patterns@,
                                            j as int,
                                        );
                                    }
                                    push_clean_link(&mut links, link, Ghost(patterns@));
                                    proof {
                                        assert(links@[links@.len() - 1].to_name@
                                            == ks[j as int].text);
                                        assert(spec_capture_link_present(
                                            links@,
                                            entries@[i as int].path@,
                                            ks[j as int],
                                            knownv,
                                            patterns@,
                                        ));
                                    }
                                } else if is_class && child.id.as_str().unicode_len() > 0 {
                                    let link = LinkEntity {
                                        from_name: entry.path.clone(),
                                        to_name: child.id.clone(),
                                        link_type: LinkType::Owns,
                                    };
                                    proof {
                                        lemma_parsed_link_clause_push(
                                            links@,
                                            link,
                                            entries@,
                                            patterns@,
                                            knownv,
                                            i as int,
                                        );
                                        lemma_capture_links_prefix_push(
                                            links@,
                                            link,
                                            entries@[i as int].path@,
                                            ks,
                                            knownv,
                                            patterns@,
                                            j as int,
                                        );
                                    }
                                    push_clean_link(&mut links, link, Ghost(patterns@));
                                    proof {
                                        assert(links@[links@.len() - 1].to_name@
                                            == ks[j as int].text);
                                        assert(spec_capture_link_present(
                                            links@,
                                            entries@[i as int].path@,
                                            ks[j as int],
                                            knownv,
                                            patterns@,
                                        ));
                                    }
                                } else {
                                    proof {
                                        assert(spec_capture_link_present(
                                            links@,
                                            entries@[i as int].path@,
                                            ks[j as int],
                                            knownv,
                                            patterns@,
                                        ));
                                    }
                                }
                                let ghost prevnodes = nodes@;
                                proof {
                                    lemma_dir_witness_push(
                                        nodes@,
                                        child,
                                        entries@,
                                        patterns@,
                                        i as int,
                                    );
                                    lemma_parsed_node_clauses_push(
                                        nodes@,
                                        child,
                                        entries@,
                                        patterns@,
                                        i as int,
                                    );
                                }
                                nodes.push(child);
                                proof {
                                    assert(nodes@[nodes@.len() - 1] == childrenv[j as int]);
                                    assert forall|b: int|
                                        #![trigger childrenv[b]]
                                        0 <= b < j + 1 implies exists|idx: int|
                                        0 <= idx < nodes@.len() && (#[trigger] nodes@[idx])
                                            == childrenv[b] by {
                                        if b < j {
                                            let idx = choose|idx: int|
                                                0 <= idx < prevnodes.len() && (
                                                #[trigger] prevnodes[idx]) == childrenv[b];
                                            assert(nodes@[idx] == prevnodes[idx]);
                                        } else {
                                            assert(nodes@[nodes@.len() - 1] == childrenv[b]);
                                        }
                                    }
                                }
                                j = j + 1;
                            }
                            // The file node itself.
                            let line_total = count_lines(&entry.content);
                            let file_node = CodeEntity {
                                id: entry.path.clone(),
                                path: entry.path.clone(),
                                entity_type: EntityType::File,
                                start_line: Some(0),
                                end_line: Some(line_total),
                                properties: Vec::new(),
                                children: None,
                            };
                            let ghost prevnodes = nodes@;
                            proof {
                                lemma_dir_witness_push(
                                    nodes@,
                                    file_node,
                                    entries@,
                                    patterns@,
                                    i as int,
                                );
                                lemma_parsed_node_clauses_push(
                                    nodes@,
                                    file_node,
                                    entries@,
                                    patterns@,
                                    i as int,
                                );
                            }
                            nodes.push(file_node);
                            proof {
                                assert(nodes@[nodes@.len() - 1].path@ == entries@[i as int].path@);
                                assert(nodes@[nodes@.len() - 1].entity_type is File);
                                assert(!entries@[i as int].is_dir);
                                // This entry's file node is now present.
                                assert(nodes@[nodes@.len() - 1].end_line->0 as nat == line_count(
                                    entries@[i as int].content@,
                                ));
                                assert(spec_file_node_present(nodes@, entries@[i as int]));
                                // Every child survived the pushes since it
                                // was appended, so this entry's entities
                                // are all present.
                                assert forall|b: int|
                                    #![trigger childrenv[b]]
                                    0 <= b < childrenv.len() implies exists|idx: int|
                                    0 <= idx < nodes@.len() && (#[trigger] nodes@[idx])
                                        == childrenv[b] by {
                                    let idx = choose|idx: int|
                                        0 <= idx < prevnodes.len() && (#[trigger] prevnodes[idx])
                                            == childrenv[b];
                                    assert(nodes@[idx] == prevnodes[idx]);
                                }
                                assert forall|k2: int|
                                    0 <= k2 < spec_entry_captures(entries@[i as int]).len() implies
                                    spec_capture_entity_present(
                                    nodes@,
                                    entries@[i as int].path@,
                                    #[trigger] spec_entry_captures(entries@[i as int])[k2],
                                ) by {
                                    let idx = choose|idx: int|
                                        0 <= idx < nodes@.len() && (#[trigger] nodes@[idx])
                                            == childrenv[k2];
                                    assert(spec_entity_matches(
                                        nodes@[idx],
                                        entries@[i as int].path@,
                                        ks[k2],
                                    ));
                                }
                            }
                        },
                        Err(_) => {
                            proof {
                                assert(!spec_entry_parsed(entries@[i as int], patterns@));
                            }
                        },
                    }
                } else {
                    proof {
                        assert(!spec_entry_parsed(entries@[i as int], patterns@));
                    }
                }
            }
            i = i + 1;
        }
        (nodes, links)
    }
}

} // verus!
