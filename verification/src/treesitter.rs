//! A lighter structural extractor: declarations only (classes, functions,
//! interfaces), reported as plain items with one-based line ranges.

use vstd::prelude::*;
use crate::error::AppError;
use crate::parser::{
    ts_collect_captures,
    ts_captures_of,
    ts_parse_ok,
    CaptureView,
    CodeLanguage,
    spec_language_of,
    spec_lang_tag,
    spec_query_of,
    spec_line_of_row,
};
use crate::text::{
    extension,
    extension_of,
    seq_ends_with,
    seq_starts_with,
    str_ends_with,
    str_starts_with,
};
use crate::ts_queries::{ts_entity_and_dep_query, js_entity_and_dep_query};

verus! {

/// One declaration found in a file.
#[derive(Debug)]
pub struct CodeItem {
    pub name: String,
    pub kind: String,
    pub start_line: usize,
    pub end_line: usize,
    pub children: Vec<CodeItem>,
    pub path: String,
}

/// The declarations of one file.
#[derive(Debug)]
pub struct FileStructure {
    pub path: String,
    pub items: Vec<CodeItem>,
}

/// A directory with its subdirectories and parsed files.
#[derive(Debug)]
pub struct DirectoryTree {
    pub name: String,
    pub children: Vec<DirectoryTree>,
    pub files: Vec<FileStructure>,
}

/// Does this capture report a class, function or interface declaration?
pub open spec fn spec_decl_kept(c: CaptureView) -> bool {
    seq_ends_with(c.name, ".name"@) && (seq_starts_with(c.name, "class"@) || seq_starts_with(
        c.name,
        "function"@,
    ) || seq_starts_with(c.name, "interface"@))
}

/// The declaration captures, in capture order.
pub open spec fn spec_decl_captures(caps: Seq<CaptureView>) -> Seq<CaptureView>
    decreases caps.len(),
{
    if caps.len() == 0 {
        Seq::empty()
    } else if spec_decl_kept(caps[0]) {
        seq![caps[0]] + spec_decl_captures(caps.drop_first())
    } else {
        spec_decl_captures(caps.drop_first())
    }
}

proof fn lemma_decl_captures_push(caps: Seq<CaptureView>, x: CaptureView)
    ensures
        spec_decl_captures(caps.push(x)) =~= spec_decl_captures(caps) + (if spec_decl_kept(x) {
            seq![x]
        } else {
            Seq::<CaptureView>::empty()
        }),
    decreases caps.len(),
{
    if caps.len() == 0 {
        assert(caps.push(x)[0] == x);
        assert(caps.push(x).drop_first() =~= Seq::<CaptureView>::empty());
        assert(spec_decl_captures(Seq::<CaptureView>::empty()) =~= Seq::<CaptureView>::empty());
    } else {
        assert(caps.push(x)[0] == caps[0]);
        assert(caps.push(x).drop_first() =~= caps.drop_first().push(x));
        lemma_decl_captures_push(caps.drop_first(), x);
    }
}

/// The kind word a declaration capture stands for.
pub open spec fn spec_item_kind_str(name: Seq<char>) -> Seq<char> {
    if seq_starts_with(name, "class"@) {
        "class"@
    } else if seq_starts_with(name, "interface"@) {
        "interface"@
    } else {
        "function"@
    }
}

/// The item one declaration capture yields.
pub open spec fn spec_item_matches(it: CodeItem, path: Seq<char>, c: CaptureView) -> bool {
    &&& it.name@ == c.text
    &&& it.kind@ == spec_item_kind_str(c.name)
    &&& it.start_line == spec_line_of_row(c.start_row)
    &&& it.end_line == spec_line_of_row(c.end_row)
    &&& it.children@.len() == 0
    &&& it.path@ == path
}

/// Parses files by extension with pre-built grammar configurations.
pub struct TreeSitterParser {}

impl TreeSitterParser {
    /// Creates the parser; grammars and queries are fixed at build time.
    pub fn new() -> (r: TreeSitterParser) {
        TreeSitterParser {  }
    }

    /// Extracts the declarations of one file: one item per class,
    /// function or interface capture, in capture order, with ordered
    /// one-based lines, fully determined by the file's extension and
    /// text. The call succeeds exactly when the extension names a known
    /// language and the engine succeeds on this text.
    pub fn parse_file(&self, path: &String, content: &String) -> (r: Result<
        FileStructure,
        AppError,
    >)
        ensures
            ({
                let lang = spec_language_of(extension_of(path@));
                r is Ok <==> (!(lang is Unknown) && ts_parse_ok(
                    spec_lang_tag(lang),
                    spec_query_of(lang),
                    content@,
                ))
            }),
            r matches Ok(fs) ==> forall|i: int|
                0 <= i < fs.items@.len() ==> (#[trigger] fs.items@[i]).start_line
                    <= fs.items@[i].end_line,
            r matches Ok(fs) ==> {
                let lang = spec_language_of(extension_of(path@));
                let ks = spec_decl_captures(
                    ts_captures_of(spec_lang_tag(lang), spec_query_of(lang), content@),
                );
                fs.path@ == path@ && fs.items@.len() == ks.len() && forall|i: int|
                    0 <= i < fs.items@.len() ==> spec_item_matches(
                        #[trigger] fs.items@[i],
                        path@,
                        ks[i],
                    )
            },
    {
        let ext = extension(path);
        let language = CodeLanguage::from_extension(&ext);
        let (tag, query): (u8, &'static str) = match language {
            CodeLanguage::TypeScript => (1u8, ts_entity_and_dep_query()),
            CodeLanguage::Tsx => (2u8, ts_entity_and_dep_query()),
            CodeLanguage::JavaScript => (0u8, js_entity_and_dep_query()),
            CodeLanguage::Jsx => (0u8, js_entity_and_dep_query()),
            CodeLanguage::Unknown => {
                return Err(AppError::UnsupportedLanguage("Unsupported file type".to_owned()));
            },
        };
        let caps = match ts_collect_captures(tag, query, content.as_str()) {
            Ok(v) => v,
            Err(m) => {
                return Err(AppError::TreeSitter(m));
            },
        };
        let ghost capsv = caps@.map_values(|c: crate::parser::CaptureRec| c@);
        let n = caps.len();
        let mut items: Vec<CodeItem> = Vec::new();
        let mut i: usize = 0;
        proof {
            assert(capsv.take(0) =~= Seq::<CaptureView>::empty());
            assert(spec_decl_captures(Seq::<CaptureView>::empty()) =~= Seq::<CaptureView>::empty());
            assert forall|j: int| 0 <= j < capsv.len() implies (#[trigger] capsv[j]).start_row
                <= capsv[j].end_row by {
                assert(capsv[j] == caps@[j]@);
            }
        }
        while i < n
            invariant
                n == caps@.len(),
                capsv == caps@.map_values(|c: crate::parser::CaptureRec| c@),
                i <= n,
                items@.len() == spec_decl_captures(capsv.take(i as int)).len(),
                forall|j: int|
                    0 <= j < items@.len() ==> spec_item_matches(
                        #[trigger] items@[j],
                        path@,
                        spec_decl_captures(capsv.take(i as int))[j],
                    ),
                forall|j: int|
                    0 <= j < items@.len() ==> (#[trigger] items@[j]).start_line
                        <= items@[j].end_line,
                forall|j: int|
                    0 <= j < capsv.len() ==> (#[trigger] capsv[j]).start_row <= capsv[j].end_row,
            decreases n - i,
        {
            let cap = &caps[i];
            proof {
                assert(capsv[i as int] == caps@[i as int]@);
            }
            let is_name = str_ends_with(&cap.name, &".name".to_owned());
            let is_class = str_starts_with(&cap.name, &"class".to_owned());
            let is_function = str_starts_with(&cap.name, &"function".to_owned());
            let is_interface = str_starts_with(&cap.name, &"interface".to_owned());
            if is_name && (is_class || is_function || is_interface) {
                let kind: &'static str = if is_class {
                    "class"
                } else if is_interface {
                    "interface"
                } else {
                    "function"
                };
                let start_line: usize = if cap.start_row < usize::MAX {
                    cap.start_row + 1
                } else {
                    cap.start_row
                };
                let end_line: usize = if cap.end_row < usize::MAX {
                    cap.end_row + 1
                } else {
                    cap.end_row
                };
                let it = CodeItem {
                    name: cap.text.clone(),
                    kind: kind.to_owned(),
                    start_line,
                    end_line,
                    children: Vec::new(),
                    path: path.clone(),
                };
                let ghost prev = items@;
                items.push(it);
                proof {
                    assert(spec_item_matches(items@[prev.len() as int], path@, capsv[i as int]));
                }
            }
            proof {
                lemma_decl_captures_push(capsv.take(i as int), capsv[i as int]);
                assert(capsv.take(i + 1) =~= capsv.take(i as int).push(capsv[i as int]));
            }
            i = i + 1;
        }
        proof {
            assert(capsv.take(n as int) =~= capsv);
        }
        Ok(FileStructure { path: path.clone(), items })
    }
}

} // verus!
