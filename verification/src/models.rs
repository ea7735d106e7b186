//! Shared data model: entities, links and file records.

use vstd::prelude::*;

verus! {

/// The kind of code construct a graph node represents.
#[derive(Clone, Copy, Debug, PartialEq, Eq, Structural)]
pub enum EntityType {
    Project,
    Directory,
    File,
    Class,
    Interface,
    Method,
    Function,
    Import,
}

/// The label of a directed relationship between two entities.
/// `Has` and `Owns` express containment, `Uses` a file referencing a
/// declaration it contains, `Import` a cross-file dependency.
#[derive(Clone, Copy, Debug, PartialEq, Eq, Structural)]
pub enum LinkType {
    Has,
    Owns,
    Uses,
    Import,
}

/// A named, line-ranged code construct extracted from one file.
/// `children` is only populated transiently during extraction; the graph
/// store never holds nested entities.
#[derive(Debug)]
pub struct CodeEntity {
    pub id: String,
    pub path: String,
    pub entity_type: EntityType,
    pub start_line: Option<usize>,
    pub end_line: Option<usize>,
    pub properties: Vec<(String, String)>,
    pub children: Option<Vec<CodeEntity>>,
}

/// A directed, labeled edge between two entities, named by their ids.
#[derive(Clone, Debug)]
pub struct LinkEntity {
    pub from_name: String,
    pub to_name: String,
    pub link_type: LinkType,
}

/// Aggregate result of parsing one file.
#[derive(Debug)]
pub struct FileStructure {
    pub structure_type: String,
    pub file_path: String,
    pub items: Vec<CodeEntity>,
    pub file_hash: String,
}

/// A file's recorded fingerprint: content hash plus cheap metadata.
/// Timestamps are carried as milliseconds so contracts can compare them.
#[derive(Clone, Debug)]
pub struct FileMetadata {
    pub path: String,
    pub hash: String,
    pub last_modified: u64,
    pub size: u64,
}

/// A registered repository.
#[derive(Clone, Debug)]
pub struct Repository {
    pub id: String,
    pub path: String,
    pub owner_id: String,
    pub name: Option<String>,
}

/// Payload describing a batch of changed files, handed to the shell layer.
#[derive(Clone, Debug)]
pub struct FileChangePayload {
    pub repository_id: String,
    pub changed_files: Vec<String>,
    pub event_type: String,
}

/// One cached file content record.
#[derive(Clone, Debug)]
pub struct CacheContent {
    pub path: String,
    pub content: String,
}

/// Lifecycle state of a file in the cache, tagged with its path.
#[derive(Clone, Debug)]
pub enum FileStatus {
    Active(String),
    Pending(String),
    Inactive(String),
}

/// A node of the file-browser tree: a file or a directory with children.
#[derive(Debug)]
pub struct FileNodeRust {
    pub id: String,
    pub name: String,
    pub path: String,
    pub node_type: String,
    pub children: Option<Vec<FileNodeRust>>,
}

/// A contiguous slice of code taken from one file.
#[derive(Clone, Debug)]
pub struct CodeChunk {
    pub file_path: String,
    pub name: String,
    pub chunk_type: String,
    pub content: String,
    pub start_line: usize,
    pub end_line: usize,
}

/// First value bound to `key` in an association list, if any.
pub open spec fn assoc_first(props: Seq<(String, String)>, key: Seq<char>) -> Option<Seq<char>>
    decreases props.len(),
{
    if props.len() == 0 {
        None
    } else if props[0].0@ == key {
        Some(props[0].1@)
    } else {
        assoc_first(props.drop_first(), key)
    }
}

/// Looks a key up in an entity's property list, first binding wins.
pub fn props_get(props: &Vec<(String, String)>, key: &String) -> (r: Option<String>)
    ensures
        match r {
            Some(v) => assoc_first(props@, key@) == Some(v@),
            None => assoc_first(props@, key@) is None,
        },
{
    let n = props.len();
    let mut i: usize = 0;
    assert(props@.skip(0) =~= props@);
    while i < n
        invariant
            n == props@.len(),
            i <= n,
            assoc_first(props@, key@) == assoc_first(props@.skip(i as int), key@),
        decreases n - i,
    {
        assert(props@.skip(i as int)[0] == props@[i as int]);
        if props[i].0 == *key {
            return Some(props[i].1.clone());
        }
        assert(props@.skip(i as int).drop_first() =~= props@.skip(i + 1));
        i = i + 1;
    }
    assert(props@.skip(n as int).len() == 0);
    None
}

} // verus!
