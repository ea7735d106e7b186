//! Graph synchronizer: turns extracted entities and links into idempotent
//! merge operations against a property-graph store. Nodes holding files
//! and directories are keyed by path; declarations are keyed by a stable
//! synthesized id, so replaying the same state is a no-op.

use vstd::prelude::*;
use crate::models::{CodeEntity, EntityType, FileStructure, LinkEntity, LinkType, assoc_first};
use crate::text::{basename, basename_of, extension, extension_of, parent_path, parent_of, concat3};

verus! {

/// One idempotent operation against the graph store.
#[derive(Debug)]
pub enum GraphOp {
    /// Upsert a node: create it with these fields if the key is new,
    /// else overwrite the fields in place.
    MergeNode {
        label: EntityType,
        key: String,
        name: String,
        path: String,
        start_line: Option<usize>,
        end_line: Option<usize>,
        props: Vec<(String, String)>,
    },
    /// Merge a directed edge; it is only created when both endpoints
    /// already exist, and never twice.
    MergeEdge { from_key: String, to_key: String, rel: LinkType },
    /// Rename a file node in place, keeping its edges.
    RenameNode { from_path: String, to_path: String, new_name: String },
    /// Delete a file node and every node it structurally contains.
    RemoveFileNode { path: String },
    /// Schema bootstrap: a uniqueness constraint on a property.
    EnsureConstraint { label: EntityType, property: String },
    /// Schema bootstrap: an index on a property.
    EnsureIndex { label: EntityType, property: String },
}

/// The mathematical shape of a graph operation.
#[verifier::ext_equal]
pub enum GraphOpView {
    MergeNodeV {
        label: EntityType,
        key: Seq<char>,
        name: Seq<char>,
        path: Seq<char>,
        start_line: Option<usize>,
        end_line: Option<usize>,
        props: Seq<(Seq<char>, Seq<char>)>,
    },
    MergeEdgeV { from_key: Seq<char>, to_key: Seq<char>, rel: LinkType },
    RenameNodeV { from_path: Seq<char>, to_path: Seq<char>, new_name: Seq<char> },
    RemoveFileNodeV { path: Seq<char> },
    EnsureConstraintV { label: EntityType, property: Seq<char> },
    EnsureIndexV { label: EntityType, property: Seq<char> },
}

/// The view of a property list.
pub open spec fn props_view(props: Seq<(String, String)>) -> Seq<(Seq<char>, Seq<char>)> {
    props.map_values(|kv: (String, String)| (kv.0@, kv.1@))
}

impl View for GraphOp {
    type V = GraphOpView;

    open spec fn view(&self) -> GraphOpView {
        match self {
            GraphOp::MergeNode { label, key, name, path, start_line, end_line, props } =>
                GraphOpView::MergeNodeV {
                label: *label,
                key: key@,
                name: name@,
                path: path@,
                start_line: *start_line,
                end_line: *end_line,
                props: props_view(props@),
            },
            GraphOp::MergeEdge { from_key, to_key, rel } => GraphOpView::MergeEdgeV {
                from_key: from_key@,
                to_key: to_key@,
                rel: *rel,
            },
            GraphOp::RenameNode { from_path, to_path, new_name } => GraphOpView::RenameNodeV {
                from_path: from_path@,
                to_path: to_path@,
                new_name: new_name@,
            },
            GraphOp::RemoveFileNode { path } => GraphOpView::RemoveFileNodeV { path: path@ },
            GraphOp::EnsureConstraint { label, property } => GraphOpView::EnsureConstraintV {
                label: *label,
                property: property@,
            },
            GraphOp::EnsureIndex { label, property } => GraphOpView::EnsureIndexV {
                label: *label,
                property: property@,
            },
        }
    }
}

/// The store label of an entity kind.
pub open spec fn spec_label_of(t: EntityType) -> Seq<char> {
    match t {
        EntityType::Project => "Project"@,
        EntityType::Directory => "Directory"@,
        EntityType::File => "File"@,
        EntityType::Class => "Class"@,
        EntityType::Interface => "Interface"@,
        EntityType::Method => "Method"@,
        EntityType::Function => "Function"@,
        EntityType::Import => "Import"@,
    }
}

/// The lowercased label, used in synthesized ids.
pub open spec fn spec_label_lower(t: EntityType) -> Seq<char> {
    match t {
        EntityType::Project => "project"@,
        EntityType::Directory => "directory"@,
        EntityType::File => "file"@,
        EntityType::Class => "class"@,
        EntityType::Interface => "interface"@,
        EntityType::Method => "method"@,
        EntityType::Function => "function"@,
        EntityType::Import => "import"@,
    }
}

/// Is a node of this kind keyed by its path rather than by its id?
pub open spec fn spec_path_keyed(t: EntityType) -> bool {
    t is Project || t is Directory || t is File
}

/// The merge key of an entity: its path for path-keyed kinds, else its
/// id, synthesized as `<lowercased kind>:<basename>` when none was given.
pub open spec fn spec_entity_key(e: CodeEntity) -> Seq<char> {
    if spec_path_keyed(e.entity_type) {
        e.path@
    } else if e.id@.len() == 0 {
        spec_label_lower(e.entity_type) + seq![':'] + basename_of(e.path@)
    } else {
        e.id@
    }
}

/// The display name of an entity: the basename of its path, or its id
/// when the path has no final component.
pub open spec fn spec_entity_name(e: CodeEntity) -> Seq<char> {
    if basename_of(e.path@).len() == 0 {
        e.id@
    } else {
        basename_of(e.path@)
    }
}

/// The merge operation that upserts one entity.
pub open spec fn spec_ingest_op(e: CodeEntity) -> GraphOpView {
    GraphOpView::MergeNodeV {
        label: e.entity_type,
        key: spec_entity_key(e),
        name: spec_entity_name(e),
        path: e.path@,
        start_line: e.start_line,
        end_line: e.end_line,
        props: props_view(e.properties@),
    }
}


/// Clones a property list.
pub fn clone_props(props: &Vec<(String, String)>) -> (r: Vec<(String, String)>)
    ensures
        props_view(r@) =~= props_view(props@),
{
    let n = props.len();
    let mut r: Vec<(String, String)> = Vec::new();
    let mut i: usize = 0;
    while i < n
        invariant
            n == props@.len(),
            i <= n,
            r@.len() == i,
            forall|j: int|
                0 <= j < i ==> (#[trigger] r@[j]).0@ == props@[j].0@ && r@[j].1@ == props@[j].1@,
        decreases n - i,
    {
        r.push((props[i].0.clone(), props[i].1.clone()));
        i = i + 1;
    }
    r
}

/// Converts entities and links into graph operations for one repository.
pub struct GraphSynchronizer {
    repository_id: String,
    owner_id: String,
}

impl GraphSynchronizer {
    /// The repository this synchronizer writes for.
    pub closed spec fn spec_repository_id(&self) -> Seq<char> {
        self.repository_id@
    }

    /// The owner recorded on repository nodes.
    pub closed spec fn spec_owner_id(&self) -> Seq<char> {
        self.owner_id@
    }

    /// Creates a synchronizer for one repository and owner.
    pub fn new(repository_id: String, owner_id: String) -> (r: GraphSynchronizer)
        ensures
            r.spec_repository_id() == repository_id@,
            r.spec_owner_id() == owner_id@,
    {
        GraphSynchronizer { repository_id, owner_id }
    }

    /// The store label of an entity kind.
    pub fn match_entity_type(&self, entity: &EntityType) -> (r: &'static str)
        ensures
            r@ == spec_label_of(*entity),
    {
        match entity {
            EntityType::Project => "Project",
            EntityType::Directory => "Directory",
            EntityType::File => "File",
            EntityType::Class => "Class",
            EntityType::Interface => "Interface",
            EntityType::Method => "Method",
            EntityType::Function => "Function",
            EntityType::Import => "Import",
        }
    }

    /// The lowercased label of an entity kind.
    pub fn label_lower(&self, entity: &EntityType) -> (r: &'static str)
        ensures
            r@ == spec_label_lower(*entity),
    {
        match entity {
            EntityType::Project => "project",
            EntityType::Directory => "directory",
            EntityType::File => "file",
            EntityType::Class => "class",
            EntityType::Interface => "interface",
            EntityType::Method => "method",
            EntityType::Function => "function",
            EntityType::Import => "import",
        }
    }

    /// Schema bootstrap: uniqueness of file and directory paths, indexes
    /// on function and class names and on file language. Safe to replay.
    pub fn ensure_schema(&self) -> (ops: Vec<GraphOp>)
        ensures
            ops@.map_values(|o: GraphOp| o@) =~= seq![
                GraphOpView::EnsureConstraintV { label: EntityType::File, property: "path"@ },
                GraphOpView::EnsureConstraintV {
                    label: EntityType::Directory,
                    property: "path"@,
                },
                GraphOpView::EnsureIndexV { label: EntityType::Function, property: "name"@ },
                GraphOpView::EnsureIndexV { label: EntityType::Class, property: "name"@ },
                GraphOpView::EnsureIndexV { label: EntityType::File, property: "language"@ },
            ],
    {
        let mut ops: Vec<GraphOp> = Vec::new();
        ops.push(
            GraphOp::EnsureConstraint { label: EntityType::File, property: "path".to_owned() },
        );
        ops.push(
            GraphOp::EnsureConstraint {
                label: EntityType::Directory,
                property: "path".to_owned(),
            },
        );
        ops.push(GraphOp::EnsureIndex { label: EntityType::Function, property: "name".to_owned() });
        ops.push(GraphOp::EnsureIndex { label: EntityType::Class, property: "name".to_owned() });
        ops.push(GraphOp::EnsureIndex { label: EntityType::File, property: "language".to_owned() });
        ops
    }

    /// The key under which one entity is merged.
    pub fn entity_key(&self, e: &CodeEntity) -> (r: String)
        ensures
            r@ == spec_entity_key(*e),
    {
        match e.entity_type {
            EntityType::Project | EntityType::Directory | EntityType::File => e.path.clone(),
            _ => {
                if e.id.as_str().unicode_len() == 0 {
                    let lower = self.label_lower(&e.entity_type);
                    let base = basename(&e.path);
                    let r = concat3(lower, ":", base.as_str());
                    proof {
                        reveal_strlit(":");
                        assert(":"@ =~= seq![':']);
                    }
                    r
                } else {
                    e.id.clone()
                }
            },
        }
    }

    /// The display name recorded on one entity's node.
    pub fn entity_name(&self, e: &CodeEntity) -> (r: String)
        ensures
            r@ == spec_entity_name(*e),
    {
        let base = basename(&e.path);
        if base.as_str().unicode_len() == 0 {
            e.id.clone()
        } else {
            base
        }
    }

    /// Upserts one entity: create on first sight, overwrite afterwards.
    pub fn ingest_entity(&self, e: &CodeEntity) -> (op: GraphOp)
        ensures
            op@ == spec_ingest_op(*e),
    {
        let key = self.entity_key(e);
        let name = self.entity_name(e);
        let op = GraphOp::MergeNode {
            label: e.entity_type,
            key,
            name,
            path: e.path.clone(),
            start_line: e.start_line,
            end_line: e.end_line,
            props: clone_props(&e.properties),
        };
        proof {
            assert(op@->MergeNodeV_props =~= props_view(e.properties@));
        }
        op
    }

    /// Merges the edge one link entity describes, endpoints named by id.
    pub fn create_db_link(&self, link: &LinkEntity) -> (op: GraphOp)
        ensures
            op@ == (GraphOpView::MergeEdgeV {
                from_key: link.from_name@,
                to_key: link.to_name@,
                rel: link.link_type,
            }),
    {
        GraphOp::MergeEdge {
            from_key: link.from_name.clone(),
            to_key: link.to_name.clone(),
            rel: link.link_type,
        }
    }

    /// Merges a directed edge between two path-keyed nodes.
    pub fn create_relationship(&self, from_path: &String, to_path: &String, rel: LinkType) -> (
        op: GraphOp)
        ensures
            op@ == (GraphOpView::MergeEdgeV {
                from_key: from_path@,
                to_key: to_path@,
                rel: rel,
            }),
    {
        GraphOp::MergeEdge { from_key: from_path.clone(), to_key: to_path.clone(), rel }
    }

    /// Deletes a file node and everything it structurally contains.
    pub fn remove_file(&self, path: &String) -> (op: GraphOp)
        ensures
            op@ == (GraphOpView::RemoveFileNodeV { path: path@ }),
    {
        GraphOp::RemoveFileNode { path: path.clone() }
    }

    /// Renames a file node in place — inbound edges survive — and
    /// refreshes the containment edge from the new parent directory.
    pub fn update_file_path(&self, from_path: &String, to_path: &String) -> (ops: Vec<GraphOp>)
        ensures
            ({
                let rename = GraphOpView::RenameNodeV {
                    from_path: from_path@,
                    to_path: to_path@,
                    new_name: basename_of(to_path@),
                };
                if parent_of(to_path@).len() == 0 {
                    ops@.map_values(|o: GraphOp| o@) =~= seq![rename]
                } else {
                    ops@.map_values(|o: GraphOp| o@) =~= seq![
                        rename,
                        GraphOpView::MergeEdgeV {
                            from_key: parent_of(to_path@),
                            to_key: to_path@,
                            rel: LinkType::Has,
                        },
                    ]
                }
            }),
    {
        let mut ops: Vec<GraphOp> = Vec::new();
        let new_name = basename(to_path);
        ops.push(
            GraphOp::RenameNode {
                from_path: from_path.clone(),
                to_path: to_path.clone(),
                new_name,
            },
        );
        let parent = parent_path(to_path);
        if parent.as_str().unicode_len() > 0 {
            ops.push(
                GraphOp::MergeEdge { from_key: parent, to_key: to_path.clone(), rel: LinkType::Has },
            );
        }
        ops
    }

    /// Registers the repository root as a directory node carrying the
    /// repository and owner ids.
    pub fn register_repository(&self, repo_path: &String) -> (op: GraphOp)
        ensures
            op@ == (GraphOpView::MergeNodeV {
                label: EntityType::Directory,
                key: repo_path@,
                name: basename_of(repo_path@),
                path: repo_path@,
                start_line: None,
                end_line: None,
                props: seq![
                    ("repositoryId"@, self.spec_repository_id()),
                    ("ownerId"@, self.spec_owner_id()),
                    ("isRepository"@, "true"@),
                ],
            }),
    {
        let mut props: Vec<(String, String)> = Vec::new();
        props.push(("repositoryId".to_owned(), self.repository_id.clone()));
        props.push(("ownerId".to_owned(), self.owner_id.clone()));
        props.push(("isRepository".to_owned(), "true".to_owned()));
        let op = GraphOp::MergeNode {
            label: EntityType::Directory,
            key: repo_path.clone(),
            name: basename(repo_path),
            path: repo_path.clone(),
            start_line: None,
            end_line: None,
            props,
        };
        proof {
            assert(op@->MergeNodeV_props =~= seq![
                ("repositoryId"@, self.spec_repository_id()),
                ("ownerId"@, self.spec_owner_id()),
                ("isRepository"@, "true"@),
            ]);
        }
        op
    }

    /// Upserts a batch of entities, one merge per entity, in order.
    pub fn batch_ingest_entities(&self, entities: &Vec<CodeEntity>) -> (ops: Vec<GraphOp>)
        ensures
            ops@.len() == entities@.len(),
            forall|i: int|
                0 <= i < ops@.len() ==> (#[trigger] ops@[i])@ == spec_ingest_op(entities@[i]),
    {
        let n = entities.len();
        let mut ops: Vec<GraphOp> = Vec::new();
        let mut i: usize = 0;
        while i < n
            invariant
                n == entities@.len(),
                i <= n,
                ops@.len() == i,
                forall|j: int|
                    0 <= j < i ==> (#[trigger] ops@[j])@ == spec_ingest_op(entities@[j]),
            decreases n - i,
        {
            let op = self.ingest_entity(&entities[i]);
            ops.push(op);
            i = i + 1;
        }
        ops
    }

    /// Merges a batch of edges, one merge per link, in order.
    pub fn batch_create_links(&self, links: &Vec<LinkEntity>) -> (ops: Vec<GraphOp>)
        ensures
            ops@.len() == links@.len(),
            forall|i: int|
                0 <= i < ops@.len() ==> (#[trigger] ops@[i])@ == (GraphOpView::MergeEdgeV {
                    from_key: links@[i].from_name@,
                    to_key: links@[i].to_name@,
                    rel: links@[i].link_type,
                }),
    {
        let n = links.len();
        let mut ops: Vec<GraphOp> = Vec::new();
        let mut i: usize = 0;
        while i < n
            invariant
                n == links@.len(),
                i <= n,
                ops@.len() == i,
                forall|j: int|
                    0 <= j < i ==> (#[trigger] ops@[j])@ == (GraphOpView::MergeEdgeV {
                        from_key: links@[j].from_name@,
                        to_key: links@[j].to_name@,
                        rel: links@[j].link_type,
                    }),
            decreases n - i,
        {
            let op = self.create_db_link(&links[i]);
            ops.push(op);
            i = i + 1;
        }
        ops
    }
}

/// The node upserts for a run of child entities, in order.
pub open spec fn spec_child_node_ops(cs: Seq<CodeEntity>) -> Seq<GraphOpView>
    decreases cs.len(),
{
    if cs.len() == 0 {
        Seq::empty()
    } else {
        seq![spec_ingest_op(cs[0])] + spec_child_node_ops(cs.drop_first())
    }
}

/// The node upserts of one item: the item itself, then its children.
pub open spec fn spec_item_node_group(item: CodeEntity) -> Seq<GraphOpView> {
    seq![spec_ingest_op(item)] + match item.children {
        Some(v) => spec_child_node_ops(v@),
        None => Seq::empty(),
    }
}

/// The node upserts for all items of a file, in order.
pub open spec fn spec_items_node_ops(items: Seq<CodeEntity>) -> Seq<GraphOpView>
    decreases items.len(),
{
    if items.len() == 0 {
        Seq::empty()
    } else {
        spec_item_node_group(items[0]) + spec_items_node_ops(items.drop_first())
    }
}

/// The containment edges from an item to its children, in order.
pub open spec fn spec_child_link_ops(cs: Seq<CodeEntity>, parent_key: Seq<char>) -> Seq<
    GraphOpView,
>
    decreases cs.len(),
{
    if cs.len() == 0 {
        Seq::empty()
    } else {
        seq![
            GraphOpView::MergeEdgeV {
                from_key: parent_key,
                to_key: spec_entity_key(cs[0]),
                rel: LinkType::Has,
            },
        ] + spec_child_link_ops(cs.drop_first(), parent_key)
    }
}

/// The edges of one item: the file's containment edge, a cross-file
/// import edge when the item is an import with a target, and the item's
/// own containment edges to its children.
pub open spec fn spec_item_link_group(item: CodeEntity, file_key: Seq<char>) -> Seq<GraphOpView> {
    seq![
        GraphOpView::MergeEdgeV {
            from_key: file_key,
            to_key: spec_entity_key(item),
            rel: LinkType::Has,
        },
    ] + (if item.entity_type is Import {
        match assoc_first(item.properties@, "target"@) {
            Some(t) => seq![
                GraphOpView::MergeEdgeV { from_key: file_key, to_key: t, rel: LinkType::Import },
            ],
            None => Seq::empty(),
        }
    } else {
        Seq::empty()
    }) + match item.children {
        Some(v) => spec_child_link_ops(v@, spec_entity_key(item)),
        None => Seq::empty(),
    }
}

/// The edges for all items of a file, in order.
pub open spec fn spec_items_link_ops(items: Seq<CodeEntity>, file_key: Seq<char>) -> Seq<
    GraphOpView,
>
    decreases items.len(),
{
    if items.len() == 0 {
        Seq::empty()
    } else {
        spec_item_link_group(items[0], file_key) + spec_items_link_ops(
            items.drop_first(),
            file_key,
        )
    }
}

/// The upsert of the file's own node, carrying name, extension and hash.
pub open spec fn spec_file_node_op(fs: FileStructure) -> GraphOpView {
    GraphOpView::MergeNodeV {
        label: EntityType::File,
        key: fs.file_path@,
        name: basename_of(fs.file_path@),
        path: fs.file_path@,
        start_line: None,
        end_line: None,
        props: seq![
            ("name"@, basename_of(fs.file_path@)),
            ("extension"@, extension_of(fs.file_path@)),
            ("hash"@, fs.file_hash@),
        ],
    }
}

/// The upsert of the parent directory's node, when the file has one.
pub open spec fn spec_dir_node_ops(path: Seq<char>) -> Seq<GraphOpView> {
    if parent_of(path).len() == 0 {
        Seq::empty()
    } else {
        seq![
            GraphOpView::MergeNodeV {
                label: EntityType::Directory,
                key: parent_of(path),
                name: basename_of(parent_of(path)),
                path: parent_of(path),
                start_line: None,
                end_line: None,
                props: seq![("name"@, basename_of(parent_of(path)))],
            },
        ]
    }
}

/// The containment edge from the parent directory to the file.
pub open spec fn spec_dir_link_ops(path: Seq<char>) -> Seq<GraphOpView> {
    if parent_of(path).len() == 0 {
        Seq::empty()
    } else {
        seq![
            GraphOpView::MergeEdgeV {
                from_key: parent_of(path),
                to_key: path,
                rel: LinkType::Has,
            },
        ]
    }
}

/// All node upserts of one file's plan: directory first, then the file,
/// then its entities.
pub open spec fn spec_file_plan_nodes(fs: FileStructure) -> Seq<GraphOpView> {
    spec_dir_node_ops(fs.file_path@) + seq![spec_file_node_op(fs)] + spec_items_node_ops(fs.items@)
}

/// All edge merges of one file's plan.
pub open spec fn spec_file_plan_links(fs: FileStructure) -> Seq<GraphOpView> {
    spec_items_link_ops(fs.items@, fs.file_path@) + spec_dir_link_ops(fs.file_path@)
}

/// One file's whole plan: every node before any edge, so that replaying
/// the plan is a no-op.
pub open spec fn spec_file_plan(fs: FileStructure) -> Seq<GraphOpView> {
    spec_file_plan_nodes(fs) + spec_file_plan_links(fs)
}

proof fn lemma_child_node_ops_push(cs: Seq<CodeEntity>, x: CodeEntity)
    ensures
        spec_child_node_ops(cs.push(x)) =~= spec_child_node_ops(cs) + seq![spec_ingest_op(x)],
    decreases cs.len(),
{
    if cs.len() == 0 {
        assert(cs.push(x)[0] == x);
        assert(cs.push(x).drop_first() =~= Seq::<CodeEntity>::empty());
        assert(spec_child_node_ops(Seq::<CodeEntity>::empty()) =~= Seq::<GraphOpView>::empty());
    } else {
        assert(cs.push(x)[0] == cs[0]);
        assert(cs.push(x).drop_first() =~= cs.drop_first().push(x));
        lemma_child_node_ops_push(cs.drop_first(), x);
    }
}

proof fn lemma_items_node_ops_push(items: Seq<CodeEntity>, x: CodeEntity)
    ensures
        spec_items_node_ops(items.push(x)) =~= spec_items_node_ops(items)
            + spec_item_node_group(x),
    decreases items.len(),
{
    if items.len() == 0 {
        assert(items.push(x)[0] == x);
        assert(items.push(x).drop_first() =~= Seq::<CodeEntity>::empty());
        assert(spec_items_node_ops(Seq::<CodeEntity>::empty()) =~= Seq::<GraphOpView>::empty());
    } else {
        assert(items.push(x)[0] == items[0]);
        assert(items.push(x).drop_first() =~= items.drop_first().push(x));
        lemma_items_node_ops_push(items.drop_first(), x);
    }
}

proof fn lemma_child_link_ops_push(cs: Seq<CodeEntity>, x: CodeEntity, parent_key: Seq<char>)
    ensures
        spec_child_link_ops(cs.push(x), parent_key) =~= spec_child_link_ops(cs, parent_key)
            + seq![
            GraphOpView::MergeEdgeV {
                from_key: parent_key,
                to_key: spec_entity_key(x),
                rel: LinkType::Has,
            },
        ],
    decreases cs.len(),
{
    if cs.len() == 0 {
        assert(cs.push(x)[0] == x);
        assert(cs.push(x).drop_first() =~= Seq::<CodeEntity>::empty());
        assert(spec_child_link_ops(Seq::<CodeEntity>::empty(), parent_key) =~= Seq::<
            GraphOpView,
        >::empty());
    } else {
        assert(cs.push(x)[0] == cs[0]);
        assert(cs.push(x).drop_first() =~= cs.drop_first().push(x));
        lemma_child_link_ops_push(cs.drop_first(), x, parent_key);
    }
}

proof fn lemma_items_link_ops_push(items: Seq<CodeEntity>, x: CodeEntity, file_key: Seq<char>)
    ensures
        spec_items_link_ops(items.push(x), file_key) =~= spec_items_link_ops(items, file_key)
            + spec_item_link_group(x, file_key),
    decreases items.len(),
{
    if items.len() == 0 {
        assert(items.push(x)[0] == x);
        assert(items.push(x).drop_first() =~= Seq::<CodeEntity>::empty());
        assert(spec_items_link_ops(Seq::<CodeEntity>::empty(), file_key) =~= Seq::<
            GraphOpView,
        >::empty());
    } else {
        assert(items.push(x)[0] == items[0]);
        assert(items.push(x).drop_first() =~= items.drop_first().push(x));
        lemma_items_link_ops_push(items.drop_first(), x, file_key);
    }
}

impl GraphSynchronizer {
    /// Builds one file's full ingestion plan: the parent directory node,
    /// the file node, one node per extracted entity and child, and then
    /// the containment, import and directory edges — nodes strictly
    /// before edges, directory before file.
    pub fn process_file_structure(&self, fs: &FileStructure) -> (ops: Vec<GraphOp>)
        ensures
            ops@.map_values(|o: GraphOp| o@) =~= spec_file_plan(*fs),
    {
        let mut ops: Vec<GraphOp> = Vec::new();
        let file_path = &fs.file_path;
        let parent = parent_path(file_path);
        let has_parent = parent.as_str().unicode_len() > 0;

        // Directory node first, so containment can attach to it.
        if has_parent {
            let mut dprops: Vec<(String, String)> = Vec::new();
            dprops.push(("name".to_owned(), basename(&parent)));
            let dop = GraphOp::MergeNode {
                label: EntityType::Directory,
                key: parent.clone(),
                name: basename(&parent),
                path: parent.clone(),
                start_line: None,
                end_line: None,
                props: dprops,
            };
            proof {
                assert(dop@->MergeNodeV_props =~= seq![("name"@, basename_of(parent_of(fs.file_path@)))]);
            }
            ops.push(dop);
        }
        proof {
            assert(ops@.map_values(|o: GraphOp| o@) =~= spec_dir_node_ops(fs.file_path@));
        }

        // The file node.
        let mut fprops: Vec<(String, String)> = Vec::new();
        fprops.push(("name".to_owned(), basename(file_path)));
        fprops.push(("extension".to_owned(), extension(file_path)));
        fprops.push(("hash".to_owned(), fs.file_hash.clone()));
        let fop = GraphOp::MergeNode {
            label: EntityType::File,
            key: file_path.clone(),
            name: basename(file_path),
            path: file_path.clone(),
            start_line: None,
            end_line: None,
            props: fprops,
        };
        proof {
            assert(fop@->MergeNodeV_props =~= seq![
                ("name"@, basename_of(fs.file_path@)),
                ("extension"@, extension_of(fs.file_path@)),
                ("hash"@, fs.file_hash@),
            ]);
        }
        ops.push(fop);
        proof {
            assert(ops@.map_values(|o: GraphOp| o@) =~= spec_dir_node_ops(fs.file_path@) + seq![
                spec_file_node_op(*fs),
            ]);
        }

        // Entity nodes: each item, then its children.
        let ghost head = ops@.map_values(|o: GraphOp| o@);
        let n = fs.items.len();
        let mut i: usize = 0;
        while i < n
            invariant
                n == fs.items@.len(),
                i <= n,
                ops@.map_values(|o: GraphOp| o@) =~= head + spec_items_node_ops(
                    fs.items@.take(i as int),
                ),
            decreases n - i,
        {
            let item = &fs.items[i];
            let ghost before_item = ops@.map_values(|o: GraphOp| o@);
            let iop = self.ingest_entity(item);
            ops.push(iop);
            proof {
                assert(ops@.map_values(|o: GraphOp| o@) =~= before_item.push(
                    spec_ingest_op(fs.items@[i as int]),
                ));
            }
            match &item.children {
                Some(children) => {
                    let m = children.len();
                    let mut j: usize = 0;
                    proof {
                        assert(children@.take(0) =~= Seq::<CodeEntity>::empty());
                        assert(spec_child_node_ops(Seq::<CodeEntity>::empty()) =~= Seq::<
                            GraphOpView,
                        >::empty());
                    }
                    while j < m
                        invariant
                            m == children@.len(),
                            j <= m,
                            ops@.map_values(|o: GraphOp| o@) =~= before_item + seq![
                                spec_ingest_op(fs.items@[i as int]),
                            ] + spec_child_node_ops(children@.take(j as int)),
                            i < n,
                            n == fs.items@.len(),
                            fs.items@[i as int].children == Some(*children),
                        decreases m - j,
                    {
                        let ghost prevops = ops@.map_values(|o: GraphOp| o@);
                        let cop = self.ingest_entity(&children[j]);
                        ops.push(cop);
                        proof {
                            assert(ops@.map_values(|o: GraphOp| o@) =~= prevops.push(
                                spec_ingest_op(children@[j as int]),
                            ));
                            lemma_child_node_ops_push(children@.take(j as int), children@[j as int]);
                            assert(children@.take(j + 1) =~= children@.take(j as int).push(
                                children@[j as int],
                            ));
                        }
                        j = j + 1;
                    }
                    proof {
                        assert(children@.take(m as int) =~= children@);
                    }
                },
                None => {},
            }
            proof {
                assert(ops@.map_values(|o: GraphOp| o@) =~= before_item + spec_item_node_group(
                    fs.items@[i as int],
                ));
                lemma_items_node_ops_push(fs.items@.take(i as int), fs.items@[i as int]);
                assert(fs.items@.take(i + 1) =~= fs.items@.take(i as int).push(
                    fs.items@[i as int],
                ));
            }
            i = i + 1;
        }
        proof {
            assert(fs.items@.take(n as int) =~= fs.items@);
            assert(ops@.map_values(|o: GraphOp| o@) =~= spec_file_plan_nodes(*fs));
        }

        // Edges, only now that every node they touch is merged.
        let ghost nodes_done = ops@.map_values(|o: GraphOp| o@);
        let mut i2: usize = 0;
        while i2 < n
            invariant
                n == fs.items@.len(),
                i2 <= n,
                ops@.map_values(|o: GraphOp| o@) =~= nodes_done + spec_items_link_ops(
                    fs.items@.take(i2 as int),
                    fs.file_path@,
                ),
            decreases n - i2,
        {
            let item = &fs.items[i2];
            let ghost before_item = ops@.map_values(|o: GraphOp| o@);
            let item_key = self.entity_key(item);
            ops.push(
                GraphOp::MergeEdge {
                    from_key: fs.file_path.clone(),
                    to_key: item_key.clone(),
                    rel: LinkType::Has,
                },
            );
            proof {
                assert(ops@.map_values(|o: GraphOp| o@) =~= before_item.push(
                    GraphOpView::MergeEdgeV {
                        from_key: fs.file_path@,
                        to_key: spec_entity_key(fs.items@[i2 as int]),
                        rel: LinkType::Has,
                    },
                ));
            }
            let is_import = item.entity_type == EntityType::Import;
            if is_import {
                match crate::models::props_get(&item.properties, &"target".to_owned()) {
                    Some(target) => {
                        let ghost prevops = ops@.map_values(|o: GraphOp| o@);
                        let ghost targetv = target@;
                        ops.push(
                            GraphOp::MergeEdge {
                                from_key: fs.file_path.clone(),
                                to_key: target,
                                rel: LinkType::Import,
                            },
                        );
                        proof {
                            assert(ops@.map_values(|o: GraphOp| o@) =~= prevops.push(
                                GraphOpView::MergeEdgeV {
                                    from_key: fs.file_path@,
                                    to_key: targetv,
                                    rel: LinkType::Import,
                                },
                            ));
                        }
                    },
                    None => {},
                }
            }
            let ghost import_done = ops@.map_values(|o: GraphOp| o@);
            proof {
                assert(import_done =~= before_item + seq![
                    GraphOpView::MergeEdgeV {
                        from_key: fs.file_path@,
                        to_key: spec_entity_key(fs.items@[i2 as int]),
                        rel: LinkType::Has,
                    },
                ] + (if fs.items@[i2 as int].entity_type is Import {
                    match assoc_first(fs.items@[i2 as int].properties@, "target"@) {
                        Some(t) => seq![
                            GraphOpView::MergeEdgeV {
                                from_key: fs.file_path@,
                                to_key: t,
                                rel: LinkType::Import,
                            },
                        ],
                        None => Seq::<GraphOpView>::empty(),
                    }
                } else {
                    Seq::<GraphOpView>::empty()
                }));
            }
            match &item.children {
                Some(children) => {
                    let ghost before_children = ops@.map_values(|o: GraphOp| o@);
                    let m = children.len();
                    let mut j: usize = 0;
                    proof {
                        assert(children@.take(0) =~= Seq::<CodeEntity>::empty());
                        assert(spec_child_link_ops(
                            Seq::<CodeEntity>::empty(),
                            spec_entity_key(fs.items@[i2 as int]),
                        ) =~= Seq::<GraphOpView>::empty());
                    }
                    while j < m
                        invariant
                            m == children@.len(),
                            j <= m,
                            ops@.map_values(|o: GraphOp| o@) =~= before_children
                                + spec_child_link_ops(
                                children@.take(j as int),
                                spec_entity_key(fs.items@[i2 as int]),
                            ),
                            item_key@ == spec_entity_key(fs.items@[i2 as int]),
                            i2 < n,
                            n == fs.items@.len(),
                            fs.items@[i2 as int].children == Some(*children),
                        decreases m - j,
                    {
                        let ghost prevops = ops@.map_values(|o: GraphOp| o@);
                        let child_key = self.entity_key(&children[j]);
                        ops.push(
                            GraphOp::MergeEdge {
                                from_key: item_key.clone(),
                                to_key: child_key,
                                rel: LinkType::Has,
                            },
                        );
                        proof {
                            assert(ops@.map_values(|o: GraphOp| o@) =~= prevops.push(
                                GraphOpView::MergeEdgeV {
                                    from_key: spec_entity_key(fs.items@[i2 as int]),
                                    to_key: spec_entity_key(children@[j as int]),
                                    rel: LinkType::Has,
                                },
                            ));
                            lemma_child_link_ops_push(
                                children@.take(j as int),
                                children@[j as int],
                                spec_entity_key(fs.items@[i2 as int]),
                            );
                            assert(children@.take(j + 1) =~= children@.take(j as int).push(
                                children@[j as int],
                            ));
                        }
                        j = j + 1;
                    }
                    proof {
                        assert(children@.take(m as int) =~= children@);
                    }
                },
                None => {},
            }
            proof {
                assert(ops@.map_values(|o: GraphOp| o@) =~= before_item + spec_item_link_group(
                    fs.items@[i2 as int],
                    fs.file_path@,
                ));
                lemma_items_link_ops_push(
                    fs.items@.take(i2 as int),
                    fs.items@[i2 as int],
                    fs.file_path@,
                );
                assert(fs.items@.take(i2 + 1) =~= fs.items@.take(i2 as int).push(
                    fs.items@[i2 as int],
                ));
            }
            i2 = i2 + 1;
        }
        proof {
            assert(fs.items@.take(n as int) =~= fs.items@);
        }

        // Finally the directory containment edge.
        let ghost links_done = ops@.map_values(|o: GraphOp| o@);
        if has_parent {
            ops.push(
                GraphOp::MergeEdge {
                    from_key: parent,
                    to_key: file_path.clone(),
                    rel: LinkType::Has,
                },
            );
            proof {
                assert(ops@.map_values(|o: GraphOp| o@) =~= links_done.push(
                    GraphOpView::MergeEdgeV {
                        from_key: parent_of(fs.file_path@),
                        to_key: fs.file_path@,
                        rel: LinkType::Has,
                    },
                ));
            }
        }
        proof {
            assert(ops@.map_values(|o: GraphOp| o@) =~= links_done + spec_dir_link_ops(
                fs.file_path@,
            ));
            assert(ops@.map_values(|o: GraphOp| o@) =~= spec_file_plan(*fs));
        }
        ops
    }

    /// Builds the plan of a whole batch: every file's nodes first, then
    /// every file's edges, so cross-file import edges always find both
    /// endpoints and replaying the batch changes nothing.
    pub fn batch_process_file_structures(&self, structures: &Vec<FileStructure>) -> (ops: Vec<
        GraphOp,
    >)
        ensures
            ops@.map_values(|o: GraphOp| o@) =~= spec_batch_plan(structures@),
    {
        let n = structures.len();
        let mut node_ops: Vec<GraphOp> = Vec::new();
        let mut link_ops: Vec<GraphOp> = Vec::new();
        let mut i: usize = 0;
        proof {
            assert(structures@.take(0) =~= Seq::<FileStructure>::empty());
            assert(spec_batch_plan_nodes(Seq::<FileStructure>::empty()) =~= Seq::<
                GraphOpView,
            >::empty());
            assert(spec_batch_plan_links(Seq::<FileStructure>::empty()) =~= Seq::<
                GraphOpView,
            >::empty());
        }
        while i < n
            invariant
                n == structures@.len(),
                i <= n,
                node_ops@.map_values(|o: GraphOp| o@) =~= spec_batch_plan_nodes(
                    structures@.take(i as int),
                ),
                link_ops@.map_values(|o: GraphOp| o@) =~= spec_batch_plan_links(
                    structures@.take(i as int),
                ),
            decreases n - i,
        {
            let ghost before_nodes = node_ops@.map_values(|o: GraphOp| o@);
            let ghost before_links = link_ops@.map_values(|o: GraphOp| o@);
            let mut plan = self.process_file_structure(&structures[i]);
            let ghost planv = plan@.map_values(|o: GraphOp| o@);
            proof {
                lemma_file_plan_shape(structures@[i as int]);
                lemma_parts_of_two_block(
                    spec_file_plan_nodes(structures@[i as int]),
                    spec_file_plan_links(structures@[i as int]),
                );
                assert(spec_node_ops_of(planv) =~= spec_file_plan_nodes(structures@[i as int]));
                assert(spec_edge_ops_of(planv) =~= spec_file_plan_links(structures@[i as int]));
                assert forall|k: int| 0 <= k < planv.len() implies (#[trigger] planv[k])
                    is MergeNodeV || planv[k] is MergeEdgeV by {
                    let a = spec_file_plan_nodes(structures@[i as int]);
                    let b = spec_file_plan_links(structures@[i as int]);
                    if k < a.len() {
                        assert(planv[k] == a[k]);
                    } else {
                        assert(planv[k] == b[k - a.len()]);
                    }
                }
                assert(planv.take(0) =~= Seq::<GraphOpView>::empty());
                assert(spec_node_ops_of(Seq::<GraphOpView>::empty()) =~= Seq::<
                    GraphOpView,
                >::empty());
                assert(spec_edge_ops_of(Seq::<GraphOpView>::empty()) =~= Seq::<
                    GraphOpView,
                >::empty());
            }
            let m = plan.len();
            let mut j: usize = 0;
            while j < m
                invariant
                    m == planv.len(),
                    plan@.len() + j == m,
                    spec_node_ops_of(planv) =~= spec_file_plan_nodes(structures@[i as int]),
                    spec_edge_ops_of(planv) =~= spec_file_plan_links(structures@[i as int]),
                    forall|k: int|
                        0 <= k < planv.len() ==> (#[trigger] planv[k]) is MergeNodeV || planv[k]
                            is MergeEdgeV,
                    node_ops@.map_values(|o: GraphOp| o@) =~= before_nodes + spec_node_ops_of(
                        planv.take(j as int),
                    ),
                    link_ops@.map_values(|o: GraphOp| o@) =~= before_links + spec_edge_ops_of(
                        planv.take(j as int),
                    ),
                    forall|k: int|
                        0 <= k < plan@.len() ==> (#[trigger] plan@[k])@ == planv[j + k],
                decreases m - j,
            {
                let ghost prev_nodes = node_ops@.map_values(|o: GraphOp| o@);
                let ghost prev_links = link_ops@.map_values(|o: GraphOp| o@);
                let ghost prevplan = plan@;
                let op = plan.remove(0);
                proof {
                    assert(prevplan[0]@ == planv[j as int]);
                    assert(plan@ =~= prevplan.drop_first());
                    assert forall|k: int| 0 <= k < plan@.len() implies (#[trigger] plan@[k])@
                        == planv[j + 1 + k] by {
                        assert(plan@[k] == prevplan[k + 1]);
                    }
                    lemma_node_ops_of_push(planv.take(j as int), planv[j as int]);
                    lemma_edge_ops_of_push(planv.take(j as int), planv[j as int]);
                    assert(planv.take(j + 1) =~= planv.take(j as int).push(planv[j as int]));
                }
                let is_node = match &op {
                    GraphOp::MergeNode { .. } => true,
                    _ => false,
                };
                if is_node {
                    node_ops.push(op);
                    proof {
                        assert(node_ops@.map_values(|o: GraphOp| o@) =~= prev_nodes.push(
                            planv[j as int],
                        ));
                    }
                } else {
                    link_ops.push(op);
                    proof {
                        assert(planv[j as int] is MergeEdgeV);
                        assert(link_ops@.map_values(|o: GraphOp| o@) =~= prev_links.push(
                            planv[j as int],
                        ));
                    }
                }
                j = j + 1;
            }
            proof {
                assert(planv.take(m as int) =~= planv);
                lemma_batch_plan_nodes_push(structures@.take(i as int), structures@[i as int]);
                lemma_batch_plan_links_push(structures@.take(i as int), structures@[i as int]);
                assert(structures@.take(i + 1) =~= structures@.take(i as int).push(
                    structures@[i as int],
                ));
            }
            i = i + 1;
        }
        proof {
            assert(structures@.take(n as int) =~= structures@);
        }
        // Append every edge after every node.
        let ghost all_nodes = node_ops@.map_values(|o: GraphOp| o@);
        let ghost all_links = link_ops@.map_values(|o: GraphOp| o@);
        let e = link_ops.len();
        let mut j2: usize = 0;
        proof {
            assert(all_links.take(0) =~= Seq::<GraphOpView>::empty());
        }
        while j2 < e
            invariant
                e == all_links.len(),
                link_ops@.len() + j2 == e,
                node_ops@.map_values(|o: GraphOp| o@) =~= all_nodes + all_links.take(j2 as int),
                forall|k: int|
                    0 <= k < link_ops@.len() ==> (#[trigger] link_ops@[k])@ == all_links[j2 + k],
            decreases e - j2,
        {
            let ghost prev_nodes = node_ops@.map_values(|o: GraphOp| o@);
            let ghost prevlinks = link_ops@;
            let op = link_ops.remove(0);
            node_ops.push(op);
            proof {
                assert(prevlinks[0]@ == all_links[j2 as int]);
                assert(node_ops@.map_values(|o: GraphOp| o@) =~= prev_nodes.push(
                    all_links[j2 as int],
                ));
                assert(all_links.take(j2 + 1) =~= all_links.take(j2 as int).push(
                    all_links[j2 as int],
                ));
                assert(link_ops@ =~= prevlinks.drop_first());
                assert forall|k: int| 0 <= k < link_ops@.len() implies (#[trigger] link_ops@[k])@
                    == all_links[j2 + 1 + k] by {
                    assert(link_ops@[k] == prevlinks[k + 1]);
                }
            }
            j2 = j2 + 1;
        }
        proof {
            assert(all_links.take(e as int) =~= all_links);
        }
        node_ops
    }
}

/// All node upserts of a batch of files, file by file.
pub open spec fn spec_batch_plan_nodes(ss: Seq<FileStructure>) -> Seq<GraphOpView>
    decreases ss.len(),
{
    if ss.len() == 0 {
        Seq::empty()
    } else {
        spec_file_plan_nodes(ss[0]) + spec_batch_plan_nodes(ss.drop_first())
    }
}

/// All edge merges of a batch of files, file by file.
pub open spec fn spec_batch_plan_links(ss: Seq<FileStructure>) -> Seq<GraphOpView>
    decreases ss.len(),
{
    if ss.len() == 0 {
        Seq::empty()
    } else {
        spec_file_plan_links(ss[0]) + spec_batch_plan_links(ss.drop_first())
    }
}

/// A whole batch's plan: every file's nodes before any file's edges, so
/// cross-file import edges always find their endpoints and replaying the
/// batch is a no-op.
pub open spec fn spec_batch_plan(ss: Seq<FileStructure>) -> Seq<GraphOpView> {
    spec_batch_plan_nodes(ss) + spec_batch_plan_links(ss)
}

proof fn lemma_batch_plan_nodes_push(ss: Seq<FileStructure>, x: FileStructure)
    ensures
        spec_batch_plan_nodes(ss.push(x)) =~= spec_batch_plan_nodes(ss) + spec_file_plan_nodes(x),
    decreases ss.len(),
{
    if ss.len() == 0 {
        assert(ss.push(x)[0] == x);
        assert(ss.push(x).drop_first() =~= Seq::<FileStructure>::empty());
        assert(spec_batch_plan_nodes(Seq::<FileStructure>::empty()) =~= Seq::<
            GraphOpView,
        >::empty());
    } else {
        assert(ss.push(x)[0] == ss[0]);
        assert(ss.push(x).drop_first() =~= ss.drop_first().push(x));
        lemma_batch_plan_nodes_push(ss.drop_first(), x);
    }
}

proof fn lemma_batch_plan_links_push(ss: Seq<FileStructure>, x: FileStructure)
    ensures
        spec_batch_plan_links(ss.push(x)) =~= spec_batch_plan_links(ss) + spec_file_plan_links(x),
    decreases ss.len(),
{
    if ss.len() == 0 {
        assert(ss.push(x)[0] == x);
        assert(ss.push(x).drop_first() =~= Seq::<FileStructure>::empty());
        assert(spec_batch_plan_links(Seq::<FileStructure>::empty()) =~= Seq::<
            GraphOpView,
        >::empty());
    } else {
        assert(ss.push(x)[0] == ss[0]);
        assert(ss.push(x).drop_first() =~= ss.drop_first().push(x));
        lemma_batch_plan_links_push(ss.drop_first(), x);
    }
}

/// The node merges of an operation run, in order.
pub open spec fn spec_node_ops_of(s: Seq<GraphOpView>) -> Seq<GraphOpView>
    decreases s.len(),
{
    if s.len() == 0 {
        Seq::empty()
    } else if s[0] is MergeNodeV {
        seq![s[0]] + spec_node_ops_of(s.drop_first())
    } else {
        spec_node_ops_of(s.drop_first())
    }
}

/// The edge merges of an operation run, in order.
pub open spec fn spec_edge_ops_of(s: Seq<GraphOpView>) -> Seq<GraphOpView>
    decreases s.len(),
{
    if s.len() == 0 {
        Seq::empty()
    } else if s[0] is MergeEdgeV {
        seq![s[0]] + spec_edge_ops_of(s.drop_first())
    } else {
        spec_edge_ops_of(s.drop_first())
    }
}

proof fn lemma_node_ops_of_push(s: Seq<GraphOpView>, x: GraphOpView)
    ensures
        spec_node_ops_of(s.push(x)) =~= spec_node_ops_of(s) + (if x is MergeNodeV {
            seq![x]
        } else {
            Seq::<GraphOpView>::empty()
        }),
    decreases s.len(),
{
    if s.len() == 0 {
        assert(s.push(x)[0] == x);
        assert(s.push(x).drop_first() =~= Seq::<GraphOpView>::empty());
        assert(spec_node_ops_of(Seq::<GraphOpView>::empty()) =~= Seq::<GraphOpView>::empty());
    } else {
        assert(s.push(x)[0] == s[0]);
        assert(s.push(x).drop_first() =~= s.drop_first().push(x));
        lemma_node_ops_of_push(s.drop_first(), x);
    }
}

proof fn lemma_edge_ops_of_push(s: Seq<GraphOpView>, x: GraphOpView)
    ensures
        spec_edge_ops_of(s.push(x)) =~= spec_edge_ops_of(s) + (if x is MergeEdgeV {
            seq![x]
        } else {
            Seq::<GraphOpView>::empty()
        }),
    decreases s.len(),
{
    if s.len() == 0 {
        assert(s.push(x)[0] == x);
        assert(s.push(x).drop_first() =~= Seq::<GraphOpView>::empty());
        assert(spec_edge_ops_of(Seq::<GraphOpView>::empty()) =~= Seq::<GraphOpView>::empty());
    } else {
        assert(s.push(x)[0] == s[0]);
        assert(s.push(x).drop_first() =~= s.drop_first().push(x));
        lemma_edge_ops_of_push(s.drop_first(), x);
    }
}

proof fn lemma_node_ops_of_concat(a: Seq<GraphOpView>, b: Seq<GraphOpView>)
    ensures
        spec_node_ops_of(a + b) =~= spec_node_ops_of(a) + spec_node_ops_of(b),
    decreases a.len(),
{
    if a.len() == 0 {
        assert(a + b =~= b);
        assert(spec_node_ops_of(Seq::<GraphOpView>::empty()) =~= Seq::<GraphOpView>::empty());
    } else {
        assert((a + b)[0] == a[0]);
        assert((a + b).drop_first() =~= a.drop_first() + b);
        lemma_node_ops_of_concat(a.drop_first(), b);
    }
}

proof fn lemma_edge_ops_of_concat(a: Seq<GraphOpView>, b: Seq<GraphOpView>)
    ensures
        spec_edge_ops_of(a + b) =~= spec_edge_ops_of(a) + spec_edge_ops_of(b),
    decreases a.len(),
{
    if a.len() == 0 {
        assert(a + b =~= b);
        assert(spec_edge_ops_of(Seq::<GraphOpView>::empty()) =~= Seq::<GraphOpView>::empty());
    } else {
        assert((a + b)[0] == a[0]);
        assert((a + b).drop_first() =~= a.drop_first() + b);
        lemma_edge_ops_of_concat(a.drop_first(), b);
    }
}

proof fn lemma_parts_of_pure_runs(a: Seq<GraphOpView>)
    ensures
        all_merge_nodes(a) ==> spec_node_ops_of(a) =~= a && spec_edge_ops_of(a) =~= Seq::<
            GraphOpView,
        >::empty(),
        all_merge_edges(a) ==> spec_edge_ops_of(a) =~= a && spec_node_ops_of(a) =~= Seq::<
            GraphOpView,
        >::empty(),
    decreases a.len(),
{
    if a.len() > 0 {
        lemma_parts_of_pure_runs(a.drop_first());
    }
}

/// Splitting a nodes-then-edges run recovers its two blocks.
pub(crate) proof fn lemma_parts_of_two_block(a: Seq<GraphOpView>, b: Seq<GraphOpView>)
    requires
        all_merge_nodes(a),
        all_merge_edges(b),
    ensures
        spec_node_ops_of(a + b) =~= a,
        spec_edge_ops_of(a + b) =~= b,
{
    lemma_node_ops_of_concat(a, b);
    lemma_edge_ops_of_concat(a, b);
    lemma_parts_of_pure_runs(a);
    lemma_parts_of_pure_runs(b);
}

/// Every operation in the run is a node merge.
pub open spec fn all_merge_nodes(ops: Seq<GraphOpView>) -> bool {
    forall|i: int| 0 <= i < ops.len() ==> (#[trigger] ops[i]) is MergeNodeV
}

/// Every operation in the run is an edge merge.
pub open spec fn all_merge_edges(ops: Seq<GraphOpView>) -> bool {
    forall|i: int| 0 <= i < ops.len() ==> (#[trigger] ops[i]) is MergeEdgeV
}


pub(crate) proof fn lemma_all_nodes_concat(a: Seq<GraphOpView>, b: Seq<GraphOpView>)
    requires
        all_merge_nodes(a),
        all_merge_nodes(b),
    ensures
        all_merge_nodes(a + b),
{
    assert forall|i: int| 0 <= i < (a + b).len() implies (#[trigger] (a + b)[i]) is MergeNodeV by {
        if i < a.len() {
            assert((a + b)[i] == a[i]);
        } else {
            assert((a + b)[i] == b[i - a.len()]);
        }
    }
}

pub(crate) proof fn lemma_all_edges_concat(a: Seq<GraphOpView>, b: Seq<GraphOpView>)
    requires
        all_merge_edges(a),
        all_merge_edges(b),
    ensures
        all_merge_edges(a + b),
{
    assert forall|i: int| 0 <= i < (a + b).len() implies (#[trigger] (a + b)[i]) is MergeEdgeV by {
        if i < a.len() {
            assert((a + b)[i] == a[i]);
        } else {
            assert((a + b)[i] == b[i - a.len()]);
        }
    }
}

proof fn lemma_child_node_ops_all(cs: Seq<CodeEntity>)
    ensures
        all_merge_nodes(spec_child_node_ops(cs)),
    decreases cs.len(),
{
    if cs.len() > 0 {
        lemma_child_node_ops_all(cs.drop_first());
        lemma_all_nodes_concat(
            seq![spec_ingest_op(cs[0])],
            spec_child_node_ops(cs.drop_first()),
        );
    }
}

proof fn lemma_items_node_ops_all(items: Seq<CodeEntity>)
    ensures
        all_merge_nodes(spec_items_node_ops(items)),
    decreases items.len(),
{
    if items.len() > 0 {
        lemma_items_node_ops_all(items.drop_first());
        match items[0].children {
            Some(v) => {
                lemma_child_node_ops_all(v@);
            },
            None => {},
        }
        lemma_all_nodes_concat(
            seq![spec_ingest_op(items[0])],
            match items[0].children {
                Some(v) => spec_child_node_ops(v@),
                None => Seq::empty(),
            },
        );
        lemma_all_nodes_concat(
            spec_item_node_group(items[0]),
            spec_items_node_ops(items.drop_first()),
        );
    }
}

proof fn lemma_child_link_ops_all(cs: Seq<CodeEntity>, parent_key: Seq<char>)
    ensures
        all_merge_edges(spec_child_link_ops(cs, parent_key)),
    decreases cs.len(),
{
    if cs.len() > 0 {
        lemma_child_link_ops_all(cs.drop_first(), parent_key);
        lemma_all_edges_concat(
            seq![
                GraphOpView::MergeEdgeV {
                    from_key: parent_key,
                    to_key: spec_entity_key(cs[0]),
                    rel: LinkType::Has,
                },
            ],
            spec_child_link_ops(cs.drop_first(), parent_key),
        );
    }
}

proof fn lemma_items_link_ops_all(items: Seq<CodeEntity>, file_key: Seq<char>)
    ensures
        all_merge_edges(spec_items_link_ops(items, file_key)),
    decreases items.len(),
{
    if items.len() > 0 {
        lemma_items_link_ops_all(items.drop_first(), file_key);
        let head = seq![
            GraphOpView::MergeEdgeV {
                from_key: file_key,
                to_key: spec_entity_key(items[0]),
                rel: LinkType::Has,
            },
        ];
        let imp = if items[0].entity_type is Import {
            match assoc_first(items[0].properties@, "target"@) {
                Some(t) => seq![
                    GraphOpView::MergeEdgeV { from_key: file_key, to_key: t, rel: LinkType::Import },
                ],
                None => Seq::<GraphOpView>::empty(),
            }
        } else {
            Seq::<GraphOpView>::empty()
        };
        let childs = match items[0].children {
            Some(v) => spec_child_link_ops(v@, spec_entity_key(items[0])),
            None => Seq::<GraphOpView>::empty(),
        };
        match items[0].children {
            Some(v) => {
                lemma_child_link_ops_all(v@, spec_entity_key(items[0]));
            },
            None => {},
        }
        assert(all_merge_edges(imp));
        lemma_all_edges_concat(head, imp);
        lemma_all_edges_concat(head + imp, childs);
        assert(spec_item_link_group(items[0], file_key) == head + imp + childs);
        lemma_all_edges_concat(
            spec_item_link_group(items[0], file_key),
            spec_items_link_ops(items.drop_first(), file_key),
        );
    }
}

/// A file's plan writes nodes only, then edges only.
pub(crate) proof fn lemma_file_plan_shape(fs: FileStructure)
    ensures
        all_merge_nodes(spec_file_plan_nodes(fs)),
        all_merge_edges(spec_file_plan_links(fs)),
{
    lemma_items_node_ops_all(fs.items@);
    lemma_all_nodes_concat(
        spec_dir_node_ops(fs.file_path@),
        seq![spec_file_node_op(fs)],
    );
    lemma_all_nodes_concat(
        spec_dir_node_ops(fs.file_path@) + seq![spec_file_node_op(fs)],
        spec_items_node_ops(fs.items@),
    );
    lemma_items_link_ops_all(fs.items@, fs.file_path@);
    lemma_all_edges_concat(
        spec_items_link_ops(fs.items@, fs.file_path@),
        spec_dir_link_ops(fs.file_path@),
    );
}


} // verus!
