//! The document an ingestion reads: nested nodes with tags, and a flat list
//! of relations between paths.

use vstd::prelude::*;

verus! {

/// One ingested document.
#[derive(Debug, PartialEq, Eq)]
pub struct File {
    pub nodes: Vec<Nodes>,
    pub relations: Vec<Relation>,
}

/// A node of the document together with the subtree below it.
#[derive(Debug, PartialEq, Eq)]
pub struct Nodes {
    pub name: String,
    pub type_field: String,
    pub children: Vec<Nodes>,
    pub tags: Option<Vec<Tag>>,
    pub total_children: Option<i64>,
}

/// A typed label on a node.
#[derive(Debug, Clone, PartialEq, Eq)]
pub struct Tag {
    pub type_field: String,
    pub value: String,
}

/// A declared edge between two paths of the document, each given as its
/// fragments from the root down.
#[derive(Debug, Clone, PartialEq, Eq)]
pub struct Relation {
    pub type_field: String,
    pub source: Vec<String>,
    pub target: Vec<String>,
    pub tags: Option<Vec<Tag>>,
}

/// What a [`File`] holds.
pub struct FileView {
    pub nodes: Seq<NodesView>,
    pub relations: Seq<RelationView>,
}

/// What a [`Nodes`] holds: a node and the subtree below it.
pub struct NodesView {
    pub name: Seq<char>,
    pub type_field: Seq<char>,
    pub children: Seq<NodesView>,
    pub tags: Option<Seq<(Seq<char>, Seq<char>)>>,
    pub total_children: Option<i64>,
}

/// What a [`Relation`] holds.
pub struct RelationView {
    pub type_field: Seq<char>,
    pub source: Seq<Seq<char>>,
    pub target: Seq<Seq<char>>,
    pub tags: Option<Seq<(Seq<char>, Seq<char>)>>,
}

impl View for Tag {
    type V = (Seq<char>, Seq<char>);

    open spec fn view(&self) -> (Seq<char>, Seq<char>) {
        (self.type_field@, self.value@)
    }
}

impl DeepView for Tag {
    type V = (Seq<char>, Seq<char>);

    open spec fn deep_view(&self) -> (Seq<char>, Seq<char>) {
        self@
    }
}

/// What a node and the subtree below it hold.
pub open spec fn nodes_view(node: Nodes) -> NodesView
    decreases node,
{
    NodesView {
        name: node.name@,
        type_field: node.type_field@,
        children: Seq::new(
            node.children.len() as nat,
            |i: int|
                if 0 <= i < node.children.len() {
                    nodes_view(node.children[i])
                } else {
                    arbitrary()
                },
        ),
        tags: node.tags.deep_view(),
        total_children: node.total_children,
    }
}

impl View for Nodes {
    type V = NodesView;

    open spec fn view(&self) -> NodesView {
        nodes_view(*self)
    }
}

impl DeepView for Nodes {
    type V = NodesView;

    open spec fn deep_view(&self) -> NodesView {
        self@
    }
}

impl Nodes {
    /// The view of a node, field by field.
    pub proof fn lemma_view(self)
        ensures
            self@.name == self.name@,
            self@.type_field == self.type_field@,
            self@.children == self.children.deep_view(),
            self@.tags == self.tags.deep_view(),
            self@.total_children == self.total_children,
    {
        assert(self@.children =~= self.children.deep_view());
    }
}

impl View for Relation {
    type V = RelationView;

    open spec fn view(&self) -> RelationView {
        RelationView {
            type_field: self.type_field@,
            source: self.source.deep_view(),
            target: self.target.deep_view(),
            tags: self.tags.deep_view(),
        }
    }
}

impl DeepView for Relation {
    type V = RelationView;

    open spec fn deep_view(&self) -> RelationView {
        self@
    }
}

impl View for File {
    type V = FileView;

    open spec fn view(&self) -> FileView {
        FileView { nodes: self.nodes.deep_view(), relations: self.relations.deep_view() }
    }
}

impl DeepView for File {
    type V = FileView;

    open spec fn deep_view(&self) -> FileView {
        self@
    }
}

fn clone_tags(tags: &Option<Vec<Tag>>) -> (copy: Option<Vec<Tag>>)
    ensures
        copy.deep_view() == tags.deep_view(),
{
    match tags {
        Some(tags) => {
            let mut copy: Vec<Tag> = Vec::new();
            let mut i: usize = 0;
            while i < tags.len()
                invariant
                    i <= tags.len(),
                    copy.len() == i,
                    forall|j: int| 0 <= j < i ==> (#[trigger] copy@[j])@ == tags@[j]@,
                decreases tags.len() - i,
            {
                let t = &tags[i];
                copy.push(Tag { type_field: t.type_field.clone(), value: t.value.clone() });
                i += 1;
            }
            assert(copy.deep_view() =~= tags.deep_view());
            Some(copy)
        },
        None => None,
    }
}

impl Clone for Nodes {
    fn clone(&self) -> (copy: Self)
        ensures
            copy@ == self@,
        decreases self,
    {
        let mut children: Vec<Nodes> = Vec::new();
        let mut i: usize = 0;
        while i < self.children.len()
            invariant
                i <= self.children.len(),
                children.len() == i,
                forall|j: int| 0 <= j < i ==> (#[trigger] children@[j])@ == self.children@[j]@,
            decreases self.children.len() - i,
        {
            children.push(self.children[i].clone());
            i += 1;
        }
        let copy = Nodes {
            name: self.name.clone(),
            type_field: self.type_field.clone(),
            children,
            tags: clone_tags(&self.tags),
            total_children: self.total_children,
        };
        assert(copy@.children =~= self@.children);
        copy
    }
}

impl Clone for File {
    fn clone(&self) -> (copy: Self)
        ensures
            copy@ == self@,
    {
        let mut nodes: Vec<Nodes> = Vec::new();
        let mut i: usize = 0;
        while i < self.nodes.len()
            invariant
                i <= self.nodes.len(),
                nodes.len() == i,
                forall|j: int| 0 <= j < i ==> (#[trigger] nodes@[j])@ == self.nodes@[j]@,
            decreases self.nodes.len() - i,
        {
            nodes.push(self.nodes[i].clone());
            i += 1;
        }
        let mut relations: Vec<Relation> = Vec::new();
        let mut k: usize = 0;
        while k < self.relations.len()
            invariant
                k <= self.relations.len(),
                relations.len() == k,
                forall|j: int| 0 <= j < k ==> (#[trigger] relations@[j])@ == self.relations@[j]@,
            decreases self.relations.len() - k,
        {
            let r = &self.relations[k];
            let mut source: Vec<String> = Vec::new();
            let mut s: usize = 0;
            while s < r.source.len()
                invariant
                    s <= r.source.len(),
                    source.len() == s,
                    forall|j: int| 0 <= j < s ==> (#[trigger] source@[j])@ == r.source@[j]@,
                decreases r.source.len() - s,
            {
                source.push(r.source[s].clone());
                s += 1;
            }
            let mut target: Vec<String> = Vec::new();
            let mut t: usize = 0;
            while t < r.target.len()
                invariant
                    t <= r.target.len(),
                    target.len() == t,
                    forall|j: int| 0 <= j < t ==> (#[trigger] target@[j])@ == r.target@[j]@,
                decreases r.target.len() - t,
            {
                target.push(r.target[t].clone());
                t += 1;
            }
            assert(source.deep_view() =~= r.source.deep_view());
            assert(target.deep_view() =~= r.target.deep_view());
            relations.push(
                Relation {
                    type_field: r.type_field.clone(),
                    source,
                    target,
                    tags: clone_tags(&r.tags),
                },
            );
            k += 1;
        }
        let copy = File { nodes, relations };
        assert(copy@.nodes =~= self@.nodes);
        assert(copy@.relations =~= self@.relations);
        copy
    }
}

impl Default for Tag {
    fn default() -> (tag: Tag)
        ensures
            tag@ == (Seq::<char>::empty(), Seq::<char>::empty()),
    {
        Tag { type_field: String::new(), value: String::new() }
    }
}

impl Default for Nodes {
    fn default() -> (node: Nodes)
        ensures
            node@ == (NodesView {
                name: Seq::empty(),
                type_field: Seq::empty(),
                children: Seq::empty(),
                tags: None,
                total_children: None,
            }),
    {
        let node = Nodes {
            name: String::new(),
            type_field: String::new(),
            children: Vec::new(),
            tags: None,
            total_children: None,
        };
        assert(node@.children =~= Seq::empty());
        node
    }
}

impl Default for Relation {
    fn default() -> (relation: Relation)
        ensures
            relation@ == (RelationView {
                type_field: Seq::empty(),
                source: Seq::empty(),
                target: Seq::empty(),
                tags: None,
            }),
    {
        let relation = Relation {
            type_field: String::new(),
            source: Vec::new(),
            target: Vec::new(),
            tags: None,
        };
        assert(relation@.source =~= Seq::empty());
        assert(relation@.target =~= Seq::empty());
        relation
    }
}

impl Default for File {
    fn default() -> (file: File)
        ensures
            file@ == (FileView { nodes: Seq::empty(), relations: Seq::empty() }),
    {
        let file = File { nodes: Vec::new(), relations: Vec::new() };
        assert(file@.nodes =~= Seq::empty());
        assert(file@.relations =~= Seq::empty());
        file
    }
}

} // verus!
