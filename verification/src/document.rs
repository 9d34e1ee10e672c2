//! A small document tree that the matcher can walk.
//!
//! The nodes stand in one vector in the order in which they were added. A
//! node is added as the last child of a node that is there, so parents and
//! earlier siblings stand before a node and later siblings behind it.

use vstd::prelude::*;
use crate::text::str_eq;
use crate::tree::{option_view, TreeNode};

verus! {

/// An attribute of an element.
#[derive(Debug)]
pub struct Attribute {
    pub namespace: Option<String>,
    pub name: String,
    pub value: String,
}

/// What the matcher reads of an element.
#[derive(Debug)]
pub struct ElementData {
    pub local_name: String,
    pub namespace_url: String,
    pub attributes: Vec<Attribute>,
    /// The URL that the element links to, where it is a link.
    pub link: Option<String>,
}

/// The kinds of nodes.
#[derive(Debug)]
pub enum NodeData {
    Document,
    Element(ElementData),
    Text(String),
}

/// The value of the first of `attributes` with the given namespace and name.
pub open spec fn attribute_value(
    attributes: Seq<Attribute>,
    namespace: Option<Seq<char>>,
    name: Seq<char>,
) -> Option<Seq<char>>
    decreases attributes.len(),
{
    if attributes.len() == 0 {
        None
    } else if names(attributes[0], namespace, name) {
        Some(attributes[0].value@)
    } else {
        attribute_value(attributes.skip(1), namespace, name)
    }
}

/// Whether `attribute` has the given namespace and name.
pub open spec fn names(attribute: Attribute, namespace: Option<Seq<char>>, name: Seq<char>) -> bool {
    attribute.name@ == name && match attribute.namespace {
        Some(own) => namespace == Some(own@),
        None => namespace is None,
    }
}

struct Entry {
    data: NodeData,
    parent: Option<usize>,
    prev_sibling: Option<usize>,
    next_sibling: Option<usize>,
    last_child: Option<usize>,
}

/// A tree of nodes, or several.
pub struct Document {
    nodes: Vec<Entry>,
}

/// A node of a document.
#[derive(Clone, Copy)]
pub struct NodeRef<'a> {
    pub document: &'a Document,
    /// The place of the node in the document.
    pub index: usize,
}

impl Document {
    /// The number of nodes.
    pub closed spec fn len(&self) -> nat {
        self.nodes@.len()
    }

    pub closed spec fn data_of(&self, index: int) -> NodeData {
        self.nodes@[index].data
    }

    pub closed spec fn parent_of(&self, index: int) -> Option<usize> {
        self.nodes@[index].parent
    }

    pub closed spec fn prev_sibling_of(&self, index: int) -> Option<usize> {
        self.nodes@[index].prev_sibling
    }

    pub closed spec fn next_sibling_of(&self, index: int) -> Option<usize> {
        self.nodes@[index].next_sibling
    }

    /// The last child of the node at `index`, where it has children.
    pub closed spec fn last_child_of(&self, index: int) -> Option<usize> {
        self.nodes@[index].last_child
    }

    /// Parents and earlier siblings stand before a node, later siblings and
    /// children behind it, and the links between neighbours agree.
    pub closed spec fn wf(&self) -> bool {
        forall|i: int|
            #![trigger self.nodes@[i]]
            0 <= i < self.nodes@.len() ==> {
                let node = self.nodes@[i];
                &&& node.parent matches Some(p) ==> p < i
                &&& node.prev_sibling matches Some(s) ==> s < i && self.nodes@[s as int].next_sibling
                    == Some(i as usize) && self.nodes@[s as int].parent == node.parent
                &&& node.next_sibling matches Some(s) ==> i < s < self.nodes@.len()
                    && self.nodes@[s as int].prev_sibling == Some(i as usize)
                    && self.nodes@[s as int].parent == node.parent
                &&& node.last_child matches Some(c) ==> i < c < self.nodes@.len()
                    && self.nodes@[c as int].parent == Some(i as usize)
                    && self.nodes@[c as int].next_sibling is None
            }
    }

    /// The places of the ancestors of the node at `index`, the parent first.
    pub open spec fn ancestor_indices(&self, index: int) -> Seq<usize>
        decreases index,
    {
        match self.parent_of(index) {
            Some(p) => if 0 <= p < index {
                seq![p] + self.ancestor_indices(p as int)
            } else {
                Seq::empty()
            },
            None => Seq::empty(),
        }
    }

    /// The places of the earlier siblings of the node at `index`, the nearest first.
    pub open spec fn preceding_indices(&self, index: int) -> Seq<usize>
        decreases index,
    {
        match self.prev_sibling_of(index) {
            Some(s) => if 0 <= s < index {
                seq![s] + self.preceding_indices(s as int)
            } else {
                Seq::empty()
            },
            None => Seq::empty(),
        }
    }

    /// The places of the later siblings of the node at `index`, the nearest first.
    pub open spec fn following_indices(&self, index: int) -> Seq<usize>
        decreases self.len() - index,
    {
        match self.next_sibling_of(index) {
            Some(s) => if index < s < self.len() {
                seq![s] + self.following_indices(s as int)
            } else {
                Seq::empty()
            },
            None => Seq::empty(),
        }
    }

    proof fn lemma_preceding_fit(&self, index: int)
        requires
            0 <= index,
        ensures
            self.preceding_indices(index).len() <= index,
        decreases index,
    {
        match self.nodes@[index].prev_sibling {
            Some(s) => if 0 <= s < index {
                self.lemma_preceding_fit(s as int);
            },
            None => {},
        }
    }

    proof fn lemma_following_fit(&self, index: int)
        requires
            0 <= index < self.len(),
        ensures
            self.following_indices(index).len() < self.len() - index,
        decreases self.len() - index,
    {
        match self.nodes@[index].next_sibling {
            Some(s) => if index < s < self.nodes@.len() {
                self.lemma_following_fit(s as int);
            },
            None => {},
        }
    }

    /// A document that holds its document node alone, at place 0.
    pub fn new() -> (document: Document)
        ensures
            document.wf(),
            document.len() == 1,
            document.data_of(0) is Document,
            document.parent_of(0) is None,
            document.prev_sibling_of(0) is None,
            document.next_sibling_of(0) is None,
            document.last_child_of(0) is None,
    {
        let mut nodes: Vec<Entry> = Vec::new();
        nodes.push(
            Entry {
                data: NodeData::Document,
                parent: None,
                prev_sibling: None,
                next_sibling: None,
                last_child: None,
            },
        );
        Document { nodes }
    }

    /// The number of nodes.
    pub fn node_count(&self) -> (count: usize)
        ensures
            count == self.len(),
    {
        self.nodes.len()
    }

    /// Adds a node behind the children of the node at `parent`, or a node
    /// without a parent, and gives the place of the new node.
    pub fn append(&mut self, parent: Option<usize>, data: NodeData) -> (index: usize)
        requires
            old(self).wf(),
            parent matches Some(p) ==> p < old(self).len(),
        ensures
            final(self).wf(),
            index == old(self).len(),
            final(self).len() == old(self).len() + 1,
            final(self).data_of(index as int) == data,
            final(self).parent_of(index as int) == parent,
            final(self).next_sibling_of(index as int) is None,
            final(self).last_child_of(index as int) is None,
            final(self).prev_sibling_of(index as int) == (match parent {
                Some(p) => old(self).last_child_of(p as int),
                None => None,
            }),
            forall|i: int|
                0 <= i < old(self).len() ==> {
                    &&& final(self).data_of(i) == old(self).data_of(i)
                    &&& final(self).parent_of(i) == old(self).parent_of(i)
                    &&& final(self).prev_sibling_of(i) == old(self).prev_sibling_of(i)
                    &&& final(self).next_sibling_of(i) == (if final(self).prev_sibling_of(
                        index as int,
                    ) == Some(i as usize) {
                        Some(index)
                    } else {
                        old(self).next_sibling_of(i)
                    })
                    &&& final(self).last_child_of(i) == (if parent == Some(i as usize) {
                        Some(index)
                    } else {
                        old(self).last_child_of(i)
                    })
                },
    {
        let index = self.nodes.len();
        let prev_sibling = match parent {
            Some(p) => self.nodes[p].last_child,
            None => None,
        };
        match prev_sibling {
            Some(s) => {
                self.nodes[s].next_sibling = Some(index);
            },
            None => {},
        }
        match parent {
            Some(p) => {
                self.nodes[p].last_child = Some(index);
            },
            None => {},
        }
        self.nodes.push(
            Entry { data, parent, prev_sibling, next_sibling: None, last_child: None },
        );
        proof {
            assert forall|i: int| #![trigger self.nodes@[i]] 0 <= i < self.nodes@.len() implies {
                let node = self.nodes@[i];
                &&& node.parent matches Some(p) ==> p < i
                &&& node.prev_sibling matches Some(s) ==> s < i && self.nodes@[s as int].next_sibling
                    == Some(i as usize) && self.nodes@[s as int].parent == node.parent
                &&& node.next_sibling matches Some(s) ==> i < s < self.nodes@.len()
                    && self.nodes@[s as int].prev_sibling == Some(i as usize)
                    && self.nodes@[s as int].parent == node.parent
                &&& node.last_child matches Some(c) ==> i < c < self.nodes@.len()
                    && self.nodes@[c as int].parent == Some(i as usize)
                    && self.nodes@[c as int].next_sibling is None
            } by {
                if i < index {
                    let before = old(self).nodes@[i];
                    assert(before.parent matches Some(p) ==> p < i);
                    if let Some(s) = before.prev_sibling {
                        let neighbour = old(self).nodes@[s as int];
                    }
                    if let Some(s) = before.next_sibling {
                        let neighbour = old(self).nodes@[s as int];
                    }
                    if let Some(c) = before.last_child {
                        let child = old(self).nodes@[c as int];
                    }
                }
                if let Some(p) = parent {
                    let above = old(self).nodes@[p as int];
                    if let Some(c) = above.last_child {
                        let child = old(self).nodes@[c as int];
                    }
                }
            }
        }
        index
    }

    /// The node at `index`.
    pub fn node(&self, index: usize) -> (node: NodeRef<'_>)
        requires
            self.wf(),
            index < self.len(),
        ensures
            node.wf(),
            node.document == self,
            node.index == index,
    {
        NodeRef { document: self, index }
    }
}

impl<'a> NodeRef<'a> {
    /// The nodes of the document of `self` at the given places.
    pub open spec fn at(&self, places: Seq<usize>) -> Seq<NodeRef<'a>> {
        places.map_values(|place: usize| NodeRef { document: self.document, index: place })
    }

    /// What the node is.
    pub open spec fn data(&self) -> NodeData {
        self.document.data_of(self.index as int)
    }

    fn entry(&self) -> (entry: &Entry)
        requires
            self.wf(),
        ensures
            *entry == self.document.nodes@[self.index as int],
    {
        &self.document.nodes[self.index]
    }
}

impl<'a> TreeNode for NodeRef<'a> {
    open spec fn wf(&self) -> bool {
        self.document.wf() && self.index < self.document.len()
    }

    open spec fn spec_is_element(&self) -> bool {
        self.data() is Element
    }

    open spec fn spec_is_document(&self) -> bool {
        self.data() is Document
    }

    open spec fn spec_local_name(&self) -> Seq<char> {
        match self.data() {
            NodeData::Element(element) => element.local_name@,
            _ => Seq::empty(),
        }
    }

    open spec fn spec_namespace_url(&self) -> Seq<char> {
        match self.data() {
            NodeData::Element(element) => element.namespace_url@,
            _ => Seq::empty(),
        }
    }

    open spec fn spec_attr(&self, namespace: Option<Seq<char>>, name: Seq<char>) -> Option<
        Seq<char>,
    > {
        match self.data() {
            NodeData::Element(element) => attribute_value(element.attributes@, namespace, name),
            _ => None,
        }
    }

    open spec fn spec_link(&self) -> Option<Seq<char>> {
        match self.data() {
            NodeData::Element(element) => match element.link {
                Some(url) => Some(url@),
                None => None,
            },
            _ => None,
        }
    }

    open spec fn ancestors(&self) -> Seq<Self> {
        self.at(self.document.ancestor_indices(self.index as int))
    }

    open spec fn preceding_siblings(&self) -> Seq<Self> {
        self.at(self.document.preceding_indices(self.index as int))
    }

    open spec fn following_siblings(&self) -> Seq<Self> {
        self.at(self.document.following_indices(self.index as int))
    }

    proof fn lemma_siblings_fit(&self) {
        self.document.lemma_preceding_fit(self.index as int);
        self.document.lemma_following_fit(self.index as int);
        assert(self.document.nodes@.len() == self.document.nodes.len());
    }

    fn is_element(&self) -> (b: bool) {
        match &self.entry().data {
            NodeData::Element(_) => true,
            _ => false,
        }
    }

    fn is_document(&self) -> (b: bool) {
        match &self.entry().data {
            NodeData::Document => true,
            _ => false,
        }
    }

    fn local_name(&self) -> (name: &str) {
        match &self.entry().data {
            NodeData::Element(element) => element.local_name.as_str(),
            _ => "",
        }
    }

    fn namespace_url(&self) -> (url: &str) {
        match &self.entry().data {
            NodeData::Element(element) => element.namespace_url.as_str(),
            _ => "",
        }
    }

    fn attr(&self, namespace: Option<&str>, name: &str) -> (value: Option<&str>) {
        match &self.entry().data {
            NodeData::Element(element) => {
                let attributes = &element.attributes;
                let mut i: usize = 0;
                assert(attributes@.skip(0) == attributes@);
                while i < attributes.len()
                    invariant
                        i <= attributes.len(),
                        self.spec_attr(option_view(namespace), name@) == attribute_value(
                            attributes@,
                            option_view(namespace),
                            name@,
                        ),
                        attribute_value(attributes@, option_view(namespace), name@)
                            == attribute_value(
                            attributes@.skip(i as int),
                            option_view(namespace),
                            name@,
                        ),
                    decreases attributes.len() - i,
                {
                    let attribute = &attributes[i];
                    assert(attributes@.skip(i as int).skip(1) == attributes@.skip(i + 1));
                    assert(attributes@.skip(i as int)[0] == *attribute);
                    let same_namespace = match &attribute.namespace {
                        Some(own) => match namespace {
                            Some(asked) => str_eq(own.as_str(), asked),
                            None => false,
                        },
                        None => namespace.is_none(),
                    };
                    if same_namespace && str_eq(attribute.name.as_str(), name) {
                        return Some(attribute.value.as_str());
                    }
                    i = i + 1;
                }
                None
            },
            _ => None,
        }
    }

    fn link(&self) -> (url: Option<&str>) {
        match &self.entry().data {
            NodeData::Element(element) => match &element.link {
                Some(url) => Some(url.as_str()),
                None => None,
            },
            _ => None,
        }
    }

    fn parent_node(&self) -> (parent: Option<Self>) {
        match self.entry().parent {
            Some(p) => {
                let parent = NodeRef { document: self.document, index: p };
                proof {
                    let own = self.document.ancestor_indices(self.index as int);
                    let above = self.document.ancestor_indices(p as int);
                    assert(own == seq![p] + above);
                    assert(self.at(own).skip(1) == parent.at(above));
                }
                Some(parent)
            },
            None => None,
        }
    }

    fn prev_sibling(&self) -> (sibling: Option<Self>) {
        match self.entry().prev_sibling {
            Some(s) => {
                let sibling = NodeRef { document: self.document, index: s };
                proof {
                    let own = self.document.preceding_indices(self.index as int);
                    let before = self.document.preceding_indices(s as int);
                    assert(own == seq![s] + before);
                    assert(self.at(own).skip(1) == sibling.at(before));
                    let neighbour = self.document.nodes@[s as int];
                    assert(self.document.ancestor_indices(s as int)
                        == self.document.ancestor_indices(self.index as int));
                }
                Some(sibling)
            },
            None => None,
        }
    }

    fn next_sibling(&self) -> (sibling: Option<Self>) {
        match self.entry().next_sibling {
            Some(s) => {
                let sibling = NodeRef { document: self.document, index: s };
                proof {
                    let own = self.document.following_indices(self.index as int);
                    let after = self.document.following_indices(s as int);
                    assert(own == seq![s] + after);
                    assert(self.at(own).skip(1) == sibling.at(after));
                    let neighbour = self.document.nodes@[s as int];
                    assert(self.document.ancestor_indices(s as int)
                        == self.document.ancestor_indices(self.index as int));
                }
                Some(sibling)
            },
            None => None,
        }
    }
}

} // verus!
