//! What the matcher asks of a document tree.

use vstd::prelude::*;

verus! {

/// A handle to a node of a document tree.
///
/// The matcher reads a node through these methods alone and never changes
/// it. The tree is described by three lines that start next to the node: its
/// ancestors, its earlier siblings and its later siblings, each with the
/// nearest node first. A step along a line yields the head of the line, which
/// is again a node of a consistent tree, and the line of that node is the rest.
pub trait TreeNode: Sized {
    /// Whether the handle refers to a node of a consistent tree.
    spec fn wf(&self) -> bool;

    spec fn spec_is_element(&self) -> bool;

    spec fn spec_is_document(&self) -> bool;

    /// The local name of an element.
    spec fn spec_local_name(&self) -> Seq<char>;

    /// The namespace URL of an element.
    spec fn spec_namespace_url(&self) -> Seq<char>;

    /// The value of the attribute of an element with the given namespace and name.
    spec fn spec_attr(&self, namespace: Option<Seq<char>>, name: Seq<char>) -> Option<Seq<char>>;

    /// The URL that an element links to.
    spec fn spec_link(&self) -> Option<Seq<char>>;

    /// The parent, its parent, and so on up to the root.
    spec fn ancestors(&self) -> Seq<Self>;

    /// The siblings before the node, the nearest first.
    spec fn preceding_siblings(&self) -> Seq<Self>;

    /// The siblings after the node, the nearest first.
    spec fn following_siblings(&self) -> Seq<Self>;

    /// A tree that is held in memory has fewer siblings beside a node than
    /// `usize` can count.
    proof fn lemma_siblings_fit(&self)
        requires
            self.wf(),
        ensures
            self.preceding_siblings().len() < usize::MAX,
            self.following_siblings().len() < usize::MAX,
    ;

    fn is_element(&self) -> (b: bool)
        requires
            self.wf(),
        ensures
            b == self.spec_is_element(),
    ;

    fn is_document(&self) -> (b: bool)
        requires
            self.wf(),
        ensures
            b == self.spec_is_document(),
    ;

    fn local_name(&self) -> (name: &str)
        requires
            self.wf(),
            self.spec_is_element(),
        ensures
            name@ == self.spec_local_name(),
    ;

    fn namespace_url(&self) -> (url: &str)
        requires
            self.wf(),
            self.spec_is_element(),
        ensures
            url@ == self.spec_namespace_url(),
    ;

    fn attr(&self, namespace: Option<&str>, name: &str) -> (value: Option<&str>)
        requires
            self.wf(),
            self.spec_is_element(),
        ensures
            option_view(value) == self.spec_attr(option_view(namespace), name@),
    ;

    fn link(&self) -> (url: Option<&str>)
        requires
            self.wf(),
            self.spec_is_element(),
        ensures
            option_view(url) == self.spec_link(),
    ;

    fn parent_node(&self) -> (parent: Option<Self>)
        requires
            self.wf(),
        ensures
            match parent {
                None => self.ancestors().len() == 0,
                Some(n) => self.ancestors().len() > 0 && n == self.ancestors()[0] && n.wf(),
            },
            parent matches Some(p) ==> p.ancestors() == self.ancestors().skip(1),
    ;

    fn prev_sibling(&self) -> (sibling: Option<Self>)
        requires
            self.wf(),
        ensures
            match sibling {
                None => self.preceding_siblings().len() == 0,
                Some(n) => self.preceding_siblings().len() > 0 && n == self.preceding_siblings()[0] && n.wf(),
            },
            sibling matches Some(s) ==> s.preceding_siblings() == self.preceding_siblings().skip(1)
                && s.ancestors() == self.ancestors(),
    ;

    fn next_sibling(&self) -> (sibling: Option<Self>)
        requires
            self.wf(),
        ensures
            match sibling {
                None => self.following_siblings().len() == 0,
                Some(n) => self.following_siblings().len() > 0 && n == self.following_siblings()[0] && n.wf(),
            },
            sibling matches Some(s) ==> s.following_siblings() == self.following_siblings().skip(1)
                && s.ancestors() == self.ancestors(),
    ;
}

/// The characters of an optional string.
pub open spec fn option_view(s: Option<&str>) -> Option<Seq<char>> {
    match s {
        Some(t) => Some(t@),
        None => None,
    }
}

} // verus!
