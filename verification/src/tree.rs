//! A document as a labelled tree: what the descriptor parsers walk.
//!
//! The tree is built by the `elementtree` crate. It is copied, element by
//! element, into [`XmlNode`], which holds what the parsers read: the
//! namespace and local name of each element, its text and its children.

use crate::error::UpnpError;
use crate::text::text_eq;
use vstd::prelude::*;

verus! {

/// An element of a document.
#[derive(Debug, PartialEq, Eq)]
pub struct XmlNode {
    /// The URI of the element's namespace, where it has one.
    pub namespace: Option<String>,
    /// The element's local name.
    pub name: String,
    /// The character data between the element's start tag and its first
    /// child or, where it has no child, its end tag.
    pub text: String,
    /// The child elements, in document order.
    pub children: Vec<XmlNode>,
}

/// An [`XmlNode`] by its characters.
pub struct XmlTree {
    pub namespace: Option<Seq<char>>,
    pub name: Seq<char>,
    pub text: Seq<char>,
    pub children: Seq<XmlTree>,
}

/// `node` by its characters.
pub open spec fn tree_of(node: XmlNode) -> XmlTree
    decreases node,
{
    XmlTree {
        namespace: node.namespace.deep_view(),
        name: node.name@,
        text: node.text@,
        children: Seq::new(
            node.children@.len(),
            |i: int|
                if 0 <= i < node.children@.len() {
                    tree_of(node.children@[i])
                } else {
                    arbitrary()
                },
        ),
    }
}

impl DeepView for XmlNode {
    type V = XmlTree;

    open spec fn deep_view(&self) -> XmlTree {
        tree_of(*self)
    }
}

/// `node` is named `name` in the namespace `namespace`.
pub open spec fn has_tag(node: XmlTree, namespace: Seq<char>, name: Seq<char>) -> bool {
    node.namespace == Some(namespace) && node.name == name
}

/// The first of `nodes` that is named `name` in the namespace `namespace`.
pub open spec fn first_tagged(nodes: Seq<XmlTree>, namespace: Seq<char>, name: Seq<char>) -> Option<
    XmlTree,
>
    decreases nodes.len(),
{
    if nodes.len() == 0 {
        None
    } else if has_tag(nodes[0], namespace, name) {
        Some(nodes[0])
    } else {
        first_tagged(nodes.drop_first(), namespace, name)
    }
}

impl XmlTree {
    /// The first child that is named `name` in the namespace `namespace`.
    pub open spec fn find(self, namespace: Seq<char>, name: Seq<char>) -> Option<XmlTree> {
        first_tagged(self.children, namespace, name)
    }

    /// The text of the first child that is named `name` in the namespace
    /// `namespace`.
    pub open spec fn find_text(self, namespace: Seq<char>, name: Seq<char>) -> Option<Seq<char>> {
        match self.find(namespace, name) {
            Some(child) => Some(child.text),
            None => None,
        }
    }
}

/// The tree of the document `text`: what `elementtree::Element::from_reader`
/// builds from the bytes of `text`, or `None` where it reports an error.
pub uninterp spec fn document_tree(text: Seq<char>) -> Option<XmlTree>;

/// `elementtree::Element`, of which nothing is known but what the functions
/// below say.
#[verifier::external_type_specification]
#[verifier::external_body]
pub struct ExElement(elementtree::Element);

/// `elementtree::Error`, which is not looked into.
#[verifier::external_type_specification]
#[verifier::external_body]
pub struct ExTreeError(elementtree::Error);

/// What `element` holds: its tag, its text and, in order, its children.
pub uninterp spec fn element_tree(element: elementtree::Element) -> XmlTree;

/// `elementtree::Element::from_reader` on the bytes of `text`: the root
/// element of the document, or the error the crate reports.
#[verifier::external_body]
fn parse_element(text: &str) -> (root: Result<elementtree::Element, elementtree::Error>)
    ensures
        match root {
            Ok(element) => document_tree(text@) == Some(element_tree(element)),
            Err(_) => document_tree(text@) is None,
        },
{
    elementtree::Element::from_reader(text.as_bytes())
}

/// `elementtree::QName::name` of `Element::tag`: the local name.
#[verifier::external_body]
fn element_name(element: &elementtree::Element) -> (name: &str)
    ensures
        name@ == element_tree(*element).name,
{
    element.tag().name()
}

/// `elementtree::QName::ns` of `Element::tag`: the namespace's URI, `None`
/// for an element in no namespace.
#[verifier::external_body]
fn element_namespace(element: &elementtree::Element) -> (namespace: Option<&str>)
    ensures
        match namespace {
            Some(uri) => element_tree(*element).namespace == Some(uri@),
            None => element_tree(*element).namespace is None,
        },
{
    element.tag().ns()
}

/// `elementtree::Element::text`: the text before the first child.
#[verifier::external_body]
fn element_text(element: &elementtree::Element) -> (text: &str)
    ensures
        text@ == element_tree(*element).text,
{
    element.text()
}

/// `elementtree::Element::child_count`: the number of children.
#[verifier::external_body]
fn element_child_count(element: &elementtree::Element) -> (count: usize)
    ensures
        count == element_tree(*element).children.len(),
{
    element.child_count()
}

/// `elementtree::Element::get_child`: the child at `index`, `None` where
/// `index` is past the last child.
#[verifier::external_body]
fn element_child(element: &elementtree::Element, index: usize) -> (child: Option<
    &elementtree::Element,
>)
    ensures
        match child {
            Some(c) => {
                &&& index < element_tree(*element).children.len()
                &&& element_tree(*c) == element_tree(*element).children[index as int]
            },
            None => index >= element_tree(*element).children.len(),
        },
{
    element.get_child(index)
}

fn node_from_element(element: &elementtree::Element) -> (node: XmlNode)
    ensures
        node.deep_view() == element_tree(*element),
    decreases element_tree(*element),
{
    let namespace = match element_namespace(element) {
        Some(uri) => Some(uri.to_owned()),
        None => None,
    };
    let name = element_name(element).to_owned();
    let text = element_text(element).to_owned();
    let count = element_child_count(element);
    let mut children: Vec<XmlNode> = Vec::new();
    let mut i: usize = 0;
    while i < count
        invariant
            i <= count,
            count == element_tree(*element).children.len(),
            children@.len() == i,
            forall|k: int|
                0 <= k < i ==> (#[trigger] children@[k]).deep_view() == element_tree(
                    *element,
                ).children[k],
        decreases count - i,
    {
        if let Some(child) = element_child(element, i) {
            let node = node_from_element(child);
            children.push(node);
        }
        i += 1;
    }
    let node = XmlNode { namespace, name, text, children };
    assert(node.deep_view().children =~= element_tree(*element).children);
    node
}

/// The tree of the document `text`, or `MalformedXml` where the document
/// cannot be read as one.
pub fn read_tree(text: &str) -> (tree: Result<XmlNode, UpnpError>)
    ensures
        match tree {
            Ok(root) => document_tree(text@) == Some(root.deep_view()),
            Err(error) => error == UpnpError::MalformedXml && document_tree(text@) is None,
        },
{
    match parse_element(text) {
        Ok(root) => Ok(node_from_element(&root)),
        Err(_) => Err(UpnpError::MalformedXml),
    }
}

/// The children of a node by its characters are its children by their
/// characters.
pub proof fn lemma_children(node: XmlNode)
    ensures
        node.deep_view().children.len() == node.children@.len(),
        forall|i: int|
            0 <= i < node.children@.len() ==> #[trigger] node.deep_view().children[i]
                == node.children@[i].deep_view(),
{
}

impl XmlNode {
    /// Whether this element is named `name` in the namespace `namespace`.
    pub fn has_tag(&self, namespace: &str, name: &str) -> (named: bool)
        ensures
            named == has_tag(self.deep_view(), namespace@, name@),
    {
        match &self.namespace {
            Some(uri) => text_eq(uri.as_str(), namespace) && text_eq(self.name.as_str(), name),
            None => false,
        }
    }

    /// The first child that is named `name` in the namespace `namespace`.
    pub fn find(&self, namespace: &str, name: &str) -> (child: Option<&XmlNode>)
        ensures
            child.deep_view() == self.deep_view().find(namespace@, name@),
    {
        let ghost nodes = self.deep_view().children;
        proof {
            lemma_children(*self);
        }
        let mut i: usize = 0;
        assert(nodes.skip(0) =~= nodes);
        while i < self.children.len()
            invariant
                i <= self.children.len(),
                nodes == self.deep_view().children,
                nodes.len() == self.children@.len(),
                forall|k: int|
                    0 <= k < self.children@.len() ==> #[trigger] nodes[k]
                        == self.children@[k].deep_view(),
                first_tagged(nodes.skip(i as int), namespace@, name@) == first_tagged(
                    nodes,
                    namespace@,
                    name@,
                ),
            decreases self.children.len() - i,
        {
            assert(nodes.skip(i as int).drop_first() =~= nodes.skip(i + 1));
            assert(nodes.skip(i as int)[0] == nodes[i as int]);
            if self.children[i].has_tag(namespace, name) {
                return Some(&self.children[i]);
            }
            i += 1;
        }
        None
    }

    /// The text of the first child that is named `name` in the namespace
    /// `namespace`.
    pub fn find_text(&self, namespace: &str, name: &str) -> (text: Option<String>)
        ensures
            text.deep_view() == self.deep_view().find_text(namespace@, name@),
    {
        match self.find(namespace, name) {
            Some(child) => Some(child.text.clone()),
            None => None,
        }
    }
}

} // verus!
