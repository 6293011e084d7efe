//! The element tree that the expansion reads and writes.

use vstd::prelude::*;

verus! {

/// An element of a document: its name, its prefix, its attributes in
/// document order and its child nodes.
#[derive(Debug, PartialEq, Eq)]
pub struct Element {
    /// The namespace prefix, as in `xacro:if`.
    pub prefix: Option<String>,
    /// The namespace that the prefix stands for.
    pub namespace: Option<String>,
    /// The prefixes declared on this element, each with its namespace.
    pub namespaces: Option<Vec<(String, String)>>,
    /// The local name.
    pub name: String,
    /// The attributes, each name with its value.
    pub attributes: Vec<(String, String)>,
    /// The child nodes in document order.
    pub children: Vec<XMLNode>,
}

/// A node of a document.
#[derive(Debug, PartialEq, Eq)]
pub enum XMLNode {
    Element(Element),
    Comment(String),
    CData(String),
    Text(String),
    ProcessingInstruction(String, Option<String>),
}

/// What an `Element` holds.
pub struct ElementModel {
    pub prefix: Option<Seq<char>>,
    pub namespace: Option<Seq<char>>,
    pub namespaces: Option<Seq<(Seq<char>, Seq<char>)>>,
    pub name: Seq<char>,
    pub attributes: Seq<(Seq<char>, Seq<char>)>,
    pub children: Seq<NodeModel>,
}

/// What an `XMLNode` holds.
pub enum NodeModel {
    Element(ElementModel),
    Comment(Seq<char>),
    CData(Seq<char>),
    Text(Seq<char>),
    ProcessingInstruction(Seq<char>, Option<Seq<char>>),
}

/// What `element` holds, with all that is below it.
pub open spec fn element_model(element: Element) -> ElementModel
    decreases element,
{
    ElementModel {
        prefix: element.prefix.deep_view(),
        namespace: element.namespace.deep_view(),
        namespaces: element.namespaces.deep_view(),
        name: element.name@,
        attributes: element.attributes.deep_view(),
        children: Seq::new(
            element.children@.len(),
            |i: int|
                if 0 <= i < element.children@.len() {
                    node_model(element.children@[i])
                } else {
                    NodeModel::Text(Seq::empty())
                },
        ),
    }
}

/// What `node` holds, with all that is below it.
pub open spec fn node_model(node: XMLNode) -> NodeModel
    decreases node,
{
    match node {
        XMLNode::Element(element) => NodeModel::Element(element_model(element)),
        XMLNode::Comment(text) => NodeModel::Comment(text@),
        XMLNode::CData(text) => NodeModel::CData(text@),
        XMLNode::Text(text) => NodeModel::Text(text@),
        XMLNode::ProcessingInstruction(target, data) => NodeModel::ProcessingInstruction(
            target@,
            data.deep_view(),
        ),
    }
}

impl View for Element {
    type V = ElementModel;

    open spec fn view(&self) -> ElementModel {
        element_model(*self)
    }
}

impl View for XMLNode {
    type V = NodeModel;

    open spec fn view(&self) -> NodeModel {
        node_model(*self)
    }
}

impl DeepView for Element {
    type V = ElementModel;

    open spec fn deep_view(&self) -> ElementModel {
        self.view()
    }
}

impl DeepView for XMLNode {
    type V = NodeModel;

    open spec fn deep_view(&self) -> NodeModel {
        self.view()
    }
}

/// A copy of an optional text.
pub fn copy_optional(text: &Option<String>) -> (copy: Option<String>)
    ensures
        copy.deep_view() == text.deep_view(),
{
    match text {
        Some(t) => Some(t.clone()),
        None => None,
    }
}

/// A copy of a list of pairs of texts.
pub fn copy_pairs(pairs: &Vec<(String, String)>) -> (copy: Vec<(String, String)>)
    ensures
        copy.deep_view() == pairs.deep_view(),
{
    let mut copy: Vec<(String, String)> = Vec::new();
    let mut i: usize = 0;
    while i < pairs.len()
        invariant
            i <= pairs@.len(),
            copy@.len() == i,
            forall|k: int| 0 <= k < i ==> copy@[k].deep_view() == pairs@[k].deep_view(),
        decreases pairs@.len() - i,
    {
        copy.push((pairs[i].0.clone(), pairs[i].1.clone()));
        i = i + 1;
    }
    assert(copy.deep_view() =~= pairs.deep_view());
    copy
}

impl Element {
    /// A copy of the element with all that is below it.
    pub fn duplicate(&self) -> (copy: Element)
        ensures
            copy@ == self@,
        decreases self,
    {
        let mut children: Vec<XMLNode> = Vec::new();
        let mut i: usize = 0;
        while i < self.children.len()
            invariant
                i <= self.children@.len(),
                children@.len() == i,
                forall|k: int| 0 <= k < i ==> children@[k]@ == self.children@[k]@,
            decreases self.children@.len() - i,
        {
            children.push(self.children[i].duplicate());
            i = i + 1;
        }
        let copy = Element {
            prefix: copy_optional(&self.prefix),
            namespace: copy_optional(&self.namespace),
            namespaces: match &self.namespaces {
                Some(declared) => Some(copy_pairs(declared)),
                None => None,
            },
            name: self.name.clone(),
            attributes: copy_pairs(&self.attributes),
            children,
        };
        assert(copy@.children =~= self@.children) by {
            assert(copy.children@.len() == self.children@.len());
            assert forall|k: int| 0 <= k < self.children@.len() implies copy@.children[k]
                == self@.children[k] by {
                assert(copy.children@[k]@ == self.children@[k]@);
            }
        }
        copy
    }
}

impl XMLNode {
    /// A copy of the node with all that is below it.
    pub fn duplicate(&self) -> (copy: XMLNode)
        ensures
            copy@ == self@,
        decreases self,
    {
        match self {
            XMLNode::Element(element) => XMLNode::Element(element.duplicate()),
            XMLNode::Comment(text) => XMLNode::Comment(text.clone()),
            XMLNode::CData(text) => XMLNode::CData(text.clone()),
            XMLNode::Text(text) => XMLNode::Text(text.clone()),
            XMLNode::ProcessingInstruction(target, data) => XMLNode::ProcessingInstruction(
                target.clone(),
                copy_optional(data),
            ),
        }
    }
}

} // verus!
