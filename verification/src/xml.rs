//! XML documents as plain values. `roxmltree` parses the text; the tree it
//! builds is handed over node for node, and the library reads it through
//! the accessors below.

use vstd::prelude::*;

verus! {

/// `roxmltree::Node`, a node of a parsed document.
#[verifier::external_type_specification]
#[verifier::external_body]
pub struct ExRoxmlNode<'a, 'input: 'a>(roxmltree::Node<'a, 'input>);

/// An attribute: its namespace URI if it has a prefix, its local name and
/// its value (with references resolved).
pub struct XmlAttribute {
    pub namespace: Option<String>,
    pub name: String,
    pub value: String,
}

/// An element: its namespace URI if any, its local name, its attributes in
/// document order and its child nodes.
pub struct XmlElement {
    pub namespace: Option<String>,
    pub name: String,
    pub attributes: Vec<XmlAttribute>,
    pub children: Vec<XmlNode>,
}

/// A node of a document.
pub enum XmlNode {
    /// The document itself, with its top-level nodes.
    Root(Vec<XmlNode>),
    Element(XmlElement),
    Text(String),
    Comment(String),
    /// A processing instruction: its target and its value, if any.
    ProcessingInstruction(String, Option<String>),
}

/// The tree that `roxmltree` reads from a text, rooted at the document
/// node; `None` where the text is not well-formed XML.
pub uninterp spec fn parsed_xml(text: Seq<char>) -> Option<XmlNode>;

/// `roxmltree::Document::parse`: the document tree of `text`, or `None`
/// where `roxmltree` reports an error. Nothing is stated of the tree beyond
/// its name: XML's grammar is `roxmltree`'s to apply.
#[verifier::external_body]
pub(crate) fn parse_xml(text: &str) -> (r: Option<XmlNode>)
    ensures
        r == parsed_xml(text@),
{
    roxmltree::Document::parse(text).ok().map(|doc| node_of(doc.root()))
}

/// The plain value of a `roxmltree` node, its kind and content, and of the
/// nodes below it.
#[verifier::external_body]
fn node_of(node: roxmltree::Node) -> XmlNode {
    let children: Vec<XmlNode> = node.children().map(node_of).collect();
    let text = node.text().unwrap_or("").to_string();
    match node.node_type() {
        roxmltree::NodeType::Root => XmlNode::Root(children),
        roxmltree::NodeType::Element => XmlNode::Element(element_of(node, children)),
        roxmltree::NodeType::Text => XmlNode::Text(text),
        roxmltree::NodeType::Comment => XmlNode::Comment(text),
        roxmltree::NodeType::PI => {
            let pi = node.pi().map(|p| (p.target.to_string(), p.value.map(String::from)));
            let (target, value) = pi.unwrap_or_default();
            XmlNode::ProcessingInstruction(target, value)
        },
    }
}

/// The plain value of an element node's name and attributes, with its
/// children already converted.
#[verifier::external_body]
fn element_of(node: roxmltree::Node, children: Vec<XmlNode>) -> XmlElement {
    XmlElement {
        namespace: node.tag_name().namespace().map(String::from),
        name: node.tag_name().name().to_string(),
        attributes: node.attributes().map(|a| XmlAttribute {
            namespace: a.namespace().map(String::from),
            name: a.name().to_string(),
            value: a.value().to_string(),
        }).collect(),
        children,
    }
}

/// The value of the first attribute without a namespace whose local name
/// is `name` (`roxmltree`'s `Node::attribute` with a plain name).
pub open spec fn attribute_value(attributes: Seq<XmlAttribute>, name: Seq<char>) -> Option<
    Seq<char>,
>
    decreases attributes.len(),
{
    if attributes.len() == 0 {
        None
    } else if attributes[0].namespace is None && attributes[0].name@ == name {
        Some(attributes[0].value@)
    } else {
        attribute_value(attributes.drop_first(), name)
    }
}

/// The node is an element with local name `name`, whatever its namespace
/// (`roxmltree`'s `Node::has_tag_name` with a plain name).
pub open spec fn has_tag_name(n: XmlNode, name: Seq<char>) -> bool {
    match n {
        XmlNode::Element(e) => e.name@ == name,
        _ => false,
    }
}

/// Whether `s` holds the text `t`.
pub fn text_is(s: &String, t: &str) -> (r: bool)
    ensures
        r == (s@ == t@),
{
    let other = String::from_str(t);
    *s == other
}

impl XmlElement {
    /// The value of the attribute `name` (see [`attribute_value`]).
    pub fn attribute(&self, name: &str) -> (r: Option<&String>)
        ensures
            match attribute_value(self.attributes@, name@) {
                Some(v) => r matches Some(s) && s@ == v,
                None => r is None,
            },
    {
        let mut i: usize = 0;
        assert(self.attributes@.skip(0) =~= self.attributes@);
        while i < self.attributes.len()
            invariant
                i <= self.attributes.len(),
                attribute_value(self.attributes@, name@) == attribute_value(
                    self.attributes@.skip(i as int),
                    name@,
                ),
            decreases self.attributes.len() - i,
        {
            let a = &self.attributes[i];
            let ghost rest = self.attributes@.skip(i as int);
            assert(rest[0] == *a);
            assert(rest.drop_first() =~= self.attributes@.skip(i + 1));
            if a.namespace.is_none() && text_is(&a.name, name) {
                return Some(&a.value);
            }
            i = i + 1;
        }
        assert(self.attributes@.skip(i as int).len() == 0);
        None
    }
}

impl XmlNode {
    /// Whether this is an element with local name `name` (see
    /// [`has_tag_name`]).
    pub fn has_tag_name(&self, name: &str) -> (r: bool)
        ensures
            r == has_tag_name(*self, name@),
    {
        match self {
            XmlNode::Element(e) => text_is(&e.name, name),
            _ => false,
        }
    }
}

} // verus!
