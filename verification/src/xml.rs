//! The nodes of an XML document.

use crate::text::same_text;
use vstd::prelude::*;
use vstd::string::*;

verus! {

/// An attribute of an element.
#[derive(Debug)]
pub struct XmlAttribute {
    /// The name without its namespace.
    pub name: String,
    pub value: String,
}

/// An attribute with its texts.
pub ghost struct AttributeModel {
    pub name: Seq<char>,
    pub value: Seq<char>,
}

impl View for XmlAttribute {
    type V = AttributeModel;

    open spec fn view(&self) -> AttributeModel {
        AttributeModel { name: self.name@, value: self.value@ }
    }
}

/// The attributes of a list.
pub open spec fn attribute_models(v: Seq<XmlAttribute>) -> Seq<AttributeModel> {
    v.map_values(|a: XmlAttribute| a@)
}

/// A node of an XML document.
#[derive(Debug)]
pub struct XmlNode {
    /// The place of its parent in the list of nodes.
    pub parent: Option<usize>,
    /// The name of the element without its namespace; empty where it is no element.
    pub tag: String,
    pub attributes: Vec<XmlAttribute>,
    /// Where its text starts in the document, in bytes.
    pub start: usize,
    /// Where its text ends in the document, in bytes.
    pub end: usize,
}

/// A node with its texts.
pub ghost struct NodeModel {
    pub parent: Option<usize>,
    pub tag: Seq<char>,
    pub attributes: Seq<AttributeModel>,
    pub start: usize,
    pub end: usize,
}

impl View for XmlNode {
    type V = NodeModel;

    open spec fn view(&self) -> NodeModel {
        NodeModel {
            parent: self.parent,
            tag: self.tag@,
            attributes: attribute_models(self.attributes@),
            start: self.start,
            end: self.end,
        }
    }
}

/// The nodes of a list.
pub open spec fn node_models(v: Seq<XmlNode>) -> Seq<NodeModel> {
    v.map_values(|n: XmlNode| n@)
}

/// The text of a string that may be missing.
pub open spec fn text_of(o: Option<String>) -> Option<Seq<char>> {
    match o {
        Some(s) => Some(s@),
        None => None,
    }
}

/// The value of the first attribute `name`, from place `from` on.
pub open spec fn value_from(
    attributes: Seq<AttributeModel>,
    name: Seq<char>,
    from: int,
) -> Option<Seq<char>>
    decreases attributes.len() - from,
{
    if from < 0 || from >= attributes.len() {
        None
    } else if attributes[from].name == name {
        Some(attributes[from].value)
    } else {
        value_from(attributes, name, from + 1)
    }
}

impl NodeModel {
    /// The value of its first attribute `name`.
    pub open spec fn value(self, name: Seq<char>) -> Option<Seq<char>> {
        value_from(self.attributes, name, 0)
    }
}

impl XmlNode {
    /// The value of its first attribute `name`.
    pub fn value(&self, name: &str) -> (r: Option<String>)
        ensures
            text_of(r) == self@.value(name@),
    {
        let ghost models = attribute_models(self.attributes@);
        let mut i: usize = 0;
        while i < self.attributes.len()
            invariant
                i <= self.attributes.len(),
                models == attribute_models(self.attributes@),
                value_from(models, name@, 0) == value_from(models, name@, i as int),
            decreases self.attributes.len() - i,
        {
            let a: &XmlAttribute = &self.attributes[i];
            assert(models[i as int] == a@);
            if same_text(a.name.as_str(), name) {
                return Some(a.value.clone());
            }
            i = i + 1;
        }
        None
    }
}

/// The nodes that `Document::parse` of the crate roxmltree finds in a text, in the order of
/// the document; `None` where it finds no document.
pub uninterp spec fn roxmltree_nodes(text: Seq<char>) -> Option<Seq<NodeModel>>;

/// `Document::parse` of the crate roxmltree, with what its nodes tell of themselves: their
/// parents, tag names and attributes, and their ranges in bytes, which lie within the text.
/// All of it depends on the text alone.
#[verifier::external_body]
pub(crate) fn xml_nodes(text: &str) -> (r: Option<Vec<XmlNode>>)
    ensures
        match r {
            Some(v) => roxmltree_nodes(text@) == Some(node_models(v@)) && forall|i: int|
                0 <= i < v.len() ==> (#[trigger] v@[i]).start <= v@[i].end
                    <= text.spec_bytes().len(),
            None => roxmltree_nodes(text@) is None,
        },
{
    let doc = roxmltree::Document::parse(text).ok()?;
    Some(doc.descendants().map(|n| XmlNode {
        parent: n.parent().map(|p| p.id().get_usize()),
        tag: n.tag_name().name().to_string(),
        attributes: n.attributes().map(|a| XmlAttribute {
            name: a.name().to_string(),
            value: a.value().to_string(),
        }).collect(),
        start: n.range().start,
        end: n.range().end,
    }).collect())
}

proof fn lemma_value_from(attributes: Seq<AttributeModel>, name: Seq<char>, from: int)
    requires
        0 <= from,
    ensures
        match value_from(attributes, name, from) {
            Some(v) => exists|j: int|
                from <= j < attributes.len() && (#[trigger] attributes[j]).name == name
                    && attributes[j].value == v && forall|i: int|
                    from <= i < j ==> (#[trigger] attributes[i]).name != name,
            None => forall|i: int|
                from <= i < attributes.len() ==> (#[trigger] attributes[i]).name != name,
        },
    decreases attributes.len() - from,
{
    if from < attributes.len() && attributes[from].name != name {
        lemma_value_from(attributes, name, from + 1);
        if let Some(v) = value_from(attributes, name, from + 1) {
            let j = choose|j: int|
                from + 1 <= j < attributes.len() && (#[trigger] attributes[j]).name == name
                    && attributes[j].value == v && forall|i: int|
                    from + 1 <= i < j ==> (#[trigger] attributes[i]).name != name;
            assert(attributes[j].name == name);
            assert(forall|i: int| from <= i < j ==> (#[trigger] attributes[i]).name != name);
        }
    }
}

/// The value of an attribute is that of the first attribute of that very name; there is none
/// exactly where no attribute has the name.
pub proof fn law_value_is_that_of_its_name(n: NodeModel, name: Seq<char>)
    ensures
        match n.value(name) {
            Some(v) => exists|j: int|
                0 <= j < n.attributes.len() && (#[trigger] n.attributes[j]).name == name
                    && n.attributes[j].value == v && forall|i: int|
                    0 <= i < j ==> (#[trigger] n.attributes[i]).name != name,
            None => forall|i: int|
                0 <= i < n.attributes.len() ==> (#[trigger] n.attributes[i]).name != name,
        },
{
    lemma_value_from(n.attributes, name, 0);
}

} // verus!
