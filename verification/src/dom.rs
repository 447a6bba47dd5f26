//! The document tree: elements with a tag name and attributes, and text.

use vstd::prelude::*;
use vstd::hash_map::StringHashMap;
use crate::text::{split, split_on, texts};

verus! {

/// An element's attributes, by name.
pub type AttrMap = StringHashMap<String>;

/// What makes an element: its tag name and its attributes.
pub struct ElementData {
    pub tag_name: String,
    pub attributes: AttrMap,
}

/// A node of the document tree.
pub struct Node {
    /// The nodes directly below this one, in document order.
    pub children: Vec<Node>,
    pub node_type: NodeType,
}

/// What a node is: a piece of text, or an element.
pub enum NodeType {
    Text(String),
    Element(ElementData),
}

// ---------------------------------------------------------------------------
// Mathematical models
// ---------------------------------------------------------------------------

/// An element: its tag name, and the value of each attribute by name.
pub struct ElementModel {
    pub tag_name: Seq<char>,
    pub attributes: Map<Seq<char>, Seq<char>>,
}

/// What a node is: a text, or an element.
pub enum NodeTypeModel {
    Text(Seq<char>),
    Element(ElementModel),
}

/// A node: what it is, and the models of its children in document order.
pub struct NodeModel {
    pub children: Seq<NodeModel>,
    pub node_type: NodeTypeModel,
}

/// A map of strings, each value replaced by its characters.
pub open spec fn attribute_model(m: Map<Seq<char>, String>) -> Map<Seq<char>, Seq<char>> {
    Map::new(|k: Seq<char>| m.contains_key(k), |k: Seq<char>| m[k]@)
}

impl View for ElementData {
    type V = ElementModel;

    open spec fn view(&self) -> ElementModel {
        ElementModel { tag_name: self.tag_name@, attributes: attribute_model(self.attributes@) }
    }
}

impl View for NodeType {
    type V = NodeTypeModel;

    open spec fn view(&self) -> NodeTypeModel {
        match self {
            NodeType::Text(s) => NodeTypeModel::Text(s@),
            NodeType::Element(e) => NodeTypeModel::Element(e@),
        }
    }
}

/// A node's model: its type's model over the models of its children.
pub open spec fn node_model(n: Node) -> NodeModel
    decreases n,
{
    NodeModel {
        children: Seq::new(
            n.children@.len(),
            |i: int|
                if 0 <= i < n.children@.len() {
                    node_model(n.children@[i])
                } else {
                    arbitrary()
                },
        ),
        node_type: n.node_type@,
    }
}

impl View for Node {
    type V = NodeModel;

    open spec fn view(&self) -> NodeModel {
        node_model(*self)
    }
}

/// The views of a list of nodes.
pub open spec fn node_models(v: Seq<Node>) -> Seq<NodeModel> {
    Seq::new(v.len(), |i: int| v[i]@)
}

/// A node's view is its type's view over the views of its children.
pub proof fn lemma_node_view(n: &Node)
    ensures
        n@.children == node_models(n.children@),
        n@.node_type == n.node_type@,
{
    assert(n@.children.len() == n.children@.len());
    assert forall|i: int| 0 <= i < n.children@.len() implies n@.children[i] == n.children@[i]@ by {}
    assert(n@.children =~= node_models(n.children@));
}

impl ElementModel {
    /// The value of the `id` attribute, where there is one.
    pub open spec fn id(self) -> Option<Seq<char>> {
        if self.attributes.contains_key("id"@) {
            Some(self.attributes["id"@])
        } else {
            None
        }
    }

    /// The pieces of the `class` attribute between spaces, in order; none
    /// where the attribute is absent.
    pub open spec fn class_list(self) -> Seq<Seq<char>> {
        if self.attributes.contains_key("class"@) {
            split(self.attributes["class"@], ' ')
        } else {
            Seq::empty()
        }
    }

    /// The element's classes, as a set.
    pub open spec fn classes(self) -> Set<Seq<char>> {
        self.class_list().to_set()
    }
}

impl ElementData {
    /// The value of the `id` attribute, where there is one.
    pub fn id(&self) -> (r: Option<&String>)
        ensures
            match r {
                Some(s) => self@.id() == Some(s@),
                None => self@.id() is None,
            },
    {
        self.attributes.get("id")
    }

    /// The element's classes, in the order in which the attribute lists them.
    pub fn classes(&self) -> (r: Vec<String>)
        ensures
            texts(r@) == self@.class_list(),
            texts(r@).to_set() == self@.classes(),
    {
        match self.attributes.get("class") {
            Some(classlist) => split_on(classlist.as_str(), ' '),
            None => {
                let r: Vec<String> = Vec::new();
                assert(texts(r@) =~= Seq::<Seq<char>>::empty());
                r
            },
        }
    }
}

/// An element node.
pub fn elem(name: String, attrs: AttrMap, children: Vec<Node>) -> (r: Node)
    ensures
        r@ == (NodeModel {
            children: node_models(children@),
            node_type: NodeTypeModel::Element(
                ElementModel { tag_name: name@, attributes: attribute_model(attrs@) },
            ),
        }),
        r.children == children,
{
    let r = Node {
        children,
        node_type: NodeType::Element(ElementData { attributes: attrs, tag_name: name }),
    };
    proof {
        lemma_node_view(&r);
    }
    r
}

/// A text node, which has no children.
pub fn text(data: String) -> (r: Node)
    ensures
        r@ == (NodeModel {
            children: Seq::<NodeModel>::empty(),
            node_type: NodeTypeModel::Text(data@),
        }),
{
    let r = Node { children: Vec::new(), node_type: NodeType::Text(data) };
    proof {
        lemma_node_view(&r);
        assert(node_models(r.children@) =~= Seq::<NodeModel>::empty());
    }
    r
}

} // verus!
