//! The document tree: nodes, element data and their attribute map.

use vstd::prelude::*;

use crate::assoc::{assoc, assoc_from, assoc_index_from, assoc_insert};
use crate::text::{eq_str, spec_split_spaces, split_spaces};

verus! {

/// A mapping from attribute names to attribute values, in insertion order.
#[derive(PartialEq, Eq, Clone, Debug)]
pub struct AttrMap {
    entries: Vec<(String, String)>,
}

impl View for AttrMap {
    type V = Seq<(Seq<char>, Seq<char>)>;

    closed spec fn view(&self) -> Seq<(Seq<char>, Seq<char>)> {
        self.entries@.map_values(|e: (String, String)| (e.0@, e.1@))
    }
}

impl AttrMap {
    /// The empty attribute map.
    pub fn new() -> (r: Self)
        ensures
            r@ == Seq::<(Seq<char>, Seq<char>)>::empty(),
    {
        let r = AttrMap { entries: Vec::new() };
        proof {
            assert(r@ =~= Seq::<(Seq<char>, Seq<char>)>::empty());
        }
        r
    }

    /// Store `value` under `name`, replacing any earlier value.
    pub fn insert(&mut self, name: String, value: String)
        ensures
            final(self)@ == assoc_insert(old(self)@, name@, value@),
    {
        let mut i: usize = 0;
        while i < self.entries.len()
            invariant
                self@ == old(self)@,
                i <= old(self)@.len(),
                assoc_index_from(old(self)@, name@, 0) == assoc_index_from(
                    old(self)@,
                    name@,
                    i as int,
                ),
            decreases old(self)@.len() - i,
        {
            if eq_str(self.entries[i].0.as_str(), name.as_str()) {
                proof {
                    assert(assoc_index_from(old(self)@, name@, i as int) == i as int);
                }
                self.entries[i] = (name, value);
                proof {
                    assert(self@ =~= old(self)@.update(i as int, (name@, value@)));
                }
                return ;
            }
            i = i + 1;
        }
        self.entries.push((name, value));
        proof {
            assert(self@ =~= assoc_insert(old(self)@, name@, value@));
        }
    }

    /// Look up the value stored under `name`.
    pub fn get(&self, name: &str) -> (r: Option<&String>)
        ensures
            match r {
                Some(v) => assoc(self@, name@) == Some(v@),
                None => assoc(self@, name@) is None,
            },
    {
        let mut i: usize = 0;
        while i < self.entries.len()
            invariant
                i <= self@.len(),
                assoc_from(self@, name@, 0) == assoc_from(self@, name@, i as int),
            decreases self@.len() - i,
        {
            if eq_str(self.entries[i].0.as_str(), name) {
                return Some(&self.entries[i].1);
            }
            i = i + 1;
        }
        None
    }

    /// The number of attributes.
    pub fn len(&self) -> (n: usize)
        ensures
            n == self@.len(),
    {
        self.entries.len()
    }
}

/// What a node is: a text run or an element.
#[derive(PartialEq, Eq, Clone, Debug)]
pub enum NodeType {
    Text(String),
    Element(ElementData),
}

/// An element's own data: its tag name and attributes.
#[derive(PartialEq, Eq, Clone, Debug)]
pub struct ElementData {
    pub tag_name: String,
    pub attributes: AttrMap,
}

/// A node of the document tree.
#[derive(PartialEq, Eq, Debug)]
pub struct Node {
    /// Data common to all nodes.
    pub children: Vec<Node>,
    /// Data specific to each node type.
    pub node_type: NodeType,
}

/// The mathematical model of an `ElementData`.
pub struct ElementDataV {
    pub tag_name: Seq<char>,
    pub attributes: Seq<(Seq<char>, Seq<char>)>,
}

/// The mathematical model of a `NodeType`.
pub enum NodeTypeV {
    Text(Seq<char>),
    Element(ElementDataV),
}

/// The mathematical model of a `Node`.
pub struct NodeV {
    pub children: Seq<NodeV>,
    pub node_type: NodeTypeV,
}

impl View for ElementData {
    type V = ElementDataV;

    open spec fn view(&self) -> ElementDataV {
        ElementDataV { tag_name: self.tag_name@, attributes: self.attributes@ }
    }
}

impl View for NodeType {
    type V = NodeTypeV;

    open spec fn view(&self) -> NodeTypeV {
        match self {
            NodeType::Text(s) => NodeTypeV::Text(s@),
            NodeType::Element(e) => NodeTypeV::Element(e@),
        }
    }
}

/// The mathematical model of a node: the same tree over sequences.
pub open spec fn node_view(n: Node) -> NodeV
    decreases n,
    via node_view_decreases
{
    NodeV {
        children: Seq::new(
            n.children@.len(),
            |i: int|
                if 0 <= i < n.children@.len() {
                    node_view(n.children@[i])
                } else {
                    arbitrary()
                },
        ),
        node_type: n.node_type@,
    }
}

#[via_fn]
proof fn node_view_decreases(n: Node) {
    assert forall|i: int| 0 <= i < n.children@.len() implies decreases_to!(n => n.children@[i]) by {
        assert(decreases_to!(n => n.children));
        assert(decreases_to!(n.children => n.children@));
        assert(decreases_to!(n.children@ => n.children@[i]));
    }
}

impl View for Node {
    type V = NodeV;

    open spec fn view(&self) -> NodeV {
        node_view(*self)
    }
}

impl Node {
    /// A text node without children.
    pub fn text(data: String) -> (n: Self)
        ensures
            n@.node_type == NodeTypeV::Text(data@),
            n@.children.len() == 0,
    {
        let n = Node { children: Vec::new(), node_type: NodeType::Text(data) };
        proof {
            assert(n@.children =~= Seq::<NodeV>::empty());
        }
        n
    }

    /// An element node with the given tag name, attributes and children.
    pub fn elem(name: String, attrs: AttrMap, children: Vec<Node>) -> (n: Self)
        ensures
            n@.node_type == NodeTypeV::Element(
                ElementDataV { tag_name: name@, attributes: attrs@ },
            ),
            n@.children == children@.map_values(|c: Node| c@),
    {
        let n = Node {
            children,
            node_type: NodeType::Element(ElementData { tag_name: name, attributes: attrs }),
        };
        proof {
            assert(n@.children =~= n.children@.map_values(|c: Node| c@));
        }
        n
    }
}

/// The class names of an element: its `class` attribute split at spaces, or
/// nothing when the attribute is absent.
pub open spec fn spec_classes(e: ElementDataV) -> Seq<Seq<char>> {
    match assoc(e.attributes, "class"@) {
        Some(list) => spec_split_spaces(list),
        None => Seq::empty(),
    }
}

impl ElementData {
    /// The element's `id` attribute, if present.
    pub fn id(&self) -> (r: Option<&String>)
        ensures
            match r {
                Some(v) => assoc(self@.attributes, "id"@) == Some(v@),
                None => assoc(self@.attributes, "id"@) is None,
            },
    {
        self.attributes.get("id")
    }

    /// The element's class names: the space-separated segments of its `class`
    /// attribute.
    pub fn classes(&self) -> (r: Vec<String>)
        ensures
            r@.map_values(|c: String| c@) == spec_classes(self@),
    {
        match self.attributes.get("class") {
            Some(classlist) => split_spaces(classlist.as_str()),
            None => {
                let r: Vec<String> = Vec::new();
                proof {
                    assert(r@.map_values(|c: String| c@) =~= Seq::<Seq<char>>::empty());
                }
                r
            },
        }
    }
}

} // verus!
