//! The document tree and its mathematical view.
use vstd::prelude::*;

verus! {

broadcast use vstd::std_specs::vec::group_vec_axioms, vstd::seq::group_seq_axioms;

/// An attribute: a name and, unless the attribute is bare, a value.
pub struct Attribute {
    pub name: Vec<char>,
    pub value: Option<Vec<char>>,
}

/// An element: a tag name, its attributes in order, and its children in order.
pub struct Element {
    pub tag_name: Vec<char>,
    pub attributes: Vec<Attribute>,
    pub children: Vec<Child>,
}

/// A node of the tree.
pub enum Child {
    DocumentType(Option<Vec<char>>),
    Element(Element),
    Text(Vec<char>),
    Comment(Vec<char>),
    ProcessingInstruction(Vec<char>, Vec<char>),
    CdataSection(Vec<char>),
}

/// A whole document: its top-level nodes in order.
pub struct Document {
    pub children: Vec<Child>,
}

pub struct AttrV {
    pub name: Seq<char>,
    pub value: Option<Seq<char>>,
}

pub struct ElemV {
    pub tag: Seq<char>,
    pub attrs: Seq<AttrV>,
    pub children: Seq<NodeV>,
}

pub enum NodeV {
    DocumentType(Option<Seq<char>>),
    Element(ElemV),
    Text(Seq<char>),
    Comment(Seq<char>),
    ProcessingInstruction(Seq<char>, Seq<char>),
    CdataSection(Seq<char>),
}

pub open spec fn opt_view(o: Option<Vec<char>>) -> Option<Seq<char>> {
    match o {
        Some(v) => Some(v@),
        None => None,
    }
}

impl View for Attribute {
    type V = AttrV;

    open spec fn view(&self) -> AttrV {
        AttrV { name: self.name@, value: opt_view(self.value) }
    }
}

pub open spec fn attrs_view(a: Seq<Attribute>) -> Seq<AttrV> {
    Seq::new(a.len(), |i: int| a[i]@)
}

pub open spec fn node_view(c: Child) -> NodeV
    decreases c,
{
    match c {
        Child::Element(e) => NodeV::Element(elem_view(e)),
        Child::DocumentType(n) => NodeV::DocumentType(opt_view(n)),
        Child::Text(t) => NodeV::Text(t@),
        Child::Comment(t) => NodeV::Comment(t@),
        Child::ProcessingInstruction(a, b) => NodeV::ProcessingInstruction(a@, b@),
        Child::CdataSection(t) => NodeV::CdataSection(t@),
    }
}

pub open spec fn elem_view(e: Element) -> ElemV
    decreases e, 0nat,
{
    ElemV {
        tag: e.tag_name@,
        attrs: attrs_view(e.attributes@),
        children: nodes_view(e.children@),
    }
}

pub open spec fn nodes_view(cs: Seq<Child>) -> Seq<NodeV>
    decreases cs,
{
    Seq::new(cs.len(), |i: int| if 0 <= i < cs.len() { node_view(cs[i]) } else { NodeV::Text(Seq::empty()) })
}

pub open spec fn doc_view(d: Document) -> Seq<NodeV> {
    nodes_view(d.children@)
}

impl Attribute {
    /// An attribute with the given name and value.
    pub fn new(name: &str, value: Option<&str>) -> (r: Attribute)
        ensures
            r@.name == name@,
            r@.value is Some <==> value is Some,
            value is Some ==> r@.value->0 == value->0@,
    {
        let v = match value {
            Some(s) => Some(crate::text::chars_of(s)),
            None => None,
        };
        Attribute { name: crate::text::chars_of(name), value: v }
    }

    pub fn copy(&self) -> (r: Attribute)
        ensures
            r@ == self@,
    {
        Attribute { name: crate::text::copy_chars(&self.name), value: crate::text::copy_opt(&self.value) }
    }
}

pub fn copy_attributes(a: &Vec<Attribute>) -> (r: Vec<Attribute>)
    ensures
        attrs_view(r@) == attrs_view(a@),
{
    let mut r: Vec<Attribute> = Vec::new();
    let mut i: usize = 0;
    while i < a.len()
        invariant
            i <= a.len(),
            r@.len() == i,
            forall|j: int| 0 <= j < i ==> #[trigger] r@[j]@ == a@[j]@,
        decreases a.len() - i,
    {
        r.push(a[i].copy());
        i += 1;
    }
    assert(attrs_view(r@) =~= attrs_view(a@));
    r
}

pub proof fn lemma_child_decreases(c: Child, i: int)
    requires
        c is Element,
        0 <= i < c->Element_0.children@.len(),
    ensures
        decreases_to!(c => c->Element_0.children@[i]),
{
    let e = c->Element_0;
    assert(decreases_to!(c => e));
    assert(decreases_to!(e => e.children));
    assert(decreases_to!(e.children => e.children@));
    assert(decreases_to!(e.children@ => e.children@[i]));
}

pub proof fn lemma_elem_decreases(e: Element, i: int)
    requires
        0 <= i < e.children@.len(),
    ensures
        decreases_to!(e => e.children@[i]),
{
    assert(decreases_to!(e => e.children));
    assert(decreases_to!(e.children => e.children@));
    assert(decreases_to!(e.children@ => e.children@[i]));
}

/// Pushing a node extends the view by that node's view.
pub proof fn lemma_nodes_view_push(cs: Seq<Child>, c: Child)
    ensures
        nodes_view(cs.push(c)) == nodes_view(cs).push(node_view(c)),
{
    assert(nodes_view(cs.push(c)) =~= nodes_view(cs).push(node_view(c)));
}

pub proof fn lemma_attrs_view_push(a: Seq<Attribute>, x: Attribute)
    ensures
        attrs_view(a.push(x)) == attrs_view(a).push(x@),
{
    assert(attrs_view(a.push(x)) =~= attrs_view(a).push(x@));
}

} // verus!
