//! The traversal engine: applies an element rewrite to every element of a tree.
use vstd::prelude::*;
use crate::model::{Attribute, AttrV, Child, Document, ElemV, Element, NodeV, attrs_view, copy_attributes, doc_view, elem_view, lemma_child_decreases, node_view, nodes_view};

verus! {

broadcast use vstd::std_specs::vec::group_vec_axioms, vstd::seq::group_seq_axioms;

/// A rewrite of one element's tag name and attributes; the children are left to the traversal.
pub trait ElementRewrite: View {
    spec fn rewrite_spec(v: Self::V, tag: Seq<char>, attrs: Seq<AttrV>) -> (Seq<char>, Seq<AttrV>);

    fn rewrite(&self, tag: &Vec<char>, attrs: &Vec<Attribute>) -> (r: (Vec<char>, Vec<Attribute>))
        ensures
            (r.0@, attrs_view(r.1@)) == Self::rewrite_spec(self@, tag@, attrs_view(attrs@)),
    ;
}

/// The tree `n` with `r` applied to each element, in pre-order.
pub open spec fn rewrite_node<R: ElementRewrite>(r: R::V, n: NodeV) -> NodeV
    decreases n,
{
    match n {
        NodeV::Element(e) => {
            let (t, a) = R::rewrite_spec(r, e.tag, e.attrs);
            NodeV::Element(
                ElemV {
                    tag: t,
                    attrs: a,
                    children: Seq::new(
                        e.children.len(),
                        |i: int|
                            if 0 <= i < e.children.len() {
                                rewrite_node::<R>(r, e.children[i])
                            } else {
                                NodeV::Text(Seq::empty())
                            },
                    ),
                },
            )
        },
        _ => n,
    }
}

pub open spec fn rewrite_nodes<R: ElementRewrite>(r: R::V, ns: Seq<NodeV>) -> Seq<NodeV> {
    Seq::new(ns.len(), |i: int| rewrite_node::<R>(r, ns[i]))
}

/// A deep copy of a node.
pub fn copy_child(c: &Child) -> (r: Child)
    ensures
        node_view(r) == node_view(*c),
    decreases c,
{
    match c {
        Child::Element(e) => {
            let mut kids: Vec<Child> = Vec::new();
            let mut i: usize = 0;
            while i < e.children.len()
                invariant
                    *c == Child::Element(*e),
                    i <= e.children.len(),
                    kids@.len() == i,
                    forall|j: int| 0 <= j < i ==> node_view(#[trigger] kids@[j]) == node_view(e.children@[j]),
                decreases e.children.len() - i,
            {
                proof {
                    lemma_child_decreases(*c, i as int);
                }
                let k = copy_child(&e.children[i]);
                kids.push(k);
                i += 1;
            }
            assert(nodes_view(kids@) =~= nodes_view(e.children@));
            let r = Child::Element(
                Element {
                    tag_name: crate::text::copy_chars(&e.tag_name),
                    attributes: copy_attributes(&e.attributes),
                    children: kids,
                },
            );
            r
        },
        Child::Text(t) => Child::Text(crate::text::copy_chars(t)),
        Child::Comment(t) => Child::Comment(crate::text::copy_chars(t)),
        Child::CdataSection(t) => Child::CdataSection(crate::text::copy_chars(t)),
        Child::ProcessingInstruction(a, b) => Child::ProcessingInstruction(
            crate::text::copy_chars(a),
            crate::text::copy_chars(b),
        ),
        Child::DocumentType(n) => Child::DocumentType(crate::text::copy_opt(n)),
    }
}

/// Applies `r` to every element under `c`.
pub fn rewrite_child<R: ElementRewrite>(r: &R, c: &Child) -> (out: Child)
    ensures
        node_view(out) == rewrite_node::<R>(r@, node_view(*c)),
    decreases c,
{
    match c {
        Child::Element(e) => {
            let (tag, attrs) = r.rewrite(&e.tag_name, &e.attributes);
            let mut kids: Vec<Child> = Vec::new();
            let mut i: usize = 0;
            while i < e.children.len()
                invariant
                    *c == Child::Element(*e),
                    i <= e.children.len(),
                    kids@.len() == i,
                    forall|j: int|
                        0 <= j < i ==> node_view(#[trigger] kids@[j]) == rewrite_node::<R>(
                            r@,
                            node_view(e.children@[j]),
                        ),
                decreases e.children.len() - i,
            {
                proof {
                    lemma_child_decreases(*c, i as int);
                }
                let k = rewrite_child(r, &e.children[i]);
                kids.push(k);
                i += 1;
            }
            let out = Child::Element(Element { tag_name: tag, attributes: attrs, children: kids });
            proof {
                let ev = elem_view(*e);
                assert(node_view(*c) == NodeV::Element(ev));
                assert(elem_view(Element { tag_name: tag, attributes: attrs, children: kids }).children
                    =~= rewrite_node::<R>(r@, node_view(*c))->Element_0.children);
            }
            out
        },
        _ => copy_child(c),
    }
}

/// Applies `r` to every element of a sequence of nodes.
pub fn rewrite_children<R: ElementRewrite>(r: &R, cs: &Vec<Child>) -> (out: Vec<Child>)
    ensures
        nodes_view(out@) == rewrite_nodes::<R>(r@, nodes_view(cs@)),
{
    let mut kids: Vec<Child> = Vec::new();
    let mut i: usize = 0;
    while i < cs.len()
        invariant
            i <= cs.len(),
            kids@.len() == i,
            forall|j: int| 0 <= j < i ==> node_view(#[trigger] kids@[j]) == rewrite_node::<R>(r@, node_view(cs@[j])),
        decreases cs.len() - i,
    {
        let k = rewrite_child(r, &cs[i]);
        kids.push(k);
        i += 1;
    }
    assert(nodes_view(kids@) =~= rewrite_nodes::<R>(r@, nodes_view(cs@)));
    kids
}

/// Applies `r` to every element of a document, in place.
pub fn apply_rewrite<R: ElementRewrite>(r: &R, doc: &mut Document)
    ensures
        doc_view(*final(doc)) == rewrite_nodes::<R>(r@, doc_view(*old(doc))),
{
    let out = rewrite_children(r, &doc.children);
    doc.children = out;
}

} // verus!
