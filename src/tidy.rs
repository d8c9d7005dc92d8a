//! Tidies a freshly parsed tree: trims comments, and outside text-content elements trims text
//! and drops text that is only white space.
use vstd::prelude::*;
use crate::model::{Child, Document, ElemV, Element, NodeV, copy_attributes, doc_view, elem_view, lemma_child_decreases, lemma_nodes_view_push, node_view, nodes_view};
use crate::collections::{strs, text_elems};
use crate::text::trim;

verus! {

broadcast use vstd::seq::group_seq_axioms;

/// A node after tidying.
pub open spec fn tidy_node(n: NodeV) -> NodeV
    decreases n,
{
    match n {
        NodeV::Comment(d) => NodeV::Comment(trim(d)),
        NodeV::Element(e) => NodeV::Element(ElemV { tag: e.tag, attrs: e.attrs, children: tidy_kids(e.tag, e.children) }),
        _ => n,
    }
}

/// The children of an element tagged `tag` after tidying.
pub open spec fn tidy_kids(tag: Seq<char>, cs: Seq<NodeV>) -> Seq<NodeV>
    decreases cs,
{
    if cs.len() == 0 {
        Seq::empty()
    } else {
        let rest = tidy_kids(tag, cs.drop_first());
        match cs[0] {
            NodeV::Text(t) => if text_elems().contains(tag) {
                seq![cs[0]] + rest
            } else if trim(t).len() > 0 {
                seq![NodeV::Text(trim(t))] + rest
            } else {
                rest
            },
            _ => seq![tidy_node(cs[0])] + rest,
        }
    }
}

fn tidy_child(c: &Child, te: &Vec<&'static str>) -> (r: Child)
    requires
        strs(te@) == text_elems(),
    ensures
        node_view(r) == tidy_node(node_view(*c)),
    decreases c,
{
    match c {
        Child::Comment(d) => Child::Comment(crate::text::trim_chars(d)),
        Child::Element(e) => {
            let ghost ev = elem_view(*e);
            assert(node_view(*c) == NodeV::Element(ev));
            let in_text = crate::collections::contains_name(te, &e.tag_name);
            let ghost all = ev.children;
            let mut kids: Vec<Child> = Vec::new();
            let mut i: usize = e.children.len();
            // built from the back, so that each step prepends to what follows
            let mut rev: Vec<Child> = Vec::new();
            assert(all.subrange(all.len() as int, all.len() as int) =~= Seq::<NodeV>::empty());
            assert(nodes_view(rev@).reverse() =~= Seq::<NodeV>::empty());
            while i > 0
                invariant
                    strs(te@) == text_elems(),
                    *c == Child::Element(*e),
                    ev == elem_view(*e),
                    all == ev.children,
                    in_text == text_elems().contains(ev.tag),
                    i <= e.children.len(),
                    nodes_view(rev@).reverse() == tidy_kids(ev.tag, all.subrange(i as int, all.len() as int)),
                decreases i,
            {
                let ghost rest = all.subrange(i - 1, all.len() as int);
                assert(rest.drop_first() =~= all.subrange(i as int, all.len() as int));
                assert(rest[0] == node_view(e.children@[i - 1]));
                proof {
                    lemma_child_decreases(*c, i - 1);
                }
                let ghost before = rev@;
                let mut pushed = true;
                match &e.children[i - 1] {
                    Child::Text(t) => {
                        if in_text {
                            rev.push(crate::visit::copy_child(&e.children[i - 1]));
                        } else {
                            let tt = crate::text::trim_chars(t);
                            if tt.len() > 0 {
                                rev.push(Child::Text(tt));
                            } else {
                                pushed = false;
                            }
                        }
                    },
                    _ => {
                        rev.push(tidy_child(&e.children[i - 1], te));
                    },
                }
                proof {
                    if pushed {
                        lemma_nodes_view_push(before, rev@.last());
                        assert(nodes_view(rev@).reverse() =~= seq![node_view(rev@.last())] + nodes_view(before).reverse());
                    }
                }
                i -= 1;
            }
            let mut j: usize = rev.len();
            let ghost target = nodes_view(rev@).reverse();
            assert(nodes_view(kids@) =~= target.subrange(0, 0));
            while j > 0
                invariant
                    j <= rev@.len(),
                    target == nodes_view(rev@).reverse(),
                    nodes_view(kids@) == target.subrange(0, rev@.len() - j),
                decreases j,
            {
                let ghost before = kids@;
                let k = crate::visit::copy_child(&rev[j - 1]);
                kids.push(k);
                proof {
                    lemma_nodes_view_push(before, k);
                    assert(nodes_view(kids@) =~= target.subrange(0, rev@.len() - j + 1));
                }
                j -= 1;
            }
            assert(nodes_view(kids@) =~= target);
            assert(all.subrange(0, all.len() as int) =~= all);
            Child::Element(Element { tag_name: crate::text::copy_chars(&e.tag_name), attributes: copy_attributes(&e.attributes), children: kids })
        },
        _ => crate::visit::copy_child(c),
    }
}

/// Tidies a parsed document: every comment trimmed, and below each element that is not a
/// text-content element, text trimmed and blank text dropped.
pub fn tidy(doc: &mut Document)
    ensures
        doc_view(*final(doc)) == Seq::new(doc_view(*old(doc)).len(), |i: int| tidy_node(doc_view(*old(doc))[i])),
{
    let te = crate::collections::get_text_elems();
    let mut out: Vec<Child> = Vec::new();
    let mut i: usize = 0;
    while i < doc.children.len()
        invariant
            strs(te@) == text_elems(),
            i <= doc.children.len(),
            out@.len() == i,
            forall|j: int| 0 <= j < i ==> node_view(#[trigger] out@[j]) == tidy_node(node_view(doc.children@[j])),
        decreases doc.children.len() - i,
    {
        out.push(tidy_child(&doc.children[i], &te));
        i += 1;
    }
    let ghost d0 = doc_view(*doc);
    assert(nodes_view(out@) =~= Seq::new(d0.len(), |i: int| tidy_node(d0[i])));
    doc.children = out;
}

} // verus!
