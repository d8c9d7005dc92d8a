//! Converts non-eccentric ellipses to circles.
use vstd::prelude::*;
use crate::model::{Attribute, AttrV, attrs_view, lemma_attrs_view_push};

verus! {

broadcast use vstd::seq::group_seq_axioms;

pub open spec fn rx_name() -> Seq<char> {
    seq!['r', 'x']
}

pub open spec fn ry_name() -> Seq<char> {
    seq!['r', 'y']
}

pub open spec fn auto_word() -> Seq<char> {
    seq!['a', 'u', 't', 'o']
}

/// The value of the last attribute named `name` that has one, `d` where none does.
pub open spec fn last_value(attrs: Seq<AttrV>, name: Seq<char>, d: Seq<char>) -> Seq<char>
    decreases attrs.len(),
{
    if attrs.len() == 0 {
        d
    } else {
        let d2 = if attrs[0].name == name && attrs[0].value is Some {
            attrs[0].value->0
        } else {
            d
        };
        last_value(attrs.drop_first(), name, d2)
    }
}

/// The attributes other than `rx` and `ry`.
pub open spec fn without_radii(attrs: Seq<AttrV>) -> Seq<AttrV>
    decreases attrs.len(),
{
    if attrs.len() == 0 {
        Seq::empty()
    } else if attrs[0].name == rx_name() || attrs[0].name == ry_name() {
        without_radii(attrs.drop_first())
    } else {
        seq![attrs[0]] + without_radii(attrs.drop_first())
    }
}

/// An element after the simplifier: an `<ellipse>` whose radii are equal, or one of them
/// `auto`, becomes a `<circle>` with `r` last among its attributes.
pub open spec fn ellipse_spec(tag: Seq<char>, attrs: Seq<AttrV>) -> (Seq<char>, Seq<AttrV>) {
    if tag == seq!['e', 'l', 'l', 'i', 'p', 's', 'e'] {
        let rx = last_value(attrs, rx_name(), seq!['0']);
        let ry = last_value(attrs, ry_name(), seq!['0']);
        if rx == ry || rx == auto_word() || ry == auto_word() {
            let r = if rx == auto_word() {
                ry
            } else {
                rx
            };
            (seq!['c', 'i', 'r', 'c', 'l', 'e'], without_radii(attrs).push(AttrV { name: seq!['r'], value: Some(r) }))
        } else {
            (tag, attrs)
        }
    } else {
        (tag, attrs)
    }
}

/// The simplifier, as an element rewrite.
pub struct EllipseToCircle;

impl View for EllipseToCircle {
    type V = ();

    open spec fn view(&self) -> () {
        ()
    }
}

impl crate::visit::ElementRewrite for EllipseToCircle {
    open spec fn rewrite_spec(v: (), tag: Seq<char>, attrs: Seq<AttrV>) -> (Seq<char>, Seq<AttrV>) {
        ellipse_spec(tag, attrs)
    }

    fn rewrite(&self, tag: &Vec<char>, attrs: &Vec<Attribute>) -> (r: (Vec<char>, Vec<Attribute>)) {
        proof {
            reveal_strlit("ellipse");
            reveal_strlit("rx");
            reveal_strlit("ry");
            reveal_strlit("auto");
            assert("ellipse"@ =~= seq!['e', 'l', 'l', 'i', 'p', 's', 'e']);
            assert("rx"@ =~= rx_name());
            assert("ry"@ =~= ry_name());
            assert("auto"@ =~= auto_word());
        }
        if !crate::text::eq_str(tag, "ellipse") {
            return (crate::text::copy_chars(tag), crate::model::copy_attributes(attrs));
        }
        let ghost all = attrs_view(attrs@);
        let mut rx: Vec<char> = vec!['0'];
        let mut ry: Vec<char> = vec!['0'];
        let mut out: Vec<Attribute> = Vec::new();
        let mut i: usize = 0;
        proof {
            assert(all.subrange(0, all.len() as int) =~= all);
            assert(rx@ =~= seq!['0']);
            assert(ry@ =~= seq!['0']);
            assert(attrs_view(out@) + without_radii(all) =~= without_radii(all));
        }
        while i < attrs.len()
            invariant
                all == attrs_view(attrs@),
                i <= attrs.len(),
                "rx"@ == rx_name(),
                "ry"@ == ry_name(),
                last_value(all.subrange(i as int, all.len() as int), rx_name(), rx@) == last_value(all, rx_name(), seq!['0']),
                last_value(all.subrange(i as int, all.len() as int), ry_name(), ry@) == last_value(all, ry_name(), seq!['0']),
                attrs_view(out@) + without_radii(all.subrange(i as int, all.len() as int)) == without_radii(all),
            decreases attrs.len() - i,
        {
            let ghost rest = all.subrange(i as int, all.len() as int);
            assert(rest.drop_first() =~= all.subrange(i + 1, all.len() as int));
            assert(rest[0] == attrs@[i as int]@);
            let a = &attrs[i];
            if crate::text::eq_str(&a.name, "rx") {
                match &a.value {
                    Some(v) => {
                        rx = crate::text::copy_chars(v);
                    },
                    None => {},
                }
            } else if crate::text::eq_str(&a.name, "ry") {
                match &a.value {
                    Some(v) => {
                        ry = crate::text::copy_chars(v);
                    },
                    None => {},
                }
            } else {
                let ghost before = out@;
                out.push(a.copy());
                proof {
                    lemma_attrs_view_push(before, out@.last());
                    assert(attrs_view(out@) + without_radii(rest.drop_first()) =~= attrs_view(before) + (seq![rest[0]] + without_radii(rest.drop_first())));
                }
            }
            i += 1;
        }
        proof {
            assert(all.subrange(i as int, all.len() as int) =~= Seq::<AttrV>::empty());
            assert(attrs_view(out@) + Seq::<AttrV>::empty() =~= attrs_view(out@));
        }
        let rx_auto = crate::text::eq_str(&rx, "auto");
        let ry_auto = crate::text::eq_str(&ry, "auto");
        if crate::text::eq_chars(&rx, &ry) || rx_auto || ry_auto {
            let r = if rx_auto {
                ry
            } else {
                rx
            };
            let ghost before = out@;
            out.push(Attribute { name: vec!['r'], value: Some(r) });
            proof {
                lemma_attrs_view_push(before, out@.last());
                assert(out@.last()@.name =~= seq!['r']);
            }
            let t = vec!['c', 'i', 'r', 'c', 'l', 'e'];
            assert(t@ =~= seq!['c', 'i', 'r', 'c', 'l', 'e']);
            (t, out)
        } else {
            (crate::text::copy_chars(tag), crate::model::copy_attributes(attrs))
        }
    }
}

/// Options of the ellipse simplifier: it has none.
pub struct Params {}

impl Params {
    pub fn new() -> Params {
        Params {}
    }
}

/// Converts every non-eccentric `<ellipse>` of the document to a `<circle>`.
pub fn apply(doc: &mut crate::model::Document, _params: &Params)
    ensures
        crate::model::doc_view(*final(doc)) == crate::visit::rewrite_nodes::<EllipseToCircle>((), crate::model::doc_view(*old(doc))),
{
    crate::visit::apply_rewrite(&EllipseToCircle, doc);
}

} // verus!
