//! Removes or simplifies `enable-background` where it has no effect.
use vstd::prelude::*;
use crate::model::{Attribute, AttrV, Child, Document, ElemV, NodeV, attrs_view, doc_view, elem_view, lemma_child_decreases, node_view};
use crate::numeric::scan_number;
use crate::text::is_ws;

verus! {

broadcast use vstd::seq::group_seq_axioms;

pub open spec fn filter_name() -> Seq<char> {
    seq!['f', 'i', 'l', 't', 'e', 'r']
}

/// Whether a `<filter>` stands in the tree `n`.
pub open spec fn has_filter(n: NodeV) -> bool
    decreases n,
{
    match n {
        NodeV::Element(e) => e.tag == filter_name() || has_filter_in(e.children),
        _ => false,
    }
}

pub open spec fn has_filter_in(ns: Seq<NodeV>) -> bool
    decreases ns,
{
    ns.len() > 0 && (has_filter(ns[0]) || has_filter_in(ns.drop_first()))
}

fn is_filter_tree(c: &Child) -> (r: bool)
    ensures
        r == has_filter(node_view(*c)),
    decreases c,
{
    match c {
        Child::Element(e) => {
            proof {
                reveal_strlit("filter");
                assert("filter"@ =~= filter_name());
            }
            let ghost ev = elem_view(*e);
            assert(node_view(*c) == NodeV::Element(ev));
            if crate::text::eq_str(&e.tag_name, "filter") {
                return true;
            }
            let mut i: usize = 0;
            assert(ev.children.subrange(0, ev.children.len() as int) =~= ev.children);
            while i < e.children.len()
                invariant
                    *c == Child::Element(*e),
                    ev == elem_view(*e),
                    i <= e.children.len(),
                    has_filter_in(ev.children.subrange(i as int, ev.children.len() as int)) == has_filter_in(ev.children),
                    has_filter(node_view(*c)) == has_filter_in(ev.children),
                decreases e.children.len() - i,
            {
                let ghost rest = ev.children.subrange(i as int, ev.children.len() as int);
                assert(rest.drop_first() =~= ev.children.subrange(i + 1, ev.children.len() as int));
                assert(rest[0] == node_view(e.children@[i as int]));
                proof {
                    lemma_child_decreases(*c, i as int);
                }
                if is_filter_tree(&e.children[i]) {
                    return true;
                }
                i += 1;
            }
            false
        },
        _ => false,
    }
}

/// Whether the document holds a `<filter>`.
pub fn document_has_filter(d: &Document) -> (r: bool)
    ensures
        r == has_filter_in(doc_view(*d)),
{
    let ghost dv = doc_view(*d);
    let mut i: usize = 0;
    assert(dv.subrange(0, dv.len() as int) =~= dv);
    while i < d.children.len()
        invariant
            dv == doc_view(*d),
            i <= d.children.len(),
            has_filter_in(dv.subrange(i as int, dv.len() as int)) == has_filter_in(dv),
        decreases d.children.len() - i,
    {
        let ghost rest = dv.subrange(i as int, dv.len() as int);
        assert(rest.drop_first() =~= dv.subrange(i + 1, dv.len() as int));
        assert(rest[0] == node_view(d.children@[i as int]));
        if is_filter_tree(&d.children[i]) {
            return true;
        }
        i += 1;
    }
    false
}

/// The position of the first attribute named `name`, with a value where `valued`.
pub open spec fn find_attr(attrs: Seq<AttrV>, name: Seq<char>, valued: bool) -> Option<int>
    decreases attrs.len(),
{
    if attrs.len() == 0 {
        None
    } else if attrs[0].name == name && (!valued || attrs[0].value is Some) {
        Some(0)
    } else {
        match find_attr(attrs.drop_first(), name, valued) {
            Some(k) => Some(k + 1),
            None => None,
        }
    }
}

pub fn find_attr_exec(attrs: &Vec<Attribute>, name: &str, valued: bool) -> (r: Option<usize>)
    ensures
        r is Some <==> find_attr(attrs_view(attrs@), name@, valued) is Some,
        r is Some ==> r->0 as int == find_attr(attrs_view(attrs@), name@, valued)->0 && r->0 < attrs@.len(),
{
    let ghost all = attrs_view(attrs@);
    let mut i: usize = 0;
    while i < attrs.len()
        invariant
            all == attrs_view(attrs@),
            i <= attrs.len(),
            forall|k: int| 0 <= k < i ==> !(all[k].name == name@ && (!valued || all[k].value is Some)),
        decreases attrs.len() - i,
    {
        if crate::text::eq_str(&attrs[i].name, name) && (!valued || attrs[i].value.is_some()) {
            proof {
                lemma_find_attr_at(all, name@, valued, i as int);
            }
            return Some(i);
        }
        i += 1;
    }
    proof {
        lemma_find_attr_none(all, name@, valued);
    }
    None
}

pub proof fn lemma_find_attr_at(a: Seq<AttrV>, name: Seq<char>, valued: bool, i: int)
    requires
        0 <= i < a.len(),
        a[i].name == name && (!valued || a[i].value is Some),
        forall|k: int| 0 <= k < i ==> !(a[k].name == name && (!valued || a[k].value is Some)),
    ensures
        find_attr(a, name, valued) == Some(i),
    decreases i,
{
    if i > 0 {
        lemma_find_attr_at(a.drop_first(), name, valued, i - 1);
    }
}

pub proof fn lemma_find_attr_none(a: Seq<AttrV>, name: Seq<char>, valued: bool)
    requires
        forall|k: int| 0 <= k < a.len() ==> !(a[k].name == name && (!valued || a[k].value is Some)),
    ensures
        find_attr(a, name, valued) is None,
    decreases a.len(),
{
    if a.len() > 0 {
        lemma_find_attr_none(a.drop_first(), name, valued);
    }
}

pub proof fn lemma_find_attr_found(a: Seq<AttrV>, name: Seq<char>, valued: bool)
    ensures
        find_attr(a, name, valued) is Some ==> ({
            let k = find_attr(a, name, valued)->0;
            0 <= k < a.len() && a[k].name == name && (!valued || a[k].value is Some)
        }),
    decreases a.len(),
{
    if a.len() > 0 {
        lemma_find_attr_found(a.drop_first(), name, valued);
    }
}

/// The width and height of a value `new 0 0 <width> <height>`, each a single white-space
/// character apart.
pub open spec fn region(v: Seq<char>) -> Option<(Seq<char>, Seq<char>)> {
    if v.len() > 8 && v[0] == 'n' && v[1] == 'e' && v[2] == 'w' && is_ws(v[3]) && v[4] == '0' && is_ws(v[5])
        && v[6] == '0' && is_ws(v[7]) {
        match scan_number(v, 8, false, true) {
            Some(w) => if 0 <= w.end < v.len() && is_ws(v[w.end]) {
                match scan_number(v, w.end + 1, false, true) {
                    Some(h) => if h.end == v.len() {
                        Some((v.subrange(8, w.end), v.subrange(w.end + 1, h.end)))
                    } else {
                        None
                    },
                    None => None,
                }
            } else {
                None
            },
            None => None,
        }
    } else {
        None
    }
}

fn region_exec(v: &Vec<char>) -> (r: Option<(Vec<char>, Vec<char>)>)
    ensures
        r is Some <==> region(v@) is Some,
        r is Some ==> ({
            let (w, h) = r->0;
            let (sw, sh) = region(v@)->0;
            w@ == sw && h@ == sh
        }),
{
    if !(v.len() > 8 && v[0] == 'n' && v[1] == 'e' && v[2] == 'w' && crate::text::is_whitespace(v[3])
        && v[4] == '0' && crate::text::is_whitespace(v[5]) && v[6] == '0' && crate::text::is_whitespace(v[7])) {
        return None;
    }
    let w = match crate::numeric::scan_number_exec(v, 8, false, true) {
        Some(w) => w,
        None => {
            return None;
        },
    };
    if !(w.end < v.len() && crate::text::is_whitespace(v[w.end])) {
        return None;
    }
    let h = match crate::numeric::scan_number_exec(v, w.end + 1, false, true) {
        Some(h) => h,
        None => {
            return None;
        },
    };
    if h.end != v.len() {
        return None;
    }
    Some((crate::text::subrange_chars(v, 8, w.end), crate::text::subrange_chars(v, w.end + 1, h.end)))
}

pub open spec fn region_tags(t: Seq<char>) -> bool {
    t == seq!['s', 'v', 'g'] || t == seq!['m', 'a', 's', 'k'] || t == seq!['p', 'a', 't', 't', 'e', 'r', 'n']
}

pub open spec fn enable_background_name() -> Seq<char> {
    seq!['e', 'n', 'a', 'b', 'l', 'e', '-', 'b', 'a', 'c', 'k', 'g', 'r', 'o', 'u', 'n', 'd']
}

pub open spec fn value_text(a: AttrV) -> Seq<char> {
    match a.value {
        Some(v) => v,
        None => Seq::empty(),
    }
}

/// The attributes without the one at `k`.
pub open spec fn remove_at(a: Seq<AttrV>, k: int) -> Seq<AttrV> {
    a.subrange(0, k) + a.subrange(k + 1, a.len() as int)
}

/// One element's attributes after the cleaner, `filter` telling whether the document holds a
/// `<filter>`.
pub open spec fn background_attrs(filter: bool, tag: Seq<char>, attrs: Seq<AttrV>) -> Seq<AttrV> {
    match find_attr(attrs, enable_background_name(), false) {
        None => attrs,
        Some(k) => if !filter {
            remove_at(attrs, k)
        } else {
            match (find_attr(attrs, seq!['w', 'i', 'd', 't', 'h'], true), find_attr(attrs, seq!['h', 'e', 'i', 'g', 'h', 't'], true)) {
                (Some(wi), Some(hi)) => if region_tags(tag) {
                    match region(value_text(attrs[k])) {
                        Some((w, h)) => if w == attrs[wi].value->0 && h == attrs[hi].value->0 {
                            if tag == seq!['s', 'v', 'g'] {
                                remove_at(attrs, k)
                            } else {
                                attrs.update(k, AttrV { name: attrs[k].name, value: Some(seq!['n', 'e', 'w']) })
                            }
                        } else {
                            attrs
                        },
                        None => attrs,
                    }
                } else {
                    attrs
                },
                _ => attrs,
            }
        },
    }
}

/// The cleaner, as an element rewrite; `has_filter` tells whether the document holds a
/// `<filter>`.
pub struct Background {
    pub has_filter: bool,
}

impl View for Background {
    type V = bool;

    open spec fn view(&self) -> bool {
        self.has_filter
    }
}

pub(crate) fn remove_at_exec(attrs: &Vec<Attribute>, k: usize) -> (r: Vec<Attribute>)
    requires
        k < attrs@.len(),
    ensures
        attrs_view(r@) == remove_at(attrs_view(attrs@), k as int),
{
    let mut out: Vec<Attribute> = Vec::new();
    let mut i: usize = 0;
    while i < attrs.len()
        invariant
            k < attrs@.len(),
            i <= attrs.len(),
            out@.len() == if i <= k { i as int } else { i - 1 },
            forall|j: int| 0 <= j < out@.len() ==> #[trigger] out@[j]@ == (if j < k { attrs@[j]@ } else { attrs@[j + 1]@ }),
        decreases attrs.len() - i,
    {
        if i != k {
            out.push(attrs[i].copy());
        }
        i += 1;
    }
    assert(attrs_view(out@) =~= remove_at(attrs_view(attrs@), k as int));
    out
}

pub(crate) fn set_value_at(attrs: &Vec<Attribute>, k: usize, v: &Vec<char>) -> (r: Vec<Attribute>)
    requires
        k < attrs@.len(),
    ensures
        attrs_view(r@) == attrs_view(attrs@).update(k as int, AttrV { name: attrs@[k as int]@.name, value: Some(v@) }),
{
    let mut out: Vec<Attribute> = Vec::new();
    let mut i: usize = 0;
    while i < attrs.len()
        invariant
            k < attrs@.len(),
            i <= attrs.len(),
            out@.len() == i,
            forall|j: int| 0 <= j < i ==> #[trigger] out@[j]@ == (if j == k { AttrV { name: attrs@[k as int]@.name, value: Some(v@) } } else { attrs@[j]@ }),
        decreases attrs.len() - i,
    {
        if i == k {
            out.push(Attribute { name: crate::text::copy_chars(&attrs[i].name), value: Some(crate::text::copy_chars(v)) });
        } else {
            out.push(attrs[i].copy());
        }
        i += 1;
    }
    assert(attrs_view(out@) =~= attrs_view(attrs@).update(k as int, AttrV { name: attrs@[k as int]@.name, value: Some(v@) }));
    out
}

impl crate::visit::ElementRewrite for Background {
    open spec fn rewrite_spec(v: bool, tag: Seq<char>, attrs: Seq<AttrV>) -> (Seq<char>, Seq<AttrV>) {
        (tag, background_attrs(v, tag, attrs))
    }

    fn rewrite(&self, tag: &Vec<char>, attrs: &Vec<Attribute>) -> (r: (Vec<char>, Vec<Attribute>)) {
        let ghost av = attrs_view(attrs@);
        proof {
            reveal_strlit("enable-background");
            reveal_strlit("width");
            reveal_strlit("height");
            reveal_strlit("svg");
            reveal_strlit("mask");
            reveal_strlit("pattern");
            assert("enable-background"@ =~= enable_background_name());
            assert("width"@ =~= seq!['w', 'i', 'd', 't', 'h']);
            assert("height"@ =~= seq!['h', 'e', 'i', 'g', 'h', 't']);
            assert("svg"@ =~= seq!['s', 'v', 'g']);
            assert("mask"@ =~= seq!['m', 'a', 's', 'k']);
            assert("pattern"@ =~= seq!['p', 'a', 't', 't', 'e', 'r', 'n']);
        }
        let ghost target = background_attrs(self.has_filter, tag@, av);
        let t = crate::text::copy_chars(tag);
        let k = match find_attr_exec(attrs, "enable-background", false) {
            None => {
                return (t, crate::model::copy_attributes(attrs));
            },
            Some(k) => k,
        };
        if !self.has_filter {
            return (t, remove_at_exec(attrs, k));
        }
        let wi = find_attr_exec(attrs, "width", true);
        let hi = find_attr_exec(attrs, "height", true);
        let is_svg = crate::text::eq_str(tag, "svg");
        let tagged = is_svg || crate::text::eq_str(tag, "mask") || crate::text::eq_str(tag, "pattern");
        assert(tagged == region_tags(tag@));
        if wi.is_none() || hi.is_none() || !tagged {
            return (t, crate::model::copy_attributes(attrs));
        }
        let wi = wi.unwrap();
        let hi = hi.unwrap();
        let val = match &attrs[k].value {
            Some(x) => crate::text::copy_chars(x),
            None => Vec::new(),
        };
        assert(val@ == value_text(av[k as int]));
        let (w, h) = match region_exec(&val) {
            Some(p) => p,
            None => {
                return (t, crate::model::copy_attributes(attrs));
            },
        };
        let wv = match &attrs[wi].value {
            Some(x) => crate::text::eq_chars(&w, x),
            None => false,
        };
        let hv = match &attrs[hi].value {
            Some(x) => crate::text::eq_chars(&h, x),
            None => false,
        };
        proof {
            lemma_find_attr_found(av, "width"@, true);
            lemma_find_attr_found(av, "height"@, true);
        }
        assert(av[wi as int].value is Some && av[hi as int].value is Some);
        assert(wv == (w@ == av[wi as int].value->0));
        assert(hv == (h@ == av[hi as int].value->0));
        if wv && hv {
            if is_svg {
                (t, remove_at_exec(attrs, k))
            } else {
                let nv = vec!['n', 'e', 'w'];
                assert(nv@ =~= seq!['n', 'e', 'w']);
                (t, set_value_at(attrs, k, &nv))
            }
        } else {
            (t, crate::model::copy_attributes(attrs))
        }
    }
}

/// Removes `enable-background` where the document holds no `<filter>`; where it does, removes
/// it from an `<svg>`, or writes it as `new` on a `<mask>` or `<pattern>`, whose own width and
/// height it repeats.
pub fn apply(doc: &mut Document)
    ensures
        doc_view(*final(doc)) == crate::visit::rewrite_nodes::<Background>(
            has_filter_in(doc_view(*old(doc))),
            doc_view(*old(doc)),
        ),
{
    let f = document_has_filter(doc);
    crate::visit::apply_rewrite(&Background { has_filter: f }, doc);
}

/// The position of the first attribute named `name`, with a value where `valued`.
pub fn find_attr_by(attrs: &Vec<Attribute>, name: &Vec<char>, valued: bool) -> (r: Option<usize>)
    ensures
        r is Some <==> find_attr(attrs_view(attrs@), name@, valued) is Some,
        r is Some ==> r->0 as int == find_attr(attrs_view(attrs@), name@, valued)->0 && r->0 < attrs@.len(),
{
    let ghost all = attrs_view(attrs@);
    let mut i: usize = 0;
    while i < attrs.len()
        invariant
            all == attrs_view(attrs@),
            i <= attrs.len(),
            forall|k: int| 0 <= k < i ==> !(all[k].name == name@ && (!valued || all[k].value is Some)),
        decreases attrs.len() - i,
    {
        if crate::text::eq_chars(&attrs[i].name, name) && (!valued || attrs[i].value.is_some()) {
            proof {
                lemma_find_attr_at(all, name@, valued, i as int);
            }
            return Some(i);
        }
        i += 1;
    }
    proof {
        lemma_find_attr_none(all, name@, valued);
    }
    None
}

} // verus!
