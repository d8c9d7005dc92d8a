//! Collapses useless groups: hoists a group's attributes onto its only child where that is
//! safe, then replaces groups without attributes by their children. A `<switch>` and everything
//! below it are left as they are; an `<svg>` parent is no obstacle.
use vstd::prelude::*;
use crate::model::{Attribute, AttrV, Child, Document, ElemV, Element, NodeV, attrs_view, copy_attributes, doc_view, elem_view, lemma_child_decreases, lemma_nodes_view_push, node_view, nodes_view};
use crate::background::{find_attr, find_attr_by, find_attr_exec, lemma_find_attr_found, set_value_at, value_text};
use crate::collections::{group_animation, inheritable_attrs, strs};

verus! {

broadcast use vstd::seq::group_seq_axioms;

pub open spec fn g_name() -> Seq<char> {
    seq!['g']
}

pub open spec fn has_attr(attrs: Seq<AttrV>, n: Seq<char>) -> bool {
    find_attr(attrs, n, false) is Some
}

/// Whether some attribute is `name="v"`.
pub open spec fn has_attr_value(attrs: Seq<AttrV>, name: Seq<char>, v: Seq<char>) -> bool {
    exists|i: int| 0 <= i < attrs.len() && #[trigger] attrs[i].name == name && attrs[i].value == Some(v)
}

pub open spec fn attribute_name() -> Seq<char> {
    seq!['a', 't', 't', 'r', 'i', 'b', 'u', 't', 'e', 'N', 'a', 'm', 'e']
}

/// Whether an element with this tag, these attributes and these children, or an animation
/// element among its descendants, animates the attribute `name`.
pub open spec fn animates_elem(tag: Seq<char>, attrs: Seq<AttrV>, children: Seq<NodeV>, name: Seq<char>) -> bool {
    (group_animation().contains(tag) && has_attr_value(attrs, attribute_name(), name)) || animates_in(children, name)
}

pub open spec fn animates(n: NodeV, name: Seq<char>) -> bool
    decreases n,
{
    match n {
        NodeV::Element(e) => (group_animation().contains(e.tag) && has_attr_value(e.attrs, attribute_name(), name))
            || animates_in(e.children, name),
        _ => false,
    }
}

pub open spec fn animates_in(ns: Seq<NodeV>, name: Seq<char>) -> bool
    decreases ns,
{
    ns.len() > 0 && (animates(ns[0], name) || animates_in(ns.drop_first(), name))
}

/// Whether hoisting the attributes of group `g` onto its child `c` may be tried.
pub open spec fn guard(g: ElemV, c: ElemV) -> bool {
    &&& !has_attr(c.attrs, seq!['i', 'd'])
    &&& !has_attr(g.attrs, seq!['f', 'i', 'l', 't', 'e', 'r'])
    &&& (!has_attr(g.attrs, seq!['c', 'l', 'a', 's', 's']) || !has_attr(c.attrs, seq!['c', 'l', 'a', 's', 's']))
    &&& ((!has_attr(g.attrs, seq!['c', 'l', 'i', 'p', '-', 'p', 'a', 't', 'h']) && !has_attr(g.attrs, seq!['m', 'a', 's', 'k']))
        || (c.tag == g_name() && !has_attr(g.attrs, transform_name()) && !has_attr(c.attrs, transform_name())))
}

pub open spec fn transform_name() -> Seq<char> {
    seq!['t', 'r', 'a', 'n', 's', 'f', 'o', 'r', 'm']
}

pub open spec fn inherit_word() -> Seq<char> {
    seq!['i', 'n', 'h', 'e', 'r', 'i', 't']
}

/// Moves the group's valued attributes `gs` onto the child, in order; `kept` gathers the
/// group's bare attributes. `None` where an attribute is animated below the group, or where
/// the child holds another value of an attribute that does not inherit: then nothing moves.
pub open spec fn merge(gs: Seq<AttrV>, ctag: Seq<char>, cattrs: Seq<AttrV>, cchildren: Seq<NodeV>, kept: Seq<AttrV>) -> Option<(Seq<AttrV>, Seq<AttrV>)>
    decreases gs.len(),
{
    if gs.len() == 0 {
        Some((kept, cattrs))
    } else {
        let a = gs[0];
        let rest = gs.drop_first();
        match a.value {
            None => merge(rest, ctag, cattrs, cchildren, kept.push(a)),
            Some(v) => if animates_elem(ctag, cattrs, cchildren, a.name) {
                None
            } else {
                match find_attr(cattrs, a.name, false) {
                    None => merge(rest, ctag, cattrs.push(a), cchildren, kept),
                    Some(k) => if a.name == transform_name() {
                        merge(rest, ctag, cattrs.update(k, AttrV { name: cattrs[k].name, value: Some(v + seq![' '] + value_text(cattrs[k])) }), cchildren, kept)
                    } else if cattrs[k].value == Some(inherit_word()) {
                        merge(rest, ctag, cattrs.update(k, AttrV { name: cattrs[k].name, value: Some(v) }), cchildren, kept)
                    } else if !inheritable_attrs().contains(a.name) && cattrs[k].value != Some(v) {
                        None
                    } else {
                        merge(rest, ctag, cattrs, cchildren, kept)
                    },
                }
            },
        }
    }
}

/// A group with one child element and some attributes, with those attributes moved onto the
/// child where that is safe.
pub open spec fn hoist(n: NodeV) -> NodeV {
    match n {
        NodeV::Element(g) => if g.tag == g_name() && g.children.len() == 1 && g.attrs.len() > 0 && g.children[0] is Element {
            let c = g.children[0]->Element_0;
            if guard(g, c) {
                match merge(g.attrs, c.tag, c.attrs, c.children, Seq::empty()) {
                    Some((kept, ca)) => NodeV::Element(ElemV { tag: g.tag, attrs: kept, children: seq![NodeV::Element(ElemV { tag: c.tag, attrs: ca, children: c.children })] }),
                    None => n,
                }
            } else {
                n
            }
        } else {
            n
        },
        _ => n,
    }
}

/// Whether one of the nodes is an animation element.
pub open spec fn has_animation_child(cs: Seq<NodeV>) -> bool {
    exists|i: int| 0 <= i < cs.len() && #[trigger] cs[i] is Element && group_animation().contains(cs[i]->Element_0.tag)
}

/// Whether `n` is a group that gives way to its children.
pub open spec fn dissolves(n: NodeV) -> bool {
    n is Element && n->Element_0.tag == g_name() && n->Element_0.children.len() > 0 && n->Element_0.attrs.len() == 0
        && !has_animation_child(n->Element_0.children)
}

/// The nodes with each group that gives way replaced by its children.
pub open spec fn splice(ns: Seq<NodeV>) -> Seq<NodeV>
    decreases ns.len(),
{
    if ns.len() == 0 {
        Seq::empty()
    } else if dissolves(ns[0]) {
        ns[0]->Element_0.children + splice(ns.drop_first())
    } else {
        seq![ns[0]] + splice(ns.drop_first())
    }
}

pub open spec fn switch_name() -> Seq<char> {
    seq!['s', 'w', 'i', 't', 'c', 'h']
}

/// The tree `n` after the collapser, children before parents; a `<switch>` stays as it is,
/// with all that is below it.
pub open spec fn collapse_node(n: NodeV) -> NodeV
    decreases n,
{
    match n {
        NodeV::Element(e) => if e.tag == switch_name() {
            n
        } else {
            let kids = collapse_seq(e.children);
            NodeV::Element(ElemV { tag: e.tag, attrs: e.attrs, children: splice(Seq::new(kids.len(), |i: int| hoist(kids[i]))) })
        },
        _ => n,
    }
}

/// Each of the trees after the collapser.
pub open spec fn collapse_seq(ns: Seq<NodeV>) -> Seq<NodeV>
    decreases ns,
{
    if ns.len() == 0 {
        Seq::empty()
    } else {
        seq![collapse_node(ns[0])] + collapse_seq(ns.drop_first())
    }
}

fn has_attr_value_exec(attrs: &Vec<Attribute>, name: &Vec<char>, v: &Vec<char>) -> (r: bool)
    ensures
        r == has_attr_value(attrs_view(attrs@), name@, v@),
{
    let ghost av = attrs_view(attrs@);
    let mut i: usize = 0;
    while i < attrs.len()
        invariant
            av == attrs_view(attrs@),
            i <= attrs.len(),
            forall|k: int| 0 <= k < i ==> !(#[trigger] av[k].name == name@ && av[k].value == Some(v@)),
        decreases attrs.len() - i,
    {
        let hit = match &attrs[i].value {
            Some(x) => crate::text::eq_chars(x, v),
            None => false,
        };
        if crate::text::eq_chars(&attrs[i].name, name) && hit {
            assert(av[i as int].name == name@ && av[i as int].value == Some(v@));
            return true;
        }
        i += 1;
    }
    false
}

fn animates_child(c: &Child, name: &Vec<char>, anim: &Vec<&'static str>, an: &Vec<char>) -> (r: bool)
    requires
        strs(anim@) == group_animation(),
        an@ == attribute_name(),
    ensures
        r == animates(node_view(*c), name@),
    decreases c,
{
    match c {
        Child::Element(e) => {
            let ghost ev = elem_view(*e);
            assert(node_view(*c) == NodeV::Element(ev));
            if crate::collections::contains_name(anim, &e.tag_name) && has_attr_value_exec(&e.attributes, an, name) {
                return true;
            }
            let mut i: usize = 0;
            assert(ev.children.subrange(0, ev.children.len() as int) =~= ev.children);
            while i < e.children.len()
                invariant
                    strs(anim@) == group_animation(),
                    an@ == attribute_name(),
                    *c == Child::Element(*e),
                    ev == elem_view(*e),
                    i <= e.children.len(),
                    animates_in(ev.children.subrange(i as int, ev.children.len() as int), name@) == animates_in(ev.children, name@),
                    animates(node_view(*c), name@) == animates_in(ev.children, name@),
                decreases e.children.len() - i,
            {
                let ghost rest = ev.children.subrange(i as int, ev.children.len() as int);
                assert(rest.drop_first() =~= ev.children.subrange(i + 1, ev.children.len() as int));
                assert(rest[0] == node_view(e.children@[i as int]));
                proof {
                    lemma_child_decreases(*c, i as int);
                }
                if animates_child(&e.children[i], name, anim, an) {
                    return true;
                }
                i += 1;
            }
            false
        },
        _ => false,
    }
}

fn animates_elem_exec(tag: &Vec<char>, attrs: &Vec<Attribute>, children: &Vec<Child>, name: &Vec<char>, anim: &Vec<&'static str>, an: &Vec<char>) -> (r: bool)
    requires
        strs(anim@) == group_animation(),
        an@ == attribute_name(),
    ensures
        r == animates_elem(tag@, attrs_view(attrs@), nodes_view(children@), name@),
{
    if crate::collections::contains_name(anim, tag) && has_attr_value_exec(attrs, an, name) {
        return true;
    }
    let ghost cv = nodes_view(children@);
    let mut i: usize = 0;
    assert(cv.subrange(0, cv.len() as int) =~= cv);
    while i < children.len()
        invariant
            strs(anim@) == group_animation(),
            an@ == attribute_name(),
            cv == nodes_view(children@),
            i <= children.len(),
            animates_in(cv.subrange(i as int, cv.len() as int), name@) == animates_in(cv, name@),
        decreases children.len() - i,
    {
        let ghost rest = cv.subrange(i as int, cv.len() as int);
        assert(rest.drop_first() =~= cv.subrange(i + 1, cv.len() as int));
        assert(rest[0] == node_view(children@[i as int]));
        if animates_child(&children[i], name, anim, an) {
            return true;
        }
        i += 1;
    }
    false
}

fn has_attr_exec(attrs: &Vec<Attribute>, n: &str) -> (r: bool)
    ensures
        r == has_attr(attrs_view(attrs@), n@),
{
    find_attr_exec(attrs, n, false).is_some()
}

fn guard_exec(g: &Element, c: &Element) -> (r: bool)
    ensures
        r == guard(elem_view(*g), elem_view(*c)),
{
    proof {
        reveal_strlit("id");
        reveal_strlit("filter");
        reveal_strlit("class");
        reveal_strlit("clip-path");
        reveal_strlit("mask");
        reveal_strlit("transform");
        reveal_strlit("g");
        assert("id"@ =~= seq!['i', 'd']);
        assert("filter"@ =~= seq!['f', 'i', 'l', 't', 'e', 'r']);
        assert("class"@ =~= seq!['c', 'l', 'a', 's', 's']);
        assert("clip-path"@ =~= seq!['c', 'l', 'i', 'p', '-', 'p', 'a', 't', 'h']);
        assert("mask"@ =~= seq!['m', 'a', 's', 'k']);
        assert("transform"@ =~= transform_name());
        assert("g"@ =~= g_name());
    }
    let ga = &g.attributes;
    let ca = &c.attributes;
    !has_attr_exec(ca, "id") && !has_attr_exec(ga, "filter") && (!has_attr_exec(ga, "class") || !has_attr_exec(ca, "class"))
        && ((!has_attr_exec(ga, "clip-path") && !has_attr_exec(ga, "mask")) || (crate::text::eq_str(&c.tag_name, "g")
        && !has_attr_exec(ga, "transform") && !has_attr_exec(ca, "transform")))
}

/// Moves a group's attributes onto its only child, as `merge` says.
fn merge_exec(gattrs: &Vec<Attribute>, c: &Element) -> (r: Option<(Vec<Attribute>, Vec<Attribute>)>)
    ensures
        r is Some <==> merge(attrs_view(gattrs@), c.tag_name@, attrs_view(c.attributes@), nodes_view(c.children@), Seq::empty()) is Some,
        r is Some ==> ({
            let (k, a) = r->0;
            let (sk, sa) = merge(attrs_view(gattrs@), c.tag_name@, attrs_view(c.attributes@), nodes_view(c.children@), Seq::empty())->0;
            attrs_view(k@) == sk && attrs_view(a@) == sa
        }),
{
    proof {
        reveal_strlit("transform");
        reveal_strlit("inherit");
        reveal_strlit("attributeName");
        assert("transform"@ =~= transform_name());
        assert("inherit"@ =~= inherit_word());
        assert("attributeName"@ =~= attribute_name());
    }
    let anim = crate::collections::get_elems_groups_animation();
    let inh = crate::collections::get_inheritable_attrs();
    let an = crate::text::chars_of("attributeName");
    let ghost all = attrs_view(gattrs@);
    let ghost ct = c.tag_name@;
    let ghost cc = nodes_view(c.children@);
    let ghost target = merge(all, ct, attrs_view(c.attributes@), cc, Seq::empty());
    let mut cattrs = copy_attributes(&c.attributes);
    let mut kept: Vec<Attribute> = Vec::new();
    let mut i: usize = 0;
    assert(all.subrange(0, all.len() as int) =~= all);
    assert(attrs_view(kept@) =~= Seq::<AttrV>::empty());
    while i < gattrs.len()
        invariant
            strs(anim@) == group_animation(),
            strs(inh@) == inheritable_attrs(),
            an@ == attribute_name(),
            "transform"@ == transform_name(),
            "inherit"@ == inherit_word(),
            all == attrs_view(gattrs@),
            ct == c.tag_name@,
            cc == nodes_view(c.children@),
            target == merge(all, ct, attrs_view(c.attributes@), cc, Seq::empty()),
            i <= gattrs.len(),
            merge(all.subrange(i as int, all.len() as int), ct, attrs_view(cattrs@), cc, attrs_view(kept@)) == target,
        decreases gattrs.len() - i,
    {
        let ghost rest = all.subrange(i as int, all.len() as int);
        assert(rest.drop_first() =~= all.subrange(i + 1, all.len() as int));
        assert(rest[0] == gattrs@[i as int]@);
        let a = &gattrs[i];
        match &a.value {
            None => {
                let ghost before = kept@;
                kept.push(a.copy());
                proof {
                    crate::model::lemma_attrs_view_push(before, kept@.last());
                }
            },
            Some(v) => {
                if animates_elem_exec(&c.tag_name, &cattrs, &c.children, &a.name, &anim, &an) {
                    return None;
                }
                let ghost cv = attrs_view(cattrs@);
                match find_attr_by(&cattrs, &a.name, false) {
                    None => {
                        let ghost before = cattrs@;
                        cattrs.push(a.copy());
                        proof {
                            crate::model::lemma_attrs_view_push(before, cattrs@.last());
                        }
                    },
                    Some(k) => {
                        proof {
                            lemma_find_attr_found(cv, a.name@, false);
                        }
                        if crate::text::eq_str(&a.name, "transform") {
                            let mut nv = crate::text::copy_chars(v);
                            nv.push(' ');
                            match &cattrs[k].value {
                                Some(x) => crate::text::append_chars(&mut nv, x),
                                None => {},
                            }
                            assert(nv@ =~= v@ + seq![' '] + value_text(cv[k as int]));
                            cattrs = set_value_at(&cattrs, k, &nv);
                        } else {
                            let is_inherit = match &cattrs[k].value {
                                Some(x) => crate::text::eq_str(x, "inherit"),
                                None => false,
                            };
                            if is_inherit {
                                cattrs = set_value_at(&cattrs, k, v);
                            } else {
                                let same = match &cattrs[k].value {
                                    Some(x) => crate::text::eq_chars(x, v),
                                    None => false,
                                };
                                if !crate::collections::contains_name(&inh, &a.name) && !same {
                                    return None;
                                }
                            }
                        }
                    },
                }
            },
        }
        i += 1;
    }
    assert(all.subrange(i as int, all.len() as int) =~= Seq::<AttrV>::empty());
    Some((kept, cattrs))
}

fn copy_children(cs: &Vec<Child>) -> (r: Vec<Child>)
    ensures
        nodes_view(r@) == nodes_view(cs@),
{
    let mut out: Vec<Child> = Vec::new();
    let mut i: usize = 0;
    while i < cs.len()
        invariant
            i <= cs.len(),
            out@.len() == i,
            forall|j: int| 0 <= j < i ==> node_view(#[trigger] out@[j]) == node_view(cs@[j]),
        decreases cs.len() - i,
    {
        out.push(crate::visit::copy_child(&cs[i]));
        i += 1;
    }
    assert(nodes_view(out@) =~= nodes_view(cs@));
    out
}

fn hoist_exec(c: &Child) -> (r: Child)
    ensures
        node_view(r) == hoist(node_view(*c)),
{
    proof {
        reveal_strlit("g");
        assert("g"@ =~= g_name());
    }
    match c {
        Child::Element(g) => {
            let ghost gv = elem_view(*g);
            assert(node_view(*c) == NodeV::Element(gv));
            if !(crate::text::eq_str(&g.tag_name, "g") && g.children.len() == 1 && g.attributes.len() > 0) {
                return crate::visit::copy_child(c);
            }
            assert(gv.children[0] == node_view(g.children@[0]));
            match &g.children[0] {
                Child::Element(ch) => {
                    assert(gv.children[0] == NodeV::Element(elem_view(*ch)));
                    if !guard_exec(g, ch) {
                        return crate::visit::copy_child(c);
                    }
                    match merge_exec(&g.attributes, ch) {
                        Some((kept, ca)) => {
                            let inner = Child::Element(Element { tag_name: crate::text::copy_chars(&ch.tag_name), attributes: ca, children: copy_children(&ch.children) });
                            let ghost iv = node_view(inner);
                            let mut one: Vec<Child> = Vec::new();
                            one.push(inner);
                            assert(nodes_view(one@) =~= seq![iv]);
                            let r = Child::Element(Element { tag_name: crate::text::copy_chars(&g.tag_name), attributes: kept, children: one });
                            r
                        },
                        None => crate::visit::copy_child(c),
                    }
                },
                _ => crate::visit::copy_child(c),
            }
        },
        _ => crate::visit::copy_child(c),
    }
}

fn dissolves_exec(c: &Child, anim: &Vec<&'static str>) -> (r: bool)
    requires
        strs(anim@) == group_animation(),
    ensures
        r == dissolves(node_view(*c)),
{
    proof {
        reveal_strlit("g");
        assert("g"@ =~= g_name());
    }
    match c {
        Child::Element(g) => {
            let ghost gv = elem_view(*g);
            assert(node_view(*c) == NodeV::Element(gv));
            if !(crate::text::eq_str(&g.tag_name, "g") && g.children.len() > 0 && g.attributes.len() == 0) {
                return false;
            }
            let mut i: usize = 0;
            while i < g.children.len()
                invariant
                    strs(anim@) == group_animation(),
                    gv == elem_view(*g),
                    node_view(*c) == NodeV::Element(gv),
                    gv.tag == g_name() && gv.children.len() > 0 && gv.attrs.len() == 0,
                    i <= g.children.len(),
                    forall|k: int| 0 <= k < i ==> !(#[trigger] gv.children[k] is Element && group_animation().contains(gv.children[k]->Element_0.tag)),
                decreases g.children.len() - i,
            {
                assert(gv.children[i as int] == node_view(g.children@[i as int]));
                match &g.children[i] {
                    Child::Element(k) => {
                        assert(gv.children[i as int] == NodeV::Element(elem_view(*k)));
                        if crate::collections::contains_name(anim, &k.tag_name) {
                            assert(gv.children[i as int] is Element && group_animation().contains(gv.children[i as int]->Element_0.tag));
                            assert(has_animation_child(gv.children));
                            return false;
                        }
                    },
                    _ => {},
                }
                i += 1;
            }
            true
        },
        _ => false,
    }
}

/// The nodes with each group that gives way replaced by its children.
fn splice_exec(kids: &Vec<Child>) -> (r: Vec<Child>)
    ensures
        nodes_view(r@) == splice(nodes_view(kids@)),
{
    let anim = crate::collections::get_elems_groups_animation();
    let ghost all = nodes_view(kids@);
    let mut out: Vec<Child> = Vec::new();
    let mut i: usize = 0;
    assert(all.subrange(0, all.len() as int) =~= all);
    assert(nodes_view(out@) + splice(all) =~= splice(all));
    while i < kids.len()
        invariant
            strs(anim@) == group_animation(),
            all == nodes_view(kids@),
            i <= kids.len(),
            nodes_view(out@) + splice(all.subrange(i as int, all.len() as int)) == splice(all),
        decreases kids.len() - i,
    {
        let ghost rest = all.subrange(i as int, all.len() as int);
        assert(rest.drop_first() =~= all.subrange(i + 1, all.len() as int));
        assert(rest[0] == node_view(kids@[i as int]));
        let ghost before = out@;
        if dissolves_exec(&kids[i], &anim) {
            match &kids[i] {
                Child::Element(g) => {
                    assert(rest[0] == NodeV::Element(elem_view(*g)));
                    let mut j: usize = 0;
                    while j < g.children.len()
                        invariant
                            j <= g.children.len(),
                            nodes_view(out@) == nodes_view(before) + nodes_view(g.children@).subrange(0, j as int),
                        decreases g.children.len() - j,
                    {
                        let ghost b2 = out@;
                        let k = crate::visit::copy_child(&g.children[j]);
                        out.push(k);
                        proof {
                            lemma_nodes_view_push(b2, k);
                        }
                        j += 1;
                        assert(nodes_view(out@) =~= nodes_view(before) + nodes_view(g.children@).subrange(0, j as int));
                    }
                    assert(nodes_view(g.children@).subrange(0, j as int) =~= nodes_view(g.children@));
                    assert(nodes_view(out@) + splice(rest.drop_first()) =~= nodes_view(before) + (elem_view(*g).children + splice(rest.drop_first())));
                },
                _ => {},
            }
        } else {
            let k = crate::visit::copy_child(&kids[i]);
            out.push(k);
            proof {
                lemma_nodes_view_push(before, k);
                assert(nodes_view(out@) + splice(rest.drop_first()) =~= nodes_view(before) + (seq![rest[0]] + splice(rest.drop_first())));
            }
        }
        i += 1;
    }
    assert(all.subrange(i as int, all.len() as int) =~= Seq::<NodeV>::empty());
    assert(nodes_view(out@) + Seq::<NodeV>::empty() =~= nodes_view(out@));
    out
}

fn collapse_child(c: &Child) -> (r: Child)
    ensures
        node_view(r) == collapse_node(node_view(*c)),
    decreases c,
{
    match c {
        Child::Element(e) => {
            let ghost ev = elem_view(*e);
            assert(node_view(*c) == NodeV::Element(ev));
            proof {
                reveal_strlit("switch");
                assert("switch"@ =~= switch_name());
            }
            if crate::text::eq_str(&e.tag_name, "switch") {
                return crate::visit::copy_child(c);
            }
            let mut kids: Vec<Child> = Vec::new();
            let mut i: usize = 0;
            let ghost all = ev.children;
            assert(all.subrange(0, all.len() as int) =~= all);
            assert(nodes_view(kids@) + collapse_seq(all) =~= collapse_seq(all));
            while i < e.children.len()
                invariant
                    *c == Child::Element(*e),
                    ev == elem_view(*e),
                    all == ev.children,
                    i <= e.children.len(),
                    nodes_view(kids@) + collapse_seq(all.subrange(i as int, all.len() as int)) == collapse_seq(all),
                decreases e.children.len() - i,
            {
                proof {
                    lemma_child_decreases(*c, i as int);
                }
                let ghost rest = all.subrange(i as int, all.len() as int);
                assert(rest.drop_first() =~= all.subrange(i + 1, all.len() as int));
                assert(rest[0] == node_view(e.children@[i as int]));
                let ghost before = kids@;
                let k = collapse_child(&e.children[i]);
                kids.push(k);
                proof {
                    lemma_nodes_view_push(before, k);
                    assert(nodes_view(kids@) + collapse_seq(rest.drop_first()) =~= nodes_view(before) + (seq![node_view(k)] + collapse_seq(rest.drop_first())));
                }
                i += 1;
            }
            assert(all.subrange(i as int, all.len() as int) =~= Seq::<NodeV>::empty());
            assert(nodes_view(kids@) + Seq::<NodeV>::empty() =~= nodes_view(kids@));
            let ghost kv = collapse_seq(all);
            let mut hoisted: Vec<Child> = Vec::new();
            let mut j: usize = 0;
            while j < kids.len()
                invariant
                    j <= kids.len(),
                    hoisted@.len() == j,
                    forall|t: int| 0 <= t < j ==> node_view(#[trigger] hoisted@[t]) == hoist(node_view(kids@[t])),
                decreases kids.len() - j,
            {
                hoisted.push(hoist_exec(&kids[j]));
                j += 1;
            }
            assert(nodes_view(hoisted@) =~= Seq::new(kv.len(), |t: int| hoist(kv[t])));
            let spliced = splice_exec(&hoisted);
            Child::Element(Element { tag_name: crate::text::copy_chars(&e.tag_name), attributes: copy_attributes(&e.attributes), children: spliced })
        },
        _ => crate::visit::copy_child(c),
    }
}

/// Options of the group collapser: it has none.
pub struct Params {}

impl Params {
    pub fn new() -> Params {
        Params {}
    }
}

/// Collapses the useless groups of the document.
pub fn apply(doc: &mut Document, _params: &Params)
    ensures
        doc_view(*final(doc)) == Seq::new(doc_view(*old(doc)).len(), |i: int| collapse_node(doc_view(*old(doc))[i])),
{
    let mut out: Vec<Child> = Vec::new();
    let mut i: usize = 0;
    while i < doc.children.len()
        invariant
            i <= doc.children.len(),
            out@.len() == i,
            forall|j: int| 0 <= j < i ==> node_view(#[trigger] out@[j]) == collapse_node(node_view(doc.children@[j])),
        decreases doc.children.len() - i,
    {
        out.push(collapse_child(&doc.children[i]));
        i += 1;
    }
    let ghost d0 = doc_view(*doc);
    assert(nodes_view(out@) =~= Seq::new(d0.len(), |i: int| collapse_node(d0[i])));
    doc.children = out;
}

} // verus!
