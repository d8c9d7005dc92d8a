//! Whitespace normalization of attribute values.
use vstd::prelude::*;
use crate::model::{Attribute, AttrV, attrs_view};
use crate::text::{is_ws, trim};

verus! {

broadcast use vstd::seq::group_seq_axioms;

/// Joins two non-space characters around a line break (`\n` or `\r\n`) with one space,
/// scanning left to right from `i`.
pub open spec fn join_lines_from(s: Seq<char>, i: int) -> Seq<char>
    decreases s.len() - i,
{
    if i < 0 || i >= s.len() {
        Seq::empty()
    } else if i + 2 < s.len() && !is_ws(s[i]) && s[i + 1] == '\n' && !is_ws(s[i + 2]) {
        seq![s[i], ' ', s[i + 2]] + join_lines_from(s, i + 3)
    } else if i + 3 < s.len() && !is_ws(s[i]) && s[i + 1] == '\r' && s[i + 2] == '\n' && !is_ws(s[i + 3]) {
        seq![s[i], ' ', s[i + 3]] + join_lines_from(s, i + 4)
    } else {
        seq![s[i]] + join_lines_from(s, i + 1)
    }
}

/// Drops every line break, `\n` or `\r\n`, from `i` on.
pub open spec fn drop_lines_from(s: Seq<char>, i: int) -> Seq<char>
    decreases s.len() - i,
{
    if i < 0 || i >= s.len() {
        Seq::empty()
    } else if s[i] == '\r' && i + 1 < s.len() && s[i + 1] == '\n' {
        drop_lines_from(s, i + 2)
    } else if s[i] == '\n' {
        drop_lines_from(s, i + 1)
    } else {
        seq![s[i]] + drop_lines_from(s, i + 1)
    }
}

pub open spec fn flush(pend: Seq<char>) -> Seq<char> {
    if pend.len() >= 2 {
        seq![' ']
    } else {
        pend
    }
}

/// Replaces each run of two or more white-space characters by one space; `pend` holds the
/// white space read just before `i`.
pub open spec fn collapse_from(s: Seq<char>, i: int, pend: Seq<char>) -> Seq<char>
    decreases s.len() - i,
{
    if i < 0 || i >= s.len() {
        flush(pend)
    } else if is_ws(s[i]) {
        collapse_from(s, i + 1, pend.push(s[i]))
    } else {
        flush(pend) + seq![s[i]] + collapse_from(s, i + 1, Seq::empty())
    }
}

/// An attribute value with its line breaks joined or dropped, trimmed, and its white-space
/// runs collapsed.
pub open spec fn normalize(v: Seq<char>) -> Seq<char> {
    let a = join_lines_from(v, 0);
    let b = drop_lines_from(a, 0);
    let c = trim(b);
    collapse_from(c, 0, Seq::empty())
}

fn join_lines(s: &Vec<char>) -> (r: Vec<char>)
    ensures
        r@ == join_lines_from(s@, 0),
{
    let mut out: Vec<char> = Vec::new();
    let mut i: usize = 0;
    assert(out@ + join_lines_from(s@, 0) =~= join_lines_from(s@, 0));
    while i < s.len()
        invariant
            i <= s@.len() + 1,
            out@ + join_lines_from(s@, i as int) == join_lines_from(s@, 0),
        decreases s.len() - i,
    {
        let ghost before = out@;
        let n = s.len();
        if n - i > 2 && !crate::text::is_whitespace(s[i]) && s[i + 1] == '\n' && !crate::text::is_whitespace(s[i + 2]) {
            out.push(s[i]);
            out.push(' ');
            out.push(s[i + 2]);
            assert(out@ + join_lines_from(s@, i + 3) =~= before + join_lines_from(s@, i as int));
            i += 3;
        } else if n - i > 3 && !crate::text::is_whitespace(s[i]) && s[i + 1] == '\r' && s[i + 2] == '\n'
            && !crate::text::is_whitespace(s[i + 3]) {
            out.push(s[i]);
            out.push(' ');
            out.push(s[i + 3]);
            assert(out@ + join_lines_from(s@, i + 4) =~= before + join_lines_from(s@, i as int));
            i += 4;
        } else {
            out.push(s[i]);
            assert(out@ + join_lines_from(s@, i + 1) =~= before + join_lines_from(s@, i as int));
            i += 1;
        }
    }
    assert(out@ + join_lines_from(s@, i as int) =~= out@);
    out
}

fn drop_lines(s: &Vec<char>) -> (r: Vec<char>)
    ensures
        r@ == drop_lines_from(s@, 0),
{
    let mut out: Vec<char> = Vec::new();
    let mut i: usize = 0;
    assert(out@ + drop_lines_from(s@, 0) =~= drop_lines_from(s@, 0));
    while i < s.len()
        invariant
            i <= s@.len() + 1,
            out@ + drop_lines_from(s@, i as int) == drop_lines_from(s@, 0),
        decreases s.len() - i,
    {
        let ghost before = out@;
        if s[i] == '\r' && s.len() - i > 1 && s[i + 1] == '\n' {
            i += 2;
        } else if s[i] == '\n' {
            i += 1;
        } else {
            out.push(s[i]);
            assert(out@ + drop_lines_from(s@, i + 1) =~= before + drop_lines_from(s@, i as int));
            i += 1;
        }
    }
    assert(out@ + drop_lines_from(s@, i as int) =~= out@);
    out
}

fn collapse(s: &Vec<char>) -> (r: Vec<char>)
    ensures
        r@ == collapse_from(s@, 0, Seq::empty()),
{
    let mut out: Vec<char> = Vec::new();
    let mut pend: Vec<char> = Vec::new();
    let mut i: usize = 0;
    assert(out@ + collapse_from(s@, 0, pend@) =~= collapse_from(s@, 0, Seq::empty()));
    while i < s.len()
        invariant
            i <= s@.len(),
            out@ + collapse_from(s@, i as int, pend@) == collapse_from(s@, 0, Seq::empty()),
        decreases s.len() - i,
    {
        let ghost before = out@;
        let ghost p0 = pend@;
        if crate::text::is_whitespace(s[i]) {
            pend.push(s[i]);
        } else {
            if pend.len() >= 2 {
                out.push(' ');
            } else {
                crate::text::append_chars(&mut out, &pend);
            }
            out.push(s[i]);
            pend = Vec::new();
            assert(out@ + collapse_from(s@, i + 1, pend@) =~= before + collapse_from(s@, i as int, p0));
        }
        i += 1;
    }
    if pend.len() >= 2 {
        out.push(' ');
    } else {
        crate::text::append_chars(&mut out, &pend);
    }
    out
}

/// Normalizes the white space of one attribute value.
pub fn normalize_value(v: &Vec<char>) -> (r: Vec<char>)
    ensures
        r@ == normalize(v@),
{
    let a = join_lines(v);
    let b = drop_lines(&a);
    let c = crate::text::trim_chars(&b);
    collapse(&c)
}

/// The whitespace normalizer, as an element rewrite.
pub struct CleanupAttrs;

impl View for CleanupAttrs {
    type V = ();

    open spec fn view(&self) -> () {
        ()
    }
}

pub open spec fn normalize_attr(a: AttrV) -> AttrV {
    match a.value {
        Some(v) => AttrV { name: a.name, value: Some(normalize(v)) },
        None => a,
    }
}

impl crate::visit::ElementRewrite for CleanupAttrs {
    open spec fn rewrite_spec(v: (), tag: Seq<char>, attrs: Seq<AttrV>) -> (Seq<char>, Seq<AttrV>) {
        (tag, Seq::new(attrs.len(), |i: int| normalize_attr(attrs[i])))
    }

    fn rewrite(&self, tag: &Vec<char>, attrs: &Vec<Attribute>) -> (r: (Vec<char>, Vec<Attribute>)) {
        let mut out: Vec<Attribute> = Vec::new();
        let mut i: usize = 0;
        while i < attrs.len()
            invariant
                i <= attrs.len(),
                out@.len() == i,
                forall|k: int| 0 <= k < i ==> #[trigger] out@[k]@ == normalize_attr(attrs@[k]@),
            decreases attrs.len() - i,
        {
            let a = &attrs[i];
            let na = match &a.value {
                Some(v) => Attribute { name: crate::text::copy_chars(&a.name), value: Some(normalize_value(v)) },
                None => a.copy(),
            };
            out.push(na);
            i += 1;
        }
        assert(attrs_view(out@) =~= Seq::new(attrs@.len(), |k: int| normalize_attr(attrs_view(attrs@)[k])));
        (crate::text::copy_chars(tag), out)
    }
}

/// Normalizes the white space of every attribute value in the document.
pub fn apply(doc: &mut crate::model::Document)
    ensures
        crate::model::doc_view(*final(doc)) == crate::visit::rewrite_nodes::<CleanupAttrs>((), crate::model::doc_view(*old(doc))),
{
    crate::visit::apply_rewrite(&CleanupAttrs, doc);
}

} // verus!
