//! The serializer: writes a document back to text, suspending pretty formatting inside
//! elements whose text content is rendering-significant.
use vstd::prelude::*;
use crate::model::{Attribute, AttrV, Child, Document, ElemV, Element, NodeV, attrs_view, doc_view, elem_view, lemma_child_decreases, node_view, nodes_view};
use crate::collections::{strs, text_elems};

verus! {

broadcast use vstd::seq::group_seq_axioms;

/// End-of-line style.
#[derive(Clone, Copy, PartialEq, Eq, Structural)]
pub enum Eol {
    Lf,
    Crlf,
}

/// The tokens and switches of the serializer.
pub struct StringifyOptions {
    pub doctype_start: Vec<char>,
    pub doctype_end: Vec<char>,
    pub proc_inst_start: Vec<char>,
    pub proc_inst_end: Vec<char>,
    pub tag_open_start: Vec<char>,
    pub tag_open_end: Vec<char>,
    pub tag_close_start: Vec<char>,
    pub tag_close_end: Vec<char>,
    pub tag_short_start: Vec<char>,
    pub tag_short_end: Vec<char>,
    pub attr_start: Vec<char>,
    pub attr_end: Vec<char>,
    pub comment_start: Vec<char>,
    pub comment_end: Vec<char>,
    pub cdata_start: Vec<char>,
    pub cdata_end: Vec<char>,
    pub text_start: Vec<char>,
    pub text_end: Vec<char>,
    /// Characters per level of indentation.
    pub indent: usize,
    /// The character of indentation.
    pub indent_char: char,
    /// The entity that replaces a character in text and attribute values: each character with
    /// an entry is written as the first entry's text. The defaults cover `& ' " < >`; without
    /// entries nothing is replaced.
    pub entities: Vec<(char, Vec<char>)>,
    /// Indentation and line breaks.
    pub pretty: bool,
    /// `<tag/>` for elements without children.
    pub use_short_tags: bool,
    pub eol: Eol,
    /// An end of line after the last character, where there is none.
    pub final_newline: bool,
}

impl StringifyOptions {
    /// The default options, pretty as asked.
    pub fn new(pretty: bool) -> (r: StringifyOptions)
        ensures
            r@ == default_options(pretty),
    {
        proof {
            reveal_strlit("<!DOCTYPE");
            reveal_strlit("<!--");
            reveal_strlit("-->");
            reveal_strlit("<![CDATA[");
            reveal_strlit("]]>");
        }
        let r = StringifyOptions {
            doctype_start: crate::text::chars_of("<!DOCTYPE"),
            doctype_end: vec!['>'],
            proc_inst_start: vec!['<', '?'],
            proc_inst_end: vec!['?', '>'],
            tag_open_start: vec!['<'],
            tag_open_end: vec!['>'],
            tag_close_start: vec!['<', '/'],
            tag_close_end: vec!['>'],
            tag_short_start: vec!['<'],
            tag_short_end: vec!['/', '>'],
            attr_start: vec!['=', '"'],
            attr_end: vec!['"'],
            comment_start: crate::text::chars_of("<!--"),
            comment_end: crate::text::chars_of("-->"),
            cdata_start: crate::text::chars_of("<![CDATA["),
            cdata_end: crate::text::chars_of("]]>"),
            text_start: Vec::new(),
            text_end: Vec::new(),
            indent: 4,
            indent_char: ' ',
            entities: default_entities_exec(),
            pretty,
            use_short_tags: true,
            eol: Eol::Lf,
            final_newline: false,
        };
        assert(r@ =~= default_options(pretty)) by {
            assert(r.doctype_start@ =~= default_options(pretty).doctype_start);
            assert(r.doctype_end@ =~= default_options(pretty).doctype_end);
            assert(r.proc_inst_start@ =~= default_options(pretty).proc_inst_start);
            assert(r.proc_inst_end@ =~= default_options(pretty).proc_inst_end);
            assert(r.tag_open_start@ =~= default_options(pretty).tag_open_start);
            assert(r.tag_open_end@ =~= default_options(pretty).tag_open_end);
            assert(r.tag_close_start@ =~= default_options(pretty).tag_close_start);
            assert(r.tag_close_end@ =~= default_options(pretty).tag_close_end);
            assert(r.tag_short_start@ =~= default_options(pretty).tag_short_start);
            assert(r.tag_short_end@ =~= default_options(pretty).tag_short_end);
            assert(r.attr_start@ =~= default_options(pretty).attr_start);
            assert(r.attr_end@ =~= default_options(pretty).attr_end);
            assert(r.comment_start@ =~= default_options(pretty).comment_start);
            assert(r.comment_end@ =~= default_options(pretty).comment_end);
            assert(r.cdata_start@ =~= default_options(pretty).cdata_start);
            assert(r.cdata_end@ =~= default_options(pretty).cdata_end);
            assert(r.text_start@ =~= default_options(pretty).text_start);
            assert(r.text_end@ =~= default_options(pretty).text_end);
        }
        r
    }
}

/// The options as values.
pub struct OptionsV {
    pub doctype_start: Seq<char>,
    pub doctype_end: Seq<char>,
    pub proc_inst_start: Seq<char>,
    pub proc_inst_end: Seq<char>,
    pub tag_open_start: Seq<char>,
    pub tag_open_end: Seq<char>,
    pub tag_close_start: Seq<char>,
    pub tag_close_end: Seq<char>,
    pub tag_short_start: Seq<char>,
    pub tag_short_end: Seq<char>,
    pub attr_start: Seq<char>,
    pub attr_end: Seq<char>,
    pub comment_start: Seq<char>,
    pub comment_end: Seq<char>,
    pub cdata_start: Seq<char>,
    pub cdata_end: Seq<char>,
    pub text_start: Seq<char>,
    pub text_end: Seq<char>,
    pub indent: nat,
    pub indent_char: char,
    pub entities: Seq<(char, Seq<char>)>,
    pub pretty: bool,
    pub use_short_tags: bool,
    pub eol: Eol,
    pub final_newline: bool,
}

impl View for StringifyOptions {
    type V = OptionsV;

    open spec fn view(&self) -> OptionsV {
        OptionsV {
            doctype_start: self.doctype_start@,
            doctype_end: self.doctype_end@,
            proc_inst_start: self.proc_inst_start@,
            proc_inst_end: self.proc_inst_end@,
            tag_open_start: self.tag_open_start@,
            tag_open_end: self.tag_open_end@,
            tag_close_start: self.tag_close_start@,
            tag_close_end: self.tag_close_end@,
            tag_short_start: self.tag_short_start@,
            tag_short_end: self.tag_short_end@,
            attr_start: self.attr_start@,
            attr_end: self.attr_end@,
            comment_start: self.comment_start@,
            comment_end: self.comment_end@,
            cdata_start: self.cdata_start@,
            cdata_end: self.cdata_end@,
            text_start: self.text_start@,
            text_end: self.text_end@,
            indent: self.indent as nat,
            indent_char: self.indent_char,
            entities: entities_view(self.entities@),
            pretty: self.pretty,
            use_short_tags: self.use_short_tags,
            eol: self.eol,
            final_newline: self.final_newline,
        }
    }
}

/// The default options as values: XML's tokens, four spaces, entities encoded, short tags,
/// `\n`, no final newline; pretty as asked.
pub open spec fn default_options(pretty: bool) -> OptionsV {
    OptionsV {
        doctype_start: seq!['<', '!', 'D', 'O', 'C', 'T', 'Y', 'P', 'E'],
        doctype_end: seq!['>'],
        proc_inst_start: seq!['<', '?'],
        proc_inst_end: seq!['?', '>'],
        tag_open_start: seq!['<'],
        tag_open_end: seq!['>'],
        tag_close_start: seq!['<', '/'],
        tag_close_end: seq!['>'],
        tag_short_start: seq!['<'],
        tag_short_end: seq!['/', '>'],
        attr_start: seq!['=', '"'],
        attr_end: seq!['"'],
        comment_start: seq!['<', '!', '-', '-'],
        comment_end: seq!['-', '-', '>'],
        cdata_start: seq!['<', '!', '[', 'C', 'D', 'A', 'T', 'A', '['],
        cdata_end: seq![']', ']', '>'],
        text_start: Seq::empty(),
        text_end: Seq::empty(),
        indent: 4,
        indent_char: ' ',
        entities: default_entities(),
        pretty,
        use_short_tags: true,
        eol: Eol::Lf,
        final_newline: false,
    }
}

/// The tokens that the serializer writes, and the line end of pretty mode.
pub struct Tokens {
    pub doctype_start: Seq<char>,
    pub doctype_end: Seq<char>,
    pub pi_start: Seq<char>,
    pub pi_end: Seq<char>,
    pub open_start: Seq<char>,
    pub open_end: Seq<char>,
    pub close_start: Seq<char>,
    pub close_end: Seq<char>,
    pub short_start: Seq<char>,
    pub short_end: Seq<char>,
    pub attr_start: Seq<char>,
    pub attr_end: Seq<char>,
    pub comment_start: Seq<char>,
    pub comment_end: Seq<char>,
    pub cdata_start: Seq<char>,
    pub cdata_end: Seq<char>,
    pub text_start: Seq<char>,
    pub text_end: Seq<char>,
    pub indent: Seq<char>,
    pub eol: Seq<char>,
    pub entities: Seq<(char, Seq<char>)>,
    pub pretty: bool,
    pub short_tags: bool,
}

pub open spec fn eol_text(e: Eol) -> Seq<char> {
    match e {
        Eol::Lf => seq!['\n'],
        Eol::Crlf => seq!['\r', '\n'],
    }
}

pub open spec fn repeat_char(c: char, n: nat) -> Seq<char> {
    Seq::new(n, |i: int| c)
}

/// The tokens that options `o` give; in pretty mode each construct ends a line.
pub open spec fn tokens(o: OptionsV) -> Tokens {
    Tokens {
        doctype_start: o.doctype_start,
        doctype_end: o.doctype_end,
        pi_start: o.proc_inst_start,
        pi_end: o.proc_inst_end,
        open_start: o.tag_open_start,
        open_end: o.tag_open_end,
        close_start: o.tag_close_start,
        close_end: o.tag_close_end,
        short_start: o.tag_short_start,
        short_end: o.tag_short_end,
        attr_start: o.attr_start,
        attr_end: o.attr_end,
        comment_start: o.comment_start,
        comment_end: o.comment_end,
        cdata_start: o.cdata_start,
        cdata_end: o.cdata_end,
        text_start: o.text_start,
        text_end: o.text_end,
        indent: repeat_char(o.indent_char, o.indent),
        eol: if o.pretty {
            eol_text(o.eol)
        } else {
            Seq::empty()
        },
        entities: o.entities,
        pretty: o.pretty,
        short_tags: o.use_short_tags,
    }
}

pub open spec fn entities_view(v: Seq<(char, Vec<char>)>) -> Seq<(char, Seq<char>)> {
    Seq::new(v.len(), |i: int| (v[i].0, v[i].1@))
}

/// The entities of XML's five special characters.
pub open spec fn default_entities() -> Seq<(char, Seq<char>)> {
    seq![
        ('&', seq!['&', 'a', 'm', 'p', ';']),
        ('\'', seq!['&', 'a', 'p', 'o', 's', ';']),
        ('"', seq!['&', 'q', 'u', 'o', 't', ';']),
        ('>', seq!['&', 'g', 't', ';']),
        ('<', seq!['&', 'l', 't', ';']),
    ]
}

/// What a character is written as: the text of its first entry, or the character.
pub open spec fn entity(es: Seq<(char, Seq<char>)>, c: char) -> Seq<char>
    decreases es.len(),
{
    if es.len() == 0 {
        seq![c]
    } else if es[0].0 == c {
        es[0].1
    } else {
        entity(es.drop_first(), c)
    }
}

pub open spec fn encode(es: Seq<(char, Seq<char>)>, s: Seq<char>) -> Seq<char>
    decreases s.len(),
{
    if s.len() == 0 {
        Seq::empty()
    } else {
        encode(es, s.drop_last()) + entity(es, s.last())
    }
}

pub open spec fn encoded(t: Tokens, s: Seq<char>) -> Seq<char> {
    encode(t.entities, s)
}

pub open spec fn attrs_text(t: Tokens, a: Seq<AttrV>) -> Seq<char>
    decreases a.len(),
{
    if a.len() == 0 {
        Seq::empty()
    } else {
        let x = a.last();
        attrs_text(t, a.drop_last()) + match x.value {
            Some(v) => seq![' '] + x.name + t.attr_start + encoded(t, v) + t.attr_end,
            None => seq![' '] + x.name,
        }
    }
}

/// The line end after a construct: none inside a text context.
pub open spec fn line_end(t: Tokens, in_text: bool) -> Seq<char> {
    if in_text {
        Seq::empty()
    } else {
        t.eol
    }
}

/// The indentation of a node whose prefix is `prefix`, outside a text context.
pub open spec fn indent_of(t: Tokens, prefix: Seq<char>, in_text: bool) -> Seq<char> {
    if t.pretty && !in_text {
        prefix
    } else {
        Seq::empty()
    }
}

/// The text of a node, indented by `prefix` where pretty, `in_text` telling whether an
/// ancestor is a text-content element.
pub open spec fn emit_node(t: Tokens, n: NodeV, prefix: Seq<char>, in_text: bool) -> Seq<char>
    decreases n,
{
    match n {
        NodeV::DocumentType(name) => doctype_text(t, name, prefix, in_text),
        NodeV::Text(d) => text_text(t, d, prefix, in_text),
        NodeV::Comment(d) => comment_text(t, d, prefix, in_text),
        NodeV::ProcessingInstruction(a, d) => pi_text(t, a, d, prefix, in_text),
        NodeV::CdataSection(d) => cdata_text(t, d, prefix, in_text),
        NodeV::Element(e) => if e.children.len() == 0 {
            empty_elem_text(t, e.tag, e.attrs, prefix, in_text)
        } else {
            open_text(t, e.tag, e.attrs, prefix, in_text) + emit_nodes(
                t,
                e.children,
                prefix + t.indent,
                in_text || starts_text(in_text, e.tag),
            ) + close_text(t, e.tag, prefix, in_text)
        },
    }
}

pub open spec fn doctype_text(t: Tokens, name: Option<Seq<char>>, prefix: Seq<char>, in_text: bool) -> Seq<char> {
    indent_of(t, prefix, in_text) + t.doctype_start + match name {
        Some(x) => seq![' '] + x,
        None => Seq::empty(),
    } + t.doctype_end + line_end(t, in_text)
}

/// Text: its line end and closing token are left out inside a text context.
pub open spec fn text_text(t: Tokens, d: Seq<char>, prefix: Seq<char>, in_text: bool) -> Seq<char> {
    indent_of(t, prefix, in_text) + t.text_start + encoded(t, d) + if in_text {
        Seq::empty()
    } else {
        t.text_end + t.eol
    }
}

pub open spec fn comment_text(t: Tokens, d: Seq<char>, prefix: Seq<char>, in_text: bool) -> Seq<char> {
    indent_of(t, prefix, in_text) + t.comment_start + d + t.comment_end + line_end(t, in_text)
}

pub open spec fn pi_text(t: Tokens, a: Seq<char>, d: Seq<char>, prefix: Seq<char>, in_text: bool) -> Seq<char> {
    indent_of(t, prefix, in_text) + t.pi_start + a + seq![' '] + d + t.pi_end + line_end(t, in_text)
}

pub open spec fn cdata_text(t: Tokens, d: Seq<char>, prefix: Seq<char>, in_text: bool) -> Seq<char> {
    indent_of(t, prefix, in_text) + t.cdata_start + d + t.cdata_end + line_end(t, in_text)
}

/// Whether an element starts a text context: a text-content element outside any.
pub open spec fn starts_text(in_text: bool, tag: Seq<char>) -> bool {
    !in_text && text_elems().contains(tag)
}

/// An element without children.
pub open spec fn empty_elem_text(t: Tokens, tag: Seq<char>, attrs: Seq<AttrV>, prefix: Seq<char>, in_text: bool) -> Seq<char> {
    if t.short_tags {
        indent_of(t, prefix, in_text) + t.short_start + tag + attrs_text(t, attrs) + t.short_end + line_end(t, in_text)
    } else {
        indent_of(t, prefix, in_text) + t.open_start + tag + attrs_text(t, attrs) + t.open_end + line_end(t, in_text)
            + t.close_start + tag + t.close_end + line_end(t, in_text)
    }
}

/// The opening tag of an element with children; inside a text context without indentation or
/// line end, and without line end where it starts one.
pub open spec fn open_text(t: Tokens, tag: Seq<char>, attrs: Seq<AttrV>, prefix: Seq<char>, in_text: bool) -> Seq<char> {
    let starts = starts_text(in_text, tag);
    indent_of(t, prefix, in_text) + t.open_start + tag + attrs_text(t, attrs) + t.open_end + line_end(
        t,
        in_text || starts,
    )
}

/// The closing tag of an element with children.
pub open spec fn close_text(t: Tokens, tag: Seq<char>, prefix: Seq<char>, in_text: bool) -> Seq<char> {
    let starts = starts_text(in_text, tag);
    let close_indent = if starts {
        Seq::empty()
    } else {
        indent_of(t, prefix, in_text)
    };
    close_indent + t.close_start + tag + t.close_end + line_end(t, in_text)
}

/// The texts of the nodes, one after another.
pub open spec fn emit_nodes(t: Tokens, ns: Seq<NodeV>, prefix: Seq<char>, in_text: bool) -> Seq<char>
    decreases ns,
{
    if ns.len() == 0 {
        Seq::empty()
    } else {
        emit_node(t, ns[0], prefix, in_text) + emit_nodes(t, ns.drop_first(), prefix, in_text)
    }
}

/// The text of a document.
pub open spec fn stringify(o: OptionsV, d: Seq<NodeV>) -> Seq<char> {
    let s = emit_nodes(tokens(o), d, Seq::empty(), false);
    if o.final_newline && s.len() > 0 && s.last() != '\n' {
        s + eol_text(o.eol)
    } else {
        s
    }
}

struct Toks {
    doctype_start: Vec<char>,
    doctype_end: Vec<char>,
    pi_start: Vec<char>,
    pi_end: Vec<char>,
    open_start: Vec<char>,
    open_end: Vec<char>,
    close_start: Vec<char>,
    close_end: Vec<char>,
    short_start: Vec<char>,
    short_end: Vec<char>,
    attr_start: Vec<char>,
    attr_end: Vec<char>,
    comment_start: Vec<char>,
    comment_end: Vec<char>,
    cdata_start: Vec<char>,
    cdata_end: Vec<char>,
    text_start: Vec<char>,
    text_end: Vec<char>,
    indent: Vec<char>,
    eol: Vec<char>,
    entities: Vec<(char, Vec<char>)>,
    pretty: bool,
    short_tags: bool,
    text_elems: Vec<&'static str>,
}

impl View for Toks {
    type V = Tokens;

    closed spec fn view(&self) -> Tokens {
        Tokens {
            doctype_start: self.doctype_start@,
            doctype_end: self.doctype_end@,
            pi_start: self.pi_start@,
            pi_end: self.pi_end@,
            open_start: self.open_start@,
            open_end: self.open_end@,
            close_start: self.close_start@,
            close_end: self.close_end@,
            short_start: self.short_start@,
            short_end: self.short_end@,
            attr_start: self.attr_start@,
            attr_end: self.attr_end@,
            comment_start: self.comment_start@,
            comment_end: self.comment_end@,
            cdata_start: self.cdata_start@,
            cdata_end: self.cdata_end@,
            text_start: self.text_start@,
            text_end: self.text_end@,
            indent: self.indent@,
            eol: self.eol@,
            entities: entities_view(self.entities@),
            pretty: self.pretty,
            short_tags: self.short_tags,
        }
    }
}

impl Toks {
    closed spec fn wf(&self) -> bool {
        strs(self.text_elems@) == text_elems()
    }
}

fn toks_of(o: &StringifyOptions) -> (t: Toks)
    ensures
        t@ == tokens(o@),
        t.wf(),
{
    let e: Vec<char> = if o.pretty {
        match o.eol {
            Eol::Lf => vec!['\n'],
            Eol::Crlf => vec!['\r', '\n'],
        }
    } else {
        Vec::new()
    };
    assert(e@ =~= if o.pretty { eol_text(o.eol) } else { Seq::empty() });
    let mut ind: Vec<char> = Vec::new();
    let mut i: usize = 0;
    while i < o.indent
        invariant
            i <= o.indent,
            ind@ =~= repeat_char(o.indent_char, i as nat),
        decreases o.indent - i,
    {
        ind.push(o.indent_char);
        i += 1;
        assert(ind@ =~= repeat_char(o.indent_char, i as nat));
    }
    let c = crate::text::copy_chars;
    let t = Toks {
        doctype_start: c(&o.doctype_start),
        doctype_end: c(&o.doctype_end),
        pi_start: c(&o.proc_inst_start),
        pi_end: c(&o.proc_inst_end),
        open_start: c(&o.tag_open_start),
        open_end: c(&o.tag_open_end),
        close_start: c(&o.tag_close_start),
        close_end: c(&o.tag_close_end),
        short_start: c(&o.tag_short_start),
        short_end: c(&o.tag_short_end),
        attr_start: c(&o.attr_start),
        attr_end: c(&o.attr_end),
        comment_start: c(&o.comment_start),
        comment_end: c(&o.comment_end),
        cdata_start: c(&o.cdata_start),
        cdata_end: c(&o.cdata_end),
        text_start: c(&o.text_start),
        text_end: c(&o.text_end),
        indent: ind,
        eol: e,
        entities: copy_entities(&o.entities),
        pretty: o.pretty,
        short_tags: o.use_short_tags,
        text_elems: crate::collections::get_text_elems(),
    };
    t
}

fn push_line_end(t: &Toks, in_text: bool, out: &mut Vec<char>)
    ensures
        final(out)@ == old(out)@ + line_end(t@, in_text),
{
    if in_text {
        assert(old(out)@ + Seq::<char>::empty() =~= old(out)@);
    } else {
        crate::text::append_chars(out, &t.eol);
    }
}

fn push_entity(es: &Vec<(char, Vec<char>)>, c: char, out: &mut Vec<char>)
    ensures
        final(out)@ == old(out)@ + entity(entities_view(es@), c),
{
    let ghost all = entities_view(es@);
    let mut i: usize = 0;
    assert(all.subrange(0, all.len() as int) =~= all);
    while i < es.len()
        invariant
            all == entities_view(es@),
            i <= es.len(),
            entity(all.subrange(i as int, all.len() as int), c) == entity(all, c),
            out@ == old(out)@,
        decreases es.len() - i,
    {
        let ghost rest = all.subrange(i as int, all.len() as int);
        assert(rest.drop_first() =~= all.subrange(i + 1, all.len() as int));
        assert(rest[0] == (es@[i as int].0, es@[i as int].1@));
        if es[i].0 == c {
            crate::text::append_chars(out, &es[i].1);
            return;
        }
        i += 1;
    }
    assert(all.subrange(i as int, all.len() as int) =~= Seq::<(char, Seq<char>)>::empty());
    out.push(c);
    assert(out@ =~= old(out)@ + seq![c]);
}

fn push_encoded(t: &Toks, s: &Vec<char>, out: &mut Vec<char>)
    ensures
        final(out)@ == old(out)@ + encoded(t@, s@),
{
    let ghost es = t@.entities;
    let mut i: usize = 0;
    assert(s@.subrange(0, 0) =~= Seq::<char>::empty());
    assert(old(out)@ + encode(es, Seq::<char>::empty()) =~= old(out)@);
    while i < s.len()
        invariant
            i <= s@.len(),
            es == t@.entities,
            es == entities_view(t.entities@),
            out@ == old(out)@ + encode(es, s@.subrange(0, i as int)),
        decreases s.len() - i,
    {
        let c = s[i];
        let ghost before = out@;
        push_entity(&t.entities, c, out);
        assert(s@.subrange(0, i + 1).drop_last() =~= s@.subrange(0, i as int));
        i += 1;
        assert(out@ =~= old(out)@ + encode(es, s@.subrange(0, i as int)));
    }
    assert(s@.subrange(0, s@.len() as int) =~= s@);
}

fn copy_entities(v: &Vec<(char, Vec<char>)>) -> (r: Vec<(char, Vec<char>)>)
    ensures
        entities_view(r@) == entities_view(v@),
{
    let mut r: Vec<(char, Vec<char>)> = Vec::new();
    let mut i: usize = 0;
    while i < v.len()
        invariant
            i <= v.len(),
            r@.len() == i,
            forall|k: int| 0 <= k < i ==> #[trigger] r@[k].0 == v@[k].0 && r@[k].1@ == v@[k].1@,
        decreases v.len() - i,
    {
        r.push((v[i].0, crate::text::copy_chars(&v[i].1)));
        i += 1;
    }
    assert(entities_view(r@) =~= entities_view(v@));
    r
}

fn default_entities_exec() -> (r: Vec<(char, Vec<char>)>)
    ensures
        entities_view(r@) == default_entities(),
{
    let mut r: Vec<(char, Vec<char>)> = Vec::new();
    r.push(('&', vec!['&', 'a', 'm', 'p', ';']));
    r.push(('\'', vec!['&', 'a', 'p', 'o', 's', ';']));
    r.push(('"', vec!['&', 'q', 'u', 'o', 't', ';']));
    r.push(('>', vec!['&', 'g', 't', ';']));
    r.push(('<', vec!['&', 'l', 't', ';']));
    assert(r@[0].1@ =~= seq!['&', 'a', 'm', 'p', ';']);
    assert(r@[1].1@ =~= seq!['&', 'a', 'p', 'o', 's', ';']);
    assert(r@[2].1@ =~= seq!['&', 'q', 'u', 'o', 't', ';']);
    assert(r@[3].1@ =~= seq!['&', 'g', 't', ';']);
    assert(r@[4].1@ =~= seq!['&', 'l', 't', ';']);
    assert(entities_view(r@) =~= default_entities());
    r
}

fn push_attrs(t: &Toks, a: &Vec<Attribute>, out: &mut Vec<char>)
    ensures
        final(out)@ == old(out)@ + attrs_text(t@, attrs_view(a@)),
{
    let ghost av = attrs_view(a@);
    let mut i: usize = 0;
    assert(av.subrange(0, 0) =~= Seq::<AttrV>::empty());
    assert(old(out)@ + attrs_text(t@, Seq::<AttrV>::empty()) =~= old(out)@);
    while i < a.len()
        invariant
            av == attrs_view(a@),
            i <= a@.len(),
            out@ == old(out)@ + attrs_text(t@, av.subrange(0, i as int)),
        decreases a.len() - i,
    {
        let ghost before = out@;
        let x = &a[i];
        out.push(' ');
        crate::text::append_chars(out, &x.name);
        match &x.value {
            Some(v) => {
                crate::text::append_chars(out, &t.attr_start);
                push_encoded(t, v, out);
                crate::text::append_chars(out, &t.attr_end);
            },
            None => {},
        }
        assert(av.subrange(0, i + 1).drop_last() =~= av.subrange(0, i as int));
        assert(av.subrange(0, i + 1).last() == x@);
        i += 1;
        assert(out@ =~= old(out)@ + attrs_text(t@, av.subrange(0, i as int)));
    }
    assert(av.subrange(0, a@.len() as int) =~= av);
}

fn push_indent(t: &Toks, prefix: &Vec<char>, in_text: bool, out: &mut Vec<char>)
    ensures
        final(out)@ == old(out)@ + indent_of(t@, prefix@, in_text),
{
    if t.pretty && !in_text {
        crate::text::append_chars(out, prefix);
    } else {
        assert(old(out)@ + Seq::<char>::empty() =~= old(out)@);
    }
}

fn emit_doctype(t: &Toks, name: &Option<Vec<char>>, prefix: &Vec<char>, in_text: bool, out: &mut Vec<char>)
    ensures
        final(out)@ == old(out)@ + doctype_text(t@, crate::model::opt_view(*name), prefix@, in_text),
{
    push_indent(t, prefix, in_text, out);
    crate::text::append_chars(out, &t.doctype_start);
    match name {
        Some(x) => {
            out.push(' ');
            crate::text::append_chars(out, x);
        },
        None => {},
    }
    crate::text::append_chars(out, &t.doctype_end);
    push_line_end(t, in_text, out);
    assert(out@ =~= old(out)@ + doctype_text(t@, crate::model::opt_view(*name), prefix@, in_text));
}

fn emit_text(t: &Toks, d: &Vec<char>, prefix: &Vec<char>, in_text: bool, out: &mut Vec<char>)
    ensures
        final(out)@ == old(out)@ + text_text(t@, d@, prefix@, in_text),
{
    push_indent(t, prefix, in_text, out);
    crate::text::append_chars(out, &t.text_start);
    push_encoded(t, d, out);
    if !in_text {
        crate::text::append_chars(out, &t.text_end);
        crate::text::append_chars(out, &t.eol);
    }
    assert(out@ =~= old(out)@ + text_text(t@, d@, prefix@, in_text));
}

fn emit_comment(t: &Toks, d: &Vec<char>, prefix: &Vec<char>, in_text: bool, out: &mut Vec<char>)
    ensures
        final(out)@ == old(out)@ + comment_text(t@, d@, prefix@, in_text),
{
    push_indent(t, prefix, in_text, out);
    crate::text::append_chars(out, &t.comment_start);
    crate::text::append_chars(out, d);
    crate::text::append_chars(out, &t.comment_end);
    push_line_end(t, in_text, out);
    assert(out@ =~= old(out)@ + comment_text(t@, d@, prefix@, in_text));
}

fn emit_pi(t: &Toks, a: &Vec<char>, d: &Vec<char>, prefix: &Vec<char>, in_text: bool, out: &mut Vec<char>)
    ensures
        final(out)@ == old(out)@ + pi_text(t@, a@, d@, prefix@, in_text),
{
    push_indent(t, prefix, in_text, out);
    crate::text::append_chars(out, &t.pi_start);
    crate::text::append_chars(out, a);
    out.push(' ');
    crate::text::append_chars(out, d);
    crate::text::append_chars(out, &t.pi_end);
    push_line_end(t, in_text, out);
    assert(out@ =~= old(out)@ + pi_text(t@, a@, d@, prefix@, in_text));
}

fn emit_cdata(t: &Toks, d: &Vec<char>, prefix: &Vec<char>, in_text: bool, out: &mut Vec<char>)
    ensures
        final(out)@ == old(out)@ + cdata_text(t@, d@, prefix@, in_text),
{
    push_indent(t, prefix, in_text, out);
    crate::text::append_chars(out, &t.cdata_start);
    crate::text::append_chars(out, d);
    crate::text::append_chars(out, &t.cdata_end);
    push_line_end(t, in_text, out);
    assert(out@ =~= old(out)@ + cdata_text(t@, d@, prefix@, in_text));
}

fn emit_child(t: &Toks, c: &Child, prefix: &Vec<char>, in_text: bool, out: &mut Vec<char>)
    requires
        t.wf(),
    ensures
        final(out)@ == old(out)@ + emit_node(t@, node_view(*c), prefix@, in_text),
    decreases c,
{
    match c {
        Child::DocumentType(name) => emit_doctype(t, name, prefix, in_text, out),
        Child::Text(d) => emit_text(t, d, prefix, in_text, out),
        Child::Comment(d) => emit_comment(t, d, prefix, in_text, out),
        Child::ProcessingInstruction(a, d) => emit_pi(t, a, d, prefix, in_text, out),
        Child::CdataSection(d) => emit_cdata(t, d, prefix, in_text, out),
        Child::Element(e) => {
            assert(node_view(*c) == NodeV::Element(elem_view(*e)));
            emit_element(t, e, prefix, in_text, out);
        },
    }
}

fn emit_empty(t: &Toks, e: &Element, prefix: &Vec<char>, in_text: bool, out: &mut Vec<char>)
    ensures
        final(out)@ == old(out)@ + empty_elem_text(t@, e.tag_name@, attrs_view(e.attributes@), prefix@, in_text),
{
    push_indent(t, prefix, in_text, out);
    let ghost o1 = out@;
    if t.short_tags {
        crate::text::append_chars(out, &t.short_start);
        crate::text::append_chars(out, &e.tag_name);
        push_attrs(t, &e.attributes, out);
        crate::text::append_chars(out, &t.short_end);
        push_line_end(t, in_text, out);
    } else {
        crate::text::append_chars(out, &t.open_start);
        crate::text::append_chars(out, &e.tag_name);
        push_attrs(t, &e.attributes, out);
        crate::text::append_chars(out, &t.open_end);
        push_line_end(t, in_text, out);
        crate::text::append_chars(out, &t.close_start);
        crate::text::append_chars(out, &e.tag_name);
        crate::text::append_chars(out, &t.close_end);
        push_line_end(t, in_text, out);
    }
    assert(out@ =~= old(out)@ + empty_elem_text(t@, e.tag_name@, attrs_view(e.attributes@), prefix@, in_text));
}

fn emit_open(t: &Toks, e: &Element, prefix: &Vec<char>, in_text: bool, starts: bool, out: &mut Vec<char>)
    requires
        starts == starts_text(in_text, e.tag_name@),
    ensures
        final(out)@ == old(out)@ + open_text(t@, e.tag_name@, attrs_view(e.attributes@), prefix@, in_text),
{
    push_indent(t, prefix, in_text, out);
    crate::text::append_chars(out, &t.open_start);
    crate::text::append_chars(out, &e.tag_name);
    push_attrs(t, &e.attributes, out);
    crate::text::append_chars(out, &t.open_end);
    push_line_end(t, in_text || starts, out);
    assert(out@ =~= old(out)@ + open_text(t@, e.tag_name@, attrs_view(e.attributes@), prefix@, in_text));
}

fn emit_close(t: &Toks, e: &Element, prefix: &Vec<char>, in_text: bool, starts: bool, out: &mut Vec<char>)
    requires
        starts == starts_text(in_text, e.tag_name@),
    ensures
        final(out)@ == old(out)@ + close_text(t@, e.tag_name@, prefix@, in_text),
{
    if !starts {
        push_indent(t, prefix, in_text, out);
    }
    crate::text::append_chars(out, &t.close_start);
    crate::text::append_chars(out, &e.tag_name);
    crate::text::append_chars(out, &t.close_end);
    push_line_end(t, in_text, out);
    assert(out@ =~= old(out)@ + close_text(t@, e.tag_name@, prefix@, in_text));
}

fn emit_element(t: &Toks, e: &Element, prefix: &Vec<char>, in_text: bool, out: &mut Vec<char>)
    requires
        t.wf(),
    ensures
        final(out)@ == old(out)@ + emit_node(t@, NodeV::Element(elem_view(*e)), prefix@, in_text),
    decreases e,
{
    let ghost ev = elem_view(*e);
    if e.children.len() == 0 {
        emit_empty(t, e, prefix, in_text, out);
        return;
    }
    proof {
        reveal(Toks::wf);
    }
    let starts = !in_text && crate::collections::contains_name(&t.text_elems, &e.tag_name);
    let inner = in_text || starts;
    let ghost o0 = out@;
    emit_open(t, e, prefix, in_text, starts, out);
    let ghost o2 = out@;
    let mut child_prefix = crate::text::copy_chars(prefix);
    crate::text::append_chars(&mut child_prefix, &t.indent);
    let mut i: usize = 0;
    let ghost all = ev.children;
    assert(all.subrange(0, 0) =~= Seq::<NodeV>::empty());
    assert(out@ =~= o2 + Seq::<char>::empty());
    while i < e.children.len()
        invariant
            t.wf(),
            ev == elem_view(*e),
            all == ev.children,
            child_prefix@ == prefix@ + t@.indent,
            i <= e.children.len(),
            out@ == o2 + emit_nodes(t@, all.subrange(0, i as int), child_prefix@, inner),
        decreases e.children.len() - i,
    {
        proof {
            crate::model::lemma_elem_decreases(*e, i as int);
            lemma_emit_nodes_push(t@, all.subrange(0, i as int), all[i as int], child_prefix@, inner);
            assert(all.subrange(0, i + 1) =~= all.subrange(0, i as int).push(all[i as int]));
        }
        assert(all[i as int] == node_view(e.children@[i as int]));
        emit_child(t, &e.children[i], &child_prefix, inner, out);
        i += 1;
    }
    assert(all.subrange(0, i as int) =~= all);
    let ghost o3 = out@;
    emit_close(t, e, prefix, in_text, starts, out);
    assert(out@ =~= o0 + open_text(t@, ev.tag, ev.attrs, prefix@, in_text) + emit_nodes(t@, all, prefix@ + t@.indent, inner) + close_text(t@, ev.tag, prefix@, in_text));
}

proof fn lemma_emit_nodes_push(t: Tokens, ns: Seq<NodeV>, n: NodeV, prefix: Seq<char>, in_text: bool)
    ensures
        emit_nodes(t, ns.push(n), prefix, in_text) == emit_nodes(t, ns, prefix, in_text) + emit_node(t, n, prefix, in_text),
    decreases ns.len(),
{
    if ns.len() == 0 {
        assert(ns.push(n).drop_first() =~= Seq::<NodeV>::empty());
        assert(emit_nodes(t, Seq::<NodeV>::empty(), prefix, in_text) == Seq::<char>::empty());
        assert(emit_nodes(t, ns, prefix, in_text) == Seq::<char>::empty());
        assert(ns.push(n)[0] == n);
        assert(emit_nodes(t, ns.push(n), prefix, in_text) == emit_node(t, n, prefix, in_text) + emit_nodes(t, ns.push(n).drop_first(), prefix, in_text));
        assert(emit_nodes(t, ns.push(n), prefix, in_text) =~= emit_node(t, n, prefix, in_text) + Seq::<char>::empty());
    } else {
        lemma_emit_nodes_push(t, ns.drop_first(), n, prefix, in_text);
        assert(ns.push(n).drop_first() =~= ns.drop_first().push(n));
        assert(ns.push(n)[0] == ns[0]);
        assert(emit_nodes(t, ns.push(n), prefix, in_text) =~= emit_nodes(t, ns, prefix, in_text) + emit_node(t, n, prefix, in_text));
    }
}

/// Writes the document as text with the options `options`.
pub fn stringify_svg(doc: &Document, options: &StringifyOptions) -> (r: Vec<char>)
    ensures
        r@ == stringify(options@, doc_view(*doc)),
{
    let t = toks_of(options);
    let mut out: Vec<char> = Vec::new();
    let prefix: Vec<char> = Vec::new();
    let ghost all = doc_view(*doc);
    let mut i: usize = 0;
    assert(all.subrange(0, 0) =~= Seq::<NodeV>::empty());
    while i < doc.children.len()
        invariant
            t.wf(),
            t@ == tokens(options@),
            all == doc_view(*doc),
            prefix@ == Seq::<char>::empty(),
            i <= doc.children.len(),
            out@ == emit_nodes(t@, all.subrange(0, i as int), prefix@, false),
        decreases doc.children.len() - i,
    {
        proof {
            lemma_emit_nodes_push(t@, all.subrange(0, i as int), all[i as int], prefix@, false);
            assert(all.subrange(0, i + 1) =~= all.subrange(0, i as int).push(all[i as int]));
        }
        assert(all[i as int] == node_view(doc.children@[i as int]));
        emit_child(&t, &doc.children[i], &prefix, false, &mut out);
        i += 1;
    }
    assert(all.subrange(0, i as int) =~= all);
    if options.final_newline && out.len() > 0 && out[out.len() - 1] != '\n' {
        match options.eol {
            Eol::Lf => out.push('\n'),
            Eol::Crlf => {
                out.push('\r');
                out.push('\n');
            },
        }
        assert(out@ =~= stringify(options@, all));
    }
    out
}

} // verus!
