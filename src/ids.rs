//! The identifier minifier: drops unreferenced ids and renames referenced ones to minimal names.
use vstd::prelude::*;
use linked_hash_map::LinkedHashMap;
use crate::model::{Attribute, AttrV, Child, Document, ElemV, Element, NodeV, attrs_view, doc_view, elem_view, lemma_attrs_view_push, lemma_child_decreases, lemma_nodes_view_push, node_view, nodes_view};
use crate::collections::{references_props, strs};
use crate::text::subrange_chars;

verus! {

broadcast use vstd::std_specs::vec::group_vec_axioms, vstd::seq::group_seq_axioms;

/// The 52 letters of generated identifiers, in counting order.
pub open spec fn id_chars() -> Seq<char> {
    seq!['a', 'b', 'c', 'd', 'e', 'f', 'g', 'h', 'i', 'j', 'k', 'l', 'm', 'n', 'o', 'p', 'q', 'r', 's', 't', 'u', 'v', 'w', 'x', 'y', 'z', 'A', 'B', 'C', 'D', 'E', 'F', 'G', 'H', 'I', 'J', 'K', 'L', 'M', 'N', 'O', 'P', 'Q', 'R', 'S', 'T', 'U', 'V', 'W', 'X', 'Y', 'Z']
}

pub fn get_generate_id_chars() -> (r: Vec<char>)
    ensures
        r@ == id_chars(),
{
    let r = vec!['a', 'b', 'c', 'd', 'e', 'f', 'g', 'h', 'i', 'j', 'k', 'l', 'm', 'n', 'o', 'p', 'q', 'r', 's', 't', 'u', 'v', 'w', 'x', 'y', 'z', 'A', 'B', 'C', 'D', 'E', 'F', 'G', 'H', 'I', 'J', 'K', 'L', 'M', 'N', 'O', 'P', 'Q', 'R', 'S', 'T', 'U', 'V', 'W', 'X', 'Y', 'Z'];
    assert(r@ =~= id_chars());
    r
}

/// The digits of a counter, as integers.
pub open spec fn digits(v: Seq<usize>) -> Seq<int> {
    Seq::new(v.len(), |i: int| v[i] as int)
}

/// Whether every digit of a counter names one of the 52 letters.
pub open spec fn valid_counter(s: Seq<int>) -> bool {
    forall|i: int| 0 <= i < s.len() ==> 0 <= #[trigger] s[i] <= 51
}

/// Carries overflowing digits from position `i` down to position 1.
pub open spec fn carry(s: Seq<int>, i: int) -> Seq<int>
    decreases i,
{
    if i < 1 || i >= s.len() {
        s
    } else if s[i] > 51 {
        carry(s.update(i, 0).update(i - 1, s[i - 1] + 1), i - 1)
    } else {
        carry(s, i - 1)
    }
}

/// One step of the counter: the last digit goes up by one, overflow carries to the front, and
/// an overflowing front digit becomes two digits `0 0`.
pub open spec fn advance(s: Seq<int>) -> Seq<int> {
    if s.len() == 0 {
        seq![0int]
    } else {
        let t = carry(s.update(s.len() - 1, s.last() + 1), s.len() - 1);
        if t[0] > 51 {
            seq![0int] + t.update(0, 0)
        } else {
            t
        }
    }
}

/// The counter after `n` steps from the empty one.
pub open spec fn nth_counter(n: nat) -> Seq<int>
    decreases n,
{
    if n == 0 {
        Seq::empty()
    } else {
        advance(nth_counter((n - 1) as nat))
    }
}

/// The identifier that a counter spells, most significant digit first.
pub open spec fn id_of(s: Seq<int>) -> Seq<char> {
    Seq::new(s.len(), |i: int| id_chars()[s[i]])
}

/// Advances the counter by one step.
pub fn generate_id(current: &mut Vec<usize>)
    requires
        valid_counter(digits(old(current)@)),
    ensures
        digits(final(current)@) == advance(digits(old(current)@)),
        valid_counter(digits(final(current)@)),
{
    let len = current.len();
    if len == 0 {
        current.push(0);
        assert(digits(current@) =~= seq![0int]);
        return;
    }
    let ghost start = digits(old(current)@).update(len - 1, digits(old(current)@).last() + 1);
    let last = current[len - 1] + 1;
    current[len - 1] = last;
    assert(digits(current@) =~= start);
    assert forall|k: int| 0 <= k < len && k != len - 1 implies 0 <= #[trigger] current@[k] <= 51 by {
        assert(digits(old(current)@)[k] == old(current)@[k] as int);
    }
    let mut i: usize = len - 1;
    while i >= 1
        invariant
            current@.len() == len,
            i < len,
            carry(digits(current@), i as int) == carry(start, len - 1),
            forall|k: int| 0 <= k < len && k != i ==> 0 <= #[trigger] current@[k] <= 51,
            current@[i as int] <= 52,
        decreases i,
    {
        if current[i] > 51 {
            let ghost before = digits(current@);
            current[i] = 0;
            let up = current[i - 1] + 1;
            current[i - 1] = up;
            assert(digits(current@) =~= before.update(i as int, 0).update(i - 1, before[i - 1] + 1));
        }
        i -= 1;
    }
    assert(carry(digits(current@), 0) == digits(current@));
    if current[0] > 51 {
        let ghost t = digits(current@);
        current[0] = 0;
        current.insert(0, 0);
        assert(digits(current@) =~= seq![0int] + t.update(0, 0));
    }
}

/// The identifier that a counter spells.
pub fn id_string(current: &Vec<usize>, chars: &Vec<char>) -> (r: Vec<char>)
    requires
        valid_counter(digits(current@)),
        chars@ == id_chars(),
    ensures
        r@ == id_of(digits(current@)),
{
    let mut r: Vec<char> = Vec::new();
    let mut i: usize = 0;
    while i < current.len()
        invariant
            valid_counter(digits(current@)),
            chars@ == id_chars(),
            i <= current.len(),
            r@ == id_of(digits(current@)).subrange(0, i as int),
        decreases current.len() - i,
    {
        assert(0 <= digits(current@)[i as int] <= 51);
        r.push(chars[current[i]]);
        i += 1;
        assert(r@ =~= id_of(digits(current@)).subrange(0, i as int));
    }
    assert(r@ =~= id_of(digits(current@)));
    r
}

proof fn lemma_small_counters(k: nat)
    requires
        1 <= k <= 52,
    ensures
        nth_counter(k) == seq![k - 1],
    decreases k,
{
    if k == 1 {
        assert(nth_counter(0) == Seq::<int>::empty());
    } else {
        lemma_small_counters((k - 1) as nat);
        let s = seq![k - 2];
        assert(s.update(0, s.last() + 1) =~= seq![k - 1]);
    }
}

/// The first 52 generated identifiers are the single letters `a` to `z` then `A` to `Z`, and the
/// 53rd is `aa`.
pub proof fn lemma_generator_order()
    ensures
        forall|k: nat| 1 <= k <= 52 ==> #[trigger] id_of(nth_counter(k)) == seq![id_chars()[k - 1]],
        id_of(nth_counter(53)) == seq!['a', 'a'],
{
    assert forall|k: nat| 1 <= k <= 52 implies #[trigger] id_of(nth_counter(k)) == seq![id_chars()[k - 1]] by {
        lemma_small_counters(k);
        assert(id_of(nth_counter(k)) =~= seq![id_chars()[k - 1]]);
    }
    lemma_small_counters(52);
    let s = seq![51int];
    let u = s.update(0, s.last() + 1);
    assert(carry(u, 0) == u);
    assert(advance(s) =~= seq![0int, 0int]);
    assert(id_of(seq![0int, 0int]) =~= seq!['a', 'a']);
}

/// Letters, digits and `_`: the characters that a `url(` must not follow.
pub open spec fn is_word(c: char) -> bool {
    ('a' <= c && c <= 'z') || ('A' <= c && c <= 'Z') || ('0' <= c && c <= '9') || c == '_'
}

pub open spec fn is_quote(c: char) -> bool {
    c == '"' || c == '\''
}

/// Whether a `url(...)` closes at `k`: by `)`, or by a quote and then `)`.
pub open spec fn closes_at(v: Seq<char>, k: int) -> bool {
    0 <= k < v.len() && (v[k] == ')' || (is_quote(v[k]) && k + 1 < v.len() && v[k + 1] == ')'))
}

/// The length of the shortest target of at least `l` characters that starts at `c`, holds no
/// line feed, and is followed by the closing of the `url(`.
pub open spec fn url_target_len(v: Seq<char>, c: int, l: int) -> Option<int>
    decreases v.len() - (c + l),
{
    if c < 0 || l < 1 || c + l >= v.len() {
        None
    } else if v[c + l - 1] == '\n' {
        None
    } else if closes_at(v, c + l) {
        Some(l)
    } else {
        url_target_len(v, c, l + 1)
    }
}

pub open spec fn url_open() -> Seq<char> {
    seq!['u', 'r', 'l', '(']
}

/// The target of a `url(#target)` that starts at `i`, if one does.
pub open spec fn url_match_at(v: Seq<char>, i: int) -> Option<Seq<char>> {
    if 0 <= i && (i == 0 || !is_word(v[i - 1])) && crate::text::occurs_at(v, url_open(), i) {
        let p = i + 4;
        let h = if p < v.len() && is_quote(v[p]) {
            p + 1
        } else {
            p
        };
        if h < v.len() && v[h] == '#' {
            match url_target_len(v, h + 1, 1) {
                Some(l) => Some(v.subrange(h + 1, h + 1 + l)),
                None => None,
            }
        } else {
            None
        }
    } else {
        None
    }
}

/// The target of the leftmost `url(#target)` at or after `i`.
pub open spec fn url_ref_from(v: Seq<char>, i: int) -> Option<Seq<char>>
    decreases v.len() - i,
{
    if i < 0 || i >= v.len() {
        None
    } else {
        match url_match_at(v, i) {
            Some(x) => Some(x),
            None => url_ref_from(v, i + 1),
        }
    }
}

/// The id that a value of the form `#id` points at.
pub open spec fn href_ref(v: Seq<char>) -> Option<Seq<char>> {
    if v.len() >= 2 && v[0] == '#' && !v.drop_first().contains('\n') {
        Some(v.drop_first())
    } else {
        None
    }
}

/// The position of the first `.` at or after `i`.
pub open spec fn first_dot_from(v: Seq<char>, i: int) -> Option<int>
    decreases v.len() - i,
{
    if i < 0 || i >= v.len() {
        None
    } else if v[i] == '.' {
        Some(i)
    } else {
        first_dot_from(v, i + 1)
    }
}

/// The start of the run of non-digits that ends at `j`.
pub open spec fn run_start(v: Seq<char>, j: int) -> int
    decreases j,
{
    if 0 < j <= v.len() && !crate::text::is_digit(v[j - 1]) {
        run_start(v, j - 1)
    } else {
        j
    }
}

/// The id of a timing value such as `block.mouseover`: the non-digits just before the first `.`.
pub open spec fn begin_ref(v: Seq<char>) -> Option<Seq<char>> {
    match first_dot_from(v, 0) {
        Some(d) => if run_start(v, d) < d {
            Some(v.subrange(run_start(v, d), d))
        } else {
            None
        },
        None => None,
    }
}

pub open spec fn href_name() -> Seq<char> {
    seq!['h', 'r', 'e', 'f']
}

pub open spec fn colon_href() -> Seq<char> {
    seq![':', 'h', 'r', 'e', 'f']
}

pub open spec fn begin_name() -> Seq<char> {
    seq!['b', 'e', 'g', 'i', 'n']
}

pub open spec fn id_name() -> Seq<char> {
    seq!['i', 'd']
}

/// The id that an attribute other than `id` refers to, if any.
pub open spec fn attr_ref(name: Seq<char>, value: Seq<char>) -> Option<Seq<char>> {
    if crate::collections::references_props().contains(name) {
        url_ref_from(value, 0)
    } else if name == href_name() || crate::text::ends_with(name, colon_href()) {
        href_ref(value)
    } else if name == begin_name() {
        begin_ref(value)
    } else {
        None
    }
}

fn url_target_len_exec(v: &Vec<char>, c: usize) -> (r: Option<usize>)
    requires
        c <= v@.len(),
    ensures
        r is Some <==> url_target_len(v@, c as int, 1) is Some,
        r is Some ==> r->0 as int == url_target_len(v@, c as int, 1)->0,
        r is Some ==> c + r->0 < v@.len(),
{
    let mut l: usize = 1;
    while l < v.len() - c
        invariant
            c <= v@.len(),
            l >= 1,
            url_target_len(v@, c as int, l as int) == url_target_len(v@, c as int, 1),
        decreases v.len() - (c + l),
    {
        if v[c + l - 1] == '\n' {
            return None;
        }
        let k = c + l;
        if v[k] == ')' || ((v[k] == '"' || v[k] == '\'') && k + 1 < v.len() && v[k + 1] == ')') {
            return Some(l);
        }
        l += 1;
    }
    None
}

fn is_word_char(c: char) -> (r: bool)
    ensures
        r == is_word(c),
{
    ('a' <= c && c <= 'z') || ('A' <= c && c <= 'Z') || ('0' <= c && c <= '9') || c == '_'
}

/// The target of the leftmost `url(#target)` in `v`.
pub fn url_ref(v: &Vec<char>) -> (r: Option<Vec<char>>)
    ensures
        r is Some <==> url_ref_from(v@, 0) is Some,
        r is Some ==> r->0@ == url_ref_from(v@, 0)->0,
{
    let open = crate::text::chars_of("url(");
    proof {
        reveal_strlit("url(");
        assert(open@ =~= url_open());
    }
    let mut i: usize = 0;
    while i < v.len()
        invariant
            open@ == url_open(),
            i <= v@.len(),
            url_ref_from(v@, i as int) == url_ref_from(v@, 0),
        decreases v.len() - i,
    {
        if (i == 0 || !is_word_char(v[i - 1])) && crate::text::matches_at(v, &open, i) {
            let p = i + 4;
            let h = if p < v.len() && (v[p] == '"' || v[p] == '\'') {
                p + 1
            } else {
                p
            };
            if h < v.len() && v[h] == '#' {
                match url_target_len_exec(v, h + 1) {
                    Some(l) => {
                        return Some(subrange_chars(v, h + 1, h + 1 + l));
                    },
                    None => {},
                }
            }
        }
        i += 1;
    }
    None
}

/// The id that a value of the form `#id` points at.
pub fn href_ref_exec(v: &Vec<char>) -> (r: Option<Vec<char>>)
    ensures
        r is Some <==> href_ref(v@) is Some,
        r is Some ==> r->0@ == href_ref(v@)->0,
{
    if v.len() >= 2 && v[0] == '#' {
        let rest = subrange_chars(v, 1, v.len());
        assert(rest@ =~= v@.drop_first());
        if crate::text::contains_char(&rest, '\n') {
            None
        } else {
            Some(rest)
        }
    } else {
        None
    }
}

/// The id of a timing value: the non-digits just before its first `.`.
pub fn begin_ref_exec(v: &Vec<char>) -> (r: Option<Vec<char>>)
    ensures
        r is Some <==> begin_ref(v@) is Some,
        r is Some ==> r->0@ == begin_ref(v@)->0,
{
    let mut d: usize = 0;
    while d < v.len() && v[d] != '.'
        invariant
            d <= v@.len(),
            first_dot_from(v@, d as int) == first_dot_from(v@, 0),
        decreases v.len() - d,
    {
        d += 1;
    }
    if d == v.len() {
        return None;
    }
    let mut s: usize = d;
    while s > 0 && !crate::text::is_ascii_digit(v[s - 1])
        invariant
            s <= d < v@.len(),
            run_start(v@, s as int) == run_start(v@, d as int),
        decreases s,
    {
        s -= 1;
    }
    if s < d {
        Some(subrange_chars(v, s, d))
    } else {
        None
    }
}

/// The id that the attribute `name="value"` refers to, if any.
pub fn attr_ref_exec(props: &Vec<&'static str>, name: &Vec<char>, value: &Vec<char>) -> (r: Option<Vec<char>>)
    requires
        crate::collections::strs(props@) == crate::collections::references_props(),
    ensures
        r is Some <==> attr_ref(name@, value@) is Some,
        r is Some ==> r->0@ == attr_ref(name@, value@)->0,
{
    proof {
        reveal_strlit("href");
        reveal_strlit(":href");
        reveal_strlit("begin");
    }
    if crate::collections::contains_name(props, name) {
        url_ref(value)
    } else if crate::text::eq_str(name, "href") || crate::text::ends_with_str(name, ":href") {
        proof {
            assert("href"@ =~= href_name());
            assert(":href"@ =~= colon_href());
        }
        href_ref_exec(value)
    } else if crate::text::eq_str(name, "begin") {
        assert("begin"@ =~= begin_name());
        begin_ref_exec(value)
    } else {
        proof {
            assert("href"@ =~= href_name());
            assert(":href"@ =~= colon_href());
            assert("begin"@ =~= begin_name());
        }
        None
    }
}

#[verifier::external_type_specification]
#[verifier::external_body]
#[verifier::reject_recursive_types(K)]
#[verifier::reject_recursive_types(V)]
#[verifier::reject_recursive_types(S)]
pub struct ExLinkedHashMap<K, V, S>(LinkedHashMap<K, V, S>);

/// The keys of an insertion-ordered id map, oldest first.
pub uninterp spec fn id_order(m: LinkedHashMap<String, ()>) -> Seq<Seq<char>>;

/// Relies on `LinkedHashMap::new`: a new map holds no key.
#[verifier::external_body]
fn ids_new() -> (r: LinkedHashMap<String, ()>)
    ensures
        id_order(r) == Seq::<Seq<char>>::empty(),
{
    LinkedHashMap::new()
}

/// Relies on `LinkedHashMap::contains_key`: whether the map holds the key.
#[verifier::external_body]
fn ids_contains(m: &LinkedHashMap<String, ()>, k: &Vec<char>) -> (r: bool)
    ensures
        r == id_order(*m).contains(k@),
{
    m.contains_key(&k.iter().collect::<String>())
}

/// Relies on `LinkedHashMap::insert`: a key that the map does not hold goes last in its order.
#[verifier::external_body]
fn ids_insert(m: &mut LinkedHashMap<String, ()>, k: &Vec<char>)
    requires
        !id_order(*old(m)).contains(k@),
    ensures
        id_order(*final(m)) == id_order(*old(m)).push(k@),
{
    m.insert(k.iter().collect::<String>(), ());
}

/// Relies on `LinkedHashMap::keys`: the keys in order of insertion.
#[verifier::external_body]
fn ids_keys(m: &LinkedHashMap<String, ()>) -> (r: Vec<Vec<char>>)
    ensures
        views(r@) == id_order(*m),
{
    m.keys().map(|k| k.chars().collect::<Vec<char>>()).collect()
}

pub open spec fn views(v: Seq<Vec<char>>) -> Seq<Seq<char>> {
    Seq::new(v.len(), |i: int| v[i]@)
}

proof fn lemma_views_push(v: Seq<Vec<char>>, x: Vec<char>)
    ensures
        views(v.push(x)) == views(v).push(x@),
{
    assert(views(v.push(x)) =~= views(v).push(x@));
}

/// What the first pass gathers: the ids in the order first seen, and every id referred to.
pub struct Graph {
    pub ids: Seq<Seq<char>>,
    pub refs: Seq<Seq<char>>,
}

pub open spec fn value_text(a: AttrV) -> Seq<char> {
    match a.value {
        Some(v) => v,
        None => Seq::empty(),
    }
}

/// The first pass over one element's attributes: records its id and its references, and drops
/// each `id` attribute after the element's first and each whose value an earlier element holds.
pub open spec fn collect_attrs(attrs: Seq<AttrV>, g: Graph, has_id: bool) -> (Seq<AttrV>, Graph)
    decreases attrs.len(),
{
    if attrs.len() == 0 {
        (Seq::empty(), g)
    } else {
        let a = attrs[0];
        let v = value_text(a);
        if a.name == id_name() {
            if has_id || g.ids.contains(v) {
                collect_attrs(attrs.drop_first(), g, has_id)
            } else {
                let r = collect_attrs(attrs.drop_first(), Graph { ids: g.ids.push(v), refs: g.refs }, true);
                (seq![a] + r.0, r.1)
            }
        } else {
            let g1 = match attr_ref(a.name, v) {
                Some(id) => Graph { ids: g.ids, refs: g.refs.push(id) },
                None => g,
            };
            let r = collect_attrs(attrs.drop_first(), g1, has_id);
            (seq![a] + r.0, r.1)
        }
    }
}

/// The first pass over a node, in document order.
pub open spec fn collect_node(n: NodeV, g: Graph) -> (NodeV, Graph)
    decreases n,
{
    match n {
        NodeV::Element(e) => {
            let a = collect_attrs(e.attrs, g, false);
            let c = collect_nodes(e.children, a.1);
            (NodeV::Element(ElemV { tag: e.tag, attrs: a.0, children: c.0 }), c.1)
        },
        _ => (n, g),
    }
}

/// The first pass over a sequence of nodes, left to right.
pub open spec fn collect_nodes(ns: Seq<NodeV>, g: Graph) -> (Seq<NodeV>, Graph)
    decreases ns,
{
    if ns.len() == 0 {
        (Seq::empty(), g)
    } else {
        let h = collect_node(ns[0], g);
        let t = collect_nodes(ns.drop_first(), h.1);
        (seq![h.0] + t.0, t.1)
    }
}

struct Collector {
    ids: LinkedHashMap<String, ()>,
    refs: Vec<Vec<char>>,
}

impl Collector {
    spec fn graph(&self) -> Graph {
        Graph { ids: id_order(self.ids), refs: views(self.refs@) }
    }
}

fn collect_attrs_exec(attrs: &Vec<Attribute>, st: &mut Collector, props: &Vec<&'static str>) -> (r: Vec<Attribute>)
    requires
        strs(props@) == references_props(),
    ensures
        (attrs_view(r@), final(st).graph()) == collect_attrs(attrs_view(attrs@), old(st).graph(), false),
{
    let ghost all = attrs_view(attrs@);
    let ghost g0 = st.graph();
    let mut out: Vec<Attribute> = Vec::new();
    let mut has_id = false;
    let mut i: usize = 0;
    proof {
        assert(all.subrange(0, all.len() as int) =~= all);
        let r = collect_attrs(all, g0, false);
        assert(attrs_view(out@) + r.0 =~= r.0);
    }
    while i < attrs.len()
        invariant
            strs(props@) == references_props(),
            all == attrs_view(attrs@),
            i <= attrs.len(),
            ({
                let r = collect_attrs(all.subrange(i as int, all.len() as int), st.graph(), has_id);
                (attrs_view(out@) + r.0, r.1)
            }) == collect_attrs(all, g0, false),
        decreases attrs.len() - i,
    {
        let ghost rest = all.subrange(i as int, all.len() as int);
        let ghost g = st.graph();
        assert(rest.drop_first() =~= all.subrange(i + 1, all.len() as int));
        assert(rest[0] == attrs@[i as int]@);
        let a = &attrs[i];
        let v = match &a.value {
            Some(x) => crate::text::copy_chars(x),
            None => Vec::new(),
        };
        assert(v@ == value_text(rest[0]));
        let is_id = crate::text::eq_str(&a.name, "id");
        proof {
            reveal_strlit("id");
            assert("id"@ =~= id_name());
        }
        if is_id {
            if has_id || ids_contains(&st.ids, &v) {
            } else {
                ids_insert(&mut st.ids, &v);
                has_id = true;
                let ghost before = out@;
                out.push(a.copy());
                proof {
                    lemma_attrs_view_push(before, out@.last());
                    let r = collect_attrs(rest.drop_first(), st.graph(), true);
                    assert(attrs_view(out@) + r.0 =~= attrs_view(before) + (seq![rest[0]] + r.0));
                }
            }
        } else {
            match attr_ref_exec(props, &a.name, &v) {
                Some(id) => {
                    proof {
                        lemma_views_push(st.refs@, id);
                    }
                    st.refs.push(id);
                },
                None => {},
            }
            let ghost before = out@;
            out.push(a.copy());
            proof {
                lemma_attrs_view_push(before, out@.last());
                let r = collect_attrs(rest.drop_first(), st.graph(), has_id);
                assert(attrs_view(out@) + r.0 =~= attrs_view(before) + (seq![rest[0]] + r.0));
            }
        }
        i += 1;
    }
    proof {
        let rest = all.subrange(i as int, all.len() as int);
        assert(rest.len() == 0);
        assert(attrs_view(out@) + Seq::<AttrV>::empty() =~= attrs_view(out@));
    }
    out
}

fn collect_child(c: &Child, st: &mut Collector, props: &Vec<&'static str>) -> (r: Child)
    requires
        strs(props@) == references_props(),
    ensures
        (node_view(r), final(st).graph()) == collect_node(node_view(*c), old(st).graph()),
    decreases c,
{
    match c {
        Child::Element(e) => {
            let attrs = collect_attrs_exec(&e.attributes, st, props);
            let ghost all = nodes_view(e.children@);
            let ghost g0 = st.graph();
            let mut kids: Vec<Child> = Vec::new();
            let mut i: usize = 0;
            proof {
                assert(all.subrange(0, all.len() as int) =~= all);
                let r = collect_nodes(all, g0);
                assert(nodes_view(kids@) + r.0 =~= r.0);
            }
            while i < e.children.len()
                invariant
                    strs(props@) == references_props(),
                    *c == Child::Element(*e),
                    all == nodes_view(e.children@),
                    i <= e.children.len(),
                    ({
                        let r = collect_nodes(all.subrange(i as int, all.len() as int), st.graph());
                        (nodes_view(kids@) + r.0, r.1)
                    }) == collect_nodes(all, g0),
                decreases e.children.len() - i,
            {
                let ghost rest = all.subrange(i as int, all.len() as int);
                assert(rest.drop_first() =~= all.subrange(i + 1, all.len() as int));
                assert(rest[0] == node_view(e.children@[i as int]));
                proof {
                    lemma_child_decreases(*c, i as int);
                }
                let k = collect_child(&e.children[i], st, props);
                let ghost before = kids@;
                kids.push(k);
                proof {
                    lemma_nodes_view_push(before, k);
                    let r = collect_nodes(rest.drop_first(), st.graph());
                    assert(nodes_view(kids@) + r.0 =~= nodes_view(before) + (seq![node_view(k)] + r.0));
                }
                i += 1;
            }
            proof {
                assert(all.subrange(i as int, all.len() as int).len() == 0);
                assert(nodes_view(kids@) + Seq::<NodeV>::empty() =~= nodes_view(kids@));
            }
            Child::Element(Element { tag_name: crate::text::copy_chars(&e.tag_name), attributes: attrs, children: kids })
        },
        _ => crate::visit::copy_child(c),
    }
}

fn collect_document(d: &Document, st: &mut Collector, props: &Vec<&'static str>) -> (r: Vec<Child>)
    requires
        strs(props@) == references_props(),
    ensures
        (nodes_view(r@), final(st).graph()) == collect_nodes(doc_view(*d), old(st).graph()),
{
    let ghost all = doc_view(*d);
    let ghost g0 = st.graph();
    let mut kids: Vec<Child> = Vec::new();
    let mut i: usize = 0;
    proof {
        assert(all.subrange(0, all.len() as int) =~= all);
        let r = collect_nodes(all, g0);
        assert(nodes_view(kids@) + r.0 =~= r.0);
    }
    while i < d.children.len()
        invariant
            strs(props@) == references_props(),
            all == doc_view(*d),
            i <= d.children.len(),
            ({
                let r = collect_nodes(all.subrange(i as int, all.len() as int), st.graph());
                (nodes_view(kids@) + r.0, r.1)
            }) == collect_nodes(all, g0),
        decreases d.children.len() - i,
    {
        let ghost rest = all.subrange(i as int, all.len() as int);
        assert(rest.drop_first() =~= all.subrange(i + 1, all.len() as int));
        assert(rest[0] == node_view(d.children@[i as int]));
        let k = collect_child(&d.children[i], st, props);
        let ghost before = kids@;
        kids.push(k);
        proof {
            lemma_nodes_view_push(before, k);
            let r = collect_nodes(rest.drop_first(), st.graph());
            assert(nodes_view(kids@) + r.0 =~= nodes_view(before) + (seq![node_view(k)] + r.0));
        }
        i += 1;
    }
    proof {
        assert(all.subrange(i as int, all.len() as int).len() == 0);
        assert(nodes_view(kids@) + Seq::<NodeV>::empty() =~= nodes_view(kids@));
    }
    kids
}

/// Options of the identifier minifier.
pub struct Params {
    /// Drop the ids that nothing refers to.
    pub remove: bool,
    /// Rename the ids that something refers to.
    pub minify: bool,
    /// Ids that are never touched.
    pub preserve: Vec<String>,
    /// Ids that start with one of these are never touched.
    pub preserve_prefixes: Vec<String>,
    /// Go on where `<style>` or `<script>` content, or a document of definitions only, would stop.
    pub force: bool,
}

impl Params {
    /// The default options: remove and minify, preserve nothing, do not force.
    pub fn new() -> (r: Params)
        ensures
            r.remove && r.minify && !r.force,
            r.preserve@.len() == 0 && r.preserve_prefixes@.len() == 0,
    {
        Params { remove: true, minify: true, preserve: Vec::new(), preserve_prefixes: Vec::new(), force: false }
    }
}

/// The options as values.
pub struct ParamsV {
    pub remove: bool,
    pub minify: bool,
    pub preserve: Seq<Seq<char>>,
    pub preserve_prefixes: Seq<Seq<char>>,
    pub force: bool,
}

impl View for Params {
    type V = ParamsV;

    open spec fn view(&self) -> ParamsV {
        ParamsV {
            remove: self.remove,
            minify: self.minify,
            preserve: string_views(self.preserve@),
            preserve_prefixes: string_views(self.preserve_prefixes@),
            force: self.force,
        }
    }
}

pub open spec fn string_views(v: Seq<String>) -> Seq<Seq<char>> {
    Seq::new(v.len(), |i: int| v[i]@)
}

/// Whether `id` is kept as it is: listed exactly, or starting with a listed prefix.
pub open spec fn preserved(pres: Seq<Seq<char>>, prefixes: Seq<Seq<char>>, id: Seq<char>) -> bool {
    pres.contains(id) || exists|i: int| 0 <= i < prefixes.len() && crate::text::starts_with(id, #[trigger] prefixes[i])
}

/// How many preserved candidates the generator passes over for one id before it gives up and
/// leaves that id as it is.
pub const CANDIDATE_LIMIT: u64 = 100000;

/// The counter of the next generated identifier that is not preserved, passing over at most
/// `fuel` preserved ones.
pub open spec fn next_free(s: Seq<int>, pres: Seq<Seq<char>>, prefixes: Seq<Seq<char>>, fuel: nat) -> Option<Seq<int>>
    decreases fuel,
{
    let t = advance(s);
    if !preserved(pres, prefixes, id_of(t)) {
        Some(t)
    } else if fuel == 0 {
        None
    } else {
        next_free(t, pres, prefixes, (fuel - 1) as nat)
    }
}

/// What happens to each id, in the order first seen: `None` drops it, `Some(n)` renames it to
/// `n`; ids that stay as they are have no entry.
pub open spec fn make_plan(
    ids: Seq<Seq<char>>,
    refs: Seq<Seq<char>>,
    remove: bool,
    minify: bool,
    pres: Seq<Seq<char>>,
    prefixes: Seq<Seq<char>>,
    counter: Seq<int>,
) -> Seq<(Seq<char>, Option<Seq<char>>)>
    decreases ids.len(),
{
    if ids.len() == 0 {
        Seq::empty()
    } else {
        let id = ids[0];
        let rest = ids.drop_first();
        if refs.contains(id) {
            if minify && !preserved(pres, prefixes, id) {
                match next_free(counter, pres, prefixes, CANDIDATE_LIMIT as nat) {
                    Some(t) => seq![(id, Some(id_of(t)))] + make_plan(rest, refs, remove, minify, pres, prefixes, t),
                    None => make_plan(rest, refs, remove, minify, pres, prefixes, counter),
                }
            } else {
                make_plan(rest, refs, remove, minify, pres, prefixes, counter)
            }
        } else if remove && !preserved(pres, prefixes, id) {
            seq![(id, None::<Seq<char>>)] + make_plan(rest, refs, remove, minify, pres, prefixes, counter)
        } else {
            make_plan(rest, refs, remove, minify, pres, prefixes, counter)
        }
    }
}

/// The entry of the plan for `id`, if it has one.
pub open spec fn plan_lookup(plan: Seq<(Seq<char>, Option<Seq<char>>)>, id: Seq<char>) -> Option<Option<Seq<char>>>
    decreases plan.len(),
{
    if plan.len() == 0 {
        None
    } else if plan[0].0 == id {
        Some(plan[0].1)
    } else {
        plan_lookup(plan.drop_first(), id)
    }
}

/// A reference to `id`, rewritten to point at `n`.
pub open spec fn rewrite_ref(v: Seq<char>, id: Seq<char>, n: Seq<char>) -> Seq<char> {
    if v.contains('#') {
        crate::text::replace_all(v, seq!['#'] + id, seq!['#'] + n)
    } else {
        crate::text::replace_all(v, id + seq!['.'], n + seq!['.'])
    }
}

/// The second pass over one element's attributes: applies the plan to its id and its references.
pub open spec fn rename_attrs(plan: Seq<(Seq<char>, Option<Seq<char>>)>, attrs: Seq<AttrV>) -> Seq<AttrV>
    decreases attrs.len(),
{
    if attrs.len() == 0 {
        Seq::empty()
    } else {
        let a = attrs[0];
        let rest = rename_attrs(plan, attrs.drop_first());
        let v = value_text(a);
        if a.name == id_name() {
            match plan_lookup(plan, v) {
                Some(None) => rest,
                Some(Some(n)) => seq![AttrV { name: a.name, value: Some(n) }] + rest,
                None => seq![a] + rest,
            }
        } else {
            match attr_ref(a.name, v) {
                Some(id) => match plan_lookup(plan, id) {
                    Some(Some(n)) => seq![AttrV { name: a.name, value: Some(rewrite_ref(v, id, n)) }] + rest,
                    _ => seq![a] + rest,
                },
                None => seq![a] + rest,
            }
        }
    }
}

pub open spec fn plan_view(v: Seq<(Vec<char>, Option<Vec<char>>)>) -> Seq<(Seq<char>, Option<Seq<char>>)> {
    Seq::new(v.len(), |i: int| (v[i].0@, crate::model::opt_view(v[i].1)))
}

/// The second pass of the identifier minifier, as an element rewrite.
pub struct IdsRewrite {
    pub plan: Vec<(Vec<char>, Option<Vec<char>>)>,
}

impl View for IdsRewrite {
    type V = Seq<(Seq<char>, Option<Seq<char>>)>;

    open spec fn view(&self) -> Self::V {
        plan_view(self.plan@)
    }
}

fn plan_lookup_exec(plan: &Vec<(Vec<char>, Option<Vec<char>>)>, id: &Vec<char>) -> (r: Option<Option<Vec<char>>>)
    ensures
        r is Some <==> plan_lookup(plan_view(plan@), id@) is Some,
        r is Some ==> (r->0 is Some <==> plan_lookup(plan_view(plan@), id@)->0 is Some),
        r is Some && r->0 is Some ==> r->0->0@ == plan_lookup(plan_view(plan@), id@)->0->0,
{
    let ghost all = plan_view(plan@);
    let mut i: usize = 0;
    assert(all.subrange(0, all.len() as int) =~= all);
    while i < plan.len()
        invariant
            all == plan_view(plan@),
            i <= plan.len(),
            plan_lookup(all.subrange(i as int, all.len() as int), id@) == plan_lookup(all, id@),
        decreases plan.len() - i,
    {
        let ghost rest = all.subrange(i as int, all.len() as int);
        assert(rest.drop_first() =~= all.subrange(i + 1, all.len() as int));
        if crate::text::eq_chars(&plan[i].0, id) {
            return Some(crate::text::copy_opt(&plan[i].1));
        }
        i += 1;
    }
    None
}

fn rewrite_ref_exec(v: &Vec<char>, id: &Vec<char>, n: &Vec<char>) -> (r: Vec<char>)
    ensures
        r@ == rewrite_ref(v@, id@, n@),
{
    if crate::text::contains_char(v, '#') {
        let mut p: Vec<char> = vec!['#'];
        crate::text::append_chars(&mut p, id);
        let mut q: Vec<char> = vec!['#'];
        crate::text::append_chars(&mut q, n);
        assert(p@ =~= seq!['#'] + id@);
        assert(q@ =~= seq!['#'] + n@);
        crate::text::replace_chars(v, &p, &q)
    } else {
        let mut p = crate::text::copy_chars(id);
        p.push('.');
        let mut q = crate::text::copy_chars(n);
        q.push('.');
        assert(p@ =~= id@ + seq!['.']);
        assert(q@ =~= n@ + seq!['.']);
        crate::text::replace_chars(v, &p, &q)
    }
}

impl crate::visit::ElementRewrite for IdsRewrite {
    open spec fn rewrite_spec(v: Self::V, tag: Seq<char>, attrs: Seq<AttrV>) -> (Seq<char>, Seq<AttrV>) {
        (tag, rename_attrs(v, attrs))
    }

    fn rewrite(&self, tag: &Vec<char>, attrs: &Vec<Attribute>) -> (r: (Vec<char>, Vec<Attribute>)) {
        let props = crate::collections::get_references_props();
        let ghost all = attrs_view(attrs@);
        let ghost plan = self@;
        let mut out: Vec<Attribute> = Vec::new();
        let mut i: usize = attrs.len();
        // built from the back, so that each step prepends to what follows
        let mut rev: Vec<Attribute> = Vec::new();
        proof {
            assert(all.subrange(all.len() as int, all.len() as int) =~= Seq::<AttrV>::empty());
        }
        while i > 0
            invariant
                strs(props@) == references_props(),
                all == attrs_view(attrs@),
                plan == self@,
                i <= attrs.len(),
                attrs_view(rev@).reverse() == rename_attrs(plan, all.subrange(i as int, all.len() as int)),
            decreases i,
        {
            let ghost rest = all.subrange(i - 1, all.len() as int);
            assert(rest.drop_first() =~= all.subrange(i as int, all.len() as int));
            let a = &attrs[i - 1];
            assert(rest[0] == a@);
            let v = match &a.value {
                Some(x) => crate::text::copy_chars(x),
                None => Vec::new(),
            };
            assert(v@ == value_text(rest[0]));
            proof {
                reveal_strlit("id");
                assert("id"@ =~= id_name());
            }
            let ghost before = rev@;
            if crate::text::eq_str(&a.name, "id") {
                match plan_lookup_exec(&self.plan, &v) {
                    Some(None) => {},
                    Some(Some(n)) => {
                        rev.push(Attribute { name: crate::text::copy_chars(&a.name), value: Some(n) });
                    },
                    None => {
                        rev.push(a.copy());
                    },
                }
            } else {
                match attr_ref_exec(&props, &a.name, &v) {
                    Some(id) => match plan_lookup_exec(&self.plan, &id) {
                        Some(Some(n)) => {
                            let nv = rewrite_ref_exec(&v, &id, &n);
                            rev.push(Attribute { name: crate::text::copy_chars(&a.name), value: Some(nv) });
                        },
                        _ => {
                            rev.push(a.copy());
                        },
                    },
                    None => {
                        rev.push(a.copy());
                    },
                }
            }
            proof {
                if rev@.len() > before.len() {
                    lemma_attrs_view_push(before, rev@.last());
                    assert(attrs_view(rev@).reverse() =~= seq![rev@.last()@] + attrs_view(before).reverse());
                }
            }
            i -= 1;
        }
        let mut j: usize = rev.len();
        assert(all.subrange(0, all.len() as int) =~= all);
        let ghost target = attrs_view(rev@).reverse();
        assert(attrs_view(out@) =~= target.subrange(0, 0));
        while j > 0
            invariant
                j <= rev@.len(),
                target == attrs_view(rev@).reverse(),
                attrs_view(out@) == target.subrange(0, rev@.len() - j),
            decreases j,
        {
            let ghost before = out@;
            out.push(rev[j - 1].copy());
            proof {
                lemma_attrs_view_push(before, out@.last());
                assert(attrs_view(out@) =~= target.subrange(0, rev@.len() - j + 1));
            }
            j -= 1;
        }
        assert(attrs_view(out@) =~= target);
        (crate::text::copy_chars(tag), out)
    }
}

fn contains_chars(list: &Vec<Vec<char>>, x: &Vec<char>) -> (r: bool)
    ensures
        r == views(list@).contains(x@),
{
    let mut i: usize = 0;
    while i < list.len()
        invariant
            i <= list.len(),
            forall|k: int| 0 <= k < i ==> list@[k]@ != x@,
        decreases list.len() - i,
    {
        if crate::text::eq_chars(&list[i], x) {
            assert(views(list@)[i as int] == x@);
            return true;
        }
        i += 1;
    }
    assert(!views(list@).contains(x@)) by {
        if views(list@).contains(x@) {
            let k = choose|k: int| 0 <= k < views(list@).len() && views(list@)[k] == x@;
            assert(list@[k]@ == x@);
        }
    }
    false
}

fn is_preserved(pres: &Vec<Vec<char>>, prefixes: &Vec<Vec<char>>, id: &Vec<char>) -> (r: bool)
    ensures
        r == preserved(views(pres@), views(prefixes@), id@),
{
    if contains_chars(pres, id) {
        return true;
    }
    let mut i: usize = 0;
    while i < prefixes.len()
        invariant
            i <= prefixes.len(),
            forall|k: int| 0 <= k < i ==> !crate::text::starts_with(id@, #[trigger] views(prefixes@)[k]),
        decreases prefixes.len() - i,
    {
        if crate::text::starts_with_chars(id, &prefixes[i]) {
            assert(crate::text::starts_with(id@, views(prefixes@)[i as int]));
            return true;
        }
        i += 1;
    }
    false
}

fn strings_to_chars(v: &Vec<String>) -> (r: Vec<Vec<char>>)
    ensures
        views(r@) == string_views(v@),
{
    let mut r: Vec<Vec<char>> = Vec::new();
    let mut i: usize = 0;
    while i < v.len()
        invariant
            i <= v.len(),
            r@.len() == i,
            forall|k: int| 0 <= k < i ==> #[trigger] r@[k]@ == v@[k]@,
        decreases v.len() - i,
    {
        r.push(crate::text::chars_of(v[i].as_str()));
        i += 1;
    }
    assert(views(r@) =~= string_views(v@));
    r
}

/// Advances the counter to the next identifier that is not preserved; gives `false`, with the
/// counter as it was, where more than the limit of preserved candidates come first.
fn next_free_exec(current: &mut Vec<usize>, pres: &Vec<Vec<char>>, prefixes: &Vec<Vec<char>>, chars: &Vec<char>) -> (r: bool)
    requires
        valid_counter(digits(old(current)@)),
        chars@ == id_chars(),
    ensures
        valid_counter(digits(final(current)@)),
        r == next_free(digits(old(current)@), views(pres@), views(prefixes@), CANDIDATE_LIMIT as nat) is Some,
        r ==> digits(final(current)@) == next_free(digits(old(current)@), views(pres@), views(prefixes@), CANDIDATE_LIMIT as nat)->0,
        !r ==> final(current)@ == old(current)@,
{
    let saved = clone_counter(current);
    let mut fuel: u64 = CANDIDATE_LIMIT;
    loop
        invariant
            valid_counter(digits(current@)),
            chars@ == id_chars(),
            saved@ == old(current)@,
            valid_counter(digits(saved@)),
            fuel <= CANDIDATE_LIMIT,
            next_free(digits(current@), views(pres@), views(prefixes@), fuel as nat) == next_free(digits(old(current)@), views(pres@), views(prefixes@), CANDIDATE_LIMIT as nat),
        decreases fuel,
    {
        generate_id(current);
        let s = id_string(current, chars);
        if !is_preserved(pres, prefixes, &s) {
            return true;
        }
        if fuel == 0 {
            *current = saved;
            return false;
        }
        fuel -= 1;
    }
}

fn clone_counter(v: &Vec<usize>) -> (r: Vec<usize>)
    ensures
        r@ == v@,
{
    let mut r: Vec<usize> = Vec::new();
    let mut i: usize = 0;
    while i < v.len()
        invariant
            i <= v.len(),
            r@ == v@.subrange(0, i as int),
        decreases v.len() - i,
    {
        r.push(v[i]);
        i += 1;
        assert(r@ =~= v@.subrange(0, i as int));
    }
    assert(r@ =~= v@);
    r
}

fn make_plan_exec(ids: &Vec<Vec<char>>, refs: &Vec<Vec<char>>, params: &Params) -> (r: Vec<(Vec<char>, Option<Vec<char>>)>)
    ensures
        plan_view(r@) == make_plan(
            views(ids@),
            views(refs@),
            params.remove,
            params.minify,
            string_views(params.preserve@),
            string_views(params.preserve_prefixes@),
            Seq::empty(),
        ),
{
    let pres = strings_to_chars(&params.preserve);
    let prefixes = strings_to_chars(&params.preserve_prefixes);
    let chars = get_generate_id_chars();
    let ghost all = views(ids@);
    let ghost pv = views(pres@);
    let ghost xv = views(prefixes@);
    let ghost target = make_plan(all, views(refs@), params.remove, params.minify, pv, xv, Seq::empty());
    let mut current: Vec<usize> = Vec::new();
    let mut out: Vec<(Vec<char>, Option<Vec<char>>)> = Vec::new();
    let mut i: usize = 0;
    proof {
        assert(all.subrange(0, all.len() as int) =~= all);
        assert(digits(current@) =~= Seq::<int>::empty());
        assert(plan_view(out@) + target =~= target);
    }
    while i < ids.len()
        invariant
            all == views(ids@),
            pv == views(pres@),
            xv == views(prefixes@),
            chars@ == id_chars(),
            valid_counter(digits(current@)),
            i <= ids.len(),
            target == make_plan(all, views(refs@), params.remove, params.minify, pv, xv, Seq::empty()),
            plan_view(out@) + make_plan(
                all.subrange(i as int, all.len() as int),
                views(refs@),
                params.remove,
                params.minify,
                pv,
                xv,
                digits(current@),
            ) == target,
        decreases ids.len() - i,
    {
        let ghost rest = all.subrange(i as int, all.len() as int);
        let ghost counter = digits(current@);
        assert(rest.drop_first() =~= all.subrange(i + 1, all.len() as int));
        assert(rest[0] == ids@[i as int]@);
        let id = &ids[i];
        let ghost before = out@;
        if contains_chars(refs, id) {
            if params.minify && !is_preserved(&pres, &prefixes, id) {
                if next_free_exec(&mut current, &pres, &prefixes, &chars) {
                    let s = id_string(&current, &chars);
                    out.push((crate::text::copy_chars(id), Some(s)));
                    proof {
                        assert(plan_view(out@) =~= plan_view(before).push((rest[0], Some(id_of(digits(current@))))));
                        let tail = make_plan(rest.drop_first(), views(refs@), params.remove, params.minify, pv, xv, digits(current@));
                        assert(plan_view(out@) + tail =~= plan_view(before) + (seq![(rest[0], Some(id_of(digits(current@))))] + tail));
                    }
                }
            }
        } else if params.remove && !is_preserved(&pres, &prefixes, id) {
            out.push((crate::text::copy_chars(id), None));
            proof {
                assert(plan_view(out@) =~= plan_view(before).push((rest[0], None::<Seq<char>>)));
                let tail = make_plan(rest.drop_first(), views(refs@), params.remove, params.minify, pv, xv, digits(current@));
                assert(plan_view(out@) + tail =~= plan_view(before) + (seq![(rest[0], None::<Seq<char>>)] + tail));
            }
        }
        i += 1;
    }
    proof {
        assert(all.subrange(i as int, all.len() as int).len() == 0);
        assert(plan_view(out@) + Seq::<(Seq<char>, Option<Seq<char>>)>::empty() =~= plan_view(out@));
    }
    out
}

pub open spec fn style_name() -> Seq<char> {
    seq!['s', 't', 'y', 'l', 'e']
}

pub open spec fn script_name() -> Seq<char> {
    seq!['s', 'c', 'r', 'i', 'p', 't']
}

pub open spec fn svg_name() -> Seq<char> {
    seq!['s', 'v', 'g']
}

pub open spec fn defs_name() -> Seq<char> {
    seq!['d', 'e', 'f', 's']
}

/// Whether a `<style>` or `<script>` with content stands in the tree `n`.
pub open spec fn scripted(n: NodeV) -> bool
    decreases n,
{
    match n {
        NodeV::Element(e) => ((e.tag == style_name() || e.tag == script_name()) && e.children.len() > 0)
            || scripted_in(e.children),
        _ => false,
    }
}

/// Whether a `<style>` or `<script>` with content stands in one of the trees `ns`.
pub open spec fn scripted_in(ns: Seq<NodeV>) -> bool
    decreases ns,
{
    ns.len() > 0 && (scripted(ns[0]) || scripted_in(ns.drop_first()))
}

/// The first element among the nodes: the document's root.
pub open spec fn first_element(ns: Seq<NodeV>) -> Option<ElemV>
    decreases ns.len(),
{
    if ns.len() == 0 {
        None
    } else if ns[0] is Element {
        Some(ns[0]->Element_0)
    } else {
        first_element(ns.drop_first())
    }
}

pub open spec fn defs_or_blank(n: NodeV) -> bool {
    match n {
        NodeV::Element(c) => c.tag == defs_name(),
        NodeV::Text(t) => crate::text::trim(t).len() == 0,
        _ => false,
    }
}

/// Whether `e` is an `<svg>` that holds only `<defs>` and blank text.
pub open spec fn defs_only(e: ElemV) -> bool {
    e.tag == svg_name() && forall|i: int| 0 <= i < e.children.len() ==> #[trigger] defs_or_blank(e.children[i])
}

/// Whether the minifier leaves the document as it is, unless forced.
pub open spec fn deoptimized(d: Seq<NodeV>) -> bool {
    scripted_in(d) || (first_element(d) is Some && defs_only(first_element(d)->0))
}

/// The plan that the first pass of the document `d` leads to.
pub open spec fn plan_of(d: Seq<NodeV>, p: ParamsV) -> Seq<(Seq<char>, Option<Seq<char>>)> {
    let c = collect_nodes(d, Graph { ids: Seq::empty(), refs: Seq::empty() });
    make_plan(c.1.ids, c.1.refs, p.remove, p.minify, p.preserve, p.preserve_prefixes, Seq::empty())
}

/// The document after the identifier minifier.
pub open spec fn cleanup_ids(d: Seq<NodeV>, p: ParamsV) -> Seq<NodeV> {
    if !p.force && deoptimized(d) {
        d
    } else {
        let c = collect_nodes(d, Graph { ids: Seq::empty(), refs: Seq::empty() });
        crate::visit::rewrite_nodes::<IdsRewrite>(plan_of(d, p), c.0)
    }
}

fn is_scripted(c: &Child) -> (r: bool)
    ensures
        r == scripted(node_view(*c)),
    decreases c,
{
    match c {
        Child::Element(e) => {
            proof {
                reveal_strlit("style");
                reveal_strlit("script");
                assert("style"@ =~= style_name());
                assert("script"@ =~= script_name());
            }
            let ghost ev = elem_view(*e);
            assert(node_view(*c) == NodeV::Element(ev));
            if (crate::text::eq_str(&e.tag_name, "style") || crate::text::eq_str(&e.tag_name, "script"))
                && e.children.len() != 0 {
                return true;
            }
            let mut i: usize = 0;
            assert(ev.children.subrange(0, ev.children.len() as int) =~= ev.children);
            while i < e.children.len()
                invariant
                    *c == Child::Element(*e),
                    ev == elem_view(*e),
                    i <= e.children.len(),
                    scripted_in(ev.children.subrange(i as int, ev.children.len() as int)) == scripted_in(ev.children),
                    scripted(node_view(*c)) == scripted_in(ev.children),
                decreases e.children.len() - i,
            {
                let ghost rest = ev.children.subrange(i as int, ev.children.len() as int);
                assert(rest.drop_first() =~= ev.children.subrange(i + 1, ev.children.len() as int));
                assert(rest[0] == node_view(e.children@[i as int]));
                proof {
                    lemma_child_decreases(*c, i as int);
                }
                if is_scripted(&e.children[i]) {
                    return true;
                }
                i += 1;
            }
            false
        },
        _ => false,
    }
}

fn is_defs_only(e: &Element) -> (r: bool)
    ensures
        r == defs_only(elem_view(*e)),
{
    let ghost ev = elem_view(*e);
    proof {
        reveal_strlit("svg");
        reveal_strlit("defs");
        assert("svg"@ =~= svg_name());
        assert("defs"@ =~= defs_name());
    }
    if !crate::text::eq_str(&e.tag_name, "svg") {
        return false;
    }
    let mut i: usize = 0;
    while i < e.children.len()
        invariant
            ev == elem_view(*e),
            i <= e.children.len(),
            forall|k: int| 0 <= k < i ==> #[trigger] defs_or_blank(ev.children[k]),
            "defs"@ == defs_name(),
        decreases e.children.len() - i,
    {
        assert(ev.children[i as int] == node_view(e.children@[i as int]));
        let ok = match &e.children[i] {
            Child::Element(c) => {
                assert(node_view(e.children@[i as int]) == NodeV::Element(elem_view(*c)));
                let b = crate::text::eq_str(&c.tag_name, "defs");
                assert(b == defs_or_blank(ev.children[i as int]));
                b
            },
            Child::Text(t) => {
                assert(node_view(e.children@[i as int]) == NodeV::Text(t@));
                let tt = crate::text::trim_chars(t);
                assert(tt@.len() == tt.len());
                let b = tt.len() == 0;
                assert(b == defs_or_blank(ev.children[i as int]));
                b
            },
            _ => {
                assert(!defs_or_blank(ev.children[i as int]));
                false
            },
        };
        assert(ok == defs_or_blank(ev.children[i as int]));
        if !ok {
            return false;
        }
        i += 1;
    }
    true
}

fn is_deoptimized(d: &Document) -> (r: bool)
    ensures
        r == deoptimized(doc_view(*d)),
{
    let ghost dv = doc_view(*d);
    let mut i: usize = 0;
    assert(dv.subrange(0, dv.len() as int) =~= dv);
    while i < d.children.len()
        invariant
            dv == doc_view(*d),
            i <= d.children.len(),
            scripted_in(dv.subrange(i as int, dv.len() as int)) == scripted_in(dv),
        decreases d.children.len() - i,
    {
        let ghost rest = dv.subrange(i as int, dv.len() as int);
        assert(rest.drop_first() =~= dv.subrange(i + 1, dv.len() as int));
        assert(rest[0] == node_view(d.children@[i as int]));
        if is_scripted(&d.children[i]) {
            return true;
        }
        i += 1;
    }
    let mut j: usize = 0;
    assert(dv.subrange(0, dv.len() as int) =~= dv);
    while j < d.children.len()
        invariant
            dv == doc_view(*d),
            j <= d.children.len(),
            !scripted_in(dv),
            first_element(dv.subrange(j as int, dv.len() as int)) == first_element(dv),
        decreases d.children.len() - j,
    {
        let ghost rest = dv.subrange(j as int, dv.len() as int);
        assert(rest.drop_first() =~= dv.subrange(j + 1, dv.len() as int));
        match &d.children[j] {
            Child::Element(e) => {
                assert(rest[0] == NodeV::Element(elem_view(*e)));
                return is_defs_only(e);
            },
            _ => {},
        }
        j += 1;
    }
    false
}

/// Removes the ids that nothing refers to and renames the referenced ones to the shortest
/// free identifiers, chasing every reference.
pub fn apply(doc: &mut Document, params: &Params)
    ensures
        doc_view(*final(doc)) == cleanup_ids(doc_view(*old(doc)), params@),
{
    if !params.force && is_deoptimized(doc) {
        return;
    }
    let props = crate::collections::get_references_props();
    let mut st = Collector { ids: ids_new(), refs: Vec::new() };
    proof {
        assert(views(st.refs@) =~= Seq::<Seq<char>>::empty());
        assert(st.graph() == Graph { ids: Seq::<Seq<char>>::empty(), refs: Seq::<Seq<char>>::empty() });
    }
    let kids = collect_document(doc, &mut st, &props);
    let keys = ids_keys(&st.ids);
    let plan = make_plan_exec(&keys, &st.refs, params);
    let rw = IdsRewrite { plan };
    let out = crate::visit::rewrite_children(&rw, &kids);
    doc.children = out;
}

/// The number that a counter stands for in bijective base 52: each digit `d` counts `d + 1`.
pub open spec fn counter_value(s: Seq<int>) -> int
    decreases s.len(),
{
    if s.len() == 0 {
        0
    } else {
        counter_value(s.drop_last()) * 52 + s.last() + 1
    }
}

proof fn lemma_carry_push(q: Seq<int>, x: int, k: int)
    requires
        k < q.len(),
    ensures
        carry(q.push(x), k) == carry(q, k).push(x),
    decreases k,
{
    if k >= 1 {
        if q[k] > 51 {
            let q2 = q.update(k, 0).update(k - 1, q[k - 1] + 1);
            assert(q.push(x).update(k, 0).update(k - 1, q.push(x)[k - 1] + 1) =~= q2.push(x));
            lemma_carry_push(q2, x, k - 1);
        } else {
            lemma_carry_push(q, x, k - 1);
        }
    }
}

proof fn lemma_carry_valid(q: Seq<int>, k: int)
    requires
        valid_counter(q),
    ensures
        carry(q, k) == q,
    decreases k,
{
    if k >= 1 && k < q.len() {
        lemma_carry_valid(q, k - 1);
    }
}

proof fn lemma_advance_push(p: Seq<int>, d: int)
    requires
        valid_counter(p),
        0 <= d <= 51,
    ensures
        d < 51 ==> advance(p.push(d)) == p.push(d + 1),
        d == 51 ==> advance(p.push(d)) == advance(p).push(0),
{
    let s = p.push(d);
    let t = s.update(s.len() - 1, s.last() + 1);
    assert(t =~= p.push(d + 1));
    if p.len() == 0 {
        assert(carry(t, 0) == t);
        if d == 51 {
            assert(advance(s) =~= seq![0int, 0int]);
            assert(advance(p) =~= seq![0int]);
            assert(advance(p).push(0) =~= seq![0int, 0int]);
        }
    } else if d < 51 {
        lemma_carry_push(p, d + 1, p.len() - 1);
        lemma_carry_valid(p, p.len() - 1);
        assert(carry(t, p.len() as int) == carry(t, p.len() - 1));
        assert(t[0] == p[0]);
    } else {
        let u = p.update(p.len() - 1, p.last() + 1);
        assert(t.update(p.len() as int, 0).update(p.len() - 1, t[p.len() - 1] + 1) =~= u.push(0));
        lemma_carry_push(u, 0, p.len() - 1);
        let c = carry(u, p.len() - 1);
        assert(carry(t, p.len() as int) == c.push(0));
        lemma_carry_len(u, p.len() - 1);
        assert(c.push(0)[0] == c[0]);
        if c[0] > 51 {
            assert(seq![0int] + c.push(0).update(0, 0) =~= (seq![0int] + c.update(0, 0)).push(0));
        }
    }
}

proof fn lemma_carry_len(q: Seq<int>, k: int)
    ensures
        carry(q, k).len() == q.len(),
    decreases k,
{
    if k >= 1 && k < q.len() {
        if q[k] > 51 {
            lemma_carry_len(q.update(k, 0).update(k - 1, q[k - 1] + 1), k - 1);
        } else {
            lemma_carry_len(q, k - 1);
        }
    }
}

/// One step of the counter keeps it valid and adds one to the number it stands for.
pub proof fn lemma_advance_counts(s: Seq<int>)
    requires
        valid_counter(s),
    ensures
        valid_counter(advance(s)),
        counter_value(advance(s)) == counter_value(s) + 1,
    decreases s.len(),
{
    if s.len() == 0 {
        assert(advance(s) =~= seq![0int]);
        assert(seq![0int].drop_last() =~= Seq::<int>::empty());
        assert(counter_value(seq![0int]) == counter_value(Seq::<int>::empty()) * 52 + 0 + 1);
    } else {
        let p = s.drop_last();
        let d = s.last();
        assert(s =~= p.push(d));
        assert(valid_counter(p));
        lemma_advance_push(p, d);
        assert(counter_value(s) == counter_value(p) * 52 + d + 1);
        if d < 51 {
            assert(p.push(d + 1).drop_last() =~= p);
            assert(counter_value(p.push(d + 1)) == counter_value(p) * 52 + d + 2);
        } else {
            lemma_advance_counts(p);
            let a = advance(p);
            assert(a.push(0).drop_last() =~= a);
            assert(valid_counter(a.push(0)));
            assert(counter_value(a.push(0)) == counter_value(a) * 52 + 1);
        }
    }
}

/// After `n` steps the counter is valid and stands for `n`.
pub proof fn lemma_nth_counter(n: nat)
    ensures
        valid_counter(nth_counter(n)),
        counter_value(nth_counter(n)) == n,
    decreases n,
{
    if n > 0 {
        lemma_nth_counter((n - 1) as nat);
        lemma_advance_counts(nth_counter((n - 1) as nat));
    }
}

/// Valid counters that stand for the same number are equal.
pub proof fn lemma_counter_value_injective(s: Seq<int>, t: Seq<int>)
    requires
        valid_counter(s),
        valid_counter(t),
        counter_value(s) == counter_value(t),
    ensures
        s == t,
    decreases s.len() + t.len(),
{
    if s.len() == 0 && t.len() == 0 {
        assert(s =~= t);
    } else if s.len() == 0 {
        lemma_counter_value_nonneg(t.drop_last());
        assert(counter_value(t) >= 1);
    } else if t.len() == 0 {
        lemma_counter_value_nonneg(s.drop_last());
        assert(counter_value(s) >= 1);
    } else {
        let a = counter_value(s.drop_last());
        let b = counter_value(t.drop_last());
        let x = s.last();
        let y = t.last();
        lemma_counter_value_nonneg(s.drop_last());
        lemma_counter_value_nonneg(t.drop_last());
        assert(0 <= x <= 51 && 0 <= y <= 51);
        assert(a * 52 + x == b * 52 + y);
        assert(a == b && x == y) by (nonlinear_arith)
            requires
                a * 52 + x == b * 52 + y,
                0 <= x <= 51,
                0 <= y <= 51,
                a >= 0,
                b >= 0,
        {
            if a < b {
                assert(a * 52 + 52 <= b * 52);
            } else if b < a {
                assert(b * 52 + 52 <= a * 52);
            }
        }
        lemma_counter_value_injective(s.drop_last(), t.drop_last());
        assert(s =~= s.drop_last().push(x));
        assert(t =~= t.drop_last().push(y));
    }
}

proof fn lemma_counter_value_nonneg(s: Seq<int>)
    requires
        valid_counter(s),
    ensures
        counter_value(s) >= 0,
    decreases s.len(),
{
    if s.len() > 0 {
        lemma_counter_value_nonneg(s.drop_last());
    }
}

/// The position of a letter in `id_chars`.
pub open spec fn letter_index(c: char) -> int {
    if 'a' <= c && c <= 'z' {
        c as u32 - 'a' as u32
    } else if 'A' <= c && c <= 'Z' {
        c as u32 - 'A' as u32 + 26
    } else {
        -1
    }
}

proof fn lemma_id_chars_indexed()
    ensures
        forall|i: int| 0 <= i < 52 ==> letter_index(#[trigger] id_chars()[i]) == i,
{
    assert(letter_index(id_chars()[0]) == 0);
    assert(letter_index(id_chars()[1]) == 1);
    assert(letter_index(id_chars()[2]) == 2);
    assert(letter_index(id_chars()[3]) == 3);
    assert(letter_index(id_chars()[4]) == 4);
    assert(letter_index(id_chars()[5]) == 5);
    assert(letter_index(id_chars()[6]) == 6);
    assert(letter_index(id_chars()[7]) == 7);
    assert(letter_index(id_chars()[8]) == 8);
    assert(letter_index(id_chars()[9]) == 9);
    assert(letter_index(id_chars()[10]) == 10);
    assert(letter_index(id_chars()[11]) == 11);
    assert(letter_index(id_chars()[12]) == 12);
    assert(letter_index(id_chars()[13]) == 13);
    assert(letter_index(id_chars()[14]) == 14);
    assert(letter_index(id_chars()[15]) == 15);
    assert(letter_index(id_chars()[16]) == 16);
    assert(letter_index(id_chars()[17]) == 17);
    assert(letter_index(id_chars()[18]) == 18);
    assert(letter_index(id_chars()[19]) == 19);
    assert(letter_index(id_chars()[20]) == 20);
    assert(letter_index(id_chars()[21]) == 21);
    assert(letter_index(id_chars()[22]) == 22);
    assert(letter_index(id_chars()[23]) == 23);
    assert(letter_index(id_chars()[24]) == 24);
    assert(letter_index(id_chars()[25]) == 25);
    assert(letter_index(id_chars()[26]) == 26);
    assert(letter_index(id_chars()[27]) == 27);
    assert(letter_index(id_chars()[28]) == 28);
    assert(letter_index(id_chars()[29]) == 29);
    assert(letter_index(id_chars()[30]) == 30);
    assert(letter_index(id_chars()[31]) == 31);
    assert(letter_index(id_chars()[32]) == 32);
    assert(letter_index(id_chars()[33]) == 33);
    assert(letter_index(id_chars()[34]) == 34);
    assert(letter_index(id_chars()[35]) == 35);
    assert(letter_index(id_chars()[36]) == 36);
    assert(letter_index(id_chars()[37]) == 37);
    assert(letter_index(id_chars()[38]) == 38);
    assert(letter_index(id_chars()[39]) == 39);
    assert(letter_index(id_chars()[40]) == 40);
    assert(letter_index(id_chars()[41]) == 41);
    assert(letter_index(id_chars()[42]) == 42);
    assert(letter_index(id_chars()[43]) == 43);
    assert(letter_index(id_chars()[44]) == 44);
    assert(letter_index(id_chars()[45]) == 45);
    assert(letter_index(id_chars()[46]) == 46);
    assert(letter_index(id_chars()[47]) == 47);
    assert(letter_index(id_chars()[48]) == 48);
    assert(letter_index(id_chars()[49]) == 49);
    assert(letter_index(id_chars()[50]) == 50);
    assert(letter_index(id_chars()[51]) == 51);
    assert forall|i: int| 0 <= i < 52 implies letter_index(#[trigger] id_chars()[i]) == i by {
        assert(i == 0 || i == 1 || i == 2 || i == 3 || i == 4 || i == 5 || i == 6 || i == 7 || i == 8 || i == 9 || i == 10 || i == 11 || i == 12 || i == 13 || i == 14 || i == 15 || i == 16 || i == 17 || i == 18 || i == 19 || i == 20 || i == 21 || i == 22 || i == 23 || i == 24 || i == 25 || i == 26 || i == 27 || i == 28 || i == 29 || i == 30 || i == 31 || i == 32 || i == 33 || i == 34 || i == 35 || i == 36 || i == 37 || i == 38 || i == 39 || i == 40 || i == 41 || i == 42 || i == 43 || i == 44 || i == 45 || i == 46 || i == 47 || i == 48 || i == 49 || i == 50 || i == 51);
    }
}

/// Valid counters that spell the same identifier are equal.
pub proof fn lemma_id_of_injective(s: Seq<int>, t: Seq<int>)
    requires
        valid_counter(s),
        valid_counter(t),
        id_of(s) == id_of(t),
    ensures
        s == t,
{
    lemma_id_chars_indexed();
    assert(s.len() == id_of(s).len());
    assert forall|i: int| 0 <= i < s.len() implies s[i] == t[i] by {
        assert(id_of(s)[i] == id_chars()[s[i]]);
        assert(id_of(t)[i] == id_chars()[t[i]]);
        assert(0 <= s[i] <= 51 && 0 <= t[i] <= 51);
    }
    assert(s =~= t);
}

/// Different numbers of steps spell different identifiers.
pub proof fn lemma_generated_ids_distinct(m: nat, n: nat)
    requires
        m != n,
    ensures
        id_of(nth_counter(m)) != id_of(nth_counter(n)),
{
    lemma_nth_counter(m);
    lemma_nth_counter(n);
    if id_of(nth_counter(m)) == id_of(nth_counter(n)) {
        lemma_id_of_injective(nth_counter(m), nth_counter(n));
    }
}

proof fn lemma_next_free(s: Seq<int>, pres: Seq<Seq<char>>, prefixes: Seq<Seq<char>>, fuel: nat)
    requires
        valid_counter(s),
    ensures
        next_free(s, pres, prefixes, fuel) is Some ==> ({
            let t = next_free(s, pres, prefixes, fuel)->0;
            valid_counter(t) && counter_value(t) > counter_value(s) && !preserved(pres, prefixes, id_of(t))
        }),
    decreases fuel,
{
    lemma_advance_counts(s);
    if fuel > 0 {
        lemma_next_free(advance(s), pres, prefixes, (fuel - 1) as nat);
    }
}

/// Whether `name` is spelled by a valid counter that stands for more than `v`.
pub open spec fn generated_after(name: Seq<char>, v: int) -> bool {
    exists|u: Seq<int>| valid_counter(u) && counter_value(u) > v && #[trigger] id_of(u) == name
}

proof fn lemma_plan_names(
    ids: Seq<Seq<char>>,
    refs: Seq<Seq<char>>,
    remove: bool,
    minify: bool,
    pres: Seq<Seq<char>>,
    prefixes: Seq<Seq<char>>,
    c: Seq<int>,
)
    requires
        valid_counter(c),
    ensures
        ({
            let plan = make_plan(ids, refs, remove, minify, pres, prefixes, c);
            &&& forall|k: int| 0 <= k < plan.len() && (#[trigger] plan[k]).1 is Some ==> generated_after(plan[k].1->0, counter_value(c))
                && !preserved(pres, prefixes, plan[k].1->0)
            &&& forall|k: int, l: int| 0 <= k < l < plan.len() && (#[trigger] plan[k]).1 is Some && (#[trigger] plan[l]).1 is Some ==> plan[k].1->0 != plan[l].1->0
        }),
    decreases ids.len(),
{
    if ids.len() > 0 {
        let id = ids[0];
        let rest = ids.drop_first();
        if refs.contains(id) && minify && !preserved(pres, prefixes, id) {
            lemma_next_free(c, pres, prefixes, CANDIDATE_LIMIT as nat);
            match next_free(c, pres, prefixes, CANDIDATE_LIMIT as nat) {
                Some(t) => {
                    lemma_plan_names(rest, refs, remove, minify, pres, prefixes, t);
                    let tail = make_plan(rest, refs, remove, minify, pres, prefixes, t);
                    let plan = make_plan(ids, refs, remove, minify, pres, prefixes, c);
                    assert(plan == seq![(id, Some(id_of(t)))] + tail);
                    assert forall|k: int| 0 <= k < plan.len() && (#[trigger] plan[k]).1 is Some implies generated_after(plan[k].1->0, counter_value(c))
                        && !preserved(pres, prefixes, plan[k].1->0) by {
                        if k == 0 {
                            assert(id_of(t) == plan[k].1->0);
                        } else {
                            assert(plan[k] == tail[k - 1]);
                            let u = choose|u: Seq<int>| valid_counter(u) && counter_value(u) > counter_value(t) && #[trigger] id_of(u) == tail[k - 1].1->0;
                            assert(id_of(u) == plan[k].1->0);
                        }
                    }
                    assert forall|k: int, l: int| 0 <= k < l < plan.len() && (#[trigger] plan[k]).1 is Some && (#[trigger] plan[l]).1 is Some implies plan[k].1->0 != plan[l].1->0 by {
                        if k == 0 {
                            assert(plan[l] == tail[l - 1]);
                            let u = choose|u: Seq<int>| valid_counter(u) && counter_value(u) > counter_value(t) && #[trigger] id_of(u) == tail[l - 1].1->0;
                            if id_of(u) == id_of(t) {
                                lemma_id_of_injective(u, t);
                            }
                        } else {
                            assert(plan[k] == tail[k - 1]);
                            assert(plan[l] == tail[l - 1]);
                        }
                    }
                },
                None => {
                    lemma_plan_names(rest, refs, remove, minify, pres, prefixes, c);
                },
            }
        } else if !refs.contains(id) && remove && !preserved(pres, prefixes, id) {
            lemma_plan_names(rest, refs, remove, minify, pres, prefixes, c);
            let tail = make_plan(rest, refs, remove, minify, pres, prefixes, c);
            let plan = make_plan(ids, refs, remove, minify, pres, prefixes, c);
            assert(plan == seq![(id, None::<Seq<char>>)] + tail);
            assert forall|k: int| 0 <= k < plan.len() && (#[trigger] plan[k]).1 is Some implies generated_after(plan[k].1->0, counter_value(c))
                && !preserved(pres, prefixes, plan[k].1->0) by {
                assert(plan[k] == tail[k - 1]);
            }
            assert forall|k: int, l: int| 0 <= k < l < plan.len() && (#[trigger] plan[k]).1 is Some && (#[trigger] plan[l]).1 is Some implies plan[k].1->0 != plan[l].1->0 by {
                assert(plan[k] == tail[k - 1]);
                assert(plan[l] == tail[l - 1]);
            }
        } else {
            lemma_plan_names(rest, refs, remove, minify, pres, prefixes, c);
        }
    }
}

/// The names that a rename plan gives are pairwise distinct, and none of them is preserved.
pub proof fn lemma_plan_names_distinct(d: Seq<NodeV>, p: ParamsV)
    ensures
        forall|k: int, l: int|
            0 <= k < l < plan_of(d, p).len() && (#[trigger] plan_of(d, p)[k]).1 is Some && (#[trigger] plan_of(d, p)[l]).1 is Some
                ==> plan_of(d, p)[k].1->0 != plan_of(d, p)[l].1->0,
        forall|k: int|
            0 <= k < plan_of(d, p).len() && (#[trigger] plan_of(d, p)[k]).1 is Some ==> !preserved(
                p.preserve,
                p.preserve_prefixes,
                plan_of(d, p)[k].1->0,
            ),
{
    let c = collect_nodes(d, Graph { ids: Seq::empty(), refs: Seq::empty() });
    assert(valid_counter(Seq::<int>::empty()));
    lemma_plan_names(c.1.ids, c.1.refs, p.remove, p.minify, p.preserve, p.preserve_prefixes, Seq::empty());
}

/// The values of the `id` attributes among `attrs`, in order; a bare one counts as empty.
pub open spec fn attr_ids(attrs: Seq<AttrV>) -> Seq<Seq<char>>
    decreases attrs.len(),
{
    if attrs.len() == 0 {
        Seq::empty()
    } else {
        (if attrs[0].name == id_name() {
            seq![value_text(attrs[0])]
        } else {
            Seq::empty()
        }) + attr_ids(attrs.drop_first())
    }
}

/// The values of the `id` attributes in a tree, in document order.
pub open spec fn tree_ids(n: NodeV) -> Seq<Seq<char>>
    decreases n,
{
    match n {
        NodeV::Element(e) => attr_ids(e.attrs) + forest_ids(e.children),
        _ => Seq::empty(),
    }
}

/// The values of the `id` attributes in a sequence of trees, in document order.
pub open spec fn forest_ids(ns: Seq<NodeV>) -> Seq<Seq<char>>
    decreases ns,
{
    if ns.len() == 0 {
        Seq::empty()
    } else {
        tree_ids(ns[0]) + forest_ids(ns.drop_first())
    }
}

proof fn lemma_collect_attrs_ids(attrs: Seq<AttrV>, g: Graph, has_id: bool)
    ensures
        collect_attrs(attrs, g, has_id).1.ids == g.ids + attr_ids(collect_attrs(attrs, g, has_id).0),
        g.ids.no_duplicates() ==> collect_attrs(attrs, g, has_id).1.ids.no_duplicates(),
    decreases attrs.len(),
{
    if attrs.len() == 0 {
        assert(g.ids + Seq::<Seq<char>>::empty() =~= g.ids);
    } else {
        let a = attrs[0];
        let v = value_text(a);
        let rest = attrs.drop_first();
        if a.name == id_name() {
            if has_id || g.ids.contains(v) {
                lemma_collect_attrs_ids(rest, g, has_id);
            } else {
                let g1 = Graph { ids: g.ids.push(v), refs: g.refs };
                lemma_collect_attrs_ids(rest, g1, true);
                let r = collect_attrs(rest, g1, true);
                assert((seq![a] + r.0).drop_first() =~= r.0);
                assert(attr_ids(seq![a] + r.0) == seq![v] + attr_ids(r.0));
                assert(g1.ids + attr_ids(r.0) =~= g.ids + (seq![v] + attr_ids(r.0)));
                if g.ids.no_duplicates() {
                    assert(g1.ids.no_duplicates());
                }
            }
        } else {
            let g1 = match attr_ref(a.name, v) {
                Some(id) => Graph { ids: g.ids, refs: g.refs.push(id) },
                None => g,
            };
            lemma_collect_attrs_ids(rest, g1, has_id);
            let r = collect_attrs(rest, g1, has_id);
            assert((seq![a] + r.0).drop_first() =~= r.0);
            assert(attr_ids(seq![a] + r.0) =~= attr_ids(r.0));
        }
    }
}

proof fn lemma_forest_ids_cons(n: NodeV, ns: Seq<NodeV>)
    ensures
        forest_ids(seq![n] + ns) == tree_ids(n) + forest_ids(ns),
{
    assert((seq![n] + ns).drop_first() =~= ns);
    assert((seq![n] + ns)[0] == n);
}

proof fn lemma_collect_node_ids(n: NodeV, g: Graph)
    ensures
        collect_node(n, g).1.ids == g.ids + tree_ids(collect_node(n, g).0),
        g.ids.no_duplicates() ==> collect_node(n, g).1.ids.no_duplicates(),
    decreases n,
{
    match n {
        NodeV::Element(e) => {
            lemma_collect_attrs_ids(e.attrs, g, false);
            let a = collect_attrs(e.attrs, g, false);
            lemma_collect_nodes_ids(e.children, a.1);
            let c = collect_nodes(e.children, a.1);
            assert(g.ids + attr_ids(a.0) + forest_ids(c.0) =~= g.ids + (attr_ids(a.0) + forest_ids(c.0)));
        },
        _ => {
            assert(g.ids + Seq::<Seq<char>>::empty() =~= g.ids);
        },
    }
}

proof fn lemma_collect_nodes_ids(ns: Seq<NodeV>, g: Graph)
    ensures
        collect_nodes(ns, g).1.ids == g.ids + forest_ids(collect_nodes(ns, g).0),
        g.ids.no_duplicates() ==> collect_nodes(ns, g).1.ids.no_duplicates(),
    decreases ns,
{
    if ns.len() == 0 {
        assert(g.ids + Seq::<Seq<char>>::empty() =~= g.ids);
    } else {
        lemma_collect_node_ids(ns[0], g);
        let h = collect_node(ns[0], g);
        lemma_collect_nodes_ids(ns.drop_first(), h.1);
        let t = collect_nodes(ns.drop_first(), h.1);
        lemma_forest_ids_cons(h.0, t.0);
        assert(g.ids + tree_ids(h.0) + forest_ids(t.0) =~= g.ids + (tree_ids(h.0) + forest_ids(t.0)));
    }
}

/// The ids after the plan: dropped, renamed or kept, in order.
pub open spec fn map_ids(plan: Seq<(Seq<char>, Option<Seq<char>>)>, vs: Seq<Seq<char>>) -> Seq<Seq<char>>
    decreases vs.len(),
{
    if vs.len() == 0 {
        Seq::empty()
    } else {
        let r = map_ids(plan, vs.drop_first());
        match plan_lookup(plan, vs[0]) {
            Some(None) => r,
            Some(Some(n)) => seq![n] + r,
            None => seq![vs[0]] + r,
        }
    }
}

proof fn lemma_map_ids_concat(plan: Seq<(Seq<char>, Option<Seq<char>>)>, a: Seq<Seq<char>>, b: Seq<Seq<char>>)
    ensures
        map_ids(plan, a + b) == map_ids(plan, a) + map_ids(plan, b),
    decreases a.len(),
{
    if a.len() == 0 {
        assert(a + b =~= b);
        assert(Seq::<Seq<char>>::empty() + map_ids(plan, b) =~= map_ids(plan, b));
    } else {
        assert((a + b).drop_first() =~= a.drop_first() + b);
        assert((a + b)[0] == a[0]);
        lemma_map_ids_concat(plan, a.drop_first(), b);
        let r = map_ids(plan, a.drop_first());
        match plan_lookup(plan, a[0]) {
            Some(None) => {},
            Some(Some(n)) => {
                assert(seq![n] + (r + map_ids(plan, b)) =~= (seq![n] + r) + map_ids(plan, b));
            },
            None => {
                assert(seq![a[0]] + (r + map_ids(plan, b)) =~= (seq![a[0]] + r) + map_ids(plan, b));
            },
        }
    }
}

proof fn lemma_rename_attrs_ids(plan: Seq<(Seq<char>, Option<Seq<char>>)>, attrs: Seq<AttrV>)
    ensures
        attr_ids(rename_attrs(plan, attrs)) == map_ids(plan, attr_ids(attrs)),
    decreases attrs.len(),
{
    if attrs.len() > 0 {
        let a = attrs[0];
        let rest = rename_attrs(plan, attrs.drop_first());
        lemma_rename_attrs_ids(plan, attrs.drop_first());
        let v = value_text(a);
        let out = rename_attrs(plan, attrs);
        if a.name == id_name() {
            assert(attr_ids(attrs) == seq![v] + attr_ids(attrs.drop_first()));
            assert((seq![v] + attr_ids(attrs.drop_first())).drop_first() =~= attr_ids(attrs.drop_first()));
            assert((seq![v] + attr_ids(attrs.drop_first()))[0] == v);
            match plan_lookup(plan, v) {
                Some(None) => {},
                Some(Some(n)) => {
                    let x = AttrV { name: a.name, value: Some(n) };
                    assert((seq![x] + rest).drop_first() =~= rest);
                    assert((seq![x] + rest)[0] == x);
                    assert(value_text(x) == n);
                },
                None => {
                    assert((seq![a] + rest).drop_first() =~= rest);
                    assert((seq![a] + rest)[0] == a);
                },
            }
        } else {
            assert(attr_ids(attrs) =~= attr_ids(attrs.drop_first()));
            let x = out[0];
            assert(out == seq![x] + rest);
            assert((seq![x] + rest).drop_first() =~= rest);
            assert(x.name == a.name);
            assert(attr_ids(out) =~= attr_ids(rest));
        }
    }
}

proof fn lemma_rewrite_tree_ids(plan: Seq<(Seq<char>, Option<Seq<char>>)>, n: NodeV)
    ensures
        tree_ids(crate::visit::rewrite_node::<IdsRewrite>(plan, n)) == map_ids(plan, tree_ids(n)),
    decreases n,
{
    match n {
        NodeV::Element(e) => {
            let out = crate::visit::rewrite_node::<IdsRewrite>(plan, n);
            let kids = out->Element_0.children;
            assert(kids.len() == e.children.len());
            assert forall|i: int| 0 <= i < kids.len() implies #[trigger] kids[i] == crate::visit::rewrite_node::<IdsRewrite>(plan, e.children[i]) by {
            }
            lemma_rename_attrs_ids(plan, e.attrs);
            lemma_rewrite_forest_ids(plan, e.children, kids);
            lemma_map_ids_concat(plan, attr_ids(e.attrs), forest_ids(e.children));
        },
        _ => {
            assert(map_ids(plan, Seq::<Seq<char>>::empty()) == Seq::<Seq<char>>::empty());
        },
    }
}

proof fn lemma_rewrite_forest_ids(plan: Seq<(Seq<char>, Option<Seq<char>>)>, cs: Seq<NodeV>, kids: Seq<NodeV>)
    requires
        kids.len() == cs.len(),
        forall|i: int| 0 <= i < kids.len() ==> #[trigger] kids[i] == crate::visit::rewrite_node::<IdsRewrite>(plan, cs[i]),
    ensures
        forest_ids(kids) == map_ids(plan, forest_ids(cs)),
    decreases cs,
{
    if cs.len() == 0 {
        assert(map_ids(plan, Seq::<Seq<char>>::empty()) == Seq::<Seq<char>>::empty());
    } else {
        lemma_rewrite_tree_ids(plan, cs[0]);
        assert(kids[0] == crate::visit::rewrite_node::<IdsRewrite>(plan, cs[0]));
        let k2 = kids.drop_first();
        let c2 = cs.drop_first();
        assert forall|i: int| 0 <= i < k2.len() implies #[trigger] k2[i] == crate::visit::rewrite_node::<IdsRewrite>(plan, c2[i]) by {
            assert(k2[i] == kids[i + 1]);
            assert(c2[i] == cs[i + 1]);
        }
        lemma_rewrite_forest_ids(plan, c2, k2);
        lemma_map_ids_concat(plan, tree_ids(cs[0]), forest_ids(c2));
    }
}

/// What the plan makes of one id: `None` where it drops it.
pub open spec fn image(plan: Seq<(Seq<char>, Option<Seq<char>>)>, v: Seq<char>) -> Option<Seq<char>> {
    match plan_lookup(plan, v) {
        Some(None) => None,
        Some(Some(n)) => Some(n),
        None => Some(v),
    }
}

proof fn lemma_plan_lookup_found(plan: Seq<(Seq<char>, Option<Seq<char>>)>, v: Seq<char>)
    ensures
        plan_lookup(plan, v) is Some ==> exists|k: int| 0 <= k < plan.len() && #[trigger] plan[k] == (v, plan_lookup(plan, v)->0),
        plan_lookup(plan, v) is None ==> forall|k: int| 0 <= k < plan.len() ==> (#[trigger] plan[k]).0 != v,
    decreases plan.len(),
{
    if plan.len() > 0 {
        lemma_plan_lookup_found(plan.drop_first(), v);
        if plan[0].0 == v {
            assert(plan[0] == (v, plan_lookup(plan, v)->0));
        } else if plan_lookup(plan, v) is Some {
            let k = choose|k: int| 0 <= k < plan.drop_first().len() && #[trigger] plan.drop_first()[k] == (v, plan_lookup(plan, v)->0);
            assert(plan[k + 1] == (v, plan_lookup(plan, v)->0));
        } else {
            assert forall|k: int| 0 <= k < plan.len() implies (#[trigger] plan[k]).0 != v by {
                if k > 0 {
                    assert(plan[k] == plan.drop_first()[k - 1]);
                }
            }
        }
    }
}

/// What the plan does with each id, by the id's references and the options.
proof fn lemma_plan_cases(
    ids: Seq<Seq<char>>,
    refs: Seq<Seq<char>>,
    remove: bool,
    minify: bool,
    pres: Seq<Seq<char>>,
    prefixes: Seq<Seq<char>>,
    c: Seq<int>,
    v: Seq<char>,
)
    requires
        ids.no_duplicates(),
    ensures
        ({
            let plan = make_plan(ids, refs, remove, minify, pres, prefixes, c);
            &&& !ids.contains(v) ==> plan_lookup(plan, v) is None
            &&& plan_lookup(plan, v) == Some(None::<Seq<char>>) ==> !refs.contains(v) && remove && !preserved(pres, prefixes, v)
            &&& (plan_lookup(plan, v) is Some && plan_lookup(plan, v)->0 is Some) ==> minify
            &&& (ids.contains(v) && !refs.contains(v) && remove && !preserved(pres, prefixes, v)) ==> plan_lookup(plan, v) == Some(None::<Seq<char>>)
        }),
    decreases ids.len(),
{
    if ids.len() > 0 {
        let id = ids[0];
        let rest = ids.drop_first();
        assert(rest.no_duplicates());
        assert(ids.contains(v) && v != id ==> rest.contains(v)) by {
            if ids.contains(v) && v != id {
                let k = choose|k: int| 0 <= k < ids.len() && ids[k] == v;
                assert(rest[k - 1] == v);
            }
        }
        assert(!rest.contains(id)) by {
            if rest.contains(id) {
                let k = choose|k: int| 0 <= k < rest.len() && rest[k] == id;
                assert(ids[k + 1] == id);
            }
        }
        let plan = make_plan(ids, refs, remove, minify, pres, prefixes, c);
        if refs.contains(id) && minify && !preserved(pres, prefixes, id) {
            match next_free(c, pres, prefixes, CANDIDATE_LIMIT as nat) {
                Some(t) => {
                    lemma_plan_cases(rest, refs, remove, minify, pres, prefixes, t, v);
                    lemma_plan_cases(rest, refs, remove, minify, pres, prefixes, t, id);
                    let tail = make_plan(rest, refs, remove, minify, pres, prefixes, t);
                    assert(plan == seq![(id, Some(id_of(t)))] + tail);
                    assert(plan.drop_first() =~= tail);
                },
                None => {
                    lemma_plan_cases(rest, refs, remove, minify, pres, prefixes, c, v);
                    lemma_plan_cases(rest, refs, remove, minify, pres, prefixes, c, id);
                },
            }
        } else if !refs.contains(id) && remove && !preserved(pres, prefixes, id) {
            lemma_plan_cases(rest, refs, remove, minify, pres, prefixes, c, v);
            let tail = make_plan(rest, refs, remove, minify, pres, prefixes, c);
            assert(plan == seq![(id, None::<Seq<char>>)] + tail);
            assert(plan.drop_first() =~= tail);
        } else {
            lemma_plan_cases(rest, refs, remove, minify, pres, prefixes, c, v);
            lemma_plan_cases(rest, refs, remove, minify, pres, prefixes, c, id);
        }
    }
}

proof fn lemma_map_ids_members(plan: Seq<(Seq<char>, Option<Seq<char>>)>, vs: Seq<Seq<char>>, x: Seq<char>)
    ensures
        map_ids(plan, vs).contains(x) ==> exists|i: int| 0 <= i < vs.len() && #[trigger] image(plan, vs[i]) == Some(x),
    decreases vs.len(),
{
    if vs.len() > 0 {
        lemma_map_ids_members(plan, vs.drop_first(), x);
        let r = map_ids(plan, vs.drop_first());
        if map_ids(plan, vs).contains(x) {
            let m = map_ids(plan, vs);
            let k = choose|k: int| 0 <= k < m.len() && m[k] == x;
            match plan_lookup(plan, vs[0]) {
                Some(None) => {
                    assert(r.contains(x));
                },
                Some(Some(n)) => {
                    if k == 0 {
                        assert(image(plan, vs[0]) == Some(x));
                    } else {
                        assert(r[k - 1] == x);
                        assert(r.contains(x));
                    }
                },
                None => {
                    if k == 0 {
                        assert(image(plan, vs[0]) == Some(x));
                    } else {
                        assert(r[k - 1] == x);
                        assert(r.contains(x));
                    }
                },
            }
            if r.contains(x) {
                let i = choose|i: int| 0 <= i < vs.drop_first().len() && #[trigger] image(plan, vs.drop_first()[i]) == Some(x);
                assert(vs[i + 1] == vs.drop_first()[i]);
            }
        }
    }
}

/// Whether the plan sends no two different ids among `vs` to the same name.
pub open spec fn image_injective(plan: Seq<(Seq<char>, Option<Seq<char>>)>, vs: Seq<Seq<char>>) -> bool {
    forall|i: int, j: int|
        0 <= i < vs.len() && 0 <= j < vs.len() && vs[i] != vs[j] && (#[trigger] image(plan, vs[i])) is Some
            ==> image(plan, vs[i]) != #[trigger] image(plan, vs[j])
}

proof fn lemma_map_ids_unique(plan: Seq<(Seq<char>, Option<Seq<char>>)>, vs: Seq<Seq<char>>)
    requires
        vs.no_duplicates(),
        image_injective(plan, vs),
    ensures
        map_ids(plan, vs).no_duplicates(),
    decreases vs.len(),
{
    if vs.len() > 0 {
        let rest = vs.drop_first();
        assert(rest.no_duplicates());
        assert(image_injective(plan, rest)) by {
            assert forall|i: int, j: int|
                0 <= i < rest.len() && 0 <= j < rest.len() && rest[i] != rest[j] && (#[trigger] image(plan, rest[i])) is Some
                    implies image(plan, rest[i]) != #[trigger] image(plan, rest[j]) by {
                assert(rest[i] == vs[i + 1] && rest[j] == vs[j + 1]);
            }
        }
        lemma_map_ids_unique(plan, rest);
        let r = map_ids(plan, rest);
        match image(plan, vs[0]) {
            Some(x) => {
                lemma_map_ids_members(plan, rest, x);
                if r.contains(x) {
                    let i = choose|i: int| 0 <= i < rest.len() && #[trigger] image(plan, rest[i]) == Some(x);
                    assert(rest[i] == vs[i + 1]);
                    assert(vs[0] != vs[i + 1]);
                    assert(image(plan, vs[0]) != image(plan, vs[i + 1]));
                }
                let m = map_ids(plan, vs);
                assert(m == seq![x] + r);
                assert forall|a: int, b: int| 0 <= a < b < m.len() implies m[a] != m[b] by {
                    if a == 0 {
                        assert(m[b] == r[b - 1]);
                    } else {
                        assert(m[a] == r[a - 1] && m[b] == r[b - 1]);
                    }
                }
            },
            None => {},
        }
    }
}

/// After the identifier minifier, no two `id` attributes of the document share a value. This
/// holds where the minifier does not leave the document as it is, where it drops unreferenced
/// ids or renames none, and where every referenced id that is not preserved found a free name.
pub proof fn lemma_retained_ids_unique(d: Seq<NodeV>, p: ParamsV)
    requires
        p.force || !deoptimized(d),
        p.remove || !p.minify,
        forall|v: Seq<char>|
            #![trigger plan_lookup(plan_of(d, p), v)]
            collect_nodes(d, Graph { ids: Seq::empty(), refs: Seq::empty() }).1.ids.contains(v) && collect_nodes(
                d,
                Graph { ids: Seq::empty(), refs: Seq::empty() },
            ).1.refs.contains(v) && p.minify && !preserved(p.preserve, p.preserve_prefixes, v)
                ==> plan_lookup(plan_of(d, p), v) is Some,
    ensures
        forest_ids(cleanup_ids(d, p)).no_duplicates(),
{
    let g0 = Graph { ids: Seq::empty(), refs: Seq::empty() };
    let c = collect_nodes(d, g0);
    lemma_collect_nodes_ids(d, g0);
    assert(g0.ids.no_duplicates());
    assert(c.1.ids =~= forest_ids(c.0));
    let ids = c.1.ids;
    let plan = plan_of(d, p);
    let out = cleanup_ids(d, p);
    assert(out == crate::visit::rewrite_nodes::<IdsRewrite>(plan, c.0));
    assert forall|i: int| 0 <= i < out.len() implies #[trigger] out[i] == crate::visit::rewrite_node::<IdsRewrite>(plan, c.0[i]) by {
    }
    lemma_rewrite_forest_ids(plan, c.0, out);
    lemma_plan_names_distinct(d, p);
    assert(image_injective(plan, ids)) by {
        assert forall|i: int, j: int|
            0 <= i < ids.len() && 0 <= j < ids.len() && ids[i] != ids[j] && (#[trigger] image(plan, ids[i])) is Some
                implies image(plan, ids[i]) != #[trigger] image(plan, ids[j]) by {
            let u = ids[i];
            let v = ids[j];
            lemma_plan_cases(ids, c.1.refs, p.remove, p.minify, p.preserve, p.preserve_prefixes, Seq::empty(), u);
            lemma_plan_cases(ids, c.1.refs, p.remove, p.minify, p.preserve, p.preserve_prefixes, Seq::empty(), v);
            lemma_plan_lookup_found(plan, u);
            lemma_plan_lookup_found(plan, v);
            assert(ids.contains(u) && ids.contains(v));
            if image(plan, u) == image(plan, v) {
                let x = image(plan, u)->0;
                match (plan_lookup(plan, u), plan_lookup(plan, v)) {
                    (Some(Some(a)), Some(Some(b))) => {
                        let k = choose|k: int| 0 <= k < plan.len() && #[trigger] plan[k] == (u, plan_lookup(plan, u)->0);
                        let l = choose|l: int| 0 <= l < plan.len() && #[trigger] plan[l] == (v, plan_lookup(plan, v)->0);
                        assert(k != l);
                        if k < l {
                            assert(plan[k].1->0 != plan[l].1->0);
                        } else {
                            assert(plan[l].1->0 != plan[k].1->0);
                        }
                    },
                    (None, Some(Some(b))) => {
                        let l = choose|l: int| 0 <= l < plan.len() && #[trigger] plan[l] == (v, plan_lookup(plan, v)->0);
                        assert(!preserved(p.preserve, p.preserve_prefixes, plan[l].1->0));
                        assert(preserved(p.preserve, p.preserve_prefixes, u));
                    },
                    (Some(Some(a)), None) => {
                        let k = choose|k: int| 0 <= k < plan.len() && #[trigger] plan[k] == (u, plan_lookup(plan, u)->0);
                        assert(!preserved(p.preserve, p.preserve_prefixes, plan[k].1->0));
                        assert(preserved(p.preserve, p.preserve_prefixes, v));
                    },
                    _ => {},
                }
            }
        }
    }
    lemma_map_ids_unique(plan, ids);
}

proof fn lemma_map_ids_keeps(plan: Seq<(Seq<char>, Option<Seq<char>>)>, vs: Seq<Seq<char>>, x: Seq<char>)
    requires
        vs.contains(x),
        image(plan, x) is Some,
    ensures
        map_ids(plan, vs).contains(image(plan, x)->0),
    decreases vs.len(),
{
    let r = map_ids(plan, vs.drop_first());
    if vs[0] == x {
        match plan_lookup(plan, x) {
            Some(Some(n)) => {
                assert(map_ids(plan, vs)[0] == n);
            },
            None => {
                assert(map_ids(plan, vs)[0] == x);
            },
            _ => {},
        }
    } else {
        let k = choose|k: int| 0 <= k < vs.len() && vs[k] == x;
        assert(vs.drop_first()[k - 1] == x);
        lemma_map_ids_keeps(plan, vs.drop_first(), x);
        let y = image(plan, x)->0;
        let j = choose|j: int| 0 <= j < r.len() && r[j] == y;
        let m = map_ids(plan, vs);
        match plan_lookup(plan, vs[0]) {
            Some(None) => {
                assert(m[j] == y);
            },
            _ => {
                assert(m[j + 1] == y);
            },
        }
    }
}

proof fn lemma_plan_keys(
    ids: Seq<Seq<char>>,
    refs: Seq<Seq<char>>,
    remove: bool,
    minify: bool,
    pres: Seq<Seq<char>>,
    prefixes: Seq<Seq<char>>,
    c: Seq<int>,
)
    ensures
        forall|k: int| 0 <= k < make_plan(ids, refs, remove, minify, pres, prefixes, c).len()
            ==> ids.contains((#[trigger] make_plan(ids, refs, remove, minify, pres, prefixes, c)[k]).0),
    decreases ids.len(),
{
    if ids.len() > 0 {
        let id = ids[0];
        let rest = ids.drop_first();
        let plan = make_plan(ids, refs, remove, minify, pres, prefixes, c);
        let c2 = if refs.contains(id) && minify && !preserved(pres, prefixes, id) {
            match next_free(c, pres, prefixes, CANDIDATE_LIMIT as nat) {
                Some(t) => t,
                None => c,
            }
        } else {
            c
        };
        lemma_plan_keys(rest, refs, remove, minify, pres, prefixes, c2);
        let tail = make_plan(rest, refs, remove, minify, pres, prefixes, c2);
        assert forall|k: int| 0 <= k < plan.len() implies ids.contains((#[trigger] plan[k]).0) by {
            if plan.len() == tail.len() + 1 && k >= 1 {
                assert(plan[k] == tail[k - 1]);
                let j = choose|j: int| 0 <= j < rest.len() && rest[j] == tail[k - 1].0;
                assert(ids[j + 1] == rest[j]);
            } else if plan.len() == tail.len() {
                assert(plan == tail);
                let j = choose|j: int| 0 <= j < rest.len() && rest[j] == tail[k].0;
                assert(ids[j + 1] == rest[j]);
            } else {
                assert(plan[0].0 == id);
                assert(ids[0] == id);
            }
        }
    }
}

/// Every new name that the minifier gives is the value of an `id` attribute of the document it
/// returns, where it does not leave the document as it is.
pub proof fn lemma_new_names_exist(d: Seq<NodeV>, p: ParamsV, k: int)
    requires
        p.force || !deoptimized(d),
        0 <= k < plan_of(d, p).len(),
        plan_of(d, p)[k].1 is Some,
    ensures
        forest_ids(cleanup_ids(d, p)).contains(plan_of(d, p)[k].1->0),
{
    let g0 = Graph { ids: Seq::empty(), refs: Seq::empty() };
    let c = collect_nodes(d, g0);
    lemma_collect_nodes_ids(d, g0);
    assert(g0.ids.no_duplicates());
    assert(c.1.ids =~= forest_ids(c.0));
    let ids = c.1.ids;
    let plan = plan_of(d, p);
    let out = cleanup_ids(d, p);
    assert forall|i: int| 0 <= i < out.len() implies #[trigger] out[i] == crate::visit::rewrite_node::<IdsRewrite>(plan, c.0[i]) by {
    }
    lemma_rewrite_forest_ids(plan, c.0, out);
    lemma_plan_keys(ids, c.1.refs, p.remove, p.minify, p.preserve, p.preserve_prefixes, Seq::empty());
    lemma_plan_keys_unique(ids, c.1.refs, p.remove, p.minify, p.preserve, p.preserve_prefixes, Seq::empty());
    let x = plan[k].0;
    assert(ids.contains(x));
    lemma_plan_lookup_first(plan, k);
    assert(image(plan, x) == plan[k].1);
    lemma_map_ids_keeps(plan, ids, x);
}

proof fn lemma_plan_lookup_first(plan: Seq<(Seq<char>, Option<Seq<char>>)>, k: int)
    requires
        0 <= k < plan.len(),
        forall|a: int, b: int| 0 <= a < b < plan.len() ==> (#[trigger] plan[a]).0 != (#[trigger] plan[b]).0,
    ensures
        plan_lookup(plan, plan[k].0) == Some(plan[k].1),
    decreases k,
{
    if k > 0 {
        assert(plan[0].0 != plan[k].0);
        let t = plan.drop_first();
        assert forall|a: int, b: int| 0 <= a < b < t.len() implies (#[trigger] t[a]).0 != (#[trigger] t[b]).0 by {
            assert(t[a] == plan[a + 1] && t[b] == plan[b + 1]);
        }
        lemma_plan_lookup_first(t, k - 1);
        assert(t[k - 1] == plan[k]);
    }
}

proof fn lemma_plan_keys_unique(
    ids: Seq<Seq<char>>,
    refs: Seq<Seq<char>>,
    remove: bool,
    minify: bool,
    pres: Seq<Seq<char>>,
    prefixes: Seq<Seq<char>>,
    c: Seq<int>,
)
    requires
        ids.no_duplicates(),
    ensures
        forall|a: int, b: int|
            0 <= a < b < make_plan(ids, refs, remove, minify, pres, prefixes, c).len()
                ==> (#[trigger] make_plan(ids, refs, remove, minify, pres, prefixes, c)[a]).0
                != (#[trigger] make_plan(ids, refs, remove, minify, pres, prefixes, c)[b]).0,
    decreases ids.len(),
{
    if ids.len() > 0 {
        let id = ids[0];
        let rest = ids.drop_first();
        assert(rest.no_duplicates());
        assert(!rest.contains(id)) by {
            if rest.contains(id) {
                let k = choose|k: int| 0 <= k < rest.len() && rest[k] == id;
                assert(ids[k + 1] == id);
            }
        }
        let plan = make_plan(ids, refs, remove, minify, pres, prefixes, c);
        let c2 = if refs.contains(id) && minify && !preserved(pres, prefixes, id) {
            match next_free(c, pres, prefixes, CANDIDATE_LIMIT as nat) {
                Some(t) => t,
                None => c,
            }
        } else {
            c
        };
        lemma_plan_keys_unique(rest, refs, remove, minify, pres, prefixes, c2);
        lemma_plan_keys(rest, refs, remove, minify, pres, prefixes, c2);
        let tail = make_plan(rest, refs, remove, minify, pres, prefixes, c2);
        assert forall|a: int, b: int| 0 <= a < b < plan.len() implies (#[trigger] plan[a]).0 != (#[trigger] plan[b]).0 by {
            if plan.len() == tail.len() + 1 {
                assert(plan[b] == tail[b - 1]);
                if a == 0 {
                    assert(plan[0].0 == id);
                    assert(rest.contains(tail[b - 1].0));
                } else {
                    assert(plan[a] == tail[a - 1]);
                }
            } else {
                assert(plan == tail);
            }
        }
    }
}

pub open spec fn is_letter(c: char) -> bool {
    ('a' <= c && c <= 'z') || ('A' <= c && c <= 'Z')
}

proof fn lemma_generated_letters(u: Seq<int>)
    requires
        valid_counter(u),
        counter_value(u) > 0,
    ensures
        id_of(u).len() > 0,
        forall|i: int| 0 <= i < id_of(u).len() ==> is_letter(#[trigger] id_of(u)[i]),
{
    lemma_id_chars_indexed();
    if u.len() == 0 {
        assert(counter_value(u) == 0);
    }
    assert forall|i: int| 0 <= i < id_of(u).len() implies is_letter(#[trigger] id_of(u)[i]) by {
        assert(0 <= u[i] <= 51);
        assert(letter_index(id_chars()[u[i]]) == u[i]);
    }
}

/// Every new name in a rename plan is a non-empty word of letters.
pub proof fn lemma_plan_names_letters(d: Seq<NodeV>, p: ParamsV, k: int)
    requires
        0 <= k < plan_of(d, p).len(),
        plan_of(d, p)[k].1 is Some,
    ensures
        plan_of(d, p)[k].1->0.len() > 0,
        forall|i: int| 0 <= i < plan_of(d, p)[k].1->0.len() ==> is_letter(#[trigger] plan_of(d, p)[k].1->0[i]),
{
    let c = collect_nodes(d, Graph { ids: Seq::empty(), refs: Seq::empty() });
    assert(valid_counter(Seq::<int>::empty()));
    lemma_plan_names(c.1.ids, c.1.refs, p.remove, p.minify, p.preserve, p.preserve_prefixes, Seq::empty());
    let plan = plan_of(d, p);
    assert(generated_after(plan[k].1->0, 0));
    let u = choose|u: Seq<int>| valid_counter(u) && counter_value(u) > 0 && #[trigger] id_of(u) == plan[k].1->0;
    lemma_generated_letters(u);
}

/// A reference written `href="#id"`, or with a prefixed `...:href`, to an id that the minifier
/// renames points after its rewrite at the new name, and that name is an id of the document that
/// the minifier returns, where it does not leave the document as it is.
pub proof fn lemma_href_references_follow(d: Seq<NodeV>, p: ParamsV, k: int, name: Seq<char>, v: Seq<char>)
    requires
        p.force || !deoptimized(d),
        0 <= k < plan_of(d, p).len(),
        plan_of(d, p)[k].1 is Some,
        !references_props().contains(name),
        name == href_name() || crate::text::ends_with(name, colon_href()),
        attr_ref(name, v) == Some(plan_of(d, p)[k].0),
    ensures
        attr_ref(name, rewrite_ref(v, plan_of(d, p)[k].0, plan_of(d, p)[k].1->0)) == Some(plan_of(d, p)[k].1->0),
        forest_ids(cleanup_ids(d, p)).contains(plan_of(d, p)[k].1->0),
{
    lemma_new_names_exist(d, p, k);
    lemma_plan_names_letters(d, p, k);
    let x = plan_of(d, p)[k].0;
    let n = plan_of(d, p)[k].1->0;
    assert(href_ref(v) == Some(x));
    assert(v =~= seq!['#'] + x);
    assert(v[0] == '#');
    assert(v.contains('#'));
    let pat = seq!['#'] + x;
    let rep = seq!['#'] + n;
    assert(v.subrange(0, pat.len() as int) =~= pat);
    assert(v.subrange(pat.len() as int, v.len() as int) =~= Seq::<char>::empty());
    assert(crate::text::replace_all(Seq::<char>::empty(), pat, rep) == Seq::<char>::empty());
    assert(rewrite_ref(v, x, n) =~= rep);
    assert(rep.drop_first() =~= n);
    assert(!n.contains('\n')) by {
        if n.contains('\n') {
            let i = choose|i: int| 0 <= i < n.len() && n[i] == '\n';
            assert(is_letter(n[i]));
        }
    }
}

proof fn lemma_first_dot_facts(s: Seq<char>, i: int)
    requires
        0 <= i,
    ensures
        first_dot_from(s, i) is Some ==> ({
            let j = first_dot_from(s, i)->0;
            i <= j < s.len() && s[j] == '.' && forall|k: int| i <= k < j ==> s[k] != '.'
        }),
    decreases s.len() - i,
{
    if i < s.len() && s[i] != '.' {
        lemma_first_dot_facts(s, i + 1);
    }
}

proof fn lemma_first_dot_at(s: Seq<char>, i: int, j: int)
    requires
        0 <= i <= j < s.len(),
        s[j] == '.',
        forall|k: int| i <= k < j ==> s[k] != '.',
    ensures
        first_dot_from(s, i) == Some(j),
    decreases j - i,
{
    if i < j {
        lemma_first_dot_at(s, i + 1, j);
    }
}

proof fn lemma_run_start_facts(s: Seq<char>, j: int)
    requires
        0 <= j <= s.len(),
    ensures
        0 <= run_start(s, j) <= j,
        forall|k: int| run_start(s, j) <= k < j ==> !crate::text::is_digit(s[k]),
        run_start(s, j) == 0 || crate::text::is_digit(s[run_start(s, j) - 1]),
    decreases j,
{
    if 0 < j && !crate::text::is_digit(s[j - 1]) {
        lemma_run_start_facts(s, j - 1);
    }
}

proof fn lemma_run_start_at(s: Seq<char>, r: int, j: int)
    requires
        0 <= r <= j <= s.len(),
        forall|k: int| r <= k < j ==> !crate::text::is_digit(s[k]),
        r == 0 || crate::text::is_digit(s[r - 1]),
    ensures
        run_start(s, j) == r,
    decreases j - r,
{
    if r < j {
        lemma_run_start_at(s, r, j - 1);
    }
}

proof fn lemma_replace_skip(s: Seq<char>, pat: Seq<char>, q: Seq<char>, r: int)
    requires
        0 <= r <= s.len(),
        pat.len() > 0,
        forall|i: int| 0 <= i < r ==> !crate::text::occurs_at(s, pat, i),
    ensures
        crate::text::replace_all(s, pat, q) == s.subrange(0, r) + crate::text::replace_all(s.subrange(r, s.len() as int), pat, q),
    decreases r,
{
    if r == 0 {
        assert(s.subrange(0, s.len() as int) =~= s);
        assert(s.subrange(0, 0) + crate::text::replace_all(s, pat, q) =~= crate::text::replace_all(s, pat, q));
    } else {
        let t = s.drop_first();
        if s.len() >= pat.len() {
            assert(!crate::text::occurs_at(s, pat, 0));
            assert(s.subrange(0, pat.len() as int) != pat);
        }
        assert forall|i: int| 0 <= i < r - 1 implies !crate::text::occurs_at(t, pat, i) by {
            assert(!crate::text::occurs_at(s, pat, i + 1));
            if i + pat.len() <= t.len() {
                assert(t.subrange(i, i + pat.len()) =~= s.subrange(i + 1, i + 1 + pat.len()));
            }
        }
        lemma_replace_skip(t, pat, q, r - 1);
        assert(t.subrange(r - 1, t.len() as int) =~= s.subrange(r, s.len() as int));
        assert(seq![s[0]] + (t.subrange(0, r - 1) + crate::text::replace_all(s.subrange(r, s.len() as int), pat, q))
            =~= s.subrange(0, r) + crate::text::replace_all(s.subrange(r, s.len() as int), pat, q));
    }
}

/// A timing reference such as `begin="id.click"` to an id that the minifier renames points,
/// after its rewrite, at the new name, and that name is an id of the document that the minifier
/// returns, where it does not leave the document as it is; a value with a `#` is not rewritten
/// this way.
pub proof fn lemma_begin_references_follow(d: Seq<NodeV>, p: ParamsV, k: int, v: Seq<char>)
    requires
        p.force || !deoptimized(d),
        0 <= k < plan_of(d, p).len(),
        plan_of(d, p)[k].1 is Some,
        attr_ref(begin_name(), v) == Some(plan_of(d, p)[k].0),
        !v.contains('#'),
    ensures
        attr_ref(begin_name(), rewrite_ref(v, plan_of(d, p)[k].0, plan_of(d, p)[k].1->0)) == Some(plan_of(d, p)[k].1->0),
        forest_ids(cleanup_ids(d, p)).contains(plan_of(d, p)[k].1->0),
{
    lemma_new_names_exist(d, p, k);
    lemma_plan_names_letters(d, p, k);
    reveal_strlit("begin");
    assert(!references_props().contains(begin_name())) by {
        reveal_strlit("clip-path");
        reveal_strlit("color-profile");
        reveal_strlit("fill");
        reveal_strlit("filter");
        reveal_strlit("marker-start");
        reveal_strlit("marker-mid");
        reveal_strlit("marker-end");
        reveal_strlit("mask");
        reveal_strlit("stroke");
        reveal_strlit("style");
        assert forall|i: int| 0 <= i < references_props().len() implies #[trigger] references_props()[i][0] != 'b' by {
            assert(references_props()[0][0] != 'b');
            assert(references_props()[1][0] != 'b');
            assert(references_props()[2][0] != 'b');
            assert(references_props()[3][0] != 'b');
            assert(references_props()[4][0] != 'b');
            assert(references_props()[5][0] != 'b');
            assert(references_props()[6][0] != 'b');
            assert(references_props()[7][0] != 'b');
            assert(references_props()[8][0] != 'b');
            assert(references_props()[9][0] != 'b');
            assert(i == 0 || i == 1 || i == 2 || i == 3 || i == 4 || i == 5 || i == 6 || i == 7 || i == 8 || i == 9);
        }
        if references_props().contains(begin_name()) {
            let i = choose|i: int| 0 <= i < references_props().len() && references_props()[i] == begin_name();
            assert(references_props()[i][0] != 'b');
        }
    }
    assert(begin_name() != href_name());
    assert(!crate::text::ends_with(begin_name(), colon_href())) by {
        if crate::text::ends_with(begin_name(), colon_href()) {
            assert(begin_name().subrange(0, 5)[0] == colon_href()[0]);
        }
    }
    let x = plan_of(d, p)[k].0;
    let n = plan_of(d, p)[k].1->0;
    assert(begin_ref(v) == Some(x));
    lemma_first_dot_facts(v, 0);
    let dd = first_dot_from(v, 0)->0;
    lemma_run_start_facts(v, dd);
    let r = run_start(v, dd);
    assert(x =~= v.subrange(r, dd));
    let pat = x + seq!['.'];
    let rep = n + seq!['.'];
    assert(v.subrange(r, dd + 1) =~= pat);
    assert forall|i: int| 0 <= i < r implies !crate::text::occurs_at(v, pat, i) by {
        if crate::text::occurs_at(v, pat, i) {
            assert(v.subrange(i, i + pat.len())[pat.len() - 1] == '.');
            assert(v[i + x.len()] == '.');
        }
    }
    lemma_replace_skip(v, pat, rep, r);
    let tail = v.subrange(r, v.len() as int);
    assert(tail.subrange(0, pat.len() as int) =~= pat);
    assert(tail.subrange(pat.len() as int, tail.len() as int) =~= v.subrange(dd + 1, v.len() as int));
    let rest = crate::text::replace_all(v.subrange(dd + 1, v.len() as int), pat, rep);
    let w = v.subrange(0, r) + rep + rest;
    assert(crate::text::replace_all(v, pat, rep) =~= w);
    assert(rewrite_ref(v, x, n) == w);
    let e = r + n.len();
    assert(w[e] == '.');
    assert forall|i: int| 0 <= i < e implies w[i] != '.' by {
        if i >= r {
            assert(w[i] == n[i - r]);
            assert(is_letter(n[i - r]));
        }
    }
    lemma_first_dot_at(w, 0, e);
    assert forall|i: int| r <= i < e implies !crate::text::is_digit(w[i]) by {
        assert(w[i] == n[i - r]);
        assert(is_letter(n[i - r]));
    }
    if r > 0 {
        assert(w[r - 1] == v[r - 1]);
    }
    lemma_run_start_at(w, r, e);
    assert(w.subrange(r, e) =~= n);
}

/// The value `url(#x)`, with the target in quotes `q` where `q` is not empty.
pub open spec fn url_form(x: Seq<char>, q: Seq<char>) -> Seq<char> {
    url_open() + q + seq!['#'] + x + q + seq![')']
}

proof fn lemma_replace_absent(s: Seq<char>, pat: Seq<char>, r: Seq<char>)
    requires
        pat.len() > 0,
        !s.contains(pat[0]),
    ensures
        crate::text::replace_all(s, pat, r) == s,
    decreases s.len(),
{
    if s.len() >= pat.len() && s.len() > 0 {
        assert(s.subrange(0, pat.len() as int)[0] == s[0]);
        assert(s.subrange(0, pat.len() as int) != pat);
        assert(!s.drop_first().contains(pat[0])) by {
            if s.drop_first().contains(pat[0]) {
                let i = choose|i: int| 0 <= i < s.drop_first().len() && s.drop_first()[i] == pat[0];
                assert(s[i + 1] == pat[0]);
            }
        }
        lemma_replace_absent(s.drop_first(), pat, r);
        assert(seq![s[0]] + s.drop_first() =~= s);
    } else if s.len() > 0 {
        assert(!s.drop_first().contains(pat[0])) by {
            if s.drop_first().contains(pat[0]) {
                let i = choose|i: int| 0 <= i < s.drop_first().len() && s.drop_first()[i] == pat[0];
                assert(s[i + 1] == pat[0]);
            }
        }
        if pat.len() <= s.len() {
        }
    }
}

proof fn lemma_url_target_len_letters(w: Seq<char>, c: int, n: Seq<char>, l: int)
    requires
        0 <= c,
        1 <= l <= n.len(),
        c + n.len() < w.len(),
        forall|i: int| 0 <= i < n.len() ==> w[c + i] == n[i],
        forall|i: int| 0 <= i < n.len() ==> is_letter(#[trigger] n[i]),
        closes_at(w, c + n.len()),
    ensures
        url_target_len(w, c, l) == Some(n.len() as int),
    decreases n.len() - l,
{
    assert(is_letter(n[l - 1]));
    assert(w[c + l - 1] == n[l - 1]);
    if l < n.len() {
        assert(is_letter(n[l]));
        assert(w[c + l] == n[l]);
        assert(!closes_at(w, c + l));
        lemma_url_target_len_letters(w, c, n, l + 1);
    }
}

/// A reference written as the whole value `url(#id)`, `url('#id')` or `url("#id")`, in a
/// property that takes such references, to an id that the minifier renames points after its
/// rewrite at the new name, and that name is an id of the document that the minifier returns,
/// where it does not leave the document as it is.
pub proof fn lemma_url_references_follow(d: Seq<NodeV>, p: ParamsV, k: int, name: Seq<char>, q: Seq<char>)
    requires
        p.force || !deoptimized(d),
        0 <= k < plan_of(d, p).len(),
        plan_of(d, p)[k].1 is Some,
        references_props().contains(name),
        q == Seq::<char>::empty() || q == seq!['\''] || q == seq!['"'],
    ensures
        attr_ref(name, rewrite_ref(url_form(plan_of(d, p)[k].0, q), plan_of(d, p)[k].0, plan_of(d, p)[k].1->0)) == Some(
            plan_of(d, p)[k].1->0,
        ),
        forest_ids(cleanup_ids(d, p)).contains(plan_of(d, p)[k].1->0),
{
    lemma_new_names_exist(d, p, k);
    lemma_plan_names_letters(d, p, k);
    let x = plan_of(d, p)[k].0;
    let n = plan_of(d, p)[k].1->0;
    let v = url_form(x, q);
    let h: int = 4 + q.len() as int;
    assert(v[h] == '#');
    assert(v.contains('#'));
    let pat = seq!['#'] + x;
    let rep = seq!['#'] + n;
    assert forall|i: int| 0 <= i < h implies !crate::text::occurs_at(v, pat, i) by {
        if crate::text::occurs_at(v, pat, i) {
            assert(v.subrange(i, i + pat.len())[0] == '#');
            assert(v[i] == '#');
        }
    }
    lemma_replace_skip(v, pat, rep, h);
    let tail = v.subrange(h, v.len() as int);
    assert(tail.subrange(0, pat.len() as int) =~= pat);
    let after = q + seq![')'];
    assert(tail.subrange(pat.len() as int, tail.len() as int) =~= after);
    assert(!after.contains('#')) by {
        if after.contains('#') {
            let i = choose|i: int| 0 <= i < after.len() && after[i] == '#';
        }
    }
    lemma_replace_absent(after, pat, rep);
    let w = url_open() + q + rep + after;
    assert(crate::text::replace_all(v, pat, rep) =~= w);
    assert(rewrite_ref(v, x, n) == w);
    assert(w.subrange(0, 4) =~= url_open());
    assert(crate::text::occurs_at(w, url_open(), 0));
    assert(w[h] == '#');
    if q.len() > 0 {
        assert(is_quote(w[4]));
    } else {
        assert(w[4] == '#');
        assert(!is_quote(w[4]));
    }
    let c: int = h + 1;
    assert forall|i: int| 0 <= i < n.len() implies w[c + i] == n[i] by {
    }
    assert(closes_at(w, c + n.len()));
    lemma_url_target_len_letters(w, c, n, 1);
    assert(w.subrange(c, c + n.len()) =~= n);
    assert(url_match_at(w, 0) == Some(n));
}

/// How many entries before position `k` of a plan rename their id.
pub open spec fn renames_before(plan: Seq<(Seq<char>, Option<Seq<char>>)>, k: int) -> nat
    decreases k,
{
    if k <= 0 {
        0
    } else {
        renames_before(plan, k - 1) + if plan[k - 1].1 is Some {
            1nat
        } else {
            0nat
        }
    }
}

proof fn lemma_renames_before_cons(x: (Seq<char>, Option<Seq<char>>), tail: Seq<(Seq<char>, Option<Seq<char>>)>, k: int)
    requires
        0 <= k <= tail.len(),
    ensures
        renames_before(seq![x] + tail, k + 1) == (if x.1 is Some {
            1nat
        } else {
            0nat
        }) + renames_before(tail, k),
    decreases k,
{
    let plan = seq![x] + tail;
    if k == 0 {
        assert(plan[0] == x);
        assert(renames_before(plan, 0) == 0);
        assert(renames_before(tail, 0) == 0);
        assert(renames_before(plan, 1) == renames_before(plan, 0) + if plan[0].1 is Some {
            1nat
        } else {
            0nat
        });
    } else {
        lemma_renames_before_cons(x, tail, k - 1);
        assert(plan[k] == tail[k - 1]);
    }
}

proof fn lemma_nothing_preserved(id: Seq<char>)
    ensures
        !preserved(Seq::empty(), Seq::empty(), id),
{
}

proof fn lemma_next_free_unpreserved(m: nat, fuel: nat)
    ensures
        next_free(nth_counter(m), Seq::empty(), Seq::empty(), fuel) == Some(nth_counter(m + 1)),
{
    lemma_nothing_preserved(id_of(advance(nth_counter(m))));
    assert(nth_counter(m + 1) == advance(nth_counter(m)));
}

proof fn lemma_plan_order(ids: Seq<Seq<char>>, refs: Seq<Seq<char>>, remove: bool, minify: bool, m: nat)
    ensures
        forall|k: int|
            0 <= k < make_plan(ids, refs, remove, minify, Seq::empty(), Seq::empty(), nth_counter(m)).len() && (#[trigger] make_plan(
                ids,
                refs,
                remove,
                minify,
                Seq::empty(),
                Seq::empty(),
                nth_counter(m),
            )[k]).1 is Some ==> make_plan(ids, refs, remove, minify, Seq::empty(), Seq::empty(), nth_counter(m))[k].1->0 == id_of(
                nth_counter(m + renames_before(make_plan(ids, refs, remove, minify, Seq::empty(), Seq::empty(), nth_counter(m)), k) + 1),
            ),
    decreases ids.len(),
{
    if ids.len() > 0 {
        let id = ids[0];
        let rest = ids.drop_first();
        let e = Seq::<Seq<char>>::empty();
        let plan = make_plan(ids, refs, remove, minify, e, e, nth_counter(m));
        lemma_nothing_preserved(id);
        if refs.contains(id) && minify {
            lemma_next_free_unpreserved(m, CANDIDATE_LIMIT as nat);
            lemma_plan_order(rest, refs, remove, minify, m + 1);
            let tail = make_plan(rest, refs, remove, minify, e, e, nth_counter(m + 1));
            let x = (id, Some(id_of(nth_counter(m + 1))));
            assert(plan == seq![x] + tail);
            assert forall|k: int| 0 <= k < plan.len() && (#[trigger] plan[k]).1 is Some implies plan[k].1->0 == id_of(
                nth_counter(m + renames_before(plan, k) + 1),
            ) by {
                if k == 0 {
                    assert(renames_before(plan, 0) == 0);
                } else {
                    lemma_renames_before_cons(x, tail, k - 1);
                    assert(plan[k] == tail[k - 1]);
                    assert(m + renames_before(plan, k) + 1 == (m + 1) + renames_before(tail, k - 1) + 1);
                }
            }
        } else if !refs.contains(id) && remove {
            lemma_plan_order(rest, refs, remove, minify, m);
            let tail = make_plan(rest, refs, remove, minify, e, e, nth_counter(m));
            let x = (id, None::<Seq<char>>);
            assert(plan == seq![x] + tail);
            assert forall|k: int| 0 <= k < plan.len() && (#[trigger] plan[k]).1 is Some implies plan[k].1->0 == id_of(
                nth_counter(m + renames_before(plan, k) + 1),
            ) by {
                if k > 0 {
                    lemma_renames_before_cons(x, tail, k - 1);
                    assert(plan[k] == tail[k - 1]);
                }
            }
        } else {
            lemma_plan_order(rest, refs, remove, minify, m);
        }
    }
}

/// Without preserved ids or prefixes, the ids that the minifier renames get the generated
/// identifiers in order: the entry that renames the `j`-th id (from 1, in the order the ids were
/// first seen) gets the `j`-th generated identifier, so `a` to `z`, `A` to `Z`, then `aa`.
pub proof fn lemma_renames_in_generator_order(d: Seq<NodeV>, p: ParamsV, k: int)
    requires
        p.preserve.len() == 0,
        p.preserve_prefixes.len() == 0,
        0 <= k < plan_of(d, p).len(),
        plan_of(d, p)[k].1 is Some,
    ensures
        plan_of(d, p)[k].1->0 == id_of(nth_counter(renames_before(plan_of(d, p), k) + 1)),
{
    let c = collect_nodes(d, Graph { ids: Seq::empty(), refs: Seq::empty() });
    assert(p.preserve =~= Seq::<Seq<char>>::empty());
    assert(p.preserve_prefixes =~= Seq::<Seq<char>>::empty());
    assert(nth_counter(0) == Seq::<int>::empty());
    lemma_plan_order(c.1.ids, c.1.refs, p.remove, p.minify, 0);
}

proof fn lemma_plan_covers(ids: Seq<Seq<char>>, refs: Seq<Seq<char>>, remove: bool, minify: bool, m: nat, v: Seq<char>)
    requires
        ids.no_duplicates(),
    ensures
        ids.contains(v) && refs.contains(v) && minify ==> plan_lookup(
            make_plan(ids, refs, remove, minify, Seq::empty(), Seq::empty(), nth_counter(m)),
            v,
        ) is Some,
    decreases ids.len(),
{
    if ids.len() > 0 {
        let id = ids[0];
        let rest = ids.drop_first();
        let e = Seq::<Seq<char>>::empty();
        assert(rest.no_duplicates());
        assert(ids.contains(v) && v != id ==> rest.contains(v)) by {
            if ids.contains(v) && v != id {
                let k = choose|k: int| 0 <= k < ids.len() && ids[k] == v;
                assert(rest[k - 1] == v);
            }
        }
        let plan = make_plan(ids, refs, remove, minify, e, e, nth_counter(m));
        lemma_nothing_preserved(id);
        if refs.contains(id) && minify {
            lemma_next_free_unpreserved(m, CANDIDATE_LIMIT as nat);
            lemma_plan_covers(rest, refs, remove, minify, m + 1, v);
            let tail = make_plan(rest, refs, remove, minify, e, e, nth_counter(m + 1));
            assert(plan == seq![(id, Some(id_of(nth_counter(m + 1))))] + tail);
            assert(plan.drop_first() =~= tail);
        } else if !refs.contains(id) && remove {
            lemma_plan_covers(rest, refs, remove, minify, m, v);
            let tail = make_plan(rest, refs, remove, minify, e, e, nth_counter(m));
            assert(plan == seq![(id, None::<Seq<char>>)] + tail);
            assert(plan.drop_first() =~= tail);
        } else {
            lemma_plan_covers(rest, refs, remove, minify, m, v);
        }
    }
}

/// Without preserved ids or prefixes, after the identifier minifier no two `id` attributes of
/// the document share a value, where the minifier does not leave the document as it is and it
/// drops unreferenced ids or renames none.
pub proof fn lemma_retained_ids_unique_without_preserve(d: Seq<NodeV>, p: ParamsV)
    requires
        p.force || !deoptimized(d),
        p.remove || !p.minify,
        p.preserve.len() == 0,
        p.preserve_prefixes.len() == 0,
    ensures
        forest_ids(cleanup_ids(d, p)).no_duplicates(),
{
    let g0 = Graph { ids: Seq::empty(), refs: Seq::empty() };
    let c = collect_nodes(d, g0);
    lemma_collect_nodes_ids(d, g0);
    assert(g0.ids.no_duplicates());
    assert(p.preserve =~= Seq::<Seq<char>>::empty());
    assert(p.preserve_prefixes =~= Seq::<Seq<char>>::empty());
    assert(nth_counter(0) == Seq::<int>::empty());
    assert forall|v: Seq<char>|
        #![trigger plan_lookup(plan_of(d, p), v)]
        c.1.ids.contains(v) && c.1.refs.contains(v) && p.minify && !preserved(p.preserve, p.preserve_prefixes, v)
            implies plan_lookup(plan_of(d, p), v) is Some by {
        lemma_plan_covers(c.1.ids, c.1.refs, p.remove, p.minify, 0, v);
    }
    lemma_retained_ids_unique(d, p);
}

/// The attributes other than `id` among `attrs`, in order.
pub open spec fn attr_refs(attrs: Seq<AttrV>) -> Seq<AttrV>
    decreases attrs.len(),
{
    if attrs.len() == 0 {
        Seq::empty()
    } else {
        (if attrs[0].name == id_name() {
            Seq::empty()
        } else {
            seq![attrs[0]]
        }) + attr_refs(attrs.drop_first())
    }
}

/// The attributes other than `id` of a tree, in document order.
pub open spec fn tree_refs(n: NodeV) -> Seq<AttrV>
    decreases n,
{
    match n {
        NodeV::Element(e) => attr_refs(e.attrs) + forest_refs(e.children),
        _ => Seq::empty(),
    }
}

pub open spec fn forest_refs(ns: Seq<NodeV>) -> Seq<AttrV>
    decreases ns,
{
    if ns.len() == 0 {
        Seq::empty()
    } else {
        tree_refs(ns[0]) + forest_refs(ns.drop_first())
    }
}

/// An attribute other than `id` after the rename pass: a reference to a renamed id follows it.
pub open spec fn renamed_ref(plan: Seq<(Seq<char>, Option<Seq<char>>)>, a: AttrV) -> AttrV {
    match attr_ref(a.name, value_text(a)) {
        Some(id) => match plan_lookup(plan, id) {
            Some(Some(n)) => AttrV { name: a.name, value: Some(rewrite_ref(value_text(a), id, n)) },
            _ => a,
        },
        None => a,
    }
}

pub open spec fn map_refs(plan: Seq<(Seq<char>, Option<Seq<char>>)>, s: Seq<AttrV>) -> Seq<AttrV> {
    Seq::new(s.len(), |i: int| renamed_ref(plan, s[i]))
}

proof fn lemma_collect_attrs_refs(attrs: Seq<AttrV>, g: Graph, has_id: bool)
    ensures
        attr_refs(collect_attrs(attrs, g, has_id).0) == attr_refs(attrs),
    decreases attrs.len(),
{
    if attrs.len() > 0 {
        let a = attrs[0];
        let v = value_text(a);
        let rest = attrs.drop_first();
        if a.name == id_name() {
            if has_id || g.ids.contains(v) {
                lemma_collect_attrs_refs(rest, g, has_id);
            } else {
                let g1 = Graph { ids: g.ids.push(v), refs: g.refs };
                lemma_collect_attrs_refs(rest, g1, true);
                let r = collect_attrs(rest, g1, true);
                assert((seq![a] + r.0).drop_first() =~= r.0);
                assert(attr_refs(seq![a] + r.0) =~= attr_refs(r.0));
                assert(attr_refs(attrs) =~= attr_refs(rest));
            }
        } else {
            let g1 = match attr_ref(a.name, v) {
                Some(id) => Graph { ids: g.ids, refs: g.refs.push(id) },
                None => g,
            };
            lemma_collect_attrs_refs(rest, g1, has_id);
            let r = collect_attrs(rest, g1, has_id);
            assert((seq![a] + r.0).drop_first() =~= r.0);
            assert((seq![a] + r.0)[0] == a);
        }
    }
}

proof fn lemma_collect_node_refs(n: NodeV, g: Graph)
    ensures
        tree_refs(collect_node(n, g).0) == tree_refs(n),
    decreases n,
{
    match n {
        NodeV::Element(e) => {
            lemma_collect_attrs_refs(e.attrs, g, false);
            let a = collect_attrs(e.attrs, g, false);
            lemma_collect_nodes_refs(e.children, a.1);
        },
        _ => {},
    }
}

proof fn lemma_collect_nodes_refs(ns: Seq<NodeV>, g: Graph)
    ensures
        forest_refs(collect_nodes(ns, g).0) == forest_refs(ns),
    decreases ns,
{
    if ns.len() > 0 {
        lemma_collect_node_refs(ns[0], g);
        let h = collect_node(ns[0], g);
        lemma_collect_nodes_refs(ns.drop_first(), h.1);
        let t = collect_nodes(ns.drop_first(), h.1);
        assert((seq![h.0] + t.0).drop_first() =~= t.0);
        assert((seq![h.0] + t.0)[0] == h.0);
    }
}

proof fn lemma_map_refs_concat(plan: Seq<(Seq<char>, Option<Seq<char>>)>, a: Seq<AttrV>, b: Seq<AttrV>)
    ensures
        map_refs(plan, a + b) == map_refs(plan, a) + map_refs(plan, b),
{
    assert(map_refs(plan, a + b) =~= map_refs(plan, a) + map_refs(plan, b));
}

proof fn lemma_rename_attrs_refs(plan: Seq<(Seq<char>, Option<Seq<char>>)>, attrs: Seq<AttrV>)
    ensures
        attr_refs(rename_attrs(plan, attrs)) == map_refs(plan, attr_refs(attrs)),
    decreases attrs.len(),
{
    if attrs.len() == 0 {
        assert(map_refs(plan, Seq::<AttrV>::empty()) =~= Seq::<AttrV>::empty());
    } else {
        let a = attrs[0];
        let rest = rename_attrs(plan, attrs.drop_first());
        lemma_rename_attrs_refs(plan, attrs.drop_first());
        let v = value_text(a);
        let out = rename_attrs(plan, attrs);
        if a.name == id_name() {
            assert(attr_refs(attrs) =~= attr_refs(attrs.drop_first()));
            match plan_lookup(plan, v) {
                Some(None) => {},
                Some(Some(n)) => {
                    let x = AttrV { name: a.name, value: Some(n) };
                    assert((seq![x] + rest).drop_first() =~= rest);
                    assert((seq![x] + rest)[0] == x);
                    assert(attr_refs(seq![x] + rest) =~= attr_refs(rest));
                },
                None => {
                    assert((seq![a] + rest).drop_first() =~= rest);
                    assert((seq![a] + rest)[0] == a);
                    assert(attr_refs(seq![a] + rest) =~= attr_refs(rest));
                },
            }
        } else {
            assert(attr_refs(attrs) == seq![a] + attr_refs(attrs.drop_first()));
            let x = out[0];
            assert(out == seq![x] + rest);
            assert((seq![x] + rest).drop_first() =~= rest);
            assert(x == renamed_ref(plan, a));
            lemma_map_refs_concat(plan, seq![a], attr_refs(attrs.drop_first()));
            assert(map_refs(plan, seq![a]) =~= seq![x]);
        }
    }
}

proof fn lemma_rewrite_tree_refs(plan: Seq<(Seq<char>, Option<Seq<char>>)>, n: NodeV)
    ensures
        tree_refs(crate::visit::rewrite_node::<IdsRewrite>(plan, n)) == map_refs(plan, tree_refs(n)),
    decreases n,
{
    match n {
        NodeV::Element(e) => {
            let out = crate::visit::rewrite_node::<IdsRewrite>(plan, n);
            let kids = out->Element_0.children;
            assert(kids.len() == e.children.len());
            assert forall|i: int| 0 <= i < kids.len() implies #[trigger] kids[i] == crate::visit::rewrite_node::<IdsRewrite>(plan, e.children[i]) by {
            }
            lemma_rename_attrs_refs(plan, e.attrs);
            lemma_rewrite_forest_refs(plan, e.children, kids);
            lemma_map_refs_concat(plan, attr_refs(e.attrs), forest_refs(e.children));
        },
        _ => {
            assert(map_refs(plan, Seq::<AttrV>::empty()) =~= Seq::<AttrV>::empty());
        },
    }
}

proof fn lemma_rewrite_forest_refs(plan: Seq<(Seq<char>, Option<Seq<char>>)>, cs: Seq<NodeV>, kids: Seq<NodeV>)
    requires
        kids.len() == cs.len(),
        forall|i: int| 0 <= i < kids.len() ==> #[trigger] kids[i] == crate::visit::rewrite_node::<IdsRewrite>(plan, cs[i]),
    ensures
        forest_refs(kids) == map_refs(plan, forest_refs(cs)),
    decreases cs,
{
    if cs.len() == 0 {
        assert(map_refs(plan, Seq::<AttrV>::empty()) =~= Seq::<AttrV>::empty());
    } else {
        lemma_rewrite_tree_refs(plan, cs[0]);
        let k2 = kids.drop_first();
        let c2 = cs.drop_first();
        assert forall|i: int| 0 <= i < k2.len() implies #[trigger] k2[i] == crate::visit::rewrite_node::<IdsRewrite>(plan, c2[i]) by {
            assert(k2[i] == kids[i + 1]);
            assert(c2[i] == cs[i + 1]);
        }
        lemma_rewrite_forest_refs(plan, c2, k2);
        lemma_map_refs_concat(plan, tree_refs(cs[0]), forest_refs(c2));
    }
}

/// Reference integrity of the minifier, over the whole document: its attributes other than
/// `id` keep their number and document order, and each comes out as `renamed_ref` says: a
/// reference to an id that the plan renames is rewritten to the new name, and every other
/// attribute stays. With `lemma_href_references_follow`, `lemma_begin_references_follow` and
/// `lemma_url_references_follow`, the rewritten reference then points at the new name, which the
/// returned document holds as an id.
pub proof fn lemma_references_follow_renames(d: Seq<NodeV>, p: ParamsV)
    requires
        p.force || !deoptimized(d),
    ensures
        forest_refs(cleanup_ids(d, p)).len() == forest_refs(d).len(),
        forall|i: int|
            0 <= i < forest_refs(d).len() ==> #[trigger] forest_refs(cleanup_ids(d, p))[i] == renamed_ref(
                plan_of(d, p),
                forest_refs(d)[i],
            ),
{
    let g0 = Graph { ids: Seq::empty(), refs: Seq::empty() };
    let c = collect_nodes(d, g0);
    lemma_collect_nodes_refs(d, g0);
    let plan = plan_of(d, p);
    let out = cleanup_ids(d, p);
    assert forall|i: int| 0 <= i < out.len() implies #[trigger] out[i] == crate::visit::rewrite_node::<IdsRewrite>(plan, c.0[i]) by {
    }
    lemma_rewrite_forest_refs(plan, c.0, out);
}

} // verus!
