//! Colour canonicalization: `currentColor`, keyword to hex, `rgb()` to hex, long hex to short
//! hex, and hex to a shorter keyword.
use vstd::prelude::*;
use crate::model::{Attribute, AttrV, attrs_view};
use crate::collections::{colors_names, colors_props, colors_short_names, lookup, strs};
use crate::numeric::{Num, fits, rounded, scan_number, scan_number_exec, scanned_is, round_exec, trunc_exec, truncated};
use crate::text::is_ws;

verus! {

broadcast use vstd::seq::group_seq_axioms;

/// What `str::to_lowercase` gives for a text.
pub uninterp spec fn lower_of(s: Seq<char>) -> Seq<char>;

/// Relies on `str::to_lowercase`: the lower-case form depends on the characters alone.
#[verifier::external_body]
fn lowercase(s: &Vec<char>) -> (r: Vec<char>)
    ensures
        r@ == lower_of(s@),
{
    let t: String = s.iter().collect();
    t.to_lowercase().chars().collect()
}

/// Which values become `currentColor`.
pub enum CurrentColor {
    /// `true`: every value but `none`; `false`: none.
    Bool(bool),
    /// Exactly this value.
    Str(String),
}

/// Options of the colour canonicalizer.
pub struct Params {
    pub current_color: CurrentColor,
    pub names2hex: bool,
    pub rgb2hex: bool,
    pub shorthex: bool,
    pub shortname: bool,
}

impl Params {
    /// The default options: no `currentColor`, every other step on.
    pub fn new() -> (r: Params)
        ensures
            r.current_color == CurrentColor::Bool(false),
            r.names2hex && r.rgb2hex && r.shorthex && r.shortname,
    {
        Params { current_color: CurrentColor::Bool(false), names2hex: true, rgb2hex: true, shorthex: true, shortname: true }
    }
}

pub enum CurrentColorV {
    Bool(bool),
    Str(Seq<char>),
}

pub struct ParamsV {
    pub current_color: CurrentColorV,
    pub names2hex: bool,
    pub rgb2hex: bool,
    pub shorthex: bool,
    pub shortname: bool,
}

impl View for Params {
    type V = ParamsV;

    open spec fn view(&self) -> ParamsV {
        ParamsV {
            current_color: match self.current_color {
                CurrentColor::Bool(b) => CurrentColorV::Bool(b),
                CurrentColor::Str(s) => CurrentColorV::Str(s@),
            },
            names2hex: self.names2hex,
            rgb2hex: self.rgb2hex,
            shorthex: self.shorthex,
            shortname: self.shortname,
        }
    }
}

pub open spec fn none_word() -> Seq<char> {
    seq!['n', 'o', 'n', 'e']
}

pub open spec fn current_color_word() -> Seq<char> {
    seq!['c', 'u', 'r', 'r', 'e', 'n', 't', 'C', 'o', 'l', 'o', 'r']
}

pub open spec fn hex_val(c: char) -> Option<nat> {
    if '0' <= c && c <= '9' {
        Some((c as u32 - '0' as u32) as nat)
    } else if 'a' <= c && c <= 'f' {
        Some((c as u32 - 'a' as u32 + 10) as nat)
    } else if 'A' <= c && c <= 'F' {
        Some((c as u32 - 'A' as u32 + 10) as nat)
    } else {
        None
    }
}

pub open spec fn upper_hex(d: nat) -> char {
    seq!['0', '1', '2', '3', '4', '5', '6', '7', '8', '9', 'A', 'B', 'C', 'D', 'E', 'F'][d as int]
}

pub open spec fn lower_hex(d: nat) -> char {
    seq!['0', '1', '2', '3', '4', '5', '6', '7', '8', '9', 'a', 'b', 'c', 'd', 'e', 'f'][d as int]
}

pub open spec fn skip_ws(s: Seq<char>, i: int) -> int
    decreases s.len() - i,
{
    if 0 <= i < s.len() && is_ws(s[i]) {
        skip_ws(s, i + 1)
    } else {
        i
    }
}

pub open spec fn clamp(neg: bool, m: nat) -> nat {
    if neg {
        0
    } else if m > 255 {
        255
    } else {
        m
    }
}


/// A channel of `rgb()` at `i`: a number, `%` scaling it by 2.55 and rounding, clamped to
/// 0..=255; with the position after it. `None` where there is no number, or where it passes
/// 128-bit arithmetic.
pub open spec fn rgb_channel(s: Seq<char>, i: int) -> Option<(nat, int)> {
    match scan_number(s, i, true, false) {
        None => None,
        Some(n) => if 0 <= n.end < s.len() && s[n.end] == '%' {
            if fits(n, 255, 100, 0) {
                Some((clamp(n.neg, rounded(n, 255, 100, 0)), n.end + 1))
            } else {
                None
            }
        } else if fits(n, 1, 1, 0) {
            Some((clamp(n.neg, truncated(n)), n.end))
        } else {
            None
        },
    }
}

pub open spec fn rgb_open() -> Seq<char> {
    seq!['r', 'g', 'b', '(']
}

/// The channels of a value that starts `rgb(r, g, b`.
pub open spec fn rgb_value(s: Seq<char>) -> Option<(nat, nat, nat)> {
    if !crate::text::starts_with(s, rgb_open()) {
        None
    } else {
        match rgb_channel(s, skip_ws(s, 4)) {
            None => None,
            Some(c1) => {
                let i2 = skip_ws(s, c1.1);
                if !(0 <= i2 < s.len() && s[i2] == ',') {
                    None
                } else {
                    match rgb_channel(s, skip_ws(s, i2 + 1)) {
                        None => None,
                        Some(c2) => {
                            let i3 = skip_ws(s, c2.1);
                            if !(0 <= i3 < s.len() && s[i3] == ',') {
                                None
                            } else {
                                match rgb_channel(s, skip_ws(s, i3 + 1)) {
                                    None => None,
                                    Some(c3) => Some((c1.0, c2.0, c3.0)),
                                }
                            }
                        },
                    }
                }
            },
        }
    }
}

/// `#RRGGBB` in upper-case digits.
pub open spec fn hex6(r: nat, g: nat, b: nat) -> Seq<char> {
    seq!['#', upper_hex(r / 16), upper_hex(r % 16), upper_hex(g / 16), upper_hex(g % 16), upper_hex(b / 16), upper_hex(b % 16)]
}

pub open spec fn hv(s: Seq<char>, i: int) -> nat {
    hex_val(s[i])->0
}

/// The three-digit form of `#RRGGBB` whose channels each repeat one digit.
pub open spec fn short_hex(v: Seq<char>) -> Option<Seq<char>> {
    if v.len() == 7 && v[0] == '#' && (forall|i: int| 1 <= i < 7 ==> #[trigger] hex_val(v[i]) is Some)
        && hv(v, 1) == hv(v, 2) && hv(v, 3) == hv(v, 4) && hv(v, 5) == hv(v, 6) {
        Some(seq!['#', lower_hex(hv(v, 1)), lower_hex(hv(v, 3)), lower_hex(hv(v, 5))])
    } else {
        None
    }
}

pub open spec fn current_matches(c: CurrentColorV, v: Seq<char>) -> bool {
    match c {
        CurrentColorV::Bool(b) => b && v != none_word(),
        CurrentColorV::Str(s) => v == s,
    }
}

/// After `currentColor` and keywords: what the `rgb()`, short hex and short name steps give.
pub open spec fn after_names(v2: Seq<char>, p: ParamsV) -> Seq<char> {
    let v3 = if p.rgb2hex {
        match rgb_value(v2) {
            Some(c) => hex6(c.0, c.1, c.2),
            None => v2,
        }
    } else {
        v2
    };
    if p.shorthex {
        match short_hex(v3) {
            Some(h) => h,
            None => v3,
        }
    } else {
        v3
    }
}

/// A colour value after every step that `p` turns on.
pub open spec fn convert_color(v: Seq<char>, p: ParamsV) -> Seq<char> {
    let v1 = if current_matches(p.current_color, v) {
        current_color_word()
    } else {
        v
    };
    let v2 = if p.names2hex {
        match lookup(colors_names(), lower_of(v1)) {
            Some(h) => h,
            None => v1,
        }
    } else {
        v1
    };
    let v4 = after_names(v2, p);
    if p.shortname {
        match lookup(colors_short_names(), lower_of(v4)) {
            Some(n) => n,
            None => v4,
        }
    } else {
        v4
    }
}

/// The hexadecimal form of a colour keyword, given in lower case.
pub fn hex_of_name(lowered: &Vec<char>) -> (r: Option<Vec<char>>)
    ensures
        r is Some <==> lookup(colors_names(), lowered@) is Some,
        r is Some ==> r->0@ == lookup(colors_names(), lowered@)->0,
{
    let t = crate::collections::get_colors_names();
    crate::collections::lookup_name(&t, lowered)
}

/// The keyword of a hexadecimal colour, given in lower case, where the keyword is shorter.
pub fn short_name_of_hex(lowered: &Vec<char>) -> (r: Option<Vec<char>>)
    ensures
        r is Some <==> lookup(colors_short_names(), lowered@) is Some,
        r is Some ==> r->0@ == lookup(colors_short_names(), lowered@)->0,
{
    let t = crate::collections::get_colors_short_names();
    crate::collections::lookup_name(&t, lowered)
}

fn skip_ws_exec(s: &Vec<char>, i: usize) -> (r: usize)
    requires
        i <= s@.len(),
    ensures
        r as int == skip_ws(s@, i as int),
        i <= r <= s@.len(),
{
    let mut k = i;
    while k < s.len() && crate::text::is_whitespace(s[k])
        invariant
            i <= k <= s@.len(),
            skip_ws(s@, k as int) == skip_ws(s@, i as int),
        decreases s.len() - k,
    {
        k += 1;
    }
    k
}

fn clamp_exec(neg: bool, m: u128) -> (r: u8)
    ensures
        r as nat == clamp(neg, m as nat),
{
    if neg {
        0
    } else if m > 255 {
        255
    } else {
        m as u8
    }
}

fn rgb_channel_exec(s: &Vec<char>, i: usize) -> (r: Option<(u8, usize)>)
    requires
        i <= s@.len(),
    ensures
        r is Some <==> rgb_channel(s@, i as int) is Some,
        r is Some ==> ({
            let (v, e) = r->0;
            let (sv, se) = rgb_channel(s@, i as int)->0;
            v as nat == sv && e as int == se && e <= s@.len()
        }),
{
    let x = match scan_number_exec(s, i, true, false) {
        None => {
            return None;
        },
        Some(x) => x,
    };
    let ghost n = scan_number(s@, i as int, true, false)->0;
    if x.big {
        return None;
    }
    if x.end < s.len() && s[x.end] == '%' {
        match round_exec(&x, 255, 100, 0, Ghost(n)) {
            Some(m) => Some((clamp_exec(x.neg, m), x.end + 1)),
            None => None,
        }
    } else {
        match trunc_exec(&x, Ghost(n)) {
            Some(m) => Some((clamp_exec(x.neg, m), x.end)),
            None => None,
        }
    }
}

/// The channels of a value that starts `rgb(r, g, b`.
pub fn rgb_value_exec(s: &Vec<char>) -> (r: Option<(u8, u8, u8)>)
    ensures
        r is Some <==> rgb_value(s@) is Some,
        r is Some ==> ({
            let (a, b, c) = r->0;
            let (x, y, z) = rgb_value(s@)->0;
            a as nat == x && b as nat == y && c as nat == z
        }),
{
    let open = vec!['r', 'g', 'b', '('];
    assert(open@ =~= rgb_open());
    if !crate::text::starts_with_chars(s, &open) {
        return None;
    }
    let i1 = skip_ws_exec(s, 4);
    let (c1, e1) = match rgb_channel_exec(s, i1) {
        Some(v) => v,
        None => {
            return None;
        },
    };
    let i2 = skip_ws_exec(s, e1);
    if !(i2 < s.len() && s[i2] == ',') {
        return None;
    }
    let j2 = skip_ws_exec(s, i2 + 1);
    let (c2, e2) = match rgb_channel_exec(s, j2) {
        Some(v) => v,
        None => {
            return None;
        },
    };
    let i3 = skip_ws_exec(s, e2);
    if !(i3 < s.len() && s[i3] == ',') {
        return None;
    }
    let j3 = skip_ws_exec(s, i3 + 1);
    let (c3, _e3) = match rgb_channel_exec(s, j3) {
        Some(v) => v,
        None => {
            return None;
        },
    };
    Some((c1, c2, c3))
}

fn upper_hex_exec(d: u8) -> (c: char)
    requires
        d < 16,
    ensures
        c == upper_hex(d as nat),
{
    let t = vec!['0', '1', '2', '3', '4', '5', '6', '7', '8', '9', 'A', 'B', 'C', 'D', 'E', 'F'];
    assert(t@ =~= seq!['0', '1', '2', '3', '4', '5', '6', '7', '8', '9', 'A', 'B', 'C', 'D', 'E', 'F']);
    t[d as usize]
}

fn lower_hex_exec(d: u8) -> (c: char)
    requires
        d < 16,
    ensures
        c == lower_hex(d as nat),
{
    let t = vec!['0', '1', '2', '3', '4', '5', '6', '7', '8', '9', 'a', 'b', 'c', 'd', 'e', 'f'];
    assert(t@ =~= seq!['0', '1', '2', '3', '4', '5', '6', '7', '8', '9', 'a', 'b', 'c', 'd', 'e', 'f']);
    t[d as usize]
}

/// `#RRGGBB` for the channels, in upper-case digits.
pub fn convert_rgb_to_hex(rgb: &Vec<u8>) -> (r: Vec<char>)
    requires
        rgb@.len() == 3,
    ensures
        r@ == hex6(rgb@[0] as nat, rgb@[1] as nat, rgb@[2] as nat),
{
    let (a, b, c) = (rgb[0], rgb[1], rgb[2]);
    let r = vec!['#', upper_hex_exec(a / 16), upper_hex_exec(a % 16), upper_hex_exec(b / 16), upper_hex_exec(b % 16), upper_hex_exec(c / 16), upper_hex_exec(c % 16)];
    assert(r@ =~= hex6(a as nat, b as nat, c as nat));
    r
}

fn hex_val_exec(c: char) -> (r: Option<u8>)
    ensures
        r is Some <==> hex_val(c) is Some,
        r is Some ==> r->0 as nat == hex_val(c)->0 && r->0 < 16,
{
    if '0' <= c && c <= '9' {
        Some((c as u32 - '0' as u32) as u8)
    } else if 'a' <= c && c <= 'f' {
        Some((c as u32 - 'a' as u32 + 10) as u8)
    } else if 'A' <= c && c <= 'F' {
        Some((c as u32 - 'A' as u32 + 10) as u8)
    } else {
        None
    }
}

/// The three-digit form of a `#RRGGBB` whose channels each repeat one digit.
pub fn short_hex_exec(v: &Vec<char>) -> (r: Option<Vec<char>>)
    ensures
        r is Some <==> short_hex(v@) is Some,
        r is Some ==> r->0@ == short_hex(v@)->0,
{
    if v.len() != 7 || v[0] != '#' {
        return None;
    }
    let mut ds: Vec<u8> = Vec::new();
    let mut i: usize = 1;
    while i < 7
        invariant
            v@.len() == 7,
            1 <= i <= 7,
            ds@.len() == i - 1,
            forall|k: int| 1 <= k < i ==> #[trigger] hex_val(v@[k]) is Some && ds@[k - 1] as nat == hv(v@, k) && ds@[k - 1] < 16,
        decreases 7 - i,
    {
        match hex_val_exec(v[i]) {
            Some(d) => {
                ds.push(d);
            },
            None => {
                return None;
            },
        }
        i += 1;
    }
    assert(hex_val(v@[1]) is Some && hex_val(v@[2]) is Some && hex_val(v@[3]) is Some);
    assert(hex_val(v@[4]) is Some && hex_val(v@[5]) is Some && hex_val(v@[6]) is Some);
    if ds[0] == ds[1] && ds[2] == ds[3] && ds[4] == ds[5] {
        let r = vec!['#', lower_hex_exec(ds[0]), lower_hex_exec(ds[2]), lower_hex_exec(ds[4])];
        assert(r@ =~= short_hex(v@)->0);
        Some(r)
    } else {
        None
    }
}

/// After `currentColor` and keywords: the `rgb()`, short hex steps.
pub fn after_names_exec(v2: &Vec<char>, p: &Params) -> (r: Vec<char>)
    ensures
        r@ == after_names(v2@, p@),
{
    let v3 = if p.rgb2hex {
        match rgb_value_exec(v2) {
            Some((a, b, c)) => convert_rgb_to_hex(&vec![a, b, c]),
            None => crate::text::copy_chars(v2),
        }
    } else {
        crate::text::copy_chars(v2)
    };
    if p.shorthex {
        match short_hex_exec(&v3) {
            Some(h) => h,
            None => v3,
        }
    } else {
        v3
    }
}

/// A colour value after every step that `p` turns on.
pub fn convert_color_exec(v: &Vec<char>, p: &Params) -> (r: Vec<char>)
    ensures
        r@ == convert_color(v@, p@),
{
    proof {
        reveal_strlit("none");
        reveal_strlit("currentColor");
        assert("none"@ =~= none_word());
        assert("currentColor"@ =~= current_color_word());
    }
    let matched = match &p.current_color {
        CurrentColor::Bool(b) => *b && !crate::text::eq_str(v, "none"),
        CurrentColor::Str(s) => crate::text::eq_str(v, s.as_str()),
    };
    let v1 = if matched {
        crate::text::chars_of("currentColor")
    } else {
        crate::text::copy_chars(v)
    };
    let v2 = if p.names2hex {
        let l = lowercase(&v1);
        match hex_of_name(&l) {
            Some(h) => h,
            None => v1,
        }
    } else {
        v1
    };
    let v4 = after_names_exec(&v2, p);
    if p.shortname {
        let l = lowercase(&v4);
        match short_name_of_hex(&l) {
            Some(n) => n,
            None => v4,
        }
    } else {
        v4
    }
}

/// One attribute after colour canonicalization.
pub open spec fn color_attr(p: ParamsV, a: AttrV) -> AttrV {
    match a.value {
        Some(v) => if colors_props().contains(a.name) {
            AttrV { name: a.name, value: Some(convert_color(v, p)) }
        } else {
            a
        },
        None => a,
    }
}

impl crate::visit::ElementRewrite for Params {
    open spec fn rewrite_spec(v: ParamsV, tag: Seq<char>, attrs: Seq<AttrV>) -> (Seq<char>, Seq<AttrV>) {
        (tag, Seq::new(attrs.len(), |i: int| color_attr(v, attrs[i])))
    }

    fn rewrite(&self, tag: &Vec<char>, attrs: &Vec<Attribute>) -> (r: (Vec<char>, Vec<Attribute>)) {
        let props = crate::collections::get_colors_props();
        let mut out: Vec<Attribute> = Vec::new();
        let mut i: usize = 0;
        while i < attrs.len()
            invariant
                i <= attrs.len(),
                out@.len() == i,
                strs(props@) == colors_props(),
                forall|k: int| 0 <= k < i ==> #[trigger] out@[k]@ == color_attr(self@, attrs@[k]@),
            decreases attrs.len() - i,
        {
            let a = &attrs[i];
            let na = match &a.value {
                Some(v) => if crate::collections::contains_name(&props, &a.name) {
                    Attribute { name: crate::text::copy_chars(&a.name), value: Some(convert_color_exec(v, self)) }
                } else {
                    a.copy()
                },
                None => a.copy(),
            };
            out.push(na);
            i += 1;
        }
        let ghost target = Seq::new(attrs@.len(), |k: int| color_attr(self@, attrs_view(attrs@)[k]));
        assert(attrs_view(out@) =~= target);
        (crate::text::copy_chars(tag), out)
    }
}

/// Canonicalizes the colour of every colour property in the document.
pub fn apply(doc: &mut crate::model::Document, params: &Params)
    ensures
        crate::model::doc_view(*final(doc)) == crate::visit::rewrite_nodes::<Params>(params@, crate::model::doc_view(*old(doc))),
{
    crate::visit::apply_rewrite(params, doc);
}

} // verus!
