//! Classification tables of SVG: element groups, properties and colour names.
use vstd::prelude::*;

verus! {

broadcast use vstd::seq::group_seq_axioms;

/// The views of a sequence of string slices.
pub open spec fn strs(s: Seq<&str>) -> Seq<Seq<char>> {
    Seq::new(s.len(), |i: int| s[i]@)
}

/// The views of a sequence of pairs of string slices.
pub open spec fn str_pairs(s: Seq<(&str, &str)>) -> Seq<(Seq<char>, Seq<char>)> {
    Seq::new(s.len(), |i: int| (s[i].0@, s[i].1@))
}

pub open spec fn group_animation() -> Seq<Seq<char>> {
    seq![
        "animate"@,
        "animateColor"@,
        "animateMotion"@,
        "animateTransform"@,
        "set"@,
    ]
}

pub open spec fn group_descriptive() -> Seq<Seq<char>> {
    seq![
        "desc"@,
        "metadata"@,
        "title"@,
    ]
}

pub open spec fn group_shape() -> Seq<Seq<char>> {
    seq![
        "circle"@,
        "ellipse"@,
        "line"@,
        "path"@,
        "polygon"@,
        "polyline"@,
        "rect"@,
    ]
}

pub open spec fn group_structural() -> Seq<Seq<char>> {
    seq![
        "defs"@,
        "g"@,
        "svg"@,
        "symbol"@,
        "use"@,
    ]
}

pub open spec fn group_paint_server() -> Seq<Seq<char>> {
    seq![
        "solidColor"@,
        "linearGradient"@,
        "radialGradient"@,
        "meshGradient"@,
        "pattern"@,
        "hatch"@,
    ]
}

pub open spec fn group_non_rendering() -> Seq<Seq<char>> {
    seq![
        "linearGradient"@,
        "radialGradient"@,
        "pattern"@,
        "clipPath"@,
        "mask"@,
        "marker"@,
        "symbol"@,
        "filter"@,
        "solidColor"@,
    ]
}

pub open spec fn group_container() -> Seq<Seq<char>> {
    seq![
        "a"@,
        "defs"@,
        "g"@,
        "marker"@,
        "mask"@,
        "missing-glyph"@,
        "pattern"@,
        "svg"@,
        "switch"@,
        "symbol"@,
        "foreignObject"@,
    ]
}

pub open spec fn group_text_content() -> Seq<Seq<char>> {
    seq![
        "altGlyph"@,
        "altGlyphDef"@,
        "altGlyphItem"@,
        "glyph"@,
        "glyphRef"@,
        "textPath"@,
        "text"@,
        "tref"@,
        "tspan"@,
    ]
}

pub open spec fn group_text_content_child() -> Seq<Seq<char>> {
    seq![
        "altGlyph"@,
        "textPath"@,
        "tref"@,
        "tspan"@,
    ]
}

pub open spec fn group_light_source() -> Seq<Seq<char>> {
    seq![
        "feDiffuseLighting"@,
        "feSpecularLighting"@,
        "feDistantLight"@,
        "fePointLight"@,
        "feSpotLight"@,
    ]
}

pub open spec fn group_filter_primitive() -> Seq<Seq<char>> {
    seq![
        "feBlend"@,
        "feColorMatrix"@,
        "feComponentTransfer"@,
        "feComposite"@,
        "feConvolveMatrix"@,
        "feDiffuseLighting"@,
        "feDisplacementMap"@,
        "feDropShadow"@,
        "feFlood"@,
        "feFuncA"@,
        "feFuncB"@,
        "feFuncG"@,
        "feFuncR"@,
        "feGaussianBlur"@,
        "feImage"@,
        "feMerge"@,
        "feMergeNode"@,
        "feMorphology"@,
        "feOffset"@,
        "feSpecularLighting"@,
        "feTile"@,
        "feTurbulence"@,
    ]
}

/// The element groups of SVG 1.1, each with its member tags.
pub fn get_elems_groups() -> (r: Vec<(&'static str, Vec<&'static str>)>)
    ensures
        r@.len() == 11,
        r@[0].0@ == "animation"@ && strs(r@[0].1@) == group_animation(),
        r@[1].0@ == "descriptive"@ && strs(r@[1].1@) == group_descriptive(),
        r@[2].0@ == "shape"@ && strs(r@[2].1@) == group_shape(),
        r@[3].0@ == "structural"@ && strs(r@[3].1@) == group_structural(),
        r@[4].0@ == "paintServer"@ && strs(r@[4].1@) == group_paint_server(),
        r@[5].0@ == "nonRendering"@ && strs(r@[5].1@) == group_non_rendering(),
        r@[6].0@ == "container"@ && strs(r@[6].1@) == group_container(),
        r@[7].0@ == "textContent"@ && strs(r@[7].1@) == group_text_content(),
        r@[8].0@ == "textContentChild"@ && strs(r@[8].1@) == group_text_content_child(),
        r@[9].0@ == "lightSource"@ && strs(r@[9].1@) == group_light_source(),
        r@[10].0@ == "filterPrimitive"@ && strs(r@[10].1@) == group_filter_primitive(),
{
    let r = vec![
        ("animation", vec![
            "animate",
            "animateColor",
            "animateMotion",
            "animateTransform",
            "set",
        ]),
        ("descriptive", vec![
            "desc",
            "metadata",
            "title",
        ]),
        ("shape", vec![
            "circle",
            "ellipse",
            "line",
            "path",
            "polygon",
            "polyline",
            "rect",
        ]),
        ("structural", vec![
            "defs",
            "g",
            "svg",
            "symbol",
            "use",
        ]),
        ("paintServer", vec![
            "solidColor",
            "linearGradient",
            "radialGradient",
            "meshGradient",
            "pattern",
            "hatch",
        ]),
        ("nonRendering", vec![
            "linearGradient",
            "radialGradient",
            "pattern",
            "clipPath",
            "mask",
            "marker",
            "symbol",
            "filter",
            "solidColor",
        ]),
        ("container", vec![
            "a",
            "defs",
            "g",
            "marker",
            "mask",
            "missing-glyph",
            "pattern",
            "svg",
            "switch",
            "symbol",
            "foreignObject",
        ]),
        ("textContent", vec![
            "altGlyph",
            "altGlyphDef",
            "altGlyphItem",
            "glyph",
            "glyphRef",
            "textPath",
            "text",
            "tref",
            "tspan",
        ]),
        ("textContentChild", vec![
            "altGlyph",
            "textPath",
            "tref",
            "tspan",
        ]),
        ("lightSource", vec![
            "feDiffuseLighting",
            "feSpecularLighting",
            "feDistantLight",
            "fePointLight",
            "feSpotLight",
        ]),
        ("filterPrimitive", vec![
            "feBlend",
            "feColorMatrix",
            "feComponentTransfer",
            "feComposite",
            "feConvolveMatrix",
            "feDiffuseLighting",
            "feDisplacementMap",
            "feDropShadow",
            "feFlood",
            "feFuncA",
            "feFuncB",
            "feFuncG",
            "feFuncR",
            "feGaussianBlur",
            "feImage",
            "feMerge",
            "feMergeNode",
            "feMorphology",
            "feOffset",
            "feSpecularLighting",
            "feTile",
            "feTurbulence",
        ]),
    ];
    proof {
        assert(strs(r@[0].1@) =~= group_animation());
        assert(strs(r@[1].1@) =~= group_descriptive());
        assert(strs(r@[2].1@) =~= group_shape());
        assert(strs(r@[3].1@) =~= group_structural());
        assert(strs(r@[4].1@) =~= group_paint_server());
        assert(strs(r@[5].1@) =~= group_non_rendering());
        assert(strs(r@[6].1@) =~= group_container());
        assert(strs(r@[7].1@) =~= group_text_content());
        assert(strs(r@[8].1@) =~= group_text_content_child());
        assert(strs(r@[9].1@) =~= group_light_source());
        assert(strs(r@[10].1@) =~= group_filter_primitive());
    }
    r
}

/// The elements whose text content is rendering-significant.
pub open spec fn text_elems() -> Seq<Seq<char>> {
    group_text_content().push("title"@)
}

pub fn get_text_elems() -> (r: Vec<&'static str>)
    ensures
        strs(r@) == text_elems(),
{
    let r = vec![
        "altGlyph",
        "altGlyphDef",
        "altGlyphItem",
        "glyph",
        "glyphRef",
        "textPath",
        "text",
        "tref",
        "tspan",
        "title",
    ];
    assert(strs(r@) =~= text_elems());
    r
}

/// The presentation attributes that inherit from ancestor to descendant.
pub open spec fn inheritable_attrs() -> Seq<Seq<char>> {
    seq![
        "clip-rule"@,
        "color"@,
        "color-interpolation"@,
        "color-interpolation-filters"@,
        "color-profile"@,
        "color-rendering"@,
        "cursor"@,
        "direction"@,
        "dominant-baseline"@,
        "fill"@,
        "fill-opacity"@,
        "fill-rule"@,
        "font"@,
        "font-family"@,
        "font-size"@,
        "font-size-adjust"@,
        "font-stretch"@,
        "font-style"@,
        "font-variant"@,
        "font-weight"@,
        "glyph-orientation-horizontal"@,
        "glyph-orientation-vertical"@,
        "image-rendering"@,
        "letter-spacing"@,
        "marker"@,
        "marker-end"@,
        "marker-mid"@,
        "marker-start"@,
        "paint-order"@,
        "pointer-events"@,
        "shape-rendering"@,
        "stroke"@,
        "stroke-dasharray"@,
        "stroke-dashoffset"@,
        "stroke-linecap"@,
        "stroke-linejoin"@,
        "stroke-miterlimit"@,
        "stroke-opacity"@,
        "stroke-width"@,
        "text-anchor"@,
        "text-rendering"@,
        "transform"@,
        "visibility"@,
        "word-spacing"@,
        "writing-mode"@,
    ]
}

pub fn get_inheritable_attrs() -> (r: Vec<&'static str>)
    ensures
        strs(r@) == inheritable_attrs(),
{
    let r = vec![
        "clip-rule",
        "color",
        "color-interpolation",
        "color-interpolation-filters",
        "color-profile",
        "color-rendering",
        "cursor",
        "direction",
        "dominant-baseline",
        "fill",
        "fill-opacity",
        "fill-rule",
        "font",
        "font-family",
        "font-size",
        "font-size-adjust",
        "font-stretch",
        "font-style",
        "font-variant",
        "font-weight",
        "glyph-orientation-horizontal",
        "glyph-orientation-vertical",
        "image-rendering",
        "letter-spacing",
        "marker",
        "marker-end",
        "marker-mid",
        "marker-start",
        "paint-order",
        "pointer-events",
        "shape-rendering",
        "stroke",
        "stroke-dasharray",
        "stroke-dashoffset",
        "stroke-linecap",
        "stroke-linejoin",
        "stroke-miterlimit",
        "stroke-opacity",
        "stroke-width",
        "text-anchor",
        "text-rendering",
        "transform",
        "visibility",
        "word-spacing",
        "writing-mode",
    ];
    assert(strs(r@) =~= inheritable_attrs());
    r
}

/// The properties whose value may point at an element by `url(#id)`.
pub open spec fn references_props() -> Seq<Seq<char>> {
    seq![
        "clip-path"@,
        "color-profile"@,
        "fill"@,
        "filter"@,
        "marker-start"@,
        "marker-mid"@,
        "marker-end"@,
        "mask"@,
        "stroke"@,
        "style"@,
    ]
}

pub fn get_references_props() -> (r: Vec<&'static str>)
    ensures
        strs(r@) == references_props(),
{
    let r = vec![
        "clip-path",
        "color-profile",
        "fill",
        "filter",
        "marker-start",
        "marker-mid",
        "marker-end",
        "mask",
        "stroke",
        "style",
    ];
    assert(strs(r@) =~= references_props());
    r
}

/// Colour keywords with their hexadecimal forms.
pub open spec fn colors_names() -> Seq<(Seq<char>, Seq<char>)> {
    seq![
        ("aliceblue"@, "#f0f8ff"@),
        ("antiquewhite"@, "#faebd7"@),
        ("aqua"@, "#0ff"@),
        ("aquamarine"@, "#7fffd4"@),
        ("azure"@, "#f0ffff"@),
        ("beige"@, "#f5f5dc"@),
        ("bisque"@, "#ffe4c4"@),
        ("black"@, "#000"@),
        ("blanchedalmond"@, "#ffebcd"@),
        ("blue"@, "#00f"@),
        ("blueviolet"@, "#8a2be2"@),
        ("brown"@, "#a52a2a"@),
        ("burlywood"@, "#deb887"@),
        ("cadetblue"@, "#5f9ea0"@),
        ("chartreuse"@, "#7fff00"@),
        ("chocolate"@, "#d2691e"@),
        ("coral"@, "#ff7f50"@),
        ("cornflowerblue"@, "#6495ed"@),
        ("cornsilk"@, "#fff8dc"@),
        ("crimson"@, "#dc143c"@),
        ("cyan"@, "#0ff"@),
        ("darkblue"@, "#00008b"@),
        ("darkcyan"@, "#008b8b"@),
        ("darkgoldenrod"@, "#b8860b"@),
        ("darkgray"@, "#a9a9a9"@),
        ("darkgreen"@, "#006400"@),
        ("darkgrey"@, "#a9a9a9"@),
        ("darkkhaki"@, "#bdb76b"@),
        ("darkmagenta"@, "#8b008b"@),
        ("darkolivegreen"@, "#556b2f"@),
        ("darkorange"@, "#ff8c00"@),
        ("darkorchid"@, "#9932cc"@),
        ("darkred"@, "#8b0000"@),
        ("darksalmon"@, "#e9967a"@),
        ("darkseagreen"@, "#8fbc8f"@),
        ("darkslateblue"@, "#483d8b"@),
        ("darkslategray"@, "#2f4f4f"@),
        ("darkslategrey"@, "#2f4f4f"@),
        ("darkturquoise"@, "#00ced1"@),
        ("darkviolet"@, "#9400d3"@),
        ("deeppink"@, "#ff1493"@),
        ("deepskyblue"@, "#00bfff"@),
        ("dimgray"@, "#696969"@),
        ("dimgrey"@, "#696969"@),
        ("dodgerblue"@, "#1e90ff"@),
        ("firebrick"@, "#b22222"@),
        ("floralwhite"@, "#fffaf0"@),
        ("forestgreen"@, "#228b22"@),
        ("fuchsia"@, "#f0f"@),
        ("gainsboro"@, "#dcdcdc"@),
        ("ghostwhite"@, "#f8f8ff"@),
        ("gold"@, "#ffd700"@),
        ("goldenrod"@, "#daa520"@),
        ("gray"@, "#808080"@),
        ("green"@, "#008000"@),
        ("greenyellow"@, "#adff2f"@),
        ("grey"@, "#808080"@),
        ("honeydew"@, "#f0fff0"@),
        ("hotpink"@, "#ff69b4"@),
        ("indianred"@, "#cd5c5c"@),
        ("indigo"@, "#4b0082"@),
        ("ivory"@, "#fffff0"@),
        ("khaki"@, "#f0e68c"@),
        ("lavender"@, "#e6e6fa"@),
        ("lavenderblush"@, "#fff0f5"@),
        ("lawngreen"@, "#7cfc00"@),
        ("lemonchiffon"@, "#fffacd"@),
        ("lightblue"@, "#add8e6"@),
        ("lightcoral"@, "#f08080"@),
        ("lightcyan"@, "#e0ffff"@),
        ("lightgoldenrodyellow"@, "#fafad2"@),
        ("lightgray"@, "#d3d3d3"@),
        ("lightgreen"@, "#90ee90"@),
        ("lightgrey"@, "#d3d3d3"@),
        ("lightpink"@, "#ffb6c1"@),
        ("lightsalmon"@, "#ffa07a"@),
        ("lightseagreen"@, "#20b2aa"@),
        ("lightskyblue"@, "#87cefa"@),
        ("lightslategray"@, "#789"@),
        ("lightslategrey"@, "#789"@),
        ("lightsteelblue"@, "#b0c4de"@),
        ("lightyellow"@, "#ffffe0"@),
        ("lime"@, "#0f0"@),
        ("limegreen"@, "#32cd32"@),
        ("linen"@, "#faf0e6"@),
        ("magenta"@, "#f0f"@),
        ("maroon"@, "#800000"@),
        ("mediumaquamarine"@, "#66cdaa"@),
        ("mediumblue"@, "#0000cd"@),
        ("mediumorchid"@, "#ba55d3"@),
        ("mediumpurple"@, "#9370db"@),
        ("mediumseagreen"@, "#3cb371"@),
        ("mediumslateblue"@, "#7b68ee"@),
        ("mediumspringgreen"@, "#00fa9a"@),
        ("mediumturquoise"@, "#48d1cc"@),
        ("mediumvioletred"@, "#c71585"@),
        ("midnightblue"@, "#191970"@),
        ("mintcream"@, "#f5fffa"@),
        ("mistyrose"@, "#ffe4e1"@),
        ("moccasin"@, "#ffe4b5"@),
        ("navajowhite"@, "#ffdead"@),
        ("navy"@, "#000080"@),
        ("oldlace"@, "#fdf5e6"@),
        ("olive"@, "#808000"@),
        ("olivedrab"@, "#6b8e23"@),
        ("orange"@, "#ffa500"@),
        ("orangered"@, "#ff4500"@),
        ("orchid"@, "#da70d6"@),
        ("palegoldenrod"@, "#eee8aa"@),
        ("palegreen"@, "#98fb98"@),
        ("paleturquoise"@, "#afeeee"@),
        ("palevioletred"@, "#db7093"@),
        ("papayawhip"@, "#ffefd5"@),
        ("peachpuff"@, "#ffdab9"@),
        ("peru"@, "#cd853f"@),
        ("pink"@, "#ffc0cb"@),
        ("plum"@, "#dda0dd"@),
        ("powderblue"@, "#b0e0e6"@),
        ("purple"@, "#800080"@),
        ("rebeccapurple"@, "#639"@),
        ("red"@, "#f00"@),
        ("rosybrown"@, "#bc8f8f"@),
        ("royalblue"@, "#4169e1"@),
        ("saddlebrown"@, "#8b4513"@),
        ("salmon"@, "#fa8072"@),
        ("sandybrown"@, "#f4a460"@),
        ("seagreen"@, "#2e8b57"@),
        ("seashell"@, "#fff5ee"@),
        ("sienna"@, "#a0522d"@),
        ("silver"@, "#c0c0c0"@),
        ("skyblue"@, "#87ceeb"@),
        ("slateblue"@, "#6a5acd"@),
        ("slategray"@, "#708090"@),
        ("slategrey"@, "#708090"@),
        ("snow"@, "#fffafa"@),
        ("springgreen"@, "#00ff7f"@),
        ("steelblue"@, "#4682b4"@),
        ("tan"@, "#d2b48c"@),
        ("teal"@, "#008080"@),
        ("thistle"@, "#d8bfd8"@),
        ("tomato"@, "#ff6347"@),
        ("turquoise"@, "#40e0d0"@),
        ("violet"@, "#ee82ee"@),
        ("wheat"@, "#f5deb3"@),
        ("white"@, "#fff"@),
        ("whitesmoke"@, "#f5f5f5"@),
        ("yellow"@, "#ff0"@),
        ("yellowgreen"@, "#9acd32"@),
    ]
}

pub fn get_colors_names() -> (r: Vec<(&'static str, &'static str)>)
    ensures
        str_pairs(r@) == colors_names(),
{
    let r = vec![
        ("aliceblue", "#f0f8ff"),
        ("antiquewhite", "#faebd7"),
        ("aqua", "#0ff"),
        ("aquamarine", "#7fffd4"),
        ("azure", "#f0ffff"),
        ("beige", "#f5f5dc"),
        ("bisque", "#ffe4c4"),
        ("black", "#000"),
        ("blanchedalmond", "#ffebcd"),
        ("blue", "#00f"),
        ("blueviolet", "#8a2be2"),
        ("brown", "#a52a2a"),
        ("burlywood", "#deb887"),
        ("cadetblue", "#5f9ea0"),
        ("chartreuse", "#7fff00"),
        ("chocolate", "#d2691e"),
        ("coral", "#ff7f50"),
        ("cornflowerblue", "#6495ed"),
        ("cornsilk", "#fff8dc"),
        ("crimson", "#dc143c"),
        ("cyan", "#0ff"),
        ("darkblue", "#00008b"),
        ("darkcyan", "#008b8b"),
        ("darkgoldenrod", "#b8860b"),
        ("darkgray", "#a9a9a9"),
        ("darkgreen", "#006400"),
        ("darkgrey", "#a9a9a9"),
        ("darkkhaki", "#bdb76b"),
        ("darkmagenta", "#8b008b"),
        ("darkolivegreen", "#556b2f"),
        ("darkorange", "#ff8c00"),
        ("darkorchid", "#9932cc"),
        ("darkred", "#8b0000"),
        ("darksalmon", "#e9967a"),
        ("darkseagreen", "#8fbc8f"),
        ("darkslateblue", "#483d8b"),
        ("darkslategray", "#2f4f4f"),
        ("darkslategrey", "#2f4f4f"),
        ("darkturquoise", "#00ced1"),
        ("darkviolet", "#9400d3"),
        ("deeppink", "#ff1493"),
        ("deepskyblue", "#00bfff"),
        ("dimgray", "#696969"),
        ("dimgrey", "#696969"),
        ("dodgerblue", "#1e90ff"),
        ("firebrick", "#b22222"),
        ("floralwhite", "#fffaf0"),
        ("forestgreen", "#228b22"),
        ("fuchsia", "#f0f"),
        ("gainsboro", "#dcdcdc"),
        ("ghostwhite", "#f8f8ff"),
        ("gold", "#ffd700"),
        ("goldenrod", "#daa520"),
        ("gray", "#808080"),
        ("green", "#008000"),
        ("greenyellow", "#adff2f"),
        ("grey", "#808080"),
        ("honeydew", "#f0fff0"),
        ("hotpink", "#ff69b4"),
        ("indianred", "#cd5c5c"),
        ("indigo", "#4b0082"),
        ("ivory", "#fffff0"),
        ("khaki", "#f0e68c"),
        ("lavender", "#e6e6fa"),
        ("lavenderblush", "#fff0f5"),
        ("lawngreen", "#7cfc00"),
        ("lemonchiffon", "#fffacd"),
        ("lightblue", "#add8e6"),
        ("lightcoral", "#f08080"),
        ("lightcyan", "#e0ffff"),
        ("lightgoldenrodyellow", "#fafad2"),
        ("lightgray", "#d3d3d3"),
        ("lightgreen", "#90ee90"),
        ("lightgrey", "#d3d3d3"),
        ("lightpink", "#ffb6c1"),
        ("lightsalmon", "#ffa07a"),
        ("lightseagreen", "#20b2aa"),
        ("lightskyblue", "#87cefa"),
        ("lightslategray", "#789"),
        ("lightslategrey", "#789"),
        ("lightsteelblue", "#b0c4de"),
        ("lightyellow", "#ffffe0"),
        ("lime", "#0f0"),
        ("limegreen", "#32cd32"),
        ("linen", "#faf0e6"),
        ("magenta", "#f0f"),
        ("maroon", "#800000"),
        ("mediumaquamarine", "#66cdaa"),
        ("mediumblue", "#0000cd"),
        ("mediumorchid", "#ba55d3"),
        ("mediumpurple", "#9370db"),
        ("mediumseagreen", "#3cb371"),
        ("mediumslateblue", "#7b68ee"),
        ("mediumspringgreen", "#00fa9a"),
        ("mediumturquoise", "#48d1cc"),
        ("mediumvioletred", "#c71585"),
        ("midnightblue", "#191970"),
        ("mintcream", "#f5fffa"),
        ("mistyrose", "#ffe4e1"),
        ("moccasin", "#ffe4b5"),
        ("navajowhite", "#ffdead"),
        ("navy", "#000080"),
        ("oldlace", "#fdf5e6"),
        ("olive", "#808000"),
        ("olivedrab", "#6b8e23"),
        ("orange", "#ffa500"),
        ("orangered", "#ff4500"),
        ("orchid", "#da70d6"),
        ("palegoldenrod", "#eee8aa"),
        ("palegreen", "#98fb98"),
        ("paleturquoise", "#afeeee"),
        ("palevioletred", "#db7093"),
        ("papayawhip", "#ffefd5"),
        ("peachpuff", "#ffdab9"),
        ("peru", "#cd853f"),
        ("pink", "#ffc0cb"),
        ("plum", "#dda0dd"),
        ("powderblue", "#b0e0e6"),
        ("purple", "#800080"),
        ("rebeccapurple", "#639"),
        ("red", "#f00"),
        ("rosybrown", "#bc8f8f"),
        ("royalblue", "#4169e1"),
        ("saddlebrown", "#8b4513"),
        ("salmon", "#fa8072"),
        ("sandybrown", "#f4a460"),
        ("seagreen", "#2e8b57"),
        ("seashell", "#fff5ee"),
        ("sienna", "#a0522d"),
        ("silver", "#c0c0c0"),
        ("skyblue", "#87ceeb"),
        ("slateblue", "#6a5acd"),
        ("slategray", "#708090"),
        ("slategrey", "#708090"),
        ("snow", "#fffafa"),
        ("springgreen", "#00ff7f"),
        ("steelblue", "#4682b4"),
        ("tan", "#d2b48c"),
        ("teal", "#008080"),
        ("thistle", "#d8bfd8"),
        ("tomato", "#ff6347"),
        ("turquoise", "#40e0d0"),
        ("violet", "#ee82ee"),
        ("wheat", "#f5deb3"),
        ("white", "#fff"),
        ("whitesmoke", "#f5f5f5"),
        ("yellow", "#ff0"),
        ("yellowgreen", "#9acd32"),
    ];
    assert(str_pairs(r@) =~= colors_names());
    r
}

/// Hexadecimal colours whose keyword is shorter, with that keyword.
pub open spec fn colors_short_names() -> Seq<(Seq<char>, Seq<char>)> {
    seq![
        ("#f0ffff"@, "azure"@),
        ("#f5f5dc"@, "beige"@),
        ("#ffe4c4"@, "bisque"@),
        ("#a52a2a"@, "brown"@),
        ("#ff7f50"@, "coral"@),
        ("#ffd700"@, "gold"@),
        ("#808080"@, "gray"@),
        ("#008000"@, "green"@),
        ("#4b0082"@, "indigo"@),
        ("#fffff0"@, "ivory"@),
        ("#f0e68c"@, "khaki"@),
        ("#faf0e6"@, "linen"@),
        ("#800000"@, "maroon"@),
        ("#000080"@, "navy"@),
        ("#808000"@, "olive"@),
        ("#ffa500"@, "orange"@),
        ("#da70d6"@, "orchid"@),
        ("#cd853f"@, "peru"@),
        ("#ffc0cb"@, "pink"@),
        ("#dda0dd"@, "plum"@),
        ("#800080"@, "purple"@),
        ("#f00"@, "red"@),
        ("#ff0000"@, "red"@),
        ("#fa8072"@, "salmon"@),
        ("#a0522d"@, "sienna"@),
        ("#c0c0c0"@, "silver"@),
        ("#fffafa"@, "snow"@),
        ("#d2b48c"@, "tan"@),
        ("#008080"@, "teal"@),
        ("#ff6347"@, "tomato"@),
        ("#ee82ee"@, "violet"@),
        ("#f5deb3"@, "wheat"@),
    ]
}

pub fn get_colors_short_names() -> (r: Vec<(&'static str, &'static str)>)
    ensures
        str_pairs(r@) == colors_short_names(),
{
    let r = vec![
        ("#f0ffff", "azure"),
        ("#f5f5dc", "beige"),
        ("#ffe4c4", "bisque"),
        ("#a52a2a", "brown"),
        ("#ff7f50", "coral"),
        ("#ffd700", "gold"),
        ("#808080", "gray"),
        ("#008000", "green"),
        ("#4b0082", "indigo"),
        ("#fffff0", "ivory"),
        ("#f0e68c", "khaki"),
        ("#faf0e6", "linen"),
        ("#800000", "maroon"),
        ("#000080", "navy"),
        ("#808000", "olive"),
        ("#ffa500", "orange"),
        ("#da70d6", "orchid"),
        ("#cd853f", "peru"),
        ("#ffc0cb", "pink"),
        ("#dda0dd", "plum"),
        ("#800080", "purple"),
        ("#f00", "red"),
        ("#ff0000", "red"),
        ("#fa8072", "salmon"),
        ("#a0522d", "sienna"),
        ("#c0c0c0", "silver"),
        ("#fffafa", "snow"),
        ("#d2b48c", "tan"),
        ("#008080", "teal"),
        ("#ff6347", "tomato"),
        ("#ee82ee", "violet"),
        ("#f5deb3", "wheat"),
    ];
    assert(str_pairs(r@) =~= colors_short_names());
    r
}

/// The properties that take a colour.
pub open spec fn colors_props() -> Seq<Seq<char>> {
    seq![
        "color"@,
        "fill"@,
        "stroke"@,
        "stop-color"@,
        "flood-color"@,
        "lighting-color"@,
    ]
}

pub fn get_colors_props() -> (r: Vec<&'static str>)
    ensures
        strs(r@) == colors_props(),
{
    let r = vec![
        "color",
        "fill",
        "stroke",
        "stop-color",
        "flood-color",
        "lighting-color",
    ];
    assert(strs(r@) =~= colors_props());
    r
}

/// Whether `name` is one of `table`.
pub fn contains_name(table: &Vec<&'static str>, name: &Vec<char>) -> (r: bool)
    ensures
        r == strs(table@).contains(name@),
{
    let mut i: usize = 0;
    while i < table.len()
        invariant
            i <= table.len(),
            forall|k: int| 0 <= k < i ==> table@[k]@ != name@,
        decreases table.len() - i,
    {
        if crate::text::eq_str(name, table[i]) {
            assert(strs(table@)[i as int] == name@);
            return true;
        }
        i += 1;
    }
    assert(!strs(table@).contains(name@)) by {
        if strs(table@).contains(name@) {
            let k = choose|k: int| 0 <= k < strs(table@).len() && strs(table@)[k] == name@;
            assert(table@[k]@ == name@);
        }
    }
    false
}

/// The value that the first entry of `t` with key `k` gives.
pub open spec fn lookup(t: Seq<(Seq<char>, Seq<char>)>, k: Seq<char>) -> Option<Seq<char>>
    decreases t.len(),
{
    if t.len() == 0 {
        None
    } else if t[0].0 == k {
        Some(t[0].1)
    } else {
        lookup(t.drop_first(), k)
    }
}

/// The value of the first entry of `table` whose key is `key`.
pub fn lookup_name(table: &Vec<(&'static str, &'static str)>, key: &Vec<char>) -> (r: Option<Vec<char>>)
    ensures
        r is Some <==> lookup(str_pairs(table@), key@) is Some,
        r is Some ==> r->0@ == lookup(str_pairs(table@), key@)->0,
{
    let mut i: usize = 0;
    assert(str_pairs(table@).subrange(0, table@.len() as int) =~= str_pairs(table@));
    while i < table.len()
        invariant
            i <= table.len(),
            lookup(str_pairs(table@), key@) == lookup(str_pairs(table@).subrange(i as int, table@.len() as int), key@),
        decreases table.len() - i,
    {
        let ghost rest = str_pairs(table@).subrange(i as int, table@.len() as int);
        assert(rest.drop_first() =~= str_pairs(table@).subrange(i + 1, table@.len() as int));
        if crate::text::eq_str(key, table[i].0) {
            return Some(crate::text::chars_of(table[i].1));
        }
        i += 1;
    }
    None
}

/// The animation elements.
pub fn get_elems_groups_animation() -> (r: Vec<&'static str>)
    ensures
        strs(r@) == group_animation(),
{
    let r = vec!["animate", "animateColor", "animateMotion", "animateTransform", "set"];
    assert(strs(r@) =~= group_animation());
    r
}

} // verus!
