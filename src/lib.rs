//! An SVG optimizer: a document tree, a pipeline of meaning-preserving rewrites, and a
//! serializer, each stated and proved against a mathematical model of the tree.
use vstd::prelude::*;

pub mod attrs;
pub mod background;
pub mod collections;
pub mod colors;
pub mod ellipse;
pub mod groups;
pub mod ids;
pub mod model;
pub mod numeric;
pub mod stringifier;
pub mod text;
pub mod tidy;
pub mod visit;
pub mod writer;

use crate::model::{Document, NodeV, doc_view};
use crate::visit::rewrite_nodes;

verus! {

/// The optimized text.
pub struct Output {
    pub data: String,
}

/// Where the options come from.
pub struct Config {
    pub path: Option<String>,
}

/// One transform of the pipeline, with its options.
pub enum Transform {
    CleanupAttrs,
    CleanupEnableBackground,
    CleanupIds(ids::Params),
    CleanupNumericValues(numeric::Params),
    ConvertColors(colors::Params),
    CollapseGroups,
    ConvertEllipseToCircle,
}

/// A transform as a value.
pub enum TransformV {
    CleanupAttrs,
    CleanupEnableBackground,
    CleanupIds(ids::ParamsV),
    CleanupNumericValues(numeric::Params),
    ConvertColors(colors::ParamsV),
    CollapseGroups,
    ConvertEllipseToCircle,
}

impl View for Transform {
    type V = TransformV;

    open spec fn view(&self) -> TransformV {
        match self {
            Transform::CleanupAttrs => TransformV::CleanupAttrs,
            Transform::CleanupEnableBackground => TransformV::CleanupEnableBackground,
            Transform::CleanupIds(p) => TransformV::CleanupIds(p@),
            Transform::CleanupNumericValues(p) => TransformV::CleanupNumericValues(*p),
            Transform::ConvertColors(p) => TransformV::ConvertColors(p@),
            Transform::CollapseGroups => TransformV::CollapseGroups,
            Transform::ConvertEllipseToCircle => TransformV::ConvertEllipseToCircle,
        }
    }
}

/// The document after one transform.
pub open spec fn transform_spec(t: TransformV, d: Seq<NodeV>) -> Seq<NodeV> {
    match t {
        TransformV::CleanupAttrs => rewrite_nodes::<attrs::CleanupAttrs>((), d),
        TransformV::CleanupEnableBackground => rewrite_nodes::<background::Background>(background::has_filter_in(d), d),
        TransformV::CleanupIds(p) => ids::cleanup_ids(d, p),
        TransformV::CleanupNumericValues(p) => rewrite_nodes::<numeric::Params>(p, d),
        TransformV::ConvertColors(p) => rewrite_nodes::<colors::Params>(p, d),
        TransformV::CollapseGroups => Seq::new(d.len(), |i: int| groups::collapse_node(d[i])),
        TransformV::ConvertEllipseToCircle => rewrite_nodes::<ellipse::EllipseToCircle>((), d),
    }
}

/// The document after each transform in turn.
pub open spec fn pipeline_spec(ts: Seq<TransformV>, d: Seq<NodeV>) -> Seq<NodeV>
    decreases ts.len(),
{
    if ts.len() == 0 {
        d
    } else {
        pipeline_spec(ts.drop_first(), transform_spec(ts[0], d))
    }
}

pub open spec fn transforms_view(ts: Seq<Transform>) -> Seq<TransformV> {
    Seq::new(ts.len(), |i: int| ts[i]@)
}

/// The default pipeline, in order: whitespace, background regions, identifiers, numbers,
/// colours, groups, ellipses; every transform with its default options.
pub open spec fn default_pipeline() -> Seq<TransformV> {
    seq![
        TransformV::CleanupAttrs,
        TransformV::CleanupEnableBackground,
        TransformV::CleanupIds(ids::ParamsV { remove: true, minify: true, preserve: Seq::empty(), preserve_prefixes: Seq::empty(), force: false }),
        TransformV::CleanupNumericValues(numeric::Params { float_precision: 3, leading_zero: true, default_px: true, convert_to_px: true }),
        TransformV::ConvertColors(colors::ParamsV { current_color: colors::CurrentColorV::Bool(false), names2hex: true, rgb2hex: true, shorthex: true, shortname: true }),
        TransformV::CollapseGroups,
        TransformV::ConvertEllipseToCircle,
    ]
}

/// The default pipeline.
pub fn get_default_pipeline() -> (r: Vec<Transform>)
    ensures
        transforms_view(r@) == default_pipeline(),
{
    let mut r: Vec<Transform> = Vec::new();
    r.push(Transform::CleanupAttrs);
    r.push(Transform::CleanupEnableBackground);
    r.push(Transform::CleanupIds(ids::Params::new()));
    r.push(Transform::CleanupNumericValues(numeric::Params::new()));
    r.push(Transform::ConvertColors(colors::Params::new()));
    r.push(Transform::CollapseGroups);
    r.push(Transform::ConvertEllipseToCircle);
    proof {
        assert(ids::string_views(Seq::<String>::empty()) =~= Seq::<Seq<char>>::empty());
        assert(r@[2]@ == default_pipeline()[2]) by {
            let p = r@[2]->CleanupIds_0;
            assert(p.preserve@ =~= Seq::<String>::empty());
            assert(p.preserve_prefixes@ =~= Seq::<String>::empty());
        }
        assert(transforms_view(r@) =~= default_pipeline());
    }
    r
}

/// Applies one transform to the document.
pub fn apply_transform(doc: &mut Document, t: &Transform)
    ensures
        doc_view(*final(doc)) == transform_spec(t@, doc_view(*old(doc))),
{
    match t {
        Transform::CleanupAttrs => attrs::apply(doc),
        Transform::CleanupEnableBackground => background::apply(doc),
        Transform::CleanupIds(p) => ids::apply(doc, p),
        Transform::CleanupNumericValues(p) => numeric::apply(doc, p),
        Transform::ConvertColors(p) => colors::apply(doc, p),
        Transform::CollapseGroups => groups::apply(doc, &groups::Params::new()),
        Transform::ConvertEllipseToCircle => ellipse::apply(doc, &ellipse::Params::new()),
    }
}

/// Applies each transform to the document, in order.
pub fn run_pipeline(doc: &mut Document, ts: &Vec<Transform>)
    ensures
        doc_view(*final(doc)) == pipeline_spec(transforms_view(ts@), doc_view(*old(doc))),
{
    let ghost all = transforms_view(ts@);
    let ghost d0 = doc_view(*doc);
    let mut i: usize = 0;
    assert(all.subrange(0, all.len() as int) =~= all);
    while i < ts.len()
        invariant
            all == transforms_view(ts@),
            i <= ts.len(),
            pipeline_spec(all.subrange(i as int, all.len() as int), doc_view(*doc)) == pipeline_spec(all, d0),
        decreases ts.len() - i,
    {
        let ghost rest = all.subrange(i as int, all.len() as int);
        assert(rest.drop_first() =~= all.subrange(i + 1, all.len() as int));
        assert(rest[0] == ts@[i as int]@);
        apply_transform(doc, &ts[i]);
        i += 1;
    }
    assert(all.subrange(i as int, all.len() as int) =~= Seq::<TransformV>::empty());
}

/// The text that the default optimization gives for a freshly parsed document.
pub open spec fn optimized(d: Seq<NodeV>) -> Seq<char> {
    stringifier::stringify(
        stringifier::default_options(true),
        pipeline_spec(default_pipeline(), Seq::new(d.len(), |i: int| tidy::tidy_node(d[i]))),
    )
}

/// Optimizes a freshly parsed document: tidies it, runs the default pipeline, and writes it
/// out in pretty form.
pub fn optimize(doc: Document) -> (r: Output)
    ensures
        r.data@ == optimized(doc_view(doc)),
{
    let mut doc = doc;
    tidy::tidy(&mut doc);
    let ts = get_default_pipeline();
    run_pipeline(&mut doc, &ts);
    let o = stringifier::StringifyOptions::new(true);
    let v = stringifier::stringify_svg(&doc, &o);
    Output { data: text::string_of(&v) }
}

} // verus!
