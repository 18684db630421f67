//! What changelogs of BYML documents are recorded against: the document's
//! type and how deep in its maps a value sits.

use vstd::prelude::*;

use crate::byml_keys::{
    array_builder, array_builder_spec, bgyml_type, bgyml_type_spec, key_view, ArrayBuilder,
    ArrayBuilderView, KeyName,
};

verus! {

/// The document's bgyml type and the current map depth.
#[derive(Debug, Clone, Default)]
pub struct TrackingInfo {
    pub bgyml_type: String,
    pub depth: i32,
}

impl TrackingInfo {
    /// The tracking of a document at `canonical`, at its top.
    pub fn for_canonical(canonical: &str) -> (r: TrackingInfo)
        ensures
            r.bgyml_type@ == bgyml_type_spec(canonical@),
            r.depth == 0,
    {
        TrackingInfo { bgyml_type: bgyml_type(canonical), depth: 0 }
    }
}

/// Picks the array changelog builder for an array named `name` inside a map.
pub fn default_provider(info: &TrackingInfo, name: &str) -> (r: ArrayBuilder)
    ensures
        r@ == array_builder_spec(name@, info.bgyml_type@, info.depth as int),
{
    array_builder(name, info.bgyml_type.as_str(), info.depth)
}

/// How an array that is a whole document, or sits in another array, is
/// recorded: ecocat tables at their top by area number, anything else by
/// value.
pub open spec fn unnamed_array_builder_spec(bgyml_type: Seq<char>, depth: i32) -> ArrayBuilderView {
    if bgyml_type == "ecocat"@ && depth == 0 {
        ArrayBuilderView::Keyed(key_view("AreaNumber"@))
    } else {
        ArrayBuilderView::Default
    }
}

pub fn unnamed_array_builder(info: &TrackingInfo) -> (r: ArrayBuilder)
    ensures
        r@ == unnamed_array_builder_spec(info.bgyml_type@, info.depth),
{
    let t = crate::text::chars_of(info.bgyml_type.as_str());
    if crate::text::is_lit(t.as_slice(), "ecocat") && info.depth == 0 {
        ArrayBuilder::Keyed(KeyName { primary: "AreaNumber", secondary: None })
    } else {
        ArrayBuilder::Default
    }
}

} // verus!
