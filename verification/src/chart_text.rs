//! Chart text roles: every string a chart draws wears one of three
//! stylesheet classes, and the class decides the weight it is measured and
//! rendered at.

use vstd::prelude::*;
use crate::values::same_text;

verus! {

/// Data text: tick labels, axis titles, band ticks, mark labels, a radial
/// chart's spoke categories. Normal weight, so the numbers read quietly
/// under the captions.
pub const TEXT: &'static str = "chart-text";

/// A legend entry: chrome, so semibold beside the title.
pub const LEGEND: &'static str = "chart-legend";

/// A per-datum inline label: data text that also takes no pointer events.
pub const LABEL: &'static str = "chart-label";

/// A font weight.
#[derive(Clone, Copy, PartialEq, Eq, Structural, Debug)]
pub enum Weight {
    Regular,
    Semibold,
}

/// A face: a weight of a font kind.
#[derive(Clone, Copy, PartialEq, Eq, Debug)]
pub struct Font<K> {
    pub weight: Weight,
    pub kind: K,
}

impl<K> Font<K> {
    pub fn regular(kind: K) -> (f: Font<K>)
        ensures
            f.weight == Weight::Regular,
            f.kind == kind,
    {
        Font { weight: Weight::Regular, kind }
    }

    pub fn semibold(kind: K) -> (f: Font<K>)
        ensures
            f.weight == Weight::Semibold,
            f.kind == kind,
    {
        Font { weight: Weight::Semibold, kind }
    }
}

/// The weight a role renders at: semibold for a legend entry, regular for
/// every other role. Read once here, so the measured box and the rule's own
/// `font-weight` cannot disagree.
pub fn font<K>(class: &str, kind: K) -> (f: Font<K>)
    ensures
        f.kind == kind,
        f.weight == (if class@ == LEGEND@ {
            Weight::Semibold
        } else {
            Weight::Regular
        }),
{
    if same_text(class, LEGEND) {
        Font::semibold(kind)
    } else {
        Font::regular(kind)
    }
}

} // verus!
