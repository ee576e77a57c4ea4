//! `|band|` and `|mark|` annotations, bound to an axis and placed by value.
//!
//! Finding the bound axis, the label, the colours, the marker and the
//! tooltip are the work of other readers; what they made of the instance is
//! handed in, and these readers place the annotation on its axis.

use vstd::prelude::*;
use crate::axis::{stands_for, Domain};
use crate::values::{outcome, Error, Num, ResolvedInst, ResolvedValue, Span};

verus! {

pub const BAND_ENDS: &'static str = "a band's 'range' ends are numbers";

pub const BAND_SPAN: &'static str = "a band's extent is 'range: a b' — 'span' places a grid child";

pub const BAND_NEEDS_RANGE: &'static str = "a '|band|' needs 'range: a b'";

pub const AT: &'static str = "'at' takes one value (a line) or two (a point)";

pub const MARK_NEEDS_AXIS: &'static str = "a '|mark|' needs 'axis:' to place it";

/// The axis an annotation is bound to: the x (domain) axis, or a value axis.
#[derive(Clone, Copy, PartialEq, Eq, Structural, Debug)]
pub enum AxisRef {
    X,
    Value(usize),
}

/// The domain a value measured on `axis` is written in: the x axis's own
/// kind, or numbers on a value axis, which is never dated.
pub fn domain_of(axis: &AxisRef, x: Domain) -> (r: Domain)
    ensures
        r == (match *axis {
            AxisRef::X => x,
            AxisRef::Value(_) => Domain::Number,
        }),
{
    match axis {
        AxisRef::X => x,
        AxisRef::Value(_) => Domain::Number,
    }
}

/// What a `|band|`'s `range: a b` reads as: its data range on the bound
/// axis, in that axis's domain.
pub open spec fn span_reading(inst: ResolvedInst, domain: Domain) -> Result<
    (Num, Num),
    (Span, Seq<char>),
> {
    let missing = if inst.attr("span"@) is Some {
        Err((inst.span, BAND_SPAN@))
    } else {
        Err((inst.span, BAND_NEEDS_RANGE@))
    };
    match inst.attr("range"@) {
        Some(ResolvedValue::Tuple(items)) => if items@.len() == 2 {
            match domain.reads(items@[0], BAND_ENDS@, inst.span) {
                Err(e) => Err(e),
                Ok(a) => match domain.reads(items@[1], BAND_ENDS@, inst.span) {
                    Err(e) => Err(e),
                    Ok(b) => Ok((a, b)),
                },
            }
        } else {
            missing
        },
        _ => missing,
    }
}

/// A `|band|`'s `range: a b`: the same interval shape (and the same domain)
/// an axis reads, so a band on a time axis is written in dates.
pub fn read_span(inst: &ResolvedInst, domain: Domain) -> (r: Result<(Num, Num), Error>)
    ensures
        outcome(r) == span_reading(*inst, domain),
{
    if let Some(ResolvedValue::Tuple(items)) = inst.attrs.get("range") {
        if items.len() == 2 {
            let a = match domain.value(&items[0], BAND_ENDS, inst.span) {
                Ok(a) => a,
                Err(e) => return Err(e),
            };
            let b = match domain.value(&items[1], BAND_ENDS, inst.span) {
                Ok(b) => b,
                Err(e) => return Err(e),
            };
            return Ok((a, b));
        }
    }
    if inst.attrs.get("span").is_some() {
        Err(Error::at(inst.span, BAND_SPAN))
    } else {
        Err(Error::at(inst.span, BAND_NEEDS_RANGE))
    }
}

/// Where a `|mark|` stands: a reference line at one value, or a point.
#[derive(Clone, Copy, PartialEq, Eq, Structural, Debug)]
pub enum MarkAt {
    Line(Num),
    Point(Num, Num),
}

/// What a `|mark|`'s `at:` reads as: one value (a reference line) on its
/// `bound` axis, or two (a point): the first on the domain axis (`x`), the
/// second the value on the bound one, which is always a number.
pub open spec fn at_reading(inst: ResolvedInst, bound: Domain, x: Domain) -> Result<
    MarkAt,
    (Span, Seq<char>),
> {
    let bad = Err((inst.span, AT@));
    match inst.attr("at"@) {
        Some(ResolvedValue::Tuple(items)) => if items@.len() == 2 {
            match x.reads(items@[0], AT@, inst.span) {
                Err(e) => Err(e),
                Ok(a) => match Domain::Number.reads(items@[1], AT@, inst.span) {
                    Err(e) => Err(e),
                    Ok(b) => Ok(MarkAt::Point(a, b)),
                },
            }
        } else {
            bad
        },
        Some(ResolvedValue::List(_)) => bad,
        Some(v) => match bound.reads(v, AT@, inst.span) {
            Err(e) => Err(e),
            Ok(n) => Ok(MarkAt::Line(n)),
        },
        None => bad,
    }
}

/// A point's second coordinate is a number, whatever domain either axis
/// has; its first is read on the domain axis.
pub proof fn lemma_point_value_is_numeric(inst: ResolvedInst, bound: Domain, x: Domain)
    ensures
        at_reading(inst, bound, x) matches Ok(MarkAt::Point(a, b)) ==> inst.attr("at"@) matches Some(
            ResolvedValue::Tuple(items),
        ) && items@.len() == 2 && items@[1] == ResolvedValue::Number(b) && x.reads(
            items@[0],
            AT@,
            inst.span,
        ) == Ok::<Num, (Span, Seq<char>)>(a),
{
}

/// A `|mark|`'s `at:`.
pub fn read_at(inst: &ResolvedInst, bound: Domain, x: Domain) -> (r: Result<MarkAt, Error>)
    ensures
        outcome(r) == at_reading(*inst, bound, x),
{
    match inst.attrs.get("at") {
        Some(ResolvedValue::Tuple(items)) => {
            if items.len() != 2 {
                return Err(Error::at(inst.span, AT));
            }
            let a = match x.value(&items[0], AT, inst.span) {
                Ok(a) => a,
                Err(e) => return Err(e),
            };
            let b = match Domain::Number.value(&items[1], AT, inst.span) {
                Ok(b) => b,
                Err(e) => return Err(e),
            };
            Ok(MarkAt::Point(a, b))
        },
        Some(ResolvedValue::List(_)) => Err(Error::at(inst.span, AT)),
        Some(v) => match bound.value(v, AT, inst.span) {
            Ok(n) => Ok(MarkAt::Line(n)),
            Err(e) => Err(e),
        },
        None => Err(Error::at(inst.span, AT)),
    }
}

/// A shaded band (or, without a fill, a divider) across an axis.
#[derive(Debug, PartialEq)]
pub struct Band {
    pub span: (Num, Num),
    pub axis: AxisRef,
    pub label: Option<String>,
    pub fill: Option<ResolvedValue>,
    /// The colour of the band's tick: its fill, else the muted colour.
    pub tick: ResolvedValue,
}

/// The model of an optional colour.
pub open spec fn color_model(c: Option<ResolvedValue>) -> Option<crate::values::ValueModel> {
    match c {
        Some(v) => Some(v.model()),
        None => None,
    }
}

/// A `|band|`. `bound` is the lookup of the instance's `axis:` where it names
/// one (the x axis otherwise); `fill` the real colour its `fill:` gives, if
/// any; `muted` the chart's muted colour.
pub fn read_band(
    inst: &ResolvedInst,
    bound: Option<Result<AxisRef, Error>>,
    label: Option<String>,
    fill: Option<ResolvedValue>,
    muted: ResolvedValue,
    x: Domain,
) -> (r: Result<Band, Error>)
    ensures
        match bound {
            Some(Err(e)) => r == Err::<Band, Error>(e),
            _ => {
                let axis = match bound {
                    Some(Ok(a)) => a,
                    _ => AxisRef::X,
                };
                let dom = match axis {
                    AxisRef::X => x,
                    AxisRef::Value(_) => Domain::Number,
                };
                match span_reading(*inst, dom) {
                    Err(e) => r matches Err(got) && got@ == e,
                    Ok(span) => r matches Ok(band) && band.span == span && band.axis == axis
                        && band.label == label && band.fill == fill && band.tick.model() == (
                    match fill {
                        Some(c) => c.model(),
                        None => muted.model(),
                    }),
                }
            },
        },
{
    let axis = match bound {
        Some(Ok(a)) => a,
        Some(Err(e)) => return Err(e),
        None => AxisRef::X,
    };
    let tick = match &fill {
        Some(c) => c.duplicate(),
        None => muted,
    };
    let span = match read_span(inst, domain_of(&axis, x)) {
        Ok(s) => s,
        Err(e) => return Err(e),
    };
    Ok(Band { span, axis, label, fill, tick })
}

/// A reference line or point on an axis, with its look.
#[derive(Debug, PartialEq)]
pub struct Mark<M, T> {
    pub at: MarkAt,
    pub axis: AxisRef,
    pub label: Option<String>,
    pub marker: M,
    /// The accent: the stroke, else the fill, else the muted colour.
    pub color: ResolvedValue,
    pub stroke_style: Option<ResolvedValue>,
    pub tooltip: T,
}

/// A `|mark|`. `bound` is the lookup of the instance's `axis:` (a mark needs
/// one); `stroke` and `fill` the real colours those attributes give, if any;
/// `muted` the chart's muted colour; `marker` and `tooltip` what the marker
/// and tooltip readers made of the instance.
pub fn read_mark<M, T>(
    inst: &ResolvedInst,
    bound: Option<Result<AxisRef, Error>>,
    stroke: Option<ResolvedValue>,
    fill: Option<ResolvedValue>,
    muted: ResolvedValue,
    marker: Result<M, Error>,
    tooltip: Result<T, Error>,
    label: Option<String>,
    x: Domain,
) -> (r: Result<Mark<M, T>, Error>)
    ensures
        match bound {
            None => r matches Err(e) && e@ == (inst.span, MARK_NEEDS_AXIS@),
            Some(Err(e)) => r == Err::<Mark<M, T>, Error>(e),
            Some(Ok(axis)) => {
                let dom = match axis {
                    AxisRef::X => x,
                    AxisRef::Value(_) => Domain::Number,
                };
                match at_reading(*inst, dom, x) {
                    Err(e) => r matches Err(got) && got@ == e,
                    Ok(at) => match marker {
                        Err(e) => r == Err::<Mark<M, T>, Error>(e),
                        Ok(m) => match tooltip {
                            Err(e) => r == Err::<Mark<M, T>, Error>(e),
                            Ok(t) => r matches Ok(mark) && mark.at == at && mark.axis == axis
                                && mark.label == label && mark.marker == m && mark.tooltip == t
                                && mark.color.model() == (match stroke {
                                Some(c) => c.model(),
                                None => match fill {
                                    Some(c) => c.model(),
                                    None => muted.model(),
                                },
                            }) && color_model(mark.stroke_style) == color_model(
                                inst.attr("stroke-style"@),
                            ),
                        },
                    },
                }
            },
        },
{
    let axis = match bound {
        Some(Ok(a)) => a,
        Some(Err(e)) => return Err(e),
        None => return Err(Error::at(inst.span, MARK_NEEDS_AXIS)),
    };
    let color = match stroke {
        Some(c) => c,
        None => match fill {
            Some(c) => c,
            None => muted,
        },
    };
    let at = match read_at(inst, domain_of(&axis, x), x) {
        Ok(at) => at,
        Err(e) => return Err(e),
    };
    let marker = match marker {
        Ok(m) => m,
        Err(e) => return Err(e),
    };
    let stroke_style = match inst.attrs.get("stroke-style") {
        Some(v) => Some(v.duplicate()),
        None => None,
    };
    let tooltip = match tooltip {
        Ok(t) => t,
        Err(e) => return Err(e),
    };
    Ok(Mark { at, axis, label, marker, color, stroke_style, tooltip })
}

/// Whether a `range:` value spans from `a` to `b`, as written, on an axis of
/// kind `d`.
pub open spec fn spans(v: Option<ResolvedValue>, d: Domain, a: Num, b: Num) -> bool {
    match v {
        Some(ResolvedValue::Tuple(items)) => items@.len() == 2 && stands_for(d, items@[0], a)
            && stands_for(d, items@[1], b),
        _ => false,
    }
}

/// A band's span is its `range:` as written, first end first, each end in
/// the bound axis's domain.
pub proof fn lemma_span_keeps_authored_order(inst: ResolvedInst, d: Domain, a: Num, b: Num)
    ensures
        (span_reading(inst, d) == Ok::<(Num, Num), (Span, Seq<char>)>((a, b))) <==> spans(
            inst.attr("range"@),
            d,
            a,
            b,
        ),
{
}

/// Whether an `at:` value places a point at `(a, b)`: the first item on the
/// domain axis, the second a number.
pub open spec fn places_point(v: Option<ResolvedValue>, x: Domain, a: Num, b: Num) -> bool {
    match v {
        Some(ResolvedValue::Tuple(items)) => items@.len() == 2 && stands_for(x, items@[0], a)
            && items@[1] == ResolvedValue::Number(b),
        _ => false,
    }
}

/// Whether an `at:` value places a line at `n` on an axis of kind `bound`.
pub open spec fn places_line(v: Option<ResolvedValue>, bound: Domain, n: Num) -> bool {
    match v {
        Some(ResolvedValue::Tuple(_)) => false,
        Some(ResolvedValue::List(_)) => false,
        Some(w) => stands_for(bound, w, n),
        None => false,
    }
}

/// A mark stands where its `at:` places it: a point from two values, in
/// order, or a line from one.
pub proof fn lemma_mark_stands_where_placed(inst: ResolvedInst, bound: Domain, x: Domain, a: Num, b: Num)
    ensures
        (at_reading(inst, bound, x) == Ok::<MarkAt, (Span, Seq<char>)>(MarkAt::Point(a, b)))
            <==> places_point(inst.attr("at"@), x, a, b),
        (at_reading(inst, bound, x) == Ok::<MarkAt, (Span, Seq<char>)>(MarkAt::Line(a)))
            <==> places_line(inst.attr("at"@), bound, a),
{
}

} // verus!
