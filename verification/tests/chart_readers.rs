use lini::annot::{
    domain_of, read_at, read_band, read_mark, read_span, AxisRef, MarkAt, AT, BAND_ENDS,
    BAND_NEEDS_RANGE, BAND_SPAN, MARK_NEEDS_AXIS,
};
use lini::axis::{
    date_secs, end, read_cal_step, read_grid, read_log, read_range, read_scale_kind, read_side,
    read_ticks, read_unit, CalUnit, Domain, End, Grid, ScaleKind, CAL_STEP, MIXED_DOMAIN,
    RANGE_END, RANGE_ENDS, SCALE_KINDS, SIDES, TICKS, UNIT_TEXT,
};
use lini::binary64::whole_count;
use lini::chart_text::{font, Weight, LABEL, LEGEND, TEXT};
use lini::values::{AttrMap, Error, Num, Quoted, ResolvedInst, ResolvedValue, Side, Span};

const SPAN: Span = Span { start: 3, end: 9 };

fn num(x: f64) -> ResolvedValue {
    ResolvedValue::Number(Num { bits: x.to_bits() })
}

fn n(x: f64) -> Num {
    Num { bits: x.to_bits() }
}

fn ident(s: &str) -> ResolvedValue {
    ResolvedValue::Ident(s.to_string())
}

fn date(text: &str, secs: f64) -> ResolvedValue {
    ResolvedValue::String(Quoted { text: text.to_string(), date: Some(n(secs)) })
}

fn text(s: &str) -> ResolvedValue {
    ResolvedValue::String(Quoted { text: s.to_string(), date: None })
}

fn tuple(items: Vec<ResolvedValue>) -> ResolvedValue {
    ResolvedValue::Tuple(items)
}

fn inst(attrs: Vec<(&str, ResolvedValue)>) -> ResolvedInst {
    ResolvedInst {
        attrs: AttrMap { entries: attrs.into_iter().map(|(k, v)| (k.to_string(), v)).collect() },
        span: SPAN,
    }
}

fn err(msg: &str) -> Error {
    Error { span: SPAN, message: msg.to_string() }
}

#[test]
fn a_value_reads_in_its_axis_domain() {
    assert_eq!(Domain::Number.value(&num(2.5), "x", SPAN), Ok(n(2.5)));
    assert_eq!(Domain::Date.value(&date("2026-01-31", 1769817600.0), "x", SPAN), Ok(n(1769817600.0)));
    assert_eq!(Domain::Number.value(&text("2026-01-31"), "x", SPAN), Err(err(MIXED_DOMAIN)));
    assert_eq!(Domain::Date.value(&num(3.0), "x", SPAN), Err(err(MIXED_DOMAIN)));
    assert_eq!(Domain::Number.value(&ident("wide"), "not a number", SPAN), Err(err("not a number")));
}

#[test]
fn a_string_that_is_no_date_is_named_in_the_error() {
    let q = Quoted { text: "soon".to_string(), date: None };
    assert_eq!(
        date_secs(&q, SPAN),
        Err(err("'soon' is not a date — ISO-8601: '2026-01-31', optionally 'T09:30' and 'Z'"))
    );
    assert_eq!(
        Domain::Date.value(&text("soon"), "x", SPAN).unwrap_err().message,
        "'soon' is not a date — ISO-8601: '2026-01-31', optionally 'T09:30' and 'Z'"
    );
}

#[test]
fn a_range_takes_two_ends_each_a_value_or_auto() {
    assert_eq!(read_range(&inst(vec![]), Domain::Number), Ok(None));
    let i = inst(vec![("range", tuple(vec![num(0.0), ident("auto")]))]);
    assert_eq!(read_range(&i, Domain::Number), Ok(Some((End::Num(n(0.0)), End::Auto))));
    let i = inst(vec![("range", tuple(vec![ident("auto"), num(100.0)]))]);
    assert_eq!(read_range(&i, Domain::Number), Ok(Some((End::Auto, End::Num(n(100.0))))));
    let i = inst(vec![("range", tuple(vec![date("2026-01-01", 1767225600.0), ident("auto")]))]);
    assert_eq!(read_range(&i, Domain::Date), Ok(Some((End::Num(n(1767225600.0)), End::Auto))));
}

#[test]
fn a_range_that_is_not_two_ends_is_refused() {
    let one = inst(vec![("range", num(3.0))]);
    assert_eq!(read_range(&one, Domain::Number), Err(err(RANGE_ENDS)));
    let three = inst(vec![("range", tuple(vec![num(1.0), num(2.0), num(3.0)]))]);
    assert_eq!(read_range(&three, Domain::Number), Err(err(RANGE_ENDS)));
    let word = inst(vec![("range", tuple(vec![ident("low"), num(2.0)]))]);
    assert_eq!(read_range(&word, Domain::Number), Err(err(RANGE_END)));
    let mixed = inst(vec![("range", tuple(vec![num(1.0), text("2026-01-01")]))]);
    assert_eq!(read_range(&mixed, Domain::Number), Err(err(MIXED_DOMAIN)));
}

#[test]
fn ticks_are_a_list_or_a_lone_value() {
    let i = inst(vec![("ticks", ResolvedValue::List(vec![num(0.0), num(50.0), num(100.0)]))]);
    assert_eq!(read_ticks(&i.attrs, Domain::Number, SPAN), Ok(Some(vec![n(0.0), n(50.0), n(100.0)])));
    let i = inst(vec![("ticks", num(7.0))]);
    assert_eq!(read_ticks(&i.attrs, Domain::Number, SPAN), Ok(Some(vec![n(7.0)])));
    assert_eq!(read_ticks(&inst(vec![]).attrs, Domain::Number, SPAN), Ok(None));
    let i = inst(vec![("ticks", ResolvedValue::List(vec![num(0.0), ident("mid")]))]);
    assert_eq!(read_ticks(&i.attrs, Domain::Number, SPAN), Err(err(TICKS)));
    let i = inst(vec![("ticks", ResolvedValue::List(vec![num(0.0), text("x")]))]);
    assert_eq!(read_ticks(&i.attrs, Domain::Number, SPAN), Err(err(MIXED_DOMAIN)));
}

#[test]
fn a_calendar_step_is_a_unit_with_an_optional_count() {
    assert_eq!(read_cal_step(&inst(vec![])), Ok(None));
    assert_eq!(read_cal_step(&inst(vec![("step", ident("month"))])), Ok(Some((CalUnit::Month, 1))));
    let two_weeks = inst(vec![("step", tuple(vec![num(2.0), ident("week")]))]);
    assert_eq!(read_cal_step(&two_weeks), Ok(Some((CalUnit::Week, 2))));
    let most = inst(vec![("step", tuple(vec![num(1000.0), ident("minute")]))]);
    assert_eq!(read_cal_step(&most), Ok(Some((CalUnit::Minute, 1000))));
    for u in ["minute", "hour", "day", "week", "month", "year"] {
        assert!(read_cal_step(&inst(vec![("step", ident(u))])).is_ok());
    }
}

#[test]
fn a_calendar_step_refuses_what_is_not_a_calendar_count() {
    for bad in [0.0, 1.5, 1001.0, -2.0, f64::NAN, f64::INFINITY, -0.0] {
        let i = inst(vec![("step", tuple(vec![num(bad), ident("day")]))]);
        assert_eq!(read_cal_step(&i), Err(err(CAL_STEP)), "count {bad}");
    }
    assert_eq!(read_cal_step(&inst(vec![("step", num(30.0))])), Err(err(CAL_STEP)));
    assert_eq!(read_cal_step(&inst(vec![("step", ident("fortnight"))])), Err(err(CAL_STEP)));
    let i = inst(vec![("step", tuple(vec![num(2.0), ident("fortnight")]))]);
    assert_eq!(read_cal_step(&i), Err(err(CAL_STEP)));
    let i = inst(vec![("step", tuple(vec![ident("week"), num(2.0)]))]);
    assert_eq!(read_cal_step(&i), Err(err(CAL_STEP)));
}

#[test]
fn every_whole_count_is_recognised_exactly() {
    for k in 1..=1000u32 {
        assert_eq!(whole_count(n(k as f64)), Some(k));
        assert_eq!(whole_count(n(k as f64 + 0.5)), None);
    }
    assert_eq!(whole_count(n(0.0)), None);
    assert_eq!(whole_count(n(1000.0000000000001)), None);
}

#[test]
fn scale_side_unit_and_gridlines_read_their_words() {
    assert_eq!(read_scale_kind(&inst(vec![])), Ok(ScaleKind::Linear));
    assert_eq!(read_scale_kind(&inst(vec![("scale", ident("log"))])), Ok(ScaleKind::Log));
    assert_eq!(read_scale_kind(&inst(vec![("scale", ident("time"))])), Ok(ScaleKind::Time));
    assert_eq!(read_scale_kind(&inst(vec![("scale", ident("linear"))])), Ok(ScaleKind::Linear));
    assert_eq!(read_scale_kind(&inst(vec![("scale", ident("sqrt"))])), Err(err(SCALE_KINDS)));
    assert_eq!(read_log(&inst(vec![("scale", ident("log"))])), Ok(true));
    assert_eq!(read_log(&inst(vec![("scale", ident("time"))])), Ok(false));
    assert_eq!(read_log(&inst(vec![("scale", num(1.0))])), Err(err(SCALE_KINDS)));
    assert_eq!(read_side(&inst(vec![])), Ok(None));
    assert_eq!(read_side(&inst(vec![("side", ident("top"))])), Ok(Some(Side::Top)));
    assert_eq!(read_side(&inst(vec![("side", ident("right"))])), Ok(Some(Side::Right)));
    assert_eq!(read_side(&inst(vec![("side", ident("middle"))])), Err(err(SIDES)));
    assert_eq!(read_side(&inst(vec![("side", text("top"))])), Err(err(SIDES)));
    assert_eq!(read_unit(&inst(vec![("unit", text("kg"))])), Ok(Some("kg".to_string())));
    assert_eq!(read_unit(&inst(vec![])), Ok(None));
    assert_eq!(read_unit(&inst(vec![("unit", ident("kg"))])), Err(err(UNIT_TEXT)));
    assert_eq!(read_grid(&inst(vec![])), Ok(Grid::Default));
    assert_eq!(read_grid(&inst(vec![("gridlines", ident("none"))])), Ok(Grid::Off));
    assert_eq!(read_grid(&inst(vec![("gridlines", ident("red"))])), Ok(Grid::Color(ident("red"))));
}

#[test]
fn an_auto_end_takes_the_data_bound() {
    assert_eq!(end(&End::Auto, n(4.0)), n(4.0));
    assert_eq!(end(&End::Num(n(1.0)), n(4.0)), n(1.0));
}

#[test]
fn a_value_axis_is_never_dated() {
    assert_eq!(domain_of(&AxisRef::X, Domain::Date), Domain::Date);
    assert_eq!(domain_of(&AxisRef::X, Domain::Number), Domain::Number);
    assert_eq!(domain_of(&AxisRef::Value(1), Domain::Date), Domain::Number);
}

#[test]
fn a_band_span_is_a_range_of_two_values() {
    let i = inst(vec![("range", tuple(vec![num(1.0), num(2.0)]))]);
    assert_eq!(read_span(&i, Domain::Number), Ok((n(1.0), n(2.0))));
    let i = inst(vec![("span", num(2.0))]);
    assert_eq!(read_span(&i, Domain::Number), Err(err(BAND_SPAN)));
    assert_eq!(read_span(&inst(vec![]), Domain::Number), Err(err(BAND_NEEDS_RANGE)));
    let i = inst(vec![("range", tuple(vec![num(1.0), ident("x")]))]);
    assert_eq!(read_span(&i, Domain::Number), Err(err(BAND_ENDS)));
}

#[test]
fn a_mark_is_a_line_or_a_point() {
    let line = inst(vec![("at", num(5.0))]);
    assert_eq!(read_at(&line, Domain::Number, Domain::Date), Ok(MarkAt::Line(n(5.0))));
    let point = inst(vec![("at", tuple(vec![date("2026-02-01", 1769904000.0), num(3.0)]))]);
    assert_eq!(read_at(&point, Domain::Number, Domain::Date), Ok(MarkAt::Point(n(1769904000.0), n(3.0))));
    let bad_value = inst(vec![("at", tuple(vec![date("2026-02-01", 1769904000.0), date("2026-02-02", 1.0)]))]);
    assert_eq!(read_at(&bad_value, Domain::Date, Domain::Date), Err(err(MIXED_DOMAIN)));
    let list = inst(vec![("at", ResolvedValue::List(vec![num(1.0), num(2.0)]))]);
    assert_eq!(read_at(&list, Domain::Number, Domain::Number), Err(err(AT)));
    assert_eq!(read_at(&inst(vec![]), Domain::Number, Domain::Number), Err(err(AT)));
    let three = inst(vec![("at", tuple(vec![num(1.0), num(2.0), num(3.0)]))]);
    assert_eq!(read_at(&three, Domain::Number, Domain::Number), Err(err(AT)));
}

#[test]
fn a_band_is_placed_on_its_axis_with_its_tick_colour() {
    let i = inst(vec![("range", tuple(vec![num(1.0), num(2.0)]))]);
    let band = read_band(&i, None, Some("Q1".to_string()), Some(ident("teal")), ident("muted"), Domain::Number)
        .unwrap();
    assert_eq!(band.axis, AxisRef::X);
    assert_eq!(band.span, (n(1.0), n(2.0)));
    assert_eq!(band.tick, ident("teal"));
    assert_eq!(band.fill, Some(ident("teal")));
    assert_eq!(band.label, Some("Q1".to_string()));
    let divider = read_band(&i, Some(Ok(AxisRef::Value(0))), None, None, ident("muted"), Domain::Date).unwrap();
    assert_eq!(divider.tick, ident("muted"));
    assert_eq!(divider.axis, AxisRef::Value(0));
    let lookup = err("no axis 'y9'");
    assert_eq!(read_band(&i, Some(Err(lookup)), None, None, ident("muted"), Domain::Number), Err(err("no axis 'y9'")));
    let dated = inst(vec![("range", tuple(vec![num(1.0), num(2.0)]))]);
    assert_eq!(read_band(&dated, None, None, None, ident("muted"), Domain::Date), Err(err(MIXED_DOMAIN)));
}

#[test]
fn a_mark_needs_an_axis_and_takes_its_accent() {
    let i = inst(vec![("at", num(5.0)), ("stroke-style", ident("dashed"))]);
    let none: Result<(), Error> = Ok(());
    assert_eq!(
        read_mark(&i, None, None, None, ident("muted"), none, Ok(()), None, Domain::Number),
        Err(err(MARK_NEEDS_AXIS))
    );
    let mark = read_mark(
        &i,
        Some(Ok(AxisRef::Value(0))),
        None,
        Some(ident("red")),
        ident("muted"),
        Ok(7u8),
        Ok("tip"),
        None,
        Domain::Date,
    )
    .unwrap();
    assert_eq!(mark.at, MarkAt::Line(n(5.0)));
    assert_eq!(mark.color, ident("red"));
    assert_eq!(mark.marker, 7);
    assert_eq!(mark.tooltip, "tip");
    assert_eq!(mark.stroke_style, Some(ident("dashed")));
    let stroked = read_mark(&i, Some(Ok(AxisRef::Value(0))), Some(ident("blue")), Some(ident("red")), ident("muted"), Ok(()), Ok(()), None, Domain::Date).unwrap();
    assert_eq!(stroked.color, ident("blue"));
    let plain = read_mark(&i, Some(Ok(AxisRef::Value(0))), None, None, ident("muted"), Ok(()), Ok(()), None, Domain::Date).unwrap();
    assert_eq!(plain.color, ident("muted"));
    let bad_marker: Result<(), Error> = Err(err("bad marker"));
    assert_eq!(
        read_mark(&i, Some(Ok(AxisRef::Value(0))), None, None, ident("muted"), bad_marker, Ok(()), None, Domain::Number),
        Err(err("bad marker"))
    );
    let dated_line = read_mark(&i, Some(Ok(AxisRef::X)), None, None, ident("muted"), Ok(()), Ok(()), None, Domain::Date);
    assert_eq!(dated_line, Err(err(MIXED_DOMAIN)));
}

#[test]
fn only_a_legend_is_semibold() {
    assert_eq!(font(LEGEND, 'k').weight, Weight::Semibold);
    assert_eq!(font(TEXT, 'k').weight, Weight::Regular);
    assert_eq!(font(LABEL, 'k').weight, Weight::Regular);
    assert_eq!(font(LABEL, 'k').kind, 'k');
}
