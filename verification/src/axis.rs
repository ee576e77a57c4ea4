//! The axis attribute readers: `range:`, `ticks:`, `step:`, `side:`,
//! `gridlines:`, `unit:` and `scale:`, and what a value on an axis reads as.
//!
//! [`Domain`] is what makes a reader time-aware: one kind per axis, consulted
//! wherever a value is placed on one.

use vstd::prelude::*;
use crate::binary64::{count_of, is_count, lemma_count_unique, whole_count};
use crate::values::{
    outcome, same_text, AttrMap, Error, Num, Quoted, ResolvedInst, ResolvedValue, Side, Span,
};

verus! {

/// What an axis's values are written as: plain numbers, or quoted ISO-8601
/// dates on a time axis. One domain, one kind: every reader that places a
/// value on an axis consults it.
#[derive(Clone, Copy, PartialEq, Eq, Structural, Debug)]
pub enum Domain {
    Number,
    Date,
}

/// The one mixed-domain reading: an axis is dated or numeric, and everything
/// measured on it follows.
pub const MIXED_DOMAIN: &'static str = "an axis reads dates or numbers, never both — one domain, one kind";

/// What follows the quoted text of a string that is not a date.
pub const NOT_A_DATE: &'static str = "' is not a date — ISO-8601: '2026-01-31', optionally 'T09:30' and 'Z'";

pub const RANGE_ENDS: &'static str = "'range' takes two ends: 'a b', 'a auto', or 'auto b'";

pub const RANGE_END: &'static str = "a 'range' end is a number or 'auto'";

pub const TICKS: &'static str = "'ticks' takes comma-separated numbers — 'ticks: 0, 50, 100'";

pub const CAL_STEP: &'static str = "a time axis steps by calendar — 'step: month', 'step: 2 week'";

pub const SCALE_KINDS: &'static str = "'scale' is linear, log, or time";

pub const SIDES: &'static str = "'side' is bottom, top, left, or right";

pub const UNIT_TEXT: &'static str = "'unit' is a quoted string";

/// The message for a quoted text that does not read as a date.
pub open spec fn not_a_date(text: Seq<char>) -> Seq<char> {
    "'"@ + text + NOT_A_DATE@
}

/// What a quoted string reads as on a time axis: its instant, in the scale's
/// own units (epoch seconds).
pub open spec fn date_reading(q: Quoted, span: Span) -> Result<Num, (Span, Seq<char>)> {
    match q.date {
        Some(n) => Ok(n),
        None => Err((span, not_a_date(q.text@))),
    }
}

/// A quoted date to epoch seconds, with the not-a-date message.
pub fn date_secs(q: &Quoted, span: Span) -> (r: Result<Num, Error>)
    ensures
        outcome(r) == date_reading(*q, span),
{
    match q.date {
        Some(n) => Ok(n),
        None => {
            let mut msg = String::from_str("'");
            msg.append(q.text.as_str());
            msg.append(NOT_A_DATE);
            proof {
                reveal_strlit("'");
            }
            Err(Error { span, message: msg })
        },
    }
}

impl Domain {
    /// What one authored value reads as on an axis of this kind: a date's
    /// instant on a time axis, a number on a numeric one. A value of the
    /// other kind is [`MIXED_DOMAIN`]; one that is neither falls to
    /// `otherwise`, the caller's own wording, which only a numeric axis
    /// reaches.
    pub open spec fn reads(self, v: ResolvedValue, otherwise: Seq<char>, span: Span) -> Result<
        Num,
        (Span, Seq<char>),
    > {
        match self {
            Domain::Date => match v {
                ResolvedValue::String(q) => date_reading(q, span),
                _ => Err((span, MIXED_DOMAIN@)),
            },
            Domain::Number => match v {
                ResolvedValue::String(_) => Err((span, MIXED_DOMAIN@)),
                ResolvedValue::Number(n) => Ok(n),
                _ => Err((span, otherwise)),
            },
        }
    }

    /// One authored value on an axis of this kind, in the scale's own units.
    pub fn value(self, v: &ResolvedValue, otherwise: &str, span: Span) -> (r: Result<Num, Error>)
        ensures
            outcome(r) == self.reads(*v, otherwise@, span),
    {
        match (self, v) {
            (Domain::Date, ResolvedValue::String(q)) => date_secs(q, span),
            (Domain::Number, ResolvedValue::String(_)) => Err(Error::at(span, MIXED_DOMAIN)),
            (Domain::Number, v) => match v.as_number() {
                Some(n) => Ok(n),
                None => Err(Error::at(span, otherwise)),
            },
            _ => Err(Error::at(span, MIXED_DOMAIN)),
        }
    }
}

/// One domain, one kind: a value reads on a time axis only when it is a
/// quoted date, on a numeric axis only when it is a number, and a value of
/// the other kind is the mixed-domain error, whatever the caller's wording.
pub proof fn lemma_one_domain_one_kind(d: Domain, v: ResolvedValue, otherwise: Seq<char>, span: Span)
    ensures
        d.reads(v, otherwise, span) is Ok ==> (d == Domain::Date ==> v is String) && (d
            == Domain::Number ==> v is Number),
        (d == Domain::Date && !(v is String)) || (d == Domain::Number && v is String) ==> d.reads(
            v,
            otherwise,
            span,
        ) == Err::<Num, (Span, Seq<char>)>((span, MIXED_DOMAIN@)),
{
}

/// An end of an axis `range:`: a value, or `auto` (the data bound).
#[derive(Clone, Copy, PartialEq, Eq, Structural, Debug)]
pub enum End {
    Auto,
    Num(Num),
}

/// Whether `v` is the identifier `word`.
pub open spec fn is_ident(v: ResolvedValue, word: Seq<char>) -> bool {
    match v {
        ResolvedValue::Ident(s) => s@ == word,
        _ => false,
    }
}

/// What one `range:` end reads as.
pub open spec fn end_reading(domain: Domain, v: ResolvedValue, span: Span) -> Result<
    End,
    (Span, Seq<char>),
> {
    if is_ident(v, "auto"@) {
        Ok(End::Auto)
    } else {
        match domain.reads(v, RANGE_END@, span) {
            Ok(n) => Ok(End::Num(n)),
            Err(e) => Err(e),
        }
    }
}

/// What an axis's `range:` reads as: none when unset, else a two-item tuple
/// whose ends are each `auto` or a value in the axis's domain; the first end's
/// error is reported before the second's.
pub open spec fn range_reading(inst: ResolvedInst, domain: Domain) -> Result<
    Option<(End, End)>,
    (Span, Seq<char>),
> {
    match inst.attr("range"@) {
        None => Ok(None),
        Some(v) => match v {
            ResolvedValue::Tuple(items) => if items@.len() == 2 {
                match end_reading(domain, items@[0], inst.span) {
                    Err(e) => Err(e),
                    Ok(a) => match end_reading(domain, items@[1], inst.span) {
                        Err(e) => Err(e),
                        Ok(b) => Ok(Some((a, b))),
                    },
                }
            } else {
                Err((inst.span, RANGE_ENDS@))
            },
            _ => Err((inst.span, RANGE_ENDS@)),
        },
    }
}

/// Whether `v` is the identifier `word`.
fn ident_is(v: &ResolvedValue, word: &str) -> (r: bool)
    ensures
        r == is_ident(*v, word@),
{
    match v {
        ResolvedValue::Ident(s) => same_text(s.as_str(), word),
        _ => false,
    }
}

/// One `range:` end.
fn read_end(domain: Domain, v: &ResolvedValue, span: Span) -> (r: Result<End, Error>)
    ensures
        outcome(r) == end_reading(domain, *v, span),
{
    if ident_is(v, "auto") {
        Ok(End::Auto)
    } else {
        match domain.value(v, RANGE_END, span) {
            Ok(n) => Ok(End::Num(n)),
            Err(e) => Err(e),
        }
    }
}

/// An axis's `range:`: a two-item tuple, each end `auto` or a value in the
/// axis's `domain`.
pub fn read_range(inst: &ResolvedInst, domain: Domain) -> (r: Result<Option<(End, End)>, Error>)
    ensures
        outcome(r) == range_reading(*inst, domain),
{
    let v = match inst.attrs.get("range") {
        None => return Ok(None),
        Some(v) => v,
    };
    let items = match v {
        ResolvedValue::Tuple(items) => items,
        _ => return Err(Error::at(inst.span, RANGE_ENDS)),
    };
    if items.len() != 2 {
        return Err(Error::at(inst.span, RANGE_ENDS));
    }
    let a = match read_end(domain, &items[0], inst.span) {
        Ok(a) => a,
        Err(e) => return Err(e),
    };
    let b = match read_end(domain, &items[1], inst.span) {
        Ok(b) => b,
        Err(e) => return Err(e),
    };
    Ok(Some((a, b)))
}

/// What a run of `ticks:` items reads as: each a value in the domain, the
/// first failure reported.
pub open spec fn ticks_reading(items: Seq<ResolvedValue>, domain: Domain, span: Span) -> Result<
    Seq<Num>,
    (Span, Seq<char>),
>
    decreases items.len(),
{
    if items.len() == 0 {
        Ok(Seq::empty())
    } else {
        match domain.reads(items[0], TICKS@, span) {
            Err(e) => Err(e),
            Ok(n) => match ticks_reading(items.drop_first(), domain, span) {
                Err(e) => Err(e),
                Ok(rest) => Ok(seq![n] + rest),
            },
        }
    }
}

/// The items of a `ticks:` value: a list's items, or the lone value itself.
pub open spec fn tick_items(v: ResolvedValue) -> Seq<ResolvedValue> {
    match v {
        ResolvedValue::List(items) => items@,
        _ => seq![v],
    }
}

/// A lone `ticks:` value reads as a list of that one value does.
pub proof fn lemma_lone_tick_is_a_list_of_one(v: ResolvedValue, items: Vec<ResolvedValue>)
    requires
        !(v is List),
        items@ == seq![v],
    ensures
        tick_items(v) == tick_items(ResolvedValue::List(items)),
{
}

/// Reads each of `items` as a tick.
fn read_tick_items(items: &Vec<ResolvedValue>, domain: Domain, span: Span) -> (r: Result<
    Vec<Num>,
    Error,
>)
    ensures
        match r {
            Ok(v) => ticks_reading(items@, domain, span) == Ok::<Seq<Num>, (Span, Seq<char>)>(v@),
            Err(e) => ticks_reading(items@, domain, span) == Err::<Seq<Num>, (Span, Seq<char>)>(
                e@,
            ),
        },
{
    let mut out: Vec<Num> = Vec::new();
    let mut i: usize = 0;
    assert(items@.skip(0) =~= items@);
    while i < items.len()
        invariant
            i <= items@.len(),
            ticks_reading(items@, domain, span) == (match ticks_reading(
                items@.skip(i as int),
                domain,
                span,
            ) {
                Err(e) => Err(e),
                Ok(rest) => Ok(out@ + rest),
            }),
        decreases items@.len() - i,
    {
        proof {
            assert(items@.skip(i as int).drop_first() =~= items@.skip(i + 1));
            assert(items@.skip(i as int)[0] == items@[i as int]);
        }
        match domain.value(&items[i], TICKS, span) {
            Ok(n) => {
                proof {
                    let tail = ticks_reading(items@.skip(i + 1), domain, span);
                    if let Ok(rest) = tail {
                        assert(out@ + (seq![n] + rest) =~= out@.push(n) + rest);
                    }
                }
                out.push(n);
            },
            Err(e) => return Err(e),
        }
        i = i + 1;
    }
    proof {
        assert(items@.skip(i as int) =~= Seq::<ResolvedValue>::empty());
        assert(out@ + Seq::<Num>::empty() =~= out@);
    }
    Ok(out)
}

/// An axis's explicit `ticks:`: a comma list (or a lone value), each item a
/// value in the axis's `domain`.
pub fn read_ticks(attrs: &AttrMap, domain: Domain, span: Span) -> (r: Result<
    Option<Vec<Num>>,
    Error,
>)
    ensures
        match attrs.lookup("ticks"@) {
            None => r == Ok::<Option<Vec<Num>>, Error>(None),
            Some(v) => match r {
                Ok(Some(ticks)) => ticks_reading(tick_items(v), domain, span) == Ok::<
                    Seq<Num>,
                    (Span, Seq<char>),
                >(ticks@),
                Ok(None) => false,
                Err(e) => ticks_reading(tick_items(v), domain, span) == Err::<
                    Seq<Num>,
                    (Span, Seq<char>),
                >(e@),
            },
        },
{
    let v = match attrs.get("ticks") {
        None => return Ok(None),
        Some(v) => v,
    };
    match v {
        ResolvedValue::List(items) => match read_tick_items(items, domain, span) {
            Ok(t) => Ok(Some(t)),
            Err(e) => Err(e),
        },
        one => {
            proof {
                let single = seq![*one];
                assert(single.drop_first() =~= Seq::<ResolvedValue>::empty());
                assert(single[0] == *one);
                assert(tick_items(*one) == single);
                assert(ticks_reading(Seq::<ResolvedValue>::empty(), domain, span) == Ok::<
                    Seq<Num>,
                    (Span, Seq<char>),
                >(Seq::empty()));
            }
            match domain.value(one, TICKS, span) {
                Ok(n) => {
                    let mut t: Vec<Num> = Vec::new();
                    t.push(n);
                    proof {
                        assert(seq![n] + Seq::<Num>::empty() =~= t@);
                    }
                    Ok(Some(t))
                },
                Err(e) => Err(e),
            }
        },
    }
}

/// A calendar unit a time axis steps by.
#[derive(Clone, Copy, PartialEq, Eq, Structural, Debug)]
pub enum CalUnit {
    Minute,
    Hour,
    Day,
    Week,
    Month,
    Year,
}

/// The calendar unit a word names.
pub open spec fn unit_named(s: Seq<char>) -> Option<CalUnit> {
    if s == "minute"@ {
        Some(CalUnit::Minute)
    } else if s == "hour"@ {
        Some(CalUnit::Hour)
    } else if s == "day"@ {
        Some(CalUnit::Day)
    } else if s == "week"@ {
        Some(CalUnit::Week)
    } else if s == "month"@ {
        Some(CalUnit::Month)
    } else if s == "year"@ {
        Some(CalUnit::Year)
    } else {
        None
    }
}

/// The calendar unit a word names.
fn unit_of(s: &str) -> (r: Option<CalUnit>)
    ensures
        r == unit_named(s@),
{
    if same_text(s, "minute") {
        Some(CalUnit::Minute)
    } else if same_text(s, "hour") {
        Some(CalUnit::Hour)
    } else if same_text(s, "day") {
        Some(CalUnit::Day)
    } else if same_text(s, "week") {
        Some(CalUnit::Week)
    } else if same_text(s, "month") {
        Some(CalUnit::Month)
    } else if same_text(s, "year") {
        Some(CalUnit::Year)
    } else {
        None
    }
}

/// What a calendar `step:` reads as: a unit word (a count of one), or a
/// count from 1 to 1000 and a unit word; anything else points at the
/// calendar form.
pub open spec fn cal_step_reading(inst: ResolvedInst) -> Result<
    Option<(CalUnit, u32)>,
    (Span, Seq<char>),
> {
    let bad = Err((inst.span, CAL_STEP@));
    match inst.attr("step"@) {
        None => Ok(None),
        Some(ResolvedValue::Ident(s)) => match unit_named(s@) {
            Some(u) => Ok(Some((u, 1u32))),
            None => bad,
        },
        Some(ResolvedValue::Tuple(items)) => if items@.len() == 2 {
            match (items@[0], items@[1]) {
                (ResolvedValue::Number(n), ResolvedValue::Ident(s)) => match count_of(n) {
                    Some(k) => match unit_named(s@) {
                        Some(u) => Ok(Some((u, k))),
                        None => bad,
                    },
                    None => bad,
                },
                _ => bad,
            }
        } else {
            bad
        },
        Some(_) => bad,
    }
}

/// A calendar `step:`: a unit word with an optional count (`step: month`,
/// `step: 2 week`); a plain number points at the calendar form.
pub fn read_cal_step(inst: &ResolvedInst) -> (r: Result<Option<(CalUnit, u32)>, Error>)
    ensures
        outcome(r) == cal_step_reading(*inst),
{
    match inst.attrs.get("step") {
        None => Ok(None),
        Some(ResolvedValue::Ident(s)) => match unit_of(s.as_str()) {
            Some(u) => Ok(Some((u, 1))),
            None => Err(Error::at(inst.span, CAL_STEP)),
        },
        Some(ResolvedValue::Tuple(items)) => {
            if items.len() != 2 {
                return Err(Error::at(inst.span, CAL_STEP));
            }
            match (&items[0], &items[1]) {
                (ResolvedValue::Number(n), ResolvedValue::Ident(s)) => match whole_count(*n) {
                    Some(k) => match unit_of(s.as_str()) {
                        Some(u) => Ok(Some((u, k))),
                        None => Err(Error::at(inst.span, CAL_STEP)),
                    },
                    None => Err(Error::at(inst.span, CAL_STEP)),
                },
                _ => Err(Error::at(inst.span, CAL_STEP)),
            }
        },
        Some(_) => Err(Error::at(inst.span, CAL_STEP)),
    }
}

/// An axis's `scale:` kind: `linear` (the default), `log`, or `time`.
#[derive(Clone, Copy, PartialEq, Eq, Structural, Debug)]
pub enum ScaleKind {
    Linear,
    Log,
    Time,
}

/// What an axis's `scale:` reads as.
pub open spec fn scale_reading(inst: ResolvedInst) -> Result<ScaleKind, (Span, Seq<char>)> {
    match inst.attr("scale"@) {
        None => Ok(ScaleKind::Linear),
        Some(v) => if is_ident(v, "linear"@) {
            Ok(ScaleKind::Linear)
        } else if is_ident(v, "log"@) {
            Ok(ScaleKind::Log)
        } else if is_ident(v, "time"@) {
            Ok(ScaleKind::Time)
        } else {
            Err((inst.span, SCALE_KINDS@))
        },
    }
}

/// An axis's `scale:` kind.
pub fn read_scale_kind(inst: &ResolvedInst) -> (r: Result<ScaleKind, Error>)
    ensures
        outcome(r) == scale_reading(*inst),
{
    match inst.attrs.get("scale") {
        None => Ok(ScaleKind::Linear),
        Some(v) => {
            if ident_is(v, "linear") {
                Ok(ScaleKind::Linear)
            } else if ident_is(v, "log") {
                Ok(ScaleKind::Log)
            } else if ident_is(v, "time") {
                Ok(ScaleKind::Time)
            } else {
                Err(Error::at(inst.span, SCALE_KINDS))
            }
        },
    }
}

/// Whether an axis is logarithmic: exactly when its `scale:` reads as `log`,
/// with the same error where it does not read at all.
pub fn read_log(inst: &ResolvedInst) -> (r: Result<bool, Error>)
    ensures
        outcome(r) == (match scale_reading(*inst) {
            Ok(k) => Ok(k == ScaleKind::Log),
            Err(e) => Err(e),
        }),
{
    match read_scale_kind(inst) {
        Ok(k) => Ok(k == ScaleKind::Log),
        Err(e) => Err(e),
    }
}

/// What an axis's `side:` reads as.
pub open spec fn side_reading(inst: ResolvedInst) -> Result<Option<Side>, (Span, Seq<char>)> {
    match inst.attr("side"@) {
        None => Ok(None),
        Some(v) => if is_ident(v, "bottom"@) {
            Ok(Some(Side::Bottom))
        } else if is_ident(v, "top"@) {
            Ok(Some(Side::Top))
        } else if is_ident(v, "left"@) {
            Ok(Some(Side::Left))
        } else if is_ident(v, "right"@) {
            Ok(Some(Side::Right))
        } else {
            Err((inst.span, SIDES@))
        },
    }
}

/// An axis's `side:`: bottom, top, left, or right.
pub fn read_side(inst: &ResolvedInst) -> (r: Result<Option<Side>, Error>)
    ensures
        outcome(r) == side_reading(*inst),
{
    match inst.attrs.get("side") {
        None => Ok(None),
        Some(v) => {
            if ident_is(v, "bottom") {
                Ok(Some(Side::Bottom))
            } else if ident_is(v, "top") {
                Ok(Some(Side::Top))
            } else if ident_is(v, "left") {
                Ok(Some(Side::Left))
            } else if ident_is(v, "right") {
                Ok(Some(Side::Right))
            } else {
                Err(Error::at(inst.span, SIDES))
            }
        },
    }
}

/// An axis's gridlines: the default look, none, or a colour.
#[derive(Debug, PartialEq)]
pub enum Grid {
    Default,
    Off,
    Color(ResolvedValue),
}

/// An axis's `gridlines:`: unset is the default, `none` is off, and any other
/// value is taken as the colour. It never fails.
pub fn read_grid(inst: &ResolvedInst) -> (r: Result<Grid, Error>)
    ensures
        match inst.attr("gridlines"@) {
            None => r == Ok::<Grid, Error>(Grid::Default),
            Some(v) => if is_ident(v, "none"@) {
                r == Ok::<Grid, Error>(Grid::Off)
            } else {
                r matches Ok(Grid::Color(c)) && c.model() == v.model()
            },
        },
{
    match inst.attrs.get("gridlines") {
        None => Ok(Grid::Default),
        Some(v) => {
            if ident_is(v, "none") {
                Ok(Grid::Off)
            } else {
                Ok(Grid::Color(v.duplicate()))
            }
        },
    }
}

/// A range end with `auto` standing for the data bound.
pub fn end(e: &End, auto: Num) -> (r: Num)
    ensures
        r == (match *e {
            End::Num(n) => n,
            End::Auto => auto,
        }),
{
    match e {
        End::Num(n) => *n,
        End::Auto => auto,
    }
}

/// An axis's `unit:`: a quoted string, or none.
pub fn read_unit(inst: &ResolvedInst) -> (r: Result<Option<String>, Error>)
    ensures
        match inst.attr("unit"@) {
            None => r == Ok::<Option<String>, Error>(None),
            Some(ResolvedValue::String(q)) => r == Ok::<Option<String>, Error>(Some(q.text)),
            Some(_) => r matches Err(e) && e@ == (inst.span, UNIT_TEXT@),
        },
{
    match inst.attrs.get("unit") {
        None => Ok(None),
        Some(ResolvedValue::String(q)) => Ok(Some(q.text.clone())),
        _ => Err(Error::at(inst.span, UNIT_TEXT)),
    }
}

/// Whether `n` is what `v` stands for on an axis of kind `d`: the number
/// itself on a numeric axis, the instant a quoted date names on a time axis.
pub open spec fn stands_for(d: Domain, v: ResolvedValue, n: Num) -> bool {
    match d {
        Domain::Number => v == ResolvedValue::Number(n),
        Domain::Date => v matches ResolvedValue::String(q) && q.date == Some(n),
    }
}

/// Whether `e` is the range end that `v` stands for on an axis of kind `d`.
pub open spec fn end_stands_for(d: Domain, v: ResolvedValue, e: End) -> bool {
    match e {
        End::Auto => v matches ResolvedValue::Ident(s) && s@ == "auto"@,
        End::Num(n) => stands_for(d, v, n),
    }
}

/// A value reads on an axis exactly as what it stands for there.
pub proof fn lemma_value_reads_what_it_stands_for(
    d: Domain,
    v: ResolvedValue,
    otherwise: Seq<char>,
    span: Span,
    n: Num,
)
    ensures
        (d.reads(v, otherwise, span) == Ok::<Num, (Span, Seq<char>)>(n)) <==> stands_for(d, v, n),
{
}

/// A `range:` keeps its ends as written: the first item gives the first end
/// and the second the second, so a high-to-low range stays reversed; and
/// whenever both items stand for ends, those are the ends read.
pub proof fn lemma_range_keeps_authored_order(
    inst: ResolvedInst,
    d: Domain,
    items: Vec<ResolvedValue>,
)
    requires
        inst.attr("range"@) == Some(ResolvedValue::Tuple(items)),
        items@.len() == 2,
    ensures
        range_reading(inst, d) matches Ok(Some((a, b))) ==> end_stands_for(d, items@[0], a)
            && end_stands_for(d, items@[1], b),
        forall|a: End, b: End|
            #![trigger end_stands_for(d, items@[0], a), end_stands_for(d, items@[1], b)]
            end_stands_for(d, items@[0], a) && end_stands_for(d, items@[1], b) ==> range_reading(
                inst,
                d,
            ) == Ok::<Option<(End, End)>, (Span, Seq<char>)>(Some((a, b))),
{
    reveal_strlit("auto");
}

/// Ticks are read in the axis's own domain, in order: they read exactly when
/// they are the values the items stand for, one for one.
pub proof fn lemma_ticks_stand_for_their_items(items: Seq<ResolvedValue>, d: Domain, span: Span, ticks: Seq<Num>)
    ensures
        (ticks_reading(items, d, span) == Ok::<Seq<Num>, (Span, Seq<char>)>(ticks)) <==> (
        ticks.len() == items.len() && forall|i: int|
            0 <= i < items.len() ==> #[trigger] stands_for(d, items[i], ticks[i])),
    decreases items.len(),
{
    if items.len() > 0 {
        lemma_ticks_stand_for_their_items(items.drop_first(), d, span, ticks.drop_first());
        let all = forall|i: int| 0 <= i < items.len() ==> #[trigger] stands_for(d, items[i], ticks[i]);
        if ticks.len() == items.len() && all {
            assert(stands_for(d, items[0], ticks[0]));
            assert forall|i: int| 0 <= i < items.drop_first().len() implies #[trigger] stands_for(
                d,
                items.drop_first()[i],
                ticks.drop_first()[i],
            ) by {
                assert(stands_for(d, items[i + 1], ticks[i + 1]));
            }
            assert(seq![ticks[0]] + ticks.drop_first() =~= ticks);
        }
        if ticks_reading(items, d, span) == Ok::<Seq<Num>, (Span, Seq<char>)>(ticks) {
            let n = ticks[0];
            assert(d.reads(items[0], TICKS@, span) == Ok::<Num, (Span, Seq<char>)>(n));
            assert(ticks.drop_first() =~= ticks_reading(items.drop_first(), d, span)->Ok_0);
            assert forall|i: int| 0 <= i < items.len() implies #[trigger] stands_for(
                d,
                items[i],
                ticks[i],
            ) by {
                if i > 0 {
                    assert(stands_for(d, items.drop_first()[i - 1], ticks.drop_first()[i - 1]));
                }
            }
        }
    } else {
        if ticks.len() == 0 {
            assert(ticks =~= Seq::<Num>::empty());
        }
    }
}

/// The word that names a calendar unit.
pub open spec fn unit_word(u: CalUnit) -> Seq<char> {
    match u {
        CalUnit::Minute => "minute"@,
        CalUnit::Hour => "hour"@,
        CalUnit::Day => "day"@,
        CalUnit::Week => "week"@,
        CalUnit::Month => "month"@,
        CalUnit::Year => "year"@,
    }
}

proof fn lemma_unit_words()
    ensures
        forall|u: CalUnit| unit_named(#[trigger] unit_word(u)) == Some(u),
        forall|s: Seq<char>| #[trigger] unit_named(s) matches Some(u) ==> s == unit_word(u),
{
    reveal_strlit("minute");
    reveal_strlit("hour");
    reveal_strlit("day");
    reveal_strlit("week");
    reveal_strlit("month");
    reveal_strlit("year");
    assert("minute"@.len() == 6 && "month"@.len() == 5 && "day"@.len() == 3);
    assert("hour"@.len() == 4 && "week"@.len() == 4 && "year"@.len() == 4);
    assert("hour"@[0] == 'h' && "week"@[0] == 'w' && "year"@[0] == 'y');
    assert forall|u: CalUnit| unit_named(#[trigger] unit_word(u)) == Some(u) by {
        match u {
            CalUnit::Minute => {},
            CalUnit::Hour => {
                assert("hour"@ != "minute"@);
            },
            CalUnit::Day => {
                assert("day"@ != "minute"@);
                assert("day"@ != "hour"@);
            },
            CalUnit::Week => {
                assert("week"@ != "minute"@);
                assert("week"@ != "hour"@);
                assert("week"@ != "day"@);
            },
            CalUnit::Month => {
                assert("month"@ != "minute"@);
                assert("month"@ != "hour"@);
                assert("month"@ != "day"@);
                assert("month"@ != "week"@);
            },
            CalUnit::Year => {
                assert("year"@ != "minute"@);
                assert("year"@ != "hour"@);
                assert("year"@ != "day"@);
                assert("year"@ != "week"@);
                assert("year"@ != "month"@);
            },
        }
    }
}

/// Whether an attribute value spells the calendar step `k` of unit `u`: the
/// unit's word (a count of one), or the count followed by the word.
pub open spec fn step_spells(v: Option<ResolvedValue>, u: CalUnit, k: u32) -> bool {
    match v {
        Some(ResolvedValue::Ident(s)) => s@ == unit_word(u) && k == 1,
        Some(ResolvedValue::Tuple(items)) => items@.len() == 2 && match (items@[0], items@[1]) {
            (ResolvedValue::Number(n), ResolvedValue::Ident(s)) => s@ == unit_word(u) && is_count(
                n,
                k as nat,
            ),
            _ => false,
        },
        _ => false,
    }
}

/// A calendar step reads as a unit and a count exactly when it spells them.
pub proof fn lemma_cal_step_names_its_unit(inst: ResolvedInst, u: CalUnit, k: u32)
    ensures
        (cal_step_reading(inst) == Ok::<Option<(CalUnit, u32)>, (Span, Seq<char>)>(
            Some((u, k)),
        )) <==> step_spells(inst.attr("step"@), u, k),
{
    lemma_unit_words();
    match inst.attr("step"@) {
        Some(ResolvedValue::Tuple(items)) => {
            if items@.len() == 2 {
                if let ResolvedValue::Number(n) = items@[0] {
                    if is_count(n, k as nat) {
                        assert(exists|c: u32| is_count(n, c as nat));
                        let c = choose|c: u32| is_count(n, c as nat);
                        lemma_count_unique(n, c as nat, k as nat);
                    }
                    if let Some(c) = count_of(n) {
                        assert(exists|c: u32| is_count(n, c as nat));
                    }
                }
            }
        },
        _ => {},
    }
}

/// The word that names a side.
pub open spec fn side_word(side: Side) -> Seq<char> {
    match side {
        Side::Bottom => "bottom"@,
        Side::Top => "top"@,
        Side::Left => "left"@,
        Side::Right => "right"@,
    }
}

/// An axis's `side:` reads as a side exactly when it is that side's word.
pub proof fn lemma_side_names_its_side(inst: ResolvedInst, side: Side)
    ensures
        (side_reading(inst) == Ok::<Option<Side>, (Span, Seq<char>)>(Some(side))) <==> (inst.attr(
            "side"@,
        ) matches Some(ResolvedValue::Ident(s)) && s@ == side_word(side)),
{
    reveal_strlit("bottom");
    reveal_strlit("top");
    reveal_strlit("left");
    reveal_strlit("right");
    assert("bottom"@.len() == 6 && "top"@.len() == 3 && "left"@.len() == 4 && "right"@.len() == 5);
}

/// The word that names a scale kind.
pub open spec fn scale_word(k: ScaleKind) -> Seq<char> {
    match k {
        ScaleKind::Linear => "linear"@,
        ScaleKind::Log => "log"@,
        ScaleKind::Time => "time"@,
    }
}

/// An axis's `scale:` reads as a kind exactly when it is that kind's word,
/// or unset for the linear default.
pub proof fn lemma_scale_names_its_kind(inst: ResolvedInst, k: ScaleKind)
    ensures
        (scale_reading(inst) == Ok::<ScaleKind, (Span, Seq<char>)>(k)) <==> ((inst.attr("scale"@)
            is None && k == ScaleKind::Linear) || (inst.attr("scale"@) matches Some(
            ResolvedValue::Ident(s),
        ) && s@ == scale_word(k))),
{
    reveal_strlit("linear");
    reveal_strlit("log");
    reveal_strlit("time");
    assert("linear"@.len() == 6 && "log"@.len() == 3 && "time"@.len() == 4);
}

} // verus!
