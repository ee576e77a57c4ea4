//! Resolved attribute values: what the chart readers take in.
//!
//! An attribute is a name bound to a resolved value: a number, a quoted
//! string, a bare identifier, a space-separated tuple or a comma list. A
//! number is carried as the bit pattern of the binary64 value that the
//! resolver computed; the readers route numbers and never do arithmetic on
//! them. A quoted string carries, beside its text, the instant that the text
//! names as a date (epoch seconds, as a number), where it reads as one.

use vstd::prelude::*;

verus! {

/// A number: the bit pattern of a binary64 value.
#[derive(Clone, Copy, PartialEq, Eq, Structural, Debug)]
pub struct Num {
    pub bits: u64,
}

/// Where in the source an instance stands.
#[derive(Clone, Copy, PartialEq, Eq, Structural, Debug)]
pub struct Span {
    pub start: usize,
    pub end: usize,
}

/// An error, at a place in the source.
#[derive(Debug, PartialEq)]
pub struct Error {
    pub span: Span,
    pub message: String,
}

impl View for Error {
    type V = (Span, Seq<char>);

    open spec fn view(&self) -> (Span, Seq<char>) {
        (self.span, self.message@)
    }
}

impl Error {
    /// An error at `span` that says `message`.
    pub fn at(span: Span, message: &str) -> (e: Error)
        ensures
            e@ == (span, message@),
    {
        Error { span, message: String::from_str(message) }
    }
}

/// A result, its error taken by its view.
pub open spec fn outcome<T>(r: Result<T, Error>) -> Result<T, (Span, Seq<char>)> {
    match r {
        Ok(v) => Ok(v),
        Err(e) => Err(e@),
    }
}

/// A quoted string, with the instant its text names where it is a date.
#[derive(Debug, PartialEq)]
pub struct Quoted {
    pub text: String,
    /// Epoch seconds, where the text reads as an ISO-8601 date.
    pub date: Option<Num>,
}

/// A resolved attribute value.
#[derive(Debug, PartialEq)]
pub enum ResolvedValue {
    Number(Num),
    String(Quoted),
    Ident(String),
    /// Space-separated items: `range: 0 100`.
    Tuple(Vec<ResolvedValue>),
    /// Comma-separated items: `ticks: 0, 50, 100`.
    List(Vec<ResolvedValue>),
}

/// A resolved value as mathematics sees it.
pub enum ValueModel {
    Number(Num),
    Text(Seq<char>, Option<Num>),
    Ident(Seq<char>),
    Tuple(Seq<ValueModel>),
    List(Seq<ValueModel>),
}

/// The models of a sequence of values.
pub open spec fn models(s: Seq<ResolvedValue>) -> Seq<ValueModel>
    decreases s,
{
    if s.len() == 0 {
        Seq::empty()
    } else {
        seq![s[0].model()] + models(s.drop_first())
    }
}

pub proof fn lemma_models(s: Seq<ResolvedValue>)
    ensures
        models(s).len() == s.len(),
        forall|i: int| 0 <= i < s.len() ==> #[trigger] models(s)[i] == s[i].model(),
    decreases s.len(),
{
    if s.len() > 0 {
        lemma_models(s.drop_first());
        assert forall|i: int| 0 <= i < s.len() implies #[trigger] models(s)[i] == s[i].model() by {
            if i > 0 {
                assert(s.drop_first()[i - 1] == s[i]);
            }
        }
    }
}

/// Copies the items of a tuple or list.
fn copy_items(items: &Vec<ResolvedValue>) -> (out: Vec<ResolvedValue>)
    ensures
        models(out@) == models(items@),
    decreases items,
{
    let mut out: Vec<ResolvedValue> = Vec::new();
    let mut i: usize = 0;
    while i < items.len()
        invariant
            i <= items@.len(),
            out@.len() == i,
            forall|j: int| 0 <= j < i ==> #[trigger] out@[j].model() == items@[j].model(),
        decreases items@.len() - i,
    {
        proof {
            assert(decreases_to!(items => items[i as int]));
        }
        let c = items[i].duplicate();
        out.push(c);
        i = i + 1;
    }
    proof {
        lemma_models(out@);
        lemma_models(items@);
        assert(models(out@) =~= models(items@));
    }
    out
}

impl ResolvedValue {
    pub open spec fn model(self) -> ValueModel
        decreases self,
    {
        match self {
            ResolvedValue::Number(n) => ValueModel::Number(n),
            ResolvedValue::String(q) => ValueModel::Text(q.text@, q.date),
            ResolvedValue::Ident(s) => ValueModel::Ident(s@),
            ResolvedValue::Tuple(items) => ValueModel::Tuple(models(items@)),
            ResolvedValue::List(items) => ValueModel::List(models(items@)),
        }
    }

    /// A copy of the value.
    pub fn duplicate(&self) -> (r: ResolvedValue)
        ensures
            r.model() == self.model(),
        decreases self,
    {
        match self {
            ResolvedValue::Number(n) => ResolvedValue::Number(*n),
            ResolvedValue::String(q) => ResolvedValue::String(
                Quoted { text: q.text.clone(), date: q.date },
            ),
            ResolvedValue::Ident(s) => ResolvedValue::Ident(s.clone()),
            ResolvedValue::Tuple(items) => {
                proof {
                    assert(decreases_to!(*self => self->Tuple_0));
                }
                ResolvedValue::Tuple(copy_items(items))
            },
            ResolvedValue::List(items) => {
                proof {
                    assert(decreases_to!(*self => self->List_0));
                }
                ResolvedValue::List(copy_items(items))
            },
        }
    }

    /// The value as a number, where it is one.
    pub open spec fn number(self) -> Option<Num> {
        match self {
            ResolvedValue::Number(n) => Some(n),
            _ => None,
        }
    }

    /// The value as a number, where it is one.
    pub fn as_number(&self) -> (r: Option<Num>)
        ensures
            r == self.number(),
    {
        match self {
            ResolvedValue::Number(n) => Some(*n),
            _ => None,
        }
    }
}

/// The value of the first of `entries` named `name`.
pub open spec fn lookup_in(entries: Seq<(String, ResolvedValue)>, name: Seq<char>) -> Option<
    ResolvedValue,
>
    decreases entries.len(),
{
    if entries.len() == 0 {
        None
    } else if entries[0].0@ == name {
        Some(entries[0].1)
    } else {
        lookup_in(entries.drop_first(), name)
    }
}

/// An instance's attributes, by name.
#[derive(Debug, PartialEq)]
pub struct AttrMap {
    pub entries: Vec<(String, ResolvedValue)>,
}

/// Whether two texts are the same.
pub fn same_text(a: &str, b: &str) -> (r: bool)
    ensures
        r == (a@ == b@),
{
    let n = a.unicode_len();
    if n != b.unicode_len() {
        return false;
    }
    let mut i: usize = 0;
    while i < n
        invariant
            n == a@.len(),
            n == b@.len(),
            i <= n,
            forall|k: int| 0 <= k < i ==> a@[k] == b@[k],
        decreases n - i,
    {
        if a.get_char(i) != b.get_char(i) {
            return false;
        }
        i = i + 1;
    }
    assert(a@ =~= b@);
    true
}

impl AttrMap {
    /// The value bound to `name`.
    pub open spec fn lookup(self, name: Seq<char>) -> Option<ResolvedValue> {
        lookup_in(self.entries@, name)
    }

    /// The value bound to `name`.
    pub fn get(&self, name: &str) -> (r: Option<&ResolvedValue>)
        ensures
            match r {
                Some(v) => self.lookup(name@) == Some(*v),
                None => self.lookup(name@) is None,
            },
    {
        let mut i: usize = 0;
        assert(self.entries@.skip(0) =~= self.entries@);
        while i < self.entries.len()
            invariant
                i <= self.entries@.len(),
                self.lookup(name@) == lookup_in(self.entries@.skip(i as int), name@),
            decreases self.entries@.len() - i,
        {
            proof {
                assert(self.entries@.skip(i as int).drop_first() =~= self.entries@.skip(i + 1));
            }
            if same_text(self.entries[i].0.as_str(), name) {
                return Some(&self.entries[i].1);
            }
            i = i + 1;
        }
        None
    }
}

/// A resolved instance: its attributes and where it stands.
#[derive(Debug, PartialEq)]
pub struct ResolvedInst {
    pub attrs: AttrMap,
    pub span: Span,
}

impl ResolvedInst {
    pub open spec fn attr(self, name: Seq<char>) -> Option<ResolvedValue> {
        self.attrs.lookup(name)
    }
}

/// The side of a box or a chart.
#[derive(Clone, Copy, PartialEq, Eq, Structural, Debug)]
pub enum Side {
    Left,
    Right,
    Top,
    Bottom,
}

} // verus!
