//! The host's asset table, as a browser supplies it.
//!
//! A browser has no filesystem, so an `|image| src:` naming a local file can
//! never be opened: the host supplies the bytes instead, keyed by the `src:`
//! exactly as written. A value may be a string (an SVG's text) or a byte
//! array (a raster's bytes); anything else is skipped rather than refused,
//! because a host that over-supplies has done nothing wrong, and a missing
//! asset is still reported by the compiler, at the span that asked for it.

use vstd::prelude::*;
use vstd::string::StrSliceExecFns;

verus! {

/// What the host put under a key.
#[derive(Debug, PartialEq)]
pub enum HostValue {
    /// A string: its text, stored as UTF-8.
    Text(String),
    /// A byte array.
    Bytes(Vec<u8>),
    /// Anything else.
    Other,
}

/// One property of the host's object: its key, where the key is a string,
/// and its value.
#[derive(Debug, PartialEq)]
pub struct HostEntry {
    pub key: Option<String>,
    pub value: HostValue,
}

/// The asset an entry supplies, where it supplies one.
pub open spec fn supplied(e: HostEntry) -> Option<(Seq<char>, Seq<u8>)> {
    match e.key {
        None => None,
        Some(k) => match e.value {
            HostValue::Text(t) => Some((k@, vstd::utf8::encode_utf8(t@))),
            HostValue::Bytes(b) => Some((k@, b@)),
            HostValue::Other => None,
        },
    }
}

/// The assets that `entries` supply, in order.
pub open spec fn supplied_all(entries: Seq<HostEntry>) -> Seq<(Seq<char>, Seq<u8>)>
    decreases entries.len(),
{
    if entries.len() == 0 {
        Seq::empty()
    } else {
        match supplied(entries[0]) {
            Some(a) => seq![a] + supplied_all(entries.drop_first()),
            None => supplied_all(entries.drop_first()),
        }
    }
}

/// The assets the host's entries supply, in order, keyed by `src:`.
pub fn assets_from(entries: Vec<HostEntry>) -> (r: Vec<(String, Vec<u8>)>)
    ensures
        r@.len() == supplied_all(entries@).len(),
        forall|i: int|
            0 <= i < r@.len() ==> (#[trigger] r@[i]).0@ == supplied_all(entries@)[i].0 && r@[i].1@
                == supplied_all(entries@)[i].1,
{
    let mut out: Vec<(String, Vec<u8>)> = Vec::new();
    let mut i: usize = 0;
    let ghost all = entries@;
    assert(all.skip(0) =~= all);
    while i < entries.len()
        invariant
            all == entries@,
            i <= all.len(),
            supplied_all(all) == (Seq::new(out@.len(), |j: int| (out@[j].0@, out@[j].1@))
                + supplied_all(all.skip(i as int))),
        decreases all.len() - i,
    {
        proof {
            assert(all.skip(i as int).drop_first() =~= all.skip(i + 1));
            assert(all.skip(i as int)[0] == all[i as int]);
        }
        let entry = &entries[i];
        let ghost before = out@;
        match &entry.key {
            Some(k) => match &entry.value {
                HostValue::Text(t) => {
                    let bytes = t.as_str().as_bytes_vec();
                    out.push((k.clone(), bytes));
                },
                HostValue::Bytes(b) => {
                    out.push((k.clone(), b.clone()));
                },
                HostValue::Other => {},
            },
            None => {},
        }
        proof {
            let rest = supplied_all(all.skip(i + 1));
            let view = |s: Seq<(String, Vec<u8>)>| Seq::new(s.len(), |j: int| (s[j].0@, s[j].1@));
            match supplied(all[i as int]) {
                Some(a) => {
                    assert(view(out@) =~= view(before) + seq![a]);
                    assert(view(before) + (seq![a] + rest) =~= view(out@) + rest);
                },
                None => {
                    assert(view(out@) =~= view(before));
                },
            }
        }
        i = i + 1;
    }
    proof {
        assert(all.skip(i as int) =~= Seq::<HostEntry>::empty());
        assert(supplied_all(all) =~= Seq::new(out@.len(), |j: int| (out@[j].0@, out@[j].1@)));
    }
    out
}

/// An entry with a string key and a string or byte value supplies one asset
/// under that key, ahead of what the later entries supply: a string as its
/// UTF-8 bytes, a byte array as its bytes. Any other entry supplies nothing.
pub proof fn lemma_keyed_text_and_bytes_are_kept(e: HostEntry, rest: Seq<HostEntry>)
    ensures
        match (e.key, e.value) {
            (Some(k), HostValue::Text(t)) => supplied_all(seq![e] + rest) == seq![
                (k@, vstd::utf8::encode_utf8(t@)),
            ] + supplied_all(rest),
            (Some(k), HostValue::Bytes(b)) => supplied_all(seq![e] + rest) == seq![(k@, b@)]
                + supplied_all(rest),
            _ => supplied_all(seq![e] + rest) == supplied_all(rest),
        },
{
    let all = seq![e] + rest;
    assert(all[0] == e);
    assert(all.drop_first() =~= rest);
}

} // verus!
