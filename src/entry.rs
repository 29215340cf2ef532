//! Decoding of one index-type value: a single `{"key", "value"}` object or a list of them.
use vstd::prelude::*;
use crate::json::{field, field_index, find_field, json_of_text, parse_json_text, Json};

verus! {

pub open spec fn key_name() -> Seq<char> {
    seq!['k', 'e', 'y']
}

pub open spec fn value_name() -> Seq<char> {
    seq!['v', 'a', 'l', 'u', 'e']
}

/// A single entry: an object with members `key` and `value` (others are ignored).
pub open spec fn entry_of(j: Json) -> Option<(Json, Json)> {
    match j {
        Json::Object(f) => match (field(f@, key_name()), field(f@, value_name())) {
            (Some(k), Some(v)) => Some((k, v)),
            _ => None,
        },
        _ => None,
    }
}

/// The entries of a decoded value: the single-entry shape is tried first,
/// then a list whose every element is a single entry.
pub open spec fn entries_of(j: Json) -> Option<Seq<(Json, Json)>> {
    if entry_of(j) is Some {
        Some(seq![entry_of(j).unwrap()])
    } else {
        match j {
            Json::Array(items) => if forall|i: int| 0 <= i < items@.len() ==> (#[trigger] entry_of(items@[i])) is Some {
                Some(items@.map_values(|x: Json| entry_of(x).unwrap()))
            } else {
                None
            },
            _ => None,
        }
    }
}

/// The entries of a raw JSON text; none where it is malformed.
pub open spec fn entries_of_text(raw: Seq<char>) -> Seq<(Json, Json)> {
    match json_of_text(raw) {
        Some(j) => match entries_of(j) {
            Some(es) => es,
            None => seq![],
        },
        None => seq![],
    }
}

fn lookup_members(f: &Vec<(String, Json)>) -> (r: Option<(usize, usize)>)
    ensures
        match r {
            Some((ki, vi)) => ki as int == field_index(f@, key_name()) && vi as int == field_index(f@, value_name())
                && ki < f@.len() && vi < f@.len() && ki != vi,
            None => field(f@, key_name()) is None || field(f@, value_name()) is None,
        },
{
    let ki = find_field(f, "key");
    let vi = find_field(f, "value");
    proof {
        reveal_strlit("key");
        reveal_strlit("value");
        assert("key"@ =~= key_name());
        assert("value"@ =~= value_name());
    }
    match (ki, vi) {
        (Some(k), Some(v)) => {
            proof {
                crate::json::lemma_field_index_range(f@, key_name());
                crate::json::lemma_field_index_range(f@, value_name());
                assert(key_name().len() != value_name().len());
            }
            Some((k, v))
        },
        _ => None,
    }
}

/// Tells whether `j` has the single-entry shape.
pub fn is_entry(j: &Json) -> (r: bool)
    ensures
        r == entry_of(*j) is Some,
{
    match j {
        Json::Object(f) => lookup_members(f).is_some(),
        _ => false,
    }
}

/// Takes the key and the value out of a single entry.
pub fn take_entry(j: Json) -> (r: Option<(Json, Json)>)
    ensures
        r == entry_of(j),
{
    match j {
        Json::Object(mut f) => {
            match lookup_members(&f) {
                Some((ki, vi)) => {
                    if ki < vi {
                        let v = f.remove(vi);
                        let k = f.remove(ki);
                        Some((k.1, v.1))
                    } else {
                        let k = f.remove(ki);
                        let v = f.remove(vi);
                        Some((k.1, v.1))
                    }
                },
                None => None,
            }
        },
        _ => None,
    }
}

/// The entries of a decoded value: one for a single entry, one per element
/// for a list of entries, in list order; `None` for any other shape.
pub fn index_entries(j: Json) -> (r: Option<Vec<(Json, Json)>>)
    ensures
        match r {
            Some(v) => entries_of(j) == Some(v@),
            None => entries_of(j) is None,
        },
{
    if is_entry(&j) {
        let e = take_entry(j);
        let mut out: Vec<(Json, Json)> = Vec::new();
        out.push(e.unwrap());
        assert(out@ =~= seq![entry_of(j).unwrap()]);
        return Some(out);
    }
    let ghost j0 = j;
    match j {
        Json::Array(mut items) => {
            let ghost all = items@;
            let mut i: usize = 0;
            while i < items.len()
                invariant
                    i <= items@.len(),
                    items@ == all,
                    entry_of(j0) is None,
                    j0 == j,
                    j0 matches Json::Array(v) && v@ == all,
                    forall|x: int| 0 <= x < i ==> (#[trigger] entry_of(all[x])) is Some,
                decreases items@.len() - i,
            {
                if !is_entry(&items[i]) {
                    assert(entry_of(all[i as int]) is None);
                    return None;
                }
                i = i + 1;
            }
            let mut out: Vec<(Json, Json)> = Vec::new();
            while items.len() > 0
                invariant
                    entry_of(j0) is None,
                    j0 == j,
                    j0 matches Json::Array(v) && v@ == all,
                    forall|x: int| 0 <= x < all.len() ==> (#[trigger] entry_of(all[x])) is Some,
                    items@ == all.skip(out@.len() as int),
                    out@.len() <= all.len(),
                    out@ == all.take(out@.len() as int).map_values(|x: Json| entry_of(x).unwrap()),
                decreases items@.len(),
            {
                let ghost n = out@.len() as int;
                let item = items.remove(0);
                assert(item == all[n]);
                let e = take_entry(item);
                out.push(e.unwrap());
                assert(items@ =~= all.skip(n + 1));
                assert(out@ =~= all.take(n + 1).map_values(|x: Json| entry_of(x).unwrap()));
            }
            assert(all.take(out@.len() as int) =~= all);
            Some(out)
        },
        _ => None,
    }
}

/// Decodes a raw index-type value; a malformed one gives no entries.
pub fn decode_index_value(raw: &str) -> (r: Vec<(Json, Json)>)
    ensures
        r@ == entries_of_text(raw@),
{
    match parse_json_text(raw) {
        Some(j) => match index_entries(j) {
            Some(v) => v,
            None => Vec::new(),
        },
        None => Vec::new(),
    }
}

} // verus!
