//! Decoding of the arguments of a `set` call:
//! `{"data": {<account>: {"index": {<index type>: <raw text>}}}}`.
use vstd::prelude::*;
use crate::json::{field, find_field, Json};
use crate::order::pairs_view;

verus! {

pub open spec fn data_name() -> Seq<char> {
    seq!['d', 'a', 't', 'a']
}

pub open spec fn index_name() -> Seq<char> {
    seq!['i', 'n', 'd', 'e', 'x']
}

pub open spec fn account_char(c: char) -> bool {
    ('a' <= c && c <= 'z') || ('0' <= c && c <= '9') || account_separator(c)
}

pub open spec fn account_separator(c: char) -> bool {
    c == '-' || c == '_' || c == '.'
}

/// A valid account id: 2 to 64 characters among lower-case letters, digits
/// and the separators `-`, `_`, `.`, neither starting nor ending with a
/// separator, with no two separators in a row.
pub open spec fn account_id_valid(s: Seq<char>) -> bool {
    &&& 2 <= s.len() <= 64
    &&& forall|i: int| 0 <= i < s.len() ==> account_char(#[trigger] s[i])
    &&& !account_separator(s[0])
    &&& !account_separator(s[s.len() - 1])
    &&& forall|i: int| 0 <= i < s.len() - 1 ==> !(account_separator(#[trigger] s[i]) && account_separator(s[i + 1]))
}

/// Relies on `near_account_id::AccountId::validate` (as inindexer exposes it),
/// the check that deserialising an account id applies: the length in bytes
/// between 2 and 64, then every character in `[a-z0-9_.-]`, no separator
/// first, last, or next to another.
#[verifier::external_body]
fn is_valid_account_id(s: &str) -> (r: bool)
    ensures
        r == account_id_valid(s@),
{
    inindexer::near_indexer_primitives::types::AccountId::validate(s).is_ok()
}

/// The text of a string value.
pub open spec fn text_of(j: Json) -> Seq<char> {
    match j {
        Json::Str(s) => s@,
        _ => seq![],
    }
}

/// The `index` members of an account's object, where that member is an
/// object whose every member is a string.
pub open spec fn account_index(acct: Json) -> Option<Seq<(String, Json)>> {
    match acct {
        Json::Object(f) => match field(f@, index_name()) {
            Some(Json::Object(ix)) => if forall|i: int| 0 <= i < ix@.len() ==> (#[trigger] ix@[i]).1 is Str {
                Some(ix@)
            } else {
                None
            },
            _ => None,
        },
        _ => None,
    }
}

/// The accounts of a well-formed argument object: the members of its `data`
/// object, each of which must be named by a valid account id and hold a
/// well-formed `index`.
pub open spec fn payload_accounts(args: Json) -> Option<Seq<(String, Json)>> {
    match args {
        Json::Object(f) => match field(f@, data_name()) {
            Some(Json::Object(accts)) => if forall|i: int| 0 <= i < accts@.len() ==> account_id_valid((#[trigger] accts@[i]).0@) && account_index(accts@[i].1) is Some {
                Some(accts@)
            } else {
                None
            },
            _ => None,
        },
        _ => None,
    }
}

/// The `(index type, raw text)` pairs of an account's index members.
pub open spec fn index_pairs(ix: Seq<(String, Json)>) -> Seq<(Seq<char>, Seq<char>)> {
    ix.map_values(|m: (String, Json)| (m.0@, text_of(m.1)))
}

fn object_member<'a>(f: &'a Vec<(String, Json)>, name: &str) -> (r: Option<&'a Json>)
    ensures
        r matches Some(j) ==> field(f@, name@) == Some(*j),
        r is None ==> field(f@, name@) is None,
{
    match find_field(f, name) {
        Some(i) => Some(&f[i].1),
        None => None,
    }
}

/// The index members of an account's object, where it has the expected shape.
pub fn account_index_members(acct: &Json) -> (r: Option<&Vec<(String, Json)>>)
    ensures
        r matches Some(v) ==> account_index(*acct) == Some(v@),
        r is None ==> account_index(*acct) is None,
{
    proof {
        reveal_strlit("index");
        assert("index"@ =~= index_name());
    }
    match acct {
        Json::Object(f) => match object_member(f, "index") {
            Some(Json::Object(ix)) => {
                let mut i: usize = 0;
                while i < ix.len()
                    invariant
                        i <= ix@.len(),
                        *acct == Json::Object(*f),
                        field(f@, index_name()) == Some(Json::Object(*ix)),
                        forall|x: int| 0 <= x < i ==> (#[trigger] ix@[x]).1 is Str,
                    decreases ix@.len() - i,
                {
                    match &ix[i].1 {
                        Json::Str(_) => {},
                        _ => {
                            assert(!(ix@[i as int].1 is Str));
                            return None;
                        },
                    }
                    i = i + 1;
                }
                Some(ix)
            },
            _ => None,
        },
        _ => None,
    }
}

/// The accounts written by a decoded `set` argument object, where it has
/// the expected shape; `None` where any part of it does not.
pub fn decode_payload(args: &Json) -> (r: Option<&Vec<(String, Json)>>)
    ensures
        r matches Some(v) ==> payload_accounts(*args) == Some(v@),
        r is None ==> payload_accounts(*args) is None,
{
    proof {
        reveal_strlit("data");
        assert("data"@ =~= data_name());
    }
    match args {
        Json::Object(f) => match object_member(f, "data") {
            Some(Json::Object(accts)) => {
                let mut i: usize = 0;
                while i < accts.len()
                    invariant
                        i <= accts@.len(),
                        *args == Json::Object(*f),
                        field(f@, data_name()) == Some(Json::Object(*accts)),
                        forall|x: int| 0 <= x < i ==> account_id_valid((#[trigger] accts@[x]).0@) && account_index(accts@[x].1) is Some,
                    decreases accts@.len() - i,
                {
                    if !is_valid_account_id(accts[i].0.as_str()) || account_index_members(&accts[i].1).is_none() {
                        assert(!(account_id_valid(accts@[i as int].0@) && account_index(accts@[i as int].1) is Some));
                        return None;
                    }
                    i = i + 1;
                }
                Some(accts)
            },
            _ => None,
        },
        _ => None,
    }
}

/// Copies out the `(index type, raw text)` pairs of well-formed index members.
pub fn index_pairs_of(ix: &Vec<(String, Json)>) -> (r: Vec<(String, String)>)
    requires
        forall|i: int| 0 <= i < ix@.len() ==> (#[trigger] ix@[i]).1 is Str,
    ensures
        pairs_view(r@) == index_pairs(ix@),
{
    let mut out: Vec<(String, String)> = Vec::new();
    let mut i: usize = 0;
    while i < ix.len()
        invariant
            i <= ix@.len(),
            forall|x: int| 0 <= x < ix@.len() ==> (#[trigger] ix@[x]).1 is Str,
            pairs_view(out@) == index_pairs(ix@.take(i as int)),
        decreases ix@.len() - i,
    {
        let raw = match &ix[i].1 {
            Json::Str(s) => s.clone(),
            _ => String::new(),
        };
        let ghost before = out@;
        out.push((ix[i].0.clone(), raw));
        assert(ix@.take(i + 1) =~= ix@.take(i as int).push(ix@[i as int]));
        assert(pairs_view(out@) =~= pairs_view(before).push((ix@[i as int].0@, text_of(ix@[i as int].1))));
        assert(index_pairs(ix@.take(i + 1)) =~= index_pairs(ix@.take(i as int)).push((ix@[i as int].0@, text_of(ix@[i as int].1))));
        i = i + 1;
    }
    assert(ix@.take(ix@.len() as int) =~= ix@);
    out
}

} // verus!
