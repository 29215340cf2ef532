//! A JSON document as the indexer reads it, and the parsing that produces one.
use vstd::prelude::*;

verus! {

/// A JSON number, carried through unread.
#[verifier::external_type_specification]
#[verifier::external_body]
pub struct ExNumber(serde_json::Number);

/// A parsed JSON value tree of `serde_json::Value`.
#[verifier::external_type_specification]
#[verifier::external_body]
pub struct ExValue(serde_json::Value);

/// A JSON document. Object members keep the order in which the parser
/// hands them out; numbers are carried through unread.
pub enum Json {
    Null,
    Bool(bool),
    Number(serde_json::Number),
    Str(String),
    Array(Vec<Json>),
    Object(Vec<(String, Json)>),
}

/// No two members of an object share a name.
pub open spec fn names_unique(fields: Seq<(String, Json)>) -> bool {
    forall|i: int, j: int| 0 <= i < j < fields.len() ==> (#[trigger] fields[i]).0@ != (#[trigger] fields[j]).0@
}

/// Every object down to `depth` levels of nesting has members of distinct names.
pub open spec fn objects_unique(j: Json, depth: nat) -> bool
    decreases depth,
{
    if depth == 0 {
        true
    } else {
        match j {
            Json::Object(f) => names_unique(f@) && forall|i: int| 0 <= i < f@.len() ==> objects_unique(#[trigger] f@[i].1, (depth - 1) as nat),
            Json::Array(items) => forall|i: int| 0 <= i < items@.len() ==> objects_unique(#[trigger] items@[i], (depth - 1) as nat),
            _ => true,
        }
    }
}

/// What `serde_json::from_slice` makes of a byte string, `None` where it fails.
pub uninterp spec fn json_of_bytes(b: Seq<u8>) -> Option<Json>;

/// What `serde_json::from_str` makes of a text, `None` where it fails.
pub uninterp spec fn json_of_text(s: Seq<char>) -> Option<Json>;

/// Turns a `serde_json::Value` into the same tree as a `Json`, one node for one node.
#[verifier::external_body]
fn json_from_value(v: serde_json::Value) -> Json {
    match v {
        serde_json::Value::Null => Json::Null,
        serde_json::Value::Bool(b) => Json::Bool(b),
        serde_json::Value::Number(n) => Json::Number(n),
        serde_json::Value::String(s) => Json::Str(s),
        serde_json::Value::Array(a) => Json::Array(a.into_iter().map(json_from_value).collect()),
        serde_json::Value::Object(m) => Json::Object(
            m.into_iter().map(|(k, v)| (k, json_from_value(v))).collect(),
        ),
    }
}

/// Relies on `serde_json::from_slice::<serde_json::Value>`: parses UTF-8 JSON text
/// from bytes; its result depends on the bytes alone, and its objects are
/// `serde_json::Map`s, whose keys are distinct.
#[verifier::external_body]
pub(crate) fn parse_json_bytes(b: &[u8]) -> (r: Option<Json>)
    ensures
        r == json_of_bytes(b@),
        r matches Some(j) ==> forall|d: nat| #[trigger] objects_unique(j, d),
{
    serde_json::from_slice::<serde_json::Value>(b).ok().map(json_from_value)
}

/// Relies on `serde_json::from_str::<serde_json::Value>`: parses JSON text;
/// its result depends on the text alone, and its objects are
/// `serde_json::Map`s, whose keys are distinct.
#[verifier::external_body]
pub(crate) fn parse_json_text(s: &str) -> (r: Option<Json>)
    ensures
        r == json_of_text(s@),
        r matches Some(j) ==> forall|d: nat| #[trigger] objects_unique(j, d),
{
    serde_json::from_str::<serde_json::Value>(s).ok().map(json_from_value)
}

/// Lexicographic order on texts, character by character (the order of
/// `String`'s `Ord`, since UTF-8 keeps the order of code points).
pub open spec fn text_lt(a: Seq<char>, b: Seq<char>) -> bool
    decreases a.len(),
{
    if b.len() == 0 {
        false
    } else if a.len() == 0 {
        true
    } else if (a[0] as u32) < (b[0] as u32) {
        true
    } else if (a[0] as u32) > (b[0] as u32) {
        false
    } else {
        text_lt(a.drop_first(), b.drop_first())
    }
}


proof fn lemma_text_lt_skip(a: Seq<char>, b: Seq<char>, i: int)
    requires
        0 <= i <= a.len(),
        i <= b.len(),
        a.subrange(0, i) == b.subrange(0, i),
    ensures
        text_lt(a, b) == text_lt(a.skip(i), b.skip(i)),
    decreases i,
{
    if i > 0 {
        assert(a[0] == a.subrange(0, i)[0]);
        assert(b[0] == b.subrange(0, i)[0]);
        assert(a.drop_first().subrange(0, i - 1) =~= a.subrange(0, i).drop_first());
        assert(b.drop_first().subrange(0, i - 1) =~= b.subrange(0, i).drop_first());
        lemma_text_lt_skip(a.drop_first(), b.drop_first(), i - 1);
        assert(a.drop_first().skip(i - 1) =~= a.skip(i));
        assert(b.drop_first().skip(i - 1) =~= b.skip(i));
    } else {
        assert(a.skip(0) =~= a);
        assert(b.skip(0) =~= b);
    }
}

/// Compares two texts: negative where `a` comes first, zero where they are
/// equal, positive where `b` comes first.
pub fn compare_text(a: &str, b: &str) -> (r: i8)
    ensures
        r < 0 <==> text_lt(a@, b@),
        r == 0 <==> a@ == b@,
        r > 0 <==> text_lt(b@, a@),
{
    let na = a.unicode_len();
    let nb = b.unicode_len();
    let mut i: usize = 0;
    while i < na && i < nb
        invariant
            na == a@.len(),
            nb == b@.len(),
            i <= na,
            i <= nb,
            a@.subrange(0, i as int) == b@.subrange(0, i as int),
        decreases na - i,
    {
        let ca = a.get_char(i);
        let cb = b.get_char(i);
        if (ca as u32) != (cb as u32) {
            proof {
                lemma_text_lt_skip(a@, b@, i as int);
                lemma_text_lt_skip(b@, a@, i as int);
                assert(a@.skip(i as int)[0] == ca);
                assert(b@.skip(i as int)[0] == cb);
                assert(a@[i as int] != b@[i as int]);
            }
            if (ca as u32) < (cb as u32) {
                return -1;
            } else {
                return 1;
            }
        }
        proof {
            assert(a@.subrange(0, i + 1) =~= a@.subrange(0, i as int).push(ca));
            assert(b@.subrange(0, i + 1) =~= b@.subrange(0, i as int).push(cb));
            assert(ca == cb);
        }
        i = i + 1;
    }
    proof {
        lemma_text_lt_skip(a@, b@, i as int);
        lemma_text_lt_skip(b@, a@, i as int);
        assert(a@.subrange(0, na as int) =~= a@);
        assert(b@.subrange(0, nb as int) =~= b@);
        if a@ == b@ {
            assert(a@.skip(i as int).len() == 0);
        }
        if na == nb {
            assert(a@ =~= b@);
        }
    }
    if na < nb {
        -1
    } else if na > nb {
        1
    } else {
        0
    }
}

/// The position of the last member named `name` among an object's members, or -1.
pub open spec fn field_index(fields: Seq<(String, Json)>, name: Seq<char>) -> int
    decreases fields.len(),
{
    if fields.len() == 0 {
        -1
    } else if fields.last().0@ == name {
        fields.len() - 1
    } else {
        field_index(fields.drop_last(), name)
    }
}

pub(crate) proof fn lemma_field_index_range(fields: Seq<(String, Json)>, name: Seq<char>)
    ensures
        -1 <= field_index(fields, name) < fields.len(),
        field_index(fields, name) >= 0 ==> fields[field_index(fields, name)].0@ == name,
    decreases fields.len(),
{
    if fields.len() > 0 {
        lemma_field_index_range(fields.drop_last(), name);
    }
}

/// The member named `name` of an object's members.
pub open spec fn field(fields: Seq<(String, Json)>, name: Seq<char>) -> Option<Json> {
    let i = field_index(fields, name);
    if 0 <= i < fields.len() {
        Some(fields[i].1)
    } else {
        None
    }
}

/// Finds the position of the member named `name`; where names repeat, the last one counts.
pub fn find_field(fields: &Vec<(String, Json)>, name: &str) -> (r: Option<usize>)
    ensures
        match r {
            Some(i) => i as int == field_index(fields@, name@) && i < fields@.len(),
            None => field_index(fields@, name@) == -1,
        },
{
    let mut i: usize = fields.len();
    assert(fields@.take(i as int) =~= fields@);
    while i > 0
        invariant
            i <= fields@.len(),
            field_index(fields@, name@) == field_index(fields@.take(i as int), name@),
        decreases i,
    {
        let ghost pre = fields@.take(i as int);
        assert(pre.last() == fields@[i - 1]);
        if compare_text(fields[i - 1].0.as_str(), name) == 0 {
            return Some(i - 1);
        }
        assert(pre.drop_last() =~= fields@.take(i - 1));
        i = i - 1;
    }
    None
}

} // verus!
