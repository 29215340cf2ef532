//! Deterministic order of index types: ascending by name, stable among equal names.
use vstd::prelude::*;
use crate::json::{compare_text, text_lt};

verus! {

/// The texts of `(index type, raw value)` pairs.
pub open spec fn pairs_view(v: Seq<(String, String)>) -> Seq<(Seq<char>, Seq<char>)> {
    v.map_values(|p: (String, String)| (p.0@, p.1@))
}

/// Inserts `x` after every pair whose name does not come after it.
pub open spec fn insert_by_type(s: Seq<(Seq<char>, Seq<char>)>, x: (Seq<char>, Seq<char>)) -> Seq<(Seq<char>, Seq<char>)>
    decreases s.len(),
{
    if s.len() == 0 {
        seq![x]
    } else if text_lt(x.0, s[0].0) {
        seq![x] + s
    } else {
        seq![s[0]] + insert_by_type(s.drop_first(), x)
    }
}

/// The pairs ordered by name, pairs of equal names kept in their order.
pub open spec fn sort_by_type(s: Seq<(Seq<char>, Seq<char>)>) -> Seq<(Seq<char>, Seq<char>)>
    decreases s.len(),
{
    if s.len() == 0 {
        seq![]
    } else {
        insert_by_type(sort_by_type(s.drop_last()), s.last())
    }
}

/// No pair's name comes before the name of a pair ahead of it.
pub open spec fn ascending_by_type(s: Seq<(Seq<char>, Seq<char>)>) -> bool {
    forall|i: int, j: int| 0 <= i < j < s.len() ==> !text_lt(#[trigger] s[j].0, #[trigger] s[i].0)
}

pub(crate) proof fn lemma_insert_at(s: Seq<(Seq<char>, Seq<char>)>, x: (Seq<char>, Seq<char>), pos: int)
    requires
        0 <= pos <= s.len(),
        forall|j: int| 0 <= j < pos ==> !text_lt(x.0, #[trigger] s[j].0),
        pos < s.len() ==> text_lt(x.0, s[pos].0),
    ensures
        insert_by_type(s, x) == s.insert(pos, x),
    decreases pos,
{
    if s.len() == 0 {
        assert(seq![x] =~= s.insert(pos, x));
    } else if pos == 0 {
        assert(seq![x] + s =~= s.insert(0, x));
    } else {
        assert(!text_lt(x.0, s[0].0));
        lemma_insert_at(s.drop_first(), x, pos - 1);
        assert(seq![s[0]] + s.drop_first().insert(pos - 1, x) =~= s.insert(pos, x));
    }
}

/// Orders `(index type, raw value)` pairs by index type, keeping the order
/// of pairs with equal names.
pub fn sort_index_types(v: &Vec<(String, String)>) -> (r: Vec<(String, String)>)
    ensures
        pairs_view(r@) == sort_by_type(pairs_view(v@)),
{
    let ghost pv = pairs_view(v@);
    let mut out: Vec<(String, String)> = Vec::new();
    let mut i: usize = 0;
    assert(pv.take(0) =~= seq![]);
    assert(pairs_view(out@) =~= seq![]);
    while i < v.len()
        invariant
            i <= v@.len(),
            pv == pairs_view(v@),
            pairs_view(out@) == sort_by_type(pv.take(i as int)),
        decreases v@.len() - i,
    {
        let x = (v[i].0.clone(), v[i].1.clone());
        let ghost xv = (x.0@, x.1@);
        let ghost sv = pairs_view(out@);
        let mut pos: usize = 0;
        while pos < out.len() && compare_text(x.0.as_str(), out[pos].0.as_str()) >= 0
            invariant
                pos <= out@.len(),
                sv == pairs_view(out@),
                xv == (x.0@, x.1@),
                forall|j: int| 0 <= j < pos ==> !text_lt(xv.0, #[trigger] sv[j].0),
            decreases out@.len() - pos,
        {
            pos = pos + 1;
        }
        proof {
            lemma_insert_at(sv, xv, pos as int);
            assert(pv.take(i + 1).drop_last() =~= pv.take(i as int));
            assert(pv.take(i + 1).last() == xv);
        }
        out.insert(pos, x);
        assert(pairs_view(out@) =~= sv.insert(pos as int, xv));
        i = i + 1;
    }
    assert(pv.take(v@.len() as int) =~= pv);
    out
}

} // verus!
