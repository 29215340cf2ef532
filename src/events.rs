//! From an eligible receipt to its index events, in a fixed order.
use vstd::prelude::*;
use crate::entry::{decode_index_value, entries_of_text};
use crate::json::{compare_text, json_of_bytes, parse_json_bytes, Json};
use crate::model::{event_of, events_view, is_eligible, is_owned_by_caller, receipt_eligible, Action, IndexEvent, IndexEventView, Receipt};
use crate::order::{pairs_view, sort_by_type, sort_index_types};
use crate::payload::{account_id_valid, account_index, account_index_members, decode_payload, index_pairs, index_pairs_of, payload_accounts};

verus! {

pub open spec fn set_name() -> Seq<char> {
    seq!['s', 'e', 't']
}

/// The events of one index type: one per entry of its raw text, in entry order.
pub open spec fn events_of_type(r: Receipt, t: (Seq<char>, Seq<char>)) -> Seq<IndexEventView> {
    entries_of_text(t.1).map_values(|e: (Json, Json)| event_of(r, t.0, e))
}

/// The events of a sequence of index types, one type after the other.
pub open spec fn events_of_types(r: Receipt, ts: Seq<(Seq<char>, Seq<char>)>) -> Seq<IndexEventView>
    decreases ts.len(),
{
    if ts.len() == 0 {
        seq![]
    } else {
        events_of_types(r, ts.drop_last()) + events_of_type(r, ts.last())
    }
}

/// The events of one account's index members: index types in ascending order.
pub open spec fn events_of_account(r: Receipt, ix: Seq<(String, Json)>) -> Seq<IndexEventView> {
    events_of_types(r, sort_by_type(index_pairs(ix)))
}

/// The events of the accounts of a payload; accounts other than the caller give none.
pub open spec fn events_of_accounts(r: Receipt, accts: Seq<(String, Json)>) -> Seq<IndexEventView>
    decreases accts.len(),
{
    if accts.len() == 0 {
        seq![]
    } else {
        events_of_accounts(r, accts.drop_last()) + if accts.last().0@ == r.predecessor_id@ {
            events_of_account(r, account_index(accts.last().1).unwrap())
        } else {
            seq![]
        }
    }
}

/// The events of a decoded `set` argument object; none where it is malformed.
pub open spec fn events_of_payload(r: Receipt, args: Json) -> Seq<IndexEventView> {
    match payload_accounts(args) {
        Some(accts) => events_of_accounts(r, accts),
        None => seq![],
    }
}

/// The events of one action: only a call of `set` whose arguments parse gives any.
pub open spec fn events_of_action(r: Receipt, a: Action) -> Seq<IndexEventView> {
    match a {
        Action::FunctionCall { method_name, args } => if method_name@ == set_name() {
            match json_of_bytes(args@) {
                Some(j) => events_of_payload(r, j),
                None => seq![],
            }
        } else {
            seq![]
        },
        Action::Other => seq![],
    }
}

/// The events of a sequence of actions, one action after the other.
pub open spec fn events_of_actions(r: Receipt, acts: Seq<Action>) -> Seq<IndexEventView>
    decreases acts.len(),
{
    if acts.len() == 0 {
        seq![]
    } else {
        events_of_actions(r, acts.drop_last()) + events_of_action(r, acts.last())
    }
}

/// The events of a receipt: none unless it is eligible for `contract_id`.
pub open spec fn events_of_receipt(r: Receipt, contract_id: Seq<char>) -> Seq<IndexEventView> {
    if receipt_eligible(r, contract_id) {
        events_of_actions(r, r.actions@)
    } else {
        seq![]
    }
}

/// Appends the events of one index type to `out`.
fn push_type_events(out: &mut Vec<IndexEvent>, receipt: &Receipt, index_type: &String, raw: &String)
    ensures
        events_view(final(out)@) == events_view(old(out)@) + events_of_type(*receipt, (index_type@, raw@)),
{
    let mut entries = decode_index_value(raw.as_str());
    let ghost es = entries@;
    let ghost start = events_view(out@);
    let ghost f = |e: (Json, Json)| event_of(*receipt, index_type@, e);
    let n: usize = entries.len();
    let mut k: usize = 0;
    assert(es.take(0).map_values(f) =~= seq![]);
    assert(events_view(out@) =~= start + es.take(0).map_values(f));
    while entries.len() > 0
        invariant
            k <= es.len(),
            es.len() == n,
            f == (|e: (Json, Json)| event_of(*receipt, index_type@, e)),
            entries@.len() == es.len() - k,
            entries@ == es.skip(k as int),
            events_view(out@) == start + es.take(k as int).map_values(f),
        decreases entries@.len(),
    {
        let (key, value) = entries.remove(0);
        assert(es[k as int] == (key, value));
        let ev = IndexEvent {
            block_height: receipt.block_height,
            block_timestamp_nanosec: receipt.block_timestamp_nanosec,
            transaction_id: receipt.transaction_id,
            receipt_id: receipt.receipt_id,
            account_id: receipt.predecessor_id.clone(),
            index_type: index_type.clone(),
            index_key: key,
            index_value: value,
        };
        let ghost before = out@;
        out.push(ev);
        proof {
            assert(ev@ =~= event_of(*receipt, index_type@, es[k as int]));
            assert(ev@ == f(es[k as int]));
            assert(es.take(k + 1) =~= es.take(k as int).push(es[k as int]));
            assert(es.take(k + 1).map_values(f) =~= es.take(k as int).map_values(f).push(f(es[k as int])));
            assert(events_view(out@) =~= events_view(before).push(ev@));
            assert(entries@ =~= es.skip(k + 1));
        }
        k = k + 1;
    }
    assert(es.take(k as int) =~= es);
}

/// The events of one account's well-formed index members, ordered by index type.
pub fn account_events(receipt: &Receipt, ix: &Vec<(String, Json)>) -> (r: Vec<IndexEvent>)
    requires
        forall|i: int| 0 <= i < ix@.len() ==> (#[trigger] ix@[i]).1 is Str,
    ensures
        events_view(r@) == events_of_account(*receipt, ix@),
{
    let pairs = index_pairs_of(ix);
    let sorted = sort_index_types(&pairs);
    let ghost ts = pairs_view(sorted@);
    let mut out: Vec<IndexEvent> = Vec::new();
    let mut i: usize = 0;
    assert(ts.take(0) =~= seq![]);
    assert(events_view(out@) =~= seq![]);
    while i < sorted.len()
        invariant
            i <= sorted@.len(),
            ts == pairs_view(sorted@),
            events_view(out@) == events_of_types(*receipt, ts.take(i as int)),
        decreases sorted@.len() - i,
    {
        push_type_events(&mut out, receipt, &sorted[i].0, &sorted[i].1);
        assert(ts.take(i + 1).drop_last() =~= ts.take(i as int));
        i = i + 1;
    }
    assert(ts.take(sorted@.len() as int) =~= ts);
    out
}

/// The events of a decoded `set` argument object for the caller of `receipt`.
pub fn payload_events(receipt: &Receipt, args: &Json) -> (r: Vec<IndexEvent>)
    ensures
        events_view(r@) == events_of_payload(*receipt, *args),
{
    let mut out: Vec<IndexEvent> = Vec::new();
    match decode_payload(args) {
        Some(accts) => {
            let mut i: usize = 0;
            assert(accts@.take(0) =~= seq![]);
            assert(events_view(out@) =~= seq![]);
            while i < accts.len()
                invariant
                    i <= accts@.len(),
                    forall|x: int| 0 <= x < accts@.len() ==> account_id_valid((#[trigger] accts@[x]).0@) && account_index(accts@[x].1) is Some,
                    events_view(out@) == events_of_accounts(*receipt, accts@.take(i as int)),
                decreases accts@.len() - i,
            {
                let ghost before = out@;
                assert(accts@.take(i + 1).drop_last() =~= accts@.take(i as int));
                if is_owned_by_caller(accts[i].0.as_str(), receipt.predecessor_id.as_str()) {
                    let ix = account_index_members(&accts[i].1).unwrap();
                    let mut evs = account_events(receipt, ix);
                    out.append(&mut evs);
                    assert(events_view(out@) =~= events_view(before) + events_of_account(*receipt, ix@));
                } else {
                    assert(events_view(out@) =~= events_view(before) + seq![]);
                }
                i = i + 1;
            }
            assert(accts@.take(accts@.len() as int) =~= accts@);
        },
        None => {
            assert(events_view(out@) =~= seq![]);
        },
    }
    out
}

/// The events of one action of `receipt`.
fn action_events(receipt: &Receipt, action: &Action) -> (r: Vec<IndexEvent>)
    ensures
        events_view(r@) == events_of_action(*receipt, *action),
{
    proof {
        reveal_strlit("set");
        assert("set"@ =~= set_name());
    }
    match action {
        Action::FunctionCall { method_name, args } => {
            if compare_text(method_name.as_str(), "set") != 0 {
                let r: Vec<IndexEvent> = Vec::new();
                assert(events_view(r@) =~= seq![]);
                return r;
            }
            match parse_json_bytes(args.as_slice()) {
                Some(j) => payload_events(receipt, &j),
                None => {
                    let r: Vec<IndexEvent> = Vec::new();
                    assert(events_view(r@) =~= seq![]);
                    r
                },
            }
        },
        Action::Other => {
            let r: Vec<IndexEvent> = Vec::new();
            assert(events_view(r@) =~= seq![]);
            r
        },
    }
}

/// The index events of a receipt, in emission order: actions in receipt
/// order; within an action, accounts in payload order (only the caller's
/// own data counts); within an account, index types in ascending order;
/// within an index type, entries in their order.
pub fn receipt_events(receipt: &Receipt, contract_id: &str) -> (r: Vec<IndexEvent>)
    ensures
        events_view(r@) == events_of_receipt(*receipt, contract_id@),
{
    let mut out: Vec<IndexEvent> = Vec::new();
    assert(events_view(out@) =~= seq![]);
    if !is_eligible(receipt, contract_id) {
        return out;
    }
    let ghost acts = receipt.actions@;
    let mut i: usize = 0;
    assert(acts.take(0) =~= seq![]);
    while i < receipt.actions.len()
        invariant
            i <= acts.len(),
            acts == receipt.actions@,
            events_view(out@) == events_of_actions(*receipt, acts.take(i as int)),
        decreases acts.len() - i,
    {
        let ghost before = out@;
        let mut evs = action_events(receipt, &receipt.actions[i]);
        out.append(&mut evs);
        assert(acts.take(i + 1).drop_last() =~= acts.take(i as int));
        assert(events_view(out@) =~= events_view(before) + events_of_action(*receipt, acts[i as int]));
        i = i + 1;
    }
    assert(acts.take(acts.len() as int) =~= acts);
    out
}

} // verus!
