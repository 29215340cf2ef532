//! Properties that hold of every receipt and every sink state.
use vstd::prelude::*;
use crate::events::{events_of_payload, set_name, events_of_account, events_of_accounts, events_of_action, events_of_actions, events_of_receipt, events_of_type, events_of_types};
use crate::json::Json;
use crate::model::{Action, IndexEventView, Receipt};
use crate::payload::account_index;
use crate::json::text_lt;
use crate::order::{ascending_by_type, insert_by_type, sort_by_type};
use crate::sink::trimmed;

verus! {

/// Every event carries the caller's account.
pub open spec fn all_by_caller(s: Seq<IndexEventView>, r: Receipt) -> bool {
    forall|i: int| 0 <= i < s.len() ==> (#[trigger] s[i]).account_id == r.predecessor_id@
}

proof fn lemma_concat_by_caller(a: Seq<IndexEventView>, b: Seq<IndexEventView>, r: Receipt)
    requires
        all_by_caller(a, r),
        all_by_caller(b, r),
    ensures
        all_by_caller(a + b, r),
{
    assert forall|i: int| 0 <= i < (a + b).len() implies (#[trigger] (a + b)[i]).account_id == r.predecessor_id@ by {
        if i >= a.len() {
            assert((a + b)[i] == b[i - a.len()]);
        }
    }
}

proof fn lemma_types_by_caller(r: Receipt, ts: Seq<(Seq<char>, Seq<char>)>)
    ensures
        all_by_caller(events_of_types(r, ts), r),
    decreases ts.len(),
{
    if ts.len() > 0 {
        lemma_types_by_caller(r, ts.drop_last());
        lemma_concat_by_caller(events_of_types(r, ts.drop_last()), events_of_type(r, ts.last()), r);
    }
}

proof fn lemma_accounts_by_caller(r: Receipt, accts: Seq<(String, Json)>)
    ensures
        all_by_caller(events_of_accounts(r, accts), r),
    decreases accts.len(),
{
    if accts.len() > 0 {
        lemma_accounts_by_caller(r, accts.drop_last());
        let last = if accts.last().0@ == r.predecessor_id@ {
            events_of_account(r, account_index(accts.last().1).unwrap())
        } else {
            seq![]
        };
        if accts.last().0@ == r.predecessor_id@ {
            lemma_types_by_caller(r, crate::order::sort_by_type(crate::payload::index_pairs(account_index(accts.last().1).unwrap())));
        }
        lemma_concat_by_caller(events_of_accounts(r, accts.drop_last()), last, r);
    }
}

proof fn lemma_actions_by_caller(r: Receipt, acts: Seq<Action>)
    ensures
        all_by_caller(events_of_actions(r, acts), r),
    decreases acts.len(),
{
    if acts.len() > 0 {
        lemma_actions_by_caller(r, acts.drop_last());
        let a = acts.last();
        match a {
            Action::FunctionCall { method_name, args } => {
                if let Some(j) = crate::json::json_of_bytes(args@) {
                    if let Some(accts) = crate::payload::payload_accounts(j) {
                        lemma_accounts_by_caller(r, accts);
                    }
                }
            },
            Action::Other => {},
        }
        lemma_concat_by_caller(events_of_actions(r, acts.drop_last()), events_of_action(r, a), r);
    }
}

/// Every event of a receipt names the receipt's caller as its account:
/// data written under any other account never yields an event.
pub proof fn lemma_events_by_caller(r: Receipt, contract_id: Seq<char>)
    ensures
        all_by_caller(events_of_receipt(r, contract_id), r),
{
    if crate::model::receipt_eligible(r, contract_id) {
        lemma_actions_by_caller(r, r.actions@);
    }
}

/// Decoding depends on nothing but its input: a `set` call gives the same
/// events for the same method name and argument bytes, whatever buffers
/// hold them.
pub proof fn lemma_decoding_deterministic(r: Receipt, a1: Action, a2: Action)
    requires
        a1 matches Action::FunctionCall { method_name: m1, args: b1 },
        a2 matches Action::FunctionCall { method_name: m2, args: b2 },
        a1->method_name@ == a2->method_name@,
        a1->args@ == a2->args@,
    ensures
        events_of_action(r, a1) == events_of_action(r, a2),
{
}

/// After a block ends the resident window holds at most the maximum, and
/// what was dropped is exactly the oldest entries: the window is the newest
/// part of the old window followed by the block's events.
pub proof fn lemma_trim_keeps_newest(resident: Seq<IndexEventView>, added: Seq<IndexEventView>, max_size: nat)
    ensures
        trimmed(resident, added, max_size).len() <= max_size,
        trimmed(resident, added, max_size).len() == if resident.len() + added.len() <= max_size {
            resident.len() + added.len()
        } else {
            max_size
        },
        trimmed(resident, added, max_size) == (resident + added).skip(
            (resident + added).len() - trimmed(resident, added, max_size).len(),
        ),
{
    let all = resident + added;
    if all.len() <= max_size {
        assert(all.skip(0) =~= all);
    }
}

proof fn lemma_text_lt_irreflexive(a: Seq<char>)
    ensures
        !text_lt(a, a),
    decreases a.len(),
{
    if a.len() > 0 {
        lemma_text_lt_irreflexive(a.drop_first());
    }
}

proof fn lemma_text_lt_asymmetric(a: Seq<char>, b: Seq<char>)
    ensures
        text_lt(a, b) ==> !text_lt(b, a),
    decreases a.len(),
{
    if a.len() > 0 && b.len() > 0 {
        lemma_text_lt_asymmetric(a.drop_first(), b.drop_first());
    }
}

proof fn lemma_text_lt_transitive(a: Seq<char>, b: Seq<char>, c: Seq<char>)
    ensures
        text_lt(a, b) && text_lt(b, c) ==> text_lt(a, c),
    decreases a.len(),
{
    if a.len() > 0 && b.len() > 0 && c.len() > 0 {
        lemma_text_lt_transitive(a.drop_first(), b.drop_first(), c.drop_first());
    }
}

proof fn lemma_insert_multiset(s: Seq<(Seq<char>, Seq<char>)>, x: (Seq<char>, Seq<char>))
    ensures
        insert_by_type(s, x).to_multiset() == s.to_multiset().insert(x),
    decreases s.len(),
{
    broadcast use vstd::seq_lib::group_to_multiset_ensures;
    if s.len() == 0 {
        assert(seq![x] =~= Seq::<(Seq<char>, Seq<char>)>::empty().push(x));
    } else if text_lt(x.0, s[0].0) {
        vstd::seq_lib::lemma_multiset_commutative(seq![x], s);
        assert(seq![x] =~= Seq::<(Seq<char>, Seq<char>)>::empty().push(x));
    } else {
        lemma_insert_multiset(s.drop_first(), x);
        vstd::seq_lib::lemma_multiset_commutative(seq![s[0]], insert_by_type(s.drop_first(), x));
        vstd::seq_lib::lemma_multiset_commutative(seq![s[0]], s.drop_first());
        assert(seq![s[0]] + s.drop_first() =~= s);
        assert(seq![s[0]] =~= Seq::<(Seq<char>, Seq<char>)>::empty().push(s[0]));
    }
}

proof fn lemma_insert_ascending(s: Seq<(Seq<char>, Seq<char>)>, x: (Seq<char>, Seq<char>))
    requires
        ascending_by_type(s),
    ensures
        ascending_by_type(insert_by_type(s, x)),
    decreases s.len(),
{
    broadcast use vstd::seq_lib::group_to_multiset_ensures;
    if s.len() == 0 {
    } else if text_lt(x.0, s[0].0) {
        let t = seq![x] + s;
        assert forall|i: int, j: int| 0 <= i < j < t.len() implies !text_lt(#[trigger] t[j].0, #[trigger] t[i].0) by {
            if i == 0 {
                assert(t[j] == s[j - 1]);
                lemma_text_lt_asymmetric(x.0, s[0].0);
                lemma_text_lt_transitive(s[j - 1].0, x.0, s[0].0);
                if j - 1 > 0 {
                    assert(!text_lt(s[j - 1].0, s[0].0));
                }
            } else {
                assert(t[i] == s[i - 1] && t[j] == s[j - 1]);
            }
        }
    } else {
        let rest = insert_by_type(s.drop_first(), x);
        assert(ascending_by_type(s.drop_first())) by {
            assert forall|i: int, j: int| 0 <= i < j < s.drop_first().len() implies !text_lt(
                #[trigger] s.drop_first()[j].0,
                #[trigger] s.drop_first()[i].0,
            ) by {
                assert(s.drop_first()[i] == s[i + 1] && s.drop_first()[j] == s[j + 1]);
            }
        }
        lemma_insert_ascending(s.drop_first(), x);
        lemma_insert_multiset(s.drop_first(), x);
        let t = seq![s[0]] + rest;
        assert forall|i: int, j: int| 0 <= i < j < t.len() implies !text_lt(#[trigger] t[j].0, #[trigger] t[i].0) by {
            if i == 0 {
                let e = rest[j - 1];
                assert(t[j] == e);
                assert(rest.to_multiset().count(e) > 0);
                if e != x {
                    assert(s.drop_first().to_multiset().count(e) > 0);
                    assert(s.drop_first().contains(e));
                    let k = choose|k: int| 0 <= k < s.drop_first().len() && s.drop_first()[k] == e;
                    assert(s[k + 1] == e);
                }
            } else {
                assert(t[i] == rest[i - 1] && t[j] == rest[j - 1]);
            }
        }
    }
}

/// Ordering by index type yields every pair exactly once and no pair whose
/// name comes before that of a pair ahead of it.
pub proof fn lemma_sort_by_type(s: Seq<(Seq<char>, Seq<char>)>)
    ensures
        ascending_by_type(sort_by_type(s)),
        sort_by_type(s).to_multiset() == s.to_multiset(),
    decreases s.len(),
{
    broadcast use vstd::seq_lib::group_to_multiset_ensures;
    if s.len() > 0 {
        lemma_sort_by_type(s.drop_last());
        lemma_insert_ascending(sort_by_type(s.drop_last()), s.last());
        lemma_insert_multiset(sort_by_type(s.drop_last()), s.last());
        assert(s.drop_last().push(s.last()) =~= s);
    }
}

/// No event's index type comes before that of an event ahead of it.
pub open spec fn events_ascending_by_type(s: Seq<IndexEventView>) -> bool {
    forall|i: int, j: int| 0 <= i < j < s.len() ==> !text_lt(#[trigger] s[j].index_type, #[trigger] s[i].index_type)
}

proof fn lemma_types_ordered(r: Receipt, ts: Seq<(Seq<char>, Seq<char>)>)
    requires
        ascending_by_type(ts),
    ensures
        events_ascending_by_type(events_of_types(r, ts)),
        forall|i: int| 0 <= i < events_of_types(r, ts).len() ==> exists|k: int|
            0 <= k < ts.len() && (#[trigger] events_of_types(r, ts)[i]).index_type == ts[k].0,
    decreases ts.len(),
{
    if ts.len() > 0 {
        let pre = ts.drop_last();
        assert(ascending_by_type(pre)) by {
            assert forall|i: int, j: int| 0 <= i < j < pre.len() implies !text_lt(#[trigger] pre[j].0, #[trigger] pre[i].0) by {
                assert(pre[i] == ts[i] && pre[j] == ts[j]);
            }
        }
        lemma_types_ordered(r, pre);
        let a = events_of_types(r, pre);
        let b = events_of_type(r, ts.last());
        let e = a + b;
        assert(e == events_of_types(r, ts));
        assert forall|i: int| 0 <= i < b.len() implies (#[trigger] b[i]).index_type == ts.last().0 by {}
        assert forall|i: int| 0 <= i < e.len() implies exists|k: int|
            0 <= k < ts.len() && (#[trigger] e[i]).index_type == ts[k].0 by {
            if i < a.len() {
                assert(e[i] == a[i]);
                let k = choose|k: int| 0 <= k < pre.len() && a[i].index_type == pre[k].0;
                assert(ts[k] == pre[k]);
            } else {
                assert(e[i] == b[i - a.len()]);
                assert(e[i].index_type == ts[ts.len() - 1].0);
            }
        }
        assert forall|i: int, j: int| 0 <= i < j < e.len() implies !text_lt(#[trigger] e[j].index_type, #[trigger] e[i].index_type) by {
            if j < a.len() {
                assert(e[i] == a[i] && e[j] == a[j]);
            } else if i >= a.len() {
                assert(e[i] == b[i - a.len()] && e[j] == b[j - a.len()]);
                lemma_text_lt_irreflexive(ts.last().0);
            } else {
                assert(e[i] == a[i] && e[j] == b[j - a.len()]);
                let k = choose|k: int| 0 <= k < pre.len() && a[i].index_type == pre[k].0;
                assert(ts[k] == pre[k]);
                assert(k < ts.len() - 1);
            }
        }
    }
}

/// The events of one account come ordered by index type: no event's index
/// type comes before that of an event ahead of it. Within one index type,
/// the events follow the entries of its text in order (`events_of_type`).
pub proof fn lemma_account_events_ordered(r: Receipt, ix: Seq<(String, Json)>)
    ensures
        events_ascending_by_type(events_of_account(r, ix)),
{
    let ts = sort_by_type(crate::payload::index_pairs(ix));
    lemma_sort_by_type(crate::payload::index_pairs(ix));
    lemma_types_ordered(r, ts);
}

/// The number of entries over a sequence of `(index type, raw text)` pairs.
pub open spec fn entry_count(ts: Seq<(Seq<char>, Seq<char>)>) -> nat
    decreases ts.len(),
{
    if ts.len() == 0 {
        0
    } else {
        entry_count(ts.drop_last()) + crate::entry::entries_of_text(ts.last().1).len()
    }
}

/// The number of entries that the caller wrote over a payload's accounts.
pub open spec fn accounts_entry_count(r: Receipt, accts: Seq<(String, Json)>) -> nat
    decreases accts.len(),
{
    if accts.len() == 0 {
        0
    } else {
        accounts_entry_count(r, accts.drop_last()) + if accts.last().0@ == r.predecessor_id@ {
            entry_count(crate::payload::index_pairs(account_index(accts.last().1).unwrap()))
        } else {
            0
        }
    }
}

/// The number of entries of one action: none unless it is a `set` call
/// whose arguments have the expected shape.
pub open spec fn action_entry_count(r: Receipt, a: Action) -> nat {
    match a {
        Action::FunctionCall { method_name, args } => if method_name@ == set_name() {
            match crate::json::json_of_bytes(args@) {
                Some(j) => match crate::payload::payload_accounts(j) {
                    Some(accts) => accounts_entry_count(r, accts),
                    None => 0,
                },
                None => 0,
            }
        } else {
            0
        },
        Action::Other => 0,
    }
}

/// The number of entries over a receipt's actions.
pub open spec fn actions_entry_count(r: Receipt, acts: Seq<Action>) -> nat
    decreases acts.len(),
{
    if acts.len() == 0 {
        0
    } else {
        actions_entry_count(r, acts.drop_last()) + action_entry_count(r, acts.last())
    }
}

proof fn lemma_entry_count_prepend(a: (Seq<char>, Seq<char>), s: Seq<(Seq<char>, Seq<char>)>)
    ensures
        entry_count(seq![a] + s) == crate::entry::entries_of_text(a.1).len() + entry_count(s),
    decreases s.len(),
{
    if s.len() == 0 {
        assert((seq![a] + s).drop_last() =~= Seq::<(Seq<char>, Seq<char>)>::empty());
        assert((seq![a] + s).last() == a);
        assert(entry_count(Seq::<(Seq<char>, Seq<char>)>::empty()) == 0);
    } else {
        lemma_entry_count_prepend(a, s.drop_last());
        assert((seq![a] + s).drop_last() =~= seq![a] + s.drop_last());
        assert((seq![a] + s).last() == s.last());
    }
}

proof fn lemma_entry_count_insert(s: Seq<(Seq<char>, Seq<char>)>, x: (Seq<char>, Seq<char>))
    ensures
        entry_count(insert_by_type(s, x)) == entry_count(s) + crate::entry::entries_of_text(x.1).len(),
    decreases s.len(),
{
    if s.len() == 0 {
        lemma_entry_count_prepend(x, s);
    } else {
        assert(seq![s[0]] + s.drop_first() =~= s);
        lemma_entry_count_prepend(s[0], s.drop_first());
        if text_lt(x.0, s[0].0) {
            lemma_entry_count_prepend(x, s);
        } else {
            lemma_entry_count_insert(s.drop_first(), x);
            lemma_entry_count_prepend(s[0], insert_by_type(s.drop_first(), x));
        }
    }
}

proof fn lemma_entry_count_sorted(s: Seq<(Seq<char>, Seq<char>)>)
    ensures
        entry_count(sort_by_type(s)) == entry_count(s),
    decreases s.len(),
{
    if s.len() > 0 {
        lemma_entry_count_sorted(s.drop_last());
        lemma_entry_count_insert(sort_by_type(s.drop_last()), s.last());
    }
}

proof fn lemma_types_count(r: Receipt, ts: Seq<(Seq<char>, Seq<char>)>)
    ensures
        events_of_types(r, ts).len() == entry_count(ts),
    decreases ts.len(),
{
    if ts.len() > 0 {
        lemma_types_count(r, ts.drop_last());
    }
}

proof fn lemma_accounts_count(r: Receipt, accts: Seq<(String, Json)>)
    ensures
        events_of_accounts(r, accts).len() == accounts_entry_count(r, accts),
    decreases accts.len(),
{
    if accts.len() > 0 {
        lemma_accounts_count(r, accts.drop_last());
        if accts.last().0@ == r.predecessor_id@ {
            let pairs = crate::payload::index_pairs(account_index(accts.last().1).unwrap());
            lemma_types_count(r, sort_by_type(pairs));
            lemma_entry_count_sorted(pairs);
        }
    }
}

proof fn lemma_actions_count(r: Receipt, acts: Seq<Action>)
    ensures
        events_of_actions(r, acts).len() == actions_entry_count(r, acts),
    decreases acts.len(),
{
    if acts.len() > 0 {
        lemma_actions_count(r, acts.drop_last());
        match acts.last() {
            Action::FunctionCall { method_name, args } => {
                if let Some(j) = crate::json::json_of_bytes(args@) {
                    if let Some(accts) = crate::payload::payload_accounts(j) {
                        lemma_accounts_count(r, accts);
                    }
                }
            },
            Action::Other => {},
        }
    }
}

/// An eligible receipt yields, summed over its `set` actions, over the
/// accounts equal to the caller and over their index types, one event per
/// entry of each index type's text (one for a single entry, the list's
/// length for a list); an ineligible one yields none.
pub proof fn lemma_event_count(r: Receipt, contract_id: Seq<char>)
    ensures
        events_of_receipt(r, contract_id).len() == if crate::model::receipt_eligible(r, contract_id) {
            actions_entry_count(r, r.actions@)
        } else {
            0
        },
{
    if crate::model::receipt_eligible(r, contract_id) {
        lemma_actions_count(r, r.actions@);
    }
}

/// A single entry counts one; a list of entries counts its length.
pub proof fn lemma_entries_count(j: Json)
    ensures
        crate::entry::entry_of(j) is Some ==> (crate::entry::entries_of(j) matches Some(es) && es.len() == 1),
        crate::entry::entry_of(j) is None && j is Array && crate::entry::entries_of(j) is Some
            ==> crate::entry::entries_of(j).unwrap().len() == j->Array_0@.len(),
{
}

/// Each action is decoded on its own: the events of a sequence of actions
/// are the events of the first part followed by those of the second, so a
/// receipt's events are those of its actions one after another, and an
/// action that yields nothing leaves the others' events as they are.
pub proof fn lemma_actions_independent(r: Receipt, a1: Seq<Action>, a2: Seq<Action>)
    ensures
        events_of_actions(r, a1 + a2) == events_of_actions(r, a1) + events_of_actions(r, a2),
    decreases a2.len(),
{
    if a2.len() == 0 {
        assert(a1 + a2 =~= a1);
        assert(events_of_actions(r, a1) + seq![] =~= events_of_actions(r, a1));
    } else {
        lemma_actions_independent(r, a1, a2.drop_last());
        assert((a1 + a2).drop_last() =~= a1 + a2.drop_last());
        assert((a1 + a2).last() == a2.last());
        assert(events_of_actions(r, a1) + events_of_actions(r, a2.drop_last()) + events_of_action(r, a2.last())
            =~= events_of_actions(r, a1) + (events_of_actions(r, a2.drop_last()) + events_of_action(r, a2.last())));
    }
}

/// A receipt of one action yields that action's events.
pub proof fn lemma_single_action(r: Receipt, a: Action)
    ensures
        events_of_actions(r, seq![a]) == events_of_action(r, a),
{
    assert(seq![a].drop_last() =~= Seq::<Action>::empty());
    assert(seq![a].last() == a);
    assert(events_of_actions(r, Seq::<Action>::empty()) == Seq::<IndexEventView>::empty());
    assert(Seq::<IndexEventView>::empty() + events_of_action(r, a) =~= events_of_action(r, a));
}

proof fn lemma_no_caller_no_events(r: Receipt, accts: Seq<(String, Json)>)
    requires
        forall|i: int| 0 <= i < accts.len() ==> (#[trigger] accts[i]).0@ != r.predecessor_id@,
    ensures
        events_of_accounts(r, accts) == Seq::<IndexEventView>::empty(),
    decreases accts.len(),
{
    if accts.len() > 0 {
        lemma_no_caller_no_events(r, accts.drop_last());
        assert(accts.last() == accts[accts.len() - 1]);
        assert(Seq::<IndexEventView>::empty() + Seq::<IndexEventView>::empty() =~= Seq::<IndexEventView>::empty());
    }
}

proof fn lemma_one_caller(r: Receipt, accts: Seq<(String, Json)>)
    requires
        crate::json::names_unique(accts),
    ensures
        events_of_accounts(r, accts) == Seq::<IndexEventView>::empty() || exists|i: int|
            0 <= i < accts.len() && (#[trigger] accts[i]).0@ == r.predecessor_id@ && events_of_accounts(r, accts)
                == events_of_account(r, account_index(accts[i].1).unwrap()),
    decreases accts.len(),
{
    if accts.len() > 0 {
        let pre = accts.drop_last();
        let n = accts.len() - 1;
        assert(crate::json::names_unique(pre)) by {
            assert forall|i: int, j: int| 0 <= i < j < pre.len() implies (#[trigger] pre[i]).0@ != (#[trigger] pre[j]).0@ by {
                assert(pre[i] == accts[i] && pre[j] == accts[j]);
            }
        }
        if accts.last().0@ == r.predecessor_id@ {
            assert forall|i: int| 0 <= i < pre.len() implies (#[trigger] pre[i]).0@ != r.predecessor_id@ by {
                assert(pre[i] == accts[i]);
                assert(accts[i].0@ != accts[n].0@);
            }
            lemma_no_caller_no_events(r, pre);
            let last = events_of_account(r, account_index(accts.last().1).unwrap());
            assert(Seq::<IndexEventView>::empty() + last =~= last);
            assert(accts[n] == accts.last());
        } else {
            lemma_one_caller(r, pre);
            let e = events_of_accounts(r, pre);
            assert(e + Seq::<IndexEventView>::empty() =~= e);
            if e != Seq::<IndexEventView>::empty() {
                let i = choose|i: int| 0 <= i < pre.len() && (#[trigger] pre[i]).0@ == r.predecessor_id@ && e
                    == events_of_account(r, account_index(pre[i].1).unwrap());
                assert(pre[i] == accts[i]);
            }
        }
    }
}

/// The events of one decoded `set` payload come ordered by index type. The
/// parser hands out objects whose members have distinct names, so at most
/// one account of the payload is the caller.
pub proof fn lemma_payload_events_ordered(r: Receipt, j: Json)
    requires
        crate::json::objects_unique(j, 3),
    ensures
        events_ascending_by_type(events_of_payload(r, j)),
{
    if let Some(accts) = crate::payload::payload_accounts(j) {
        if let Json::Object(f) = j {
            let k = crate::json::field_index(f@, crate::payload::data_name());
            crate::json::lemma_field_index_range(f@, crate::payload::data_name());
            assert(crate::json::objects_unique(f@[k].1, 2));
            assert(crate::json::names_unique(accts));
        }
        lemma_one_caller(r, accts);
        let e = events_of_accounts(r, accts);
        if e != Seq::<IndexEventView>::empty() {
            let i = choose|i: int| 0 <= i < accts.len() && (#[trigger] accts[i]).0@ == r.predecessor_id@ && e
                == events_of_account(r, account_index(accts[i].1).unwrap());
            lemma_account_events_ordered(r, account_index(accts[i].1).unwrap());
        }
    }
}

/// An index type whose text yields at least one entry.
pub open spec fn has_entries(t: (Seq<char>, Seq<char>)) -> bool {
    crate::entry::entries_of_text(t.1).len() > 0
}

proof fn lemma_text_lt_total(a: Seq<char>, b: Seq<char>)
    ensures
        !text_lt(a, b) && !text_lt(b, a) ==> a == b,
    decreases a.len(),
{
    if a.len() > 0 && b.len() > 0 {
        lemma_text_lt_total(a.drop_first(), b.drop_first());
        if !text_lt(a, b) && !text_lt(b, a) {
            vstd::utf8::char_u32_cast(a[0], a[0] as u32);
            vstd::utf8::char_u32_cast(b[0], b[0] as u32);
            assert(a[0] == b[0]);
            assert(a.drop_first() == b.drop_first());
            assert(a =~= seq![a[0]] + a.drop_first());
            assert(b =~= seq![b[0]] + b.drop_first());
        }
    } else if a.len() == 0 && b.len() == 0 {
        assert(a =~= b);
    }
}

proof fn lemma_types_skip_empty(r: Receipt, ts: Seq<(Seq<char>, Seq<char>)>)
    ensures
        events_of_types(r, ts) == events_of_types(r, ts.filter(|t: (Seq<char>, Seq<char>)| has_entries(t))),
    decreases ts.len(),
{
    reveal(Seq::filter);
    let p = |t: (Seq<char>, Seq<char>)| has_entries(t);
    if ts.len() > 0 {
        lemma_types_skip_empty(r, ts.drop_last());
        let f = ts.drop_last().filter(p);
        if p(ts.last()) {
            assert(f.push(ts.last()).drop_last() =~= f);
            assert(f.push(ts.last()).last() == ts.last());
        } else {
            assert(events_of_type(r, ts.last()) =~= Seq::<IndexEventView>::empty());
            assert(events_of_types(r, ts.drop_last()) + Seq::<IndexEventView>::empty() =~= events_of_types(r, ts.drop_last()));
        }
    }
}

proof fn lemma_filter_insert(s: Seq<(Seq<char>, Seq<char>)>, x: (Seq<char>, Seq<char>))
    requires
        ascending_by_type(s),
    ensures
        insert_by_type(s, x).filter(|t: (Seq<char>, Seq<char>)| has_entries(t)) == if has_entries(x) {
            insert_by_type(s.filter(|t: (Seq<char>, Seq<char>)| has_entries(t)), x)
        } else {
            s.filter(|t: (Seq<char>, Seq<char>)| has_entries(t))
        },
    decreases s.len(),
{
    let p = |t: (Seq<char>, Seq<char>)| has_entries(t);
    broadcast use vstd::seq_lib::group_filter_ensures;
    reveal(Seq::filter);
    if s.len() == 0 {
        Seq::<(Seq<char>, Seq<char>)>::empty().lemma_filter_prepend(x, p);
        assert(Seq::<(Seq<char>, Seq<char>)>::empty().filter(p) =~= Seq::<(Seq<char>, Seq<char>)>::empty());
        assert(seq![x] + Seq::<(Seq<char>, Seq<char>)>::empty() =~= seq![x]);
        assert(Seq::<(Seq<char>, Seq<char>)>::empty() + Seq::<(Seq<char>, Seq<char>)>::empty() =~= Seq::<(Seq<char>, Seq<char>)>::empty());
    } else {
        let rest = s.drop_first();
        assert(seq![s[0]] + rest =~= s);
        rest.lemma_filter_prepend(s[0], p);
        assert(ascending_by_type(rest)) by {
            assert forall|i: int, j: int| 0 <= i < j < rest.len() implies !text_lt(#[trigger] rest[j].0, #[trigger] rest[i].0) by {
                assert(rest[i] == s[i + 1] && rest[j] == s[j + 1]);
            }
        }
        let sf = s.filter(p);
        if text_lt(x.0, s[0].0) {
            s.lemma_filter_prepend(x, p);
            if has_entries(x) {
                assert forall|j: int| 0 <= j < sf.len() implies text_lt(x.0, #[trigger] sf[j].0) by {
                    s.lemma_filter_contains_rev(p, sf[j]);
                    assert(s.contains(sf[j]));
                    let i = choose|i: int| 0 <= i < s.len() && s[i] == sf[j];
                    if i > 0 {
                        assert(!text_lt(s[i].0, s[0].0));
                    }
                    lemma_text_lt_total(s[i].0, s[0].0);
                    lemma_text_lt_transitive(x.0, s[0].0, s[i].0);
                }
                crate::order::lemma_insert_at(sf, x, 0);
                assert(seq![x] + sf =~= sf.insert(0, x));
            } else {
                assert(Seq::<(Seq<char>, Seq<char>)>::empty() + sf =~= sf);
            }
        } else {
            lemma_filter_insert(rest, x);
            let ins = insert_by_type(rest, x);
            ins.lemma_filter_prepend(s[0], p);
            let rf = rest.filter(p);
            if has_entries(s[0]) {
                assert(sf == seq![s[0]] + rf);
                assert((seq![s[0]] + rf)[0] == s[0]);
                assert((seq![s[0]] + rf).drop_first() =~= rf);
            } else {
                assert(Seq::<(Seq<char>, Seq<char>)>::empty() + rf =~= rf);
                assert(Seq::<(Seq<char>, Seq<char>)>::empty() + ins.filter(p) =~= ins.filter(p));
            }
        }
    }
}

proof fn lemma_filter_sort(s: Seq<(Seq<char>, Seq<char>)>)
    ensures
        sort_by_type(s).filter(|t: (Seq<char>, Seq<char>)| has_entries(t)) == sort_by_type(
            s.filter(|t: (Seq<char>, Seq<char>)| has_entries(t)),
        ),
    decreases s.len(),
{
    let p = |t: (Seq<char>, Seq<char>)| has_entries(t);
    reveal(Seq::filter);
    if s.len() > 0 {
        lemma_filter_sort(s.drop_last());
        lemma_sort_by_type(s.drop_last());
        lemma_filter_insert(sort_by_type(s.drop_last()), s.last());
        let f = s.drop_last().filter(p);
        if p(s.last()) {
            assert(f.push(s.last()).drop_last() =~= f);
            assert(f.push(s.last()).last() == s.last());
        }
    }
}

/// An index type whose text is malformed (it yields no entry) changes
/// nothing: the account's events are those of its other index types.
pub proof fn lemma_malformed_type_ignored(r: Receipt, ix: Seq<(String, Json)>, k: int)
    requires
        0 <= k < ix.len(),
        crate::entry::entries_of_text(crate::payload::text_of(ix[k].1)).len() == 0,
    ensures
        events_of_account(r, ix) == events_of_account(r, ix.remove(k)),
{
    let p = |t: (Seq<char>, Seq<char>)| has_entries(t);
    broadcast use vstd::seq_lib::group_filter_ensures;
    let s = crate::payload::index_pairs(ix);
    let s2 = crate::payload::index_pairs(ix.remove(k));
    assert(s2 =~= s.remove(k));
    assert(s =~= s.take(k) + seq![s[k]] + s.skip(k + 1));
    assert(s2 =~= s.take(k) + s.skip(k + 1));
    Seq::filter_distributes_over_add(s.take(k) + seq![s[k]], s.skip(k + 1), p);
    Seq::filter_distributes_over_add(s.take(k), seq![s[k]], p);
    Seq::filter_distributes_over_add(s.take(k), s.skip(k + 1), p);
    reveal_with_fuel(Seq::filter, 2);
    assert(seq![s[k]].drop_last() =~= Seq::<(Seq<char>, Seq<char>)>::empty());
    assert(seq![s[k]].filter(p) =~= Seq::<(Seq<char>, Seq<char>)>::empty());
    assert(s.take(k).filter(p) + Seq::<(Seq<char>, Seq<char>)>::empty() =~= s.take(k).filter(p));
    assert(s.filter(p) == s2.filter(p));
    lemma_types_skip_empty(r, sort_by_type(s));
    lemma_types_skip_empty(r, sort_by_type(s2));
    lemma_filter_sort(s);
    lemma_filter_sort(s2);
}

/// No two pairs share an index type.
pub open spec fn types_unique(s: Seq<(Seq<char>, Seq<char>)>) -> bool {
    forall|i: int, j: int| 0 <= i < j < s.len() ==> (#[trigger] s[i]).0 != (#[trigger] s[j]).0
}

proof fn lemma_insert_unique(s: Seq<(Seq<char>, Seq<char>)>, x: (Seq<char>, Seq<char>))
    requires
        types_unique(s),
        forall|i: int| 0 <= i < s.len() ==> (#[trigger] s[i]).0 != x.0,
    ensures
        types_unique(insert_by_type(s, x)),
    decreases s.len(),
{
    broadcast use vstd::seq_lib::group_to_multiset_ensures;
    if s.len() > 0 && !text_lt(x.0, s[0].0) {
        let rest = s.drop_first();
        assert forall|i: int, j: int| 0 <= i < j < rest.len() implies (#[trigger] rest[i]).0 != (#[trigger] rest[j]).0 by {
            assert(rest[i] == s[i + 1] && rest[j] == s[j + 1]);
        }
        assert forall|i: int| 0 <= i < rest.len() implies (#[trigger] rest[i]).0 != x.0 by {
            assert(rest[i] == s[i + 1]);
        }
        lemma_insert_unique(rest, x);
        lemma_insert_multiset(rest, x);
        let ins = insert_by_type(rest, x);
        let t = seq![s[0]] + ins;
        assert forall|i: int, j: int| 0 <= i < j < t.len() implies (#[trigger] t[i]).0 != (#[trigger] t[j]).0 by {
            if i == 0 {
                let e = ins[j - 1];
                assert(t[j] == e);
                assert(ins.to_multiset().count(e) > 0);
                if e != x {
                    assert(rest.to_multiset().count(e) > 0);
                    assert(rest.contains(e));
                    let k = choose|k: int| 0 <= k < rest.len() && rest[k] == e;
                    assert(s[k + 1] == e);
                }
            } else {
                assert(t[i] == ins[i - 1] && t[j] == ins[j - 1]);
            }
        }
    } else if s.len() > 0 {
        let t = seq![x] + s;
        assert forall|i: int, j: int| 0 <= i < j < t.len() implies (#[trigger] t[i]).0 != (#[trigger] t[j]).0 by {
            if i == 0 {
                assert(t[j] == s[j - 1]);
            } else {
                assert(t[i] == s[i - 1] && t[j] == s[j - 1]);
            }
        }
    }
}

proof fn lemma_sort_unique(s: Seq<(Seq<char>, Seq<char>)>)
    requires
        types_unique(s),
    ensures
        types_unique(sort_by_type(s)),
    decreases s.len(),
{
    broadcast use vstd::seq_lib::group_to_multiset_ensures;
    if s.len() > 0 {
        let pre = s.drop_last();
        assert forall|i: int, j: int| 0 <= i < j < pre.len() implies (#[trigger] pre[i]).0 != (#[trigger] pre[j]).0 by {
            assert(pre[i] == s[i] && pre[j] == s[j]);
        }
        lemma_sort_unique(pre);
        lemma_sort_by_type(pre);
        let sp = sort_by_type(pre);
        assert forall|i: int| 0 <= i < sp.len() implies (#[trigger] sp[i]).0 != s.last().0 by {
            assert(sp.to_multiset().count(sp[i]) > 0);
            assert(pre.contains(sp[i]));
            let k = choose|k: int| 0 <= k < pre.len() && pre[k] == sp[i];
            assert(s[k] == sp[i]);
        }
        lemma_insert_unique(sp, s.last());
    }
}

proof fn lemma_filter_type_block(r: Receipt, x: (Seq<char>, Seq<char>), t: Seq<char>)
    ensures
        events_of_type(r, x).filter(|e: IndexEventView| e.index_type == t) == if x.0 == t {
            events_of_type(r, x)
        } else {
            Seq::<IndexEventView>::empty()
        },
{
    let p = |e: IndexEventView| e.index_type == t;
    let b = events_of_type(r, x);
    assert forall|i: int| 0 <= i < b.len() implies (#[trigger] b[i]).index_type == x.0 by {}
    lemma_filter_all_or_none(b, p, x.0 == t);
}

proof fn lemma_filter_all_or_none(b: Seq<IndexEventView>, p: spec_fn(IndexEventView) -> bool, all: bool)
    requires
        forall|i: int| 0 <= i < b.len() ==> p(#[trigger] b[i]) == all,
    ensures
        b.filter(p) == if all { b } else { Seq::<IndexEventView>::empty() },
    decreases b.len(),
{
    reveal(Seq::filter);
    if b.len() > 0 {
        let pre = b.drop_last();
        assert forall|i: int| 0 <= i < pre.len() implies p(#[trigger] pre[i]) == all by {
            assert(pre[i] == b[i]);
        }
        lemma_filter_all_or_none(pre, p, all);
        assert(p(b[b.len() - 1]) == all);
        if all {
            assert(pre.push(b.last()) =~= b);
        }
    }
}

proof fn lemma_types_filter(r: Receipt, ts: Seq<(Seq<char>, Seq<char>)>, t: Seq<char>)
    requires
        types_unique(ts),
    ensures
        forall|m: int| 0 <= m < ts.len() && (#[trigger] ts[m]).0 == t ==> events_of_types(r, ts).filter(
            |e: IndexEventView| e.index_type == t,
        ) == events_of_type(r, ts[m]),
        (forall|m: int| 0 <= m < ts.len() ==> (#[trigger] ts[m]).0 != t) ==> events_of_types(r, ts).filter(
            |e: IndexEventView| e.index_type == t,
        ) == Seq::<IndexEventView>::empty(),
    decreases ts.len(),
{
    let p = |e: IndexEventView| e.index_type == t;
    reveal(Seq::filter);
    if ts.len() > 0 {
        let pre = ts.drop_last();
        assert forall|i: int, j: int| 0 <= i < j < pre.len() implies (#[trigger] pre[i]).0 != (#[trigger] pre[j]).0 by {
            assert(pre[i] == ts[i] && pre[j] == ts[j]);
        }
        lemma_types_filter(r, pre, t);
        Seq::filter_distributes_over_add(events_of_types(r, pre), events_of_type(r, ts.last()), p);
        lemma_filter_type_block(r, ts.last(), t);
        let n = ts.len() - 1;
        if ts.last().0 == t {
            assert forall|m: int| 0 <= m < pre.len() implies (#[trigger] pre[m]).0 != t by {
                assert(pre[m] == ts[m]);
                assert(ts[m].0 != ts[n].0);
            }
            assert(Seq::<IndexEventView>::empty() + events_of_type(r, ts.last()) =~= events_of_type(r, ts.last()));
            assert forall|m: int| 0 <= m < ts.len() && (#[trigger] ts[m]).0 == t implies m == n by {
                if m < n {
                    assert(ts[m].0 != ts[n].0);
                }
            }
        } else {
            let f = events_of_types(r, pre).filter(p);
            assert(f + Seq::<IndexEventView>::empty() =~= f);
            assert forall|m: int| 0 <= m < ts.len() && (#[trigger] ts[m]).0 == t implies f == events_of_type(r, ts[m]) by {
                assert(m < n);
                assert(pre[m] == ts[m]);
            }
            if forall|m: int| 0 <= m < ts.len() ==> (#[trigger] ts[m]).0 != t {
                assert forall|m: int| 0 <= m < pre.len() implies (#[trigger] pre[m]).0 != t by {
                    assert(pre[m] == ts[m]);
                }
            }
        }
    }
}

/// Within one account whose index members have distinct names (as parsed
/// objects do), the events of index type `t` are one per entry of `t`'s
/// text, in entry order, and nothing else.
pub proof fn lemma_type_events_in_entry_order(r: Receipt, ix: Seq<(String, Json)>, k: int)
    requires
        0 <= k < ix.len(),
        crate::json::names_unique(ix),
    ensures
        events_of_account(r, ix).filter(|e: IndexEventView| e.index_type == ix[k].0@) == events_of_type(
            r,
            (ix[k].0@, crate::payload::text_of(ix[k].1)),
        ),
{
    broadcast use vstd::seq_lib::group_to_multiset_ensures;
    let s = crate::payload::index_pairs(ix);
    assert forall|i: int, j: int| 0 <= i < j < s.len() implies (#[trigger] s[i]).0 != (#[trigger] s[j]).0 by {
        assert(ix[i].0@ != ix[j].0@);
    }
    lemma_sort_unique(s);
    lemma_sort_by_type(s);
    let ts = sort_by_type(s);
    assert(s.to_multiset().count(s[k]) > 0);
    assert(ts.contains(s[k]));
    let m = choose|m: int| 0 <= m < ts.len() && ts[m] == s[k];
    lemma_types_filter(r, ts, ix[k].0@);
}

} // verus!
