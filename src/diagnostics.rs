//! What the decoding skipped and why: data written under another account,
//! and index-type texts of neither entry shape.
use vstd::prelude::*;
use crate::entry::{entries_of, index_entries};
use crate::events::set_name;
use crate::json::{compare_text, json_of_bytes, json_of_text, parse_json_bytes, parse_json_text, Json};
use crate::model::{is_eligible, is_owned_by_caller, receipt_eligible, Action, Receipt};
use crate::order::{pairs_view, sort_by_type, sort_index_types};
use crate::payload::{account_index, account_index_members, decode_payload, index_pairs, index_pairs_of, payload_accounts};

verus! {

/// A skipped part of a payload.
pub enum Warning {
    /// The caller tried to write under another account.
    ForeignAccount { account: String },
    /// An index type's text has neither entry shape.
    MalformedEntry { index_type: String, raw: String },
}

pub enum WarningView {
    ForeignAccount { account: Seq<char> },
    MalformedEntry { index_type: Seq<char>, raw: Seq<char> },
}

impl View for Warning {
    type V = WarningView;

    open spec fn view(&self) -> WarningView {
        match self {
            Warning::ForeignAccount { account } => WarningView::ForeignAccount { account: account@ },
            Warning::MalformedEntry { index_type, raw } => WarningView::MalformedEntry { index_type: index_type@, raw: raw@ },
        }
    }
}

pub open spec fn warnings_view(ws: Seq<Warning>) -> Seq<WarningView> {
    ws.map_values(|w: Warning| w@)
}

/// A text that parses as neither a single entry nor a list of entries.
pub open spec fn entry_text_malformed(raw: Seq<char>) -> bool {
    match json_of_text(raw) {
        Some(j) => entries_of(j) is None,
        None => true,
    }
}

pub open spec fn warnings_of_types(ts: Seq<(Seq<char>, Seq<char>)>) -> Seq<WarningView>
    decreases ts.len(),
{
    if ts.len() == 0 {
        seq![]
    } else {
        warnings_of_types(ts.drop_last()) + if entry_text_malformed(ts.last().1) {
            seq![WarningView::MalformedEntry { index_type: ts.last().0, raw: ts.last().1 }]
        } else {
            seq![]
        }
    }
}

pub open spec fn warnings_of_accounts(r: Receipt, accts: Seq<(String, Json)>) -> Seq<WarningView>
    decreases accts.len(),
{
    if accts.len() == 0 {
        seq![]
    } else {
        warnings_of_accounts(r, accts.drop_last()) + if accts.last().0@ == r.predecessor_id@ {
            warnings_of_types(sort_by_type(index_pairs(account_index(accts.last().1).unwrap())))
        } else {
            seq![WarningView::ForeignAccount { account: accts.last().0@ }]
        }
    }
}

pub open spec fn warnings_of_action(r: Receipt, a: Action) -> Seq<WarningView> {
    match a {
        Action::FunctionCall { method_name, args } => if method_name@ == set_name() {
            match json_of_bytes(args@) {
                Some(j) => match payload_accounts(j) {
                    Some(accts) => warnings_of_accounts(r, accts),
                    None => seq![],
                },
                None => seq![],
            }
        } else {
            seq![]
        },
        Action::Other => seq![],
    }
}

pub open spec fn warnings_of_actions(r: Receipt, acts: Seq<Action>) -> Seq<WarningView>
    decreases acts.len(),
{
    if acts.len() == 0 {
        seq![]
    } else {
        warnings_of_actions(r, acts.drop_last()) + warnings_of_action(r, acts.last())
    }
}

/// The warnings of a receipt, in the order its events are emitted; none
/// unless it is eligible for `contract_id`.
pub open spec fn warnings_of_receipt(r: Receipt, contract_id: Seq<char>) -> Seq<WarningView> {
    if receipt_eligible(r, contract_id) {
        warnings_of_actions(r, r.actions@)
    } else {
        seq![]
    }
}

/// Tells whether an index type's text has neither entry shape.
pub fn is_malformed_entry_text(raw: &str) -> (r: bool)
    ensures
        r == entry_text_malformed(raw@),
{
    match parse_json_text(raw) {
        Some(j) => index_entries(j).is_none(),
        None => true,
    }
}

fn account_warnings(ix: &Vec<(String, Json)>) -> (r: Vec<Warning>)
    requires
        forall|i: int| 0 <= i < ix@.len() ==> (#[trigger] ix@[i]).1 is Str,
    ensures
        warnings_view(r@) == warnings_of_types(sort_by_type(index_pairs(ix@))),
{
    let pairs = index_pairs_of(ix);
    let sorted = sort_index_types(&pairs);
    let ghost ts = pairs_view(sorted@);
    let mut out: Vec<Warning> = Vec::new();
    let mut i: usize = 0;
    assert(ts.take(0) =~= seq![]);
    assert(warnings_view(out@) =~= seq![]);
    while i < sorted.len()
        invariant
            i <= sorted@.len(),
            ts == pairs_view(sorted@),
            warnings_view(out@) == warnings_of_types(ts.take(i as int)),
        decreases sorted@.len() - i,
    {
        let ghost before = out@;
        assert(ts.take(i + 1).drop_last() =~= ts.take(i as int));
        assert(ts.take(i + 1).last() == ts[i as int]);
        if is_malformed_entry_text(sorted[i].1.as_str()) {
            let w = Warning::MalformedEntry { index_type: sorted[i].0.clone(), raw: sorted[i].1.clone() };
            out.push(w);
            assert(warnings_view(out@) =~= warnings_view(before) + seq![w@]);
        } else {
            assert(warnings_view(out@) =~= warnings_view(before) + seq![]);
        }
        i = i + 1;
    }
    assert(ts.take(sorted@.len() as int) =~= ts);
    out
}

/// The warnings of a decoded `set` argument object for the caller of `receipt`.
pub fn payload_warnings(receipt: &Receipt, args: &Json) -> (r: Vec<Warning>)
    ensures
        warnings_view(r@) == match payload_accounts(*args) {
            Some(accts) => warnings_of_accounts(*receipt, accts),
            None => seq![],
        },
{
    let mut out: Vec<Warning> = Vec::new();
    assert(warnings_view(out@) =~= seq![]);
    match decode_payload(args) {
        Some(accts) => {
            let mut i: usize = 0;
            assert(accts@.take(0) =~= seq![]);
            while i < accts.len()
                invariant
                    i <= accts@.len(),
                    forall|x: int| 0 <= x < accts@.len() ==> crate::payload::account_id_valid((#[trigger] accts@[x]).0@)
                        && account_index(accts@[x].1) is Some,
                    warnings_view(out@) == warnings_of_accounts(*receipt, accts@.take(i as int)),
                decreases accts@.len() - i,
            {
                let ghost before = out@;
                assert(accts@.take(i + 1).drop_last() =~= accts@.take(i as int));
                if is_owned_by_caller(accts[i].0.as_str(), receipt.predecessor_id.as_str()) {
                    let ix = account_index_members(&accts[i].1).unwrap();
                    let mut ws = account_warnings(ix);
                    out.append(&mut ws);
                    assert(warnings_view(out@) =~= warnings_view(before) + warnings_of_types(
                        sort_by_type(index_pairs(ix@)),
                    ));
                } else {
                    let w = Warning::ForeignAccount { account: accts[i].0.clone() };
                    out.push(w);
                    assert(warnings_view(out@) =~= warnings_view(before) + seq![w@]);
                }
                i = i + 1;
            }
            assert(accts@.take(accts@.len() as int) =~= accts@);
        },
        None => {},
    }
    out
}

fn action_warnings(receipt: &Receipt, action: &Action) -> (r: Vec<Warning>)
    ensures
        warnings_view(r@) == warnings_of_action(*receipt, *action),
{
    proof {
        reveal_strlit("set");
        assert("set"@ =~= set_name());
    }
    let empty: Vec<Warning> = Vec::new();
    assert(warnings_view(empty@) =~= seq![]);
    match action {
        Action::FunctionCall { method_name, args } => {
            if compare_text(method_name.as_str(), "set") != 0 {
                return empty;
            }
            match parse_json_bytes(args.as_slice()) {
                Some(j) => payload_warnings(receipt, &j),
                None => empty,
            }
        },
        Action::Other => empty,
    }
}

/// Why parts of a receipt's payloads gave no event: each write under an
/// account other than the caller, and each of the caller's index types
/// whose text has neither entry shape, in emission order.
pub fn receipt_warnings(receipt: &Receipt, contract_id: &str) -> (r: Vec<Warning>)
    ensures
        warnings_view(r@) == warnings_of_receipt(*receipt, contract_id@),
{
    let mut out: Vec<Warning> = Vec::new();
    assert(warnings_view(out@) =~= seq![]);
    if !is_eligible(receipt, contract_id) {
        return out;
    }
    let ghost acts = receipt.actions@;
    let mut i: usize = 0;
    assert(acts.take(0) =~= seq![]);
    while i < receipt.actions.len()
        invariant
            i <= acts.len(),
            acts == receipt.actions@,
            warnings_view(out@) == warnings_of_actions(*receipt, acts.take(i as int)),
        decreases acts.len() - i,
    {
        let ghost before = out@;
        let mut ws = action_warnings(receipt, &receipt.actions[i]);
        out.append(&mut ws);
        assert(acts.take(i + 1).drop_last() =~= acts.take(i as int));
        assert(warnings_view(out@) =~= warnings_view(before) + warnings_of_action(*receipt, acts[i as int]));
        i = i + 1;
    }
    assert(acts.take(acts.len() as int) =~= acts);
    out
}

} // verus!
