//! Receipts as the indexer sees them, and the events it emits.
use vstd::prelude::*;
use crate::json::Json;

verus! {

/// One action of a receipt: a call of a named contract method with its
/// argument bytes, or any other kind of action.
pub enum Action {
    FunctionCall { method_name: String, args: Vec<u8> },
    Other,
}

/// An executed receipt with the facts of its block and transaction.
pub struct Receipt {
    pub receipt_id: [u8; 32],
    pub transaction_id: [u8; 32],
    pub block_height: u64,
    pub block_timestamp_nanosec: u128,
    pub receiver_id: String,
    pub predecessor_id: String,
    /// The strict success check: pending or failed sub-receipts count as failure.
    pub is_successful: bool,
    pub actions: Vec<Action>,
}

/// One index entry that an account published under an index type.
pub struct IndexEvent {
    pub block_height: u64,
    pub block_timestamp_nanosec: u128,
    pub transaction_id: [u8; 32],
    pub receipt_id: [u8; 32],
    pub account_id: String,
    pub index_type: String,
    pub index_key: Json,
    pub index_value: Json,
}

/// An `IndexEvent` with its texts as character sequences.
pub struct IndexEventView {
    pub block_height: u64,
    pub block_timestamp_nanosec: u128,
    pub transaction_id: [u8; 32],
    pub receipt_id: [u8; 32],
    pub account_id: Seq<char>,
    pub index_type: Seq<char>,
    pub index_key: Json,
    pub index_value: Json,
}

impl View for IndexEvent {
    type V = IndexEventView;

    open spec fn view(&self) -> IndexEventView {
        IndexEventView {
            block_height: self.block_height,
            block_timestamp_nanosec: self.block_timestamp_nanosec,
            transaction_id: self.transaction_id,
            receipt_id: self.receipt_id,
            account_id: self.account_id@,
            index_type: self.index_type@,
            index_key: self.index_key,
            index_value: self.index_value,
        }
    }
}

/// The views of a sequence of events.
pub open spec fn events_view(events: Seq<IndexEvent>) -> Seq<IndexEventView> {
    events.map_values(|e: IndexEvent| e@)
}

/// The event for one entry `(key, value)` published under `index_type` in receipt `r`.
pub open spec fn event_of(r: Receipt, index_type: Seq<char>, entry: (Json, Json)) -> IndexEventView {
    IndexEventView {
        block_height: r.block_height,
        block_timestamp_nanosec: r.block_timestamp_nanosec,
        transaction_id: r.transaction_id,
        receipt_id: r.receipt_id,
        account_id: r.predecessor_id@,
        index_type,
        index_key: entry.0,
        index_value: entry.1,
    }
}

/// A receipt is looked at only where it succeeded and was sent to the contract.
pub open spec fn receipt_eligible(r: Receipt, contract_id: Seq<char>) -> bool {
    r.is_successful && r.receiver_id@ == contract_id
}

/// Decides whether a receipt is looked at: it succeeded and went to `contract_id`.
pub fn is_eligible(receipt: &Receipt, contract_id: &str) -> (r: bool)
    ensures
        r == receipt_eligible(*receipt, contract_id@),
{
    receipt.is_successful && crate::json::compare_text(receipt.receiver_id.as_str(), contract_id) == 0
}

/// Only the caller may publish under its own name.
pub open spec fn owned_by_caller(account: Seq<char>, predecessor: Seq<char>) -> bool {
    account == predecessor
}

/// Decides whether data written under `account` may be indexed for a call by `predecessor`.
pub fn is_owned_by_caller(account: &str, predecessor: &str) -> (r: bool)
    ensures
        r == owned_by_caller(account@, predecessor@),
{
    crate::json::compare_text(account, predecessor) == 0
}

} // verus!
