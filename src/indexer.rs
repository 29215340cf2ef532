//! The indexer's two hooks: one call per receipt, one per block end.
use vstd::prelude::*;
use crate::events::{events_of_receipt, receipt_events};
use crate::model::{events_view, IndexEvent, Receipt};
use crate::sink::SocialDBEventHandler;

verus! {

/// The account of the social-graph contract on mainnet.
pub const SOCIALDB_CONTRACT: &'static str = "social.near";

/// Turns receipts of the social-graph contract into index events and hands
/// them to `handler`, in emission order.
pub struct SocialDBIndexer<T: SocialDBEventHandler> {
    pub handler: T,
    pub contract_id: String,
}

impl<T: SocialDBEventHandler> SocialDBIndexer<T> {
    /// An indexer of the mainnet contract.
    pub fn new(handler: T) -> (r: Self)
        ensures
            r.handler == handler,
            r.contract_id@ == SOCIALDB_CONTRACT@,
    {
        SocialDBIndexer { handler, contract_id: SOCIALDB_CONTRACT.to_string() }
    }

    /// An indexer of the contract at `contract_id`.
    pub fn with_contract(handler: T, contract_id: String) -> (r: Self)
        ensures
            r.handler == handler,
            r.contract_id == contract_id,
    {
        SocialDBIndexer { handler, contract_id }
    }

    /// Hands each event of `receipt` (see `receipt_events`) to the handler,
    /// in order, and returns how many it handed over.
    pub fn on_receipt(&mut self, receipt: &Receipt) -> (n: usize)
        ensures
            final(self).contract_id == old(self).contract_id,
            n == events_of_receipt(*receipt, old(self).contract_id@).len(),
            final(self).handler.handled() == old(self).handler.handled() + events_of_receipt(
                *receipt,
                old(self).contract_id@,
            ),
            final(self).handler.flushed() == old(self).handler.flushed(),
    {
        let mut events: Vec<IndexEvent> = receipt_events(receipt, self.contract_id.as_str());
        let ghost all = events_view(events@);
        let n = events.len();
        let mut k: usize = 0;
        assert(old(self).handler.handled() + all.take(0) =~= old(self).handler.handled());
        while events.len() > 0
            invariant
                self.contract_id == old(self).contract_id,
                all == events_of_receipt(*receipt, old(self).contract_id@),
                all.len() == n,
                k <= n,
                events@.len() == n - k,
                events_view(events@) == all.skip(k as int),
                self.handler.handled() == old(self).handler.handled() + all.take(k as int),
                self.handler.flushed() == old(self).handler.flushed(),
            decreases events@.len(),
        {
            let ghost rest = events@;
            let e = events.remove(0);
            proof {
                assert(events_view(rest)[0] == e@);
                assert(all[k as int] == e@);
                assert(events@ =~= rest.subrange(1, rest.len() as int));
                assert forall|i: int| 0 <= i < events@.len() implies #[trigger] events_view(events@)[i] == all.skip(
                    k + 1,
                )[i] by {
                    assert(events_view(rest)[i + 1] == rest[i + 1]@);
                    assert(all.skip(k as int)[i + 1] == all[k + 1 + i]);
                }
                assert(events_view(events@) =~= all.skip(k + 1));
                assert(all.take(k + 1) =~= all.take(k as int).push(e@));
            }
            self.handler.handle_index(e);
            proof {
                assert(old(self).handler.handled() + all.take(k + 1) =~= (old(self).handler.handled() + all.take(
                    k as int,
                )).push(e@));
            }
            k = k + 1;
        }
        assert(all.take(n as int) =~= all);
        n
    }

    /// Signals the handler that the block at `block_height` has ended.
    pub fn process_block_end(&mut self, block_height: u64)
        ensures
            final(self).contract_id == old(self).contract_id,
            final(self).handler.flushed() == old(self).handler.flushed().push(block_height),
            final(self).handler.handled() == old(self).handler.handled(),
    {
        self.handler.flush_events(block_height);
    }
}

} // verus!
