//! Client-side prediction buffer.

use vstd::prelude::*;
use crate::error::NetError;

verus! {

/// Local predicted state.
#[derive(Debug, Clone)]
pub struct PredictedState {
    /// Predicted updates awaiting server confirmation, oldest first.
    pub pending_updates: Vec<Vec<u8>>,
}

impl PredictedState {
    /// Creates an empty prediction buffer.
    pub fn new() -> (s: Self)
        ensures
            s.pending_updates@ == Seq::<Vec<u8>>::empty(),
    {
        PredictedState { pending_updates: Vec::new() }
    }

    /// Appends a local prediction.
    pub fn add_prediction(&mut self, data: Vec<u8>)
        ensures
            final(self).pending_updates@ == old(self).pending_updates@.push(data),
    {
        self.pending_updates.push(data);
    }

    /// Reconciles with server state; reconciliation is not implemented yet,
    /// so this changes nothing.
    pub fn reconcile(&mut self, _server_state: &[u8]) -> (r: Result<(), NetError>)
        ensures
            r is Ok,
            final(self).pending_updates@ == old(self).pending_updates@,
    {
        Ok(())
    }
}

impl Default for PredictedState {
    fn default() -> (s: Self)
        ensures
            s.pending_updates@ == Seq::<Vec<u8>>::empty(),
    {
        PredictedState::new()
    }
}

} // verus!
