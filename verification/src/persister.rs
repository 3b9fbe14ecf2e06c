//! What is done when a channel monitor is persisted.

use crate::blob::{blob_views, WatchtowerJusticeBlob};
use crate::laws::{
    capture_touches_one_channel, is_consistent, signing_keeps_consistency, steps_keep_consistency,
    stepped, Step,
};
use crate::meaning::{
    holds_commitment, initial_commitment_is_pending, is_last_shown, shown_commitment_is_pending,
    tells,
};
use crate::pending::{CommitmentKey, PendingMap};
use crate::state::{
    admits_requests, are_for_tower, are_genuine, captured, drained, has_tower_sizes, is_signing_outcome,
    shows_genuine, CommitmentSource, PendingCommitmentView, ShownCommitment, StateView,
    WatchtowerState,
};
use crate::text::{hex, hex_string};
use vstd::prelude::*;

verus! {

/// The fee rate for justice transactions, in sat/kw (roughly 50 sat/vB).
pub const DEFAULT_SWEEP_FEE_RATE: u64 = 12500;

/// Takes in what a channel monitor shows each time it is persisted: captures counterparty
/// commitment data and produces ready-to-encrypt justice blobs.
pub struct WatchtowerPersister {
    /// What it holds.
    pub state: WatchtowerState,
}

impl View for WatchtowerPersister {
    type V = StateView;

    open spec fn view(&self) -> StateView {
        self.state@
    }
}

/// The first state: nothing is pending or ready, and no sweep address is set.
pub open spec fn initial_state() -> StateView {
    StateView {
        pending: Map::empty(),
        ready: Seq::empty(),
        sweep_address: None,
        sweep_fee_rate: DEFAULT_SWEEP_FEE_RATE,
    }
}

impl WatchtowerPersister {
    /// Create a new WatchtowerPersister: nothing is pending or ready, and no sweep address is set.
    pub fn new() -> (persister: Self)
        ensures
            persister@ == initial_state(),
            is_consistent(persister@),
    {
        let state = WatchtowerState {
            pending_commitments: PendingMap::new(),
            ready_blobs: Vec::new(),
            sweep_address: None,
            sweep_fee_rate: DEFAULT_SWEEP_FEE_RATE,
        };
        proof {
            assert(state@.pending =~= Map::<CommitmentKey, PendingCommitmentView>::empty());
            assert(state@.ready =~= Seq::empty());
        }
        WatchtowerPersister { state }
    }

    /// Set the sweep address for justice transactions, as an output script.
    /// Must be called before any blobs can be produced. A justice kit holds an address of up to 42
    /// bytes: with a longer one nothing is signed, and the commitments stay pending.
    pub fn set_sweep_address(&mut self, address: Vec<u8>)
        ensures
            final(self)@ == (StateView { sweep_address: Some(address@), ..old(self)@ }),
            final(self)@ == stepped(old(self)@, Step::SetSweepAddress { address: address@ }),
            is_consistent(old(self)@) ==> is_consistent(final(self)@),
    {
        self.state.sweep_address = Some(address);
    }

    /// Drain all ready justice blobs.
    pub fn drain_justice_blobs(&mut self) -> (blobs: Vec<WatchtowerJusticeBlob>)
        ensures
            blob_views(blobs@) == old(self)@.ready,
            final(self)@ == drained(old(self)@),
            final(self)@ == stepped(old(self)@, Step::Drain),
            blobs@ == old(self).state.ready_blobs@,
            is_consistent(old(self)@) ==> {
                &&& is_consistent(final(self)@)
                &&& forall|i: int| 0 <= i < blobs@.len() ==> has_tower_sizes(#[trigger] blobs@[i]@)
            },
    {
        let blobs: Vec<WatchtowerJusticeBlob> = self.state.drain_justice_blobs();
        proof {
            assert forall|i: int|
                is_consistent(old(self)@) && 0 <= i < blobs@.len() implies has_tower_sizes(
                #[trigger] blobs@[i]@,
            ) by {
                assert(old(self)@.ready[i] == blobs@[i]@);
            }
        }
        blobs
    }

    /// Number of pending (unsigned) commitments.
    pub fn pending_count(&self) -> (n: usize)
        ensures
            self@.pending.dom().finite(),
            n == self@.pending.len(),
    {
        let n: usize = self.state.pending_commitments.len();
        assert(self@.pending.dom() =~= self.state.pending_commitments@.dom());
        n
    }

    /// Number of ready (signed) blobs waiting to be drained.
    pub fn ready_count(&self) -> (n: usize)
        ensures
            n == self@.ready.len(),
    {
        self.state.ready_blobs.len()
    }

    /// Phase 1: Capture new counterparty commitments of a channel.
    pub fn capture_new_commitments(&mut self, channel_id: &[u8; 32], source: CommitmentSource)
        ensures
            final(self)@ == captured(old(self)@, hex(channel_id@), source.shown()),
            forall|i: int, number: u64|
                is_last_shown(source.shown(), i, number) ==> {
                    &&& final(self)@.pending.contains_key((hex(channel_id@), number))
                    &&& tells(
                        final(self)@.pending[(hex(channel_id@), number)].commitment_tx,
                        source.shown()[i].encoded,
                    )
                },
            shows_genuine(source.shown()),
            are_genuine(old(self)@) ==> are_genuine(final(self)@),
            is_consistent(old(self)@) ==> is_consistent(final(self)@),
    {
        let channel_id: String = hex_string(channel_id.as_slice());
        self.state.capture_new_commitments(&channel_id, source);
        proof {
            assert forall|i: int, number: u64| is_last_shown(source.shown(), i, number) implies {
                &&& self@.pending.contains_key((channel_id@, number))
                &&& tells(
                    self@.pending[(channel_id@, number)].commitment_tx,
                    source.shown()[i].encoded,
                )
            } by {
                shown_commitment_is_pending(
                    old(self)@,
                    channel_id@,
                    source.shown(),
                    i,
                    number,
                );
            }
            if is_consistent(old(self)@) {
                steps_keep_consistency(
                    old(self)@,
                    Step::Capture { channel_id: channel_id@, shown: source.shown() },
                );
            }
        }
    }

    /// Phase 2: Try to sign all pending commitments of a channel.
    ///
    /// See [`WatchtowerState::try_sign_pending`].
    pub fn try_sign_pending<F: Fn(Vec<u8>, usize, u64, u64) -> Result<Vec<u8>, ()>>(
        &mut self,
        channel_id: &[u8; 32],
        sign: &F,
    )
        requires
            admits_requests(*sign, old(self)@, hex(channel_id@)),
        ensures
            is_signing_outcome(*sign, old(self)@, hex(channel_id@), final(self)@),
            is_consistent(old(self)@) ==> is_consistent(final(self)@),
            are_for_tower(final(self)@.ready, old(self)@.ready.len(), old(self)@.sweep_address),
    {
        let channel_id: String = hex_string(channel_id.as_slice());
        self.state.try_sign_pending(&channel_id, sign);
        proof {
            if is_consistent(old(self)@) {
                signing_keeps_consistency(*sign, old(self)@, channel_id@, self@);
            }
        }
    }

    /// Takes in a new channel: captures its initial counterparty commitment, if its monitor has
    /// one.
    pub fn persist_new_channel(&mut self, channel_id: &[u8; 32], initial: Option<ShownCommitment>)
        ensures
            final(self)@ == captured(
                old(self)@,
                hex(channel_id@),
                CommitmentSource::Initial(initial).shown(),
            ),
            shows_genuine(CommitmentSource::Initial(initial).shown()),
            initial matches Some(c) ==> forall|number: u64| #[trigger]
                holds_commitment(c.encoded@, number) ==> {
                    &&& final(self)@.pending.contains_key((hex(channel_id@), number))
                    &&& final(self)@.pending[(hex(channel_id@), number)].commitment_tx.encoded
                        == c.encoded@
                },
            initial is None ==> final(self)@ == old(self)@,
            are_genuine(old(self)@) ==> are_genuine(final(self)@),
            is_consistent(old(self)@) ==> is_consistent(final(self)@),
    {
        let ghost given = initial;
        self.capture_new_commitments(channel_id, CommitmentSource::Initial(initial));
        proof {
            if given is Some {
                let c = given->0;
                assert forall|number: u64| #[trigger] holds_commitment(c.encoded@, number) implies {
                    &&& self@.pending.contains_key((hex(channel_id@), number))
                    &&& self@.pending[(hex(channel_id@), number)].commitment_tx.encoded
                        == c.encoded@
                } by {
                    initial_commitment_is_pending(old(self)@, hex(channel_id@), c, number);
                }
            }
        }
    }

    /// Takes in an update of a channel: captures the commitments that it brings, then tries to
    /// sign for all that are pending (the monitor has the update applied, which may bring
    /// revocation secrets).
    pub fn update_persisted_channel<F: Fn(Vec<u8>, usize, u64, u64) -> Result<Vec<u8>, ()>>(
        &mut self,
        channel_id: &[u8; 32],
        source: CommitmentSource,
        sign: &F,
    )
        requires
            admits_requests(
                *sign,
                captured(old(self)@, hex(channel_id@), source.shown()),
                hex(channel_id@),
            ),
        ensures
            is_signing_outcome(
                *sign,
                captured(old(self)@, hex(channel_id@), source.shown()),
                hex(channel_id@),
                final(self)@,
            ),
            shows_genuine(source.shown()),
            are_for_tower(final(self)@.ready, old(self)@.ready.len(), old(self)@.sweep_address),
            are_genuine(old(self)@) ==> are_genuine(final(self)@),
            is_consistent(old(self)@) ==> is_consistent(final(self)@),
    {
        proof {
            capture_touches_one_channel(self@, hex(channel_id@), source.shown());
        }
        self.capture_new_commitments(channel_id, source);
        self.try_sign_pending(channel_id, sign);
    }
}

} // verus!
