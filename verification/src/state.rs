//! What the watchtower holds: the commitments that wait for their revocation secret, and the
//! justice blobs that are ready for the tower.

use crate::blob::{
    blob_of, blob_views, make_blob, JusticeBlobView, JusticeRequest, JusticeRequestView,
    WatchtowerJusticeBlob, MAX_SWEEP_ADDRESS_LEN,
};
use crate::bytes::copy_bytes;
use crate::commitment::{
    decoded_commitment, is_genuine, request_of, CommitmentView, CounterpartyCommitment,
};
use crate::ldk::{
    compact_signature, compact_signature_of, key_view, stack_views, witness_stacks,
    witness_stacks_of,
};
use crate::pending::{key_views, CommitmentKey, PendingMap};
use vstd::prelude::*;

verus! {

/// A commitment that waits for its revocation secret.
pub struct PendingCommitment {
    /// The channel it belongs to.
    pub channel_id: String,
    /// The commitment.
    pub commitment_tx: CounterpartyCommitment,
    /// Its number.
    pub commitment_number: u64,
}

/// The contents of a [`PendingCommitment`].
#[verifier::ext_equal]
pub struct PendingCommitmentView {
    pub channel_id: Seq<char>,
    pub commitment_tx: CommitmentView,
    pub commitment_number: u64,
}

impl View for PendingCommitment {
    type V = PendingCommitmentView;

    open spec fn view(&self) -> PendingCommitmentView {
        PendingCommitmentView {
            channel_id: self.channel_id@,
            commitment_tx: self.commitment_tx@,
            commitment_number: self.commitment_number,
        }
    }
}

/// Internal state of the watchtower.
pub struct WatchtowerState {
    /// Commitments captured but not yet signable (waiting for revocation secret).
    /// Key: (channel id, commitment number)
    pub pending_commitments: PendingMap<PendingCommitment>,
    /// Fully signed justice blobs ready for the tower.
    pub ready_blobs: Vec<WatchtowerJusticeBlob>,
    /// Output script that justice transactions pay to.
    pub sweep_address: Option<Vec<u8>>,
    /// Fee rate for justice transactions (sat/kw).
    pub sweep_fee_rate: u64,
}

/// The contents of a [`WatchtowerState`].
#[verifier::ext_equal]
pub struct StateView {
    pub pending: Map<CommitmentKey, PendingCommitmentView>,
    pub ready: Seq<JusticeBlobView>,
    pub sweep_address: Option<Seq<u8>>,
    pub sweep_fee_rate: u64,
}

impl View for WatchtowerState {
    type V = StateView;

    open spec fn view(&self) -> StateView {
        StateView {
            pending: self.pending_commitments@.map_values(|p: PendingCommitment| p@),
            ready: blob_views(self.ready_blobs@),
            sweep_address: match self.sweep_address {
                Some(address) => Some(address@),
                None => None,
            },
            sweep_fee_rate: self.sweep_fee_rate,
        }
    }
}

/// A counterparty commitment as a channel monitor shows it.
pub struct ShownCommitment {
    /// The commitment in LDK's encoding.
    pub encoded: Vec<u8>,
    /// The key that its to-remote output pays to, if it has one.
    pub payment_key: Option<[u8; 33]>,
}

/// The contents of a [`ShownCommitment`].
#[verifier::ext_equal]
pub struct ShownView {
    pub encoded: Seq<u8>,
    pub payment_key: Option<Seq<u8>>,
}

impl View for ShownCommitment {
    type V = ShownView;

    open spec fn view(&self) -> ShownView {
        ShownView { encoded: self.encoded@, payment_key: key_view(self.payment_key) }
    }
}

impl ShownView {
    /// The commitment that is shown; none where LDK cannot read it.
    pub open spec fn commitment(self) -> Option<CommitmentView> {
        decoded_commitment(self.encoded, self.payment_key)
    }
}

/// Where new counterparty commitments come from.
pub enum CommitmentSource {
    /// A monitor update, with all commitments that it brings.
    Update(Vec<ShownCommitment>),
    /// A monitor without an update, with the initial commitment, if it has one.
    Initial(Option<ShownCommitment>),
}

impl CommitmentSource {
    /// The commitments, in order.
    pub open spec fn shown(self) -> Seq<ShownView> {
        match self {
            CommitmentSource::Update(list) => shown_views(list@),
            CommitmentSource::Initial(Some(initial)) => seq![initial@],
            CommitmentSource::Initial(None) => Seq::empty(),
        }
    }

    /// The commitments, in order.
    pub fn into_shown(self) -> (list: Vec<ShownCommitment>)
        ensures
            shown_views(list@) == self.shown(),
            self matches CommitmentSource::Update(update) ==> list == update,
            self matches CommitmentSource::Initial(Some(initial)) ==> list@ == seq![initial],
            self matches CommitmentSource::Initial(None) ==> list@.len() == 0,
    {
        let ghost shown = self.shown();
        let list: Vec<ShownCommitment> = match self {
            CommitmentSource::Update(list) => list,
            CommitmentSource::Initial(Some(initial)) => vec![initial],
            CommitmentSource::Initial(None) => Vec::new(),
        };
        assert(shown_views(list@) =~= shown);
        list
    }
}

/// The contents of a list of shown commitments.
pub open spec fn shown_views(list: Seq<ShownCommitment>) -> Seq<ShownView> {
    list.map_values(|c: ShownCommitment| c@)
}

/// Whether what is shown is genuine, as far as LDK can read it.
pub open spec fn shows_genuine(shown: Seq<ShownView>) -> bool {
    forall|i: int|
        0 <= i < shown.len() ==> (#[trigger] shown[i].commitment() matches Some(commitment)
            ==> is_genuine(commitment))
}

/// What is held for a commitment of a channel.
pub open spec fn pending_of(
    channel_id: Seq<char>,
    commitment: CommitmentView,
) -> PendingCommitmentView {
    PendingCommitmentView {
        channel_id,
        commitment_tx: commitment,
        commitment_number: commitment.commitment_number,
    }
}

/// The state after a commitment of a channel was recorded: it stands under its number, in place
/// of any other with that number.
pub open spec fn recorded(
    state: StateView,
    channel_id: Seq<char>,
    commitment: CommitmentView,
) -> StateView {
    StateView {
        pending: state.pending.insert(
            (channel_id, commitment.commitment_number),
            pending_of(channel_id, commitment),
        ),
        ..state
    }
}

/// The state after a list of commitments of a channel was captured, one after the other. What LDK
/// cannot read is passed over.
pub open spec fn captured(
    state: StateView,
    channel_id: Seq<char>,
    shown: Seq<ShownView>,
) -> StateView
    decreases shown.len(),
{
    if shown.len() == 0 {
        state
    } else {
        let before = captured(state, channel_id, shown.drop_last());
        match shown.last().commitment() {
            Some(commitment) => recorded(before, channel_id, commitment),
            None => before,
        }
    }
}

/// Whether all pending commitments are what LDK reads from their encodings.
pub open spec fn are_genuine(state: StateView) -> bool {
    forall|k: CommitmentKey| #[trigger]
        state.pending.contains_key(k) ==> is_genuine(state.pending[k].commitment_tx)
}

/// The first item on the first of some witness stacks, if there is one.
pub open spec fn first_item_of(stacks: Seq<Seq<Seq<u8>>>) -> Option<Seq<u8>> {
    if stacks.len() > 0 && stacks[0].len() > 0 {
        Some(stacks[0][0])
    } else {
        None
    }
}

/// The compact signature in a signed justice transaction: the first item on the witness stack of
/// its first input holds it.
pub open spec fn to_local_sig_of(signed_tx: Seq<u8>) -> Option<Seq<u8>> {
    match witness_stacks_of(signed_tx) {
        Some(stacks) => match first_item_of(stacks) {
            Some(item) => compact_signature_of(item),
            None => None,
        },
        None => None,
    }
}

/// Picks the first item on the first of some witness stacks.
pub fn first_item(stacks: &Vec<Vec<Vec<u8>>>) -> (item: Option<&Vec<u8>>)
    ensures
        first_item_of(stack_views(stacks@)) == match item {
            Some(i) => Some(i@),
            None => None,
        },
{
    if stacks.len() > 0 && stacks[0].len() > 0 {
        Some(&stacks[0][0])
    } else {
        None
    }
}

/// Takes the compact signature out of a signed justice transaction: the sighash byte is left out,
/// and the DER form before it is made compact.
pub fn to_local_sig(signed_tx: &Vec<u8>) -> (sig: Option<[u8; 64]>)
    ensures
        to_local_sig_of(signed_tx@) == match sig {
            Some(s) => Some(s@),
            None => None,
        },
{
    match witness_stacks(signed_tx.as_slice()) {
        Some(stacks) => match first_item(&stacks) {
            Some(item) => compact_signature(item.as_slice()),
            None => None,
        },
        None => None,
    }
}

/// What the signer is asked for the commitment under `key`, if anything.
pub open spec fn request_for(state: StateView, key: CommitmentKey) -> Option<JusticeRequestView>
    recommends
        state.sweep_address is Some,
{
    request_of(
        state.pending[key].commitment_tx,
        state.pending[key].commitment_number,
        state.sweep_fee_rate,
        state.sweep_address->0,
    )
}

/// The blob that comes of the commitment under `key` when the signer replies with `reply`: a
/// signed transaction, or none where the revocation secret is not known yet.
pub open spec fn blob_for(
    state: StateView,
    key: CommitmentKey,
    reply: Option<Seq<u8>>,
) -> Option<JusticeBlobView>
    recommends
        state.sweep_address is Some,
{
    match (request_for(state, key), reply) {
        (Some(request), Some(signed_tx)) => match to_local_sig_of(signed_tx) {
            Some(sig) => Some(blob_of(key.0, state.sweep_address->0, request, sig)),
            None => None,
        },
        _ => None,
    }
}

/// The blobs that come of the commitments under `keys`, in that order, with the signer's reply
/// for each.
pub open spec fn blobs_for(
    state: StateView,
    keys: Seq<CommitmentKey>,
    replies: Seq<Option<Seq<u8>>>,
) -> Seq<JusticeBlobView>
    decreases keys.len(),
{
    if keys.len() == 0 {
        Seq::empty()
    } else {
        let before = blobs_for(state, keys.drop_last(), replies.drop_last());
        match blob_for(state, keys.last(), replies.last()) {
            Some(blob) => before.push(blob),
            None => before,
        }
    }
}

/// Whether the commitment under `key` is signed for, given the keys that are asked for and the
/// signer's replies.
pub open spec fn is_signed(
    state: StateView,
    keys: Seq<CommitmentKey>,
    replies: Seq<Option<Seq<u8>>>,
    key: CommitmentKey,
) -> bool {
    exists|i: int|
        0 <= i < keys.len() && #[trigger] keys[i] == key && blob_for(state, key, replies[i]) is Some
}

/// The state after the commitments under `keys` were tried: what was signed for has left the
/// pending ones, and its blobs stand behind the ready ones.
pub open spec fn sign_pass(
    state: StateView,
    keys: Seq<CommitmentKey>,
    replies: Seq<Option<Seq<u8>>>,
) -> StateView {
    StateView {
        pending: state.pending.remove_keys(
            Set::new(|k: CommitmentKey| is_signed(state, keys, replies, k)),
        ),
        ready: state.ready + blobs_for(state, keys, replies),
        ..state
    }
}

/// The state after all ready blobs were taken out.
pub open spec fn drained(state: StateView) -> StateView {
    StateView { ready: Seq::empty(), ..state }
}

/// Whether `keys` are the keys under which commitments of a channel are pending that there is
/// something to ask the signer for, each once.
pub open spec fn asks_for_channel(
    state: StateView,
    channel_id: Seq<char>,
    keys: Seq<CommitmentKey>,
) -> bool {
    &&& keys.no_duplicates()
    &&& forall|k: CommitmentKey| #[trigger]
        keys.contains(k) <==> (state.pending.contains_key(k) && k.0 == channel_id && request_for(
            state,
            k,
        ) is Some)
}

/// Whether a blob has the sizes that a tower expects: a sweep address that a justice kit can hold,
/// and a to-remote key or none. The to-remote output is not signed for.
pub open spec fn has_tower_sizes(blob: JusticeBlobView) -> bool {
    &&& blob.breach_txid.len() == 32
    &&& blob.sweep_address.len() <= MAX_SWEEP_ADDRESS_LEN
    &&& blob.revocation_pubkey.len() == 33
    &&& blob.local_delay_pubkey.len() == 33
    &&& blob.to_local_sig.len() == 64
    &&& blob.to_remote_pubkey.len() == 33 || blob.to_remote_pubkey.len() == 0
    &&& blob.to_remote_sig.len() == 0
}

/// Whether the blobs from position `from` on have the sizes that a tower expects, and pay to
/// `sweep_address`.
pub open spec fn are_for_tower(
    blobs: Seq<JusticeBlobView>,
    from: nat,
    sweep_address: Option<Seq<u8>>,
) -> bool {
    forall|i: int|
        from <= i < blobs.len() ==> has_tower_sizes(#[trigger] blobs[i]) && sweep_address == Some(
            blobs[i].sweep_address,
        )
}

/// The signer's reply as bytes.
pub open spec fn reply_view(reply: Result<Vec<u8>, ()>) -> Option<Seq<u8>> {
    match reply {
        Ok(tx) => Some(tx@),
        Err(_) => None,
    }
}

/// Whether `reply` is what the signer gave when it was handed this request: its transaction, the
/// first input, the value that input spends and the commitment's number.
pub open spec fn is_reply<F: Fn(Vec<u8>, usize, u64, u64) -> Result<Vec<u8>, ()>>(
    sign: F,
    request: JusticeRequestView,
    reply: Option<Seq<u8>>,
) -> bool {
    exists|tx: Vec<u8>, result: Result<Vec<u8>, ()>|
        {
            &&& tx@ == request.justice_tx
            &&& reply == reply_view(result)
            &&& #[trigger] call_ensures(
                sign,
                (tx, 0usize, request.output_value, request.commitment_number),
                result,
            )
        }
}

/// Whether each reply is what the signer gave to the request for the key beside it.
pub open spec fn are_replies<F: Fn(Vec<u8>, usize, u64, u64) -> Result<Vec<u8>, ()>>(
    sign: F,
    state: StateView,
    keys: Seq<CommitmentKey>,
    replies: Seq<Option<Seq<u8>>>,
) -> bool {
    &&& replies.len() == keys.len()
    &&& forall|i: int|
        0 <= i < keys.len() ==> is_reply(
            sign,
            (#[trigger] request_for(state, keys[i]))->0,
            replies[i],
        )
}

/// Whether the signer can be handed the requests for a channel's pending commitments, and so all
/// that it may be asked: without a sweep address nothing, with one each request's transaction, the
/// first input, the value that input spends and the commitment's number.
pub open spec fn admits_requests<F: Fn(Vec<u8>, usize, u64, u64) -> Result<Vec<u8>, ()>>(
    sign: F,
    state: StateView,
    channel_id: Seq<char>,
) -> bool {
    state.sweep_address is Some ==> forall|key: CommitmentKey, tx: Vec<u8>|
        #![trigger request_for(state, key), tx@]
        state.pending.contains_key(key) && key.0 == channel_id ==> (request_for(
            state,
            key,
        ) matches Some(request) ==> (tx@ == request.justice_tx ==> call_requires(
            sign,
            (tx, 0usize, request.output_value, request.commitment_number),
        )))
}

/// Whether a signature in a reply has its compact size.
pub open spec fn has_compact_sig(reply: Option<Seq<u8>>) -> bool {
    reply matches Some(signed_tx) ==> (to_local_sig_of(signed_tx) matches Some(sig) ==> sig.len()
        == 64)
}

/// Whether all signatures in the replies have their compact size.
pub open spec fn have_compact_sigs(replies: Seq<Option<Seq<u8>>>) -> bool {
    forall|i: int| 0 <= i < replies.len() ==> has_compact_sig(#[trigger] replies[i])
}

/// Whether `after` is a state that trying to sign a channel's pending commitments can lead to:
/// nothing changes without a sweep address; with one, the signer gives one reply for each of the
/// channel's commitments that there is a request for, in some order.
pub open spec fn is_signing_outcome<F: Fn(Vec<u8>, usize, u64, u64) -> Result<Vec<u8>, ()>>(
    sign: F,
    before: StateView,
    channel_id: Seq<char>,
    after: StateView,
) -> bool {
    if before.sweep_address is None {
        after == before
    } else {
        exists|keys: Seq<CommitmentKey>, replies: Seq<Option<Seq<u8>>>|
            {
                &&& asks_for_channel(before, channel_id, keys)
                &&& are_replies(sign, before, keys, replies)
                &&& have_compact_sigs(replies)
                &&& after == #[trigger] sign_pass(before, keys, replies)
            }
    }
}

/// A list holds what it held and what was added to it.
proof fn lemma_push_contains(keys: Seq<CommitmentKey>, key: CommitmentKey)
    ensures
        forall|k: CommitmentKey| #[trigger]
            keys.push(key).contains(k) <==> (keys.contains(k) || k == key),
{
    assert forall|k: CommitmentKey| #[trigger]
        keys.push(key).contains(k) <==> (keys.contains(k) || k == key) by {
        if keys.contains(k) {
            assert(keys.push(key)[keys.index_of(k)] == k);
        }
        assert(keys.push(key)[keys.len() as int] == key);
    }
}

/// Trying one more commitment takes a pass one step further.
pub proof fn lemma_sign_pass_step(
    state: StateView,
    keys: Seq<CommitmentKey>,
    replies: Seq<Option<Seq<u8>>>,
    key: CommitmentKey,
    reply: Option<Seq<u8>>,
)
    requires
        replies.len() == keys.len(),
        !keys.contains(key),
        state.pending.contains_key(key),
    ensures
        sign_pass(state, keys, replies).pending.contains_key(key),
        sign_pass(state, keys, replies).pending[key] == state.pending[key],
        sign_pass(state, keys.push(key), replies.push(reply)) == match blob_for(state, key, reply) {
            Some(blob) => StateView {
                pending: sign_pass(state, keys, replies).pending.remove(key),
                ready: sign_pass(state, keys, replies).ready.push(blob),
                ..state
            },
            None => sign_pass(state, keys, replies),
        },
{
    let keys1 = keys.push(key);
    let replies1 = replies.push(reply);
    let pass = sign_pass(state, keys, replies);
    let pass1 = sign_pass(state, keys1, replies1);
    assert(keys1.drop_last() =~= keys);
    assert(replies1.drop_last() =~= replies);
    assert(!is_signed(state, keys, replies, key));
    assert forall|k: CommitmentKey| true implies (#[trigger] is_signed(state, keys1, replies1, k)
        <==> (is_signed(state, keys, replies, k) || (k == key && blob_for(
        state,
        key,
        reply,
    ) is Some))) by {
        if is_signed(state, keys, replies, k) {
            let i = choose|i: int|
                0 <= i < keys.len() && #[trigger] keys[i] == k && blob_for(
                    state,
                    k,
                    replies[i],
                ) is Some;
            assert(keys1[i] == k);
        }
        assert(keys1[keys.len() as int] == key);
    }
    match blob_for(state, key, reply) {
        Some(blob) => {
            assert(pass1.pending =~= pass.pending.remove(key));
            assert(pass1.ready =~= pass.ready.push(blob));
        },
        None => {
            assert(pass1.pending =~= pass.pending);
            assert(pass1.ready =~= pass.ready);
        },
    }
}

/// The keys beside some requests.
pub open spec fn request_keys(requests: Seq<((String, u64), JusticeRequest)>) -> Seq<
    CommitmentKey,
> {
    requests.map_values(|r: ((String, u64), JusticeRequest)| (r.0.0@, r.0.1))
}

impl WatchtowerState {
    /// Records a commitment of a channel as pending.
    pub fn record_commitment(&mut self, channel_id: &String, commitment: CounterpartyCommitment)
        ensures
            final(self)@ == recorded(old(self)@, channel_id@, commitment@),
    {
        let commitment_number: u64 = commitment.commitment_number;
        let entry = PendingCommitment {
            channel_id: channel_id.clone(),
            commitment_tx: commitment,
            commitment_number,
        };
        self.pending_commitments.insert((channel_id.clone(), commitment_number), entry);
        assert(self@ =~= recorded(old(self)@, channel_id@, commitment@));
    }

    /// Phase 1: Capture new counterparty commitments.
    pub fn capture_new_commitments(&mut self, channel_id: &String, source: CommitmentSource)
        ensures
            final(self)@ == captured(old(self)@, channel_id@, source.shown()),
            shows_genuine(source.shown()),
            are_genuine(old(self)@) ==> are_genuine(final(self)@),
    {
        let ghost shown = source.shown();
        let list: Vec<ShownCommitment> = source.into_shown();
        let mut i: usize = 0;
        assert(shown.take(0) =~= Seq::<ShownView>::empty());
        while i < list.len()
            invariant
                i <= list@.len(),
                shown == shown_views(list@),
                self@ == captured(old(self)@, channel_id@, shown.take(i as int)),
                shows_genuine(shown.take(i as int)),
                are_genuine(old(self)@) ==> are_genuine(self@),
            decreases list@.len() - i,
        {
            proof {
                assert(shown.take(i + 1).drop_last() =~= shown.take(i as int));
                assert(shown.take(i + 1).last() == list@[i as int]@);
            }
            let commitment: Option<CounterpartyCommitment> = CounterpartyCommitment::from_encoded(
                list[i].encoded.as_slice(),
                list[i].payment_key,
            );
            proof {
                assert forall|j: int| 0 <= j < i + 1 implies (#[trigger] shown.take(
                    i + 1,
                )[j].commitment() matches Some(c) ==> is_genuine(c)) by {
                    if j < i {
                        assert(shown.take(i + 1)[j] == shown.take(i as int)[j]);
                    }
                }
            }
            if let Some(commitment) = commitment {
                self.record_commitment(channel_id, commitment);
            }
            i += 1;
        }
        assert(shown.take(i as int) =~= shown);
    }

    /// Takes the outcome of a request in: with a signature, the blob is ready and the commitment
    /// under `key` is pending no more; without one, nothing changes.
    pub fn settle(
        &mut self,
        key: &(String, u64),
        sweep_address: &Vec<u8>,
        request: &JusticeRequest,
        sig: Option<[u8; 64]>,
    )
        ensures
            match sig {
                Some(s) => final(self)@ == (StateView {
                    pending: old(self)@.pending.remove((key.0@, key.1)),
                    ready: old(self)@.ready.push(blob_of(key.0@, sweep_address@, request@, s@)),
                    ..old(self)@
                }),
                None => final(self)@ == old(self)@,
            },
    {
        if let Some(s) = sig {
            let blob: WatchtowerJusticeBlob = make_blob(&key.0, sweep_address, request, &s);
            let ghost view = blob@;
            self.ready_blobs.push(blob);
            self.pending_commitments.remove(key);
            proof {
                assert(self@.ready =~= old(self)@.ready.push(view));
                assert(self@.pending =~= old(self)@.pending.remove((key.0@, key.1)));
            }
        }
    }

    /// What the signer is to be asked for a channel: one request for each pending commitment that
    /// a justice transaction can be built for, with the key it stands under, and nothing without a
    /// sweep address.
    pub fn justice_requests(&self, channel_id: &String) -> (requests: Vec<
        ((String, u64), JusticeRequest),
    >)
        ensures
            self@.sweep_address is None ==> requests@.len() == 0,
            self@.sweep_address is Some ==> {
                &&& asks_for_channel(self@, channel_id@, request_keys(requests@))
                &&& forall|i: int|
                    0 <= i < requests@.len() ==> request_for(
                        self@,
                        #[trigger] request_keys(requests@)[i],
                    ) == Some(requests@[i].1@)
            },
    {
        let mut requests: Vec<((String, u64), JusticeRequest)> = Vec::new();
        let sweep_address: &Vec<u8> = match &self.sweep_address {
            Some(address) => address,
            None => return requests,
        };
        let pending_keys: Vec<(String, u64)> = self.pending_commitments.keys_of_channel(channel_id);
        let ghost keys = key_views(pending_keys@);
        let mut i: usize = 0;
        while i < pending_keys.len()
            invariant
                i <= pending_keys@.len(),
                keys == key_views(pending_keys@),
                keys.no_duplicates(),
                forall|k: CommitmentKey| #[trigger]
                    keys.contains(k) <==> (self@.pending.contains_key(k) && k.0 == channel_id@),
                self@.sweep_address == Some(sweep_address@),
                request_keys(requests@).no_duplicates(),
                forall|k: CommitmentKey| #[trigger]
                    request_keys(requests@).contains(k) <==> (keys.take(i as int).contains(k)
                        && request_for(self@, k) is Some),
                forall|j: int|
                    0 <= j < requests@.len() ==> request_for(
                        self@,
                        #[trigger] request_keys(requests@)[j],
                    ) == Some(requests@[j].1@),
            decreases pending_keys@.len() - i,
        {
            let key: &(String, u64) = &pending_keys[i];
            let ghost k = (key.0@, key.1);
            let ghost before = requests@;
            proof {
                assert(keys[i as int] == k);
                assert(keys.contains(k));
                assert(keys.take(i + 1) =~= keys.take(i as int).push(k));
                assert(!keys.take(i as int).contains(k));
                lemma_push_contains(keys.take(i as int), k);
            }
            let request: Option<JusticeRequest> = match self.pending_commitments.get(key) {
                Some(p) => p.commitment_tx.prepare_justice(
                    p.commitment_number,
                    self.sweep_fee_rate,
                    sweep_address,
                ),
                None => None,
            };
            if let Some(request) = request {
                requests.push(((key.0.clone(), key.1), request));
                proof {
                    assert(!request_keys(before).contains(k));
                    assert(request_keys(requests@) =~= request_keys(before).push(k));
                    lemma_push_contains(request_keys(before), k);
                    assert forall|j: int| 0 <= j < requests@.len() implies request_for(
                        self@,
                        #[trigger] request_keys(requests@)[j],
                    ) == Some(requests@[j].1@) by {
                        if j < before.len() {
                            assert(request_keys(before)[j] == request_keys(requests@)[j]);
                        }
                    }
                }
            }
            i += 1;
        }
        assert(keys.take(i as int) =~= keys);
        requests
    }

    /// Phase 2: Try to sign all pending commitments of a channel.
    ///
    /// After a new update is applied, the channel's monitor may have revocation secrets for
    /// commitments that were captured earlier. The signer is asked once for each request of
    /// [`WatchtowerState::justice_requests`], and what is signed moves to the ready queue. `sign` is
    /// handed the unsigned justice transaction, the index of its input, the value that input spends
    /// and the commitment's number; it returns the signed transaction, or an error where the
    /// revocation secret is not known yet. The contract says what it may be asked and what comes of
    /// its replies; it does not count the calls.
    pub fn try_sign_pending<F: Fn(Vec<u8>, usize, u64, u64) -> Result<Vec<u8>, ()>>(
        &mut self,
        channel_id: &String,
        sign: &F,
    )
        requires
            admits_requests(*sign, old(self)@, channel_id@),
        ensures
            is_signing_outcome(*sign, old(self)@, channel_id@, final(self)@),
            are_for_tower(final(self)@.ready, old(self)@.ready.len(), old(self)@.sweep_address),
    {
        let sweep_address: Vec<u8> = match &self.sweep_address {
            Some(address) => copy_bytes(address.as_slice()),
            None => return,
        };
        let requests: Vec<((String, u64), JusticeRequest)> = self.justice_requests(channel_id);
        let ghost before = self@;
        let ghost keys = request_keys(requests@);
        let ghost mut replies: Seq<Option<Seq<u8>>> = Seq::empty();
        let mut i: usize = 0;
        while i < requests.len()
            invariant
                i <= requests@.len(),
                i == replies.len(),
                keys == request_keys(requests@),
                before.sweep_address == Some(sweep_address@),
                asks_for_channel(before, channel_id@, keys),
                forall|j: int|
                    0 <= j < requests@.len() ==> request_for(before, #[trigger] keys[j]) == Some(
                        requests@[j].1@,
                    ),
                are_replies(*sign, before, keys.take(i as int), replies),
                self@ == sign_pass(before, keys.take(i as int), replies),
                before.ready.len() <= self@.ready.len(),
                have_compact_sigs(replies),
                are_for_tower(self@.ready, before.ready.len(), before.sweep_address),
                admits_requests(*sign, before, channel_id@),
            decreases requests@.len() - i,
        {
            let key: &(String, u64) = &requests[i].0;
            let request: &JusticeRequest = &requests[i].1;
            let ghost k = (key.0@, key.1);
            let ghost asked = keys.take(i as int);
            let ghost replied = replies;
            proof {
                assert(keys[i as int] == k);
                assert(keys.contains(k));
                assert(keys.take(i + 1) =~= asked.push(k));
                assert(!asked.contains(k));
                assert(request_for(before, k) == Some(request@));
            }
            let justice_tx: Vec<u8> = copy_bytes(request.justice_tx.as_slice());
            assert(justice_tx@ == request@.justice_tx);
            let signed: Result<Vec<u8>, ()> = sign(
                justice_tx,
                0,
                request.output_value,
                request.commitment_number,
            );
            let sig: Option<[u8; 64]> = match &signed {
                Ok(tx) => to_local_sig(tx),
                Err(_) => None,
            };
            self.settle(key, &sweep_address, request, sig);
            proof {
                assert(is_reply(*sign, request@, reply_view(signed)));
                lemma_sign_pass_step(before, asked, replied, k, reply_view(signed));
                replies = replied.push(reply_view(signed));
                assert forall|j: int| 0 <= j < keys.take(i + 1).len() implies is_reply(
                    *sign,
                    (#[trigger] request_for(before, keys.take(i + 1)[j]))->0,
                    replies[j],
                ) by {
                    if j < i {
                        assert(keys.take(i + 1)[j] == asked[j]);
                        assert(replies[j] == replied[j]);
                    }
                }
            }
            i += 1;
        }
        assert(keys.take(i as int) =~= keys);
    }

    /// Drain all ready justice blobs.
    pub fn drain_justice_blobs(&mut self) -> (blobs: Vec<WatchtowerJusticeBlob>)
        ensures
            blobs@ == old(self).ready_blobs@,
            final(self)@ == drained(old(self)@),
    {
        let mut blobs: Vec<WatchtowerJusticeBlob> = Vec::new();
        std::mem::swap(&mut blobs, &mut self.ready_blobs);
        assert(self@.ready =~= Seq::empty());
        blobs
    }
}

} // verus!
