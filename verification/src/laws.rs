//! What holds of the watchtower as a whole, whatever it is fed.

use crate::blob::{JusticeBlobView, JusticeRequestView, MAX_SWEEP_ADDRESS_LEN};
use crate::commitment::{
    has_genuine_revokeable_output, is_genuine, payment_script_of, request_of, request_with,
    CommitmentView,
};
use crate::csv::{
    csv_delay_of, is_csv_delay, pays_with_delay, DEFAULT_CSV_DELAY, MAX_CSV_DELAY,
};
use crate::ldk::{
    delay_push, justice_fee, le_bytes, p2wsh_of, revokeable_redeemscript_of, sweep_tx_of,
};
use crate::monitors::{
    datas_of, info_of, infos_of, MonitorExport, MonitorInfoView, MonitorSummary,
};
use crate::pending::CommitmentKey;
use crate::persister::{initial_state, DEFAULT_SWEEP_FEE_RATE};
use crate::state::{
    are_genuine, are_replies, blob_for, blobs_for, captured, drained, has_compact_sig,
    has_tower_sizes, have_compact_sigs, is_signed, is_signing_outcome, lemma_sign_pass_step,
    pending_of, recorded, request_for, shows_genuine, sign_pass, asks_for_channel, ShownView, StateView,
};
use crate::text::{hex, hex_digit};
use crate::to_remote::is_to_remote_output;
use vstd::prelude::*;

verus! {

// ---------------------------------------------------------------------------
// Capturing
// ---------------------------------------------------------------------------
/// Capturing touches what is pending for the captured channel, and nothing else: other channels'
/// commitments, the ready blobs, the sweep address and the fee rate stay as they are.
pub proof fn capture_touches_one_channel(
    state: StateView,
    channel_id: Seq<char>,
    shown: Seq<ShownView>,
)
    ensures
        captured(state, channel_id, shown) == (StateView {
            pending: captured(state, channel_id, shown).pending,
            ..state
        }),
        forall|k: CommitmentKey|
            k.0 != channel_id ==> {
                &&& captured(state, channel_id, shown).pending.contains_key(k)
                    == #[trigger] state.pending.contains_key(k)
                &&& state.pending.contains_key(k) ==> captured(
                    state,
                    channel_id,
                    shown,
                ).pending[k] == state.pending[k]
            },
    decreases shown.len(),
{
    if shown.len() > 0 {
        capture_touches_one_channel(state, channel_id, shown.drop_last());
    }
}

/// Nothing that was pending is forgotten by capturing.
pub proof fn capture_keeps_pending_keys(
    state: StateView,
    channel_id: Seq<char>,
    shown: Seq<ShownView>,
)
    ensures
        state.pending.dom().subset_of(captured(state, channel_id, shown).pending.dom()),
    decreases shown.len(),
{
    if shown.len() > 0 {
        capture_keeps_pending_keys(state, channel_id, shown.drop_last());
    }
}

/// Of the captured commitments with one number the last is held: each commitment that no later
/// one in the list replaces is pending afterwards, as it was read.
pub proof fn capture_holds_the_latest(
    state: StateView,
    channel_id: Seq<char>,
    shown: Seq<ShownView>,
    i: int,
    commitment: CommitmentView,
)
    requires
        0 <= i < shown.len(),
        shown[i].commitment() == Some(commitment),
        forall|j: int|
            i < j < shown.len() ==> (#[trigger] shown[j].commitment() matches Some(later)
                ==> later.commitment_number != commitment.commitment_number),
    ensures
        captured(state, channel_id, shown).pending.contains_key(
            (channel_id, commitment.commitment_number),
        ),
        captured(state, channel_id, shown).pending[(channel_id, commitment.commitment_number)]
            == pending_of(channel_id, commitment),
    decreases shown.len(),
{
    if i < shown.len() - 1 {
        let rest = shown.drop_last();
        assert forall|j: int| i < j < rest.len() implies (#[trigger] rest[j].commitment() matches Some(
            later,
        ) ==> later.commitment_number != commitment.commitment_number) by {
            assert(rest[j] == shown[j]);
        }
        capture_holds_the_latest(state, channel_id, rest, i, commitment);
        assert(shown.last() == shown[shown.len() - 1]);
    }
}

/// Recording a commitment again under the same number replaces what was there, and does not add
/// to the number of pending ones.
pub proof fn recapture_replaces(
    state: StateView,
    channel_id: Seq<char>,
    first: CommitmentView,
    second: CommitmentView,
)
    requires
        first.commitment_number == second.commitment_number,
        state.pending.dom().finite(),
    ensures
        recorded(recorded(state, channel_id, first), channel_id, second) == recorded(
            state,
            channel_id,
            second,
        ),
        recorded(recorded(state, channel_id, first), channel_id, second).pending.len() == recorded(
            state,
            channel_id,
            first,
        ).pending.len(),
{
    let key = (channel_id, first.commitment_number);
    assert(recorded(recorded(state, channel_id, first), channel_id, second).pending
        =~= recorded(state, channel_id, second).pending);
    assert(recorded(state, channel_id, first).pending.dom() =~= state.pending.dom().insert(key));
    assert(recorded(state, channel_id, second).pending.dom() =~= state.pending.dom().insert(key));
}

/// A commitment under a number that was not pending adds one to the number of pending ones.
pub proof fn new_number_adds_one(
    state: StateView,
    channel_id: Seq<char>,
    commitment: CommitmentView,
)
    requires
        state.pending.dom().finite(),
        !state.pending.contains_key((channel_id, commitment.commitment_number)),
    ensures
        recorded(state, channel_id, commitment).pending.len() == state.pending.len() + 1,
{
}

/// The last of the shown commitments that has this number.
pub open spec fn latest_with_number(shown: Seq<ShownView>, number: u64) -> Option<CommitmentView>
    decreases shown.len(),
{
    if shown.len() == 0 {
        None
    } else {
        match shown.last().commitment() {
            Some(commitment) if commitment.commitment_number == number => Some(commitment),
            _ => latest_with_number(shown.drop_last(), number),
        }
    }
}

/// What is pending after a capture: for each number of the channel the last commitment that was
/// shown, and what was pending before where none was shown.
pub proof fn capture_keeps_or_replaces(
    state: StateView,
    channel_id: Seq<char>,
    shown: Seq<ShownView>,
    key: CommitmentKey,
)
    ensures
        match latest_with_number(shown, key.1) {
            Some(commitment) if key.0 == channel_id => {
                &&& captured(state, channel_id, shown).pending.contains_key(key)
                &&& captured(state, channel_id, shown).pending[key] == pending_of(
                    channel_id,
                    commitment,
                )
            },
            _ => {
                &&& captured(state, channel_id, shown).pending.contains_key(key)
                    == state.pending.contains_key(key)
                &&& state.pending.contains_key(key) ==> captured(
                    state,
                    channel_id,
                    shown,
                ).pending[key] == state.pending[key]
            },
        },
    decreases shown.len(),
{
    if shown.len() > 0 {
        capture_keeps_or_replaces(state, channel_id, shown.drop_last(), key);
    }
}

/// Capturing the same again changes nothing.
pub proof fn capturing_again_changes_nothing(
    state: StateView,
    channel_id: Seq<char>,
    shown: Seq<ShownView>,
)
    ensures
        captured(captured(state, channel_id, shown), channel_id, shown) == captured(
            state,
            channel_id,
            shown,
        ),
{
    let once = captured(state, channel_id, shown);
    let twice = captured(once, channel_id, shown);
    assert forall|k: CommitmentKey| true implies (#[trigger] twice.pending.contains_key(k)
        == once.pending.contains_key(k)) && (once.pending.contains_key(k) ==> twice.pending[k]
        == once.pending[k]) by {
        capture_keeps_or_replaces(state, channel_id, shown, k);
        capture_keeps_or_replaces(once, channel_id, shown, k);
    }
    assert(twice.pending =~= once.pending);
    capture_touches_one_channel(once, channel_id, shown);
}

// ---------------------------------------------------------------------------
// Signing
// ---------------------------------------------------------------------------
/// Each commitment that is tried either stays pending, unchanged and without a blob, or leaves and
/// has its blob among the new ones. Which of the two is decided by the signer's reply.
pub proof fn signing_moves_or_keeps(
    state: StateView,
    channel_id: Seq<char>,
    keys: Seq<CommitmentKey>,
    replies: Seq<Option<Seq<u8>>>,
    i: int,
)
    requires
        asks_for_channel(state, channel_id, keys),
        replies.len() == keys.len(),
        0 <= i < keys.len(),
    ensures
        match blob_for(state, keys[i], replies[i]) {
            Some(blob) => {
                &&& !sign_pass(state, keys, replies).pending.contains_key(keys[i])
                &&& blobs_for(state, keys, replies).contains(blob)
            },
            None => {
                &&& sign_pass(state, keys, replies).pending.contains_key(keys[i])
                &&& sign_pass(state, keys, replies).pending[keys[i]] == state.pending[keys[i]]
            },
        },
{
    assert(keys.contains(keys[i]));
    match blob_for(state, keys[i], replies[i]) {
        Some(blob) => {
            assert(is_signed(state, keys, replies, keys[i]));
            lemma_blob_is_among(state, keys, replies, i);
        },
        None => {
            assert(!is_signed(state, keys, replies, keys[i]));
        },
    }
}

/// A pending commitment that there is no request for stays pending, unchanged: the signer is not
/// asked for it.
pub proof fn unasked_commitment_stays_pending(
    state: StateView,
    channel_id: Seq<char>,
    keys: Seq<CommitmentKey>,
    replies: Seq<Option<Seq<u8>>>,
    key: CommitmentKey,
)
    requires
        asks_for_channel(state, channel_id, keys),
        replies.len() == keys.len(),
        state.pending.contains_key(key),
        request_for(state, key) is None,
    ensures
        !keys.contains(key),
        sign_pass(state, keys, replies).pending.contains_key(key),
        sign_pass(state, keys, replies).pending[key] == state.pending[key],
{
    assert(!is_signed(state, keys, replies, key));
}

/// The blob of a key stands among the blobs.
proof fn lemma_blob_is_among(
    state: StateView,
    keys: Seq<CommitmentKey>,
    replies: Seq<Option<Seq<u8>>>,
    i: int,
)
    requires
        replies.len() == keys.len(),
        0 <= i < keys.len(),
        blob_for(state, keys[i], replies[i]) is Some,
    ensures
        blobs_for(state, keys, replies).contains(blob_for(state, keys[i], replies[i])->0),
    decreases keys.len(),
{
    let blob = blob_for(state, keys[i], replies[i])->0;
    let before = blobs_for(state, keys.drop_last(), replies.drop_last());
    let all = blobs_for(state, keys, replies);
    if i < keys.len() - 1 {
        lemma_blob_is_among(state, keys.drop_last(), replies.drop_last(), i);
        let j = before.index_of(blob);
        assert(all[j] == blob);
    } else {
        assert(all[all.len() - 1] == blob);
    }
}

/// A signing pass touches the tried channel's commitments only; the ready blobs stay in front of
/// the new ones, and the sweep address and the fee rate stay as they are.
pub proof fn signing_touches_one_channel(
    state: StateView,
    channel_id: Seq<char>,
    keys: Seq<CommitmentKey>,
    replies: Seq<Option<Seq<u8>>>,
)
    requires
        asks_for_channel(state, channel_id, keys),
        replies.len() == keys.len(),
    ensures
        forall|k: CommitmentKey|
            k.0 != channel_id ==> {
                &&& sign_pass(state, keys, replies).pending.contains_key(k)
                    == #[trigger] state.pending.contains_key(k)
                &&& state.pending.contains_key(k) ==> sign_pass(state, keys, replies).pending[k]
                    == state.pending[k]
            },
        state.ready.is_prefix_of(sign_pass(state, keys, replies).ready),
        sign_pass(state, keys, replies).sweep_address == state.sweep_address,
        sign_pass(state, keys, replies).sweep_fee_rate == state.sweep_fee_rate,
{
    assert forall|k: CommitmentKey| k.0 != channel_id implies !#[trigger] is_signed(
        state,
        keys,
        replies,
        k,
    ) by {
        assert(!keys.contains(k));
    }
}

/// A signing pass loses nothing and makes nothing up: as many blobs come in as commitments leave.
pub proof fn signing_conserves(
    state: StateView,
    channel_id: Seq<char>,
    keys: Seq<CommitmentKey>,
    replies: Seq<Option<Seq<u8>>>,
)
    requires
        asks_for_channel(state, channel_id, keys),
        replies.len() == keys.len(),
        state.pending.dom().finite(),
    ensures
        sign_pass(state, keys, replies).pending.dom().finite(),
        sign_pass(state, keys, replies).pending.len() + sign_pass(state, keys, replies).ready.len()
            == state.pending.len() + state.ready.len(),
{
    assert forall|i: int| 0 <= i < keys.len() implies state.pending.contains_key(
        #[trigger] keys[i],
    ) by {
        assert(keys.contains(keys[i]));
    }
    lemma_pass_conserves(state, keys, replies);
}

/// The count behind [`signing_conserves`], for any keys that are pending, each once.
proof fn lemma_pass_conserves(
    state: StateView,
    keys: Seq<CommitmentKey>,
    replies: Seq<Option<Seq<u8>>>,
)
    requires
        keys.no_duplicates(),
        forall|i: int| 0 <= i < keys.len() ==> state.pending.contains_key(#[trigger] keys[i]),
        replies.len() == keys.len(),
        state.pending.dom().finite(),
    ensures
        sign_pass(state, keys, replies).pending.dom().finite(),
        sign_pass(state, keys, replies).pending.len() + sign_pass(state, keys, replies).ready.len()
            == state.pending.len() + state.ready.len(),
    decreases keys.len(),
{
    if keys.len() == 0 {
        assert(sign_pass(state, keys, replies).pending =~= state.pending);
        assert(sign_pass(state, keys, replies).ready =~= state.ready);
    } else {
        let keys0 = keys.drop_last();
        let replies0 = replies.drop_last();
        assert forall|i: int| 0 <= i < keys0.len() implies state.pending.contains_key(
            #[trigger] keys0[i],
        ) by {
            assert(keys0[i] == keys[i]);
        }
        lemma_pass_conserves(state, keys0, replies0);
        assert(keys0.push(keys.last()) =~= keys);
        assert(replies0.push(replies.last()) =~= replies);
        assert(!keys0.contains(keys.last()));
        assert(state.pending.contains_key(keys[keys.len() - 1]));
        lemma_sign_pass_step(state, keys0, replies0, keys.last(), replies.last());
    }
}

/// A commitment whose revocation secret is not known yet is tried again: after the pass the signer
/// is asked for it just as before.
pub proof fn refused_commitment_is_tried_again(
    state: StateView,
    channel_id: Seq<char>,
    keys: Seq<CommitmentKey>,
    replies: Seq<Option<Seq<u8>>>,
    i: int,
)
    requires
        asks_for_channel(state, channel_id, keys),
        replies.len() == keys.len(),
        0 <= i < keys.len(),
        replies[i] is None,
    ensures
        sign_pass(state, keys, replies).pending.contains_key(keys[i]),
        request_for(sign_pass(state, keys, replies), keys[i]) == request_for(state, keys[i]),
        forall|next: Seq<CommitmentKey>| #[trigger]
            asks_for_channel(sign_pass(state, keys, replies), channel_id, next) ==> next.contains(
                keys[i],
            ),
{
    signing_moves_or_keeps(state, channel_id, keys, replies, i);
    assert(keys.contains(keys[i]));
}

/// A commitment that was signed for is not tried in the next pass.
pub proof fn signed_commitment_is_not_tried_again(
    state: StateView,
    channel_id: Seq<char>,
    keys: Seq<CommitmentKey>,
    replies: Seq<Option<Seq<u8>>>,
    i: int,
    next: Seq<CommitmentKey>,
)
    requires
        asks_for_channel(state, channel_id, keys),
        replies.len() == keys.len(),
        0 <= i < keys.len(),
        blob_for(state, keys[i], replies[i]) is Some,
        asks_for_channel(sign_pass(state, keys, replies), channel_id, next),
    ensures
        !next.contains(keys[i]),
{
    signing_moves_or_keeps(state, channel_id, keys, replies, i);
}

/// A signer that knows no revocation secret changes nothing.
pub proof fn refusing_signer_changes_nothing(
    state: StateView,
    keys: Seq<CommitmentKey>,
    replies: Seq<Option<Seq<u8>>>,
)
    requires
        replies.len() == keys.len(),
        forall|i: int| 0 <= i < replies.len() ==> #[trigger] replies[i] is None,
    ensures
        sign_pass(state, keys, replies) == state,
{
    assert forall|i: int| 0 <= i < keys.len() implies blob_for(
        state,
        #[trigger] keys[i],
        replies[i],
    ) is None by {
        assert(replies[i] is None);
    }
    lemma_pass_without_blobs(state, keys, replies);
}

/// Signing again with the same answers changes nothing: what could be signed has left, and the rest
/// is answered as before.
pub proof fn signing_again_changes_nothing(
    state: StateView,
    channel_id: Seq<char>,
    keys: Seq<CommitmentKey>,
    next: Seq<CommitmentKey>,
    reply: spec_fn(CommitmentKey) -> Option<Seq<u8>>,
)
    requires
        asks_for_channel(state, channel_id, keys),
        asks_for_channel(sign_pass(state, keys, keys.map_values(reply)), channel_id, next),
    ensures
        sign_pass(
            sign_pass(state, keys, keys.map_values(reply)),
            next,
            next.map_values(reply),
        ) == sign_pass(state, keys, keys.map_values(reply)),
{
    let replies = keys.map_values(reply);
    let once = sign_pass(state, keys, replies);
    assert forall|i: int| 0 <= i < next.len() implies blob_for(
        once,
        #[trigger] next[i],
        next.map_values(reply)[i],
    ) is None by {
        let k = next[i];
        assert(next.contains(k));
        assert(once.pending.contains_key(k) && k.0 == channel_id);
        assert(keys.contains(k));
        let j = keys.index_of(k);
        assert(keys[j] == k);
        signing_moves_or_keeps(state, channel_id, keys, replies, j);
    }
    lemma_pass_without_blobs(once, next, next.map_values(reply));
}

/// A pass in which no blob comes changes nothing.
proof fn lemma_pass_without_blobs(
    state: StateView,
    keys: Seq<CommitmentKey>,
    replies: Seq<Option<Seq<u8>>>,
)
    requires
        replies.len() == keys.len(),
        forall|i: int| 0 <= i < keys.len() ==> blob_for(state, #[trigger] keys[i], replies[i]) is None,
    ensures
        sign_pass(state, keys, replies) == state,
{
    lemma_no_blobs(state, keys, replies);
    assert(sign_pass(state, keys, replies).pending =~= state.pending);
    assert(sign_pass(state, keys, replies).ready =~= state.ready);
}

/// Where no key gives a blob, there are none.
proof fn lemma_no_blobs(
    state: StateView,
    keys: Seq<CommitmentKey>,
    replies: Seq<Option<Seq<u8>>>,
)
    requires
        replies.len() == keys.len(),
        forall|i: int| 0 <= i < keys.len() ==> blob_for(state, #[trigger] keys[i], replies[i]) is None,
    ensures
        blobs_for(state, keys, replies) == Seq::<JusticeBlobView>::empty(),
    decreases keys.len(),
{
    if keys.len() > 0 {
        let keys0 = keys.drop_last();
        let replies0 = replies.drop_last();
        assert forall|i: int| 0 <= i < keys0.len() implies blob_for(
            state,
            #[trigger] keys0[i],
            replies0[i],
        ) is None by {
            assert(keys0[i] == keys[i]);
        }
        lemma_no_blobs(state, keys0, replies0);
        assert(keys[keys.len() - 1] == keys.last());
    }
}

/// The order in which pending commitments are tried does not matter, but for the order of the new
/// blobs: with the same reply for each, the same commitments stay and the same blobs come.
pub proof fn trying_order_does_not_matter(
    state: StateView,
    channel_id: Seq<char>,
    keys1: Seq<CommitmentKey>,
    keys2: Seq<CommitmentKey>,
    reply: spec_fn(CommitmentKey) -> Option<Seq<u8>>,
)
    requires
        asks_for_channel(state, channel_id, keys1),
        asks_for_channel(state, channel_id, keys2),
    ensures
        sign_pass(state, keys1, keys1.map_values(reply)).pending == sign_pass(
            state,
            keys2,
            keys2.map_values(reply),
        ).pending,
        blobs_for(state, keys1, keys1.map_values(reply)).to_multiset() == blobs_for(
            state,
            keys2,
            keys2.map_values(reply),
        ).to_multiset(),
{
    let replies1 = keys1.map_values(reply);
    let replies2 = keys2.map_values(reply);
    assert forall|k: CommitmentKey| keys1.contains(k) == #[trigger] keys2.contains(k) by {
        assert(keys1.contains(k) <==> (state.pending.contains_key(k) && k.0 == channel_id
            && request_for(state, k) is Some));
    }
    assert forall|k: CommitmentKey| #[trigger]
        is_signed(state, keys1, replies1, k) == is_signed(state, keys2, replies2, k) by {
        if is_signed(state, keys1, replies1, k) {
            assert(keys1.contains(k));
            assert(keys2.contains(k));
            assert(keys2[keys2.index_of(k)] == k);
        }
        if is_signed(state, keys2, replies2, k) {
            assert(keys2.contains(k));
            assert(keys1.contains(k));
            assert(keys1[keys1.index_of(k)] == k);
        }
    }
    assert(sign_pass(state, keys1, replies1).pending =~= sign_pass(
        state,
        keys2,
        replies2,
    ).pending);
    lemma_same_blobs(state, keys1, keys2, reply);
}

/// Two lists of the same keys, each once, lead to the same blobs.
proof fn lemma_same_blobs(
    state: StateView,
    keys1: Seq<CommitmentKey>,
    keys2: Seq<CommitmentKey>,
    reply: spec_fn(CommitmentKey) -> Option<Seq<u8>>,
)
    requires
        keys1.no_duplicates(),
        keys2.no_duplicates(),
        forall|k: CommitmentKey| keys1.contains(k) == #[trigger] keys2.contains(k),
    ensures
        blobs_for(state, keys1, keys1.map_values(reply)).to_multiset() == blobs_for(
            state,
            keys2,
            keys2.map_values(reply),
        ).to_multiset(),
    decreases keys1.len(),
{
    if keys1.len() == 0 {
        if keys2.len() > 0 {
            assert(keys2.contains(keys2[0]));
            assert(keys1.contains(keys2[0]));
        }
        assert(keys1 =~= keys2);
    } else {
        let last = keys1.last();
        assert(keys1[keys1.len() - 1] == last);
        assert(keys1.contains(last));
        assert(keys2.contains(last));
        let j = keys2.index_of(last);
        let keys1_rest = keys1.drop_last();
        let keys2_rest = keys2.remove(j);
        assert forall|k: CommitmentKey| keys1_rest.contains(k) == #[trigger] keys2_rest.contains(
            k,
        ) by {
            if keys1_rest.contains(k) {
                let i = keys1_rest.index_of(k);
                assert(keys1[i] == k);
                assert(keys1.contains(k));
                assert(keys2.contains(k));
                let m = keys2.index_of(k);
                if m < j {
                    assert(keys2_rest[m] == k);
                } else {
                    assert(keys2_rest[m - 1] == k);
                }
            }
            if keys2_rest.contains(k) {
                let m = keys2_rest.index_of(k);
                if m < j {
                    assert(keys2[m] == k);
                } else {
                    assert(keys2[m + 1] == k);
                }
                assert(keys2.contains(k));
                assert(keys1.contains(k));
                let i = keys1.index_of(k);
                assert(i < keys1.len() - 1);
                assert(keys1_rest[i] == k);
            }
        }
        lemma_same_blobs(state, keys1_rest, keys2_rest, reply);
        lemma_blobs_without(state, keys1, keys1.len() - 1, reply);
        lemma_blobs_without(state, keys2, j, reply);
        assert(keys1.remove(keys1.len() - 1) =~= keys1_rest);
    }
}

/// Leaving one key out leaves its blob out.
proof fn lemma_blobs_without(
    state: StateView,
    keys: Seq<CommitmentKey>,
    j: int,
    reply: spec_fn(CommitmentKey) -> Option<Seq<u8>>,
)
    requires
        0 <= j < keys.len(),
    ensures
        blobs_for(state, keys, keys.map_values(reply)).to_multiset() == match blob_for(
            state,
            keys[j],
            reply(keys[j]),
        ) {
            Some(blob) => blobs_for(
                state,
                keys.remove(j),
                keys.remove(j).map_values(reply),
            ).to_multiset().insert(blob),
            None => blobs_for(
                state,
                keys.remove(j),
                keys.remove(j).map_values(reply),
            ).to_multiset(),
        },
    decreases keys.len(),
{
    broadcast use vstd::seq_lib::to_multiset_build;

    let without = keys.remove(j);
    let keys0 = keys.drop_last();
    assert(keys.map_values(reply).drop_last() =~= keys0.map_values(reply));
    if j == keys.len() - 1 {
        assert(without =~= keys0);
    } else {
        lemma_blobs_without(state, keys0, j, reply);
        assert(without.drop_last() =~= keys0.remove(j));
        assert(without.map_values(reply).drop_last() =~= keys0.remove(j).map_values(reply));
        assert(without.last() == keys.last());
        let rest = blobs_for(state, keys0.remove(j), keys0.remove(j).map_values(reply));
        if let Some(blob) = blob_for(state, keys[j], reply(keys[j])) {
            if let Some(last) = blob_for(state, keys.last(), reply(keys.last())) {
                assert(rest.to_multiset().insert(blob).insert(last)
                    =~= rest.to_multiset().insert(last).insert(blob));
            }
        }
    }
}

/// A blob with the sizes that a tower expects fits a JusticeKit V0 of 274 bytes: the length of the
/// address, the address in 42 bytes, the two keys, the lock time in 4 bytes, the signature, 33
/// bytes for the to-remote key and room for its signature.
pub proof fn blob_fits_a_justice_kit(blob: JusticeBlobView)
    requires
        has_tower_sizes(blob),
    ensures
        1 + MAX_SWEEP_ADDRESS_LEN + blob.revocation_pubkey.len() + blob.local_delay_pubkey.len() + 4
            + blob.to_local_sig.len() + 33 + 64 == 274,
        blob.sweep_address.len() <= MAX_SWEEP_ADDRESS_LEN,
        blob.to_remote_pubkey.len() <= 33,
        blob.to_remote_sig.len() <= 64,
{
}

/// The blobs of a pass have the sizes that a tower expects.
pub proof fn signed_blobs_have_tower_sizes(
    state: StateView,
    keys: Seq<CommitmentKey>,
    replies: Seq<Option<Seq<u8>>>,
)
    requires
        state.sweep_address is Some,
        are_genuine(state),
        forall|i: int| 0 <= i < keys.len() ==> state.pending.contains_key(#[trigger] keys[i]),
        replies.len() == keys.len(),
        have_compact_sigs(replies),
    ensures
        forall|i: int|
            0 <= i < blobs_for(state, keys, replies).len() ==> has_tower_sizes(
                #[trigger] blobs_for(state, keys, replies)[i],
            ),
    decreases keys.len(),
{
    if keys.len() > 0 {
        let keys0 = keys.drop_last();
        let replies0 = replies.drop_last();
        assert forall|i: int| 0 <= i < keys0.len() implies state.pending.contains_key(
            #[trigger] keys0[i],
        ) by {
            assert(keys0[i] == keys[i]);
        }
        assert forall|i: int| 0 <= i < replies0.len() implies has_compact_sig(
            #[trigger] replies0[i],
        ) by {
            assert(replies0[i] == replies[i]);
        }
        signed_blobs_have_tower_sizes(state, keys0, replies0);
        let n = keys.len() - 1;
        assert(state.pending.contains_key(keys[n]));
        assert(has_compact_sig(replies[n]));
        let before = blobs_for(state, keys0, replies0);
        let all = blobs_for(state, keys, replies);
        if let Some(blob) = blob_for(state, keys[n], replies[n]) {
            assert(has_tower_sizes(blob));
        }
        assert forall|i: int| 0 <= i < all.len() implies has_tower_sizes(#[trigger] all[i]) by {
            if i < before.len() {
                assert(all[i] == before[i]);
            }
        }
    }
}

// ---------------------------------------------------------------------------
// Runs
// ---------------------------------------------------------------------------
/// What one call does: a capture, a signing pass, a new sweep address or a drain.
pub enum Step {
    /// Commitments of a channel are captured.
    Capture { channel_id: Seq<char>, shown: Seq<ShownView> },
    /// The commitments of a channel are tried, with the signer's reply for each.
    Sign { channel_id: Seq<char>, keys: Seq<CommitmentKey>, replies: Seq<Option<Seq<u8>>> },
    /// The sweep address is set.
    SetSweepAddress { address: Seq<u8> },
    /// The ready blobs are taken out.
    Drain,
}

/// Whether a step can be taken from a state. Without a sweep address nothing is tried.
pub open spec fn can_step(state: StateView, step: Step) -> bool {
    match step {
        Step::Capture { channel_id, shown } => shows_genuine(shown),
        Step::Sign { channel_id, keys, replies } => {
            &&& state.sweep_address is Some
            &&& asks_for_channel(state, channel_id, keys)
            &&& replies.len() == keys.len()
            &&& have_compact_sigs(replies)
        },
        Step::SetSweepAddress { address } => true,
        Step::Drain => true,
    }
}

/// The state after a step.
pub open spec fn stepped(state: StateView, step: Step) -> StateView {
    match step {
        Step::Capture { channel_id, shown } => captured(state, channel_id, shown),
        Step::Sign { channel_id, keys, replies } => sign_pass(state, keys, replies),
        Step::SetSweepAddress { address } => StateView { sweep_address: Some(address), ..state },
        Step::Drain => drained(state),
    }
}

/// The state after some steps, one after the other.
pub open spec fn ran(state: StateView, steps: Seq<Step>) -> StateView
    decreases steps.len(),
{
    if steps.len() == 0 {
        state
    } else {
        stepped(ran(state, steps.drop_last()), steps.last())
    }
}

/// Whether each of some steps can be taken, one after the other.
pub open spec fn can_run(state: StateView, steps: Seq<Step>) -> bool
    decreases steps.len(),
{
    steps.len() > 0 ==> {
        &&& can_run(state, steps.drop_last())
        &&& can_step(ran(state, steps.drop_last()), steps.last())
    }
}

/// The blobs that a step brings.
pub open spec fn blobs_of_step(state: StateView, step: Step) -> Seq<JusticeBlobView> {
    match step {
        Step::Sign { channel_id, keys, replies } => blobs_for(state, keys, replies),
        _ => Seq::empty(),
    }
}

/// The blobs that a step takes out.
pub open spec fn drain_of_step(state: StateView, step: Step) -> Seq<JusticeBlobView> {
    match step {
        Step::Drain => state.ready,
        _ => Seq::empty(),
    }
}

/// All blobs that a run brings, in order.
pub open spec fn blobs_signed(state: StateView, steps: Seq<Step>) -> Seq<JusticeBlobView>
    decreases steps.len(),
{
    if steps.len() == 0 {
        Seq::empty()
    } else {
        blobs_signed(state, steps.drop_last()) + blobs_of_step(
            ran(state, steps.drop_last()),
            steps.last(),
        )
    }
}

/// All blobs that a run takes out, in order.
pub open spec fn blobs_drained(state: StateView, steps: Seq<Step>) -> Seq<JusticeBlobView>
    decreases steps.len(),
{
    if steps.len() == 0 {
        Seq::empty()
    } else {
        blobs_drained(state, steps.drop_last()) + drain_of_step(
            ran(state, steps.drop_last()),
            steps.last(),
        )
    }
}

/// Trying to sign is a step, or changes nothing.
pub proof fn signing_is_a_step<F: Fn(Vec<u8>, usize, u64, u64) -> Result<Vec<u8>, ()>>(
    sign: F,
    before: StateView,
    channel_id: Seq<char>,
    after: StateView,
)
    requires
        is_signing_outcome(sign, before, channel_id, after),
    ensures
        after == before || exists|step: Step|
            can_step(before, step) && after == #[trigger] stepped(before, step),
{
    if before.sweep_address is Some {
        let (keys, replies) = choose|
            keys: Seq<CommitmentKey>,
            replies: Seq<Option<Seq<u8>>>,
        |
            {
                &&& asks_for_channel(before, channel_id, keys)
                &&& are_replies(sign, before, keys, replies)
                &&& have_compact_sigs(replies)
                &&& after == #[trigger] sign_pass(before, keys, replies)
            };
        let step = Step::Sign { channel_id, keys, replies };
        assert(can_step(before, step) && after == stepped(before, step));
    }
}

/// What holds of every state: each pending commitment is genuine and stands under its own channel
/// and number, no blob is ready before a sweep address was set, each ready blob has the sizes that a
/// tower expects, and the fee rate is the one it began with.
pub open spec fn is_consistent(state: StateView) -> bool {
    &&& state.pending.dom().finite()
    &&& are_genuine(state)
    &&& forall|k: CommitmentKey| #[trigger]
        state.pending.contains_key(k) ==> state.pending[k] == pending_of(
            k.0,
            state.pending[k].commitment_tx,
        ) && state.pending[k].commitment_number == k.1
    &&& state.sweep_address is None ==> state.ready.len() == 0
    &&& forall|i: int| 0 <= i < state.ready.len() ==> has_tower_sizes(#[trigger] state.ready[i])
    &&& state.sweep_fee_rate == DEFAULT_SWEEP_FEE_RATE
}

/// Each step leads from a consistent state to a consistent one.
pub proof fn steps_keep_consistency(state: StateView, step: Step)
    requires
        is_consistent(state),
        can_step(state, step),
    ensures
        is_consistent(stepped(state, step)),
{
    match step {
        Step::Capture { channel_id, shown } => {
            lemma_capture_keeps_consistency(state, channel_id, shown);
        },
        Step::Sign { channel_id, keys, replies } => {
            let after = sign_pass(state, keys, replies);
            signing_conserves(state, channel_id, keys, replies);
            assert forall|i: int| 0 <= i < keys.len() implies state.pending.contains_key(
                #[trigger] keys[i],
            ) by {
                assert(keys.contains(keys[i]));
            }
            signed_blobs_have_tower_sizes(state, keys, replies);
            let blobs = blobs_for(state, keys, replies);
            assert forall|i: int| 0 <= i < after.ready.len() implies has_tower_sizes(
                #[trigger] after.ready[i],
            ) by {
                if i < state.ready.len() {
                    assert(after.ready[i] == state.ready[i]);
                } else {
                    assert(after.ready[i] == blobs[i - state.ready.len()]);
                }
            }
            assert forall|k: CommitmentKey| #[trigger]
                after.pending.contains_key(k) implies state.pending.contains_key(k)
                && after.pending[k] == state.pending[k] by {}
        },
        _ => {},
    }
}

/// Trying to sign leads from a consistent state to a consistent one, whatever the signer replies.
pub proof fn signing_keeps_consistency<F: Fn(Vec<u8>, usize, u64, u64) -> Result<Vec<u8>, ()>>(
    sign: F,
    before: StateView,
    channel_id: Seq<char>,
    after: StateView,
)
    requires
        is_consistent(before),
        is_signing_outcome(sign, before, channel_id, after),
    ensures
        is_consistent(after),
{
    signing_is_a_step(sign, before, channel_id, after);
    if after != before {
        let step = choose|step: Step|
            can_step(before, step) && after == #[trigger] stepped(before, step);
        steps_keep_consistency(before, step);
    }
}

/// Capturing keeps a state consistent.
proof fn lemma_capture_keeps_consistency(
    state: StateView,
    channel_id: Seq<char>,
    shown: Seq<ShownView>,
)
    requires
        is_consistent(state),
        shows_genuine(shown),
    ensures
        is_consistent(captured(state, channel_id, shown)),
    decreases shown.len(),
{
    if shown.len() > 0 {
        let rest = shown.drop_last();
        assert forall|i: int| 0 <= i < rest.len() implies (#[trigger] rest[i].commitment() matches Some(
            commitment,
        ) ==> is_genuine(commitment)) by {
            assert(rest[i] == shown[i]);
        }
        lemma_capture_keeps_consistency(state, channel_id, rest);
        assert(shown[shown.len() - 1].commitment() == shown.last().commitment());
    }
}

/// Every state that calls can lead to from the first is consistent, and every blob that was taken
/// out on the way has the sizes that a tower expects.
pub proof fn runs_stay_consistent(steps: Seq<Step>)
    requires
        can_run(initial_state(), steps),
    ensures
        is_consistent(ran(initial_state(), steps)),
        forall|i: int|
            0 <= i < blobs_drained(initial_state(), steps).len() ==> has_tower_sizes(
                #[trigger] blobs_drained(initial_state(), steps)[i],
            ),
    decreases steps.len(),
{
    if steps.len() > 0 {
        let rest = steps.drop_last();
        runs_stay_consistent(rest);
        steps_keep_consistency(ran(initial_state(), rest), steps.last());
        let before = blobs_drained(initial_state(), rest);
        let all = blobs_drained(initial_state(), steps);
        assert forall|i: int| 0 <= i < all.len() implies has_tower_sizes(#[trigger] all[i]) by {
            if i < before.len() {
                assert(all[i] == before[i]);
            }
        }
    }
}

/// The drains of a run add up: what they took out, and then what is still ready, is what was ready
/// at first and then all blobs that were signed since, in order.
pub proof fn drains_add_up(state: StateView, steps: Seq<Step>)
    ensures
        blobs_drained(state, steps) + ran(state, steps).ready == state.ready + blobs_signed(
            state,
            steps,
        ),
    decreases steps.len(),
{
    if steps.len() == 0 {
        assert(blobs_drained(state, steps) + ran(state, steps).ready =~= state.ready + blobs_signed(
            state,
            steps,
        ));
    } else {
        let rest = steps.drop_last();
        let before = ran(state, rest);
        drains_add_up(state, rest);
        if let Step::Capture { channel_id, shown } = steps.last() {
            capture_touches_one_channel(before, channel_id, shown);
        }
        assert(blobs_drained(state, steps) + ran(state, steps).ready =~= (blobs_drained(state, rest)
            + before.ready) + blobs_of_step(before, steps.last()));
        assert(state.ready + blobs_signed(state, steps) =~= (state.ready + blobs_signed(state, rest))
            + blobs_of_step(before, steps.last()));
    }
}

/// Whether the signer's reply in this step makes a blob of the commitment under `key`.
pub open spec fn signs(state: StateView, step: Step, key: CommitmentKey) -> bool {
    match step {
        Step::Sign { channel_id, keys, replies } => is_signed(state, keys, replies, key),
        _ => false,
    }
}

/// Whether a step captures a commitment under `key`.
pub open spec fn captures(step: Step, key: CommitmentKey) -> bool {
    match step {
        Step::Capture { channel_id, shown } => key.0 == channel_id && latest_with_number(
            shown,
            key.1,
        ) is Some,
        _ => false,
    }
}

/// In how many steps of a run the commitment under `key` was made a blob of.
pub open spec fn times_signed(state: StateView, steps: Seq<Step>, key: CommitmentKey) -> nat
    decreases steps.len(),
{
    if steps.len() == 0 {
        0
    } else {
        let before = times_signed(state, steps.drop_last(), key);
        if signs(ran(state, steps.drop_last()), steps.last(), key) {
            before + 1
        } else {
            before
        }
    }
}

/// A commitment stays pending, as it is, until a reply brings its signature, and then leaves with
/// one blob: over any run that captures nothing else under its number, it is made a blob of just
/// once if it has left, and never if it is still pending.
pub proof fn pending_commitment_gives_one_blob(
    state: StateView,
    steps: Seq<Step>,
    key: CommitmentKey,
)
    requires
        can_run(state, steps),
        state.pending.contains_key(key),
        forall|i: int| 0 <= i < steps.len() ==> !captures(#[trigger] steps[i], key),
    ensures
        ran(state, steps).pending.contains_key(key) ==> ran(state, steps).pending[key]
            == state.pending[key],
        times_signed(state, steps, key) == if ran(state, steps).pending.contains_key(key) {
            0nat
        } else {
            1nat
        },
    decreases steps.len(),
{
    if steps.len() > 0 {
        let rest = steps.drop_last();
        let before = ran(state, rest);
        assert forall|i: int| 0 <= i < rest.len() implies !captures(#[trigger] rest[i], key) by {
            assert(rest[i] == steps[i]);
        }
        pending_commitment_gives_one_blob(state, rest, key);
        assert(!captures(steps[steps.len() - 1], key));
        match steps.last() {
            Step::Capture { channel_id, shown } => {
                capture_keeps_or_replaces(before, channel_id, shown, key);
            },
            Step::Sign { channel_id, keys, replies } => {
                if is_signed(before, keys, replies, key) {
                    assert(keys.contains(key));
                }
            },
            _ => {},
        }
    }
}

/// The step that makes a blob of a pending commitment brings the blob that the signer's reply leads
/// to, and takes the commitment out.
pub proof fn signed_commitment_leaves_with_its_blob(
    state: StateView,
    channel_id: Seq<char>,
    keys: Seq<CommitmentKey>,
    replies: Seq<Option<Seq<u8>>>,
    key: CommitmentKey,
)
    requires
        can_step(state, Step::Sign { channel_id, keys, replies }),
        signs(state, Step::Sign { channel_id, keys, replies }, key),
    ensures
        !stepped(state, Step::Sign { channel_id, keys, replies }).pending.contains_key(key),
        exists|i: int|
            {
                &&& 0 <= i < keys.len()
                &&& #[trigger] keys[i] == key
                &&& blob_for(state, key, replies[i]) matches Some(blob)
                &&& blobs_of_step(state, Step::Sign { channel_id, keys, replies }).contains(blob)
            },
{
    let i = choose|i: int|
        0 <= i < keys.len() && #[trigger] keys[i] == key && blob_for(
            state,
            key,
            replies[i],
        ) is Some;
    signing_moves_or_keeps(state, channel_id, keys, replies, i);
}

/// Draining again gives nothing new and changes nothing.
pub proof fn draining_twice_gives_nothing_more(state: StateView)
    ensures
        drained(state).ready.len() == 0,
        drained(drained(state)) == drained(state),
{
}

// ---------------------------------------------------------------------------
// The lock time
// ---------------------------------------------------------------------------
/// A lock time is reported for every output, and it is one that an output can have; where one
/// fits, the reported one fits, and is no longer.
pub proof fn csv_delay_fits(
    revocation_key: Seq<u8>,
    delayed_key: Seq<u8>,
    output_script: Seq<u8>,
    delay: u16,
)
    ensures
        csv_delay_of(revocation_key, delayed_key, output_script) <= MAX_CSV_DELAY,
        pays_with_delay(revocation_key, delayed_key, output_script, delay) ==> {
            &&& csv_delay_of(revocation_key, delayed_key, output_script) <= delay
            &&& pays_with_delay(
                revocation_key,
                delayed_key,
                output_script,
                csv_delay_of(revocation_key, delayed_key, output_script) as u16,
            )
        },
{
    lemma_csv_delay_exists(revocation_key, delayed_key, output_script);
}

/// The reported lock time is the output's own, unless two lock times have scripts with the same
/// hash.
pub proof fn csv_delay_is_the_outputs_own(
    revocation_key: Seq<u8>,
    delayed_key: Seq<u8>,
    output_script: Seq<u8>,
    delay: u16,
)
    requires
        pays_with_delay(revocation_key, delayed_key, output_script, delay),
        forall|d: u16, e: u16|
            p2wsh_of(#[trigger] revokeable_redeemscript_of(revocation_key, d, delayed_key))
                == p2wsh_of(#[trigger] revokeable_redeemscript_of(revocation_key, e, delayed_key))
                ==> revokeable_redeemscript_of(revocation_key, d, delayed_key)
                == revokeable_redeemscript_of(revocation_key, e, delayed_key),
    ensures
        csv_delay_of(revocation_key, delayed_key, output_script) == delay,
{
    csv_delay_fits(revocation_key, delayed_key, output_script, delay);
    let found = csv_delay_of(revocation_key, delayed_key, output_script) as u16;
    assert(revokeable_redeemscript_of(revocation_key, found, delayed_key)
        == revokeable_redeemscript_of(revocation_key, delay, delayed_key));
    redeemscripts_tell_delays_apart(revocation_key, delayed_key, found, delay);
}

/// A request for a genuine commitment reports a lock time with which the revokeable output pays.
pub proof fn requested_delay_is_of_the_output(
    commitment: CommitmentView,
    commitment_number: u64,
    justice_tx: Option<Seq<u8>>,
)
    requires
        has_genuine_revokeable_output(commitment),
        request_with(commitment, commitment_number, justice_tx) is Some,
    ensures
        request_with(commitment, commitment_number, justice_tx)->0.csv_delay <= MAX_CSV_DELAY,
        pays_with_delay(
            commitment.revocation_key,
            commitment.delayed_key,
            commitment.outputs[commitment.revokeable_output_index->0 as int].1,
            request_with(commitment, commitment_number, justice_tx)->0.csv_delay as u16,
        ),
{
    let script = commitment.outputs[commitment.revokeable_output_index->0 as int].1;
    let delay = choose|delay: u16| #[trigger]
        pays_with_delay(commitment.revocation_key, commitment.delayed_key, script, delay);
    csv_delay_fits(commitment.revocation_key, commitment.delayed_key, script, delay);
}

/// For a commitment whose revokeable output is what it should be, a built justice transaction is
/// all that a request needs.
pub proof fn built_justice_tx_is_requested(
    commitment: CommitmentView,
    commitment_number: u64,
    justice_tx: Seq<u8>,
)
    requires
        has_genuine_revokeable_output(commitment),
    ensures
        request_with(commitment, commitment_number, Some(justice_tx)) is Some
            <==> commitment.revokeable_output_index is Some,
{
}

/// The transaction that the signer is asked to sign for a genuine commitment spends the revokeable
/// output and pays what it holds, less the fee, to the sweep address: it is the sweep of that
/// output, whose input names the commitment and the output, and whose last output ends in the
/// address.
pub proof fn justice_tx_sweeps_the_revokeable_output(
    commitment: CommitmentView,
    commitment_number: u64,
    fee_rate: u64,
    sweep_address: Seq<u8>,
    request: JusticeRequestView,
)
    requires
        is_genuine(commitment),
        request_of(commitment, commitment_number, fee_rate, sweep_address) == Some(request),
    ensures
        commitment.revokeable_output_index is Some,
        request.output_value == commitment.outputs[commitment.revokeable_output_index->0 as int].0,
        justice_fee(fee_rate, sweep_address.len()) <= request.output_value,
        request.justice_tx == sweep_tx_of(
            request.breach_txid,
            commitment.revokeable_output_index->0 as nat,
            (request.output_value - justice_fee(fee_rate, sweep_address.len())) as nat,
            sweep_address,
        ),
        request.justice_tx.subrange(5, 37) == request.breach_txid,
        request.justice_tx.subrange(37, 41) == le_bytes(
            commitment.revokeable_output_index->0 as nat,
            4,
        ),
        request.justice_tx.subrange(47, 55) == le_bytes(
            (request.output_value - justice_fee(fee_rate, sweep_address.len())) as nat,
            8,
        ),
        request.justice_tx.subrange(
            request.justice_tx.len() - 4 - sweep_address.len(),
            request.justice_tx.len() - 4,
        ) == sweep_address,
{
    let index = commitment.revokeable_output_index->0 as nat;
    let value = (request.output_value - justice_fee(fee_rate, sweep_address.len())) as nat;
    let tx = request.justice_tx;
    assert(tx == sweep_tx_of(request.breach_txid, index, value, sweep_address));
    lemma_le_bytes_len(index, 4);
    lemma_le_bytes_len(value, 8);
    assert(tx.subrange(5, 37) =~= request.breach_txid);
    assert(tx.subrange(37, 41) =~= le_bytes(index, 4));
    assert(tx.subrange(47, 55) =~= le_bytes(value, 8));
    assert(tx.subrange(tx.len() - 4 - sweep_address.len(), tx.len() - 4) =~= sweep_address);
}

/// A number is written in as many bytes as asked for.
proof fn lemma_le_bytes_len(n: nat, count: nat)
    ensures
        le_bytes(n, count).len() == count,
    decreases count,
{
    if count > 0 {
        lemma_le_bytes_len(n / 256, (count - 1) as nat);
    }
}

/// To-local scripts with different lock times are different.
pub proof fn redeemscripts_tell_delays_apart(
    revocation_key: Seq<u8>,
    delayed_key: Seq<u8>,
    delay1: u16,
    delay2: u16,
)
    requires
        revokeable_redeemscript_of(revocation_key, delay1, delayed_key)
            == revokeable_redeemscript_of(revocation_key, delay2, delayed_key),
    ensures
        delay1 == delay2,
{
    let script1 = revokeable_redeemscript_of(revocation_key, delay1, delayed_key);
    let script2 = revokeable_redeemscript_of(revocation_key, delay2, delayed_key);
    let start = revocation_key.len() + 3;
    assert(delay_push(delay1).len() == delay_push(delay2).len()) by {
        assert(script1.len() == script2.len());
    }
    assert forall|i: int| 0 <= i < delay_push(delay1).len() implies delay_push(delay1)[i]
        == delay_push(delay2)[i] by {
        assert(script1[start + i] == delay_push(delay1)[i]);
        assert(script2[start + i] == delay_push(delay2)[i]);
    }
    assert(delay_push(delay1)[0] == delay_push(delay2)[0]);
    if delay1 > 16 && delay2 > 16 {
        assert(delay_push(delay1)[1] == delay_push(delay2)[1]);
        if delay1 > 0x7f && delay2 > 0x7f {
            assert(delay_push(delay1)[2] == delay_push(delay2)[2]);
        }
    }
}

/// There is a lock time to report.
proof fn lemma_csv_delay_exists(
    revocation_key: Seq<u8>,
    delayed_key: Seq<u8>,
    output_script: Seq<u8>,
)
    ensures
        is_csv_delay(
            revocation_key,
            delayed_key,
            output_script,
            csv_delay_of(revocation_key, delayed_key, output_script),
        ),
{
    if exists|d: u16| #[trigger]
        pays_with_delay(revocation_key, delayed_key, output_script, d) {
        let d = choose|d: u16| #[trigger]
            pays_with_delay(revocation_key, delayed_key, output_script, d);
        let least = lemma_least_fit(revocation_key, delayed_key, output_script, d);
        assert(is_csv_delay(revocation_key, delayed_key, output_script, least as u32));
    } else {
        assert(is_csv_delay(revocation_key, delayed_key, output_script, DEFAULT_CSV_DELAY));
    }
}

/// Where a lock time fits, there is a shortest one that does.
proof fn lemma_least_fit(
    revocation_key: Seq<u8>,
    delayed_key: Seq<u8>,
    output_script: Seq<u8>,
    delay: u16,
) -> (least: u16)
    requires
        pays_with_delay(revocation_key, delayed_key, output_script, delay),
    ensures
        pays_with_delay(revocation_key, delayed_key, output_script, least),
        forall|d: u16| #[trigger]
            pays_with_delay(revocation_key, delayed_key, output_script, d) ==> least <= d,
    decreases delay,
{
    if exists|d: u16|
        d < delay && #[trigger] pays_with_delay(revocation_key, delayed_key, output_script, d) {
        let d = choose|d: u16|
            d < delay && #[trigger] pays_with_delay(revocation_key, delayed_key, output_script, d);
        lemma_least_fit(revocation_key, delayed_key, output_script, d)
    } else {
        delay
    }
}

// ---------------------------------------------------------------------------
// The to-remote key
// ---------------------------------------------------------------------------
/// The to-remote key of a commitment is the key that one of its outputs, other than the revokeable
/// one, pays to; where there is none, no other output pays to the key that was given.
pub proof fn to_remote_key_is_paid(shown: ShownView, commitment: CommitmentView)
    requires
        shown.commitment() == Some(commitment),
    ensures
        commitment.to_remote_key matches Some(key) ==> {
            &&& shown.payment_key == Some(key)
            &&& payment_script_of(shown.encoded, Some(key)) matches Some(script)
            &&& exists|i: int| #[trigger]
                is_to_remote_output(
                    commitment.outputs,
                    commitment.revokeable_output_index,
                    script,
                    i,
                )
        },
        commitment.to_remote_key is None && shown.payment_key is Some ==> (payment_script_of(
            shown.encoded,
            shown.payment_key,
        ) matches Some(script) ==> forall|i: int|
            !#[trigger] is_to_remote_output(
                commitment.outputs,
                commitment.revokeable_output_index,
                script,
                i,
            )),
{
    let script = payment_script_of(shown.encoded, shown.payment_key);
    if commitment.to_remote_key is Some {
        let i = choose|i: int| #[trigger]
            is_to_remote_output(
                commitment.outputs,
                commitment.revokeable_output_index,
                script->0,
                i,
            );
        assert(is_to_remote_output(
            commitment.outputs,
            commitment.revokeable_output_index,
            script->0,
            i,
        ));
    }
}

/// A commitment whose only output is the revokeable one has no to-remote key.
pub proof fn lone_revokeable_output_has_no_to_remote_key(
    shown: ShownView,
    commitment: CommitmentView,
)
    requires
        shown.commitment() == Some(commitment),
        commitment.revokeable_output_index == Some(0usize),
        commitment.outputs.len() == 1,
    ensures
        commitment.to_remote_key is None,
{
}

// ---------------------------------------------------------------------------
// Identifiers and exports
// ---------------------------------------------------------------------------
/// Different channels have different texts, so no channel's commitments stand under another's
/// name.
pub proof fn channel_texts_are_distinct(a: Seq<u8>, b: Seq<u8>)
    requires
        hex(a) == hex(b),
    ensures
        a == b,
{
    assert(hex(a).len() == 2 * a.len());
    assert(hex(b).len() == 2 * b.len());
    assert forall|i: int| 0 <= i < a.len() implies a[i] == b[i] by {
        assert(hex(a)[2 * i] == hex_digit(a[i] as int / 16));
        assert(hex(b)[2 * i] == hex_digit(b[i] as int / 16));
        assert(hex(a)[2 * i + 1] == hex_digit(a[i] as int % 16));
        assert(hex(b)[2 * i + 1] == hex_digit(b[i] as int % 16));
        lemma_digits_are_distinct(a[i] as int / 16, b[i] as int / 16);
        lemma_digits_are_distinct(a[i] as int % 16, b[i] as int % 16);
    }
    assert(a =~= b);
}

/// Sixteen digits, sixteen numbers.
proof fn lemma_digits_are_distinct(m: int, n: int)
    requires
        0 <= m < 16,
        0 <= n < 16,
        hex_digit(m) == hex_digit(n),
    ensures
        m == n,
{
    reveal_strlit("0123456789abcdef");
}

/// Whether an entry is what the monitor that was looked up leads to.
pub open spec fn comes_of(
    info: MonitorInfoView,
    lookup: ([u8; 32], Result<MonitorSummary, ()>),
) -> bool {
    lookup.1 matches Ok(monitor) && info == info_of(lookup.0@, monitor)
}

/// The list names each monitor that was found, and no other.
pub proof fn every_found_monitor_is_listed(
    lookups: Seq<([u8; 32], Result<MonitorSummary, ()>)>,
)
    ensures
        forall|i: int|
            0 <= i < lookups.len() && (#[trigger] lookups[i]).1 is Ok ==> exists|j: int|
                0 <= j < infos_of(lookups).len() && comes_of(
                    #[trigger] infos_of(lookups)[j],
                    lookups[i],
                ),
        forall|j: int|
            0 <= j < infos_of(lookups).len() ==> exists|i: int|
                0 <= i < lookups.len() && comes_of(
                    #[trigger] infos_of(lookups)[j],
                    #[trigger] lookups[i],
                ),
    decreases lookups.len(),
{
    if lookups.len() > 0 {
        let rest = lookups.drop_last();
        every_found_monitor_is_listed(rest);
        let before = infos_of(rest);
        let all = infos_of(lookups);
        assert forall|i: int|
            0 <= i < lookups.len() && (#[trigger] lookups[i]).1 is Ok implies exists|j: int|
            0 <= j < all.len() && comes_of(#[trigger] all[j], lookups[i]) by {
            if i < lookups.len() - 1 {
                assert(rest[i] == lookups[i]);
                let j = choose|j: int|
                    0 <= j < before.len() && comes_of(#[trigger] before[j], rest[i]);
                assert(all[j] == before[j]);
            } else {
                assert(comes_of(all[all.len() - 1], lookups[i]));
            }
        }
        assert forall|j: int| 0 <= j < all.len() implies exists|i: int|
            0 <= i < lookups.len() && comes_of(#[trigger] all[j], #[trigger] lookups[i]) by {
            if j < before.len() {
                assert(all[j] == before[j]);
                let i = choose|i: int|
                    0 <= i < rest.len() && comes_of(before[j], #[trigger] rest[i]);
                assert(lookups[i] == rest[i]);
            } else {
                assert(comes_of(all[j], lookups[lookups.len() - 1]));
            }
        }
    }
}

/// The list and the export agree: over the same monitors, they name the same channels and
/// counterparties with the same update ids, in the same order.
pub proof fn list_and_export_agree(
    summaries: Seq<([u8; 32], Result<MonitorSummary, ()>)>,
    exports: Seq<([u8; 32], Result<MonitorExport, ()>)>,
)
    requires
        summaries.len() == exports.len(),
        forall|i: int|
            0 <= i < summaries.len() ==> {
                &&& (#[trigger] summaries[i]).0 == exports[i].0
                &&& summaries[i].1 is Ok <==> exports[i].1 is Ok
                &&& summaries[i].1 is Ok ==> summaries[i].1->Ok_0.counterparty_node_id
                    == exports[i].1->Ok_0.counterparty_node_id
                &&& summaries[i].1 is Ok ==> summaries[i].1->Ok_0.latest_update_id
                    == exports[i].1->Ok_0.latest_update_id
            },
    ensures
        infos_of(summaries).len() == datas_of(exports).len(),
        forall|j: int|
            0 <= j < infos_of(summaries).len() ==> {
                &&& (#[trigger] infos_of(summaries)[j]).channel_id == datas_of(
                    exports,
                )[j].channel_id
                &&& infos_of(summaries)[j].counterparty_node_id == datas_of(
                    exports,
                )[j].counterparty_node_id
                &&& infos_of(summaries)[j].latest_update_id == datas_of(
                    exports,
                )[j].latest_update_id
            },
    decreases summaries.len(),
{
    if summaries.len() > 0 {
        let n = summaries.len() - 1;
        assert forall|i: int| 0 <= i < n implies {
            &&& (#[trigger] summaries.drop_last()[i]).0 == exports.drop_last()[i].0
            &&& summaries.drop_last()[i].1 is Ok <==> exports.drop_last()[i].1 is Ok
            &&& summaries.drop_last()[i].1 is Ok
                ==> summaries.drop_last()[i].1->Ok_0.counterparty_node_id
                == exports.drop_last()[i].1->Ok_0.counterparty_node_id
            &&& summaries.drop_last()[i].1 is Ok
                ==> summaries.drop_last()[i].1->Ok_0.latest_update_id
                == exports.drop_last()[i].1->Ok_0.latest_update_id
        } by {
            assert(summaries.drop_last()[i] == summaries[i]);
            assert(exports.drop_last()[i] == exports[i]);
        }
        list_and_export_agree(summaries.drop_last(), exports.drop_last());
        assert(summaries[n] == summaries.last());
    }
}

} // verus!
