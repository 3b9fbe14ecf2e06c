use bitcoin::consensus::encode;
use bitcoin::secp256k1::{ecdsa, All, Message, PublicKey, Secp256k1, SecretKey};
use bitcoin::sighash::{EcdsaSighashType, SighashCache};
use bitcoin::{Amount, ScriptBuf, Transaction, Txid, Witness};
use lightning::chain::transaction::OutPoint;
use lightning::ln::chan_utils::{
    derive_private_revocation_key, get_revokeable_redeemscript, ChannelPublicKeys,
    ChannelTransactionParameters, CommitmentTransaction, CounterpartyChannelTransactionParameters,
};
use lightning::ln::channel_keys::{
    DelayedPaymentBasepoint, DelayedPaymentKey, HtlcBasepoint, RevocationBasepoint, RevocationKey,
};
use lightning::types::features::ChannelTypeFeatures;
use lightning::util::ser::Writeable;
use watchtower::commitment::CounterpartyCommitment;
use watchtower::csv::csv_delay;
use watchtower::state::{first_item, to_local_sig, CommitmentSource, ShownCommitment};
use watchtower::WatchtowerPersister;

const CHANNEL: [u8; 32] = [0xc1; 32];
const OTHER_CHANNEL: [u8; 32] = [0xc2; 32];
const FIRST: u64 = (1 << 48) - 1;

fn secret(seed: u8) -> SecretKey {
    SecretKey::from_slice(&[seed; 32]).unwrap()
}

fn point(seed: u8) -> PublicKey {
    PublicKey::from_secret_key(&Secp256k1::new(), &secret(seed))
}

fn channel_keys(seed: u8) -> ChannelPublicKeys {
    ChannelPublicKeys {
        funding_pubkey: point(seed),
        revocation_basepoint: RevocationBasepoint(point(seed + 1)),
        payment_point: point(seed + 2),
        delayed_payment_basepoint: DelayedPaymentBasepoint(point(seed + 3)),
        htlc_basepoint: HtlcBasepoint(point(seed + 4)),
    }
}

fn parameters(delay: u16, features: ChannelTypeFeatures) -> ChannelTransactionParameters {
    ChannelTransactionParameters {
        holder_pubkeys: channel_keys(10),
        holder_selected_contest_delay: delay,
        is_outbound_from_holder: true,
        counterparty_parameters: Some(CounterpartyChannelTransactionParameters {
            pubkeys: channel_keys(20),
            selected_contest_delay: 6,
        }),
        funding_outpoint: Some(OutPoint {
            txid: <Txid as bitcoin::hashes::Hash>::from_byte_array([9; 32]),
            index: 0,
        }),
        splice_parent_funding_txid: None,
        channel_type_features: features,
        channel_value_satoshis: 1_000_000,
    }
}

/// The counterparty's secret behind the commitment with this number.
fn commitment_secret(number: u64) -> SecretKey {
    secret(100 + (FIRST - number) as u8)
}

fn commitment_of_type(
    number: u64,
    to_counterparty: u64,
    to_us: u64,
    delay: u16,
    features: ChannelTypeFeatures,
) -> CommitmentTransaction {
    let secp: Secp256k1<All> = Secp256k1::new();
    let per_commitment_point = PublicKey::from_secret_key(&secp, &commitment_secret(number));
    CommitmentTransaction::new(
        number,
        &per_commitment_point,
        to_counterparty,
        to_us,
        253,
        vec![],
        &parameters(delay, features).as_counterparty_broadcastable(),
        &secp,
    )
}

fn commitment(number: u64, to_counterparty: u64, delay: u16) -> CommitmentTransaction {
    commitment_of_type(
        number,
        to_counterparty,
        1_000_000 - to_counterparty,
        delay,
        ChannelTypeFeatures::only_static_remote_key(),
    )
}

/// The key that our side is paid with on the counterparty's commitments.
fn payment_key() -> [u8; 33] {
    point(12).serialize()
}

fn shown(tx: &CommitmentTransaction) -> ShownCommitment {
    ShownCommitment { encoded: tx.encode(), payment_key: Some(payment_key()) }
}

fn read(tx: &CommitmentTransaction) -> CounterpartyCommitment {
    CounterpartyCommitment::from_encoded(&tx.encode(), Some(payment_key())).unwrap()
}

fn sweep_address() -> Vec<u8> {
    let mut script = vec![0x00, 0x14];
    script.extend_from_slice(&[0x77; 20]);
    script
}

/// Signs as a monitor does that has the secrets of all numbers from `least_revoked` on.
fn sign_with(
    least_revoked: u64,
    delay: u16,
    tx: Vec<u8>,
    input: usize,
    value: u64,
    number: u64,
) -> Result<Vec<u8>, ()> {
    if number < least_revoked {
        return Err(());
    }
    let secp: Secp256k1<All> = Secp256k1::new();
    let mut tx: Transaction = encode::deserialize(&tx).unwrap();
    let built = commitment(number, 70_000, delay);
    let trusted = built.trust();
    let keys = trusted.keys();
    let script = get_revokeable_redeemscript(
        &keys.revocation_key,
        delay,
        &keys.broadcaster_delayed_payment_key,
    );
    let key = derive_private_revocation_key(&secp, &commitment_secret(number), &secret(11));
    let sighash = SighashCache::new(&tx)
        .p2wsh_signature_hash(input, &script, Amount::from_sat(value), EcdsaSighashType::All)
        .unwrap();
    let sig = secp.sign_ecdsa(&Message::from_digest(*AsRef::<[u8; 32]>::as_ref(&sighash)), &key);
    let mut witness = Witness::new();
    witness.push_ecdsa_signature(&bitcoin::ecdsa::Signature::sighash_all(sig));
    witness.push([1u8]);
    witness.push(script.as_bytes());
    tx.input[input].witness = witness;
    Ok(encode::serialize(&tx))
}

#[test]
fn an_encoded_commitment_is_read() {
    let tx = commitment(FIRST - 3, 70_000, 144);
    let trusted = tx.trust();
    let read = read(&tx);
    assert_eq!(read.commitment_number, FIRST - 3);
    assert_eq!(&read.txid[..], AsRef::<[u8]>::as_ref(&trusted.txid()));
    assert_eq!(read.revokeable_output_index, trusted.revokeable_output_index());
    assert_eq!(read.revokeable_output_index, Some(0));
    assert_eq!(read.outputs.len(), 2);
    assert_eq!(read.outputs[0].0, 70_000);
    assert_eq!(read.outputs[1].0, 930_000);
    let outputs = &trusted.built_transaction().transaction.output;
    assert_eq!(read.outputs[0].1, outputs[0].script_pubkey.to_bytes());
    assert_eq!(read.outputs[1].1, outputs[1].script_pubkey.to_bytes());
    assert_eq!(read.revocation_key, trusted.keys().revocation_key.0.serialize());
    assert_eq!(
        read.delayed_key,
        trusted.keys().broadcaster_delayed_payment_key.0.serialize()
    );
    assert_eq!(read.to_remote_key, Some(payment_key()));
    assert_eq!(read.encoded, tx.encode());
}

#[test]
fn other_bytes_are_not_read() {
    assert!(CounterpartyCommitment::from_encoded(&[], None).is_none());
    assert!(CounterpartyCommitment::from_encoded(&[0xff; 40], None).is_none());
    let mut cut = commitment(FIRST, 70_000, 144).encode();
    cut.pop();
    assert!(CounterpartyCommitment::from_encoded(&cut, None).is_none());
}

#[test]
fn a_request_holds_the_built_justice_transaction() {
    let tx = commitment(FIRST, 70_000, 144);
    let read = read(&tx);
    let request = read.prepare_justice(FIRST, 12500, &sweep_address()).unwrap();
    let built = tx
        .trust()
        .build_to_local_justice_tx(12500, ScriptBuf::from_bytes(sweep_address()))
        .unwrap();
    assert_eq!(request.justice_tx, encode::serialize(&built));
    assert_eq!(built.input.len(), 1);
    assert_eq!(request.output_value, 70_000);
    assert_eq!(request.commitment_number, FIRST);
    assert_eq!(request.csv_delay, 144);

    // Another fee rate or another address makes another transaction
    let cheaper = read.prepare_justice(FIRST, 253, &sweep_address()).unwrap();
    assert_ne!(cheaper.justice_tx, request.justice_tx);
    let elsewhere = read.prepare_justice(FIRST, 12500, &vec![0x51]).unwrap();
    assert_ne!(elsewhere.justice_tx, request.justice_tx);
}

#[test]
fn no_request_without_a_revokeable_output() {
    let tx = commitment(FIRST, 0, 144);
    let read = read(&tx);
    assert_eq!(read.revokeable_output_index, None);
    assert!(read.prepare_justice(FIRST, 12500, &sweep_address()).is_none());
}

#[test]
fn no_request_where_the_fee_is_more_than_the_output() {
    let tx = commitment(FIRST, 5_000, 144);
    let read = read(&tx);
    assert_eq!(read.revokeable_output_index, Some(0));
    assert!(read.prepare_justice(FIRST, 12500, &sweep_address()).is_none());
    assert!(read.prepare_justice(FIRST, 253, &sweep_address()).is_some());
}

#[test]
fn the_fee_decides_to_the_satoshi() {
    // 4 * (59 + 1 + 22) + 155 = 483 weight units, at 12500 sat/kw rounded up
    for (value, owed) in [(6_037u64, false), (6_038, true)] {
        let tx = commitment(FIRST, value, 144);
        let read = read(&tx);
        let request = read.prepare_justice(FIRST, 12500, &sweep_address());
        assert_eq!(request.is_some(), owed);
    }
    // 4 * (59 + 1 + 42) + 155 = 563 weight units, at 1000 sat/kw
    for (value, owed) in [(562u64, false), (563, true)] {
        let tx = commitment(FIRST, value, 144);
        let read = read(&tx);
        let request = read.prepare_justice(FIRST, 1000, &vec![0x6a; 42]);
        assert_eq!(request.is_some(), owed);
        // Only the lower half of a fee rate counts
        let request = read.prepare_justice(FIRST, (5 << 32) + 1000, &vec![0x6a; 42]);
        assert_eq!(request.is_some(), owed);
    }
}

#[test]
fn the_highest_fee_rate_is_no_fault() {
    // 563 * 0xffff_ffff / 1000, rounded up, is more than the output holds
    let read = read(&commitment(FIRST, 70_000, 144));
    assert!(read.prepare_justice(FIRST, u64::MAX, &vec![0x6a; 42]).is_none());
}

#[test]
fn no_request_for_an_address_that_a_kit_cannot_hold() {
    let read = read(&commitment(FIRST, 70_000, 144));
    assert!(read.prepare_justice(FIRST, 12500, &vec![0x6a; 42]).is_some());
    assert!(read.prepare_justice(FIRST, 12500, &vec![0x6a; 43]).is_none());
    assert!(read.prepare_justice(FIRST, 12500, &vec![0x6a; 300]).is_none());
    assert!(read.prepare_justice(FIRST, 12500, &vec![]).is_some());
}

#[test]
fn a_long_address_leaves_the_commitment_pending() {
    let mut persister = WatchtowerPersister::new();
    persister.set_sweep_address(vec![0x6a; 43]);
    persister.persist_new_channel(&CHANNEL, Some(shown(&commitment(FIRST, 70_000, 144))));
    // The signer is not asked at all
    persister.try_sign_pending(&CHANNEL, &|_, _, _, _| panic!("nothing to sign"));
    assert_eq!(persister.pending_count(), 1);
    assert_eq!(persister.ready_count(), 0);
    persister.set_sweep_address(vec![0x6a; 42]);
    persister.try_sign_pending(&CHANNEL, &|tx, input, value, number| {
        sign_with(FIRST, 144, tx, input, value, number)
    });
    let blobs = persister.drain_justice_blobs();
    assert_eq!(blobs.len(), 1);
    assert_eq!(blobs[0].sweep_address, vec![0x6a; 42]);
}

#[test]
fn the_to_remote_key_is_that_of_the_output() {
    for features in [
        ChannelTypeFeatures::only_static_remote_key(),
        ChannelTypeFeatures::anchors_zero_htlc_fee_and_dependencies(),
    ] {
        let tx = commitment_of_type(FIRST, 70_000, 900_000, 144, features);
        let read = read(&tx);
        assert_eq!(read.to_remote_key, Some(payment_key()));
        // It is not the HTLC key
        assert_ne!(
            read.to_remote_key,
            Some(tx.trust().keys().countersignatory_htlc_key.0.serialize())
        );
        let request = read.prepare_justice(FIRST, 12500, &sweep_address()).unwrap();
        assert_eq!(request.to_remote_key, Some(payment_key()));

        // Another key is paid by no output
        let other = Some(point(13).serialize());
        let read = CounterpartyCommitment::from_encoded(&tx.encode(), other).unwrap();
        assert_eq!(read.to_remote_key, None);
        // What is no key neither
        let read = CounterpartyCommitment::from_encoded(&tx.encode(), Some([0; 33])).unwrap();
        assert_eq!(read.to_remote_key, None);
        let read = CounterpartyCommitment::from_encoded(&tx.encode(), None).unwrap();
        assert_eq!(read.to_remote_key, None);
    }
}

#[test]
fn without_a_to_remote_output_its_key_is_empty() {
    for features in [
        ChannelTypeFeatures::only_static_remote_key(),
        ChannelTypeFeatures::anchors_zero_htlc_fee_and_dependencies(),
    ] {
        let tx = commitment_of_type(FIRST, 70_000, 0, 144, features);
        assert_eq!(read(&tx).to_remote_key, None);
        let mut persister = WatchtowerPersister::new();
        persister.set_sweep_address(sweep_address());
        persister.persist_new_channel(&CHANNEL, Some(shown(&tx)));
        persister.try_sign_pending(&CHANNEL, &|tx, input, value, number| {
            sign_with(FIRST, 144, tx, input, value, number)
        });
        let blobs = persister.drain_justice_blobs();
        assert_eq!(blobs.len(), 1);
        assert!(blobs[0].to_remote_pubkey.is_empty());
        assert_eq!(blobs[0].revocation_pubkey.len(), 33);
    }
}

#[test]
fn the_lock_time_is_found() {
    for delay in [1u16, 16, 17, 127, 128, 144, 255, 256, 720, 2016, 4032] {
        let tx = commitment(FIRST, 70_000, delay);
        let read = read(&tx);
        let request = read.prepare_justice(FIRST, 12500, &sweep_address()).unwrap();
        assert_eq!(request.csv_delay, delay as u32);
    }
}

#[test]
fn a_long_lock_time_is_found() {
    for delay in [0u16, 2017, 3000, 4031, 4033] {
        let tx = commitment(FIRST, 70_000, delay);
        let request = read(&tx).prepare_justice(FIRST, 12500, &sweep_address()).unwrap();
        assert_eq!(request.csv_delay, delay as u32);
    }
}

#[test]
fn a_blob_tells_a_long_lock_time() {
    let mut persister = WatchtowerPersister::new();
    persister.set_sweep_address(sweep_address());
    persister.persist_new_channel(&CHANNEL, Some(shown(&commitment(FIRST, 70_000, 2017))));
    persister.try_sign_pending(&CHANNEL, &|tx, input, value, number| {
        sign_with(FIRST, 2017, tx, input, value, number)
    });
    let blobs = persister.drain_justice_blobs();
    assert_eq!(blobs.len(), 1);
    assert_eq!(blobs[0].csv_delay, 2017);
}

/// The to-local script, byte by byte.
fn spelled_out_script(revocation: &[u8; 33], push: &[u8], delayed: &[u8; 33]) -> Vec<u8> {
    let mut script = vec![0x63, 0x21];
    script.extend_from_slice(revocation);
    script.push(0x67);
    script.extend_from_slice(push);
    script.extend_from_slice(&[0xb2, 0x75, 0x21]);
    script.extend_from_slice(delayed);
    script.extend_from_slice(&[0x68, 0xac]);
    script
}

#[test]
fn to_local_scripts_are_spelled_out() {
    let revocation = point(1).serialize();
    let delayed = point(2).serialize();
    let pushes: Vec<(u16, Vec<u8>)> = vec![
        (0, vec![0x00]),
        (1, vec![0x51]),
        (16, vec![0x60]),
        (17, vec![1, 17]),
        (127, vec![1, 127]),
        (128, vec![2, 128, 0]),
        (144, vec![2, 144, 0]),
        (255, vec![2, 255, 0]),
        (256, vec![2, 0, 1]),
        (2016, vec![2, 0xe0, 0x07]),
        (4032, vec![2, 0xc0, 0x0f]),
        (32767, vec![2, 0xff, 0x7f]),
        (32768, vec![3, 0x00, 0x80, 0]),
        (65535, vec![3, 0xff, 0xff, 0]),
    ];
    for (delay, push) in pushes {
        let script = get_revokeable_redeemscript(
            &RevocationKey(point(1)),
            delay,
            &DelayedPaymentKey(point(2)),
        );
        let expected = spelled_out_script(&revocation, &push, &delayed);
        assert_eq!(script.to_bytes(), expected);

        let output = ScriptBuf::from_bytes(expected).to_p2wsh().into_bytes();
        assert_eq!(output.len(), 34);
        assert_eq!(output[..2], [0x00, 0x20]);
        assert_eq!(csv_delay(&revocation, &delayed, &output), delay as u32);
    }
}

#[test]
fn keys_that_are_no_keys_fit_nothing() {
    let output = ScriptBuf::from_bytes(spelled_out_script(&[0; 33], &[1, 100], &[0; 33]))
        .to_p2wsh()
        .into_bytes();
    assert_eq!(csv_delay(&[0; 33], &[0; 33], &output), 144);
}

#[test]
fn a_signature_is_taken_from_the_witness_and_made_compact() {
    let request = read(&commitment(FIRST, 70_000, 144))
        .prepare_justice(FIRST, 12500, &sweep_address())
        .unwrap();
    // Unsigned, there is none
    assert!(to_local_sig(&request.justice_tx).is_none());
    assert!(to_local_sig(&vec![1, 2, 3]).is_none());

    let signed = sign_with(FIRST, 144, request.justice_tx.clone(), 0, 70_000, FIRST).unwrap();
    let tx: Transaction = encode::deserialize(&signed).unwrap();
    let item = tx.input[0].witness.iter().next().unwrap().to_vec();
    assert!(item.len() > 64);
    let der = ecdsa::Signature::from_der(&item[..item.len() - 1]).unwrap();
    let sig = to_local_sig(&signed).unwrap();
    assert_eq!(sig, der.serialize_compact());

    // What is no signature is not taken for one
    let mut odd = tx.clone();
    odd.input[0].witness = Witness::from_slice(&[vec![1u8; 10]]);
    assert!(to_local_sig(&encode::serialize(&odd)).is_none());
}

#[test]
fn the_first_item_of_the_first_stack_is_picked() {
    assert!(first_item(&vec![]).is_none());
    assert!(first_item(&vec![vec![], vec![vec![1]]]).is_none());
    assert_eq!(first_item(&vec![vec![vec![1, 2], vec![3]], vec![vec![4]]]), Some(&vec![1, 2]));
}

#[test]
fn a_revoked_commitment_becomes_a_blob() {
    let mut persister = WatchtowerPersister::new();
    persister.set_sweep_address(sweep_address());
    let first = commitment(FIRST, 70_000, 144);
    persister.persist_new_channel(&CHANNEL, Some(shown(&first)));
    assert_eq!(persister.pending_count(), 1);
    assert_eq!(persister.ready_count(), 0);

    // The next commitment comes, the first is not revoked yet
    let second = commitment(FIRST - 1, 70_000, 144);
    persister.update_persisted_channel(
        &CHANNEL,
        CommitmentSource::Update(vec![shown(&second)]),
        &|tx, input, value, number| sign_with(FIRST + 1, 144, tx, input, value, number),
    );
    assert_eq!(persister.pending_count(), 2);
    assert_eq!(persister.ready_count(), 0);

    // Its secret comes with an update that brings no commitment
    persister.update_persisted_channel(
        &CHANNEL,
        CommitmentSource::Update(vec![]),
        &|tx, input, value, number| sign_with(FIRST, 144, tx, input, value, number),
    );
    assert_eq!(persister.pending_count(), 1);
    assert_eq!(persister.ready_count(), 1);

    let blobs = persister.drain_justice_blobs();
    assert_eq!(blobs.len(), 1);
    let blob = &blobs[0];
    let trusted = first.trust();
    let keys = trusted.keys();
    assert_eq!(blob.channel_id, "c1".repeat(32));
    assert_eq!(blob.breach_txid, AsRef::<[u8]>::as_ref(&trusted.txid()).to_vec());
    assert_eq!(blob.sweep_address, sweep_address());
    assert_eq!(blob.revocation_pubkey, keys.revocation_key.0.serialize().to_vec());
    assert_eq!(
        blob.local_delay_pubkey,
        keys.broadcaster_delayed_payment_key.0.serialize().to_vec()
    );
    assert_eq!(blob.csv_delay, 144);
    assert_eq!(blob.to_local_sig.len(), 64);
    assert_eq!(blob.to_remote_pubkey, payment_key().to_vec());
    assert!(blob.to_remote_sig.is_empty());

    // The signature is good for the justice transaction under the revocation key
    let secp: Secp256k1<All> = Secp256k1::new();
    let justice_tx = trusted
        .build_to_local_justice_tx(12500, ScriptBuf::from_bytes(sweep_address()))
        .unwrap();
    let script = get_revokeable_redeemscript(
        &keys.revocation_key,
        144,
        &keys.broadcaster_delayed_payment_key,
    );
    let sighash = SighashCache::new(&justice_tx)
        .p2wsh_signature_hash(0, &script, Amount::from_sat(70_000), EcdsaSighashType::All)
        .unwrap();
    let sig = ecdsa::Signature::from_compact(&blob.to_local_sig).unwrap();
    secp.verify_ecdsa(
        &Message::from_digest(*AsRef::<[u8; 32]>::as_ref(&sighash)),
        &sig,
        &keys.revocation_key.0,
    )
    .unwrap();

    // What was drained does not come again
    persister.try_sign_pending(&CHANNEL, &|tx, input, value, number| {
        sign_with(FIRST, 144, tx, input, value, number)
    });
    assert_eq!(persister.ready_count(), 0);
    assert_eq!(persister.pending_count(), 1);
}

#[test]
fn nothing_is_signed_without_a_sweep_address() {
    let mut persister = WatchtowerPersister::new();
    persister.persist_new_channel(&CHANNEL, Some(shown(&commitment(FIRST, 70_000, 144))));
    let sign = |tx, input, value, number| sign_with(FIRST, 144, tx, input, value, number);
    persister.try_sign_pending(&CHANNEL, &sign);
    assert_eq!(persister.pending_count(), 1);
    assert_eq!(persister.ready_count(), 0);
    persister.set_sweep_address(sweep_address());
    persister.try_sign_pending(&CHANNEL, &sign);
    assert_eq!(persister.pending_count(), 0);
    assert_eq!(persister.ready_count(), 1);
}

#[test]
fn only_the_updated_channel_is_signed_for() {
    let mut persister = WatchtowerPersister::new();
    persister.set_sweep_address(sweep_address());
    persister.persist_new_channel(&CHANNEL, Some(shown(&commitment(FIRST, 70_000, 144))));
    persister.persist_new_channel(&OTHER_CHANNEL, Some(shown(&commitment(FIRST, 70_000, 144))));
    assert_eq!(persister.pending_count(), 2);
    persister.try_sign_pending(&OTHER_CHANNEL, &|tx, input, value, number| {
        sign_with(FIRST, 144, tx, input, value, number)
    });
    assert_eq!(persister.pending_count(), 1);
    let blobs = persister.drain_justice_blobs();
    assert_eq!(blobs.len(), 1);
    assert_eq!(blobs[0].channel_id, "c2".repeat(32));
}

#[test]
fn recapturing_a_number_replaces_it() {
    let mut persister = WatchtowerPersister::new();
    let first = commitment(FIRST, 70_000, 144);
    let again = commitment(FIRST, 80_000, 144);
    let other = commitment(FIRST - 1, 70_000, 144);
    persister.capture_new_commitments(
        &CHANNEL,
        CommitmentSource::Update(vec![shown(&first), shown(&other), shown(&again)]),
    );
    assert_eq!(persister.pending_count(), 2);
    let held = persister.state.pending_commitments.get(&("c1".repeat(32), FIRST)).unwrap();
    assert_eq!(held.commitment_tx.outputs[0].0, 80_000);
    assert_eq!(held.commitment_number, FIRST);
    assert_eq!(held.channel_id, "c1".repeat(32));
}

#[test]
fn capturing_leaves_other_channels_alone() {
    let mut persister = WatchtowerPersister::new();
    persister.persist_new_channel(&CHANNEL, Some(shown(&commitment(FIRST, 70_000, 144))));
    persister.capture_new_commitments(
        &OTHER_CHANNEL,
        CommitmentSource::Update(vec![
            shown(&commitment(FIRST, 80_000, 144)),
            shown(&commitment(FIRST - 1, 80_000, 144)),
        ]),
    );
    assert_eq!(persister.pending_count(), 3);
    let held = persister.state.pending_commitments.get(&("c1".repeat(32), FIRST)).unwrap();
    assert_eq!(held.commitment_tx.outputs[0].0, 70_000);
}

fn signed_txids(numbers: &[u64]) -> Vec<Vec<u8>> {
    let mut persister = WatchtowerPersister::new();
    persister.set_sweep_address(sweep_address());
    for number in numbers {
        persister.capture_new_commitments(
            &CHANNEL,
            CommitmentSource::Update(vec![shown(&commitment(*number, 70_000, 144))]),
        );
    }
    persister.try_sign_pending(&CHANNEL, &|tx, input, value, number| {
        sign_with(FIRST - 1, 144, tx, input, value, number)
    });
    assert_eq!(persister.pending_count(), 1);
    assert!(persister
        .state
        .pending_commitments
        .get(&("c1".repeat(32), FIRST - 2))
        .is_some());
    let blobs = persister.drain_justice_blobs();
    let mut txids: Vec<Vec<u8>> = Vec::new();
    for blob in blobs {
        // The sizes that a tower expects
        assert!(blob.sweep_address.len() <= 42);
        let kit = 1
            + 42
            + blob.revocation_pubkey.len()
            + blob.local_delay_pubkey.len()
            + 4
            + blob.to_local_sig.len()
            + blob.to_remote_pubkey.len()
            + 64;
        assert_eq!(kit, 274);
        txids.push(blob.breach_txid);
    }
    txids.sort();
    txids
}

#[test]
fn the_order_of_capture_does_not_matter() {
    let forth = signed_txids(&[FIRST, FIRST - 1, FIRST - 2]);
    let back = signed_txids(&[FIRST - 2, FIRST - 1, FIRST]);
    assert_eq!(forth.len(), 2);
    assert_eq!(forth, back);
}

#[test]
fn a_source_may_hold_nothing() {
    let mut persister = WatchtowerPersister::new();
    persister.persist_new_channel(&CHANNEL, None);
    persister.capture_new_commitments(&CHANNEL, CommitmentSource::Initial(None));
    persister.capture_new_commitments(&CHANNEL, CommitmentSource::Update(vec![]));
    persister.capture_new_commitments(&CHANNEL, CommitmentSource::Update(vec![ShownCommitment {
        encoded: vec![1, 2, 3],
        payment_key: Some(payment_key()),
    }]));
    assert_eq!(persister.pending_count(), 0);
}

#[test]
fn a_commitment_that_cannot_be_swept_stays_pending() {
    let mut persister = WatchtowerPersister::new();
    persister.set_sweep_address(sweep_address());
    persister.capture_new_commitments(
        &CHANNEL,
        CommitmentSource::Update(vec![
            shown(&commitment(FIRST, 0, 144)),
            shown(&commitment(FIRST - 1, 5_000, 144)),
        ]),
    );
    // The signer is not asked at all
    persister.try_sign_pending(&CHANNEL, &|_, _, _, _| panic!("nothing to sign"));
    assert_eq!(persister.pending_count(), 2);
    assert_eq!(persister.ready_count(), 0);
}

#[test]
fn an_odd_reply_leaves_the_commitment_pending() {
    let mut persister = WatchtowerPersister::new();
    persister.set_sweep_address(sweep_address());
    persister.persist_new_channel(&CHANNEL, Some(shown(&commitment(FIRST, 70_000, 144))));
    // Still unsigned, then no transaction at all
    persister.try_sign_pending(&CHANNEL, &|tx, _, _, _| Ok(tx));
    persister.try_sign_pending(&CHANNEL, &|_, _, _, _| Ok(vec![]));
    assert_eq!(persister.pending_count(), 1);
    assert_eq!(persister.ready_count(), 0);
}

#[test]
fn the_signer_is_handed_the_first_input_the_value_and_the_number() {
    let mut persister = WatchtowerPersister::new();
    persister.set_sweep_address(sweep_address());
    persister.persist_new_channel(&CHANNEL, Some(shown(&commitment(FIRST - 5, 70_000, 144))));
    let handed = std::cell::RefCell::new(Vec::new());
    persister.try_sign_pending(&CHANNEL, &|tx, input, value, number| {
        handed.borrow_mut().push((tx, input, value, number));
        Err(())
    });
    let expected = commitment(FIRST - 5, 70_000, 144)
        .trust()
        .build_to_local_justice_tx(12500, ScriptBuf::from_bytes(sweep_address()))
        .unwrap();
    assert_eq!(
        handed.into_inner(),
        vec![(encode::serialize(&expected), 0, 70_000, FIRST - 5)]
    );
}

#[test]
fn as_many_blobs_come_as_commitments_leave() {
    let mut persister = WatchtowerPersister::new();
    persister.set_sweep_address(sweep_address());
    let mut encoded = Vec::new();
    for i in 0..5u64 {
        encoded.push(shown(&commitment(FIRST - i, 70_000, 144)));
    }
    persister.capture_new_commitments(&CHANNEL, CommitmentSource::Update(encoded));
    for revoked in 0..5u64 {
        persister.try_sign_pending(&CHANNEL, &|tx, input, value, number| {
            sign_with(FIRST - revoked, 144, tx, input, value, number)
        });
        assert_eq!(persister.ready_count() as u64, revoked + 1);
        assert_eq!(persister.pending_count() + persister.ready_count(), 5);
    }
    let mut txids: Vec<Vec<u8>> =
        persister.drain_justice_blobs().into_iter().map(|b| b.breach_txid).collect();
    txids.sort();
    txids.dedup();
    assert_eq!(txids.len(), 5);
}

#[test]
fn signing_again_with_the_same_answers_changes_nothing() {
    let mut persister = WatchtowerPersister::new();
    persister.set_sweep_address(sweep_address());
    persister.capture_new_commitments(
        &CHANNEL,
        CommitmentSource::Update(vec![
            shown(&commitment(FIRST, 70_000, 144)),
            shown(&commitment(FIRST - 1, 70_000, 144)),
        ]),
    );
    for _ in 0..3 {
        persister.try_sign_pending(&CHANNEL, &|tx, input, value, number| {
            sign_with(FIRST, 144, tx, input, value, number)
        });
        assert_eq!(persister.pending_count(), 1);
        assert_eq!(persister.ready_count(), 1);
    }
}

#[test]
fn capturing_the_same_again_changes_nothing() {
    let mut persister = WatchtowerPersister::new();
    for _ in 0..2 {
        persister.capture_new_commitments(
            &CHANNEL,
            CommitmentSource::Update(vec![
                shown(&commitment(FIRST, 70_000, 144)),
                shown(&commitment(FIRST - 1, 70_000, 144)),
                shown(&commitment(FIRST, 80_000, 144)),
            ]),
        );
        assert_eq!(persister.pending_count(), 2);
        let held = persister.state.pending_commitments.get(&("c1".repeat(32), FIRST)).unwrap();
        assert_eq!(held.commitment_tx.outputs[0].0, 80_000);
    }
}

#[test]
fn the_drains_add_up_in_order() {
    let mut persister = WatchtowerPersister::new();
    persister.set_sweep_address(sweep_address());
    let mut encoded = Vec::new();
    let mut expected: Vec<Vec<u8>> = Vec::new();
    for i in 0..4u64 {
        let tx = commitment(FIRST - i, 70_000, 144);
        expected.push(AsRef::<[u8]>::as_ref(&tx.trust().txid()).to_vec());
        encoded.push(shown(&tx));
    }
    persister.capture_new_commitments(&CHANNEL, CommitmentSource::Update(encoded));
    let mut drained: Vec<Vec<u8>> = Vec::new();
    for revoked in 0..4u64 {
        persister.try_sign_pending(&CHANNEL, &|tx, input, value, number| {
            sign_with(FIRST - revoked, 144, tx, input, value, number)
        });
        if revoked % 2 == 1 {
            for blob in persister.drain_justice_blobs() {
                drained.push(blob.breach_txid);
            }
        }
    }
    assert_eq!(drained, expected);
}

/// An unsigned sweep, byte by byte.
fn spelled_out_sweep(txid: &[u8; 32], index: u32, value: u64, destination: &[u8]) -> Vec<u8> {
    let mut tx = vec![2, 0, 0, 0, 1];
    tx.extend_from_slice(txid);
    tx.extend_from_slice(&index.to_le_bytes());
    tx.extend_from_slice(&[0, 0xfd, 0xff, 0xff, 0xff, 1]);
    tx.extend_from_slice(&value.to_le_bytes());
    tx.push(destination.len() as u8);
    tx.extend_from_slice(destination);
    tx.extend_from_slice(&[0, 0, 0, 0]);
    tx
}

#[test]
fn justice_transactions_are_spelled_out() {
    // The revokeable output is the first or the second, as the outputs are ordered by value
    for (to_counterparty, index) in [(70_000u64, 0u32), (930_000, 1)] {
        let read = read(&commitment(FIRST, to_counterparty, 144));
        assert_eq!(read.revokeable_output_index, Some(index as usize));
        let request = read.prepare_justice(FIRST, 12500, &sweep_address()).unwrap();
        let expected =
            spelled_out_sweep(&read.txid, index, to_counterparty - 6_038, &sweep_address());
        assert_eq!(request.justice_tx, expected);
        // 4 * (59 + 1 + 42) + 155 = 563 weight units, at 1000 sat/kw
        let request = read.prepare_justice(FIRST, 1000, &vec![0x6a; 42]).unwrap();
        let expected = spelled_out_sweep(&read.txid, index, to_counterparty - 563, &[0x6a; 42]);
        assert_eq!(request.justice_tx, expected);
    }
}

#[test]
fn the_signer_is_asked_once_for_each_request_and_for_nothing_else() {
    let mut persister = WatchtowerPersister::new();
    let mut list = Vec::new();
    for i in 0..3u64 {
        list.push(shown(&commitment(FIRST - i, 70_000, 144)));
    }
    // Nothing to sweep, and too little to pay the fee
    list.push(shown(&commitment(FIRST - 3, 0, 144)));
    list.push(shown(&commitment(FIRST - 4, 5_000, 144)));
    persister.capture_new_commitments(&CHANNEL, CommitmentSource::Update(list));
    persister.persist_new_channel(&OTHER_CHANNEL, Some(shown(&commitment(FIRST, 70_000, 144))));

    // Without a sweep address it is not asked
    let channel = "c1".repeat(32);
    assert!(persister.state.justice_requests(&channel).is_empty());
    persister.try_sign_pending(&CHANNEL, &|_, _, _, _| panic!("nothing to sign"));

    persister.set_sweep_address(sweep_address());
    let requests = persister.state.justice_requests(&channel);
    let mut numbers: Vec<u64> = requests.iter().map(|(key, _)| key.1).collect();
    numbers.sort();
    assert_eq!(numbers, vec![FIRST - 2, FIRST - 1, FIRST]);
    for (key, request) in &requests {
        assert_eq!(key.0, channel);
        assert_eq!(request.commitment_number, key.1);
        assert_eq!(request.output_value, 70_000);
    }

    let asked = std::cell::RefCell::new(Vec::new());
    persister.try_sign_pending(&CHANNEL, &|tx, input, value, number| {
        asked.borrow_mut().push(number);
        sign_with(FIRST - 1, 144, tx, input, value, number)
    });
    let mut asked = asked.into_inner();
    asked.sort();
    assert_eq!(asked, numbers);
    assert_eq!(persister.ready_count(), 2);
    assert_eq!(persister.pending_count(), 4);
}
