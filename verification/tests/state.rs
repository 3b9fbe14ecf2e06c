use watchtower::blob::{make_blob, JusticeRequest};
use watchtower::commitment::CounterpartyCommitment;
use watchtower::pending::PendingMap;
use watchtower::state::{PendingCommitment, WatchtowerState};
use watchtower::to_remote::to_remote_key;
use watchtower::{WatchtowerJusticeBlob, WatchtowerPersister};

fn commitment(number: u64) -> CounterpartyCommitment {
    CounterpartyCommitment {
        commitment_number: number,
        txid: [number as u8; 32],
        revokeable_output_index: Some(0),
        outputs: vec![(70_000, vec![0u8; 34])],
        revocation_key: [2u8; 33],
        delayed_key: [3u8; 33],
        to_remote_key: Some([4u8; 33]),
        encoded: vec![],
    }
}

fn empty_state() -> WatchtowerState {
    WatchtowerState {
        pending_commitments: PendingMap::new(),
        ready_blobs: Vec::new(),
        sweep_address: None,
        sweep_fee_rate: 12500,
    }
}

fn request(number: u64) -> JusticeRequest {
    JusticeRequest {
        breach_txid: [0xab; 32],
        justice_tx: vec![1, 2, 3],
        output_value: 70_000,
        commitment_number: number,
        revocation_key: [2u8; 33],
        delayed_key: [3u8; 33],
        to_remote_key: Some([4u8; 33]),
        csv_delay: 720,
    }
}

#[test]
fn test_watchtower_state_drain() {
    let mut state = WatchtowerState {
        pending_commitments: PendingMap::new(),
        ready_blobs: vec![
            WatchtowerJusticeBlob {
                channel_id: "ch1".to_string(),
                breach_txid: vec![1u8; 32],
                sweep_address: vec![0u8; 22],
                revocation_pubkey: vec![2u8; 33],
                local_delay_pubkey: vec![3u8; 33],
                csv_delay: 144,
                to_local_sig: vec![0u8; 64],
                to_remote_pubkey: vec![0u8; 33],
                to_remote_sig: vec![0u8; 64],
            },
            WatchtowerJusticeBlob {
                channel_id: "ch1".to_string(),
                breach_txid: vec![2u8; 32],
                sweep_address: vec![0u8; 22],
                revocation_pubkey: vec![2u8; 33],
                local_delay_pubkey: vec![3u8; 33],
                csv_delay: 144,
                to_local_sig: vec![0u8; 64],
                to_remote_pubkey: vec![0u8; 33],
                to_remote_sig: vec![0u8; 64],
            },
        ],
        sweep_address: None,
        sweep_fee_rate: 12500,
    };

    // Drain should return all blobs and empty the store
    let blobs = state.drain_justice_blobs();
    assert_eq!(blobs.len(), 2);
    assert_eq!(blobs[0].breach_txid[0], 1);
    assert_eq!(blobs[1].breach_txid[0], 2);

    // Second drain should be empty
    let blobs2 = state.ready_blobs.clone();
    assert_eq!(blobs2.len(), 0);
    assert_eq!(state.drain_justice_blobs().len(), 0);
}

#[test]
fn test_pending_commitments_dedup() {
    // Re-capturing the same commitment number replaces, not duplicates
    let mut pending: PendingMap<u64> = PendingMap::new();
    let key = ("channel1".to_string(), 42u64);

    pending.insert(key.clone(), 1);
    assert_eq!(pending.len(), 1);

    // Same key should overwrite
    pending.insert(key.clone(), 2);
    assert_eq!(pending.len(), 1);
    assert_eq!(*pending.get(&key).unwrap(), 2);

    // Different commitment number is a different entry
    let key2 = ("channel1".to_string(), 43u64);
    pending.insert(key2, 3);
    assert_eq!(pending.len(), 2);
}

#[test]
fn removing_leaves_the_others() {
    let mut pending: PendingMap<u64> = PendingMap::new();
    pending.insert(("a".to_string(), 1), 10);
    pending.insert(("b".to_string(), 1), 20);
    pending.insert(("a".to_string(), 2), 30);
    pending.remove(&("a".to_string(), 1));
    pending.remove(&("c".to_string(), 1));
    assert_eq!(pending.len(), 2);
    assert!(pending.get(&("a".to_string(), 1)).is_none());
    assert_eq!(*pending.get(&("b".to_string(), 1)).unwrap(), 20);
    assert_eq!(*pending.get(&("a".to_string(), 2)).unwrap(), 30);
}

#[test]
fn keys_of_a_channel_are_listed_once() {
    let mut pending: PendingMap<u64> = PendingMap::new();
    pending.insert(("a".to_string(), 1), 10);
    pending.insert(("b".to_string(), 1), 20);
    pending.insert(("a".to_string(), 2), 30);
    pending.insert(("a".to_string(), 1), 40);
    let mut keys = pending.keys_of_channel(&"a".to_string());
    keys.sort();
    assert_eq!(keys, vec![("a".to_string(), 1), ("a".to_string(), 2)]);
    assert!(pending.keys_of_channel(&"c".to_string()).is_empty());
}

#[test]
fn recording_again_replaces() {
    let mut state = empty_state();
    let channel = "channel1".to_string();
    state.record_commitment(&channel, commitment(42));
    let mut other = commitment(42);
    other.txid = [7; 32];
    state.record_commitment(&channel, other);
    assert_eq!(state.pending_commitments.len(), 1);
    let held: &PendingCommitment = state.pending_commitments.get(&(channel.clone(), 42)).unwrap();
    assert_eq!(held.commitment_tx.txid, [7; 32]);
    assert_eq!(held.channel_id, channel);
    assert_eq!(held.commitment_number, 42);
    state.record_commitment(&channel, commitment(43));
    assert_eq!(state.pending_commitments.len(), 2);
}

#[test]
fn settling_with_a_signature_moves_the_commitment() {
    let mut state = empty_state();
    let channel = "channel1".to_string();
    state.record_commitment(&channel, commitment(42));
    state.record_commitment(&channel, commitment(43));
    let address = vec![9u8; 22];
    state.settle(&(channel.clone(), 42), &address, &request(42), None);
    assert_eq!(state.pending_commitments.len(), 2);
    assert!(state.ready_blobs.is_empty());

    state.settle(&(channel.clone(), 42), &address, &request(42), Some([5u8; 64]));
    assert_eq!(state.pending_commitments.len(), 1);
    assert!(state.pending_commitments.get(&(channel.clone(), 42)).is_none());
    assert_eq!(state.ready_blobs.len(), 1);
    let blob = &state.ready_blobs[0];
    assert_eq!(blob.channel_id, "channel1");
    assert_eq!(blob.sweep_address, address);
    assert_eq!(blob.to_local_sig, vec![5u8; 64]);
}

#[test]
fn blob_says_what_the_request_says() {
    let blob = make_blob(&"ch".to_string(), &vec![0u8, 20], &request(1), &[6u8; 64]);
    assert_eq!(blob.channel_id, "ch");
    assert_eq!(blob.breach_txid, vec![0xab; 32]);
    assert_eq!(blob.sweep_address, vec![0u8, 20]);
    assert_eq!(blob.revocation_pubkey, vec![2u8; 33]);
    assert_eq!(blob.local_delay_pubkey, vec![3u8; 33]);
    assert_eq!(blob.csv_delay, 720);
    assert_eq!(blob.to_local_sig, vec![6u8; 64]);
    assert_eq!(blob.to_remote_pubkey, vec![4u8; 33]);
    assert!(blob.to_remote_sig.is_empty());

    // Without a to-remote output there is no key for it
    let mut alone = request(1);
    alone.to_remote_key = None;
    let blob = make_blob(&"ch".to_string(), &vec![0u8, 20], &alone, &[6u8; 64]);
    assert!(blob.to_remote_pubkey.is_empty());
    assert_eq!(blob.revocation_pubkey, vec![2u8; 33]);
}

#[test]
fn the_to_remote_key_needs_an_output_that_pays_to_it() {
    let outputs: Vec<(u64, Vec<u8>)> =
        vec![(1, vec![7u8; 34]), (2, vec![8u8; 22]), (3, vec![9u8; 34])];
    let key = Some([4u8; 33]);
    assert_eq!(to_remote_key(&outputs, Some(0), key, Some(vec![8u8; 22])), key);
    assert_eq!(to_remote_key(&outputs, None, key, Some(vec![9u8; 34])), key);
    // The revokeable output is not the to-remote one
    assert_eq!(to_remote_key(&outputs, Some(0), key, Some(vec![7u8; 34])), None);
    // No output pays to it
    assert_eq!(to_remote_key(&outputs, Some(0), key, Some(vec![8u8; 21])), None);
    assert_eq!(to_remote_key(&vec![], None, key, Some(vec![8u8; 22])), None);
    // No script, no key
    assert_eq!(to_remote_key(&outputs, Some(0), key, None), None);
    assert_eq!(to_remote_key(&outputs, Some(0), None, Some(vec![8u8; 22])), None);
}

#[test]
fn a_request_needs_an_output_and_a_transaction() {
    let mut c = commitment(42);
    let made = c.assemble_request(42, Some(vec![1, 2, 3])).unwrap();
    assert_eq!(made.breach_txid, [42; 32]);
    assert_eq!(made.justice_tx, vec![1, 2, 3]);
    assert_eq!(made.output_value, 70_000);
    assert_eq!(made.commitment_number, 42);
    assert_eq!(made.csv_delay, 144);
    assert_eq!(made.to_remote_key, Some([4; 33]));
    assert!(c.assemble_request(42, None).is_none());
    c.revokeable_output_index = Some(1);
    assert!(c.assemble_request(42, Some(vec![1, 2, 3])).is_none());
    c.revokeable_output_index = None;
    assert!(c.assemble_request(42, Some(vec![1, 2, 3])).is_none());
}

#[test]
fn a_new_persister_holds_nothing() {
    let mut persister = WatchtowerPersister::new();
    assert_eq!(persister.pending_count(), 0);
    assert_eq!(persister.ready_count(), 0);
    assert!(persister.state.sweep_address.is_none());
    assert_eq!(persister.state.sweep_fee_rate, 12500);
    assert!(persister.drain_justice_blobs().is_empty());
    persister.set_sweep_address(vec![1, 2]);
    persister.set_sweep_address(vec![3]);
    assert_eq!(persister.state.sweep_address, Some(vec![3]));
}
