use bitcoin::secp256k1::{PublicKey, Secp256k1, SecretKey};
use bitcoin::Txid;
use lightning::ln::types::ChannelId;
use watchtower::monitors::{MonitorExport, MonitorSummary};
use watchtower::text::{hex_string, outpoint_string, txid_string};
use watchtower::{export_monitors, list_monitor_info, Error};

fn node_id(seed: u8) -> PublicKey {
    let secp = Secp256k1::new();
    PublicKey::from_secret_key(&secp, &SecretKey::from_slice(&[seed; 32]).unwrap())
}

fn txid_of(bytes: [u8; 32]) -> Txid {
    <Txid as bitcoin::hashes::Hash>::from_byte_array(bytes)
}

fn ascending() -> [u8; 32] {
    let mut bytes = [0u8; 32];
    let mut i = 0;
    while i < 32 {
        bytes[i] = (i * 8 + 3) as u8;
        i += 1;
    }
    bytes
}

#[test]
fn hexadecimal_is_lower_case_and_high_digit_first() {
    assert_eq!(hex_string(&[]), "");
    assert_eq!(hex_string(&[0xab, 0x01, 0xf0]), "ab01f0");
}

#[test]
fn different_channels_have_different_texts() {
    let mut texts = Vec::new();
    for byte in 0..=255u8 {
        texts.push(hex_string(&[byte; 32]));
    }
    texts.sort();
    texts.dedup();
    assert_eq!(texts.len(), 256);
}

#[test]
fn texts_are_those_of_the_types() {
    assert_eq!(hex_string(&ascending()), ChannelId(ascending()).to_string());
    assert_eq!(hex_string(&node_id(7).serialize()), node_id(7).to_string());
    assert_eq!(txid_string(&ascending()), txid_of(ascending()).to_string());
}

#[test]
fn outpoints_are_txid_colon_index() {
    for index in [0u16, 1, 9, 10, 99, 305, 65535] {
        let expected = format!("{}:{}", txid_of(ascending()), index);
        assert_eq!(outpoint_string(&ascending(), index), expected);
    }
}

fn summary(seed: u8, update: u64) -> MonitorSummary {
    MonitorSummary {
        counterparty_node_id: node_id(seed).serialize(),
        latest_update_id: update,
        funding_txid: [seed; 32],
        funding_index: seed as u16,
    }
}

fn export(seed: u8, update: u64, serialized: Result<Vec<u8>, ()>) -> MonitorExport {
    MonitorExport {
        counterparty_node_id: node_id(seed).serialize(),
        latest_update_id: update,
        serialized,
    }
}

#[test]
fn listing_leaves_out_what_was_not_found() {
    let lookups = vec![
        ([1u8; 32], Ok(summary(1, 10))),
        ([2u8; 32], Err(())),
        ([3u8; 32], Ok(summary(3, 30))),
    ];
    let infos = list_monitor_info(&lookups);
    assert_eq!(infos.len(), 2);
    assert_eq!(infos[0].channel_id, ChannelId([1u8; 32]).to_string());
    assert_eq!(infos[0].counterparty_node_id, node_id(1).to_string());
    assert_eq!(infos[0].latest_update_id, 10);
    assert_eq!(infos[0].funding_txo, format!("{}:1", txid_of([1u8; 32])));
    assert_eq!(infos[1].channel_id, ChannelId([3u8; 32]).to_string());
    assert_eq!(infos[1].latest_update_id, 30);
    assert!(list_monitor_info(&vec![]).is_empty());
}

#[test]
fn exporting_leaves_out_what_was_not_found() {
    let lookups = vec![
        ([1u8; 32], Err(())),
        ([2u8; 32], Ok(export(2, 20, Ok(vec![7, 8])))),
        ([3u8; 32], Ok(export(3, 30, Ok(vec![])))),
    ];
    let datas = export_monitors(&lookups).unwrap();
    assert_eq!(datas.len(), 2);
    assert_eq!(datas[0].channel_id, ChannelId([2u8; 32]).to_string());
    assert_eq!(datas[0].counterparty_node_id, node_id(2).to_string());
    assert_eq!(datas[0].latest_update_id, 20);
    assert_eq!(datas[0].monitor_bytes, vec![7, 8]);
    assert_eq!(datas[1].monitor_bytes, Vec::<u8>::new());
}

#[test]
fn exporting_fails_where_a_monitor_cannot_be_written() {
    let lookups = vec![
        ([1u8; 32], Ok(export(1, 10, Ok(vec![1])))),
        ([2u8; 32], Ok(export(2, 20, Err(())))),
    ];
    assert_eq!(export_monitors(&lookups).unwrap_err(), Error::PersistenceFailed);
}

#[test]
fn list_and_export_name_the_same_monitors() {
    let infos = list_monitor_info(&vec![
        ([1u8; 32], Ok(summary(1, 10))),
        ([2u8; 32], Err(())),
        ([3u8; 32], Ok(summary(3, 30))),
    ]);
    let datas = export_monitors(&vec![
        ([1u8; 32], Ok(export(1, 10, Ok(vec![1])))),
        ([2u8; 32], Err(())),
        ([3u8; 32], Ok(export(3, 30, Ok(vec![3])))),
    ])
    .unwrap();
    assert_eq!(infos.len(), datas.len());
    for i in 0..infos.len() {
        assert_eq!(infos[i].channel_id, datas[i].channel_id);
        assert_eq!(infos[i].counterparty_node_id, datas[i].counterparty_node_id);
        assert_eq!(infos[i].latest_update_id, datas[i].latest_update_id);
    }
}
