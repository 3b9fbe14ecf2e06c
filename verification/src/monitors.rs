//! Exporting channel monitors.

use crate::bytes::copy_bytes;
use crate::text::{hex, hex_string, outpoint_string, outpoint_text};
use vstd::prelude::*;

verus! {

/// Information about a channel monitor for watchtower synchronization.
#[derive(Debug, Clone)]
pub struct WatchtowerMonitorInfo {
    /// The channel ID being monitored.
    pub channel_id: String,
    /// The counterparty's node public key.
    pub counterparty_node_id: String,
    /// The latest monitor update ID that has been applied.
    pub latest_update_id: u64,
    /// The funding transaction outpoint (txid:vout format).
    pub funding_txo: String,
}

/// A serialized channel monitor ready for export to a watchtower.
#[derive(Debug, Clone)]
pub struct WatchtowerMonitorData {
    /// The channel ID this monitor belongs to.
    pub channel_id: String,
    /// The counterparty's node public key.
    pub counterparty_node_id: String,
    /// The latest monitor update ID.
    pub latest_update_id: u64,
    /// The serialized monitor data (LDK binary format).
    pub monitor_bytes: Vec<u8>,
}

/// Why an export failed.
#[derive(Debug, Clone, Copy, PartialEq, Eq, Structural)]
pub enum Error {
    /// A monitor could not be serialized.
    PersistenceFailed,
}

/// What a channel monitor says of its channel.
pub struct MonitorSummary {
    /// The counterparty's node public key, compressed.
    pub counterparty_node_id: [u8; 33],
    /// The latest monitor update ID that has been applied.
    pub latest_update_id: u64,
    /// The id of the funding transaction.
    pub funding_txid: [u8; 32],
    /// The index of the funding output.
    pub funding_index: u16,
}

/// What a channel monitor gives to be exported.
pub struct MonitorExport {
    /// The counterparty's node public key, compressed.
    pub counterparty_node_id: [u8; 33],
    /// The latest monitor update ID that has been applied.
    pub latest_update_id: u64,
    /// The monitor in LDK's encoding, or an error where it could not be written.
    pub serialized: Result<Vec<u8>, ()>,
}

/// The contents of a [`WatchtowerMonitorInfo`].
#[verifier::ext_equal]
pub struct MonitorInfoView {
    pub channel_id: Seq<char>,
    pub counterparty_node_id: Seq<char>,
    pub latest_update_id: u64,
    pub funding_txo: Seq<char>,
}

impl View for WatchtowerMonitorInfo {
    type V = MonitorInfoView;

    open spec fn view(&self) -> MonitorInfoView {
        MonitorInfoView {
            channel_id: self.channel_id@,
            counterparty_node_id: self.counterparty_node_id@,
            latest_update_id: self.latest_update_id,
            funding_txo: self.funding_txo@,
        }
    }
}

/// The contents of a [`WatchtowerMonitorData`].
#[verifier::ext_equal]
pub struct MonitorDataView {
    pub channel_id: Seq<char>,
    pub counterparty_node_id: Seq<char>,
    pub latest_update_id: u64,
    pub monitor_bytes: Seq<u8>,
}

impl View for WatchtowerMonitorData {
    type V = MonitorDataView;

    open spec fn view(&self) -> MonitorDataView {
        MonitorDataView {
            channel_id: self.channel_id@,
            counterparty_node_id: self.counterparty_node_id@,
            latest_update_id: self.latest_update_id,
            monitor_bytes: self.monitor_bytes@,
        }
    }
}

/// The entry for a monitor that was found.
pub open spec fn info_of(channel_id: Seq<u8>, monitor: MonitorSummary) -> MonitorInfoView {
    MonitorInfoView {
        channel_id: hex(channel_id),
        counterparty_node_id: hex(monitor.counterparty_node_id@),
        latest_update_id: monitor.latest_update_id,
        funding_txo: outpoint_text(monitor.funding_txid@, monitor.funding_index),
    }
}

/// The entries for the monitors that were found, in order.
pub open spec fn infos_of(lookups: Seq<([u8; 32], Result<MonitorSummary, ()>)>) -> Seq<
    MonitorInfoView,
>
    decreases lookups.len(),
{
    if lookups.len() == 0 {
        Seq::empty()
    } else {
        let before = infos_of(lookups.drop_last());
        match lookups.last().1 {
            Ok(monitor) => before.push(info_of(lookups.last().0@, monitor)),
            Err(_) => before,
        }
    }
}

/// The export of a monitor that was found and serialized.
pub open spec fn data_of(channel_id: Seq<u8>, monitor: MonitorExport) -> MonitorDataView {
    MonitorDataView {
        channel_id: hex(channel_id),
        counterparty_node_id: hex(monitor.counterparty_node_id@),
        latest_update_id: monitor.latest_update_id,
        monitor_bytes: monitor.serialized->Ok_0@,
    }
}

/// The exports of the monitors that were found, in order.
pub open spec fn datas_of(lookups: Seq<([u8; 32], Result<MonitorExport, ()>)>) -> Seq<
    MonitorDataView,
>
    decreases lookups.len(),
{
    if lookups.len() == 0 {
        Seq::empty()
    } else {
        let before = datas_of(lookups.drop_last());
        match lookups.last().1 {
            Ok(monitor) => before.push(data_of(lookups.last().0@, monitor)),
            Err(_) => before,
        }
    }
}

/// Whether a monitor was found that could not be serialized.
pub open spec fn is_unwritable(lookup: ([u8; 32], Result<MonitorExport, ()>)) -> bool {
    lookup.1 matches Ok(monitor) && monitor.serialized is Err
}

/// The contents of a list of entries.
pub open spec fn info_views(infos: Seq<WatchtowerMonitorInfo>) -> Seq<MonitorInfoView> {
    infos.map_values(|i: WatchtowerMonitorInfo| i@)
}

/// The contents of a list of exports.
pub open spec fn data_views(datas: Seq<WatchtowerMonitorData>) -> Seq<MonitorDataView> {
    datas.map_values(|d: WatchtowerMonitorData| d@)
}

/// Returns metadata about all active channel monitors: for each listed channel, in order, what its
/// monitor says, leaving out those whose monitor was not found.
pub fn list_monitor_info(lookups: &Vec<([u8; 32], Result<MonitorSummary, ()>)>) -> (infos: Vec<
    WatchtowerMonitorInfo,
>)
    ensures
        info_views(infos@) == infos_of(lookups@),
{
    let mut infos: Vec<WatchtowerMonitorInfo> = Vec::new();
    let mut i: usize = 0;
    assert(info_views(infos@) =~= infos_of(lookups@.take(0)));
    while i < lookups.len()
        invariant
            i <= lookups@.len(),
            info_views(infos@) == infos_of(lookups@.take(i as int)),
        decreases lookups@.len() - i,
    {
        let lookup: &([u8; 32], Result<MonitorSummary, ()>) = &lookups[i];
        proof {
            assert(lookups@.take(i + 1).drop_last() =~= lookups@.take(i as int));
            assert(lookups@.take(i + 1).last() == lookup);
        }
        if let Ok(monitor) = &lookup.1 {
            let ghost before = infos@;
            let info = WatchtowerMonitorInfo {
                channel_id: hex_string(lookup.0.as_slice()),
                counterparty_node_id: hex_string(monitor.counterparty_node_id.as_slice()),
                latest_update_id: monitor.latest_update_id,
                funding_txo: outpoint_string(&monitor.funding_txid, monitor.funding_index),
            };
            infos.push(info);
            assert(info_views(infos@) =~= info_views(before).push(info@));
        }
        i += 1;
    }
    assert(lookups@.take(i as int) =~= lookups@);
    infos
}

/// Exports all channel monitors as serialized bytes for watchtower replication: for each listed
/// channel, in order, leaving out those whose monitor was not found. Fails where a monitor that
/// was found could not be serialized.
pub fn export_monitors(lookups: &Vec<([u8; 32], Result<MonitorExport, ()>)>) -> (monitors: Result<
    Vec<WatchtowerMonitorData>,
    Error,
>)
    ensures
        match monitors {
            Ok(datas) => {
                &&& data_views(datas@) == datas_of(lookups@)
                &&& forall|i: int| 0 <= i < lookups@.len() ==> !is_unwritable(#[trigger] lookups@[i])
            },
            Err(error) => {
                &&& error == Error::PersistenceFailed
                &&& exists|i: int| 0 <= i < lookups@.len() && is_unwritable(#[trigger] lookups@[i])
            },
        },
{
    let mut monitors: Vec<WatchtowerMonitorData> = Vec::new();
    let mut i: usize = 0;
    assert(data_views(monitors@) =~= datas_of(lookups@.take(0)));
    while i < lookups.len()
        invariant
            i <= lookups@.len(),
            data_views(monitors@) == datas_of(lookups@.take(i as int)),
            forall|j: int| 0 <= j < i ==> !is_unwritable(#[trigger] lookups@[j]),
        decreases lookups@.len() - i,
    {
        let lookup: &([u8; 32], Result<MonitorExport, ()>) = &lookups[i];
        proof {
            assert(lookups@.take(i + 1).drop_last() =~= lookups@.take(i as int));
            assert(lookups@.take(i + 1).last() == lookup);
        }
        if let Ok(monitor) = &lookup.1 {
            let bytes: Vec<u8> = match &monitor.serialized {
                Ok(bytes) => copy_bytes(bytes.as_slice()),
                Err(_) => {
                    assert(is_unwritable(lookups@[i as int]));
                    return Err(Error::PersistenceFailed);
                },
            };
            let ghost before = monitors@;
            let data = WatchtowerMonitorData {
                channel_id: hex_string(lookup.0.as_slice()),
                counterparty_node_id: hex_string(monitor.counterparty_node_id.as_slice()),
                latest_update_id: monitor.latest_update_id,
                monitor_bytes: bytes,
            };
            monitors.push(data);
            assert(data_views(monitors@) =~= data_views(before).push(data@));
        }
        i += 1;
    }
    assert(lookups@.take(i as int) =~= lookups@);
    Ok(monitors)
}

} // verus!
