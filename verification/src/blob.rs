//! The justice blob that a tower is given, and what is known of it before it is signed.

use crate::bytes::copy_bytes;
use crate::ldk::key_view;
use vstd::prelude::*;

verus! {

/// How many bytes a sweep address may have: a justice kit holds it in so many.
pub const MAX_SWEEP_ADDRESS_LEN: usize = 42;

/// A fully-formed justice blob ready for encryption and push to an LND tower.
///
/// Contains all fields needed for LND's JusticeKit V0 format. Whoever pushes it only needs to:
/// 1. Encrypt with XChaCha20-Poly1305 using breach_txid as key
/// 2. Take first 16 bytes of breach_txid as the hint
/// 3. Push (hint, encrypted_blob) to the tower
#[derive(Debug, Clone)]
pub struct WatchtowerJusticeBlob {
    /// Channel this blob protects.
    pub channel_id: String,
    /// Full txid of the revoked commitment (32 bytes).
    /// This is both the encryption key AND the source of the 16-byte hint.
    pub breach_txid: Vec<u8>,
    /// Sweep address where justice funds go (witness program).
    pub sweep_address: Vec<u8>,
    /// Compressed revocation pubkey (33 bytes).
    pub revocation_pubkey: Vec<u8>,
    /// Compressed local delay pubkey (33 bytes).
    pub local_delay_pubkey: Vec<u8>,
    /// CSV delay for the to-local output.
    pub csv_delay: u32,
    /// Signature for spending the to-local output (64 bytes, compact).
    pub to_local_sig: Vec<u8>,
    /// Compressed to-remote pubkey (33 bytes, may be empty if no to-remote output).
    pub to_remote_pubkey: Vec<u8>,
    /// Signature for the to-remote output (64 bytes, may be empty).
    pub to_remote_sig: Vec<u8>,
}

/// The contents of a [`WatchtowerJusticeBlob`].
#[verifier::ext_equal]
pub struct JusticeBlobView {
    pub channel_id: Seq<char>,
    pub breach_txid: Seq<u8>,
    pub sweep_address: Seq<u8>,
    pub revocation_pubkey: Seq<u8>,
    pub local_delay_pubkey: Seq<u8>,
    pub csv_delay: u32,
    pub to_local_sig: Seq<u8>,
    pub to_remote_pubkey: Seq<u8>,
    pub to_remote_sig: Seq<u8>,
}

impl View for WatchtowerJusticeBlob {
    type V = JusticeBlobView;

    open spec fn view(&self) -> JusticeBlobView {
        JusticeBlobView {
            channel_id: self.channel_id@,
            breach_txid: self.breach_txid@,
            sweep_address: self.sweep_address@,
            revocation_pubkey: self.revocation_pubkey@,
            local_delay_pubkey: self.local_delay_pubkey@,
            csv_delay: self.csv_delay,
            to_local_sig: self.to_local_sig@,
            to_remote_pubkey: self.to_remote_pubkey@,
            to_remote_sig: self.to_remote_sig@,
        }
    }
}

/// The contents of a list of blobs.
pub open spec fn blob_views(blobs: Seq<WatchtowerJusticeBlob>) -> Seq<JusticeBlobView> {
    blobs.map_values(|b: WatchtowerJusticeBlob| b@)
}

/// An unsigned justice transaction, with what its blob will say of the commitment it punishes.
pub struct JusticeRequest {
    /// The id of the revoked commitment transaction.
    pub breach_txid: [u8; 32],
    /// The unsigned justice transaction, in consensus encoding.
    pub justice_tx: Vec<u8>,
    /// The value of the output that it spends, in satoshis.
    pub output_value: u64,
    /// The number of the commitment.
    pub commitment_number: u64,
    /// The revocation key.
    pub revocation_key: [u8; 33],
    /// The broadcaster's delayed payment key.
    pub delayed_key: [u8; 33],
    /// The key that the to-remote output of the commitment pays to, if it has one.
    pub to_remote_key: Option<[u8; 33]>,
    /// The relative lock time of the output that it spends.
    pub csv_delay: u32,
}

/// The contents of a [`JusticeRequest`].
#[verifier::ext_equal]
pub struct JusticeRequestView {
    pub breach_txid: Seq<u8>,
    pub justice_tx: Seq<u8>,
    pub output_value: u64,
    pub commitment_number: u64,
    pub revocation_key: Seq<u8>,
    pub delayed_key: Seq<u8>,
    pub to_remote_key: Option<Seq<u8>>,
    pub csv_delay: u32,
}

impl View for JusticeRequest {
    type V = JusticeRequestView;

    open spec fn view(&self) -> JusticeRequestView {
        JusticeRequestView {
            breach_txid: self.breach_txid@,
            justice_tx: self.justice_tx@,
            output_value: self.output_value,
            commitment_number: self.commitment_number,
            revocation_key: self.revocation_key@,
            delayed_key: self.delayed_key@,
            to_remote_key: key_view(self.to_remote_key),
            csv_delay: self.csv_delay,
        }
    }
}

/// The blob for a request whose transaction was signed with `to_local_sig`.
pub open spec fn blob_of(
    channel_id: Seq<char>,
    sweep_address: Seq<u8>,
    request: JusticeRequestView,
    to_local_sig: Seq<u8>,
) -> JusticeBlobView {
    JusticeBlobView {
        channel_id,
        breach_txid: request.breach_txid,
        sweep_address,
        revocation_pubkey: request.revocation_key,
        local_delay_pubkey: request.delayed_key,
        csv_delay: request.csv_delay,
        to_local_sig,
        to_remote_pubkey: match request.to_remote_key {
            Some(key) => key,
            None => Seq::empty(),
        },
        to_remote_sig: Seq::empty(),
    }
}

/// Puts the blob of a signed request together. The to-remote output is not signed for.
pub fn make_blob(
    channel_id: &String,
    sweep_address: &Vec<u8>,
    request: &JusticeRequest,
    to_local_sig: &[u8; 64],
) -> (blob: WatchtowerJusticeBlob)
    ensures
        blob@ == blob_of(channel_id@, sweep_address@, request@, to_local_sig@),
        blob.channel_id@ == channel_id@,
        blob.breach_txid@ == request.breach_txid@,
        blob.sweep_address@ == sweep_address@,
        blob.revocation_pubkey@ == request.revocation_key@,
        blob.local_delay_pubkey@ == request.delayed_key@,
        blob.csv_delay == request.csv_delay,
        blob.to_local_sig@ == to_local_sig@,
        request.to_remote_key matches Some(key) ==> blob.to_remote_pubkey@ == key@,
        request.to_remote_key is None ==> blob.to_remote_pubkey@.len() == 0,
        blob.to_remote_sig@.len() == 0,
{
    let blob = WatchtowerJusticeBlob {
        channel_id: channel_id.clone(),
        breach_txid: copy_bytes(request.breach_txid.as_slice()),
        sweep_address: copy_bytes(sweep_address.as_slice()),
        revocation_pubkey: copy_bytes(request.revocation_key.as_slice()),
        local_delay_pubkey: copy_bytes(request.delayed_key.as_slice()),
        csv_delay: request.csv_delay,
        to_local_sig: copy_bytes(to_local_sig.as_slice()),
        to_remote_pubkey: match &request.to_remote_key {
            Some(key) => copy_bytes(key.as_slice()),
            None => Vec::new(),
        },
        to_remote_sig: Vec::new(),
    };
    assert(blob@ =~= blob_of(channel_id@, sweep_address@, request@, to_local_sig@));
    blob
}

} // verus!
