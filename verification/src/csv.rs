//! Finding the relative lock time behind a to-local output.
//!
//! The lock time stands in the redeem script, and the output shows that script's hash only. So
//! lock times are tried one after the other, and the first whose script hashes to the output is
//! taken.

use crate::bytes::same_bytes;
use crate::ldk::{
    is_public_key, p2wsh, p2wsh_of, revokeable_redeemscript, revokeable_redeemscript_of,
};
use vstd::prelude::*;

verus! {

/// The lock time that is reported where none fits.
pub const DEFAULT_CSV_DELAY: u32 = 144;

/// The longest lock time that a to-local output can have.
pub const MAX_CSV_DELAY: u32 = 0xffff;

/// Whether `output_script` pays to the to-local script with this lock time.
pub open spec fn pays_with_delay(
    revocation_key: Seq<u8>,
    delayed_key: Seq<u8>,
    output_script: Seq<u8>,
    delay: u16,
) -> bool {
    &&& is_public_key(revocation_key)
    &&& is_public_key(delayed_key)
    &&& output_script == p2wsh_of(revokeable_redeemscript_of(revocation_key, delay, delayed_key))
}

/// Whether `found` is the lock time to report: the shortest that fits, or the default where none
/// fits.
pub open spec fn is_csv_delay(
    revocation_key: Seq<u8>,
    delayed_key: Seq<u8>,
    output_script: Seq<u8>,
    found: u32,
) -> bool {
    if exists|d: u16| #[trigger]
        pays_with_delay(revocation_key, delayed_key, output_script, d) {
        &&& found <= MAX_CSV_DELAY
        &&& pays_with_delay(revocation_key, delayed_key, output_script, found as u16)
        &&& forall|d: u16| #[trigger]
            pays_with_delay(revocation_key, delayed_key, output_script, d) ==> found <= d
    } else {
        found == DEFAULT_CSV_DELAY
    }
}

/// The lock time to report for an output script.
pub open spec fn csv_delay_of(
    revocation_key: Seq<u8>,
    delayed_key: Seq<u8>,
    output_script: Seq<u8>,
) -> u32 {
    choose|found: u32| is_csv_delay(revocation_key, delayed_key, output_script, found)
}

/// There is only one lock time to report.
proof fn lemma_csv_delay_is_unique(
    revocation_key: Seq<u8>,
    delayed_key: Seq<u8>,
    output_script: Seq<u8>,
    found: u32,
)
    requires
        is_csv_delay(revocation_key, delayed_key, output_script, found),
    ensures
        found == csv_delay_of(revocation_key, delayed_key, output_script),
{
    let other = csv_delay_of(revocation_key, delayed_key, output_script);
    assert(is_csv_delay(revocation_key, delayed_key, output_script, other));
}

/// Tries one lock time.
fn fits(
    revocation_key: &[u8; 33],
    delayed_key: &[u8; 33],
    output_script: &Vec<u8>,
    delay: u16,
) -> (fit: bool)
    ensures
        fit == pays_with_delay(revocation_key@, delayed_key@, output_script@, delay),
{
    match revokeable_redeemscript(revocation_key, delay, delayed_key) {
        Some(script) => {
            let candidate: Vec<u8> = p2wsh(script);
            same_bytes(&candidate, output_script)
        },
        None => false,
    }
}

/// The lock time of the to-local output with this script: the shortest whose to-local script, for
/// these two keys, hashes to it, or [`DEFAULT_CSV_DELAY`] where none does.
pub fn csv_delay(
    revocation_key: &[u8; 33],
    delayed_key: &[u8; 33],
    output_script: &Vec<u8>,
) -> (found: u32)
    ensures
        is_csv_delay(revocation_key@, delayed_key@, output_script@, found),
        found == csv_delay_of(revocation_key@, delayed_key@, output_script@),
        (exists|d: u16| #[trigger]
            pays_with_delay(revocation_key@, delayed_key@, output_script@, d)) ==> found
            <= MAX_CSV_DELAY && pays_with_delay(
            revocation_key@,
            delayed_key@,
            output_script@,
            found as u16,
        ),
{
    let mut delay: u32 = 0;
    while delay <= MAX_CSV_DELAY
        invariant
            delay <= MAX_CSV_DELAY + 1,
            forall|d: u16|
                d < delay ==> !#[trigger] pays_with_delay(
                    revocation_key@,
                    delayed_key@,
                    output_script@,
                    d,
                ),
        decreases MAX_CSV_DELAY + 1 - delay,
    {
        if fits(revocation_key, delayed_key, output_script, delay as u16) {
            proof {
                lemma_csv_delay_is_unique(revocation_key@, delayed_key@, output_script@, delay);
            }
            return delay;
        }
        delay += 1;
    }
    proof {
        lemma_csv_delay_is_unique(
            revocation_key@,
            delayed_key@,
            output_script@,
            DEFAULT_CSV_DELAY,
        );
    }
    DEFAULT_CSV_DELAY
}

} // verus!
