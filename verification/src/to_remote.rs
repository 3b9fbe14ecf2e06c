//! The output of a commitment that pays to the side that does not broadcast it.

use crate::bytes::same_bytes;
use crate::ldk::{bytes_view, key_view, output_views};
use vstd::prelude::*;

verus! {

/// Whether the output at position `i` pays to `script` and is not the revokeable one.
pub open spec fn is_to_remote_output(
    outputs: Seq<(u64, Seq<u8>)>,
    revokeable_output_index: Option<usize>,
    script: Seq<u8>,
    i: int,
) -> bool {
    &&& 0 <= i < outputs.len()
    &&& outputs[i].1 == script
    &&& !(revokeable_output_index matches Some(index) && index == i)
}

/// The key that the to-remote output pays to; none where there is no such output. `payment_key` is
/// the key it would pay to, and `script` its output script.
pub open spec fn to_remote_key_of(
    outputs: Seq<(u64, Seq<u8>)>,
    revokeable_output_index: Option<usize>,
    payment_key: Option<Seq<u8>>,
    script: Option<Seq<u8>>,
) -> Option<Seq<u8>> {
    if script is Some && exists|i: int| #[trigger]
        is_to_remote_output(outputs, revokeable_output_index, script->0, i) {
        payment_key
    } else {
        None
    }
}

/// Finds the key that the to-remote output pays to, among the outputs of a commitment.
pub fn to_remote_key(
    outputs: &Vec<(u64, Vec<u8>)>,
    revokeable_output_index: Option<usize>,
    payment_key: Option<[u8; 33]>,
    script: Option<Vec<u8>>,
) -> (key: Option<[u8; 33]>)
    ensures
        key_view(key) == to_remote_key_of(
            output_views(outputs@),
            revokeable_output_index,
            key_view(payment_key),
            bytes_view(script),
        ),
{
    let wanted: &Vec<u8> = match &script {
        Some(script) => script,
        None => return None,
    };
    let mut i: usize = 0;
    while i < outputs.len()
        invariant
            i <= outputs@.len(),
            bytes_view(script) == Some(wanted@),
            forall|j: int|
                0 <= j < i ==> !#[trigger] is_to_remote_output(
                    output_views(outputs@),
                    revokeable_output_index,
                    wanted@,
                    j,
                ),
        decreases outputs@.len() - i,
    {
        let is_revokeable: bool = match revokeable_output_index {
            Some(index) => index == i,
            None => false,
        };
        if !is_revokeable && same_bytes(&outputs[i].1, wanted) {
            assert(is_to_remote_output(
                output_views(outputs@),
                revokeable_output_index,
                bytes_view(script)->0,
                i as int,
            ));
            return payment_key;
        }
        i += 1;
    }
    None
}

} // verus!
