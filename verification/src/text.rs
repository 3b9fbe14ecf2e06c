//! Identifiers as text: lower-case hexadecimal and decimal.

use vstd::prelude::*;

verus! {

/// `String::push`: claimed is that it adds the character at the end.
pub assume_specification[ String::push ](s: &mut String, c: char)
    ensures
        final(s)@ == old(s)@.push(c),
;

/// The hexadecimal digit of a number below sixteen, lower-case.
pub open spec fn hex_digit(n: int) -> char {
    "0123456789abcdef"@[n]
}

/// Two digits for each byte, the high one first.
pub open spec fn hex(bytes: Seq<u8>) -> Seq<char> {
    Seq::new(
        2 * bytes.len(),
        |i: int|
            hex_digit(
                if i % 2 == 0 {
                    bytes[i / 2] as int / 16
                } else {
                    bytes[i / 2] as int % 16
                },
            ),
    )
}

/// A transaction id as text: its bytes in hexadecimal, last byte first.
pub open spec fn txid_text(txid: Seq<u8>) -> Seq<char> {
    hex(txid.reverse())
}

/// A number in decimal, without leading zeros.
pub open spec fn decimal(n: nat) -> Seq<char>
    decreases n,
{
    if n < 10 {
        seq![hex_digit(n as int)]
    } else {
        decimal(n / 10).push(hex_digit((n % 10) as int))
    }
}

/// An outpoint as text: the transaction id, a colon and the output's index.
pub open spec fn outpoint_text(txid: Seq<u8>, index: u16) -> Seq<char> {
    txid_text(txid) + seq![':'] + decimal(index as nat)
}

/// The digit of a number below sixteen.
fn digit(n: u8) -> (c: char)
    requires
        n < 16,
    ensures
        c == hex_digit(n as int),
{
    proof {
        reveal_strlit("0123456789abcdef");
    }
    match n {
        0 => '0',
        1 => '1',
        2 => '2',
        3 => '3',
        4 => '4',
        5 => '5',
        6 => '6',
        7 => '7',
        8 => '8',
        9 => '9',
        10 => 'a',
        11 => 'b',
        12 => 'c',
        13 => 'd',
        14 => 'e',
        _ => 'f',
    }
}

/// Adds the two digits of a byte.
fn push_byte(text: &mut String, byte: u8)
    ensures
        final(text)@ == old(text)@ + hex(seq![byte]),
{
    text.push(digit(byte / 16));
    text.push(digit(byte % 16));
    assert(text@ =~= old(text)@ + hex(seq![byte]));
}

/// Bytes as lower-case hexadecimal.
pub fn hex_string(bytes: &[u8]) -> (text: String)
    ensures
        text@ == hex(bytes@),
{
    let mut text: String = String::new();
    let mut i: usize = 0;
    assert(text@ =~= hex(bytes@.take(0)));
    while i < bytes.len()
        invariant
            i <= bytes@.len(),
            text@ == hex(bytes@.take(i as int)),
        decreases bytes@.len() - i,
    {
        push_byte(&mut text, bytes[i]);
        proof {
            assert(hex(bytes@.take(i as int)) + hex(seq![bytes@[i as int]]) =~= hex(
                bytes@.take(i + 1),
            ));
        }
        i += 1;
    }
    assert(bytes@.take(i as int) =~= bytes@);
    text
}

/// A transaction id as it is written: last byte first.
pub fn txid_string(txid: &[u8; 32]) -> (text: String)
    ensures
        text@ == txid_text(txid@),
{
    let mut text: String = String::new();
    let mut i: usize = 32;
    assert(text@ =~= hex(txid@.reverse().take(0)));
    while 0 < i
        invariant
            i <= 32,
            text@ == hex(txid@.reverse().take(32 - i)),
        decreases i,
    {
        i -= 1;
        push_byte(&mut text, txid[i]);
        proof {
            let reversed = txid@.reverse();
            assert(reversed[31 - i] == txid@[i as int]);
            assert(hex(reversed.take(31 - i)) + hex(seq![txid@[i as int]]) =~= hex(
                reversed.take(32 - i),
            ));
        }
    }
    assert(txid@.reverse().take(32) =~= txid@.reverse());
    text
}

/// Adds a number in decimal.
fn push_decimal(text: &mut String, n: u16)
    ensures
        final(text)@ == old(text)@ + decimal(n as nat),
    decreases n,
{
    if n >= 10 {
        push_decimal(text, n / 10);
    }
    text.push(digit((n % 10) as u8));
    assert(text@ =~= old(text)@ + decimal(n as nat));
}

/// An outpoint as it is written: `txid:index`.
pub fn outpoint_string(txid: &[u8; 32], index: u16) -> (text: String)
    ensures
        text@ == outpoint_text(txid@, index),
{
    let mut text: String = txid_string(txid);
    text.push(':');
    push_decimal(&mut text, index);
    assert(text@ =~= outpoint_text(txid@, index));
    text
}

} // verus!
