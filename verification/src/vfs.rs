//! Names under which a storage backend is registered with the SQL engine.
//! Each name is the prefix `local-vfs-` and a number in decimal.

use vstd::prelude::*;

verus! {

/// Appending a character. Specifies `String::push` of std, which appends the
/// given character to the end of the string.
pub assume_specification[ String::push ](string: &mut String, ch: char)
    ensures
        final(string)@ == old(string)@.push(ch),
;

/// A number drawn at random. Calls `rand::random` for a `u64`; nothing is
/// claimed of the number.
#[verifier::external_body]
fn random_nonce() -> u64 {
    rand::random::<u64>()
}

/// The character of the decimal digit `digit`.
pub open spec fn digit_char(digit: nat) -> char
    recommends
        digit < 10,
{
    ((48 + digit) as u8) as char
}

/// The decimal digits of `number`, most significant first, without leading
/// zeroes.
pub open spec fn decimal(number: nat) -> Seq<char>
    decreases number,
{
    if number < 10 {
        seq![digit_char(number)]
    } else {
        decimal(number / 10).push(digit_char(number % 10))
    }
}

/// The name that carries `nonce`.
pub open spec fn vfs_name_of(nonce: u64) -> Seq<char> {
    "local-vfs-"@ + decimal(nonce as nat)
}

/// Append the decimal digits of `number` to `text`.
fn push_decimal(text: &mut String, number: u64)
    ensures
        final(text)@ == old(text)@ + decimal(number as nat),
    decreases number,
{
    if number >= 10 {
        push_decimal(text, number / 10);
    }
    let digit: u8 = (number % 10) as u8;
    text.push((48 + digit) as char);
    assert(text@ =~= old(text)@ + decimal(number as nat));
}

/// The name that carries `nonce`: `local-vfs-` and `nonce` in decimal.
pub fn vfs_name(nonce: u64) -> (name: String)
    ensures
        name@ == vfs_name_of(nonce),
{
    let mut name = "local-vfs-".to_owned();
    push_decimal(&mut name, nonce);
    name
}

/// A name that carries a number drawn at random, so that two backends
/// registered in one process are unlikely to share a name.
pub fn fresh_vfs_name() -> (name: String)
    ensures
        exists|nonce: u64| name@ == vfs_name_of(nonce),
{
    let nonce = random_nonce();
    vfs_name(nonce)
}

} // verus!
