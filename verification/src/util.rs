//! Small helpers shared by the engine: entropy for snapshot ids, fresh object
//! names, and decimal rendering of identifiers for object paths.

use vstd::prelude::*;

use crate::Error;

verus! {

/// The decimal digit character for `d` (`0 <= d < 10`).
pub open spec fn dec_digit(d: int) -> char {
    if d == 0 {
        '0'
    } else if d == 1 {
        '1'
    } else if d == 2 {
        '2'
    } else if d == 3 {
        '3'
    } else if d == 4 {
        '4'
    } else if d == 5 {
        '5'
    } else if d == 6 {
        '6'
    } else if d == 7 {
        '7'
    } else if d == 8 {
        '8'
    } else {
        '9'
    }
}

/// The decimal rendering of a non-negative integer, most significant digit
/// first and without leading zeros (`0` renders as `"0"`).
pub open spec fn dec_rep(n: int) -> Seq<char>
    decreases n,
{
    if n < 10 {
        seq![dec_digit(n)]
    } else {
        dec_rep(n / 10).push(dec_digit(n % 10))
    }
}

fn digit_str(d: u64) -> (r: &'static str)
    requires
        d < 10,
    ensures
        r@ == seq![dec_digit(d as int)],
{
    proof {
        reveal_strlit("0");
        reveal_strlit("1");
        reveal_strlit("2");
        reveal_strlit("3");
        reveal_strlit("4");
        reveal_strlit("5");
        reveal_strlit("6");
        reveal_strlit("7");
        reveal_strlit("8");
        reveal_strlit("9");
    }
    match d {
        0 => "0",
        1 => "1",
        2 => "2",
        3 => "3",
        4 => "4",
        5 => "5",
        6 => "6",
        7 => "7",
        8 => "8",
        _ => "9",
    }
}

/// Renders `n` in decimal.
pub fn format_u64(n: u64) -> (r: String)
    ensures
        r@ == dec_rep(n as int),
    decreases n,
{
    if n < 10 {
        String::from_str(digit_str(n))
    } else {
        let prefix = format_u64(n / 10);
        prefix.concat(digit_str(n % 10))
    }
}

/// Renders a non-negative `i64` in decimal.
pub fn format_i64_nonneg(n: i64) -> (r: String)
    requires
        n >= 0,
    ensures
        r@ == dec_rep(n as int),
{
    format_u64(n as u64)
}

/// Compares a string with a string slice by contents.
pub fn string_eq_str(a: &String, b: &str) -> (r: bool)
    ensures
        r == (a@ == b@),
{
    let owned_b = b.to_owned();
    *a == owned_b
}

/// Relies on getrandom::getrandom: on success the buffer is filled with
/// entropy from the operating system; nothing is promised of the value.
#[verifier::external_body]
fn os_random_u64() -> (r: Option<u64>) {
    let mut bytes: [u8; 8] = [0u8; 8];
    match getrandom::getrandom(&mut bytes) {
        Ok(()) => Some(u64::from_le_bytes(bytes)),
        Err(_) => None,
    }
}

/// Draws a fresh 63-bit snapshot id from the OS entropy source.
///
/// The value is random; only its range is promised. Fails with `Error::IO`
/// when the entropy source is unavailable.
pub fn generate_snapshot_id() -> (r: Result<i64, Error>)
    ensures
        r is Ok ==> 0 <= r->Ok_0,
        r is Err ==> r->Err_0 is IO,
{
    match os_random_u64() {
        Some(v) => {
            let masked: u64 = v & 0x7fff_ffff_ffff_ffffu64;
            assert(masked <= 0x7fff_ffff_ffff_ffffu64) by (bit_vector)
                requires
                    masked == v & 0x7fff_ffff_ffff_ffffu64,
            ;
            Ok(masked as i64)
        },
        None => Err(Error::IO(String::from_str("entropy source unavailable"))),
    }
}

/// Relies on getrandom::getrandom for the random bytes and on
/// uuid::Builder::from_random_bytes with the hyphenated rendering of
/// uuid::Uuid: a random version-4 UUID formatted as 36 characters, or
/// nothing when the entropy source fails.
#[verifier::external_body]
pub(crate) fn new_uuid_string() -> (r: Option<String>)
    ensures
        r is Some ==> r->0@.len() == 36,
{
    let mut bytes: [u8; 16] = [0u8; 16];
    match getrandom::getrandom(&mut bytes) {
        Ok(()) => Some(uuid::Builder::from_random_bytes(bytes).into_uuid().to_string()),
        Err(_) => None,
    }
}

} // verus!
