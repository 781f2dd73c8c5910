//! Random identifiers for file and link rows: ten characters drawn
//! uniformly from `A-Z`, `a-z`, `0-9`.

use vstd::prelude::*;

verus! {

use crate::number::string_from_ascii;
use crate::records::{is_id_char, is_valid_id};

/// Relies on rand::random_range: a uniform draw from `0..bound`, which is
/// within the (non-empty) range it was given.
#[verifier::external_body]
fn random_below(bound: usize) -> (r: usize)
    requires
        bound > 0,
    ensures
        r < bound,
{
    rand::random_range(0..bound)
}

/// The byte of the 62-symbol alphabet at position `i`: the upper-case
/// letters, then the lower-case letters, then the digits 1 to 9 and 0.
fn charset_byte(i: usize) -> (r: u8)
    requires
        i < 62,
    ensures
        r < 128,
        is_id_char(r as char),
{
    if i < 26 {
        (65 + i) as u8
    } else if i < 52 {
        (97 + (i - 26)) as u8
    } else if i < 61 {
        (49 + (i - 52)) as u8
    } else {
        48
    }
}

/// A fresh random identifier: `len` characters from the alphabet, ten when
/// no length is asked for.
pub fn generate_id(len: Option<usize>) -> (r: String)
    ensures
        r@.len() == (match len {
            Some(l) => l,
            None => 10,
        }),
        forall|i: int| 0 <= i < r@.len() ==> is_id_char(#[trigger] r@[i]),
        len is None ==> is_valid_id(r@),
{
    let n: usize = match len {
        Some(l) => l,
        None => 10,
    };
    let mut bytes: Vec<u8> = Vec::new();
    let mut i: usize = 0;
    while i < n
        invariant
            i <= n,
            bytes@.len() == i,
            forall|j: int| 0 <= j < i ==> (#[trigger] bytes@[j]) < 128,
            forall|j: int| 0 <= j < i ==> is_id_char((#[trigger] bytes@[j]) as char),
        decreases n - i,
    {
        let pos = random_below(62);
        bytes.push(charset_byte(pos));
        i = i + 1;
    }
    let r = string_from_ascii(bytes);
    proof {
        assert forall|j: int| 0 <= j < r@.len() implies is_id_char(#[trigger] r@[j]) by {
            assert(r@[j] == bytes@[j] as char);
            assert(is_id_char(bytes@[j] as char));
        }
    }
    r
}

} // verus!
