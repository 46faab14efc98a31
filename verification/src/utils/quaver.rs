//! The names of the modes of the YAML-based format.

use vstd::prelude::*;
use crate::utils::numbers::{nat_in_range, read_u8};
use crate::utils::text::{append_decimal, chars_of, decimal, eq_ignore_case, same_ignoring_case,
    string_of};

verus! {

/// The lane count that a mode name like `keys4` writes, whatever the case
/// of its letters.
pub open spec fn keycount_of(name: Seq<char>) -> Option<u8> {
    if name.len() >= 4 && same_ignoring_case(name.subrange(0, 4), "keys"@) {
        match nat_in_range(name.subrange(4, name.len() as int), 255) {
            Some(n) => Some(n as u8),
            None => None,
        }
    } else {
        None
    }
}

pub fn get_keycount_from_str(name: &str) -> (r: Option<u8>)
    ensures
        r == keycount_of(name@),
{
    let v = chars_of(name);
    if v.len() < 4 {
        return None;
    }
    let head = string_of(&v, 0, 4);
    if !eq_ignore_case(head.as_str(), "keys") {
        return None;
    }
    read_u8(&v, 4, v.len())
}

/// The mode name of a lane count.
pub fn get_mode_from_u8(keycount: u8) -> (s: String)
    ensures
        s@ == "keys"@ + decimal(keycount as int),
{
    let mut s = "keys".to_owned();
    append_decimal(&mut s, keycount as i64);
    s
}

} // verus!
