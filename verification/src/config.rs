//! Rules about the API key that the command line accepts and shows.

use crate::text::{chars_of, extend_from_range, push_text, string_of};
use vstd::prelude::*;

verus! {

/// Whether `key` has the shape of an API key: it starts with `sk-`.
pub open spec fn has_key_format(key: Seq<char>) -> bool {
    key.len() >= 3 && key[0] == 's' && key[1] == 'k' && key[2] == '-'
}

/// How a stored key is shown: the first six and the last four characters of
/// a key of more than ten, and nothing of a shorter one.
pub open spec fn masked_key(key: Seq<char>) -> Seq<char> {
    if key.len() > 10 {
        key.take(6) + "..."@ + key.skip(key.len() - 4)
    } else {
        "***"@
    }
}

/// Checks the shape of an API key before it is stored.
pub fn is_valid_key_format(key: &str) -> (r: bool)
    ensures
        r == has_key_format(key@),
{
    let chars = chars_of(key);
    chars.len() >= 3 && chars[0] == 's' && chars[1] == 'k' && chars[2] == '-'
}

/// The form in which a stored key is shown.
pub fn mask_api_key(key: &str) -> (r: String)
    ensures
        r@ == masked_key(key@),
{
    let chars = chars_of(key);
    let n: usize = chars.len();
    if n > 10 {
        let mut shown: Vec<char> = Vec::new();
        extend_from_range(&mut shown, &chars, 0, 6);
        push_text(&mut shown, "...");
        extend_from_range(&mut shown, &chars, n - 4, n);
        proof {
            assert(chars@.subrange(0, 6) =~= chars@.take(6));
            assert(chars@.subrange(n - 4, n as int) =~= chars@.skip(n - 4));
        }
        string_of(&shown)
    } else {
        "***".to_owned()
    }
}

} // verus!
