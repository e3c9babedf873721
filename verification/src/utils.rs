//! Masking of secrets for display.
use vstd::prelude::*;

use crate::text::{chars_of, push_range};

verus! {

/// The six-star mask that stands in for hidden characters.
pub open spec fn stars() -> Seq<char> {
    seq!['*', '*', '*', '*', '*', '*']
}

/// `value` with all but its first `prefix_len` and last `suffix_len`
/// characters replaced by six stars; all stars when the two parts would
/// overlap or touch.
pub open spec fn masked(value: Seq<char>, prefix_len: nat, suffix_len: nat) -> Seq<char> {
    if value.len() <= prefix_len + suffix_len {
        stars()
    } else {
        value.take(prefix_len as int) + stars() + value.skip(value.len() - suffix_len)
    }
}

fn push_stars(out: &mut String)
    ensures
        final(out)@ == old(out)@ + stars(),
{
    let ghost start = out@;
    out.push('*');
    out.push('*');
    out.push('*');
    out.push('*');
    out.push('*');
    out.push('*');
    assert(out@ == start + stars());
}

/// Mask a sensitive string by keeping `prefix_len` leading chars and
/// `suffix_len` trailing chars, replacing the middle with `******`.
///
/// If the value is too short to show both parts without overlap, the whole
/// value is replaced with `******`.
pub fn mask_sensitive_value(value: &str, prefix_len: usize, suffix_len: usize) -> (r: String)
    requires
        prefix_len + suffix_len <= usize::MAX,
    ensures
        r@ == masked(value@, prefix_len as nat, suffix_len as nat),
{
    let chars = chars_of(value);
    let mut out = String::new();
    if chars.len() <= prefix_len + suffix_len {
        push_stars(&mut out);
        assert(out@ == stars());
    } else {
        let n = chars.len();
        push_range(&mut out, &chars, 0, prefix_len);
        push_stars(&mut out);
        push_range(&mut out, &chars, n - suffix_len, n);
        assert(chars@.subrange(0, prefix_len as int) == value@.take(prefix_len as int));
        assert(chars@.subrange(n - suffix_len, n as int) == value@.skip(n - suffix_len));
    }
    out
}

/// Mask an API key: keep the first 6 and last 3 chars.
pub fn mask_api_key(key: &str) -> (r: String)
    ensures
        r@ == masked(key@, 6, 3),
{
    mask_sensitive_value(key, 6, 3)
}

} // verus!
