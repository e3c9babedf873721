//! Validation of names and identifiers taken from admin requests.
use vstd::prelude::*;

use crate::error::AitError;
use crate::text::{chars_of, concat, decimal, decimal_string, string_of_range, trim, trim_bounds, utf8_len, utf8_len_exceeds};

verus! {

pub open spec fn is_ascii_alnum(c: char) -> bool {
    ||| 'a' <= c <= 'z'
    ||| 'A' <= c <= 'Z'
    ||| '0' <= c <= '9'
}

pub open spec fn is_ascii_hex(c: char) -> bool {
    ||| 'a' <= c <= 'f'
    ||| 'A' <= c <= 'F'
    ||| '0' <= c <= '9'
}

pub open spec fn spec_ident_char(c: char) -> bool {
    is_ascii_alnum(c) || c == ' ' || c == '_' || c == '-' || c == '.'
}

pub open spec fn spec_model_name_char(c: char) -> bool {
    spec_ident_char(c) || c == ':'
}

pub open spec fn spec_upstream_model_char(c: char) -> bool {
    spec_model_name_char(c) || c == '/' || c == '(' || c == ')' || c == '@'
}

pub open spec fn spec_uuid_char(c: char) -> bool {
    is_ascii_hex(c) || c == '-'
}

pub fn ident_chars(c: char) -> (b: bool)
    ensures
        b == spec_ident_char(c),
{
    ('a' <= c && c <= 'z') || ('A' <= c && c <= 'Z') || ('0' <= c && c <= '9') || c == ' '
        || c == '_' || c == '-' || c == '.'
}

pub fn model_name_chars(c: char) -> (b: bool)
    ensures
        b == spec_model_name_char(c),
{
    ident_chars(c) || c == ':'
}

pub fn upstream_model_chars(c: char) -> (b: bool)
    ensures
        b == spec_upstream_model_char(c),
{
    model_name_chars(c) || c == '/' || c == '(' || c == ')' || c == '@'
}

pub fn uuid_chars(c: char) -> (b: bool)
    ensures
        b == spec_uuid_char(c),
{
    ('a' <= c && c <= 'f') || ('A' <= c && c <= 'F') || ('0' <= c && c <= '9') || c == '-'
}

/// Message for a value that is empty once trimmed.
pub open spec fn empty_message(field: Seq<char>) -> Seq<char> {
    field + " must not be empty"@
}

/// Message for a value longer than `max` bytes.
pub open spec fn too_long_message(field: Seq<char>, max: nat) -> Seq<char> {
    field + " must not exceed "@ + decimal(max) + " characters"@
}

/// Message for a value with a character outside the allowed set.
pub open spec fn invalid_chars_message(field: Seq<char>) -> Seq<char> {
    field + " contains invalid characters"@
}

/// Trim `value` and check it is non-empty, at most `max` bytes long, and made
/// only of characters `allowed_chars` accepts. Returns the trimmed value.
pub fn validate_string<F: Fn(char) -> bool>(
    value: &str,
    field_name: &str,
    max: usize,
    allowed_chars: F,
) -> (r: Result<String, AitError>)
    requires
        forall|c: char| allowed_chars.requires((c,)),
    ensures
        ({
            let t = trim(value@);
            &&& t.len() == 0 ==> (r matches Err(e) && e.code == 400
                && e.message@ == empty_message(field_name@))
            &&& t.len() > 0 && utf8_len(t) > max ==> (r matches Err(e) && e.code == 400
                && e.message@ == too_long_message(field_name@, max as nat))
            &&& t.len() > 0 && utf8_len(t) <= max ==> match r {
                Ok(s) => s@ == t && forall|i: int|
                    0 <= i < t.len() ==> allowed_chars.ensures((#[trigger] t[i],), true),
                Err(e) => e.code == 400 && e.message@ == invalid_chars_message(field_name@)
                    && exists|i: int|
                    0 <= i < t.len() && allowed_chars.ensures((#[trigger] t[i],), false),
            }
        }),
        r matches Err(e) ==> e.detail is None && e.code == 400
            && e.error_type@ == "invalid_request_error"@,
{
    let v = chars_of(value);
    let (i, j) = trim_bounds(&v);
    let ghost t = trim(value@);
    if i == j {
        let msg = concat(field_name, " must not be empty");
        return Err(AitError::bad_request(msg.as_str()));
    }
    let trimmed = string_of_range(&v, i, j);
    let tv = chars_of(trimmed.as_str());
    if utf8_len_exceeds(&tv, max) {
        let a = concat(field_name, " must not exceed ");
        let b = concat(a.as_str(), decimal_string(max as u64).as_str());
        let msg = concat(b.as_str(), " characters");
        return Err(AitError::bad_request(msg.as_str()));
    }
    let mut k: usize = 0;
    while k < tv.len()
        invariant
            k <= tv.len(),
            tv@ == t,
            t == trim(value@),
            t.len() > 0,
            utf8_len(t) <= max,
            forall|c: char| allowed_chars.requires((c,)),
            forall|q: int| 0 <= q < k ==> allowed_chars.ensures((#[trigger] t[q],), true),
        decreases tv.len() - k,
    {
        let ok = allowed_chars(tv[k]);
        if !ok {
            assert(allowed_chars.ensures((t[k as int],), false));
            let msg = concat(field_name, " contains invalid characters");
            return Err(AitError::bad_request(msg.as_str()));
        }
        k = k + 1;
    }
    Ok(trimmed)
}

} // verus!
