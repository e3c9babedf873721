//! API keys: how a raw key is made, stored (only as a hash) and judged.
use vstd::prelude::*;
use rand::RngExt;
use sha2::Digest;
use vstd::string::StringSliceAdditionalSpecFns;

use crate::error::{unauthorized, AitError};
use crate::middleware::{key_usable, verify_key};
use crate::models::{ApiKeyContext, ApiKeyInfo};
use crate::records::ApiKey;
use crate::utils::{mask_api_key, masked};

verus! {

/// The SHA-256 digest of some bytes.
pub uninterp spec fn sha256_digest(b: Seq<u8>) -> Seq<u8>;

/// `Sha256::new()`, `update(b)`, `finalize()`: the 32-byte digest of `b`.
#[verifier::external_body]
fn sha256(b: &[u8]) -> (r: Vec<u8>)
    ensures
        r@ == sha256_digest(b@),
        r@.len() == 32,
{
    let mut hasher = sha2::Sha256::new();
    hasher.update(b);
    hasher.finalize().to_vec()
}

/// The lowercase hex digit for `n` (below 16).
pub open spec fn hex_digit(n: u8) -> char {
    if n < 10 { ((48 + n) as u8) as char } else { ((87 + n) as u8) as char }
}

/// Lowercase hex, two digits per byte, high nibble first.
pub open spec fn hex_of(b: Seq<u8>) -> Seq<char>
    decreases b.len(),
{
    if b.len() == 0 {
        Seq::empty()
    } else {
        hex_of(b.drop_last()).push(hex_digit(b.last() / 16)).push(hex_digit(b.last() % 16))
    }
}

/// `hex::encode`: lowercase hex, two digits per byte, high nibble first.
#[verifier::external_body]
fn hex_encode(b: &[u8]) -> (r: String)
    ensures
        r@ == hex_of(b@),
{
    hex::encode(b)
}

/// The hash a key is stored and looked up under: the hex SHA-256 of its
/// UTF-8 bytes.
pub fn hash_key(key: &str) -> (r: String)
    ensures
        r@ == stored_hash(key@),
{
    let d = sha256(key.as_bytes());
    hex_encode(d.as_slice())
}

/// The characters a generated key is drawn from.
pub open spec fn key_alphabet() -> Seq<char> {
    "abcdefghijklmnopqrstuvwxyzABCDEFGHIJKLMNOPQRSTUVWXYZ0123456789"@
}

/// `rand::rng().random_range(0..n)`: some index below `n`.
#[verifier::external_body]
fn random_below(n: usize) -> (r: usize)
    requires
        n > 0,
    ensures
        r < n,
{
    rand::rng().random_range(0..n)
}

/// Whether `key` looks like a generated key: `sk-` and 32 characters of the
/// alphabet.
pub open spec fn generated_shape(key: Seq<char>) -> bool {
    &&& key.len() == 35
    &&& key.take(3) == "sk-"@
    &&& forall|i: int| 3 <= i < 35 ==> key_alphabet().contains(#[trigger] key[i])
}

/// A fresh random key.
pub fn generate_api_key() -> (r: String)
    ensures
        generated_shape(r@),
{
    let alphabet = crate::text::chars_of("abcdefghijklmnopqrstuvwxyzABCDEFGHIJKLMNOPQRSTUVWXYZ0123456789");
    proof {
        reveal_strlit("abcdefghijklmnopqrstuvwxyzABCDEFGHIJKLMNOPQRSTUVWXYZ0123456789");
        reveal_strlit("sk-");
    }
    let mut key = String::new();
    key.push('s');
    key.push('k');
    key.push('-');
    let mut i: usize = 0;
    while i < 32
        invariant
            i <= 32,
            alphabet@ == key_alphabet(),
            alphabet@.len() == 62,
            key@.len() == 3 + i,
            key@.take(3) == "sk-"@,
            forall|k: int| 3 <= k < 3 + i ==> key_alphabet().contains(#[trigger] key@[k]),
        decreases 32 - i,
    {
        let j = random_below(alphabet.len());
        let ghost before = key@;
        key.push(alphabet[j]);
        proof {
            assert(key@.take(3) =~= before.take(3));
            assert(key@[3 + i] == alphabet@[j as int]);
            assert forall|k: int| 3 <= k < 3 + i + 1 implies key_alphabet().contains(#[trigger] key@[k]) by {
                if k < 3 + i {
                    assert(key@[k] == before[k]);
                }
            }
        }
        i = i + 1;
    }
    key
}

/// What a new key is listed as: its first six and last three characters.
pub fn key_display(raw: &str) -> (r: String)
    ensures
        r@ == masked(raw@, 6, 3),
{
    mask_api_key(raw)
}

/// The hash a raw key is stored and looked up under.
pub open spec fn stored_hash(raw: Seq<char>) -> Seq<char> {
    hex_of(sha256_digest(vstd::utf8::encode_utf8(raw)))
}

/// A new key record with id `id`, named `name`: a fresh random raw key,
/// stored only as its hash and listed by its mask, enabled, created and
/// updated at `now`. Returns the record and the raw key, shown once.
pub fn new_api_key(id: String, name: &str, expires_at: Option<i64>, now: i64) -> (r: (ApiKey, String))
    ensures
        generated_shape(r.1@),
        r.0.key@ == stored_hash(r.1@),
        r.0.display@ == masked(r.1@, 6, 3),
        r.0.id == id,
        r.0.name@ == name@,
        r.0.enabled,
        r.0.expires_at == expires_at,
        r.0.created_at == now,
        r.0.updated_at == now,
{
    let raw = generate_api_key();
    let key = hash_key(raw.as_str());
    let display = key_display(raw.as_str());
    let record = ApiKey {
        id,
        key,
        display,
        name: name.to_string(),
        created_at: now,
        updated_at: now,
        enabled: true,
        expires_at,
    };
    (record, raw)
}

/// What the proxy does with a looked-up key: a usable key passes with its
/// identity; an unknown key is refused and remembered as invalid while the
/// invalid-key cache has room.
pub fn judge_lookup(found: Option<&ApiKeyInfo>, now: i64, invalid_cached: usize, cache_max_entries: u64) -> (r: (
    Result<ApiKeyContext, (u16, AitError)>,
    bool,
))
    ensures
        match found {
            Some(info) => !r.1 && match r.0 {
                Ok(ctx) => key_usable(*info, now) && ctx.name == Some(info.name),
                Err(e) => !key_usable(*info, now) && e.0 == 401 && e.1.code == 401
                    && e.1.message@ == "Unauthorized: invalid or missing API key"@,
            },
            None => r.1 == (invalid_cached < cache_max_entries) && (r.0 matches Err(e) && e.0 == 401
                && e.1.code == 401 && e.1.message@ == "Unauthorized: invalid or missing API key"@),
        },
{
    match found {
        Some(info) => (verify_key(info, now), false),
        None => (
            Err(unauthorized("Unauthorized: invalid or missing API key")),
            (invalid_cached as u64) < cache_max_entries,
        ),
    }
}

} // verus!
