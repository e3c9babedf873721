//! Stored providers, models and API keys, and how partial updates change
//! them.
use vstd::prelude::*;

use crate::error::DbError;
use crate::models::{ApiKeyUpdate, ModelUpdate, ProviderType, ProviderUpdate};
use crate::text::{concat, debug_quoted, debug_str, signed_decimal, signed_decimal_string};
use crate::utils::{mask_api_key, masked};

verus! {

/// A stored upstream provider; times are Unix seconds. Its debug text
/// (`debug_text`) never shows the API key.
pub struct Provider {
    pub id: String,
    pub name: String,
    pub provider_type: ProviderType,
    pub base_url: String,
    pub api_key: Option<String>,
    pub enabled: bool,
    pub created_at: i64,
    pub updated_at: i64,
}

/// A stored model route.
#[derive(Debug)]
pub struct Model {
    pub id: String,
    pub name: String,
    pub provider_id: String,
    pub upstream_model: String,
    pub enabled: bool,
    pub created_at: i64,
    pub updated_at: i64,
}

/// A stored API key: its hash, never the key itself.
#[derive(Debug)]
pub struct ApiKey {
    pub id: String,
    /// The SHA-256 hash of the raw key.
    pub key: String,
    /// The masked raw key, as listings show it.
    pub display: String,
    pub name: String,
    pub created_at: i64,
    pub updated_at: i64,
    pub enabled: bool,
    pub expires_at: Option<i64>,
}

pub open spec fn keep_or<T>(old: T, new: Option<T>) -> T {
    match new {
        Some(v) => v,
        None => old,
    }
}

fn take_or<T>(old: T, new: Option<T>) -> (r: T)
    ensures
        r == keep_or(old, new),
{
    match new {
        Some(v) => v,
        None => old,
    }
}

/// A provider after `u` at `now`: each given field replaces the stored one;
/// an empty key clears the stored key; the id and creation time stay.
pub fn apply_provider_update(p: Provider, u: &ProviderUpdate, now: i64) -> (r: Provider)
    ensures
        r.id == p.id,
        r.name == keep_or(p.name, u.name),
        r.provider_type == keep_or(p.provider_type, u.provider_type),
        r.base_url == keep_or(p.base_url, u.base_url),
        r.api_key == (match u.api_key {
            None => p.api_key,
            Some(k) => if k@.len() == 0 { None } else { Some(k) },
        }),
        r.enabled == keep_or(p.enabled, u.enabled),
        r.created_at == p.created_at,
        r.updated_at == now,
{
    let api_key = match &u.api_key {
        None => p.api_key,
        Some(k) => if k.as_str().is_empty() { None } else { Some(k.clone()) },
    };
    Provider {
        id: p.id,
        name: take_or(p.name, u.name.clone()),
        provider_type: take_or(p.provider_type, u.provider_type),
        base_url: take_or(p.base_url, u.base_url.clone()),
        api_key,
        enabled: take_or(p.enabled, u.enabled),
        created_at: p.created_at,
        updated_at: now,
    }
}

/// A model after `u` at `now`: each given field replaces the stored one.
pub fn apply_model_update(m: Model, u: &ModelUpdate, now: i64) -> (r: Model)
    ensures
        r.id == m.id,
        r.name == m.name,
        r.provider_id == keep_or(m.provider_id, u.provider_id),
        r.upstream_model == keep_or(m.upstream_model, u.upstream_model),
        r.enabled == keep_or(m.enabled, u.enabled),
        r.created_at == m.created_at,
        r.updated_at == now,
{
    Model {
        id: m.id,
        name: m.name,
        provider_id: take_or(m.provider_id, u.provider_id.clone()),
        upstream_model: take_or(m.upstream_model, u.upstream_model.clone()),
        enabled: take_or(m.enabled, u.enabled),
        created_at: m.created_at,
        updated_at: now,
    }
}

/// A key after `u` at `now`: a given name or state replaces the stored
/// one; an expiry of `0` clears it; the hash stays.
pub fn apply_key_update(k: ApiKey, u: &ApiKeyUpdate, now: i64) -> (r: ApiKey)
    ensures
        r.id == k.id,
        r.key == k.key,
        r.display == k.display,
        r.name == keep_or(k.name, u.name),
        r.enabled == keep_or(k.enabled, u.enabled),
        r.expires_at == (match u.expires_at {
            None => k.expires_at,
            Some(t) => if t == 0 { None } else { Some(t) },
        }),
        r.created_at == k.created_at,
        r.updated_at == now,
{
    let expires_at = match u.expires_at {
        None => k.expires_at,
        Some(t) => if t == 0 { None } else { Some(t) },
    };
    ApiKey {
        id: k.id,
        key: k.key,
        display: k.display,
        name: take_or(k.name, u.name.clone()),
        enabled: take_or(k.enabled, u.enabled),
        expires_at,
        created_at: k.created_at,
        updated_at: now,
    }
}

/// The variant name of a provider type, as `{:?}` prints it.
pub open spec fn type_variant(t: ProviderType) -> Seq<char> {
    match t {
        ProviderType::OpenAICompat => "OpenAICompat"@,
        ProviderType::DeepSeek => "DeepSeek"@,
        ProviderType::Zhipu => "Zhipu"@,
        ProviderType::Ollama => "Ollama"@,
        ProviderType::Llamacpp => "Llamacpp"@,
    }
}

pub fn type_variant_name(t: ProviderType) -> (r: &'static str)
    ensures
        r@ == type_variant(t),
{
    match t {
        ProviderType::OpenAICompat => "OpenAICompat",
        ProviderType::DeepSeek => "DeepSeek",
        ProviderType::Zhipu => "Zhipu",
        ProviderType::Ollama => "Ollama",
        ProviderType::Llamacpp => "Llamacpp",
    }
}

/// A provider in the layout of `{:?}` on a struct, with the API key
/// replaced by `"***"` when there is one.
pub open spec fn provider_debug(p: Provider) -> Seq<char> {
    "Provider { id: "@ + debug_quoted(p.id@) + ", name: "@ + debug_quoted(p.name@)
        + ", provider_type: "@ + type_variant(p.provider_type) + ", base_url: "@ + debug_quoted(p.base_url@)
        + ", api_key: "@ + (if p.api_key is Some { "Some("@ + debug_quoted("***"@) + ")"@ } else { "None"@ })
        + ", enabled: "@ + (if p.enabled { "true"@ } else { "false"@ }) + ", created_at: "@
        + signed_decimal(p.created_at as int) + ", updated_at: "@ + signed_decimal(p.updated_at as int) + " }"@
}

impl Provider {
    /// The provider for logs and diagnostics, its API key masked.
    pub fn debug_text(&self) -> (r: String)
        ensures
            r@ == provider_debug(*self),
    {
        let mut t = concat("Provider { id: ", debug_str(self.id.as_str()).as_str());
        t = concat(t.as_str(), ", name: ");
        t = concat(t.as_str(), debug_str(self.name.as_str()).as_str());
        t = concat(t.as_str(), ", provider_type: ");
        t = concat(t.as_str(), type_variant_name(self.provider_type));
        t = concat(t.as_str(), ", base_url: ");
        t = concat(t.as_str(), debug_str(self.base_url.as_str()).as_str());
        t = concat(t.as_str(), ", api_key: ");
        if self.api_key.is_some() {
            t = concat(t.as_str(), "Some(");
            t = concat(t.as_str(), debug_str("***").as_str());
            t = concat(t.as_str(), ")");
        } else {
            t = concat(t.as_str(), "None");
        }
        t = concat(t.as_str(), ", enabled: ");
        t = concat(t.as_str(), if self.enabled { "true" } else { "false" });
        t = concat(t.as_str(), ", created_at: ");
        t = concat(t.as_str(), signed_decimal_string(self.created_at).as_str());
        t = concat(t.as_str(), ", updated_at: ");
        t = concat(t.as_str(), signed_decimal_string(self.updated_at).as_str());
        t = concat(t.as_str(), " }");
        proof {
            reveal_strlit("***");
        }
        t
    }
}

/// An API key as the console API returns it: the raw key once, when it is
/// created, and its masked form afterwards.
#[derive(Debug)]
pub struct ApiKeyResponse {
    pub id: String,
    pub key: String,
    pub name: String,
    pub created_at: i64,
    pub updated_at: i64,
    pub enabled: bool,
    pub expires_at: Option<i64>,
}

/// The response for a stored key, showing `shown` as the key.
pub fn key_response(k: ApiKey, shown: String) -> (r: ApiKeyResponse)
    ensures
        r.id == k.id,
        r.key == shown,
        r.name == k.name,
        r.created_at == k.created_at,
        r.updated_at == k.updated_at,
        r.enabled == k.enabled,
        r.expires_at == k.expires_at,
{
    ApiKeyResponse {
        id: k.id,
        key: shown,
        name: k.name,
        created_at: k.created_at,
        updated_at: k.updated_at,
        enabled: k.enabled,
        expires_at: k.expires_at,
    }
}

/// The listing form of a stored key: its masked display.
pub fn listed_key(k: ApiKey) -> (r: ApiKeyResponse)
    ensures
        r.id == k.id,
        r.key == k.display,
        r.name == k.name,
        r.enabled == k.enabled,
        r.expires_at == k.expires_at,
{
    let shown = k.display.clone();
    key_response(k, shown)
}

/// The error for a provider id that is not stored.
pub fn provider_not_found(id: &str) -> (r: DbError)
    ensures
        r matches DbError::NotFound(m) && m@ == "Provider '"@ + id@ + "' not found"@,
{
    let a = concat("Provider '", id);
    DbError::NotFound(concat(a.as_str(), "' not found"))
}

/// The error for a model name that is not stored.
pub fn model_not_found(name: &str) -> (r: DbError)
    ensures
        r matches DbError::NotFound(m) && m@ == "Model '"@ + name@ + "' not found"@,
{
    let a = concat("Model '", name);
    DbError::NotFound(concat(a.as_str(), "' not found"))
}

/// The error for an API key id that is not stored.
pub fn key_not_found() -> (r: DbError)
    ensures
        r matches DbError::NotFound(m) && m@ == "API key not found"@,
{
    DbError::NotFound("API key not found".to_string())
}

/// A provider's key as the console shows it: masked.
pub fn masked_provider_key(api_key: &Option<String>) -> (r: Option<String>)
    ensures
        match *api_key {
            Some(k) => r matches Some(m) && m@ == masked(k@, 6, 3),
            None => r is None,
        },
{
    match api_key {
        Some(k) => Some(mask_api_key(k.as_str())),
        None => None,
    }
}

} // verus!
