//! Data shapes shared by the storage, analytics and proxy layers.
use vstd::prelude::*;

use crate::error::AitError;
use crate::text::{concat, str_eq};

verus! {

/// The upstream API dialect a provider speaks.
#[derive(Clone, Copy, Debug, PartialEq, Eq, Structural)]
pub enum ProviderType {
    OpenAICompat,
    DeepSeek,
    Zhipu,
    Ollama,
    Llamacpp,
}

/// The name a provider type is stored and serialized under.
pub open spec fn db_name(t: ProviderType) -> Seq<char> {
    match t {
        ProviderType::OpenAICompat => "openai_compat"@,
        ProviderType::DeepSeek => "deepseek"@,
        ProviderType::Zhipu => "zhipu"@,
        ProviderType::Ollama => "ollama"@,
        ProviderType::Llamacpp => "llamacpp"@,
    }
}

/// The provider type stored under `s`; unknown names fall back to
/// `OpenAICompat`, the default.
pub open spec fn from_db_name(s: Seq<char>) -> ProviderType {
    if s == "deepseek"@ {
        ProviderType::DeepSeek
    } else if s == "zhipu"@ {
        ProviderType::Zhipu
    } else if s == "ollama"@ {
        ProviderType::Ollama
    } else if s == "llamacpp"@ {
        ProviderType::Llamacpp
    } else {
        ProviderType::OpenAICompat
    }
}

/// Whether a provider of type `t` serves the endpoint `path`.
pub open spec fn spec_supports(t: ProviderType, path: Seq<char>) -> bool {
    match t {
        ProviderType::DeepSeek => path == "/chat/completions"@ || path == "/responses"@,
        ProviderType::Zhipu => path == "/chat/completions"@ || path == "/embeddings"@,
        _ => path == "/chat/completions"@ || path == "/completions"@ || path == "/embeddings"@
            || path == "/responses"@,
    }
}

impl ProviderType {
    pub fn to_db(&self) -> (s: &'static str)
        ensures
            s@ == db_name(*self),
    {
        match self {
            ProviderType::OpenAICompat => "openai_compat",
            ProviderType::DeepSeek => "deepseek",
            ProviderType::Zhipu => "zhipu",
            ProviderType::Ollama => "ollama",
            ProviderType::Llamacpp => "llamacpp",
        }
    }

    pub fn from_db(s: &str) -> (t: Self)
        ensures
            t == from_db_name(s@),
    {
        if str_eq(s, "deepseek") {
            ProviderType::DeepSeek
        } else if str_eq(s, "zhipu") {
            ProviderType::Zhipu
        } else if str_eq(s, "ollama") {
            ProviderType::Ollama
        } else if str_eq(s, "llamacpp") {
            ProviderType::Llamacpp
        } else {
            ProviderType::OpenAICompat
        }
    }

    pub fn supports_endpoint(&self, path: &str) -> (b: bool)
        ensures
            b == spec_supports(*self, path@),
    {
        match self {
            ProviderType::DeepSeek => str_eq(path, "/chat/completions") || str_eq(path, "/responses"),
            ProviderType::Zhipu => str_eq(path, "/chat/completions") || str_eq(path, "/embeddings"),
            _ => str_eq(path, "/chat/completions") || str_eq(path, "/completions") || str_eq(
                path,
                "/embeddings",
            ) || str_eq(path, "/responses"),
        }
    }

    /// Human-readable name shown in the admin console.
    pub fn display_name(&self) -> (s: &'static str)
        ensures
            s@ == match *self {
                ProviderType::OpenAICompat => "OpenAI Compatible"@,
                ProviderType::DeepSeek => "DeepSeek"@,
                ProviderType::Zhipu => "Zhipu"@,
                ProviderType::Ollama => "Ollama"@,
                ProviderType::Llamacpp => "llama.cpp"@,
            },
    {
        match self {
            ProviderType::OpenAICompat => "OpenAI Compatible",
            ProviderType::DeepSeek => "DeepSeek",
            ProviderType::Zhipu => "Zhipu",
            ProviderType::Ollama => "Ollama",
            ProviderType::Llamacpp => "llama.cpp",
        }
    }

    /// Every provider type, in declaration order.
    pub fn all() -> (v: Vec<ProviderType>)
        ensures
            v@ == seq![
                ProviderType::OpenAICompat,
                ProviderType::DeepSeek,
                ProviderType::Zhipu,
                ProviderType::Ollama,
                ProviderType::Llamacpp,
            ],
    {
        vec![
            ProviderType::OpenAICompat,
            ProviderType::DeepSeek,
            ProviderType::Zhipu,
            ProviderType::Ollama,
            ProviderType::Llamacpp,
        ]
    }
}

/// Round-trip law: the stored name of a provider type reads back as that type.
pub proof fn lemma_provider_type_db_roundtrip(t: ProviderType)
    ensures
        from_db_name(db_name(t)) == t,
{
    reveal_strlit("openai_compat");
    reveal_strlit("deepseek");
    reveal_strlit("zhipu");
    reveal_strlit("ollama");
    reveal_strlit("llamacpp");
    assert("openai_compat"@[0] != "deepseek"@[0]);
    assert("openai_compat"@[0] != "zhipu"@[0]);
    assert("openai_compat"@[1] != "ollama"@[1]);
    assert("openai_compat"@[0] != "llamacpp"@[0]);
    assert("deepseek"@[0] != "zhipu"@[0]);
    assert("deepseek"@[0] != "ollama"@[0]);
    assert("deepseek"@[0] != "llamacpp"@[0]);
    assert("zhipu"@[0] != "ollama"@[0]);
    assert("zhipu"@[0] != "llamacpp"@[0]);
    assert("ollama"@[0] != "llamacpp"@[0]);
}

} // verus!

verus! {

/// A stored API key as the auth check sees it; times are Unix seconds.
#[derive(Debug)]
pub struct ApiKeyInfo {
    pub id: String,
    pub name: String,
    pub enabled: bool,
    pub expires_at: Option<i64>,
    pub created_at: i64,
}

/// Identity of the API key used for a proxy request.
#[derive(Clone, Debug)]
pub struct ApiKeyContext {
    pub name: Option<String>,
}

/// Correlation id of a request.
#[derive(Clone, Debug)]
pub struct RequestId(pub String);

} // verus!

verus! {

/// Partial update of a provider: `None` fields are left unchanged.
#[derive(Debug)]
pub struct ProviderUpdate {
    pub id: String,
    pub name: Option<String>,
    pub provider_type: Option<ProviderType>,
    pub base_url: Option<String>,
    /// `None` keeps the stored key, `Some("")` clears it.
    pub api_key: Option<String>,
    pub enabled: Option<bool>,
}

/// Partial update of a model: `None` fields are left unchanged.
#[derive(Debug)]
pub struct ModelUpdate {
    pub name: String,
    pub provider_id: Option<String>,
    pub upstream_model: Option<String>,
    pub enabled: Option<bool>,
}

/// Partial update of an API key: `None` fields are left unchanged.
#[derive(Debug)]
pub struct ApiKeyUpdate {
    pub id: String,
    pub name: Option<String>,
    pub enabled: Option<bool>,
    /// Unix seconds; `Some(0)` clears the expiry.
    pub expires_at: Option<i64>,
}

} // verus!

verus! {

/// A console user's role.
#[derive(Clone, Copy, Debug, PartialEq, Eq, Structural)]
pub enum UserRole {
    User,
    Admin,
}

/// Access to a provider's models: all of them when `model_names` is empty.
pub struct Permission {
    pub provider_id: String,
    pub model_names: Vec<String>,
}

/// Whether a permission covers model `model` of provider `provider`.
pub open spec fn grants(p: Permission, provider: Seq<char>, model: Seq<char>) -> bool {
    p.provider_id@ == provider && (p.model_names.len() == 0 || exists|j: int|
        0 <= j < p.model_names.len() && (#[trigger] p.model_names@[j])@ == model)
}

/// Whether a user with `role` and permissions `allowed` may use a model:
/// admins always; users through a permission that covers it.
pub open spec fn may_use(role: UserRole, allowed: Seq<Permission>, provider: Seq<char>, model: Seq<char>) -> bool {
    role == UserRole::Admin || exists|i: int| 0 <= i < allowed.len() && grants(#[trigger] allowed[i], provider, model)
}

fn permission_grants(p: &Permission, provider: &str, model: &str) -> (r: bool)
    ensures
        r == grants(*p, provider@, model@),
{
    if !str_eq(p.provider_id.as_str(), provider) {
        return false;
    }
    if p.model_names.len() == 0 {
        return true;
    }
    let mut j: usize = 0;
    while j < p.model_names.len()
        invariant
            j <= p.model_names.len(),
            p.provider_id@ == provider@,
            forall|k: int| 0 <= k < j ==> (#[trigger] p.model_names@[k])@ != model@,
        decreases p.model_names.len() - j,
    {
        if str_eq(p.model_names[j].as_str(), model) {
            return true;
        }
        j = j + 1;
    }
    false
}

/// Refuse a model the user has no permission for (403).
pub fn check_model_access(
    model_provider_id: &str,
    model_name: &str,
    role: UserRole,
    allowed: &Vec<Permission>,
) -> (r: Result<(), (u16, AitError)>)
    ensures
        r is Ok <==> may_use(role, allowed@, model_provider_id@, model_name@),
        r matches Err(e) ==> e.0 == 403 && e.1.code == 403 && e.1.error_type@ == "forbidden"@
            && e.1.message@ == "You don't have access to model '"@ + model_name@ + "'"@,
{
    if role == UserRole::Admin {
        return Ok(());
    }
    let mut i: usize = 0;
    while i < allowed.len()
        invariant
            i <= allowed.len(),
            role == UserRole::User,
            forall|k: int| 0 <= k < i ==> !grants(#[trigger] allowed@[k], model_provider_id@, model_name@),
        decreases allowed.len() - i,
    {
        if permission_grants(&allowed[i], model_provider_id, model_name) {
            return Ok(());
        }
        i = i + 1;
    }
    let a = concat("You don't have access to model '", model_name);
    let msg = concat(a.as_str(), "'");
    Err((403, AitError { message: msg, code: 403, error_type: "forbidden".to_string(), detail: None, request_id: None }))
}

/// Model access: an admin may use every model. A user may use a model of a
/// provider exactly when one of the user's permissions is for that provider
/// and either lists no model names (all its models) or names the model at
/// any position of its list.
pub proof fn lemma_model_access(
    role: UserRole,
    allowed: Seq<Permission>,
    provider: Seq<char>,
    model: Seq<char>,
    i: int,
    j: int,
)
    ensures
        role == UserRole::Admin ==> may_use(role, allowed, provider, model),
        0 <= i < allowed.len() && allowed[i].provider_id@ == provider && allowed[i].model_names.len() == 0
            ==> may_use(role, allowed, provider, model),
        0 <= i < allowed.len() && allowed[i].provider_id@ == provider && 0 <= j < allowed[i].model_names.len()
            && allowed[i].model_names@[j]@ == model ==> may_use(role, allowed, provider, model),
        role == UserRole::User && (forall|k: int| 0 <= k < allowed.len() ==> {
            ||| (#[trigger] allowed[k]).provider_id@ != provider
            ||| (allowed[k].model_names.len() > 0 && forall|n: int|
                0 <= n < allowed[k].model_names.len() ==> (#[trigger] allowed[k].model_names@[n])@ != model)
        }) ==> !may_use(role, allowed, provider, model),
{
    if 0 <= i < allowed.len() && allowed[i].provider_id@ == provider && 0 <= j < allowed[i].model_names.len()
        && allowed[i].model_names@[j]@ == model {
        assert(grants(allowed[i], provider, model));
    }
    if 0 <= i < allowed.len() && allowed[i].provider_id@ == provider && allowed[i].model_names.len() == 0 {
        assert(grants(allowed[i], provider, model));
    }
}

} // verus!
