//! How the local language model is reached: the settings, and the question
//! which model is loaded.

use crate::text::{chars_of, slice, strip_suffix};
use vstd::prelude::*;
use vstd::string::*;

verus! {

/// How many tool-call/response turns a single prompt may take before stopping.
pub const MAX_TURNS: usize = 5;

/// OpenAI-compatible endpoint exposed by the local server.
pub const DEFAULT_BASE_URL: &'static str = "http://127.0.0.1:8001/v1";

/// The key that is sent when none is set: the local server ignores it, but one
/// is required.
pub const DEFAULT_API_KEY: &'static str = "local";

/// System prompt that shapes the assistant's behavior.
pub const PREAMBLE: &'static str =
    "You are an assistant embedded in a Unix shell. Be concise. You can read text files within the current working directory with the `read_file` tool; use it when answering questions about local files.";

/// Connection settings for the local model.
#[derive(Debug, Clone)]
pub struct LlmConfig {
    pub base_url: String,
    pub model: String,
    pub api_key: String,
}

/// Settings that wait for the name of the loaded model.
#[derive(Debug)]
pub struct PendingConfig {
    pub base_url: String,
    pub api_key: String,
}

/// The answer to the question which model is loaded.
#[derive(Debug)]
pub enum Answer {
    /// The server could not be reached, with the cause.
    Failed(String),
    /// The body of the answer could not be received, with the cause.
    Broken(String),
    /// The body of the answer.
    Body(Vec<u8>),
}

/// Why the loaded model is not known.
#[derive(Debug)]
pub enum ModelError {
    Unreachable { url: String, cause: String },
    Unexpected { url: String, cause: String },
    NotLoaded { url: String },
}

impl ModelError {
    /// The message for this error.
    pub open spec fn text(self) -> Seq<char> {
        match self {
            ModelError::Unreachable { url, .. } => "could not reach FastFlowLM at "@ + url@
                + " — is it running?"@,
            ModelError::Unexpected { url, .. } => "unexpected response from "@ + url@,
            ModelError::NotLoaded { url } => "no model is currently loaded in FastFlowLM (per "@
                + url@ + ")"@,
        }
    }

    /// The message for this error.
    pub fn message(&self) -> (s: String)
        ensures
            s@ == self.text(),
    {
        match self {
            ModelError::Unreachable { url, .. } => String::from_str(
                "could not reach FastFlowLM at ",
            ).concat(url.as_str()).concat(" — is it running?"),
            ModelError::Unexpected { url, .. } => String::from_str(
                "unexpected response from ",
            ).concat(url.as_str()),
            ModelError::NotLoaded { url } => String::from_str(
                "no model is currently loaded in FastFlowLM (per ",
            ).concat(url.as_str()).concat(")"),
        }
    }
}

/// A JSON value. Numbers are not told apart.
pub enum Json {
    Null,
    Bool(bool),
    Number,
    Text(Seq<char>),
    List(Seq<Json>),
    Object(Map<Seq<char>, Json>),
}

impl Json {
    /// The member with the given key; null if there is none.
    pub open spec fn member(self, key: Seq<char>) -> Json {
        match self {
            Json::Object(m) if m.contains_key(key) => m[key],
            _ => Json::Null,
        }
    }

    /// The item at the given position; null if there is none.
    pub open spec fn item(self, i: nat) -> Json {
        match self {
            Json::List(s) if i < s.len() => s[i as int],
            _ => Json::Null,
        }
    }

    /// The text, if this is one.
    pub open spec fn as_text(self) -> Option<Seq<char>> {
        match self {
            Json::Text(t) => Some(t),
            _ => None,
        }
    }
}

/// `serde_json::Value`, a parsed JSON value.
#[verifier::external_type_specification]
#[verifier::external_body]
pub struct ExValue(serde_json::Value);

/// `serde_json::Error`, why bytes are not a JSON value.
#[verifier::external_type_specification]
#[verifier::external_body]
pub struct ExJsonError(serde_json::Error);

/// What a `serde_json::Value` holds.
pub uninterp spec fn json_content(v: serde_json::Value) -> Json;

/// What `serde_json::Error` displays.
pub uninterp spec fn json_complaint(e: serde_json::Error) -> Seq<char>;

/// What `serde_json::from_slice` makes of bytes: a value, or what is wrong
/// with them.
pub uninterp spec fn json_parsed(bytes: Seq<u8>) -> Result<Json, Seq<char>>;

/// `serde_json::from_slice` for a `serde_json::Value`. The outcome depends on
/// the bytes alone.
#[verifier::external_body]
fn parse_json(bytes: &[u8]) -> (r: Result<serde_json::Value, serde_json::Error>)
    ensures
        match r {
            Ok(v) => json_parsed(bytes@) == Ok::<Json, Seq<char>>(json_content(v)),
            Err(e) => json_parsed(bytes@) == Err::<Json, Seq<char>>(json_complaint(e)),
        },
{
    serde_json::from_slice(bytes)
}

/// `serde_json::Error`'s `Display`.
#[verifier::external_body]
fn json_error_text(e: &serde_json::Error) -> (s: String)
    ensures
        s@ == json_complaint(*e),
{
    e.to_string()
}

/// Indexing of a `serde_json::Value` with a string gives the member of an
/// object with that key, and null where there is none.
#[verifier::external_body]
fn json_member<'a>(v: &'a serde_json::Value, key: &str) -> (r: &'a serde_json::Value)
    ensures
        json_content(*r) == json_content(*v).member(key@),
{
    &v[key]
}

/// Indexing of a `serde_json::Value` with a number gives the item of an array
/// at that position, and null where there is none.
#[verifier::external_body]
fn json_item(v: &serde_json::Value, i: usize) -> (r: &serde_json::Value)
    ensures
        json_content(*r) == json_content(*v).item(i as nat),
{
    &v[i]
}

/// `serde_json::Value::as_str` gives the text of a JSON string, and nothing of
/// any other value.
#[verifier::external_body]
fn json_text(v: &serde_json::Value) -> (r: Option<String>)
    ensures
        match r {
            Some(s) => json_content(*v).as_text() == Some(s@),
            None => json_content(*v).as_text() is None,
        },
{
    v.as_str().map(String::from)
}

/// The name of the first model that a list of loaded models gives.
pub open spec fn first_model_in(json: Json) -> Option<Seq<char>> {
    json.member("models"@).item(0).member("name"@).as_text()
}

/// The name of the first model that a list of loaded models gives.
pub fn first_model(json: &serde_json::Value) -> (r: Option<String>)
    ensures
        match r {
            Some(s) => first_model_in(json_content(*json)) == Some(s@),
            None => first_model_in(json_content(*json)) is None,
        },
{
    json_text(json_member(json_item(json_member(json, "models"), 0), "name"))
}

/// `t` without the `/` at its end.
pub open spec fn trim_slashes(t: Seq<char>) -> Seq<char>
    decreases t.len(),
{
    if t.len() > 0 && t.last() == '/' {
        trim_slashes(t.drop_last())
    } else {
        t
    }
}

/// The host root of an API: the API root without `/v1`.
pub open spec fn host(base_url: Seq<char>) -> Seq<char> {
    trim_slashes(
        if "/v1"@.is_suffix_of(base_url) {
            base_url.take(base_url.len() - "/v1"@.len())
        } else if "/v1/"@.is_suffix_of(base_url) {
            base_url.take(base_url.len() - "/v1/"@.len())
        } else {
            base_url
        },
    )
}

/// Where the server tells which models are loaded: a sibling of the API root.
pub open spec fn status_url_of(base_url: Seq<char>) -> Seq<char> {
    host(base_url) + "/api/ps"@
}

/// Where the server tells which models are loaded.
pub fn status_url(base_url: &str) -> (url: String)
    ensures
        url@ == status_url_of(base_url@),
{
    let root = match strip_suffix(base_url, "/v1") {
        Some(r) => r,
        None => match strip_suffix(base_url, "/v1/") {
            Some(r) => r,
            None => base_url.to_owned(),
        },
    };
    let v = chars_of(root.as_str());
    let mut to: usize = v.len();
    assert(v@.take(to as int) =~= v@);
    while to > 0 && v[to - 1] == '/'
        invariant
            to <= v@.len(),
            trim_slashes(v@) == trim_slashes(v@.take(to as int)),
        decreases to,
    {
        assert(v@.take(to as int).drop_last() =~= v@.take(to - 1));
        to -= 1;
    }
    assert(v@.take(to as int) =~= v@.subrange(0, to as int));
    slice(&v, 0, to).concat("/api/ps")
}

/// Whether `r` is the outcome of an answer from `url`: the name of the loaded
/// model, or why it is not known.
pub open spec fn model_of(url: Seq<char>, answer: Answer, r: Result<String, ModelError>) -> bool {
    match answer {
        Answer::Failed(c) => r matches Err(ModelError::Unreachable { url: u, cause }) && u@ == url
            && cause == c,
        Answer::Broken(c) => r matches Err(ModelError::Unexpected { url: u, cause }) && u@ == url
            && cause == c,
        Answer::Body(bytes) => match json_parsed(bytes@) {
            Err(complaint) => r matches Err(ModelError::Unexpected { url: u, cause }) && u@ == url
                && cause@ == complaint,
            Ok(json) => match first_model_in(json) {
                Some(name) => r matches Ok(m) && m@ == name,
                None => r matches Err(ModelError::NotLoaded { url: u }) && u@ == url,
            },
        },
    }
}

/// The model that the server has loaded, going by its answer from `url`.
///
/// Fails if the server is unreachable or reports no loaded model.
pub fn running_model(url: &str, answer: Answer) -> (r: Result<String, ModelError>)
    ensures
        model_of(url@, answer, r),
{
    match answer {
        Answer::Failed(cause) => Err(ModelError::Unreachable { url: url.to_owned(), cause }),
        Answer::Broken(cause) => Err(ModelError::Unexpected { url: url.to_owned(), cause }),
        Answer::Body(bytes) => match parse_json(bytes.as_slice()) {
            Err(e) => Err(
                ModelError::Unexpected { url: url.to_owned(), cause: json_error_text(&e) },
            ),
            Ok(json) => match first_model(&json) {
                Some(name) => Ok(name),
                None => Err(ModelError::NotLoaded { url: url.to_owned() }),
            },
        },
    }
}

impl LlmConfig {
    /// Layers the settings: the base URL is the override, or else the one of
    /// the environment, or else the default; the key is the one of the
    /// environment, or else the default. The model is always the one that the
    /// server has loaded, which is still to be asked for.
    pub fn resolve(
        base_url_override: Option<String>,
        env_base_url: Option<String>,
        env_api_key: Option<String>,
    ) -> (p: PendingConfig)
        ensures
            p.base_url@ == (match (base_url_override, env_base_url) {
                (Some(u), _) => u@,
                (None, Some(u)) => u@,
                (None, None) => DEFAULT_BASE_URL@,
            }),
            p.api_key@ == (match env_api_key {
                Some(k) => k@,
                None => DEFAULT_API_KEY@,
            }),
    {
        let base_url = match base_url_override {
            Some(u) => u,
            None => match env_base_url {
                Some(u) => u,
                None => DEFAULT_BASE_URL.to_owned(),
            },
        };
        let api_key = match env_api_key {
            Some(k) => k,
            None => DEFAULT_API_KEY.to_owned(),
        };
        PendingConfig { base_url, api_key }
    }
}

impl PendingConfig {
    /// Where to ask for the loaded model.
    pub fn url(&self) -> (url: String)
        ensures
            url@ == status_url_of(self.base_url@),
    {
        status_url(self.base_url.as_str())
    }

    /// Completes the settings with the answer.
    pub fn complete(self, answer: Answer) -> (r: Result<LlmConfig, ModelError>)
        ensures
            match r {
                Ok(c) => {
                    &&& c.base_url == self.base_url
                    &&& c.api_key == self.api_key
                    &&& model_of(status_url_of(self.base_url@), answer, Ok(c.model))
                },
                Err(e) => model_of(status_url_of(self.base_url@), answer, Err(e)),
            },
    {
        let url = self.url();
        match running_model(url.as_str(), answer) {
            Ok(model) => Ok(LlmConfig { base_url: self.base_url, model, api_key: self.api_key }),
            Err(e) => Err(e),
        }
    }
}

/// It does not matter whether the API root is written with or without `v1`, nor
/// with or without a `/` at its end, nor how many `/` stand before `v1`: the
/// same place is asked. Without `v1`, that is said of a root that does not
/// itself end in one.
pub proof fn law_status_url(root: Seq<char>)
    ensures
        status_url_of(root + "/v1"@) == trim_slashes(root) + "/api/ps"@,
        status_url_of(root + "/v1/"@) == trim_slashes(root) + "/api/ps"@,
        !"/v1"@.is_suffix_of(root) && !"/v1/"@.is_suffix_of(root) ==> status_url_of(root)
            == trim_slashes(root) + "/api/ps"@,
        !"/v1"@.is_suffix_of(root) ==> status_url_of(root + "/"@) == trim_slashes(root)
            + "/api/ps"@,
{
    reveal_strlit("/v1");
    reveal_strlit("/v1/");
    reveal_strlit("/");
    let a = root + "/v1"@;
    let b = root + "/v1/"@;
    let c = root + "/"@;
    assert("/v1"@ =~= a.subrange(a.len() - "/v1"@.len(), a.len() as int));
    assert(a.take(a.len() - "/v1"@.len()) =~= root);
    assert("/v1/"@ =~= b.subrange(b.len() - "/v1/"@.len(), b.len() as int));
    assert(b.take(b.len() - "/v1/"@.len()) =~= root);
    assert(!"/v1"@.is_suffix_of(b)) by {
        let tail = b.subrange(b.len() - 3, b.len() as int);
        assert(tail[2] == '/');
        assert("/v1"@[2] == '1');
    }
    assert(!"/v1"@.is_suffix_of(c)) by {
        if c.len() >= 3 {
            let tail = c.subrange(c.len() - 3, c.len() as int);
            assert(tail[2] == '/');
            assert("/v1"@[2] == '1');
        }
    }
    if "/v1/"@.is_suffix_of(c) {
        let tail = c.subrange(c.len() - 4, c.len() as int);
        assert("/v1"@ =~= root.subrange(root.len() - 3, root.len() as int)) by {
            assert forall|j: int| 0 <= j < 3 implies root[root.len() - 3 + j] == "/v1"@[j] by {
                assert(tail[j] == "/v1/"@[j]);
            }
        }
    }
    assert(c.drop_last() =~= root);
}

/// A model is named only if the server answered and its answer names one: no
/// model is ever guessed.
pub proof fn law_no_guess(url: Seq<char>, answer: Answer, model: String)
    requires
        model_of(url, answer, Ok(model)),
    ensures
        answer matches Answer::Body(bytes) && (json_parsed(bytes@) matches Ok(json)
            && first_model_in(json) == Some(model@)),
{
}

/// If a parsed answer is an object whose `models` is a list that starts with an
/// object whose `name` is a text, that text, unchanged, is the model. If it is
/// anything else, there is none.
pub proof fn law_first_model(json: Json, t: Seq<char>)
    ensures
        first_model_in(json) == Some(t) <==> {
            &&& json matches Json::Object(top)
            &&& top.contains_key("models"@)
            &&& top["models"@] matches Json::List(models)
            &&& models.len() > 0
            &&& models[0] matches Json::Object(model)
            &&& model.contains_key("name"@)
            &&& model["name"@] == Json::Text(t)
        },
{
}

/// The model that a server names is the one that is used, whatever its name.
pub proof fn law_named_model_used(
    url: Seq<char>,
    bytes: Vec<u8>,
    top: Map<Seq<char>, Json>,
    models: Seq<Json>,
    model: Map<Seq<char>, Json>,
    t: Seq<char>,
    r: Result<String, ModelError>,
)
    requires
        json_parsed(bytes@) == Ok::<Json, Seq<char>>(Json::Object(top)),
        top.contains_key("models"@),
        top["models"@] == Json::List(models),
        models.len() > 0,
        models[0] == Json::Object(model),
        model.contains_key("name"@),
        model["name"@] == Json::Text(t),
        model_of(url, Answer::Body(bytes), r),
    ensures
        r matches Ok(name) && name@ == t,
{
}

/// Where the model is not known, the error says why: the server was not
/// reached, the answer did not arrive, the answer is not JSON, or it names no
/// model. It says where the server was asked, and keeps the cause.
pub proof fn law_why_not_known(url: Seq<char>, answer: Answer, r: Result<String, ModelError>)
    requires
        model_of(url, answer, r),
    ensures
        answer matches Answer::Failed(c) ==> (r matches Err(ModelError::Unreachable {
            url: u,
            cause,
        }) && u@ == url && cause == c),
        answer matches Answer::Broken(c) ==> (r matches Err(ModelError::Unexpected {
            url: u,
            cause,
        }) && u@ == url && cause == c),
        answer matches Answer::Body(bytes) ==> (json_parsed(bytes@) matches Err(complaint) ==> (
        r matches Err(ModelError::Unexpected { url: u, cause }) && u@ == url && cause@
            == complaint)),
        answer matches Answer::Body(bytes) ==> (json_parsed(bytes@) is Ok && r is Err ==> (
        r matches Err(ModelError::NotLoaded { url: u }) && u@ == url)),
{
}

/// Only `/` at the end of a text is cut off, and all of it.
pub proof fn law_slashes_trimmed(t: Seq<char>)
    ensures
        trim_slashes(t).is_prefix_of(t),
        forall|k: int| trim_slashes(t).len() <= k < t.len() ==> #[trigger] t[k] == '/',
        trim_slashes(t).len() > 0 ==> trim_slashes(t).last() != '/',
    decreases t.len(),
{
    if t.len() > 0 && t.last() == '/' {
        let front = t.drop_last();
        law_slashes_trimmed(front);
        let root = trim_slashes(t);
        assert(root =~= t.subrange(0, root.len() as int)) by {
            assert(root =~= front.subrange(0, root.len() as int));
        }
        assert forall|k: int| root.len() <= k < t.len() implies #[trigger] t[k] == '/' by {
            if k < front.len() {
                assert(front[k] == t[k]);
            }
        }
    } else {
        assert(t =~= t.subrange(0, t.len() as int));
    }
}

/// The message of an error names the place that was asked, as it is written,
/// between words that tell the errors apart.
pub proof fn law_message_names_url(e: ModelError)
    ensures
        e matches ModelError::Unreachable { url, cause: _ } ==> e.text()
            == "could not reach FastFlowLM at "@ + url@ + " — is it running?"@,
        e matches ModelError::Unexpected { url, cause: _ } ==> e.text()
            == "unexpected response from "@ + url@,
        e matches ModelError::NotLoaded { url } ==> e.text()
            == "no model is currently loaded in FastFlowLM (per "@ + url@ + ")"@,
{
}

/// From the raw answer of a server that names a model, that very model comes
/// out, whatever its name.
pub proof fn law_answer_gives_model(
    url: &str,
    bytes: Vec<u8>,
    r: Result<String, ModelError>,
    json: serde_json::Value,
    first: Option<String>,
)
    requires
        call_ensures(running_model, (url, Answer::Body(bytes)), r),
        json_parsed(bytes@) == Ok::<Json, Seq<char>>(json_content(json)),
        call_ensures(first_model, (&json,), first),
    ensures
        json_content(json) matches Json::Object(top) ==> (top.contains_key("models"@) ==> (
        top["models"@] matches Json::List(models) ==> (models.len() > 0 ==> (
        models[0] matches Json::Object(model) ==> (model.contains_key("name"@) ==> (
        model["name"@] matches Json::Text(t) ==> (r matches Ok(m) && m@ == t) && (
        first matches Some(f) && f@ == t))))))),
        r is Ok <==> first is Some,
        r matches Ok(m) ==> (first matches Some(f) && f@ == m@),
{
}

/// Where the server is asked goes by the base URL alone: without `/v1` or
/// `/v1/` at its end, and without `/` at the end of what is left.
pub proof fn law_status_asked(base_url: &str, url: String, root: Seq<char>)
    requires
        call_ensures(status_url, (base_url,), url),
        base_url@ == root + "/v1"@ || base_url@ == root + "/v1/"@ || (base_url@ == root
            && !"/v1"@.is_suffix_of(root) && !"/v1/"@.is_suffix_of(root)),
    ensures
        url@ == trim_slashes(root) + "/api/ps"@,
{
    law_status_url(root);
}

/// The settings of the command line go before those of the environment, and
/// those before the defaults; none of them is changed.
pub proof fn law_settings_layered(
    base_url_override: Option<String>,
    env_base_url: Option<String>,
    env_api_key: Option<String>,
    p: PendingConfig,
)
    requires
        call_ensures(LlmConfig::resolve, (base_url_override, env_base_url, env_api_key), p),
    ensures
        base_url_override matches Some(u) ==> p.base_url@ == u@,
        base_url_override is None ==> (env_base_url matches Some(u) ==> p.base_url@ == u@),
        base_url_override is None && env_base_url is None ==> p.base_url@
            == "http://127.0.0.1:8001/v1"@,
        env_api_key matches Some(k) ==> p.api_key@ == k@,
        env_api_key is None ==> p.api_key@ == "local"@,
{
}

/// Completing the settings keeps them, and adds the model of the answer.
pub proof fn law_settings_completed(
    p: PendingConfig,
    answer: Answer,
    r: Result<LlmConfig, ModelError>,
)
    requires
        call_ensures(PendingConfig::complete, (p, answer), r),
    ensures
        r matches Ok(c) ==> c.base_url@ == p.base_url@ && c.api_key@ == p.api_key@ && model_of(
            status_url_of(p.base_url@),
            answer,
            Ok(c.model),
        ),
        r matches Err(e) ==> model_of(status_url_of(p.base_url@), answer, Err(e)),
{
}

} // verus!
