//! The decisions of the resilient LLM client: which key to use, how to
//! configure a request, and how to read the reply. The HTTP exchange itself
//! is done by the caller.

use vstd::prelude::*;
use vstd::string::*;
use crate::text::{contains, parse_u32, parse_u32_spec, starts_with, str_contains, str_starts_with};

verus! {

broadcast use vstd::string::group_string_axioms;

/// Why a generation failed.
#[derive(Debug)]
pub enum DriverError {
    NetworkFracture(String),
    Timeout,
    JsonParseError,
    BackendError(String),
}

/// An OpenAI-style chat client for one endpoint and model.
pub struct ResilientLLMClient {
    api_url: String,
    model_name: String,
    api_key: Option<String>,
}

/// Environment variables consulted for the API key of `api_url`, in order.
pub open spec fn key_variables(api_url: Seq<char>) -> Seq<Seq<char>> {
    if contains(api_url, "volcengine"@) || contains(api_url, "volces.com"@) {
        seq!["VOLCENGINE_API_KEY"@, "SILICONFLOW_API_KEY"@]
    } else if contains(api_url, "deepseek.com"@) {
        seq!["DEEPSEEK_API_KEY"@]
    } else {
        seq!["SILICONFLOW_API_KEY"@, "VOLCENGINE_API_KEY"@]
    }
}

/// The environment variables to try, in order, for the key of `api_url`.
pub fn api_key_variables(api_url: &str) -> (r: Vec<&'static str>)
    ensures
        r@.map_values(|s: &str| s@) == key_variables(api_url@),
{
    let mut r: Vec<&'static str> = Vec::new();
    if str_contains(api_url, "volcengine") || str_contains(api_url, "volces.com") {
        r.push("VOLCENGINE_API_KEY");
        r.push("SILICONFLOW_API_KEY");
    } else if str_contains(api_url, "deepseek.com") {
        r.push("DEEPSEEK_API_KEY");
    } else {
        r.push("SILICONFLOW_API_KEY");
        r.push("VOLCENGINE_API_KEY");
    }
    assert(r@.map_values(|s: &str| s@) =~= key_variables(api_url@));
    r
}

impl ResilientLLMClient {
    pub closed spec fn url(&self) -> Seq<char> {
        self.api_url@
    }

    pub closed spec fn model(&self) -> Seq<char> {
        self.model_name@
    }

    pub closed spec fn key(&self) -> Option<Seq<char>> {
        match self.api_key {
            Some(k) => Some(k@),
            None => None,
        }
    }

    /// A client whose key was looked up by the caller (`None`: no key).
    pub fn with_optional_key(api_url: &str, model_name: &str, api_key: Option<String>) -> (c: Self)
        ensures
            c.url() == api_url@,
            c.model() == model_name@,
            c.key() == (match api_key { Some(k) => Some(k@), None => None::<Seq<char>> }),
    {
        ResilientLLMClient { api_url: api_url.to_owned(), model_name: model_name.to_owned(), api_key }
    }

    /// A client with an explicit key.
    pub fn with_key(api_url: &str, model_name: &str, api_key: &str) -> (c: Self)
        ensures
            c.url() == api_url@,
            c.model() == model_name@,
            c.key() == Some(api_key@),
    {
        ResilientLLMClient { api_url: api_url.to_owned(), model_name: model_name.to_owned(), api_key: Some(api_key.to_owned()) }
    }

    pub fn model_name(&self) -> (r: &str)
        ensures
            r@ == self.model(),
    {
        self.model_name.as_str()
    }

    pub fn api_url(&self) -> (r: &str)
        ensures
            r@ == self.url(),
    {
        self.api_url.as_str()
    }

    pub fn api_key(&self) -> (r: &Option<String>)
        ensures
            (match *r { Some(k) => Some(k@), None => None::<Seq<char>> }) == self.key(),
    {
        &self.api_key
    }

    /// System prefix and token budget of a request to this client's model
    /// under the given thinking mode.
    pub fn generation_settings(&self, thinking_mode: &str) -> (r: (&'static str, u32))
        ensures
            (r.0@, r.1) == settings_for(self.model(), thinking_mode@),
    {
        generation_settings(self.model_name.as_str(), thinking_mode)
    }

    /// The request turns thinking off explicitly: a Qwen3 model served by
    /// DashScope with thinking mode "off".
    pub fn disable_thinking(&self, thinking_mode: &str) -> (b: bool)
        ensures
            b == (contains(self.model(), "qwen3"@) && contains(self.url(), "dashscope"@) && thinking_mode@ == "off"@),
    {
        let off = String::from_str("off");
        let mode = thinking_mode.to_owned();
        str_contains(self.model_name.as_str(), "qwen3") && str_contains(self.api_url.as_str(), "dashscope") && mode == off
    }
}

/// Qwen3 models think unless told otherwise: mode "on" keeps thinking with
/// 3072 tokens, "budget:N" keeps thinking with N tokens (1500 when N is not
/// a number), anything else prefixes `/no_think`. Other models get 3072
/// tokens and no prefix.
pub open spec fn settings_for(model: Seq<char>, mode: Seq<char>) -> (Seq<char>, u32) {
    if contains(model, "qwen3"@) {
        if mode == "on"@ {
            (""@, 3072)
        } else if starts_with(mode, "budget:"@) {
            (""@, match parse_u32_spec(mode.subrange(7, mode.len() as int)) { Some(n) => n, None => 1500 })
        } else {
            ("/no_think\n"@, 3072)
        }
    } else {
        (""@, 3072)
    }
}

pub fn generation_settings(model_name: &str, thinking_mode: &str) -> (r: (&'static str, u32))
    ensures
        (r.0@, r.1) == settings_for(model_name@, thinking_mode@),
{
    proof { reveal_strlit("budget:"); }
    if str_contains(model_name, "qwen3") {
        let on = String::from_str("on");
        let mode = thinking_mode.to_owned();
        if mode == on {
            ("", 3072)
        } else if str_starts_with(thinking_mode, "budget:") {
            let n = thinking_mode.unicode_len();
            let budget = match parse_u32(thinking_mode.substring_char(7, n)) {
                Some(b) => b,
                None => 1500,
            };
            ("", budget)
        } else {
            ("/no_think\n", 3072)
        }
    } else {
        ("", 3072)
    }
}

pub open spec fn system_message_text(prefix: Seq<char>) -> Seq<char> {
    prefix + "You are a reasoning agent. Follow all formatting instructions exactly."@
}

pub fn system_message(prefix: &str) -> (r: String)
    ensures
        r@ == system_message_text(prefix@),
{
    let mut m = prefix.to_owned();
    m.append("You are a reasoning agent. Follow all formatting instructions exactly.");
    m
}

/// The reply text: the reasoning (when not empty) and a line break, then the
/// content; no reply when both are missing or empty.
pub open spec fn reply_text(reasoning: Option<Seq<char>>, content: Option<Seq<char>>) -> Option<Seq<char>> {
    let r = match reasoning {
        Some(t) => if t.len() > 0 { t + "\n"@ } else { seq![] },
        None => seq![],
    };
    let all = match content {
        Some(c) => r + c,
        None => r,
    };
    if all.len() > 0 { Some(all) } else { None }
}

/// Joins the reasoning and the content of a reply.
pub fn assemble_reply(reasoning: Option<&str>, content: Option<&str>) -> (r: Result<String, DriverError>)
    ensures
        match reply_text(
            match reasoning { Some(t) => Some(t@), None => None },
            match content { Some(c) => Some(c@), None => None },
        ) {
            Some(t) => r matches Ok(s) && s@ == t,
            None => r matches Err(DriverError::JsonParseError),
        },
{
    let mut text = String::new();
    match reasoning {
        Some(t) => {
            if t.unicode_len() > 0 {
                text.append(t);
                text.append("\n");
            }
        },
        None => {},
    }
    match content {
        Some(c) => text.append(c),
        None => {},
    }
    if text.as_str().unicode_len() > 0 {
        Ok(text)
    } else {
        Err(DriverError::JsonParseError)
    }
}

/// Reads a completion body: an `error` field wins, and gives a backend
/// error with its message (`unknown` when it has none); otherwise the
/// reasoning and the content of the first choice are joined.
pub fn read_reply(error: Option<Option<&str>>, reasoning: Option<&str>, content: Option<&str>) -> (r: Result<String, DriverError>)
    ensures
        match error {
            Some(m) => r matches Err(DriverError::BackendError(s)) && s@ == match m {
                Some(t) => t@,
                None => "unknown"@,
            },
            None => match reply_text(
                match reasoning { Some(t) => Some(t@), None => None },
                match content { Some(c) => Some(c@), None => None },
            ) {
                Some(t) => r matches Ok(s) && s@ == t,
                None => r matches Err(DriverError::JsonParseError),
            },
        },
{
    match error {
        Some(m) => {
            let msg = match m {
                Some(t) => t,
                None => "unknown",
            };
            Err(DriverError::BackendError(String::from_str(msg)))
        },
        None => assemble_reply(reasoning, content),
    }
}

} // verus!
