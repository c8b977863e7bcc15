//! What the network-backed oracles decide without the network: the
//! configuration of the Anthropic Messages API oracle, how a reply's content
//! becomes text, how failures are reported, and how a fixed preamble combines
//! with a request's system prompt. The HTTP exchanges themselves stay with
//! the caller.

use vstd::prelude::*;

use crate::oracle::OracleError;

verus! {

/// The default bound on generated tokens per request.
pub const DEFAULT_MAX_TOKENS: u32 = 1024;

#[derive(Debug)]
pub enum AnthropicConfigError {
    /// No API key was configured.
    MissingApiKey,
}

/// Configuration of an oracle backed by the Anthropic Messages API: the API
/// key, the model and the token bound of every request.
pub struct AnthropicOracle {
    api_key: String,
    model: String,
    max_tokens: u32,
}

impl AnthropicOracle {
    pub closed spec fn spec_api_key(&self) -> Seq<char> {
        self.api_key@
    }

    pub closed spec fn spec_model(&self) -> Seq<char> {
        self.model@
    }

    pub closed spec fn spec_max_tokens(&self) -> u32 {
        self.max_tokens
    }

    /// An oracle with the given key and model and the default token bound.
    pub fn new(api_key: String, model: String) -> (o: Self)
        ensures
            o.spec_api_key() == api_key@,
            o.spec_model() == model@,
            o.spec_max_tokens() == DEFAULT_MAX_TOKENS,
    {
        AnthropicOracle { api_key, model, max_tokens: DEFAULT_MAX_TOKENS }
    }

    /// An oracle for `model` from the configured API key, if there is one.
    pub fn from_api_key(key: Option<String>, model: String) -> (r: Result<Self, AnthropicConfigError>)
        ensures
            key is None <==> (r matches Err(AnthropicConfigError::MissingApiKey)),
            key matches Some(k) ==> (r matches Ok(o) && o.spec_api_key() == k@ && o.spec_model()
                == model@ && o.spec_max_tokens() == DEFAULT_MAX_TOKENS),
    {
        match key {
            Some(k) => Ok(AnthropicOracle::new(k, model)),
            None => Err(AnthropicConfigError::MissingApiKey),
        }
    }

    pub fn with_model(self, model: String) -> (o: Self)
        ensures
            o.spec_model() == model@,
            o.spec_api_key() == self.spec_api_key(),
            o.spec_max_tokens() == self.spec_max_tokens(),
    {
        AnthropicOracle { model, ..self }
    }

    pub fn with_max_tokens(self, max_tokens: u32) -> (o: Self)
        ensures
            o.spec_max_tokens() == max_tokens,
            o.spec_api_key() == self.spec_api_key(),
            o.spec_model() == self.spec_model(),
    {
        AnthropicOracle { max_tokens, ..self }
    }

    /// The API endpoint is fixed; the builder accepts one for later proxy
    /// support and changes nothing.
    pub fn with_endpoint(self, endpoint: String) -> (o: Self)
        ensures
            o.spec_max_tokens() == self.spec_max_tokens(),
            o.spec_api_key() == self.spec_api_key(),
            o.spec_model() == self.spec_model(),
    {
        self
    }

    pub fn api_key(&self) -> (r: &str)
        ensures
            r@ == self.spec_api_key(),
    {
        self.api_key.as_str()
    }

    pub fn model(&self) -> (r: &str)
        ensures
            r@ == self.spec_model(),
    {
        self.model.as_str()
    }

    pub fn max_tokens(&self) -> (r: u32)
        ensures
            r == self.spec_max_tokens(),
    {
        self.max_tokens
    }
}

/// The text of a reply made of content blocks (`Some` for a text block,
/// `None` for any other kind): the first text block, or a backend error when
/// there is none.
pub fn first_text_block(blocks: Vec<Option<String>>) -> (r: Result<String, OracleError>)
    ensures
        (exists|i: int| 0 <= i < blocks@.len() && blocks@[i] is Some) <==> r is Ok,
        r matches Ok(t) ==> exists|i: int|
            0 <= i < blocks@.len() && blocks@[i] == Some(t) && forall|j: int|
                0 <= j < i ==> #[trigger] blocks@[j] is None,
        r matches Err(e) ==> (e matches OracleError::Backend(m) && m@ == "no text content"@),
{
    let mut i: usize = 0;
    while i < blocks.len()
        invariant
            i <= blocks@.len(),
            forall|j: int| 0 <= j < i ==> #[trigger] blocks@[j] is None,
        decreases blocks@.len() - i,
    {
        if let Some(t) = &blocks[i] {
            return Ok(t.clone());
        }
        i += 1;
    }
    Err(OracleError::Backend(String::from_str("no text content")))
}

/// The error reported for a reply with an unsuccessful HTTP status:
/// "status <status>: <body>".
pub fn status_error(status: &str, body: &str) -> (e: OracleError)
    ensures
        e matches OracleError::Backend(m) && m@ == "status "@ + status@ + ": "@ + body@,
{
    let mut m = String::from_str("status ");
    m.append(status);
    m.append(": ");
    m.append(body);
    OracleError::Backend(m)
}

/// The system prompt sent to a model that carries a fixed preamble: the
/// preamble and the request's system prompt, separated by a blank line, or
/// whichever of them there is.
pub open spec fn combined_system(preamble: Option<Seq<char>>, system: Option<Seq<char>>) -> Option<Seq<char>> {
    match (preamble, system) {
        (Some(p), Some(s)) => Some(p + "\n\n"@ + s),
        (Some(p), None) => Some(p),
        (None, Some(s)) => Some(s),
        (None, None) => None,
    }
}

pub fn combine_system(preamble: Option<&str>, system: Option<&str>) -> (r: Option<String>)
    ensures
        r is Some <==> combined_system(
            match preamble { Some(p) => Some(p@), None => None },
            match system { Some(s) => Some(s@), None => None },
        ) is Some,
        r matches Some(t) ==> Some(t@) == combined_system(
            match preamble { Some(p) => Some(p@), None => None },
            match system { Some(s) => Some(s@), None => None },
        ),
{
    match (preamble, system) {
        (Some(p), Some(s)) => {
            let mut t = String::from_str(p);
            t.append("\n\n");
            t.append(s);
            Some(t)
        },
        (Some(p), None) => Some(String::from_str(p)),
        (None, Some(s)) => Some(String::from_str(s)),
        (None, None) => None,
    }
}

} // verus!
