//! The decisions of the HTTP generation and embedding providers (Ollama and
//! OpenAI-compatible endpoints): where requests go, how a response status
//! is classified, and what is read back from a reply.
//!
//! The requests themselves, and the floating-point settings and vectors,
//! stay with the caller.
use vstd::prelude::*;
use crate::text::{
    chars_of, contains_chars, decimal, decimal_chars, has_sub, push_all, push_str, split_chars, split_on,
    string_from_chars, string_views, trim, trim_chars,
};

verus! {

/// `s` without its trailing `/` characters.
pub open spec fn trim_slashes(s: Seq<char>) -> Seq<char>
    decreases s.len(),
{
    if s.len() > 0 && s.last() == '/' {
        trim_slashes(s.drop_last())
    } else {
        s
    }
}

/// A base URL or host without its trailing slashes (`trim_end_matches('/')`).
pub fn trim_end_slashes(s: &str) -> (r: String)
    ensures
        r@ == trim_slashes(s@),
{
    let c = chars_of(s);
    let mut n: usize = c.len();
    assert(c@.take(n as int) =~= c@);
    while n > 0 && c[n - 1] == '/'
        invariant
            n <= c@.len(),
            trim_slashes(c@) == trim_slashes(c@.take(n as int)),
        decreases n,
    {
        assert(c@.take(n as int).drop_last() =~= c@.take(n - 1));
        n = n - 1;
    }
    let mut out: Vec<char> = Vec::new();
    let mut i: usize = 0;
    while i < n
        invariant
            i <= n,
            n <= c@.len(),
            out@ == c@.take(i as int),
        decreases n - i,
    {
        out.push(c[i]);
        assert(c@.take(i + 1) =~= c@.take(i as int).push(c@[i as int]));
        i = i + 1;
    }
    proof {
        assert(c@.take(c@.len() as int) =~= c@);
        assert(!(c@.take(n as int).len() > 0 && c@.take(n as int).last() == '/'));
    }
    string_from_chars(out.as_slice())
}

/// A provider host: the endpoint paths under it.
#[derive(Debug)]
pub struct ProviderEndpoint {
    base: String,
}

impl ProviderEndpoint {
    pub closed spec fn base_view(&self) -> Seq<char> {
        self.base@
    }

    /// An endpoint at `base`, as given.
    pub fn new(base: String) -> (r: Self)
        ensures
            r.base_view() == base@,
    {
        ProviderEndpoint { base }
    }

    /// An endpoint at a base taken from the environment: trailing slashes dropped.
    pub fn from_setting(base: &str) -> (r: Self)
        ensures
            r.base_view() == trim_slashes(base@),
    {
        ProviderEndpoint { base: trim_end_slashes(base) }
    }

    /// The local Ollama host.
    pub fn default_local() -> (r: Self)
        ensures
            r.base_view() == "http://localhost:11434"@,
    {
        ProviderEndpoint { base: "http://localhost:11434".to_owned() }
    }

    /// The base URL or host.
    pub fn host(&self) -> (r: &str)
        ensures
            r@ == self.base_view(),
    {
        self.base.as_str()
    }

    /// The URL of a path under the base.
    pub fn url(&self, path: &str) -> (r: String)
        ensures
            r@ == self.base_view() + path@,
    {
        let mut v: Vec<char> = Vec::new();
        push_str(&mut v, self.base.as_str());
        push_str(&mut v, path);
        string_from_chars(v.as_slice())
    }
}

/// How a failed provider call is reported.
#[derive(Debug)]
pub enum ProviderFailure {
    RateLimited,
    ProviderError(String),
}

/// The failure a response status means, if any: 429 is a rate limit; a
/// status outside 200..=299 is an error quoting the endpoint, the status
/// and the body.
pub open spec fn status_failure(endpoint: Seq<char>, code: u16, status_text: Seq<char>, body: Seq<char>) -> Option<Option<Seq<char>>> {
    if code == 429 {
        Some(None)
    } else if 200 <= code <= 299 {
        None
    } else {
        Some(Some(endpoint + " returned HTTP "@ + status_text + ": "@ + body))
    }
}

pub open spec fn failure_view(f: ProviderFailure) -> Option<Seq<char>> {
    match f {
        ProviderFailure::RateLimited => None,
        ProviderFailure::ProviderError(m) => Some(m@),
    }
}

/// Classifies a response status (`status_text` as the status prints, such
/// as `404 Not Found`).
pub fn classify_status(endpoint: &str, code: u16, status_text: &str, body: &str) -> (r: Option<ProviderFailure>)
    ensures
        match r {
            Some(f) => status_failure(endpoint@, code, status_text@, body@) == Some(failure_view(f)),
            None => status_failure(endpoint@, code, status_text@, body@) is None,
        },
{
    if code == 429 {
        return Some(ProviderFailure::RateLimited);
    }
    if 200 <= code && code <= 299 {
        return None;
    }
    let mut v: Vec<char> = Vec::new();
    push_str(&mut v, endpoint);
    push_str(&mut v, " returned HTTP ");
    push_str(&mut v, status_text);
    push_str(&mut v, ": ");
    push_str(&mut v, body);
    Some(ProviderFailure::ProviderError(string_from_chars(v.as_slice())))
}

/// The first choice of a chat reply: its content, and its reasoning text
/// when the endpoint sends one.
#[derive(Debug)]
pub struct ChatChoice {
    pub content: String,
    pub reasoning: Option<String>,
}

/// The text of an OpenAI-compatible reply: the first choice's content, or
/// its reasoning when the content is empty; empty without a choice.
pub open spec fn openai_text(first: Option<ChatChoice>) -> Seq<char> {
    match first {
        Some(c) => if c.content@.len() == 0 {
            match c.reasoning {
                Some(r) => r@,
                None => Seq::empty(),
            }
        } else {
            c.content@
        },
        None => Seq::empty(),
    }
}

/// Decides [`openai_text`].
pub fn openai_reply_text(first: Option<ChatChoice>) -> (r: String)
    ensures
        r@ == openai_text(first),
{
    match first {
        Some(c) => {
            if c.content.unicode_len() == 0 {
                match c.reasoning {
                    Some(r) => r,
                    None => String::new(),
                }
            } else {
                c.content
            }
        },
        None => String::new(),
    }
}

/// The text of an Ollama reply: the first choice's content; empty without one.
pub fn ollama_reply_text(first: Option<ChatChoice>) -> (r: String)
    ensures
        r@ == match first {
            Some(c) => c.content@,
            None => Seq::<char>::empty(),
        },
{
    match first {
        Some(c) => c.content,
        None => String::new(),
    }
}

/// The model a reply names, or the requested one.
pub fn reply_model(model: Option<String>, requested: &str) -> (r: String)
    ensures
        r@ == match model {
            Some(m) => m@,
            None => requested@,
        },
{
    match model {
        Some(m) => m,
        None => requested.to_owned(),
    }
}

/// The error when an embedding endpoint returns another number of vectors
/// than texts were sent.
pub open spec fn count_mismatch(vendor: Seq<char>, returned: nat, sent: nat) -> Seq<char> {
    vendor + " returned "@ + decimal(returned) + " embedding(s) for "@ + decimal(sent) + " input(s)"@
}

/// Checks that an embedding reply holds one vector per text.
pub fn check_embedding_count(vendor: &str, returned: usize, sent: usize) -> (r: Option<ProviderFailure>)
    ensures
        returned == sent <==> r is None,
        r matches Some(f) ==> failure_view(f) == Some(count_mismatch(vendor@, returned as nat, sent as nat)),
{
    if returned == sent {
        return None;
    }
    let mut v: Vec<char> = Vec::new();
    push_str(&mut v, vendor);
    push_str(&mut v, " returned ");
    let a = decimal_chars(returned as u64);
    push_all(&mut v, a.as_slice());
    push_str(&mut v, " embedding(s) for ");
    let b = decimal_chars(sent as u64);
    push_all(&mut v, b.as_slice());
    push_str(&mut v, " input(s)");
    Some(ProviderFailure::ProviderError(string_from_chars(v.as_slice())))
}

/// The trimmed, non-empty pieces of a comma-separated list, in order.
pub open spec fn list_items(pieces: Seq<Seq<char>>) -> Seq<Seq<char>>
    decreases pieces.len(),
{
    if pieces.len() == 0 {
        Seq::empty()
    } else {
        let rest = list_items(pieces.drop_last());
        let t = trim(pieces.last());
        if t.len() == 0 { rest } else { rest.push(t) }
    }
}

/// The model-name prefixes of thinking models, from a comma-separated
/// setting (`qwen3` when the setting is absent).
pub fn thinking_prefixes(setting: Option<&str>) -> (r: Vec<String>)
    ensures
        string_views(r@) == list_items(split_on(match setting {
            Some(s) => s@,
            None => "qwen3"@,
        }, ',')),
{
    let text: &str = match setting {
        Some(s) => s,
        None => "qwen3",
    };
    let c = chars_of(text);
    let pieces = split_chars(c.as_slice(), ',');
    let ghost p = split_on(c@, ',');
    let mut out: Vec<String> = Vec::new();
    let mut j: usize = 0;
    while j < pieces.len()
        invariant
            j <= pieces@.len(),
            pieces@.len() == p.len(),
            forall|k: int| 0 <= k < pieces@.len() ==> #[trigger] pieces@[k]@ == p[k],
            string_views(out@) == list_items(p.take(j as int)),
        decreases pieces@.len() - j,
    {
        assert(p.take(j + 1).drop_last() =~= p.take(j as int));
        let t = trim_chars(pieces[j].as_slice());
        if t.len() > 0 {
            let ghost before = out@;
            out.push(string_from_chars(t.as_slice()));
            assert(string_views(out@) =~= string_views(before).push(t@));
        }
        j = j + 1;
    }
    assert(p.take(p.len() as int) =~= p);
    out
}

/// Whether a model is a thinking model: its name contains one of the prefixes.
pub fn is_thinking_model(model_id: &str, prefixes: &Vec<String>) -> (r: bool)
    ensures
        r == exists|i: int| 0 <= i < prefixes@.len() && has_sub(model_id@, #[trigger] prefixes@[i]@),
{
    let m = chars_of(model_id);
    let mut i: usize = 0;
    while i < prefixes.len()
        invariant
            i <= prefixes@.len(),
            m@ == model_id@,
            forall|j: int| 0 <= j < i ==> !has_sub(model_id@, #[trigger] prefixes@[j]@),
        decreases prefixes@.len() - i,
    {
        let p = chars_of(prefixes[i].as_str());
        if contains_chars(m.as_slice(), p.as_slice()) {
            return true;
        }
        i = i + 1;
    }
    false
}

/// A model listed by the Ollama tags endpoint.
#[derive(Debug)]
pub struct OllamaModel {
    pub name: String,
}

/// The reply of the Ollama tags endpoint.
#[derive(Debug)]
pub struct OllamaTagsResponse {
    pub models: Vec<OllamaModel>,
}

} // verus!
