//! Semantic compression: backend settings, prompts, and the cache key of a summary.
use vstd::prelude::*;
use vstd::utf8::encode_utf8;

use sha2::Digest;

use crate::text::{decimal, decimal_string};

verus! {

/// The SHA-256 digest of the bytes.
pub uninterp spec fn sha256(data: Seq<u8>) -> Seq<u8>;

/// Calls `sha2::Sha256::digest`. The digest itself is named, not stated; that it is 32
/// bytes long is what SHA-256 is.
#[verifier::external_body]
fn sha256_digest(data: &[u8]) -> (r: Vec<u8>)
    ensures
        r@ == sha256(data@),
        r@.len() == 32,
{
    sha2::Sha256::digest(data).to_vec()
}

/// The lowercase hexadecimal digit for `d < 16`.
pub open spec fn hex_digit(d: nat) -> char {
    seq!['0', '1', '2', '3', '4', '5', '6', '7', '8', '9', 'a', 'b', 'c', 'd', 'e', 'f'][d as int]
}

/// Two lowercase hexadecimal digits per byte, as `{:x}` writes a digest.
pub open spec fn lower_hex(bytes: Seq<u8>) -> Seq<char>
    decreases bytes.len(),
{
    if bytes.len() == 0 {
        seq![]
    } else {
        lower_hex(bytes.drop_last()) + seq![
            hex_digit((bytes.last() / 16) as nat),
            hex_digit((bytes.last() % 16) as nat),
        ]
    }
}

fn hex_char(d: u8) -> (c: char)
    requires
        d < 16,
    ensures
        c == hex_digit(d as nat),
{
    let digits = ['0', '1', '2', '3', '4', '5', '6', '7', '8', '9', 'a', 'b', 'c', 'd', 'e', 'f'];
    assert(digits@ =~= seq!['0', '1', '2', '3', '4', '5', '6', '7', '8', '9', 'a', 'b', 'c', 'd', 'e', 'f']);
    digits[d as usize]
}

fn push_bytes(out: &mut Vec<u8>, bytes: &[u8])
    ensures
        final(out)@ == old(out)@ + bytes@,
{
    let ghost start = out@;
    for i in 0..bytes.len()
        invariant
            out@ == start + bytes@.take(i as int),
    {
        out.push(bytes[i]);
        assert(start + bytes@.take(i as int).push(bytes@[i as int]) =~= start + bytes@.take(
            i + 1,
        ));
    }
    assert(bytes@.take(bytes@.len() as int) =~= bytes@);
}

/// The bytes hashed for a cache entry: backend, model and input, separated by NUL bytes.
pub open spec fn cache_input(backend: Seq<char>, model: Seq<char>, input: Seq<char>) -> Seq<u8> {
    encode_utf8(backend) + seq![0u8] + encode_utf8(model) + seq![0u8] + encode_utf8(input)
}

/// The cache key of a summary: SHA-256 over backend, model and input, in lowercase hex.
pub fn cache_key(backend: &str, model: &str, input: &str) -> (r: String)
    ensures
        r@ == lower_hex(sha256(cache_input(backend@, model@, input@))),
        r@.len() == 64,
{
    let mut data: Vec<u8> = Vec::new();
    push_bytes(&mut data, backend.as_bytes());
    data.push(0u8);
    push_bytes(&mut data, model.as_bytes());
    data.push(0u8);
    push_bytes(&mut data, input.as_bytes());
    assert(data@ =~= cache_input(backend@, model@, input@));
    let digest = sha256_digest(data.as_slice());
    let mut out = String::new();
    for i in 0..digest.len()
        invariant
            digest@.len() == 32,
            out@ == lower_hex(digest@.take(i as int)),
            out@.len() == 2 * i,
    {
        let b = digest[i];
        crate::text::push_char(&mut out, hex_char(b / 16));
        crate::text::push_char(&mut out, hex_char(b % 16));
        assert(digest@.take(i + 1).drop_last() =~= digest@.take(i as int));
    }
    assert(digest@.take(32) =~= digest@);
    out
}

/// The default Ollama host.
pub open spec fn ollama_default_host() -> Seq<char> {
    "http://localhost:11434"@
}

/// Settings of the local Ollama backend.
pub struct OllamaBackend {
    pub host: String,
    pub model: String,
}

impl OllamaBackend {
    /// The backend for the given host and model settings (`OLLAMA_HOST`,
    /// `TOKENLENS_OLLAMA_MODEL`), with `http://localhost:11434` and `llama3.2` for the ones
    /// not set.
    pub fn from_settings(host: Option<String>, model: Option<String>) -> (r: OllamaBackend)
        ensures
            r.host@ == (match host {
                Some(h) => h@,
                None => ollama_default_host(),
            }),
            r.model@ == (match model {
                Some(m) => m@,
                None => "llama3.2"@,
            }),
    {
        OllamaBackend {
            host: match host {
                Some(h) => h,
                None => "http://localhost:11434".to_owned(),
            },
            model: match model {
                Some(m) => m,
                None => "llama3.2".to_owned(),
            },
        }
    }

    /// The name the backend goes by in cache keys.
    pub fn name(&self) -> (r: &'static str)
        ensures
            r@ == "ollama"@,
    {
        "ollama"
    }

    /// The endpoint that generates completions.
    pub fn generate_url(&self) -> (r: String)
        ensures
            r@ == self.host@ + "/api/generate"@,
    {
        let mut u = self.host.clone();
        u.append("/api/generate");
        u
    }

    /// The endpoint that lists models, used as a reachability check.
    pub fn tags_url(&self) -> (r: String)
        ensures
            r@ == self.host@ + "/api/tags"@,
    {
        let mut u = self.host.clone();
        u.append("/api/tags");
        u
    }
}

/// The prompt sent to Ollama to compress `text` to about `target_tokens` tokens.
pub open spec fn ollama_prompt_of(text: Seq<char>, target_tokens: nat) -> Seq<char> {
    "Compress the following command output to roughly "@ + decimal(target_tokens)
        + " tokens. Preserve errors, file paths, and key findings. Drop boilerplate, banners, and progress lines. Output only the compressed text.\n\n---\n"@
        + text + "\n---"@
}

/// The prompt sent to Ollama to compress `text` to about `target_tokens` tokens.
pub fn ollama_prompt(text: &str, target_tokens: u64) -> (r: String)
    ensures
        r@ == ollama_prompt_of(text@, target_tokens as nat),
{
    let mut p = "Compress the following command output to roughly ".to_owned();
    p.append(decimal_string(target_tokens).as_str());
    p.append(
        " tokens. Preserve errors, file paths, and key findings. Drop boilerplate, banners, and progress lines. Output only the compressed text.\n\n---\n",
    );
    p.append(text);
    p.append("\n---");
    p
}

/// Settings of an OpenAI-compatible backend.
pub struct OpenAIBackend {
    pub base_url: String,
    pub api_key: String,
    pub model: String,
}

impl OpenAIBackend {
    /// The backend for the given settings (`OPENAI_API_KEY`, `OPENAI_BASE_URL`,
    /// `TOKENLENS_OPENAI_MODEL`): none without an API key; otherwise
    /// `https://api.openai.com/v1` and `gpt-4o-mini` for the ones not set.
    pub fn from_settings(
        api_key: Option<String>,
        base_url: Option<String>,
        model: Option<String>,
    ) -> (r: Option<OpenAIBackend>)
        ensures
            api_key is None ==> r is None,
            api_key matches Some(k) ==> (r matches Some(b) && {
                &&& b.api_key@ == k@
                &&& b.base_url@ == (match base_url {
                    Some(u) => u@,
                    None => "https://api.openai.com/v1"@,
                })
                &&& b.model@ == (match model {
                    Some(m) => m@,
                    None => "gpt-4o-mini"@,
                })
            }),
    {
        let api_key = match api_key {
            Some(k) => k,
            None => {
                return None;
            },
        };
        Some(
            OpenAIBackend {
                base_url: match base_url {
                    Some(u) => u,
                    None => "https://api.openai.com/v1".to_owned(),
                },
                api_key,
                model: match model {
                    Some(m) => m,
                    None => "gpt-4o-mini".to_owned(),
                },
            },
        )
    }

    /// The name the backend goes by in cache keys.
    pub fn name(&self) -> (r: &'static str)
        ensures
            r@ == "openai"@,
    {
        "openai"
    }

    /// The chat completions endpoint.
    pub fn completions_url(&self) -> (r: String)
        ensures
            r@ == self.base_url@ + "/chat/completions"@,
    {
        let mut u = self.base_url.clone();
        u.append("/chat/completions");
        u
    }

    /// The value of the `Authorization` header.
    pub fn authorization(&self) -> (r: String)
        ensures
            r@ == "Bearer "@ + self.api_key@,
    {
        let mut h = "Bearer ".to_owned();
        h.append(self.api_key.as_str());
        h
    }
}

/// The system message sent to OpenAI.
pub fn openai_system_message() -> (r: &'static str)
    ensures
        r@ == "You compress command output for AI coding assistants. Preserve errors and key facts; drop boilerplate."@,
{
    "You compress command output for AI coding assistants. Preserve errors and key facts; drop boilerplate."
}

/// The user message sent to OpenAI to compress `text` to about `target_tokens` tokens.
pub fn openai_user_message(text: &str, target_tokens: u64) -> (r: String)
    ensures
        r@ == "Target ~"@ + decimal(target_tokens as nat) + " tokens.\n\n"@ + text@,
{
    let mut m = "Target ~".to_owned();
    m.append(decimal_string(target_tokens).as_str());
    m.append(" tokens.\n\n");
    m.append(text);
    m
}

/// The backend that semantic compression uses.
pub enum Backend {
    Ollama(OllamaBackend),
    OpenAI(OpenAIBackend),
}

/// Prefers Ollama when it answered the reachability check, else OpenAI when it is
/// configured, else none.
pub fn choose_backend(
    ollama: OllamaBackend,
    ollama_reachable: bool,
    openai: Option<OpenAIBackend>,
) -> (r: Option<Backend>)
    ensures
        ollama_reachable ==> (r matches Some(Backend::Ollama(b)) && b.host@ == ollama.host@
            && b.model@ == ollama.model@),
        !ollama_reachable && openai is None ==> r is None,
        !ollama_reachable ==> (openai matches Some(o) ==> (r matches Some(Backend::OpenAI(b))
            && b.base_url@ == o.base_url@ && b.api_key@ == o.api_key@ && b.model@ == o.model@)),
{
    if ollama_reachable {
        Some(Backend::Ollama(ollama))
    } else {
        match openai {
            Some(b) => Some(Backend::OpenAI(b)),
            None => None,
        }
    }
}

} // verus!

verus! {

/// A digit of lowercase hexadecimal.
pub open spec fn is_lower_hex(c: char) -> bool {
    seq!['0', '1', '2', '3', '4', '5', '6', '7', '8', '9', 'a', 'b', 'c', 'd', 'e', 'f'].contains(c)
}

/// Hex encoding writes two lowercase hexadecimal digits per byte, so a cache key is 64
/// lowercase hexadecimal digits.
pub proof fn lemma_lower_hex_digits(bytes: Seq<u8>)
    ensures
        lower_hex(bytes).len() == 2 * bytes.len(),
        forall|i: int| 0 <= i < lower_hex(bytes).len() ==> is_lower_hex(#[trigger] lower_hex(bytes)[i]),
    decreases bytes.len(),
{
    if bytes.len() > 0 {
        lemma_lower_hex_digits(bytes.drop_last());
        let digits = seq!['0', '1', '2', '3', '4', '5', '6', '7', '8', '9', 'a', 'b', 'c', 'd', 'e', 'f'];
        let hi = (bytes.last() / 16) as int;
        let lo = (bytes.last() % 16) as int;
        assert(digits.contains(digits[hi]));
        assert(digits.contains(digits[lo]));
        let prev = lower_hex(bytes.drop_last());
        let s = lower_hex(bytes);
        assert forall|i: int| 0 <= i < s.len() implies is_lower_hex(#[trigger] s[i]) by {
            if i < prev.len() {
                assert(s[i] == prev[i]);
            }
        }
    }
}

} // verus!
