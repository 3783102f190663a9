//! The caller-side embedder backed by an Ollama-compatible `/api/embed`
//! endpoint: its configuration, the dimension probe's verdict, and the text
//! it sends. The HTTP round-trip itself is made by the caller.

use vstd::prelude::*;

use crate::text::push_str;

verus! {

/// mxbai-family models want this prefix on the query side only; it is a
/// no-op for models that were not trained with it.
pub open spec fn query_prefix() -> Seq<char> {
    "Represent this sentence for searching relevant passages: "@
}

/// Why connecting to an embedder failed.
#[derive(Debug, Clone)]
pub enum EmbedError {
    /// The dimension probe came back with an empty vector.
    ZeroLengthVector {
        /// The model that was probed.
        model: String,
    },
}

impl EmbedError {
    /// The human-readable message.
    pub fn to_string(&self) -> (s: String)
        ensures
            self matches EmbedError::ZeroLengthVector { model } ==> s@ == "embedder '"@ + model@
                + "' returned a zero-length vector"@,
    {
        let mut s = String::new();
        match self {
            EmbedError::ZeroLengthVector { model } => {
                push_str(&mut s, "embedder '");
                push_str(&mut s, model.as_str());
                push_str(&mut s, "' returned a zero-length vector");
            },
        }
        s
    }
}

/// An embedder backed by an Ollama-compatible HTTP endpoint.
pub struct OllamaEmbed {
    url: String,
    model: String,
    dim: u32,
}

impl OllamaEmbed {
    /// The endpoint's base URL.
    pub closed spec fn spec_url(&self) -> Seq<char> {
        self.url@
    }

    /// The model name.
    pub closed spec fn spec_model(&self) -> Seq<char> {
        self.model@
    }

    /// The embedding dimension.
    pub closed spec fn spec_dim(&self) -> u32 {
        self.dim
    }

    /// The embedder for `url` and `model`, given the length of the vector
    /// that the dimension probe returned: that length (cast to `u32`) is the
    /// dimension, and a zero dimension is refused.
    pub fn connect(url: String, model: String, probe_len: usize) -> (r: Result<Self, EmbedError>)
        ensures
            (probe_len as u32) == 0 ==> (r matches Err(EmbedError::ZeroLengthVector { model: m })
                && m@ == model@),
            (probe_len as u32) != 0 ==> (r matches Ok(e) && e.spec_url() == url@ && e.spec_model()
                == model@ && e.spec_dim() == probe_len as u32),
    {
        let dim = probe_len as u32;
        if dim == 0 {
            return Err(EmbedError::ZeroLengthVector { model });
        }
        Ok(OllamaEmbed { url, model, dim })
    }

    /// Embedding dimension produced by this backend.
    pub fn dim(&self) -> (d: u32)
        ensures
            d == self.spec_dim(),
    {
        self.dim
    }

    /// The endpoint's base URL.
    pub fn url(&self) -> (s: &str)
        ensures
            s@ == self.spec_url(),
    {
        self.url.as_str()
    }

    /// The model name.
    pub fn model(&self) -> (s: &str)
        ensures
            s@ == self.spec_model(),
    {
        self.model.as_str()
    }

    /// The URL the embedding request goes to: `{url}/api/embed`.
    pub fn embed_url(&self) -> (s: String)
        ensures
            s@ == self.spec_url() + "/api/embed"@,
    {
        let mut s = String::new();
        push_str(&mut s, self.url.as_str());
        push_str(&mut s, "/api/embed");
        s
    }

    /// The text embedded for a stored passage: the passage itself.
    pub fn passage_input(&self, text: &str) -> (s: String)
        ensures
            s@ == text@,
    {
        let mut s = String::new();
        push_str(&mut s, text);
        s
    }

    /// The text embedded for a search query: the query prefix, then the
    /// query.
    pub fn query_input(&self, text: &str) -> (s: String)
        ensures
            s@ == query_prefix() + text@,
    {
        let mut s = String::new();
        push_str(&mut s, "Represent this sentence for searching relevant passages: ");
        push_str(&mut s, text);
        s
    }
}

} // verus!
