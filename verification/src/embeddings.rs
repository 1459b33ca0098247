//! Embedders: where the embeddings of bookmark contents come from. The
//! embeddings themselves are made outside the library; what the library
//! needs to know is whether an embedder makes real ones.
use vstd::prelude::*;
use crate::text::owned;

verus! {

/// A source of embeddings for bookmark contents.
pub trait Embedder {
    /// Whether the embedder makes real embeddings.
    spec fn makes_embeddings(&self) -> bool;

    /// Whether the embedder makes real embeddings.
    fn enabled(&self) -> (r: bool)
        ensures
            r == self.makes_embeddings(),
    ;
}

/// The embedder used when embeddings are switched off: it makes none.
#[derive(Debug, Clone, Default)]
pub struct DummyEmbedding;

impl Embedder for DummyEmbedding {
    open spec fn makes_embeddings(&self) -> bool {
        false
    }

    fn enabled(&self) -> (r: bool) {
        false
    }
}

/// The embedder backed by the OpenAI embeddings service at `url`.
#[derive(Debug, Clone)]
pub struct OpenAiEmbedding {
    pub url: String,
}

impl OpenAiEmbedding {
    /// An embedder for the service at `url`.
    pub fn new(url: String) -> (r: OpenAiEmbedding)
        ensures
            r.url@ == url@,
    {
        OpenAiEmbedding { url }
    }
}

impl Default for OpenAiEmbedding {
    /// The embedder for the public OpenAI service.
    fn default() -> (r: OpenAiEmbedding)
        ensures
            r.url@ == "https://api.openai.com"@,
    {
        OpenAiEmbedding { url: owned("https://api.openai.com") }
    }
}

impl Embedder for OpenAiEmbedding {
    open spec fn makes_embeddings(&self) -> bool {
        true
    }

    fn enabled(&self) -> (r: bool) {
        true
    }
}

/// The embedder of the older interface that makes no embeddings.
#[derive(Debug, Clone, PartialEq, Eq, Default)]
pub struct DummyAi;

impl DummyAi {
    /// The embedder that makes no embeddings.
    pub fn new() -> (r: DummyAi) {
        DummyAi {}
    }
}

impl Embedder for DummyAi {
    open spec fn makes_embeddings(&self) -> bool {
        false
    }

    fn enabled(&self) -> (r: bool) {
        false
    }
}

/// The embedder of the older interface backed by the OpenAI service at
/// `url`.
#[derive(Debug, Clone)]
pub struct OpenAi {
    pub url: String,
}

impl OpenAi {
    /// An embedder for the service at `url`.
    pub fn new(url: String) -> (r: OpenAi)
        ensures
            r.url@ == url@,
    {
        OpenAi { url }
    }
}

impl Default for OpenAi {
    /// The embedder for the public OpenAI service.
    fn default() -> (r: OpenAi)
        ensures
            r.url@ == "https://api.openai.com"@,
    {
        OpenAi { url: owned("https://api.openai.com") }
    }
}

impl Embedder for OpenAi {
    open spec fn makes_embeddings(&self) -> bool {
        true
    }

    fn enabled(&self) -> (r: bool) {
        true
    }
}

} // verus!
