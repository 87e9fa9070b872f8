//! Embedding models and backends.

use vstd::prelude::*;
use crate::bundle_graph::text_of;
use crate::decimal::{decimal, push_decimal};
use crate::text::{ascii_lower, same_text, trim_str, trimmed};

verus! {

/// Why a model or a backend cannot be used.
#[derive(Debug)]
pub enum EmbeddingError {
    Message(String),
}

impl EmbeddingError {
    /// The error in words.
    pub fn message(&self) -> (r: String)
        ensures
            r@ == self->Message_0@,
    {
        match self {
            EmbeddingError::Message(text) => text.clone(),
        }
    }
}

impl From<String> for EmbeddingError {
    fn from(value: String) -> (r: Self) {
        EmbeddingError::Message(value)
    }
}

impl vstd::std_specs::convert::FromSpecImpl<String> for EmbeddingError {
    open spec fn obeys_from_spec() -> bool {
        true
    }

    open spec fn from_spec(value: String) -> Self {
        EmbeddingError::Message(value)
    }
}

/// A model that runs on Candle.
#[derive(Debug)]
pub struct CandleModel {
    pub model_id: String,
}

/// The models that Candle can run.
#[derive(Debug, Clone, Copy, PartialEq, Eq, Structural)]
pub enum Which {
    AllMiniLML6v2,
    AllMiniLML12v2,
    ParaphraseMiniLML6v2,
    ParaphraseMultilingualMiniLML12v2,
    LaBSE,
    ParaphraseMultilingualMpnetBaseV2,
    DistiluseBaseMultilingualCasedV2,
    BgeSmallEnV15,
    BgeBaseEnV15,
    MultilingualE5Large,
    MultilingualE5Base,
    MultilingualE5Small,
    AllMpnetBaseV2,
    ParaphraseMpnetBaseV2,
}

/// The name that a model of Candle goes by.
pub open spec fn candle_name(which: Which) -> Seq<char> {
    match which {
        Which::AllMiniLML6v2 => "sentence-transformers/all-MiniLM-L6-v2"@,
        Which::AllMiniLML12v2 => "sentence-transformers/all-MiniLM-L12-v2"@,
        Which::ParaphraseMiniLML6v2 => "sentence-transformers/paraphrase-MiniLM-L6-v2"@,
        Which::ParaphraseMultilingualMiniLML12v2 =>
            "sentence-transformers/paraphrase-multilingual-MiniLM-L12-v2"@,
        Which::LaBSE => "sentence-transformers/LaBSE"@,
        Which::ParaphraseMultilingualMpnetBaseV2 =>
            "sentence-transformers/paraphrase-multilingual-mpnet-base-v2"@,
        Which::DistiluseBaseMultilingualCasedV2 =>
            "sentence-transformers/distiluse-base-multilingual-cased-v2"@,
        Which::BgeSmallEnV15 => "BAAI/bge-small-en-v1.5"@,
        Which::BgeBaseEnV15 => "BAAI/bge-base-en-v1.5"@,
        Which::MultilingualE5Large => "intfloat/multilingual-e5-large"@,
        Which::MultilingualE5Base => "intfloat/multilingual-e5-base"@,
        Which::MultilingualE5Small => "intfloat/multilingual-e5-small"@,
        Which::AllMpnetBaseV2 => "sentence-transformers/all-mpnet-base-v2"@,
        Which::ParaphraseMpnetBaseV2 => "sentence-transformers/paraphrase-mpnet-base-v2"@,
    }
}

/// The text names a model of Candle.
pub open spec fn names_candle_model(model: Seq<char>) -> bool {
    exists|which: Which| #[trigger] candle_name(which) == model
}

/// What is said of a text that names no model of Candle.
pub open spec fn candle_refusal(model: Seq<char>) -> Seq<char> {
    "Unsupported Candle embedding model '"@ + model + "'"@
}

/// The model of Candle that goes by that name.
pub fn candle_which_for(model: &str) -> (r: Result<Which, EmbeddingError>)
    ensures
        match r {
            Ok(which) => candle_name(which) == model@,
            Err(EmbeddingError::Message(text)) => !names_candle_model(model@) && text@
                == candle_refusal(model@),
        },
{
    if same_text(model, "sentence-transformers/all-MiniLM-L6-v2") {
        return Ok(Which::AllMiniLML6v2);
    }
    if same_text(model, "sentence-transformers/all-MiniLM-L12-v2") {
        return Ok(Which::AllMiniLML12v2);
    }
    if same_text(model, "sentence-transformers/paraphrase-MiniLM-L6-v2") {
        return Ok(Which::ParaphraseMiniLML6v2);
    }
    if same_text(model, "sentence-transformers/paraphrase-multilingual-MiniLM-L12-v2") {
        return Ok(Which::ParaphraseMultilingualMiniLML12v2);
    }
    if same_text(model, "sentence-transformers/LaBSE") {
        return Ok(Which::LaBSE);
    }
    if same_text(model, "sentence-transformers/paraphrase-multilingual-mpnet-base-v2") {
        return Ok(Which::ParaphraseMultilingualMpnetBaseV2);
    }
    if same_text(model, "sentence-transformers/distiluse-base-multilingual-cased-v2") {
        return Ok(Which::DistiluseBaseMultilingualCasedV2);
    }
    if same_text(model, "BAAI/bge-small-en-v1.5") {
        return Ok(Which::BgeSmallEnV15);
    }
    if same_text(model, "BAAI/bge-base-en-v1.5") {
        return Ok(Which::BgeBaseEnV15);
    }
    if same_text(model, "intfloat/multilingual-e5-large") {
        return Ok(Which::MultilingualE5Large);
    }
    if same_text(model, "intfloat/multilingual-e5-base") {
        return Ok(Which::MultilingualE5Base);
    }
    if same_text(model, "intfloat/multilingual-e5-small") {
        return Ok(Which::MultilingualE5Small);
    }
    if same_text(model, "sentence-transformers/all-mpnet-base-v2") {
        return Ok(Which::AllMpnetBaseV2);
    }
    if same_text(model, "sentence-transformers/paraphrase-mpnet-base-v2") {
        return Ok(Which::ParaphraseMpnetBaseV2);
    }
    let mut text = "Unsupported Candle embedding model '".to_owned();
    text.append(model);
    text.append("'");
    Err(EmbeddingError::Message(text))
}

/// The model of Candle that goes by that name.
pub fn parse_candle_model(model: &str) -> (r: Result<CandleModel, EmbeddingError>)
    ensures
        match r {
            Ok(parsed) => names_candle_model(model@) && parsed.model_id@ == model@,
            Err(EmbeddingError::Message(text)) => !names_candle_model(model@) && text@
                == candle_refusal(model@),
        },
{
    match candle_which_for(model) {
        Ok(which) => {
            assert(candle_name(which) == model@);
            Ok(CandleModel { model_id: model.to_owned() })
        },
        Err(error) => Err(error),
    }
}

/// The models of FastEmbed: each by its variant and its code.
pub open spec fn fastembed_models() -> Seq<(Seq<char>, Seq<char>)> {
    seq![
        ("AllMiniLML6V2"@, "Qdrant/all-MiniLM-L6-v2-onnx"@),
        ("AllMiniLML6V2Q"@, "Xenova/all-MiniLM-L6-v2"@),
        ("AllMiniLML12V2"@, "Xenova/all-MiniLM-L12-v2"@),
        ("AllMiniLML12V2Q"@, "Xenova/all-MiniLM-L12-v2"@),
        ("BGEBaseENV15"@, "Xenova/bge-base-en-v1.5"@),
        ("BGEBaseENV15Q"@, "Qdrant/bge-base-en-v1.5-onnx-Q"@),
        ("BGELargeENV15"@, "Xenova/bge-large-en-v1.5"@),
        ("BGELargeENV15Q"@, "Qdrant/bge-large-en-v1.5-onnx-Q"@),
        ("BGESmallENV15"@, "Xenova/bge-small-en-v1.5"@),
        ("BGESmallENV15Q"@, "Qdrant/bge-small-en-v1.5-onnx-Q"@),
        ("NomicEmbedTextV1"@, "nomic-ai/nomic-embed-text-v1"@),
        ("NomicEmbedTextV15"@, "nomic-ai/nomic-embed-text-v1.5"@),
        ("NomicEmbedTextV15Q"@, "nomic-ai/nomic-embed-text-v1.5"@),
        ("ParaphraseMLMiniLML12V2Q"@, "Qdrant/paraphrase-multilingual-MiniLM-L12-v2-onnx-Q"@),
        ("ParaphraseMLMiniLML12V2"@, "Xenova/paraphrase-multilingual-MiniLM-L12-v2"@),
        ("ParaphraseMLMpnetBaseV2"@, "Xenova/paraphrase-multilingual-mpnet-base-v2"@),
        ("BGESmallZHV15"@, "Xenova/bge-small-zh-v1.5"@),
        ("BGELargeZHV15"@, "Xenova/bge-large-zh-v1.5"@),
        ("ModernBertEmbedLarge"@, "lightonai/modernbert-embed-large"@),
        ("MultilingualE5Small"@, "intfloat/multilingual-e5-small"@),
        ("MultilingualE5Base"@, "intfloat/multilingual-e5-base"@),
        ("MultilingualE5Large"@, "Qdrant/multilingual-e5-large-onnx"@),
        ("MxbaiEmbedLargeV1"@, "mixedbread-ai/mxbai-embed-large-v1"@),
        ("MxbaiEmbedLargeV1Q"@, "mixedbread-ai/mxbai-embed-large-v1"@),
        ("GTEBaseENV15"@, "Alibaba-NLP/gte-base-en-v1.5"@),
        ("GTEBaseENV15Q"@, "Alibaba-NLP/gte-base-en-v1.5"@),
        ("GTELargeENV15"@, "Alibaba-NLP/gte-large-en-v1.5"@),
        ("GTELargeENV15Q"@, "Alibaba-NLP/gte-large-en-v1.5"@),
        ("ClipVitB32"@, "Qdrant/clip-ViT-B-32-text"@),
        ("JinaEmbeddingsV2BaseCode"@, "jinaai/jina-embeddings-v2-base-code"@),
        ("EmbeddingGemma300M"@, "onnx-community/embeddinggemma-300m-ONNX"@),
    ]
}

/// The model at that place of the list has the text for its code, whatever the case of
/// the letters.
pub open spec fn has_code(at: int, model: Seq<char>) -> bool {
    0 <= at < fastembed_models().len() && ascii_lower(fastembed_models()[at].1) == ascii_lower(
        model,
    )
}

/// The text is the code of a model of FastEmbed.
pub open spec fn is_fastembed_code(model: Seq<char>) -> bool {
    exists|at: int| has_code(at, model)
}

/// The variant has the text for its code.
pub open spec fn is_variant_for(variant: Seq<char>, model: Seq<char>) -> bool {
    exists|at: int| has_code(at, model) && fastembed_models()[at].0 == variant
}

/// Calls `EmbeddingModel::from_str`, and gives the name of the variant. The variant is
/// one whose code is the text, with upper and lower case taken for the same; a few
/// variants share a code, and which of those it is stays open.
#[verifier::external_body]
fn find_fastembed_variant(model: &str) -> (r: Result<String, String>)
    ensures
        match r {
            Ok(variant) => is_variant_for(variant@, model@),
            Err(text) => !is_fastembed_code(model@) && text@ == "Unknown embedding model: "@
                + model@,
        },
{
    let found = <fastembed::EmbeddingModel as std::str::FromStr>::from_str(model);
    found.map(|variant| format!("{variant:?}"))
}

/// What is said of a text that is no code of a model of FastEmbed.
pub open spec fn fastembed_refusal(model: Seq<char>) -> Seq<char> {
    "Unknown embedding model '"@ + model + "': "@ + ("Unknown embedding model: "@ + model)
}

/// The variant of FastEmbed that has the text for its code.
pub fn parse_fastembed_model(model: &str) -> (r: Result<String, EmbeddingError>)
    ensures
        match r {
            Ok(variant) => is_variant_for(variant@, model@),
            Err(EmbeddingError::Message(text)) => !is_fastembed_code(model@) && text@
                == fastembed_refusal(model@),
        },
{
    match find_fastembed_variant(model) {
        Ok(variant) => Ok(variant),
        Err(reason) => {
            let mut text = "Unknown embedding model '".to_owned();
            text.append(model);
            text.append("': ");
            text.append(reason.as_str());
            Err(EmbeddingError::Message(text))
        },
    }
}

/// The variant is a quantized one.
pub open spec fn quantized_variant(variant: Seq<char>) -> bool {
    variant == "AllMiniLML6V2Q"@ || variant == "AllMiniLML12V2Q"@ || variant == "BGEBaseENV15Q"@
        || variant == "BGELargeENV15Q"@ || variant == "BGESmallENV15Q"@ || variant
        == "NomicEmbedTextV15Q"@ || variant == "ParaphraseMLMiniLML12V2Q"@ || variant
        == "MxbaiEmbedLargeV1Q"@ || variant == "GTEBaseENV15Q"@ || variant == "GTELargeENV15Q"@
}

/// Whether the variant is a quantized one.
pub fn is_quantized_model(variant: &str) -> (r: bool)
    ensures
        r == quantized_variant(variant@),
{
    same_text(variant, "AllMiniLML6V2Q") || same_text(variant, "AllMiniLML12V2Q") || same_text(
        variant,
        "BGEBaseENV15Q",
    ) || same_text(variant, "BGELargeENV15Q") || same_text(variant, "BGESmallENV15Q") || same_text(
        variant,
        "NomicEmbedTextV15Q",
    ) || same_text(variant, "ParaphraseMLMiniLML12V2Q") || same_text(variant, "MxbaiEmbedLargeV1Q")
        || same_text(variant, "GTEBaseENV15Q") || same_text(variant, "GTELargeENV15Q")
}

/// What runs a model.
#[derive(Debug)]
pub enum EmbeddingBackend {
    FastEmbed { model_variant: String, quantized: bool },
    Candle { model: CandleModel, batch_size: Option<usize> },
}

/// The label that a backend is recorded under.
pub open spec fn backend_label(backend: EmbeddingBackend) -> Seq<char> {
    match backend {
        EmbeddingBackend::FastEmbed { model_variant, quantized } => if quantized {
            "onnx-quantized"@
        } else {
            "onnx"@
        },
        EmbeddingBackend::Candle { model, batch_size } => "candle"@,
    }
}

/// The first part of the keys under which a backend's models are kept.
pub open spec fn backend_namespace(backend: EmbeddingBackend) -> Seq<char> {
    match backend {
        EmbeddingBackend::FastEmbed { model_variant, quantized } => "fastembed"@,
        EmbeddingBackend::Candle { model, batch_size } => "candle"@,
    }
}

impl EmbeddingBackend {
    /// The label that the backend is recorded under.
    pub fn metadata_label(&self) -> (r: String)
        ensures
            r@ == backend_label(*self),
    {
        match self {
            EmbeddingBackend::FastEmbed { model_variant: _, quantized } => if *quantized {
                "onnx-quantized".to_owned()
            } else {
                "onnx".to_owned()
            },
            EmbeddingBackend::Candle { model: _, batch_size: _ } => "candle".to_owned(),
        }
    }

    /// The first part of the keys under which the backend's models are kept.
    pub fn cache_namespace(&self) -> (r: &'static str)
        ensures
            r@ == backend_namespace(*self),
    {
        match self {
            EmbeddingBackend::FastEmbed { model_variant: _, quantized: _ } => "fastembed",
            EmbeddingBackend::Candle { model: _, batch_size: _ } => "candle",
        }
    }

    /// Whether the backend runs a quantized model.
    pub fn is_quantized(&self) -> (r: bool)
        ensures
            r == match *self {
                EmbeddingBackend::FastEmbed { model_variant, quantized } => quantized,
                EmbeddingBackend::Candle { model, batch_size } => false,
            },
    {
        match self {
            EmbeddingBackend::FastEmbed { model_variant: _, quantized } => *quantized,
            EmbeddingBackend::Candle { model: _, batch_size: _ } => false,
        }
    }
}

/// The key under which a model is kept once it is loaded: the backend's namespace, the
/// name without white space around it, and the batch size, 0 where there is none.
pub fn embedder_cache_key(
    backend: &EmbeddingBackend,
    model_name: &str,
    batch_size: Option<usize>,
) -> (r: String)
    ensures
        r@ == backend_namespace(*backend) + "::"@ + trimmed(model_name@) + "::"@ + decimal(
            match batch_size {
                Some(n) => n as nat,
                None => 0,
            },
        ),
{
    let mut out = backend.cache_namespace().to_owned();
    out.append("::");
    out.append(trim_str(model_name).as_str());
    out.append("::");
    let n: usize = match batch_size {
        Some(n) => n,
        None => 0,
    };
    push_decimal(&mut out, n as u64);
    out
}

/// How many texts Candle takes at once: as the backend says, else as the call says, else
/// 2048.
pub fn candle_batch_size(own: Option<usize>, requested: Option<usize>) -> (r: usize)
    ensures
        r == match (own, requested) {
            (Some(n), _) => n,
            (None, Some(n)) => n,
            (None, None) => 2048,
        },
{
    match (own, requested) {
        (Some(n), _) => n,
        (None, Some(n)) => n,
        (None, None) => 2048,
    }
}

/// The backend that runs a model of FastEmbed.
pub fn build_fastembed_backend(model: &str) -> (r: Result<EmbeddingBackend, EmbeddingError>)
    ensures
        match r {
            Ok(backend) => match backend {
                EmbeddingBackend::FastEmbed { model_variant, quantized } => is_variant_for(
                    model_variant@,
                    model@,
                ) && quantized == quantized_variant(model_variant@),
                EmbeddingBackend::Candle { model, batch_size } => false,
            },
            Err(EmbeddingError::Message(text)) => !is_fastembed_code(model@) && text@
                == fastembed_refusal(model@),
        },
{
    match parse_fastembed_model(model) {
        Ok(model_variant) => {
            let quantized = is_quantized_model(model_variant.as_str());
            Ok(EmbeddingBackend::FastEmbed { model_variant, quantized })
        },
        Err(error) => Err(error),
    }
}

/// The backend that runs a model of Candle.
pub fn build_candle_backend(model: &str, batch_size: Option<usize>) -> (r: Result<
    EmbeddingBackend,
    EmbeddingError,
>)
    ensures
        match r {
            Ok(backend) => match backend {
                EmbeddingBackend::Candle { model: found, batch_size: size } => names_candle_model(
                    model@,
                ) && found.model_id@ == model@ && size == batch_size,
                EmbeddingBackend::FastEmbed { model_variant, quantized } => false,
            },
            Err(EmbeddingError::Message(text)) => !names_candle_model(model@) && text@
                == candle_refusal(model@),
        },
{
    match parse_candle_model(model) {
        Ok(model) => Ok(EmbeddingBackend::Candle { model, batch_size }),
        Err(error) => Err(error),
    }
}

/// The model that a request without one gets.
pub const DEFAULT_MODEL: &'static str = "Xenova/bge-small-en-v1.5";

/// The explicit model of a request: the name without white space around it, unless
/// nothing is left.
pub open spec fn explicit_model(raw: Option<Seq<char>>) -> Option<Seq<char>> {
    match raw {
        Some(name) => if trimmed(name).len() > 0 {
            Some(trimmed(name))
        } else {
            None
        },
        None => None,
    }
}

/// The name of the model that a request gets, and the name that it gave.
pub fn normalize_model_name(raw: Option<String>) -> (r: (String, Option<String>))
    ensures
        text_of(r.1) == explicit_model(text_of(raw)),
        r.0@ == match explicit_model(text_of(raw)) {
            Some(name) => name,
            None => DEFAULT_MODEL@,
        },
{
    match raw {
        Some(name) => {
            let explicit = trim_str(name.as_str());
            if explicit.as_str().is_empty() {
                (DEFAULT_MODEL.to_owned(), None)
            } else {
                (explicit.clone(), Some(explicit))
            }
        },
        None => (DEFAULT_MODEL.to_owned(), None),
    }
}

/// A request for embeddings of texts.
#[derive(Debug)]
pub struct NativeEmbeddingRequest {
    pub texts: Vec<String>,
    pub model: Option<String>,
    pub batch_size: Option<u32>,
}

/// What a request for embeddings runs.
#[derive(Debug)]
pub struct EmbeddingRun {
    pub texts: Vec<String>,
    pub model_name: String,
    /// The variant of FastEmbed; `None` for its default.
    pub variant: Option<String>,
    pub batch_size: Option<usize>,
}

/// What a request for embeddings runs; nothing where it holds no texts.
pub fn plan_embeddings(request: NativeEmbeddingRequest) -> (r: Result<
    Option<EmbeddingRun>,
    EmbeddingError,
>)
    ensures
        match r {
            Ok(None) => request.texts@.len() == 0,
            Ok(Some(run)) => {
                &&& request.texts@.len() > 0
                &&& run.texts == request.texts
                &&& run.batch_size == match request.batch_size {
                    Some(n) => Some(n as usize),
                    None => None,
                }
                &&& match explicit_model(text_of(request.model)) {
                    Some(name) => run.model_name@ == name && (match run.variant {
                        Some(variant) => is_variant_for(variant@, name),
                        None => false,
                    }),
                    None => run.model_name@ == DEFAULT_MODEL@ && run.variant is None,
                }
            },
            Err(EmbeddingError::Message(text)) => {
                &&& request.texts@.len() > 0
                &&& explicit_model(text_of(request.model)) is Some
                &&& !is_fastembed_code(explicit_model(text_of(request.model))->0)
                &&& text@ == fastembed_refusal(explicit_model(text_of(request.model))->0)
            },
        },
{
    let NativeEmbeddingRequest { texts, model, batch_size } = request;
    if texts.len() == 0 {
        return Ok(None);
    }
    let (model_name, explicit) = normalize_model_name(model);
    let variant = match explicit {
        Some(name) => match parse_fastembed_model(name.as_str()) {
            Ok(variant) => Some(variant),
            Err(error) => return Err(error),
        },
        None => None,
    };
    let batch_size = match batch_size {
        Some(n) => Some(n as usize),
        None => None,
    };
    Ok(Some(EmbeddingRun { texts, model_name, variant, batch_size }))
}

/// Of the models of FastEmbed those are quantized whose variant ends in `Q`.
pub proof fn law_quantized(at: int)
    requires
        0 <= at < fastembed_models().len(),
    ensures
        quantized_variant(fastembed_models()[at].0) <==> fastembed_models()[at].0.last() == 'Q',
{
    let v = fastembed_models()[at].0;
    reveal_strlit("AllMiniLML6V2");
    reveal_strlit("AllMiniLML6V2Q");
    reveal_strlit("AllMiniLML12V2");
    reveal_strlit("AllMiniLML12V2Q");
    reveal_strlit("BGEBaseENV15");
    reveal_strlit("BGEBaseENV15Q");
    reveal_strlit("BGELargeENV15");
    reveal_strlit("BGELargeENV15Q");
    reveal_strlit("BGESmallENV15");
    reveal_strlit("BGESmallENV15Q");
    reveal_strlit("NomicEmbedTextV1");
    reveal_strlit("NomicEmbedTextV15");
    reveal_strlit("NomicEmbedTextV15Q");
    reveal_strlit("ParaphraseMLMiniLML12V2Q");
    reveal_strlit("ParaphraseMLMiniLML12V2");
    reveal_strlit("ParaphraseMLMpnetBaseV2");
    reveal_strlit("BGESmallZHV15");
    reveal_strlit("BGELargeZHV15");
    reveal_strlit("ModernBertEmbedLarge");
    reveal_strlit("MultilingualE5Small");
    reveal_strlit("MultilingualE5Base");
    reveal_strlit("MultilingualE5Large");
    reveal_strlit("MxbaiEmbedLargeV1");
    reveal_strlit("MxbaiEmbedLargeV1Q");
    reveal_strlit("GTEBaseENV15");
    reveal_strlit("GTEBaseENV15Q");
    reveal_strlit("GTELargeENV15");
    reveal_strlit("GTELargeENV15Q");
    reveal_strlit("ClipVitB32");
    reveal_strlit("JinaEmbeddingsV2BaseCode");
    reveal_strlit("EmbeddingGemma300M");
    if quantized_variant(v) {
        assert(v.last() == 'Q');
    }
}

/// A code is found whatever the case of its letters, and each model has its own.
pub proof fn law_codes(model: Seq<char>, at: int)
    ensures
        is_fastembed_code(ascii_lower(model)) <==> is_fastembed_code(model),
        0 <= at < fastembed_models().len() ==> is_variant_for(
            fastembed_models()[at].0,
            fastembed_models()[at].1,
        ),
        is_fastembed_code(model) ==> exists|k: int|
            0 <= k < fastembed_models().len() && ascii_lower(#[trigger] fastembed_models()[k].1)
                == ascii_lower(model),
{
    assert(ascii_lower(ascii_lower(model)) =~= ascii_lower(model));
    if is_fastembed_code(model) {
        let k = choose|k: int| has_code(k, model);
        assert(has_code(k, ascii_lower(model)));
        assert(ascii_lower(fastembed_models()[k].1) == ascii_lower(model));
    }
    if is_fastembed_code(ascii_lower(model)) {
        let k = choose|k: int| has_code(k, ascii_lower(model));
        assert(has_code(k, model));
    }
    if 0 <= at < fastembed_models().len() {
        assert(has_code(at, fastembed_models()[at].1));
    }
}

/// Every model of Candle goes by its name, which a refusal of another name repeats.
pub proof fn law_candle_names(which: Which, model: Seq<char>)
    ensures
        names_candle_model(candle_name(which)),
        ("Unsupported Candle embedding model '"@ + model).is_prefix_of(candle_refusal(model)),
        ("Unknown embedding model '"@ + model).is_prefix_of(fastembed_refusal(model)),
        model.is_suffix_of(fastembed_refusal(model)),
{
    let a = "Unsupported Candle embedding model '"@ + model;
    assert(candle_refusal(model).subrange(0, a.len() as int) =~= a);
    let b = "Unknown embedding model '"@ + model;
    let r = fastembed_refusal(model);
    assert(r.subrange(0, b.len() as int) =~= b);
    assert(r.subrange(r.len() - model.len(), r.len() as int) =~= model);
}

/// The labels and the namespaces tell the backends apart, and the label a quantized model from
/// another.
pub proof fn law_backends(a: EmbeddingBackend, b: EmbeddingBackend)
    ensures
        a is Candle ==> backend_label(a) == "candle"@ && backend_namespace(a) == "candle"@,
        a is FastEmbed ==> backend_namespace(a) == "fastembed"@,
        a matches EmbeddingBackend::FastEmbed { model_variant, quantized } ==> (quantized
            <==> backend_label(a) == "onnx-quantized"@),
        a matches EmbeddingBackend::FastEmbed { model_variant, quantized } ==> (!quantized
            <==> backend_label(a) == "onnx"@),
        a is Candle && b is FastEmbed ==> backend_label(a) != backend_label(b)
            && backend_namespace(a) != backend_namespace(b),
{
    reveal_strlit("candle");
    reveal_strlit("fastembed");
    reveal_strlit("onnx-quantized");
    reveal_strlit("onnx");
    assert("candle"@[0] == 'c' && "fastembed"@[0] == 'f' && "onnx"@[0] == 'o');
    assert("onnx-quantized"@[0] == 'o' && "onnx"@.len() == 4);
}

/// A request names a model where its name is not blank; white space around it does not count.
pub proof fn law_explicit_model(name: Seq<char>)
    ensures
        explicit_model(None) is None,
        trimmed(name).len() == 0 ==> explicit_model(Some(name)) is None,
        trimmed(name).len() > 0 ==> explicit_model(Some(name)) == Some(trimmed(name)),
        explicit_model(Some(trimmed(name))) == explicit_model(Some(name)),
{
    crate::text::law_trimmed_stays(name);
}

/// A backend's own batch size goes before that of the call.
pub proof fn law_batch_size(own: Option<usize>, requested: Option<usize>, size: usize)
    requires
        call_ensures(candle_batch_size, (own, requested), size),
    ensures
        own matches Some(n) ==> size == n,
        own is None ==> (requested matches Some(n) ==> size == n),
        own is None && requested is None ==> size == 2048,
{
}

} // verus!
