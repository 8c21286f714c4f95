//! Asking which models a provider offers.
use http::HeaderMap;
use vstd::prelude::*;
use vstd::string::*;

use crate::headers;
use crate::openai_models;
use crate::openai_models::{
    ConfigShellToolType, InputModality, ModelInfo, ModelView, ModelVisibility, ModelsResponse,
    PresetView, ReasoningEffort, ReasoningEffortPreset, ReasoningSummary, TruncationMode,
    TruncationPolicyConfig, WebSearchToolType,
};
use crate::protocol;
use crate::protocol::{ApiError, ErrorView};
use crate::request::{Request, RequestView};
use crate::text;

verus! {

/// The models of a provider that only names them.
#[derive(Debug, Clone, PartialEq, Eq)]
pub struct OpenAiCompatibleModelsResponse {
    pub data: Vec<OpenAiCompatibleModelInfo>,
}

/// A model of which only the name is known.
#[derive(Debug, Clone, PartialEq, Eq)]
pub struct OpenAiCompatibleModelInfo {
    pub id: String,
}

/// Where under the provider's base URL its models are asked for.
pub fn path() -> (r: &'static str)
    ensures
        r@ == "models"@,
{
    "models"
}

/// A URL with the client's version as the last part of its query.
pub open spec fn with_client_version(url: Seq<char>, client_version: Seq<char>) -> Seq<char> {
    url + seq![
        if url.contains('?') {
            '&'
        } else {
            '?'
        },
    ] + "client_version="@ + client_version
}

/// Adds the client's version to the query of a request.
pub fn append_client_version_query(req: &mut Request, client_version: &str)
    ensures
        final(req)@ == (RequestView {
            url: with_client_version(old(req)@.url, client_version@),
            ..old(req)@
        }),
{
    let separator: &str = if text::contains_char(req.url.as_str(), '?') {
        "&"
    } else {
        "?"
    };
    let mut url: String = req.url.clone();
    url.append(separator);
    url.append("client_version=");
    url.append(client_version);
    proof {
        reveal_strlit("&");
        reveal_strlit("?");
        assert(separator@ == seq![
            if req.url@.contains('?') {
                '&'
            } else {
                '?'
            },
        ]);
    }
    req.url = url;
}

/// The `i32` that an index wraps around to.
pub open spec fn wrapped(index: int) -> int {
    let low = index % 0x1_0000_0000;
    if low < 0x8000_0000 {
        low
    } else {
        low - 0x1_0000_0000
    }
}

/// The `i32` that an index wraps around to.
fn wrapped_index(index: usize) -> (r: i32)
    ensures
        r == wrapped(index as int),
{
    let low: u64 = (index as u64) % 0x1_0000_0000;
    if low < 0x8000_0000 {
        low as i32
    } else {
        (low as i64 - 0x1_0000_0000) as i32
    }
}

/// What is taken to be so of a model of which only the name is known.
pub open spec fn compatible_model(slug: Seq<char>, priority: int) -> ModelView {
    ModelView {
        slug,
        display_name: slug,
        description: None,
        default_reasoning_level: Some(ReasoningEffort::Medium),
        supported_reasoning_levels: seq![
            PresetView { effort: ReasoningEffort::Low, description: "Low reasoning effort"@ },
            PresetView { effort: ReasoningEffort::Medium, description: "Medium reasoning effort"@ },
            PresetView { effort: ReasoningEffort::High, description: "High reasoning effort"@ },
        ],
        shell_type: ConfigShellToolType::ShellCommand,
        visibility: ModelVisibility::List,
        supported_in_api: true,
        priority,
        availability_nux: None,
        upgrade: None,
        base_instructions: Seq::empty(),
        model_messages: None,
        supports_reasoning_summaries: false,
        default_reasoning_summary: ReasoningSummary::Auto,
        support_verbosity: false,
        default_verbosity: None,
        apply_patch_tool_type: None,
        web_search_tool_type: WebSearchToolType::Text,
        truncation_policy: TruncationPolicyConfig { mode: TruncationMode::Tokens, limit: 256_000 },
        supports_parallel_tool_calls: false,
        supports_image_detail_original: false,
        context_window: None,
        auto_compact_token_limit: None,
        effective_context_window_percent: 95,
        experimental_supported_tools: Seq::empty(),
        input_modalities: seq![InputModality::Text, InputModality::Image],
        prefer_websockets: false,
        used_fallback_model_metadata: false,
    }
}

/// A reasoning effort with the text that explains it.
fn preset(effort: ReasoningEffort, description: &str) -> (r: ReasoningEffortPreset)
    ensures
        r@ == (PresetView { effort, description: description@ }),
{
    ReasoningEffortPreset { effort, description: description.to_owned() }
}

/// What is taken to be so of a model of which only the name is known.
pub fn openai_compatible_model_info(slug: String, priority: i32) -> (r: ModelInfo)
    ensures
        r@ == compatible_model(slug@, priority as int),
{
    let mut levels: Vec<ReasoningEffortPreset> = Vec::new();
    levels.push(preset(ReasoningEffort::Low, "Low reasoning effort"));
    levels.push(preset(ReasoningEffort::Medium, "Medium reasoning effort"));
    levels.push(preset(ReasoningEffort::High, "High reasoning effort"));
    let info = ModelInfo {
        display_name: slug.clone(),
        slug,
        description: None,
        default_reasoning_level: Some(ReasoningEffort::Medium),
        supported_reasoning_levels: levels,
        shell_type: ConfigShellToolType::ShellCommand,
        visibility: ModelVisibility::List,
        supported_in_api: true,
        priority,
        availability_nux: None,
        upgrade: None,
        base_instructions: String::new(),
        model_messages: None,
        supports_reasoning_summaries: false,
        default_reasoning_summary: ReasoningSummary::Auto,
        support_verbosity: false,
        default_verbosity: None,
        apply_patch_tool_type: None,
        web_search_tool_type: WebSearchToolType::Text,
        truncation_policy: TruncationPolicyConfig::tokens(256_000),
        supports_parallel_tool_calls: false,
        supports_image_detail_original: false,
        context_window: None,
        auto_compact_token_limit: None,
        effective_context_window_percent: 95,
        experimental_supported_tools: Vec::new(),
        input_modalities: openai_models::default_input_modalities(),
        prefer_websockets: false,
        used_fallback_model_metadata: false,
    };
    proof {
        let expected = compatible_model(slug@, priority as int);
        assert(info@.supported_reasoning_levels == expected.supported_reasoning_levels);
        assert(info@.experimental_supported_tools == expected.experimental_supported_tools);
        assert(info@.base_instructions == expected.base_instructions);
    }
    info
}

/// The names in an answer that only names the models.
pub open spec fn ids_view(data: Seq<OpenAiCompatibleModelInfo>) -> Seq<Seq<char>> {
    data.map_values(|m: OpenAiCompatibleModelInfo| m.id@)
}

/// The models that names stand for: those whose name is not blank, in order, each with its trimmed
/// name for a slug and its place in the list for a priority.
pub open spec fn compatible_models(ids: Seq<Seq<char>>) -> Seq<ModelView>
    decreases ids.len(),
{
    if ids.len() == 0 {
        Seq::empty()
    } else {
        let models = compatible_models(ids.drop_last());
        let slug = text::trimmed(ids.last());
        if slug.len() == 0 {
            models
        } else {
            models.push(compatible_model(slug, wrapped(ids.len() - 1)))
        }
    }
}

/// The models that names stand for.
pub fn compatible_model_infos(data: &Vec<OpenAiCompatibleModelInfo>) -> (r: Vec<ModelInfo>)
    ensures
        openai_models::models_view(r@) == compatible_models(ids_view(data@)),
{
    let ghost ids = ids_view(data@);
    let mut models: Vec<ModelInfo> = Vec::new();
    let mut i: usize = 0;
    while i < data.len()
        invariant
            i <= data.len(),
            ids == ids_view(data@),
            openai_models::models_view(models@) == compatible_models(ids.take(i as int)),
        decreases data.len() - i,
    {
        proof {
            assert(ids.take(i + 1).drop_last() == ids.take(i as int));
            assert(ids.take(i + 1).last() == data@[i as int].id@);
        }
        let slug: String = text::trim(data[i].id.as_str());
        if !slug.as_str().is_empty() {
            let ghost before = models@;
            let info: ModelInfo = openai_compatible_model_info(slug, wrapped_index(i));
            models.push(info);
            assert(openai_models::models_view(models@) == openai_models::models_view(before).push(
                info@,
            ));
        }
        i = i + 1;
    }
    proof {
        assert(ids.take(i as int) == ids);
    }
    models
}

/// What `String::from_utf8_lossy` makes of some bytes.
pub uninterp spec fn utf8_lossy(bytes: Seq<u8>) -> Seq<char>;

/// `String::from_utf8_lossy`: the text that UTF-8 bytes stand for. What is no UTF-8 gives way to
/// replacement characters; how many there are is not stated.
#[verifier::external_body]
fn lossy_text(bytes: &[u8]) -> (r: String)
    ensures
        r@ == utf8_lossy(bytes@),
        vstd::utf8::valid_utf8(bytes@) ==> r@ == vstd::utf8::decode_utf8(bytes@),
{
    String::from_utf8_lossy(bytes).into_owned()
}

/// The models that an answer tells of. `native` is its body read as full descriptions of models and
/// `compatible` its body read as mere names, each `None` where the body cannot be read so. Full
/// descriptions are kept as they are and come before mere names; a body that is neither is an error,
/// which quotes it.
pub fn decode_models_response(
    body: &[u8],
    native: Option<ModelsResponse>,
    compatible: Option<OpenAiCompatibleModelsResponse>,
) -> (r: Result<Vec<ModelInfo>, ApiError>)
    ensures
        match (native, compatible) {
            (Some(response), _) => r == Ok::<Vec<ModelInfo>, ApiError>(response.models),
            (None, Some(response)) => r matches Ok(models) && openai_models::models_view(models@)
                == compatible_models(ids_view(response.data@)),
            (None, None) => r matches Err(e) && e@ == ErrorView::Stream(
                "failed to decode models response; body: "@ + utf8_lossy(body@),
            ) && (vstd::utf8::valid_utf8(body@) ==> utf8_lossy(body@) == vstd::utf8::decode_utf8(
                body@,
            )),
        },
{
    if let Some(response) = native {
        return Ok(response.models);
    }
    if let Some(response) = compatible {
        return Ok(compatible_model_infos(&response.data));
    }
    let mut message: String = "failed to decode models response; body: ".to_owned();
    let quoted: String = lossy_text(body);
    message.append(quoted.as_str());
    Err(ApiError::Stream(message))
}

/// What asking for a provider's models comes to, from the header fields and the body of its answer:
/// the models, and the answer's entity tag.
pub fn read_models_response(
    headers: &HeaderMap,
    body: &[u8],
    native: Option<ModelsResponse>,
    compatible: Option<OpenAiCompatibleModelsResponse>,
) -> (r: Result<(Vec<ModelInfo>, Option<String>), ApiError>)
    ensures
        match (native, compatible) {
            (Some(response), _) => r matches Ok((models, etag)) && models == response.models
                && protocol::optional_text(etag) == headers::field_text(
                headers::header_fields(*headers),
                "etag"@,
            ),
            (None, Some(response)) => r matches Ok((models, etag)) && openai_models::models_view(
                models@,
            ) == compatible_models(ids_view(response.data@)) && protocol::optional_text(etag)
                == headers::field_text(headers::header_fields(*headers), "etag"@),
            (None, None) => r matches Err(e) && e@ == ErrorView::Stream(
                "failed to decode models response; body: "@ + utf8_lossy(body@),
            ) && (vstd::utf8::valid_utf8(body@) ==> utf8_lossy(body@) == vstd::utf8::decode_utf8(
                body@,
            )),
        },
{
    let etag: Option<String> = headers::etag(headers);
    match decode_models_response(body, native, compatible) {
        Ok(models) => Ok((models, etag)),
        Err(e) => Err(e),
    }
}

} // verus!
