use codex_api::endpoint::models::{
    append_client_version_query, compatible_model_infos, decode_models_response,
    openai_compatible_model_info, path, read_models_response, OpenAiCompatibleModelInfo,
    OpenAiCompatibleModelsResponse,
};
use codex_api::openai_models::{
    ConfigShellToolType, InputModality, ModelInfo, ModelVisibility, ModelsResponse,
    ReasoningEffort, ReasoningEffortPreset, ReasoningSummary, TruncationMode,
    TruncationPolicyConfig, WebSearchToolType,
};
use codex_api::protocol::ApiError;
use codex_api::request::{Request, RequestCompression};
use http::{HeaderMap, HeaderValue};
use serde_json::Value;

fn request(url: &str) -> Request {
    Request {
        url: url.to_string(),
        headers: HeaderMap::new(),
        compression: RequestCompression::Plain,
    }
}

fn text(value: &Value, key: &str) -> String {
    value[key].as_str().unwrap().to_string()
}

fn flag(value: &Value, key: &str) -> bool {
    value[key].as_bool().unwrap()
}

fn effort(name: &str) -> ReasoningEffort {
    match name {
        "low" => ReasoningEffort::Low,
        "medium" => ReasoningEffort::Medium,
        "high" => ReasoningEffort::High,
        other => panic!("unexpected effort {other}"),
    }
}

fn model(value: &Value) -> ModelInfo {
    let levels = value["supported_reasoning_levels"].as_array().unwrap();
    assert_eq!(value["shell_type"], "shell_command");
    assert_eq!(value["visibility"], "list");
    assert_eq!(value["truncation_policy"]["mode"], "bytes");
    ModelInfo {
        slug: text(value, "slug"),
        display_name: text(value, "display_name"),
        description: value["description"].as_str().map(str::to_string),
        default_reasoning_level: value["default_reasoning_level"].as_str().map(effort),
        supported_reasoning_levels: levels
            .iter()
            .map(|level| ReasoningEffortPreset {
                effort: effort(level["effort"].as_str().unwrap()),
                description: text(level, "description"),
            })
            .collect(),
        shell_type: ConfigShellToolType::ShellCommand,
        visibility: ModelVisibility::List,
        supported_in_api: flag(value, "supported_in_api"),
        priority: value["priority"].as_i64().unwrap() as i32,
        availability_nux: None,
        upgrade: None,
        base_instructions: text(value, "base_instructions"),
        model_messages: None,
        supports_reasoning_summaries: flag(value, "supports_reasoning_summaries"),
        default_reasoning_summary: ReasoningSummary::Auto,
        support_verbosity: flag(value, "support_verbosity"),
        default_verbosity: None,
        apply_patch_tool_type: None,
        web_search_tool_type: WebSearchToolType::Text,
        truncation_policy: TruncationPolicyConfig {
            mode: TruncationMode::Bytes,
            limit: value["truncation_policy"]["limit"].as_i64().unwrap(),
        },
        supports_parallel_tool_calls: flag(value, "supports_parallel_tool_calls"),
        supports_image_detail_original: flag(value, "supports_image_detail_original"),
        context_window: value["context_window"].as_i64(),
        auto_compact_token_limit: None,
        effective_context_window_percent: 95,
        experimental_supported_tools: Vec::new(),
        input_modalities: vec![InputModality::Text, InputModality::Image],
        prefer_websockets: false,
        used_fallback_model_metadata: false,
    }
}

fn native(body: &[u8]) -> Option<ModelsResponse> {
    let value: Value = serde_json::from_slice(body).ok()?;
    let models = value.get("models")?.as_array()?;
    Some(ModelsResponse {
        models: models.iter().map(model).collect(),
    })
}

fn compatible(body: &[u8]) -> Option<OpenAiCompatibleModelsResponse> {
    let value: Value = serde_json::from_slice(body).ok()?;
    let data = value.get("data")?.as_array()?;
    let ids: Option<Vec<&str>> = data.iter().map(|m| m.get("id")?.as_str()).collect();
    Some(OpenAiCompatibleModelsResponse {
        data: named(&ids?),
    })
}

fn named(ids: &[&str]) -> Vec<OpenAiCompatibleModelInfo> {
    ids.iter()
        .map(|id| OpenAiCompatibleModelInfo { id: id.to_string() })
        .collect()
}

fn list(headers: &HeaderMap, body: &str) -> Result<(Vec<ModelInfo>, Option<String>), ApiError> {
    let body = body.as_bytes();
    read_models_response(headers, body, native(body), compatible(body))
}

const NO_MODELS: &str = "{\"models\":[]}";

#[test]
fn appends_client_version_query() {
    let (models, _) = list(&HeaderMap::new(), NO_MODELS).expect("request should succeed");
    assert_eq!(models.len(), 0);

    let mut req = request(&format!("https://example.com/api/codex/{}", path()));
    append_client_version_query(&mut req, "0.99.0");
    assert_eq!(
        req.url,
        "https://example.com/api/codex/models?client_version=0.99.0"
    );
}

#[test]
fn parses_models_response() {
    let body = r#"{"models": [{
        "slug": "gpt-test",
        "display_name": "gpt-test",
        "description": "desc",
        "default_reasoning_level": "medium",
        "supported_reasoning_levels": [{"effort": "low", "description": "low"}, {"effort": "medium", "description": "medium"}, {"effort": "high", "description": "high"}],
        "shell_type": "shell_command",
        "visibility": "list",
        "minimal_client_version": [0, 99, 0],
        "supported_in_api": true,
        "priority": 1,
        "upgrade": null,
        "base_instructions": "base instructions",
        "supports_reasoning_summaries": false,
        "support_verbosity": false,
        "default_verbosity": null,
        "apply_patch_tool_type": null,
        "truncation_policy": {"mode": "bytes", "limit": 10000},
        "supports_parallel_tool_calls": false,
        "supports_image_detail_original": false,
        "context_window": 272000,
        "experimental_supported_tools": []
    }]}"#;

    let (models, _) = list(&HeaderMap::new(), body).expect("request should succeed");

    assert_eq!(models.len(), 1);
    assert_eq!(models[0].slug, "gpt-test");
    assert_eq!(models[0].supported_in_api, true);
    assert_eq!(models[0].priority, 1);
    assert_eq!(models, native(body.as_bytes()).unwrap().models);
}

#[test]
fn list_models_includes_etag() {
    let mut headers = HeaderMap::new();
    headers.insert("etag", HeaderValue::from_str("\"abc\"").unwrap());

    let (models, etag) = list(&headers, NO_MODELS).expect("request should succeed");

    assert_eq!(models.len(), 0);
    assert_eq!(etag, Some("\"abc\"".to_string()));
}

#[test]
fn parses_openai_compatible_models_response() {
    let body = r#"{"object": "list", "data": [
        {"id": "openai/gpt-4o-mini"},
        {"id": "openai/gpt-4o"}
    ]}"#;

    let (models, _) = list(&HeaderMap::new(), body).expect("request should succeed");

    assert_eq!(models.len(), 2);
    assert_eq!(models[0].slug, "openai/gpt-4o-mini");
    assert_eq!(models[1].slug, "openai/gpt-4o");
    assert_eq!(
        models[0].default_reasoning_level,
        Some(ReasoningEffort::Medium)
    );
}

#[test]
fn an_answer_without_entity_tag_has_none() {
    let (_, etag) = list(&HeaderMap::new(), NO_MODELS).unwrap();
    assert_eq!(etag, None);
}

#[test]
fn an_entity_tag_of_other_bytes_is_none() {
    let mut headers = HeaderMap::new();
    headers.insert("etag", HeaderValue::from_bytes(b"\"\xe9\"").unwrap());
    let (_, etag) = list(&headers, NO_MODELS).unwrap();
    assert_eq!(etag, None);
}

#[test]
fn the_version_joins_a_query_that_is_there() {
    let mut req = request("https://example.com/models?a=b");
    append_client_version_query(&mut req, "1.2");
    assert_eq!(req.url, "https://example.com/models?a=b&client_version=1.2");
    append_client_version_query(&mut req, "3");
    assert_eq!(
        req.url,
        "https://example.com/models?a=b&client_version=1.2&client_version=3"
    );
}

#[test]
fn the_version_leaves_the_rest_of_a_request_alone() {
    let mut req = request("u");
    req.headers.insert("x-one", HeaderValue::from_static("1"));
    req.compression = RequestCompression::Zstd;
    append_client_version_query(&mut req, "");
    assert_eq!(req.url, "u?client_version=");
    assert_eq!(req.headers.len(), 1);
    assert_eq!(req.headers["x-one"], "1");
    assert_eq!(req.compression, RequestCompression::Zstd);
}

#[test]
fn full_descriptions_come_before_names() {
    let models = decode_models_response(
        b"",
        Some(ModelsResponse { models: Vec::new() }),
        Some(OpenAiCompatibleModelsResponse { data: named(&["a"]) }),
    )
    .unwrap();
    assert!(models.is_empty());
}

#[test]
fn blank_names_are_left_out_and_others_trimmed() {
    let models = compatible_model_infos(&named(&["  a\t", " \n ", "", "b c", "\u{3000}d\u{a0}"]));
    let listed: Vec<(&str, &str, i32)> = models
        .iter()
        .map(|m| (m.slug.as_str(), m.display_name.as_str(), m.priority))
        .collect();
    assert_eq!(listed, vec![("a", "a", 0), ("b c", "b c", 3), ("d", "d", 4)]);
}

#[test]
fn longer_lists_begin_with_the_same_models() {
    let short = compatible_model_infos(&named(&["a", " ", "b"]));
    let long = compatible_model_infos(&named(&["a", " ", "b", "", "c"]));
    assert_eq!(long[..short.len()], short[..]);
    assert_eq!(long.len(), 3);
    assert_eq!(long[2], openai_compatible_model_info("c".to_string(), 4));
}

#[test]
fn a_body_that_is_neither_is_quoted() {
    match list(&HeaderMap::new(), "<html>no</html>") {
        Err(ApiError::Stream(message)) => assert_eq!(
            message,
            "failed to decode models response; body: <html>no</html>"
        ),
        other => panic!("unexpected {other:?}"),
    }
}

#[test]
fn a_body_that_is_no_text_is_quoted_with_replacements() {
    match decode_models_response(b"a\xffb", None, None) {
        Err(ApiError::Stream(message)) => assert_eq!(
            message,
            "failed to decode models response; body: a\u{fffd}b"
        ),
        other => panic!("unexpected {other:?}"),
    }
}

#[test]
fn a_model_known_by_name_has_the_usual_settings() {
    let info = openai_compatible_model_info("m".to_string(), -7);
    assert_eq!(
        info,
        ModelInfo {
            slug: "m".to_string(),
            display_name: "m".to_string(),
            description: None,
            default_reasoning_level: Some(ReasoningEffort::Medium),
            supported_reasoning_levels: vec![
                ReasoningEffortPreset {
                    effort: ReasoningEffort::Low,
                    description: "Low reasoning effort".to_string(),
                },
                ReasoningEffortPreset {
                    effort: ReasoningEffort::Medium,
                    description: "Medium reasoning effort".to_string(),
                },
                ReasoningEffortPreset {
                    effort: ReasoningEffort::High,
                    description: "High reasoning effort".to_string(),
                },
            ],
            shell_type: ConfigShellToolType::ShellCommand,
            visibility: ModelVisibility::List,
            supported_in_api: true,
            priority: -7,
            availability_nux: None,
            upgrade: None,
            base_instructions: String::new(),
            model_messages: None,
            supports_reasoning_summaries: false,
            default_reasoning_summary: ReasoningSummary::Auto,
            support_verbosity: false,
            default_verbosity: None,
            apply_patch_tool_type: None,
            web_search_tool_type: WebSearchToolType::Text,
            truncation_policy: TruncationPolicyConfig {
                mode: TruncationMode::Tokens,
                limit: 256_000,
            },
            supports_parallel_tool_calls: false,
            supports_image_detail_original: false,
            context_window: None,
            auto_compact_token_limit: None,
            effective_context_window_percent: 95,
            experimental_supported_tools: Vec::new(),
            input_modalities: vec![InputModality::Text, InputModality::Image],
            prefer_websockets: false,
            used_fallback_model_metadata: false,
        }
    );
}
