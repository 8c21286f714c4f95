//! What is known of the models that a provider offers.
use vstd::prelude::*;

verus! {

/// How much a model is to reason before it answers.
#[derive(Debug, Clone, Copy, PartialEq, Eq, Structural)]
pub enum ReasoningEffort {
    NoEffort,
    Minimal,
    Low,
    Medium,
    High,
    XHigh,
}

/// A reasoning effort that a model can be set to, with a text that explains it.
#[derive(Debug, Clone, PartialEq, Eq)]
pub struct ReasoningEffortPreset {
    pub effort: ReasoningEffort,
    pub description: String,
}

/// The shell tool that a model is given.
#[derive(Debug, Clone, Copy, PartialEq, Eq, Structural)]
pub enum ConfigShellToolType {
    Default,
    Local,
    UnifiedExec,
    Disabled,
    ShellCommand,
}

/// Whether a model is offered for choice.
#[derive(Debug, Clone, Copy, PartialEq, Eq, Structural)]
pub enum ModelVisibility {
    List,
    Hide,
    Nowhere,
}

/// How a model is to sum up its reasoning.
#[derive(Debug, Clone, Copy, PartialEq, Eq, Structural)]
pub enum ReasoningSummary {
    Auto,
    Concise,
    Detailed,
    NoSummary,
}

/// How much a model is to say.
#[derive(Debug, Clone, Copy, PartialEq, Eq, Structural)]
pub enum Verbosity {
    Low,
    Medium,
    High,
}

/// The form that a model's tool for patches has.
#[derive(Debug, Clone, Copy, PartialEq, Eq, Structural)]
pub enum ApplyPatchToolType {
    Freeform,
    Function,
}

/// What a model's web search gives back.
#[derive(Debug, Clone, Copy, PartialEq, Eq, Structural)]
pub enum WebSearchToolType {
    Text,
    TextAndImage,
}

/// What the length of a tool's output is measured in.
#[derive(Debug, Clone, Copy, PartialEq, Eq, Structural)]
pub enum TruncationMode {
    Bytes,
    Tokens,
}

/// Where a tool's output is cut off.
#[derive(Debug, Clone, Copy, PartialEq, Eq, Structural)]
pub struct TruncationPolicyConfig {
    pub mode: TruncationMode,
    pub limit: i64,
}

impl TruncationPolicyConfig {
    /// Cuts off after so many tokens.
    pub fn tokens(limit: i64) -> (r: TruncationPolicyConfig)
        ensures
            r == (TruncationPolicyConfig { mode: TruncationMode::Tokens, limit }),
    {
        TruncationPolicyConfig { mode: TruncationMode::Tokens, limit }
    }
}

/// A kind of input that a model takes.
#[derive(Debug, Clone, Copy, PartialEq, Eq, Structural)]
pub enum InputModality {
    Text,
    Image,
}

/// What a model takes unless more is known of it: text and images.
pub fn default_input_modalities() -> (r: Vec<InputModality>)
    ensures
        r@ == seq![InputModality::Text, InputModality::Image],
{
    let mut modalities: Vec<InputModality> = Vec::new();
    modalities.push(InputModality::Text);
    modalities.push(InputModality::Image);
    assert(modalities@ == seq![InputModality::Text, InputModality::Image]);
    modalities
}

/// A note to show when a model becomes available.
#[derive(Debug, Clone, PartialEq, Eq)]
pub struct ModelAvailabilityNux {
    pub message: String,
}

/// The model that takes another's place.
#[derive(Debug, Clone, PartialEq, Eq)]
pub struct ModelInfoUpgrade {
    pub model: String,
    pub migration_markdown: String,
}

/// The texts that stand for a personality in a model's instructions.
#[derive(Debug, Clone, PartialEq, Eq)]
pub struct ModelInstructionsVariables {
    pub personality_default: Option<String>,
    pub personality_friendly: Option<String>,
    pub personality_pragmatic: Option<String>,
}

/// A model's instructions, with places for a personality.
#[derive(Debug, Clone, PartialEq, Eq)]
pub struct ModelMessages {
    pub instructions_template: Option<String>,
    pub instructions_variables: Option<ModelInstructionsVariables>,
}

/// All that is known of a model.
#[derive(Debug, Clone, PartialEq, Eq)]
pub struct ModelInfo {
    pub slug: String,
    pub display_name: String,
    pub description: Option<String>,
    pub default_reasoning_level: Option<ReasoningEffort>,
    pub supported_reasoning_levels: Vec<ReasoningEffortPreset>,
    pub shell_type: ConfigShellToolType,
    pub visibility: ModelVisibility,
    pub supported_in_api: bool,
    pub priority: i32,
    pub availability_nux: Option<ModelAvailabilityNux>,
    pub upgrade: Option<ModelInfoUpgrade>,
    pub base_instructions: String,
    pub model_messages: Option<ModelMessages>,
    pub supports_reasoning_summaries: bool,
    pub default_reasoning_summary: ReasoningSummary,
    pub support_verbosity: bool,
    pub default_verbosity: Option<Verbosity>,
    pub apply_patch_tool_type: Option<ApplyPatchToolType>,
    pub web_search_tool_type: WebSearchToolType,
    pub truncation_policy: TruncationPolicyConfig,
    pub supports_parallel_tool_calls: bool,
    pub supports_image_detail_original: bool,
    pub context_window: Option<i64>,
    pub auto_compact_token_limit: Option<i64>,
    pub effective_context_window_percent: i64,
    pub experimental_supported_tools: Vec<String>,
    pub input_modalities: Vec<InputModality>,
    pub prefer_websockets: bool,
    pub used_fallback_model_metadata: bool,
}

/// The models of a provider that tells all that is to be known of them.
#[derive(Debug, Clone, PartialEq, Eq)]
pub struct ModelsResponse {
    pub models: Vec<ModelInfo>,
}

/// What a [`ReasoningEffortPreset`] says.
pub struct PresetView {
    pub effort: ReasoningEffort,
    pub description: Seq<char>,
}

impl View for ReasoningEffortPreset {
    type V = PresetView;

    open spec fn view(&self) -> PresetView {
        PresetView { effort: self.effort, description: self.description@ }
    }
}

/// What a [`ModelInfo`] says.
pub struct ModelView {
    pub slug: Seq<char>,
    pub display_name: Seq<char>,
    pub description: Option<Seq<char>>,
    pub default_reasoning_level: Option<ReasoningEffort>,
    pub supported_reasoning_levels: Seq<PresetView>,
    pub shell_type: ConfigShellToolType,
    pub visibility: ModelVisibility,
    pub supported_in_api: bool,
    pub priority: int,
    pub availability_nux: Option<ModelAvailabilityNux>,
    pub upgrade: Option<ModelInfoUpgrade>,
    pub base_instructions: Seq<char>,
    pub model_messages: Option<ModelMessages>,
    pub supports_reasoning_summaries: bool,
    pub default_reasoning_summary: ReasoningSummary,
    pub support_verbosity: bool,
    pub default_verbosity: Option<Verbosity>,
    pub apply_patch_tool_type: Option<ApplyPatchToolType>,
    pub web_search_tool_type: WebSearchToolType,
    pub truncation_policy: TruncationPolicyConfig,
    pub supports_parallel_tool_calls: bool,
    pub supports_image_detail_original: bool,
    pub context_window: Option<i64>,
    pub auto_compact_token_limit: Option<i64>,
    pub effective_context_window_percent: int,
    pub experimental_supported_tools: Seq<Seq<char>>,
    pub input_modalities: Seq<InputModality>,
    pub prefer_websockets: bool,
    pub used_fallback_model_metadata: bool,
}

impl View for ModelInfo {
    type V = ModelView;

    open spec fn view(&self) -> ModelView {
        ModelView {
            slug: self.slug@,
            display_name: self.display_name@,
            description: crate::protocol::optional_text(self.description),
            default_reasoning_level: self.default_reasoning_level,
            supported_reasoning_levels: self.supported_reasoning_levels@.map_values(
                |p: ReasoningEffortPreset| p@,
            ),
            shell_type: self.shell_type,
            visibility: self.visibility,
            supported_in_api: self.supported_in_api,
            priority: self.priority as int,
            availability_nux: self.availability_nux,
            upgrade: self.upgrade,
            base_instructions: self.base_instructions@,
            model_messages: self.model_messages,
            supports_reasoning_summaries: self.supports_reasoning_summaries,
            default_reasoning_summary: self.default_reasoning_summary,
            support_verbosity: self.support_verbosity,
            default_verbosity: self.default_verbosity,
            apply_patch_tool_type: self.apply_patch_tool_type,
            web_search_tool_type: self.web_search_tool_type,
            truncation_policy: self.truncation_policy,
            supports_parallel_tool_calls: self.supports_parallel_tool_calls,
            supports_image_detail_original: self.supports_image_detail_original,
            context_window: self.context_window,
            auto_compact_token_limit: self.auto_compact_token_limit,
            effective_context_window_percent: self.effective_context_window_percent as int,
            experimental_supported_tools: self.experimental_supported_tools@.map_values(
                |t: String| t@,
            ),
            input_modalities: self.input_modalities@,
            prefer_websockets: self.prefer_websockets,
            used_fallback_model_metadata: self.used_fallback_model_metadata,
        }
    }
}

/// What a list of models says.
pub open spec fn models_view(models: Seq<ModelInfo>) -> Seq<ModelView> {
    models.map_values(|m: ModelInfo| m@)
}

} // verus!
