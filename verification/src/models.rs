//! Data types of the chat timeline and their mathematical views.
//!
//! Each executable type has a ghost view over `Seq<char>` and `int`, so that
//! contracts can speak about values without reference to allocation.

use vstd::prelude::*;

verus! {

/// Spec-level image of an `Option<String>`.
pub open spec fn opt_view(o: Option<String>) -> Option<Seq<char>> {
    match o {
        Option::Some(s) => Option::Some(s@),
        Option::None => Option::None,
    }
}

/// A top-level conversation container.
#[derive(Clone, Debug)]
pub struct ChatSession {
    pub id: String,
    pub title: String,
    pub created_at: String,
}

#[verifier::ext_equal]
pub ghost struct ChatSessionView {
    pub id: Seq<char>,
    pub title: Seq<char>,
    pub created_at: Seq<char>,
}

impl View for ChatSession {
    type V = ChatSessionView;

    open spec fn view(&self) -> ChatSessionView {
        ChatSessionView { id: self.id@, title: self.title@, created_at: self.created_at@ }
    }
}

/// A named, independently growing sequence of messages within a chat,
/// optionally forked from a message of another branch.
#[derive(Clone, Debug)]
pub struct BranchNode {
    pub id: String,
    pub chat_id: String,
    pub name: String,
    pub parent_message_id: Option<String>,
    pub created_at: String,
}

#[verifier::ext_equal]
pub ghost struct BranchNodeView {
    pub id: Seq<char>,
    pub chat_id: Seq<char>,
    pub name: Seq<char>,
    pub parent_message_id: Option<Seq<char>>,
    pub created_at: Seq<char>,
}

impl View for BranchNode {
    type V = BranchNodeView;

    open spec fn view(&self) -> BranchNodeView {
        BranchNodeView {
            id: self.id@,
            chat_id: self.chat_id@,
            name: self.name@,
            parent_message_id: opt_view(self.parent_message_id),
            created_at: self.created_at@,
        }
    }
}

/// One message of a timeline. An assistant message's parent is the user
/// message it answers.
#[derive(Clone, Debug)]
pub struct ChatMessage {
    pub id: String,
    pub chat_id: String,
    pub branch_id: String,
    pub role: String,
    pub content: String,
    pub token_count: i64,
    pub created_at: String,
    pub parent_id: Option<String>,
}

#[verifier::ext_equal]
pub ghost struct ChatMessageView {
    pub id: Seq<char>,
    pub chat_id: Seq<char>,
    pub branch_id: Seq<char>,
    pub role: Seq<char>,
    pub content: Seq<char>,
    pub token_count: int,
    pub created_at: Seq<char>,
    pub parent_id: Option<Seq<char>>,
}

impl View for ChatMessage {
    type V = ChatMessageView;

    open spec fn view(&self) -> ChatMessageView {
        ChatMessageView {
            id: self.id@,
            chat_id: self.chat_id@,
            branch_id: self.branch_id@,
            role: self.role@,
            content: self.content@,
            token_count: self.token_count as int,
            created_at: self.created_at@,
            parent_id: opt_view(self.parent_id),
        }
    }
}

/// A send request: content addressed to a chat, optionally to one of its
/// branches.
#[derive(Clone, Debug)]
pub struct ChatSendRequest {
    pub chat_id: String,
    pub content: String,
    pub branch_id: Option<String>,
}

/// One labeled content block of a prompt context.
#[derive(Clone, Debug)]
pub struct PromptBlock {
    pub id: String,
    pub kind: String,
    pub enabled: bool,
    pub order: i32,
    pub content: String,
}

#[verifier::ext_equal]
pub ghost struct PromptBlockView {
    pub id: Seq<char>,
    pub kind: Seq<char>,
    pub enabled: bool,
    pub order: int,
    pub content: Seq<char>,
}

impl View for PromptBlock {
    type V = PromptBlockView;

    open spec fn view(&self) -> PromptBlockView {
        PromptBlockView {
            id: self.id@,
            kind: self.kind@,
            enabled: self.enabled,
            order: self.order as int,
            content: self.content@,
        }
    }
}

/// A provider profile as entered by the caller, carrying the clear API key.
#[derive(Clone, Debug)]
pub struct ProviderProfileInput {
    pub id: String,
    pub name: String,
    pub base_url: String,
    pub api_key: String,
    pub proxy_url: Option<String>,
    pub full_local_only: bool,
}

/// A provider profile as handed back to callers: the API key is masked.
#[derive(Clone, Debug)]
pub struct ProviderProfile {
    pub id: String,
    pub name: String,
    pub base_url: String,
    pub api_key_masked: String,
    pub proxy_url: Option<String>,
    pub full_local_only: bool,
}

/// An entry of a provider's model listing.
#[derive(Clone, Debug)]
pub struct ProviderModel {
    pub id: String,
}

/// Outcome of validating a character card document.
#[derive(Clone, Debug)]
pub struct ValidationResult {
    pub valid: bool,
    pub errors: Vec<String>,
}

/// The configuration snapshot a turn runs under: the active selection and the
/// global egress policy, refreshed by the caller before each turn.
#[derive(Clone, Debug)]
pub struct TurnConfig {
    pub full_local_mode: bool,
    pub active_provider_id: Option<String>,
    pub active_model: Option<String>,
}

/// Why a turn (or a timeline operation) failed.
#[derive(Clone, Copy, Debug, PartialEq, Eq, Structural)]
pub enum EngineError {
    /// No active provider or model is selected.
    Configuration,
    /// Local-only gating refused the provider's base URL.
    PolicyViolation,
    /// The provider answered with a non-success status or a transport
    /// error. The engine never decides this itself: the caller driving the
    /// exchange maps transport failures to it.
    UpstreamError,
    /// The stream produced no usable text.
    EmptyResponse,
    /// A chat, branch or message referenced by id does not exist.
    NotFound,
}

/// A role/content pair of the exact sequence sent to the provider.
#[derive(Clone, Debug)]
pub struct ApiMessage {
    pub role: String,
    pub content: String,
}

/// The completion request a turn issues: the model and the full ordered
/// message list. The transport adds the fixed sampling settings.
#[derive(Clone, Debug)]
pub struct CompletionRequest {
    pub model: String,
    pub messages: Vec<ApiMessage>,
}

/// Copy an optional string.
pub fn clone_opt_string(o: &Option<String>) -> (r: Option<String>)
    ensures
        opt_view(r) == opt_view(*o),
{
    match o {
        Option::Some(s) => Option::Some(s.clone()),
        Option::None => Option::None,
    }
}

/// Spec-level image of a sequence of strings.
pub open spec fn strs_view(s: Seq<String>) -> Seq<Seq<char>> {
    s.map_values(|x: String| x@)
}

/// Spec-level image of a message sequence.
pub open spec fn msgs_view(s: Seq<ChatMessage>) -> Seq<ChatMessageView> {
    s.map_values(|m: ChatMessage| m@)
}

/// Spec-level image of an API message sequence as (role, content) pairs.
pub open spec fn api_msgs_view(s: Seq<ApiMessage>) -> Seq<(Seq<char>, Seq<char>)> {
    s.map_values(|m: ApiMessage| (m.role@, m.content@))
}

} // verus!
