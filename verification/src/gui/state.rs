//! What the window knows of its model and of the last run.
use vstd::prelude::*;
use crate::text::owned;

verus! {

/// What the window is doing.
#[derive(Clone, Copy, Debug, PartialEq, Eq, Structural)]
pub enum AppState {
    /// No model is loaded.
    Idle,
    /// A model is being loaded.
    Loading,
    /// A model is loaded.
    Ready,
    /// The model is running.
    Generating,
    /// Something went wrong.
    Error,
}

/// How the window names its state.
pub open spec fn state_name(s: AppState) -> Seq<char> {
    match s {
        AppState::Idle => "⚪ 未加载模型"@,
        AppState::Loading => "加载中..."@,
        AppState::Ready => "🟢 就绪"@,
        AppState::Generating => "🟡 生成中"@,
        AppState::Error => "🔴 错误"@,
    }
}

impl AppState {
    /// How the window names this state.
    pub fn label(&self) -> (r: &'static str)
        ensures
            r@ == state_name(*self),
    {
        match self {
            AppState::Idle => "⚪ 未加载模型",
            AppState::Loading => "加载中...",
            AppState::Ready => "🟢 就绪",
            AppState::Generating => "🟡 生成中",
            AppState::Error => "🔴 错误",
        }
    }
}

/// Who says something.
#[derive(Clone, Copy, Debug, PartialEq, Eq, Structural)]
pub enum Role {
    User,
    Assistant,
}

/// How the window names who says something.
pub open spec fn role_name(r: Role) -> Seq<char> {
    match r {
        Role::User => "用户"@,
        Role::Assistant => "助手"@,
    }
}

impl Role {
    /// How the window names this role.
    pub fn label(&self) -> (r: &'static str)
        ensures
            r@ == role_name(*self),
    {
        match self {
            Role::User => "用户",
            Role::Assistant => "助手",
        }
    }
}

/// One message of the dialogue.
#[derive(Clone, Debug)]
pub struct ChatMessage {
    pub role: Role,
    pub content: String,
}

impl View for ChatMessage {
    type V = (Role, Seq<char>);

    open spec fn view(&self) -> (Role, Seq<char>) {
        (self.role, self.content@)
    }
}

/// The views of messages in a row.
pub open spec fn messages_view(s: Seq<ChatMessage>) -> Seq<(Role, Seq<char>)> {
    Seq::new(s.len(), |i: int| s[i]@)
}

/// What the window shows of a model's file.
#[derive(Debug)]
pub struct ModelSummary {
    pub name: String,
    pub arch: String,
    pub model_name: String,
    pub gguf_version: u32,
    pub alignment: u32,
    pub data_offset: u64,
    pub file_size: u64,
    pub tensor_count: usize,
    pub kv_count: usize,
    pub load_ms: u128,
}

/// A [`ModelSummary`] with its strings as sequences of characters.
pub struct SummaryView {
    pub name: Seq<char>,
    pub arch: Seq<char>,
    pub model_name: Seq<char>,
    pub gguf_version: u32,
    pub alignment: u32,
    pub data_offset: u64,
    pub file_size: u64,
    pub tensor_count: usize,
    pub kv_count: usize,
    pub load_ms: u128,
}

impl View for ModelSummary {
    type V = SummaryView;

    open spec fn view(&self) -> SummaryView {
        SummaryView {
            name: self.name@,
            arch: self.arch@,
            model_name: self.model_name@,
            gguf_version: self.gguf_version,
            alignment: self.alignment,
            data_offset: self.data_offset,
            file_size: self.file_size,
            tensor_count: self.tensor_count,
            kv_count: self.kv_count,
            load_ms: self.load_ms,
        }
    }
}

/// A summary that may not be there.
pub open spec fn summary_view(s: Option<ModelSummary>) -> Option<SummaryView> {
    match s {
        Some(x) => Some(x@),
        None => None,
    }
}

/// The summary of no file.
pub open spec fn empty_summary() -> SummaryView {
    SummaryView {
        name: Seq::empty(),
        arch: Seq::empty(),
        model_name: Seq::empty(),
        gguf_version: 0,
        alignment: 0,
        data_offset: 0,
        file_size: 0,
        tensor_count: 0,
        kv_count: 0,
        load_ms: 0,
    }
}

impl Default for ModelSummary {
    fn default() -> (r: Self)
        ensures
            r@ == empty_summary(),
    {
        ModelSummary {
            name: String::new(),
            arch: String::new(),
            model_name: String::new(),
            gguf_version: 0,
            alignment: 0,
            data_offset: 0,
            file_size: 0,
            tensor_count: 0,
            kv_count: 0,
            load_ms: 0,
        }
    }
}

impl Clone for ModelSummary {
    fn clone(&self) -> (r: Self)
        ensures
            r@ == self@,
    {
        ModelSummary {
            name: owned(self.name.as_str()),
            arch: owned(self.arch.as_str()),
            model_name: owned(self.model_name.as_str()),
            gguf_version: self.gguf_version,
            alignment: self.alignment,
            data_offset: self.data_offset,
            file_size: self.file_size,
            tensor_count: self.tensor_count,
            kv_count: self.kv_count,
            load_ms: self.load_ms,
        }
    }
}

/// How the last run went.
#[derive(Clone, Copy, Debug, PartialEq, Eq, Structural)]
pub struct GenStats {
    pub elapsed_ms: u128,
    pub tokens: usize,
    pub ctx_len: usize,
    pub ctx_limit: usize,
}

/// Before any run.
pub open spec fn no_stats() -> GenStats {
    GenStats { elapsed_ms: 0, tokens: 0, ctx_len: 0, ctx_limit: 0 }
}

impl Default for GenStats {
    fn default() -> (r: Self)
        ensures
            r == no_stats(),
    {
        GenStats { elapsed_ms: 0, tokens: 0, ctx_len: 0, ctx_limit: 0 }
    }
}

} // verus!
