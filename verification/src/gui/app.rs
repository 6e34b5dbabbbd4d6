//! The window as a whole.
use vstd::prelude::*;
use vstd::string::*;
use crate::console::too_long_mark;
use crate::gui::chat_view::{continued, empty_chat, ChatPanel, ChatView};
use crate::gui::inference::{CommandView, InferMsg, LoadedInfo, LoadedView, MsgView, UiCommand};
use crate::gui::model_view::{empty_model, ModelPanel, ModelView};
use crate::gui::prompt_view::{empty_prompt, PromptPanel, PromptView};
use crate::gui::settings::{chosen_config, default_settings, SettingsPanel};
use crate::infer::sampler::SamplerConfig;
use crate::gui::state::{
    no_stats, state_name, summary_view, AppState, GenStats, ModelSummary, Role, SummaryView,
};
use crate::text::{concat, contains, has_part, owned, trim, trimmed, trimmed_is_trimmed};

verus! {

/// The parts of the window.
#[derive(Clone, Copy, Debug, PartialEq, Eq, Structural)]
pub enum Tab {
    Chat,
    Prompt,
    Model,
}

/// How the window names a part.
pub open spec fn tab_name(t: Tab) -> Seq<char> {
    match t {
        Tab::Chat => "对话"@,
        Tab::Prompt => "Prompt 补全"@,
        Tab::Model => "模型信息"@,
    }
}

impl Tab {
    /// How the window names this part.
    pub fn label(&self) -> (r: &'static str)
        ensures
            r@ == tab_name(*self),
    {
        match self {
            Tab::Chat => "对话",
            Tab::Prompt => "Prompt 补全",
            Tab::Model => "模型信息",
        }
    }
}

/// Where the text of a run goes.
#[derive(Clone, Copy, Debug, PartialEq, Eq, Structural)]
pub enum StreamingTarget {
    Nowhere,
    Chat,
    Prompt,
}

impl Default for StreamingTarget {
    fn default() -> (r: Self)
        ensures
            r == StreamingTarget::Nowhere,
    {
        StreamingTarget::Nowhere
    }
}

/// The window's state.
#[derive(Debug)]
pub struct GgufApp {
    pub app_state: AppState,
    pub error_msg: String,
    pub tab: Tab,
    pub settings: SettingsPanel,
    pub chat: ChatView,
    pub prompt: PromptView,
    pub model: ModelView,
    pub model_path: String,
    pub model_name: String,
    pub model_summary: Option<ModelSummary>,
    pub stats: GenStats,
    /// Where the text of the run goes.
    pub streaming_target: StreamingTarget,
    /// How many pieces of text the run has given.
    pub stream_token_count: usize,
    /// Whether the run is being timed.
    pub timed: bool,
    /// Whether the last run was stopped.
    pub stopped: bool,
}

/// A [`GgufApp`] with its strings and lists as sequences.
pub struct AppView {
    pub app_state: AppState,
    pub error_msg: Seq<char>,
    pub tab: Tab,
    pub settings: SettingsPanel,
    pub chat: ChatPanel,
    pub prompt: PromptPanel,
    pub model: ModelPanel,
    pub model_path: Seq<char>,
    pub model_name: Seq<char>,
    pub model_summary: Option<SummaryView>,
    pub stats: GenStats,
    pub streaming_target: StreamingTarget,
    pub stream_token_count: usize,
    pub timed: bool,
    pub stopped: bool,
}

impl View for GgufApp {
    type V = AppView;

    open spec fn view(&self) -> AppView {
        AppView {
            app_state: self.app_state,
            error_msg: self.error_msg@,
            tab: self.tab,
            settings: self.settings,
            chat: self.chat@,
            prompt: self.prompt@,
            model: self.model@,
            model_path: self.model_path@,
            model_name: self.model_name@,
            model_summary: summary_view(self.model_summary),
            stats: self.stats,
            streaming_target: self.streaming_target,
            stream_token_count: self.stream_token_count,
            timed: self.timed,
            stopped: self.stopped,
        }
    }
}

/// A new window.
pub open spec fn new_window() -> AppView {
    AppView {
        app_state: AppState::Idle,
        error_msg: Seq::empty(),
        tab: Tab::Chat,
        settings: default_settings(),
        chat: empty_chat(),
        prompt: empty_prompt(),
        model: empty_model(),
        model_path: Seq::empty(),
        model_name: Seq::empty(),
        model_summary: None,
        stats: no_stats(),
        streaming_target: StreamingTarget::Nowhere,
        stream_token_count: 0,
        timed: false,
        stopped: false,
    }
}

// ---------------------------------------------------------------------------------------------
// What the window is told
// ---------------------------------------------------------------------------------------------

/// The summary of a model that was loaded.
pub open spec fn summary_of(l: LoadedView) -> SummaryView {
    SummaryView {
        name: l.name,
        arch: l.arch,
        model_name: l.model_name,
        gguf_version: l.gguf_version,
        alignment: l.alignment,
        data_offset: l.data_offset,
        file_size: l.file_size,
        tensor_count: l.tensor_count,
        kv_count: l.kv_count,
        load_ms: l.load_ms,
    }
}

/// The window after a model was loaded: it shows the new model, and dialogue and prompt are empty.
pub open spec fn after_load(a: AppView, l: LoadedView) -> AppView {
    AppView {
        app_state: AppState::Ready,
        model_name: l.name,
        model_summary: Some(summary_of(l)),
        model: ModelPanel {
            summary: Some(summary_of(l)),
            kv_data: l.kv_data,
            tensor_data: l.tensor_data,
            ctx_limit: l.ctx_limit,
            embed_dim: l.embed_dim,
            vocab_size: l.vocab_size,
            vocab: l.vocab,
            ..a.model
        },
        stats: GenStats { ctx_limit: l.ctx_limit, ..a.stats },
        settings: SettingsPanel {
            stats: GenStats { ctx_limit: l.ctx_limit, ..a.settings.stats },
            ..a.settings
        },
        chat: empty_chat(),
        prompt: empty_prompt(),
        ..a
    }
}

/// The window after more text of a run.
pub open spec fn after_text(a: AppView, text: Seq<char>) -> AppView {
    let counted = AppView {
        stream_token_count: if a.stream_token_count < usize::MAX {
            (a.stream_token_count + 1) as usize
        } else {
            a.stream_token_count
        },
        ..a
    };
    match a.streaming_target {
        StreamingTarget::Chat => AppView {
            chat: ChatPanel { messages: continued(a.chat.messages, text), ..a.chat },
            ..counted
        },
        StreamingTarget::Prompt => AppView {
            prompt: PromptPanel { output: a.prompt.output + text, ..a.prompt },
            ..counted
        },
        StreamingTarget::Nowhere => counted,
    }
}

/// The window after a run that took `elapsed` milliseconds came to its end. The text of a prompt's
/// run that was not shown while it was written is shown now.
pub open spec fn after_run(
    a: AppView,
    full_text: Seq<char>,
    elapsed: u128,
    ctx_len: usize,
    ctx_limit: usize,
) -> AppView {
    let stats = GenStats {
        elapsed_ms: elapsed,
        tokens: a.stream_token_count,
        ctx_len,
        ctx_limit,
    };
    AppView {
        stats,
        settings: SettingsPanel { stats, ..a.settings },
        prompt: if a.streaming_target == StreamingTarget::Prompt && !a.prompt.stream {
            PromptPanel { output: full_text, ..a.prompt }
        } else {
            a.prompt
        },
        app_state: AppState::Ready,
        streaming_target: StreamingTarget::Nowhere,
        timed: false,
        ..a
    }
}

/// The window after something went wrong. Where a reply was being written, the dialogue says so
/// too, and whether it has become too long.
pub open spec fn after_error(a: AppView, message: Seq<char>) -> AppView {
    AppView {
        app_state: AppState::Error,
        error_msg: message,
        chat: if a.streaming_target == StreamingTarget::Chat {
            ChatPanel {
                messages: continued(a.chat.messages, "\n⚠️ "@ + message),
                ctx_exceeded: a.chat.ctx_exceeded || has_part(message, too_long_mark()),
                ..a.chat
            }
        } else {
            a.chat
        },
        streaming_target: StreamingTarget::Nowhere,
        timed: false,
        ..a
    }
}

/// The window after it was told something; `now` is how long the run that is being timed has taken.
pub open spec fn after_message(a: AppView, msg: MsgView, now: u128) -> AppView {
    match msg {
        MsgView::ModelLoaded(l) => after_load(a, l),
        MsgView::LoadError { message } => AppView {
            app_state: AppState::Error,
            error_msg: message,
            ..a
        },
        MsgView::Token { id: _, text } => after_text(a, text),
        MsgView::Done { full_text, elapsed_ms, ctx_len, ctx_limit, token_count: _ } => after_run(
            a,
            full_text,
            if a.timed {
                now
            } else {
                elapsed_ms
            },
            ctx_len,
            ctx_limit,
        ),
        MsgView::Error { message } => after_error(a, message),
        MsgView::Stopped => AppView {
            app_state: AppState::Ready,
            streaming_target: StreamingTarget::Nowhere,
            timed: false,
            stopped: true,
            ..a
        },
        MsgView::ResetDone => AppView { app_state: AppState::Ready, stats: no_stats(), ..a },
    }
}

impl GgufApp {
    /// A new window.
    pub fn new() -> (r: GgufApp)
        ensures
            r@ == new_window(),
    {
        GgufApp {
            app_state: AppState::Idle,
            error_msg: String::new(),
            tab: Tab::Chat,
            settings: SettingsPanel::default(),
            chat: ChatView::default(),
            prompt: PromptView::default(),
            model: ModelView::default(),
            model_path: String::new(),
            model_name: String::new(),
            model_summary: None,
            stats: GenStats::default(),
            streaming_target: StreamingTarget::Nowhere,
            stream_token_count: 0,
            timed: false,
            stopped: false,
        }
    }

    fn show_loaded(&mut self, l: LoadedInfo)
        ensures
            final(self)@ == after_load(old(self)@, l@),
    {
        let summary = ModelSummary {
            name: owned(l.name.as_str()),
            arch: l.arch,
            model_name: l.model_name,
            gguf_version: l.gguf_version,
            alignment: l.alignment,
            data_offset: l.data_offset,
            file_size: l.file_size,
            tensor_count: l.tensor_count,
            kv_count: l.kv_count,
            load_ms: l.load_ms,
        };
        self.app_state = AppState::Ready;
        self.model_name = l.name;
        self.model_summary = Some(summary.clone());
        self.model.summary = Some(summary);
        self.model.kv_data = l.kv_data;
        self.model.tensor_data = l.tensor_data;
        self.model.ctx_limit = l.ctx_limit;
        self.model.embed_dim = l.embed_dim;
        self.model.vocab_size = l.vocab_size;
        self.model.vocab = l.vocab;
        self.stats.ctx_limit = l.ctx_limit;
        self.settings.stats.ctx_limit = l.ctx_limit;
        self.chat = ChatView::default();
        self.prompt = PromptView::default();
    }

    fn show_error(&mut self, message: String)
        ensures
            final(self)@ == after_error(old(self)@, message@),
    {
        self.app_state = AppState::Error;
        if self.streaming_target == StreamingTarget::Chat {
            let said = concat("\n⚠️ ", message.as_str());
            self.chat.continue_reply(said.as_str());
            if contains(message.as_str(), "上下文超出") {
                self.chat.ctx_exceeded = true;
            }
        }
        self.error_msg = message;
        self.streaming_target = StreamingTarget::Nowhere;
        self.timed = false;
    }

    fn show_text(&mut self, text: String)
        ensures
            final(self)@ == after_text(old(self)@, text@),
    {
        if self.stream_token_count < usize::MAX {
            self.stream_token_count = self.stream_token_count + 1;
        }
        match self.streaming_target {
            StreamingTarget::Chat => self.chat.continue_reply(text.as_str()),
            StreamingTarget::Prompt => self.prompt.output.append(text.as_str()),
            StreamingTarget::Nowhere => {},
        }
    }

    /// Takes what the window is told; `now` is how long the run that is being timed has taken.
    pub fn handle_infer_msg(&mut self, msg: InferMsg, now: u128)
        ensures
            final(self)@ == after_message(old(self)@, msg@, now),
    {
        match msg {
            InferMsg::ModelLoaded(l) => self.show_loaded(l),
            InferMsg::LoadError { message } => {
                self.app_state = AppState::Error;
                self.error_msg = message;
            },
            InferMsg::Token { id: _, text } => self.show_text(text),
            InferMsg::Done { full_text, elapsed_ms, ctx_len, ctx_limit, token_count: _ } => {
                let elapsed: u128 = if self.timed {
                    now
                } else {
                    elapsed_ms
                };
                self.stats = GenStats {
                    elapsed_ms: elapsed,
                    tokens: self.stream_token_count,
                    ctx_len,
                    ctx_limit,
                };
                self.settings.stats = self.stats;
                if self.streaming_target == StreamingTarget::Prompt && !self.prompt.stream {
                    self.prompt.output = full_text;
                }
                self.app_state = AppState::Ready;
                self.streaming_target = StreamingTarget::Nowhere;
                self.timed = false;
            },
            InferMsg::Error { message } => self.show_error(message),
            InferMsg::Stopped => {
                self.app_state = AppState::Ready;
                self.streaming_target = StreamingTarget::Nowhere;
                self.timed = false;
                self.stopped = true;
            },
            InferMsg::ResetDone => {
                self.app_state = AppState::Ready;
                self.stats = GenStats::default();
            },
        }
    }
}

// ---------------------------------------------------------------------------------------------
// What the window's buttons do
// ---------------------------------------------------------------------------------------------

/// The window when a run begins.
pub open spec fn started(a: AppView, target: StreamingTarget) -> AppView {
    AppView {
        streaming_target: target,
        stream_token_count: 0,
        timed: true,
        stopped: false,
        app_state: AppState::Generating,
        ..a
    }
}

/// The window after a message was sent: the dialogue holds it, and a reply that is still empty.
pub open spec fn after_send(a: AppView, text: Seq<char>) -> AppView {
    started(
        AppView {
            chat: ChatPanel {
                messages: a.chat.messages.push((Role::User, text)).push(
                    (Role::Assistant, Seq::empty()),
                ),
                ..a.chat
            },
            ..a
        },
        StreamingTarget::Chat,
    )
}

/// The window with its model put away.
pub open spec fn after_unload(a: AppView) -> AppView {
    AppView {
        app_state: AppState::Idle,
        model_name: Seq::empty(),
        model_summary: None,
        model: empty_model(),
        chat: empty_chat(),
        prompt: empty_prompt(),
        error_msg: Seq::empty(),
        stopped: false,
        ..a
    }
}

/// What the status bar says of the window.
pub open spec fn status_name(a: AppView) -> Seq<char> {
    if a.stopped && a.app_state == AppState::Ready {
        "已停止"@
    } else {
        state_name(a.app_state)
    }
}

impl GgufApp {
    /// What the status bar says of the window: its state, or that the last run was stopped.
    pub fn status(&self) -> (r: &'static str)
        ensures
            r@ == status_name(self@),
    {
        if self.stopped && self.app_state == AppState::Ready {
            "已停止"
        } else {
            self.app_state.label()
        }
    }

    /// How tokens are chosen under the window's settings.
    pub fn current_sampler_config(&self) -> (r: SamplerConfig)
        ensures
            r == chosen_config(self@.settings),
    {
        self.settings.sampler_config()
    }

    /// Begins to load a model.
    pub fn load_model(&mut self, path: String) -> (r: UiCommand)
        ensures
            final(self)@ == (AppView {
                model_path: path@,
                app_state: AppState::Loading,
                error_msg: Seq::empty(),
                streaming_target: StreamingTarget::Nowhere,
                stopped: false,
                ..old(self)@
            }),
            r@ == (CommandView::LoadModel {
                path: path@,
                sampler: chosen_config(old(self).settings),
            }),
    {
        self.model_path = owned(path.as_str());
        self.app_state = AppState::Loading;
        self.error_msg = String::new();
        self.stopped = false;
        self.streaming_target = StreamingTarget::Nowhere;
        UiCommand::LoadModel { path, sampler: self.current_sampler_config() }
    }

    /// Sends a message of the dialogue; one of white space alone is not sent.
    pub fn send_chat(&mut self, text: &str) -> (r: Option<UiCommand>)
        ensures
            trimmed(text@).len() == 0 ==> r is None && *final(self) == *old(self),
            trimmed(text@).len() > 0 ==> {
                &&& final(self)@ == after_send(old(self)@, text@)
                &&& r is Some
                &&& r->Some_0@ == (CommandView::Chat {
                    text: text@,
                    max_tokens: old(self).settings.max_tokens,
                    sampler: chosen_config(old(self).settings),
                })
            },
    {
        let t = trim(text);
        if t.as_str().is_empty() {
            return None;
        }
        self.chat.push(Role::User, text);
        self.chat.push(Role::Assistant, "");
        proof {
            reveal_strlit("");
            assert(""@ =~= Seq::<char>::empty());
        }
        self.streaming_target = StreamingTarget::Chat;
        self.stream_token_count = 0;
        self.timed = true;
        self.stopped = false;
        self.app_state = AppState::Generating;
        Some(self.settings.send_chat(owned(text)))
    }

    /// Sends what is typed in the dialogue, without the white space around it, and clears it.
    pub fn send_input(&mut self) -> (r: Option<UiCommand>)
        ensures
            ({
                let text = trimmed(old(self)@.chat.input);
                if text.len() == 0 {
                    r is None && *final(self) == *old(self)
                } else {
                    let cleared = AppView {
                        chat: ChatPanel { input: Seq::empty(), ..old(self)@.chat },
                        ..old(self)@
                    };
                    &&& final(self)@ == after_send(cleared, text)
                    &&& r is Some
                    &&& r->Some_0@ == (CommandView::Chat {
                        text,
                        max_tokens: old(self).settings.max_tokens,
                        sampler: chosen_config(old(self).settings),
                    })
                }
            }),
    {
        proof {
            trimmed_is_trimmed(self.chat.input@);
        }
        let text = trim(self.chat.input.as_str());
        if text.as_str().is_empty() {
            return None;
        }
        self.chat.input = String::new();
        self.send_chat(text.as_str())
    }

    /// Runs the prompt, without the white space around it; an empty one is not run.
    pub fn send_prompt(&mut self) -> (r: Option<UiCommand>)
        ensures
            ({
                let text = trimmed(old(self)@.prompt.input_text);
                if text.len() == 0 {
                    r is None && *final(self) == *old(self)
                } else {
                    let settings = SettingsPanel {
                        greedy: old(self)@.prompt.greedy,
                        ..old(self)@.settings
                    };
                    &&& final(self)@ == started(
                        AppView {
                            settings,
                            prompt: PromptPanel { output: Seq::empty(), ..old(self)@.prompt },
                            ..old(self)@
                        },
                        StreamingTarget::Prompt,
                    )
                    &&& r is Some
                    &&& r->Some_0@ == (CommandView::Prompt {
                        text,
                        max_tokens: settings.max_tokens,
                        sampler: chosen_config(settings),
                        stream: old(self)@.prompt.stream,
                    })
                }
            }),
    {
        let text = trim(self.prompt.input_text.as_str());
        if text.as_str().is_empty() {
            return None;
        }
        self.settings.greedy = self.prompt.greedy;
        self.prompt.output = String::new();
        self.streaming_target = StreamingTarget::Prompt;
        self.stream_token_count = 0;
        self.timed = true;
        self.stopped = false;
        self.app_state = AppState::Generating;
        self.settings.send_prompt(text, self.prompt.stream)
    }

    /// Begins a new dialogue.
    pub fn reset_chat(&mut self) -> (r: UiCommand)
        ensures
            final(self)@ == (AppView {
                chat: ChatPanel {
                    messages: Seq::empty(),
                    ctx_exceeded: false,
                    ..old(self)@.chat
                },
                ..old(self)@
            }),
            r@ == CommandView::Reset,
    {
        self.chat.reset();
        UiCommand::Reset
    }

    /// Puts the model away, and its memory with it.
    pub fn unload(&mut self) -> (r: UiCommand)
        ensures
            final(self)@ == after_unload(old(self)@),
            r@ == CommandView::Unload,
    {
        self.app_state = AppState::Idle;
        self.model_name = String::new();
        self.model_summary = None;
        self.model = ModelView::default();
        self.chat = ChatView::default();
        self.prompt = PromptView::default();
        self.error_msg = String::new();
        self.stopped = false;
        UiCommand::Unload
    }
}

// ---------------------------------------------------------------------------------------------
// Laws
// ---------------------------------------------------------------------------------------------

/// Whatever ends a run, its text no longer goes anywhere and it is no longer timed.
pub proof fn ended_run_is_over(a: AppView, msg: MsgView, now: u128)
    requires
        msg is Done || msg is Error || msg is Stopped,
    ensures
        after_message(a, msg, now).streaming_target == StreamingTarget::Nowhere,
        !after_message(a, msg, now).timed,
        after_message(a, msg, now).app_state != AppState::Generating,
{
}

/// The window after texts of a run, one by one.
pub open spec fn after_texts(a: AppView, texts: Seq<Seq<char>>) -> AppView
    decreases texts.len(),
{
    if texts.len() == 0 {
        a
    } else {
        after_text(after_texts(a, texts.drop_last()), texts.last())
    }
}

/// Texts, one behind the other.
pub open spec fn joined_texts(texts: Seq<Seq<char>>) -> Seq<char>
    decreases texts.len(),
{
    if texts.len() == 0 {
        Seq::empty()
    } else {
        joined_texts(texts.drop_last()) + texts.last()
    }
}

/// The reply that the dialogue shows is all the text of the run, in its order, and nothing else of
/// the dialogue changes.
pub proof fn reply_is_all_the_text(a: AppView, text: Seq<char>, texts: Seq<Seq<char>>)
    ensures
        after_texts(after_send(a, text), texts).chat.messages == a.chat.messages.push(
            (Role::User, text),
        ).push((Role::Assistant, joined_texts(texts))),
        after_texts(after_send(a, text), texts).streaming_target == StreamingTarget::Chat,
        after_texts(after_send(a, text), texts).prompt == a.prompt,
    decreases texts.len(),
{
    if texts.len() > 0 {
        reply_is_all_the_text(a, text, texts.drop_last());
        let before = after_texts(after_send(a, text), texts.drop_last()).chat.messages;
        let head = a.chat.messages.push((Role::User, text));
        assert(before.drop_last() =~= head);
        assert(continued(before, texts.last()) =~= head.push(
            (Role::Assistant, joined_texts(texts)),
        ));
    }
}

} // verus!
