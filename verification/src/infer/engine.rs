//! Running a model on text: prompts, dialogues, and when a reply is at its end.
//!
//! The engine decides what the model is to be run on and what becomes of each token that it
//! chooses. Its caller runs the model: it hands tokens to the model, draws the next token with the
//! engine's sampler, and reports back.
use vstd::prelude::*;
use vstd::slice::slice_to_vec;
use vstd::string::*;
use vstd::utf8::*;
use crate::error::{ErrorView, GgufError, GgufResult};
use crate::file::{FileView, GgufFile};
use crate::text::{dec, owned, push_dec, push_dec_u128};
use crate::infer::model::hparams::HParams;
use crate::infer::model::llama::{model_of, LlamaModel, ModelView};
use crate::infer::sampler::{recorded, seeded_generator, Sampler, SamplerConfig};
use crate::infer::stream::{
    all_bytes, drained, joined, next_text, next_text_of, push_streamed_bytes, stream_is_whole_text,
    streamed, streamed_bytes, ByteStyle,
};
use crate::infer::tokenizer::{
    decode_text, encode_ids, ids_bytes, string_at, token_bytes, tokenizer_of, Tokenizer,
    TokenizerView,
};
use crate::infer::tokenizer_laws::bytes_of_parts;

verus! {

// ---------------------------------------------------------------------------------------------
// One run of the model
// ---------------------------------------------------------------------------------------------

/// What a run is for, and whether it can be broken off.
#[derive(Debug, Clone, Copy, PartialEq, Eq, Structural)]
pub enum Mode {
    /// To continue a prompt.
    Prompt,
    /// To continue a prompt; it can be broken off.
    CancellablePrompt,
    /// To answer a message of the dialogue.
    Chat,
    /// To answer a message of the dialogue; it can be broken off.
    CancellableChat,
}

/// Whether a run answers a message of the dialogue.
pub open spec fn is_chat(m: Mode) -> bool {
    m == Mode::Chat || m == Mode::CancellableChat
}

/// Whether a run can be broken off.
pub open spec fn is_cancellable(m: Mode) -> bool {
    m == Mode::CancellablePrompt || m == Mode::CancellableChat
}

/// How the bytes of a token are told.
pub open spec fn style_of(m: Mode) -> ByteStyle {
    if is_chat(m) {
        ByteStyle::PerCharacter
    } else {
        ByteStyle::WholeToken
    }
}

/// A text that is being generated: what the model was given, what it has chosen so far, and the
/// bytes that are held back until they are whole characters.
#[derive(Debug)]
pub struct Generation {
    mode: Mode,
    message: String,
    cached: usize,
    limit: Option<u32>,
    prompt: Vec<u32>,
    output: Vec<u32>,
    pending: Vec<u8>,
    max_tokens: usize,
    eos: Option<u32>,
    begun: bool,
    ended: bool,
    cancelled: bool,
}

/// A [`Generation`] with its lists as sequences.
pub struct GenerationView {
    pub mode: Mode,
    /// The message that is answered.
    pub message: Seq<char>,
    /// How many tokens of the dialogue were with the model before.
    pub cached: nat,
    /// How many tokens the model can hold in view, where the run keeps to that.
    pub limit: Option<u32>,
    pub prompt: Seq<u32>,
    pub output: Seq<u32>,
    pub pending: Seq<u8>,
    pub max_tokens: nat,
    pub eos: Option<u32>,
    /// Whether the model was run on the prompt.
    pub begun: bool,
    /// Whether the model has ended the text.
    pub ended: bool,
    /// Whether the run was broken off.
    pub cancelled: bool,
}

impl View for Generation {
    type V = GenerationView;

    closed spec fn view(&self) -> GenerationView {
        GenerationView {
            mode: self.mode,
            message: self.message@,
            cached: self.cached as nat,
            limit: self.limit,
            prompt: self.prompt@,
            output: self.output@,
            pending: self.pending@,
            max_tokens: self.max_tokens as nat,
            eos: self.eos,
            begun: self.begun,
            ended: self.ended,
            cancelled: self.cancelled,
        }
    }
}

/// A run that has not begun.
pub open spec fn fresh_run(
    mode: Mode,
    message: Seq<char>,
    cached: nat,
    limit: Option<u32>,
    prompt: Seq<u32>,
    max_tokens: nat,
    eos: Option<u32>,
) -> GenerationView {
    GenerationView {
        mode,
        message,
        cached,
        limit,
        prompt,
        output: Seq::empty(),
        pending: Seq::empty(),
        max_tokens,
        eos,
        begun: false,
        ended: false,
        cancelled: false,
    }
}

/// A run after the model chose `id`: it ends on the id that ends a text, and else goes on with one
/// more token.
pub open spec fn after_token(g: GenerationView, t: TokenizerView, id: u32) -> GenerationView {
    if g.eos == Some(id) {
        GenerationView { ended: true, ..g }
    } else {
        GenerationView {
            output: g.output.push(id),
            pending: g.pending + (if id < t.strings.len() {
                streamed_bytes(style_of(g.mode), t.strings[id as int])
            } else {
                Seq::empty()
            }),
            ..g
        }
    }
}

/// Whether another token is to be chosen.
pub open spec fn goes_on(g: GenerationView) -> bool {
    !g.ended && !g.cancelled && g.output.len() < g.max_tokens
}

/// How many tokens the model has been given with a run: those of the dialogue before it, its prompt
/// and what it chose.
pub open spec fn used(g: GenerationView) -> nat {
    g.cached + g.prompt.len() + g.output.len()
}

/// Whether the model can hold no further token in view.
pub open spec fn is_full(g: GenerationView) -> bool {
    g.limit is Some && used(g) >= g.limit->Some_0
}

/// The error of a further token that the model cannot hold in view.
pub open spec fn overfull(g: GenerationView) -> ErrorView {
    too_long(used(g), 1, g.limit->Some_0 as nat)
}

/// What is to be done next in a run.
#[derive(Debug)]
pub enum Action {
    /// Run the model on these tokens. They come after all that it was run on in the dialogue or,
    /// where `fresh` is true, they start a text of their own, which leaves the dialogue as it is.
    Feed { ids: Vec<u32>, fresh: bool },
    /// Choose a token by what the model answered.
    Choose,
    /// Tell this text, which ended with token `id`.
    Say { id: u32, text: String },
    /// Nothing: the run is over and `text` is its result. Where `closing` is a token, the model is
    /// still to be run on it, whether or not it can be.
    Done { text: String, closing: Option<u32> },
}

/// An [`Action`] with its lists and strings as sequences.
pub enum ActionView {
    Feed { ids: Seq<u32>, fresh: bool },
    Choose,
    Say { id: u32, text: Seq<char> },
    Done { text: Seq<char>, closing: Option<u32> },
}

impl View for Action {
    type V = ActionView;

    open spec fn view(&self) -> ActionView {
        match *self {
            Action::Feed { ids, fresh } => ActionView::Feed { ids: ids@, fresh },
            Action::Choose => ActionView::Choose,
            Action::Say { id, text } => ActionView::Say { id, text: text@ },
            Action::Done { text, closing } => ActionView::Done { text: text@, closing },
        }
    }
}

impl Generation {
    fn new(
        mode: Mode,
        message: String,
        cached: usize,
        limit: Option<u32>,
        prompt: Vec<u32>,
        max_tokens: usize,
        eos: Option<u32>,
    ) -> (r: Generation)
        ensures
            r@ == fresh_run(
                mode,
                message@,
                cached as nat,
                limit,
                prompt@,
                max_tokens as nat,
                eos,
            ),
    {
        Generation {
            mode,
            message,
            cached,
            limit,
            prompt,
            output: Vec::new(),
            pending: Vec::new(),
            max_tokens,
            eos,
            begun: false,
            ended: false,
            cancelled: false,
        }
    }

    /// What the model is to be run on first: a prompt starts a text of its own, a turn of the
    /// dialogue continues it.
    pub fn begin(&self) -> (r: Action)
        ensures
            r@ == (ActionView::Feed { ids: self@.prompt, fresh: !is_chat(self@.mode) }),
    {
        let fresh = match self.mode {
            Mode::Chat | Mode::CancellableChat => false,
            _ => true,
        };
        Action::Feed { ids: slice_to_vec(self.prompt.as_slice()), fresh }
    }

    /// The tokens that were chosen.
    pub fn output(&self) -> (r: &[u32])
        ensures
            r@ == self@.output,
    {
        self.output.as_slice()
    }

    /// Whether the run was broken off.
    pub fn is_cancelled(&self) -> (r: bool)
        ensures
            r == self@.cancelled,
    {
        self.cancelled
    }

    fn style(&self) -> (r: ByteStyle)
        ensures
            r == style_of(self@.mode),
    {
        match self.mode {
            Mode::Chat | Mode::CancellableChat => ByteStyle::PerCharacter,
            _ => ByteStyle::WholeToken,
        }
    }

    /// Refuses a further token that the model cannot hold in view.
    fn check_room(&self) -> (r: GgufResult<()>)
        ensures
            is_full(self@) ==> r is Err && r->Err_0@ == overfull(self@),
            !is_full(self@) ==> r is Ok,
    {
        match self.limit {
            None => Ok(()),
            Some(limit) => {
                let used: u128 = self.cached as u128 + self.prompt.len() as u128
                    + self.output.len() as u128;
                if used >= limit as u128 {
                    Err(too_long_error(used, 1, limit))
                } else {
                    Ok(())
                }
            },
        }
    }

    /// Whether another token is to be chosen.
    fn wants_token(&self) -> (r: bool)
        ensures
            r == goes_on(self@),
    {
        !self.ended && !self.cancelled && self.output.len() < self.max_tokens
    }

    /// Takes the token that was chosen. The result says whether it is part of the text.
    fn take_token(&mut self, tokenizer: &Tokenizer, id: u32) -> (r: bool)
        ensures
            final(self)@ == after_token(old(self)@, tokenizer@, id),
            r == (old(self)@.eos != Some(id)),
    {
        match self.eos {
            Some(e) => if e == id {
                self.ended = true;
                return false;
            },
            None => {},
        }
        let style = self.style();
        self.output.push(id);
        let ghost before = self.pending@;
        match tokenizer.decode_token(id) {
            Some(s) => push_streamed_bytes(&mut self.pending, style, s),
            None => {
                assert(before + Seq::<u8>::empty() =~= before);
            },
        }
        true
    }
}

/// The error of a dialogue that has become too long.
fn too_long_error(cached: u128, new: u64, limit: u32) -> (e: GgufError)
    ensures
        e@ == too_long(cached as nat, new as nat, limit as nat),
{
    let mut m = owned("上下文超出: 已有 ");
    push_dec_u128(&mut m, cached);
    m.append(" tokens + 新增 ");
    push_dec(&mut m, new);
    m.append(" > 上限 ");
    push_dec(&mut m, limit as u64);
    GgufError::InferenceError(m)
}

/// What comes after the text of a token: more of it, or else the model is run on the token.
pub open spec fn telling(g: GenerationView) -> (GenerationView, ActionView) {
    let (text, rest) = next_text_of(g.pending);
    let h = GenerationView { pending: rest, ..g };
    match text {
        Some(t) => (h, ActionView::Say { id: g.output.last(), text: t }),
        None => (h, ActionView::Feed { ids: seq![g.output.last()], fresh: false }),
    }
}

/// What a step of a run comes to: the engine and the run after it and what is to be done next, or
/// why the run cannot go on.
pub type Stepped = Result<(EngineView, GenerationView, ActionView), ErrorView>;

/// What a run comes to. A prompt's result is the prompt and what the model made of it; an answer
/// becomes part of the dialogue, and is closed where it was not broken off. The token that closes
/// it must still be in the model's view.
pub open spec fn concluded(e: EngineView, g: GenerationView) -> Stepped {
    let reply = decode_text(e.tokenizer, g.output);
    if !is_chat(g.mode) {
        let text = decode_text(e.tokenizer, g.prompt + g.output);
        Ok((e, g, ActionView::Done { text, closing: None }))
    } else if !g.cancelled && is_full(g) {
        Err(overfull(g))
    } else {
        Ok(
            (
                EngineView { history: e.history.push((g.message, reply)), ..e },
                g,
                ActionView::Done {
                    text: reply,
                    closing: if g.cancelled {
                        None
                    } else {
                        Some(IM_END)
                    },
                },
            ),
        )
    }
}

/// What is done when a run can choose again: it does, or it is over.
pub open spec fn choosing(e: EngineView, g: GenerationView) -> Stepped {
    if goes_on(g) {
        Ok((e, g, ActionView::Choose))
    } else {
        concluded(e, g)
    }
}

/// A run and the engine after the model was run, and answered with `logits` numbers.
pub open spec fn after_feed(e: EngineView, g: GenerationView, logits: nat) -> Stepped {
    if !g.begun && logits == 0 {
        Err(ErrorView::InferenceError("logits 为空"@))
    } else {
        choosing(e, GenerationView { begun: true, ..g })
    }
}

/// A run and the engine after a token was chosen. A token that the model cannot hold in view ends
/// the run with an error.
pub open spec fn after_choice(e: EngineView, g: GenerationView, id: u32) -> Stepped {
    let h = after_token(g, e.tokenizer, id);
    if g.eos == Some(id) {
        concluded(e, h)
    } else if is_full(g) {
        Err(overfull(g))
    } else {
        let (i, action) = telling(h);
        Ok((e, i, action))
    }
}

/// A run and the engine after a text was told; `keep` says whether to go on. Where not, nothing more
/// is told: the bytes that are held back then are no text (see
/// [`held_back_is_no_text`](crate::infer::stream::held_back_is_no_text)).
pub open spec fn after_telling(e: EngineView, g: GenerationView, keep: bool) -> Stepped {
    if keep || !is_cancellable(g.mode) {
        let (h, action) = telling(g);
        Ok((e, h, action))
    } else {
        concluded(e, GenerationView { cancelled: true, pending: Seq::empty(), ..g })
    }
}

// ---------------------------------------------------------------------------------------------
// The engine
// ---------------------------------------------------------------------------------------------

/// The id that starts a message.
pub const IM_START: u32 = 151644;

/// The id that ends a message.
pub const IM_END: u32 = 151645;

/// The id of the word `user`.
pub const USER: u32 = 872;

/// The id of the word `assistant`.
pub const ASSISTANT: u32 = 77091;

/// The id of the word `system`.
pub const SYSTEM: u32 = 8948;

/// One message of a dialogue.
pub open spec fn message(t: TokenizerView, role: u32, text: Seq<char>) -> Seq<u32> {
    seq![IM_START, role] + encode_ids(t, "\n"@) + encode_ids(t, text) + seq![IM_END] + encode_ids(
        t,
        "\n"@,
    )
}

/// What asks for the reply.
pub open spec fn reply_head(t: TokenizerView) -> Seq<u32> {
    seq![IM_START, ASSISTANT] + encode_ids(t, "\n"@)
}

/// What the model is given for one turn of a dialogue: before the first turn the system's message,
/// then the user's, then what asks for the reply.
pub open spec fn turn_ids(t: TokenizerView, started: bool, text: Seq<char>) -> Seq<u32> {
    if started {
        message(t, USER, text) + reply_head(t)
    } else {
        message(t, SYSTEM, "You are a helpful assistant."@) + message(t, USER, text) + reply_head(t)
    }
}

/// The engine's state without its sampler.
pub struct EngineView {
    pub model: ModelView,
    pub tokenizer: TokenizerView,
    pub started: bool,
    pub history: Seq<(Seq<char>, Seq<char>)>,
}

/// The engine that a file gives, or why it gives none.
pub open spec fn engine_of(f: FileView) -> Result<EngineView, ErrorView> {
    match model_of(f) {
        Err(e) => Err(e),
        Ok(model) => match tokenizer_of(f) {
            Err(e) => Err(e),
            Ok(tokenizer) => Ok(
                EngineView { model, tokenizer, started: false, history: Seq::empty() },
            ),
        },
    }
}

/// The error of a dialogue that has become too long.
pub open spec fn too_long(cached: nat, new: nat, limit: nat) -> ErrorView {
    ErrorView::InferenceError(
        "上下文超出: 已有 "@ + dec(cached) + " tokens + 新增 "@ + dec(new) + " > 上限 "@ + dec(limit),
    )
}

/// Counts after tokens were counted one by one.
pub open spec fn recorded_all(seen: Map<u32, u64>, ids: Seq<u32>) -> Map<u32, u64>
    decreases ids.len(),
{
    if ids.len() == 0 {
        seen
    } else {
        recorded(recorded_all(seen, ids.drop_last()), ids.last())
    }
}

/// Counts after all messages of a dialogue were counted.
pub open spec fn recorded_history(
    t: TokenizerView,
    seen: Map<u32, u64>,
    history: Seq<(Seq<char>, Seq<char>)>,
) -> Map<u32, u64>
    decreases history.len(),
{
    if history.len() == 0 {
        seen
    } else {
        let before = recorded_history(t, seen, history.drop_last());
        let asked = recorded_all(before, encode_ids(t, history.last().0));
        recorded_all(asked, encode_ids(t, history.last().1))
    }
}

/// Runs a model on text: the model's layout, its vocabulary, the sampler, and the dialogue so far.
pub struct Engine {
    model: LlamaModel,
    tokenizer: Tokenizer,
    sampler: Sampler,
    chat_prefilled: bool,
    chat_history: Vec<(String, String)>,
}

/// The views of a dialogue's turns.
pub open spec fn history_view(s: Seq<(String, String)>) -> Seq<(Seq<char>, Seq<char>)> {
    Seq::new(s.len(), |i: int| (s[i].0@, s[i].1@))
}

impl View for Engine {
    type V = EngineView;

    closed spec fn view(&self) -> EngineView {
        EngineView {
            model: self.model@,
            tokenizer: self.tokenizer@,
            started: self.chat_prefilled,
            history: history_view(self.chat_history@),
        }
    }
}

fn push_ids(out: &mut Vec<u32>, more: Vec<u32>)
    ensures
        final(out)@ == old(out)@ + more@,
{
    let mut m = more;
    out.append(&mut m);
}

impl Engine {
    /// The sampler.
    pub closed spec fn chooser(&self) -> Sampler {
        self.sampler
    }

    /// An engine for the model that a file describes.
    pub fn new(file: &GgufFile, sampler_config: SamplerConfig) -> (r: GgufResult<Engine>)
        ensures
            match engine_of(file@) {
                Ok(v) => {
                    &&& r is Ok
                    &&& r->Ok_0@ == v
                    &&& r->Ok_0.chooser().settings() == sampler_config
                    &&& r->Ok_0.chooser().counts() == Map::<u32, u64>::empty()
                    &&& sampler_config.seed != 0 ==> r->Ok_0.chooser().generator()
                        == seeded_generator(sampler_config.seed)
                },
                Err(e) => r is Err && r->Err_0@ == e,
            },
    {
        let model = match LlamaModel::new(file) {
            Ok(m) => m,
            Err(e) => return Err(e),
        };
        let tokenizer = match Tokenizer::from_gguf(file) {
            Ok(t) => t,
            Err(e) => return Err(e),
        };
        let r = Engine {
            model,
            tokenizer,
            sampler: Sampler::new(sampler_config),
            chat_prefilled: false,
            chat_history: Vec::new(),
        };
        assert(r@.history =~= Seq::<(Seq<char>, Seq<char>)>::empty());
        Ok(r)
    }

    /// The vocabulary.
    pub fn tokenizer(&self) -> (r: &Tokenizer)
        ensures
            r@ == self@.tokenizer,
    {
        &self.tokenizer
    }

    /// The layout of the model.
    pub fn model(&self) -> (r: &LlamaModel)
        ensures
            r@ == self@.model,
    {
        &self.model
    }

    /// The sizes of the model.
    pub fn hparams(&self) -> (r: &HParams)
        ensures
            r@ == self@.model.hp,
    {
        self.model.hparams()
    }

    /// The sampler, to choose tokens with.
    pub fn sampler_mut(&mut self) -> (r: &mut Sampler)
        ensures
            *r == old(self).chooser(),
            final(self).chooser() == *final(r),
            final(self)@ == old(self)@,
    {
        &mut self.sampler
    }

    /// Other settings for choosing tokens.
    pub fn set_sampler_config(&mut self, config: SamplerConfig)
        ensures
            final(self)@ == old(self)@,
            final(self).chooser().settings() == config,
            final(self).chooser().counts() == old(self).chooser().counts(),
            final(self).chooser().generator() == (if config.seed
                != old(self).chooser().settings().seed && config.seed != 0 {
                seeded_generator(config.seed)
            } else {
                old(self).chooser().generator()
            }),
    {
        self.sampler.set_config(config);
    }

    /// The ids of a text.
    pub fn tokenize(&self, text: &str) -> (r: Vec<u32>)
        ensures
            r@ == encode_ids(self@.tokenizer, text@),
    {
        self.tokenizer.encode(text)
    }

    /// The text of ids.
    pub fn detokenize(&self, ids: &[u32]) -> (r: String)
        ensures
            r@ == decode_text(self@.tokenizer, ids@),
    {
        self.tokenizer.decode(ids)
    }

    /// A run that continues a prompt. The model starts with it at position 0, without anything it
    /// has seen before.
    pub fn start_prompt(&self, prompt: &str, max_tokens: usize, cancellable: bool) -> (r:
        GgufResult<Generation>)
        ensures
            ({
                let ids = encode_ids(self@.tokenizer, prompt@);
                if ids.len() == 0 {
                    r is Err && r->Err_0@ == ErrorView::InferenceError("prompt tokenize 为空"@)
                } else {
                    r is Ok && r->Ok_0@ == fresh_run(
                        if cancellable {
                            Mode::CancellablePrompt
                        } else {
                            Mode::Prompt
                        },
                        Seq::empty(),
                        0,
                        None,
                        ids,
                        max_tokens as nat,
                        self@.tokenizer.eos_id,
                    )
                }
            }),
    {
        let ids = self.tokenizer.encode(prompt);
        if ids.len() == 0 {
            return Err(GgufError::InferenceError(owned("prompt tokenize 为空")));
        }
        let mode = if cancellable {
            Mode::CancellablePrompt
        } else {
            Mode::Prompt
        };
        Ok(Generation::new(mode, String::new(), 0, None, ids, max_tokens, self.tokenizer.eos()))
    }

    fn message_ids(&self, role: u32, text: &str) -> (r: Vec<u32>)
        ensures
            r@ == message(self@.tokenizer, role, text@),
    {
        let mut r: Vec<u32> = Vec::new();
        r.push(IM_START);
        r.push(role);
        push_ids(&mut r, self.tokenizer.encode("\n"));
        push_ids(&mut r, self.tokenizer.encode(text));
        r.push(IM_END);
        push_ids(&mut r, self.tokenizer.encode("\n"));
        assert(r@ =~= message(self@.tokenizer, role, text@));
        r
    }

    /// What the model is given for the next turn of the dialogue.
    fn next_turn_ids(&self, text: &str) -> (r: Vec<u32>)
        ensures
            r@ == turn_ids(self@.tokenizer, self@.started, text@),
    {
        let mut r: Vec<u32> = Vec::new();
        if !self.chat_prefilled {
            push_ids(&mut r, self.message_ids(SYSTEM, "You are a helpful assistant."));
        }
        push_ids(&mut r, self.message_ids(USER, text));
        r.push(IM_START);
        r.push(ASSISTANT);
        push_ids(&mut r, self.tokenizer.encode("\n"));
        assert(r@ =~= turn_ids(self@.tokenizer, self@.started, text@));
        r
    }

    /// A run that answers the next message of the dialogue. `cached` tokens of the dialogue are with
    /// the model already; together with the new ones they must not be more than the model can hold
    /// in view. The dialogue counts as started from then on, whether or not the run is possible.
    pub fn start_turn(&mut self, text: &str, max_tokens: usize, cached: usize, cancellable: bool) -> (r:
        GgufResult<Generation>)
        ensures
            final(self)@ == (EngineView { started: true, ..old(self)@ }),
            final(self).chooser() == old(self).chooser(),
            r is Ok <==> cached + turn_ids(old(self)@.tokenizer, old(self)@.started, text@).len()
                <= old(self)@.model.hp.context_length,
            ({
                let t = old(self)@.tokenizer;
                let ids = turn_ids(t, old(self)@.started, text@);
                let limit = old(self)@.model.hp.context_length as nat;
                if cached + ids.len() > limit {
                    r is Err && r->Err_0@ == too_long(cached as nat, ids.len(), limit)
                } else {
                    r is Ok && r->Ok_0@ == fresh_run(
                        if cancellable {
                            Mode::CancellableChat
                        } else {
                            Mode::Chat
                        },
                        text@,
                        cached as nat,
                        Some(old(self)@.model.hp.context_length),
                        ids,
                        max_tokens as nat,
                        t.eos_id,
                    ) && in_context(r->Ok_0@)
                }
            }),
    {
        let ids = self.next_turn_ids(text);
        self.chat_prefilled = true;
        let limit: u32 = self.model.hparams().context_length;
        let new: usize = ids.len();
        if cached as u128 + new as u128 > limit as u128 {
            return Err(too_long_error(cached as u128, new as u64, limit));
        }
        let mode = if cancellable {
            Mode::CancellableChat
        } else {
            Mode::Chat
        };
        Ok(
            Generation::new(
                mode,
                owned(text),
                cached,
                Some(limit),
                ids,
                max_tokens,
                self.tokenizer.eos(),
            ),
        )
    }

    fn record_text(&mut self, text: &String)
        ensures
            final(self)@ == old(self)@,
            final(self).chooser().settings() == old(self).chooser().settings(),
            final(self).chooser().generator() == old(self).chooser().generator(),
            final(self).chooser().counts() == recorded_all(
                old(self).chooser().counts(),
                encode_ids(old(self)@.tokenizer, text@),
            ),
    {
        let ids = self.tokenizer.encode(text.as_str());
        let mut i: usize = 0;
        assert(ids@.take(0) =~= Seq::<u32>::empty());
        while i < ids.len()
            invariant
                i <= ids@.len(),
                self@ == old(self)@,
                self.chooser().settings() == old(self).chooser().settings(),
                self.chooser().generator() == old(self).chooser().generator(),
                self.chooser().counts() == recorded_all(
                    old(self).chooser().counts(),
                    ids@.take(i as int),
                ),
            decreases ids@.len() - i,
        {
            proof {
                let next = ids@.take(i + 1);
                assert(next.drop_last() =~= ids@.take(i as int));
                assert(next.last() == ids@[i as int]);
            }
            self.sampler.record(ids[i]);
            i += 1;
        }
        assert(ids@.take(i as int) =~= ids@);
    }

    /// Makes the sampler ready for a turn: it forgets the tokens that it has seen, and then counts
    /// those of all messages of the dialogue so far. The generator goes on.
    fn prime_sampler(&mut self)
        ensures
            final(self)@ == old(self)@,
            final(self).chooser().settings() == old(self).chooser().settings(),
            final(self).chooser().counts() == recorded_history(
                old(self)@.tokenizer,
                Map::empty(),
                old(self)@.history,
            ),
            final(self).chooser().generator() == old(self).chooser().generator(),
    {
        self.sampler.forget();
        let history = clone_history(&self.chat_history);
        let ghost turns = history_view(history@);
        let mut i: usize = 0;
        assert(turns.take(0) =~= Seq::<(Seq<char>, Seq<char>)>::empty());
        while i < history.len()
            invariant
                i <= history@.len(),
                turns == history_view(history@),
                self@ == old(self)@,
                self.chooser().settings() == old(self).chooser().settings(),
                self.chooser().generator() == old(self).chooser().generator(),
                self.chooser().counts() == recorded_history(
                    old(self)@.tokenizer,
                    Map::empty(),
                    turns.take(i as int),
                ),
            decreases history@.len() - i,
        {
            proof {
                let next = turns.take(i + 1);
                assert(next.drop_last() =~= turns.take(i as int));
                assert(next.last() == turns[i as int]);
            }
            self.record_text(&history[i].0);
            self.record_text(&history[i].1);
            i += 1;
        }
        assert(turns.take(i as int) =~= turns);
    }

    /// Refuses to close a run whose last token the model cannot hold in view.
    fn check_close(&self, run: &Generation) -> (r: GgufResult<()>)
        ensures
            match concluded(self@, run@) {
                Ok(_) => r is Ok,
                Err(e) => r is Err && r->Err_0@ == e,
            },
    {
        match run.mode {
            Mode::Chat | Mode::CancellableChat => if run.cancelled {
                Ok(())
            } else {
                run.check_room()
            },
            _ => Ok(()),
        }
    }

    /// The result of a run that can be closed.
    fn conclude(&mut self, run: &Generation) -> (r: Action)
        requires
            concluded(old(self)@, run@) is Ok,
        ensures
            (final(self)@, run@, r@) == concluded(old(self)@, run@)->Ok_0,
            final(self).chooser() == old(self).chooser(),
    {
        let is_answer = match run.mode {
            Mode::Chat | Mode::CancellableChat => true,
            _ => false,
        };
        if is_answer {
            let reply = self.tokenizer.decode(run.output.as_slice());
            let ghost before = self@.history;
            self.chat_history.push((owned(run.message.as_str()), owned(reply.as_str())));
            assert(self@.history =~= before.push((run.message@, reply@)));
            let closing: Option<u32> = if run.cancelled {
                None
            } else {
                Some(IM_END)
            };
            Action::Done { text: reply, closing }
        } else {
            let mut all: Vec<u32> = slice_to_vec(run.prompt.as_slice());
            let mut more: Vec<u32> = slice_to_vec(run.output.as_slice());
            all.append(&mut more);
            Action::Done { text: self.tokenizer.decode(all.as_slice()), closing: None }
        }
    }

    /// More of the text of the token that was chosen last, or else the token goes to the model.
    fn tell(&self, run: &mut Generation) -> (r: Action)
        requires
            old(run)@.output.len() > 0,
        ensures
            (final(run)@, r@) == telling(old(run)@),
    {
        let n: usize = run.output.len();
        let id: u32 = run.output[n - 1];
        match next_text(&mut run.pending) {
            Some(text) => Action::Say { id, text },
            None => {
                let mut ids: Vec<u32> = Vec::new();
                ids.push(id);
                assert(ids@ =~= seq![run@.output.last()]);
                Action::Feed { ids, fresh: false }
            },
        }
    }

    /// Takes note that the model was run, and answered with `logits` numbers. When it was run on
    /// the prompt of an answer, the sampler is made ready: it forgets the tokens that it has seen,
    /// and then counts those of all messages of the dialogue so far. The generator goes on.
    pub fn fed(&mut self, run: &mut Generation, logits: usize) -> (r: GgufResult<Action>)
        ensures
            match after_feed(old(self)@, old(run)@, logits as nat) {
                Ok(step) => r is Ok && (final(self)@, final(run)@, r->Ok_0@) == step,
                Err(e) => r is Err && r->Err_0@ == e && *final(self) == *old(self) && *final(run)
                    == *old(run),
            },
            r is Ok && in_context(old(run)@) ==> in_context(final(run)@) && ends_in_context(
                final(run)@,
                r->Ok_0@,
            ),
            r is Ok && !old(run)@.begun && is_chat(old(run)@.mode) ==> {
                &&& final(self).chooser().settings() == old(self).chooser().settings()
                &&& final(self).chooser().counts() == recorded_history(
                    old(self)@.tokenizer,
                    Map::empty(),
                    old(self)@.history,
                )
                &&& final(self).chooser().generator() == old(self).chooser().generator()
            },
            r is Ok && (old(run)@.begun || !is_chat(old(run)@.mode)) ==> final(self).chooser()
                == old(self).chooser(),
    {
        if !run.begun && logits == 0 {
            return Err(GgufError::InferenceError(owned("logits 为空")));
        }
        let again = run.wants_token();
        if !again {
            match self.check_close(run) {
                Ok(_) => {},
                Err(e) => return Err(e),
            }
        }
        if !run.begun {
            match run.mode {
                Mode::Chat | Mode::CancellableChat => self.prime_sampler(),
                _ => {},
            }
        }
        run.begun = true;
        if again {
            Ok(Action::Choose)
        } else {
            Ok(self.conclude(run))
        }
    }

    /// Takes the token that was chosen, and counts it as seen.
    pub fn chosen(&mut self, run: &mut Generation, id: u32) -> (r: GgufResult<Action>)
        requires
            goes_on(old(run)@),
        ensures
            match after_choice(old(self)@, old(run)@, id) {
                Ok(step) => r is Ok && (final(self)@, final(run)@, r->Ok_0@) == step,
                Err(e) => r is Err && r->Err_0@ == e && *final(self) == *old(self) && *final(run)
                    == *old(run),
            },
            r is Ok && (r->Ok_0@ is Say || r->Ok_0@ is Feed) ==> final(run)@.output.len() > 0,
            r is Ok && in_context(old(run)@) ==> in_context(final(run)@) && ends_in_context(
                final(run)@,
                r->Ok_0@,
            ),
            old(run)@.eos == Some(id) ==> final(self).chooser() == old(self).chooser(),
            r is Ok && old(run)@.eos != Some(id) ==> {
                &&& final(self).chooser().settings() == old(self).chooser().settings()
                &&& final(self).chooser().generator() == old(self).chooser().generator()
                &&& final(self).chooser().counts() == recorded(old(self).chooser().counts(), id)
            },
    {
        let ends = match run.eos {
            Some(e) => e == id,
            None => false,
        };
        let possible = if ends {
            self.check_close(run)
        } else {
            run.check_room()
        };
        match possible {
            Ok(_) => {},
            Err(e) => return Err(e),
        }
        if run.take_token(&self.tokenizer, id) {
            self.sampler.record(id);
            Ok(self.tell(run))
        } else {
            Ok(self.conclude(run))
        }
    }

    /// Takes note that a text was told; `keep` says whether to go on.
    pub fn said(&mut self, run: &mut Generation, keep: bool) -> (r: Action)
        requires
            old(run)@.output.len() > 0,
        ensures
            after_telling(old(self)@, old(run)@, keep) == Ok::<
                (EngineView, GenerationView, ActionView),
                ErrorView,
            >((final(self)@, final(run)@, r@)),
            final(self).chooser() == old(self).chooser(),
            final(run)@.output == old(run)@.output,
            in_context(old(run)@) ==> in_context(final(run)@) && ends_in_context(final(run)@, r@),
    {
        let cancellable = match run.mode {
            Mode::CancellablePrompt | Mode::CancellableChat => true,
            _ => false,
        };
        if keep || !cancellable {
            return self.tell(run);
        }
        run.cancelled = true;
        run.pending = Vec::new();
        assert(run.pending@ =~= Seq::<u8>::empty());
        self.conclude(run)
    }

    /// A new dialogue: nothing was said and no token was seen. What the model holds of the old one
    /// is the caller's to forget.
    pub fn reset(&mut self)
        ensures
            final(self)@ == (EngineView { started: false, history: Seq::empty(), ..old(self)@ }),
            final(self).chooser().settings() == old(self).chooser().settings(),
            final(self).chooser().counts() == Map::<u32, u64>::empty(),
            old(self).chooser().settings().seed != 0 ==> final(self).chooser().generator()
                == seeded_generator(old(self).chooser().settings().seed),
    {
        self.sampler.reset();
        self.chat_prefilled = false;
        self.chat_history = Vec::new();
        assert(self@.history =~= Seq::<(Seq<char>, Seq<char>)>::empty());
    }
}

fn clone_history(h: &Vec<(String, String)>) -> (r: Vec<(String, String)>)
    ensures
        history_view(r@) == history_view(h@),
{
    let mut r: Vec<(String, String)> = Vec::new();
    let mut i: usize = 0;
    while i < h.len()
        invariant
            i <= h@.len(),
            history_view(r@) == history_view(h@).take(i as int),
        decreases h@.len() - i,
    {
        let ghost before = history_view(r@);
        r.push((owned(h[i].0.as_str()), owned(h[i].1.as_str())));
        i += 1;
        assert(history_view(r@) =~= before.push((h@[i - 1].0@, h@[i - 1].1@)));
        assert(history_view(r@) =~= history_view(h@).take(i as int));
    }
    assert(history_view(r@) =~= history_view(h@));
    r
}

// ---------------------------------------------------------------------------------------------
// Laws
// ---------------------------------------------------------------------------------------------

/// Whether a run has not chosen too many tokens, and none of them ends a text.
pub open spec fn within_bounds(g: GenerationView) -> bool {
    &&& g.output.len() <= g.max_tokens
    &&& g.eos is Some ==> !g.output.contains(g.eos->Some_0)
}

/// Whether the model can hold in view all that it was given.
pub open spec fn in_context(g: GenerationView) -> bool {
    g.limit is Some ==> used(g) <= g.limit->Some_0
}

/// Whether a run that is over ends in the model's view, with the token that closes it.
pub open spec fn ends_in_context(g: GenerationView, a: ActionView) -> bool {
    a matches ActionView::Done { closing, .. } ==> g.limit is Some ==> used(g) + (
    if closing is Some {
        1nat
    } else {
        0
    }) <= g.limit->Some_0
}

/// All that a run tells while tokens are chosen one by one, and the run after them. After each
/// token it tells text until nothing more can be told.
pub open spec fn told(g: GenerationView, t: TokenizerView, ids: Seq<u32>) -> (
    Seq<char>,
    GenerationView,
)
    decreases ids.len(),
{
    if ids.len() == 0 || !goes_on(g) {
        (Seq::empty(), g)
    } else {
        let h = after_token(g, t, ids[0]);
        if h.ended {
            (Seq::empty(), h)
        } else {
            let (text, rest) = drained(h.pending);
            let (more, end) = told(GenerationView { pending: rest, ..h }, t, ids.drop_first());
            (text + more, end)
        }
    }
}

/// Whether a token adds to the stream the bytes that it decodes to.
pub open spec fn streams_its_bytes(m: Mode, t: TokenizerView, id: u32) -> bool {
    streamed_bytes(style_of(m), string_at(t.strings, id)) == token_bytes(string_at(t.strings, id))
}

/// Where bytes are told character by character, every token adds to the stream the bytes that it
/// decodes to. Else those do all of whose characters stand for bytes.
pub proof fn streamed_as_decoded(m: Mode, t: TokenizerView, id: u32)
    requires
        is_chat(m) || all_bytes(string_at(t.strings, id)),
    ensures
        streams_its_bytes(m, t, id),
{
}

/// The bytes that tokens decode to, token by token.
spec fn token_pieces(t: TokenizerView, ids: Seq<u32>) -> Seq<Seq<u8>> {
    ids.map_values(|id: u32| token_bytes(string_at(t.strings, id)))
}

proof fn lemma_pieces_joined(t: TokenizerView, ids: Seq<u32>)
    ensures
        joined(token_pieces(t, ids)) == ids_bytes(t.strings, ids),
    decreases ids.len(),
{
    if ids.len() > 0 {
        let rest = ids.drop_first();
        let first = seq![ids[0]];
        lemma_pieces_joined(t, rest);
        bytes_of_parts(t.strings, first, rest);
        assert(first + rest =~= ids);
        assert(first.drop_last() =~= Seq::<u32>::empty());
        assert(first.last() == ids[0]);
        assert(ids_bytes(t.strings, first.drop_last()) =~= Seq::<u8>::empty());
        assert(ids_bytes(t.strings, first) =~= token_bytes(string_at(t.strings, ids[0])));
        assert(token_pieces(t, ids).drop_first() =~= token_pieces(t, rest));
    }
}

proof fn lemma_told_is_streamed(g: GenerationView, t: TokenizerView, ids: Seq<u32>)
    requires
        ids.len() > 0 ==> goes_on(g),
        g.output.len() + ids.len() <= g.max_tokens,
        forall|i: int| 0 <= i < ids.len() ==> g.eos != Some(#[trigger] ids[i]),
        forall|i: int|
            0 <= i < ids.len() ==> streams_its_bytes(g.mode, t, #[trigger] ids[i]),
    ensures
        ({
            let (text, end) = told(g, t, ids);
            &&& (text, end.pending) == streamed(g.pending, token_pieces(t, ids))
            &&& end.output == g.output + ids
        }),
    decreases ids.len(),
{
    if ids.len() == 0 {
        assert(g.output + ids =~= g.output);
    } else {
        let rest = ids.drop_first();
        let h = after_token(g, t, ids[0]);
        let bytes = token_bytes(string_at(t.strings, ids[0]));
        assert(streams_its_bytes(g.mode, t, ids[0]));
        assert(h.pending =~= g.pending + bytes);
        let next = GenerationView { pending: drained(h.pending).1, ..h };
        assert forall|i: int| 0 <= i < rest.len() implies g.eos != Some(#[trigger] rest[i])
            && streams_its_bytes(g.mode, t, rest[i]) by {
            assert(rest[i] == ids[i + 1]);
        }
        lemma_told_is_streamed(next, t, rest);
        assert(token_pieces(t, ids).drop_first() =~= token_pieces(t, rest));
        assert(token_pieces(t, ids)[0] == bytes);
        assert(g.output.push(ids[0]) + rest =~= g.output + ids);
    }
}

/// What a run tells bit by bit is what its tokens decode to: where a byte-level vocabulary decodes
/// them to valid UTF-8, the texts that were told are, one behind the other, the decoded text, and
/// nothing is held back at the end.
pub proof fn told_text_is_the_decoded_text(g: GenerationView, t: TokenizerView, ids: Seq<u32>)
    requires
        t.byte_level,
        g.pending.len() == 0,
        ids.len() > 0 ==> goes_on(g),
        g.output.len() + ids.len() <= g.max_tokens,
        forall|i: int| 0 <= i < ids.len() ==> g.eos != Some(#[trigger] ids[i]),
        forall|i: int|
            0 <= i < ids.len() ==> streams_its_bytes(g.mode, t, #[trigger] ids[i]),
        valid_utf8(ids_bytes(t.strings, ids)),
    ensures
        ({
            let (text, end) = told(g, t, ids);
            &&& text == decode_text(t, ids)
            &&& end.output == g.output + ids
            &&& end.pending.len() == 0
        }),
{
    lemma_told_is_streamed(g, t, ids);
    lemma_pieces_joined(t, ids);
    assert(g.pending =~= Seq::<u8>::empty());
    stream_is_whole_text(token_pieces(t, ids));
}

/// The first turn of a dialogue is any later turn with the system's message before it.
pub proof fn first_turn_adds_the_system_message(t: TokenizerView, text: Seq<char>)
    ensures
        turn_ids(t, false, text) == message(t, SYSTEM, "You are a helpful assistant."@) + turn_ids(
            t,
            true,
            text,
        ),
        turn_ids(t, true, text).len() > 0,
{
    assert(turn_ids(t, false, text) =~= message(t, SYSTEM, "You are a helpful assistant."@)
        + turn_ids(t, true, text));
}

/// A new dialogue is one with a new engine: whatever was said before leaves no trace.
pub proof fn reset_is_a_new_engine(f: FileView, before: EngineView)
    requires
        engine_of(f) is Ok,
        before.model == engine_of(f)->Ok_0.model,
        before.tokenizer == engine_of(f)->Ok_0.tokenizer,
    ensures
        (EngineView { started: false, history: Seq::empty(), ..before }) == engine_of(f)->Ok_0,
{
}

} // verus!
