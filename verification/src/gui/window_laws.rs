//! What the window shows after it was told something, and what its lists and answers mean.
use vstd::prelude::*;
use vstd::string::*;
use crate::error::{error_text, ErrorView};
use crate::file::FileView;
use crate::gui::app::{
    after_message, after_send, after_texts, after_unload, joined_texts, new_window, started,
    status_name, AppView, StreamingTarget, Tab,
};
use crate::gui::chat_view::{continued, ChatView};
use crate::gui::inference::{
    cell_text, cells_joined, end_of_run, loaded_info, plan_of, CommandView, LoadedView, MsgView,
    PlanView, Row,
};
use crate::gui::model_view::{
    answer_of, export_of, first_place, json_quoted, listed_pairs, lower_keys, lowercase, number_of,
    pair_lines_of, pair_names, places_with, row_objects, row_text, summary_lines_of, summary_names,
    summary_numbers, tensor_lines_of, tensor_names, ModelPanel,
};
use crate::gui::prompt_view::PromptView;
use crate::gui::settings::{chosen_config, default_settings, SettingsPanel};
use crate::gui::state::{AppState, GenStats, Role, SummaryView};
use crate::infer::model::hparams::HParamsView;
use crate::infer::model::hparams_laws::{first_pair_counts, is_integer, silent, states};
use crate::infer::sampler::SamplerConfig;
use crate::sizes::megabytes_text;
use crate::text::{dec, dec_int, has_part};
use crate::types::{GgufType, PieceView, ValueView};

verus! {

// ---------------------------------------------------------------------------------------------
// Messages
// ---------------------------------------------------------------------------------------------

/// A loaded model is shown with all that is told of it, in an empty dialogue; the settings stay.
pub proof fn loaded_model_is_shown(a: AppView, l: LoadedView, now: u128)
    ensures
        ({
            let b = after_message(a, MsgView::ModelLoaded(l), now);
            &&& b.app_state == AppState::Ready
            &&& b.model_name == l.name
            &&& b.model_summary is Some && b.model.summary == b.model_summary
            &&& b.model_summary->Some_0.name == l.name
            &&& b.model_summary->Some_0.arch == l.arch
            &&& b.model_summary->Some_0.model_name == l.model_name
            &&& b.model_summary->Some_0.gguf_version == l.gguf_version
            &&& b.model_summary->Some_0.alignment == l.alignment
            &&& b.model_summary->Some_0.data_offset == l.data_offset
            &&& b.model_summary->Some_0.file_size == l.file_size
            &&& b.model_summary->Some_0.tensor_count == l.tensor_count
            &&& b.model_summary->Some_0.kv_count == l.kv_count
            &&& b.model_summary->Some_0.load_ms == l.load_ms
            &&& b.model.kv_data == l.kv_data && b.model.tensor_data == l.tensor_data
            &&& b.model.vocab == l.vocab && b.model.vocab_size == l.vocab_size
            &&& b.model.embed_dim == l.embed_dim && b.model.ctx_limit == l.ctx_limit
            &&& b.stats.ctx_limit == l.ctx_limit && b.settings.stats.ctx_limit == l.ctx_limit
            &&& b.chat.messages.len() == 0 && !b.chat.ctx_exceeded
            &&& b.prompt.output.len() == 0
            &&& chosen_config(b.settings) == chosen_config(a.settings)
            &&& b.settings.max_tokens == a.settings.max_tokens
        }),
{
}

/// A run shows how many texts it told, how long it took and how much of the view is used; the time
/// is the window's own where it was timing the run.
pub proof fn run_is_counted_and_timed(
    a: AppView,
    target: StreamingTarget,
    texts: Seq<Seq<char>>,
    full_text: Seq<char>,
    elapsed_ms: u128,
    ctx_len: usize,
    ctx_limit: usize,
    token_count: usize,
    now: u128,
)
    requires
        texts.len() <= usize::MAX,
    ensures
        ({
            let done = MsgView::Done { full_text, elapsed_ms, ctx_len, ctx_limit, token_count };
            let b = after_message(after_texts(started(a, target), texts), done, now);
            &&& b.stats == GenStats {
                elapsed_ms: now,
                tokens: texts.len() as usize,
                ctx_len,
                ctx_limit,
            }
            &&& b.settings.stats == b.stats
            &&& b.app_state == AppState::Ready
            &&& after_message(AppView { timed: false, ..a }, done, now).stats.elapsed_ms
                == elapsed_ms
        }),
{
    lemma_counted(a, target, texts);
}

proof fn lemma_counted(a: AppView, target: StreamingTarget, texts: Seq<Seq<char>>)
    requires
        texts.len() <= usize::MAX,
    ensures
        after_texts(started(a, target), texts).stream_token_count == texts.len(),
        after_texts(started(a, target), texts).timed,
        after_texts(started(a, target), texts).streaming_target == target,
        after_texts(started(a, target), texts).prompt.stream == a.prompt.stream,
    decreases texts.len(),
{
    if texts.len() > 0 {
        lemma_counted(a, target, texts.drop_last());
    }
}

/// The output of a prompt's run is all its text behind what was there; where it is not shown as it
/// is written, it is the whole result at the end.
pub proof fn prompt_shows_its_text(
    a: AppView,
    texts: Seq<Seq<char>>,
    full_text: Seq<char>,
    now: u128,
)
    requires
        texts.len() <= usize::MAX,
    ensures
        ({
            let b = after_texts(started(a, StreamingTarget::Prompt), texts);
            let done = MsgView::Done {
                full_text,
                elapsed_ms: 0,
                ctx_len: 0,
                ctx_limit: 0,
                token_count: 0,
            };
            &&& b.prompt.output == a.prompt.output + joined_texts(texts)
            &&& b.chat == a.chat
            &&& a.prompt.stream ==> after_message(b, done, now).prompt.output == b.prompt.output
            &&& !a.prompt.stream ==> after_message(b, done, now).prompt.output == full_text
        }),
    decreases texts.len(),
{
    lemma_counted(a, StreamingTarget::Prompt, texts);
    if texts.len() == 0 {
        assert(a.prompt.output + joined_texts(texts) =~= a.prompt.output);
    } else {
        prompt_shows_its_text(a, texts.drop_last(), full_text, now);
        let before = after_texts(started(a, StreamingTarget::Prompt), texts.drop_last());
        lemma_counted(a, StreamingTarget::Prompt, texts.drop_last());
        assert(before.prompt.output + texts.last() =~= a.prompt.output + joined_texts(texts));
    }
}

/// What goes wrong is shown. While a reply is being written the reply ends with it, and the dialogue
/// counts as too long where the message says so; at any other time the dialogue stays.
pub proof fn errors_are_shown(a: AppView, message: Seq<char>, now: u128, said: Seq<char>)
    ensures
        ({
            let b = after_message(a, MsgView::Error { message }, now);
            &&& b.app_state == AppState::Error
            &&& b.error_msg == message
            &&& a.streaming_target != StreamingTarget::Chat ==> b.chat == a.chat
            &&& a.streaming_target == StreamingTarget::Chat && a.chat.messages.len() > 0
                && a.chat.messages.last() == (Role::Assistant, said) ==> b.chat.messages
                == a.chat.messages.drop_last().push((Role::Assistant, said + ("\n⚠️ "@ + message)))
            &&& a.streaming_target == StreamingTarget::Chat ==> (b.chat.ctx_exceeded
                <==> a.chat.ctx_exceeded || has_part(message, "上下文超出"@))
        }),
        ({
            let b = after_message(a, MsgView::LoadError { message }, now);
            b == AppView { app_state: AppState::Error, error_msg: message, ..a }
        }),
{
}

/// A run that was stopped says so until the next one begins; a new dialogue clears the numbers.
pub proof fn stopping_is_shown(a: AppView, text: Seq<char>, now: u128)
    ensures
        ({
            let b = after_message(a, MsgView::Stopped, now);
            &&& b.app_state == AppState::Ready
            &&& status_name(b) == "已停止"@
            &&& status_name(after_send(b, text)) == "🟡 生成中"@
            &&& b.chat == a.chat && b.prompt == a.prompt
        }),
        ({
            let b = after_message(a, MsgView::ResetDone, now);
            &&& b.stats.elapsed_ms == 0 && b.stats.tokens == 0 && b.stats.ctx_len == 0
            &&& b.app_state == AppState::Ready
        }),
{
}

/// Without its model the window is a new one, but for its settings and what it was told last.
pub proof fn unloaded_window_is_empty(a: AppView)
    ensures
        ({
            let (b, n) = (after_unload(a), new_window());
            &&& b.app_state == AppState::Idle && n.app_state == AppState::Idle
            &&& b.model_summary is None && n.model_summary is None
            &&& b.chat == n.chat && b.prompt == n.prompt && b.model == n.model
            &&& b.model_name == n.model_name && b.error_msg == n.error_msg
            &&& b.settings == a.settings
            &&& b.chat.messages.len() == 0 && b.chat.input.len() == 0 && !b.chat.ctx_exceeded
            &&& b.prompt.input_text.len() == 0 && b.prompt.output.len() == 0
            &&& b.model.kv_data.len() == 0 && b.model.tensor_data.len() == 0
            &&& b.model.vocab.len() == 0 && b.model.summary is None
        }),
{
}

/// Text goes behind what the assistant says last, and nowhere where the user spoke last.
pub proof fn text_continues_the_reply(
    messages: Seq<(Role, Seq<char>)>,
    said: Seq<char>,
    text: Seq<char>,
)
    ensures
        continued(messages.push((Role::Assistant, said)), text) == messages.push(
            (Role::Assistant, said + text),
        ),
        continued(messages.push((Role::User, said)), text) == messages.push((Role::User, said)),
        continued(Seq::empty(), text) == Seq::<(Role, Seq<char>)>::empty(),
{
    assert(messages.push((Role::Assistant, said)).drop_last() =~= messages);
}

/// The settings choose tokens as they say, and only the switch for the likeliest token overrules
/// them.
pub proof fn settings_choose_as_they_say(s: SettingsPanel)
    ensures
        !s.greedy ==> ({
            let c = chosen_config(s);
            &&& c.temperature == s.temperature && c.top_k == s.top_k && c.top_p == s.top_p
            &&& c.min_p == s.min_p && c.repeat_penalty == s.repeat_penalty
        }),
        s.greedy ==> chosen_config(s).temperature == 0 && chosen_config(s).repeat_penalty
            == 0x3f80_0000,
        chosen_config(s).seed == s.seed,
        default_settings().temperature == 0x3f4c_cccd,
        default_settings().top_k == 40,
        default_settings().top_p == 0x3f73_3333,
        default_settings().min_p == 0,
        default_settings().repeat_penalty == 0x3f8c_cccd,
        default_settings().max_tokens == 512,
        !default_settings().greedy,
{
}

// ---------------------------------------------------------------------------------------------
// Commands
// ---------------------------------------------------------------------------------------------

/// What needs a model is refused without one and planned as it was asked for with one; a model is
/// loaded in either case.
pub proof fn commands_are_planned_as_asked(
    text: Seq<char>,
    max_tokens: usize,
    sampler: SamplerConfig,
    stream: bool,
    loaded: bool,
)
    ensures
        plan_of(CommandView::LoadModel { path: text, sampler }, loaded) == (PlanView::Load {
            path: text,
            sampler,
        }),
        plan_of(CommandView::Prompt { text, max_tokens, sampler, stream }, false) is Refuse,
        plan_of(CommandView::Chat { text, max_tokens, sampler }, false) is Refuse,
        plan_of(CommandView::Prompt { text, max_tokens, sampler, stream }, true) == (
        PlanView::Complete { text, max_tokens, sampler, stream }),
        plan_of(CommandView::Chat { text, max_tokens, sampler }, true) == (PlanView::Answer {
            text,
            max_tokens,
            sampler,
        }),
        plan_of(CommandView::Reset, loaded) is Forget <==> loaded,
        plan_of(CommandView::Unload, loaded) is Release <==> loaded,
        plan_of(CommandView::Reset, false) is Nothing,
        plan_of(CommandView::Unload, false) is Nothing,
        plan_of(CommandView::Quit, loaded) is Nothing,
{
}

/// A run that failed tells its error even where it was stopped; one that was stopped tells that, and
/// any other its text. A prompt's run tells the number of tokens that it was allowed.
pub proof fn end_of_run_is_told(
    plan: PlanView,
    text: Seq<char>,
    e: ErrorView,
    stopped: bool,
    elapsed_ms: u128,
    held: usize,
    ctx_limit: usize,
)
    ensures
        end_of_run(plan, Err(e), stopped, elapsed_ms, held, ctx_limit) == (MsgView::Error {
            message: error_text(e),
        }),
        end_of_run(plan, Ok(text), true, elapsed_ms, held, ctx_limit) is Stopped,
        end_of_run(plan, Ok(text), false, elapsed_ms, held, ctx_limit) == (MsgView::Done {
            full_text: text,
            elapsed_ms,
            ctx_len: held,
            ctx_limit,
            token_count: if plan is Complete {
                plan->Complete_max_tokens
            } else {
                0
            },
        }),
{
}

/// What is told of a loaded model is what its file and its sizes say; the file's name stands in for
/// a model without a name.
pub proof fn loaded_info_tells_the_file(
    f: FileView,
    h: HParamsView,
    file_name: Seq<char>,
    load_ms: u128,
    kv_data: Seq<Row>,
    vocab: Seq<Seq<char>>,
    i: int,
)
    requires
        f.tensors.len() <= usize::MAX,
        f.kv.len() <= usize::MAX,
    ensures
        ({
            let l = loaded_info(f, h, file_name, load_ms, kv_data, vocab);
            &&& forall|s: Seq<char>|
                states(f.kv, "general.name"@, ValueView::String(s)) ==> l.name == s && l.model_name
                    == s
            &&& silent(f.kv, "general.name"@) ==> l.name == file_name && l.model_name.len() == 0
            &&& l.arch == h.arch && l.layers == h.n_layers && l.embed_dim == h.embed_dim
            &&& l.vocab_size == h.vocab_size && l.ctx_limit == h.context_length
            &&& l.tensor_count == f.tensors.len() && l.kv_count == f.kv.len()
            &&& l.gguf_version == f.header.version && l.alignment == f.alignment
            &&& l.data_offset == f.data_offset && l.file_size == f.file_size
            &&& l.load_ms == load_ms && l.kv_data == kv_data && l.vocab == vocab
            &&& l.tensor_data.len() == f.tensors.len()
            &&& 0 <= i < f.tensors.len() ==> l.tensor_data[i].0 == f.tensors[i].name
        }),
{
    first_pair_counts(f.kv, "general.name"@);
}

// ---------------------------------------------------------------------------------------------
// Lists
// ---------------------------------------------------------------------------------------------

/// A pair is listed exactly where its key, in lower case, holds what is searched for, in lower
/// case; where nothing is searched for all are.
pub proof fn searched_pairs_are_listed(m: ModelPanel, i: int)
    requires
        0 <= i < m.kv_data.len() <= usize::MAX,
    ensures
        m.kv_search.len() == 0 ==> listed_pairs(m).len() == m.kv_data.len() && listed_pairs(m)[i]
            == i,
        m.kv_search.len() > 0 ==> (listed_pairs(m).contains(i as usize) <==> has_part(
            lowercase(m.kv_data[i].0),
            lowercase(m.kv_search),
        )),
        listed_pairs(m).len() == 0 ==> pair_lines_of(m) == seq!["(无匹配项)"@],
        listed_pairs(m).len() > 0 ==> pair_lines_of(m).len() == listed_pairs(m).len(),
{
    lemma_places(lower_keys(m.kv_data), lowercase(m.kv_search), m.kv_data.len(), i);
}

proof fn lemma_places(keys: Seq<Seq<char>>, part: Seq<char>, n: nat, i: int)
    requires
        n <= keys.len() <= usize::MAX,
        0 <= i < keys.len(),
    ensures
        places_with(keys, part, n).contains(i as usize) <==> i < n && has_part(keys[i], part),
    decreases n,
{
    if n > 0 {
        let rest = places_with(keys, part, (n - 1) as nat);
        let all = places_with(keys, part, n);
        lemma_places(keys, part, (n - 1) as nat, i);
        if has_part(keys[n - 1], part) {
            assert(all[rest.len() as int] == n - 1);
            if rest.contains(i as usize) {
                let k = choose|k: int| 0 <= k < rest.len() && rest[k] == i as usize;
                assert(all[k] == i as usize);
            }
            if all.contains(i as usize) {
                let k = choose|k: int| 0 <= k < all.len() && all[k] == i as usize;
                if k < rest.len() {
                    assert(rest[k] == i as usize);
                }
            }
        }
    }
}

/// Up to fifty tensors, or all where that is asked for, have their lines; one more line says how
/// many are left out.
pub proof fn tensors_have_their_lines(m: ModelPanel, i: int)
    ensures
        m.show_all_tensors || m.tensor_data.len() <= 50 ==> tensor_lines_of(m).len()
            == m.tensor_data.len(),
        !m.show_all_tensors && m.tensor_data.len() > 50 ==> tensor_lines_of(m).len() == 51
            && tensor_lines_of(m)[50] == "... 还有 "@ + dec((m.tensor_data.len() - 50) as nat)
            + " 个张量 (勾选\"显示全部\"查看)"@,
        0 <= i < m.tensor_data.len() && i < 50 ==> tensor_lines_of(m)[i] == row_text(
            m.tensor_data[i],
            50,
            25,
        ),
{
}

/// The lines of the summary that are always there are ten; each size that is known adds one.
pub proof fn known_sizes_add_lines(s: SummaryView, m: ModelPanel)
    ensures
        summary_lines_of(s, m).len() == 10 + (if m.vocab_size > 0 {
            1int
        } else {
            0
        }) + (if m.embed_dim > 0 {
            1int
        } else {
            0
        }) + (if m.ctx_limit > 0 {
            1int
        } else {
            0
        }),
        m.ctx_limit > 0 ==> summary_lines_of(s, m).last() == "上下文长度: "@ + dec(
            m.ctx_limit as nat,
        ),
        m.vocab_size > 0 ==> summary_lines_of(s, m)[10] == "词表大小: "@ + dec(m.vocab_size as nat),
{
}

// ---------------------------------------------------------------------------------------------
// Answers
// ---------------------------------------------------------------------------------------------

/// A number's own text is read as that number, and a text with anything but digits is no number.
pub proof fn typed_numbers_are_read(n: nat, s: Seq<char>, i: int)
    ensures
        number_of(dec(n)) == Some(n),
        0 <= i < s.len() && (s[i] < '0' || s[i] > '9') ==> number_of(s) is None,
        s.len() == 0 ==> number_of(s) is None,
{
    lemma_reads(n);
    if 0 <= i < s.len() && (s[i] < '0' || s[i] > '9') {
        lemma_no_number(s, i);
    }
}

proof fn lemma_reads(n: nat)
    ensures
        number_of(dec(n)) == Some(n),
        dec(n).len() > 0,
    decreases n,
{
    if n >= 10 {
        lemma_reads(n / 10);
        assert(dec(n).drop_last() =~= dec(n / 10));
    }
}

proof fn lemma_no_digit(c: char)
    requires
        c < '0' || c > '9',
    ensures
        c as u32 - 48 < 0 || c as u32 - 48 >= 10,
{
}

proof fn lemma_no_number(s: Seq<char>, i: int)
    requires
        0 <= i < s.len(),
        (s[i] < '0' || s[i] > '9'),
    ensures
        number_of(s) is None,
    decreases s.len(),
{
    if i < s.len() - 1 {
        assert(s.drop_last()[i] == s[i]);
        lemma_no_number(s.drop_last(), i);
    } else {
        lemma_no_digit(s.last());
    }
}

/// The place of a token is the first where it stands in the vocabulary.
pub proof fn token_is_found_first(v: Seq<Seq<char>>, s: Seq<char>)
    ensures
        match first_place(v, s) {
            Some(i) => 0 <= i < v.len() && v[i] == s && (forall|j: int|
                0 <= j < i ==> #[trigger] v[j] != s),
            None => !v.contains(s),
        },
    decreases v.len(),
{
    if v.len() > 0 && v[0] != s {
        let rest = v.drop_first();
        token_is_found_first(rest, s);
        match first_place(rest, s) {
            Some(i) => {
                assert forall|j: int| 0 <= j < i + 1 implies #[trigger] v[j] != s by {
                    if j > 0 {
                        assert(rest[j - 1] == v[j]);
                    }
                }
            },
            None => {
                if v.contains(s) {
                    let j = choose|j: int| 0 <= j < v.len() && v[j] == s;
                    assert(rest[j - 1] == s);
                }
            },
        }
    }
}

/// Asked for an id of the vocabulary, the window answers with its token; asked for a token, with an
/// id at which it stands. An id goes before a token, and what is not there is not found.
pub proof fn questions_are_answered(m: ModelPanel, n: nat)
    ensures
        m.token_id_query == dec(n) && n < m.vocab.len() ==> answer_of(m) == "ID="@ + dec(n)
            + "  字符串=\""@ + m.vocab[n as int] + "\""@,
        m.token_id_query == dec(n) && n >= m.vocab.len() ==> answer_of(m) == "未找到"@,
        m.token_id_query.len() == 0 && !m.vocab.contains(m.token_str_query) ==> answer_of(m)
            == "未找到"@,
        m.token_id_query.len() == 0 && m.vocab.contains(m.token_str_query) ==> exists|i: int|
            0 <= i < m.vocab.len() && #[trigger] m.vocab[i] == m.token_str_query && answer_of(m)
                == "ID="@ + dec(i as nat) + "  字符串=\""@ + m.token_str_query + "\""@,
{
    lemma_reads(n);
    token_is_found_first(m.vocab, m.token_str_query);
    if m.token_id_query.len() == 0 && m.vocab.contains(m.token_str_query) {
        let i = first_place(m.vocab, m.token_str_query)->Some_0;
        assert(m.vocab[i] == m.token_str_query);
    }
}

/// Without a model nothing is exported but an empty object.
pub proof fn empty_export_is_an_object(m: ModelPanel)
    ensures
        m.summary is None <==> export_of(m) == "{}"@,
{
    reveal_strlit("{}");
    if m.summary is Some {
        reveal_strlit("{\n  \"summary\": {\n    \"name\": ");
        assert(export_of(m)[1] == '\n');
    }
}

/// In a cell an integer is its digits, a string is itself and a truth value its word; a long array
/// shows what the array of its first eight elements shows, and that there are more.
pub proof fn cells_show_values(v: ValueView, n: int, ty: GgufType, data: Seq<ValueView>)
    ensures
        is_integer(v, n) ==> cell_text(v) == seq![PieceView::Text(dec_int(n))],
        v matches ValueView::String(s) ==> cell_text(v) == seq![PieceView::Text(s)],
        cell_text(ValueView::Bool(true)) == seq![PieceView::Text("true"@)],
        cell_text(ValueView::Bool(false)) == seq![PieceView::Text("false"@)],
        data.len() > 8 ==> ({
            let whole = cell_text(ValueView::Array(ty, data));
            let first = cell_text(ValueView::Array(ty, data.take(8)));
            &&& whole.drop_last() == first.drop_last()
            &&& whole.last() == PieceView::Text(", ...]"@)
            &&& first.last() == PieceView::Text("]"@)
        }),
{
    if data.len() > 8 {
        let whole = cell_text(ValueView::Array(ty, data));
        let first = cell_text(ValueView::Array(ty, data.take(8)));
        lemma_same_cells(data, 8);
        assert(whole.drop_last() =~= seq![PieceView::Text("["@)] + cells_joined(data, 8));
        assert(first.drop_last() =~= seq![PieceView::Text("["@)] + cells_joined(data.take(8), 8));
    }
}

proof fn lemma_same_cells(data: Seq<ValueView>, k: nat)
    requires
        k <= 8 <= data.len(),
    ensures
        cells_joined(data, k) == cells_joined(data.take(8), k),
    decreases k,
{
    if k > 0 {
        lemma_same_cells(data, (k - 1) as nat);
        assert(data.take(8)[k - 1] == data[k - 1]);
        assert(data.take(8)[0] == data[0]);
    }
}

/// A new window has no model, an empty dialogue and prompt, shows the dialogue, and has stopped
/// nothing; a run that was not stopped ends ready.
pub proof fn unstopped_windows_are_ready(
    a: AppView,
    target: StreamingTarget,
    texts: Seq<Seq<char>>,
    full_text: Seq<char>,
    now: u128,
)
    requires
        texts.len() <= usize::MAX,
    ensures
        !new_window().stopped && !new_window().timed && new_window().stream_token_count == 0,
        new_window().tab == Tab::Chat && new_window().settings == default_settings(),
        new_window().streaming_target == StreamingTarget::Nowhere,
        new_window().stats == (GenStats { elapsed_ms: 0, tokens: 0, ctx_len: 0, ctx_limit: 0 }),
        status_name(new_window()) == "⚪ 未加载模型"@,
        !after_unload(a).stopped && status_name(after_unload(a)) == "⚪ 未加载模型"@,
        ({
            let done = MsgView::Done {
                full_text,
                elapsed_ms: 0,
                ctx_len: 0,
                ctx_limit: 0,
                token_count: 0,
            };
            status_name(after_message(after_texts(started(a, target), texts), done, now))
                == "🟢 就绪"@
        }),
        status_name(after_message(a, MsgView::Error { message: full_text }, now)) == "🔴 错误"@,
        status_name(started(a, target)) == "🟡 生成中"@,
{
    lemma_not_stopped(a, target, texts);
}

proof fn lemma_not_stopped(a: AppView, target: StreamingTarget, texts: Seq<Seq<char>>)
    ensures
        !after_texts(started(a, target), texts).stopped,
    decreases texts.len(),
{
    if texts.len() > 0 {
        lemma_not_stopped(a, target, texts.drop_last());
    }
}

/// Exported, a pair is an object with its key, its type and its value, and a tensor one with its
/// name, its shape and its type; the rows stand one below the other with commas between them.
pub proof fn rows_are_exported_by_name(rows: Seq<Row>, n: nat)
    requires
        2 <= n <= rows.len(),
    ensures
        row_objects(pair_names(), rows, 1) == "    {"@ + "\"key\": "@ + json_quoted(rows[0].0)
            + ", \"type\": "@ + json_quoted(rows[0].1) + ", \"value\": "@ + json_quoted(rows[0].2)
            + "}"@,
        row_objects(tensor_names(), rows, 1) == "    {"@ + "\"name\": "@ + json_quoted(rows[0].0)
            + ", \"shape\": "@ + json_quoted(rows[0].1) + ", \"dtype\": "@ + json_quoted(rows[0].2)
            + "}"@,
        row_objects(pair_names(), rows, n) == row_objects(pair_names(), rows, (n - 1) as nat)
            + ",\n"@ + row_objects(pair_names(), rows.skip(n - 1), 1),
        row_objects(tensor_names(), rows, n) == row_objects(tensor_names(), rows, (n - 1) as nat)
            + ",\n"@ + row_objects(tensor_names(), rows.skip(n - 1), 1),
{
}

/// The exported summary holds every number of the summary under its name.
pub proof fn summary_is_exported_by_name(s: SummaryView)
    ensures
        summary_numbers(s) == ",\n    \"gguf_version\": "@ + dec(s.gguf_version as nat)
            + ",\n    \"alignment\": "@ + dec(s.alignment as nat) + ",\n    \"data_offset\": "@
            + dec(s.data_offset as nat) + ",\n    \"file_size\": "@ + dec(s.file_size as nat)
            + ",\n    \"tensor_count\": "@ + dec(s.tensor_count as nat) + ",\n    \"kv_count\": "@
            + dec(s.kv_count as nat) + ",\n    \"load_ms\": "@ + dec(s.load_ms as nat),
        summary_names(s) == "{\n  \"summary\": {\n    \"name\": "@ + json_quoted(s.name)
            + ",\n    \"arch\": "@ + json_quoted(s.arch) + ",\n    \"model_name\": "@
            + json_quoted(s.model_name),
{
}

/// The lines that the window shows of a file tell its numbers, each under its own name.
pub proof fn window_summary_tells_the_file(s: SummaryView, m: ModelPanel)
    ensures
        summary_lines_of(s, m)[0] == "文件名: "@ + s.name,
        summary_lines_of(s, m)[1] == "架构: "@ + s.arch,
        summary_lines_of(s, m)[2] == "模型名: "@ + s.model_name,
        summary_lines_of(s, m)[3] == "GGUF 版本: "@ + dec(s.gguf_version as nat),
        summary_lines_of(s, m)[4] == "对齐: "@ + dec(s.alignment as nat),
        summary_lines_of(s, m)[5] == "数据偏移: "@ + dec(s.data_offset as nat),
        summary_lines_of(s, m)[6] == "文件大小: "@ + megabytes_text(s.file_size) + " MB"@,
        summary_lines_of(s, m)[7] == "张量数: "@ + dec(s.tensor_count as nat),
        summary_lines_of(s, m)[8] == "KV 数: "@ + dec(s.kv_count as nat),
        summary_lines_of(s, m)[9] == "加载耗时: "@ + dec(s.load_ms as nat) + " ms"@,
        m.embed_dim > 0 && m.vocab_size == 0 ==> summary_lines_of(s, m)[10] == "隐藏维度: "@ + dec(
            m.embed_dim as nat,
        ),
{
}

/// A prompt can be run exactly where a model is loaded and nothing runs, and one is running only
/// while its text is written.
pub proof fn prompt_buttons_follow_the_state(
    state: AppState,
    target: StreamingTarget,
    r: (bool, bool),
    chat: bool,
)
    requires
        call_ensures(PromptView::buttons, (state, target), r),
        call_ensures(ChatView::is_generating, (state, target), chat),
    ensures
        r.0 <==> state == AppState::Ready,
        r.1 ==> state == AppState::Generating && !r.0 && !chat,
        chat ==> state == AppState::Generating && target == StreamingTarget::Chat,
        state == AppState::Generating && target == StreamingTarget::Prompt ==> r.1,
        state == AppState::Generating && target == StreamingTarget::Chat ==> chat,
{
}

/// A row shows its three cells, the first two in columns of their widths.
pub proof fn rows_stand_in_columns(row: Row, first: nat, second: nat)
    requires
        row.0.len() <= first,
        row.1.len() <= second,
    ensures
        row_text(row, first as int, second as int).len() == first + second + 2 + row.2.len(),
        row_text(row, first as int, second as int).take(row.0.len() as int) == row.0,
        row_text(row, first as int, second as int).subrange(
            first as int + 1,
            first as int + 1 + row.1.len(),
        ) == row.1,
        row_text(row, first as int, second as int).skip(first as int + second + 2) == row.2,
{
    reveal_strlit(" ");
    let s = row_text(row, first as int, second as int);
    assert(s.take(row.0.len() as int) =~= row.0);
    assert(s.subrange(first as int + 1, first as int + 1 + row.1.len()) =~= row.1);
    assert(s.skip(first as int + second + 2) =~= row.2);
}

/// Nothing is searched for or asked, and not all tensors are shown, before a model is loaded.
pub proof fn new_window_asks_nothing()
    ensures
        new_window().model.kv_search.len() == 0,
        new_window().model.token_id_query.len() == 0,
        new_window().model.token_str_query.len() == 0,
        new_window().model.token_result.len() == 0,
        !new_window().model.show_all_tensors,
        new_window().model.ctx_limit == 0,
        new_window().model.vocab_size == 0,
        !new_window().prompt.stream,
        !new_window().prompt.greedy,
{
}

} // verus!
