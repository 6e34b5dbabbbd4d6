//! What the model is given for a turn, and what becomes of each token that it chooses.
use vstd::prelude::*;
use vstd::string::*;
use vstd::utf8::*;
use crate::error::{ErrorView, GgufResult};
use crate::infer::bytes_to_unicode::char_byte;
use crate::infer::engine::{
    after_choice, after_feed, after_telling, recorded_all, recorded_history, too_long, turn_ids,
    Action, ActionView, Engine, EngineView, Generation, GenerationView, Mode,
};
use crate::infer::stream::{complete_end, next_text_of, streamed_bytes, ByteStyle};
use crate::infer::tokenizer::{decode_text, encode_ids, token_bytes, TokenizerView};
use crate::text::dec;

verus! {

// ---------------------------------------------------------------------------------------------
// A turn
// ---------------------------------------------------------------------------------------------

/// A turn is the user's message between the marks of a message, then the mark and the word that
/// ask for the reply. The first turn has the system's message before it.
pub proof fn turn_is_marked_up(t: TokenizerView, text: Seq<char>)
    ensures
        ({
            let line = encode_ids(t, "\n"@);
            &&& turn_ids(t, true, text) == seq![151644u32, 872u32] + line + encode_ids(t, text)
                + seq![151645u32] + line + seq![151644u32, 77091u32] + line
            &&& turn_ids(t, false, text) == seq![151644u32, 8948u32] + line + encode_ids(
                t,
                "You are a helpful assistant."@,
            ) + seq![151645u32] + line + turn_ids(t, true, text)
        }),
{
    let line = encode_ids(t, "\n"@);
    assert(turn_ids(t, true, text) =~= seq![151644u32, 872u32] + line + encode_ids(t, text)
        + seq![151645u32] + line + seq![151644u32, 77091u32] + line);
    assert(turn_ids(t, false, text) =~= seq![151644u32, 8948u32] + line + encode_ids(
        t,
        "You are a helpful assistant."@,
    ) + seq![151645u32] + line + turn_ids(t, true, text));
}

/// How often a token stands among others.
pub open spec fn times(ids: Seq<u32>, id: u32) -> nat
    decreases ids.len(),
{
    if ids.len() == 0 {
        0
    } else {
        times(ids.drop_last(), id) + if ids.last() == id {
            1nat
        } else {
            0
        }
    }
}

/// How often a token was counted.
pub open spec fn counted(seen: Map<u32, u64>, id: u32) -> nat {
    if seen.contains_key(id) {
        seen[id] as nat
    } else {
        0
    }
}

/// Counting tokens adds to the count of each how often it stands among them.
pub proof fn each_token_is_counted(seen: Map<u32, u64>, ids: Seq<u32>, id: u32)
    requires
        counted(seen, id) + ids.len() <= u64::MAX,
    ensures
        counted(recorded_all(seen, ids), id) == counted(seen, id) + times(ids, id),
        times(ids, id) <= ids.len(),
    decreases ids.len(),
{
    if ids.len() > 0 {
        each_token_is_counted(seen, ids.drop_last(), id);
    }
}

/// All tokens of a dialogue's messages, the asked and the answered in turn.
pub open spec fn dialogue_ids(t: TokenizerView, history: Seq<(Seq<char>, Seq<char>)>) -> Seq<u32>
    decreases history.len(),
{
    if history.len() == 0 {
        Seq::empty()
    } else {
        dialogue_ids(t, history.drop_last()) + encode_ids(t, history.last().0) + encode_ids(
            t,
            history.last().1,
        )
    }
}

/// A dialogue counts each token as often as it stands in all of its messages.
pub proof fn dialogue_counts_its_tokens(
    t: TokenizerView,
    history: Seq<(Seq<char>, Seq<char>)>,
    id: u32,
)
    requires
        dialogue_ids(t, history).len() <= u64::MAX,
    ensures
        counted(recorded_history(t, Map::empty(), history), id) == times(
            dialogue_ids(t, history),
            id,
        ),
    decreases history.len(),
{
    if history.len() > 0 {
        let front = history.drop_last();
        let (asked, answered) = (
            encode_ids(t, history.last().0),
            encode_ids(t, history.last().1),
        );
        dialogue_counts_its_tokens(t, front, id);
        lemma_times(dialogue_ids(t, front), asked, id);
        lemma_times(dialogue_ids(t, front) + asked, answered, id);
        lemma_few(dialogue_ids(t, front), id);
        let before = recorded_history(t, Map::empty(), front);
        each_token_is_counted(before, asked, id);
        each_token_is_counted(recorded_all(before, asked), answered, id);
    }
}

proof fn lemma_few(ids: Seq<u32>, id: u32)
    ensures
        times(ids, id) <= ids.len(),
    decreases ids.len(),
{
    if ids.len() > 0 {
        lemma_few(ids.drop_last(), id);
    }
}

proof fn lemma_times(a: Seq<u32>, b: Seq<u32>, id: u32)
    ensures
        times(a + b, id) == times(a, id) + times(b, id),
    decreases b.len(),
{
    if b.len() == 0 {
        assert(a + b =~= a);
    } else {
        lemma_times(a, b.drop_last(), id);
        assert((a + b).drop_last() =~= a + b.drop_last());
    }
}

// ---------------------------------------------------------------------------------------------
// The steps of a run
// ---------------------------------------------------------------------------------------------

/// Whether a run is one of a dialogue.
pub open spec fn answers(g: GenerationView) -> bool {
    g.mode == Mode::Chat || g.mode == Mode::CancellableChat
}

/// Whether a run of a dialogue has no room left for a token: what was there before, the turn and
/// the tokens chosen so far are as many as the model can hold in view.
pub open spec fn no_room(g: GenerationView) -> bool {
    g.limit matches Some(n) && g.cached + g.prompt.len() + g.output.len() >= n
}

/// The model must answer the prompt; once it has, it is asked for a token until as many were chosen
/// as were asked for.
pub proof fn feeding_asks_for_a_token(e: EngineView, g: GenerationView, logits: nat)
    requires
        !g.ended,
        !g.cancelled,
    ensures
        !g.begun && logits == 0 ==> after_feed(e, g, logits) is Err,
        (g.begun || logits > 0) && g.output.len() < g.max_tokens ==> after_feed(e, g, logits) == Ok::<
            (EngineView, GenerationView, ActionView),
            ErrorView,
        >((e, (GenerationView { begun: true, ..g }), ActionView::Choose)),
        (g.begun || logits > 0) && g.output.len() >= g.max_tokens && !answers(g) ==> after_feed(
            e,
            g,
            logits,
        ) is Ok && after_feed(e, g, logits)->Ok_0.2 is Done,
{
}

/// The token that ends a text is no part of it: the run is over with what was chosen before.
pub proof fn end_token_ends_the_run(e: EngineView, g: GenerationView, id: u32)
    requires
        g.eos == Some(id),
        !g.cancelled,
    ensures
        !answers(g) ==> after_choice(e, g, id) is Ok,
        answers(g) ==> (after_choice(e, g, id) is Err <==> no_room(g)),
        after_choice(e, g, id) is Ok ==> {
            let (after, run, action) = after_choice(e, g, id)->Ok_0;
            &&& run.output == g.output
            &&& action is Done
            &&& answers(g) ==> after.history == e.history.push(
                (g.message, decode_text(e.tokenizer, g.output)),
            )
            &&& !answers(g) ==> after == e
        },
{
}

/// Any other token becomes part of the output and its text is told, or it goes to the model at
/// once; it is refused only where a dialogue has no room left.
pub proof fn token_joins_the_output(e: EngineView, g: GenerationView, id: u32)
    requires
        g.eos != Some(id),
    ensures
        after_choice(e, g, id) is Err <==> no_room(g),
        after_choice(e, g, id) is Ok ==> {
            let (after, run, action) = after_choice(e, g, id)->Ok_0;
            &&& after == e
            &&& run.output == g.output.push(id)
            &&& run.prompt == g.prompt
            &&& action is Say || action is Feed
            &&& action matches ActionView::Say { id: told, .. } ==> told == id
            &&& action matches ActionView::Feed { ids, fresh } ==> ids == seq![id] && !fresh
        },
{
}

/// A run that may be broken off is over once its text is no longer wanted, and is not closed; any
/// other goes on as if it were wanted.
pub proof fn unwanted_text_breaks_off(e: EngineView, g: GenerationView)
    requires
        g.output.len() > 0,
    ensures
        g.mode == Mode::Prompt || g.mode == Mode::Chat ==> after_telling(e, g, false)
            == after_telling(e, g, true),
        g.mode == Mode::CancellablePrompt || g.mode == Mode::CancellableChat ==> {
            &&& after_telling(e, g, false) is Ok
            &&& after_telling(e, g, false)->Ok_0.1.cancelled
            &&& after_telling(e, g, false)->Ok_0.1.output == g.output
            &&& after_telling(e, g, false)->Ok_0.2 == (ActionView::Done {
                text: decode_text(
                    e.tokenizer,
                    if answers(g) {
                        g.output
                    } else {
                        g.prompt + g.output
                    },
                ),
                closing: None,
            })
        },
        after_telling(e, g, true) is Ok,
        !(after_telling(e, g, true)->Ok_0.2 is Done),
{
}

/// A run's result is the text of the prompt and of what was chosen, or of what was chosen alone
/// where it answers a message. An answer that was not broken off is closed with the token that
/// ends a message.
pub proof fn result_is_the_text(e: EngineView, g: GenerationView, logits: nat, id: u32)
    ensures
        after_feed(e, g, logits) matches Ok((_, run, ActionView::Done { text, closing })) ==> {
            &&& answers(g) ==> text == decode_text(e.tokenizer, g.output)
            &&& !answers(g) ==> text == decode_text(e.tokenizer, g.prompt + g.output)
            &&& closing == if answers(g) && !g.cancelled {
                Some(151645u32)
            } else {
                None
            }
        },
        g.eos == Some(id) ==> (after_choice(e, g, id) matches Ok(
            (_, run, ActionView::Done { text, closing }),
        ) ==> {
            &&& answers(g) ==> text == decode_text(e.tokenizer, g.output)
            &&& !answers(g) ==> text == decode_text(e.tokenizer, g.prompt + g.output)
            &&& closing == if answers(g) && !g.cancelled {
                Some(151645u32)
            } else {
                None
            }
        }),
{
}

/// A dialogue gains a turn exactly when an answer is over, and a prompt leaves it as it is.
pub proof fn dialogue_gains_its_turns(e: EngineView, g: GenerationView, logits: nat, keep: bool)
    ensures
        after_feed(e, g, logits) matches Ok((after, _, action)) ==> {
            &&& after.tokenizer == e.tokenizer && after.model == e.model && after.started
                == e.started
            &&& action is Done && answers(g) ==> after.history == e.history.push(
                (g.message, decode_text(e.tokenizer, g.output)),
            )
            &&& !(action is Done) || !answers(g) ==> after.history == e.history
        },
        after_telling(e, g, keep) matches Ok((after, _, action)) ==> {
            &&& after.tokenizer == e.tokenizer && after.model == e.model && after.started
                == e.started
            &&& action is Done && answers(g) ==> after.history == e.history.push(
                (g.message, decode_text(e.tokenizer, g.output)),
            )
            &&& !(action is Done) || !answers(g) ==> after.history == e.history
        },
{
}

// ---------------------------------------------------------------------------------------------
// The bytes of a token
// ---------------------------------------------------------------------------------------------

/// Told whole, a token is the bytes that its characters stand for where all of them do, and its own
/// text where one does not. Told by characters, it is always the bytes.
pub proof fn whole_tokens_are_bytes_or_text(s: Seq<char>, i: int)
    ensures
        streamed_bytes(ByteStyle::PerCharacter, s) == token_bytes(s),
        0 <= i < s.len() && char_byte(s[i]) is None ==> streamed_bytes(ByteStyle::WholeToken, s)
            == encode_utf8(s),
        (forall|k: int| 0 <= k < s.len() ==> char_byte(#[trigger] s[k]) is Some) ==> streamed_bytes(
            ByteStyle::WholeToken,
            s,
        ) == token_bytes(s),
{
}

/// Nothing is told of a character that is cut off: its bytes are held back. A byte that starts no
/// character is dropped with what is before it.
pub proof fn cut_off_character_is_held_back(b: Seq<u8>)
    requires
        b.len() > 0,
        0xc2 <= b[0] <= 0xdf && b.len() < 2 || 0xe0 <= b[0] <= 0xef && b.len() < 3 || 0xf0 <= b[0]
            <= 0xf4 && b.len() < 4,
    ensures
        next_text_of(b) == (None::<Seq<char>>, b),
{
}

// ---------------------------------------------------------------------------------------------
// What is dropped and what is refused
// ---------------------------------------------------------------------------------------------

/// A byte with which no character starts is dropped, and what is behind it is told as if it had not
/// been there; letters and marks of one byte are told as they are.
pub proof fn stray_byte_is_dropped(b: Seq<u8>)
    requires
        b.len() > 0,
        0x80 <= b[0] < 0xc0 || b[0] >= 0xf8,
    ensures
        next_text_of(b) == next_text_of(b.skip(1)),
{
    let first = b.take(1);
    assert(complete_end(b, 0) == 1);
    assert(first[0] == b[0]);
    assert(!valid_utf8(first));
}

/// A turn that does not fit tells how much there is, how much is new and how much there may be.
pub proof fn overlong_turn_is_told(cached: nat, new: nat, limit: nat)
    ensures
        too_long(cached, new, limit) == ErrorView::InferenceError(
            "上下文超出: 已有 "@ + dec(cached) + " tokens + 新增 "@ + dec(new) + " > 上限 "@ + dec(limit),
        ),
{
}

/// A run that has no room left tells all that it was given, and that one more does not fit.
pub proof fn full_run_tells_its_length(e: EngineView, g: GenerationView, id: u32, limit: u32)
    requires
        g.limit == Some(limit),
        g.cached + g.prompt.len() + g.output.len() >= limit,
        g.eos != Some(id),
    ensures
        after_choice(e, g, id) == Err::<(EngineView, GenerationView, ActionView), ErrorView>(
            too_long(g.cached + g.prompt.len() + g.output.len(), 1, limit as nat),
        ),
{
}

// ---------------------------------------------------------------------------------------------
// The start of a run
// ---------------------------------------------------------------------------------------------

/// A prompt starts a text of its own with all its tokens, and a turn of the dialogue goes on behind
/// what is there.
pub proof fn runs_begin_with_their_prompt(run: &Generation, a: Action)
    requires
        call_ensures(Generation::begin, (run,), a),
    ensures
        a@ matches ActionView::Feed { ids, fresh } && ids == run@.prompt && (fresh <==> run@.mode
            == Mode::Prompt || run@.mode == Mode::CancellablePrompt),
{
}

/// A prompt without tokens is refused. Any other starts a run that has chosen nothing, is not bound
/// by the dialogue, and ends with the token that ends a text.
pub proof fn prompts_start_fresh(
    engine: &Engine,
    prompt: &str,
    max_tokens: usize,
    cancellable: bool,
    r: GgufResult<Generation>,
)
    requires
        call_ensures(Engine::start_prompt, (engine, prompt, max_tokens, cancellable), r),
    ensures
        r is Ok <==> encode_ids(engine@.tokenizer, prompt@).len() > 0,
        r is Ok ==> {
            let g = r->Ok_0@;
            &&& g.prompt == encode_ids(engine@.tokenizer, prompt@)
            &&& g.output.len() == 0 && g.pending.len() == 0
            &&& g.cached == 0 && g.limit is None
            &&& g.max_tokens == max_tokens && g.eos == engine@.tokenizer.eos_id
            &&& !g.begun && !g.ended && !g.cancelled
            &&& g.mode == if cancellable {
                Mode::CancellablePrompt
            } else {
                Mode::Prompt
            }
        },
{
}

} // verus!
