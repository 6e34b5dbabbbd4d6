//! What holds of whole runs: from their start, through all that the model chooses and the listener
//! says, to their end.
use vstd::prelude::*;
use vstd::utf8::*;
use crate::error::ErrorView;
use crate::infer::bytes_to_unicode::{byte_char, char_byte, lemma_byte_code};
use crate::infer::engine::{
    after_choice, after_feed, after_telling, after_token, ends_in_context, goes_on, in_context,
    is_cancellable, is_chat, streams_its_bytes, style_of, telling, told,
    told_text_is_the_decoded_text, within_bounds, ActionView, EngineView, GenerationView, Mode,
    Stepped,
};
use crate::infer::stream::{
    complete_end, drained, held_back_is_no_text, next_text_of, streamed_bytes,
};
use crate::infer::tokenizer::{
    char_bytes, decode_text, ids_bytes, ids_chars, string_at, token_bytes, TokenizerView,
};
use crate::infer::tokenizer_laws::lemma_decode_concat;

verus! {

// ---------------------------------------------------------------------------------------------
// A run from its start to its end
// ---------------------------------------------------------------------------------------------

/// A text that was told, and the token that ended it.
pub type Told = (u32, Seq<char>);

/// What a run comes to.
pub enum Outcome {
    /// It is over.
    Over {
        engine: EngineView,
        output: Seq<u32>,
        told: Seq<Told>,
        text: Seq<char>,
        closing: Option<u32>,
    },
    /// It cannot go on.
    Failed { error: ErrorView, told: Seq<Told> },
    /// It waits for a token to be chosen.
    Waiting,
}

/// How far an action is from the next choice.
pub open spec fn phase(a: ActionView) -> nat {
    match a {
        ActionView::Say { .. } => 3,
        ActionView::Feed { .. } => 2,
        ActionView::Choose => 1,
        ActionView::Done { .. } => 0,
    }
}

/// What a run comes to that is at an action `a`, has told some texts, and whose further tokens are
/// `choices`. The model always answers. `keep` is what the listener says after all that was told.
pub open spec fn played(
    e: EngineView,
    g: GenerationView,
    a: ActionView,
    choices: Seq<u32>,
    told: Seq<Told>,
    keep: spec_fn(Seq<Told>) -> bool,
) -> Outcome
    decreases choices.len(), phase(a), g.pending.len(),
{
    match a {
        ActionView::Done { text, closing } => Outcome::Over {
            engine: e,
            output: g.output,
            told,
            text,
            closing,
        },
        ActionView::Choose => if choices.len() == 0 {
            Outcome::Waiting
        } else {
            match after_choice(e, g, choices[0]) {
                Err(error) => Outcome::Failed { error, told },
                Ok((f, h, b)) => played(f, h, b, choices.drop_first(), told, keep),
            }
        },
        ActionView::Feed { .. } => match after_feed(e, g, 1) {
            Err(error) => Outcome::Failed { error, told },
            Ok((f, h, b)) => if phase(b) < phase(a) {
                played(f, h, b, choices, told, keep)
            } else {
                Outcome::Waiting
            },
        },
        ActionView::Say { id, text } => {
            let heard = told.push((id, text));
            match after_telling(e, g, keep(heard)) {
                Err(error) => Outcome::Failed { error, told: heard },
                Ok((f, h, b)) => if phase(b) < phase(a) || h.pending.len() < g.pending.len() {
                    played(f, h, b, choices, heard, keep)
                } else {
                    Outcome::Waiting
                },
            }
        },
    }
}

/// What a run comes to that has not begun.
pub open spec fn outcome(
    e: EngineView,
    g: GenerationView,
    choices: Seq<u32>,
    keep: spec_fn(Seq<Told>) -> bool,
) -> Outcome {
    let start = ActionView::Feed { ids: g.prompt, fresh: !is_chat(g.mode) };
    played(e, g, start, choices, Seq::empty(), keep)
}

/// A run to which nothing has happened yet.
pub open spec fn is_fresh(g: GenerationView) -> bool {
    &&& g.output.len() == 0
    &&& g.pending.len() == 0
    &&& !g.begun
    &&& !g.ended
    &&& !g.cancelled
}

/// Whether the listener never breaks a run off.
pub open spec fn keeps_on(g: GenerationView, keep: spec_fn(Seq<Told>) -> bool) -> bool {
    !is_cancellable(g.mode) || forall|s: Seq<Told>| #[trigger] keep(s)
}

// ---------------------------------------------------------------------------------------------
// Runs that can be broken off and runs that cannot
// ---------------------------------------------------------------------------------------------

/// A run with another mode.
pub open spec fn with_mode(g: GenerationView, m: Mode) -> GenerationView {
    GenerationView { mode: m, ..g }
}

/// A step of a run with another mode.
pub open spec fn step_with_mode(s: Stepped, m: Mode) -> Stepped {
    match s {
        Ok((e, g, a)) => Ok((e, with_mode(g, m), a)),
        Err(e) => Err(e),
    }
}

/// Whether a run can be broken off makes no difference to any of its steps, as long as it is not.
pub proof fn modes_agree(e: EngineView, g: GenerationView, m: Mode, logits: nat, id: u32)
    requires
        is_chat(m) == is_chat(g.mode),
    ensures
        after_feed(e, with_mode(g, m), logits) == step_with_mode(after_feed(e, g, logits), m),
        after_choice(e, with_mode(g, m), id) == step_with_mode(after_choice(e, g, id), m),
        after_telling(e, with_mode(g, m), true) == step_with_mode(after_telling(e, g, true), m),
{
}

proof fn lemma_modes_agree(
    e: EngineView,
    g: GenerationView,
    m: Mode,
    a: ActionView,
    choices: Seq<u32>,
    told: Seq<Told>,
    keep: spec_fn(Seq<Told>) -> bool,
)
    requires
        is_chat(m) == is_chat(g.mode),
        forall|s: Seq<Told>| #[trigger] keep(s),
    ensures
        played(e, with_mode(g, m), a, choices, told, keep) == played(e, g, a, choices, told, keep),
    decreases choices.len(), phase(a), g.pending.len(),
{
    match a {
        ActionView::Done { .. } => {},
        ActionView::Choose => if choices.len() > 0 {
            modes_agree(e, g, m, 1, choices[0]);
            if let Ok((f, h, b)) = after_choice(e, g, choices[0]) {
                lemma_modes_agree(f, h, m, b, choices.drop_first(), told, keep);
            }
        },
        ActionView::Feed { .. } => {
            modes_agree(e, g, m, 1, 0);
            if let Ok((f, h, b)) = after_feed(e, g, 1) {
                if phase(b) < phase(a) {
                    lemma_modes_agree(f, h, m, b, choices, told, keep);
                }
            }
        },
        ActionView::Say { id, text } => {
            let heard = told.push((id, text));
            modes_agree(e, g, m, 1, 0);
            assert(keep(heard));
            if let Ok((f, h, b)) = after_telling(e, g, true) {
                if phase(b) < phase(a) || h.pending.len() < g.pending.len() {
                    lemma_modes_agree(f, h, m, b, choices, heard, keep);
                }
            }
        },
    }
}

/// A run that can be broken off and never is comes to what one comes to that cannot: the same
/// result, the same texts told with the same tokens, the same dialogue.
pub proof fn unbroken_run_is_the_same(
    e: EngineView,
    g: GenerationView,
    m: Mode,
    choices: Seq<u32>,
    keep: spec_fn(Seq<Told>) -> bool,
)
    requires
        is_chat(m) == is_chat(g.mode),
        forall|s: Seq<Told>| #[trigger] keep(s),
    ensures
        outcome(e, with_mode(g, m), choices, keep) == outcome(e, g, choices, keep),
{
    let start = ActionView::Feed { ids: g.prompt, fresh: !is_chat(g.mode) };
    lemma_modes_agree(e, g, m, start, choices, Seq::empty(), keep);
}

// ---------------------------------------------------------------------------------------------
// What a run comes to
// ---------------------------------------------------------------------------------------------

/// Whether a run can be at an action.
spec fn is_at(g: GenerationView, a: ActionView) -> bool {
    &&& !g.ended
    &&& !g.cancelled
    &&& within_bounds(g)
    &&& in_context(g)
    &&& match a {
        ActionView::Choose => goes_on(g),
        ActionView::Say { id, .. } => g.output.len() > 0 && g.output.last() == id,
        ActionView::Feed { .. } => true,
        ActionView::Done { .. } => false,
    }
}

/// Whether the output of a run is what was chosen, up to its end.
pub open spec fn is_front(before: Seq<u32>, output: Seq<u32>, choices: Seq<u32>) -> bool {
    let n = output.len() - before.len();
    0 <= n <= choices.len() && output == before + choices.take(n)
}

/// How a run came to its end: the model ended it, it has all its tokens, or the listener broke it
/// off.
pub open spec fn has_reason(
    g: GenerationView,
    output: Seq<u32>,
    told: Seq<Told>,
    choices: Seq<u32>,
    keep: spec_fn(Seq<Told>) -> bool,
) -> bool {
    let n = output.len() - g.output.len();
    ||| output.len() == g.max_tokens
    ||| (n < choices.len() && g.eos == Some(choices[n]))
    ||| is_broken_off(g.mode, told, keep)
}

/// Whether the listener has broken a run off.
pub open spec fn is_broken_off(m: Mode, told: Seq<Told>, keep: spec_fn(Seq<Told>) -> bool) -> bool {
    is_cancellable(m) && told.len() > 0 && !keep(told)
}

/// What the result of a run is.
pub open spec fn result_of(t: TokenizerView, g: GenerationView, output: Seq<u32>) -> Seq<char> {
    if is_chat(g.mode) {
        decode_text(t, output)
    } else {
        decode_text(t, g.prompt + output)
    }
}

/// What holds of a run that is over.
spec fn is_good_end(
    e: EngineView,
    g: GenerationView,
    choices: Seq<u32>,
    before: Seq<Told>,
    keep: spec_fn(Seq<Told>) -> bool,
    o: Outcome,
) -> bool {
    o matches Outcome::Over { engine, output, told, text, closing } ==> {
        &&& is_front(g.output, output, choices)
        &&& within_bounds(GenerationView { output, ..g })
        &&& ends_in_context(
            GenerationView { output, ..g },
            ActionView::Done { text, closing },
        )
        &&& text == result_of(e.tokenizer, g, output)
        &&& has_reason(g, output, told, choices, keep)
        &&& before.len() <= told.len()
        &&& told.take(before.len() as int) == before
        &&& forall|k: int|
            before.len() < k < told.len() ==> !is_broken_off(g.mode, #[trigger] told.take(k), keep)
        &&& before.len() < told.len() && is_broken_off(g.mode, told, keep) ==> output.len() > 0
            && output.last() == told.last().0
    }
}

/// A run that is over comes to what it is.
proof fn lemma_over(
    e: EngineView,
    g: GenerationView,
    text: Seq<char>,
    closing: Option<u32>,
    choices: Seq<u32>,
    told: Seq<Told>,
    keep: spec_fn(Seq<Told>) -> bool,
)
    ensures
        played(e, g, ActionView::Done { text, closing }, choices, told, keep) == (Outcome::Over {
            engine: e,
            output: g.output,
            told,
            text,
            closing,
        }),
{
}

/// A choice that ends the text.
proof fn lemma_end_chosen(
    e: EngineView,
    g: GenerationView,
    choices: Seq<u32>,
    before: Seq<Told>,
    keep: spec_fn(Seq<Told>) -> bool,
)
    requires
        is_at(g, ActionView::Choose),
        choices.len() > 0,
        g.eos == Some(choices[0]),
    ensures
        is_good_end(
            e,
            g,
            choices,
            before,
            keep,
            played(e, g, ActionView::Choose, choices, before, keep),
        ),
{
    if let Ok((f, h, ActionView::Done { text, closing })) = after_choice(e, g, choices[0]) {
        lemma_over(f, h, text, closing, choices.drop_first(), before, keep);
        assert(g.output + choices.take(0) =~= g.output);
        assert(before.take(before.len() as int) =~= before);
    }
}

/// One more token keeps a run in its bounds.
proof fn lemma_one_more(e: EngineView, g: GenerationView, id: u32)
    requires
        is_at(g, ActionView::Choose),
        g.eos != Some(id),
        after_choice(e, g, id) is Ok,
    ensures
        after_choice(e, g, id)->Ok_0.0 == e,
        is_at(after_choice(e, g, id)->Ok_0.1, after_choice(e, g, id)->Ok_0.2),
        after_choice(e, g, id)->Ok_0.1.output == g.output.push(id),
{
    let h = after_choice(e, g, id)->Ok_0.1;
    assert(h.output == g.output.push(id));
    if h.eos is Some && h.output.contains(h.eos->Some_0) {
        let i = choose|i: int| 0 <= i < h.output.len() && h.output[i] == h.eos->Some_0;
        if i < g.output.len() {
            assert(g.output[i] == h.eos->Some_0);
        }
    }
}

/// A choice after which the run goes on.
proof fn lemma_more_chosen(
    e: EngineView,
    g: GenerationView,
    choices: Seq<u32>,
    before: Seq<Told>,
    keep: spec_fn(Seq<Told>) -> bool,
    h: GenerationView,
    o: Outcome,
)
    requires
        choices.len() > 0,
        g.eos != Some(choices[0]),
        h == (GenerationView { pending: h.pending, output: g.output.push(choices[0]), ..g }),
        is_good_end(e, h, choices.drop_first(), before, keep, o),
    ensures
        is_good_end(e, g, choices, before, keep, o),
{
    if let Outcome::Over { output, .. } = o {
        let rest = choices.drop_first();
        let n = output.len() - h.output.len();
        assert(h.output + rest.take(n) =~= g.output + choices.take(n + 1));
        if n < rest.len() {
            assert(rest[n] == choices[n + 1]);
        }
    }
}

/// The model was run, and the run is over.
proof fn lemma_end_fed(
    e: EngineView,
    g: GenerationView,
    a: ActionView,
    choices: Seq<u32>,
    before: Seq<Told>,
    keep: spec_fn(Seq<Told>) -> bool,
)
    requires
        a is Feed,
        is_at(g, a),
        !goes_on(g),
    ensures
        is_good_end(e, g, choices, before, keep, played(e, g, a, choices, before, keep)),
{
    if let Ok((f, h, ActionView::Done { text, closing })) = after_feed(e, g, 1) {
        lemma_over(f, h, text, closing, choices, before, keep);
        assert(g.output + choices.take(0) =~= g.output);
        assert(before.take(before.len() as int) =~= before);
    }
}

/// A text was told, and the listener breaks the run off.
proof fn lemma_broken_off(
    e: EngineView,
    g: GenerationView,
    id: u32,
    text: Seq<char>,
    choices: Seq<u32>,
    before: Seq<Told>,
    keep: spec_fn(Seq<Told>) -> bool,
)
    requires
        is_at(g, ActionView::Say { id, text }),
        is_cancellable(g.mode),
        !keep(before.push((id, text))),
    ensures
        is_good_end(
            e,
            g,
            choices,
            before,
            keep,
            played(e, g, ActionView::Say { id, text }, choices, before, keep),
        ),
{
    let heard = before.push((id, text));
    if let Ok((f, h, ActionView::Done { text, closing })) = after_telling(e, g, false) {
        lemma_over(f, h, text, closing, choices, heard, keep);
        assert(g.output + choices.take(0) =~= g.output);
        assert(heard.take(before.len() as int) =~= before);
    }
}

/// A text was told, and the run goes on.
proof fn lemma_heard(
    e: EngineView,
    g: GenerationView,
    h: GenerationView,
    said: Told,
    choices: Seq<u32>,
    before: Seq<Told>,
    keep: spec_fn(Seq<Told>) -> bool,
    o: Outcome,
)
    requires
        h == (GenerationView { pending: h.pending, ..g }),
        !is_broken_off(g.mode, before.push(said), keep),
        is_good_end(e, h, choices, before.push(said), keep, o),
    ensures
        is_good_end(e, g, choices, before, keep, o),
{
    let heard = before.push(said);
    if let Outcome::Over { told, .. } = o {
        if told.len() == heard.len() {
            assert(told.take(heard.len() as int) =~= told);
        }
        assert(told.take(before.len() as int) =~= heard.take(before.len() as int)) by {
            assert forall|i: int| 0 <= i < before.len() implies told[i] == heard[i] by {
                assert(told.take(heard.len() as int)[i] == told[i]);
            }
        }
        assert(heard.take(before.len() as int) =~= before);
        assert forall|k: int| before.len() < k < told.len() implies !is_broken_off(
            g.mode,
            #[trigger] told.take(k),
            keep,
        ) by {
            if k == heard.len() {
                assert(told.take(k) == heard);
            }
        }
    }
}

proof fn lemma_good_end(
    e: EngineView,
    g: GenerationView,
    a: ActionView,
    choices: Seq<u32>,
    before: Seq<Told>,
    keep: spec_fn(Seq<Told>) -> bool,
)
    requires
        is_at(g, a),
    ensures
        is_good_end(e, g, choices, before, keep, played(e, g, a, choices, before, keep)),
    decreases choices.len(), phase(a), g.pending.len(),
{
    let o = played(e, g, a, choices, before, keep);
    match a {
        ActionView::Done { .. } => {},
        ActionView::Choose => if choices.len() > 0 {
            if g.eos == Some(choices[0]) {
                lemma_end_chosen(e, g, choices, before, keep);
            } else if let Ok((f, h, b)) = after_choice(e, g, choices[0]) {
                lemma_one_more(e, g, choices[0]);
                lemma_good_end(f, h, b, choices.drop_first(), before, keep);
                lemma_more_chosen(e, g, choices, before, keep, h, o);
            }
        },
        ActionView::Feed { .. } => if goes_on(g) {
            let h = GenerationView { begun: true, ..g };
            assert(after_feed(e, g, 1) == Ok::<
                (EngineView, GenerationView, ActionView),
                ErrorView,
            >((e, h, ActionView::Choose)));
            lemma_good_end(e, h, ActionView::Choose, choices, before, keep);
            assert(is_good_end(e, h, choices, before, keep, o));
        } else {
            lemma_end_fed(e, g, a, choices, before, keep);
        },
        ActionView::Say { id, text } => {
            let heard = before.push((id, text));
            if is_cancellable(g.mode) && !keep(heard) {
                lemma_broken_off(e, g, id, text, choices, before, keep);
            } else if let Ok((f, h, b)) = after_telling(e, g, keep(heard)) {
                if phase(b) < phase(a) || h.pending.len() < g.pending.len() {
                    lemma_good_end(f, h, b, choices, heard, keep);
                    lemma_heard(e, g, h, (id, text), choices, before, keep, o);
                }
            }
        },
    }
}

/// A whole run. Its output is the front of what the model chose, in its order: never more tokens
/// than it was allowed, never the id that ends a text, and exactly as many as it was allowed unless
/// the model ended it or the listener broke it off. Its result is the text of these tokens, behind
/// the prompt where it continues one. Once the listener has broken it off nothing more is told and
/// nothing more is chosen: the text that was told last ended with the last token.
pub proof fn whole_run(
    e: EngineView,
    g: GenerationView,
    choices: Seq<u32>,
    keep: spec_fn(Seq<Told>) -> bool,
)
    requires
        is_fresh(g),
        in_context(g),
    ensures
        outcome(e, g, choices, keep) matches Outcome::Over { output, told, text, .. } ==> {
            &&& output.len() <= choices.len()
            &&& output == choices.take(output.len() as int)
            &&& output.len() <= g.max_tokens
            &&& g.eos is Some ==> !output.contains(g.eos->Some_0)
            &&& output.len() == g.max_tokens || (output.len() < choices.len() && g.eos == Some(
                choices[output.len() as int],
            )) || is_broken_off(g.mode, told, keep)
            &&& text == result_of(e.tokenizer, g, output)
            &&& forall|k: int|
                0 < k < told.len() ==> !is_broken_off(g.mode, #[trigger] told.take(k), keep)
            &&& is_broken_off(g.mode, told, keep) ==> output.len() > 0 && output.last()
                == told.last().0
        },
{
    let start = ActionView::Feed { ids: g.prompt, fresh: !is_chat(g.mode) };
    lemma_good_end(e, g, start, choices, Seq::empty(), keep);
    if let Outcome::Over { output, .. } = outcome(e, g, choices, keep) {
        assert(g.output + choices.take(output.len() as int) =~= choices.take(output.len() as int));
    }
}

/// A turn of the dialogue that ends without an error ends in the model's view: the tokens before it,
/// its prompt, all that was chosen and the token that closes it are no more than the model can hold.
pub proof fn turn_ends_in_context(
    e: EngineView,
    g: GenerationView,
    choices: Seq<u32>,
    keep: spec_fn(Seq<Told>) -> bool,
)
    requires
        is_fresh(g),
        in_context(g),
        g.limit is Some,
    ensures
        outcome(e, g, choices, keep) matches Outcome::Over { output, closing, .. } ==> g.cached
            + g.prompt.len() + output.len() + (if closing is Some {
            1nat
        } else {
            0
        }) <= g.limit->Some_0,
{
    let start = ActionView::Feed { ids: g.prompt, fresh: !is_chat(g.mode) };
    lemma_good_end(e, g, start, choices, Seq::empty(), keep);
}

proof fn lemma_comes_to_an_end(
    e: EngineView,
    g: GenerationView,
    a: ActionView,
    choices: Seq<u32>,
    before: Seq<Told>,
    keep: spec_fn(Seq<Told>) -> bool,
)
    requires
        a is Done || is_at(g, a),
        a is Feed && !g.begun || a is Done || g.begun,
        !(a is Done) ==> g.output.len() + choices.len() >= g.max_tokens,
    ensures
        !(played(e, g, a, choices, before, keep) is Waiting),
        g.limit is None ==> played(e, g, a, choices, before, keep) is Over,
    decreases choices.len(), phase(a), g.pending.len(),
{
    match a {
        ActionView::Done { .. } => {},
        ActionView::Choose => {
            if let Ok((f, h, b)) = after_choice(e, g, choices[0]) {
                if g.eos != Some(choices[0]) {
                    lemma_one_more(e, g, choices[0]);
                }
                lemma_comes_to_an_end(f, h, b, choices.drop_first(), before, keep);
            }
        },
        ActionView::Feed { .. } => {
            if let Ok((f, h, b)) = after_feed(e, g, 1) {
                lemma_comes_to_an_end(f, h, b, choices, before, keep);
            }
        },
        ActionView::Say { id, text } => {
            let heard = before.push((id, text));
            if next_text_of(g.pending).0 is Some {
                held_back_is_no_text(g.pending);
            }
            if let Ok((f, h, b)) = after_telling(e, g, keep(heard)) {
                lemma_comes_to_an_end(f, h, b, choices, heard, keep);
            }
        },
    }
}

/// A run comes to an end: with as many choices as it was allowed tokens it does not wait for
/// another. Where it does not keep to what the model can hold in view, as no continuation of a
/// prompt does, it cannot fail either.
pub proof fn run_comes_to_an_end(
    e: EngineView,
    g: GenerationView,
    choices: Seq<u32>,
    keep: spec_fn(Seq<Told>) -> bool,
)
    requires
        is_fresh(g),
        in_context(g),
        choices.len() >= g.max_tokens,
    ensures
        !(outcome(e, g, choices, keep) is Waiting),
        g.limit is None ==> outcome(e, g, choices, keep) is Over,
{
    let start = ActionView::Feed { ids: g.prompt, fresh: !is_chat(g.mode) };
    lemma_comes_to_an_end(e, g, start, choices, Seq::empty(), keep);
}

// ---------------------------------------------------------------------------------------------
// What a run tells
// ---------------------------------------------------------------------------------------------

/// Texts that were told, one behind the other.
pub open spec fn texts(told: Seq<Told>) -> Seq<char>
    decreases told.len(),
{
    if told.len() == 0 {
        Seq::empty()
    } else {
        texts(told.drop_last()) + told.last().1
    }
}

/// What is still to be told of the last token.
spec fn untold(g: GenerationView, a: ActionView) -> (Seq<char>, Seq<u8>) {
    match a {
        ActionView::Say { text, .. } => (text + drained(g.pending).0, drained(g.pending).1),
        _ => (Seq::empty(), g.pending),
    }
}

/// The output of a run that is over.
spec fn rest_of(g: GenerationView, o: Outcome) -> Seq<u32> {
    match o {
        Outcome::Over { output, .. } => output.skip(g.output.len() as int),
        _ => Seq::empty(),
    }
}

proof fn lemma_telling(g: GenerationView, h: GenerationView, a: ActionView)
    requires
        (h, a) == telling(g),
    ensures
        untold(h, a) == drained(g.pending),
        a is Say ==> h.pending.len() < g.pending.len(),
{
    if next_text_of(g.pending).0 is Some {
        held_back_is_no_text(g.pending);
    }
}

proof fn lemma_texts(
    e: EngineView,
    g: GenerationView,
    a: ActionView,
    choices: Seq<u32>,
    before: Seq<Told>,
    keep: spec_fn(Seq<Told>) -> bool,
)
    requires
        is_at(g, a),
        g.begun,
        keeps_on(g, keep),
    ensures
        ({
            let o = played(e, g, a, choices, before, keep);
            let (text, held) = untold(g, a);
            let h = GenerationView { pending: held, ..g };
            o matches Outcome::Over { told: all, .. } ==> texts(all) == texts(before) + text + told(
                h,
                e.tokenizer,
                rest_of(g, o),
            ).0
        }),
    decreases choices.len(), phase(a), g.pending.len(),
{
    lemma_good_end(e, g, a, choices, before, keep);
    let o = played(e, g, a, choices, before, keep);
    let nothing = Seq::<char>::empty();
    if let Outcome::Over { output, told: all, .. } = o {
        let ids = rest_of(g, o);
        assert(output == g.output + ids);
        match a {
            ActionView::Done { .. } => {},
            ActionView::Choose => if g.eos == Some(choices[0]) {
                if let Ok((f, h, ActionView::Done { text, closing })) = after_choice(
                    e,
                    g,
                    choices[0],
                ) {
                    lemma_over(f, h, text, closing, choices.drop_first(), before, keep);
                    assert(ids =~= Seq::<u32>::empty());
                    assert(texts(before) + nothing + nothing =~= texts(before));
                }
            } else if let Ok((f, h, b)) = after_choice(e, g, choices[0]) {
                let t = after_token(g, e.tokenizer, choices[0]);
                lemma_one_more(e, g, choices[0]);
                lemma_telling(t, h, b);
                lemma_texts(f, h, b, choices.drop_first(), before, keep);
                lemma_good_end(f, h, b, choices.drop_first(), before, keep);
                let more = rest_of(h, o);
                assert(ids.drop_first() =~= more);
                assert(ids[0] == choices[0]) by {
                    assert(output[g.output.len() as int] == h.output[g.output.len() as int]);
                }
                assert(ids.len() > 0);
                let (x, y) = drained(t.pending);
                let z = told(GenerationView { pending: y, ..t }, e.tokenizer, more).0;
                assert(texts(before) + x + z =~= texts(before) + nothing + (x + z));
            },
            ActionView::Feed { .. } => if goes_on(g) {
                lemma_texts(e, g, ActionView::Choose, choices, before, keep);
                assert(after_feed(e, g, 1)->Ok_0.1 == g);
            } else {
                if let Ok((f, h, ActionView::Done { text, closing })) = after_feed(e, g, 1) {
                    lemma_over(f, h, text, closing, choices, before, keep);
                    assert(ids =~= Seq::<u32>::empty());
                    assert(texts(before) + nothing + nothing =~= texts(before));
                }
            },
            ActionView::Say { id, text } => {
                let heard = before.push((id, text));
                assert(heard.drop_last() =~= before);
                if let Ok((f, h, b)) = after_telling(e, g, keep(heard)) {
                    lemma_telling(g, h, b);
                    lemma_texts(f, h, b, choices, heard, keep);
                    assert(rest_of(h, o) == ids);
                    let (x, y) = drained(g.pending);
                    let z = told(GenerationView { pending: y, ..g }, e.tokenizer, ids).0;
                    assert(texts(heard) + x + z =~= texts(before) + (text + x) + z);
                }
            },
        }
    }
}

/// What a whole run tells is what its tokens decode to: where a byte-level vocabulary decodes them
/// to valid UTF-8 and each adds to the stream the bytes that it decodes to, the texts that were told
/// are, one behind the other, the decoded text.
pub proof fn run_tells_its_text(
    e: EngineView,
    g: GenerationView,
    choices: Seq<u32>,
    keep: spec_fn(Seq<Told>) -> bool,
)
    requires
        is_fresh(g),
        in_context(g),
        keeps_on(g, keep),
        e.tokenizer.byte_level,
        forall|i: int|
            0 <= i < choices.len() ==> streams_its_bytes(g.mode, e.tokenizer, #[trigger] choices[i]),
    ensures
        outcome(e, g, choices, keep) matches Outcome::Over { output, told, .. } ==> valid_utf8(
            ids_bytes(e.tokenizer.strings, output),
        ) ==> texts(told) == decode_text(e.tokenizer, output),
{
    let start = ActionView::Feed { ids: g.prompt, fresh: !is_chat(g.mode) };
    let begun = GenerationView { begun: true, ..g };
    let none = Seq::<Told>::empty();
    whole_run(e, g, choices, keep);
    let o = outcome(e, g, choices, keep);
    if let Outcome::Over { output, told: all, .. } = o {
        if valid_utf8(ids_bytes(e.tokenizer.strings, output)) {
            assert(o == played(e, begun, start, choices, none, keep));
            lemma_texts(e, begun, start, choices, none, keep);
            assert(rest_of(begun, o) =~= output);
            assert forall|i: int| 0 <= i < output.len() implies g.eos != Some(#[trigger] output[i])
                && streams_its_bytes(g.mode, e.tokenizer, output[i]) by {
                assert(output[i] == choices[i]);
                assert(output.contains(output[i]));
            }
            told_text_is_the_decoded_text(begun, e.tokenizer, output);
            let t = told(begun, e.tokenizer, output).0;
            assert(texts(none) + Seq::<char>::empty() + t =~= t);
        }
    }
}

// ---------------------------------------------------------------------------------------------
// Vocabularies of single characters
// ---------------------------------------------------------------------------------------------

/// A character of printable ASCII.
pub open spec fn is_printable_ascii(c: char) -> bool {
    0x20 <= c as u32 <= 0x7e
}

/// Whether every token is one character of printable ASCII.
pub open spec fn is_ascii_vocabulary(t: TokenizerView) -> bool {
    forall|i: int|
        0 <= i < t.strings.len() ==> (#[trigger] t.strings[i]).len() == 1 && is_printable_ascii(
            t.strings[i][0],
        )
}

/// Tokens, each with its string.
pub open spec fn with_strings(t: TokenizerView, ids: Seq<u32>) -> Seq<Told> {
    Seq::new(ids.len(), |i: int| (ids[i], t.strings[ids[i] as int]))
}

/// The bytes of a character of printable ASCII are one: its number.
proof fn lemma_ascii_bytes(c: char)
    requires
        is_printable_ascii(c),
    ensures
        char_bytes(c) == seq![c as u8],
        encode_utf8(seq![c]) == seq![c as u8],
{
    let s = seq![c];
    assert(is_ascii_chars(s));
    is_ascii_chars_encode_utf8(s);
    assert(s[0] as u8 == encode_utf8(s)[0]);
    assert(encode_utf8(s) =~= seq![c as u8]);
    if char_byte(c) is Some {
        let b = char_byte(c)->Some_0;
        assert(byte_char(b) == c);
        lemma_byte_code(b);
        assert(b == c as u8);
    }
}

/// A token of one character of printable ASCII adds its byte to the stream, which is told at once.
proof fn lemma_ascii_token(m: Mode, s: Seq<char>)
    requires
        s.len() == 1,
        is_printable_ascii(s[0]),
    ensures
        streamed_bytes(style_of(m), s) == encode_utf8(s),
        token_bytes(s) == encode_utf8(s),
        next_text_of(encode_utf8(s)) == (Some(s), Seq::<u8>::empty()),
{
    lemma_ascii_bytes(s[0]);
    assert(s =~= seq![s[0]]);
    assert(s.drop_last() =~= Seq::<char>::empty());
    assert(token_bytes(s.drop_last()) =~= Seq::<u8>::empty());
    assert(token_bytes(s) =~= seq![s[0] as u8]);
    let bytes = encode_utf8(s);
    encode_utf8_valid_utf8(s);
    encode_utf8_decode_utf8(s);
    assert(complete_end(bytes, 1) == 1);
    assert(complete_end(bytes, 0) == 1);
    assert(bytes.take(1) =~= bytes);
    assert(bytes.skip(1) =~= Seq::<u8>::empty());
}

/// The text of single characters is their bytes decoded.
proof fn lemma_ascii_decoded(t: TokenizerView, ids: Seq<u32>)
    requires
        is_ascii_vocabulary(t),
        forall|i: int| 0 <= i < ids.len() ==> #[trigger] ids[i] < t.strings.len(),
    ensures
        valid_utf8(ids_bytes(t.strings, ids)),
        decode_utf8(ids_bytes(t.strings, ids)) == ids_chars(t.strings, ids),
        decode_text(t, ids) == ids_chars(t.strings, ids),
        texts(with_strings(t, ids)) == ids_chars(t.strings, ids),
    decreases ids.len(),
{
    if ids.len() == 0 {
        assert(decode_utf8(Seq::<u8>::empty()) =~= Seq::<char>::empty());
    } else {
        let front = ids.drop_last();
        let s = t.strings[ids.last() as int];
        assert(string_at(t.strings, ids.last()) == s);
        lemma_ascii_decoded(t, front);
        lemma_ascii_token(Mode::Prompt, s);
        encode_utf8_valid_utf8(s);
        encode_utf8_decode_utf8(s);
        valid_utf8_concat(ids_bytes(t.strings, front), encode_utf8(s));
        lemma_decode_concat(ids_bytes(t.strings, front), encode_utf8(s));
        assert(with_strings(t, ids).drop_last() =~= with_strings(t, front));
    }
}

/// One token of printable ASCII: it is told, and then the model is run on it.
proof fn lemma_ascii_step(
    e: EngineView,
    g: GenerationView,
    choices: Seq<u32>,
    before: Seq<Told>,
    keep: spec_fn(Seq<Told>) -> bool,
)
    requires
        is_at(g, ActionView::Choose),
        keeps_on(g, keep),
        g.pending.len() == 0,
        is_ascii_vocabulary(e.tokenizer),
        choices.len() > 0,
        choices[0] < e.tokenizer.strings.len(),
        g.eos != Some(choices[0]),
        after_choice(e, g, choices[0]) is Ok,
    ensures
        played(e, g, ActionView::Choose, choices, before, keep) == played(
            e,
            GenerationView { output: g.output.push(choices[0]), ..g },
            ActionView::Feed { ids: seq![choices[0]], fresh: false },
            choices.drop_first(),
            before.push((choices[0], e.tokenizer.strings[choices[0] as int])),
            keep,
        ),
{
    let id = choices[0];
    let s = e.tokenizer.strings[id as int];
    let h = GenerationView { output: g.output.push(id), ..g };
    lemma_ascii_token(g.mode, s);
    assert(g.pending =~= Seq::<u8>::empty());
    assert(g.pending + encode_utf8(s) =~= encode_utf8(s));
    let say = ActionView::Say { id, text: s };
    let feed = ActionView::Feed { ids: seq![id], fresh: false };
    assert(after_choice(e, g, id) == Ok::<(EngineView, GenerationView, ActionView), ErrorView>(
        (e, h, say),
    ));
    let heard = before.push((id, s));
    assert(next_text_of(h.pending) == (None::<Seq<char>>, h.pending));
    assert(after_telling(e, h, keep(heard)) == Ok::<
        (EngineView, GenerationView, ActionView),
        ErrorView,
    >((e, h, feed)));
    assert(played(e, h, say, choices.drop_first(), before, keep) == played(
        e,
        h,
        feed,
        choices.drop_first(),
        heard,
        keep,
    ));
}

proof fn lemma_ascii_told(
    e: EngineView,
    g: GenerationView,
    a: ActionView,
    choices: Seq<u32>,
    before: Seq<Told>,
    keep: spec_fn(Seq<Told>) -> bool,
)
    requires
        a is Choose || a is Feed,
        is_at(g, a),
        g.begun,
        keeps_on(g, keep),
        g.pending.len() == 0,
        is_ascii_vocabulary(e.tokenizer),
        forall|i: int| 0 <= i < choices.len() ==> #[trigger] choices[i] < e.tokenizer.strings.len(),
    ensures
        ({
            let o = played(e, g, a, choices, before, keep);
            o matches Outcome::Over { told, .. } ==> told == before + with_strings(
                e.tokenizer,
                rest_of(g, o),
            )
        }),
    decreases choices.len(), phase(a),
{
    lemma_good_end(e, g, a, choices, before, keep);
    let o = played(e, g, a, choices, before, keep);
    let none = Seq::<Told>::empty();
    if let Outcome::Over { output, told, .. } = o {
        let ids = rest_of(g, o);
        assert(output == g.output + ids);
        if a is Choose {
            if g.eos == Some(choices[0]) {
                if let Ok((f, h, ActionView::Done { text, closing })) = after_choice(
                    e,
                    g,
                    choices[0],
                ) {
                    lemma_over(f, h, text, closing, choices.drop_first(), before, keep);
                    assert(with_strings(e.tokenizer, ids) =~= none);
                    assert(before + none =~= before);
                }
            } else {
                let h = GenerationView { output: g.output.push(choices[0]), ..g };
                let feed = ActionView::Feed { ids: seq![choices[0]], fresh: false };
                let heard = before.push((choices[0], e.tokenizer.strings[choices[0] as int]));
                let rest = choices.drop_first();
                assert forall|i: int| 0 <= i < rest.len() implies #[trigger] rest[i]
                    < e.tokenizer.strings.len() by {
                    assert(rest[i] == choices[i + 1]);
                }
                lemma_one_more(e, g, choices[0]);
                lemma_ascii_step(e, g, choices, before, keep);
                lemma_ascii_told(e, h, feed, rest, heard, keep);
                lemma_good_end(e, h, feed, rest, heard, keep);
                assert(ids.len() > 0 && ids[0] == choices[0]) by {
                    assert(output[g.output.len() as int] == h.output[g.output.len() as int]);
                }
                assert(ids.drop_first() =~= rest_of(h, o));
                assert(before + with_strings(e.tokenizer, ids) =~= heard + with_strings(
                    e.tokenizer,
                    rest_of(h, o),
                ));
            }
        } else if goes_on(g) {
            assert(after_feed(e, g, 1)->Ok_0.1 == g);
            lemma_ascii_told(e, g, ActionView::Choose, choices, before, keep);
        } else if let Ok((f, h, ActionView::Done { text, closing })) = after_feed(e, g, 1) {
            lemma_over(f, h, text, closing, choices, before, keep);
            assert(with_strings(e.tokenizer, ids) =~= none);
            assert(before + none =~= before);
        }
    }
}

/// A whole run with a vocabulary of single characters: every token that was chosen is told with its
/// character, one after the other; all of them are in the vocabulary; and what was told is, one
/// behind the other, what the tokens decode to. ([`whole_run`] says how many there are.)
pub proof fn ascii_run_tells_each_token(
    e: EngineView,
    g: GenerationView,
    choices: Seq<u32>,
    keep: spec_fn(Seq<Told>) -> bool,
)
    requires
        is_fresh(g),
        in_context(g),
        keeps_on(g, keep),
        is_ascii_vocabulary(e.tokenizer),
        forall|i: int| 0 <= i < choices.len() ==> #[trigger] choices[i] < e.tokenizer.strings.len(),
    ensures
        outcome(e, g, choices, keep) matches Outcome::Over { output, told, text, .. } ==> {
            &&& forall|i: int|
                0 <= i < output.len() ==> #[trigger] output[i] < e.tokenizer.strings.len()
            &&& told == with_strings(e.tokenizer, output)
            &&& texts(told) == decode_text(e.tokenizer, output)
            &&& text == result_of(e.tokenizer, g, output)
        },
{
    let start = ActionView::Feed { ids: g.prompt, fresh: !is_chat(g.mode) };
    let begun = GenerationView { begun: true, ..g };
    let none = Seq::<Told>::empty();
    whole_run(e, g, choices, keep);
    let o = outcome(e, g, choices, keep);
    if let Outcome::Over { output, told, .. } = o {
        assert(o == played(e, begun, start, choices, none, keep));
        lemma_ascii_told(e, begun, start, choices, none, keep);
        assert(rest_of(begun, o) =~= output);
        assert(none + with_strings(e.tokenizer, output) =~= with_strings(e.tokenizer, output));
        assert forall|i: int| 0 <= i < output.len() implies #[trigger] output[i]
            < e.tokenizer.strings.len() by {
            assert(output[i] == choices[i]);
        }
        lemma_ascii_decoded(e.tokenizer, output);
    }
}

} // verus!
