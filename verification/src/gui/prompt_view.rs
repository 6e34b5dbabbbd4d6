//! The continuation of a prompt.
use vstd::prelude::*;
use vstd::string::*;
use crate::gui::app::StreamingTarget;
use crate::gui::state::AppState;

verus! {

/// The prompt, and what the model makes of it.
#[derive(Debug)]
pub struct PromptView {
    pub input_text: String,
    pub output: String,
    /// Whether the output is shown while it is written.
    pub stream: bool,
    /// Whether always the likeliest token is taken.
    pub greedy: bool,
}

/// A [`PromptView`] with its strings as sequences of characters.
pub struct PromptPanel {
    pub input_text: Seq<char>,
    pub output: Seq<char>,
    pub stream: bool,
    pub greedy: bool,
}

impl View for PromptView {
    type V = PromptPanel;

    open spec fn view(&self) -> PromptPanel {
        PromptPanel {
            input_text: self.input_text@,
            output: self.output@,
            stream: self.stream,
            greedy: self.greedy,
        }
    }
}

/// No prompt.
pub open spec fn empty_prompt() -> PromptPanel {
    PromptPanel { input_text: Seq::empty(), output: Seq::empty(), stream: false, greedy: false }
}

impl Default for PromptView {
    fn default() -> (r: Self)
        ensures
            r@ == empty_prompt(),
    {
        PromptView {
            input_text: String::new(),
            output: String::new(),
            stream: false,
            greedy: false,
        }
    }
}

impl PromptView {
    /// Whether a prompt can be run, and whether one is running.
    pub fn buttons(state: AppState, target: StreamingTarget) -> (r: (bool, bool))
        ensures
            r.0 == (state == AppState::Ready),
            r.1 == (state == AppState::Generating && target == StreamingTarget::Prompt),
    {
        (
            state == AppState::Ready,
            state == AppState::Generating && target == StreamingTarget::Prompt,
        )
    }
}

} // verus!
