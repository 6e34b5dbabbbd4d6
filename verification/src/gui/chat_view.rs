//! The dialogue.
use vstd::prelude::*;
use vstd::string::*;
use crate::gui::app::StreamingTarget;
use crate::gui::state::{messages_view, AppState, ChatMessage, Role};
use crate::text::owned;

verus! {

/// The dialogue, and the message that is being typed.
#[derive(Debug)]
pub struct ChatView {
    pub messages: Vec<ChatMessage>,
    pub input: String,
    /// Whether the dialogue has become longer than the model can hold in view.
    pub ctx_exceeded: bool,
}

/// A [`ChatView`] with its lists and strings as sequences.
pub struct ChatPanel {
    pub messages: Seq<(Role, Seq<char>)>,
    pub input: Seq<char>,
    pub ctx_exceeded: bool,
}

impl View for ChatView {
    type V = ChatPanel;

    open spec fn view(&self) -> ChatPanel {
        ChatPanel {
            messages: messages_view(self.messages@),
            input: self.input@,
            ctx_exceeded: self.ctx_exceeded,
        }
    }
}

/// A dialogue in which nothing was said.
pub open spec fn empty_chat() -> ChatPanel {
    ChatPanel { messages: Seq::empty(), input: Seq::empty(), ctx_exceeded: false }
}

impl Default for ChatView {
    fn default() -> (r: Self)
        ensures
            r@ == empty_chat(),
    {
        let r = ChatView { messages: Vec::new(), input: String::new(), ctx_exceeded: false };
        assert(r@.messages =~= Seq::<(Role, Seq<char>)>::empty());
        r
    }
}

/// Messages with a text behind the last, where the assistant says that one.
pub open spec fn continued(messages: Seq<(Role, Seq<char>)>, text: Seq<char>) -> Seq<
    (Role, Seq<char>),
> {
    if messages.len() > 0 && messages.last().0 == Role::Assistant {
        messages.drop_last().push((Role::Assistant, messages.last().1 + text))
    } else {
        messages
    }
}

impl ChatView {
    /// One more message.
    pub fn push(&mut self, role: Role, text: &str)
        ensures
            final(self)@ == (ChatPanel {
                messages: old(self)@.messages.push((role, text@)),
                ..old(self)@
            }),
    {
        let ghost before = self@.messages;
        self.messages.push(ChatMessage { role, content: owned(text) });
        assert(self@.messages =~= before.push((role, text@)));
    }

    /// More of what the assistant says.
    pub fn continue_reply(&mut self, text: &str)
        ensures
            final(self)@ == (ChatPanel {
                messages: continued(old(self)@.messages, text@),
                ..old(self)@
            }),
    {
        let ghost before = self@.messages;
        match self.messages.pop() {
            Some(last) => {
                let mut m = last;
                let ghost said = m@;
                match m.role {
                    Role::Assistant => m.content.append(text),
                    Role::User => {},
                }
                self.messages.push(m);
                assert(before.last() == said);
                assert(self@.messages =~= continued(before, text@));
            },
            None => {
                assert(self@.messages =~= before);
            },
        }
    }

    /// A new dialogue; what is being typed stays.
    pub fn reset(&mut self)
        ensures
            final(self)@ == (ChatPanel {
                messages: Seq::empty(),
                ctx_exceeded: false,
                ..old(self)@
            }),
    {
        self.messages = Vec::new();
        self.ctx_exceeded = false;
        assert(self@.messages =~= Seq::<(Role, Seq<char>)>::empty());
    }

    /// Whether the dialogue shows that a reply is being written.
    pub fn is_generating(state: AppState, target: StreamingTarget) -> (r: bool)
        ensures
            r == (state == AppState::Generating && target == StreamingTarget::Chat),
    {
        state == AppState::Generating && target == StreamingTarget::Chat
    }
}

} // verus!
