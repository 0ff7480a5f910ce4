//! The chat with the agent: what is shown, and when a message goes out.

use crate::gui::{AgentChatMessage, AgentChatRole, GuiAction};
use crate::text;
use vstd::prelude::*;

verus! {

/// The state of the agent panel.
#[derive(Debug)]
pub struct AgentChat {
    pub input: String,
    pub messages: Vec<AgentChatMessage>,
    pub is_running: bool,
    /// Accumulated streaming text for the current assistant response.
    pub streaming_text: String,
    pub provider_type: String,
    pub base_url: String,
    pub api_key: String,
    pub model_id: String,
}

/// How a message is drawn: who says it, in which colour, on which background.
#[derive(Debug, Clone, Copy)]
pub struct MessageStyle {
    pub prefix: &'static str,
    pub color: [u8; 3],
    pub background: [u8; 4],
}

/// The style of a role is this one.
pub open spec fn style_is(role: AgentChatRole, s: MessageStyle) -> bool {
    match role {
        AgentChatRole::User => s.prefix@ == "You"@ && s.color == [100u8, 180, 255] && s.background
            == [30u8, 60, 100, 40],
        AgentChatRole::Assistant => s.prefix@ == "AI"@ && s.color == [130u8, 220, 130]
            && s.background == [30u8, 80, 40, 40],
        AgentChatRole::ToolCall => s.prefix@ == "⚙"@ && s.color == [200u8, 180, 100]
            && s.background == [60u8, 50, 20, 40],
        AgentChatRole::Error => s.prefix@ == "✗"@ && s.color == [255u8, 100, 100] && s.background
            == [80u8, 20, 20, 40],
    }
}

/// How a message of a role is drawn.
pub fn message_style(role: AgentChatRole) -> (r: MessageStyle)
    ensures
        style_is(role, r),
{
    match role {
        AgentChatRole::User => MessageStyle {
            prefix: "You",
            color: [100, 180, 255],
            background: [30, 60, 100, 40],
        },
        AgentChatRole::Assistant => MessageStyle {
            prefix: "AI",
            color: [130, 220, 130],
            background: [30, 80, 40, 40],
        },
        AgentChatRole::ToolCall => MessageStyle {
            prefix: "⚙",
            color: [200, 180, 100],
            background: [60, 50, 20, 40],
        },
        AgentChatRole::Error => MessageStyle {
            prefix: "✗",
            color: [255, 100, 100],
            background: [80, 20, 20, 40],
        },
    }
}

impl AgentChat {
    /// A chat with nothing said, set up for the usual provider.
    pub open spec fn is_fresh(self) -> bool {
        &&& self.input@ == Seq::<char>::empty()
        &&& self.messages@ == Seq::<AgentChatMessage>::empty()
        &&& !self.is_running
        &&& self.streaming_text@ == Seq::<char>::empty()
        &&& self.provider_type@ == "openai"@
        &&& self.base_url@ == "https://api.deepseek.com/v1"@
        &&& self.api_key@ == Seq::<char>::empty()
        &&& self.model_id@ == "deepseek-chat"@
    }

    /// A message goes out: none is being answered, it was sent off, and it is not blank.
    pub open spec fn sends(self, send_clicked: bool, enter_pressed: bool) -> bool {
        !self.is_running && (send_clicked || enter_pressed) && text::trimmed(self.input@).len() > 0
    }

    /// A chat with nothing said.
    pub fn new() -> (r: AgentChat)
        ensures
            r.is_fresh(),
    {
        let c = AgentChat {
            input: String::new(),
            messages: Vec::new(),
            is_running: false,
            streaming_text: String::new(),
            provider_type: "openai".to_owned(),
            base_url: "https://api.deepseek.com/v1".to_owned(),
            api_key: String::new(),
            model_id: "deepseek-chat".to_owned(),
        };
        assert(c.input@ =~= Seq::empty());
        c
    }

    /// Whether the send button can be clicked: to cancel, or to send what is not blank.
    pub fn button_enabled(&self) -> (r: bool)
        ensures
            r == (self.is_running || text::trimmed(self.input@).len() > 0),
    {
        if self.is_running {
            return true;
        }
        let chars: Vec<char> = text::to_chars(self.input.as_str());
        let t: Vec<char> = text::trim(&chars);
        t.len() > 0
    }

    /// Whether the panel shows how to begin: nothing has been said.
    pub fn shows_hint(&self) -> (r: bool)
        ensures
            r == (self.messages@.len() == 0 && self.streaming_text@.len() == 0),
    {
        self.messages.len() == 0 && self.streaming_text.as_str().is_empty()
    }

    /// The message being streamed, if any of it has come.
    pub fn streaming(&self) -> (r: Option<AgentChatMessage>)
        ensures
            match r {
                Some(m) => self.streaming_text@.len() > 0 && m == (AgentChatMessage {
                    role: AgentChatRole::Assistant,
                    content: self.streaming_text,
                }),
                None => self.streaming_text@.len() == 0,
            },
    {
        if self.streaming_text.as_str().is_empty() {
            None
        } else {
            Some(
                AgentChatMessage {
                    role: AgentChatRole::Assistant,
                    content: self.streaming_text.clone(),
                },
            )
        }
    }

    /// Whether the panel shows that the agent is thinking: it runs and has said nothing yet.
    pub fn thinking(&self) -> (r: bool)
        ensures
            r == (self.is_running && self.streaming_text@.len() == 0),
    {
        self.is_running && self.streaming_text.as_str().is_empty()
    }

    /// The action that hands the agent its configuration.
    pub fn configure(&self) -> (r: GuiAction)
        ensures
            r == (GuiAction::AgentConfigure {
                provider_type: self.provider_type,
                base_url: self.base_url,
                api_key: self.api_key,
                model_id: self.model_id,
            }),
    {
        GuiAction::AgentConfigure {
            provider_type: self.provider_type.clone(),
            base_url: self.base_url.clone(),
            api_key: self.api_key.clone(),
            model_id: self.model_id.clone(),
        }
    }

    /// Handles the input bar: the button cancels a running agent; otherwise the button or Enter
    /// sends the input, trimmed, unless it is blank. Returns whether a message went out.
    pub fn submit(
        &mut self,
        send_clicked: bool,
        enter_pressed: bool,
        actions: &mut Vec<GuiAction>,
    ) -> (sent: bool)
        ensures
            sent == old(self).sends(send_clicked, enter_pressed),
            !sent ==> *final(self) == *old(self),
            !sent ==> final(actions)@ == if old(self).is_running && send_clicked {
                old(actions)@.push(GuiAction::AgentCancel)
            } else {
                old(actions)@
            },
            sent ==> {
                let m = final(self).messages@.last();
                &&& m.role == AgentChatRole::User
                &&& m.content@ == text::trimmed(old(self).input@)
                &&& final(self).messages@ == old(self).messages@.push(m)
                &&& final(self).input@ == Seq::<char>::empty()
                &&& *final(self) == (AgentChat {
                    input: final(self).input,
                    messages: final(self).messages,
                    is_running: true,
                    ..*old(self)
                })
                &&& final(actions)@ == old(actions)@.push(GuiAction::AgentSendMessage(m.content))
            },
    {
        if self.is_running {
            if send_clicked {
                actions.push(GuiAction::AgentCancel);
            }
            return false;
        }
        let chars: Vec<char> = text::to_chars(self.input.as_str());
        let t: Vec<char> = text::trim(&chars);
        if !(send_clicked || enter_pressed) || t.len() == 0 {
            return false;
        }
        let msg: String = text::to_string(&t);
        self.messages.push(AgentChatMessage { role: AgentChatRole::User, content: msg.clone() });
        self.input = String::new();
        self.is_running = true;
        actions.push(GuiAction::AgentSendMessage(msg));
        true
    }
}

/// Once a message is out, no other goes out until the agent has stopped.
pub proof fn law_one_message_at_a_time(after: AgentChat, send_clicked: bool, enter_pressed: bool)
    requires
        after.is_running,
    ensures
        !after.sends(send_clicked, enter_pressed),
{
}

/// A message goes out where it is sent by button or key, holds more than whitespace, and no other is
/// being answered; whitespace alone is never sent.
pub proof fn law_blank_is_not_sent(chat: AgentChat, send_clicked: bool, enter_pressed: bool)
    requires
        forall|i: int| 0 <= i < chat.input@.len() ==> text::white(#[trigger] chat.input@[i]),
    ensures
        !chat.sends(send_clicked, enter_pressed),
{
    let none = Seq::<char>::empty();
    text::law_trim_leaves_the_middle(chat.input@, none, none);
    assert(chat.input@ + none + none =~= chat.input@);
}

/// A message that begins and ends with more than whitespace goes out by the button and by the key,
/// while none is being answered.
pub proof fn law_message_is_sent(chat: AgentChat)
    requires
        !chat.is_running,
        chat.input@.len() > 0,
        !text::white(chat.input@[0]),
        !text::white(chat.input@.last()),
    ensures
        chat.sends(true, false),
        chat.sends(false, true),
        !chat.sends(false, false),
{
    let none = Seq::<char>::empty();
    text::law_trim_leaves_the_middle(none, chat.input@, none);
    assert(none + chat.input@ + none =~= chat.input@);
}

} // verus!
