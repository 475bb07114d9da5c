//! Chat message types

use vstd::prelude::*;
use crate::bbcode::{spec_render, strip_bbcode};
use crate::render::PlainTextRenderer;
use crate::text::{append_str, chars_of, string_of};
use std::time::SystemTime;

verus! {

#[verifier::external_type_specification]
#[verifier::external_body]
pub struct ExSystemTime(SystemTime);

/// `<SystemTime as Clone>::clone`: `SystemTime` is `Copy`, so the clone is the same instant.
pub assume_specification[ <SystemTime as Clone>::clone ](t: &SystemTime) -> (r: SystemTime)
    ensures
        r == *t,
;

/// `SystemTime::now`: the current wall-clock time; nothing is stated of it.
#[verifier::external_body]
fn system_time_now() -> SystemTime {
    SystemTime::now()
}

/// Target for a chat message
#[derive(Debug, Clone, Copy, PartialEq, Eq, Structural)]
pub enum MessageTarget {
    /// Server-wide message
    Server,
    /// Channel message
    Channel(u64),
    /// Private message to a user
    Private(u16),
}

/// The source of message identifiers: each message gets the next number.
#[derive(Debug)]
pub struct MessageIds {
    next: u64,
}

impl MessageIds {
    /// The identifier the next message receives.
    pub closed spec fn next_id(&self) -> u64 {
        self.next
    }

    /// A source whose first identifier is 0.
    pub fn new() -> (r: MessageIds)
        ensures
            r.next_id() == 0,
    {
        MessageIds { next: 0 }
    }

    /// Takes the next identifier; identifiers increase by one, wrapping at
    /// `u64::MAX` as an atomic counter does.
    pub fn take(&mut self) -> (id: u64)
        ensures
            id == old(self).next_id(),
            final(self).next_id() == if id == u64::MAX {
                0
            } else {
                (id + 1) as u64
            },
    {
        let id = self.next;
        self.next = if id == u64::MAX {
            0
        } else {
            id + 1
        };
        id
    }
}

/// A chat message
#[derive(Debug, Clone)]
pub struct ChatMessage {
    /// Message ID (local)
    pub id: u64,
    /// Sender client ID
    pub sender_id: u16,
    /// Sender nickname
    pub sender_name: String,
    /// Sender unique ID
    pub sender_uid: Option<String>,
    /// Message target
    pub target: MessageTarget,
    /// Raw message content (may contain BBCode)
    pub content: String,
    /// Timestamp
    pub timestamp: SystemTime,
    /// Is this message from us
    pub is_own: bool,
}

impl ChatMessage {
    /// Create a new chat message with the next identifier of `ids`.
    pub fn new(
        sender_id: u16,
        sender_name: &str,
        target: MessageTarget,
        content: &str,
        ids: &mut MessageIds,
    ) -> (m: ChatMessage)
        ensures
            m.id == old(ids).next_id(),
            final(ids).next_id() == if m.id == u64::MAX {
                0
            } else {
                (m.id + 1) as u64
            },
            m.sender_id == sender_id,
            m.sender_name@ == sender_name@,
            m.sender_uid is None,
            m.target == target,
            m.content@ == content@,
            !m.is_own,
    {
        let id = ids.take();
        ChatMessage {
            id,
            sender_id,
            sender_name: string_of(&chars_of(sender_name)),
            sender_uid: None,
            target,
            content: string_of(&chars_of(content)),
            timestamp: system_time_now(),
            is_own: false,
        }
    }

    /// Check if this is a private message
    pub fn is_private(&self) -> (r: bool)
        ensures
            r <==> self.target is Private,
    {
        match self.target {
            MessageTarget::Private(_) => true,
            _ => false,
        }
    }

    /// Check if this is a channel message
    pub fn is_channel(&self) -> (r: bool)
        ensures
            r <==> self.target is Channel,
    {
        match self.target {
            MessageTarget::Channel(_) => true,
            _ => false,
        }
    }

    /// Check if this is a server message
    pub fn is_server(&self) -> (r: bool)
        ensures
            r <==> self.target is Server,
    {
        match self.target {
            MessageTarget::Server => true,
            _ => false,
        }
    }

    /// Get plain text content (strip BBCode)
    pub fn plain_text(&self) -> (r: String)
        ensures
            r@ == spec_render(&PlainTextRenderer, self.content@),
    {
        strip_bbcode(self.content.as_str())
    }
}

/// Builder for creating messages to send
#[derive(Debug, Clone)]
pub struct MessageBuilder {
    content: String,
    target: Option<MessageTarget>,
}

impl MessageBuilder {
    /// The text built so far.
    pub closed spec fn spec_content(&self) -> Seq<char> {
        self.content@
    }

    /// The target chosen so far.
    pub closed spec fn spec_target(&self) -> Option<MessageTarget> {
        self.target
    }

    /// Create a new message builder
    pub fn new() -> (b: MessageBuilder)
        ensures
            b.spec_content() == Seq::<char>::empty(),
            b.spec_target() is None,
    {
        MessageBuilder { content: String::new(), target: None }
    }

    fn appended(self, parts: &[&str]) -> (b: MessageBuilder)
        ensures
            b.spec_target() == self.spec_target(),
            b.spec_content() == self.spec_content() + concat_views(parts@),
    {
        let mut v = chars_of(self.content.as_str());
        let mut i: usize = 0;
        while i < parts.len()
            invariant
                i <= parts.len(),
                v@ == self.content@ + concat_views(parts@.take(i as int)),
            decreases parts.len() - i,
        {
            append_str(&mut v, parts[i]);
            i += 1;
            assert(parts@.take(i as int).drop_last() == parts@.take(i - 1 as int));
        }
        assert(parts@.take(parts.len() as int) == parts@);
        MessageBuilder { content: string_of(&v), target: self.target }
    }

    /// Set the message content
    pub fn content(self, content: &str) -> (b: MessageBuilder)
        ensures
            b.spec_content() == content@,
            b.spec_target() == self.spec_target(),
    {
        MessageBuilder { content: string_of(&chars_of(content)), target: self.target }
    }

    /// Add text to the message
    pub fn text(self, text: &str) -> (b: MessageBuilder)
        ensures
            b.spec_content() == self.spec_content() + text@,
            b.spec_target() == self.spec_target(),
    {
        let parts = [text];
        assert(parts@ =~= seq![text]);
        let b = self.appended(&parts);
        proof {
            lemma_concat1(text);
        }
        b
    }

    /// Add bold text
    pub fn bold(self, text: &str) -> (b: MessageBuilder)
        ensures
            b.spec_content() == self.spec_content() + "[b]"@ + text@ + "[/b]"@,
            b.spec_target() == self.spec_target(),
    {
        let b = self.appended(&["[b]", text, "[/b]"]);
        proof {
            lemma_concat3("[b]", text, "[/b]");
        }
        b
    }

    /// Add italic text
    pub fn italic(self, text: &str) -> (b: MessageBuilder)
        ensures
            b.spec_content() == self.spec_content() + "[i]"@ + text@ + "[/i]"@,
            b.spec_target() == self.spec_target(),
    {
        let b = self.appended(&["[i]", text, "[/i]"]);
        proof {
            lemma_concat3("[i]", text, "[/i]");
        }
        b
    }

    /// Add underlined text
    pub fn underline(self, text: &str) -> (b: MessageBuilder)
        ensures
            b.spec_content() == self.spec_content() + "[u]"@ + text@ + "[/u]"@,
            b.spec_target() == self.spec_target(),
    {
        let b = self.appended(&["[u]", text, "[/u]"]);
        proof {
            lemma_concat3("[u]", text, "[/u]");
        }
        b
    }

    /// Add colored text
    pub fn color(self, color: &str, text: &str) -> (b: MessageBuilder)
        ensures
            b.spec_content() == self.spec_content() + "[color="@ + color@ + "]"@ + text@
                + "[/color]"@,
            b.spec_target() == self.spec_target(),
    {
        let b = self.appended(&["[color=", color, "]", text, "[/color]"]);
        proof {
            lemma_concat5("[color=", color, "]", text, "[/color]");
        }
        b
    }

    /// Add a URL
    pub fn url(self, url: &str, text: Option<&str>) -> (b: MessageBuilder)
        ensures
            b.spec_content() == self.spec_content() + "[url="@ + url@ + "]"@ + (match text {
                Some(t) => t@,
                None => url@,
            }) + "[/url]"@,
            b.spec_target() == self.spec_target(),
    {
        let shown = match text {
            Some(t) => t,
            None => url,
        };
        let b = self.appended(&["[url=", url, "]", shown, "[/url]"]);
        proof {
            lemma_concat5("[url=", url, "]", shown, "[/url]");
        }
        b
    }

    /// Add a newline
    pub fn newline(self) -> (b: MessageBuilder)
        ensures
            b.spec_content() == self.spec_content().push('\n'),
            b.spec_target() == self.spec_target(),
    {
        let mut v = chars_of(self.content.as_str());
        v.push('\n');
        MessageBuilder { content: string_of(&v), target: self.target }
    }

    /// Set target to server
    pub fn to_server(self) -> (b: MessageBuilder)
        ensures
            b.spec_content() == self.spec_content(),
            b.spec_target() == Some(MessageTarget::Server),
    {
        MessageBuilder { content: self.content, target: Some(MessageTarget::Server) }
    }

    /// Set target to channel
    pub fn to_channel(self, channel_id: u64) -> (b: MessageBuilder)
        ensures
            b.spec_content() == self.spec_content(),
            b.spec_target() == Some(MessageTarget::Channel(channel_id)),
    {
        MessageBuilder { content: self.content, target: Some(MessageTarget::Channel(channel_id)) }
    }

    /// Set target to private message
    pub fn to_user(self, user_id: u16) -> (b: MessageBuilder)
        ensures
            b.spec_content() == self.spec_content(),
            b.spec_target() == Some(MessageTarget::Private(user_id)),
    {
        MessageBuilder { content: self.content, target: Some(MessageTarget::Private(user_id)) }
    }

    /// Build the message content
    pub fn build(self) -> (r: String)
        ensures
            r@ == self.spec_content(),
    {
        self.content
    }

    /// Get the target
    pub fn target(&self) -> (r: Option<MessageTarget>)
        ensures
            r == self.spec_target(),
    {
        self.target
    }
}

/// The concatenation of the contents of string slices.
pub open spec fn concat_views(parts: Seq<&str>) -> Seq<char>
    decreases parts.len(),
{
    if parts.len() == 0 {
        Seq::empty()
    } else {
        concat_views(parts.drop_last()) + parts.last()@
    }
}

proof fn lemma_concat1(a: &str)
    ensures
        concat_views(seq![a]) == a@,
{
    let s = seq![a];
    assert(s.drop_last() =~= Seq::<&str>::empty());
    assert(s.last() == a);
    assert(concat_views(Seq::<&str>::empty()) == Seq::<char>::empty());
    assert(concat_views(s) == concat_views(s.drop_last()) + s.last()@);
    assert(Seq::<char>::empty() + a@ =~= a@);
}

proof fn lemma_concat3(a: &str, b: &str, c: &str)
    ensures
        concat_views(seq![a, b, c]) == a@ + b@ + c@,
{
    let s = seq![a, b, c];
    let s2 = seq![a, b];
    assert(s.drop_last() =~= s2);
    assert(s2.drop_last() =~= seq![a]);
    lemma_concat1(a);
    assert(concat_views(s2) == concat_views(s2.drop_last()) + s2.last()@);
    assert(concat_views(s) == concat_views(s.drop_last()) + s.last()@);
}

proof fn lemma_concat5(a: &str, b: &str, c: &str, d: &str, e: &str)
    ensures
        concat_views(seq![a, b, c, d, e]) == a@ + b@ + c@ + d@ + e@,
{
    let s = seq![a, b, c, d, e];
    let s4 = seq![a, b, c, d];
    assert(s.drop_last() =~= s4);
    assert(s4.drop_last() =~= seq![a, b, c]);
    lemma_concat3(a, b, c);
    assert(concat_views(s4) == concat_views(s4.drop_last()) + s4.last()@);
    assert(concat_views(s) == concat_views(s.drop_last()) + s.last()@);
}

} // verus!
