//! The assistant chat: its commands, the history of the conversation, and the
//! entry that saves a reply to the marker notes.

use vstd::prelude::*;
use crate::fuzzy::{str_lowercase, to_lowercase};
use crate::markdown::{law_plain_text_unchanged, stripped_markdown, strip_markdown_symbols};
use crate::text::{append_chars, chars_eq, chars_of, string_of};

verus! {

/// Who wrote a message.
#[derive(Clone, Copy, PartialEq, Eq, Structural, Debug)]
pub enum ChatRole {
    User,
    Assistant,
}

/// One message of the conversation.
pub struct ChatMessage {
    pub role: ChatRole,
    pub content: String,
}

/// The conversation so far, oldest message first.
pub struct ChatHistory {
    messages: Vec<ChatMessage>,
}

impl View for ChatHistory {
    type V = Seq<(ChatRole, Seq<char>)>;

    closed spec fn view(&self) -> Seq<(ChatRole, Seq<char>)> {
        self.messages@.map_values(|m: ChatMessage| (m.role, m.content@))
    }
}

impl ChatHistory {
    /// An empty conversation.
    pub fn new() -> (h: Self)
        ensures
            h@ == Seq::<(ChatRole, Seq<char>)>::empty(),
    {
        let h = ChatHistory { messages: Vec::new() };
        assert(h@ =~= Seq::<(ChatRole, Seq<char>)>::empty());
        h
    }

    /// The number of messages.
    pub fn len(&self) -> (r: usize)
        ensures
            r == self@.len(),
    {
        self.messages.len()
    }

    /// Message `i`.
    pub fn message(&self, i: usize) -> (r: &ChatMessage)
        requires
            i < self@.len(),
        ensures
            (r.role, r.content@) == self@[i as int],
    {
        &self.messages[i]
    }

    /// Appends a message.
    pub fn push(&mut self, role: ChatRole, content: String)
        ensures
            final(self)@ == old(self)@.push((role, content@)),
    {
        let ghost before = self@;
        self.messages.push(ChatMessage { role, content });
        assert(self@ =~= before.push((role, self.messages@.last().content@)));
    }

    /// Appends a message of the user.
    pub fn push_user(&mut self, content: String)
        ensures
            final(self)@ == old(self)@.push((ChatRole::User, content@)),
    {
        self.push(ChatRole::User, content);
    }

    /// Appends a reply of the assistant.
    pub fn push_assistant(&mut self, content: String)
        ensures
            final(self)@ == old(self)@.push((ChatRole::Assistant, content@)),
    {
        self.push(ChatRole::Assistant, content);
    }

    /// The content of the last message, if any: what `/s` saves, whoever
    /// wrote it.
    pub fn last_content(&self) -> (r: Option<String>)
        ensures
            match r {
                Some(c) => self@.len() > 0 && c@ == self@.last().1,
                None => self@.len() == 0,
            },
    {
        let n = self.messages.len();
        if n == 0 {
            None
        } else {
            let c = self.messages[n - 1].content.clone();
            assert(self@[n - 1] == (self.messages@[n - 1].role, self.messages@[n - 1].content@));
            Some(c)
        }
    }
}

/// The message last appended is the one that the last message shows.
pub proof fn law_last_is_latest(h: Seq<(ChatRole, Seq<char>)>, role: ChatRole, content: Seq<char>)
    ensures
        h.push((role, content)).len() > 0,
        h.push((role, content)).last().1 == content,
{
}

/// What a line typed in the chat asks for.
#[derive(Clone, Copy, PartialEq, Eq, Structural, Debug)]
pub enum ChatCommand {
    /// `/e`, in any case: leave the chat.
    Exit,
    /// `/s`, in any case: save the last message of the conversation to the notes.
    SaveLast,
    /// Anything else: send it to the assistant.
    Send,
}

/// The command that a lowercase line stands for.
pub open spec fn lowercase_command(lower: Seq<char>) -> ChatCommand {
    if lower == "/e"@ {
        ChatCommand::Exit
    } else if lower == "/s"@ {
        ChatCommand::SaveLast
    } else {
        ChatCommand::Send
    }
}

/// The command of a line typed in the chat, compared in lowercase.
pub open spec fn command_of(input: Seq<char>) -> ChatCommand {
    lowercase_command(str_lowercase(input))
}

/// The command that a line, already in lowercase, stands for.
pub fn command_from_lowercase(lower: &str) -> (r: ChatCommand)
    ensures
        r == lowercase_command(lower@),
{
    let l = chars_of(lower);
    if chars_eq(&l, &chars_of("/e")) {
        ChatCommand::Exit
    } else if chars_eq(&l, &chars_of("/s")) {
        ChatCommand::SaveLast
    } else {
        ChatCommand::Send
    }
}

/// The command of a line typed in the chat: `/e` and `/s` in any case.
pub fn chat_command(input: &str) -> (r: ChatCommand)
    ensures
        r == command_of(input@),
{
    let lower = to_lowercase(input);
    command_from_lowercase(lower.as_str())
}

/// A rule of 50 underscores.
pub open spec fn rule() -> Seq<char> {
    Seq::new(50, |i: int| '_')
}

/// The entry appended to the notes when a reply is saved: a rule, a `>`
/// block naming alterAi, the time, the reply without markdown symbols, and a
/// closing rule, each on lines of their own.
pub open spec fn note_entry_text(timestamp: Seq<char>, reply: Seq<char>) -> Seq<char> {
    "\n"@ + rule() + "\n>\n alterAi \n>\n"@ + timestamp + "\n\n"@ + stripped_markdown(reply) + "\n"@
        + rule() + "\n"@
}

/// The entry appended to the notes when `reply` is saved at `timestamp`.
pub fn note_entry(timestamp: &str, reply: &str) -> (r: String)
    ensures
        r@ == note_entry_text(timestamp@, reply@),
{
    let mut line: Vec<char> = Vec::new();
    for i in 0..50usize
        invariant
            line@ == Seq::new(i as nat, |j: int| '_'),
    {
        line.push('_');
        assert(line@ =~= Seq::new((i + 1) as nat, |j: int| '_'));
    }
    assert(line@ =~= rule());
    let mut out = chars_of("\n");
    append_chars(&mut out, &line);
    append_chars(&mut out, &chars_of("\n>\n alterAi \n>\n"));
    append_chars(&mut out, &chars_of(timestamp));
    append_chars(&mut out, &chars_of("\n\n"));
    let stripped = strip_markdown_symbols(reply);
    append_chars(&mut out, &chars_of(stripped.as_str()));
    append_chars(&mut out, &chars_of("\n"));
    append_chars(&mut out, &line);
    append_chars(&mut out, &chars_of("\n"));
    string_of(&out)
}

/// The saved entry holds the whole reply, stripped of markdown symbols, with
/// nothing cut: a newline and a rule of 50 underscores, the 15-character
/// `>` block naming alterAi, the timestamp, an empty line, the stripped
/// reply, then a newline, a rule of 50 underscores and a newline. A reply
/// with no markdown symbols is saved as it is.
pub proof fn law_entry_holds_whole_reply(timestamp: Seq<char>, reply: Seq<char>)
    ensures
        ({
            let e = note_entry_text(timestamp, reply);
            let r = stripped_markdown(reply);
            let tl = timestamp.len() as int;
            let rl = r.len() as int;
            let at = 68 + tl;
            &&& e.len() == at + rl + 52
            &&& e[0] == '\n'
            &&& forall|i: int| 1 <= i < 51 ==> #[trigger] e[i] == '_'
            &&& e.subrange(51, 66) == "\n>\n alterAi \n>\n"@
            &&& e.subrange(66, 66 + tl) == timestamp
            &&& e[66 + tl] == '\n' && e[67 + tl] == '\n'
            &&& e.subrange(at, at + rl) == r
            &&& e[at + rl] == '\n'
            &&& forall|i: int| at + rl + 1 <= i < at + rl + 51 ==> #[trigger] e[i] == '_'
            &&& e[at + rl + 51] == '\n'
            &&& (!reply.contains('*') && !reply.contains('_') && !reply.contains('`')) ==> e.subrange(
                at,
                at + reply.len() as int,
            ) == reply
        }),
{
    reveal_strlit("\n");
    reveal_strlit("\n>\n alterAi \n>\n");
    reveal_strlit("\n\n");
    let e = note_entry_text(timestamp, reply);
    let r = stripped_markdown(reply);
    let tl = timestamp.len() as int;
    let rl = r.len() as int;
    let at = 68 + tl;
    let p1 = "\n"@ + rule();
    let p2 = p1 + "\n>\n alterAi \n>\n"@;
    let p3 = p2 + timestamp;
    let p4 = p3 + "\n\n"@;
    let p5 = p4 + r;
    let p6 = p5 + "\n"@;
    let p7 = p6 + rule();
    assert(e == p7 + "\n"@);
    assert(p4.len() == at);
    assert(e.subrange(51, 66) =~= "\n>\n alterAi \n>\n"@);
    assert(e.subrange(66, 66 + tl) =~= timestamp);
    assert(e.subrange(at, at + rl) =~= r);
    assert forall|i: int| 1 <= i < 51 implies #[trigger] e[i] == '_' by {
        assert(e[i] == rule()[i - 1]);
    }
    assert forall|i: int| at + rl + 1 <= i < at + rl + 51 implies #[trigger] e[i] == '_' by {
        assert(e[i] == rule()[i - at - rl - 1]);
    }
    if !reply.contains('*') && !reply.contains('_') && !reply.contains('`') {
        law_plain_text_unchanged(reply);
    }
}

} // verus!
