//! The events of a streamed completion and the messages they become.
use crate::text::{to_chars};
use vstd::prelude::*;

verus! {

/// A message of the summary stream: a piece of text, its end, or a failure.
#[derive(Debug)]
pub enum SseMessage {
    Message(String),
    Done,
    Error,
}

/// The text added by one event.
#[derive(Debug)]
pub struct Delta {
    pub content: String,
}

/// One choice of an event.
#[derive(Debug)]
pub struct Choice {
    pub delta: Option<Delta>,
}

/// One event of a streamed completion: exactly one choice.
#[derive(Debug)]
pub struct ChatCompletionChunk {
    pub choices: (Choice,),
}

impl ChatCompletionChunk {
    /// The text that the event adds, if its choice has a delta.
    pub fn content(self) -> (c: Option<String>)
        ensures
            c.deep_view() == match self.choices.0.delta {
                Some(d) => Some(d.content@),
                None => None,
            },
    {
        match self.choices.0.delta {
            Some(d) => Some(d.content),
            None => None,
        }
    }
}

/// The JSON payload of an event as the endpoint sends it: everything from the first `{` on;
/// `None` for an empty event or one without `{`.
pub fn json_payload(bytes: &[u8]) -> (r: Option<&[u8]>)
    ensures
        r is Some <==> exists|i: int| 0 <= i < bytes@.len() && bytes@[i] == 0x7bu8,
        r matches Some(p) ==> exists|i: int|
            0 <= i < bytes@.len() && bytes@[i] == 0x7bu8 && (forall|j: int| 0 <= j < i ==> bytes@[j]
                != 0x7bu8) && p@ == bytes@.skip(i),
{
    let mut i: usize = 0;
    while i < bytes.len()
        invariant
            i <= bytes@.len(),
            forall|j: int| 0 <= j < i ==> bytes@[j] != 0x7bu8,
        decreases bytes@.len() - i,
    {
        if bytes[i] == 0x7bu8 {
            let p = vstd::slice::slice_subrange(bytes, i, bytes.len());
            assert(p@ =~= bytes@.skip(i as int));
            return Some(p);
        }
        i = i + 1;
    }
    None
}

/// The summary message that an event becomes: its text, unless it has none or it is empty.
pub fn message_from_chunk(chunk: ChatCompletionChunk) -> (m: Option<SseMessage>)
    ensures
        match chunk.choices.0.delta {
            Some(d) => if d.content@.len() > 0 {
                m matches Some(SseMessage::Message(s)) && s@ == d.content@
            } else {
                m is None
            },
            None => m is None,
        },
{
    match chunk.content() {
        Some(content) => {
            if to_chars(content.as_str()).len() == 0 {
                None
            } else {
                Some(SseMessage::Message(content))
            }
        },
        None => None,
    }
}

} // verus!
