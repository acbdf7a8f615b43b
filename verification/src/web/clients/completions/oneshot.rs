//! The answer of the completion endpoint to a request that is not streamed.
use crate::web::clients::completions::Message;
use vstd::prelude::*;

verus! {

/// One choice of the answer.
#[derive(Debug)]
pub struct Choice {
    pub message: Message,
}

/// The answer: exactly one choice.
#[derive(Debug)]
pub struct Response {
    pub choices: (Choice,),
}

impl Response {
    /// The content of the message of the choice.
    pub fn content(self) -> (c: String)
        ensures
            c@ == self.choices.0.message.content@,
    {
        self.choices.0.message.content
    }
}

} // verus!
