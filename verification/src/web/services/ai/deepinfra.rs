//! The answer of the DeepInfra completion endpoint.
use vstd::prelude::*;

verus! {

/// A message of a conversation with the model.
#[derive(Debug, Clone)]
pub struct Message {
    pub role: String,
    pub content: String,
}

/// One choice of an answer.
#[derive(Debug, Clone)]
pub struct Choice {
    pub message: Message,
}

/// An answer: its choices.
#[derive(Debug, Clone)]
pub struct Response {
    pub choices: Vec<Choice>,
}

impl Response {
    /// The content of the message of the first choice; `None` where there is no choice.
    pub fn first_content(&self) -> (c: Option<&str>)
        ensures
            self.choices@.len() == 0 ==> c is None,
            self.choices@.len() > 0 ==> (c matches Some(s) && s@
                == self.choices@[0].message.content@),
    {
        if self.choices.len() == 0 {
            None
        } else {
            Some(self.choices[0].message.content.as_str())
        }
    }
}

} // verus!
