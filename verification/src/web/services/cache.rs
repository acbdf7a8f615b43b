//! Names of the files in which transcripts are kept, by their state.
use crate::web::utils::{first_value, YTUrl};
use vstd::prelude::*;

verus! {

/// The state of a transcript.
#[derive(Debug, Clone, Copy, PartialEq, Eq)]
pub enum TranscriptState {
    Raw,
    Clean,
    Summarized,
}

/// The extension of the file of a transcript in `state`.
pub open spec fn spec_state_extension(state: TranscriptState) -> Seq<char> {
    match state {
        TranscriptState::Raw => "en.vtt"@,
        TranscriptState::Clean => "en.clean"@,
        TranscriptState::Summarized => "md"@,
    }
}

/// The extension of the file of a transcript in `state`.
pub fn state_extension(state: TranscriptState) -> (e: &'static str)
    ensures
        e@ == spec_state_extension(state),
{
    match state {
        TranscriptState::Raw => "en.vtt",
        TranscriptState::Clean => "en.clean",
        TranscriptState::Summarized => "md",
    }
}

/// What a kept transcript is found by: the video and the state.
#[derive(Debug, Clone)]
pub struct Key {
    pub url: YTUrl,
    pub state: TranscriptState,
}

/// The name of the file of the transcript of `key`: the video id, a dot and the extension of
/// the state; `None` where the URL has no video id.
pub fn key_file_name(key: &Key) -> (n: Option<String>)
    ensures
        match first_value(key.url@.2, seq!['v']) {
            Some(id) => n matches Some(s) && s@ == id + seq!['.'] + spec_state_extension(key.state),
            None => n is None,
        },
{
    match key.url.id() {
        Some(id) => {
            let mut n = String::from_str(id);
            n.append(".");
            n.append(state_extension(key.state));
            proof {
                reveal_strlit(".");
            }
            Some(n)
        },
        None => None,
    }
}

} // verus!
