use vstd::prelude::*;

verus! {

/// A reply from the conversational collaborator: the spoken message plus the
/// emote and posing cues extracted from it.
pub struct AiResponse {
    pub message: String,
    pub emotes: Vec<String>,
    pub posings: Vec<String>,
}

impl AiResponse {
    pub fn new(message: String, emotes: Vec<String>, posings: Vec<String>) -> (r: Self)
        ensures
            r.message@ == message@,
            r.emotes == emotes,
            r.posings == posings,
    {
        AiResponse { message, emotes, posings }
    }

    /// A reply that carries only a message, with no cues.
    pub fn new_only_message(message: String) -> (r: Self)
        ensures
            r.message@ == message@,
            r.emotes@.len() == 0,
            r.posings@.len() == 0,
    {
        AiResponse { message, emotes: Vec::new(), posings: Vec::new() }
    }

    /// The reply used when the input was deliberately ignored: empty message,
    /// no cues.
    pub fn new_ignored() -> (r: Self)
        ensures
            r.message@.len() == 0,
            r.emotes@.len() == 0,
            r.posings@.len() == 0,
    {
        let message: String = String::new();
        AiResponse { message, emotes: Vec::new(), posings: Vec::new() }
    }
}

} // verus!
