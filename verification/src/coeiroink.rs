use vstd::prelude::*;

verus! {

/// A speech-synthesis speaker as the synthesis collaborator reports it.
#[derive(Debug)]
pub struct Speaker {
    pub speakerName: String,
    pub speakerUuid: String,
    pub styles: Vec<SpeakerStyle>,
    pub version: Option<String>,
    pub base64Portrait: Option<String>,
}

/// One voice style of a speaker.
#[derive(Debug)]
pub struct SpeakerStyle {
    pub styleName: String,
    pub styleId: i64,
    pub base64Icon: Option<String>,
    pub base64Portrait: Option<String>,
}

} // verus!
