use vstd::prelude::*;

use vstd::string::StringExecFns;

use crate::event_log::{find_spec, EventLog};

verus! {

/// The feature tag selecting the translation variant.
pub const FEATURE: &'static str = "gas-translation";

/// What the translation processor decides for a trigger: skip it, or hand
/// its content to the translation collaborator, remembering whether the
/// finality flag travels onto the reply.
pub enum TranslationGate {
    Skip,
    Translate { content: String, has_final: bool },
}

/// The gating of the translation variant: a missing trigger, a
/// non-finalized trigger (unless incomplete input is asked for) and empty
/// content are all skipped; anything else is handed over as it stands. The
/// source-language fallback and the call itself belong to the translation
/// collaborator.
pub fn translation_gate(log: &EventLog, id: u64, process_incomplete_input: bool) -> (r:
    TranslationGate)
    ensures
        match find_spec(log.model(), id) {
            None => r is Skip,
            Some(d) => {
                if (!d.is_final() && !process_incomplete_input) || d.content.len() == 0 {
                    r is Skip
                } else {
                    r matches TranslationGate::Translate { content, has_final }
                        && content@ == d.content && has_final == d.is_final()
                }
            },
        },
{
    let source = match log.rfind_channel_datum(id) {
        Some(d) => d,
        None => {
            return TranslationGate::Skip;
        },
    };
    let has_final = source.has_flag(crate::channel_datum::FLAG_IS_FINAL);
    if !has_final && !process_incomplete_input {
        return TranslationGate::Skip;
    }
    if source.get_content().as_str().is_empty() {
        return TranslationGate::Skip;
    }
    let content = source.get_content().clone();
    TranslationGate::Translate { content, has_final }
}

} // verus!
