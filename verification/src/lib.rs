pub mod ai;
pub mod channel_datum;
pub mod coeiroink;
pub mod command;
pub mod conf;
pub mod event_log;
pub mod fine_tuning;
pub mod gas_translation;
pub mod modify;
pub mod openai_chat;
pub mod pattern;
pub mod processor;
pub mod screenshot;
pub mod snapshot;
pub mod state;
pub mod text;
pub mod utility;
pub mod web_interface;

use vstd::prelude::*;

verus! {

/// Identity on booleans; the default used where a configuration record
/// leaves an enabled-flag unset.
pub fn bool_true() -> (r: bool)
    ensures
        r,
{
    true
}

} // verus!
