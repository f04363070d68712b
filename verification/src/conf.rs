use vstd::prelude::*;

verus! {

/// One literal injection of a command set: a channel and the content pushed
/// onto it.
pub struct ContentWithChannel {
    pub channel: String,
    pub content: String,
}

/// A named macro template: nested set names to expand before and after, and
/// the literal channel injections in between.
pub struct CommandSet {
    pub name: String,
    pub pre: Vec<String>,
    pub post: Vec<String>,
    pub channel_contents: Vec<ContentWithChannel>,
}

/// Fine-tuning corpus options: either just the training file path, or the
/// full record.
pub enum OpenAiChatFinetuning {
    /// Same as `Detail` with only the training path set.
    Path(String),
    /// The full record.
    Detail {
        train_path: String,
        validation_path: Option<String>,
        model: Option<String>,
        suffix: Option<String>,
    },
}

impl OpenAiChatFinetuning {
    /// The training file path named by either form.
    pub open spec fn spec_train_path(&self) -> Seq<char> {
        match self {
            OpenAiChatFinetuning::Path(p) => p@,
            OpenAiChatFinetuning::Detail { train_path, .. } => train_path@,
        }
    }

    /// (train_path, validation_path, model, suffix); the short form carries
    /// only the training path.
    pub fn to_tuple_for_input(&self) -> (r: (
        String,
        Option<String>,
        Option<String>,
        Option<String>,
    ))
        ensures
            r.0@ == self.spec_train_path(),
            match self {
                OpenAiChatFinetuning::Path(_) => r.1 is None && r.2 is None && r.3 is None,
                OpenAiChatFinetuning::Detail { validation_path, model, suffix, .. } => {
                    &&& opt_string_eq(&r.1, validation_path)
                    &&& opt_string_eq(&r.2, model)
                    &&& opt_string_eq(&r.3, suffix)
                },
            },
    {
        match self {
            OpenAiChatFinetuning::Path(train_path) => (train_path.clone(), None, None, None),
            OpenAiChatFinetuning::Detail { train_path, validation_path, model, suffix } => (
                train_path.clone(),
                clone_opt_string(validation_path),
                clone_opt_string(model),
                clone_opt_string(suffix),
            ),
        }
    }

    /// The training file path.
    pub fn train_path(&self) -> (r: String)
        ensures
            r@ == self.spec_train_path(),
    {
        match self {
            OpenAiChatFinetuning::Path(train_path) => train_path.clone(),
            OpenAiChatFinetuning::Detail { train_path, .. } => train_path.clone(),
        }
    }
}

/// The two optional strings hold the same text.
pub open spec fn opt_string_eq(a: &Option<String>, b: &Option<String>) -> bool {
    match (a, b) {
        (Some(x), Some(y)) => x@ == y@,
        (None, None) => true,
        _ => false,
    }
}

/// A copy of an optional string with the same text.
pub fn clone_opt_string(o: &Option<String>) -> (r: Option<String>)
    ensures
        opt_string_eq(&r, o),
{
    match o {
        Some(s) => Some(s.clone()),
        None => None,
    }
}

/// One processor's configuration record: a `feature` tag selecting the
/// variant plus the feature-specific optional fields the engine reads.
/// Settings that only concern the collaborators outside the engine (network
/// endpoints, audio, sampling temperatures) live with those collaborators.
pub struct ProcessorConf {
    pub id: Option<String>,
    pub is_enabled: bool,
    pub group: Vec<String>,
    pub channel_from: Option<String>,
    pub channel_to: Option<String>,
    pub feature: Option<String>,
    // command
    pub through_if_not_command: Option<bool>,
    pub response_mod: Vec<Vec<String>>,
    pub set: Vec<CommandSet>,
    // modify
    pub modify: Option<bool>,
    pub sort_dictionary: Option<String>,
    pub alkana: Option<bool>,
    // conversational
    pub model: Option<String>,
    pub custom_instructions: Option<String>,
    pub max_tokens: Option<u16>,
    pub n: Option<u8>,
    pub user: Option<String>,
    pub memory_capacity: Option<usize>,
    pub force_activate_regex_pattern: Option<String>,
    pub ignore_regex_pattern: Option<String>,
    pub min_interval_in_secs: Option<u64>,
    pub remove_chars: Option<String>,
    pub fine_tuning: Option<OpenAiChatFinetuning>,
}

impl ProcessorConf {
    /// An empty record: no feature, no channels, everything left to the
    /// defaults.
    pub fn empty() -> (r: Self)
        ensures
            r.feature is None,
            r.channel_from is None,
            r.channel_to is None,
            r.is_enabled,
    {
        ProcessorConf {
            id: None,
            is_enabled: true,
            group: Vec::new(),
            channel_from: None,
            channel_to: None,
            feature: None,
            through_if_not_command: None,
            response_mod: Vec::new(),
            set: Vec::new(),
            modify: None,
            sort_dictionary: None,
            alkana: None,
            model: None,
            custom_instructions: None,
            max_tokens: None,
            n: None,
            user: None,
            memory_capacity: None,
            force_activate_regex_pattern: None,
            ignore_regex_pattern: None,
            min_interval_in_secs: None,
            remove_chars: None,
            fine_tuning: None,
        }
    }
}

/// Where the web interface's static resources live when the configuration
/// names no other place.
pub fn default_web_ui_resources_path() -> (r: Option<String>)
    ensures
        r matches Some(s) && s@ == "resources"@,
{
    let s: String = "resources".to_owned();
    Some(s)
}

/// A startup side command: either a plain command line, or one guarded by a
/// process check with optional elevation and working directory.
pub enum RunWith {
    Command(String),
    CommandIfProcessIsNotRunning {
        command: String,
        if_not_running: Option<String>,
        run_as_admin: Option<bool>,
        working_dir: Option<String>,
    },
}

} // verus!
