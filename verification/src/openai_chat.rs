use vstd::prelude::*;

use crate::channel_datum::{ChannelDatum, DatumModel, FLAG_IS_FINAL};
use crate::conf::ProcessorConf;
use crate::event_log::{find_index_spec, EventLog};
use crate::pattern::{regex_is_match, regex_ok, Pattern};
use crate::processor::{ChatMessage, ChatRequest, ChatRole, CompletedAnd, Step};
use crate::text::{chars_to_string, dec_of, push_dec, str_to_chars, starts_with_chars, trim_str, trimmed};

verus! {

/// The feature tag selecting this processor variant.
pub const FEATURE: &'static str = "openai-chat";

/// Context entries kept per request when the configuration names no other
/// capacity.
pub const DEFAULT_MEMORY_CAPACITY: usize = 4;

/// Characters stripped from a reply when the configuration names no others.
pub const DEFAULT_REMOVE_CHARS: &'static str = "\n\r\t";

/// A context entry is kept when it is finalized and lies on the processor's
/// source or destination channel.
pub open spec fn keeps(d: DatumModel, from: Seq<char>, to: Seq<char>) -> bool {
    d.is_final() && (d.channel == from || d.channel == to)
}

/// The kept entries among the first `n` log entries, walking backward from
/// position `n - 1`, newest first, at most `left` of them.
pub open spec fn window_rev(
    log: Seq<DatumModel>,
    n: int,
    from: Seq<char>,
    to: Seq<char>,
    left: nat,
) -> Seq<DatumModel>
    decreases n,
{
    if n <= 0 || left == 0 {
        Seq::empty()
    } else if keeps(log[n - 1], from, to) {
        seq![log[n - 1]] + window_rev(log, n - 1, from, to, (left - 1) as nat)
    } else {
        window_rev(log, n - 1, from, to, left)
    }
}

/// Whether the configured model belongs to the family that needs the plain
/// text workaround and a default system instruction.
pub open spec fn gpt5(model: Option<String>) -> bool {
    match model {
        Some(m) => "gpt-5"@.is_prefix_of(m@),
        None => false,
    }
}

/// The role a kept entry plays: source channel speaks as the user, the
/// destination channel as the assistant, anything else as the system.
pub open spec fn role_of(d: DatumModel, from: Seq<char>, to: Seq<char>) -> ChatRole {
    if d.channel == from {
        ChatRole::User
    } else if d.channel == to {
        ChatRole::Assistant
    } else {
        ChatRole::System
    }
}

/// The static template the context is appended to: the configured system
/// instruction, or a default one for the model family that misbehaves
/// without it.
pub open spec fn template_prefix(c: &OpenAiChat) -> Seq<(ChatRole, Seq<char>)> {
    match c.custom_instructions {
        Some(ci) => seq![(ChatRole::System, ci@)],
        None => {
            if gpt5(c.model) {
                seq![
                    (
                        ChatRole::System,
                        "You are a helpful assistant. Provide a concise, direct response to the user. 日本語入力には日本語で返答して下さい。"@,
                    ),
                ]
            } else {
                Seq::empty()
            }
        },
    }
}

/// The view of role-tagged messages.
pub open spec fn messages_model(msgs: Seq<ChatMessage>) -> Seq<(ChatRole, Seq<char>)> {
    msgs.map_values(|m: ChatMessage| (m.role, m.content@))
}

/// The full message list of a request triggered at log position `idx`: the
/// template, then the kept window in chronological order, role-tagged.
pub open spec fn chat_messages_spec(c: &OpenAiChat, log: Seq<DatumModel>, idx: int) -> Seq<
    (ChatRole, Seq<char>),
> {
    template_prefix(c) + window_rev(
        log,
        idx + 1,
        c.channel_from@,
        c.channel_to@,
        c.memory_capacity as nat,
    ).reverse().map_values(|d: DatumModel| (role_of(d, c.channel_from@, c.channel_to@), d.content))
}

/// The ignore gate: a configured ignore pattern matching the trimmed
/// trigger content suppresses the reply entirely.
pub open spec fn ignored(c: &OpenAiChat, trigger_content: Seq<char>) -> bool {
    match c.ignore_regex {
        Some(p) => regex_is_match(p@, trimmed(trigger_content)),
        None => false,
    }
}

/// Whether the force-activate pattern is configured and matches the trimmed
/// trigger content.
pub open spec fn force_matches(c: &OpenAiChat, trigger_content: Seq<char>) -> bool {
    match c.force_activate_regex {
        Some(p) => regex_is_match(p@, trimmed(trigger_content)),
        None => false,
    }
}

/// The throttle gate: with a force-activate pattern configured but not
/// matching, and a minimum interval configured, a trigger arriving before
/// the interval has passed since the last activation (or with the clock
/// behind it) is dropped.
pub open spec fn throttled(c: &OpenAiChat, trigger_content: Seq<char>, now: u64) -> bool {
    &&& c.force_activate_regex is Some
    &&& !force_matches(c, trigger_content)
    &&& match c.min_interval_in_secs {
        Some(m) => now < c.last_activated || now - c.last_activated < m,
        None => false,
    }
}

/// Whether answering this trigger moves the shared last-activation stamp:
/// only a reply that passed the throttle comparison does.
pub open spec fn stamps(c: &OpenAiChat, trigger_content: Seq<char>, now: u64) -> bool {
    &&& c.force_activate_regex is Some
    &&& !force_matches(c, trigger_content)
    &&& c.min_interval_in_secs is Some
    &&& !throttled(c, trigger_content, now)
}

/// Whether one evaluation of the trigger asks for a completion call: the
/// trigger is live, finalized, on the source channel, not ignored and not
/// throttled.
pub open spec fn chat_emits_spec(c: &OpenAiChat, log: Seq<DatumModel>, id: u64, now: u64) -> bool {
    match find_index_spec(log, id) {
        None => false,
        Some(idx) => {
            let d = log[idx];
            &&& d.is_final()
            &&& d.channel == c.channel_from@
            &&& !ignored(c, d.content)
            &&& !throttled(c, d.content, now)
        },
    }
}

/// The processor after one evaluation: the last-activation stamp moves
/// exactly when a reply passed the throttle comparison.
pub open spec fn chat_after_spec(c: OpenAiChat, log: Seq<DatumModel>, id: u64, now: u64) -> OpenAiChat {
    if chat_emits_spec(&c, log, id, now) && (match find_index_spec(log, id) {
        Some(idx) => stamps(&c, log[idx].content, now),
        None => false,
    }) {
        OpenAiChat { last_activated: now, ..c }
    } else {
        c
    }
}

/// The conversational processor: builds a bounded, role-tagged context
/// window around a finalized trigger, applies the ignore, force-activate
/// and throttle gates, and asks the engine to perform one completion call.
pub struct OpenAiChat {
    pub channel_from: String,
    pub channel_to: String,
    pub memory_capacity: usize,
    pub force_activate_regex: Option<Pattern>,
    pub ignore_regex: Option<Pattern>,
    pub min_interval_in_secs: Option<u64>,
    pub remove_chars: String,
    pub custom_instructions: Option<String>,
    pub model: Option<String>,
    pub user: Option<String>,
    pub max_tokens: Option<u16>,
    pub n: Option<u8>,
    pub fine_tuning_train_path: Option<String>,
    pub last_activated: u64,
}

/// The request carries the message window and everything needed to route
/// and post-process the reply for this processor and trigger.
pub open spec fn request_ok(
    req: &ChatRequest,
    c: &OpenAiChat,
    log: Seq<DatumModel>,
    idx: int,
    id: u64,
) -> bool {
    &&& messages_model(req.messages@) == chat_messages_spec(c, log, idx)
    &&& req.trigger_id == id
    &&& req.channel_from@ == c.channel_from@
    &&& req.channel_to@ == c.channel_to@
    &&& req.remove_chars@ == c.remove_chars@
    &&& req.latest_user_content@ == log[idx].content
    &&& req.model == c.model
    &&& req.user == c.user
    &&& req.max_tokens == c.max_tokens
    &&& req.n == c.n
    &&& req.custom_instructions == c.custom_instructions
    &&& req.fine_tuning_train_path == c.fine_tuning_train_path
    &&& req.response_format_text == gpt5(c.model)
}

impl OpenAiChat {
    /// Builds the processor from its configuration record; the record must
    /// name both channels, and the configured patterns must compile.
    pub fn new(pc: ProcessorConf) -> (r: Option<OpenAiChat>)
        ensures
            match r {
                Some(c) => {
                    &&& pc.channel_from matches Some(cf) && c.channel_from@ == cf@
                    &&& pc.channel_to matches Some(ct) && c.channel_to@ == ct@
                    &&& c.memory_capacity == (match pc.memory_capacity {
                        Some(m) => m,
                        None => DEFAULT_MEMORY_CAPACITY,
                    })
                    &&& (match (&c.force_activate_regex, &pc.force_activate_regex_pattern) {
                        (Some(p), Some(s)) => p@ == s@,
                        (None, None) => true,
                        _ => false,
                    })
                    &&& (match (&c.ignore_regex, &pc.ignore_regex_pattern) {
                        (Some(p), Some(s)) => p@ == s@,
                        (None, None) => true,
                        _ => false,
                    })
                    &&& c.min_interval_in_secs == pc.min_interval_in_secs
                    &&& c.remove_chars@ == (match pc.remove_chars {
                        Some(rc) => rc@,
                        None => DEFAULT_REMOVE_CHARS@,
                    })
                    &&& c.custom_instructions == pc.custom_instructions
                    &&& c.model == pc.model
                    &&& c.user == pc.user
                    &&& c.max_tokens == pc.max_tokens
                    &&& c.n == pc.n
                    &&& c.last_activated == 0
                    &&& (pc.force_activate_regex_pattern matches Some(s) ==> regex_ok(s@))
                    &&& (pc.ignore_regex_pattern matches Some(s) ==> regex_ok(s@))
                },
                None => {
                    ||| pc.channel_from is None
                    ||| pc.channel_to is None
                    ||| (pc.force_activate_regex_pattern matches Some(s) && !regex_ok(s@))
                    ||| (pc.ignore_regex_pattern matches Some(s) && !regex_ok(s@))
                },
            },
    {
        let channel_from = match pc.channel_from {
            Some(cf) => cf,
            None => {
                return None;
            },
        };
        let channel_to = match pc.channel_to {
            Some(ct) => ct,
            None => {
                return None;
            },
        };
        let force_activate_regex = match pc.force_activate_regex_pattern {
            Some(s) => match Pattern::new(s.as_str()) {
                Some(p) => Some(p),
                None => {
                    return None;
                },
            },
            None => None,
        };
        let ignore_regex = match pc.ignore_regex_pattern {
            Some(s) => match Pattern::new(s.as_str()) {
                Some(p) => Some(p),
                None => {
                    return None;
                },
            },
            None => None,
        };
        let memory_capacity = match pc.memory_capacity {
            Some(m) => m,
            None => DEFAULT_MEMORY_CAPACITY,
        };
        let remove_chars = match pc.remove_chars {
            Some(rc) => rc,
            None => DEFAULT_REMOVE_CHARS.to_owned(),
        };
        let fine_tuning_train_path = match pc.fine_tuning {
            Some(ft) => Some(ft.train_path()),
            None => None,
        };
        Some(
            OpenAiChat {
                channel_from,
                channel_to,
                memory_capacity,
                force_activate_regex,
                ignore_regex,
                min_interval_in_secs: pc.min_interval_in_secs,
                remove_chars,
                custom_instructions: pc.custom_instructions,
                model: pc.model,
                user: pc.user,
                max_tokens: pc.max_tokens,
                n: pc.n,
                fine_tuning_train_path,
                last_activated: 0,
            },
        )
    }

    /// Exact string equality against the configured source channel.
    pub fn is_channel_from(&self, channel: &String) -> (r: bool)
        ensures
            r == (self.channel_from@ == channel@),
    {
        self.channel_from == *channel
    }

    /// Evaluates one trigger: a request is produced exactly when the trigger
    /// is live, finalized, on the source channel, not ignored and not
    /// throttled; a non-finalized trigger never produces an external call,
    /// and only a reply that passed the throttle comparison moves the
    /// last-activation stamp. The log is never touched and the chain always
    /// continues.
    pub fn process(&mut self, log: &EventLog, id: u64, now: u64) -> (st: Step)
        ensures
            st.signal == CompletedAnd::Next,
            st.injects@.len() == 0,
            !st.quit,
            match find_index_spec(log.model(), id) {
                None => st.request is None && *final(self) == *old(self),
                Some(idx) => {
                    let d = log.model()[idx];
                    if !d.is_final() || d.channel != old(self).channel_from@ {
                        st.request is None && *final(self) == *old(self)
                    } else if ignored(old(self), d.content) {
                        st.request is None && *final(self) == *old(self)
                    } else if throttled(old(self), d.content, now) {
                        st.request is None && *final(self) == *old(self)
                    } else {
                        &&& st.request matches Some(req) && request_ok(
                            &req,
                            old(self),
                            log.model(),
                            idx,
                            id,
                        )
                        &&& *final(self) == (OpenAiChat {
                            last_activated: if stamps(old(self), d.content, now) {
                                now
                            } else {
                                old(self).last_activated
                            },
                            ..*old(self)
                        })
                    }
                },
            },
    {
        let ghost lm = log.model();
        let idx = match log.rfind_index(id) {
            Some(i) => i,
            None => {
                return Step::none(CompletedAnd::Next);
            },
        };
        let trigger = log.get(idx);
        if !trigger.has_flag(FLAG_IS_FINAL) {
            return Step::none(CompletedAnd::Next);
        }
        if !(self.channel_from == *trigger.get_channel()) {
            return Step::none(CompletedAnd::Next);
        }
        let tc = trim_str(trigger.get_content().as_str());
        match &self.ignore_regex {
            Some(p) => {
                if p.is_match(tc.as_str()) {
                    return Step::none(CompletedAnd::Next);
                }
            },
            None => {},
        }
        let mut stamp_now = false;
        match &self.force_activate_regex {
            Some(p) => {
                if !p.is_match(tc.as_str()) {
                    match self.min_interval_in_secs {
                        Some(m) => {
                            if now < self.last_activated {
                                return Step::none(CompletedAnd::Next);
                            }
                            if now - self.last_activated < m {
                                return Step::none(CompletedAnd::Next);
                            }
                            stamp_now = true;
                        },
                        None => {},
                    }
                }
            },
            None => {},
        }
        let ghost pre = *self;
        if stamp_now {
            self.last_activated = now;
        }
        proof {
            assert(*self == (OpenAiChat {
                last_activated: if stamps(&pre, lm[idx as int].content, now) {
                    now
                } else {
                    pre.last_activated
                },
                ..pre
            }));
        }
        // Collect the window, newest first.
        let ghost from = pre.channel_from@;
        let ghost to = pre.channel_to@;
        let ghost cap = pre.memory_capacity as nat;
        let mut kept: Vec<ChannelDatum> = Vec::new();
        let total = log.len();
        assert(idx < total);
        let mut n: usize = idx + 1;
        proof {
            assert(window_rev(lm, idx + 1, from, to, cap) == kept@.map_values(
                |d: ChannelDatum| d@,
            ) + window_rev(lm, n as int, from, to, (cap - kept@.len()) as nat)) by {
                assert(kept@.map_values(|d: ChannelDatum| d@) =~= Seq::<DatumModel>::empty());
            }
        }
        while n > 0 && kept.len() < self.memory_capacity
            invariant
                n <= lm.len(),
                n <= idx + 1 < lm.len() + 1,
                kept@.len() <= cap,
                cap == pre.memory_capacity as nat,
                self.memory_capacity == pre.memory_capacity,
                self.channel_from@ == from,
                self.channel_to@ == to,
                log.model() == lm,
                window_rev(lm, idx + 1, from, to, cap) == kept@.map_values(
                    |d: ChannelDatum| d@,
                ) + window_rev(lm, n as int, from, to, (cap - kept@.len()) as nat),
            decreases n,
        {
            let d = log.get(n - 1);
            let is_kept = d.has_flag(FLAG_IS_FINAL) && (self.channel_from == *d.get_channel()
                || self.channel_to == *d.get_channel());
            proof {
                assert(keeps(lm[n - 1], from, to) == is_kept);
            }
            if is_kept {
                let ghost prev = kept@;
                kept.push(d.duplicate());
                proof {
                    assert(kept@.map_values(|x: ChannelDatum| x@) =~= prev.map_values(
                        |x: ChannelDatum| x@,
                    ).push(lm[n - 1]));
                    assert(prev.map_values(|x: ChannelDatum| x@) + (seq![lm[n - 1]]
                        + window_rev(lm, n - 1, from, to, (cap - kept@.len()) as nat))
                        =~= kept@.map_values(|x: ChannelDatum| x@) + window_rev(
                        lm,
                        n - 1,
                        from,
                        to,
                        (cap - kept@.len()) as nat,
                    ));
                }
            }
            n -= 1;
        }
        proof {
            assert(window_rev(lm, n as int, from, to, (cap - kept@.len()) as nat) =~= Seq::<
                DatumModel,
            >::empty());
            assert(kept@.map_values(|d: ChannelDatum| d@) + Seq::<DatumModel>::empty()
                =~= kept@.map_values(|d: ChannelDatum| d@));
        }
        let ghost win = window_rev(lm, idx + 1, from, to, cap);
        // The static template.
        let mut msgs: Vec<ChatMessage> = Vec::new();
        let is_gpt5 = match &self.model {
            Some(m) => {
                let mc = str_to_chars(m.as_str());
                let g5 = str_to_chars("gpt-5");
                starts_with_chars(&mc, &g5)
            },
            None => false,
        };
        assert(is_gpt5 == gpt5(pre.model));
        match &self.custom_instructions {
            Some(ci) => {
                msgs.push(ChatMessage { role: ChatRole::System, content: ci.clone() });
            },
            None => {
                if is_gpt5 {
                    let content: String =
                        "You are a helpful assistant. Provide a concise, direct response to the user. 日本語入力には日本語で返答して下さい。".to_owned();
                    msgs.push(ChatMessage { role: ChatRole::System, content });
                }
            },
        }
        proof {
            assert(messages_model(msgs@) =~= template_prefix(&pre));
        }
        // The window, oldest first.
        let ghost winrev = win.reverse().map_values(
            |d: DatumModel| (role_of(d, from, to), d.content),
        );
        let ghost prefix = template_prefix(&pre);
        let mut k: usize = kept.len();
        proof {
            assert(winrev.take(kept@.len() - k) =~= Seq::<(ChatRole, Seq<char>)>::empty());
            assert(prefix + winrev.take(kept@.len() - k) =~= prefix);
        }
        while k > 0
            invariant
                k <= kept@.len(),
                win == kept@.map_values(|d: ChannelDatum| d@),
                winrev == win.reverse().map_values(
                    |d: DatumModel| (role_of(d, from, to), d.content),
                ),
                prefix == template_prefix(&pre),
                from == pre.channel_from@,
                to == pre.channel_to@,
                self.channel_from@ == from,
                self.channel_to@ == to,
                messages_model(msgs@) == prefix + winrev.take(kept@.len() - k),
            decreases k,
        {
            k -= 1;
            let d = &kept[k];
            let role: ChatRole = if self.channel_from == *d.get_channel() {
                ChatRole::User
            } else if self.channel_to == *d.get_channel() {
                ChatRole::Assistant
            } else {
                ChatRole::System
            };
            proof {
                assert(kept@.map_values(|x: ChannelDatum| x@)[k as int] == kept@[k as int]@);
                assert(role == role_of(win[k as int], from, to));
            }
            let ghost prevm = msgs@;
            msgs.push(ChatMessage { role, content: d.get_content().clone() });
            proof {
                let pushed = kept@.len() - k;
                assert(win.reverse()[pushed - 1] == win[k as int]);
                assert(winrev[pushed - 1] == (role_of(win[k as int], from, to), win[
                    k as int
                ].content));
                assert(messages_model(msgs@) =~= messages_model(prevm).push(
                    winrev[pushed - 1],
                ));
                assert(winrev.take(pushed) =~= winrev.take(pushed - 1).push(winrev[pushed - 1]));
                assert(messages_model(msgs@) =~= prefix + winrev.take(pushed));
            }
        }
        proof {
            assert(winrev.take(kept@.len() as int) =~= winrev);
            assert(messages_model(msgs@) =~= chat_messages_spec(&pre, lm, idx as int));
        }
        let req = ChatRequest {
            messages: msgs,
            model: clone_opt(&self.model),
            max_tokens: self.max_tokens,
            n: self.n,
            user: clone_opt(&self.user),
            response_format_text: is_gpt5,
            trigger_id: id,
            channel_from: self.channel_from.clone(),
            channel_to: self.channel_to.clone(),
            remove_chars: self.remove_chars.clone(),
            latest_user_content: trigger.get_content().clone(),
            custom_instructions: clone_opt(&self.custom_instructions),
            fine_tuning_train_path: clone_opt(&self.fine_tuning_train_path),
        };
        proof {
            assert(request_ok(&req, &pre, lm, idx as int, id));
        }
        Step { signal: CompletedAnd::Next, injects: Vec::new(), request: Some(req), quit: false }
    }
}

/// A copy of an optional string holding the same text.
fn clone_opt(o: &Option<String>) -> (r: Option<String>)
    ensures
        r == *o,
{
    match o {
        Some(s) => {
            let c = s.clone();
            assert(c == *s);
            Some(c)
        },
        None => None,
    }
}


/// The reply with every configured character removed, as the repeated
/// single-character replacements compute it.
pub open spec fn stripped_spec(content: Seq<char>, remove: Seq<char>) -> Seq<char> {
    content.filter(|c: char| !remove.contains(c))
}

/// The provenance flag of a reply: the feature tag, the source channel and
/// the trigger id.
pub open spec fn provenance_spec(channel_from: Seq<char>, trigger_id: u64) -> Seq<char> {
    "openai-chat("@ + channel_from + ":"@ + dec_of(trigger_id as nat) + ")"@
}

/// Builds the finalized reply draft for a completed request: the reply text
/// with the configured characters stripped, on the destination channel,
/// tagged with the provenance flag.
pub fn make_reply_datum(req: &ChatRequest, content: &str) -> (r: ChannelDatum)
    ensures
        r@.channel == req.channel_to@,
        r@.content == stripped_spec(content@, req.remove_chars@),
        r@.flags == seq![
            FLAG_IS_FINAL@,
            provenance_spec(req.channel_from@, req.trigger_id),
        ],
        r@.id == 0,
        r@.datetime == 0,
{
    let cs = str_to_chars(content);
    let remove = str_to_chars(req.remove_chars.as_str());
    let mut out: Vec<char> = Vec::new();
    let mut i: usize = 0;
    proof {
        reveal(Seq::filter);
        assert(cs@.take(0).filter(|c: char| !remove@.contains(c)) =~= Seq::<char>::empty());
    }
    while i < cs.len()
        invariant
            i <= cs@.len(),
            remove@ == req.remove_chars@,
            out@ == cs@.take(i as int).filter(|c: char| !remove@.contains(c)),
        decreases cs@.len() - i,
    {
        let c = cs[i];
        if !crate::text::chars_contain(&remove, c) {
            out.push(c);
        }
        proof {
            reveal(Seq::filter);
            assert(cs@.take(i + 1).drop_last() =~= cs@.take(i as int));
            assert(cs@.take(i + 1).last() == cs@[i as int]);
            assert(out@ =~= cs@.take(i + 1).filter(|c: char| !remove@.contains(c)));
        }
        i += 1;
    }
    assert(cs@.take(cs@.len() as int) =~= cs@);
    let stripped = chars_to_string(&out);
    let mut prov: Vec<char> = Vec::new();
    let head = str_to_chars("openai-chat(");
    let mut k: usize = 0;
    while k < head.len()
        invariant
            k <= head@.len(),
            prov@ == head@.take(k as int),
        decreases head@.len() - k,
    {
        prov.push(head[k]);
        proof {
            assert(head@.take(k + 1) =~= head@.take(k as int).push(head@[k as int]));
        }
        k += 1;
    }
    assert(head@.take(head@.len() as int) =~= head@);
    let cf = str_to_chars(req.channel_from.as_str());
    let mut k2: usize = 0;
    let ghost base2 = prov@;
    while k2 < cf.len()
        invariant
            k2 <= cf@.len(),
            prov@ == base2 + cf@.take(k2 as int),
        decreases cf@.len() - k2,
    {
        prov.push(cf[k2]);
        proof {
            assert(cf@.take(k2 + 1) =~= cf@.take(k2 as int).push(cf@[k2 as int]));
            assert(prov@ =~= base2 + cf@.take(k2 + 1));
        }
        k2 += 1;
    }
    assert(cf@.take(cf@.len() as int) =~= cf@);
    prov.push(':');
    push_dec(&mut prov, req.trigger_id);
    prov.push(')');
    proof {
        assert(prov@ =~= provenance_spec(req.channel_from@, req.trigger_id)) by {
            reveal_strlit("openai-chat(");
            reveal_strlit(":");
            reveal_strlit(")");
            assert(":"@ =~= seq![':']);
            assert(")"@ =~= seq![')']);
        }
    }
    let prov_str = chars_to_string(&prov);
    let d = ChannelDatum::new(req.channel_to.clone(), stripped).with_flag(FLAG_IS_FINAL);
    proof {
        assert(Seq::<Seq<char>>::empty().push(FLAG_IS_FINAL@) =~= seq![FLAG_IS_FINAL@]);
        assert(prov_str@ != FLAG_IS_FINAL@) by {
            reveal_strlit("is_final");
            reveal_strlit("openai-chat(");
            crate::text::lemma_dec_of_digits(req.trigger_id as nat);
            assert(prov_str@.len() >= 15);
            assert(FLAG_IS_FINAL@.len() == 8);
        }
        assert(!seq![FLAG_IS_FINAL@].contains(prov_str@));
    }
    let d2 = d.with_flag(prov_str.as_str());
    proof {
        assert(d2@.flags =~= seq![
            FLAG_IS_FINAL@,
            provenance_spec(req.channel_from@, req.trigger_id),
        ]);
    }
    d2
}

/// Builds the simplified second attempt for the model family that sometimes
/// returns an empty reply: only where the model belongs to that family and
/// the reply is blank after trimming, a request with a short system
/// instruction, the triggering user content alone, and a reduced token cap.
pub fn retry_request(req: &ChatRequest, reply: &str) -> (r: Option<ChatRequest>)
    ensures
        match r {
            Some(rr) => {
                &&& gpt5(req.model)
                &&& trimmed(reply@).len() == 0
                &&& messages_model(rr.messages@) == seq![
                    (
                        ChatRole::System,
                        "You are a helpful assistant. Provide a concise answer."@,
                    ),
                    (ChatRole::User, req.latest_user_content@),
                ]
                &&& rr.model == req.model
                &&& rr.max_tokens == (match req.max_tokens {
                    Some(m) => Some(if m < 128 { m } else { 128u16 }),
                    None => None::<u16>,
                })
                &&& rr.n is None
                &&& rr.response_format_text
                &&& rr.trigger_id == req.trigger_id
                &&& rr.channel_from@ == req.channel_from@
                &&& rr.channel_to@ == req.channel_to@
                &&& rr.remove_chars@ == req.remove_chars@
                &&& rr.latest_user_content@ == req.latest_user_content@
            },
            None => !(gpt5(req.model) && trimmed(reply@).len() == 0),
        },
{
    let is_gpt5 = match &req.model {
        Some(m) => {
            let mc = str_to_chars(m.as_str());
            let g5 = str_to_chars("gpt-5");
            starts_with_chars(&mc, &g5)
        },
        None => false,
    };
    if !is_gpt5 {
        return None;
    }
    let t = trim_str(reply);
    if t.as_str().unicode_len() != 0 {
        return None;
    }
    let mut msgs: Vec<ChatMessage> = Vec::new();
    let sys: String = "You are a helpful assistant. Provide a concise answer.".to_owned();
    msgs.push(ChatMessage { role: ChatRole::System, content: sys });
    msgs.push(ChatMessage { role: ChatRole::User, content: req.latest_user_content.clone() });
    let max_tokens = match req.max_tokens {
        Some(m) => Some(if m < 128 { m } else { 128u16 }),
        None => None,
    };
    let rr = ChatRequest {
        messages: msgs,
        model: clone_opt(&req.model),
        max_tokens,
        n: None,
        user: None,
        response_format_text: true,
        trigger_id: req.trigger_id,
        channel_from: req.channel_from.clone(),
        channel_to: req.channel_to.clone(),
        remove_chars: req.remove_chars.clone(),
        latest_user_content: req.latest_user_content.clone(),
        custom_instructions: None,
        fine_tuning_train_path: None,
    };
    proof {
        assert(messages_model(rr.messages@) =~= seq![
            (
                ChatRole::System,
                "You are a helpful assistant. Provide a concise answer."@,
            ),
            (ChatRole::User, req.latest_user_content@),
        ]);
    }
    Some(rr)
}

} // verus!
