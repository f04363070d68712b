use vstd::prelude::*;

use crate::channel_datum::{same_but_content, ChannelDatum, DatumModel};
use crate::command::{command_step_spec, Command};
use crate::event_log::{find_index_spec, EventLog};
use crate::modify::Modify;
use crate::openai_chat::OpenAiChat;

verus! {

/// Per-datum fan-out control: continue with the next processor, or stop the
/// chain for this datum.
#[derive(Clone, Copy, Debug, PartialEq, Eq, Structural)]
pub enum CompletedAnd {
    Next,
    Break,
}

/// The role a context entry plays in a completion request.
#[derive(Clone, Copy, Debug, PartialEq, Eq, Structural)]
pub enum ChatRole {
    System,
    User,
    Assistant,
}

/// One role-tagged message of a completion request.
pub struct ChatMessage {
    pub role: ChatRole,
    pub content: String,
}

/// A completion call the engine asks its collaborator to perform: the
/// role-tagged context window plus everything needed to route and
/// post-process the reply.
pub struct ChatRequest {
    pub messages: Vec<ChatMessage>,
    pub model: Option<String>,
    pub max_tokens: Option<u16>,
    pub n: Option<u8>,
    pub user: Option<String>,
    pub response_format_text: bool,
    pub trigger_id: u64,
    pub channel_from: String,
    pub channel_to: String,
    pub remove_chars: String,
    pub latest_user_content: String,
    pub custom_instructions: Option<String>,
    pub fine_tuning_train_path: Option<String>,
}

/// What one processor invocation asks the engine to do next: the fan-out
/// signal, new datums to inject, at most one external completion call, and
/// whether the process was asked to quit.
pub struct Step {
    pub signal: CompletedAnd,
    pub injects: Vec<ChannelDatum>,
    pub request: Option<ChatRequest>,
    pub quit: bool,
}

impl Step {
    /// A step with no effects.
    pub fn none(signal: CompletedAnd) -> (r: Step)
        ensures
            r.signal == signal,
            r.injects@.len() == 0,
            r.request is None,
            !r.quit,
    {
        Step { signal, injects: Vec::new(), request: None, quit: false }
    }
}


/// A processor invocation leaves the log's shape alone: nothing is appended
/// or evicted, no id is allocated, and every entry keeps its identity;
/// only contents may be rewritten in place.
pub open spec fn keeps_log_shape(pre: &EventLog, post: &EventLog) -> bool {
    &&& post.spec_capacity() == pre.spec_capacity()
    &&& post.next_id() == pre.next_id()
    &&& post.history().len() == pre.history().len()
    &&& post.model().len() == pre.model().len()
    &&& post.appended() == pre.appended()
    &&& forall|j: int|
        0 <= j < pre.history().len() ==> same_but_content(
            #[trigger] post.history()[j],
            pre.history()[j],
        )
    &&& forall|j: int|
        0 <= j < pre.model().len() ==> same_but_content(
            #[trigger] post.model()[j],
            pre.model()[j],
        )
}

/// The closed set of processor variants the engine dispatches to, selected
/// by a feature tag at startup.
pub enum ProcessorKind {
    Command(Command),
    Modify(Modify),
    OpenAiChat(OpenAiChat),
}

/// The fan-out signal a variant's contract fixes for the datum over the
/// given live entries: only the command engine ever stops the chain.
pub open spec fn kind_signal_spec(p: ProcessorKind, log: Seq<DatumModel>, id: u64) -> CompletedAnd {
    match p {
        ProcessorKind::Command(c) => command_step_spec(&c, log, id).0,
        ProcessorKind::Modify(_) => CompletedAnd::Next,
        ProcessorKind::OpenAiChat(_) => CompletedAnd::Next,
    }
}

/// The drafts a variant's contract injects for the datum.
pub open spec fn kind_injects_spec(p: ProcessorKind, log: Seq<DatumModel>, id: u64) -> Seq<
    DatumModel,
> {
    match p {
        ProcessorKind::Command(c) => command_step_spec(&c, log, id).1,
        ProcessorKind::Modify(m) => crate::modify::modify_injects_spec(&m, log, id),
        ProcessorKind::OpenAiChat(_) => Seq::empty(),
    }
}

/// Whether a variant's contract asks to quit for the datum.
pub open spec fn kind_quit_spec(p: ProcessorKind, log: Seq<DatumModel>, id: u64) -> bool {
    match p {
        ProcessorKind::Command(c) => command_step_spec(&c, log, id).2,
        ProcessorKind::Modify(_) => false,
        ProcessorKind::OpenAiChat(_) => false,
    }
}

/// The live entries after a variant's run: only the substitution rewrites.
pub open spec fn kind_log_after_spec(p: ProcessorKind, log: Seq<DatumModel>, id: u64) -> Seq<
    DatumModel,
> {
    match p {
        ProcessorKind::Command(_) => log,
        ProcessorKind::Modify(m) => crate::modify::modify_log_after_spec(&m, log, id),
        ProcessorKind::OpenAiChat(_) => log,
    }
}

/// The variant after its run: only the conversational processor's
/// last-activation stamp can move.
pub open spec fn kind_proc_after_spec(
    p: ProcessorKind,
    log: Seq<DatumModel>,
    id: u64,
    now: u64,
) -> ProcessorKind {
    match p {
        ProcessorKind::OpenAiChat(c) => ProcessorKind::OpenAiChat(
            crate::openai_chat::chat_after_spec(c, log, id, now),
        ),
        _ => p,
    }
}

/// Whether a variant's contract hands out a completion request for the
/// datum: only an eligible conversational trigger does.
pub open spec fn kind_emits_spec(p: ProcessorKind, log: Seq<DatumModel>, id: u64, now: u64) -> bool {
    match p {
        ProcessorKind::OpenAiChat(c) => crate::openai_chat::chat_emits_spec(&c, log, id, now),
        _ => false,
    }
}

/// The request a variant hands out is the conversational request of the
/// trigger, pinned field by field.
pub open spec fn kind_request_ok(
    p: ProcessorKind,
    log: Seq<DatumModel>,
    id: u64,
    req: &ChatRequest,
) -> bool {
    match p {
        ProcessorKind::OpenAiChat(c) => find_index_spec(log, id) matches Some(idx)
            && crate::openai_chat::request_ok(req, &c, log, idx, id),
        _ => false,
    }
}

impl ProcessorKind {
    /// The source channel the variant listens on.
    pub open spec fn spec_channel_from(&self) -> Seq<char> {
        match self {
            ProcessorKind::Command(p) => p.channel_from@,
            ProcessorKind::Modify(p) => p.channel_from@,
            ProcessorKind::OpenAiChat(p) => p.channel_from@,
        }
    }

    /// Exact string equality against the variant's source channel.
    pub fn is_channel_from(&self, channel: &String) -> (r: bool)
        ensures
            r == (self.spec_channel_from() == channel@),
    {
        match self {
            ProcessorKind::Command(p) => p.is_channel_from(channel),
            ProcessorKind::Modify(p) => p.is_channel_from(channel),
            ProcessorKind::OpenAiChat(p) => p.is_channel_from(channel),
        }
    }

    /// Runs the variant on the datum with the given id: the signal, the
    /// injected drafts, the rewritten entries, the quit flag, the variant's
    /// own next state and whether a completion request is handed out all
    /// equal what the variant's step specification fixes for the live
    /// entries and the datum, and the request itself is pinned field by
    /// field. Whatever the variant, the log keeps its shape; a request is
    /// only ever produced for a live, finalized trigger; injected datums
    /// are unstamped drafts; and only the command engine can ask to quit or
    /// to stop the chain.
    pub fn process(&mut self, log: &mut EventLog, id: u64, now: u64) -> (st: Step)
        requires
            old(log).wf(),
        ensures
            final(log).wf(),
            keeps_log_shape(old(log), final(log)),
            final(self).spec_channel_from() == old(self).spec_channel_from(),
            match st.request {
                Some(req) => {
                    &&& req.trigger_id == id
                    &&& find_index_spec(old(log).model(), id) matches Some(idx) && old(
                        log,
                    ).model()[idx].is_final()
                },
                None => true,
            },
            forall|k: int|
                0 <= k < st.injects@.len() ==> (#[trigger] st.injects@[k])@.id == 0,
            st.quit || st.signal == CompletedAnd::Break ==> (*old(self)) is Command,
            st.signal == kind_signal_spec(*old(self), old(log).model(), id),
            st.injects@.map_values(|d: ChannelDatum| d@) == kind_injects_spec(
                *old(self),
                old(log).model(),
                id,
            ),
            st.quit == kind_quit_spec(*old(self), old(log).model(), id),
            final(log).model() == kind_log_after_spec(*old(self), old(log).model(), id),
            *final(self) == kind_proc_after_spec(*old(self), old(log).model(), id, now),
            (st.request is Some) == kind_emits_spec(*old(self), old(log).model(), id, now),
            st.request matches Some(req) ==> kind_request_ok(
                *old(self),
                old(log).model(),
                id,
                &req,
            ),
    {
        match self {
            ProcessorKind::Command(p) => {
                let st = p.process(log, id);
                proof {
                    lemma_find_spec_index_agree(old(log).model(), id);
                    crate::command::lemma_command_injects_drafts(p, old(log).model(), id);
                    assert forall|k: int| 0 <= k < st.injects@.len() implies (#[trigger] st.injects@[k])@.id
                        == 0 by {
                        let spec1 = command_step_spec(p, old(log).model(), id).1;
                        assert(st.injects@.map_values(|d: ChannelDatum| d@)[k] == st.injects@[k]@);
                        assert(st.injects@[k]@ == spec1[k]);
                        assert(spec1[k].id == 0);
                    }
                }
                st
            },
            ProcessorKind::Modify(p) => {
                let st = p.process(log, id);
                proof {
                    match find_index_spec(old(log).model(), id) {
                        Some(idx) => {
                            if p.channel_from@ == p.channel_to@ {
                                lemma_find_spec_index_agree(old(log).model(), id);
                                let off = old(log).history().len() - old(log).model().len();
                                assert(old(log).model()[idx] == old(log).history().skip(off)[
                                    idx
                                ]);
                                assert(old(log).history().skip(off)[idx] == old(
                                    log,
                                ).history()[off + idx]);
                                assert forall|j: int| 0 <= j < old(log).history().len() implies
                                    same_but_content(
                                    #[trigger] log.history()[j],
                                    old(log).history()[j],
                                ) by {
                                    if j == off + idx {
                                        assert(log.history()[j] == crate::channel_datum::content_set_model(
                                            old(log).model()[idx],
                                            crate::modify::modify_content_spec(p, old(log).model()[idx].content),
                                        ));
                                    } else {
                                        assert(log.history()[j] == old(log).history()[j]);
                                    }
                                }
                                assert forall|j: int| 0 <= j < old(log).model().len() implies
                                    same_but_content(
                                    #[trigger] log.model()[j],
                                    old(log).model()[j],
                                ) by {
                                    if j == idx {
                                    } else {
                                        assert(log.model()[j] == old(log).model()[j]);
                                    }
                                }
                                assert(keeps_log_shape(old(log), log));
                            } else {
                                assert(keeps_log_shape(old(log), log));
                            }
                        },
                        None => {
                            assert(keeps_log_shape(old(log), log));
                        },
                    }
                    assert forall|k: int| 0 <= k < st.injects@.len() implies (#[trigger] st.injects@[k])@.id
                        == 0 by {
                        let m = st.injects@.map_values(|d: ChannelDatum| d@);
                        assert(m[k] == st.injects@[k]@);
                        match find_index_spec(old(log).model(), id) {
                            Some(idx) => {
                                if p.channel_from@ != p.channel_to@ {
                                    assert(m.len() == 1);
                                    assert(m[k].id == 0);
                                }
                            },
                            None => {},
                        }
                    }
                }
                st
            },
            ProcessorKind::OpenAiChat(p) => {
                let st = p.process(log, id, now);
                st
            },
        }
    }
}

/// The reverse scans by value and by position answer together.
pub proof fn lemma_find_spec_index_agree(s: Seq<DatumModel>, id: u64)
    ensures
        crate::event_log::find_spec(s, id) is Some <==> find_index_spec(s, id) is Some,
        find_index_spec(s, id) matches Some(i) ==> 0 <= i < s.len()
            && crate::event_log::find_spec(s, id) == Some(s[i]) && s[i].id == id,
    decreases s.len(),
{
    if s.len() > 0 {
        if s.last().id != id {
            lemma_find_spec_index_agree(s.drop_last(), id);
            match find_index_spec(s.drop_last(), id) {
                Some(i) => {
                    assert(s.drop_last()[i] == s[i]);
                },
                None => {},
            }
        }
    }
}

} // verus!
