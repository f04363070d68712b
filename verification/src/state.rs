use vstd::prelude::*;

use crate::channel_datum::{
    same_but_content, stamped_model, ChannelDatum, DatumModel, FLAG_IS_FINAL,
};
use crate::command::Command;
use crate::conf::ProcessorConf;
use crate::event_log::EventLog;
use crate::modify::Modify;
use crate::openai_chat::OpenAiChat;
use crate::processor::{
    kind_emits_spec, kind_injects_spec, kind_log_after_spec, kind_proc_after_spec,
    kind_quit_spec, kind_request_ok, kind_signal_spec, ChatRequest, CompletedAnd, ProcessorKind,
};
use crate::utility::{lower_of, to_lowercase};

verus! {

/// Bound on the datums one push may dispatch, the triggering datum
/// included: without one, processors that keep injecting into their own
/// channels would keep the dispatch running forever, so anything queued
/// past this budget is dropped.
pub const DISPATCH_FUEL: usize = 256;

/// One processor invocation of a push: which processor ran, on which datum,
/// and what signal it returned.
pub struct InvokeRecord {
    pub processor: usize,
    pub datum_id: u64,
    pub signal: CompletedAnd,
}

/// Everything a push asks its caller to carry out: the completion calls to
/// perform, whether a quit was commanded, and whether the log should be
/// persisted.
pub struct PushOutcome {
    pub invoked: Vec<InvokeRecord>,
    pub requests: Vec<ChatRequest>,
    pub quit: bool,
    pub save: bool,
}

/// The engine: the event log, the ordered processor list and the auto-save
/// switch.
pub struct State {
    pub log: EventLog,
    pub processors: Vec<ProcessorKind>,
    pub state_data_auto_save: bool,
}

/// Every completion request in the list asks about a finalized entry that
/// the log has seen.
pub open spec fn request_final_in(req: ChatRequest, history: Seq<DatumModel>) -> bool {
    exists|j: int|
        0 <= j < history.len() && (#[trigger] history[j]).id == req.trigger_id
            && history[j].is_final()
}

/// Every completion request in the list asks about a finalized entry that
/// the log has seen.
pub open spec fn requests_final(reqs: Seq<ChatRequest>, history: Seq<DatumModel>) -> bool {
    forall|r: int| 0 <= r < reqs.len() ==> request_final_in(#[trigger] reqs[r], history)
}

/// A well-formed invocation record list: for any one datum, processors ran
/// in strictly increasing registration order, and every invocation before
/// the last one for that datum let the chain continue — so once a
/// processor stopped the chain, no later processor ran for that datum.
pub open spec fn trace_wf(invoked: Seq<InvokeRecord>) -> bool {
    forall|a: int, b: int|
        #![trigger invoked[a], invoked[b]]
        0 <= a < b < invoked.len() && invoked[a].datum_id == invoked[b].datum_id ==> invoked[
            a].processor < invoked[b].processor && invoked[a].signal == CompletedAnd::Next
}

/// No processor strictly between the two positions listens on the channel.
pub open spec fn no_match_between(
    procs: Seq<ProcessorKind>,
    ch: Seq<char>,
    lo: int,
    hi: int,
) -> bool {
    forall|q: int| lo < q < hi ==> (#[trigger] procs[q]).spec_channel_from() != ch
}

/// One datum's chain is complete: every record names a processor listening
/// on the channel, consecutive records skip only processors that do not
/// listen, and the chain ends either because a processor stopped it or
/// because no listening processor is left.
pub open spec fn chain_complete(
    tr: Seq<InvokeRecord>,
    procs: Seq<ProcessorKind>,
    ch: Seq<char>,
) -> bool {
    &&& forall|t: int|
        0 <= t < tr.len() ==> (#[trigger] tr[t]).processor < procs.len() && procs[
            tr[t].processor as int].spec_channel_from() == ch
    &&& forall|a: int, b: int|
        #![trigger tr[a], tr[b]]
        0 <= a && b == a + 1 && b < tr.len() ==> no_match_between(
            procs,
            ch,
            tr[a].processor as int,
            tr[b].processor as int,
        )
    &&& tr.len() >= 1 ==> (tr.last().signal == CompletedAnd::Break || no_match_between(
        procs,
        ch,
        tr.last().processor as int,
        procs.len() as int,
    ))
}

/// The draft the ingress entry point builds: the given channel and
/// content, finalized when the transport says so, unstamped.
pub open spec fn pushed_draft_model(
    channel: Seq<char>,
    content: Seq<char>,
    is_final: bool,
) -> DatumModel {
    DatumModel {
        channel: channel,
        content: content,
        flags: if is_final {
            seq![FLAG_IS_FINAL@]
        } else {
            Seq::<Seq<char>>::empty()
        },
        id: 0u64,
        datetime: 0u64,
    }
}

/// The live entries after one append: the stamped draft at the tail, the
/// oldest entry evicted when the ring was full.
pub open spec fn append_model(
    log: Seq<DatumModel>,
    st: DatumModel,
    capacity: usize,
) -> Seq<DatumModel> {
    if log.len() < capacity {
        log.push(st)
    } else {
        log.push(st).skip(1)
    }
}

/// One invocation as the dispatcher performed it: which processor ran on
/// which datum, the log and the processor list as they stood at that
/// moment, what the processor's step specification fixed for them, and how
/// many completion requests had been handed out before.
pub struct InvokeDetail {
    pub processor: int,
    pub datum_id: u64,
    pub log: EventLog,
    pub procs: Seq<ProcessorKind>,
    pub signal: CompletedAnd,
    pub injects: Seq<DatumModel>,
    pub emits: bool,
    pub quit: bool,
    pub requests_before: int,
}

/// The invocation is internally consistent: everything it records is what
/// the invoked processor's step specification fixes for the witnessed log
/// and datum.
pub open spec fn detail_ok(d: InvokeDetail, now: u64) -> bool {
    &&& d.log.wf()
    &&& 0 <= d.processor < d.procs.len()
    &&& d.signal == kind_signal_spec(d.procs[d.processor], d.log.model(), d.datum_id)
    &&& d.injects == kind_injects_spec(d.procs[d.processor], d.log.model(), d.datum_id)
    &&& d.quit == kind_quit_spec(d.procs[d.processor], d.log.model(), d.datum_id)
    &&& d.emits == kind_emits_spec(d.procs[d.processor], d.log.model(), d.datum_id, now)
}

/// The drafts all the invocations injected, in invocation order.
pub open spec fn concat_injects(details: Seq<InvokeDetail>) -> Seq<DatumModel>
    decreases details.len(),
{
    if details.len() == 0 {
        Seq::empty()
    } else {
        concat_injects(details.drop_last()) + details.last().injects
    }
}

/// One more invocation appends its injected drafts.
proof fn lemma_concat_injects_snoc(details: Seq<InvokeDetail>, d: InvokeDetail)
    ensures
        concat_injects(details.push(d)) == concat_injects(details) + d.injects,
{
    assert(details.push(d).drop_last() =~= details);
    assert(details.push(d).last() == d);
}

/// The whole fan-out of one push, tied to the processors' own contracts
/// through the witnessed invocations: record for record, the signal, the
/// injected drafts, the request and the quit flag are the ones the invoked
/// processor's step specification fixes for the log at that moment; the
/// processor list evolves invocation by invocation exactly as the step
/// specification says, starting from `pre` and ending at `post`; within one
/// datum's chain the witnessed log evolves by exactly the specified
/// rewrites; the appended entries are exactly the pushed draft followed by
/// the injected drafts, stamped in queue order, cut off only by the
/// dispatch budget; the requests are exactly the emitted ones, in order;
/// and a quit is reported iff some invoked processor decided one.
pub open spec fn fanout_exact(
    pre: State,
    post: State,
    r: PushOutcome,
    cdm: DatumModel,
    now: u64,
    details: Seq<InvokeDetail>,
) -> bool {
    let old_app = pre.log.appended();
    let old_next = pre.log.next_id();
    let drafts = seq![cdm] + concat_injects(details);
    let appended_n = post.log.appended().len() - old_app.len();
    &&& details.len() == r.invoked@.len()
    &&& forall|t: int|
        0 <= t < details.len() ==> {
            &&& (#[trigger] details[t]).processor == r.invoked@[t].processor as int
            &&& details[t].datum_id == r.invoked@[t].datum_id
            &&& details[t].signal == r.invoked@[t].signal
            &&& detail_ok(details[t], now)
            &&& details[t].log.spec_capacity() == pre.log.spec_capacity()
            &&& old_next <= details[t].datum_id < old_next + appended_n
            &&& details[t].log.appended() == post.log.appended().take(
                old_app.len() + (details[t].datum_id - old_next) + 1,
            )
        }
    &&& details.len() >= 1 ==> details[0].procs == pre.processors@
    &&& details.len() >= 1 && details[0].datum_id == old_next ==> details[0].log.model()
        == append_model(
        pre.log.model(),
        stamped_model(cdm, old_next, now),
        pre.log.spec_capacity(),
    )
    &&& forall|a: int, b: int|
        #![trigger details[a], details[b]]
        0 <= a && b == a + 1 && b < details.len() ==> {
            &&& details[b].procs == details[a].procs.update(
                details[a].processor,
                kind_proc_after_spec(
                    details[a].procs[details[a].processor],
                    details[a].log.model(),
                    details[a].datum_id,
                    now,
                ),
            )
            &&& (details[b].datum_id == details[a].datum_id ==> details[b].log.model()
                == kind_log_after_spec(
                details[a].procs[details[a].processor],
                details[a].log.model(),
                details[a].datum_id,
            ))
            &&& details[b].requests_before == details[a].requests_before + (
            if details[a].emits {
                1int
            } else {
                0int
            })
        }
    &&& post.processors@ == (if details.len() == 0 {
        pre.processors@
    } else {
        details.last().procs.update(
            details.last().processor,
            kind_proc_after_spec(
                details.last().procs[details.last().processor],
                details.last().log.model(),
                details.last().datum_id,
                now,
            ),
        )
    })
    &&& appended_n <= drafts.len()
    &&& forall|k: int|
        0 <= k < appended_n ==> (#[trigger] post.log.appended()[old_app.len() + k])
            == stamped_model(drafts[k], (old_next + k) as u64, now)
    &&& appended_n == drafts.len() || appended_n == DISPATCH_FUEL
    &&& details.len() == 0 ==> post.log.model() == append_model(
        pre.log.model(),
        stamped_model(cdm, old_next, now),
        pre.log.spec_capacity(),
    )
    &&& details.len() >= 1 ==> details[0].requests_before == 0
    &&& r.requests@.len() == (if details.len() == 0 {
        0int
    } else {
        details.last().requests_before + (if details.last().emits {
            1int
        } else {
            0int
        })
    })
    &&& forall|t: int|
        0 <= t < details.len() && (#[trigger] details[t]).emits ==> {
            &&& 0 <= details[t].requests_before < r.requests@.len()
            &&& kind_request_ok(
                details[t].procs[details[t].processor],
                details[t].log.model(),
                details[t].datum_id,
                &r.requests@[details[t].requests_before],
            )
        }
    &&& r.quit == exists|t: int| 0 <= t < details.len() && (#[trigger] details[t]).quit
}

/// The pushed datum's complete fan-out, read off a push's outcome: its
/// first `nn` records are exactly the chain of the datum that entered with
/// `first_id` — every one of them on a listening processor, no listening
/// processor skipped before the chain ended — and no later record concerns
/// that datum.
pub open spec fn chain_of_push(
    invoked: Seq<InvokeRecord>,
    procs: Seq<ProcessorKind>,
    ch: Seq<char>,
    first_id: u64,
    nn: int,
) -> bool {
    &&& 0 <= nn <= invoked.len()
    &&& forall|t: int| 0 <= t < nn ==> (#[trigger] invoked[t]).datum_id == first_id
    &&& forall|t: int| nn <= t < invoked.len() ==> (#[trigger] invoked[t]).datum_id != first_id
    &&& chain_complete(invoked.take(nn), procs, ch)
}

/// The position of the first processor listening on the channel.
pub open spec fn first_matching(procs: Seq<ProcessorKind>, ch: Seq<char>) -> Option<int>
    decreases procs.len(),
{
    if procs.len() == 0 {
        None
    } else if procs[0].spec_channel_from() == ch {
        Some(0int)
    } else {
        match first_matching(procs.skip(1), ch) {
            Some(p) => Some(p + 1),
            None => None,
        }
    }
}

/// What the first-matching position means: it listens on the channel and
/// nothing before it does; and without one, nothing listens at all.
pub proof fn lemma_first_matching(procs: Seq<ProcessorKind>, ch: Seq<char>)
    ensures
        match first_matching(procs, ch) {
            Some(p) => 0 <= p < procs.len() && procs[p].spec_channel_from() == ch && forall|
                q: int,
            | 0 <= q < p ==> (#[trigger] procs[q]).spec_channel_from() != ch,
            None => forall|q: int|
                0 <= q < procs.len() ==> (#[trigger] procs[q]).spec_channel_from() != ch,
        },
    decreases procs.len(),
{
    if procs.len() > 0 && procs[0].spec_channel_from() != ch {
        lemma_first_matching(procs.skip(1), ch);
        match first_matching(procs.skip(1), ch) {
            Some(pp) => {
                assert(procs.skip(1)[pp] == procs[pp + 1]);
                assert forall|q: int| 0 <= q < pp + 1 implies (#[trigger] procs[
                    q]).spec_channel_from() != ch by {
                    if q >= 1 {
                        assert(procs.skip(1)[q - 1] == procs[q]);
                        assert(procs.skip(1)[q - 1].spec_channel_from() != ch);
                    }
                }
            },
            None => {
                assert forall|q: int| 0 <= q < procs.len() implies (#[trigger] procs[
                    q]).spec_channel_from() != ch by {
                    if q >= 1 {
                        assert(procs.skip(1)[q - 1] == procs[q]);
                        assert(procs.skip(1)[q - 1].spec_channel_from() != ch);
                    }
                }
            },
        }
    }
}

impl State {
    pub open spec fn wf(&self) -> bool {
        self.log.wf()
    }

    /// A fresh engine with an empty log of the given capacity and no
    /// processors yet.
    pub fn new(state_data_capacity: usize, state_data_auto_save: bool) -> (r: State)
        requires
            state_data_capacity >= 1,
        ensures
            r.wf(),
            r.log.model() == Seq::<DatumModel>::empty(),
            r.log.spec_capacity() == state_data_capacity,
            r.log.next_id() == 1,
            r.processors@.len() == 0,
            r.state_data_auto_save == state_data_auto_save,
    {
        State {
            log: EventLog::new(state_data_capacity),
            processors: Vec::new(),
            state_data_auto_save,
        }
    }

    /// Registers one more processor at the end of the chain.
    pub fn add_processor(&mut self, p: ProcessorKind)
        ensures
            final(self).processors@ == old(self).processors@.push(p),
            final(self).log == old(self).log,
            final(self).state_data_auto_save == old(self).state_data_auto_save,
    {
        self.processors.push(p);
    }

    /// Most-recent-first lookup of a live entry.
    pub fn rfind_channel_datum(&self, id: u64) -> (r: Option<ChannelDatum>)
        ensures
            match r {
                Some(d) => crate::event_log::find_spec(self.log.model(), id) == Some(d@),
                None => crate::event_log::find_spec(self.log.model(), id) is None,
            },
    {
        self.log.rfind_channel_datum(id)
    }

    /// The sole write entry point (spoken for transports): a draft datum on
    /// the channel, finalized when the transport says so, pushed through the
    /// full dispatch. The triggering datum enters the log exactly as given:
    /// the channel, the content, the finality flag and nothing else, stamped
    /// with the next fresh id and the given time.
    pub fn push(&mut self, channel: String, content: String, is_final: bool, now: u64) -> (r:
        PushOutcome)
        requires
            old(self).wf(),
        ensures
            final(self).wf(),
            final(self).spec_after_push(old(self), r, now),
            old(self).log.next_id() <= u64::MAX - (DISPATCH_FUEL as u64)
                ==> final(self).log.appended()[old(self).log.appended().len() as int]
                == (DatumModel {
                channel: channel@,
                content: content@,
                flags: if is_final {
                    seq![FLAG_IS_FINAL@]
                } else {
                    Seq::<Seq<char>>::empty()
                },
                id: old(self).log.next_id(),
                datetime: now,
            }),
            old(self).log.next_id() <= u64::MAX - (DISPATCH_FUEL as u64) ==> match first_matching(
                old(self).processors@,
                channel@,
            ) {
                Some(p) => r.invoked@.len() >= 1 && r.invoked@[0].processor as int == p
                    && r.invoked@[0].datum_id == old(self).log.next_id(),
                None => true,
            },
            old(self).log.next_id() <= u64::MAX - (DISPATCH_FUEL as u64) ==> exists|nn: int|
                chain_of_push(
                    r.invoked@,
                    old(self).processors@,
                    channel@,
                    old(self).log.next_id(),
                    nn,
                ),
            old(self).log.next_id() <= u64::MAX - (DISPATCH_FUEL as u64) ==> exists|
                details: Seq<InvokeDetail>,
            |
                #[trigger] fanout_exact(
                    *old(self),
                    *final(self),
                    r,
                    pushed_draft_model(channel@, content@, is_final),
                    now,
                    details,
                ),
    {
        let ghost chm = channel@;
        let ghost ctm = content@;
        let cd = ChannelDatum::new(channel, content).with_flag_if(FLAG_IS_FINAL, is_final);
        proof {
            if is_final {
                assert(cd@.flags =~= seq![FLAG_IS_FINAL@]);
            }
            assert(cd@ =~= (DatumModel {
                channel: chm,
                content: ctm,
                flags: if is_final {
                    seq![FLAG_IS_FINAL@]
                } else {
                    Seq::<Seq<char>>::empty()
                },
                id: 0u64,
                datetime: 0u64,
            }));
        }
        let ghost cdm0 = cd@;
        let r = self.push_channel_datum(cd, now);
        proof {
            if old(self).log.next_id() <= u64::MAX - (DISPATCH_FUEL as u64) {
                let w = choose|details: Seq<InvokeDetail>|
                    fanout_exact(*old(self), *self, r, cdm0, now, details);
                assert(cdm0 == pushed_draft_model(chm, ctm, is_final));
                assert(fanout_exact(
                    *old(self),
                    *self,
                    r,
                    pushed_draft_model(chm, ctm, is_final),
                    now,
                    w,
                ));
                let nn = choose|nn: int|
                    chain_of_push(
                        r.invoked@,
                        old(self).processors@,
                        cd@.channel,
                        old(self).log.next_id(),
                        nn,
                    );
                assert(chain_of_push(
                    r.invoked@,
                    old(self).processors@,
                    chm,
                    old(self).log.next_id(),
                    nn,
                ));
                assert(self.log.appended()[old(self).log.appended().len() as int]
                    == stamped_model(cd@, old(self).log.next_id(), now));
                assert(stamped_model(cd@, old(self).log.next_id(), now) =~= (DatumModel {
                    channel: chm,
                    content: ctm,
                    flags: if is_final {
                        seq![FLAG_IS_FINAL@]
                    } else {
                        Seq::<Seq<char>>::empty()
                    },
                    id: old(self).log.next_id(),
                    datetime: now,
                }));
            }
        }
        r
    }

    /// What any completed push guarantees: the budget guard aside, the
    /// triggering datum entered the log with the next fresh id, every datum
    /// dispatched in its wake got the following ids and the same time
    /// stamp, nothing already appended changed its identity, every
    /// completion request handed out asks about a finalized entry, the
    /// invocation records form a well-formed trace (per datum: registration
    /// order, and nothing after a stop), and the save flag mirrors the
    /// auto-save switch.
    pub open spec fn spec_after_push(
        &self,
        pre: &State,
        r: PushOutcome,
        now: u64,
    ) -> bool {
        let appended = self.log.history().len() - pre.log.history().len();
        &&& self.processors@.len() == pre.processors@.len()
        &&& self.state_data_auto_save == pre.state_data_auto_save
        &&& self.log.spec_capacity() == pre.log.spec_capacity()
        &&& if pre.log.next_id() > u64::MAX - (DISPATCH_FUEL as u64) {
            &&& self.log == pre.log
            &&& r.invoked@.len() == 0
            &&& r.requests@.len() == 0
            &&& !r.quit
            &&& !r.save
        } else {
            &&& 1 <= appended <= DISPATCH_FUEL
            &&& self.log.next_id() == pre.log.next_id() + appended
            &&& self.log.appended().len() == pre.log.appended().len() + appended
            &&& self.log.appended().take(pre.log.appended().len() as int) == pre.log.appended()
            &&& forall|k: int|
                0 <= k < appended ==> (#[trigger] self.log.appended()[pre.log.appended().len()
                    + k]).id == pre.log.next_id() + k && self.log.appended()[
                    pre.log.appended().len() + k].datetime == now
            &&& forall|j: int|
                0 <= j < pre.log.history().len() ==> same_but_content(
                    #[trigger] self.log.history()[j],
                    pre.log.history()[j],
                )
            &&& requests_final(r.requests@, self.log.history())
            &&& forall|i: int|
                0 <= i < r.invoked@.len() ==> (#[trigger] r.invoked@[i]).processor
                    < self.processors@.len()
            &&& trace_wf(r.invoked@)
            &&& forall|k: int|
                0 <= k < pre.processors@.len() ==> (#[trigger] self.processors@[
                    k]).spec_channel_from() == pre.processors@[k].spec_channel_from()
            &&& r.save == self.state_data_auto_save
        }
    }

    /// Appends the datum and fans out to the processors in registration
    /// order, dispatching whatever they inject in turn, within the budget.
    /// For the pushed datum itself the fan-out is pinned exactly: it enters
    /// the log as its stamped self, its chain starts at the first listening
    /// processor, skips only processors that do not listen, and ends only
    /// at a stop or when no listening processor remains. Through the
    /// invocation witness, every recorded signal, injected draft, request
    /// and quit is the one the invoked processor's step specification fixes,
    /// and the appended entries are exactly the pushed draft followed by the
    /// injected drafts, stamped in queue order.
    #[verifier::rlimit(80)]
    pub fn push_channel_datum(&mut self, cd: ChannelDatum, now: u64) -> (r: PushOutcome)
        requires
            old(self).wf(),
        ensures
            final(self).wf(),
            final(self).spec_after_push(old(self), r, now),
            old(self).log.next_id() <= u64::MAX - (DISPATCH_FUEL as u64)
                ==> final(self).log.appended()[old(self).log.appended().len() as int]
                == stamped_model(cd@, old(self).log.next_id(), now),
            old(self).log.next_id() <= u64::MAX - (DISPATCH_FUEL as u64) ==> same_but_content(
                final(self).log.history()[old(self).log.history().len() as int],
                stamped_model(cd@, old(self).log.next_id(), now),
            ),
            old(self).log.next_id() <= u64::MAX - (DISPATCH_FUEL as u64) ==> match first_matching(
                old(self).processors@,
                cd@.channel,
            ) {
                Some(p) => r.invoked@.len() >= 1 && r.invoked@[0].processor as int == p
                    && r.invoked@[0].datum_id == old(self).log.next_id(),
                None => true,
            },
            old(self).log.next_id() <= u64::MAX - (DISPATCH_FUEL as u64) ==> exists|nn: int|
                chain_of_push(
                    r.invoked@,
                    old(self).processors@,
                    cd@.channel,
                    old(self).log.next_id(),
                    nn,
                ),
            old(self).log.next_id() <= u64::MAX - (DISPATCH_FUEL as u64) ==> exists|
                details: Seq<InvokeDetail>,
            | fanout_exact(*old(self), *final(self), r, cd@, now, details),
    {
        let ghost pre = *old(self);
        let mut outcome = PushOutcome {
            invoked: Vec::new(),
            requests: Vec::new(),
            quit: false,
            save: false,
        };
        if self.log.next_id_preview() > u64::MAX - (DISPATCH_FUEL as u64) {
            return outcome;
        }
        let ghost cdm = cd@;
        let ghost old_hist = old(self).log.history();
        let ghost old_app = old(self).log.appended();
        let ghost old_next = old(self).log.next_id();
        let mut queue: Vec<ChannelDatum> = Vec::new();
        queue.push(cd);
        let ghost mut first_n: int = 0;
        let ghost mut details: Seq<InvokeDetail> = Seq::empty();
        let ghost mut drafts: Seq<DatumModel> = seq![cdm];
        let mut fuel: usize = DISPATCH_FUEL;
        proof {
            assert(queue@.map_values(|d: ChannelDatum| d@) =~= drafts.skip(0));
        }
        while queue.len() > 0 && fuel > 0
            invariant
                self.log.wf(),
                self.processors@.len() == pre.processors@.len(),
                self.state_data_auto_save == pre.state_data_auto_save,
                self.log.spec_capacity() == pre.log.spec_capacity(),
                fuel <= DISPATCH_FUEL,
                old_hist == pre.log.history(),
                old_app == pre.log.appended(),
                old_app.len() == old_hist.len(),
                old_next == pre.log.next_id(),
                old_next <= u64::MAX - (DISPATCH_FUEL as u64),
                self.log.history().len() == old_hist.len() + (DISPATCH_FUEL - fuel),
                self.log.appended().len() == old_app.len() + (DISPATCH_FUEL - fuel),
                self.log.appended().take(old_app.len() as int) == old_app,
                self.log.next_id() == old_next + (DISPATCH_FUEL - fuel),
                fuel == DISPATCH_FUEL ==> queue@.len() == 1 && queue@[0]@ == cdm
                    && outcome.invoked@.len() == 0 && self.log == pre.log,
                fuel < DISPATCH_FUEL ==> self.log.appended()[old_app.len() as int]
                    == stamped_model(cdm, old_next, now),
                forall|k: int|
                    0 <= k < DISPATCH_FUEL - fuel ==> (#[trigger] self.log.appended()[
                        old_app.len() + k]).id == old_next + k && self.log.appended()[
                        old_app.len() + k].datetime == now,
                forall|j: int|
                    0 <= j < old_hist.len() ==> same_but_content(
                        #[trigger] self.log.history()[j],
                        old_hist[j],
                    ),
                requests_final(outcome.requests@, self.log.history()),
                forall|i: int|
                    0 <= i < outcome.invoked@.len() ==> (#[trigger] outcome.invoked@[i]).processor
                        < self.processors@.len(),
                trace_wf(outcome.invoked@),
                forall|k: int|
                    0 <= k < pre.processors@.len() ==> (#[trigger] self.processors@[
                        k]).spec_channel_from() == pre.processors@[k].spec_channel_from(),
                forall|t: int|
                    0 <= t < outcome.invoked@.len() ==> (#[trigger] outcome.invoked@[
                        t]).datum_id < old_next + (DISPATCH_FUEL - fuel),
                fuel < DISPATCH_FUEL ==> match first_matching(pre.processors@, cdm.channel) {
                    Some(p) => outcome.invoked@.len() >= 1 && outcome.invoked@[0].processor as int
                        == p && outcome.invoked@[0].datum_id == old_next,
                    None => true,
                },
                fuel == DISPATCH_FUEL ==> first_n == 0,
                0 <= first_n <= outcome.invoked@.len(),
                forall|t: int|
                    0 <= t < first_n ==> (#[trigger] outcome.invoked@[t]).datum_id == old_next,
                fuel < DISPATCH_FUEL ==> forall|t: int|
                    first_n <= t < outcome.invoked@.len() ==> (#[trigger] outcome.invoked@[
                        t]).datum_id > old_next,
                fuel < DISPATCH_FUEL ==> chain_complete(
                    outcome.invoked@.take(first_n),
                    pre.processors@,
                    cdm.channel,
                ),
                details.len() == outcome.invoked@.len(),
                drafts == seq![cdm] + concat_injects(details),
                queue@.map_values(|d: ChannelDatum| d@) == drafts.skip(DISPATCH_FUEL - fuel),
                DISPATCH_FUEL - fuel <= drafts.len(),
                forall|k: int|
                    0 <= k < DISPATCH_FUEL - fuel ==> (#[trigger] self.log.appended()[
                        old_app.len() + k]) == stamped_model(drafts[k], (old_next + k) as u64, now),
                forall|t: int|
                    0 <= t < details.len() ==> {
                        &&& (#[trigger] details[t]).processor == outcome.invoked@[
                            t].processor as int
                        &&& details[t].datum_id == outcome.invoked@[t].datum_id
                        &&& details[t].signal == outcome.invoked@[t].signal
                        &&& detail_ok(details[t], now)
                        &&& details[t].log.spec_capacity() == pre.log.spec_capacity()
                        &&& old_next <= details[t].datum_id < old_next + (DISPATCH_FUEL - fuel)
                        &&& details[t].log.appended() == self.log.appended().take(
                            old_app.len() + (details[t].datum_id - old_next) + 1,
                        )
                    },
                details.len() >= 1 ==> details[0].procs == pre.processors@,
                details.len() >= 1 && details[0].datum_id == old_next ==> details[0].log.model()
                    == append_model(
                    pre.log.model(),
                    stamped_model(cdm, old_next, now),
                    pre.log.spec_capacity(),
                ),
                forall|a: int, b: int|
                    #![trigger details[a], details[b]]
                    0 <= a && b == a + 1 && b < details.len() ==> {
                        &&& details[b].procs == details[a].procs.update(
                            details[a].processor,
                            kind_proc_after_spec(
                                details[a].procs[details[a].processor],
                                details[a].log.model(),
                                details[a].datum_id,
                                now,
                            ),
                        )
                        &&& (details[b].datum_id == details[a].datum_id ==> details[
                        b].log.model() == kind_log_after_spec(
                            details[a].procs[details[a].processor],
                            details[a].log.model(),
                            details[a].datum_id,
                        ))
                        &&& details[b].requests_before == details[a].requests_before + (
                        if details[a].emits {
                            1int
                        } else {
                            0int
                        })
                    },
                self.processors@ == (if details.len() == 0 {
                    pre.processors@
                } else {
                    details.last().procs.update(
                        details.last().processor,
                        kind_proc_after_spec(
                            details.last().procs[details.last().processor],
                            details.last().log.model(),
                            details.last().datum_id,
                            now,
                        ),
                    )
                }),
                details.len() >= 1 ==> details[0].requests_before == 0,
                outcome.requests@.len() == (if details.len() == 0 {
                    0int
                } else {
                    details.last().requests_before + (if details.last().emits {
                        1int
                    } else {
                        0int
                    })
                }),
                forall|t: int|
                    0 <= t < details.len() && (#[trigger] details[t]).emits ==> {
                        &&& 0 <= details[t].requests_before < outcome.requests@.len()
                        &&& kind_request_ok(
                            details[t].procs[details[t].processor],
                            details[t].log.model(),
                            details[t].datum_id,
                            &outcome.requests@[details[t].requests_before],
                        )
                    },
                outcome.quit == exists|t: int|
                    0 <= t < details.len() && (#[trigger] details[t]).quit,
                fuel < DISPATCH_FUEL && details.len() == 0 ==> self.log.model()
                    == append_model(
                    pre.log.model(),
                    stamped_model(cdm, old_next, now),
                    pre.log.spec_capacity(),
                ),
            decreases fuel,
        {
            let ghost hist_before = self.log.history();
            let ghost app_before = self.log.appended();
            let ghost first_iter = fuel == DISPATCH_FUEL;
            let ghost queue_before = queue@;
            let d = queue.remove(0);
            assert(self.log.next_id() < u64::MAX);
            let channel_from = d.get_channel().clone();
            proof {
                if first_iter {
                    assert(channel_from@ == cdm.channel);
                }
                assert(queue_before.map_values(|x: ChannelDatum| x@).len()
                    == queue_before.len());
                assert(drafts.skip(DISPATCH_FUEL - fuel).len() >= 1);
                assert(DISPATCH_FUEL - fuel < drafts.len());
                assert(queue_before.map_values(|x: ChannelDatum| x@)[0] == queue_before[0]@);
                assert(d@ == queue_before[0]@);
                assert(d@ == drafts.skip(DISPATCH_FUEL - fuel)[0]);
                assert(drafts.skip(DISPATCH_FUEL - fuel)[0] == drafts[DISPATCH_FUEL - fuel]);
                assert(queue@ =~= queue_before.skip(1));
                assert(queue@.map_values(|x: ChannelDatum| x@) =~= queue_before.skip(
                    1,
                ).map_values(|x: ChannelDatum| x@));
                assert(queue_before.skip(1).map_values(|x: ChannelDatum| x@)
                    =~= queue_before.map_values(|x: ChannelDatum| x@).skip(1));
                assert(drafts.skip(DISPATCH_FUEL - fuel).skip(1) =~= drafts.skip(
                    DISPATCH_FUEL - fuel + 1,
                ));
            }
            let ghost log_pre_append = self.log;
            let id = self.log.append(d, now);
            proof {
                assert(self.log.appended().take(old_app.len() as int) =~= app_before.take(
                    old_app.len() as int,
                ));
                assert forall|k: int| 0 <= k < DISPATCH_FUEL - fuel + 1 implies (
                #[trigger] self.log.appended()[old_app.len() + k]) == stamped_model(
                    drafts[k],
                    (old_next + k) as u64,
                    now,
                ) by {
                    if k < DISPATCH_FUEL - fuel {
                        assert(self.log.appended()[old_app.len() + k] == app_before[old_app.len()
                            + k]);
                    } else {
                        assert(self.log.appended()[old_app.len() + k]
                            == self.log.appended().last());
                        assert(self.log.appended().last() == stamped_model(d@, id, now));
                    }
                }
                assert forall|t: int| 0 <= t < details.len() implies (#[trigger] details[
                    t]).log.appended() == self.log.appended().take(
                    old_app.len() + (details[t].datum_id - old_next) + 1,
                ) by {
                    let lt = old_app.len() + (details[t].datum_id - old_next) + 1;
                    assert(lt <= app_before.len());
                    assert(self.log.appended().take(lt) =~= app_before.take(lt));
                }
                if first_iter {
                    assert(details.len() == 0);
                    assert(log_pre_append == pre.log);
                    assert(d@ == cdm);
                    assert(self.log.model() == append_model(
                        pre.log.model(),
                        stamped_model(cdm, old_next, now),
                        pre.log.spec_capacity(),
                    ));
                }
                assert forall|k: int| 0 <= k < DISPATCH_FUEL - fuel + 1 implies (
                #[trigger] self.log.appended()[old_app.len() + k]).id == old_next + k
                    && self.log.appended()[old_app.len() + k].datetime == now by {
                    if k < DISPATCH_FUEL - fuel {
                        assert(self.log.appended()[old_app.len() + k] == app_before[old_app.len()
                            + k]);
                    } else {
                        assert(self.log.appended()[old_app.len() + k]
                            == self.log.appended().last());
                    }
                }
                if first_iter {
                    assert(self.log.appended()[old_app.len() as int]
                        == self.log.appended().last());
                    assert(self.log.appended()[old_app.len() as int] == stamped_model(
                        cdm,
                        old_next,
                        now,
                    ));
                } else {
                    assert(self.log.appended()[old_app.len() as int] == app_before[
                        old_app.len() as int
                    ]);
                }
                assert forall|j: int| 0 <= j < old_hist.len() implies same_but_content(
                    #[trigger] self.log.history()[j],
                    old_hist[j],
                ) by {
                    assert(self.log.history()[j] == hist_before[j]);
                }
                lemma_requests_preserved(
                    outcome.requests@,
                    hist_before,
                    self.log.history(),
                );
            }
            let mut i: usize = 0;
            proof {
                lemma_first_matching(pre.processors@, cdm.channel);
            }
            while i < self.processors.len()
                invariant_except_break
                    outcome.invoked@.len() >= 1 && outcome.invoked@.last().datum_id == id
                        ==> outcome.invoked@.last().signal == CompletedAnd::Next,
                invariant
                    self.log.wf(),
                    self.processors@.len() == pre.processors@.len(),
                    self.state_data_auto_save == pre.state_data_auto_save,
                    self.log.spec_capacity() == pre.log.spec_capacity(),
                    i <= self.processors@.len(),
                    fuel >= 1,
                    fuel <= DISPATCH_FUEL,
                    old_next <= u64::MAX - (DISPATCH_FUEL as u64),
                    self.log.history().len() == old_hist.len() + (DISPATCH_FUEL - fuel) + 1,
                    self.log.appended().len() == old_app.len() + (DISPATCH_FUEL - fuel) + 1,
                    self.log.appended().take(old_app.len() as int) == old_app,
                    old_app.len() == old_hist.len(),
                    self.log.appended()[old_app.len() as int] == stamped_model(
                        cdm,
                        old_next,
                        now,
                    ),
                    forall|k: int|
                        0 <= k < DISPATCH_FUEL - fuel + 1 ==> (#[trigger] self.log.appended()[
                            old_app.len() + k]).id == old_next + k && self.log.appended()[
                            old_app.len() + k].datetime == now,
                    self.log.next_id() == old_next + (DISPATCH_FUEL - fuel) + 1,
                    forall|j: int|
                        0 <= j < old_hist.len() ==> same_but_content(
                            #[trigger] self.log.history()[j],
                            old_hist[j],
                        ),
                    requests_final(outcome.requests@, self.log.history()),
                    forall|r: int|
                        0 <= r < outcome.invoked@.len() ==> (#[trigger] outcome.invoked@[
                            r]).processor < self.processors@.len(),
                    trace_wf(outcome.invoked@),
                    forall|k: int|
                        0 <= k < pre.processors@.len() ==> (#[trigger] self.processors@[
                            k]).spec_channel_from() == pre.processors@[k].spec_channel_from(),
                    id == old_next + (DISPATCH_FUEL - fuel),
                    first_iter == (fuel == DISPATCH_FUEL),
                    first_iter ==> channel_from@ == cdm.channel && id == old_next,
                    forall|t: int|
                        0 <= t < outcome.invoked@.len() ==> (#[trigger] outcome.invoked@[
                            t]).datum_id <= id,
                    forall|t: int|
                        0 <= t < outcome.invoked@.len() && (#[trigger] outcome.invoked@[
                            t]).datum_id == id ==> outcome.invoked@[t].processor < i,
                    forall|t: int|
                        0 <= t < outcome.invoked@.len() - 1 && (#[trigger] outcome.invoked@[
                            t]).datum_id == id ==> outcome.invoked@[t].signal
                            == CompletedAnd::Next,
                    first_iter ==> match first_matching(pre.processors@, cdm.channel) {
                        Some(p) => 0 <= p < pre.processors@.len() && (
                        if outcome.invoked@.len() == 0 {
                            p >= i
                        } else {
                            outcome.invoked@[0].processor as int == p
                                && outcome.invoked@[0].datum_id == id
                        }),
                        None => outcome.invoked@.len() == 0,
                    },
                    !first_iter ==> match first_matching(pre.processors@, cdm.channel) {
                        Some(p) => outcome.invoked@.len() >= 1 && outcome.invoked@[
                            0].processor as int == p && outcome.invoked@[0].datum_id
                            == old_next,
                        None => true,
                    },
                    first_iter ==> forall|t: int|
                        0 <= t < outcome.invoked@.len() ==> (#[trigger] outcome.invoked@[
                            t]).datum_id == id,
                    first_iter ==> forall|t: int|
                        0 <= t < outcome.invoked@.len() ==> pre.processors@[(
                        #[trigger] outcome.invoked@[t]).processor as int].spec_channel_from()
                            == cdm.channel,
                    first_iter ==> forall|a: int, b: int|
                        #![trigger outcome.invoked@[a], outcome.invoked@[b]]
                        0 <= a && b == a + 1 && b < outcome.invoked@.len() ==> no_match_between(
                            pre.processors@,
                            cdm.channel,
                            outcome.invoked@[a].processor as int,
                            outcome.invoked@[b].processor as int,
                        ),
                    first_iter && outcome.invoked@.len() >= 1 ==> no_match_between(
                        pre.processors@,
                        cdm.channel,
                        outcome.invoked@.last().processor as int,
                        i as int,
                    ),
                    first_iter && outcome.invoked@.len() == 0 ==> no_match_between(
                        pre.processors@,
                        cdm.channel,
                        -1,
                        i as int,
                    ),
                    !first_iter ==> 0 <= first_n <= outcome.invoked@.len(),
                    !first_iter ==> forall|t: int|
                        0 <= t < first_n ==> (#[trigger] outcome.invoked@[t]).datum_id
                            == old_next,
                    !first_iter ==> forall|t: int|
                        first_n <= t < outcome.invoked@.len() ==> (#[trigger] outcome.invoked@[
                            t]).datum_id > old_next,
                    !first_iter ==> chain_complete(
                        outcome.invoked@.take(first_n),
                        pre.processors@,
                        cdm.channel,
                    ),
                    details.len() == outcome.invoked@.len(),
                    drafts == seq![cdm] + concat_injects(details),
                    queue@.map_values(|d: ChannelDatum| d@) == drafts.skip(
                        DISPATCH_FUEL - fuel + 1,
                    ),
                    DISPATCH_FUEL - fuel + 1 <= drafts.len(),
                    forall|k: int|
                        0 <= k < DISPATCH_FUEL - fuel + 1 ==> (#[trigger] self.log.appended()[
                            old_app.len() + k]) == stamped_model(
                            drafts[k],
                            (old_next + k) as u64,
                            now,
                        ),
                    forall|t: int|
                        0 <= t < details.len() ==> {
                            &&& (#[trigger] details[t]).processor == outcome.invoked@[
                                t].processor as int
                            &&& details[t].datum_id == outcome.invoked@[t].datum_id
                            &&& details[t].signal == outcome.invoked@[t].signal
                            &&& detail_ok(details[t], now)
                            &&& details[t].log.spec_capacity() == pre.log.spec_capacity()
                            &&& old_next <= details[t].datum_id < old_next + (DISPATCH_FUEL
                                - fuel) + 1
                            &&& details[t].log.appended() == self.log.appended().take(
                                old_app.len() + (details[t].datum_id - old_next) + 1,
                            )
                        },
                    details.len() >= 1 ==> details[0].procs == pre.processors@,
                    details.len() >= 1 && details[0].datum_id == old_next ==> details[
                    0].log.model() == append_model(
                        pre.log.model(),
                        stamped_model(cdm, old_next, now),
                        pre.log.spec_capacity(),
                    ),
                    first_iter && details.len() == 0 ==> self.log.model() == append_model(
                        pre.log.model(),
                        stamped_model(cdm, old_next, now),
                        pre.log.spec_capacity(),
                    ),
                    forall|a: int, b: int|
                        #![trigger details[a], details[b]]
                        0 <= a && b == a + 1 && b < details.len() ==> {
                            &&& details[b].procs == details[a].procs.update(
                                details[a].processor,
                                kind_proc_after_spec(
                                    details[a].procs[details[a].processor],
                                    details[a].log.model(),
                                    details[a].datum_id,
                                    now,
                                ),
                            )
                            &&& (details[b].datum_id == details[a].datum_id ==> details[
                            b].log.model() == kind_log_after_spec(
                                details[a].procs[details[a].processor],
                                details[a].log.model(),
                                details[a].datum_id,
                            ))
                            &&& details[b].requests_before == details[a].requests_before + (
                            if details[a].emits {
                                1int
                            } else {
                                0int
                            })
                        },
                    self.processors@ == (if details.len() == 0 {
                        pre.processors@
                    } else {
                        details.last().procs.update(
                            details.last().processor,
                            kind_proc_after_spec(
                                details.last().procs[details.last().processor],
                                details.last().log.model(),
                                details.last().datum_id,
                                now,
                            ),
                        )
                    }),
                    details.len() >= 1 && details.last().datum_id == id ==> self.log.model()
                        == kind_log_after_spec(
                        details.last().procs[details.last().processor],
                        details.last().log.model(),
                        details.last().datum_id,
                    ),
                    details.len() >= 1 ==> details[0].requests_before == 0,
                    outcome.requests@.len() == (if details.len() == 0 {
                        0int
                    } else {
                        details.last().requests_before + (if details.last().emits {
                            1int
                        } else {
                            0int
                        })
                    }),
                    forall|t: int|
                        0 <= t < details.len() && (#[trigger] details[t]).emits ==> {
                            &&& 0 <= details[t].requests_before < outcome.requests@.len()
                            &&& kind_request_ok(
                                details[t].procs[details[t].processor],
                                details[t].log.model(),
                                details[t].datum_id,
                                &outcome.requests@[details[t].requests_before],
                            )
                        },
                    outcome.quit == exists|t: int|
                        0 <= t < details.len() && (#[trigger] details[t]).quit,
                ensures
                    first_iter ==> match first_matching(pre.processors@, cdm.channel) {
                        Some(p) => outcome.invoked@.len() >= 1 && outcome.invoked@[
                            0].processor as int == p && outcome.invoked@[0].datum_id == id,
                        None => outcome.invoked@.len() == 0,
                    },
                    first_iter ==> forall|t: int|
                        0 <= t < outcome.invoked@.len() ==> (#[trigger] outcome.invoked@[
                            t]).datum_id == id,
                    first_iter ==> chain_complete(
                        outcome.invoked@,
                        pre.processors@,
                        cdm.channel,
                    ),
                    !first_iter ==> 0 <= first_n <= outcome.invoked@.len(),
                    !first_iter ==> forall|t: int|
                        0 <= t < first_n ==> (#[trigger] outcome.invoked@[t]).datum_id
                            == old_next,
                    !first_iter ==> forall|t: int|
                        first_n <= t < outcome.invoked@.len() ==> (#[trigger] outcome.invoked@[
                            t]).datum_id > old_next,
                    !first_iter ==> chain_complete(
                        outcome.invoked@.take(first_n),
                        pre.processors@,
                        cdm.channel,
                    ),
                decreases self.processors@.len() - i,
            {
                let mut halt = false;
                let matched = self.processors[i].is_channel_from(&channel_from);
                proof {
                    lemma_first_matching(pre.processors@, cdm.channel);
                    assert(self.processors@[i as int].spec_channel_from() == pre.processors@[
                        i as int
                    ].spec_channel_from());
                    if first_iter && !matched {
                        assert(pre.processors@[i as int].spec_channel_from() != cdm.channel);
                    }
                    if first_iter && outcome.invoked@.len() == 0 && !matched {
                        match first_matching(pre.processors@, cdm.channel) {
                            Some(p) => {
                                assert(pre.processors@[p].spec_channel_from() == cdm.channel);
                                assert(p != i);
                            },
                            None => {},
                        }
                    }
                }
                if matched {
                    let ghost log_before = self.log;
                    let ghost log_before_procs = self.processors@;
                    let State { log, processors, .. } = self;
                    let mut st = processors[i].process(log, id, now);
                    proof {
                        let hist_pre_step = log_before.history();
                        assert(self.log.appended() == log_before.appended());
                        assert forall|j: int| 0 <= j < old_hist.len() implies same_but_content(
                            #[trigger] self.log.history()[j],
                            old_hist[j],
                        ) by {
                            assert(same_but_content(self.log.history()[j], hist_pre_step[j]));
                        }
                        lemma_requests_preserved(
                            outcome.requests@,
                            hist_pre_step,
                            self.log.history(),
                        );
                    }
                    proof {
                        assert forall|k: int| 0 <= k < pre.processors@.len() implies (
                        #[trigger] self.processors@[k]).spec_channel_from() == pre.processors@[
                            k].spec_channel_from() by {
                            if k != i {
                                assert(self.processors@[k] == log_before_procs[k]);
                            }
                        }
                    }
                    let ghost detail = InvokeDetail {
                        processor: i as int,
                        datum_id: id,
                        log: log_before,
                        procs: log_before_procs,
                        signal: st.signal,
                        injects: st.injects@.map_values(|x: ChannelDatum| x@),
                        emits: st.request is Some,
                        quit: st.quit,
                        requests_before: outcome.requests@.len() as int,
                    };
                    let ghost prev_invoked = outcome.invoked@;
                    let ghost prev_details = details;
                    let ghost prev_drafts = drafts;
                    outcome.invoked.push(
                        InvokeRecord { processor: i, datum_id: id, signal: st.signal },
                    );
                    proof {
                        let rec = InvokeRecord { processor: i, datum_id: id, signal: st.signal };
                        assert(outcome.invoked@ == prev_invoked.push(rec));
                        assert forall|a: int, b: int|
                            0 <= a < b < outcome.invoked@.len() && (#[trigger] outcome.invoked@[
                                a]).datum_id == (#[trigger] outcome.invoked@[b]).datum_id implies
                            outcome.invoked@[a].processor < outcome.invoked@[b].processor
                                && outcome.invoked@[a].signal == CompletedAnd::Next by {
                            if b == prev_invoked.len() {
                                assert(outcome.invoked@[a] == prev_invoked[a]);
                                if prev_invoked[a].datum_id == id {
                                    assert(prev_invoked[a].processor < i);
                                    if a < prev_invoked.len() - 1 {
                                    } else {
                                        assert(prev_invoked.last().signal
                                            == CompletedAnd::Next);
                                    }
                                }
                            } else {
                                assert(outcome.invoked@[a] == prev_invoked[a]);
                                assert(outcome.invoked@[b] == prev_invoked[b]);
                            }
                        }
                        if first_iter {
                            match first_matching(pre.processors@, cdm.channel) {
                                Some(p) => {
                                    if prev_invoked.len() == 0 {
                                        assert(self.processors@[i as int].spec_channel_from()
                                            == pre.processors@[i as int].spec_channel_from());
                                        assert(pre.processors@[
                                            i as int].spec_channel_from() == cdm.channel);
                                        assert(p <= i);
                                        assert(p == i);
                                        assert(outcome.invoked@[0] == rec);
                                    } else {
                                        assert(outcome.invoked@[0] == prev_invoked[0]);
                                    }
                                },
                                None => {
                                    assert(pre.processors@[i as int].spec_channel_from()
                                        != cdm.channel);
                                    assert(self.processors@[i as int].spec_channel_from()
                                        == cdm.channel);
                                    assert(false);
                                },
                            }
                        } else {
                            match first_matching(pre.processors@, cdm.channel) {
                                Some(p) => {
                                    assert(prev_invoked.len() >= 1);
                                    assert(outcome.invoked@[0] == prev_invoked[0]);
                                },
                                None => {},
                            }
                        }
                        details = details.push(detail);
                        lemma_concat_injects_snoc(prev_details, detail);
                        drafts = drafts + detail.injects;
                        assert(detail_ok(detail, now)) by {
                            assert(log_before_procs[i as int] == log_before_procs[
                                detail.processor
                            ]);
                        }
                        assert(detail.log.appended() == self.log.appended().take(
                            old_app.len() + (detail.datum_id - old_next) + 1,
                        )) by {
                            assert(log_before.appended() == self.log.appended());
                            assert(self.log.appended().take(
                                self.log.appended().len() as int,
                            ) =~= self.log.appended());
                        }
                        assert forall|t: int| 0 <= t < details.len() implies {
                            &&& (#[trigger] details[t]).processor == outcome.invoked@[
                                t].processor as int
                            &&& details[t].datum_id == outcome.invoked@[t].datum_id
                            &&& details[t].signal == outcome.invoked@[t].signal
                            &&& detail_ok(details[t], now)
                            &&& details[t].log.spec_capacity() == pre.log.spec_capacity()
                            &&& old_next <= details[t].datum_id < old_next + (DISPATCH_FUEL
                                - fuel) + 1
                            &&& details[t].log.appended() == self.log.appended().take(
                                old_app.len() + (details[t].datum_id - old_next) + 1,
                            )
                        } by {
                            if t < prev_details.len() {
                                assert(details[t] == prev_details[t]);
                                assert(outcome.invoked@[t] == prev_invoked[t]);
                            } else {
                                assert(details[t] == detail);
                            }
                        }
                        assert forall|a: int, b: int|
                            #![trigger details[a], details[b]]
                            0 <= a && b == a + 1 && b < details.len() implies {
                            &&& details[b].procs == details[a].procs.update(
                                details[a].processor,
                                kind_proc_after_spec(
                                    details[a].procs[details[a].processor],
                                    details[a].log.model(),
                                    details[a].datum_id,
                                    now,
                                ),
                            )
                            &&& (details[b].datum_id == details[a].datum_id ==> details[
                            b].log.model() == kind_log_after_spec(
                                details[a].procs[details[a].processor],
                                details[a].log.model(),
                                details[a].datum_id,
                            ))
                            &&& details[b].requests_before == details[a].requests_before + (
                            if details[a].emits {
                                1int
                            } else {
                                0int
                            })
                        } by {
                            if b < prev_details.len() {
                                assert(details[a] == prev_details[a]);
                                assert(details[b] == prev_details[b]);
                            } else {
                                assert(details[b] == detail);
                                assert(details[a] == prev_details[a]);
                                assert(prev_details.last() == prev_details[a]);
                            }
                        }
                        if prev_details.len() == 0 {
                            assert(details[0] == detail);
                        } else {
                            assert(details[0] == prev_details[0]);
                        }
                        assert(self.processors@ == log_before_procs.update(
                            i as int,
                            kind_proc_after_spec(
                                log_before_procs[i as int],
                                log_before.model(),
                                id,
                                now,
                            ),
                        ));
                        assert(details.last() == detail);
                        assert(self.log.model() == kind_log_after_spec(
                            detail.procs[detail.processor],
                            detail.log.model(),
                            detail.datum_id,
                        ));
                        if first_iter {
                            assert(pre.processors@[i as int].spec_channel_from()
                                == cdm.channel);
                            assert forall|t: int| 0 <= t < outcome.invoked@.len() implies (
                            #[trigger] outcome.invoked@[t]).datum_id == id
                                && pre.processors@[
                                outcome.invoked@[t].processor as int].spec_channel_from()
                                == cdm.channel by {
                                if t < prev_invoked.len() {
                                    assert(outcome.invoked@[t] == prev_invoked[t]);
                                } else {
                                    assert(outcome.invoked@[t] == rec);
                                }
                            }
                            assert forall|a: int, b: int|
                                #![trigger outcome.invoked@[a], outcome.invoked@[b]]
                                0 <= a && b == a + 1 && b < outcome.invoked@.len() implies
                                no_match_between(
                                pre.processors@,
                                cdm.channel,
                                outcome.invoked@[a].processor as int,
                                outcome.invoked@[b].processor as int,
                            ) by {
                                if b == prev_invoked.len() {
                                    assert(outcome.invoked@[a] == prev_invoked[a]);
                                    assert(outcome.invoked@[b] == rec);
                                    assert(prev_invoked.last() == prev_invoked[a]);
                                } else {
                                    assert(outcome.invoked@[a] == prev_invoked[a]);
                                    assert(outcome.invoked@[b] == prev_invoked[b]);
                                }
                            }
                            assert(outcome.invoked@.last() == rec);
                        } else {
                            assert(outcome.invoked@.take(first_n) =~= prev_invoked.take(
                                first_n,
                            ));
                            assert(id > old_next);
                            assert forall|t: int|
                                first_n <= t < outcome.invoked@.len() implies (
                            #[trigger] outcome.invoked@[t]).datum_id > old_next by {
                                if t < prev_invoked.len() {
                                    assert(outcome.invoked@[t] == prev_invoked[t]);
                                } else {
                                    assert(outcome.invoked@[t] == rec);
                                }
                            }
                            assert forall|t: int| 0 <= t < first_n implies (
                            #[trigger] outcome.invoked@[t]).datum_id == old_next by {
                                assert(outcome.invoked@[t] == prev_invoked[t]);
                            }
                        }
                    }
                    match st.request {
                        Some(req) => {
                            proof {
                                let hist_pre_step = log_before.history();
                                let off = hist_pre_step.len() - log_before.model().len();
                                crate::processor::lemma_find_spec_index_agree(
                                    log_before.model(),
                                    id,
                                );
                                let idx = crate::event_log::find_index_spec(
                                    log_before.model(),
                                    id,
                                )->Some_0;
                                assert(log_before.model()[idx] == log_before.history().skip(
                                    off,
                                )[idx]);
                                assert(log_before.history().skip(off)[idx] == hist_pre_step[off
                                    + idx]);
                                assert(hist_pre_step[off + idx].id == id
                                    && hist_pre_step[off + idx].is_final());
                                assert(same_but_content(
                                    self.log.history()[off + idx],
                                    hist_pre_step[off + idx],
                                ));
                                assert(self.log.history()[off + idx].id == req.trigger_id
                                    && self.log.history()[off + idx].is_final());
                                lemma_requests_push(
                                    outcome.requests@,
                                    req,
                                    self.log.history(),
                                    off + idx,
                                );
                            }
                            let ghost prev_reqs = outcome.requests@;
                            outcome.requests.push(req);
                            proof {
                                assert forall|t: int|
                                    0 <= t < details.len() && (#[trigger] details[t]).emits
                                    implies {
                                    &&& 0 <= details[t].requests_before
                                        < outcome.requests@.len()
                                    &&& kind_request_ok(
                                        details[t].procs[details[t].processor],
                                        details[t].log.model(),
                                        details[t].datum_id,
                                        &outcome.requests@[details[t].requests_before],
                                    )
                                } by {
                                    if t < details.len() - 1 {
                                        assert(details[t] == prev_details[t]);
                                        assert(outcome.requests@[details[t].requests_before]
                                            == prev_reqs[details[t].requests_before]);
                                    } else {
                                        assert(details[t] == detail);
                                        assert(outcome.requests@[detail.requests_before]
                                            == req);
                                        assert(kind_request_ok(
                                            log_before_procs[i as int],
                                            log_before.model(),
                                            id,
                                            &req,
                                        ));
                                    }
                                }
                            }
                        },
                        None => {
                            proof {
                                assert forall|t: int|
                                    0 <= t < details.len() && (#[trigger] details[t]).emits
                                    implies {
                                    &&& 0 <= details[t].requests_before
                                        < outcome.requests@.len()
                                    &&& kind_request_ok(
                                        details[t].procs[details[t].processor],
                                        details[t].log.model(),
                                        details[t].datum_id,
                                        &outcome.requests@[details[t].requests_before],
                                    )
                                } by {
                                    assert(!detail.emits);
                                    assert(details[t] == prev_details[t]);
                                }
                            }
                        },
                    }
                    let ghost queue_mid = queue@;
                    let ghost injects_before = st.injects@;
                    queue.append(&mut st.injects);
                    proof {
                        assert(queue@ == queue_mid + injects_before);
                        assert(injects_before.map_values(|x: ChannelDatum| x@)
                            == detail.injects);
                    }
                    if st.quit {
                        outcome.quit = true;
                    }
                    proof {
                        if st.quit {
                            assert(details[details.len() - 1].quit);
                            assert(outcome.quit == exists|t: int|
                                0 <= t < details.len() && (#[trigger] details[t]).quit);
                        } else {
                            if outcome.quit {
                                let w = choose|t: int|
                                    0 <= t < prev_details.len() && (#[trigger] prev_details[
                                        t]).quit;
                                assert(details[w] == prev_details[w]);
                                assert(details[w].quit);
                            } else {
                                assert forall|t: int|
                                    0 <= t < details.len() implies !(#[trigger] details[
                                    t]).quit by {
                                    if t < prev_details.len() {
                                        assert(details[t] == prev_details[t]);
                                    } else {
                                        assert(details[t] == detail);
                                    }
                                }
                            }
                        }
                        assert(queue@.map_values(|x: ChannelDatum| x@) =~= queue_mid.map_values(
                            |x: ChannelDatum| x@,
                        ) + detail.injects);
                        assert(drafts.skip(DISPATCH_FUEL - fuel + 1) =~= prev_drafts.skip(
                            DISPATCH_FUEL - fuel + 1,
                        ) + detail.injects);
                        assert forall|k: int| 0 <= k < DISPATCH_FUEL - fuel + 1 implies (
                        #[trigger] self.log.appended()[old_app.len() + k]) == stamped_model(
                            drafts[k],
                            (old_next + k) as u64,
                            now,
                        ) by {
                            assert(drafts[k] == prev_drafts[k]);
                        }
                    }
                    if st.signal == CompletedAnd::Break {
                        halt = true;
                    }
                }
                i += 1;
                if halt {
                    break ;
                }
            }
            proof {
                if first_iter {
                    first_n = outcome.invoked@.len() as int;
                    assert(outcome.invoked@.take(first_n) =~= outcome.invoked@);
                }
                if details.len() == 0 {
                    if !first_iter {
                        assert(drafts =~= seq![cdm]);
                        assert(queue_before.map_values(|x: ChannelDatum| x@).len() >= 1);
                        assert(DISPATCH_FUEL - fuel < drafts.len());
                        assert(fuel == DISPATCH_FUEL);
                        assert(false);
                    }
                }
            }
            fuel = fuel - 1;
        }
        proof {
            assert(fuel < DISPATCH_FUEL);
            assert(same_but_content(
                self.log.history()[old_hist.len() as int],
                self.log.appended()[old_app.len() as int],
            ));
            assert(chain_of_push(
                outcome.invoked@,
                pre.processors@,
                cdm.channel,
                old_next,
                first_n,
            ));
            if fuel > 0 {
                assert(queue@.len() == 0);
                assert(queue@.map_values(|x: ChannelDatum| x@).len() == 0);
                assert(drafts.skip(DISPATCH_FUEL - fuel).len() == 0);
                assert(DISPATCH_FUEL - fuel == drafts.len());
            }
        }
        outcome.save = self.state_data_auto_save;
        proof {
            assert(fanout_exact(pre, *self, outcome, cdm, now, details));
        }
        outcome
    }

    /// Serializes the live entries to the snapshot text.
    pub fn snapshot(&self) -> (r: String)
        ensures
            r@ == crate::snapshot::render_log(self.log.model()),
    {
        crate::snapshot::snapshot(&self.log)
    }

    /// Replaces the log with the entries read back from a snapshot text,
    /// keeping the configured capacity; the id generator moves past the
    /// largest restored id. Nothing changes when the text does not read
    /// back or its ids are not strictly increasing.
    pub fn load(&mut self, text: &str) -> (ok: bool)
        requires
            old(self).wf(),
        ensures
            final(self).wf(),
            final(self).processors == old(self).processors,
            final(self).state_data_auto_save == old(self).state_data_auto_save,
            final(self).log.spec_capacity() == old(self).log.spec_capacity(),
            match crate::snapshot::spec_parse_snapshot(text@) {
                Some(ms) => {
                    if crate::event_log::restorable(ms) {
                        ok && final(self).log.history() == ms && final(self).log.next_id() == (
                        if ms.len() == 0 {
                            1u64
                        } else {
                            (ms.last().id + 1) as u64
                        })
                    } else {
                        !ok && final(self).log == old(self).log
                    }
                },
                None => !ok && final(self).log == old(self).log,
            },
    {
        let capacity = self.log.capacity();
        match crate::snapshot::restore(text, capacity) {
            Some(l) => {
                self.log = l;
                true
            },
            None => false,
        }
    }

    /// Pushes each datum in order through the full dispatch: calling this is
    /// exactly calling `push_channel_datum` once per datum, front first, and
    /// the returned outcomes are those pushes' outcomes in the same order.
    pub fn push_channel_data(&mut self, data: Vec<ChannelDatum>, now: u64) -> (r: Vec<
        PushOutcome,
    >)
        requires
            old(self).wf(),
        ensures
            final(self).wf(),
            r@.len() == data@.len(),
            exists|mids: Seq<State>|
                {
                    &&& mids.len() == data@.len() + 1
                    &&& mids[0] == *old(self)
                    &&& mids[data@.len() as int] == *final(self)
                    &&& forall|i: int|
                        0 <= i < data@.len() ==> batch_step(
                            #[trigger] mids[i],
                            mids[i + 1],
                            data@[i]@,
                            r@[i],
                            now,
                        )
                },
    {
        let ghost datam = data@.map_values(|d: ChannelDatum| d@);
        let ghost n = datam.len() as int;
        let mut r: Vec<PushOutcome> = Vec::new();
        let mut data = data;
        let ghost mut mids: Seq<State> = seq![*old(self)];
        proof {
            assert(data@.map_values(|d: ChannelDatum| d@) =~= datam.skip(n - data@.len()));
        }
        while data.len() > 0
            invariant
                self.wf(),
                n == datam.len(),
                data@.len() <= n,
                data@.map_values(|d: ChannelDatum| d@) == datam.skip(n - data@.len()),
                r@.len() == n - data@.len(),
                mids.len() == r@.len() + 1,
                mids[0] == *old(self),
                mids[mids.len() - 1] == *self,
                forall|i: int|
                    0 <= i < r@.len() ==> batch_step(
                        #[trigger] mids[i],
                        mids[i + 1],
                        datam[i],
                        r@[i],
                        now,
                    ),
            decreases data@.len(),
        {
            let ghost prev = *self;
            let ghost k = r@.len() as int;
            proof {
                assert(data@.map_values(|d: ChannelDatum| d@)[0] == data@[0]@);
                assert(datam.skip(n - data@.len())[0] == datam[n - data@.len()]);
                assert(data@[0]@ == datam[k]);
            }
            let ghost pre_vec = data@;
            let ghost cdm_k = data@[0]@;
            let cd = data.remove(0);
            proof {
                assert(data@ =~= pre_vec.skip(1));
                assert(data@.map_values(|d: ChannelDatum| d@) =~= pre_vec.skip(1).map_values(
                    |d: ChannelDatum| d@,
                ));
                assert(pre_vec.skip(1).map_values(|d: ChannelDatum| d@) =~= pre_vec.map_values(
                    |d: ChannelDatum| d@,
                ).skip(1));
                assert(datam.skip(n - pre_vec.len()).skip(1) =~= datam.skip(n - data@.len()));
            }
            let one = self.push_channel_datum(cd, now);
            proof {
                if prev.log.next_id() <= u64::MAX - (DISPATCH_FUEL as u64) {
                    let w = choose|details: Seq<InvokeDetail>|
                        fanout_exact(prev, *self, one, cdm_k, now, details);
                    assert(cdm_k == datam[k]);
                    assert(fanout_exact(prev, *self, one, datam[k], now, w));
                }
            }
            let ghost prev_mids = mids;
            let ghost prev_r = r@;
            r.push(one);
            proof {
                mids = mids.push(*self);
                assert(mids[mids.len() - 1] == *self);
                assert(mids[0] == prev_mids[0]);
                assert forall|i: int| 0 <= i < r@.len() implies batch_step(
                    #[trigger] mids[i],
                    mids[i + 1],
                    datam[i],
                    r@[i],
                    now,
                ) by {
                    if i < k {
                        assert(mids[i] == prev_mids[i]);
                        assert(mids[i + 1] == prev_mids[i + 1]);
                        assert(r@[i] == prev_r[i]);
                        assert(batch_step(prev_mids[i], prev_mids[i + 1], datam[i], prev_r[i], now));
                    } else {
                        assert(mids[i] == prev);
                        assert(mids[i + 1] == *self);
                        assert(r@[i] == one);
                    }
                }
            }
        }
        proof {
            assert(r@.len() == n);
            assert(mids.len() == n + 1);
            assert(mids[n] == *self);
        }
        r
    }

    /// The read query of the egress interface: the entries of one channel
    /// in chronological order, cut down by an optional maximum count and
    /// optional already-seen id and time cursors.
    pub fn query_channel(
        &self,
        name: &String,
        retrieved_id: Option<u64>,
        retrieved_datetime: Option<u64>,
        count: Option<usize>,
    ) -> (r: Vec<ChannelDatum>)
        ensures
            r@.map_values(|d: ChannelDatum| d@) == query_spec(
                self.log.model(),
                name@,
                retrieved_id,
                retrieved_datetime,
                count,
            ),
    {
        let lm = self.log.len();
        let mut base: Vec<ChannelDatum> = Vec::new();
        let mut i: usize = 0;
        proof {
            reveal(Seq::filter);
            assert(self.log.model().take(0).filter(|d: DatumModel| d.channel == name@) =~= Seq::<
                DatumModel,
            >::empty());
            assert(base@.map_values(|d: ChannelDatum| d@) =~= Seq::<DatumModel>::empty());
        }
        while i < lm
            invariant
                i <= self.log.model().len(),
                lm == self.log.model().len(),
                base@.map_values(|d: ChannelDatum| d@) == self.log.model().take(i as int).filter(
                    |d: DatumModel| d.channel == name@,
                ),
            decreases lm - i,
        {
            let d = self.log.get(i);
            let ghost prev = base@.map_values(|x: ChannelDatum| x@);
            let matched = *d.get_channel() == *name;
            if matched {
                base.push(d.duplicate());
            }
            proof {
                reveal(Seq::filter);
                assert(self.log.model().take(i + 1).drop_last() =~= self.log.model().take(
                    i as int,
                ));
                assert(self.log.model().take(i + 1).last() == self.log.model()[i as int]);
                if matched {
                    assert(base@.map_values(|x: ChannelDatum| x@) =~= prev.push(
                        self.log.model()[i as int],
                    ));
                }
                assert(base@.map_values(|x: ChannelDatum| x@) =~= self.log.model().take(
                    i + 1,
                ).filter(|d: DatumModel| d.channel == name@));
            }
            i += 1;
        }
        proof {
            assert(self.log.model().take(lm as int) =~= self.log.model());
        }
        let counted: Vec<ChannelDatum> = match count {
            Some(c) => {
                if base.len() <= c {
                    base
                } else {
                    let at = base.len() - c;
                    let ghost basem = base@.map_values(|d: ChannelDatum| d@);
                    let mut b = base;
                    let tail = b.split_off(at);
                    proof {
                        assert(tail@.map_values(|d: ChannelDatum| d@) =~= basem.skip(at as int));
                    }
                    tail
                }
            },
            None => base,
        };
        let ghost countedm = counted@.map_values(|d: ChannelDatum| d@);
        let after_id: Vec<ChannelDatum> = match retrieved_id {
            Some(rid) => {
                let mut out: Vec<ChannelDatum> = Vec::new();
                let mut k: usize = 0;
                proof {
                    reveal(Seq::filter);
                    assert(countedm.take(0).filter(|d: DatumModel| d.id > rid) =~= Seq::<
                        DatumModel,
                    >::empty());
                    assert(out@.map_values(|d: ChannelDatum| d@) =~= Seq::<DatumModel>::empty());
                }
                while k < counted.len()
                    invariant
                        k <= counted@.len(),
                        countedm == counted@.map_values(|d: ChannelDatum| d@),
                        out@.map_values(|d: ChannelDatum| d@) == countedm.take(k as int).filter(
                            |d: DatumModel| d.id > rid,
                        ),
                    decreases counted@.len() - k,
                {
                    let ghost prev = out@.map_values(|x: ChannelDatum| x@);
                    if counted[k].get_id() > rid {
                        out.push(counted[k].duplicate());
                    }
                    proof {
                        reveal(Seq::filter);
                        assert(countedm.take(k + 1).drop_last() =~= countedm.take(k as int));
                        assert(countedm.take(k + 1).last() == countedm[k as int]);
                        assert(countedm[k as int] == counted@[k as int]@);
                        if counted@[k as int]@.id > rid {
                            assert(out@.map_values(|x: ChannelDatum| x@) =~= prev.push(
                                countedm[k as int],
                            ));
                        }
                        assert(out@.map_values(|x: ChannelDatum| x@) =~= countedm.take(
                            k + 1,
                        ).filter(|d: DatumModel| d.id > rid));
                    }
                    k += 1;
                }
                proof {
                    assert(countedm.take(countedm.len() as int) =~= countedm);
                }
                out
            },
            None => counted,
        };
        let ghost after_idm = after_id@.map_values(|d: ChannelDatum| d@);
        match retrieved_datetime {
            Some(ts) => {
                let mut out: Vec<ChannelDatum> = Vec::new();
                let mut k: usize = 0;
                proof {
                    reveal(Seq::filter);
                    assert(after_idm.take(0).filter(|d: DatumModel| d.datetime > ts) =~= Seq::<
                        DatumModel,
                    >::empty());
                    assert(out@.map_values(|d: ChannelDatum| d@) =~= Seq::<DatumModel>::empty());
                }
                while k < after_id.len()
                    invariant
                        k <= after_id@.len(),
                        after_idm == after_id@.map_values(|d: ChannelDatum| d@),
                        out@.map_values(|d: ChannelDatum| d@) == after_idm.take(k as int).filter(
                            |d: DatumModel| d.datetime > ts,
                        ),
                    decreases after_id@.len() - k,
                {
                    let ghost prev = out@.map_values(|x: ChannelDatum| x@);
                    if after_id[k].get_datetime() > ts {
                        out.push(after_id[k].duplicate());
                    }
                    proof {
                        reveal(Seq::filter);
                        assert(after_idm.take(k + 1).drop_last() =~= after_idm.take(k as int));
                        assert(after_idm.take(k + 1).last() == after_idm[k as int]);
                        assert(after_idm[k as int] == after_id@[k as int]@);
                        if after_id@[k as int]@.datetime > ts {
                            assert(out@.map_values(|x: ChannelDatum| x@) =~= prev.push(
                                after_idm[k as int],
                            ));
                        }
                        assert(out@.map_values(|x: ChannelDatum| x@) =~= after_idm.take(
                            k + 1,
                        ).filter(|d: DatumModel| d.datetime > ts));
                    }
                    k += 1;
                }
                proof {
                    assert(after_idm.take(after_idm.len() as int) =~= after_idm);
                }
                out
            },
            None => after_id,
        }
    }
}

/// The live entries of one channel, oldest first.
pub open spec fn channel_entries(s: Seq<DatumModel>, name: Seq<char>) -> Seq<DatumModel> {
    s.filter(|d: DatumModel| d.channel == name)
}

/// The query's view after the optional cursors: first the newest `count`
/// entries of the channel, then only those with an id above the id cursor,
/// then only those newer than the time cursor; chronological order
/// throughout.
pub open spec fn query_spec(
    s: Seq<DatumModel>,
    name: Seq<char>,
    retrieved_id: Option<u64>,
    retrieved_datetime: Option<u64>,
    count: Option<usize>,
) -> Seq<DatumModel> {
    let base = channel_entries(s, name);
    let counted = match count {
        Some(c) => if base.len() <= c {
            base
        } else {
            base.skip(base.len() - c)
        },
        None => base,
    };
    let after_id = match retrieved_id {
        Some(rid) => counted.filter(|d: DatumModel| d.id > rid),
        None => counted,
    };
    match retrieved_datetime {
        Some(ts) => after_id.filter(|d: DatumModel| d.datetime > ts),
        None => after_id,
    }
}

/// One step of a batch push: the state moved by exactly one full push of
/// the given draft, which entered the log as its stamped self.
pub open spec fn batch_step(
    pre: State,
    post: State,
    cdm: DatumModel,
    out: PushOutcome,
    now: u64,
) -> bool {
    &&& post.spec_after_push(&pre, out, now)
    &&& pre.log.next_id() <= u64::MAX - (DISPATCH_FUEL as u64) ==> post.log.appended()[
        pre.log.appended().len() as int] == stamped_model(cdm, pre.log.next_id(), now)
    &&& pre.log.next_id() <= u64::MAX - (DISPATCH_FUEL as u64) ==> exists|
        details: Seq<InvokeDetail>,
    | fanout_exact(pre, post, out, cdm, now, details)
}

/// Entries that only changed content keep every request's trigger live and
/// finalized.
proof fn lemma_requests_preserved(
    reqs: Seq<ChatRequest>,
    h0: Seq<DatumModel>,
    h1: Seq<DatumModel>,
)
    requires
        requests_final(reqs, h0),
        h1.len() >= h0.len(),
        forall|j: int| 0 <= j < h0.len() ==> same_but_content(#[trigger] h1[j], h0[j]),
    ensures
        requests_final(reqs, h1),
{
    assert forall|r: int| 0 <= r < reqs.len() implies request_final_in(
        #[trigger] reqs[r],
        h1,
    ) by {
        assert(request_final_in(reqs[r], h0));
        let j = choose|j: int|
            0 <= j < h0.len() && (#[trigger] h0[j]).id == reqs[r].trigger_id
                && h0[j].is_final();
        assert(same_but_content(h1[j], h0[j]));
        assert(0 <= j < h1.len() && h1[j].id == reqs[r].trigger_id && h1[j].is_final());
    }
}

/// Appending a request whose trigger is a live, finalized entry keeps the
/// list sound.
proof fn lemma_requests_push(
    reqs: Seq<ChatRequest>,
    req: ChatRequest,
    h: Seq<DatumModel>,
    w: int,
)
    requires
        requests_final(reqs, h),
        0 <= w < h.len(),
        h[w].id == req.trigger_id,
        h[w].is_final(),
    ensures
        requests_final(reqs.push(req), h),
{
    assert forall|r: int| 0 <= r < reqs.push(req).len() implies request_final_in(
        #[trigger] reqs.push(req)[r],
        h,
    ) by {
        if r < reqs.len() {
            assert(reqs.push(req)[r] == reqs[r]);
            assert(request_final_in(reqs[r], h));
        } else {
            assert(reqs.push(req)[r] == req);
            assert(0 <= w < h.len() && h[w].id == req.trigger_id && h[w].is_final());
        }
    }
}

/// Builds a processor from its configuration record, selected by the
/// lowercased feature tag; an unknown or missing feature, or a record the
/// selected variant rejects, yields nothing (that processor is skipped, the
/// startup continues). The dictionary and regex lines are those of the
/// files the record names; only the substitution variant reads them.
pub fn processor_from_conf(
    pc: ProcessorConf,
    dictionary_lines: Vec<String>,
    regex_lines: Vec<String>,
) -> (r: Option<ProcessorKind>)
    ensures
        match pc.feature {
            None => r is None,
            Some(f) => {
                if lower_of(f@) == "command"@ {
                    &&& (r is Some) == (pc.channel_from is Some)
                    &&& (r matches Some(p) ==> p matches ProcessorKind::Command(c) && {
                        &&& pc.channel_from matches Some(cf) && c.channel_from@ == cf@
                        &&& c.channel_to == pc.channel_to
                        &&& c.if_not_command == (if pc.through_if_not_command == Some(true) {
                            CompletedAnd::Next
                        } else {
                            CompletedAnd::Break
                        })
                        &&& c.response_mod == pc.response_mod
                        &&& c.set == pc.set
                    })
                } else if lower_of(f@) == "modify"@ {
                    &&& (r matches Some(p) ==> p matches ProcessorKind::Modify(m) && {
                        &&& pc.channel_from matches Some(cf) && m.channel_from@ == cf@
                        &&& pc.channel_to matches Some(ct) && m.channel_to@ == ct@
                        &&& m.alkana == (pc.alkana == Some(true))
                        &&& crate::modify::entries_view(m.dictionary@) == (
                        if crate::modify::wants_length_sort(&pc) {
                            crate::modify::sort_by_len_spec(
                                crate::modify::dict_lines_spec(dictionary_lines@),
                            )
                        } else {
                            crate::modify::dict_lines_spec(dictionary_lines@)
                        })
                        &&& m.regexes@.len() == crate::modify::regex_lines_spec(
                            regex_lines@,
                        ).len()
                        &&& forall|k: int|
                            0 <= k < m.regexes@.len() ==> (#[trigger] m.regexes@[k]).0@
                                == crate::modify::regex_lines_spec(regex_lines@)[k].0
                                && m.regexes@[k].1@ == crate::modify::regex_lines_spec(
                                regex_lines@,
                            )[k].1
                    })
                    &&& (r is None) == {
                        ||| pc.channel_from is None
                        ||| pc.channel_to is None
                        ||| exists|k: int|
                            0 <= k < crate::modify::regex_lines_spec(regex_lines@).len()
                                && !crate::pattern::regex_ok(
                                #[trigger] crate::modify::regex_lines_spec(regex_lines@)[k].1,
                            )
                    }
                } else if lower_of(f@) == "openai-chat"@ {
                    &&& (r matches Some(p) ==> p matches ProcessorKind::OpenAiChat(c) && {
                        &&& pc.channel_from matches Some(cf) && c.channel_from@ == cf@
                        &&& pc.channel_to matches Some(ct) && c.channel_to@ == ct@
                        &&& c.memory_capacity == (match pc.memory_capacity {
                            Some(mc) => mc,
                            None => crate::openai_chat::DEFAULT_MEMORY_CAPACITY,
                        })
                        &&& (match (&c.force_activate_regex, &pc.force_activate_regex_pattern) {
                            (Some(pat), Some(src)) => pat@ == src@,
                            (None, None) => true,
                            _ => false,
                        })
                        &&& (match (&c.ignore_regex, &pc.ignore_regex_pattern) {
                            (Some(pat), Some(src)) => pat@ == src@,
                            (None, None) => true,
                            _ => false,
                        })
                        &&& c.min_interval_in_secs == pc.min_interval_in_secs
                        &&& c.remove_chars@ == (match pc.remove_chars {
                            Some(rc) => rc@,
                            None => crate::openai_chat::DEFAULT_REMOVE_CHARS@,
                        })
                        &&& c.custom_instructions == pc.custom_instructions
                        &&& c.model == pc.model
                        &&& c.user == pc.user
                        &&& c.max_tokens == pc.max_tokens
                        &&& c.last_activated == 0
                    })
                    &&& (r is None) == {
                        ||| pc.channel_from is None
                        ||| pc.channel_to is None
                        ||| (pc.force_activate_regex_pattern matches Some(s)
                            && !crate::pattern::regex_ok(s@))
                        ||| (pc.ignore_regex_pattern matches Some(s) && !crate::pattern::regex_ok(
                            s@,
                        ))
                    }
                } else {
                    r is None
                }
            },
        },
{
    let feature = match &pc.feature {
        Some(f) => to_lowercase(f.as_str()),
        None => {
            return None;
        },
    };
    let command_key: String = "command".to_owned();
    let modify_key: String = "modify".to_owned();
    let chat_key: String = "openai-chat".to_owned();
    if feature == command_key {
        match Command::new(pc) {
            Some(c) => Some(ProcessorKind::Command(c)),
            None => None,
        }
    } else if feature == modify_key {
        match Modify::new(pc, dictionary_lines, regex_lines) {
            Some(m) => Some(ProcessorKind::Modify(m)),
            None => None,
        }
    } else if feature == chat_key {
        match OpenAiChat::new(pc) {
            Some(c) => Some(ProcessorKind::OpenAiChat(c)),
            None => None,
        }
    } else {
        None
    }
}

} // verus!
