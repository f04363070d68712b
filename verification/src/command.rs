use vstd::prelude::*;

use crate::channel_datum::{ChannelDatum, DatumModel, FLAG_IS_FINAL};
use crate::conf::{CommandSet, ContentWithChannel, ProcessorConf};
use crate::event_log::{find_spec, EventLog};
use crate::processor::{CompletedAnd, Step};
use crate::text::{
    chars_to_string, replace_all, replace_all_chars, split_char, split_on, str_to_chars,
    strip_leading, strip_leading_chars,
};

verus! {

/// Bound on nested command-set expansion: without one, a cyclic set would
/// recurse forever, so a chain of references deeper than this turns into an
/// expansion error instead.
pub const MAX_SET_DEPTH: u64 = 16;

/// The first set carrying the name.
pub open spec fn find_set_spec(sets: Seq<CommandSet>, name: Seq<char>) -> Option<CommandSet>
    decreases sets.len(),
{
    if sets.len() == 0 {
        None
    } else if sets[0].name@ == name {
        Some(sets[0])
    } else {
        find_set_spec(sets.skip(1), name)
    }
}

/// The (channel, content) pairs of a set's literal injections.
pub open spec fn contents_pairs(cc: Seq<ContentWithChannel>) -> Seq<(Seq<char>, Seq<char>)> {
    cc.map_values(|c: ContentWithChannel| (c.channel@, c.content@))
}

/// Expansion of one named set: every `pre` reference expanded first (a
/// failing reference is skipped), then the literal injections, then every
/// `post` reference. Answers nothing when the name is unknown or the depth
/// budget is exhausted.
pub open spec fn expand_set_spec(sets: Seq<CommandSet>, name: Seq<char>, depth: nat) -> Option<
    Seq<(Seq<char>, Seq<char>)>,
>
    decreases depth, 0nat, 0nat,
{
    match find_set_spec(sets, name) {
        None => None,
        Some(cs) => {
            if depth == 0 {
                None
            } else {
                Some(
                    expand_names_spec(sets, cs.pre@, (depth - 1) as nat) + contents_pairs(
                        cs.channel_contents@,
                    ) + expand_names_spec(sets, cs.post@, (depth - 1) as nat),
                )
            }
        },
    }
}

/// Expansion of a list of set names in order; a name that fails to expand
/// contributes nothing.
pub open spec fn expand_names_spec(
    sets: Seq<CommandSet>,
    names: Seq<String>,
    depth: nat,
) -> Seq<(Seq<char>, Seq<char>)>
    decreases depth, 1nat, names.len(),
{
    if names.len() == 0 {
        Seq::empty()
    } else {
        (match expand_set_spec(sets, names[0]@, depth) {
            Some(ds) => ds,
            None => Seq::empty(),
        }) + expand_names_spec(sets, names.skip(1), depth)
    }
}

/// The drafts carry exactly the pairs, each finalized and unstamped.
pub open spec fn injects_match(v: Seq<DatumModel>, pairs: Seq<(Seq<char>, Seq<char>)>) -> bool {
    &&& v.len() == pairs.len()
    &&& forall|k: int|
        0 <= k < v.len() ==> (#[trigger] v[k]) == injected_model(pairs[k].0, pairs[k].1)
}

/// A finalized draft for one injected (channel, content) pair.
pub open spec fn injected_model(channel: Seq<char>, content: Seq<char>) -> DatumModel {
    DatumModel {
        channel: channel,
        content: content,
        flags: seq![FLAG_IS_FINAL@],
        id: 0,
        datetime: 0,
    }
}

/// Position of the first set carrying the name.
fn find_set_index(sets: &Vec<CommandSet>, name: &String) -> (r: Option<usize>)
    ensures
        match r {
            Some(i) => i < sets@.len() && find_set_spec(sets@, name@) == Some(sets@[i as int]),
            None => find_set_spec(sets@, name@) is None,
        },
{
    let mut i: usize = 0;
    proof {
        assert(sets@.skip(0) =~= sets@);
    }
    while i < sets.len()
        invariant
            i <= sets@.len(),
            find_set_spec(sets@, name@) == find_set_spec(sets@.skip(i as int), name@),
        decreases sets@.len() - i,
    {
        proof {
            assert(sets@.skip(i as int)[0] == sets@[i as int]);
            assert(sets@.skip(i as int).skip(1) =~= sets@.skip(i + 1));
        }
        if sets[i].name == *name {
            assert(sets@.skip(i as int)[0].name@ == name@);
            return Some(i);
        }
        i += 1;
    }
    None
}

/// Builds one finalized draft.
fn injected_datum(channel: &String, content: &String) -> (r: ChannelDatum)
    ensures
        r@ == injected_model(channel@, content@),
        r.wf(),
{
    let d = ChannelDatum::new(channel.clone(), content.clone()).with_flag(FLAG_IS_FINAL);
    proof {
        assert(Seq::<Seq<char>>::empty().push(FLAG_IS_FINAL@) =~= seq![FLAG_IS_FINAL@]);
        assert(d@ =~= injected_model(channel@, content@));
    }
    d
}

/// Expands one named set into the finalized drafts it injects, honoring the
/// depth budget.
pub fn expand_command_set(sets: &Vec<CommandSet>, name: &String, depth: u64) -> (r: Option<
    Vec<ChannelDatum>,
>)
    ensures
        match expand_set_spec(sets@, name@, depth as nat) {
            Some(pairs) => r matches Some(v) && injects_match(
                v@.map_values(|d: ChannelDatum| d@),
                pairs,
            ),
            None => r is None,
        },
    decreases depth, 0int,
{
    let i = match find_set_index(sets, name) {
        Some(i) => i,
        None => {
            return None;
        },
    };
    if depth == 0 {
        return None;
    }
    let cs = &sets[i];
    let ghost pre_pairs = expand_names_spec(sets@, cs.pre@, (depth - 1) as nat);
    let ghost mid_pairs = contents_pairs(cs.channel_contents@);
    let ghost post_pairs = expand_names_spec(sets@, cs.post@, (depth - 1) as nat);
    let mut out: Vec<ChannelDatum> = Vec::new();
    expand_name_list(sets, &cs.pre, depth - 1, &mut out);
    let ghost after_pre = out@;
    let mut k: usize = 0;
    while k < cs.channel_contents.len()
        invariant
            k <= cs.channel_contents@.len(),
            mid_pairs == contents_pairs(cs.channel_contents@),
            out@.len() == after_pre.len() + k,
            out@.take(after_pre.len() as int) == after_pre,
            forall|j: int|
                0 <= j < k ==> (#[trigger] out@[after_pre.len() + j])@ == injected_model(
                    mid_pairs[j].0,
                    mid_pairs[j].1,
                ),
        decreases cs.channel_contents@.len() - k,
    {
        let ghost prev = out@;
        let d = injected_datum(&cs.channel_contents[k].channel, &cs.channel_contents[k].content);
        out.push(d);
        proof {
            assert(out@.take(after_pre.len() as int) =~= prev.take(after_pre.len() as int));
        }
        k += 1;
    }
    let ghost after_mid = out@;
    expand_name_list(sets, &cs.post, depth - 1, &mut out);
    proof {
        let vm = out@.map_values(|d: ChannelDatum| d@);
        let pairs = pre_pairs + mid_pairs + post_pairs;
        assert(out@.take(after_mid.len() as int) == after_mid);
        assert(injects_match(vm, pairs)) by {
            assert(vm.len() == pairs.len());
            assert forall|j: int| 0 <= j < vm.len() implies (#[trigger] vm[j]) == injected_model(
                pairs[j].0,
                pairs[j].1,
            ) by {
                assert(vm[j] == out@[j]@);
                if j < after_pre.len() {
                    assert(out@[j] == out@.take(after_mid.len() as int)[j]);
                    assert(after_mid[j] == after_mid.take(after_pre.len() as int)[j]);
                    assert(out@[j] == after_pre[j]);
                    assert(after_pre[0 + j]@ == injected_model(pre_pairs[j].0, pre_pairs[j].1));
                    assert(pairs[j] == pre_pairs[j]);
                } else if j < after_mid.len() {
                    let jj = j - after_pre.len();
                    assert(out@[j] == out@.take(after_mid.len() as int)[j]);
                    assert(out@[j] == after_mid[j]);
                    assert(after_mid[after_pre.len() + jj]@ == injected_model(
                        mid_pairs[jj].0,
                        mid_pairs[jj].1,
                    ));
                    assert(pairs[j] == mid_pairs[jj]);
                } else {
                    let jj = j - after_mid.len();
                    assert(out@[after_mid.len() + jj]@ == injected_model(
                        post_pairs[jj].0,
                        post_pairs[jj].1,
                    ));
                    assert(pairs[j] == post_pairs[jj]);
                }
            }
        }
    }
    Some(out)
}

/// Expands each named set of the list in order, appending what expands and
/// skipping what does not.
fn expand_name_list(sets: &Vec<CommandSet>, names: &Vec<String>, depth: u64, out: &mut Vec<
    ChannelDatum,
>)
    ensures
        final(out)@.len() == old(out)@.len() + expand_names_spec(
            sets@,
            names@,
            depth as nat,
        ).len(),
        final(out)@.take(old(out)@.len() as int) == old(out)@,
        forall|j: int|
            0 <= j < expand_names_spec(sets@, names@, depth as nat).len()
                ==> (#[trigger] final(out)@[old(out)@.len() + j])@ == injected_model(
                expand_names_spec(sets@, names@, depth as nat)[j].0,
                expand_names_spec(sets@, names@, depth as nat)[j].1,
            ),
    decreases depth, 1int,
{
    let ghost base = out@;
    let ghost total = expand_names_spec(sets@, names@, depth as nat);
    let mut i: usize = 0;
    proof {
        assert(names@.skip(0) =~= names@);
    }
    while i < names.len()
        invariant
            i <= names@.len(),
            total == expand_names_spec(sets@, names@, depth as nat),
            expand_names_spec(sets@, names@, depth as nat) == expand_names_spec(
                sets@,
                names@.take(i as int),
                depth as nat,
            ) + expand_names_spec(sets@, names@.skip(i as int), depth as nat),
            out@.len() == base.len() + expand_names_spec(
                sets@,
                names@.take(i as int),
                depth as nat,
            ).len(),
            out@.take(base.len() as int) == base,
            forall|j: int|
                0 <= j < expand_names_spec(sets@, names@.take(i as int), depth as nat).len()
                    ==> (#[trigger] out@[base.len() + j])@ == injected_model(
                    expand_names_spec(sets@, names@.take(i as int), depth as nat)[j].0,
                    expand_names_spec(sets@, names@.take(i as int), depth as nat)[j].1,
                ),
        decreases names@.len() - i,
    {
        let ghost done = expand_names_spec(sets@, names@.take(i as int), depth as nat);
        let ghost here = match expand_set_spec(sets@, names@[i as int]@, depth as nat) {
            Some(ds) => ds,
            None => Seq::empty(),
        };
        let ghost prev = out@;
        match expand_command_set(sets, &names[i], depth) {
            Some(v) => {
                let mut k: usize = 0;
                while k < v.len()
                    invariant
                        k <= v@.len(),
                        injects_match(v@.map_values(|d: ChannelDatum| d@), here),
                        here.len() == v@.len(),
                        out@.len() == prev.len() + k,
                        out@.take(prev.len() as int) == prev,
                        forall|j: int|
                            0 <= j < k ==> (#[trigger] out@[prev.len() + j])@ == injected_model(
                                here[j].0,
                                here[j].1,
                            ),
                    decreases v@.len() - k,
                {
                    let ghost before = out@;
                    out.push(v[k].duplicate());
                    proof {
                        assert(out@.take(prev.len() as int) =~= before.take(prev.len() as int));
                        assert(v@.map_values(|d: ChannelDatum| d@)[k as int] == v@[k as int]@);
                    }
                    k += 1;
                }
            },
            None => {
                proof {
                    assert(here =~= Seq::<(Seq<char>, Seq<char>)>::empty());
                }
            },
        }
        proof {
            lemma_expand_names_snoc(sets@, names@, i as int, depth as nat);
            assert(out@.take(base.len() as int) =~= base);
            let done2 = expand_names_spec(sets@, names@.take(i + 1), depth as nat);
            assert(done2 == done + here);
            assert forall|j: int| 0 <= j < done2.len() implies (#[trigger] out@[base.len() + j])@
                == injected_model(done2[j].0, done2[j].1) by {
                if j < done.len() {
                    assert(out@[base.len() + j] == out@.take(prev.len() as int)[base.len() + j]);
                    assert(out@[base.len() + j] == prev[base.len() + j]);
                } else {
                    assert(out@[base.len() + j] == out@[prev.len() + (j - done.len())]);
                }
            }
        }
        i += 1;
    }
    proof {
        assert(names@.take(names@.len() as int) =~= names@);
    }
}

/// Splitting the name list after one more element appends that element's
/// expansion.
proof fn lemma_expand_names_snoc(sets: Seq<CommandSet>, names: Seq<String>, i: int, depth: nat)
    requires
        0 <= i < names.len(),
    ensures
        expand_names_spec(sets, names.take(i + 1), depth) == expand_names_spec(
            sets,
            names.take(i),
            depth,
        ) + (match expand_set_spec(sets, names[i]@, depth) {
            Some(ds) => ds,
            None => Seq::<(Seq<char>, Seq<char>)>::empty(),
        }),
        expand_names_spec(sets, names, depth) == expand_names_spec(sets, names.take(i + 1), depth)
            + expand_names_spec(sets, names.skip(i + 1), depth),
        expand_names_spec(sets, names, depth) == expand_names_spec(sets, names.take(i), depth)
            + expand_names_spec(sets, names.skip(i), depth),
{
    lemma_expand_names_split(sets, names, i, depth);
    lemma_expand_names_split(sets, names, i + 1, depth);
    let t1 = names.take(i + 1);
    assert(t1.take(i) =~= names.take(i));
    assert(t1.skip(i) =~= seq![names[i]]);
    lemma_expand_names_split(sets, t1, i, depth);
    assert(seq![names[i]].skip(1) =~= Seq::<String>::empty());
    assert(seq![names[i]][0] == names[i]);
    let here = match expand_set_spec(sets, names[i]@, depth) {
        Some(ds) => ds,
        None => Seq::<(Seq<char>, Seq<char>)>::empty(),
    };
    assert(expand_names_spec(sets, Seq::<String>::empty(), depth) =~= Seq::<(
        Seq<char>,
        Seq<char>,
    )>::empty());
    assert(expand_names_spec(sets, seq![names[i]], depth) == here + expand_names_spec(
        sets,
        seq![names[i]].skip(1),
        depth,
    ));
    assert(here + Seq::<(Seq<char>, Seq<char>)>::empty() =~= here);
    assert(expand_names_spec(sets, seq![names[i]], depth) =~= here);
}

/// The first template row for the command key with at least two columns; a
/// shorter row is skipped, and without a matching row the built-in default
/// text is used.
pub open spec fn response_template_spec(
    rows: Seq<Vec<String>>,
    cmd: Seq<char>,
    dflt: Seq<char>,
) -> Seq<char>
    decreases rows.len(),
{
    if rows.len() == 0 {
        dflt
    } else if rows[0]@.len() >= 2 && rows[0]@[0]@ == cmd {
        rows[0]@[1]@
    } else {
        response_template_spec(rows.skip(1), cmd, dflt)
    }
}

/// The diagnostic datums a command answer injects: one finalized draft on
/// the destination channel (with the placeholder filled in where an argument
/// is given), or none at all when no destination channel is configured.
pub open spec fn response_models(
    channel_to: Option<String>,
    rows: Seq<Vec<String>>,
    cmd: Seq<char>,
    dflt: Seq<char>,
    arg: Option<Seq<char>>,
) -> Seq<DatumModel> {
    match channel_to {
        None => Seq::empty(),
        Some(ct) => {
            let tmpl = response_template_spec(rows, cmd, dflt);
            let content = match arg {
                Some(a) => replace_all(tmpl, "{A}"@, a),
                None => tmpl,
            };
            seq![injected_model(ct@, content)]
        },
    }
}

/// What the command processor decides for a command body (the content with
/// its leading slashes removed): the fan-out signal, the datums to inject,
/// and whether a quit was commanded.
///
/// Deliberately, `enable` and `disable` only announce themselves on the
/// destination channel: the enabled-flag of a processor group is read once
/// at startup and no runtime state is toggled, so the announcement is the
/// whole observable effect of these two commands.
pub open spec fn command_dispatch_spec(c: &Command, body: Seq<char>) -> (
    CompletedAnd,
    Seq<DatumModel>,
    bool,
) {
    let parts = split_on(body, ' ');
    let cmd = parts[0];
    let args = parts.skip(1);
    if cmd == "quit"@ {
        (CompletedAnd::Break, Seq::empty(), true)
    } else if cmd == "disable"@ && args.len() >= 1 {
        (
            CompletedAnd::Break,
            response_models(
                c.channel_to,
                c.response_mod@,
                "disable"@,
                "group = {A} の Processor を無効化しました。"@,
                Some(args[0]),
            ),
            false,
        )
    } else if cmd == "enable"@ {
        (
            CompletedAnd::Break,
            if args.len() >= 1 {
                response_models(
                    c.channel_to,
                    c.response_mod@,
                    "enable"@,
                    "group = {A} の Processor を有効化しました。"@,
                    Some(args[0]),
                )
            } else {
                Seq::empty()
            },
            false,
        )
    } else if cmd == "reload"@ {
        (
            CompletedAnd::Break,
            if args.len() >= 1 {
                response_models(
                    c.channel_to,
                    c.response_mod@,
                    "reload"@,
                    "group = {A} の Processor の設定を再読み込みしました。"@,
                    Some(args[0]),
                )
            } else {
                Seq::empty()
            },
            false,
        )
    } else if cmd == "set"@ && args.len() >= 1 {
        let announce = response_models(
            c.channel_to,
            c.response_mod@,
            "set"@,
            "セット {A} の実行を試みます。"@,
            Some(args[0]),
        );
        match expand_set_spec(c.set@, args[0], MAX_SET_DEPTH as nat) {
            Some(pairs) => (
                CompletedAnd::Break,
                announce + pairs.map_values(|p: (Seq<char>, Seq<char>)| injected_model(p.0, p.1)),
                false,
            ),
            None => (
                CompletedAnd::Break,
                announce + response_models(
                    c.channel_to,
                    c.response_mod@,
                    "set:error"@,
                    "セット {A} の実行中にエラーが発生しました。"@,
                    Some(args[0]),
                ),
                false,
            ),
        }
    } else {
        (
            CompletedAnd::Break,
            response_models(
                c.channel_to,
                c.response_mod@,
                "_"@,
                "コマンドまたは何かが違うようです。"@,
                None,
            ),
            false,
        )
    }
}

/// What the command processor decides for the datum with the given id.
pub open spec fn command_step_spec(c: &Command, log: Seq<DatumModel>, id: u64) -> (
    CompletedAnd,
    Seq<DatumModel>,
    bool,
) {
    match find_spec(log, id) {
        None => (CompletedAnd::Next, Seq::<DatumModel>::empty(), false),
        Some(d) => {
            if !d.is_final() {
                (c.if_not_command, Seq::<DatumModel>::empty(), false)
            } else if !"/"@.is_prefix_of(d.content) {
                (c.if_not_command, Seq::<DatumModel>::empty(), false)
            } else {
                command_dispatch_spec(c, strip_leading(d.content, '/'))
            }
        },
    }
}

/// Intercepts finalized command-shaped input on its source channel, parses
/// the command word and its arguments, expands command sets, and answers
/// with diagnostic datums; command-shaped input stops the fan-out chain.
pub struct Command {
    pub channel_from: String,
    pub channel_to: Option<String>,
    pub if_not_command: CompletedAnd,
    pub response_mod: Vec<Vec<String>>,
    pub set: Vec<CommandSet>,
}

impl Command {
    /// Builds the processor from its configuration record; the record must
    /// name a source channel. Input that is not command-shaped falls through
    /// to the rest of the chain only when the record asks for it.
    pub fn new(pc: ProcessorConf) -> (r: Option<Command>)
        ensures
            match r {
                Some(c) => {
                    &&& pc.channel_from matches Some(cf) && c.channel_from@ == cf@
                    &&& c.channel_to == pc.channel_to
                    &&& c.if_not_command == (if pc.through_if_not_command == Some(true) {
                        CompletedAnd::Next
                    } else {
                        CompletedAnd::Break
                    })
                    &&& c.response_mod == pc.response_mod
                    &&& c.set == pc.set
                },
                None => pc.channel_from is None,
            },
    {
        let channel_from = match pc.channel_from {
            Some(cf) => cf,
            None => {
                return None;
            },
        };
        let if_not_command = match pc.through_if_not_command {
            Some(true) => CompletedAnd::Next,
            _ => CompletedAnd::Break,
        };
        Some(
            Command {
                channel_from,
                channel_to: pc.channel_to,
                if_not_command,
                response_mod: pc.response_mod,
                set: pc.set,
            },
        )
    }

    /// Exact string equality against the configured source channel; there is
    /// no topic hierarchy.
    pub fn is_channel_from(&self, channel: &String) -> (r: bool)
        ensures
            r == (self.channel_from@ == channel@),
    {
        self.channel_from == *channel
    }

    /// Builds the diagnostic answer for one command key.
    fn respond(&self, cmd_key: &str, dflt: &str, arg: Option<&Vec<char>>) -> (r: Vec<
        ChannelDatum,
    >)
        ensures
            r@.map_values(|d: ChannelDatum| d@) == response_models(
                self.channel_to,
                self.response_mod@,
                cmd_key@,
                dflt@,
                match arg {
                    Some(a) => Some(a@),
                    None => None,
                },
            ),
    {
        let ct = match &self.channel_to {
            Some(ct) => ct,
            None => {
                let r: Vec<ChannelDatum> = Vec::new();
                assert(r@.map_values(|d: ChannelDatum| d@) =~= Seq::<DatumModel>::empty());
                return r;
            },
        };
        let key: String = cmd_key.to_owned();
        let mut tmpl: String = dflt.to_owned();
        let mut i: usize = 0;
        proof {
            assert(self.response_mod@.skip(0) =~= self.response_mod@);
        }
        let mut found = false;
        while i < self.response_mod.len() && !found
            invariant
                i <= self.response_mod@.len(),
                key@ == cmd_key@,
                !found ==> tmpl@ == dflt@,
                !found ==> response_template_spec(self.response_mod@, cmd_key@, dflt@)
                    == response_template_spec(
                    self.response_mod@.skip(i as int),
                    cmd_key@,
                    dflt@,
                ),
                found ==> tmpl@ == response_template_spec(
                    self.response_mod@,
                    cmd_key@,
                    dflt@,
                ),
            decreases self.response_mod@.len() - i,
        {
            proof {
                assert(self.response_mod@.skip(i as int)[0] == self.response_mod@[i as int]);
                assert(self.response_mod@.skip(i as int).skip(1) =~= self.response_mod@.skip(
                    i + 1,
                ));
            }
            let row = &self.response_mod[i];
            if row.len() >= 2 && row[0] == key {
                tmpl = row[1].clone();
                found = true;
            }
            i += 1;
        }
        proof {
            if !found {
                assert(self.response_mod@.skip(self.response_mod@.len() as int) =~= Seq::<
                    Vec<String>,
                >::empty());
            }
        }
        let content: String = match arg {
            Some(a) => {
                let tmpl_chars = str_to_chars(tmpl.as_str());
                let pat = str_to_chars("{A}");
                proof {
                    reveal_strlit("{A}");
                }
                let replaced = replace_all_chars(&tmpl_chars, &pat, a);
                chars_to_string(&replaced)
            },
            None => tmpl,
        };
        let d = injected_datum(ct, &content);
        let mut r: Vec<ChannelDatum> = Vec::new();
        r.push(d);
        proof {
            assert(r@.map_values(|x: ChannelDatum| x@) =~= seq![d@]);
        }
        r
    }

    /// Runs the command engine on the datum with the given id: what the
    /// decision is, which datums it injects and whether a quit was
    /// commanded are exactly the dispatch specification's answer; the
    /// processor never performs an external call and never touches the log.
    pub fn process(&self, log: &EventLog, id: u64) -> (st: Step)
        ensures
            st.signal == command_step_spec(self, log.model(), id).0,
            st.injects@.map_values(|d: ChannelDatum| d@) == command_step_spec(
                self,
                log.model(),
                id,
            ).1,
            st.quit == command_step_spec(self, log.model(), id).2,
            st.request is None,
    {
        let found = match log.rfind_channel_datum(id) {
            Some(d) => d,
            None => {
                let st = Step::none(CompletedAnd::Next);
                proof {
                    assert(st.injects@.map_values(|d: ChannelDatum| d@) =~= Seq::<
                        DatumModel,
                    >::empty());
                }
                return st;
            },
        };
        if !found.has_flag(FLAG_IS_FINAL) {
            let st = Step::none(self.if_not_command);
            proof {
                assert(st.injects@.map_values(|d: ChannelDatum| d@) =~= Seq::<
                    DatumModel,
                >::empty());
            }
            return st;
        }
        let content_chars = str_to_chars(found.get_content().as_str());
        let slash = str_to_chars("/");
        if !crate::text::starts_with_chars(&content_chars, &slash) {
            let st = Step::none(self.if_not_command);
            proof {
                assert(st.injects@.map_values(|d: ChannelDatum| d@) =~= Seq::<
                    DatumModel,
                >::empty());
            }
            return st;
        }
        let body = strip_leading_chars(&content_chars, '/');
        let parts = split_char(&body, ' ');
        let ghost partsm = split_on(body@, ' ');
        let ghost argsm = partsm.skip(1);
        let cmd = chars_to_string(&parts[0]);
        let nargs = parts.len() - 1;
        proof {
            assert(partsm[0] == parts@[0]@);
            if nargs >= 1 {
                assert(argsm[0] == partsm[1]);
                assert(partsm[1] == parts@[1]@);
            }
        }
        let quit_key: String = "quit".to_owned();
        let disable_key: String = "disable".to_owned();
        let enable_key: String = "enable".to_owned();
        let reload_key: String = "reload".to_owned();
        let set_key: String = "set".to_owned();
        if cmd == quit_key {
            let mut st = Step::none(CompletedAnd::Break);
            st.quit = true;
            proof {
                assert(st.injects@.map_values(|d: ChannelDatum| d@) =~= Seq::<
                    DatumModel,
                >::empty());
            }
            return st;
        }
        let injects: Vec<ChannelDatum> = if cmd == disable_key && nargs >= 1 {
            self.respond("disable", "group = {A} の Processor を無効化しました。", Some(&parts[1]))
        } else if cmd == enable_key {
            if nargs >= 1 {
                self.respond("enable", "group = {A} の Processor を有効化しました。", Some(&parts[1]))
            } else {
                let r: Vec<ChannelDatum> = Vec::new();
                proof {
                    assert(r@.map_values(|d: ChannelDatum| d@) =~= Seq::<DatumModel>::empty());
                }
                r
            }
        } else if cmd == reload_key {
            if nargs >= 1 {
                self.respond("reload", "group = {A} の Processor の設定を再読み込みしました。", Some(&parts[1]))
            } else {
                let r: Vec<ChannelDatum> = Vec::new();
                proof {
                    assert(r@.map_values(|d: ChannelDatum| d@) =~= Seq::<DatumModel>::empty());
                }
                r
            }
        } else if cmd == set_key && nargs >= 1 {
            let mut r = self.respond("set", "セット {A} の実行を試みます。", Some(&parts[1]));
            let ghost announce = r@.map_values(|d: ChannelDatum| d@);
            let arg_string = chars_to_string(&parts[1]);
            match expand_command_set(&self.set, &arg_string, MAX_SET_DEPTH) {
                Some(v) => {
                    let ghost pairs = expand_set_spec(
                        self.set@,
                        arg_string@,
                        MAX_SET_DEPTH as nat,
                    )->Some_0;
                    let mut k: usize = 0;
                    while k < v.len()
                        invariant
                            k <= v@.len(),
                            injects_match(v@.map_values(|d: ChannelDatum| d@), pairs),
                            pairs.len() == v@.len(),
                            r@.len() == announce.len() + k,
                            r@.map_values(|d: ChannelDatum| d@).take(announce.len() as int)
                                == announce,
                            forall|j: int|
                                0 <= j < k ==> (#[trigger] r@[announce.len() + j])@
                                    == injected_model(pairs[j].0, pairs[j].1),
                        decreases v@.len() - k,
                    {
                        let ghost prev = r@;
                        r.push(v[k].duplicate());
                        proof {
                            assert(v@.map_values(|d: ChannelDatum| d@)[k as int] == v@[
                                k as int
                            ]@);
                            assert(r@.map_values(|d: ChannelDatum| d@).take(
                                announce.len() as int,
                            ) =~= prev.map_values(|d: ChannelDatum| d@).take(
                                announce.len() as int,
                            ));
                        }
                        k += 1;
                    }
                    proof {
                        let rm = r@.map_values(|d: ChannelDatum| d@);
                        let expect = announce + pairs.map_values(
                            |p: (Seq<char>, Seq<char>)| injected_model(p.0, p.1),
                        );
                        assert(rm =~= expect) by {
                            assert forall|j: int| 0 <= j < rm.len() implies rm[j] == expect[j]
                                by {
                                if j < announce.len() {
                                    assert(rm[j] == rm.take(announce.len() as int)[j]);
                                } else {
                                    assert(rm[j] == r@[announce.len() + (j - announce.len())]@);
                                }
                            }
                        }
                    }
                    r
                },
                None => {
                    let more = self.respond(
                        "set:error",
                        "セット {A} の実行中にエラーが発生しました。",
                        Some(&parts[1]),
                    );
                    let ghost morem = more@.map_values(|d: ChannelDatum| d@);
                    let mut k: usize = 0;
                    while k < more.len()
                        invariant
                            k <= more@.len(),
                            morem == more@.map_values(|d: ChannelDatum| d@),
                            r@.len() == announce.len() + k,
                            r@.map_values(|d: ChannelDatum| d@).take(announce.len() as int)
                                == announce,
                            forall|j: int|
                                0 <= j < k ==> (#[trigger] r@[announce.len() + j])@ == morem[j],
                        decreases more@.len() - k,
                    {
                        let ghost prev = r@;
                        r.push(more[k].duplicate());
                        proof {
                            assert(more@.map_values(|d: ChannelDatum| d@)[k as int] == more@[
                                k as int
                            ]@);
                            assert(r@.map_values(|d: ChannelDatum| d@).take(
                                announce.len() as int,
                            ) =~= prev.map_values(|d: ChannelDatum| d@).take(
                                announce.len() as int,
                            ));
                        }
                        k += 1;
                    }
                    proof {
                        let rm = r@.map_values(|d: ChannelDatum| d@);
                        assert(rm =~= announce + morem) by {
                            assert forall|j: int| 0 <= j < rm.len() implies rm[j] == (announce
                                + morem)[j] by {
                                if j < announce.len() {
                                    assert(rm[j] == rm.take(announce.len() as int)[j]);
                                } else {
                                    assert(rm[j] == r@[announce.len() + (j - announce.len())]@);
                                }
                            }
                        }
                    }
                    r
                },
            }
        } else {
            self.respond("_", "コマンドまたは何かが違うようです。", None)
        };
        Step { signal: CompletedAnd::Break, injects, request: None, quit: false }
    }
}

/// Every datum the command engine injects is an unstamped draft.
pub proof fn lemma_command_injects_drafts(c: &Command, log: Seq<DatumModel>, id: u64)
    ensures
        forall|k: int|
            0 <= k < command_step_spec(c, log, id).1.len() ==> (#[trigger] command_step_spec(
                c,
                log,
                id,
            ).1[k]).id == 0,
{
    let r = command_step_spec(c, log, id).1;
    assert forall|k: int| 0 <= k < r.len() implies (#[trigger] r[k]).id == 0 by {
        match find_spec(log, id) {
            None => {},
            Some(d) => {
                if d.is_final() && "/"@.is_prefix_of(d.content) {
                    let body = strip_leading(d.content, '/');
                    let parts = split_on(body, ' ');
                    let cmd = parts[0];
                    let args = parts.skip(1);
                    if cmd == "quit"@ {
                    } else if cmd == "disable"@ && args.len() >= 1 {
                    } else if cmd == "enable"@ {
                    } else if cmd == "reload"@ {
                    } else if cmd == "set"@ && args.len() >= 1 {
                        let announce = response_models(
                            c.channel_to,
                            c.response_mod@,
                            "set"@,
                            "セット {A} の実行を試みます。"@,
                            Some(args[0]),
                        );
                        match expand_set_spec(c.set@, args[0], MAX_SET_DEPTH as nat) {
                            Some(pairs) => {
                                let m = pairs.map_values(
                                    |p: (Seq<char>, Seq<char>)| injected_model(p.0, p.1),
                                );
                                assert(r == announce + m);
                                if k < announce.len() {
                                    assert(r[k] == announce[k]);
                                } else {
                                    assert(r[k] == m[k - announce.len()]);
                                    assert(m[k - announce.len()] == injected_model(
                                        pairs[k - announce.len()].0,
                                        pairs[k - announce.len()].1,
                                    ));
                                }
                            },
                            None => {
                                let m = response_models(
                                    c.channel_to,
                                    c.response_mod@,
                                    "set:error"@,
                                    "セット {A} の実行中にエラーが発生しました。"@,
                                    Some(args[0]),
                                );
                                assert(r == announce + m);
                                if k < announce.len() {
                                    assert(r[k] == announce[k]);
                                } else {
                                    assert(r[k] == m[k - announce.len()]);
                                }
                            },
                        }
                    }
                }
            },
        }
    }
}

/// Expansion of a list splits at any point.
proof fn lemma_expand_names_split(sets: Seq<CommandSet>, names: Seq<String>, i: int, depth: nat)
    requires
        0 <= i <= names.len(),
    ensures
        expand_names_spec(sets, names, depth) == expand_names_spec(sets, names.take(i), depth)
            + expand_names_spec(sets, names.skip(i), depth),
    decreases i,
{
    if i == 0 {
        assert(names.take(0) =~= Seq::<String>::empty());
        assert(names.skip(0) =~= names);
        assert(expand_names_spec(sets, names.take(0), depth) =~= Seq::<(
            Seq<char>,
            Seq<char>,
        )>::empty());
    } else {
        assert(names.len() > 0);
        lemma_expand_names_split(sets, names.skip(1), i - 1, depth);
        assert(names.skip(1).take(i - 1) =~= names.take(i).skip(1));
        assert(names.skip(1).skip(i - 1) =~= names.skip(i));
        assert(names.take(i)[0] == names[0]);
        assert(names.take(i).len() == i);
        let h = match expand_set_spec(sets, names[0]@, depth) {
            Some(ds) => ds,
            None => Seq::<(Seq<char>, Seq<char>)>::empty(),
        };
        assert(expand_names_spec(sets, names, depth) == h + expand_names_spec(
            sets,
            names.skip(1),
            depth,
        ));
        assert(expand_names_spec(sets, names.take(i), depth) == h + expand_names_spec(
            sets,
            names.take(i).skip(1),
            depth,
        ));
        assert(h + (expand_names_spec(sets, names.skip(1).take(i - 1), depth)
            + expand_names_spec(sets, names.skip(i), depth)) =~= (h + expand_names_spec(
            sets,
            names.skip(1).take(i - 1),
            depth,
        )) + expand_names_spec(sets, names.skip(i), depth));
    }
}

} // verus!
