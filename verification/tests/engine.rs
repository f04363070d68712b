use vac_core::channel_datum::ChannelDatum;
use vac_core::command::expand_command_set;
use vac_core::conf::{CommandSet, ContentWithChannel, ProcessorConf};
use vac_core::event_log::EventLog;
use vac_core::gas_translation::{translation_gate, TranslationGate};
use vac_core::modify::Modify;
use vac_core::openai_chat::{make_reply_datum, retry_request, OpenAiChat};
use vac_core::processor::{ChatRequest, ChatRole, CompletedAnd, ProcessorKind};
use vac_core::state::{processor_from_conf, State};

fn conf_with_channels(from: &str, to: &str) -> ProcessorConf {
    let mut pc = ProcessorConf::empty();
    pc.channel_from = Some(from.to_string());
    pc.channel_to = Some(to.to_string());
    pc
}

/// Pushing past the capacity keeps exactly the newest entries, in id order,
/// and evicted ids are no longer found.
#[test]
fn log_retains_most_recent() {
    let mut state = State::new(2, false);
    state.push("chat".to_string(), "one".to_string(), true, 10);
    state.push("chat".to_string(), "two".to_string(), true, 11);
    state.push("chat".to_string(), "three".to_string(), true, 12);
    assert_eq!(state.log.len(), 2);
    assert!(state.rfind_channel_datum(1).is_none());
    let d2 = state.rfind_channel_datum(2).unwrap();
    let d3 = state.rfind_channel_datum(3).unwrap();
    assert_eq!(d2.content, "two".to_string());
    assert_eq!(d3.content, "three".to_string());
    assert!(d2.get_id() < d3.get_id());
}

/// Ids strictly increase over pushes.
#[test]
fn ids_strictly_increase() {
    let mut state = State::new(8, false);
    let mut last = 0u64;
    for k in 0..5 {
        state.push("chat".to_string(), format!("m{}", k), true, 1);
        let id = state.log.next_id_preview() - 1;
        assert!(id > last);
        last = id;
    }
}

/// Ids never repeat across restore: post-restore ids exceed the snapshot's
/// maximum id.
#[test]
fn ids_increase_across_restore() {
    let mut state = State::new(8, false);
    state.push("chat".to_string(), "a".to_string(), true, 1);
    state.push("chat".to_string(), "b".to_string(), true, 2);
    let text = state.snapshot();
    let mut fresh = State::new(8, false);
    assert!(fresh.load(text.as_str()));
    fresh.push("chat".to_string(), "c".to_string(), true, 3);
    let d = fresh.rfind_channel_datum(3).unwrap();
    assert_eq!(d.content, "c".to_string());
    assert!(d.get_id() > 2);
}

/// A non-finalized datum never triggers the conversational processor's
/// external call.
#[test]
fn non_final_never_calls_out() {
    let mut pc = conf_with_channels("chat", "ai");
    pc.model = Some("test-model".to_string());
    let chat = OpenAiChat::new(pc).unwrap();
    let mut state = State::new(16, false);
    state.add_processor(ProcessorKind::OpenAiChat(chat));
    let out = state.push("chat".to_string(), "hello".to_string(), false, 5);
    assert_eq!(out.requests.len(), 0);
    assert_eq!(out.invoked.len(), 1);
    let out2 = state.push("chat".to_string(), "hello again".to_string(), true, 6);
    assert_eq!(out2.requests.len(), 1);
}

/// With ignore pattern `^/` and input `/skip this`, the conversational
/// processor performs zero external calls and emits zero datums.
#[test]
fn ignore_gate_suppresses_reply() {
    let mut pc = conf_with_channels("chat", "ai");
    pc.ignore_regex_pattern = Some("^/".to_string());
    let chat = OpenAiChat::new(pc).unwrap();
    let mut state = State::new(16, false);
    state.add_processor(ProcessorKind::OpenAiChat(chat));
    let before = state.log.len();
    let out = state.push("chat".to_string(), "/skip this".to_string(), true, 5);
    assert_eq!(out.requests.len(), 0);
    assert_eq!(state.log.len(), before + 1);
    // Matching happens on the trimmed trigger content.
    let out2 = state.push("chat".to_string(), "  /also skipped".to_string(), true, 6);
    assert_eq!(out2.requests.len(), 0);
    // A plain input on the same configuration does ask for a completion.
    let out3 = state.push("chat".to_string(), "please answer".to_string(), true, 7);
    assert_eq!(out3.requests.len(), 1);
}

/// With a minimum interval of 5 seconds and a force-activate pattern that
/// does not match, only the first of two triggers 2 seconds apart replies;
/// a third 6 seconds after the first replies again.
#[test]
fn min_interval_throttles() {
    let mut pc = conf_with_channels("chat", "ai");
    pc.force_activate_regex_pattern = Some("^!".to_string());
    pc.min_interval_in_secs = Some(5);
    let chat = OpenAiChat::new(pc).unwrap();
    let mut state = State::new(16, false);
    state.add_processor(ProcessorKind::OpenAiChat(chat));
    let out1 = state.push("chat".to_string(), "first".to_string(), true, 10);
    assert_eq!(out1.requests.len(), 1);
    let out2 = state.push("chat".to_string(), "second".to_string(), true, 12);
    assert_eq!(out2.requests.len(), 0);
    let out3 = state.push("chat".to_string(), "third".to_string(), true, 16);
    assert_eq!(out3.requests.len(), 1);
}

/// A trigger matching the force-activate pattern replies regardless of the
/// interval and does not move the stamp.
#[test]
fn force_activate_bypasses_throttle() {
    let mut pc = conf_with_channels("chat", "ai");
    pc.force_activate_regex_pattern = Some("^!".to_string());
    pc.min_interval_in_secs = Some(100);
    let chat = OpenAiChat::new(pc).unwrap();
    let mut state = State::new(16, false);
    state.add_processor(ProcessorKind::OpenAiChat(chat));
    let out1 = state.push("chat".to_string(), "!now".to_string(), true, 10);
    assert_eq!(out1.requests.len(), 1);
    let out2 = state.push("chat".to_string(), "!again".to_string(), true, 11);
    assert_eq!(out2.requests.len(), 1);
}

/// Expanding `set "greet"` with one literal injection and empty pre/post
/// yields exactly one new finalized datum on the named channel.
#[test]
fn set_greet_expands_to_one_datum() {
    let sets = vec![CommandSet {
        name: "greet".to_string(),
        pre: vec![],
        post: vec![],
        channel_contents: vec![ContentWithChannel {
            channel: "chat".to_string(),
            content: "hello".to_string(),
        }],
    }];
    let out = expand_command_set(&sets, &"greet".to_string(), 16).unwrap();
    assert_eq!(out.len(), 1);
    assert_eq!(out[0].channel, "chat".to_string());
    assert_eq!(out[0].content, "hello".to_string());
    assert!(out[0].has_flag("is_final"));
}

/// A cyclic command set fails to expand instead of looping.
#[test]
fn cyclic_set_fails_to_expand() {
    let sets = vec![CommandSet {
        name: "a".to_string(),
        pre: vec!["a".to_string()],
        post: vec![],
        channel_contents: vec![ContentWithChannel {
            channel: "chat".to_string(),
            content: "x".to_string(),
        }],
    }];
    // The nested self-reference runs out of depth and is skipped, so the
    // top-level expansion still yields its own injections.
    let out = expand_command_set(&sets, &"a".to_string(), 2).unwrap();
    assert!(out.len() >= 1);
    // With no budget at all the expansion itself fails.
    assert!(expand_command_set(&sets, &"a".to_string(), 0).is_none());
}

/// Dispatching a `set` command through the engine injects the announcement
/// and the set's datum.
#[test]
fn set_command_injects_through_dispatch() {
    let mut pc = conf_with_channels("cmd", "sys");
    pc.set = vec![CommandSet {
        name: "greet".to_string(),
        pre: vec![],
        post: vec![],
        channel_contents: vec![ContentWithChannel {
            channel: "chat".to_string(),
            content: "hello".to_string(),
        }],
    }];
    pc.feature = Some("Command".to_string());
    let p = processor_from_conf(pc, vec![], vec![]).unwrap();
    let mut state = State::new(16, false);
    state.add_processor(p);
    state.push("cmd".to_string(), "/set greet".to_string(), true, 1);
    let hello = state.query_channel(&"chat".to_string(), None, None, None);
    assert_eq!(hello.len(), 1);
    assert_eq!(hello[0].content, "hello".to_string());
    assert!(hello[0].has_flag("is_final"));
    let sys = state.query_channel(&"sys".to_string(), None, None, None);
    assert_eq!(sys.len(), 1);
}

/// An unknown command answers with the diagnostic text and stops the chain.
#[test]
fn unknown_command_answers_diagnostic() {
    let mut pc = conf_with_channels("cmd", "sys");
    pc.feature = Some("command".to_string());
    let p = processor_from_conf(pc, vec![], vec![]).unwrap();
    let mut state = State::new(16, false);
    state.add_processor(p);
    let out = state.push("cmd".to_string(), "/frobnicate".to_string(), true, 1);
    assert_eq!(out.invoked.len(), 1);
    assert_eq!(out.invoked[0].signal, CompletedAnd::Break);
    let sys = state.query_channel(&"sys".to_string(), None, None, None);
    assert_eq!(sys.len(), 1);
    assert_eq!(sys[0].content, "コマンドまたは何かが違うようです。".to_string());
}

/// A configured response template with the placeholder overrides the
/// default text.
#[test]
fn response_template_overrides_default() {
    let mut pc = conf_with_channels("cmd", "sys");
    pc.response_mod = vec![vec!["enable".to_string(), "on: {A}".to_string()]];
    let cmd = vac_core::command::Command::new(pc).unwrap();
    let mut state = State::new(16, false);
    state.add_processor(ProcessorKind::Command(cmd));
    state.push("cmd".to_string(), "/enable sound".to_string(), true, 1);
    let sys = state.query_channel(&"sys".to_string(), None, None, None);
    assert_eq!(sys.len(), 1);
    assert_eq!(sys[0].content, "on: sound".to_string());
}

/// The quit command reports a quit and injects nothing.
#[test]
fn quit_command_reports_quit() {
    let mut pc = conf_with_channels("cmd", "sys");
    pc.feature = Some("command".to_string());
    let p = processor_from_conf(pc, vec![], vec![]).unwrap();
    let mut state = State::new(16, false);
    state.add_processor(p);
    let out = state.push("cmd".to_string(), "/quit".to_string(), true, 1);
    assert!(out.quit);
    assert_eq!(state.query_channel(&"sys".to_string(), None, None, None).len(), 0);
}

/// With three processors where the second stops the chain, the third is
/// never invoked for that datum but is invoked for an independently pushed
/// datum.
#[test]
fn stop_short_circuits_chain() {
    let p1 = Modify::new(conf_with_channels("chat", "chat"), vec![], vec![]).unwrap();
    let mut pc2 = conf_with_channels("chat", "sys");
    pc2.through_if_not_command = Some(true);
    let p2 = vac_core::command::Command::new(pc2).unwrap();
    let p3 = Modify::new(conf_with_channels("chat", "mirror"), vec![], vec![]).unwrap();
    let mut state = State::new(16, false);
    state.add_processor(ProcessorKind::Modify(p1));
    state.add_processor(ProcessorKind::Command(p2));
    state.add_processor(ProcessorKind::Modify(p3));
    let out_a = state.push("chat".to_string(), "/boom".to_string(), true, 1);
    let invoked_a: Vec<usize> = out_a.invoked.iter().map(|r| r.processor).collect();
    assert_eq!(invoked_a, vec![0, 1]);
    let out_b = state.push("chat".to_string(), "plain words".to_string(), true, 2);
    let first_id = out_b.invoked[0].datum_id;
    let invoked_b: Vec<usize> = out_b
        .invoked
        .iter()
        .filter(|r| r.datum_id == first_id)
        .map(|r| r.processor)
        .collect();
    assert_eq!(invoked_b, vec![0, 1, 2]);
    let mirrored = state.query_channel(&"mirror".to_string(), None, None, None);
    assert_eq!(mirrored.len(), 1);
    assert_eq!(mirrored[0].content, "plain words".to_string());
}

/// The reply datum lands on the destination channel with the configured
/// characters stripped and the provenance flag attached.
#[test]
fn reply_datum_strips_and_tags() {
    let req = ChatRequest {
        messages: vec![],
        model: None,
        max_tokens: None,
        n: None,
        user: None,
        response_format_text: false,
        trigger_id: 7,
        channel_from: "chat".to_string(),
        channel_to: "ai".to_string(),
        remove_chars: "\n\r\t".to_string(),
        latest_user_content: "hi".to_string(),
        custom_instructions: None,
        fine_tuning_train_path: None,
    };
    let d = make_reply_datum(&req, "well\nthen\t");
    assert_eq!(d.channel, "ai".to_string());
    assert_eq!(d.content, "wellthen".to_string());
    assert!(d.has_flag("is_final"));
    assert!(d.has_flag("openai-chat(chat:7)"));
}

/// The blank-reply retry exists only for the model family that needs it,
/// with the reduced token cap.
#[test]
fn retry_only_for_blank_gpt5() {
    let req = ChatRequest {
        messages: vec![],
        model: Some("gpt-5-mini".to_string()),
        max_tokens: Some(500),
        n: None,
        user: None,
        response_format_text: true,
        trigger_id: 1,
        channel_from: "chat".to_string(),
        channel_to: "ai".to_string(),
        remove_chars: "".to_string(),
        latest_user_content: "question".to_string(),
        custom_instructions: None,
        fine_tuning_train_path: None,
    };
    let rr = retry_request(&req, "  \n ").unwrap();
    assert_eq!(rr.max_tokens, Some(128));
    assert_eq!(rr.messages.len(), 2);
    assert_eq!(rr.messages[1].role, ChatRole::User);
    assert_eq!(rr.messages[1].content, "question".to_string());
    assert!(retry_request(&req, "substantial").is_none());
    let mut req4 = req;
    req4.model = Some("gpt-4".to_string());
    assert!(retry_request(&req4, "").is_none());
}

/// The context window keeps only finalized entries of the two channels,
/// newest first, up to the memory capacity, and appends them after the
/// template in chronological order.
#[test]
fn chat_window_selects_context() {
    let mut pc = conf_with_channels("chat", "ai");
    pc.memory_capacity = Some(2);
    pc.custom_instructions = Some("be brief".to_string());
    let chat = OpenAiChat::new(pc).unwrap();
    let mut state = State::new(16, false);
    state.add_processor(ProcessorKind::OpenAiChat(chat));
    state.push("other".to_string(), "noise".to_string(), true, 1);
    state.push("chat".to_string(), "first".to_string(), true, 2);
    let out = state.push("chat".to_string(), "second".to_string(), true, 3);
    let req = &out.requests[0];
    assert_eq!(req.messages.len(), 3);
    assert_eq!(req.messages[0].role, ChatRole::System);
    assert_eq!(req.messages[0].content, "be brief".to_string());
    assert_eq!(req.messages[1].role, ChatRole::User);
    assert_eq!(req.messages[1].content, "first".to_string());
    assert_eq!(req.messages[2].role, ChatRole::User);
    assert_eq!(req.messages[2].content, "second".to_string());
    assert_eq!(req.trigger_id, 3);
}

/// In-place substitution is observed by processors later in the chain and
/// by later reads, while the entry keeps its id.
#[test]
fn modify_rewrites_in_place() {
    let mut pc = conf_with_channels("chat", "chat");
    pc.feature = Some("modify".to_string());
    let p = processor_from_conf(pc, vec!["bye hello".to_string()], vec![]).unwrap();
    let mut state = State::new(16, false);
    state.add_processor(p);
    state.push("chat".to_string(), "hello there".to_string(), true, 1);
    let d = state.rfind_channel_datum(1).unwrap();
    assert_eq!(d.content, "bye there".to_string());
}

/// Cross-channel substitution emits a new finalized datum and leaves the
/// source entry alone.
#[test]
fn modify_emits_cross_channel() {
    let pc = conf_with_channels("chat", "loud");
    let p = Modify::new(pc, vec![], vec!["<NUM> [0-9]+".to_string()]).unwrap();
    let mut state = State::new(16, false);
    state.add_processor(ProcessorKind::Modify(p));
    state.push("chat".to_string(), "call 911 now".to_string(), true, 4);
    let src = state.rfind_channel_datum(1).unwrap();
    assert_eq!(src.content, "call 911 now".to_string());
    let loud = state.query_channel(&"loud".to_string(), None, None, None);
    assert_eq!(loud.len(), 1);
    assert_eq!(loud[0].content, "call <NUM> now".to_string());
    assert!(loud[0].has_flag("is_final"));
}

/// The phonetic token transform rewrites known words to katakana.
#[test]
fn modify_alkana_transform() {
    let mut pc = conf_with_channels("chat", "chat");
    pc.alkana = Some(true);
    let p = Modify::new(pc, vec![], vec![]).unwrap();
    let mut state = State::new(16, false);
    state.add_processor(ProcessorKind::Modify(p));
    state.push("chat".to_string(), "zyuganov".to_string(), true, 1);
    let d = state.rfind_channel_datum(1).unwrap();
    assert_eq!(d.content, "ジュガノフ".to_string());
}

/// The dictionary sort puts longer match texts first.
#[test]
fn modify_dictionary_length_sort() {
    let mut pc = conf_with_channels("chat", "chat");
    pc.sort_dictionary = Some("LENGTH".to_string());
    let p = Modify::new(
        pc,
        vec!["x ab".to_string(), "y abcd".to_string()],
        vec![],
    )
    .unwrap();
    assert_eq!(p.dictionary.len(), 2);
    assert_eq!(p.dictionary[0].1, "abcd".to_string());
    assert_eq!(p.dictionary[1].1, "ab".to_string());
}

/// The egress query honors the channel, the count and both cursors.
#[test]
fn query_channel_cursors() {
    let mut state = State::new(16, false);
    state.push("a".to_string(), "one".to_string(), true, 10);
    state.push("b".to_string(), "skip".to_string(), true, 11);
    state.push("a".to_string(), "two".to_string(), true, 12);
    state.push("a".to_string(), "three".to_string(), true, 13);
    let all = state.query_channel(&"a".to_string(), None, None, None);
    assert_eq!(all.len(), 3);
    assert_eq!(all[0].content, "one".to_string());
    let last_two = state.query_channel(&"a".to_string(), None, None, Some(2));
    assert_eq!(last_two.len(), 2);
    assert_eq!(last_two[0].content, "two".to_string());
    let after_id = state.query_channel(&"a".to_string(), Some(1), None, None);
    assert_eq!(after_id.len(), 2);
    let after_ts = state.query_channel(&"a".to_string(), None, Some(10), None);
    assert_eq!(after_ts.len(), 2);
    assert_eq!(after_ts[0].content, "two".to_string());
}

/// An unknown feature tag is skipped, not a hard failure.
#[test]
fn unknown_feature_is_skipped() {
    let mut pc = conf_with_channels("chat", "ai");
    pc.feature = Some("left-field".to_string());
    assert!(processor_from_conf(pc, vec![], vec![]).is_none());
    let mut pc2 = conf_with_channels("chat", "ai");
    pc2.feature = None;
    assert!(processor_from_conf(pc2, vec![], vec![]).is_none());
}

/// A record missing its required channel is rejected by the variant.
#[test]
fn missing_channel_rejected() {
    let mut pc = ProcessorConf::empty();
    pc.feature = Some("openai-chat".to_string());
    pc.channel_from = Some("chat".to_string());
    assert!(processor_from_conf(pc, vec![], vec![]).is_none());
}

/// An invalid regular expression in the configuration rejects the
/// processor.
#[test]
fn invalid_regex_rejected() {
    let mut pc = conf_with_channels("chat", "ai");
    pc.ignore_regex_pattern = Some("(".to_string());
    assert!(OpenAiChat::new(pc).is_none());
}

/// The translation gate skips missing, non-finalized (without opt-in) and
/// empty triggers, and otherwise hands the content over unchanged.
#[test]
fn translation_gate_decisions() {
    let mut log = EventLog::new(8);
    log.append(ChannelDatum::new("chat".to_string(), "partial".to_string()), 1);
    log.append(
        ChannelDatum::new("chat".to_string(), "done".to_string()).with_flag("is_final"),
        2,
    );
    log.append(
        ChannelDatum::new("chat".to_string(), "".to_string()).with_flag("is_final"),
        3,
    );
    assert!(matches!(translation_gate(&log, 9, false), TranslationGate::Skip));
    assert!(matches!(translation_gate(&log, 1, false), TranslationGate::Skip));
    match translation_gate(&log, 1, true) {
        TranslationGate::Translate { content, has_final } => {
            assert_eq!(content, "partial".to_string());
            assert!(!has_final);
        },
        TranslationGate::Skip => panic!("expected a translation"),
    }
    match translation_gate(&log, 2, false) {
        TranslationGate::Translate { content, has_final } => {
            assert_eq!(content, "done".to_string());
            assert!(has_final);
        },
        TranslationGate::Skip => panic!("expected a translation"),
    }
    assert!(matches!(translation_gate(&log, 3, false), TranslationGate::Skip));
}

/// A batch push is one full push per datum, front first.
#[test]
fn batch_push_in_order() {
    let mut state = State::new(8, false);
    let batch = vec![
        ChannelDatum::new("chat".to_string(), "one".to_string()).with_flag("is_final"),
        ChannelDatum::new("chat".to_string(), "two".to_string()).with_flag("is_final"),
    ];
    let outs = state.push_channel_data(batch, 9);
    assert_eq!(outs.len(), 2);
    let d1 = state.rfind_channel_datum(1).unwrap();
    let d2 = state.rfind_channel_datum(2).unwrap();
    assert_eq!(d1.content, "one".to_string());
    assert_eq!(d2.content, "two".to_string());
}

/// The log append stamps ids and times, and the datum builder carries
/// flags, channel and content through.
#[test]
fn datum_builders() {
    let d = ChannelDatum::new("c".to_string(), "x".to_string())
        .with_flag("is_final")
        .with_flag_if("data_urls", false)
        .with_content("y".to_string());
    assert!(d.has_flag("is_final"));
    assert!(!d.has_flag("data_urls"));
    assert_eq!(d.content, "y".to_string());
    let moved = ChannelDatum::move_from(d);
    assert_eq!(moved.get_id(), 0);
    assert!(moved.has_flag("is_final"));
    let mut log = EventLog::new(4);
    let id = log.append(moved, 99);
    assert_eq!(id, 1);
    let back = log.rfind_channel_datum(1).unwrap();
    assert_eq!(back.get_datetime(), 99);
    assert_eq!(back.channel, "c".to_string());
}
