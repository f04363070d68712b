use vac_core::ai::AiResponse;
use vac_core::bool_true;
use vac_core::channel_datum::ChannelDatum;
use vac_core::conf::{default_web_ui_resources_path, OpenAiChatFinetuning};
use vac_core::event_log::EventLog;
use vac_core::fine_tuning::{csv_header, csv_record, jsonl_record};
use vac_core::snapshot::{restore, snapshot};
use vac_core::state::State;
use vac_core::utility::{
    iso_3166_to_lang_code, iso_639_lang_code_3_to_2, remove_whitespace_if_cjk,
};
use vac_core::web_interface::{ingress_command, make_section, make_tr_td, make_tr_th, IngressCommand};

/// Restoring a snapshot reproduces identical content, channel, flags and id
/// for every datum, including awkward characters.
#[test]
fn snapshot_round_trips_exactly() {
    let mut log = EventLog::new(8);
    log.append(
        ChannelDatum::new("chat".to_string(), "plain words".to_string()).with_flag("is_final"),
        100,
    );
    log.append(
        ChannelDatum::new("we|ird".to_string(), "pipes | and \\ slashes\nand breaks".to_string())
            .with_flag("is_final")
            .with_flag("data_urls"),
        101,
    );
    log.append(ChannelDatum::new("empty".to_string(), "".to_string()), 102);
    let text = snapshot(&log);
    let back = restore(text.as_str(), 8).unwrap();
    assert_eq!(back.len(), 3);
    for id in 1..=3u64 {
        let a = log.rfind_channel_datum(id).unwrap();
        let b = back.rfind_channel_datum(id).unwrap();
        assert_eq!(a.channel, b.channel);
        assert_eq!(a.content, b.content);
        assert_eq!(a.get_id(), b.get_id());
        assert_eq!(a.get_datetime(), b.get_datetime());
        assert_eq!(a.has_flag("is_final"), b.has_flag("is_final"));
        assert_eq!(a.has_flag("data_urls"), b.has_flag("data_urls"));
    }
    // The generator continues past the snapshot's largest id.
    assert_eq!(back.next_id_preview(), 4);
}

/// The snapshot format is one line per datum with escaped fields.
#[test]
fn snapshot_text_shape() {
    let mut log = EventLog::new(4);
    log.append(
        ChannelDatum::new("c".to_string(), "a|b".to_string()).with_flag("is_final"),
        7,
    );
    let text = snapshot(&log);
    assert_eq!(text, "1|7|c|a\\pb|is_final\n".to_string());
}

/// Text that does not read back, and ids out of order, are both rejected.
#[test]
fn restore_rejects_bad_input() {
    assert!(restore("not a snapshot", 4).is_none());
    assert!(restore("2|1|c|x\n1|1|c|y\n", 4).is_none());
    assert!(restore("0|1|c|x\n", 4).is_none());
    let empty = restore("", 4).unwrap();
    assert_eq!(empty.len(), 0);
    assert_eq!(empty.next_id_preview(), 1);
}

/// A snapshot larger than the capacity restores only the newest entries,
/// with the generator still past the largest id.
#[test]
fn restore_truncates_to_capacity() {
    let mut log = EventLog::new(8);
    for k in 0..4 {
        log.append(ChannelDatum::new("c".to_string(), format!("m{}", k)), 50 + k);
    }
    let text = snapshot(&log);
    let back = restore(text.as_str(), 2).unwrap();
    assert_eq!(back.len(), 2);
    assert!(back.rfind_channel_datum(1).is_none());
    assert!(back.rfind_channel_datum(4).is_some());
    assert_eq!(back.next_id_preview(), 5);
}

/// The state-level snapshot and load round trip through the same text.
#[test]
fn state_snapshot_load() {
    let mut state = State::new(8, false);
    state.push("chat".to_string(), "keep me".to_string(), true, 42);
    let text = state.snapshot();
    let mut other = State::new(8, false);
    assert!(other.load(text.as_str()));
    let d = other.rfind_channel_datum(1).unwrap();
    assert_eq!(d.content, "keep me".to_string());
    assert!(!other.load("garbage"));
}

/// Corpus CSV records quote exactly the fields that need it.
#[test]
fn csv_corpus_records() {
    assert_eq!(csv_header(), "user,assistant\n".to_string());
    assert_eq!(csv_record("plain", "reply"), "plain,reply\n".to_string());
    assert_eq!(
        csv_record("a,b", "c\"d"),
        "\"a,b\",\"c\"\"d\"\n".to_string()
    );
    assert_eq!(csv_record("line\nbreak", "r"), "\"line\nbreak\",r\n".to_string());
}

/// Corpus JSON lines are one compact object per exchange with escaped
/// strings.
#[test]
fn jsonl_corpus_records() {
    let plain = jsonl_record(None, "hi", "there");
    assert_eq!(
        plain,
        "{\"messages\":[{\"role\":\"user\",\"content\":\"hi\"},{\"role\":\"assistant\",\"content\":\"there\"}]}\n"
            .to_string()
    );
    let sys = "be kind".to_string();
    let with_sys = jsonl_record(Some(&sys), "a\"b", "c\\d\ne");
    assert_eq!(
        with_sys,
        "{\"messages\":[{\"role\":\"system\",\"content\":\"be kind\"},{\"role\":\"user\",\"content\":\"a\\\"b\"},{\"role\":\"assistant\",\"content\":\"c\\\\d\\ne\"}]}\n"
            .to_string()
    );
    let ctl = jsonl_record(None, "\u{1}", "x");
    assert!(ctl.contains("\\u0001"));
}

/// Three-letter language codes map to lowercased two-letter codes where the
/// table knows them.
#[test]
fn language_code_mapping() {
    assert_eq!(iso_639_lang_code_3_to_2("eng"), Some("en".to_string()));
    assert_eq!(iso_639_lang_code_3_to_2("jpn"), Some("ja".to_string()));
    assert_eq!(iso_639_lang_code_3_to_2("zzz"), None);
}

/// Locale names reduce to their lowercased language part.
#[test]
fn locale_language_part() {
    assert_eq!(iso_3166_to_lang_code("EN-us"), "en".to_string());
    assert_eq!(iso_3166_to_lang_code("ja_JP"), "ja".to_string());
    assert_eq!(iso_3166_to_lang_code("DE"), "de".to_string());
}

/// Whitespace is removed only for languages written without spaces.
#[test]
fn cjk_whitespace_removal() {
    assert_eq!(
        remove_whitespace_if_cjk("こん にちは".to_string(), "ja"),
        "こんにちは".to_string()
    );
    assert_eq!(
        remove_whitespace_if_cjk("a b".to_string(), "en"),
        "a b".to_string()
    );
    assert_eq!(remove_whitespace_if_cjk("x\ty".to_string(), "zh-cn"), "xy".to_string());
}

/// The status page helpers wrap their inputs in the fixed markup.
#[test]
fn status_markup_helpers() {
    assert_eq!(
        make_section("T", "<p>c</p>"),
        "<section>\n<h2>T</h2>\n<p>c</p></section>\n<hr>\n".to_string()
    );
    assert_eq!(
        make_tr_td(vec!["a".to_string(), "b".to_string()]),
        "<tr><td>a</td><td>b</td></tr>".to_string()
    );
    assert_eq!(
        make_tr_th(vec!["H".to_string()]),
        "<tr><th style=\"padding-right: 1em; text-align: left\">H</th></tr>".to_string()
    );
}

/// The fine-tuning options expose their training path in both forms.
#[test]
fn finetuning_paths() {
    let short = OpenAiChatFinetuning::Path("corpus.jsonl".to_string());
    assert_eq!(short.train_path(), "corpus.jsonl".to_string());
    let (tp, vp, m, sfx) = short.to_tuple_for_input();
    assert_eq!(tp, "corpus.jsonl".to_string());
    assert!(vp.is_none() && m.is_none() && sfx.is_none());
    let full = OpenAiChatFinetuning::Detail {
        train_path: "t.csv".to_string(),
        validation_path: Some("v.csv".to_string()),
        model: Some("base".to_string()),
        suffix: None,
    };
    assert_eq!(full.train_path(), "t.csv".to_string());
    let (tp2, vp2, m2, sfx2) = full.to_tuple_for_input();
    assert_eq!(tp2, "t.csv".to_string());
    assert_eq!(vp2, Some("v.csv".to_string()));
    assert_eq!(m2, Some("base".to_string()));
    assert!(sfx2.is_none());
}

/// The reply constructors fill the cue lists as documented.
#[test]
fn ai_response_constructors() {
    let full = AiResponse::new("hi".to_string(), vec!["wave".to_string()], vec![]);
    assert_eq!(full.message, "hi".to_string());
    assert_eq!(full.emotes.len(), 1);
    let only = AiResponse::new_only_message("text".to_string());
    assert_eq!(only.message, "text".to_string());
    assert!(only.emotes.is_empty() && only.posings.is_empty());
    let ignored = AiResponse::new_ignored();
    assert_eq!(ignored.message, "".to_string());
}

/// The ingress transport's operator commands are picked out by prefix.
#[test]
fn ingress_commands_by_prefix() {
    assert_eq!(ingress_command("/quit"), IngressCommand::Quit);
    assert_eq!(ingress_command("/save now"), IngressCommand::Save);
    assert_eq!(ingress_command("/load"), IngressCommand::Load);
    assert_eq!(ingress_command("hello"), IngressCommand::Other);
    assert_eq!(ingress_command("/loud"), IngressCommand::Other);
}

/// The small defaults behave as documented.
#[test]
fn small_defaults() {
    assert!(bool_true());
    assert_eq!(default_web_ui_resources_path(), Some("resources".to_string()));
}
