use vstd::prelude::*;

use crate::channel_datum::{content_set_model, ChannelDatum, DatumModel};
use crate::conf::ProcessorConf;
use crate::event_log::{find_index_spec, EventLog};
use crate::pattern::{regex_ok, regex_replace_all, Pattern};
use crate::processor::{CompletedAnd, Step};
use crate::text::{
    chars_to_string, is_ascii_punct, is_ascii_punct_char, replace_all, replace_all_chars,
    str_to_chars, trim_str, trimmed, words_chars, words_of,
};
use crate::utility::opt_str_view;
use vstd::string::StringSliceAdditionalSpecFns;

verus! {

/// The feature tag selecting this processor variant.
pub const FEATURE: &'static str = "modify";

/// The katakana reading of a word, where the bundled dictionary knows one;
/// a lookup in a table compiled into the crate.
pub uninterp spec fn katakana_of(word: Seq<char>) -> Option<Seq<char>>;

/// Relies on Alkana::get_katakana of alkana-rs: a lookup in the crate's
/// bundled pronunciation dictionary, so the answer depends on the word
/// alone.
#[verifier::external_body]
fn alkana_lookup(word: &str) -> (r: Option<String>)
    ensures
        opt_str_view(r) == katakana_of(word@),
{
    alkana_rs::ALKANA.get_katakana(word)
}

/// One pass of punctuation padding: every ASCII punctuation character of
/// the original text, taken in order and once per occurrence, has all its
/// occurrences in the evolving text surrounded with spaces.
pub open spec fn pad_fold(orig: Seq<char>, cur: Seq<char>, i: int) -> Seq<char>
    decreases orig.len() - i,
{
    if i < 0 || i >= orig.len() {
        cur
    } else {
        let c = orig[i];
        let cur2 = if is_ascii_punct(c) {
            replace_all(cur, seq![c], seq![' ', c, ' '])
        } else {
            cur
        };
        pad_fold(orig, cur2, i + 1)
    }
}

/// One pass of dictionary readings: every word of the padded text, taken in
/// order, is replaced throughout the evolving text with its katakana
/// reading, where one is known.
pub open spec fn kat_fold(ws: Seq<Seq<char>>, cur: Seq<char>, i: int) -> Seq<char>
    decreases ws.len() - i,
{
    if i < 0 || i >= ws.len() {
        cur
    } else {
        let w = ws[i];
        let cur2 = if w.len() >= 1 {
            match katakana_of(w) {
                Some(k) => replace_all(cur, w, k),
                None => cur,
            }
        } else {
            cur
        };
        kat_fold(ws, cur2, i + 1)
    }
}

/// The phonetic token transform: punctuation is padded with spaces, known
/// words are replaced with their katakana readings, and the spaces are
/// removed again.
pub open spec fn alkana_spec(content: Seq<char>) -> Seq<char> {
    let padded = pad_fold(content, content, 0);
    let katted = kat_fold(words_of(padded), padded, 0);
    katted.filter(|c: char| c != ' ')
}

/// One pass of the literal dictionary: each (to, from) entry, in order,
/// rewrites every occurrence of `from`; an entry with an empty `from` does
/// nothing.
pub open spec fn dict_fold(dict: Seq<(String, String)>, cur: Seq<char>, i: int) -> Seq<char>
    decreases dict.len() - i,
{
    if i < 0 || i >= dict.len() {
        cur
    } else {
        let cur2 = if dict[i].1@.len() >= 1 {
            replace_all(cur, dict[i].1@, dict[i].0@)
        } else {
            cur
        };
        dict_fold(dict, cur2, i + 1)
    }
}

/// One pass of the ordered regex rewrites.
pub open spec fn regex_fold(rs: Seq<(String, Pattern)>, cur: Seq<char>, i: int) -> Seq<char>
    decreases rs.len() - i,
{
    if i < 0 || i >= rs.len() {
        cur
    } else {
        regex_fold(rs, regex_replace_all(rs[i].1@, cur, rs[i].0@), i + 1)
    }
}

/// The whole substitution: the phonetic transform when enabled, then the
/// literal dictionary, then the regex rewrites, in that fixed order.
pub open spec fn modify_content_spec(m: &Modify, content: Seq<char>) -> Seq<char> {
    regex_fold(
        m.regexes@,
        dict_fold(
            m.dictionary@,
            if m.alkana {
                alkana_spec(content)
            } else {
                content
            },
            0,
        ),
        0,
    )
}

/// The drafts one substitution run injects: nothing on the processor's own
/// channel (the rewrite happens in place), one re-issued draft across
/// channels.
pub open spec fn modify_injects_spec(m: &Modify, log: Seq<DatumModel>, id: u64) -> Seq<
    DatumModel,
> {
    match find_index_spec(log, id) {
        None => Seq::empty(),
        Some(idx) => {
            if m.channel_from@ == m.channel_to@ {
                Seq::empty()
            } else {
                seq![
                    (DatumModel {
                        channel: m.channel_to@,
                        content: modify_content_spec(m, log[idx].content),
                        flags: log[idx].flags,
                        id: 0u64,
                        datetime: 0u64,
                    }),
                ]
            }
        },
    }
}

/// The live entries after one substitution run: rewritten in place on the
/// processor's own channel, untouched otherwise.
pub open spec fn modify_log_after_spec(m: &Modify, log: Seq<DatumModel>, id: u64) -> Seq<
    DatumModel,
> {
    match find_index_spec(log, id) {
        None => log,
        Some(idx) => {
            if m.channel_from@ == m.channel_to@ {
                log.update(
                    idx,
                    content_set_model(log[idx], modify_content_spec(m, log[idx].content)),
                )
            } else {
                log
            }
        },
    }
}

/// The text substitution processor: rewrites a datum's content in place on
/// its own channel, or emits the rewritten text as a new datum on another
/// channel.
pub struct Modify {
    pub channel_from: String,
    pub channel_to: String,
    pub alkana: bool,
    /// (to, from): every occurrence of `from` becomes `to`.
    pub dictionary: Vec<(String, String)>,
    /// (replacer, pattern): every match of `pattern` becomes `replacer`.
    pub regexes: Vec<(String, Pattern)>,
}

impl Modify {
    /// Exact string equality against the configured source channel.
    pub fn is_channel_from(&self, channel: &String) -> (r: bool)
        ensures
            r == (self.channel_from@ == channel@),
    {
        self.channel_from == *channel
    }

    /// Applies the substitution to the datum with the given id: on the
    /// processor's own channel the content is rewritten in place, otherwise
    /// the rewritten text is re-issued as a draft on the destination
    /// channel, keeping the source datum's flags. The chain always
    /// continues.
    pub fn process(&self, log: &mut EventLog, id: u64) -> (st: Step)
        requires
            old(log).wf(),
        ensures
            final(log).wf(),
            st.signal == CompletedAnd::Next,
            st.request is None,
            !st.quit,
            final(log).spec_capacity() == old(log).spec_capacity(),
            final(log).next_id() == old(log).next_id(),
            final(log).history().len() == old(log).history().len(),
            final(log).appended() == old(log).appended(),
            match find_index_spec(old(log).model(), id) {
                None => final(log).model() == old(log).model() && final(log).history() == old(
                    log,
                ).history() && st.injects@.len() == 0,
                Some(idx) => {
                    let newc = modify_content_spec(self, old(log).model()[idx].content);
                    if self.channel_from@ == self.channel_to@ {
                        &&& final(log).model() == old(log).model().update(
                            idx,
                            content_set_model(old(log).model()[idx], newc),
                        )
                        &&& final(log).history() == old(log).history().update(
                            old(log).history().len() - old(log).model().len() + idx,
                            content_set_model(old(log).model()[idx], newc),
                        )
                        &&& st.injects@.len() == 0
                    } else {
                        &&& final(log).model() == old(log).model()
                        &&& final(log).history() == old(log).history()
                        &&& st.injects@.map_values(|d: ChannelDatum| d@) == seq![
                            (DatumModel {
                                channel: self.channel_to@,
                                content: newc,
                                flags: old(log).model()[idx].flags,
                                id: 0u64,
                                datetime: 0u64,
                            }),
                        ]
                    }
                },
            },
    {
        let idx = match log.rfind_index(id) {
            Some(i) => i,
            None => {
                let st = Step::none(CompletedAnd::Next);
                return st;
            },
        };
        let source = log.get(idx).duplicate();
        let mut content = str_to_chars(source.get_content().as_str());
        let ghost orig_content = content@;
        if self.alkana {
            let snapshot = content.clone();
            proof {
                assert(snapshot@ == content@);
            }
            let mut i: usize = 0;
            proof {
                assert(pad_fold(snapshot@, orig_content, 0) == pad_fold(
                    snapshot@,
                    content@,
                    i as int,
                ));
            }
            while i < snapshot.len()
                invariant
                    i <= snapshot@.len(),
                    pad_fold(snapshot@, orig_content, 0) == pad_fold(
                        snapshot@,
                        content@,
                        i as int,
                    ),
                decreases snapshot@.len() - i,
            {
                let c = snapshot[i];
                if is_ascii_punct_char(c) {
                    let mut pat: Vec<char> = Vec::new();
                    pat.push(c);
                    let mut to: Vec<char> = Vec::new();
                    to.push(' ');
                    to.push(c);
                    to.push(' ');
                    proof {
                        assert(pat@ =~= seq![c]);
                        assert(to@ =~= seq![' ', c, ' ']);
                    }
                    content = replace_all_chars(&content, &pat, &to);
                }
                i += 1;
            }
            let ghost padded = content@;
            let ws = words_chars(&content);
            let ghost wsm = words_of(padded);
            let mut j: usize = 0;
            proof {
                assert(kat_fold(wsm, padded, 0) == kat_fold(wsm, content@, j as int));
            }
            while j < ws.len()
                invariant
                    j <= ws@.len(),
                    wsm == ws@.map_values(|w: Vec<char>| w@),
                    kat_fold(wsm, padded, 0) == kat_fold(wsm, content@, j as int),
                decreases ws@.len() - j,
            {
                let w = &ws[j];
                proof {
                    assert(wsm[j as int] == ws@[j as int]@);
                }
                if w.len() >= 1 {
                    let wstr = chars_to_string(w);
                    match alkana_lookup(wstr.as_str()) {
                        Some(k) => {
                            let kc = str_to_chars(k.as_str());
                            content = replace_all_chars(&content, w, &kc);
                        },
                        None => {},
                    }
                }
                j += 1;
            }
            let mut cleaned: Vec<char> = Vec::new();
            let mut p: usize = 0;
            proof {
                reveal(Seq::filter);
                assert(content@.take(0).filter(|c: char| c != ' ') =~= Seq::<char>::empty());
            }
            while p < content.len()
                invariant
                    p <= content@.len(),
                    cleaned@ == content@.take(p as int).filter(|c: char| c != ' '),
                decreases content@.len() - p,
            {
                let c = content[p];
                if c != ' ' {
                    cleaned.push(c);
                }
                proof {
                    reveal(Seq::filter);
                    assert(content@.take(p + 1).drop_last() =~= content@.take(p as int));
                    assert(content@.take(p + 1).last() == content@[p as int]);
                    assert(cleaned@ =~= content@.take(p + 1).filter(|c: char| c != ' '));
                }
                p += 1;
            }
            proof {
                assert(content@.take(content@.len() as int) =~= content@);
            }
            content = cleaned;
            proof {
                assert(content@ == alkana_spec(orig_content));
            }
        }
        let ghost base = if self.alkana {
            alkana_spec(orig_content)
        } else {
            orig_content
        };
        let mut di: usize = 0;
        proof {
            assert(dict_fold(self.dictionary@, base, 0) == dict_fold(
                self.dictionary@,
                content@,
                di as int,
            ));
        }
        while di < self.dictionary.len()
            invariant
                di <= self.dictionary@.len(),
                dict_fold(self.dictionary@, base, 0) == dict_fold(
                    self.dictionary@,
                    content@,
                    di as int,
                ),
            decreases self.dictionary@.len() - di,
        {
            let from = str_to_chars(self.dictionary[di].1.as_str());
            let to = str_to_chars(self.dictionary[di].0.as_str());
            if from.len() >= 1 {
                content = replace_all_chars(&content, &from, &to);
            }
            di += 1;
        }
        let ghost after_dict = dict_fold(self.dictionary@, base, 0);
        let mut ri: usize = 0;
        proof {
            assert(regex_fold(self.regexes@, after_dict, 0) == regex_fold(
                self.regexes@,
                content@,
                ri as int,
            ));
        }
        while ri < self.regexes.len()
            invariant
                ri <= self.regexes@.len(),
                regex_fold(self.regexes@, after_dict, 0) == regex_fold(
                    self.regexes@,
                    content@,
                    ri as int,
                ),
            decreases self.regexes@.len() - ri,
        {
            let text = chars_to_string(&content);
            let replaced = self.regexes[ri].1.replace_all(
                text.as_str(),
                self.regexes[ri].0.as_str(),
            );
            content = str_to_chars(replaced.as_str());
            ri += 1;
        }
        let new_content = chars_to_string(&content);
        proof {
            assert(new_content@ == modify_content_spec(self, orig_content));
        }
        if self.channel_from == self.channel_to {
            log.set_content(idx, new_content);
            Step::none(CompletedAnd::Next)
        } else {
            let moved = ChannelDatum::move_from(source).with_channel(
                self.channel_to.clone(),
            ).with_content(new_content);
            let mut injects: Vec<ChannelDatum> = Vec::new();
            injects.push(moved);
            proof {
                assert(injects@.map_values(|d: ChannelDatum| d@) =~= seq![
                    (DatumModel {
                        channel: self.channel_to@,
                        content: modify_content_spec(self, old(log).model()[idx as int].content),
                        flags: old(log).model()[idx as int].flags,
                        id: 0u64,
                        datetime: 0u64,
                    }),
                ]);
            }
            Step { signal: CompletedAnd::Next, injects, request: None, quit: false }
        }
    }
}


/// The byte length of the match text; the ordering key of the
/// longest-match-first sort.
pub open spec fn match_key(p: (Seq<char>, Seq<char>)) -> nat {
    vstd::utf8::encode_utf8(p.1).len()
}

/// The position of the first entry with the longest match text.
pub open spec fn max_key_index(s: Seq<(Seq<char>, Seq<char>)>) -> int
    decreases s.len(),
{
    if s.len() <= 1 {
        0
    } else {
        let r = max_key_index(s.drop_last());
        if match_key(s.last()) > match_key(s[r]) {
            s.len() - 1
        } else {
            r
        }
    }
}

proof fn lemma_max_key_index(s: Seq<(Seq<char>, Seq<char>)>)
    requires
        s.len() >= 1,
    ensures
        0 <= max_key_index(s) < s.len(),
        forall|j: int| 0 <= j < s.len() ==> match_key(s[max_key_index(s)]) >= match_key(#[trigger] s[j]),
    decreases s.len(),
{
    if s.len() > 1 {
        lemma_max_key_index(s.drop_last());
        assert(forall|j: int| 0 <= j < s.len() - 1 ==> s.drop_last()[j] == s[j]);
    }
}

/// The longest-match-first order: entries taken by repeatedly extracting
/// the earliest entry with the longest match text, so that entries of equal
/// length keep their relative order.
pub open spec fn sort_by_len_spec(s: Seq<(Seq<char>, Seq<char>)>) -> Seq<(Seq<char>, Seq<char>)>
    decreases s.len(),
    via sort_by_len_dec
{
    if s.len() == 0 {
        Seq::empty()
    } else {
        seq![s[max_key_index(s)]] + sort_by_len_spec(s.remove(max_key_index(s)))
    }
}

#[via_fn]
proof fn sort_by_len_dec(s: Seq<(Seq<char>, Seq<char>)>) {
    if s.len() > 0 {
        lemma_max_key_index(s);
    }
}

/// The view of the dictionary entries.
pub open spec fn entries_view(v: Seq<(String, String)>) -> Seq<(Seq<char>, Seq<char>)> {
    v.map_values(|e: (String, String)| (e.0@, e.1@))
}

/// Sorts the dictionary longest match text first, entries of equal length
/// keeping their order.
#[verifier::rlimit(50)]
fn sort_dictionary_by_len(entries: Vec<(String, String)>) -> (r: Vec<(String, String)>)
    ensures
        entries_view(r@) == sort_by_len_spec(entries_view(entries@)),
{
    let ghost orig = entries_view(entries@);
    let mut work = entries;
    let mut out: Vec<(String, String)> = Vec::new();
    proof {
        assert(entries_view(out@) =~= Seq::<(Seq<char>, Seq<char>)>::empty());
        assert(sort_by_len_spec(orig) =~= entries_view(out@) + sort_by_len_spec(
            entries_view(work@),
        ));
    }
    while work.len() > 0
        invariant
            sort_by_len_spec(orig) == entries_view(out@) + sort_by_len_spec(
                entries_view(work@),
            ),
        decreases work@.len(),
    {
        let ghost wv = entries_view(work@);
        let mut best: usize = 0;
        let mut i: usize = 1;
        proof {
            assert(wv.take(1).drop_last() =~= Seq::<(Seq<char>, Seq<char>)>::empty());
            assert(max_key_index(wv.take(1)) == 0);
        }
        while i < work.len()
            invariant
                1 <= i <= work@.len(),
                work@.len() >= 1,
                wv == entries_view(work@),
                best < i,
                best == max_key_index(wv.take(i as int)),
            decreases work@.len() - i,
        {
            proof {
                assert(wv.take(i + 1).drop_last() =~= wv.take(i as int));
                assert(wv.take(i + 1).last() == wv[i as int]);
                assert(wv[i as int] == (work@[i as int].0@, work@[i as int].1@));
                assert(wv[best as int] == (work@[best as int].0@, work@[best as int].1@));
                assert(wv.take(i as int)[best as int] == wv[best as int]);
                assert(wv.take(i + 1)[best as int] == wv[best as int]);
                assert(wv.take(i + 1)[i as int] == wv[i as int]);
            }
            let ghost old_best = best as int;
            let si = work[i].1.as_str();
            let sb = work[best].1.as_str();
            proof {
                assert(si@ == wv[i as int].1);
                assert(sb@ == wv[old_best].1);
            }
            let li = si.as_bytes().len();
            let lb = sb.as_bytes().len();
            proof {
                assert(li == si.spec_bytes().len());
                assert(si.spec_bytes() == vstd::utf8::encode_utf8(si@));
                assert(lb == sb.spec_bytes().len());
                assert(sb.spec_bytes() == vstd::utf8::encode_utf8(sb@));
            }
            let cond = li > lb;
            proof {
                assert(cond == (match_key(wv[i as int]) > match_key(wv[old_best])));
            }
            if cond {
                best = i;
            }
            proof {
                let t = wv.take(i + 1);
                assert(t.len() > 1);
                assert(t.drop_last() == wv.take(i as int));
                assert(max_key_index(t.drop_last()) == old_best);
                assert(t.last() == wv[i as int]);
                assert(t[old_best] == wv[old_best]);
                if match_key(t.last()) > match_key(t[max_key_index(t.drop_last())]) {
                    assert(max_key_index(t) == t.len() - 1);
                    assert(best == i);
                } else {
                    assert(max_key_index(t) == old_best);
                    assert(best as int == old_best);
                }
            }
            i += 1;
        }
        proof {
            assert(wv.take(wv.len() as int) =~= wv);
        }
        let picked = work.remove(best);
        let ghost prev_out = out@;
        out.push(picked);
        proof {
            assert(entries_view(out@) =~= entries_view(prev_out).push(wv[best as int]));
            assert(entries_view(work@) =~= wv.remove(best as int));
            assert(sort_by_len_spec(wv) == seq![wv[best as int]] + sort_by_len_spec(
                wv.remove(best as int),
            ));
            assert(entries_view(prev_out) + (seq![wv[best as int]] + sort_by_len_spec(
                wv.remove(best as int),
            )) =~= entries_view(out@) + sort_by_len_spec(entries_view(work@)));
        }
    }
    proof {
        assert(entries_view(work@) =~= Seq::<(Seq<char>, Seq<char>)>::empty());
        assert(entries_view(out@) + Seq::<(Seq<char>, Seq<char>)>::empty() =~= entries_view(
            out@,
        ));
    }
    out
}

/// The (to, from) entry a dictionary line yields: the first two
/// whitespace-separated tokens of the trimmed line; a line with fewer than
/// two tokens yields nothing.
pub open spec fn dict_line_spec(line: Seq<char>) -> Option<(Seq<char>, Seq<char>)> {
    let ws = words_of(trimmed(line));
    if ws.len() >= 2 {
        Some((ws[0], ws[1]))
    } else {
        None
    }
}

/// The entries of all dictionary lines, in order.
pub open spec fn dict_lines_spec(lines: Seq<String>) -> Seq<(Seq<char>, Seq<char>)>
    decreases lines.len(),
{
    if lines.len() == 0 {
        Seq::empty()
    } else {
        (match dict_line_spec(lines[0]@) {
            Some(e) => seq![e],
            None => Seq::empty(),
        }) + dict_lines_spec(lines.skip(1))
    }
}

/// Reads one dictionary line.
fn parse_dict_line(line: &String) -> (r: Option<(String, String)>)
    ensures
        match r {
            Some(e) => dict_line_spec(line@) == Some((e.0@, e.1@)),
            None => dict_line_spec(line@) is None,
        },
{
    let t = trim_str(line.as_str());
    let tc = str_to_chars(t.as_str());
    let ws = words_chars(&tc);
    if ws.len() >= 2 {
        let to = chars_to_string(&ws[0]);
        let from = chars_to_string(&ws[1]);
        proof {
            assert(words_of(trimmed(line@))[0] == ws@[0]@);
            assert(words_of(trimmed(line@))[1] == ws@[1]@);
        }
        Some((to, from))
    } else {
        None
    }
}


/// The position of the last space of the string.
pub open spec fn last_space(t: Seq<char>) -> Option<int>
    decreases t.len(),
{
    if t.len() == 0 {
        None
    } else if t.last() == ' ' {
        Some(t.len() - 1)
    } else {
        last_space(t.drop_last())
    }
}

/// The (replacer, pattern) entry a regex line yields: the trimmed line
/// split at its last space, the replacement before it and the pattern text
/// after it; an empty line or one without a space yields nothing.
pub open spec fn regex_line_spec(line: Seq<char>) -> Option<(Seq<char>, Seq<char>)> {
    let t = trimmed(line);
    if t.len() == 0 {
        None
    } else {
        match last_space(t) {
            None => None,
            Some(i) => Some((t.take(i), t.skip(i + 1))),
        }
    }
}

/// The entries of all regex lines, in order.
pub open spec fn regex_lines_spec(lines: Seq<String>) -> Seq<(Seq<char>, Seq<char>)>
    decreases lines.len(),
{
    if lines.len() == 0 {
        Seq::empty()
    } else {
        (match regex_line_spec(lines[0]@) {
            Some(e) => seq![e],
            None => Seq::empty(),
        }) + regex_lines_spec(lines.skip(1))
    }
}

/// Reads one regex line.
fn parse_regex_line(line: &String) -> (r: Option<(String, String)>)
    ensures
        match r {
            Some(e) => regex_line_spec(line@) == Some((e.0@, e.1@)),
            None => regex_line_spec(line@) is None,
        },
{
    let t = trim_str(line.as_str());
    let tc = str_to_chars(t.as_str());
    if tc.len() == 0 {
        return None;
    }
    let mut j: usize = tc.len();
    proof {
        assert(tc@.take(j as int) =~= tc@);
    }
    while j > 0
        invariant
            j <= tc@.len(),
            tc@ == trimmed(line@),
            tc@.len() != 0,
            last_space(tc@) == last_space(tc@.take(j as int)),
        decreases j,
    {
        proof {
            assert(tc@.take(j as int).last() == tc@[j - 1]);
            assert(tc@.take(j as int).drop_last() =~= tc@.take(j - 1));
        }
        if tc[j - 1] == ' ' {
            let sp = j - 1;
            proof {
                assert(last_space(tc@.take(j as int)) == Some(sp as int));
                assert(last_space(tc@) == Some(sp as int));
            }
            let mut to_part: Vec<char> = Vec::new();
            let mut k: usize = 0;
            while k < sp
                invariant
                    k <= sp < tc@.len(),
                    to_part@ == tc@.take(sp as int).take(k as int),
                decreases sp - k,
            {
                to_part.push(tc[k]);
                proof {
                    assert(tc@.take(sp as int).take(k + 1) =~= tc@.take(sp as int).take(
                        k as int,
                    ).push(tc@[k as int]));
                }
                k += 1;
            }
            proof {
                assert(tc@.take(sp as int).take(sp as int) =~= tc@.take(sp as int));
            }
            let mut from_part: Vec<char> = Vec::new();
            let mut k2: usize = sp + 1;
            while k2 < tc.len()
                invariant
                    sp + 1 <= k2 <= tc@.len(),
                    from_part@ == tc@.subrange(sp + 1, k2 as int),
                decreases tc@.len() - k2,
            {
                from_part.push(tc[k2]);
                proof {
                    assert(tc@.subrange(sp + 1, k2 + 1) =~= tc@.subrange(sp + 1, k2 as int).push(
                        tc@[k2 as int],
                    ));
                }
                k2 += 1;
            }
            proof {
                assert(tc@.subrange(sp + 1, tc@.len() as int) =~= tc@.skip(sp + 1));
            }
            let to_replacer = chars_to_string(&to_part);
            let from_matcher = chars_to_string(&from_part);
            proof {
                assert(tc@ == trimmed(line@));
                assert(to_replacer@ == trimmed(line@).take(sp as int));
                assert(from_matcher@ == trimmed(line@).skip(sp + 1));
                assert(trimmed(line@).len() != 0);
                assert(last_space(trimmed(line@)) == Some(sp as int));
                assert(regex_line_spec(line@) == Some((to_replacer@, from_matcher@)));
            }
            return Some((to_replacer, from_matcher));
        }
        j -= 1;
    }
    proof {
        assert(tc@.take(0) =~= Seq::<char>::empty());
    }
    None
}

/// Whether the configuration asks for the longest-match-first dictionary
/// order.
pub open spec fn wants_length_sort(pc: &ProcessorConf) -> bool {
    match pc.sort_dictionary {
        Some(s) => crate::utility::lower_of(s@) == "length"@,
        None => false,
    }
}

impl Modify {
    /// Builds the processor from its configuration record and the lines of
    /// the configured dictionary and regex files. The record must name both
    /// channels and every regex line's pattern must compile; a dictionary
    /// line with fewer than two tokens and a regex line without a space are
    /// skipped.
    pub fn new(pc: ProcessorConf, dictionary_lines: Vec<String>, regex_lines: Vec<String>) -> (r:
        Option<Modify>)
        ensures
            match r {
                Some(m) => {
                    &&& pc.channel_from matches Some(cf) && m.channel_from@ == cf@
                    &&& pc.channel_to matches Some(ct) && m.channel_to@ == ct@
                    &&& m.alkana == (pc.alkana == Some(true))
                    &&& entries_view(m.dictionary@) == if wants_length_sort(&pc) {
                        sort_by_len_spec(dict_lines_spec(dictionary_lines@))
                    } else {
                        dict_lines_spec(dictionary_lines@)
                    }
                    &&& m.regexes@.len() == regex_lines_spec(regex_lines@).len()
                    &&& forall|k: int|
                        0 <= k < m.regexes@.len() ==> (#[trigger] m.regexes@[k]).0@
                            == regex_lines_spec(regex_lines@)[k].0 && m.regexes@[k].1@
                            == regex_lines_spec(regex_lines@)[k].1
                    &&& forall|k: int|
                        0 <= k < regex_lines_spec(regex_lines@).len() ==> regex_ok(
                            #[trigger] regex_lines_spec(regex_lines@)[k].1,
                        )
                },
                None => {
                    ||| pc.channel_from is None
                    ||| pc.channel_to is None
                    ||| exists|k: int|
                        0 <= k < regex_lines_spec(regex_lines@).len() && !regex_ok(
                            #[trigger] regex_lines_spec(regex_lines@)[k].1,
                        )
                },
            },
    {
        let channel_from = match pc.channel_from {
            Some(cf) => cf,
            None => {
                return None;
            },
        };
        let channel_to = match pc.channel_to {
            Some(ct) => ct,
            None => {
                return None;
            },
        };
        let alkana = match pc.alkana {
            Some(true) => true,
            _ => false,
        };
        let ghost dspec = dict_lines_spec(dictionary_lines@);
        let mut dictionary: Vec<(String, String)> = Vec::new();
        let mut i: usize = 0;
        proof {
            assert(dictionary_lines@.skip(0) =~= dictionary_lines@);
            assert(entries_view(dictionary@) =~= Seq::<(Seq<char>, Seq<char>)>::empty());
        }
        while i < dictionary_lines.len()
            invariant
                i <= dictionary_lines@.len(),
                dspec == dict_lines_spec(dictionary_lines@),
                dspec == entries_view(dictionary@) + dict_lines_spec(
                    dictionary_lines@.skip(i as int),
                ),
            decreases dictionary_lines@.len() - i,
        {
            proof {
                assert(dictionary_lines@.skip(i as int)[0] == dictionary_lines@[i as int]);
                assert(dictionary_lines@.skip(i as int).skip(1) =~= dictionary_lines@.skip(
                    i + 1,
                ));
            }
            match parse_dict_line(&dictionary_lines[i]) {
                Some(e) => {
                    let ghost prev = entries_view(dictionary@);
                    let ghost em = (e.0@, e.1@);
                    dictionary.push(e);
                    proof {
                        assert(entries_view(dictionary@) =~= prev.push(em));
                        assert(prev.push(em) + dict_lines_spec(dictionary_lines@.skip(i + 1))
                            =~= prev + (seq![em] + dict_lines_spec(
                            dictionary_lines@.skip(i + 1),
                        )));
                    }
                },
                None => {},
            }
            i += 1;
        }
        proof {
            assert(dictionary_lines@.skip(dictionary_lines@.len() as int) =~= Seq::<
                String,
            >::empty());
            assert(entries_view(dictionary@) + Seq::<(Seq<char>, Seq<char>)>::empty()
                =~= entries_view(dictionary@));
        }
        let sort_wanted = match &pc.sort_dictionary {
            Some(s) => {
                let lowered = crate::utility::to_lowercase(s.as_str());
                let needle: String = "length".to_owned();
                lowered == needle
            },
            None => false,
        };
        assert(sort_wanted == wants_length_sort(&pc));
        let dictionary = if sort_wanted {
            sort_dictionary_by_len(dictionary)
        } else {
            dictionary
        };
        let ghost rspec = regex_lines_spec(regex_lines@);
        let mut regexes: Vec<(String, Pattern)> = Vec::new();
        let mut j: usize = 0;
        proof {
            assert(regex_lines@.skip(0) =~= regex_lines@);
            assert(regexes@.map_values(|p: (String, Pattern)| (p.0@, p.1@)) =~= Seq::<(
                Seq<char>,
                Seq<char>,
            )>::empty());
        }
        while j < regex_lines.len()
            invariant
                j <= regex_lines@.len(),
                rspec == regex_lines_spec(regex_lines@),
                rspec == regexes@.map_values(|p: (String, Pattern)| (p.0@, p.1@))
                    + regex_lines_spec(regex_lines@.skip(j as int)),
                forall|k: int|
                    0 <= k < regexes@.len() ==> regex_ok(#[trigger] rspec[k].1),
            decreases regex_lines@.len() - j,
        {
            proof {
                assert(regex_lines@.skip(j as int)[0] == regex_lines@[j as int]);
                assert(regex_lines@.skip(j as int).skip(1) =~= regex_lines@.skip(j + 1));
            }
            match parse_regex_line(&regex_lines[j]) {
                Some(e) => {
                    let (to_replacer, from_matcher) = e;
                    match Pattern::new(from_matcher.as_str()) {
                        Some(p) => {
                            let ghost prev = regexes@.map_values(
                                |q: (String, Pattern)| (q.0@, q.1@),
                            );
                            let ghost em = (to_replacer@, p@);
                            regexes.push((to_replacer, p));
                            proof {
                                assert(regexes@.map_values(|q: (String, Pattern)| (q.0@, q.1@))
                                    =~= prev.push(em));
                                assert(prev.push(em) + regex_lines_spec(
                                    regex_lines@.skip(j + 1),
                                ) =~= prev + (seq![em] + regex_lines_spec(
                                    regex_lines@.skip(j + 1),
                                )));
                            }
                        },
                        None => {
                            proof {
                                let done = regexes@.map_values(
                                    |q: (String, Pattern)| (q.0@, q.1@),
                                );
                                assert(rspec[done.len() as int].1 == from_matcher@);
                                assert(!regex_ok(rspec[done.len() as int].1));
                            }
                            return None;
                        },
                    }
                },
                None => {},
            }
            j += 1;
        }
        proof {
            assert(regex_lines@.skip(regex_lines@.len() as int) =~= Seq::<String>::empty());
            assert(regexes@.map_values(|p: (String, Pattern)| (p.0@, p.1@)) + Seq::<(
                Seq<char>,
                Seq<char>,
            )>::empty() =~= regexes@.map_values(|p: (String, Pattern)| (p.0@, p.1@)));
        }
        let m = Modify { channel_from, channel_to, alkana, dictionary, regexes };
        proof {
            let mv = m.regexes@.map_values(|p: (String, Pattern)| (p.0@, p.1@));
            assert forall|k: int| 0 <= k < m.regexes@.len() implies (#[trigger] m.regexes@[k]).0@
                == rspec[k].0 && m.regexes@[k].1@ == rspec[k].1 by {
                assert(mv[k] == (m.regexes@[k].0@, m.regexes@[k].1@));
            }
        }
        Some(m)
    }
}

} // verus!
