use vstd::prelude::*;

use crate::channel_datum::{ChannelDatum, DatumModel};
use crate::event_log::{restorable, EventLog};
use crate::text::{
    chars_to_string, dec_of, digit_val, join_with, lemma_dec_of_digits, lemma_join_free,
    lemma_parse_dec_of, lemma_split_join, lemma_split_nonempty, lemma_split_prefix, parse_dec,
    parts_view, push_dec, sep_free, spec_parse_dec, split_char, split_on, str_to_chars,
    tail_fields, lemma_tail_fields_snoc,
};

verus! {

// ---------------------------------------------------------------------------
// The snapshot format, one line per datum:
//
//   id '|' datetime '|' channel '|' content ( '|' flag )* '\n'
//
// id and datetime are decimal; channel, content and each flag are escaped so
// that they contain neither the field separator nor the line break:
// a backslash becomes "\\", a pipe "\p", a line break "\n".
//
// The format is this library's own: a flat line per datum with a proven
// exact round trip. A persisted file in any other shape does not read back;
// `restore` rejects it and the engine starts empty.
// ---------------------------------------------------------------------------
/// Escape of one character.
pub open spec fn esc_char(c: char) -> Seq<char> {
    if c == '\\' {
        seq!['\\', '\\']
    } else if c == '|' {
        seq!['\\', 'p']
    } else if c == '\n' {
        seq!['\\', 'n']
    } else {
        seq![c]
    }
}

/// Escape of a string.
pub open spec fn esc(s: Seq<char>) -> Seq<char>
    decreases s.len(),
{
    if s.len() == 0 {
        Seq::empty()
    } else {
        esc_char(s[0]) + esc(s.skip(1))
    }
}

/// Reading an escaped string back; answers nothing on a dangling or unknown
/// escape.
pub open spec fn unesc(s: Seq<char>) -> Option<Seq<char>>
    decreases s.len(),
{
    if s.len() == 0 {
        Some(Seq::empty())
    } else if s[0] == '\\' {
        if s.len() == 1 {
            None
        } else {
            let d = if s[1] == '\\' {
                Some('\\')
            } else if s[1] == 'p' {
                Some('|')
            } else if s[1] == 'n' {
                Some('\n')
            } else {
                None
            };
            match d {
                None => None,
                Some(c) => match unesc(s.skip(2)) {
                    None => None,
                    Some(r) => Some(seq![c] + r),
                },
            }
        }
    } else {
        match unesc(s.skip(1)) {
            None => None,
            Some(r) => Some(seq![s[0]] + r),
        }
    }
}





/// The fields of one snapshot line, unescaped and in order.
pub open spec fn fields_of(d: DatumModel) -> Seq<Seq<char>> {
    seq![
        dec_of(d.id as nat),
        dec_of(d.datetime as nat),
        esc(d.channel),
        esc(d.content),
    ] + d.flags.map_values(|f: Seq<char>| esc(f))
}

/// One snapshot line, without its line break.
pub open spec fn line_of(d: DatumModel) -> Seq<char> {
    join_with(fields_of(d), '|')
}

/// The rendering of a datum: its line plus the line break.
pub open spec fn render_datum(d: DatumModel) -> Seq<char> {
    line_of(d).push('\n')
}

/// The rendering of the whole log, oldest first.
pub open spec fn render_log(ds: Seq<DatumModel>) -> Seq<char>
    decreases ds.len(),
{
    if ds.len() == 0 {
        Seq::empty()
    } else {
        render_datum(ds[0]) + render_log(ds.skip(1))
    }
}

/// Unescaping every part.
pub open spec fn unesc_all(fs: Seq<Seq<char>>) -> Option<Seq<Seq<char>>>
    decreases fs.len(),
{
    if fs.len() == 0 {
        Some(Seq::empty())
    } else {
        match unesc(fs[0]) {
            None => None,
            Some(f) => match unesc_all(fs.skip(1)) {
                None => None,
                Some(r) => Some(seq![f] + r),
            },
        }
    }
}

/// Reading a datum back from the fields of one line.
pub open spec fn parse_fields(fs: Seq<Seq<char>>) -> Option<DatumModel> {
    if fs.len() < 4 {
        None
    } else {
        match spec_parse_dec(fs[0]) {
            None => None,
            Some(id) => match spec_parse_dec(fs[1]) {
                None => None,
                Some(dt) => match unesc(fs[2]) {
                    None => None,
                    Some(ch) => match unesc(fs[3]) {
                        None => None,
                        Some(ct) => match unesc_all(fs.skip(4)) {
                            None => None,
                            Some(fl) => Some(
                                DatumModel {
                                    channel: ch,
                                    content: ct,
                                    flags: fl,
                                    id: id,
                                    datetime: dt,
                                },
                            ),
                        },
                    },
                },
            },
        }
    }
}

/// Reading a datum back from one line.
pub open spec fn parse_line_spec(line: Seq<char>) -> Option<DatumModel> {
    parse_fields(split_on(line, '|'))
}

/// Reading every line back.
pub open spec fn parse_lines(lines: Seq<Seq<char>>) -> Option<Seq<DatumModel>>
    decreases lines.len(),
{
    if lines.len() == 0 {
        Some(Seq::empty())
    } else {
        match parse_line_spec(lines[0]) {
            None => None,
            Some(d) => match parse_lines(lines.skip(1)) {
                None => None,
                Some(r) => Some(seq![d] + r),
            },
        }
    }
}

/// Reading a whole snapshot back: every line ends with a line break.
pub open spec fn spec_parse_snapshot(s: Seq<char>) -> Option<Seq<DatumModel>> {
    let parts = split_on(s, '\n');
    if parts.last().len() != 0 {
        None
    } else {
        parse_lines(parts.drop_last())
    }
}

// ---------------------------------------------------------------------------
// Round-trip lemmas.
// ---------------------------------------------------------------------------

/// An escaped string contains neither separator.
pub proof fn lemma_esc_free(s: Seq<char>)
    ensures
        sep_free(esc(s), '|'),
        sep_free(esc(s), '\n'),
    decreases s.len(),
{
    if s.len() > 0 {
        lemma_esc_free(s.skip(1));
        assert forall|i: int| 0 <= i < esc(s).len() implies esc(s)[i] != '|' && esc(s)[i]
            != '\n' by {
            let h = esc_char(s[0]);
            if i < h.len() {
                assert(esc(s)[i] == h[i]);
            } else {
                assert(esc(s)[i] == esc(s.skip(1))[i - h.len()]);
            }
        }
    }
}

/// Unescaping an escaped string restores it.
pub proof fn lemma_unesc_esc(s: Seq<char>)
    ensures
        unesc(esc(s)) == Some(s),
    decreases s.len(),
{
    if s.len() == 0 {
        assert(esc(s).len() == 0);
    } else {
        lemma_unesc_esc(s.skip(1));
        let e = esc(s);
        let h = esc_char(s[0]);
        if s[0] == '\\' || s[0] == '|' || s[0] == '\n' {
            assert(h.len() == 2);
            assert(e[0] == h[0] && e[1] == h[1]);
            assert(e[0] == '\\');
            assert(e.skip(2) =~= esc(s.skip(1)));
            assert(e.len() >= 2);
            let c = if e[1] == '\\' {
                '\\'
            } else if e[1] == 'p' {
                '|'
            } else {
                '\n'
            };
            assert(c == s[0]);
            assert(unesc(e) == Some(seq![s[0]] + s.skip(1)));
            assert(seq![s[0]] + s.skip(1) =~= s);
        } else {
            assert(h.len() == 1);
            assert(e[0] == s[0]);
            assert(e[0] != '\\');
            assert(e.skip(1) =~= esc(s.skip(1)));
            assert(unesc(e) == Some(seq![s[0]] + s.skip(1)));
            assert(seq![s[0]] + s.skip(1) =~= s);
        }
    }
}

/// Every field of a line is free of both separators.
pub proof fn lemma_fields_sep_free(d: DatumModel)
    ensures
        forall|i: int| 0 <= i < fields_of(d).len() ==> sep_free(#[trigger] fields_of(d)[i], '|'),
        forall|i: int|
            0 <= i < fields_of(d).len() ==> sep_free(#[trigger] fields_of(d)[i], '\n'),
{
    let fs = fields_of(d);
    lemma_dec_of_digits(d.id as nat);
    lemma_dec_of_digits(d.datetime as nat);
    assert forall|i: int| 0 <= i < fs.len() implies sep_free(#[trigger] fs[i], '|') && sep_free(
        fs[i],
        '\n',
    ) by {
        if i == 0 {
            assert forall|k: int| 0 <= k < fs[0].len() implies fs[0][k] != '|' && fs[0][k]
                != '\n' by {
                assert(digit_val(dec_of(d.id as nat)[k]) >= 0);
            }
        } else if i == 1 {
            assert forall|k: int| 0 <= k < fs[1].len() implies fs[1][k] != '|' && fs[1][k]
                != '\n' by {
                assert(digit_val(dec_of(d.datetime as nat)[k]) >= 0);
            }
        } else if i == 2 {
            lemma_esc_free(d.channel);
        } else if i == 3 {
            lemma_esc_free(d.content);
        } else {
            assert(fs[i] == d.flags.map_values(|f: Seq<char>| esc(f))[i - 4]);
            assert(fs[i] == esc(d.flags[i - 4]));
            lemma_esc_free(d.flags[i - 4]);
        }
    }
}

/// A line is free of line breaks.
pub proof fn lemma_line_newline_free(d: DatumModel)
    ensures
        sep_free(line_of(d), '\n'),
{
    lemma_fields_sep_free(d);
    lemma_join_free(fields_of(d), '|', '\n');
}

/// Unescaping every escaped part restores the parts.
pub proof fn lemma_unesc_all(fs: Seq<Seq<char>>)
    ensures
        unesc_all(fs.map_values(|f: Seq<char>| esc(f))) == Some(fs),
    decreases fs.len(),
{
    let m = fs.map_values(|f: Seq<char>| esc(f));
    if fs.len() == 0 {
        assert(m.len() == 0);
    } else {
        lemma_unesc_esc(fs[0]);
        assert(m[0] == esc(fs[0]));
        lemma_unesc_all(fs.skip(1));
        assert(m.skip(1) =~= fs.skip(1).map_values(|f: Seq<char>| esc(f)));
        assert(seq![fs[0]] + fs.skip(1) =~= fs);
    }
}

/// Reading one rendered line back restores the datum.
pub proof fn lemma_parse_render_line(d: DatumModel)
    ensures
        parse_line_spec(line_of(d)) == Some(d),
{
    let fs = fields_of(d);
    lemma_fields_sep_free(d);
    lemma_split_join(fs, '|');
    lemma_parse_dec_of(d.id);
    lemma_parse_dec_of(d.datetime);
    lemma_unesc_esc(d.channel);
    lemma_unesc_esc(d.content);
    lemma_unesc_all(d.flags);
    assert(fs.skip(4) =~= d.flags.map_values(|f: Seq<char>| esc(f)));
    assert(fs[0] == dec_of(d.id as nat));
    assert(fs[1] == dec_of(d.datetime as nat));
    assert(fs[2] == esc(d.channel));
    assert(fs[3] == esc(d.content));
    let got = parse_fields(fs);
    assert(got == Some(
        DatumModel {
            channel: d.channel,
            content: d.content,
            flags: d.flags,
            id: d.id,
            datetime: d.datetime,
        },
    ));
    assert((DatumModel {
        channel: d.channel,
        content: d.content,
        flags: d.flags,
        id: d.id,
        datetime: d.datetime,
    }) =~= d);
}

/// Splitting the rendering at line breaks yields the lines plus one empty
/// trailing part.
proof fn lemma_split_render(ds: Seq<DatumModel>)
    ensures
        split_on(render_log(ds), '\n') == ds.map_values(|d: DatumModel| line_of(d)) + seq![
            Seq::<char>::empty(),
        ],
    decreases ds.len(),
{
    if ds.len() == 0 {
        assert(render_log(ds).len() == 0);
        assert(split_on(render_log(ds), '\n') == seq![Seq::<char>::empty()]);
        assert(ds.map_values(|d: DatumModel| line_of(d)) + seq![Seq::<char>::empty()] =~= seq![
            Seq::<char>::empty(),
        ]);
    } else {
        lemma_split_render(ds.skip(1));
        lemma_line_newline_free(ds[0]);
        assert(render_datum(ds[0]) =~= line_of(ds[0]) + seq!['\n']);
        assert(render_log(ds) =~= line_of(ds[0]) + seq!['\n'] + render_log(ds.skip(1)));
        lemma_split_prefix(line_of(ds[0]), render_log(ds.skip(1)), '\n');
        assert(seq![line_of(ds[0])] + (ds.skip(1).map_values(|d: DatumModel| line_of(d)) + seq![
            Seq::<char>::empty(),
        ]) =~= ds.map_values(|d: DatumModel| line_of(d)) + seq![Seq::<char>::empty()]) by {
            assert(ds.map_values(|d: DatumModel| line_of(d))[0] == line_of(ds[0]));
            assert(ds.skip(1).map_values(|d: DatumModel| line_of(d)) =~= ds.map_values(
                |d: DatumModel| line_of(d),
            ).skip(1));
        }
    }
}

/// Reading every rendered line back restores the datums.
proof fn lemma_parse_lines_render(ds: Seq<DatumModel>)
    ensures
        parse_lines(ds.map_values(|d: DatumModel| line_of(d))) == Some(ds),
    decreases ds.len(),
{
    let lines = ds.map_values(|d: DatumModel| line_of(d));
    if ds.len() == 0 {
    } else {
        lemma_parse_render_line(ds[0]);
        assert(lines[0] == line_of(ds[0]));
        lemma_parse_lines_render(ds.skip(1));
        assert(lines.skip(1) =~= ds.skip(1).map_values(|d: DatumModel| line_of(d)));
        assert(seq![ds[0]] + ds.skip(1) =~= ds);
    }
}

/// Round trip: reading a rendered snapshot back restores every datum with
/// identical channel, content, flags, id and datetime.
pub proof fn lemma_snapshot_roundtrip(ds: Seq<DatumModel>)
    ensures
        spec_parse_snapshot(render_log(ds)) == Some(ds),
{
    lemma_split_render(ds);
    let parts = split_on(render_log(ds), '\n');
    let lines = ds.map_values(|d: DatumModel| line_of(d));
    assert(parts.last() =~= Seq::<char>::empty());
    assert(parts.drop_last() =~= lines);
    lemma_parse_lines_render(ds);
}

/// A well-formed log renders to a snapshot that reads back to exactly its
/// live entries, and those entries are acceptable to a restore.
pub proof fn lemma_snapshot_restore_exact(log: EventLog)
    requires
        log.wf(),
    ensures
        spec_parse_snapshot(render_log(log.model())) == Some(log.model()),
        restorable(log.model()),
{
    lemma_snapshot_roundtrip(log.model());
    let off = log.history().len() - log.model().len();
    assert forall|i: int, j: int| 0 <= i < j < log.model().len() implies log.model()[i].id
        < log.model()[j].id by {
        assert(log.model()[i] == log.history()[off + i]);
        assert(log.model()[j] == log.history()[off + j]);
    }
    assert forall|j: int| 0 <= j < log.model().len() implies 1 <= #[trigger] log.model()[j].id
        < u64::MAX by {
        assert(log.model()[j] == log.history()[off + j]);
    }
}

// ---------------------------------------------------------------------------
// Executable rendering.
// ---------------------------------------------------------------------------
/// Escaping one more character extends the escape.
proof fn lemma_esc_snoc(t: Seq<char>, c: char)
    ensures
        esc(t.push(c)) == esc(t) + esc_char(c),
    decreases t.len(),
{
    if t.len() == 0 {
        assert(t.push(c)[0] == c);
        assert(t.push(c).skip(1) =~= Seq::<char>::empty());
        assert(esc(t.push(c).skip(1)) == Seq::<char>::empty());
        assert(esc(t.push(c)) =~= esc_char(c));
        assert(esc(t) + esc_char(c) =~= esc_char(c));
    } else {
        assert(t.push(c)[0] == t[0]);
        assert(t.push(c).skip(1) =~= t.skip(1).push(c));
        lemma_esc_snoc(t.skip(1), c);
        assert(esc_char(t[0]) + (esc(t.skip(1)) + esc_char(c)) =~= (esc_char(t[0]) + esc(
            t.skip(1),
        )) + esc_char(c));
    }
}

/// One more datum extends the rendering.
proof fn lemma_render_log_snoc(ds: Seq<DatumModel>, d: DatumModel)
    ensures
        render_log(ds.push(d)) == render_log(ds) + render_datum(d),
    decreases ds.len(),
{
    if ds.len() == 0 {
        assert(ds.push(d)[0] == d);
        assert(ds.push(d).skip(1) =~= Seq::<DatumModel>::empty());
        assert(render_log(ds.push(d).skip(1)) == Seq::<char>::empty());
        assert(render_log(ds.push(d)) =~= render_datum(d));
        assert(render_log(ds) + render_datum(d) =~= render_datum(d));
    } else {
        assert(ds.push(d)[0] == ds[0]);
        assert(ds.push(d).skip(1) =~= ds.skip(1).push(d));
        lemma_render_log_snoc(ds.skip(1), d);
        assert(render_datum(ds[0]) + (render_log(ds.skip(1)) + render_datum(d)) =~= (
        render_datum(ds[0]) + render_log(ds.skip(1))) + render_datum(d));
    }
}

/// Appends the escape of the characters.
fn esc_push(out: &mut Vec<char>, s: &Vec<char>)
    ensures
        final(out)@ == old(out)@ + esc(s@),
{
    let mut i: usize = 0;
    assert(s@.take(0) =~= Seq::<char>::empty());
    assert(old(out)@ + esc(s@.take(0)) =~= old(out)@);
    while i < s.len()
        invariant
            i <= s@.len(),
            out@ == old(out)@ + esc(s@.take(i as int)),
        decreases s@.len() - i,
    {
        let c = s[i];
        proof {
            lemma_esc_snoc(s@.take(i as int), s@[i as int]);
            assert(s@.take(i + 1) =~= s@.take(i as int).push(s@[i as int]));
        }
        if c == '\\' {
            out.push('\\');
            out.push('\\');
        } else if c == '|' {
            out.push('\\');
            out.push('p');
        } else if c == '\n' {
            out.push('\\');
            out.push('n');
        } else {
            out.push(c);
        }
        proof {
            assert(out@ =~= old(out)@ + esc(s@.take(i + 1)));
        }
        i += 1;
    }
    assert(s@.take(s@.len() as int) =~= s@);
}

/// Appends the rendering of one datum, line break included.
fn push_datum(out: &mut Vec<char>, d: &ChannelDatum)
    ensures
        final(out)@ == old(out)@ + render_datum(d@),
{
    let ghost fs = fields_of(d@);
    push_dec(out, d.get_id());
    out.push('|');
    push_dec(out, d.get_datetime());
    out.push('|');
    let ch = str_to_chars(d.get_channel().as_str());
    esc_push(out, &ch);
    out.push('|');
    let ct = str_to_chars(d.get_content().as_str());
    esc_push(out, &ct);
    let ghost base = old(out)@ + dec_of(d@.id as nat) + seq!['|'] + dec_of(d@.datetime as nat)
        + seq!['|'] + esc(d@.channel) + seq!['|'] + esc(d@.content);
    assert(out@ =~= base);
    let flags = d.get_flags();
    let ghost fm = d@.flags.map_values(|f: Seq<char>| esc(f));
    let mut j: usize = 0;
    assert(fm.take(0) =~= Seq::<Seq<char>>::empty());
    assert(out@ =~= base + tail_fields(fm.take(0), '|'));
    while j < flags.len()
        invariant
            j <= flags@.len(),
            flags@.map_values(|f: String| f@) == d@.flags,
            fm == d@.flags.map_values(|f: Seq<char>| esc(f)),
            out@ == base + tail_fields(fm.take(j as int), '|'),
        decreases flags@.len() - j,
    {
        out.push('|');
        let fc = str_to_chars(flags[j].as_str());
        assert(fc@ == d@.flags[j as int]);
        esc_push(out, &fc);
        proof {
            lemma_tail_fields_snoc(fm.take(j as int), fm[j as int], '|');
            assert(fm.take(j + 1) =~= fm.take(j as int).push(fm[j as int]));
            assert(fm[j as int] == esc(d@.flags[j as int]));
            assert(out@ =~= base + tail_fields(fm.take(j + 1), '|'));
        }
        j += 1;
    }
    assert(fm.take(fm.len() as int) =~= fm);
    out.push('\n');
    proof {
        assert(fs[0] == dec_of(d@.id as nat));
        assert(fs.skip(1)[0] == dec_of(d@.datetime as nat));
        assert(fs.skip(1).skip(1) =~= fs.skip(2));
        assert(fs.skip(2)[0] == esc(d@.channel));
        assert(fs.skip(2).skip(1) =~= fs.skip(3));
        assert(fs.skip(3)[0] == esc(d@.content));
        assert(fs.skip(3).skip(1) =~= fs.skip(4));
        assert(fs.skip(4) =~= fm);
        assert(join_with(fs, '|') == fs[0] + tail_fields(fs.skip(1), '|'));
        assert(tail_fields(fs.skip(1), '|') == seq!['|'] + fs.skip(1)[0] + tail_fields(
            fs.skip(2),
            '|',
        ));
        assert(tail_fields(fs.skip(2), '|') == seq!['|'] + fs.skip(2)[0] + tail_fields(
            fs.skip(3),
            '|',
        ));
        assert(tail_fields(fs.skip(3), '|') == seq!['|'] + fs.skip(3)[0] + tail_fields(
            fs.skip(4),
            '|',
        ));
        assert(out@ =~= old(out)@ + render_datum(d@));
    }
}

/// Serializes the live entries of the log to the snapshot text, oldest
/// first, one line per datum.
pub fn snapshot(log: &EventLog) -> (r: String)
    ensures
        r@ == render_log(log.model()),
{
    let mut out: Vec<char> = Vec::new();
    let mut i: usize = 0;
    assert(log.model().take(0) =~= Seq::<DatumModel>::empty());
    while i < log.len()
        invariant
            i <= log.model().len(),
            out@ == render_log(log.model().take(i as int)),
        decreases log.model().len() - i,
    {
        push_datum(&mut out, log.get(i));
        proof {
            lemma_render_log_snoc(log.model().take(i as int), log.model()[i as int]);
            assert(log.model().take(i + 1) =~= log.model().take(i as int).push(
                log.model()[i as int],
            ));
        }
        i += 1;
    }
    assert(log.model().take(log.model().len() as int) =~= log.model());
    chars_to_string(&out)
}

// ---------------------------------------------------------------------------
// Executable parsing.
// ---------------------------------------------------------------------------
/// Prefixing a known head onto an optional unescape result.
spec fn opt_prepend(p: Seq<char>, o: Option<Seq<char>>) -> Option<Seq<char>> {
    match o {
        None => None,
        Some(t) => Some(p + t),
    }
}

/// Reads an escaped field back.
fn unesc_vec(s: &Vec<char>) -> (r: Option<Vec<char>>)
    ensures
        match r {
            Some(v) => unesc(s@) == Some(v@),
            None => unesc(s@) is None,
        },
{
    let mut out: Vec<char> = Vec::new();
    let mut i: usize = 0;
    proof {
        assert(s@.skip(0) =~= s@);
        match unesc(s@) {
            Some(t) => {
                assert(Seq::<char>::empty() + t =~= t);
            },
            None => {},
        }
    }
    while i < s.len()
        invariant
            i <= s@.len(),
            unesc(s@) == opt_prepend(out@, unesc(s@.skip(i as int))),
        decreases s@.len() - i,
    {
        let c = s[i];
        proof {
            assert(s@.skip(i as int)[0] == s@[i as int]);
            assert(s@.skip(i as int).skip(1) =~= s@.skip(i + 1));
            if i + 2 <= s@.len() {
                assert(s@.skip(i as int).skip(2) =~= s@.skip(i + 2));
            }
        }
        if c == '\\' {
            if i + 1 >= s.len() {
                assert(s@.skip(i as int).len() == 1);
                return None;
            }
            let e = s[i + 1];
            assert(s@.skip(i as int)[1] == s@[i + 1]);
            let dch: char = if e == '\\' {
                '\\'
            } else if e == 'p' {
                '|'
            } else if e == 'n' {
                '\n'
            } else {
                '\u{0}'
            };
            if !(e == '\\' || e == 'p' || e == 'n') {
                return None;
            }
            let ghost prev = out@;
            out.push(dch);
            proof {
                match unesc(s@.skip(i + 2)) {
                    Some(t) => {
                        assert(out@ + t =~= prev + (seq![dch] + t));
                    },
                    None => {},
                }
            }
            i += 2;
        } else {
            let ghost prev = out@;
            out.push(c);
            proof {
                match unesc(s@.skip(i + 1)) {
                    Some(t) => {
                        assert(out@ + t =~= prev + (seq![c] + t));
                    },
                    None => {},
                }
            }
            i += 1;
        }
    }
    assert(s@.skip(s@.len() as int) =~= Seq::<char>::empty());
    assert(out@ + Seq::<char>::empty() =~= out@);
    Some(out)
}

/// Reads one snapshot line back into a datum.
fn parse_line_vec(line: &Vec<char>) -> (r: Option<ChannelDatum>)
    ensures
        match r {
            Some(d) => parse_line_spec(line@) == Some(d@),
            None => parse_line_spec(line@) is None,
        },
{
    let fs = split_char(line, '|');
    let ghost fsm = split_on(line@, '|');
    if fs.len() < 4 {
        return None;
    }
    let id = match parse_dec(&fs[0]) {
        Some(v) => v,
        None => {
            return None;
        },
    };
    let dt = match parse_dec(&fs[1]) {
        Some(v) => v,
        None => {
            return None;
        },
    };
    let ch = match unesc_vec(&fs[2]) {
        Some(v) => v,
        None => {
            return None;
        },
    };
    let ct = match unesc_vec(&fs[3]) {
        Some(v) => v,
        None => {
            return None;
        },
    };
    let mut flags: Vec<String> = Vec::new();
    let mut j: usize = 4;
    proof {
        match unesc_all(fsm.skip(4)) {
            Some(t) => {
                assert(flags@.map_values(|f: String| f@) + t =~= t);
            },
            None => {},
        }
    }
    while j < fs.len()
        invariant
            4 <= j <= fs@.len(),
            fsm == parts_view(fs@),
            fsm == split_on(line@, '|'),
            fsm.len() >= 4,
            match unesc_all(fsm.skip(4)) {
                Some(all) => unesc_all(fsm.skip(j as int)) matches Some(t) && all
                    == flags@.map_values(|f: String| f@) + t,
                None => unesc_all(fsm.skip(j as int)) is None,
            },
        decreases fs@.len() - j,
    {
        proof {
            assert(fsm.skip(j as int)[0] == fsm[j as int]);
            assert(fsm.skip(j as int).skip(1) =~= fsm.skip(j + 1));
        }
        match unesc_vec(&fs[j]) {
            Some(f) => {
                let fstr = chars_to_string(&f);
                let ghost prev = flags@.map_values(|f2: String| f2@);
                flags.push(fstr);
                proof {
                    match unesc_all(fsm.skip(j + 1)) {
                        Some(t) => {
                            assert(flags@.map_values(|f2: String| f2@) =~= prev.push(f@));
                            assert(prev.push(f@) + t =~= prev + (seq![f@] + t));
                        },
                        None => {},
                    }
                }
            },
            None => {
                proof {
                    assert(unesc(fsm[j as int]) is None);
                    assert(unesc_all(fsm.skip(j as int)) is None);
                    assert(unesc_all(fsm.skip(4)) is None);
                    assert(parse_fields(fsm) is None);
                    assert(fsm == split_on(line@, '|'));
                    assert(parse_fields(split_on(line@, '|')) is None);
                    assert(parse_line_spec(line@) is None);
                }
                return None;
            },
        }
        j += 1;
    }
    assert(fsm.skip(fsm.len() as int) =~= Seq::<Seq<char>>::empty());
    let ghost fl = flags@.map_values(|f: String| f@);
    proof {
        assert(unesc_all(fsm.skip(4)) matches Some(all) && all =~= fl + Seq::<Seq<char>>::empty()
            && fl + Seq::<Seq<char>>::empty() =~= fl);
    }
    let chs = chars_to_string(&ch);
    let cts = chars_to_string(&ct);
    let d = ChannelDatum::from_parts(chs, cts, flags, id, dt);
    proof {
        let expect = parse_fields(fsm)->Some_0;
        assert(d@ =~= expect);
    }
    Some(d)
}

/// Reads a whole snapshot text back into its datums.
fn parse_snapshot_text(s: &str) -> (r: Option<Vec<ChannelDatum>>)
    ensures
        match r {
            Some(v) => spec_parse_snapshot(s@) == Some(v@.map_values(|d: ChannelDatum| d@)),
            None => spec_parse_snapshot(s@) is None,
        },
{
    let cs = str_to_chars(s);
    let parts = split_char(&cs, '\n');
    let ghost pm = split_on(s@, '\n');
    if parts[parts.len() - 1].len() != 0 {
        assert(pm.last().len() != 0);
        return None;
    }
    assert(pm.last().len() == 0);
    let ghost lines = pm.drop_last();
    let n = parts.len() - 1;
    assert(lines =~= parts_view(parts@).subrange(0, n as int));
    let mut out: Vec<ChannelDatum> = Vec::new();
    let mut i: usize = 0;
    proof {
        assert(lines.skip(0) =~= lines);
        match parse_lines(lines) {
            Some(t) => {
                assert(out@.map_values(|d: ChannelDatum| d@) + t =~= t);
            },
            None => {},
        }
    }
    while i < n
        invariant
            i <= n,
            n == parts@.len() - 1,
            pm == split_on(s@, '\n'),
            pm.last().len() == 0,
            lines == pm.drop_last(),
            lines == parts_view(parts@).subrange(0, n as int),
            lines.len() == n,
            match parse_lines(lines.skip(i as int)) {
                Some(t) => parse_lines(lines) matches Some(all) && all == out@.map_values(
                    |d: ChannelDatum| d@,
                ) + t,
                None => parse_lines(lines) is None,
            },
        decreases n - i,
    {
        proof {
            assert(lines.skip(i as int)[0] == lines[i as int]);
            assert(lines.skip(i as int).skip(1) =~= lines.skip(i + 1));
            assert(lines[i as int] == parts@[i as int]@);
        }
        match parse_line_vec(&parts[i]) {
            Some(d) => {
                let ghost dm = d@;
                let ghost prev = out@.map_values(|x: ChannelDatum| x@);
                out.push(d);
                proof {
                    match parse_lines(lines.skip(i + 1)) {
                        Some(t) => {
                            assert(out@.map_values(|x: ChannelDatum| x@) =~= prev.push(dm));
                            assert(prev.push(dm) + t =~= prev + (seq![dm] + t));
                        },
                        None => {},
                    }
                }
            },
            None => {
                proof {
                    assert(parse_line_spec(lines[i as int]) is None);
                    assert(parse_lines(lines.skip(i as int)) is None);
                    assert(parse_lines(lines) is None);
                    assert(lines == split_on(s@, '\n').drop_last());
                    assert(split_on(s@, '\n').last().len() == 0);
                    assert(spec_parse_snapshot(s@) is None);
                }
                return None;
            },
        }
        i += 1;
    }
    assert(lines.skip(lines.len() as int) =~= Seq::<Seq<char>>::empty());
    proof {
        let m = out@.map_values(|d: ChannelDatum| d@);
        assert(parse_lines(lines) matches Some(all) && all =~= m + Seq::<DatumModel>::empty()
            && m + Seq::<DatumModel>::empty() =~= m);
    }
    Some(out)
}

/// Deserializes a snapshot text and rebuilds the log: the text must read
/// back, its ids must be strictly increasing, and the generator is reset
/// past the largest restored id.
pub fn restore(text: &str, capacity: usize) -> (r: Option<EventLog>)
    requires
        capacity >= 1,
    ensures
        match spec_parse_snapshot(text@) {
            Some(ms) => {
                if restorable(ms) {
                    r matches Some(log) && log.wf() && log.spec_capacity() == capacity
                        && log.history() == ms && log.model() == if ms.len() <= capacity {
                        ms
                    } else {
                        ms.skip(ms.len() - capacity)
                    } && log.next_id() == if ms.len() == 0 {
                        1u64
                    } else {
                        (ms.last().id + 1) as u64
                    }
                } else {
                    r is None
                }
            },
            None => r is None,
        },
{
    match parse_snapshot_text(text) {
        Some(entries) => EventLog::restored(entries, capacity),
        None => None,
    }
}

} // verus!
