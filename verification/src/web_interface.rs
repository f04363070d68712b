use vstd::prelude::*;

use vstd::string::StringExecFns;

use crate::text::{starts_with_chars, str_to_chars};

verus! {

/// A text frame pushed to a connected client.
#[derive(Debug)]
pub struct StringMessage(pub String);

/// The table cells of one row, each wrapped in its tag.
pub open spec fn tds_spec(vs: Seq<Seq<char>>) -> Seq<char>
    decreases vs.len(),
{
    if vs.len() == 0 {
        Seq::empty()
    } else {
        "<td>"@ + vs[0] + "</td>"@ + tds_spec(vs.skip(1))
    }
}

/// The header cells of one row, each wrapped in its styled tag.
pub open spec fn ths_spec(vs: Seq<Seq<char>>) -> Seq<char>
    decreases vs.len(),
{
    if vs.len() == 0 {
        Seq::empty()
    } else {
        "<th style=\"padding-right: 1em; text-align: left\">"@ + vs[0] + "</th>"@ + ths_spec(
            vs.skip(1),
        )
    }
}

/// One section of the status page: a heading, the content and a rule.
pub fn make_section(title: &str, content: &str) -> (r: String)
    ensures
        r@ == "<section>\n"@ + "<h2>"@ + title@ + "</h2>\n"@ + content@ + "</section>\n<hr>\n"@,
{
    let mut section = String::new();
    section.append("<section>\n");
    section.append("<h2>");
    section.append(title);
    section.append("</h2>\n");
    section.append(content);
    section.append("</section>\n<hr>\n");
    proof {
        assert(section@ =~= "<section>\n"@ + "<h2>"@ + title@ + "</h2>\n"@ + content@
            + "</section>\n<hr>\n"@);
    }
    section
}

/// One table row of data cells.
pub fn make_tr_td(vs: Vec<String>) -> (r: String)
    ensures
        r@ == "<tr>"@ + tds_spec(vs@.map_values(|v: String| v@)) + "</tr>"@,
{
    let ghost vsm = vs@.map_values(|v: String| v@);
    let mut tr = String::new();
    tr.append("<tr>");
    let mut i: usize = 0;
    proof {
        assert(vsm.skip(0) =~= vsm);
    }
    while i < vs.len()
        invariant
            i <= vs@.len(),
            vsm == vs@.map_values(|v: String| v@),
            "<tr>"@ + tds_spec(vsm) == tr@ + tds_spec(vsm.skip(i as int)),
        decreases vs@.len() - i,
    {
        proof {
            assert(vsm.skip(i as int)[0] == vsm[i as int]);
            assert(vsm.skip(i as int).skip(1) =~= vsm.skip(i + 1));
            assert(vsm[i as int] == vs@[i as int]@);
        }
        let ghost prev = tr@;
        tr.append("<td>");
        tr.append(vs[i].as_str());
        tr.append("</td>");
        proof {
            assert(prev + ("<td>"@ + vsm[i as int] + "</td>"@ + tds_spec(vsm.skip(i + 1)))
                =~= tr@ + tds_spec(vsm.skip(i + 1)));
        }
        i += 1;
    }
    proof {
        assert(vsm.skip(vsm.len() as int) =~= Seq::<Seq<char>>::empty());
        assert(tds_spec(vsm.skip(vsm.len() as int)) == Seq::<char>::empty());
        assert(tr@ + Seq::<char>::empty() =~= tr@);
    }
    tr.append("</tr>");
    tr
}

/// One table row of header cells.
pub fn make_tr_th(vs: Vec<String>) -> (r: String)
    ensures
        r@ == "<tr>"@ + ths_spec(vs@.map_values(|v: String| v@)) + "</tr>"@,
{
    let ghost vsm = vs@.map_values(|v: String| v@);
    let mut tr = String::new();
    tr.append("<tr>");
    let mut i: usize = 0;
    proof {
        assert(vsm.skip(0) =~= vsm);
    }
    while i < vs.len()
        invariant
            i <= vs@.len(),
            vsm == vs@.map_values(|v: String| v@),
            "<tr>"@ + ths_spec(vsm) == tr@ + ths_spec(vsm.skip(i as int)),
        decreases vs@.len() - i,
    {
        proof {
            assert(vsm.skip(i as int)[0] == vsm[i as int]);
            assert(vsm.skip(i as int).skip(1) =~= vsm.skip(i + 1));
            assert(vsm[i as int] == vs@[i as int]@);
        }
        let ghost prev = tr@;
        tr.append("<th style=\"padding-right: 1em; text-align: left\">");
        tr.append(vs[i].as_str());
        tr.append("</th>");
        proof {
            assert(prev + ("<th style=\"padding-right: 1em; text-align: left\">"@
                + vsm[i as int] + "</th>"@ + ths_spec(vsm.skip(i + 1))) =~= tr@ + ths_spec(
                vsm.skip(i + 1),
            ));
        }
        i += 1;
    }
    proof {
        assert(vsm.skip(vsm.len() as int) =~= Seq::<Seq<char>>::empty());
        assert(ths_spec(vsm.skip(vsm.len() as int)) == Seq::<char>::empty());
        assert(tr@ + Seq::<char>::empty() =~= tr@);
    }
    tr.append("</tr>");
    tr
}


/// The operator commands the ingress transport intercepts before pushing.
#[derive(Clone, Copy, Debug, PartialEq, Eq, Structural)]
pub enum IngressCommand {
    Quit,
    Save,
    Load,
    Other,
}

/// Which operator command an ingress payload's content names: quitting,
/// persisting or reloading the log, checked in that order by prefix;
/// anything else is ordinary input.
pub fn ingress_command(content: &str) -> (r: IngressCommand)
    ensures
        r == (if "/quit"@.is_prefix_of(content@) {
            IngressCommand::Quit
        } else if "/save"@.is_prefix_of(content@) {
            IngressCommand::Save
        } else if "/load"@.is_prefix_of(content@) {
            IngressCommand::Load
        } else {
            IngressCommand::Other
        }),
{
    let cs = str_to_chars(content);
    let quit = str_to_chars("/quit");
    let save = str_to_chars("/save");
    let load = str_to_chars("/load");
    if starts_with_chars(&cs, &quit) {
        IngressCommand::Quit
    } else if starts_with_chars(&cs, &save) {
        IngressCommand::Save
    } else if starts_with_chars(&cs, &load) {
        IngressCommand::Load
    } else {
        IngressCommand::Other
    }
}

} // verus!
