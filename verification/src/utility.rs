use vstd::prelude::*;

use crate::text::{chars_to_string, is_space, is_space_char, str_to_chars};

verus! {

/// The Unicode lowercasing of a string, as str::to_lowercase computes it.
pub uninterp spec fn lower_of(s: Seq<char>) -> Seq<char>;

/// Relies on str::to_lowercase: the result depends on the characters alone;
/// an empty string stays empty.
#[verifier::external_body]
pub fn to_lowercase(s: &str) -> (r: String)
    ensures
        r@ == lower_of(s@),
        s@.len() == 0 ==> r@.len() == 0,
{
    s.to_lowercase()
}

/// The view of an optional string.
pub open spec fn opt_str_view(o: Option<String>) -> Option<Seq<char>> {
    match o {
        Some(s) => Some(s@),
        None => None,
    }
}

/// The two-letter ISO 639-1 code of a three-letter ISO 639-3 code, where one
/// exists; a fixed-table lookup.
pub uninterp spec fn iso639_1_of(code3: Seq<char>) -> Option<Seq<char>>;

/// Relies on isolang::Language::from_639_3 and Language::to_639_1: both are
/// lookups in tables compiled into the crate, so the answer depends on the
/// code alone.
#[verifier::external_body]
fn iso639_3_to_1(l3: &str) -> (r: Option<String>)
    ensures
        opt_str_view(r) == iso639_1_of(l3@),
{
    isolang::Language::from_639_3(l3).and_then(|l| l.to_639_1()).map(|c| c.to_owned())
}

/// Converts a three-letter ISO 639 language code to its lowercased
/// two-letter form, where the table knows one.
pub fn iso_639_lang_code_3_to_2(l3: &str) -> (r: Option<String>)
    ensures
        match iso639_1_of(l3@) {
            Some(c2) => r matches Some(s) && s@ == lower_of(c2),
            None => r is None,
        },
{
    match iso639_3_to_1(l3) {
        Some(c2) => Some(to_lowercase(c2.as_str())),
        None => None,
    }
}

/// The leading run of characters before the first `-` or `_`.
pub open spec fn lang_prefix(s: Seq<char>) -> Seq<char>
    decreases s.len(),
{
    if s.len() == 0 {
        Seq::empty()
    } else if s[0] == '-' || s[0] == '_' {
        Seq::empty()
    } else {
        seq![s[0]] + lang_prefix(s.skip(1))
    }
}

/// Extracts the lowercased language part of an ISO 3166-like locale name:
/// everything before the first `-` or `_`.
pub fn iso_3166_to_lang_code(iso_3166: &str) -> (r: String)
    ensures
        r@ == lower_of(lang_prefix(iso_3166@)),
{
    let cs = str_to_chars(iso_3166);
    let mut head: Vec<char> = Vec::new();
    let mut i: usize = 0;
    proof {
        assert(cs@.skip(0) =~= cs@);
        assert(lang_prefix(cs@) == head@ + lang_prefix(cs@.skip(0)));
    }
    while i < cs.len() && cs[i] != '-' && cs[i] != '_'
        invariant
            i <= cs@.len(),
            lang_prefix(cs@) == head@ + lang_prefix(cs@.skip(i as int)),
            head@ == cs@.take(i as int),
        decreases cs@.len() - i,
    {
        let ghost prev = head@;
        head.push(cs[i]);
        proof {
            assert(cs@.skip(i as int)[0] == cs@[i as int]);
            assert(cs@.skip(i as int).skip(1) =~= cs@.skip(i + 1));
            assert(prev + (seq![cs@[i as int]] + lang_prefix(cs@.skip(i + 1))) =~= head@
                + lang_prefix(cs@.skip(i + 1)));
            assert(head@ =~= cs@.take(i + 1));
        }
        i += 1;
    }
    proof {
        let rest = cs@.skip(i as int);
        if i < cs@.len() {
            assert(rest[0] == cs@[i as int]);
            assert(lang_prefix(rest) =~= Seq::<char>::empty());
        } else {
            assert(rest =~= Seq::<char>::empty());
        }
        assert(head@ + Seq::<char>::empty() =~= head@);
    }
    let head_str = chars_to_string(&head);
    to_lowercase(head_str.as_str())
}

/// Whether the language tag names a language written without spaces.
pub open spec fn spec_is_cjk(lang: Seq<char>) -> bool {
    "ja"@.is_prefix_of(lang) || "ko"@.is_prefix_of(lang) || "zh"@.is_prefix_of(lang)
}

/// Removes every whitespace character when the language is written without
/// spaces (Japanese, Korean or Chinese); other languages keep their content
/// unchanged.
pub fn remove_whitespace_if_cjk(content: String, lang: &str) -> (r: String)
    ensures
        spec_is_cjk(lang@) ==> r@ == content@.filter(|c: char| !is_space(c)),
        !spec_is_cjk(lang@) ==> r@ == content@,
{
    let lc = str_to_chars(lang);
    let ja = str_to_chars("ja");
    let ko = str_to_chars("ko");
    let zh = str_to_chars("zh");
    let cjk = crate::text::starts_with_chars(&lc, &ja) || crate::text::starts_with_chars(
        &lc,
        &ko,
    ) || crate::text::starts_with_chars(&lc, &zh);
    if !cjk {
        return content;
    }
    let cs = str_to_chars(content.as_str());
    let mut out: Vec<char> = Vec::new();
    let mut i: usize = 0;
    proof {
        reveal(Seq::filter);
        assert(cs@.take(0).filter(|c: char| !is_space(c)) =~= Seq::<char>::empty());
    }
    while i < cs.len()
        invariant
            i <= cs@.len(),
            out@ == cs@.take(i as int).filter(|c: char| !is_space(c)),
        decreases cs@.len() - i,
    {
        let c = cs[i];
        if !is_space_char(c) {
            out.push(c);
        }
        proof {
            reveal(Seq::filter);
            assert(cs@.take(i + 1).drop_last() =~= cs@.take(i as int));
            assert(cs@.take(i + 1).last() == cs@[i as int]);
            assert(out@ =~= cs@.take(i + 1).filter(|c: char| !is_space(c)));
        }
        i += 1;
    }
    assert(cs@.take(cs@.len() as int) =~= cs@);
    chars_to_string(&out)
}

} // verus!
