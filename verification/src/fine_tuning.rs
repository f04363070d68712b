use vstd::prelude::*;

use crate::text::{chars_to_string, str_to_chars};

verus! {

// ---------------------------------------------------------------------------
// The data shapes of the fine-tuning collaborator's interface.
// ---------------------------------------------------------------------------
/// A fine-tuning job as the collaborator reports it.
#[derive(Debug)]
pub struct FineTuningJobObject {
    pub id: String,
    pub created_at: usize,
    pub error: Option<ApiErrorDetail>,
    pub fine_tuned_model: Option<String>,
    pub hyperparameters: Hyperparameters,
    pub model: String,
    pub object: String,
    pub organization_id: String,
    pub result_files: Vec<String>,
    pub status: String,
    pub trained_tokens: Option<usize>,
    pub training_file: String,
    pub validation_file: Option<String>,
}

#[derive(Debug)]
pub struct Hyperparameters {
    pub n_epochs: StringOrInteger,
}

/// A value the collaborator writes either as a string or as an integer.
#[derive(Debug)]
pub enum StringOrInteger {
    StringValue(String),
    Integer(usize),
}

impl Default for StringOrInteger {
    /// The collaborator's default epoch selection.
    fn default() -> (r: Self)
        ensures
            r matches StringOrInteger::StringValue(s) && s@ == "auto"@,
    {
        StringOrInteger::StringValue("auto".to_owned())
    }
}

/// A request to create one fine-tuning job.
#[derive(Debug)]
pub struct FineTuningRequest {
    pub model: String,
    pub training_file: String,
    pub hyperparameters: Option<Hyperparameters>,
    pub suffix: Option<String>,
    pub validation_file: Option<String>,
}

/// An uploaded file as the collaborator reports it.
#[derive(Debug)]
pub struct FileObject {
    pub id: String,
    pub bytes: usize,
    pub created_at: usize,
    pub filename: String,
    pub object: String,
    pub purpose: String,
    pub status: String,
    pub status_details: Option<String>,
}

#[derive(Debug)]
pub struct ListFilesResponse {
    pub data: Vec<FileObject>,
    pub object: String,
}

#[derive(Debug)]
pub struct ApiError {
    pub error: Option<ApiErrorDetail>,
}

#[derive(Debug)]
pub struct ApiErrorDetail {
    pub kind: Option<String>,
    pub param: Option<String>,
    pub message: Option<String>,
    pub code: Option<String>,
}

#[derive(Debug)]
pub struct FileDeletionStatus {
    pub id: String,
    pub object: String,
    pub deleted: bool,
}

/// A file's name together with its bytes, for local handling.
#[derive(Debug)]
pub struct NamedData {
    pub name: String,
    pub data: Vec<u8>,
}

// ---------------------------------------------------------------------------
// The corpus line formats.
// ---------------------------------------------------------------------------
/// Whether a CSV field must be quoted.
pub open spec fn csv_needs_quote(s: Seq<char>) -> bool {
    s.contains(',') || s.contains('"') || s.contains('\n') || s.contains('\r')
}

/// The field with every quote doubled.
pub open spec fn csv_doubled(s: Seq<char>) -> Seq<char>
    decreases s.len(),
{
    if s.len() == 0 {
        Seq::empty()
    } else {
        (if s[0] == '"' {
            seq!['"', '"']
        } else {
            seq![s[0]]
        }) + csv_doubled(s.skip(1))
    }
}

/// A CSV field: quoted, with doubled quotes, exactly when it holds a comma,
/// a quote or a line break.
pub open spec fn csv_field(s: Seq<char>) -> Seq<char> {
    if csv_needs_quote(s) {
        seq!['"'] + csv_doubled(s) + seq!['"']
    } else {
        s
    }
}

/// One corpus CSV record: the user content and the assistant content.
pub open spec fn csv_record_spec(user: Seq<char>, assistant: Seq<char>) -> Seq<char> {
    csv_field(user) + seq![','] + csv_field(assistant) + seq!['\n']
}

/// Appends the CSV form of one field.
fn push_csv_field(out: &mut Vec<char>, s: &Vec<char>)
    ensures
        final(out)@ == old(out)@ + csv_field(s@),
{
    let needs = crate::text::chars_contain(s, ',') || crate::text::chars_contain(s, '"')
        || crate::text::chars_contain(s, '\n') || crate::text::chars_contain(s, '\r');
    if !needs {
        let mut k: usize = 0;
        while k < s.len()
            invariant
                k <= s@.len(),
                !csv_needs_quote(s@),
                out@ == old(out)@ + s@.take(k as int),
            decreases s@.len() - k,
        {
            out.push(s[k]);
            proof {
                assert(s@.take(k + 1) =~= s@.take(k as int).push(s@[k as int]));
                assert(out@ =~= old(out)@ + s@.take(k + 1));
            }
            k += 1;
        }
        proof {
            assert(s@.take(s@.len() as int) =~= s@);
        }
        return ;
    }
    out.push('"');
    let ghost base = out@;
    let mut k: usize = 0;
    proof {
        assert(s@.skip(0) =~= s@);
        assert(s@.take(0) =~= Seq::<char>::empty());
        assert(csv_doubled(s@.take(0)) == Seq::<char>::empty());
        assert(out@ =~= base + csv_doubled(s@.take(0)));
        assert(csv_doubled(s@.take(0)) + csv_doubled(s@.skip(0)) =~= csv_doubled(s@));
    }
    while k < s.len()
        invariant
            k <= s@.len(),
            csv_needs_quote(s@),
            out@ == base + csv_doubled(s@.take(k as int)),
            csv_doubled(s@) == csv_doubled(s@.take(k as int)) + csv_doubled(s@.skip(k as int)),
        decreases s@.len() - k,
    {
        let c = s[k];
        proof {
            assert(s@.skip(k as int)[0] == s@[k as int]);
            assert(s@.skip(k as int).skip(1) =~= s@.skip(k + 1));
            lemma_csv_doubled_snoc(s@.take(k as int), s@[k as int]);
            assert(s@.take(k + 1) =~= s@.take(k as int).push(s@[k as int]));
        }
        if c == '"' {
            out.push('"');
            out.push('"');
        } else {
            out.push(c);
        }
        proof {
            assert(out@ =~= base + csv_doubled(s@.take(k + 1)));
            assert(csv_doubled(s@) == csv_doubled(s@.take(k + 1)) + csv_doubled(
                s@.skip(k + 1),
            )) by {
                assert(csv_doubled(s@.skip(k as int)) == (if s@[k as int] == '"' {
                    seq!['"', '"']
                } else {
                    seq![s@[k as int]]
                }) + csv_doubled(s@.skip(k + 1)));
                lemma_csv_doubled_snoc(s@.take(k as int), s@[k as int]);
                assert(csv_doubled(s@.take(k as int)) + ((if s@[k as int] == '"' {
                    seq!['"', '"']
                } else {
                    seq![s@[k as int]]
                }) + csv_doubled(s@.skip(k + 1))) =~= csv_doubled(s@.take(k + 1))
                    + csv_doubled(s@.skip(k + 1)));
            }
        }
        k += 1;
    }
    proof {
        assert(s@.take(s@.len() as int) =~= s@);
        assert(s@.skip(s@.len() as int) =~= Seq::<char>::empty());
        assert(csv_doubled(s@) =~= csv_doubled(s@) + Seq::<char>::empty());
    }
    out.push('"');
    proof {
        assert(out@ =~= old(out)@ + (seq!['"'] + csv_doubled(s@) + seq!['"']));
    }
}

/// Doubling one more character extends the doubled text.
proof fn lemma_csv_doubled_snoc(t: Seq<char>, c: char)
    ensures
        csv_doubled(t.push(c)) == csv_doubled(t) + (if c == '"' {
            seq!['"', '"']
        } else {
            seq![c]
        }),
    decreases t.len(),
{
    let h = if c == '"' {
        seq!['"', '"']
    } else {
        seq![c]
    };
    if t.len() == 0 {
        assert(t.push(c)[0] == c);
        assert(t.push(c).skip(1) =~= Seq::<char>::empty());
        assert(csv_doubled(t.push(c).skip(1)) == Seq::<char>::empty());
        assert(csv_doubled(t.push(c)) =~= h);
        assert(csv_doubled(t) + h =~= h);
    } else {
        assert(t.push(c)[0] == t[0]);
        assert(t.push(c).skip(1) =~= t.skip(1).push(c));
        lemma_csv_doubled_snoc(t.skip(1), c);
        let h0 = if t[0] == '"' {
            seq!['"', '"']
        } else {
            seq![t[0]]
        };
        assert(h0 + (csv_doubled(t.skip(1)) + h) =~= (h0 + csv_doubled(t.skip(1))) + h);
    }
}

/// The header record written when the corpus CSV file is created.
pub fn csv_header() -> (r: String)
    ensures
        r@ == csv_record_spec("user"@, "assistant"@),
{
    let r: String = "user,assistant\n".to_owned();
    proof {
        reveal_strlit("user,assistant\n");
        reveal_strlit("user");
        reveal_strlit("assistant");
        assert(!csv_needs_quote("user"@));
        assert(!csv_needs_quote("assistant"@));
        assert(r@ =~= csv_record_spec("user"@, "assistant"@));
    }
    r
}

/// One corpus CSV record for a (user, assistant) exchange, line break
/// included.
pub fn csv_record(user: &str, assistant: &str) -> (r: String)
    ensures
        r@ == csv_record_spec(user@, assistant@),
{
    let uc = str_to_chars(user);
    let ac = str_to_chars(assistant);
    let mut out: Vec<char> = Vec::new();
    push_csv_field(&mut out, &uc);
    out.push(',');
    push_csv_field(&mut out, &ac);
    out.push('\n');
    proof {
        assert(out@ =~= csv_record_spec(user@, assistant@));
    }
    chars_to_string(&out)
}


/// A lowercase hexadecimal digit.
pub open spec fn hex_digit(d: int) -> char {
    if d == 0 {
        '0'
    } else if d == 1 {
        '1'
    } else if d == 2 {
        '2'
    } else if d == 3 {
        '3'
    } else if d == 4 {
        '4'
    } else if d == 5 {
        '5'
    } else if d == 6 {
        '6'
    } else if d == 7 {
        '7'
    } else if d == 8 {
        '8'
    } else if d == 9 {
        '9'
    } else if d == 10 {
        'a'
    } else if d == 11 {
        'b'
    } else if d == 12 {
        'c'
    } else if d == 13 {
        'd'
    } else if d == 14 {
        'e'
    } else {
        'f'
    }
}

/// The JSON escape of one character: quotes and backslashes escaped, the
/// named control characters short-escaped, every other control character
/// written as a unicode escape.
pub open spec fn json_esc_char(c: char) -> Seq<char> {
    let u = c as u32;
    if c == '"' {
        seq!['\\', '"']
    } else if c == '\\' {
        seq!['\\', '\\']
    } else if u == 8 {
        seq!['\\', 'b']
    } else if u == 9 {
        seq!['\\', 't']
    } else if u == 10 {
        seq!['\\', 'n']
    } else if u == 12 {
        seq!['\\', 'f']
    } else if u == 13 {
        seq!['\\', 'r']
    } else if u < 32 {
        seq!['\\', 'u', '0', '0', hex_digit(u as int / 16), hex_digit(u as int % 16)]
    } else {
        seq![c]
    }
}

/// The JSON escape of a string.
pub open spec fn json_esc(s: Seq<char>) -> Seq<char>
    decreases s.len(),
{
    if s.len() == 0 {
        Seq::empty()
    } else {
        json_esc_char(s[0]) + json_esc(s.skip(1))
    }
}

/// Escaping one more character extends the escape.
proof fn lemma_json_esc_snoc(t: Seq<char>, c: char)
    ensures
        json_esc(t.push(c)) == json_esc(t) + json_esc_char(c),
    decreases t.len(),
{
    if t.len() == 0 {
        assert(t.push(c)[0] == c);
        assert(t.push(c).skip(1) =~= Seq::<char>::empty());
        assert(json_esc(t.push(c).skip(1)) == Seq::<char>::empty());
        assert(json_esc(t.push(c)) =~= json_esc_char(c));
        assert(json_esc(t) + json_esc_char(c) =~= json_esc_char(c));
    } else {
        assert(t.push(c)[0] == t[0]);
        assert(t.push(c).skip(1) =~= t.skip(1).push(c));
        lemma_json_esc_snoc(t.skip(1), c);
        assert(json_esc_char(t[0]) + (json_esc(t.skip(1)) + json_esc_char(c)) =~= (
        json_esc_char(t[0]) + json_esc(t.skip(1))) + json_esc_char(c));
    }
}

/// Appends the JSON escape of the characters.
fn push_json_esc(out: &mut Vec<char>, s: &Vec<char>)
    ensures
        final(out)@ == old(out)@ + json_esc(s@),
{
    let mut k: usize = 0;
    proof {
        assert(s@.take(0) =~= Seq::<char>::empty());
        assert(json_esc(s@.take(0)) == Seq::<char>::empty());
        assert(old(out)@ + json_esc(s@.take(0)) =~= old(out)@);
    }
    while k < s.len()
        invariant
            k <= s@.len(),
            out@ == old(out)@ + json_esc(s@.take(k as int)),
        decreases s@.len() - k,
    {
        let c = s[k];
        proof {
            lemma_json_esc_snoc(s@.take(k as int), s@[k as int]);
            assert(s@.take(k + 1) =~= s@.take(k as int).push(s@[k as int]));
        }
        let u = c as u32;
        if c == '"' {
            out.push('\\');
            out.push('"');
        } else if c == '\\' {
            out.push('\\');
            out.push('\\');
        } else if u == 8 {
            out.push('\\');
            out.push('b');
        } else if u == 9 {
            out.push('\\');
            out.push('t');
        } else if u == 10 {
            out.push('\\');
            out.push('n');
        } else if u == 12 {
            out.push('\\');
            out.push('f');
        } else if u == 13 {
            out.push('\\');
            out.push('r');
        } else if u < 32 {
            out.push('\\');
            out.push('u');
            out.push('0');
            out.push('0');
            let hi = u / 16;
            let lo = u % 16;
            let hic: char = if hi == 0 {
                '0'
            } else {
                '1'
            };
            let loc: char = if lo == 0 {
                '0'
            } else if lo == 1 {
                '1'
            } else if lo == 2 {
                '2'
            } else if lo == 3 {
                '3'
            } else if lo == 4 {
                '4'
            } else if lo == 5 {
                '5'
            } else if lo == 6 {
                '6'
            } else if lo == 7 {
                '7'
            } else if lo == 8 {
                '8'
            } else if lo == 9 {
                '9'
            } else if lo == 10 {
                'a'
            } else if lo == 11 {
                'b'
            } else if lo == 12 {
                'c'
            } else if lo == 13 {
                'd'
            } else if lo == 14 {
                'e'
            } else {
                'f'
            };
            proof {
                assert(hic == hex_digit(u as int / 16));
                assert(loc == hex_digit(u as int % 16));
            }
            out.push(hic);
            out.push(loc);
        } else {
            out.push(c);
        }
        proof {
            assert(out@ =~= old(out)@ + json_esc(s@.take(k + 1)));
        }
        k += 1;
    }
    proof {
        assert(s@.take(s@.len() as int) =~= s@);
    }
}

/// One corpus line in the JSON-lines format: the optional system
/// instruction, the user content and the assistant content as role-tagged
/// messages, line break included.
pub open spec fn jsonl_line_spec(
    custom_instructions: Option<Seq<char>>,
    user: Seq<char>,
    assistant: Seq<char>,
) -> Seq<char> {
    "{\"messages\":["@ + (match custom_instructions {
        Some(ci) => "{\"role\":\"system\",\"content\":\""@ + json_esc(ci) + "\"},"@,
        None => Seq::empty(),
    }) + "{\"role\":\"user\",\"content\":\""@ + json_esc(user)
        + "\"},{\"role\":\"assistant\",\"content\":\""@ + json_esc(assistant) + "\"}]}"@
        + "\n"@
}

/// Builds one corpus line in the JSON-lines format.
pub fn jsonl_record(
    custom_instructions: Option<&String>,
    user: &str,
    assistant: &str,
) -> (r: String)
    ensures
        r@ == jsonl_line_spec(
            match custom_instructions {
                Some(ci) => Some(ci@),
                None => None,
            },
            user@,
            assistant@,
        ),
{
    let mut out: Vec<char> = Vec::new();
    let head = str_to_chars("{\"messages\":[");
    push_plain(&mut out, &head);
    match custom_instructions {
        Some(ci) => {
            let p = str_to_chars("{\"role\":\"system\",\"content\":\"");
            push_plain(&mut out, &p);
            let cic = str_to_chars(ci.as_str());
            push_json_esc(&mut out, &cic);
            let q = str_to_chars("\"},");
            push_plain(&mut out, &q);
        },
        None => {},
    }
    let p2 = str_to_chars("{\"role\":\"user\",\"content\":\"");
    push_plain(&mut out, &p2);
    let uc = str_to_chars(user);
    push_json_esc(&mut out, &uc);
    let p3 = str_to_chars("\"},{\"role\":\"assistant\",\"content\":\"");
    push_plain(&mut out, &p3);
    let ac = str_to_chars(assistant);
    push_json_esc(&mut out, &ac);
    let p4 = str_to_chars("\"}]}");
    push_plain(&mut out, &p4);
    let nl = str_to_chars("\n");
    push_plain(&mut out, &nl);
    proof {
        assert(out@ =~= jsonl_line_spec(
            match custom_instructions {
                Some(ci) => Some(ci@),
                None => None,
            },
            user@,
            assistant@,
        ));
    }
    chars_to_string(&out)
}

/// Appends the characters as they are.
fn push_plain(out: &mut Vec<char>, s: &Vec<char>)
    ensures
        final(out)@ == old(out)@ + s@,
{
    let mut k: usize = 0;
    proof {
        assert(old(out)@ + s@.take(0) =~= old(out)@);
    }
    while k < s.len()
        invariant
            k <= s@.len(),
            out@ == old(out)@ + s@.take(k as int),
        decreases s@.len() - k,
    {
        out.push(s[k]);
        proof {
            assert(s@.take(k + 1) =~= s@.take(k as int).push(s@[k as int]));
            assert(out@ =~= old(out)@ + s@.take(k + 1));
        }
        k += 1;
    }
    proof {
        assert(s@.take(s@.len() as int) =~= s@);
    }
}

} // verus!
