use vstd::prelude::*;

use vstd::string::StrSliceExecFns;

verus! {

/// The decimal digit character for a value between 0 and 9.
pub open spec fn digit_char(d: int) -> char {
    if d == 0 {
        '0'
    } else if d == 1 {
        '1'
    } else if d == 2 {
        '2'
    } else if d == 3 {
        '3'
    } else if d == 4 {
        '4'
    } else if d == 5 {
        '5'
    } else if d == 6 {
        '6'
    } else if d == 7 {
        '7'
    } else if d == 8 {
        '8'
    } else {
        '9'
    }
}

/// The value of a decimal digit character, or -1 for any other character.
pub open spec fn digit_val(c: char) -> int {
    if c == '0' {
        0
    } else if c == '1' {
        1
    } else if c == '2' {
        2
    } else if c == '3' {
        3
    } else if c == '4' {
        4
    } else if c == '5' {
        5
    } else if c == '6' {
        6
    } else if c == '7' {
        7
    } else if c == '8' {
        8
    } else if c == '9' {
        9
    } else {
        -1
    }
}

/// The usual decimal rendering of a number: no sign, no leading zeros, and
/// `0` for zero.
pub open spec fn dec_of(n: nat) -> Seq<char>
    decreases n,
{
    if n < 10 {
        seq![digit_char(n as int)]
    } else {
        dec_of(n / 10).push(digit_char((n % 10) as int))
    }
}

/// Left-to-right accumulation of a decimal string into a 64-bit value;
/// answers nothing on a non-digit or once the value would no longer fit.
pub open spec fn parse_dec_rec(s: Seq<char>, i: int, acc: u64) -> Option<u64>
    decreases s.len() - i,
{
    if i < 0 || i >= s.len() {
        Some(acc)
    } else {
        let d = digit_val(s[i]);
        if d < 0 {
            None
        } else if acc > (u64::MAX - d) / 10 {
            None
        } else {
            parse_dec_rec(s, i + 1, (acc * 10 + d) as u64)
        }
    }
}

/// The decimal reading of a string: at least one digit, no redundant leading
/// zero, and a value that fits in 64 bits.
pub open spec fn spec_parse_dec(s: Seq<char>) -> Option<u64> {
    if s.len() == 0 {
        None
    } else if s.len() > 1 && s[0] == '0' {
        None
    } else {
        parse_dec_rec(s, 0, 0)
    }
}

/// A decimal rendering consists of digits only.
pub proof fn lemma_dec_of_digits(n: nat)
    ensures
        dec_of(n).len() >= 1,
        forall|i: int| 0 <= i < dec_of(n).len() ==> 0 <= digit_val(#[trigger] dec_of(n)[i]) <= 9,
        n >= 1 ==> digit_val(dec_of(n)[0]) >= 1,
    decreases n,
{
    if n < 10 {
    } else {
        lemma_dec_of_digits(n / 10);
        assert forall|i: int| 0 <= i < dec_of(n).len() implies 0 <= digit_val(
            #[trigger] dec_of(n)[i],
        ) <= 9 by {
            if i < dec_of(n / 10).len() {
                assert(dec_of(n)[i] == dec_of(n / 10)[i]);
            }
        }
        assert(dec_of(n)[0] == dec_of(n / 10)[0]);
    }
}

/// Appending one digit to the input extends the accumulation by one step.
proof fn lemma_parse_rec_push(s: Seq<char>, c: char, i: int, acc: u64)
    requires
        0 <= i <= s.len(),
    ensures
        parse_dec_rec(s.push(c), i, acc) == match parse_dec_rec(s, i, acc) {
            Some(v) => {
                let d = digit_val(c);
                if d < 0 {
                    None::<u64>
                } else if v > (u64::MAX - d) / 10 {
                    None::<u64>
                } else {
                    Some((v * 10 + d) as u64)
                }
            },
            None => None::<u64>,
        },
    decreases s.len() - i,
{
    if i >= s.len() {
        assert(s.push(c)[i] == c);
        assert(parse_dec_rec(s, i, acc) == Some(acc));
        let d = digit_val(c);
        if d >= 0 && acc <= (u64::MAX - d) / 10 {
            assert(parse_dec_rec(s.push(c), i + 1, (acc * 10 + d) as u64) == Some(
                (acc * 10 + d) as u64,
            ));
        }
    } else {
        assert(s.push(c)[i] == s[i]);
        let d0 = digit_val(s[i]);
        if d0 >= 0 && acc <= (u64::MAX - d0) / 10 {
            lemma_parse_rec_push(s, c, i + 1, (acc * 10 + d0) as u64);
        }
    }
}

/// Reading back a decimal rendering restores the number.
pub proof fn lemma_parse_dec_of(n: u64)
    ensures
        spec_parse_dec(dec_of(n as nat)) == Some(n),
{
    lemma_dec_of_digits(n as nat);
    lemma_parse_rec_of(n);
    if n >= 1 {
        assert(dec_of(n as nat)[0] != '0');
    }
}

proof fn lemma_parse_rec_of(n: u64)
    ensures
        parse_dec_rec(dec_of(n as nat), 0, 0) == Some(n),
    decreases n,
{
    if n < 10 {
        let s = dec_of(n as nat);
        assert(s == seq![digit_char(n as int)]);
        assert(digit_val(s[0]) == n as int);
        assert(parse_dec_rec(s, 1, n) == Some(n));
    } else {
        let hi = n / 10;
        let d = n % 10;
        lemma_parse_rec_of(hi);
        lemma_parse_rec_push(dec_of(hi as nat), digit_char(d as int), 0, 0);
        assert(digit_val(digit_char(d as int)) == d as int);
        assert(hi <= (u64::MAX - d as int) / 10) by {
            assert(hi * 10 + d == n) by {
                vstd::arithmetic::div_mod::lemma_fundamental_div_mod(n as int, 10);
            }
        }
        assert(hi * 10 + d == n) by {
            vstd::arithmetic::div_mod::lemma_fundamental_div_mod(n as int, 10);
        }
    }
}

/// The characters of a string slice, in order.
pub fn str_to_chars(s: &str) -> (r: Vec<char>)
    ensures
        r@ == s@,
{
    let n = s.unicode_len();
    let mut v: Vec<char> = Vec::new();
    let mut i: usize = 0;
    while i < n
        invariant
            i <= n,
            n == s@.len(),
            v@ == s@.take(i as int),
        decreases n - i,
    {
        v.push(s.get_char(i));
        proof {
            assert(s@.take(i + 1) =~= s@.take(i as int).push(s@[i as int]));
        }
        i += 1;
    }
    proof {
        assert(s@.take(n as int) =~= s@);
    }
    v
}

/// Relies on String's FromIterator over characters: collecting the
/// characters of the vector yields the string whose characters they are.
#[verifier::external_body]
pub fn chars_to_string(v: &Vec<char>) -> (r: String)
    ensures
        r@ == v@,
{
    v.iter().collect()
}

/// Appends the decimal rendering of the number.
pub fn push_dec(out: &mut Vec<char>, n: u64)
    ensures
        final(out)@ == old(out)@ + dec_of(n as nat),
    decreases n,
{
    if n >= 10 {
        push_dec(out, n / 10);
    }
    let d = n % 10;
    let c: char = if d == 0 {
        '0'
    } else if d == 1 {
        '1'
    } else if d == 2 {
        '2'
    } else if d == 3 {
        '3'
    } else if d == 4 {
        '4'
    } else if d == 5 {
        '5'
    } else if d == 6 {
        '6'
    } else if d == 7 {
        '7'
    } else if d == 8 {
        '8'
    } else {
        '9'
    };
    assert(c == digit_char(d as int));
    out.push(c);
    proof {
        if n < 10 {
            assert(d == n);
            assert(old(out)@ + dec_of(n as nat) =~= final(out)@);
        } else {
            assert(old(out)@ + dec_of(n as nat) =~= final(out)@);
        }
    }
}

/// Reads the whole character vector as a decimal number.
pub fn parse_dec(s: &Vec<char>) -> (r: Option<u64>)
    ensures
        r == spec_parse_dec(s@),
{
    if s.len() == 0 {
        return None;
    }
    if s.len() > 1 && s[0] == '0' {
        return None;
    }
    let mut acc: u64 = 0;
    let mut i: usize = 0;
    while i < s.len()
        invariant
            0 <= i <= s@.len(),
            parse_dec_rec(s@, 0, 0) == parse_dec_rec(s@, i as int, acc),
        decreases s@.len() - i,
    {
        let c = s[i];
        let d: u64 = if c == '0' {
            0
        } else if c == '1' {
            1
        } else if c == '2' {
            2
        } else if c == '3' {
            3
        } else if c == '4' {
            4
        } else if c == '5' {
            5
        } else if c == '6' {
            6
        } else if c == '7' {
            7
        } else if c == '8' {
            8
        } else if c == '9' {
            9
        } else {
            10
        };
        if d == 10 {
            assert(digit_val(s@[i as int]) < 0);
            return None;
        }
        assert(digit_val(s@[i as int]) == d as int);
        if acc > (u64::MAX - d) / 10 {
            return None;
        }
        acc = acc * 10 + d;
        i += 1;
    }
    Some(acc)
}

/// No character of the string is `sep`.
pub open spec fn sep_free(s: Seq<char>, sep: char) -> bool {
    forall|i: int| 0 <= i < s.len() ==> s[i] != sep
}

/// Splitting at every occurrence of `sep`; always at least one part.
pub open spec fn split_on(s: Seq<char>, sep: char) -> Seq<Seq<char>>
    decreases s.len(),
{
    if s.len() == 0 {
        seq![Seq::<char>::empty()]
    } else if s[0] == sep {
        seq![Seq::<char>::empty()] + split_on(s.skip(1), sep)
    } else {
        let r = split_on(s.skip(1), sep);
        seq![seq![s[0]] + r[0]] + r.skip(1)
    }
}

/// The separator-prefixed concatenation of the parts.
pub open spec fn tail_fields(parts: Seq<Seq<char>>, sep: char) -> Seq<char>
    decreases parts.len(),
{
    if parts.len() == 0 {
        Seq::empty()
    } else {
        seq![sep] + parts[0] + tail_fields(parts.skip(1), sep)
    }
}

/// The parts joined with the separator between them.
pub open spec fn join_with(parts: Seq<Seq<char>>, sep: char) -> Seq<char>
    recommends
        parts.len() >= 1,
{
    parts[0] + tail_fields(parts.skip(1), sep)
}

/// Splitting always yields at least one part.
pub proof fn lemma_split_nonempty(s: Seq<char>, sep: char)
    ensures
        split_on(s, sep).len() >= 1,
    decreases s.len(),
{
    if s.len() > 0 {
        lemma_split_nonempty(s.skip(1), sep);
    }
}

/// Splitting a separator-free string yields that one part.
pub proof fn lemma_split_whole(s: Seq<char>, sep: char)
    requires
        sep_free(s, sep),
    ensures
        split_on(s, sep) == seq![s],
    decreases s.len(),
{
    if s.len() == 0 {
        assert(seq![Seq::<char>::empty()] =~~= seq![s]);
    } else {
        lemma_split_whole(s.skip(1), sep);
        let r = split_on(s.skip(1), sep);
        assert(r[0] == s.skip(1));
        assert(seq![s[0]] + s.skip(1) =~= s);
        assert(seq![seq![s[0]] + r[0]] + r.skip(1) =~= seq![s]);
    }
}


/// Splitting after a separator-free prefix peels that prefix off.
pub proof fn lemma_split_prefix(a: Seq<char>, b: Seq<char>, sep: char)
    requires
        sep_free(a, sep),
    ensures
        split_on(a + seq![sep] + b, sep) == seq![a] + split_on(b, sep),
    decreases a.len(),
{
    let s = a + seq![sep] + b;
    if a.len() == 0 {
        assert(s[0] == sep);
        assert(s.skip(1) =~= b);
        assert(split_on(s, sep) == seq![Seq::<char>::empty()] + split_on(b, sep));
        assert(seq![Seq::<char>::empty()] =~~= seq![a]);
    } else {
        assert(s[0] == a[0]);
        assert(s[0] != sep);
        assert(s.skip(1) =~= a.skip(1) + seq![sep] + b);
        lemma_split_prefix(a.skip(1), b, sep);
        let r = split_on(s.skip(1), sep);
        assert(r == seq![a.skip(1)] + split_on(b, sep));
        assert(r[0] == a.skip(1));
        assert(r.skip(1) =~= split_on(b, sep));
        assert(seq![s[0]] + r[0] =~= a);
        assert(seq![seq![s[0]] + r[0]] + r.skip(1) =~= seq![a] + split_on(b, sep));
    }
}


/// Splitting a join of separator-free parts recovers the parts.
pub proof fn lemma_split_join(parts: Seq<Seq<char>>, sep: char)
    requires
        parts.len() >= 1,
        forall|i: int| 0 <= i < parts.len() ==> sep_free(#[trigger] parts[i], sep),
    ensures
        split_on(join_with(parts, sep), sep) == parts,
    decreases parts.len(),
{
    if parts.len() == 1 {
        assert(join_with(parts, sep) =~= parts[0]);
        lemma_split_whole(parts[0], sep);
        assert(seq![parts[0]] =~= parts);
    } else {
        let rest = parts.skip(1);
        assert(rest[0] == parts[1]);
        assert(tail_fields(parts.skip(1), sep) == seq![sep] + parts[1] + tail_fields(
            parts.skip(1).skip(1),
            sep,
        ));
        assert(parts.skip(1).skip(1) =~= parts.skip(2));
        assert(join_with(parts, sep) =~= parts[0] + seq![sep] + join_with(parts.skip(1), sep))
            by {
            assert(join_with(parts.skip(1), sep) == parts[1] + tail_fields(parts.skip(2), sep));
        }
        lemma_split_prefix(parts[0], join_with(parts.skip(1), sep), sep);
        assert(forall|i: int|
            0 <= i < parts.skip(1).len() ==> sep_free(#[trigger] parts.skip(1)[i], sep));
        lemma_split_join(parts.skip(1), sep);
        assert(seq![parts[0]] + parts.skip(1) =~= parts);
    }
}


/// Joining parts free of a character keeps the result free of it, provided
/// the separator also differs from it.
pub proof fn lemma_join_free(parts: Seq<Seq<char>>, sep: char, c: char)
    requires
        parts.len() >= 1,
        sep != c,
        forall|i: int| 0 <= i < parts.len() ==> sep_free(#[trigger] parts[i], c),
    ensures
        sep_free(join_with(parts, sep), c),
    decreases parts.len(),
{
    if parts.len() == 1 {
        assert(join_with(parts, sep) =~= parts[0]);
    } else {
        assert(parts.skip(1).skip(1) =~= parts.skip(2));
        assert(join_with(parts, sep) =~= parts[0] + seq![sep] + join_with(parts.skip(1), sep))
            by {
            assert(join_with(parts.skip(1), sep) == parts[1] + tail_fields(parts.skip(2), sep));
        }
        assert(forall|i: int|
            0 <= i < parts.skip(1).len() ==> sep_free(#[trigger] parts.skip(1)[i], c));
        lemma_join_free(parts.skip(1), sep, c);
        let j = join_with(parts, sep);
        let p0 = parts[0];
        let jr = join_with(parts.skip(1), sep);
        assert forall|i: int| 0 <= i < j.len() implies j[i] != c by {
            if i < p0.len() {
                assert(j[i] == p0[i]);
            } else if i == p0.len() {
                assert(j[i] == sep);
            } else {
                assert(j[i] == jr[i - p0.len() - 1]);
            }
        }
    }
}


/// One more part extends the separator-prefixed concatenation.
pub proof fn lemma_tail_fields_snoc(ps: Seq<Seq<char>>, p: Seq<char>, sep: char)
    ensures
        tail_fields(ps.push(p), sep) == tail_fields(ps, sep) + seq![sep] + p,
    decreases ps.len(),
{
    if ps.len() == 0 {
        assert(ps.push(p)[0] == p);
        assert(ps.push(p).skip(1) =~= Seq::<Seq<char>>::empty());
        assert(tail_fields(ps.push(p).skip(1), sep) == Seq::<char>::empty());
        assert(tail_fields(ps.push(p), sep) =~= seq![sep] + p);
        assert(tail_fields(ps, sep) + seq![sep] + p =~= seq![sep] + p);
    } else {
        assert(ps.push(p)[0] == ps[0]);
        assert(ps.push(p).skip(1) =~= ps.skip(1).push(p));
        lemma_tail_fields_snoc(ps.skip(1), p, sep);
        assert(seq![sep] + ps[0] + (tail_fields(ps.skip(1), sep) + seq![sep] + p) =~= (seq![sep]
            + ps[0] + tail_fields(ps.skip(1), sep)) + seq![sep] + p);
    }
}


/// The view of each collected part.
pub open spec fn parts_view(ps: Seq<Vec<char>>) -> Seq<Seq<char>> {
    ps.map_values(|p: Vec<char>| p@)
}


/// Splits the characters at every occurrence of the separator.
pub fn split_char(s: &Vec<char>, sep: char) -> (r: Vec<Vec<char>>)
    ensures
        parts_view(r@) == split_on(s@, sep),
        r@.len() >= 1,
{
    let mut parts: Vec<Vec<char>> = Vec::new();
    let mut cur: Vec<char> = Vec::new();
    let mut i: usize = 0;
    proof {
        assert(s@.skip(0) =~= s@);
        let sp = split_on(s@, sep);
        lemma_split_nonempty(s@, sep);
        assert(parts_view(parts@) =~= Seq::<Seq<char>>::empty());
        assert(Seq::<char>::empty() + sp[0] =~= sp[0]);
        assert(parts_view(parts@) + seq![Seq::<char>::empty() + sp[0]] + sp.skip(1) =~~= sp);
    }
    while i < s.len()
        invariant
            i <= s@.len(),
            split_on(s@, sep) == parts_view(parts@) + seq![
                cur@ + split_on(s@.skip(i as int), sep)[0],
            ] + split_on(s@.skip(i as int), sep).skip(1),
        decreases s@.len() - i,
    {
        let c = s[i];
        let ghost rest = s@.skip(i as int);
        proof {
            assert(rest[0] == s@[i as int]);
            assert(rest.skip(1) =~= s@.skip(i + 1));
            lemma_split_nonempty(s@.skip(i + 1), sep);
        }
        if c == sep {
            let ghost rp = split_on(s@.skip(i + 1), sep);
            assert(split_on(rest, sep) == seq![Seq::<char>::empty()] + rp);
            let ghost prev_parts = parts@;
            let ghost prev_cur = cur@;
            let done = cur;
            cur = Vec::new();
            parts.push(done);
            proof {
                assert(split_on(rest, sep)[0] =~= Seq::<char>::empty());
                assert(split_on(rest, sep).skip(1) =~= rp);
                assert(parts_view(parts@) =~= parts_view(prev_parts).push(prev_cur));
                assert(prev_cur + Seq::<char>::empty() =~= prev_cur);
                assert(parts_view(parts@) + seq![cur@ + rp[0]] + rp.skip(1) =~= parts_view(
                    prev_parts,
                ) + seq![prev_cur + split_on(rest, sep)[0]] + split_on(rest, sep).skip(1)) by {
                    assert(cur@ + rp[0] =~= rp[0]);
                    assert(seq![rp[0]] + rp.skip(1) =~= rp);
                }
            }
        } else {
            let ghost rp = split_on(s@.skip(i + 1), sep);
            assert(split_on(rest, sep) == seq![seq![rest[0]] + rp[0]] + rp.skip(1));
            let ghost prev_cur = cur@;
            cur.push(c);
            proof {
                assert(split_on(rest, sep)[0] == seq![c] + rp[0]);
                assert(split_on(rest, sep).skip(1) =~= rp.skip(1));
                assert(cur@ + rp[0] =~= prev_cur + (seq![c] + rp[0]));
            }
        }
        i += 1;
    }
    assert(s@.skip(s@.len() as int) =~= Seq::<char>::empty());
    assert(split_on(Seq::<char>::empty(), sep) == seq![Seq::<char>::empty()]);
    let ghost prev_parts = parts@;
    let ghost last_cur = cur@;
    parts.push(cur);
    proof {
        assert(parts_view(parts@) =~= parts_view(prev_parts).push(last_cur));
        assert(last_cur + Seq::<char>::empty() =~= last_cur);
        assert(parts_view(parts@) =~= split_on(s@, sep));
    }
    parts
}



/// Whether the prefix opens the string.
pub fn starts_with_chars(s: &Vec<char>, p: &Vec<char>) -> (r: bool)
    ensures
        r == p@.is_prefix_of(s@),
{
    if p.len() > s.len() {
        assert(!p@.is_prefix_of(s@));
        return false;
    }
    let mut i: usize = 0;
    while i < p.len()
        invariant
            i <= p@.len(),
            p@.len() <= s@.len(),
            forall|j: int| 0 <= j < i ==> s@[j] == p@[j],
        decreases p@.len() - i,
    {
        if s[i] != p[i] {
            assert(s@.take(p@.len() as int)[i as int] != p@[i as int]);
            assert(!p@.is_prefix_of(s@));
            return false;
        }
        i += 1;
    }
    assert(s@.take(p@.len() as int) =~= p@);
    true
}

/// The string with every leading occurrence of the character removed.
pub open spec fn strip_leading(s: Seq<char>, c: char) -> Seq<char>
    decreases s.len(),
{
    if s.len() > 0 && s[0] == c {
        strip_leading(s.skip(1), c)
    } else {
        s
    }
}

/// Removes every leading occurrence of the character.
pub fn strip_leading_chars(s: &Vec<char>, c: char) -> (r: Vec<char>)
    ensures
        r@ == strip_leading(s@, c),
{
    let mut i: usize = 0;
    assert(s@.skip(0) =~= s@);
    while i < s.len() && s[i] == c
        invariant
            i <= s@.len(),
            strip_leading(s@, c) == strip_leading(s@.skip(i as int), c),
        decreases s@.len() - i,
    {
        proof {
            assert(s@.skip(i as int)[0] == s@[i as int]);
            assert(s@.skip(i as int).skip(1) =~= s@.skip(i + 1));
        }
        i += 1;
    }
    proof {
        let rest = s@.skip(i as int);
        if i < s@.len() {
            assert(rest[0] == s@[i as int]);
            assert(strip_leading(rest, c) == rest);
        } else {
            assert(rest =~= Seq::<char>::empty());
        }
    }
    let mut out: Vec<char> = Vec::new();
    let mut j: usize = i;
    while j < s.len()
        invariant
            i <= j <= s@.len(),
            out@ == s@.subrange(i as int, j as int),
        decreases s@.len() - j,
    {
        let ghost prev = out@;
        out.push(s[j]);
        proof {
            assert(out@ =~= s@.subrange(i as int, j + 1));
        }
        j += 1;
    }
    proof {
        assert(out@ =~= s@.skip(i as int));
    }
    out
}

/// The string without its leading whitespace.
pub open spec fn strip_leading_ws(s: Seq<char>) -> Seq<char>
    decreases s.len(),
{
    if s.len() > 0 && is_space(s[0]) {
        strip_leading_ws(s.skip(1))
    } else {
        s
    }
}

/// The string without its trailing whitespace.
pub open spec fn strip_trailing_ws(s: Seq<char>) -> Seq<char>
    decreases s.len(),
{
    if s.len() > 0 && is_space(s.last()) {
        strip_trailing_ws(s.drop_last())
    } else {
        s
    }
}

/// The string without its leading and trailing whitespace.
pub open spec fn trimmed(s: Seq<char>) -> Seq<char> {
    strip_trailing_ws(strip_leading_ws(s))
}

/// Removes leading and trailing whitespace.
pub fn trim_str(s: &str) -> (r: String)
    ensures
        r@ == trimmed(s@),
        r@.len() <= s@.len(),
{
    let cs = str_to_chars(s);
    let mut lo: usize = 0;
    proof {
        assert(cs@.skip(0) =~= cs@);
    }
    while lo < cs.len() && is_space_char(cs[lo])
        invariant
            lo <= cs@.len(),
            strip_leading_ws(cs@) == strip_leading_ws(cs@.skip(lo as int)),
        decreases cs@.len() - lo,
    {
        proof {
            assert(cs@.skip(lo as int)[0] == cs@[lo as int]);
            assert(cs@.skip(lo as int).skip(1) =~= cs@.skip(lo + 1));
        }
        lo += 1;
    }
    let ghost t = cs@.skip(lo as int);
    proof {
        if lo < cs@.len() {
            assert(t[0] == cs@[lo as int]);
            assert(strip_leading_ws(t) == t);
        } else {
            assert(t =~= Seq::<char>::empty());
            assert(strip_leading_ws(t) == t);
        }
    }
    let mut hi: usize = cs.len();
    proof {
        assert(t.take(hi - lo) =~= t);
    }
    while hi > lo && is_space_char(cs[hi - 1])
        invariant
            lo <= hi <= cs@.len(),
            t == cs@.skip(lo as int),
            strip_trailing_ws(t) == strip_trailing_ws(t.take(hi - lo)),
        decreases hi,
    {
        proof {
            assert(t.take(hi - lo).last() == cs@[hi - 1]);
            assert(t.take(hi - lo).drop_last() =~= t.take(hi - 1 - lo));
        }
        hi -= 1;
    }
    proof {
        let u = t.take(hi - lo);
        if hi > lo {
            assert(u.last() == cs@[hi - 1]);
            assert(strip_trailing_ws(u) == u);
        } else {
            assert(u =~= Seq::<char>::empty());
            assert(strip_trailing_ws(u) == u);
        }
    }
    let mut out: Vec<char> = Vec::new();
    let mut k: usize = lo;
    while k < hi
        invariant
            lo <= k <= hi <= cs@.len(),
            out@ == cs@.subrange(lo as int, k as int),
        decreases hi - k,
    {
        out.push(cs[k]);
        proof {
            assert(out@ =~= cs@.subrange(lo as int, k + 1));
        }
        k += 1;
    }
    proof {
        assert(out@ =~= cs@.skip(lo as int).take(hi - lo));
        assert(out@ == trimmed(s@));
    }
    chars_to_string(&out)
}


/// The text with every leftmost, non-overlapping occurrence of the pattern
/// replaced; the pattern must not be empty.
pub open spec fn replace_all(s: Seq<char>, pat: Seq<char>, to: Seq<char>) -> Seq<char>
    recommends
        pat.len() >= 1,
    decreases s.len(),
    when pat.len() >= 1
{
    if s.len() < pat.len() {
        s
    } else if s.take(pat.len() as int) == pat {
        to + replace_all(s.skip(pat.len() as int), pat, to)
    } else {
        seq![s[0]] + replace_all(s.skip(1), pat, to)
    }
}

/// Whether the pattern occurs at the position.
fn match_at(s: &Vec<char>, i: usize, pat: &Vec<char>) -> (r: bool)
    requires
        i <= s@.len(),
    ensures
        r == (i + pat@.len() <= s@.len() && s@.subrange(i as int, i + pat@.len()) == pat@),
{
    if pat.len() > s.len() - i {
        return false;
    }
    let mut k: usize = 0;
    while k < pat.len()
        invariant
            k <= pat@.len(),
            i + pat@.len() <= s@.len(),
            forall|j: int| 0 <= j < k ==> s@[i + j] == pat@[j],
        decreases pat@.len() - k,
    {
        proof {
            vstd::std_specs::vec::axiom_spec_len(s);
            assert(i + k < s@.len());
        }
        if s[i + k] != pat[k] {
            assert(s@.subrange(i as int, i + pat@.len())[k as int] != pat@[k as int]);
            return false;
        }
        k += 1;
    }
    assert(s@.subrange(i as int, i + pat@.len()) =~= pat@);
    true
}

/// Replaces every leftmost, non-overlapping occurrence of the pattern.
pub fn replace_all_chars(s: &Vec<char>, pat: &Vec<char>, to: &Vec<char>) -> (r: Vec<char>)
    requires
        pat@.len() >= 1,
    ensures
        r@ == replace_all(s@, pat@, to@),
{
    let mut out: Vec<char> = Vec::new();
    let mut i: usize = 0;
    proof {
        assert(s@.skip(0) =~= s@);
    }
    while i < s.len()
        invariant
            i <= s@.len(),
            pat@.len() >= 1,
            replace_all(s@, pat@, to@) == out@ + replace_all(s@.skip(i as int), pat@, to@),
        decreases s@.len() - i,
    {
        let ghost rest = s@.skip(i as int);
        proof {
            assert(rest[0] == s@[i as int]);
            assert(rest.skip(1) =~= s@.skip(i + 1));
            if i + pat@.len() <= s@.len() {
                assert(rest.take(pat@.len() as int) =~= s@.subrange(i as int, i + pat@.len()));
                assert(rest.skip(pat@.len() as int) =~= s@.skip(i + pat@.len()));
            }
        }
        if match_at(s, i, pat) {
            let mut k: usize = 0;
            let ghost mid = out@;
            while k < to.len()
                invariant
                    k <= to@.len(),
                    out@ == mid + to@.take(k as int),
                decreases to@.len() - k,
            {
                let ghost prev = out@;
                out.push(to[k]);
                proof {
                    assert(to@.take(k + 1) =~= to@.take(k as int).push(to@[k as int]));
                    assert(out@ =~= mid + to@.take(k + 1));
                }
                k += 1;
            }
            proof {
                assert(to@.take(to@.len() as int) =~= to@);
                assert(mid + to@ + replace_all(s@.skip(i + pat@.len()), pat@, to@) =~= mid + (
                to@ + replace_all(s@.skip(i + pat@.len()), pat@, to@)));
            }
            i += pat.len();
        } else {
            let ghost prev = out@;
            out.push(s[i]);
            proof {
                assert(rest.len() >= 1);
                if rest.len() >= pat@.len() {
                    assert(rest.take(pat@.len() as int) != pat@);
                }
                assert(prev + (seq![s@[i as int]] + replace_all(s@.skip(i + 1), pat@, to@))
                    =~= out@ + replace_all(s@.skip(i + 1), pat@, to@));
            }
            i += 1;
        }
    }
    proof {
        assert(s@.skip(s@.len() as int) =~= Seq::<char>::empty());
        assert(out@ + Seq::<char>::empty() =~= out@);
    }
    out
}


/// Whether the characters contain the character.
pub fn chars_contain(v: &Vec<char>, c: char) -> (r: bool)
    ensures
        r == v@.contains(c),
{
    let mut i: usize = 0;
    while i < v.len()
        invariant
            i <= v@.len(),
            forall|j: int| 0 <= j < i ==> v@[j] != c,
        decreases v@.len() - i,
    {
        if v[i] == c {
            return true;
        }
        i += 1;
    }
    false
}

/// The Unicode White_Space property, written out.
pub open spec fn is_space(c: char) -> bool {
    let u = c as u32;
    (9 <= u && u <= 13) || u == 32 || u == 133 || u == 160 || u == 5760 || (8192 <= u && u
        <= 8202) || u == 8232 || u == 8233 || u == 8239 || u == 8287 || u == 12288
}

/// Whether the character is Unicode whitespace.
pub fn is_space_char(c: char) -> (r: bool)
    ensures
        r == is_space(c),
{
    let u = c as u32;
    (9 <= u && u <= 13) || u == 32 || u == 133 || u == 160 || u == 5760 || (8192 <= u && u
        <= 8202) || u == 8232 || u == 8233 || u == 8239 || u == 8287 || u == 12288
}


/// The leading run of non-whitespace characters.
pub open spec fn take_word(s: Seq<char>) -> Seq<char>
    decreases s.len(),
{
    if s.len() == 0 || is_space(s[0]) {
        Seq::empty()
    } else {
        seq![s[0]] + take_word(s.skip(1))
    }
}

/// The word prefix is never empty on a non-space head and never longer
/// than the string.
pub proof fn lemma_take_word_len(s: Seq<char>)
    ensures
        take_word(s).len() <= s.len(),
        s.len() > 0 && !is_space(s[0]) ==> take_word(s).len() >= 1,
    decreases s.len(),
{
    if s.len() > 0 && !is_space(s[0]) {
        lemma_take_word_len(s.skip(1));
    }
}

/// The whitespace-separated words of the string, in order.
pub open spec fn words_of(s: Seq<char>) -> Seq<Seq<char>>
    decreases s.len(),
    via words_of_dec
{
    if s.len() == 0 {
        Seq::empty()
    } else if is_space(s[0]) {
        words_of(s.skip(1))
    } else {
        seq![take_word(s)] + words_of(s.skip(take_word(s).len() as int))
    }
}

#[via_fn]
proof fn words_of_dec(s: Seq<char>) {
    if s.len() > 0 && !is_space(s[0]) {
        lemma_take_word_len(s);
    }
}

/// Splits the characters into whitespace-separated words.
pub fn words_chars(s: &Vec<char>) -> (r: Vec<Vec<char>>)
    ensures
        parts_view(r@) == words_of(s@),
{
    let mut out: Vec<Vec<char>> = Vec::new();
    let mut i: usize = 0;
    proof {
        assert(s@.skip(0) =~= s@);
        assert(parts_view(out@) =~= Seq::<Seq<char>>::empty());
    }
    while i < s.len()
        invariant
            i <= s@.len(),
            words_of(s@) == parts_view(out@) + words_of(s@.skip(i as int)),
        decreases s@.len() - i,
    {
        proof {
            assert(s@.skip(i as int)[0] == s@[i as int]);
            assert(s@.skip(i as int).skip(1) =~= s@.skip(i + 1));
        }
        if is_space_char(s[i]) {
            i += 1;
        } else {
            let ghost start = i as int;
            let mut w: Vec<char> = Vec::new();
            proof {
                assert(take_word(s@.skip(start)) == w@ + take_word(s@.skip(i as int)));
            }
            while i < s.len() && !is_space_char(s[i])
                invariant
                    start <= i <= s@.len(),
                    w@.len() == i - start,
                    take_word(s@.skip(start)) == w@ + take_word(s@.skip(i as int)),
                decreases s@.len() - i,
            {
                proof {
                    assert(s@.skip(i as int)[0] == s@[i as int]);
                    assert(s@.skip(i as int).skip(1) =~= s@.skip(i + 1));
                    assert(take_word(s@.skip(i as int)) == seq![s@[i as int]] + take_word(
                        s@.skip(i + 1),
                    ));
                }
                let ghost prevw = w@;
                w.push(s[i]);
                proof {
                    assert(prevw + (seq![s@[i as int]] + take_word(s@.skip(i + 1))) =~= w@
                        + take_word(s@.skip(i + 1)));
                }
                i += 1;
            }
            proof {
                let rest = s@.skip(i as int);
                if i < s@.len() {
                    assert(rest[0] == s@[i as int]);
                    assert(take_word(rest) =~= Seq::<char>::empty());
                } else {
                    assert(rest =~= Seq::<char>::empty());
                }
                assert(w@ + Seq::<char>::empty() =~= w@);
                assert(take_word(s@.skip(start)) == w@);
                assert(w@.len() >= 1) by {
                    assert(take_word(s@.skip(start)) == seq![s@[start]] + take_word(
                        s@.skip(start + 1),
                    ));
                }
                assert(s@.skip(start).skip(w@.len() as int) =~= s@.skip(i as int));
                assert(words_of(s@.skip(start)) == seq![w@] + words_of(s@.skip(i as int)));
            }
            let ghost prev_out = out@;
            out.push(w);
            proof {
                assert(parts_view(out@) =~= parts_view(prev_out).push(
                    take_word(s@.skip(start)),
                ));
                assert(parts_view(prev_out) + (seq![take_word(s@.skip(start))] + words_of(
                    s@.skip(i as int),
                )) =~= parts_view(out@) + words_of(s@.skip(i as int)));
            }
        }
    }
    proof {
        assert(s@.skip(s@.len() as int) =~= Seq::<char>::empty());
        assert(parts_view(out@) + Seq::<Seq<char>>::empty() =~= parts_view(out@));
    }
    out
}

/// The ASCII punctuation characters.
pub open spec fn is_ascii_punct(c: char) -> bool {
    let u = c as u32;
    (33 <= u && u <= 47) || (58 <= u && u <= 64) || (91 <= u && u <= 96) || (123 <= u && u
        <= 126)
}

/// Whether the character is ASCII punctuation.
pub fn is_ascii_punct_char(c: char) -> (r: bool)
    ensures
        r == is_ascii_punct(c),
{
    let u = c as u32;
    (33 <= u && u <= 47) || (58 <= u && u <= 64) || (91 <= u && u <= 96) || (123 <= u && u
        <= 126)
}

} // verus!
