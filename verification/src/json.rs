//! The textual codec for scan reports: a JSON encoding of `Scan` values
//! and a decoder for exactly that encoding, proved to round-trip. The
//! lexical layer — quoted strings with backslash escapes, decimal number
//! prefixes, fixed literals — is shared with the result harvester.

use vstd::prelude::*;
use vstd::string::*;

use crate::models::{
    CodeIssueModel, GitCommitModel, MetricValue, MetricValueModel, Scan, ScanMetadata,
    ScanMetadataModel, ScanModel,
};
use crate::text::{
    all_digits, is_digit, lemma_digits_val_prefix_le, lemma_digits_val_round_trip,
    lemma_digits_shape, spec_digit_char, spec_digit_val, spec_digits, spec_digits_val,
    u64_to_chars, is_digit_char,
};

verus! {

/// Appends every character of `src` to `dst`.
pub fn append_chars(dst: &mut Vec<char>, src: &Vec<char>)
    ensures
        final(dst)@ == old(dst)@ + src@,
{
    let mut i: usize = 0;
    while i < src.len()
        invariant
            i <= src.len(),
            dst@ == old(dst)@ + src@.take(i as int),
        decreases src.len() - i,
    {
        dst.push(src[i]);
        i = i + 1;
        proof {
            assert(dst@ =~= old(dst)@ + src@.take(i as int));
        }
    }
    proof {
        assert(old(dst)@ + src@.take(src@.len() as int) =~= old(dst)@ + src@);
    }
}

/// Appends the characters of a literal to `dst`.
pub fn append_str_chars(dst: &mut Vec<char>, lit: &str)
    ensures
        final(dst)@ == old(dst)@ + lit@,
{
    let src = crate::text::chars_of(lit);
    append_chars(dst, &src)
}

// ------------------------------------------------------------------
// Quoted strings with backslash escapes.
// ------------------------------------------------------------------

/// The lowercase hexadecimal digit for a value below sixteen.
pub open spec fn spec_hex_digit(d: nat) -> char
    recommends
        d < 16,
{
    if d < 10 {
        spec_digit_char(d)
    } else {
        ((87 + d) as u8) as char
    }
}

/// Whether a character is a hexadecimal digit, of either case.
pub open spec fn is_hex_digit(c: char) -> bool {
    is_digit(c) || (97 <= c as u32 && c as u32 <= 102) || (65 <= c as u32 && c as u32 <= 70)
}

/// The value of a hexadecimal digit character.
pub open spec fn spec_hex_val(c: char) -> nat
    recommends
        is_hex_digit(c),
{
    if is_digit(c) {
        spec_digit_val(c)
    } else if 65 <= c as u32 && c as u32 <= 70 {
        (c as u32 - 55) as nat
    } else {
        (c as u32 - 87) as nat
    }
}

/// How one character appears inside a quoted string: quote, backslash and
/// the common control characters are escaped by a backslash pair, the
/// remaining control characters by a four-digit hexadecimal escape, and
/// everything else stands for itself.
pub open spec fn spec_esc_char(c: char) -> Seq<char> {
    if c == '"' {
        seq!['\\', '"']
    } else if c == '\\' {
        seq!['\\', '\\']
    } else if c == '\n' {
        seq!['\\', 'n']
    } else if c == '\r' {
        seq!['\\', 'r']
    } else if c == '\t' {
        seq!['\\', 't']
    } else if (c as u32) < 32 {
        seq![
            '\\',
            'u',
            '0',
            '0',
            spec_hex_digit(((c as u32) / 16) as nat),
            spec_hex_digit(((c as u32) % 16) as nat),
        ]
    } else {
        seq![c]
    }
}

/// The escaped form of a whole character sequence.
pub open spec fn spec_escape(s: Seq<char>) -> Seq<char>
    decreases s.len(),
{
    if s.len() == 0 {
        Seq::<char>::empty()
    } else {
        spec_esc_char(s[0]) + spec_escape(s.drop_first())
    }
}

/// Escaping one more character extends the escaped text at the end.
pub proof fn lemma_escape_push(s: Seq<char>, c: char)
    ensures
        spec_escape(s.push(c)) == spec_escape(s) + spec_esc_char(c),
    decreases s.len(),
{
    if s.len() == 0 {
        assert(s.push(c)[0] == c);
        assert(s.push(c).drop_first() =~= s);
        assert(spec_escape(s) == Seq::<char>::empty());
        assert(spec_escape(s.push(c)) == spec_esc_char(c) + spec_escape(s));
        assert(spec_esc_char(c) + spec_escape(s) =~= spec_escape(s) + spec_esc_char(c));
    } else {
        assert(s.push(c)[0] == s[0]);
        assert(s.push(c).drop_first() =~= s.drop_first().push(c));
        lemma_escape_push(s.drop_first(), c);
        assert(spec_escape(s.push(c)) == spec_esc_char(s[0]) + (spec_escape(s.drop_first())
            + spec_esc_char(c)));
        assert(spec_esc_char(s[0]) + (spec_escape(s.drop_first()) + spec_esc_char(c)) =~= (
        spec_esc_char(s[0]) + spec_escape(s.drop_first())) + spec_esc_char(c));
    }
}

/// The lowercase hexadecimal digit for a value below sixteen.
fn hex_digit(d: u32) -> (c: char)
    requires
        d < 16,
    ensures
        c == spec_hex_digit(d as nat),
{
    if d < 10 {
        crate::text::digit_char(d as u64)
    } else {
        let b: u8 = (87 + d) as u8;
        b as char
    }
}

/// Appends the escaped form of `s` to `out`.
pub fn append_escaped(out: &mut Vec<char>, s: &Vec<char>)
    ensures
        final(out)@ == old(out)@ + spec_escape(s@),
{
    let mut i: usize = 0;
    while i < s.len()
        invariant
            i <= s.len(),
            out@ == old(out)@ + spec_escape(s@.take(i as int)),
        decreases s.len() - i,
    {
        let c = s[i];
        let code: u32 = c as u32;
        if c == '"' {
            out.push('\\');
            out.push('"');
        } else if c == '\\' {
            out.push('\\');
            out.push('\\');
        } else if c == '\n' {
            out.push('\\');
            out.push('n');
        } else if c == '\r' {
            out.push('\\');
            out.push('r');
        } else if c == '\t' {
            out.push('\\');
            out.push('t');
        } else if code < 32 {
            out.push('\\');
            out.push('u');
            out.push('0');
            out.push('0');
            out.push(hex_digit(code / 16));
            out.push(hex_digit(code % 16));
        } else {
            out.push(c);
        }
        proof {
            lemma_escape_push(s@.take(i as int), c);
            assert(s@.take(i as int).push(c) =~= s@.take(i as int + 1));
            assert(out@ =~= old(out)@ + spec_escape(s@.take(i as int + 1)));
        }
        i = i + 1;
    }
    proof {
        assert(s@.take(s@.len() as int) =~= s@);
    }
}

/// What a quoted-string body denotes: the decoded content up to the first
/// unescaped quote, and the text after that quote. The opening quote has
/// already been consumed. A `\u` escape carries four hexadecimal digits
/// of either case and must name a scalar value, not a surrogate.
pub open spec fn spec_parse_quoted(s: Seq<char>) -> Option<(Seq<char>, Seq<char>)>
    decreases s.len(),
{
    if s.len() == 0 {
        None
    } else if s[0] == '"' {
        Some((Seq::<char>::empty(), s.drop_first()))
    } else if s[0] == '\\' {
        if s.len() < 2 {
            None
        } else if s[1] == 'u' {
            if s.len() < 6 {
                None
            } else if is_hex_digit(s[2]) && is_hex_digit(s[3]) && is_hex_digit(s[4])
                && is_hex_digit(s[5]) {
                let code = spec_hex_val(s[2]) * 4096 + spec_hex_val(s[3]) * 256 + spec_hex_val(
                    s[4],
                ) * 16 + spec_hex_val(s[5]);
                if code < 0xD800 || code >= 0xE000 {
                    let c = code as char;
                    match spec_parse_quoted(s.skip(6)) {
                        Some(p) => Some((seq![c] + p.0, p.1)),
                        None => None,
                    }
                } else {
                    None
                }
            } else {
                None
            }
        } else {
            match spec_unesc_char(s[1]) {
                Some(c) => match spec_parse_quoted(s.skip(2)) {
                    Some(p) => Some((seq![c] + p.0, p.1)),
                    None => None,
                },
                None => None,
            }
        }
    } else {
        match spec_parse_quoted(s.drop_first()) {
            Some(p) => Some((seq![s[0]] + p.0, p.1)),
            None => None,
        }
    }
}

/// The character a two-character escape stands for.
pub open spec fn spec_unesc_char(e: char) -> Option<char> {
    if e == '"' {
        Some('"')
    } else if e == '\\' {
        Some('\\')
    } else if e == 'n' {
        Some('\n')
    } else if e == 'r' {
        Some('\r')
    } else if e == 't' {
        Some('\t')
    } else {
        None
    }
}

/// Escape then parse gives back the content and the trailing text: the
/// escaped form of `v`, a closing quote, then `rest`, parses to exactly
/// `(v, rest)`.
pub proof fn lemma_parse_quoted_escape(v: Seq<char>, rest: Seq<char>)
    ensures
        spec_parse_quoted(spec_escape(v) + seq!['"'] + rest) == Some((v, rest)),
    decreases v.len(),
{
    let s = spec_escape(v) + seq!['"'] + rest;
    if v.len() == 0 {
        assert(spec_escape(v) =~= Seq::<char>::empty());
        assert(s =~= seq!['"'] + rest);
        assert(s[0] == '"');
        assert(s.drop_first() =~= rest);
        assert(v =~= Seq::<char>::empty());
    } else {
        let c = v[0];
        let tail = v.drop_first();
        lemma_parse_quoted_escape(tail, rest);
        let inner = spec_escape(tail) + seq!['"'] + rest;
        assert(spec_escape(v) == spec_esc_char(c) + spec_escape(tail));
        assert(s =~= spec_esc_char(c) + inner);
        let e = spec_esc_char(c);
        if c == '"' || c == '\\' {
            assert(e =~= seq!['\\', if c == '"' { '"' } else { '\\' }]);
            assert(s[0] == '\\');
            assert(s.len() >= 2);
            assert(s[1] == e[1]);
            assert(s[1] != 'u');
            assert(spec_unesc_char(s[1]) == Some(c));
            assert(s.skip(2) =~= inner);
            assert(seq![c] + tail =~= v);
        } else if c == '\n' || c == '\r' || c == '\t' {
            assert(s[0] == '\\');
            assert(s.len() >= 2);
            assert(s[1] == e[1]);
            assert(s[1] != 'u');
            assert(spec_unesc_char(s[1]) == Some(c));
            assert(s.skip(2) =~= inner);
            assert(seq![c] + tail =~= v);
        } else if (c as u32) < 32 {
            let hi = ((c as u32) / 16) as nat;
            let lo = ((c as u32) % 16) as nat;
            assert(e == seq!['\\', 'u', '0', '0', spec_hex_digit(hi), spec_hex_digit(lo)]);
            assert(s[0] == '\\');
            assert(s.len() >= 7);
            assert(s[1] == 'u');
            assert(s[2] == '0');
            assert(s[3] == '0');
            assert(s[4] == spec_hex_digit(hi));
            assert(s[5] == spec_hex_digit(lo));
            assert(is_hex_digit('0') && spec_hex_val('0') == 0);
            lemma_hex_digit_round_trip(hi);
            lemma_hex_digit_round_trip(lo);
            assert(spec_hex_val(s[4]) == hi && spec_hex_val(s[5]) == lo);
            let code = spec_hex_val(s[2]) * 4096 + spec_hex_val(s[3]) * 256 + spec_hex_val(
                s[4],
            ) * 16 + spec_hex_val(s[5]);
            assert(code == c as u32) by {
                assert((c as u32) / 16 * 16 + (c as u32) % 16 == (c as u32));
            }
            assert(code < 0xD800);
            vstd::utf8::char_u32_cast(c, c as u32);
            assert((code as char) == c);
            assert(s.skip(6) =~= inner);
            assert(seq![c] + tail =~= v);
        } else {
            assert(e =~= seq![c]);
            assert(s[0] == c);
            assert(c != '"' && c != '\\');
            assert(s.drop_first() =~= inner);
            assert(seq![c] + tail =~= v);
        }
    }
}

/// A lowercase hexadecimal digit character reads back as its value.
pub proof fn lemma_hex_digit_round_trip(d: nat)
    requires
        d < 16,
    ensures
        is_hex_digit(spec_hex_digit(d)),
        spec_hex_val(spec_hex_digit(d)) == d,
{
    if d < 10 {
        assert(is_digit(spec_hex_digit(d)));
    } else {
        assert((((87 + d) as u8) as char) as u32 == 87 + d);
        assert(!is_digit(spec_hex_digit(d)));
    }
}

/// Reads a quoted-string body starting at position `i` (just after the
/// opening quote); on success returns the decoded content and the
/// position just after the closing quote.
pub fn parse_quoted_at(v: &Vec<char>, i: usize) -> (r: Option<(Vec<char>, usize)>)
    requires
        i <= v@.len(),
    ensures
        match (spec_parse_quoted(v@.skip(i as int)), r) {
            (Some(p), Some(q)) => {
                &&& q.0@ == p.0
                &&& i <= q.1 <= v@.len()
                &&& v@.skip(q.1 as int) == p.1
            },
            (None, None) => true,
            _ => false,
        },
{
    let ghost whole = v@.skip(i as int);
    let mut out: Vec<char> = Vec::new();
    let mut j: usize = i;
    loop
        invariant
            i <= j <= v@.len(),
            whole == v@.skip(i as int),
            match spec_parse_quoted(v@.skip(j as int)) {
                Some(p) => spec_parse_quoted(whole) == Some((out@ + p.0, p.1)),
                None => spec_parse_quoted(whole) is None,
            },
        decreases v@.len() - j,
    {
        let ghost s = v@.skip(j as int);
        proof {
            assert(forall|k: int| 0 <= k < s.len() ==> s[k] == v@[j + k]);
        }
        if j >= v.len() {
            proof {
                assert(s.len() == 0);
                assert(spec_parse_quoted(s) is None);
            }
            return None;
        }
        let c = v[j];
        proof {
            assert(s[0] == c);
        }
        if c == '"' {
            proof {
                assert(s.drop_first() =~= v@.skip(j as int + 1));
                assert(spec_parse_quoted(s) == Some(
                    (Seq::<char>::empty(), v@.skip(j as int + 1)),
                ));
                assert(out@ + Seq::<char>::empty() =~= out@);
            }
            return Some((out, j + 1));
        } else if c == '\\' {
            if j + 1 >= v.len() {
                proof {
                    assert(s.len() < 2);
                    assert(spec_parse_quoted(s) is None);
                }
                return None;
            }
            let e = v[j + 1];
            proof {
                assert(s[1] == e);
            }
            if e == 'u' {
                if v.len() - j < 6 {
                    proof {
                        assert(s.len() < 6);
                        assert(spec_parse_quoted(s) is None);
                    }
                    return None;
                }
                proof {
                    assert(s.len() >= 6);
                    assert(s[2] == v@[j + 2] && s[3] == v@[j + 3] && s[4] == v@[j + 4]
                        && s[5] == v@[j + 5]);
                }
                let h0 = v[j + 2];
                let h1 = v[j + 3];
                let h2 = v[j + 4];
                let h3 = v[j + 5];
                if !(is_hex_digit_char(h0) && is_hex_digit_char(h1) && is_hex_digit_char(h2)
                    && is_hex_digit_char(h3)) {
                    proof {
                        assert(spec_parse_quoted(s) is None);
                    }
                    return None;
                }
                let code: u32 = hex_val_char(h0) * 4096 + hex_val_char(h1) * 256
                    + hex_val_char(h2) * 16 + hex_val_char(h3);
                if !(code < 0xD800 || code >= 0xE000) {
                    proof {
                        assert(spec_parse_quoted(s) is None);
                    }
                    return None;
                }
                let c2: char = char_from_code(code);
                proof {
                    assert(code <= 0xFFFF);
                    vstd::utf8::char_u32_cast(c2, code);
                    assert(c2 == ((spec_hex_val(s[2]) * 4096 + spec_hex_val(s[3]) * 256
                        + spec_hex_val(s[4]) * 16 + spec_hex_val(s[5])) as char));
                    assert(s.skip(6) =~= v@.skip(j as int + 6));
                }
                out.push(c2);
                j = j + 6;
                proof {
                    match spec_parse_quoted(v@.skip(j as int)) {
                        Some(p) => {
                            assert(out@ + p.0 =~= out@.drop_last() + (seq![c2] + p.0));
                        },
                        None => {},
                    }
                }
            } else {
                let decoded: Option<char> = if e == '"' {
                    Some('"')
                } else if e == '\\' {
                    Some('\\')
                } else if e == 'n' {
                    Some('\n')
                } else if e == 'r' {
                    Some('\r')
                } else if e == 't' {
                    Some('\t')
                } else {
                    None
                };
                proof {
                    assert(decoded == spec_unesc_char(e));
                }
                match decoded {
                    Some(c2) => {
                        proof {
                            assert(s.skip(2) =~= v@.skip(j as int + 2));
                        }
                        out.push(c2);
                        j = j + 2;
                        proof {
                            match spec_parse_quoted(v@.skip(j as int)) {
                                Some(p) => {
                                    assert(out@ + p.0 =~= out@.drop_last() + (seq![c2]
                                        + p.0));
                                },
                                None => {},
                            }
                        }
                    },
                    None => {
                        proof {
                            assert(spec_parse_quoted(s) is None);
                        }
                        return None;
                    },
                }
            }
        } else {
            proof {
                assert(s.drop_first() =~= v@.skip(j as int + 1));
            }
            out.push(c);
            j = j + 1;
            proof {
                match spec_parse_quoted(v@.skip(j as int)) {
                    Some(p) => {
                        assert(out@ + p.0 =~= out@.drop_last() + (seq![c] + p.0));
                    },
                    None => {},
                }
            }
        }
    }
}

// ------------------------------------------------------------------
// Decimal number prefixes and fixed literals.
// ------------------------------------------------------------------

/// How many leading characters of `s` are decimal digits.
pub open spec fn spec_digit_prefix_len(s: Seq<char>) -> int
    decreases s.len(),
{
    if s.len() > 0 && is_digit(s[0]) {
        1 + spec_digit_prefix_len(s.drop_first())
    } else {
        0
    }
}

/// An all-digit block followed by a non-digit boundary is its own digit
/// prefix.
pub proof fn lemma_digit_prefix_of_digits(a: Seq<char>, rest: Seq<char>)
    requires
        all_digits(a),
        rest.len() == 0 || !is_digit(rest[0]),
    ensures
        spec_digit_prefix_len(a + rest) == a.len(),
    decreases a.len(),
{
    if a.len() == 0 {
        assert(a + rest =~= rest);
    } else {
        let s = a + rest;
        assert(s[0] == a[0]);
        assert(is_digit(s[0]));
        assert(s.drop_first() =~= a.drop_first() + rest);
        assert(all_digits(a.drop_first())) by {
            assert(forall|k: int|
                0 <= k < a.drop_first().len() ==> a.drop_first()[k] == a[k + 1]);
        }
        lemma_digit_prefix_of_digits(a.drop_first(), rest);
    }
}

/// What a leading decimal number denotes: the value of the maximal digit
/// prefix, if there is one and it fits, and the text after it.
pub open spec fn spec_parse_u64_prefix(s: Seq<char>) -> Option<(u64, Seq<char>)> {
    let n = spec_digit_prefix_len(s);
    if n == 0 {
        None
    } else if spec_digits_val(s.take(n)) <= u64::MAX {
        Some((spec_digits_val(s.take(n)) as u64, s.skip(n)))
    } else {
        None
    }
}

/// The decimal digits of a number always read back as that number, with
/// the boundary intact.
pub proof fn lemma_parse_u64_prefix_digits(n: u64, rest: Seq<char>)
    requires
        rest.len() == 0 || !is_digit(rest[0]),
    ensures
        spec_parse_u64_prefix(spec_digits(n as nat) + rest) == Some((n, rest)),
{
    let ds = spec_digits(n as nat);
    lemma_digits_shape(n as nat);
    lemma_digits_val_round_trip(n as nat);
    lemma_digit_prefix_of_digits(ds, rest);
    let s = ds + rest;
    assert(spec_digit_prefix_len(s) == ds.len());
    assert(s.take(ds.len() as int) =~= ds);
    assert(s.skip(ds.len() as int) =~= rest);
}

/// The signed decimal digits of an integer.
pub open spec fn spec_signed_digits(n: int) -> Seq<char> {
    if n < 0 {
        seq!['-'] + spec_digits((-n) as nat)
    } else {
        spec_digits(n as nat)
    }
}

/// What a leading signed decimal number denotes, when it fits an `i64`.
pub open spec fn spec_parse_i64_prefix(s: Seq<char>) -> Option<(i64, Seq<char>)> {
    if s.len() > 0 && s[0] == '-' {
        match spec_parse_u64_prefix(s.drop_first()) {
            Some(p) => if p.0 <= 0x8000_0000_0000_0000u64 {
                Some(((0 - p.0 as int) as i64, p.1))
            } else {
                None
            },
            None => None,
        }
    } else {
        match spec_parse_u64_prefix(s) {
            Some(p) => if p.0 <= i64::MAX as u64 {
                Some((p.0 as i64, p.1))
            } else {
                None
            },
            None => None,
        }
    }
}

/// The signed digits of an `i64` always read back as that value.
pub proof fn lemma_parse_i64_prefix_digits(n: i64, rest: Seq<char>)
    requires
        rest.len() == 0 || !is_digit(rest[0]),
    ensures
        spec_parse_i64_prefix(spec_signed_digits(n as int) + rest) == Some((n, rest)),
{
    if n < 0 {
        let m = (0 - n as int) as nat;
        let ds = spec_digits(m);
        lemma_digits_shape(m);
        let s = spec_signed_digits(n as int) + rest;
        assert(s[0] == '-');
        assert(s.drop_first() =~= ds + rest);
        lemma_parse_u64_prefix_digits(m as u64, rest);
        assert(spec_parse_u64_prefix(ds + rest) == Some((m as u64, rest)));
        assert(m <= 0x8000_0000_0000_0000);
        assert((0 - (m as u64) as int) as i64 == n);
    } else {
        let s = spec_signed_digits(n as int) + rest;
        lemma_digits_shape(n as nat);
        assert(is_digit(s[0]));
        assert(s[0] != '-') by {
            assert(48 <= s[0] as u32 <= 57);
            assert(('-' as u32) == 45);
        }
        lemma_parse_u64_prefix_digits(n as u64, rest);
        assert(spec_signed_digits(n as int) =~= spec_digits(n as nat));
    }
}

/// The signed decimal digit characters of an `i64`.
pub fn i64_to_chars(n: i64) -> (r: Vec<char>)
    ensures
        r@ == spec_signed_digits(n as int),
{
    if n >= 0 {
        u64_to_chars(n as u64)
    } else {
        let magnitude: u64 = if n == i64::MIN {
            9_223_372_036_854_775_808u64
        } else {
            (0 - n) as u64
        };
        let digits = u64_to_chars(magnitude);
        let mut r: Vec<char> = Vec::new();
        r.push('-');
        append_chars(&mut r, &digits);
        proof {
            assert(r@ =~= spec_signed_digits(n as int));
        }
        r
    }
}

/// Reads a decimal number starting at position `i`: the maximal digit run,
/// which must be non-empty and fit a `u64`.
#[verifier::loop_isolation(false)]
pub fn parse_u64_at(v: &Vec<char>, i: usize) -> (r: Option<(u64, usize)>)
    requires
        i <= v@.len(),
    ensures
        match (spec_parse_u64_prefix(v@.skip(i as int)), r) {
            (Some(p), Some(q)) => {
                &&& q.0 == p.0
                &&& i <= q.1 <= v@.len()
                &&& v@.skip(q.1 as int) == p.1
            },
            (None, None) => true,
            _ => false,
        },
{
    let ghost s = v@.skip(i as int);
    proof {
        assert(forall|k: int| 0 <= k < s.len() ==> s[k] == v@[i + k]);
    }
    let mut j: usize = i;
    while j < v.len() && is_digit_char(v[j])
        invariant
            i <= j <= v@.len(),
            s == v@.skip(i as int),
            forall|k: int| i <= k < j ==> is_digit(v@[k]),
            spec_digit_prefix_len(s) == (j - i) + spec_digit_prefix_len(v@.skip(j as int)),
        decreases v@.len() - j,
    {
        proof {
            let t = v@.skip(j as int);
            assert(t[0] == v@[j as int]);
            assert(t.drop_first() =~= v@.skip(j as int + 1));
            assert(spec_digit_prefix_len(t) == 1 + spec_digit_prefix_len(
                v@.skip(j as int + 1),
            ));
        }
        j = j + 1;
    }
    proof {
        let t = v@.skip(j as int);
        if t.len() > 0 {
            assert(t[0] == v@[j as int]);
            assert(!is_digit(t[0]));
        }
        assert(spec_digit_prefix_len(t) == 0);
        assert(spec_digit_prefix_len(s) == j - i);
        assert(s.take(j - i) =~= v@.subrange(i as int, j as int));
        assert(s.skip(j - i) =~= v@.skip(j as int));
    }
    if j == i {
        return None;
    }
    let mut acc: u64 = 0;
    let mut k: usize = i;
    while k < j
        invariant
            i <= k <= j <= v@.len(),
            forall|m: int| i <= m < j ==> is_digit(v@[m]),
            acc == spec_digits_val(v@.subrange(i as int, k as int)),
            spec_digits_val(v@.subrange(i as int, k as int)) <= spec_digits_val(
                v@.subrange(i as int, j as int),
            ),
        decreases j - k,
    {
        let c = v[k];
        let d: u64 = (c as u32 - 48) as u64;
        proof {
            assert(is_digit(v@[k as int]));
            assert(d == spec_digit_val(v@[k as int]));
            assert(d <= 9);
            let p = v@.subrange(i as int, k as int + 1);
            assert(p.drop_last() =~= v@.subrange(i as int, k as int));
            assert(p.last() == v@[k as int]);
            assert(spec_digits_val(p) == acc * 10 + d);
            lemma_digits_val_prefix_le(v@.subrange(i as int, j as int), k + 1 - i);
            assert(v@.subrange(i as int, j as int).take(k + 1 - i) =~= p);
        }
        if acc > (u64::MAX - d) / 10 {
            proof {
                assert(acc * 10 + d > u64::MAX) by (nonlinear_arith)
                    requires
                        acc > (u64::MAX - d) / 10,
                        d <= 9,
                ;
            }
            return None;
        }
        proof {
            assert(acc * 10 + d <= u64::MAX) by (nonlinear_arith)
                requires
                    acc <= (u64::MAX - d) / 10,
                    d <= 9,
            ;
        }
        acc = acc * 10 + d;
        k = k + 1;
    }
    Some((acc, j))
}

/// Reads a signed decimal number starting at position `i`.
pub fn parse_i64_at(v: &Vec<char>, i: usize) -> (r: Option<(i64, usize)>)
    requires
        i <= v@.len(),
    ensures
        match (spec_parse_i64_prefix(v@.skip(i as int)), r) {
            (Some(p), Some(q)) => {
                &&& q.0 == p.0
                &&& i <= q.1 <= v@.len()
                &&& v@.skip(q.1 as int) == p.1
            },
            (None, None) => true,
            _ => false,
        },
{
    let ghost s = v@.skip(i as int);
    if i < v.len() && v[i] == '-' {
        proof {
            assert(s[0] == '-');
            assert(s.drop_first() =~= v@.skip(i as int + 1));
        }
        match parse_u64_at(v, i + 1) {
            Some(q) => {
                if q.0 <= 0x8000_0000_0000_0000u64 {
                    let value: i64 = if q.0 == 0x8000_0000_0000_0000u64 {
                        i64::MIN
                    } else {
                        0 - (q.0 as i64)
                    };
                    Some((value, q.1))
                } else {
                    None
                }
            },
            None => None,
        }
    } else {
        proof {
            if s.len() > 0 {
                assert(s[0] == v@[i as int]);
            }
        }
        match parse_u64_at(v, i) {
            Some(q) => {
                if q.0 <= 0x7FFF_FFFF_FFFF_FFFFu64 {
                    Some((q.0 as i64, q.1))
                } else {
                    None
                }
            },
            None => None,
        }
    }
}

/// Whether the text at position `i` starts with the literal; on success
/// returns the position just after it.
pub open spec fn spec_expect(s: Seq<char>, lit: Seq<char>) -> Option<Seq<char>> {
    if lit.len() <= s.len() && s.take(lit.len() as int) == lit {
        Some(s.skip(lit.len() as int))
    } else {
        None
    }
}

/// A literal prefix peels off cleanly.
pub proof fn lemma_expect_prepend(lit: Seq<char>, rest: Seq<char>)
    ensures
        spec_expect(lit + rest, lit) == Some(rest),
{
    let s = lit + rest;
    assert(s.take(lit.len() as int) =~= lit);
    assert(s.skip(lit.len() as int) =~= rest);
}

/// Consumes the literal at position `i`, if it is there.
#[verifier::loop_isolation(false)]
pub fn expect_lit(v: &Vec<char>, i: usize, lit: &str) -> (r: Option<usize>)
    requires
        i <= v@.len(),
    ensures
        match (spec_expect(v@.skip(i as int), lit@), r) {
            (Some(rest), Some(j)) => {
                &&& i <= j <= v@.len()
                &&& v@.skip(j as int) == rest
            },
            (None, None) => true,
            _ => false,
        },
{
    let ghost s = v@.skip(i as int);
    let lit_chars = crate::text::chars_of(lit);
    let n = lit_chars.len();
    if v.len() - i < n {
        proof {
            assert(s.len() < lit@.len());
        }
        return None;
    }
    let mut k: usize = 0;
    while k < n
        invariant
            0 <= k <= n,
            n == lit@.len(),
            lit_chars@ == lit@,
            s == v@.skip(i as int),
            i + n <= v@.len(),
            forall|m: int| 0 <= m < k ==> v@[i + m] == lit@[m],
        decreases n - k,
    {
        if v[i + k] != lit_chars[k] {
            proof {
                assert(s[k as int] == v@[i + k]);
                assert(s.take(lit@.len() as int)[k as int] == s[k as int]);
                assert(s.take(lit@.len() as int) != lit@);
            }
            return None;
        }
        k = k + 1;
    }
    proof {
        assert(forall|m: int| 0 <= m < n ==> s[m] == v@[i + m]);
        assert(s.take(lit@.len() as int) =~= lit@);
        assert(s.skip(lit@.len() as int) =~= v@.skip(i + n));
    }
    Some(i + n)
}

/// An exec test for `is_hex_digit`.
pub fn is_hex_digit_char(c: char) -> (r: bool)
    ensures
        r == is_hex_digit(c),
{
    let u: u32 = c as u32;
    is_digit_char(c) || (97 <= u && u <= 102) || (65 <= u && u <= 70)
}

/// The value of a hexadecimal digit character.
pub fn hex_val_char(c: char) -> (r: u32)
    requires
        is_hex_digit(c),
    ensures
        r == spec_hex_val(c),
        r < 16,
{
    let u: u32 = c as u32;
    if is_digit_char(c) {
        u - 48
    } else if u <= 70 {
        u - 55
    } else {
        u - 87
    }
}

/// Relies on std's `char::from_u32`: a value below the surrogate range,
/// or between it and the highest four-digit value, is the character with
/// exactly that scalar value. The fallback arm is unreachable under the
/// precondition.
#[verifier::external_body]
fn char_from_code(code: u32) -> (c: char)
    requires
        code < 0xD800 || (0xE000 <= code && code <= 0xFFFF),
    ensures
        c as u32 == code,
{
    char::from_u32(code).unwrap_or(' ')
}

// ------------------------------------------------------------------
// The JSON encoding of scan reports.
// ------------------------------------------------------------------

/// The encoding of a quoted text: the escaped content between quotes.
pub open spec fn spec_encode_text(t: Seq<char>) -> Seq<char> {
    seq!['"'] + spec_escape(t) + seq!['"']
}

/// The encoding of a metric value: a number, a quoted text or a boolean.
pub open spec fn spec_encode_metric(m: MetricValueModel) -> Seq<char> {
    match m {
        MetricValueModel::Number(n) => spec_signed_digits(n as int),
        MetricValueModel::Text(t) => spec_encode_text(t),
        MetricValueModel::Boolean(b) => if b {
            "true"@
        } else {
            "false"@
        },
    }
}

/// The encoding of one harvested metric.
pub open spec fn spec_encode_result(r: ScanMetadataModel) -> Seq<char> {
    "{\"key\":\""@ + spec_escape(r.key) + "\",\"description\":\""@ + spec_escape(
        r.description,
    ) + "\",\"value\":"@ + spec_encode_metric(r.value) + "}"@
}

/// The encoding of a result list body: the elements, comma-separated.
pub open spec fn spec_encode_results(rs: Seq<ScanMetadataModel>) -> Seq<char>
    decreases rs.len(),
{
    if rs.len() == 0 {
        Seq::<char>::empty()
    } else if rs.len() == 1 {
        spec_encode_result(rs[0])
    } else {
        spec_encode_result(rs[0]) + seq![','] + spec_encode_results(rs.drop_first())
    }
}

/// The encoding of an optional text: `null` when absent.
pub open spec fn spec_encode_opt_text(m: Option<Seq<char>>) -> Seq<char> {
    match m {
        None => "null"@,
        Some(t) => spec_encode_text(t),
    }
}

/// The encoding of a commit.
pub open spec fn spec_encode_commit(c: GitCommitModel) -> Seq<char> {
    "{\"commitId\":\""@ + spec_escape(c.commit_id) + "\",\"message\":"@
        + spec_encode_opt_text(c.message) + ",\"branch\":\""@ + spec_escape(c.branch)
        + "\"}"@
}

/// The encoding of a whole scan report.
pub open spec fn spec_encode_scan(s: ScanModel) -> Seq<char> {
    "{\"functionId\":\""@ + spec_escape(s.function_id) + "\",\"repositoryId\":\""@
        + spec_escape(s.repository_id) + "\",\"commit\":"@ + spec_encode_commit(s.commit)
        + ",\"hasFailed\":"@ + (if s.has_failed {
        "true"@
    } else {
        "false"@
    }) + ",\"logs\":\""@ + spec_escape(s.logs) + "\",\"timingMs\":"@ + spec_digits(
        s.timing_ms as nat,
    ) + ",\"results\":["@ + spec_encode_results(s.results) + "]}"@
}

/// Appends the encoding of a quoted text.
fn append_text(out: &mut Vec<char>, t: &String)
    ensures
        final(out)@ == old(out)@ + spec_encode_text(t@),
{
    out.push('"');
    let chars = crate::text::chars_of(t.as_str());
    append_escaped(out, &chars);
    out.push('"');
    proof {
        assert(final(out)@ =~= old(out)@ + spec_encode_text(t@));
    }
}

/// Appends the encoding of a metric value.
fn append_metric(out: &mut Vec<char>, m: &MetricValue)
    ensures
        final(out)@ == old(out)@ + spec_encode_metric(m@),
{
    match m {
        MetricValue::Number(n) => {
            let digits = i64_to_chars(*n);
            append_chars(out, &digits);
        },
        MetricValue::Text(t) => {
            append_text(out, t);
        },
        MetricValue::Boolean(b) => {
            if *b {
                append_str_chars(out, "true");
            } else {
                append_str_chars(out, "false");
            }
        },
    }
}

/// Appends the encoding of one harvested metric.
fn append_result(out: &mut Vec<char>, r: &ScanMetadata)
    ensures
        final(out)@ == old(out)@ + spec_encode_result(r@),
{
    append_str_chars(out, "{\"key\":\"");
    let key_chars = crate::text::chars_of(r.key.as_str());
    append_escaped(out, &key_chars);
    append_str_chars(out, "\",\"description\":\"");
    let desc_chars = crate::text::chars_of(r.description.as_str());
    append_escaped(out, &desc_chars);
    append_str_chars(out, "\",\"value\":");
    append_metric(out, &r.value);
    append_str_chars(out, "}");
    proof {
        assert(final(out)@ =~= old(out)@ + spec_encode_result(r@));
    }
}

/// Appends the encoding of a result list body.
fn append_results(out: &mut Vec<char>, rs: &Vec<ScanMetadata>)
    ensures
        final(out)@ == old(out)@ + spec_encode_results(rs@.map_values(|m: ScanMetadata| m@)),
{
    let ghost models = rs@.map_values(|m: ScanMetadata| m@);
    let mut i: usize = 0;
    while i < rs.len()
        invariant
            i <= rs@.len(),
            models == rs@.map_values(|m: ScanMetadata| m@),
            out@ == old(out)@ + spec_encode_results(models.take(i as int)),
        decreases rs.len() - i,
    {
        if i > 0 {
            out.push(',');
        }
        append_result(out, &rs[i]);
        i = i + 1;
        proof {
            lemma_encode_results_take(models, i as int);
        }
    }
    proof {
        assert(models.take(models.len() as int) =~= models);
    }
}

/// Extending the encoded prefix of a result list by one element.
proof fn lemma_encode_results_take(rs: Seq<ScanMetadataModel>, i: int)
    requires
        1 <= i <= rs.len(),
    ensures
        spec_encode_results(rs.take(i)) == if i == 1 {
            spec_encode_result(rs[0])
        } else {
            spec_encode_results(rs.take(i - 1)) + seq![','] + spec_encode_result(rs[i - 1])
        },
    decreases i,
{
    if i == 1 {
        assert(rs.take(1) =~= seq![rs[0]]);
        assert(spec_encode_results(rs.take(1)) == spec_encode_result(rs[0]));
    } else {
        lemma_encode_results_snoc(rs.take(i));
        assert(rs.take(i).drop_last() =~= rs.take(i - 1));
        assert(rs.take(i).last() == rs[i - 1]);
    }
}

/// Peeling the last element off a non-singleton encoded list.
proof fn lemma_encode_results_snoc(rs: Seq<ScanMetadataModel>)
    requires
        rs.len() >= 2,
    ensures
        spec_encode_results(rs) == spec_encode_results(rs.drop_last()) + seq![',']
            + spec_encode_result(rs.last()),
    decreases rs.len(),
{
    if rs.len() == 2 {
        assert(rs.drop_first() =~= seq![rs[1]]);
        assert(rs.drop_last() =~= seq![rs[0]]);
        assert(spec_encode_results(rs.drop_first()) == spec_encode_result(rs[1]));
        assert(spec_encode_results(rs.drop_last()) == spec_encode_result(rs[0]));
    } else {
        lemma_encode_results_snoc(rs.drop_first());
        assert(rs.drop_first().drop_last() =~= rs.drop_last().drop_first());
        assert(rs.drop_first().last() == rs.last());
        assert(rs.drop_last()[0] == rs[0]);
        assert(rs.drop_last().len() >= 2);
        assert(spec_encode_results(rs) == spec_encode_result(rs[0]) + seq![','] + (
        spec_encode_results(rs.drop_first().drop_last()) + seq![','] + spec_encode_result(
            rs.last(),
        )));
        assert(spec_encode_result(rs[0]) + seq![','] + (spec_encode_results(
            rs.drop_last().drop_first(),
        ) + seq![','] + spec_encode_result(rs.last())) =~= (spec_encode_result(
            rs.drop_last()[0],
        ) + seq![','] + spec_encode_results(rs.drop_last().drop_first())) + seq![',']
            + spec_encode_result(rs.last()));
    }
}

// ------------------------------------------------------------------
// The JSON encoding of issue uploads.
// ------------------------------------------------------------------

/// The encoding of one issue, back-references included.
pub open spec fn spec_encode_issue(i: CodeIssueModel) -> Seq<char> {
    "{\"name\":"@ + spec_encode_text(i.name) + ",\"severity\":"@ + spec_encode_opt_text(
        i.severity,
    ) + ",\"repositoryId\":"@ + spec_encode_opt_text(i.repository_id) + ",\"functionId\":"@
        + spec_encode_opt_text(i.function_id) + ",\"scanId\":"@ + spec_encode_opt_text(
        i.scan_id,
    ) + "}"@
}

/// The encoding of an issue list body: the elements, comma-separated.
pub open spec fn spec_encode_issue_list(items: Seq<CodeIssueModel>) -> Seq<char>
    decreases items.len(),
{
    if items.len() == 0 {
        Seq::<char>::empty()
    } else if items.len() == 1 {
        spec_encode_issue(items[0])
    } else {
        spec_encode_issue(items[0]) + seq![','] + spec_encode_issue_list(items.drop_first())
    }
}

/// The encoding of a whole issue upload.
pub open spec fn spec_encode_issues(items: Seq<CodeIssueModel>) -> Seq<char> {
    "{\"issues\":["@ + spec_encode_issue_list(items) + "]}"@
}

/// Appends the encoding of an optional text.
fn append_opt_text(out: &mut Vec<char>, t: &Option<String>)
    ensures
        final(out)@ == old(out)@ + spec_encode_opt_text(
            match t {
                Some(s) => Some(s@),
                None => None,
            },
        ),
{
    match t {
        Some(s) => append_text(out, s),
        None => append_str_chars(out, "null"),
    }
}

/// Appends the encoding of one issue.
#[verifier::rlimit(100)]
fn append_issue(out: &mut Vec<char>, i: &crate::models::CodeIssue)
    ensures
        final(out)@ == old(out)@ + spec_encode_issue(i@),
{
    append_str_chars(out, "{\"name\":");
    append_text(out, &i.name);
    append_str_chars(out, ",\"severity\":");
    append_opt_text(out, &i.severity);
    append_str_chars(out, ",\"repositoryId\":");
    append_opt_text(out, &i.repository_id);
    append_str_chars(out, ",\"functionId\":");
    append_opt_text(out, &i.function_id);
    append_str_chars(out, ",\"scanId\":");
    append_opt_text(out, &i.scan_id);
    append_str_chars(out, "}");
    proof {
        assert(final(out)@ =~= old(out)@ + spec_encode_issue(i@));
    }
}

/// Extending the encoded prefix of an issue list by one element.
proof fn lemma_encode_issue_list_take(items: Seq<CodeIssueModel>, i: int)
    requires
        1 <= i <= items.len(),
    ensures
        spec_encode_issue_list(items.take(i)) == if i == 1 {
            spec_encode_issue(items[0])
        } else {
            spec_encode_issue_list(items.take(i - 1)) + seq![','] + spec_encode_issue(
                items[i - 1],
            )
        },
    decreases i,
{
    if i == 1 {
        assert(items.take(1) =~= seq![items[0]]);
    } else {
        lemma_encode_issue_list_snoc(items.take(i));
        assert(items.take(i).drop_last() =~= items.take(i - 1));
        assert(items.take(i).last() == items[i - 1]);
    }
}

/// Peeling the last element off a non-singleton encoded issue list.
proof fn lemma_encode_issue_list_snoc(items: Seq<CodeIssueModel>)
    requires
        items.len() >= 2,
    ensures
        spec_encode_issue_list(items) == spec_encode_issue_list(items.drop_last()) + seq![',']
            + spec_encode_issue(items.last()),
    decreases items.len(),
{
    if items.len() == 2 {
        assert(items.drop_first() =~= seq![items[1]]);
        assert(items.drop_last() =~= seq![items[0]]);
        assert(spec_encode_issue_list(items.drop_first()) == spec_encode_issue(items[1]));
        assert(spec_encode_issue_list(items.drop_last()) == spec_encode_issue(items[0]));
    } else {
        lemma_encode_issue_list_snoc(items.drop_first());
        assert(spec_encode_issue_list(items) == spec_encode_issue(items[0]) + seq![','] + (
        spec_encode_issue_list(items.drop_first().drop_last()) + seq![',']
            + spec_encode_issue(items.last())));
        assert(items.drop_first().drop_last() =~= items.drop_last().drop_first());
        assert(items.drop_first().last() == items.last());
        assert(items.drop_last()[0] == items[0]);
        assert(items.drop_last().len() >= 2);
        assert(spec_encode_issue(items[0]) + seq![','] + (spec_encode_issue_list(
            items.drop_last().drop_first(),
        ) + seq![','] + spec_encode_issue(items.last())) =~= (spec_encode_issue(
            items.drop_last()[0],
        ) + seq![','] + spec_encode_issue_list(items.drop_last().drop_first())) + seq![',']
            + spec_encode_issue(items.last()));
    }
}

/// The JSON text of an issue upload, as posted to the scheduler.
pub fn encode_issues(m: &crate::models::MassIssues) -> (r: String)
    ensures
        r@ == spec_encode_issues(m@),
{
    let ghost models = m.issues@.map_values(|i: crate::models::CodeIssue| i@);
    let mut out: Vec<char> = Vec::new();
    append_str_chars(&mut out, "{\"issues\":[");
    let mut i: usize = 0;
    while i < m.issues.len()
        invariant
            i <= m.issues@.len(),
            models == m.issues@.map_values(|i: crate::models::CodeIssue| i@),
            out@ == "{\"issues\":["@ + spec_encode_issue_list(models.take(i as int)),
        decreases m.issues.len() - i,
    {
        if i > 0 {
            out.push(',');
        }
        append_issue(&mut out, &m.issues[i]);
        i = i + 1;
        proof {
            lemma_encode_issue_list_take(models, i as int);
        }
    }
    append_str_chars(&mut out, "]}");
    proof {
        assert(models.take(models.len() as int) =~= models);
        assert(out@ =~= spec_encode_issues(m@));
    }
    crate::text::string_from_chars(&out)
}

// ------------------------------------------------------------------
// The decoder for that encoding.
// ------------------------------------------------------------------

/// What a metric value denotes at the head of the text: a leading quote
/// opens a text, `t`/`f` open the booleans, anything else must be a
/// signed number.
pub open spec fn spec_parse_metric(s: Seq<char>) -> Option<(MetricValueModel, Seq<char>)> {
    if s.len() == 0 {
        None
    } else if s[0] == '"' {
        match spec_parse_quoted(s.drop_first()) {
            Some(p) => Some((MetricValueModel::Text(p.0), p.1)),
            None => None,
        }
    } else if s[0] == 't' {
        match spec_expect(s, "true"@) {
            Some(r) => Some((MetricValueModel::Boolean(true), r)),
            None => None,
        }
    } else if s[0] == 'f' {
        match spec_expect(s, "false"@) {
            Some(r) => Some((MetricValueModel::Boolean(false), r)),
            None => None,
        }
    } else {
        match spec_parse_i64_prefix(s) {
            Some(p) => Some((MetricValueModel::Number(p.0), p.1)),
            None => None,
        }
    }
}

/// What one encoded result object denotes at the head of the text.
pub open spec fn spec_parse_result(s: Seq<char>) -> Option<(ScanMetadataModel, Seq<char>)> {
    match spec_expect(s, "{\"key\":\""@) {
        Some(r1) => match spec_parse_quoted(r1) {
            Some(p1) => match spec_expect(p1.1, ",\"description\":\""@) {
                Some(r2) => match spec_parse_quoted(r2) {
                    Some(p2) => match spec_expect(p2.1, ",\"value\":"@) {
                        Some(r3) => match spec_parse_metric(r3) {
                            Some(p3) => match spec_expect(p3.1, "}"@) {
                                Some(r4) => Some(
                                    (
                                        ScanMetadataModel {
                                            key: p1.0,
                                            description: p2.0,
                                            value: p3.0,
                                        },
                                        r4,
                                    ),
                                ),
                                None => None,
                            },
                            None => None,
                        },
                        None => None,
                    },
                    None => None,
                },
                None => None,
            },
            None => None,
        },
        None => None,
    }
}

/// What an encoded result list denotes, up to and including the closing
/// bracket.
pub open spec fn spec_parse_results(s: Seq<char>) -> Option<
    (Seq<ScanMetadataModel>, Seq<char>),
>
    decreases s.len(),
{
    if s.len() == 0 {
        None
    } else if s[0] == ']' {
        Some((Seq::<ScanMetadataModel>::empty(), s.drop_first()))
    } else {
        match spec_parse_result(s) {
            Some(p) => if p.1.len() < s.len() && p.1.len() > 0 {
                if p.1[0] == ',' {
                    match spec_parse_results(p.1.drop_first()) {
                        Some(q) => Some((seq![p.0] + q.0, q.1)),
                        None => None,
                    }
                } else if p.1[0] == ']' {
                    Some((seq![p.0], p.1.drop_first()))
                } else {
                    None
                }
            } else {
                None
            },
            None => None,
        }
    }
}

/// What an optional text denotes: a quoted text or the literal `null`.
pub open spec fn spec_parse_opt_text(s: Seq<char>) -> Option<
    (Option<Seq<char>>, Seq<char>),
> {
    if s.len() > 0 && s[0] == '"' {
        match spec_parse_quoted(s.drop_first()) {
            Some(p) => Some((Some(p.0), p.1)),
            None => None,
        }
    } else {
        match spec_expect(s, "null"@) {
            Some(r) => Some((None, r)),
            None => None,
        }
    }
}

/// What a boolean literal denotes at the head of the text.
pub open spec fn spec_parse_bool(s: Seq<char>) -> Option<(bool, Seq<char>)> {
    match spec_expect(s, "true"@) {
        Some(r) => Some((true, r)),
        None => match spec_expect(s, "false"@) {
            Some(r) => Some((false, r)),
            None => None,
        },
    }
}

/// What an encoded commit denotes at the head of the text.
pub open spec fn spec_parse_commit(s: Seq<char>) -> Option<(GitCommitModel, Seq<char>)> {
    match spec_expect(s, "{\"commitId\":\""@) {
        Some(r1) => match spec_parse_quoted(r1) {
            Some(p1) => match spec_expect(p1.1, ",\"message\":"@) {
                Some(r2) => match spec_parse_opt_text(r2) {
                    Some(p2) => match spec_expect(p2.1, ",\"branch\":\""@) {
                        Some(r3) => match spec_parse_quoted(r3) {
                            Some(p3) => match spec_expect(p3.1, "}"@) {
                                Some(r4) => Some(
                                    (
                                        GitCommitModel {
                                            commit_id: p1.0,
                                            message: p2.0,
                                            branch: p3.0,
                                        },
                                        r4,
                                    ),
                                ),
                                None => None,
                            },
                            None => None,
                        },
                        None => None,
                    },
                    None => None,
                },
                None => None,
            },
            None => None,
        },
        None => None,
    }
}

/// What a whole encoded scan report denotes; the text must carry nothing
/// after it.
pub open spec fn spec_decode_scan(s: Seq<char>) -> Option<ScanModel> {
    match spec_expect(s, "{\"functionId\":\""@) {
        Some(r1) => match spec_parse_quoted(r1) {
            Some(p1) => match spec_expect(p1.1, ",\"repositoryId\":\""@) {
                Some(r2) => match spec_parse_quoted(r2) {
                    Some(p2) => match spec_expect(p2.1, ",\"commit\":"@) {
                        Some(r3) => match spec_parse_commit(r3) {
                            Some(p3) => match spec_expect(p3.1, ",\"hasFailed\":"@) {
                                Some(r4) => match spec_parse_bool(r4) {
                                    Some(p4) => match spec_expect(p4.1, ",\"logs\":\""@) {
                                        Some(r5) => match spec_parse_quoted(r5) {
                                            Some(p5) => match spec_expect(
                                                p5.1,
                                                ",\"timingMs\":"@,
                                            ) {
                                                Some(r6) => match spec_parse_u64_prefix(r6) {
                                                    Some(p6) => if p6.0 <= usize::MAX as u64 {
                                                        match spec_expect(
                                                            p6.1,
                                                            ",\"results\":["@,
                                                        ) {
                                                            Some(r7) => match spec_parse_results(
                                                                r7,
                                                            ) {
                                                                Some(p7) => match spec_expect(
                                                                    p7.1,
                                                                    "}"@,
                                                                ) {
                                                                    Some(r8) => if r8.len() == 0 {
                                                                        Some(
                                                                            ScanModel {
                                                                                function_id: p1.0,
                                                                                repository_id: p2.0,
                                                                                commit: p3.0,
                                                                                has_failed: p4.0,
                                                                                logs: p5.0,
                                                                                timing_ms: p6.0 as usize,
                                                                                results: p7.0,
                                                                            },
                                                                        )
                                                                    } else {
                                                                        None
                                                                    },
                                                                    None => None,
                                                                },
                                                                None => None,
                                                            },
                                                            None => None,
                                                        }
                                                    } else {
                                                        None
                                                    },
                                                    None => None,
                                                },
                                                None => None,
                                            },
                                            None => None,
                                        },
                                        None => None,
                                    },
                                    None => None,
                                },
                                None => None,
                            },
                            None => None,
                        },
                        None => None,
                    },
                    None => None,
                },
                None => None,
            },
            None => None,
        },
        None => None,
    }
}

// ------------------------------------------------------------------
// Round trip: decoding an encoded report gives the report back.
// ------------------------------------------------------------------

/// An encoded text starts with a quote and its body parses back to the
/// text, leaving what follows untouched.
proof fn lemma_parse_text_encode(t: Seq<char>, rest: Seq<char>)
    ensures
        (spec_encode_text(t) + rest).len() > 0,
        (spec_encode_text(t) + rest)[0] == '"',
        spec_parse_quoted((spec_encode_text(t) + rest).drop_first()) == Some((t, rest)),
{
    let s = spec_encode_text(t) + rest;
    assert(s[0] == '"');
    assert(s.drop_first() =~= spec_escape(t) + seq!['"'] + rest);
    lemma_parse_quoted_escape(t, rest);
}

/// An encoded metric value parses back, given that what follows does not
/// begin with a digit.
pub proof fn lemma_parse_metric_encode(m: MetricValueModel, rest: Seq<char>)
    requires
        rest.len() > 0,
        !is_digit(rest[0]),
    ensures
        spec_parse_metric(spec_encode_metric(m) + rest) == Some((m, rest)),
{
    let s = spec_encode_metric(m) + rest;
    match m {
        MetricValueModel::Number(n) => {
            lemma_parse_i64_prefix_digits(n, rest);
            if n < 0 {
                assert(spec_signed_digits(n as int)[0] == '-');
                assert(s[0] == '-');
            } else {
                lemma_digits_shape(n as nat);
                assert(spec_signed_digits(n as int) == spec_digits(n as nat));
                assert(s[0] == spec_digits(n as nat)[0]);
                assert(is_digit(s[0]));
            }
            assert(s[0] != '"' && s[0] != 't' && s[0] != 'f');
        },
        MetricValueModel::Text(t) => {
            lemma_parse_text_encode(t, rest);
            assert(s == spec_encode_text(t) + rest);
        },
        MetricValueModel::Boolean(b) => {
            reveal_strlit("true");
            reveal_strlit("false");
            if b {
                assert(s =~= "true"@ + rest);
                assert(s[0] == 't');
                lemma_expect_prepend("true"@, rest);
            } else {
                assert(s =~= "false"@ + rest);
                assert(s[0] == 'f');
                lemma_expect_prepend("false"@, rest);
            }
        },
    }
}

/// An encoded result object parses back, whatever follows it.
pub proof fn lemma_parse_result_encode(r: ScanMetadataModel, rest: Seq<char>)
    ensures
        spec_parse_result(spec_encode_result(r) + rest) == Some((r, rest)),
        spec_encode_result(r).len() > 0,
        (spec_encode_result(r) + rest)[0] == '{',
{
    reveal_strlit("{\"key\":\"");
    reveal_strlit("\",\"description\":\"");
    reveal_strlit(",\"description\":\"");
    reveal_strlit("\",\"value\":");
    reveal_strlit(",\"value\":");
    reveal_strlit("}");
    let l1 = "{\"key\":\""@;
    let l2t = ",\"description\":\""@;
    let l3t = ",\"value\":"@;
    let l4 = "}"@;
    assert("\",\"description\":\""@ =~= seq!['"'] + l2t);
    assert("\",\"value\":"@ =~= seq!['"'] + l3t);
    let f = l4 + rest;
    let e = spec_encode_metric(r.value) + f;
    let d = l3t + e;
    let c = spec_escape(r.description) + seq!['"'] + d;
    let b = l2t + c;
    let a = spec_escape(r.key) + seq!['"'] + b;
    let s0 = spec_encode_result(r) + rest;
    assert(s0 =~= l1 + a);
    lemma_expect_prepend(l1, a);
    assert(spec_expect(s0, l1) == Some(a));
    lemma_parse_quoted_escape(r.key, b);
    lemma_expect_prepend(l2t, c);
    lemma_parse_quoted_escape(r.description, d);
    lemma_expect_prepend(l3t, e);
    assert(f.len() > 0 && f[0] == '}');
    assert(!is_digit('}'));
    lemma_parse_metric_encode(r.value, f);
    lemma_expect_prepend(l4, rest);
    assert(spec_parse_result(s0) == Some(
        (ScanMetadataModel { key: r.key, description: r.description, value: r.value }, rest),
    ));
    assert(ScanMetadataModel { key: r.key, description: r.description, value: r.value } == r);
    assert(spec_encode_result(r).len() >= l1.len());
    assert(s0[0] == '{');
}

/// An encoded result list followed by its closing bracket parses back.
#[verifier::rlimit(100)]
pub proof fn lemma_parse_results_encode(rs: Seq<ScanMetadataModel>, rest: Seq<char>)
    ensures
        spec_parse_results(spec_encode_results(rs) + seq![']'] + rest) == Some((rs, rest)),
    decreases rs.len(),
{
    let s = spec_encode_results(rs) + seq![']'] + rest;
    if rs.len() == 0 {
        assert(s =~= seq![']'] + rest);
        assert(s[0] == ']');
        assert(s.drop_first() =~= rest);
        assert(rs =~= Seq::<ScanMetadataModel>::empty());
    } else if rs.len() == 1 {
        let x = seq![']'] + rest;
        lemma_parse_result_encode(rs[0], x);
        assert(s =~= spec_encode_result(rs[0]) + x);
        assert(s[0] == '{');
        assert(s[0] != ']');
        assert(x.len() < s.len());
        assert(x[0] == ']');
        assert(x[0] != ',');
        assert(x.drop_first() =~= rest);
        assert(seq![rs[0]] =~= rs);
    } else {
        lemma_parse_results_encode(rs.drop_first(), rest);
        let tail = spec_encode_results(rs.drop_first()) + seq![']'] + rest;
        let x = seq![','] + tail;
        lemma_parse_result_encode(rs[0], x);
        assert(spec_encode_results(rs) == spec_encode_result(rs[0]) + seq![',']
            + spec_encode_results(rs.drop_first()));
        assert(s =~= spec_encode_result(rs[0]) + x);
        assert(s[0] == '{');
        assert(s[0] != ']');
        assert(x.len() < s.len());
        assert(x[0] == ',');
        assert(x.drop_first() =~= tail);
        assert(seq![rs[0]] + rs.drop_first() =~= rs);
    }
}

/// An encoded optional text parses back, whatever follows it.
proof fn lemma_parse_opt_text_encode(m: Option<Seq<char>>, rest: Seq<char>)
    ensures
        spec_parse_opt_text(spec_encode_opt_text(m) + rest) == Some((m, rest)),
{
    let s = spec_encode_opt_text(m) + rest;
    match m {
        Some(t) => {
            lemma_parse_text_encode(t, rest);
            assert(s == spec_encode_text(t) + rest);
        },
        None => {
            reveal_strlit("null");
            assert(s =~= "null"@ + rest);
            assert(s[0] == 'n');
            assert(s[0] != '"');
            lemma_expect_prepend("null"@, rest);
        },
    }
}

/// An encoded boolean parses back, whatever follows it.
proof fn lemma_parse_bool_encode(b: bool, rest: Seq<char>)
    ensures
        spec_parse_bool(
            (if b {
                "true"@
            } else {
                "false"@
            }) + rest,
        ) == Some((b, rest)),
{
    reveal_strlit("true");
    reveal_strlit("false");
    if b {
        lemma_expect_prepend("true"@, rest);
    } else {
        let s = "false"@ + rest;
        lemma_expect_prepend("false"@, rest);
        assert(spec_expect(s, "true"@) is None) by {
            if spec_expect(s, "true"@) is Some {
                assert(s.take(4)[0] == 'f');
                assert("true"@[0] == 't');
            }
        }
    }
}

/// An encoded commit parses back, whatever follows it.
pub proof fn lemma_parse_commit_encode(c: GitCommitModel, rest: Seq<char>)
    ensures
        spec_parse_commit(spec_encode_commit(c) + rest) == Some((c, rest)),
        spec_encode_commit(c).len() > 0,
{
    reveal_strlit("{\"commitId\":\"");
    reveal_strlit("\",\"message\":");
    reveal_strlit(",\"message\":");
    reveal_strlit(",\"branch\":\"");
    reveal_strlit("\"}");
    reveal_strlit("}");
    let l1 = "{\"commitId\":\""@;
    let l2t = ",\"message\":"@;
    let l3 = ",\"branch\":\""@;
    let l4 = "}"@;
    assert("\",\"message\":"@ =~= seq!['"'] + l2t);
    assert("\"}"@ =~= seq!['"'] + l4);
    let f = l4 + rest;
    let e = spec_escape(c.branch) + seq!['"'] + f;
    let d = l3 + e;
    let cc = spec_encode_opt_text(c.message) + d;
    let b = l2t + cc;
    let a = spec_escape(c.commit_id) + seq!['"'] + b;
    let s0 = spec_encode_commit(c) + rest;
    assert(s0 =~= l1 + a);
    lemma_expect_prepend(l1, a);
    assert(spec_expect(s0, l1) == Some(a));
    lemma_parse_quoted_escape(c.commit_id, b);
    lemma_expect_prepend(l2t, cc);
    lemma_parse_opt_text_encode(c.message, d);
    lemma_expect_prepend(l3, e);
    lemma_parse_quoted_escape(c.branch, f);
    lemma_expect_prepend(l4, rest);
    assert(spec_parse_commit(s0) == Some(
        (GitCommitModel { commit_id: c.commit_id, message: c.message, branch: c.branch }, rest),
    ));
    assert(GitCommitModel { commit_id: c.commit_id, message: c.message, branch: c.branch }
        == c);
    assert(spec_encode_commit(c).len() >= l1.len());
}

/// The encoded scan report, grouped the way the decoder consumes it.
spec fn spec_scan_layout(m: ScanModel) -> Seq<char> {
    let i = "}"@;
    let h = spec_encode_results(m.results) + seq![']'] + i;
    let g = ",\"results\":["@ + h;
    let ff = spec_digits(m.timing_ms as nat) + g;
    let ee = ",\"timingMs\":"@ + ff;
    let dd = spec_escape(m.logs) + seq!['"'] + ee;
    let cc = ",\"logs\":\""@ + dd;
    let bb = (if m.has_failed {
        "true"@
    } else {
        "false"@
    }) + cc;
    let aa = ",\"hasFailed\":"@ + bb;
    let zz = spec_encode_commit(m.commit) + aa;
    let yy = ",\"commit\":"@ + zz;
    let xx = spec_escape(m.repository_id) + seq!['"'] + yy;
    let ww = ",\"repositoryId\":\""@ + xx;
    let vv = spec_escape(m.function_id) + seq!['"'] + ww;
    "{\"functionId\":\""@ + vv
}

/// The encoder emits exactly that grouping.
#[verifier::rlimit(100)]
proof fn lemma_scan_layout(m: ScanModel)
    ensures
        spec_encode_scan(m) == spec_scan_layout(m),
{
    reveal_strlit("\",\"repositoryId\":\"");
    reveal_strlit(",\"repositoryId\":\"");
    reveal_strlit("\",\"commit\":");
    reveal_strlit(",\"commit\":");
    reveal_strlit("\",\"timingMs\":");
    reveal_strlit(",\"timingMs\":");
    reveal_strlit("]}");
    reveal_strlit("}");
    reveal_strlit("]");
    assert("\",\"repositoryId\":\""@ =~= seq!['"'] + ",\"repositoryId\":\""@);
    assert("\",\"commit\":"@ =~= seq!['"'] + ",\"commit\":"@);
    assert("\",\"timingMs\":"@ =~= seq!['"'] + ",\"timingMs\":"@);
    assert("]}"@ =~= seq![']'] + "}"@);
    assert(spec_encode_scan(m) =~= spec_scan_layout(m));
}

/// Decoding an encoded scan report reproduces the report.
#[verifier::rlimit(100)]
pub proof fn lemma_scan_round_trip(m: ScanModel)
    ensures
        spec_decode_scan(spec_encode_scan(m)) == Some(m),
{
    reveal_strlit(",\"results\":[");
    let l1 = "{\"functionId\":\""@;
    let l2t = ",\"repositoryId\":\""@;
    let l3t = ",\"commit\":"@;
    let l4 = ",\"hasFailed\":"@;
    let l5 = ",\"logs\":\""@;
    let l6t = ",\"timingMs\":"@;
    let l7 = ",\"results\":["@;
    let l8 = "}"@;
    let boolenc = if m.has_failed {
        "true"@
    } else {
        "false"@
    };
    let i = l8;
    let h = spec_encode_results(m.results) + seq![']'] + i;
    let g = l7 + h;
    let ff = spec_digits(m.timing_ms as nat) + g;
    let ee = l6t + ff;
    let dd = spec_escape(m.logs) + seq!['"'] + ee;
    let cc = l5 + dd;
    let bb = boolenc + cc;
    let aa = l4 + bb;
    let zz = spec_encode_commit(m.commit) + aa;
    let yy = l3t + zz;
    let xx = spec_escape(m.repository_id) + seq!['"'] + yy;
    let ww = l2t + xx;
    let vv = spec_escape(m.function_id) + seq!['"'] + ww;
    let s0 = spec_encode_scan(m);
    lemma_scan_layout(m);
    assert(s0 == l1 + vv);
    lemma_expect_prepend(l1, vv);
    assert(spec_expect(s0, l1) == Some(vv));
    lemma_parse_quoted_escape(m.function_id, ww);
    lemma_expect_prepend(l2t, xx);
    lemma_parse_quoted_escape(m.repository_id, yy);
    lemma_expect_prepend(l3t, zz);
    lemma_parse_commit_encode(m.commit, aa);
    lemma_expect_prepend(l4, bb);
    lemma_parse_bool_encode(m.has_failed, cc);
    assert(bb == boolenc + cc);
    lemma_expect_prepend(l5, dd);
    lemma_parse_quoted_escape(m.logs, ee);
    lemma_expect_prepend(l6t, ff);
    assert(g.len() > 0 && g[0] == ',');
    assert(!is_digit(','));
    crate::text::lemma_digits_shape(m.timing_ms as nat);
    lemma_parse_u64_prefix_digits(m.timing_ms as u64, g);
    assert(spec_digits((m.timing_ms as u64) as nat) == spec_digits(m.timing_ms as nat));
    assert(spec_parse_u64_prefix(ff) == Some((m.timing_ms as u64, g)));
    assert(m.timing_ms as u64 <= usize::MAX as u64);
    assert((m.timing_ms as u64) as usize == m.timing_ms);
    lemma_expect_prepend(l7, h);
    lemma_parse_results_encode(m.results, i);
    assert(spec_parse_results(h) == Some((m.results, i)));
    assert(i =~= l8 + Seq::<char>::empty());
    lemma_expect_prepend(l8, Seq::<char>::empty());
    assert(spec_expect(i, l8) == Some(Seq::<char>::empty()));
    assert(spec_decode_scan(s0) == Some(
        ScanModel {
            function_id: m.function_id,
            repository_id: m.repository_id,
            commit: m.commit,
            has_failed: m.has_failed,
            logs: m.logs,
            timing_ms: m.timing_ms,
            results: m.results,
        },
    ));
    assert(ScanModel {
        function_id: m.function_id,
        repository_id: m.repository_id,
        commit: m.commit,
        has_failed: m.has_failed,
        logs: m.logs,
        timing_ms: m.timing_ms,
        results: m.results,
    } == m);
}

/// Appends the encoding of a commit.
fn append_commit(out: &mut Vec<char>, c: &crate::models::GitCommit)
    ensures
        final(out)@ == old(out)@ + spec_encode_commit(c@),
{
    append_str_chars(out, "{\"commitId\":\"");
    let cid_chars = crate::text::chars_of(c.commit_id.as_str());
    append_escaped(out, &cid_chars);
    append_str_chars(out, "\",\"message\":");
    match &c.message {
        Some(m) => append_text(out, m),
        None => append_str_chars(out, "null"),
    }
    append_str_chars(out, ",\"branch\":\"");
    let branch_chars = crate::text::chars_of(c.branch.as_str());
    append_escaped(out, &branch_chars);
    append_str_chars(out, "\"}");
    proof {
        assert(final(out)@ =~= old(out)@ + spec_encode_commit(c@));
    }
}

/// Reads a metric value starting at position `i`.
fn parse_metric_at(v: &Vec<char>, i: usize) -> (r: Option<(MetricValue, usize)>)
    requires
        i <= v@.len(),
    ensures
        match (spec_parse_metric(v@.skip(i as int)), r) {
            (Some(p), Some(q)) => {
                &&& q.0@ == p.0
                &&& i <= q.1 <= v@.len()
                &&& v@.skip(q.1 as int) == p.1
            },
            (None, None) => true,
            _ => false,
        },
{
    let ghost s = v@.skip(i as int);
    if i >= v.len() {
        proof {
            assert(s.len() == 0);
        }
        return None;
    }
    let c = v[i];
    proof {
        assert(s[0] == c);
    }
    if c == '"' {
        proof {
            assert(s.drop_first() =~= v@.skip(i as int + 1));
        }
        match parse_quoted_at(v, i + 1) {
            Some(q) => Some((MetricValue::Text(crate::text::string_from_chars(&q.0)), q.1)),
            None => None,
        }
    } else if c == 't' {
        match expect_lit(v, i, "true") {
            Some(j) => Some((MetricValue::Boolean(true), j)),
            None => None,
        }
    } else if c == 'f' {
        match expect_lit(v, i, "false") {
            Some(j) => Some((MetricValue::Boolean(false), j)),
            None => None,
        }
    } else {
        match parse_i64_at(v, i) {
            Some(q) => Some((MetricValue::Number(q.0), q.1)),
            None => None,
        }
    }
}

/// Reads one encoded result object starting at position `i`.
fn parse_result_at(v: &Vec<char>, i: usize) -> (r: Option<(ScanMetadata, usize)>)
    requires
        i <= v@.len(),
    ensures
        match (spec_parse_result(v@.skip(i as int)), r) {
            (Some(p), Some(q)) => {
                &&& q.0@ == p.0
                &&& i <= q.1 <= v@.len()
                &&& v@.skip(q.1 as int) == p.1
            },
            (None, None) => true,
            _ => false,
        },
{
    let j1 = match expect_lit(v, i, "{\"key\":\"") {
        Some(j) => j,
        None => {
            return None;
        },
    };
    let (key, j2) = match parse_quoted_at(v, j1) {
        Some(q) => q,
        None => {
            return None;
        },
    };
    let j3 = match expect_lit(v, j2, ",\"description\":\"") {
        Some(j) => j,
        None => {
            return None;
        },
    };
    let (description, j4) = match parse_quoted_at(v, j3) {
        Some(q) => q,
        None => {
            return None;
        },
    };
    let j5 = match expect_lit(v, j4, ",\"value\":") {
        Some(j) => j,
        None => {
            return None;
        },
    };
    let (value, j6) = match parse_metric_at(v, j5) {
        Some(q) => q,
        None => {
            return None;
        },
    };
    let j7 = match expect_lit(v, j6, "}") {
        Some(j) => j,
        None => {
            return None;
        },
    };
    Some(
        (
            ScanMetadata {
                key: crate::text::string_from_chars(&key),
                description: crate::text::string_from_chars(&description),
                value,
            },
            j7,
        ),
    )
}

/// Reads an encoded result list starting at position `i`, up to and
/// including the closing bracket.
#[verifier::loop_isolation(false)]
#[verifier::rlimit(100)]
fn parse_results_at(v: &Vec<char>, i: usize) -> (r: Option<(Vec<ScanMetadata>, usize)>)
    requires
        i <= v@.len(),
    ensures
        match (spec_parse_results(v@.skip(i as int)), r) {
            (Some(p), Some(q)) => {
                &&& q.0@.map_values(|m: ScanMetadata| m@) == p.0
                &&& i <= q.1 <= v@.len()
                &&& v@.skip(q.1 as int) == p.1
            },
            (None, None) => true,
            _ => false,
        },
{
    let mut done: Vec<ScanMetadata> = Vec::new();
    let mut j: usize = i;
    loop
        invariant
            i <= j <= v@.len(),
            match spec_parse_results(v@.skip(j as int)) {
                Some(q) => spec_parse_results(v@.skip(i as int)) == Some(
                    (done@.map_values(|m: ScanMetadata| m@) + q.0, q.1),
                ),
                None => spec_parse_results(v@.skip(i as int)) is None,
            },
        decreases v@.len() - j,
    {
        let ghost s = v@.skip(j as int);
        if j >= v.len() {
            proof {
                assert(s.len() == 0);
            }
            return None;
        }
        proof {
            assert(s[0] == v@[j as int]);
        }
        if v[j] == ']' {
            proof {
                assert(s.drop_first() =~= v@.skip(j as int + 1));
                assert(done@.map_values(|m: ScanMetadata| m@)
                    + Seq::<ScanMetadataModel>::empty() =~= done@.map_values(
                    |m: ScanMetadata| m@,
                ));
            }
            return Some((done, j + 1));
        }
        match parse_result_at(v, j) {
            Some(q) => {
                let (elem, j2) = q;
                if !(j2 > j && j2 < v.len()) {
                    proof {
                        assert(spec_parse_results(s) is None);
                    }
                    return None;
                }
                proof {
                    assert(v@.skip(j2 as int)[0] == v@[j2 as int]);
                }
                if v[j2] == ',' {
                    done.push(elem);
                    proof {
                        assert(v@.skip(j2 as int).drop_first() =~= v@.skip(j2 as int + 1));
                    }
                    j = j2 + 1;
                    proof {
                        match spec_parse_results(v@.skip(j as int)) {
                            Some(q2) => {
                                assert(done@.map_values(|m: ScanMetadata| m@)
                                    =~= done@.map_values(|m: ScanMetadata| m@).drop_last().push(
                                    elem@,
                                ));
                                assert(done@.map_values(|m: ScanMetadata| m@).drop_last()
                                    + (seq![elem@] + q2.0) =~= done@.map_values(
                                    |m: ScanMetadata| m@,
                                ) + q2.0);
                            },
                            None => {},
                        }
                    }
                } else if v[j2] == ']' {
                    done.push(elem);
                    proof {
                        assert(v@.skip(j2 as int).drop_first() =~= v@.skip(j2 as int + 1));
                        assert(done@.map_values(|m: ScanMetadata| m@).drop_last()
                            + seq![elem@] =~= done@.map_values(|m: ScanMetadata| m@));
                    }
                    return Some((done, j2 + 1));
                } else {
                    proof {
                        assert(spec_parse_results(s) is None);
                    }
                    return None;
                }
            },
            None => {
                proof {
                    assert(spec_parse_results(s) is None);
                }
                return None;
            },
        }
    }
}

/// Reads an optional quoted text starting at position `i`.
fn parse_opt_text_at(v: &Vec<char>, i: usize) -> (r: Option<(Option<String>, usize)>)
    requires
        i <= v@.len(),
    ensures
        match (spec_parse_opt_text(v@.skip(i as int)), r) {
            (Some(p), Some(q)) => {
                &&& match (q.0, p.0) {
                    (Some(t), Some(tm)) => t@ == tm,
                    (None, None) => true,
                    _ => false,
                }
                &&& i <= q.1 <= v@.len()
                &&& v@.skip(q.1 as int) == p.1
            },
            (None, None) => true,
            _ => false,
        },
{
    let ghost s = v@.skip(i as int);
    if i < v.len() && v[i] == '"' {
        proof {
            assert(s[0] == '"');
            assert(s.drop_first() =~= v@.skip(i as int + 1));
        }
        match parse_quoted_at(v, i + 1) {
            Some(q) => Some((Some(crate::text::string_from_chars(&q.0)), q.1)),
            None => None,
        }
    } else {
        proof {
            if s.len() > 0 {
                assert(s[0] == v@[i as int]);
            }
        }
        match expect_lit(v, i, "null") {
            Some(j) => Some((None, j)),
            None => None,
        }
    }
}

/// Reads a boolean literal starting at position `i`.
fn parse_bool_at(v: &Vec<char>, i: usize) -> (r: Option<(bool, usize)>)
    requires
        i <= v@.len(),
    ensures
        match (spec_parse_bool(v@.skip(i as int)), r) {
            (Some(p), Some(q)) => {
                &&& q.0 == p.0
                &&& i <= q.1 <= v@.len()
                &&& v@.skip(q.1 as int) == p.1
            },
            (None, None) => true,
            _ => false,
        },
{
    match expect_lit(v, i, "true") {
        Some(j) => Some((true, j)),
        None => match expect_lit(v, i, "false") {
            Some(j) => Some((false, j)),
            None => None,
        },
    }
}

/// Reads an encoded commit starting at position `i`.
fn parse_commit_at(v: &Vec<char>, i: usize) -> (r: Option<(crate::models::GitCommit, usize)>)
    requires
        i <= v@.len(),
    ensures
        match (spec_parse_commit(v@.skip(i as int)), r) {
            (Some(p), Some(q)) => {
                &&& q.0@ == p.0
                &&& i <= q.1 <= v@.len()
                &&& v@.skip(q.1 as int) == p.1
            },
            (None, None) => true,
            _ => false,
        },
{
    let j1 = match expect_lit(v, i, "{\"commitId\":\"") {
        Some(j) => j,
        None => {
            return None;
        },
    };
    let (commit_id, j2) = match parse_quoted_at(v, j1) {
        Some(q) => q,
        None => {
            return None;
        },
    };
    let j3 = match expect_lit(v, j2, ",\"message\":") {
        Some(j) => j,
        None => {
            return None;
        },
    };
    let (message, j4) = match parse_opt_text_at(v, j3) {
        Some(q) => q,
        None => {
            return None;
        },
    };
    let j5 = match expect_lit(v, j4, ",\"branch\":\"") {
        Some(j) => j,
        None => {
            return None;
        },
    };
    let (branch, j6) = match parse_quoted_at(v, j5) {
        Some(q) => q,
        None => {
            return None;
        },
    };
    let j7 = match expect_lit(v, j6, "}") {
        Some(j) => j,
        None => {
            return None;
        },
    };
    Some(
        (
            crate::models::GitCommit {
                commit_id: crate::text::string_from_chars(&commit_id),
                message,
                branch: crate::text::string_from_chars(&branch),
            },
            j7,
        ),
    )
}

/// Decodes the JSON text of a scan report; exactly the texts the encoder
/// produces decode, and decoding gives back the encoded report.
pub fn decode_scan(text: &str) -> (r: Option<Scan>)
    ensures
        match (spec_decode_scan(text@), r) {
            (Some(m), Some(scan)) => scan@ == m,
            (None, None) => true,
            _ => false,
        },
{
    let v = crate::text::chars_of(text);
    let j1 = match expect_lit(&v, 0, "{\"functionId\":\"") {
        Some(j) => j,
        None => {
            proof {
                assert(v@.skip(0) =~= text@);
            }
            return None;
        },
    };
    proof {
        assert(v@.skip(0) =~= text@);
    }
    let (function_id, j2) = match parse_quoted_at(&v, j1) {
        Some(q) => q,
        None => {
            return None;
        },
    };
    let j3 = match expect_lit(&v, j2, ",\"repositoryId\":\"") {
        Some(j) => j,
        None => {
            return None;
        },
    };
    let (repository_id, j4) = match parse_quoted_at(&v, j3) {
        Some(q) => q,
        None => {
            return None;
        },
    };
    let j5 = match expect_lit(&v, j4, ",\"commit\":") {
        Some(j) => j,
        None => {
            return None;
        },
    };
    let (commit, j6) = match parse_commit_at(&v, j5) {
        Some(q) => q,
        None => {
            return None;
        },
    };
    let j7 = match expect_lit(&v, j6, ",\"hasFailed\":") {
        Some(j) => j,
        None => {
            return None;
        },
    };
    let (has_failed, j8) = match parse_bool_at(&v, j7) {
        Some(q) => q,
        None => {
            return None;
        },
    };
    let j9 = match expect_lit(&v, j8, ",\"logs\":\"") {
        Some(j) => j,
        None => {
            return None;
        },
    };
    let (logs, j10) = match parse_quoted_at(&v, j9) {
        Some(q) => q,
        None => {
            return None;
        },
    };
    let j11 = match expect_lit(&v, j10, ",\"timingMs\":") {
        Some(j) => j,
        None => {
            return None;
        },
    };
    let (timing, j12) = match parse_u64_at(&v, j11) {
        Some(q) => q,
        None => {
            return None;
        },
    };
    if !(timing <= usize::MAX as u64) {
        return None;
    }
    let j13 = match expect_lit(&v, j12, ",\"results\":[") {
        Some(j) => j,
        None => {
            return None;
        },
    };
    let (results, j14) = match parse_results_at(&v, j13) {
        Some(q) => q,
        None => {
            return None;
        },
    };
    let j15 = match expect_lit(&v, j14, "}") {
        Some(j) => j,
        None => {
            return None;
        },
    };
    if j15 != v.len() {
        proof {
            assert(v@.skip(j15 as int).len() != 0);
        }
        return None;
    }
    proof {
        assert(v@.skip(j15 as int).len() == 0);
        assert(v@.skip(j15 as int) =~= Seq::<char>::empty());
    }
    Some(
        Scan {
            function_id: crate::text::string_from_chars(&function_id),
            repository_id: crate::text::string_from_chars(&repository_id),
            commit,
            has_failed,
            logs: crate::text::string_from_chars(&logs),
            timing_ms: timing as usize,
            results,
        },
    )
}

/// The JSON text of a scan report, as uploaded to the scheduler.
pub fn encode_scan(s: &Scan) -> (r: String)
    ensures
        r@ == spec_encode_scan(s@),
{
    let mut out: Vec<char> = Vec::new();
    append_str_chars(&mut out, "{\"functionId\":\"");
    let fid_chars = crate::text::chars_of(s.function_id.as_str());
    append_escaped(&mut out, &fid_chars);
    append_str_chars(&mut out, "\",\"repositoryId\":\"");
    let rid_chars = crate::text::chars_of(s.repository_id.as_str());
    append_escaped(&mut out, &rid_chars);
    append_str_chars(&mut out, "\",\"commit\":");
    append_commit(&mut out, &s.commit);
    append_str_chars(&mut out, ",\"hasFailed\":");
    if s.has_failed {
        append_str_chars(&mut out, "true");
    } else {
        append_str_chars(&mut out, "false");
    }
    append_str_chars(&mut out, ",\"logs\":\"");
    let logs_chars = crate::text::chars_of(s.logs.as_str());
    append_escaped(&mut out, &logs_chars);
    append_str_chars(&mut out, "\",\"timingMs\":");
    let timing: u64 = s.timing_ms as u64;
    let timing_chars = u64_to_chars(timing);
    append_chars(&mut out, &timing_chars);
    append_str_chars(&mut out, ",\"results\":[");
    append_results(&mut out, &s.results);
    append_str_chars(&mut out, "]}");
    proof {
        assert((s.timing_ms as u64) as nat == s.timing_ms as nat);
        assert(out@ =~= spec_encode_scan(s@));
    }
    crate::text::string_from_chars(&out)
}

} // verus!
