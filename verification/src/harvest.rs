//! The result harvester: after the last stage, the container's `result`
//! directory may hold a metrics file (a flat table of `key = value` lines)
//! and an issue file (`[[issues]]` sections with `name` and `severity`
//! keys). Values are integers — decimal with optional sign and digit
//! groups, or unsigned `0x`/`0o`/`0b` forms — booleans, or quoted texts
//! with the report codec's backslash escapes. A `#` comment may stand on
//! its own line or follow a value; keys may not repeat; an issue entry's
//! unknown keys are read and dropped. A malformed file yields nothing,
//! never a partial read.

use vstd::prelude::*;
use vstd::string::*;

use crate::json::{
    expect_lit, hex_val_char, is_hex_digit, parse_quoted_at, spec_expect, spec_hex_val,
    spec_parse_quoted,
};
use crate::models::{
    CodeIssue, FunctionOutput, MetricValue, MetricValueModel, ScanMetadata, ScanMetadataModel,
};
use crate::text::{
    chars_eq, chars_eq_str, chars_of, is_digit, is_space_char, lemma_trim_front_skip,
    spec_split, spec_trim, spec_trim_front, split_chars, string_from_chars, trim_chars,
};

verus! {

/// The first position of a character, if it occurs.
pub open spec fn spec_find_char(s: Seq<char>, c: char) -> Option<int>
    decreases s.len(),
{
    if s.len() == 0 {
        None
    } else if s[0] == c {
        Some(0)
    } else {
        match spec_find_char(s.drop_first(), c) {
            Some(i) => Some(i + 1),
            None => None,
        }
    }
}

proof fn lemma_find_char_skip(s: Seq<char>, c: char, i: int)
    requires
        0 <= i <= s.len(),
        forall|k: int| 0 <= k < i ==> s[k] != c,
    ensures
        spec_find_char(s, c) == match spec_find_char(s.skip(i), c) {
            Some(j) => Some(i + j),
            None => None,
        },
    decreases i,
{
    if i == 0 {
        assert(s.skip(0) =~= s);
    } else {
        assert(s.len() > 0 && s[0] != c);
        assert(s.drop_first() =~= s.skip(1));
        assert(forall|k: int| 0 <= k < i - 1 ==> s.skip(1)[k] == s[k + 1]);
        lemma_find_char_skip(s.skip(1), c, i - 1);
        assert(s.skip(1).skip(i - 1) =~= s.skip(i));
    }
}

/// The first position of a character in a vector, if it occurs.
#[verifier::loop_isolation(false)]
fn find_char(v: &Vec<char>, c: char) -> (r: Option<usize>)
    ensures
        match (spec_find_char(v@, c), r) {
            (Some(p), Some(q)) => p == q && 0 <= q < v@.len() && v@[q as int] == c,
            (None, None) => true,
            _ => false,
        },
{
    let mut i: usize = 0;
    while i < v.len()
        invariant
            i <= v@.len(),
            forall|k: int| 0 <= k < i ==> v@[k] != c,
        decreases v@.len() - i,
    {
        if v[i] == c {
            proof {
                lemma_find_char_skip(v@, c, i as int);
                assert(v@.skip(i as int)[0] == c);
            }
            return Some(i);
        }
        i = i + 1;
    }
    proof {
        lemma_find_char_skip(v@, c, v@.len() as int);
        assert(v@.skip(v@.len() as int).len() == 0);
    }
    None
}

/// Whether a character may appear in a bare key: letters, digits,
/// underscore and dash.
pub open spec fn is_bare_key_char(c: char) -> bool {
    ||| is_digit(c)
    ||| (65 <= c as u32 && c as u32 <= 90)
    ||| (97 <= c as u32 && c as u32 <= 122)
    ||| c == '_'
    ||| c == '-'
}

/// Whether a trimmed key is a non-empty bare key.
pub open spec fn spec_valid_key(k: Seq<char>) -> bool {
    k.len() > 0 && forall|j: int| 0 <= j < k.len() ==> is_bare_key_char(k[j])
}

/// An exec test for `spec_valid_key`.
#[verifier::loop_isolation(false)]
fn is_valid_key(k: &Vec<char>) -> (r: bool)
    ensures
        r == spec_valid_key(k@),
{
    if k.len() == 0 {
        return false;
    }
    let mut i: usize = 0;
    while i < k.len()
        invariant
            i <= k@.len(),
            forall|j: int| 0 <= j < i ==> is_bare_key_char(k@[j]),
        decreases k@.len() - i,
    {
        let c = k[i];
        let u: u32 = c as u32;
        let ok = (48 <= u && u <= 57) || (65 <= u && u <= 90) || (97 <= u && u <= 122) || c
            == '_' || c == '-';
        if !ok {
            proof {
                assert(!is_bare_key_char(k@[i as int]));
            }
            return false;
        }
        i = i + 1;
    }
    true
}

/// Whether only whitespace or a `#` comment follows a parsed value.
pub open spec fn spec_rest_ok(rest: Seq<char>) -> bool {
    let t = spec_trim_front(rest);
    t.len() == 0 || t[0] == '#'
}

/// Advances past leading whitespace.
#[verifier::loop_isolation(false)]
fn skip_spaces(v: &Vec<char>, i: usize) -> (j: usize)
    requires
        i <= v@.len(),
    ensures
        i <= j <= v@.len(),
        v@.skip(j as int) == spec_trim_front(v@.skip(i as int)),
{
    let mut j: usize = i;
    while j < v.len() && is_space_char(v[j])
        invariant
            i <= j <= v@.len(),
            forall|k: int| i <= k < j ==> crate::text::is_space(v@[k]),
        decreases v@.len() - j,
    {
        j = j + 1;
    }
    proof {
        let s = v@.skip(i as int);
        assert(forall|k: int| 0 <= k < s.len() ==> s[k] == v@[i + k]);
        lemma_trim_front_skip(s, j - i);
        assert(s.skip(j - i) =~= v@.skip(j as int));
        if j < v@.len() {
            assert(v@.skip(j as int)[0] == v@[j as int]);
        }
    }
    j
}

/// Whether only whitespace or a comment starts at position `i`.
fn rest_is_comment(v: &Vec<char>, i: usize) -> (r: bool)
    requires
        i <= v@.len(),
    ensures
        r == spec_rest_ok(v@.skip(i as int)),
{
    let j = skip_spaces(v, i);
    proof {
        if j < v@.len() {
            assert(v@.skip(j as int)[0] == v@[j as int]);
        }
    }
    j == v.len() || v[j] == '#'
}

/// Whether a character is a digit of the base: decimal, hexadecimal,
/// octal or binary.
pub open spec fn is_base_digit(c: char, base: nat) -> bool {
    if base == 16 {
        is_hex_digit(c)
    } else if base == 10 {
        is_digit(c)
    } else if base == 8 {
        48 <= c as u32 && c as u32 <= 55
    } else {
        c == '0' || c == '1'
    }
}

/// How many leading characters belong to a digit run: digits of the base
/// and underscores.
pub open spec fn spec_run_len(s: Seq<char>, base: nat) -> int
    decreases s.len(),
{
    if s.len() > 0 && (is_base_digit(s[0], base) || s[0] == '_') {
        1 + spec_run_len(s.drop_first(), base)
    } else {
        0
    }
}

/// Whether a digit run is well-formed: non-empty, beginning and ending
/// with a digit, and every underscore followed by a digit.
pub open spec fn spec_run_ok(run: Seq<char>, base: nat) -> bool {
    &&& run.len() > 0
    &&& is_base_digit(run[0], base)
    &&& is_base_digit(run[run.len() - 1], base)
    &&& forall|i: int|
        0 <= i < run.len() - 1 && #[trigger] run[i] == '_' ==> is_base_digit(
            run[i + 1],
            base,
        )
}

/// The run with its underscores removed.
pub open spec fn spec_strip_underscores(s: Seq<char>) -> Seq<char> {
    s.filter(|c: char| c != '_')
}

/// The value of a digit sequence in the given base.
pub open spec fn spec_base_val(s: Seq<char>, base: nat) -> nat
    decreases s.len(),
{
    if s.len() == 0 {
        0
    } else {
        spec_base_val(s.drop_last(), base) * base + spec_hex_val(s.last())
    }
}

/// A run length is never negative.
proof fn lemma_run_len_nonneg(s: Seq<char>, base: nat)
    ensures
        spec_run_len(s, base) >= 0,
    decreases s.len(),
{
    if s.len() > 0 && (is_base_digit(s[0], base) || s[0] == '_') {
        lemma_run_len_nonneg(s.drop_first(), base);
    }
}

/// A digit sequence is worth no less than any of its prefixes.
proof fn lemma_base_val_extend(a: Seq<char>, b: Seq<char>, base: nat)
    requires
        base >= 1,
    ensures
        spec_base_val(a + b, base) >= spec_base_val(a, base),
    decreases b.len(),
{
    if b.len() == 0 {
        assert(a + b =~= a);
    } else {
        assert((a + b).drop_last() =~= a + b.drop_last());
        lemma_base_val_extend(a, b.drop_last(), base);
        assert(spec_base_val(a + b.drop_last(), base) * base >= spec_base_val(
            a + b.drop_last(),
            base,
        )) by (nonlinear_arith)
            requires
                base >= 1,
                spec_base_val(a + b.drop_last(), base) >= 0,
        ;
    }
}

/// What a leading digit run denotes in the given base: its value with
/// underscores ignored, when the run is well-formed and the value fits.
pub open spec fn spec_parse_uint_radix(s: Seq<char>, base: nat) -> Option<(u64, Seq<char>)> {
    let n = spec_run_len(s, base);
    if n == 0 {
        None
    } else {
        let run = s.take(n);
        if spec_run_ok(run, base) && spec_base_val(spec_strip_underscores(run), base)
            <= u64::MAX {
            Some((spec_base_val(spec_strip_underscores(run), base) as u64, s.skip(n)))
        } else {
            None
        }
    }
}

/// A leading decimal run without leading zeros.
pub open spec fn spec_parse_dec_prefix(s: Seq<char>) -> Option<(u64, Seq<char>)> {
    let n = spec_run_len(s, 10);
    if n > 1 && s[0] == '0' {
        None
    } else {
        spec_parse_uint_radix(s, 10)
    }
}

/// A prefixed hexadecimal, octal or binary value, bounded by the largest
/// signed value.
pub open spec fn spec_parse_prefixed(rest: Seq<char>, base: nat) -> Option<(i64, Seq<char>)> {
    match spec_parse_uint_radix(rest, base) {
        Some(p) => if p.0 <= i64::MAX as u64 {
            Some((p.0 as i64, p.1))
        } else {
            None
        },
        None => None,
    }
}

/// What a leading integer denotes: an optional sign on a decimal run, or
/// an unsigned `0x`, `0o` or `0b` form; underscores may group digits and
/// decimal runs may not start with a spare zero.
pub open spec fn spec_parse_toml_int(t: Seq<char>) -> Option<(i64, Seq<char>)> {
    if t.len() == 0 {
        None
    } else if t[0] == '-' {
        match spec_parse_dec_prefix(t.drop_first()) {
            Some(p) => if p.0 <= 0x8000_0000_0000_0000u64 {
                Some(((0 - p.0 as int) as i64, p.1))
            } else {
                None
            },
            None => None,
        }
    } else if t[0] == '+' {
        match spec_parse_dec_prefix(t.drop_first()) {
            Some(p) => if p.0 <= i64::MAX as u64 {
                Some((p.0 as i64, p.1))
            } else {
                None
            },
            None => None,
        }
    } else {
        match spec_expect(t, "0x"@) {
            Some(r) => spec_parse_prefixed(r, 16),
            None => match spec_expect(t, "0o"@) {
                Some(r) => spec_parse_prefixed(r, 8),
                None => match spec_expect(t, "0b"@) {
                    Some(r) => spec_parse_prefixed(r, 2),
                    None => match spec_parse_dec_prefix(t) {
                        Some(p) => if p.0 <= i64::MAX as u64 {
                            Some((p.0 as i64, p.1))
                        } else {
                            None
                        },
                        None => None,
                    },
                },
            },
        }
    }
}

/// An exec test for `is_base_digit`.
fn is_base_digit_char(c: char, base: u64) -> (r: bool)
    requires
        base == 2 || base == 8 || base == 10 || base == 16,
    ensures
        r == is_base_digit(c, base as nat),
{
    if base == 16 {
        crate::json::is_hex_digit_char(c)
    } else if base == 10 {
        crate::text::is_digit_char(c)
    } else if base == 8 {
        let u: u32 = c as u32;
        48 <= u && u <= 55
    } else {
        c == '0' || c == '1'
    }
}

/// Reads a digit run in the given base starting at position `i`.
#[verifier::loop_isolation(false)]
#[verifier::rlimit(100)]
fn parse_uint_radix(v: &Vec<char>, i: usize, base: u64) -> (r: Option<(u64, usize)>)
    requires
        i <= v@.len(),
        base == 2 || base == 8 || base == 10 || base == 16,
    ensures
        match (spec_parse_uint_radix(v@.skip(i as int), base as nat), r) {
            (Some(p), Some(q)) => {
                &&& q.0 == p.0
                &&& i <= q.1 <= v@.len()
                &&& v@.skip(q.1 as int) == p.1
            },
            (None, None) => true,
            _ => false,
        },
{
    let ghost s = v@.skip(i as int);
    proof {
        assert(forall|k: int| 0 <= k < s.len() ==> s[k] == v@[i + k]);
    }
    let mut j: usize = i;
    while j < v.len() && (is_base_digit_char(v[j], base) || v[j] == '_')
        invariant
            i <= j <= v@.len(),
            forall|k: int|
                i <= k < j ==> (is_base_digit(v@[k], base as nat) || v@[k] == '_'),
            spec_run_len(s, base as nat) == (j - i) + spec_run_len(
                v@.skip(j as int),
                base as nat,
            ),
        decreases v@.len() - j,
    {
        proof {
            let t = v@.skip(j as int);
            assert(t[0] == v@[j as int]);
            assert(t.drop_first() =~= v@.skip(j as int + 1));
        }
        j = j + 1;
    }
    proof {
        let t = v@.skip(j as int);
        if t.len() > 0 {
            assert(t[0] == v@[j as int]);
        }
        assert(spec_run_len(t, base as nat) == 0);
        assert(spec_run_len(s, base as nat) == j - i);
        assert(s.take(j - i) =~= v@.subrange(i as int, j as int));
        assert(s.skip(j - i) =~= v@.skip(j as int));
    }
    if j == i {
        return None;
    }
    let ghost run = v@.subrange(i as int, j as int);
    if !is_base_digit_char(v[i], base) {
        proof {
            assert(run[0] == v@[i as int]);
            assert(!spec_run_ok(run, base as nat));
        }
        return None;
    }
    if !is_base_digit_char(v[j - 1], base) {
        proof {
            assert(run[run.len() - 1] == v@[j - 1]);
            assert(!spec_run_ok(run, base as nat));
        }
        return None;
    }
    let mut k: usize = i;
    while k < j
        invariant
            i <= k <= j <= v@.len(),
            run == v@.subrange(i as int, j as int),
            forall|m: int|
                i <= m < k && #[trigger] v@[m] == '_' ==> (m + 1 < j && is_base_digit(
                    v@[m + 1],
                    base as nat,
                )),
            is_base_digit(v@[j - 1], base as nat),
        decreases j - k,
    {
        if v[k] == '_' {
            if k + 1 >= j || !is_base_digit_char(v[k + 1], base) {
                proof {
                    assert(run[k - i] == v@[k as int]);
                    if k - i < run.len() - 1 {
                        assert(run[k - i + 1] == v@[k + 1]);
                    }
                    assert(!spec_run_ok(run, base as nat));
                }
                return None;
            }
        }
        k = k + 1;
    }
    proof {
        assert forall|m: int|
            0 <= m < run.len() - 1 && #[trigger] run[m] == '_' implies is_base_digit(
            run[m + 1],
            base as nat,
        ) by {
            assert(run[m] == v@[i + m]);
            assert(run[m + 1] == v@[i + m + 1]);
        }
        assert(run[0] == v@[i as int]);
        assert(run[run.len() - 1] == v@[j - 1]);
        assert(spec_run_ok(run, base as nat));
    }
    let mut acc: u64 = 0;
    let mut m: usize = i;
    proof {
        assert(run.take(0) =~= Seq::<char>::empty());
        assert(spec_strip_underscores(Seq::<char>::empty()) =~= Seq::<char>::empty()) by {
            reveal(Seq::filter);
        }
    }
    while m < j
        invariant
            i <= m <= j <= v@.len(),
            run == v@.subrange(i as int, j as int),
            acc == spec_base_val(
                spec_strip_underscores(run.take(m - i)),
                base as nat,
            ),
        decreases j - m,
    {
        proof {
            reveal(Seq::filter);
            assert(run.take(m - i + 1).drop_last() =~= run.take(m - i));
            assert(run.take(m - i + 1).last() == run[m - i]);
            assert(run[m - i] == v@[m as int]);
        }
        let c = v[m];
        if c == '_' {
            proof {
                assert(spec_strip_underscores(run.take(m - i + 1))
                    == spec_strip_underscores(run.take(m - i)));
            }
        } else {
            let d: u64 = hex_val_char(c) as u64;
            proof {
                assert(is_base_digit(run[m - i], base as nat));
                assert(is_hex_digit(c));
                assert(d == spec_hex_val(c));
                assert(d < 16);
                assert(spec_strip_underscores(run.take(m - i + 1))
                    == spec_strip_underscores(run.take(m - i)).push(c));
                assert(spec_strip_underscores(run.take(m - i)).push(c).drop_last()
                    =~= spec_strip_underscores(run.take(m - i)));
                assert(spec_strip_underscores(run.take(m - i)).push(c).last() == c);
                assert(spec_base_val(spec_strip_underscores(run.take(m - i + 1)), base as nat)
                    == acc * base + d);
            }
            if acc > (u64::MAX - d) / base {
                proof {
                    assert(acc * base + d > u64::MAX) by (nonlinear_arith)
                        requires
                            acc > (u64::MAX - d) / (base as int),
                            d < 16,
                            2 <= base <= 16,
                    ;
                    assert(run =~= run.take(m - i + 1) + run.skip(m - i + 1));
                    Seq::<char>::filter_distributes_over_add(
                        run.take(m - i + 1),
                        run.skip(m - i + 1),
                        |ch: char| ch != '_',
                    );
                    lemma_base_val_extend(
                        spec_strip_underscores(run.take(m - i + 1)),
                        spec_strip_underscores(run.skip(m - i + 1)),
                        base as nat,
                    );
                    assert(spec_base_val(spec_strip_underscores(run), base as nat)
                        > u64::MAX);
                }
                return None;
            }
            proof {
                assert(acc * base + d <= u64::MAX) by (nonlinear_arith)
                    requires
                        acc <= (u64::MAX - d) / (base as int),
                        d < 16,
                        2 <= base <= 16,
                ;
            }
            acc = acc * base + d;
        }
        m = m + 1;
    }
    proof {
        assert(run.take(j - i) =~= run);
    }
    Some((acc, j))
}

/// Reads a decimal run without leading zeros starting at position `i`.
fn parse_dec_prefix(v: &Vec<char>, i: usize) -> (r: Option<(u64, usize)>)
    requires
        i <= v@.len(),
    ensures
        match (spec_parse_dec_prefix(v@.skip(i as int)), r) {
            (Some(p), Some(q)) => {
                &&& q.0 == p.0
                &&& i <= q.1 <= v@.len()
                &&& v@.skip(q.1 as int) == p.1
            },
            (None, None) => true,
            _ => false,
        },
{
    let ghost s = v@.skip(i as int);
    proof {
        assert(forall|k: int| 0 <= k < s.len() ==> s[k] == v@[i + k]);
    }
    if i < v.len() && v[i] == '0' && i + 1 < v.len() && (is_base_digit_char(v[i + 1], 10)
        || v[i + 1] == '_') {
        proof {
            assert(s[0] == '0');
            assert(is_base_digit(s[0], 10));
            assert(s.drop_first() =~= v@.skip(i as int + 1));
            assert(s.drop_first()[0] == v@[i + 1]);
            lemma_run_len_nonneg(s.drop_first().drop_first(), 10);
            assert(spec_run_len(s.drop_first(), 10) >= 1);
            assert(spec_run_len(s, 10) >= 2);
        }
        return None;
    }
    proof {
        if s.len() > 0 && s[0] == '0' {
            assert(is_base_digit(s[0], 10));
            if s.len() == 1 {
                assert(s.drop_first() =~= Seq::<char>::empty());
                assert(spec_run_len(Seq::<char>::empty(), 10) == 0);
                assert(spec_run_len(s, 10) == 1);
            } else {
                assert(s.drop_first() =~= v@.skip(i as int + 1));
                assert(s.drop_first()[0] == v@[i + 1]);
                assert(spec_run_len(s.drop_first(), 10) == 0);
                assert(spec_run_len(s, 10) == 1);
            }
        }
    }
    parse_uint_radix(v, i, 10)
}

/// Reads a leading integer starting at position `i`.
fn parse_toml_int_prefix(v: &Vec<char>, i: usize) -> (r: Option<(i64, usize)>)
    requires
        i <= v@.len(),
    ensures
        match (spec_parse_toml_int(v@.skip(i as int)), r) {
            (Some(p), Some(q)) => {
                &&& q.0 == p.0
                &&& i <= q.1 <= v@.len()
                &&& v@.skip(q.1 as int) == p.1
            },
            (None, None) => true,
            _ => false,
        },
{
    let ghost s = v@.skip(i as int);
    if i >= v.len() {
        proof {
            assert(s.len() == 0);
        }
        return None;
    }
    let c = v[i];
    proof {
        assert(s[0] == c);
        assert(s.drop_first() =~= v@.skip(i as int + 1));
    }
    if c == '-' {
        match parse_dec_prefix(v, i + 1) {
            Some(q) => {
                if q.0 <= 0x8000_0000_0000_0000u64 {
                    let value: i64 = if q.0 == 0x8000_0000_0000_0000u64 {
                        i64::MIN
                    } else {
                        0 - (q.0 as i64)
                    };
                    Some((value, q.1))
                } else {
                    None
                }
            },
            None => None,
        }
    } else if c == '+' {
        match parse_dec_prefix(v, i + 1) {
            Some(q) => {
                if q.0 <= 0x7FFF_FFFF_FFFF_FFFFu64 {
                    Some((q.0 as i64, q.1))
                } else {
                    None
                }
            },
            None => None,
        }
    } else {
        match expect_lit(v, i, "0x") {
            Some(j) => bounded_radix(v, j, 16),
            None => match expect_lit(v, i, "0o") {
                Some(j) => bounded_radix(v, j, 8),
                None => match expect_lit(v, i, "0b") {
                    Some(j) => bounded_radix(v, j, 2),
                    None => match parse_dec_prefix(v, i) {
                        Some(q) => {
                            if q.0 <= 0x7FFF_FFFF_FFFF_FFFFu64 {
                                Some((q.0 as i64, q.1))
                            } else {
                                None
                            }
                        },
                        None => None,
                    },
                },
            },
        }
    }
}

/// Reads an unsigned run in the base and bounds it by the largest signed
/// value.
fn bounded_radix(v: &Vec<char>, j: usize, base: u64) -> (r: Option<(i64, usize)>)
    requires
        j <= v@.len(),
        base == 2 || base == 8 || base == 16,
    ensures
        match (spec_parse_prefixed(v@.skip(j as int), base as nat), r) {
            (Some(p), Some(q)) => {
                &&& q.0 == p.0
                &&& j <= q.1 <= v@.len()
                &&& v@.skip(q.1 as int) == p.1
            },
            (None, None) => true,
            _ => false,
        },
{
    match parse_uint_radix(v, j, base) {
        Some(q) => {
            if q.0 <= 0x7FFF_FFFF_FFFF_FFFFu64 {
                Some((q.0 as i64, q.1))
            } else {
                None
            }
        },
        None => None,
    }
}

/// What a value denotes at the head of the text: a quoted text, the
/// booleans, or an integer; the caller checks what follows.
pub open spec fn spec_parse_value_prefix(t: Seq<char>) -> Option<
    (MetricValueModel, Seq<char>),
> {
    if t.len() == 0 {
        None
    } else if t[0] == '"' {
        match spec_parse_quoted(t.drop_first()) {
            Some(p) => Some((MetricValueModel::Text(p.0), p.1)),
            None => None,
        }
    } else {
        match spec_expect(t, "true"@) {
            Some(r) => Some((MetricValueModel::Boolean(true), r)),
            None => match spec_expect(t, "false"@) {
                Some(r) => Some((MetricValueModel::Boolean(false), r)),
                None => match spec_parse_toml_int(t) {
                    Some(p) => Some((MetricValueModel::Number(p.0), p.1)),
                    None => None,
                },
            },
        }
    }
}

/// Reads a value at position `i`.
fn parse_value_prefix(t: &Vec<char>, i: usize) -> (r: Option<(MetricValue, usize)>)
    requires
        i <= t@.len(),
    ensures
        match (spec_parse_value_prefix(t@.skip(i as int)), r) {
            (Some(p), Some(q)) => {
                &&& q.0@ == p.0
                &&& i <= q.1 <= t@.len()
                &&& t@.skip(q.1 as int) == p.1
            },
            (None, None) => true,
            _ => false,
        },
{
    let ghost s = t@.skip(i as int);
    if i >= t.len() {
        proof {
            assert(s.len() == 0);
        }
        return None;
    }
    proof {
        assert(s[0] == t@[i as int]);
        assert(s.drop_first() =~= t@.skip(i as int + 1));
    }
    if t[i] == '"' {
        match parse_quoted_at(t, i + 1) {
            Some(q) => Some((MetricValue::Text(string_from_chars(&q.0)), q.1)),
            None => None,
        }
    } else {
        match expect_lit(t, i, "true") {
            Some(j) => Some((MetricValue::Boolean(true), j)),
            None => match expect_lit(t, i, "false") {
                Some(j) => Some((MetricValue::Boolean(false), j)),
                None => match parse_toml_int_prefix(t, i) {
                    Some(q) => Some((MetricValue::Number(q.0), q.1)),
                    None => None,
                },
            },
        }
    }
}

/// What one metrics line denotes: nothing for a blank or comment line, a
/// key-value pair otherwise; a trailing comment may follow the value.
pub open spec fn spec_parse_data_line(line: Seq<char>) -> Option<
    Option<(Seq<char>, MetricValueModel)>,
> {
    let t = spec_trim(line);
    if t.len() == 0 || t[0] == '#' {
        Some(None)
    } else {
        match spec_find_char(t, '=') {
            Some(e) => {
                let k = spec_trim(t.take(e));
                let vtext = spec_trim(t.skip(e + 1));
                if spec_valid_key(k) {
                    match spec_parse_value_prefix(vtext) {
                        Some(p) => if spec_rest_ok(p.1) {
                            Some(Some((k, p.0)))
                        } else {
                            None
                        },
                        None => None,
                    }
                } else {
                    None
                }
            },
            None => None,
        }
    }
}

/// Copies a range of a vector.
#[verifier::loop_isolation(false)]
fn copy_range(v: &Vec<char>, from: usize, to: usize) -> (r: Vec<char>)
    requires
        from <= to <= v@.len(),
    ensures
        r@ == v@.subrange(from as int, to as int),
{
    let mut r: Vec<char> = Vec::new();
    let mut i: usize = from;
    while i < to
        invariant
            from <= i <= to,
            r@ == v@.subrange(from as int, i as int),
        decreases to - i,
    {
        r.push(v[i]);
        i = i + 1;
        proof {
            assert(r@ =~= v@.subrange(from as int, i as int));
        }
    }
    r
}

/// Parses one metrics line.
fn parse_data_line(line: &Vec<char>) -> (r: Option<Option<(String, MetricValue)>>)
    ensures
        match (spec_parse_data_line(line@), r) {
            (Some(Some(p)), Some(Some(q))) => q.0@ == p.0 && q.1@ == p.1,
            (Some(None), Some(None)) => true,
            (None, None) => true,
            _ => false,
        },
{
    let t = trim_chars(line);
    if t.len() == 0 {
        return Some(None);
    }
    if t[0] == '#' {
        return Some(None);
    }
    match find_char(&t, '=') {
        Some(e) => {
            let key_raw = copy_range(&t, 0, e);
            proof {
                assert(key_raw@ =~= t@.take(e as int));
            }
            let key = trim_chars(&key_raw);
            let value_raw = copy_range(&t, e + 1, t.len());
            proof {
                assert(value_raw@ =~= t@.skip(e as int + 1));
            }
            let value_text = trim_chars(&value_raw);
            if !is_valid_key(&key) {
                return None;
            }
            proof {
                assert(value_text@.skip(0) =~= value_text@);
            }
            match parse_value_prefix(&value_text, 0) {
                Some(q) => {
                    if rest_is_comment(&value_text, q.1) {
                        Some(Some((string_from_chars(&key), q.0)))
                    } else {
                        None
                    }
                },
                None => None,
            }
        },
        None => None,
    }
}

/// Whether a key was already read.
pub open spec fn spec_has_key(ps: Seq<(Seq<char>, MetricValueModel)>, k: Seq<char>) -> bool {
    exists|i: int| 0 <= i < ps.len() && ps[i].0 == k
}

/// What a whole metrics file denotes: its pairs in line order, or nothing
/// when any line is malformed or repeats a key.
pub open spec fn spec_parse_data_lines(lines: Seq<Seq<char>>) -> Option<
    Seq<(Seq<char>, MetricValueModel)>,
>
    decreases lines.len(),
{
    if lines.len() == 0 {
        Some(Seq::<(Seq<char>, MetricValueModel)>::empty())
    } else {
        match spec_parse_data_lines(lines.drop_last()) {
            Some(ps) => match spec_parse_data_line(lines.last()) {
                Some(None) => Some(ps),
                Some(Some(p)) => if spec_has_key(ps, p.0) {
                    None
                } else {
                    Some(ps.push(p))
                },
                None => None,
            },
            None => None,
        }
    }
}

/// What a metrics file text denotes.
pub open spec fn spec_parse_data(s: Seq<char>) -> Option<Seq<(Seq<char>, MetricValueModel)>> {
    spec_parse_data_lines(spec_split(s, '\n'))
}

/// Parses a metrics file into its key-value pairs, in line order.
#[verifier::loop_isolation(false)]
pub fn parse_data(content: &str) -> (r: Option<Vec<(String, MetricValue)>>)
    ensures
        match (spec_parse_data(content@), r) {
            (Some(ps), Some(pairs)) => pairs@.map_values(
                |p: (String, MetricValue)| (p.0@, p.1@),
            ) == ps,
            (None, None) => true,
            _ => false,
        },
{
    let chars = chars_of(content);
    let lines = split_chars(&chars, '\n');
    let ghost line_views = lines@.map_values(|l: Vec<char>| l@);
    let mut pairs: Vec<(String, MetricValue)> = Vec::new();
    let mut i: usize = 0;
    proof {
        assert(line_views.take(0) =~= Seq::<Seq<char>>::empty());
    }
    while i < lines.len()
        invariant
            i <= lines@.len(),
            spec_parse_data_lines(line_views.take(i as int)) == Some(
                pairs@.map_values(|p: (String, MetricValue)| (p.0@, p.1@)),
            ),
        decreases lines.len() - i,
    {
        proof {
            assert(line_views.take(i as int + 1).drop_last() =~= line_views.take(i as int));
            assert(line_views.take(i as int + 1).last() == lines@[i as int]@);
        }
        match parse_data_line(&lines[i]) {
            Some(Some(pair)) => {
                let key_chars = chars_of(pair.0.as_str());
                if has_key(&pairs, &key_chars) {
                    proof {
                        assert(spec_parse_data_lines(line_views.take(i as int + 1)) is None);
                        lemma_data_lines_poison(line_views, i as int + 1);
                    }
                    return None;
                }
                pairs.push(pair);
                proof {
                    assert(pairs@.map_values(|p: (String, MetricValue)| (p.0@, p.1@))
                        =~= pairs@.map_values(
                        |p: (String, MetricValue)| (p.0@, p.1@),
                    ).drop_last().push((pairs@.last().0@, pairs@.last().1@)));
                }
            },
            Some(None) => {},
            None => {
                proof {
                    assert(spec_parse_data_lines(line_views.take(i as int + 1)) is None);
                    lemma_data_lines_poison(line_views, i as int + 1);
                }
                return None;
            },
        }
        i = i + 1;
    }
    proof {
        assert(line_views.take(line_views.len() as int) =~= line_views);
    }
    Some(pairs)
}

/// Whether the key was already read into the pair list.
#[verifier::loop_isolation(false)]
fn has_key(pairs: &Vec<(String, MetricValue)>, k: &Vec<char>) -> (r: bool)
    ensures
        r == spec_has_key(
            pairs@.map_values(|p: (String, MetricValue)| (p.0@, p.1@)),
            k@,
        ),
{
    let ghost views = pairs@.map_values(|p: (String, MetricValue)| (p.0@, p.1@));
    let mut idx: usize = 0;
    while idx < pairs.len()
        invariant
            idx <= pairs@.len(),
            views == pairs@.map_values(|p: (String, MetricValue)| (p.0@, p.1@)),
            forall|m: int| 0 <= m < idx ==> views[m].0 != k@,
        decreases pairs.len() - idx,
    {
        let pc = chars_of(pairs[idx].0.as_str());
        if chars_eq(&pc, k) {
            proof {
                assert(views[idx as int].0 == k@);
            }
            return true;
        }
        idx = idx + 1;
    }
    false
}

/// Once a prefix of the lines is malformed, the whole file is.
proof fn lemma_data_lines_poison(lines: Seq<Seq<char>>, i: int)
    requires
        0 <= i <= lines.len(),
        spec_parse_data_lines(lines.take(i)) is None,
    ensures
        spec_parse_data_lines(lines) is None,
    decreases lines.len() - i,
{
    if i < lines.len() {
        assert(lines.take(i + 1).drop_last() =~= lines.take(i));
        assert(spec_parse_data_lines(lines.take(i + 1)) is None);
        lemma_data_lines_poison(lines, i + 1);
    } else {
        assert(lines.take(i) =~= lines);
    }
}

/// The declared description for a metric key: the first matching output's
/// description, or empty.
pub open spec fn spec_description_of(outputs: Seq<FunctionOutput>, key: Seq<char>) -> Seq<
    char,
>
    decreases outputs.len(),
{
    if outputs.len() == 0 {
        Seq::<char>::empty()
    } else if outputs[0].key@ == key {
        outputs[0].description@
    } else {
        spec_description_of(outputs.drop_first(), key)
    }
}

/// Looks up the declared description for a metric key.
#[verifier::loop_isolation(false)]
fn description_of(outputs: &Vec<FunctionOutput>, key: &String) -> (r: String)
    ensures
        r@ == spec_description_of(outputs@, key@),
{
    let mut i: usize = 0;
    proof {
        assert(outputs@.skip(0) =~= outputs@);
    }
    while i < outputs.len()
        invariant
            i <= outputs@.len(),
            spec_description_of(outputs@, key@) == spec_description_of(
                outputs@.skip(i as int),
                key@,
            ),
        decreases outputs.len() - i,
    {
        proof {
            assert(outputs@.skip(i as int)[0] == outputs@[i as int]);
            assert(outputs@.skip(i as int).drop_first() =~= outputs@.skip(i as int + 1));
        }
        let key_chars = chars_of(key.as_str());
        if chars_eq_str(&key_chars, outputs[i].key.as_str()) {
            return outputs[i].description.clone();
        }
        i = i + 1;
    }
    proof {
        assert(outputs@.skip(outputs@.len() as int).len() == 0);
    }
    String::new()
}

/// The scan results carried by a list of harvested pairs: each key joined
/// with its declared description.
pub open spec fn spec_results_of(
    pairs: Seq<(Seq<char>, MetricValueModel)>,
    outputs: Seq<FunctionOutput>,
) -> Seq<ScanMetadataModel> {
    pairs.map_values(
        |p: (Seq<char>, MetricValueModel)| ScanMetadataModel {
            key: p.0,
            description: spec_description_of(outputs, p.0),
            value: p.1,
        },
    )
}

/// What the harvester yields for an optional metrics file: the annotated
/// pairs, or nothing at all when the file is absent or malformed.
pub open spec fn spec_harvest(data: Option<Seq<char>>, outputs: Seq<FunctionOutput>) -> Seq<
    ScanMetadataModel,
> {
    match data {
        None => Seq::<ScanMetadataModel>::empty(),
        Some(s) => match spec_parse_data(s) {
            Some(pairs) => spec_results_of(pairs, outputs),
            None => Seq::<ScanMetadataModel>::empty(),
        },
    }
}

/// Harvests the metrics of one scan: parses the file, if any, and joins
/// each key with the function's declared outputs. A missing or malformed
/// file yields no results.
#[verifier::loop_isolation(false)]
pub fn harvest_results(data_content: &Option<String>, outputs: &Vec<FunctionOutput>) -> (r:
    Vec<ScanMetadata>)
    ensures
        r@.map_values(|m: ScanMetadata| m@) == spec_harvest(
            match data_content {
                Some(s) => Some(s@),
                None => None,
            },
            outputs@,
        ),
{
    let mut results: Vec<ScanMetadata> = Vec::new();
    let content = match data_content {
        Some(s) => s,
        None => {
            proof {
                assert(results@.map_values(|m: ScanMetadata| m@) =~= Seq::<
                    ScanMetadataModel,
                >::empty());
            }
            return results;
        },
    };
    let pairs = match parse_data(content.as_str()) {
        Some(ps) => ps,
        None => {
            proof {
                assert(results@.map_values(|m: ScanMetadata| m@) =~= Seq::<
                    ScanMetadataModel,
                >::empty());
            }
            return results;
        },
    };
    let ghost pair_views = pairs@.map_values(|p: (String, MetricValue)| (p.0@, p.1@));
    let mut i: usize = 0;
    while i < pairs.len()
        invariant
            i <= pairs@.len(),
            pair_views == pairs@.map_values(|p: (String, MetricValue)| (p.0@, p.1@)),
            results@.len() == i,
            forall|k: int|
                0 <= k < i ==> results@[k]@ == (ScanMetadataModel {
                    key: pair_views[k].0,
                    description: spec_description_of(outputs@, pair_views[k].0),
                    value: pair_views[k].1,
                }),
        decreases pairs.len() - i,
    {
        let key_copy = {
            let kc = chars_of(pairs[i].0.as_str());
            string_from_chars(&kc)
        };
        let description = description_of(outputs, &key_copy);
        let value = match &pairs[i].1 {
            MetricValue::Number(n) => MetricValue::Number(*n),
            MetricValue::Text(t) => {
                let tc = chars_of(t.as_str());
                MetricValue::Text(string_from_chars(&tc))
            },
            MetricValue::Boolean(b) => MetricValue::Boolean(*b),
        };
        proof {
            assert(pair_views[i as int] == (pairs@[i as int].0@, pairs@[i as int].1@));
            assert(key_copy@ == pair_views[i as int].0);
            assert(description@ == spec_description_of(outputs@, pair_views[i as int].0));
            assert(value@ == pair_views[i as int].1);
        }
        results.push(ScanMetadata { key: key_copy, description, value });
        i = i + 1;
    }
    proof {
        assert(results@.map_values(|m: ScanMetadata| m@) =~= spec_results_of(
            pair_views,
            outputs@,
        ));
    }
    results
}

/// One issue as found in the issue file: a name, once the file is fully
/// read, and an optional severity.
#[derive(Debug, Clone, PartialEq)]
pub struct IssueEntry {
    pub name: String,
    pub severity: Option<String>,
}

impl View for IssueEntry {
    type V = (Seq<char>, Option<Seq<char>>);

    open spec fn view(&self) -> (Seq<char>, Option<Seq<char>>) {
        (
            self.name@,
            match self.severity {
                Some(s) => Some(s@),
                None => None,
            },
        )
    }
}

/// The ghost image of an option of text.
pub open spec fn spec_opt_text_view(o: Option<String>) -> Option<Seq<char>> {
    match o {
        Some(s) => Some(s@),
        None => None,
    }
}

/// Whether a trimmed line opens a new issue entry: `[[`, the table name,
/// `]]`, each part separated by optional whitespace, then at most a
/// comment.
pub open spec fn spec_is_issue_header(t: Seq<char>) -> bool {
    match spec_expect(t, "[["@) {
        Some(r1) => match spec_expect(spec_trim_front(r1), "issues"@) {
            Some(r2) => match spec_expect(spec_trim_front(r2), "]]"@) {
                Some(r3) => spec_rest_ok(r3),
                None => false,
            },
            None => false,
        },
        None => false,
    }
}

/// How one issue-file line transforms the entries read so far: a header
/// opens a new entry; a `name` or `severity` line fills the latest one,
/// once each; a line with any other key is read and dropped; before the
/// first header only the list's own name may not appear as a key; blank
/// and comment lines change nothing; anything else is malformed.
pub open spec fn spec_issue_line(
    entries: Seq<(Option<Seq<char>>, Option<Seq<char>>)>,
    line: Seq<char>,
) -> Option<Seq<(Option<Seq<char>>, Option<Seq<char>>)>> {
    let t = spec_trim(line);
    if t.len() == 0 || t[0] == '#' {
        Some(entries)
    } else if t[0] == '[' {
        if spec_is_issue_header(t) {
            Some(entries.push((None, None)))
        } else {
            None
        }
    } else {
        match spec_find_char(t, '=') {
            Some(e) => {
                let k = spec_trim(t.take(e));
                let vtext = spec_trim(t.skip(e + 1));
                if !spec_valid_key(k) {
                    None
                } else {
                    match spec_parse_value_prefix(vtext) {
                        Some(p) => if !spec_rest_ok(p.1) {
                            None
                        } else if entries.len() == 0 {
                            if k == "issues"@ {
                                None
                            } else {
                                Some(entries)
                            }
                        } else if k == "name"@ {
                            match p.0 {
                                MetricValueModel::Text(txt) => if entries.last().0 is Some {
                                    None
                                } else {
                                    Some(
                                        entries.update(
                                            entries.len() - 1,
                                            (Some(txt), entries.last().1),
                                        ),
                                    )
                                },
                                _ => None,
                            }
                        } else if k == "severity"@ {
                            match p.0 {
                                MetricValueModel::Text(txt) => if entries.last().1 is Some {
                                    None
                                } else {
                                    Some(
                                        entries.update(
                                            entries.len() - 1,
                                            (entries.last().0, Some(txt)),
                                        ),
                                    )
                                },
                                _ => None,
                            }
                        } else {
                            Some(entries)
                        },
                        None => None,
                    }
                }
            },
            None => None,
        }
    }
}

/// The entries after reading all lines, or nothing on the first malformed
/// line.
pub open spec fn spec_issue_fold(lines: Seq<Seq<char>>) -> Option<
    Seq<(Option<Seq<char>>, Option<Seq<char>>)>,
>
    decreases lines.len(),
{
    if lines.len() == 0 {
        Some(Seq::<(Option<Seq<char>>, Option<Seq<char>>)>::empty())
    } else {
        match spec_issue_fold(lines.drop_last()) {
            Some(entries) => spec_issue_line(entries, lines.last()),
            None => None,
        }
    }
}

/// What a whole issue file denotes: its entries in order, each with its
/// name; a file leaving any entry nameless is malformed.
pub open spec fn spec_parse_issues(s: Seq<char>) -> Option<
    Seq<(Seq<char>, Option<Seq<char>>)>,
> {
    match spec_issue_fold(spec_split(s, '\n')) {
        Some(entries) => if forall|k: int| 0 <= k < entries.len() ==> entries[k].0 is Some {
            Some(entries.map_values(|e: (Option<Seq<char>>, Option<Seq<char>>)| (e.0->0, e.1)))
        } else {
            None
        },
        None => None,
    }
}

/// Applies one issue-file line to the entries read so far; a malformed
/// line reports failure.
#[verifier::loop_isolation(false)]
fn apply_issue_line(acc: &mut Vec<(Option<String>, Option<String>)>, line: &Vec<char>) -> (ok:
    bool)
    ensures
        match spec_issue_line(
            old(acc)@.map_values(
                |e: (Option<String>, Option<String>)| (spec_opt_text_view(e.0), spec_opt_text_view(e.1)),
            ),
            line@,
        ) {
            Some(next) => ok && final(acc)@.map_values(
                |e: (Option<String>, Option<String>)| (spec_opt_text_view(e.0), spec_opt_text_view(e.1)),
            ) == next,
            None => !ok && final(acc)@ == old(acc)@,
        },
{
    let ghost entry_view = |e: (Option<String>, Option<String>)|
        (spec_opt_text_view(e.0), spec_opt_text_view(e.1));
    let t = trim_chars(line);
    if t.len() == 0 {
        return true;
    }
    if t[0] == '#' {
        return true;
    }
    if t[0] == '[' {
        if is_issue_header(&t) {
            acc.push((None, None));
            proof {
                assert(acc@.map_values(entry_view) =~= old(acc)@.map_values(entry_view).push(
                    (None, None),
                ));
            }
            return true;
        }
        return false;
    }
    match find_char(&t, '=') {
        Some(e) => {
            let key_raw = copy_range(&t, 0, e);
            proof {
                assert(key_raw@ =~= t@.take(e as int));
            }
            let key = trim_chars(&key_raw);
            if !is_valid_key(&key) {
                return false;
            }
            let value_raw = copy_range(&t, e + 1, t.len());
            proof {
                assert(value_raw@ =~= t@.skip(e as int + 1));
            }
            let value_text = trim_chars(&value_raw);
            proof {
                assert(value_text@.skip(0) =~= value_text@);
            }
            match parse_value_prefix(&value_text, 0) {
                Some(q) => {
                    if !rest_is_comment(&value_text, q.1) {
                        return false;
                    }
                    if acc.len() == 0 {
                        if chars_eq_str(&key, "issues") {
                            return false;
                        }
                        return true;
                    }
                    let is_name = chars_eq_str(&key, "name");
                    let is_severity = chars_eq_str(&key, "severity");
                    if !is_name && !is_severity {
                        return true;
                    }
                    let last_index = acc.len() - 1;
                    proof {
                        reveal_strlit("name");
                        reveal_strlit("severity");
                        assert("name"@.len() != "severity"@.len());
                        assert(old(acc)@.map_values(entry_view).last() == entry_view(
                            old(acc)@.last(),
                        ));
                        assert(acc@[last_index as int] == old(acc)@.last());
                    }
                    if is_name && acc[last_index].0.is_some() {
                        proof {
                            let entries = old(acc)@.map_values(entry_view);
                            assert(entries.last().0 is Some);
                            assert(spec_issue_line(entries, line@) is None);
                        }
                        return false;
                    }
                    if is_severity && acc[last_index].1.is_some() {
                        proof {
                            let entries = old(acc)@.map_values(entry_view);
                            assert(entries.last().1 is Some);
                            assert(spec_issue_line(entries, line@) is None);
                        }
                        return false;
                    }
                    match q.0 {
                        MetricValue::Text(txt) => {
                            let last = match acc.pop() {
                                Some(entry) => entry,
                                None => {
                                    return false;
                                },
                            };
                            let updated = if is_name {
                                (Some(txt), last.1)
                            } else {
                                (last.0, Some(txt))
                            };
                            acc.push(updated);
                            proof {
                                assert(acc@.map_values(entry_view) =~= old(acc)@.map_values(
                                    entry_view,
                                ).update(old(acc)@.len() - 1, entry_view(acc@.last())));
                                assert(old(acc)@.map_values(entry_view).last() == entry_view(
                                    old(acc)@.last(),
                                ));
                            }
                            true
                        },
                        _ => false,
                    }
                },
                None => false,
            }
        },
        None => false,
    }
}

/// Whether a trimmed line opens a new issue entry.
fn is_issue_header(t: &Vec<char>) -> (r: bool)
    ensures
        r == spec_is_issue_header(t@),
{
    proof {
        assert(t@.skip(0) =~= t@);
    }
    match expect_lit(t, 0, "[[") {
        Some(j1) => {
            let j2 = skip_spaces(t, j1);
            match expect_lit(t, j2, "issues") {
                Some(j3) => {
                    let j4 = skip_spaces(t, j3);
                    match expect_lit(t, j4, "]]") {
                        Some(j5) => rest_is_comment(t, j5),
                        None => false,
                    }
                },
                None => false,
            }
        },
        None => false,
    }
}

/// Parses an issue file into its named entries, in order.
#[verifier::loop_isolation(false)]
pub fn parse_issues(content: &str) -> (r: Option<Vec<IssueEntry>>)
    ensures
        match (spec_parse_issues(content@), r) {
            (Some(models), Some(entries)) => entries@.map_values(|e: IssueEntry| e@)
                == models,
            (None, None) => true,
            _ => false,
        },
{
    let ghost entry_view = |e: (Option<String>, Option<String>)|
        (spec_opt_text_view(e.0), spec_opt_text_view(e.1));
    let chars = chars_of(content);
    let lines = split_chars(&chars, '\n');
    let ghost line_views = lines@.map_values(|l: Vec<char>| l@);
    let mut acc: Vec<(Option<String>, Option<String>)> = Vec::new();
    let mut i: usize = 0;
    proof {
        assert(line_views.take(0) =~= Seq::<Seq<char>>::empty());
        assert(acc@.map_values(entry_view) =~= Seq::<
            (Option<Seq<char>>, Option<Seq<char>>),
        >::empty());
    }
    while i < lines.len()
        invariant
            i <= lines@.len(),
            spec_issue_fold(line_views.take(i as int)) == Some(acc@.map_values(entry_view)),
        decreases lines.len() - i,
    {
        proof {
            assert(line_views.take(i as int + 1).drop_last() =~= line_views.take(i as int));
            assert(line_views.take(i as int + 1).last() == lines@[i as int]@);
        }
        let ok = apply_issue_line(&mut acc, &lines[i]);
        if !ok {
            proof {
                assert(spec_issue_fold(line_views.take(i as int + 1)) is None);
                lemma_issue_fold_poison(line_views, i as int + 1);
            }
            return None;
        }
        i = i + 1;
    }
    proof {
        assert(line_views.take(line_views.len() as int) =~= line_views);
    }
    let ghost folded = acc@.map_values(entry_view);
    let mut entries: Vec<IssueEntry> = Vec::new();
    let mut j: usize = 0;
    while j < acc.len()
        invariant
            j <= acc@.len(),
            folded == acc@.map_values(entry_view),
            spec_issue_fold(line_views) == Some(folded),
            entries@.len() == j,
            forall|k: int| 0 <= k < j ==> folded[k].0 is Some,
            forall|k: int|
                0 <= k < j ==> entries@[k]@ == (folded[k].0->0, folded[k].1),
        decreases acc.len() - j,
    {
        let name = match &acc[j].0 {
            Some(n) => {
                let nc = chars_of(n.as_str());
                string_from_chars(&nc)
            },
            None => {
                proof {
                    assert(folded[j as int].0 is None);
                }
                return None;
            },
        };
        let severity = match &acc[j].1 {
            Some(s) => {
                let sc = chars_of(s.as_str());
                Some(string_from_chars(&sc))
            },
            None => None,
        };
        entries.push(IssueEntry { name, severity });
        j = j + 1;
    }
    proof {
        assert(entries@.map_values(|e: IssueEntry| e@) =~= folded.map_values(
            |e: (Option<Seq<char>>, Option<Seq<char>>)| (e.0->0, e.1),
        ));
    }
    Some(entries)
}

/// Once a prefix of the lines is malformed, the whole file is.
proof fn lemma_issue_fold_poison(lines: Seq<Seq<char>>, i: int)
    requires
        0 <= i <= lines.len(),
        spec_issue_fold(lines.take(i)) is None,
    ensures
        spec_issue_fold(lines) is None,
    decreases lines.len() - i,
{
    if i < lines.len() {
        assert(lines.take(i + 1).drop_last() =~= lines.take(i));
        assert(spec_issue_fold(lines.take(i + 1)) is None);
        lemma_issue_fold_poison(lines, i + 1);
    } else {
        assert(lines.take(i) =~= lines);
    }
}

/// Fills in the back-references of harvested issues: every issue keeps
/// its name and severity and points at the repository, the function and
/// the scan it came from.
#[verifier::loop_isolation(false)]
pub fn attach_issue_refs(
    entries: Vec<IssueEntry>,
    repository_id: &str,
    function_id: &str,
    scan_id: &str,
) -> (r: Vec<CodeIssue>)
    ensures
        r@.len() == entries@.len(),
        forall|k: int|
            0 <= k < entries@.len() ==> r@[k]@ == (crate::models::CodeIssueModel {
                name: entries@[k]@.0,
                severity: entries@[k]@.1,
                repository_id: Some(repository_id@),
                function_id: Some(function_id@),
                scan_id: Some(scan_id@),
            }),
{
    let mut remaining = entries;
    let ghost orig = remaining@;
    let mut r: Vec<CodeIssue> = Vec::new();
    let mut i: usize = 0;
    let total: usize = remaining.len();
    proof {
        assert(orig.len() == total);
    }
    while remaining.len() > 0
        invariant
            i <= orig.len(),
            orig.len() <= usize::MAX,
            remaining@ == orig.skip(i as int),
            r@.len() == i,
            forall|k: int|
                0 <= k < i ==> r@[k]@ == (crate::models::CodeIssueModel {
                    name: orig[k]@.0,
                    severity: orig[k]@.1,
                    repository_id: Some(repository_id@),
                    function_id: Some(function_id@),
                    scan_id: Some(scan_id@),
                }),
        decreases remaining.len(),
    {
        let entry = remaining.remove(0);
        proof {
            assert(orig.skip(i as int)[0] == orig[i as int]);
            assert(orig.skip(i as int).remove(0) =~= orig.skip(i as int + 1));
        }
        let issue = CodeIssue {
            name: entry.name,
            severity: entry.severity,
            repository_id: Some(String::from_str(repository_id)),
            function_id: Some(String::from_str(function_id)),
            scan_id: Some(String::from_str(scan_id)),
        };
        r.push(issue);
        i = i + 1;
    }
    proof {
        assert(orig.skip(i as int).len() == 0);
        assert(i == orig.len());
    }
    r
}

} // verus!
