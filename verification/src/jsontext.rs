//! Lexical layer of the snapshot text format: whitespace, decimal numbers
//! and quoted strings, with a renderer and a parser proved inverse to each
//! other on everything the renderer emits.

use vstd::prelude::*;

verus! {

/// Characters the parser treats as insignificant between tokens.
pub open spec fn is_ws(c: char) -> bool {
    c == ' ' || c == '\n' || c == '\t' || c == '\r'
}

/// First position at or after `i` holding a non-whitespace character (or the
/// end of the text).
pub open spec fn skip_ws(s: Seq<char>, i: int) -> int
    decreases s.len() - i
        when 0 <= i <= s.len()
{
    if i < s.len() && is_ws(s[i]) {
        skip_ws(s, i + 1)
    } else {
        i
    }
}

/// Skipping whitespace from the start of a whitespace run lands exactly on
/// the first character after the run.
pub proof fn lemma_skip_ws_run(s: Seq<char>, i: int, j: int)
    requires
        0 <= i <= j <= s.len(),
        forall|k: int| i <= k < j ==> is_ws(s[k]),
        j == s.len() || !is_ws(s[j]),
    ensures
        skip_ws(s, i) == j,
    decreases j - i,
{
    if i < j {
        lemma_skip_ws_run(s, i + 1, j);
    }
}

/// `n` spaces.
pub open spec fn sp(n: nat) -> Seq<char> {
    Seq::new(n, |i: int| ' ')
}

/// A line break followed by `n` spaces of indentation.
pub open spec fn nlsp(n: nat) -> Seq<char> {
    seq!['\n'] + sp(n)
}

/// If the suffix of `s` at `i` reads `a + b`, then the suffix at
/// `i + a.len()` reads `b`.
pub proof fn lemma_suffix_advance(s: Seq<char>, i: int, a: Seq<char>, b: Seq<char>)
    requires
        0 <= i <= s.len(),
        s.subrange(i, s.len() as int) == a + b,
    ensures
        i + a.len() + b.len() == s.len(),
        s.subrange(i + a.len(), s.len() as int) == b,
        forall|k: int| 0 <= k < a.len() ==> s[i + k] == #[trigger] a[k],
{
    let suf = s.subrange(i, s.len() as int);
    assert(suf.len() == s.len() - i);
    assert forall|k: int| 0 <= k < a.len() implies s[i + k] == #[trigger] a[k] by {
        assert(suf[k] == s[i + k]);
        assert((a + b)[k] == a[k]);
    }
    assert forall|m: int|
        0 <= m < b.len() implies #[trigger] s.subrange(i + a.len(), s.len() as int)[m]
        == b[m] by {
        assert(s.subrange(i + a.len(), s.len() as int)[m] == s[i + a.len() + m]);
        assert(suf[a.len() + m] == s[i + (a.len() + m)]);
        assert((a + b)[a.len() + m] == b[m]);
    }
    assert(s.subrange(i + a.len(), s.len() as int) =~= b);
}

/// The decimal digits.
pub open spec fn is_digit(c: char) -> bool {
    c == '0' || c == '1' || c == '2' || c == '3' || c == '4' || c == '5' || c == '6' || c == '7'
        || c == '8' || c == '9'
}

/// The digit character for a value below ten.
pub open spec fn digit_char(d: nat) -> char {
    if d == 0 {
        '0'
    } else if d == 1 {
        '1'
    } else if d == 2 {
        '2'
    } else if d == 3 {
        '3'
    } else if d == 4 {
        '4'
    } else if d == 5 {
        '5'
    } else if d == 6 {
        '6'
    } else if d == 7 {
        '7'
    } else if d == 8 {
        '8'
    } else {
        '9'
    }
}

/// The value of a digit character.
pub open spec fn digit_val(c: char) -> nat {
    if c == '0' {
        0
    } else if c == '1' {
        1
    } else if c == '2' {
        2
    } else if c == '3' {
        3
    } else if c == '4' {
        4
    } else if c == '5' {
        5
    } else if c == '6' {
        6
    } else if c == '7' {
        7
    } else if c == '8' {
        8
    } else {
        9
    }
}

/// Decimal representation of `n`, most significant digit first, no sign and
/// no leading zeros (a single `'0'` for zero).
pub open spec fn dec_digits(n: nat) -> Seq<char>
    decreases n,
{
    if n < 10 {
        seq![digit_char(n)]
    } else {
        dec_digits(n / 10).push(digit_char(n % 10))
    }
}

pub proof fn lemma_dec_digits_form(n: nat)
    ensures
        dec_digits(n).len() >= 1,
        forall|k: int| 0 <= k < dec_digits(n).len() ==> #[trigger] is_digit(dec_digits(n)[k]),
    decreases n,
{
    if n >= 10 {
        lemma_dec_digits_form(n / 10);
    }
}

/// First position at or after `i` holding a non-digit (or the end).
pub open spec fn digits_end(s: Seq<char>, i: int) -> int
    decreases s.len() - i
        when 0 <= i <= s.len()
{
    if i < s.len() && is_digit(s[i]) {
        digits_end(s, i + 1)
    } else {
        i
    }
}

pub proof fn lemma_digits_end_bounds(s: Seq<char>, i: int)
    requires
        0 <= i <= s.len(),
    ensures
        i <= digits_end(s, i) <= s.len(),
        forall|k: int| i <= k < digits_end(s, i) ==> is_digit(s[k]),
        digits_end(s, i) == s.len() || !is_digit(s[digits_end(s, i)]),
    decreases s.len() - i,
{
    if i < s.len() && is_digit(s[i]) {
        lemma_digits_end_bounds(s, i + 1);
    }
}

pub proof fn lemma_digits_end_run(s: Seq<char>, i: int, j: int)
    requires
        0 <= i <= j <= s.len(),
        forall|k: int| i <= k < j ==> is_digit(s[k]),
        j == s.len() || !is_digit(s[j]),
    ensures
        digits_end(s, i) == j,
    decreases j - i,
{
    if i < j {
        lemma_digits_end_run(s, i + 1, j);
    }
}

/// Value of the digit run `s[i..j)`, read most significant digit first.
pub open spec fn digits_val(s: Seq<char>, i: int, j: int) -> nat
    decreases j - i
        when i <= j
{
    if i >= j {
        0
    } else {
        digits_val(s, i, j - 1) * 10 + digit_val(s[j - 1])
    }
}

/// Reading more digits never makes the value smaller.
pub proof fn lemma_digits_val_monotone(s: Seq<char>, i: int, j1: int, j2: int)
    requires
        i <= j1 <= j2,
    ensures
        digits_val(s, i, j1) <= digits_val(s, i, j2),
    decreases j2 - j1,
{
    if j1 < j2 {
        lemma_digits_val_monotone(s, i, j1, j2 - 1);
        assert(digits_val(s, i, j2) == digits_val(s, i, j2 - 1) * 10 + digit_val(s[j2 - 1]));
        assert(digits_val(s, i, j2 - 1) * 10 >= digits_val(s, i, j2 - 1)) by (nonlinear_arith);
    }
}

/// The digit run written for `n` reads back as `n`.
pub proof fn lemma_digits_val_of_dec(s: Seq<char>, i: int, n: nat)
    requires
        0 <= i,
        i + dec_digits(n).len() <= s.len(),
        forall|k: int| 0 <= k < dec_digits(n).len() ==> s[i + k] == #[trigger] dec_digits(n)[k],
    ensures
        digits_val(s, i, i + dec_digits(n).len()) == n,
    decreases n,
{
    let d = dec_digits(n);
    if n < 10 {
        assert(d[0] == digit_char(n));
        assert(s[i + 0] == d[0]);
        assert(digits_val(s, i, i + 1) == digits_val(s, i, i) * 10 + digit_val(s[i]));
        assert(digit_val(digit_char(n)) == n);
    } else {
        let dp = dec_digits(n / 10);
        assert(d == dp.push(digit_char(n % 10)));
        assert forall|k: int| 0 <= k < dp.len() implies s[i + k] == #[trigger] dp[k] by {
            assert(d[k] == dp[k]);
            assert(s[i + k] == d[k]);
        }
        lemma_digits_val_of_dec(s, i, n / 10);
        assert(d[d.len() - 1] == digit_char(n % 10));
        assert(s[i + (d.len() - 1)] == d[d.len() - 1]);
        assert(digits_val(s, i, i + d.len()) == digits_val(s, i, i + d.len() - 1) * 10
            + digit_val(s[i + d.len() - 1]));
        assert(digit_val(digit_char(n % 10)) == n % 10);
        assert(digits_val(s, i, i + dp.len()) == n / 10);
        assert(n / 10 * 10 + n % 10 == n);
    }
}

/// Match `lit` at position `i`, after skipping whitespace.
pub open spec fn parse_lit(s: Seq<char>, i: int, lit: Seq<char>) -> Option<int>
    recommends
        0 <= i <= s.len(),
{
    let j = skip_ws(s, i);
    if j + lit.len() <= s.len() && s.subrange(j, j + lit.len() as int) == lit {
        Some(j + lit.len() as int)
    } else {
        None
    }
}

/// Where the suffix at `i` reads whitespace, then `lit`, the parser accepts
/// `lit` and stops right after it.
pub proof fn lemma_rt_lit(s: Seq<char>, i: int, w: Seq<char>, lit: Seq<char>, rest: Seq<char>)
    requires
        0 <= i <= s.len(),
        s.subrange(i, s.len() as int) == w + (lit + rest),
        forall|k: int| 0 <= k < w.len() ==> is_ws(w[k]),
        lit.len() > 0,
        !is_ws(lit[0]),
    ensures
        parse_lit(s, i, lit) == Some(i + w.len() + lit.len()),
        s.subrange(i + w.len() + lit.len(), s.len() as int) == rest,
{
    lemma_suffix_advance(s, i, w, lit + rest);
    let j = i + w.len();
    lemma_suffix_advance(s, j, lit, rest);
    assert forall|k: int| i <= k < j implies is_ws(s[k]) by {
        assert(is_ws(w[k - i]));
        assert(s[i + (k - i)] == w[k - i]);
    }
    assert(s[j + 0] == lit[0]);
    lemma_skip_ws_run(s, i, j);
    assert forall|m: int|
        0 <= m < lit.len() implies #[trigger] s.subrange(j, j + lit.len() as int)[m]
        == lit[m] by {
        assert(s.subrange(j, j + lit.len() as int)[m] == s[j + m]);
        assert(s[j + m] == lit[m]);
    }
    assert(s.subrange(j, j + lit.len() as int) =~= lit);
}

/// Parse an unsigned decimal number that must fit in a `u64`.
pub open spec fn spec_parse_u64(s: Seq<char>, i: int) -> Option<(u64, int)>
    recommends
        0 <= i <= s.len(),
{
    let j = skip_ws(s, i);
    let k = digits_end(s, j);
    if k == j {
        None
    } else if digits_val(s, j, k) <= u64::MAX {
        Some((digits_val(s, j, k) as u64, k))
    } else {
        None
    }
}

/// Where the suffix at `i` reads whitespace, the digits of `n`, then text
/// that does not begin with a digit, the number parser returns `n`.
pub proof fn lemma_rt_u64(s: Seq<char>, i: int, w: Seq<char>, n: u64, rest: Seq<char>)
    requires
        0 <= i <= s.len(),
        s.subrange(i, s.len() as int) == w + (dec_digits(n as nat) + rest),
        forall|k: int| 0 <= k < w.len() ==> is_ws(w[k]),
        rest.len() == 0 || !is_digit(rest[0]),
    ensures
        spec_parse_u64(s, i) == Some((n, i + w.len() + dec_digits(n as nat).len())),
        s.subrange(i + w.len() + dec_digits(n as nat).len(), s.len() as int) == rest,
{
    let d = dec_digits(n as nat);
    lemma_dec_digits_form(n as nat);
    lemma_suffix_advance(s, i, w, d + rest);
    let j = i + w.len();
    lemma_suffix_advance(s, j, d, rest);
    assert forall|k: int| i <= k < j implies is_ws(s[k]) by {
        assert(is_ws(w[k - i]));
        assert(s[i + (k - i)] == w[k - i]);
    }
    assert(s[j + 0] == d[0]);
    assert(is_digit(d[0]));
    lemma_skip_ws_run(s, i, j);
    let k = j + d.len();
    assert forall|kk: int| j <= kk < k implies is_digit(s[kk]) by {
        assert(is_digit(d[kk - j]));
        assert(s[j + (kk - j)] == d[kk - j]);
    }
    assert(k == s.len() || !is_digit(s[k])) by {
        if k < s.len() {
            assert(s.subrange(k, s.len() as int)[0] == s[k + 0]);
            assert(rest[0] == s[k]);
        }
    }
    lemma_digits_end_run(s, j, k);
    lemma_digits_val_of_dec(s, j, n as nat);
}

/// Parse an optionally negated decimal number that must fit in an `i64`.
pub open spec fn spec_parse_i64(s: Seq<char>, i: int) -> Option<(i64, int)>
    recommends
        0 <= i <= s.len(),
{
    let j = skip_ws(s, i);
    if j < s.len() && s[j] == '-' {
        let k = digits_end(s, j + 1);
        if k == j + 1 {
            None
        } else if digits_val(s, j + 1, k) <= 0x8000_0000_0000_0000 {
            Some(((-(digits_val(s, j + 1, k) as int)) as i64, k))
        } else {
            None
        }
    } else {
        let k = digits_end(s, j);
        if k == j {
            None
        } else if digits_val(s, j, k) <= i64::MAX {
            Some((digits_val(s, j, k) as i64, k))
        } else {
            None
        }
    }
}

/// Decimal representation of a signed value: a minus sign for negatives,
/// then the digits of the magnitude.
pub open spec fn dec_i64(v: i64) -> Seq<char> {
    if v >= 0 {
        dec_digits(v as nat)
    } else {
        seq!['-'] + dec_digits((-(v as int)) as nat)
    }
}

/// Where the suffix at `i` reads whitespace, the rendering of `v`, then
/// text that does not begin with a digit, the signed parser returns `v`.
pub proof fn lemma_rt_i64(s: Seq<char>, i: int, w: Seq<char>, v: i64, rest: Seq<char>)
    requires
        0 <= i <= s.len(),
        s.subrange(i, s.len() as int) == w + (dec_i64(v) + rest),
        forall|k: int| 0 <= k < w.len() ==> is_ws(w[k]),
        rest.len() == 0 || !is_digit(rest[0]),
    ensures
        spec_parse_i64(s, i) == Some((v, i + w.len() + dec_i64(v).len())),
        s.subrange(i + w.len() + dec_i64(v).len(), s.len() as int) == rest,
{
    if v >= 0 {
        let d = dec_digits(v as nat);
        lemma_dec_digits_form(v as nat);
        lemma_suffix_advance(s, i, w, d + rest);
        let j = i + w.len();
        lemma_suffix_advance(s, j, d, rest);
        assert forall|k: int| i <= k < j implies is_ws(s[k]) by {
            assert(is_ws(w[k - i]));
            assert(s[i + (k - i)] == w[k - i]);
        }
        assert(s[j + 0] == d[0]);
        assert(is_digit(d[0]));
        lemma_skip_ws_run(s, i, j);
        assert(s[j] != '-');
        let k = j + d.len();
        assert forall|kk: int| j <= kk < k implies is_digit(s[kk]) by {
            assert(is_digit(d[kk - j]));
            assert(s[j + (kk - j)] == d[kk - j]);
        }
        assert(k == s.len() || !is_digit(s[k])) by {
            if k < s.len() {
                assert(s.subrange(k, s.len() as int)[0] == s[k + 0]);
                assert(rest[0] == s[k]);
            }
        }
        lemma_digits_end_run(s, j, k);
        lemma_digits_val_of_dec(s, j, v as nat);
    } else {
        let m = (-(v as int)) as nat;
        let d = dec_digits(m);
        lemma_dec_digits_form(m);
        assert(w + (dec_i64(v) + rest) =~= w + (seq!['-'] + (d + rest)));
        lemma_suffix_advance(s, i, w, seq!['-'] + (d + rest));
        let j = i + w.len();
        lemma_suffix_advance(s, j, seq!['-'], d + rest);
        lemma_suffix_advance(s, j + 1, d, rest);
        assert forall|k: int| i <= k < j implies is_ws(s[k]) by {
            assert(is_ws(w[k - i]));
            assert(s[i + (k - i)] == w[k - i]);
        }
        assert(s[j + 0] == seq!['-'][0]);
        assert(seq!['-'][0] == '-');
        lemma_skip_ws_run(s, i, j);
        let k = j + 1 + d.len();
        assert forall|kk: int| j + 1 <= kk < k implies is_digit(s[kk]) by {
            assert(is_digit(d[kk - (j + 1)]));
            assert(s[j + 1 + (kk - (j + 1))] == d[kk - (j + 1)]);
        }
        assert(k == s.len() || !is_digit(s[k])) by {
            if k < s.len() {
                assert(s.subrange(k, s.len() as int)[0] == s[k + 0]);
                assert(rest[0] == s[k]);
            }
        }
        lemma_digits_end_run(s, j + 1, k);
        lemma_digits_val_of_dec(s, j + 1, m);
        assert(m <= 0x8000_0000_0000_0000);
        assert((-(m as int)) as i64 == v);
        assert(i + w.len() + dec_i64(v).len() == k);
    }
}

/// How one character of text is written inside a quoted string.
pub open spec fn esc_char(c: char) -> Seq<char> {
    if c == '"' {
        seq!['\\', '"']
    } else if c == '\\' {
        seq!['\\', '\\']
    } else if c == '\n' {
        seq!['\\', 'n']
    } else if c == '\t' {
        seq!['\\', 't']
    } else if c == '\r' {
        seq!['\\', 'r']
    } else {
        seq![c]
    }
}

/// The escaped body of a quoted string.
pub open spec fn esc_str(t: Seq<char>) -> Seq<char>
    decreases t.len(),
{
    if t.len() == 0 {
        Seq::empty()
    } else {
        esc_char(t[0]) + esc_str(t.drop_first())
    }
}

/// Escaping distributes over concatenation.
pub proof fn lemma_esc_append(a: Seq<char>, b: Seq<char>)
    ensures
        esc_str(a + b) == esc_str(a) + esc_str(b),
    decreases a.len(),
{
    if a.len() == 0 {
        assert(a + b =~= b);
        assert(esc_str(a) + esc_str(b) =~= esc_str(b));
    } else {
        lemma_esc_append(a.drop_first(), b);
        assert((a + b).drop_first() =~= a.drop_first() + b);
        assert(esc_str(a + b) == esc_char((a + b)[0]) + esc_str((a + b).drop_first()));
        assert((a + b)[0] == a[0]);
        assert(esc_char(a[0]) + (esc_str(a.drop_first()) + esc_str(b)) =~= (esc_char(a[0])
            + esc_str(a.drop_first())) + esc_str(b));
    }
}

/// A quoted string: the escaped text between two quote characters.
pub open spec fn json_str(t: Seq<char>) -> Seq<char> {
    seq!['"'] + esc_str(t) + seq!['"']
}

/// The character an escape letter stands for.
pub open spec fn unesc(e: char) -> Option<char> {
    if e == '"' {
        Some('"')
    } else if e == '\\' {
        Some('\\')
    } else if e == 'n' {
        Some('\n')
    } else if e == 't' {
        Some('\t')
    } else if e == 'r' {
        Some('\r')
    } else {
        None
    }
}

/// Parse the body of a quoted string, starting just after the opening
/// quote, up to and including the closing quote.
pub open spec fn parse_str_body(s: Seq<char>, i: int) -> Option<(Seq<char>, int)>
    decreases s.len() - i
        when 0 <= i <= s.len()
{
    if i >= s.len() {
        None
    } else if s[i] == '"' {
        Some((Seq::empty(), i + 1))
    } else if s[i] == '\\' {
        if i + 1 >= s.len() {
            None
        } else {
            match unesc(s[i + 1]) {
                Some(c) => match parse_str_body(s, i + 2) {
                    Some((t, k)) => Some((seq![c] + t, k)),
                    None => None,
                },
                None => None,
            }
        }
    } else {
        match parse_str_body(s, i + 1) {
            Some((t, k)) => Some((seq![s[i]] + t, k)),
            None => None,
        }
    }
}

/// Parse a quoted string: whitespace, an opening quote, then the body.
pub open spec fn spec_parse_string(s: Seq<char>, i: int) -> Option<(Seq<char>, int)>
    recommends
        0 <= i <= s.len(),
{
    let j = skip_ws(s, i);
    if j < s.len() && s[j] == '"' {
        parse_str_body(s, j + 1)
    } else {
        None
    }
}

/// The escaped body written for `t`, followed by a closing quote, reads
/// back as exactly `t`.
pub proof fn lemma_rt_str_body(s: Seq<char>, i: int, t: Seq<char>, rest: Seq<char>)
    requires
        0 <= i <= s.len(),
        s.subrange(i, s.len() as int) == esc_str(t) + (seq!['"'] + rest),
    ensures
        parse_str_body(s, i) == Some((t, i + esc_str(t).len() + 1)),
        s.subrange(i + esc_str(t).len() + 1, s.len() as int) == rest,
    decreases t.len(),
{
    if t.len() == 0 {
        assert(esc_str(t) + (seq!['"'] + rest) =~= seq!['"'] + rest);
        lemma_suffix_advance(s, i, seq!['"'], rest);
        assert(s[i + 0] == seq!['"'][0]);
        assert(seq!['"'][0] == '"');
        assert(t =~= Seq::<char>::empty());
    } else {
        let c = t[0];
        let tr = t.drop_first();
        assert(esc_str(t) == esc_char(c) + esc_str(tr));
        assert(esc_str(t) + (seq!['"'] + rest) =~= esc_char(c) + (esc_str(tr) + (seq!['"']
            + rest)));
        lemma_suffix_advance(s, i, esc_char(c), esc_str(tr) + (seq!['"'] + rest));
        let i2 = i + esc_char(c).len();
        lemma_rt_str_body(s, i2, tr, rest);
        if c == '"' || c == '\\' || c == '\n' || c == '\t' || c == '\r' {
            assert(esc_char(c).len() == 2);
            assert(s[i + 0] == esc_char(c)[0]);
            assert(s[i + 1] == esc_char(c)[1]);
            assert(esc_char(c)[0] == '\\');
            assert(s[i] == '\\');
            assert(unesc(esc_char(c)[1]) == Some(c));
            assert(parse_str_body(s, i) == Some((seq![c] + tr, i2 + esc_str(tr).len() + 1)));
            assert(seq![c] + tr =~= t);
        } else {
            assert(esc_char(c).len() == 1);
            assert(s[i + 0] == esc_char(c)[0]);
            assert(esc_char(c)[0] == c);
            assert(s[i] == c);
            assert(s[i] != '"' && s[i] != '\\');
            assert(parse_str_body(s, i) == Some((seq![s[i]] + tr, i2 + esc_str(tr).len() + 1)));
            assert(seq![s[i]] + tr =~= t);
        }
    }
}

/// Where the suffix at `i` reads whitespace then the quoted form of `t`,
/// the string parser returns exactly `t`.
pub proof fn lemma_rt_string(s: Seq<char>, i: int, w: Seq<char>, t: Seq<char>, rest: Seq<char>)
    requires
        0 <= i <= s.len(),
        s.subrange(i, s.len() as int) == w + (json_str(t) + rest),
        forall|k: int| 0 <= k < w.len() ==> is_ws(w[k]),
    ensures
        spec_parse_string(s, i) == Some((t, i + w.len() + json_str(t).len())),
        s.subrange(i + w.len() + json_str(t).len(), s.len() as int) == rest,
{
    lemma_suffix_advance(s, i, w, json_str(t) + rest);
    let j = i + w.len();
    assert(json_str(t) + rest =~= seq!['"'] + (esc_str(t) + (seq!['"'] + rest)));
    lemma_suffix_advance(s, j, seq!['"'], esc_str(t) + (seq!['"'] + rest));
    assert forall|k: int| i <= k < j implies is_ws(s[k]) by {
        assert(is_ws(w[k - i]));
        assert(s[i + (k - i)] == w[k - i]);
    }
    assert(s[j + 0] == seq!['"'][0]);
    assert(seq!['"'][0] == '"');
    assert(!is_ws('"'));
    lemma_skip_ws_run(s, i, j);
    lemma_rt_str_body(s, j + 1, t, rest);
    assert(i + w.len() + json_str(t).len() == j + 1 + esc_str(t).len() + 1);
}


/// Relies on String::push: appends exactly the one character `c`.
#[verifier::external_body]
pub(crate) fn push_char(out: &mut String, c: char)
    ensures
        final(out)@ == old(out)@.push(c),
{
    out.push(c);
}

/// The characters of `s`, in order, as a vector.
pub fn str_chars(s: &str) -> (r: Vec<char>)
    ensures
        r@ == s@,
{
    let n = s.unicode_len();
    let mut v: Vec<char> = Vec::with_capacity(n);
    for i in 0..n
        invariant
            n == s@.len(),
            v@ =~= s@.take(i as int),
    {
        v.push(s.get_char(i));
        proof {
            assert(v@ =~= s@.take(i + 1));
        }
    }
    proof {
        assert(s@.take(n as int) =~= s@);
    }
    v
}

/// Append a line break and `n` spaces.
pub fn push_nlsp(out: &mut String, n: usize)
    ensures
        final(out)@ == old(out)@ + nlsp(n as nat),
{
    push_char(out, '\n');
    for i in 0..n
        invariant
            out@ =~= old(out)@ + seq!['\n'] + sp(i as nat),
    {
        push_char(out, ' ');
        proof {
            assert(sp(i as nat).push(' ') =~= sp((i + 1) as nat));
            assert(out@ =~= old(out)@ + seq!['\n'] + sp((i + 1) as nat));
        }
    }
    proof {
        assert(old(out)@ + seq!['\n'] + sp(n as nat) =~= old(out)@ + nlsp(n as nat));
    }
}

/// The digit character for a value below ten.
fn digit_char_x(d: u64) -> (c: char)
    requires
        d <= 9,
    ensures
        c == digit_char(d as nat),
{
    if d == 0 {
        '0'
    } else if d == 1 {
        '1'
    } else if d == 2 {
        '2'
    } else if d == 3 {
        '3'
    } else if d == 4 {
        '4'
    } else if d == 5 {
        '5'
    } else if d == 6 {
        '6'
    } else if d == 7 {
        '7'
    } else if d == 8 {
        '8'
    } else {
        '9'
    }
}

/// Append the decimal digits of `n`.
pub fn push_dec_u64(out: &mut String, n: u64)
    ensures
        final(out)@ == old(out)@ + dec_digits(n as nat),
    decreases n,
{
    if n >= 10 {
        push_dec_u64(out, n / 10);
        push_char(out, digit_char_x(n % 10));
        proof {
            assert((n / 10) as nat == n as nat / 10);
            assert((n % 10) as nat == n as nat % 10);
            assert(out@ =~= old(out)@ + dec_digits(n as nat));
        }
    } else {
        push_char(out, digit_char_x(n));
        proof {
            assert(out@ =~= old(out)@ + dec_digits(n as nat));
        }
    }
}

/// Append the decimal rendering of `v`, sign included.
pub fn push_dec_i64(out: &mut String, v: i64)
    ensures
        final(out)@ == old(out)@ + dec_i64(v),
{
    if v >= 0 {
        push_dec_u64(out, v as u64);
    } else {
        push_char(out, '-');
        let m: u64 = if v == i64::MIN {
            0x8000_0000_0000_0000u64
        } else {
            (-v) as u64
        };
        proof {
            assert(m as nat == (-(v as int)) as nat);
        }
        push_dec_u64(out, m);
        proof {
            assert(old(out)@.push('-') + dec_digits(m as nat) =~= old(out)@ + dec_i64(v));
        }
    }
}

/// Append the quoted, escaped form of `t`.
pub fn push_json_str(out: &mut String, t: &str)
    ensures
        final(out)@ == old(out)@ + json_str(t@),
{
    push_char(out, '"');
    let n = t.unicode_len();
    for i in 0..n
        invariant
            n == t@.len(),
            out@ =~= old(out)@.push('"') + esc_str(t@.take(i as int)),
    {
        let c = t.get_char(i);
        if c == '"' {
            push_char(out, '\\');
            push_char(out, '"');
        } else if c == '\\' {
            push_char(out, '\\');
            push_char(out, '\\');
        } else if c == '\n' {
            push_char(out, '\\');
            push_char(out, 'n');
        } else if c == '\t' {
            push_char(out, '\\');
            push_char(out, 't');
        } else if c == '\r' {
            push_char(out, '\\');
            push_char(out, 'r');
        } else {
            push_char(out, c);
        }
        proof {
            let cc = t@[i as int];
            lemma_esc_append(t@.take(i as int), seq![cc]);
            assert(t@.take(i as int) + seq![cc] =~= t@.take(i + 1));
            assert(seq![cc].len() == 1);
            assert(seq![cc][0] == cc);
            assert(esc_str(seq![cc]) == esc_char(seq![cc][0]) + esc_str(seq![cc].drop_first()));
            assert(seq![cc].drop_first() =~= Seq::<char>::empty());
            assert(esc_str(Seq::<char>::empty()) =~= Seq::<char>::empty());
            assert(esc_char(cc) + Seq::<char>::empty() =~= esc_char(cc));
            assert(esc_str(seq![cc]) =~= esc_char(cc));
            assert(out@ =~= old(out)@.push('"') + esc_str(t@.take(i + 1)));
        }
    }
    push_char(out, '"');
    proof {
        assert(t@.take(n as int) =~= t@);
        assert(old(out)@.push('"') + esc_str(t@) + seq!['"'] =~= old(out)@ + json_str(t@));
        assert(out@ =~= old(out)@ + json_str(t@));
    }
}


/// Advance past whitespace.
pub fn skip_ws_x(s: &Vec<char>, i: usize) -> (j: usize)
    requires
        i <= s@.len(),
    ensures
        j as int == skip_ws(s@, i as int),
        i <= j <= s@.len(),
    decreases s@.len() - i,
{
    let mut j = i;
    loop
        invariant
            i <= j <= s@.len(),
            skip_ws(s@, i as int) == skip_ws(s@, j as int),
        decreases s@.len() - j,
    {
        if j < s.len() {
            let c = s[j];
            if c == ' ' || c == '\n' || c == '\t' || c == '\r' {
                j = j + 1;
            } else {
                return j;
            }
        } else {
            return j;
        }
    }
}

/// Match the exact text of `lit` at `i`, after whitespace.
pub fn expect(s: &Vec<char>, i: usize, lit: &str) -> (r: Option<usize>)
    requires
        i <= s@.len(),
    ensures
        match r {
            Some(j) => parse_lit(s@, i as int, lit@) == Some(j as int) && i <= j <= s@.len(),
            None => parse_lit(s@, i as int, lit@) is None,
        },
{
    let j = skip_ws_x(s, i);
    let n = lit.unicode_len();
    let slen = s.len();
    if n > slen - j {
        return None;
    }
    for k in 0..n
        invariant
            n == lit@.len(),
            slen == s@.len(),
            j + n <= slen,
            j as int == skip_ws(s@, i as int),
            forall|m: int| 0 <= m < k ==> s@[j + m] == lit@[m],
    {
        if s[j + k] != lit.get_char(k) {
            proof {
                assert(s@.subrange(j as int, j + n)[k as int] == s@[j + k]);
                assert(s@.subrange(j as int, j + n) != lit@);
            }
            return None;
        }
    }
    proof {
        assert forall|m: int|
            0 <= m < n implies #[trigger] s@.subrange(j as int, j + n)[m] == lit@[m] by {
            assert(s@.subrange(j as int, j + n)[m] == s@[j + m]);
        }
        assert(s@.subrange(j as int, j + n) =~= lit@);
    }
    Some(j + n)
}

/// Read a run of digits starting exactly at `j0` as a `u64`.
fn digits_u64_x(s: &Vec<char>, j0: usize) -> (r: Option<(u64, usize)>)
    requires
        j0 <= s@.len(),
    ensures
        match r {
            Some(p) => {
                &&& p.1 as int == digits_end(s@, j0 as int)
                &&& j0 < p.1 <= s@.len()
                &&& digits_val(s@, j0 as int, p.1 as int) == p.0
            },
            None => digits_end(s@, j0 as int) == j0 || digits_val(
                s@,
                j0 as int,
                digits_end(s@, j0 as int),
            ) > u64::MAX,
        },
{
    proof {
        lemma_digits_end_bounds(s@, j0 as int);
    }
    let ghost kend = digits_end(s@, j0 as int);
    let mut j = j0;
    let mut acc: u64 = 0;
    loop
        invariant
            j0 <= j <= s@.len(),
            j as int <= kend,
            kend == digits_end(s@, j0 as int),
            kend <= s@.len(),
            forall|k: int| j0 <= k < kend ==> is_digit(s@[k]),
            kend == s@.len() || !is_digit(s@[kend as int]),
            acc == digits_val(s@, j0 as int, j as int),
        decreases s@.len() - j,
    {
        let at_digit: bool = if j < s.len() {
            let c = s[j];
            c == '0' || c == '1' || c == '2' || c == '3' || c == '4' || c == '5' || c == '6'
                || c == '7' || c == '8' || c == '9'
        } else {
            false
        };
        if !at_digit {
            proof {
                if (j as int) < kend {
                    assert(is_digit(s@[j as int]));
                }
                assert(j as int == kend);
            }
            if j == j0 {
                return None;
            }
            return Some((acc, j));
        }
        proof {
            if j as int == kend {
                assert(!is_digit(s@[j as int]));
                assert(false);
            }
        }
        let c = s[j];
        let d: u64 = if c == '0' {
            0
        } else if c == '1' {
            1
        } else if c == '2' {
            2
        } else if c == '3' {
            3
        } else if c == '4' {
            4
        } else if c == '5' {
            5
        } else if c == '6' {
            6
        } else if c == '7' {
            7
        } else if c == '8' {
            8
        } else {
            9
        };
        proof {
            assert(d == digit_val(s@[j as int]));
        }
        let step = match acc.checked_mul(10) {
            Some(m) => m.checked_add(d),
            None => None,
        };
        match step {
            Some(v) => {
                acc = v;
                j = j + 1;
                proof {
                    assert(digits_val(s@, j0 as int, j as int) == digits_val(
                        s@,
                        j0 as int,
                        j - 1,
                    ) * 10 + digit_val(s@[j - 1]));
                }
            },
            None => {
                proof {
                    assert(digits_val(s@, j0 as int, j + 1) == digits_val(s@, j0 as int, j as int)
                        * 10 + digit_val(s@[j as int]));
                    assert(digits_val(s@, j0 as int, j + 1) > u64::MAX);
                    lemma_digits_val_monotone(s@, j0 as int, j + 1, kend);
                }
                return None;
            },
        }
    }
}

/// Parse an unsigned decimal number.
pub fn parse_u64_x(s: &Vec<char>, i: usize) -> (r: Option<(u64, usize)>)
    requires
        i <= s@.len(),
    ensures
        match r {
            Some(p) => spec_parse_u64(s@, i as int) == Some((p.0, p.1 as int)) && p.1 <= s@.len(),
            None => spec_parse_u64(s@, i as int) is None,
        },
{
    let j = skip_ws_x(s, i);
    match digits_u64_x(s, j) {
        Some((v, k)) => Some((v, k)),
        None => None,
    }
}

/// Parse an optionally negated decimal number.
pub fn parse_i64_x(s: &Vec<char>, i: usize) -> (r: Option<(i64, usize)>)
    requires
        i <= s@.len(),
    ensures
        match r {
            Some(p) => spec_parse_i64(s@, i as int) == Some((p.0, p.1 as int)) && p.1 <= s@.len(),
            None => spec_parse_i64(s@, i as int) is None,
        },
{
    let j = skip_ws_x(s, i);
    if j < s.len() && s[j] == '-' {
        match digits_u64_x(s, j + 1) {
            Some((m, k)) => {
                if m > 0x8000_0000_0000_0000u64 {
                    None
                } else if m == 0x8000_0000_0000_0000u64 {
                    Some((i64::MIN, k))
                } else {
                    Some((-(m as i64), k))
                }
            },
            None => None,
        }
    } else {
        match digits_u64_x(s, j) {
            Some((m, k)) => {
                if m > i64::MAX as u64 {
                    None
                } else {
                    Some((m as i64, k))
                }
            },
            None => None,
        }
    }
}

/// The character an escape letter stands for.
fn unesc_x(e: char) -> (r: Option<char>)
    ensures
        r == unesc(e),
{
    if e == '"' {
        Some('"')
    } else if e == '\\' {
        Some('\\')
    } else if e == 'n' {
        Some('\n')
    } else if e == 't' {
        Some('\t')
    } else if e == 'r' {
        Some('\r')
    } else {
        None
    }
}

/// Parse a quoted string.
pub fn parse_string_x(s: &Vec<char>, i: usize) -> (r: Option<(Vec<char>, usize)>)
    requires
        i <= s@.len(),
    ensures
        match r {
            Some(p) => spec_parse_string(s@, i as int) == Some((p.0@, p.1 as int)) && p.1
                <= s@.len(),
            None => spec_parse_string(s@, i as int) is None,
        },
{
    let j = skip_ws_x(s, i);
    if j >= s.len() || s[j] != '"' {
        return None;
    }
    let mut acc: Vec<char> = Vec::new();
    let mut p = j + 1;
    loop
        invariant
            j + 1 <= p <= s@.len(),
            j < s@.len(),
            s@[j as int] == '"',
            j as int == skip_ws(s@, i as int),
            parse_str_body(s@, j + 1) == (match parse_str_body(s@, p as int) {
                Some(q) => Some((acc@ + q.0, q.1)),
                None => None::<(Seq<char>, int)>,
            }),
        decreases s@.len() - p,
    {
        if p >= s.len() {
            return None;
        }
        let c = s[p];
        if c == '"' {
            proof {
                assert(parse_str_body(s@, p as int) == Some(
                    (Seq::<char>::empty(), p + 1 as int),
                ));
                assert(acc@ + Seq::<char>::empty() =~= acc@);
            }
            return Some((acc, p + 1));
        } else if c == '\\' {
            if p + 1 >= s.len() {
                return None;
            }
            match unesc_x(s[p + 1]) {
                Some(u) => {
                    acc.push(u);
                    proof {
                        let prev = acc@.drop_last();
                        assert(prev.push(u) =~= acc@);
                        if parse_str_body(s@, p + 2) is Some {
                            let q = parse_str_body(s@, p + 2)->Some_0;
                            assert(parse_str_body(s@, p as int) == Some(
                                (seq![u] + q.0, q.1),
                            ));
                            assert(prev + (seq![u] + q.0) =~= acc@ + q.0);
                        } else {
                            assert(parse_str_body(s@, p as int) is None);
                        }
                    }
                    p = p + 2;
                },
                None => {
                    return None;
                },
            }
        } else {
            acc.push(c);
            proof {
                let prev = acc@.drop_last();
                assert(prev.push(c) =~= acc@);
                if parse_str_body(s@, p + 1) is Some {
                    let q = parse_str_body(s@, p + 1)->Some_0;
                    assert(parse_str_body(s@, p as int) == Some((seq![c] + q.0, q.1)));
                    assert(prev + (seq![c] + q.0) =~= acc@ + q.0);
                } else {
                    assert(parse_str_body(s@, p as int) is None);
                }
            }
            p = p + 1;
        }
    }
}


/// The string holding exactly the characters of `v`, in order.
pub fn chars_to_string(v: &Vec<char>) -> (r: String)
    ensures
        r@ == v@,
{
    let mut out = String::new();
    let n = v.len();
    for i in 0..n
        invariant
            n == v@.len(),
            out@ =~= v@.take(i as int),
    {
        push_char(&mut out, v[i]);
        proof {
            assert(out@ =~= v@.take(i + 1));
        }
    }
    proof {
        assert(v@.take(n as int) =~= v@);
    }
    out
}

} // verus!
