//! Tokenizer: turns path text into command letters and fixed-point numbers.
//!
//! Numbers are held as `i128` counts of millionths (`UNIT` per unit). A
//! literal keeps at most six fraction digits (further digits are dropped) and
//! at most twelve integer digits; a literal with a longer integer part, like
//! any other unrecognised text, gives an `Invalid` token, which makes the
//! parse fail.
use vstd::prelude::*;
use vstd::string::StringSliceAdditionalSpecFns;

verus! {

/// Fixed-point scale: one unit of a coordinate is `UNIT` counts.
pub const UNIT: i128 = 1_000_000;

/// Fraction digits that a literal keeps.
pub const FRAC_DIGITS: usize = 6;

/// Integer digits that a literal may have.
pub const MAX_INT_DIGITS: usize = 12;

/// Every number token lies strictly between `-LITERAL_LIMIT` and `LITERAL_LIMIT`.
pub const LITERAL_LIMIT: i128 = 1_000_000_000_000_000_000;

/// The ten command families of the path grammar.
#[derive(Clone, Copy, Debug, PartialEq, Eq, Structural)]
pub enum Cmd {
    M,
    L,
    H,
    V,
    C,
    S,
    Q,
    T,
    A,
    Z,
}

/// A token: a command letter with its relative flag, a number in counts, or
/// text that is no token (a letter of no command family, a number too long to
/// hold, any other character). `Invalid` is always the last token.
#[derive(Clone, Copy, Debug, PartialEq, Eq, Structural)]
pub enum Token {
    Command(Cmd, bool),
    Number(i128),
    Invalid,
}

/// The family a letter names, in either case.
pub open spec fn family(c: char) -> Option<Cmd> {
    match c {
        'M' | 'm' => Some(Cmd::M),
        'L' | 'l' => Some(Cmd::L),
        'H' | 'h' => Some(Cmd::H),
        'V' | 'v' => Some(Cmd::V),
        'C' | 'c' => Some(Cmd::C),
        'S' | 's' => Some(Cmd::S),
        'Q' | 'q' => Some(Cmd::Q),
        'T' | 't' => Some(Cmd::T),
        'A' | 'a' => Some(Cmd::A),
        'Z' | 'z' => Some(Cmd::Z),
        _ => None,
    }
}

/// A command letter: its family, and whether it is relative (lower case).
pub open spec fn command_of(c: char) -> Option<(Cmd, bool)> {
    match family(c) {
        Some(f) => Some((f, 'a' <= c && c <= 'z')),
        None => None,
    }
}

impl Cmd {
    /// The family and relative flag of a command letter, `None` for any other character.
    pub fn map(c: char) -> (r: Option<(Cmd, bool)>)
        ensures
            r == command_of(c),
    {
        match c {
            'M' => Some((Cmd::M, false)),
            'm' => Some((Cmd::M, true)),
            'L' => Some((Cmd::L, false)),
            'l' => Some((Cmd::L, true)),
            'H' => Some((Cmd::H, false)),
            'h' => Some((Cmd::H, true)),
            'V' => Some((Cmd::V, false)),
            'v' => Some((Cmd::V, true)),
            'C' => Some((Cmd::C, false)),
            'c' => Some((Cmd::C, true)),
            'S' => Some((Cmd::S, false)),
            's' => Some((Cmd::S, true)),
            'Q' => Some((Cmd::Q, false)),
            'q' => Some((Cmd::Q, true)),
            'T' => Some((Cmd::T, false)),
            't' => Some((Cmd::T, true)),
            'A' => Some((Cmd::A, false)),
            'a' => Some((Cmd::A, true)),
            'Z' => Some((Cmd::Z, false)),
            'z' => Some((Cmd::Z, true)),
            _ => None,
        }
    }
}

pub open spec fn is_separator(b: u8) -> bool {
    b == 32 || b == 44 || b == 9 || b == 13 || b == 10
}

pub open spec fn is_digit(b: u8) -> bool {
    48 <= b <= 57
}

pub open spec fn is_letter(b: u8) -> bool {
    (65 <= b <= 90) || (97 <= b <= 122)
}

pub open spec fn pow10(n: nat) -> int
    decreases n,
{
    if n == 0 {
        1
    } else {
        10 * pow10((n - 1) as nat)
    }
}

/// The first index at or after `j` that holds no digit.
pub open spec fn digits_end(s: Seq<u8>, j: int) -> int
    decreases s.len() - j,
{
    if 0 <= j < s.len() && is_digit(s[j]) {
        digits_end(s, j + 1)
    } else {
        j
    }
}

/// The value of the `n` decimal digits from `a`, where positions at or after `e` count as `0`.
pub open spec fn decimal(s: Seq<u8>, a: int, e: int, n: nat) -> int
    decreases n,
{
    if n == 0 {
        0
    } else {
        let p = a + n - 1;
        decimal(s, a, e, (n - 1) as nat) * 10 + if p < e {
            s[p] - 48
        } else {
            0
        }
    }
}

/// End of an optional minus sign at `i`.
pub open spec fn sign_end(s: Seq<u8>, i: int) -> int {
    if 0 <= i < s.len() && s[i] == 45 {
        i + 1
    } else {
        i
    }
}

/// End of an integer part at `j`: a bare `0`, a digit run not starting with `0`, or nothing.
pub open spec fn int_end(s: Seq<u8>, j: int) -> int {
    if 0 <= j < s.len() && s[j] == 48 {
        j + 1
    } else if 0 <= j < s.len() && 49 <= s[j] <= 57 {
        digits_end(s, j)
    } else {
        j
    }
}

/// A fraction (a point and at least one digit) starts at `k`.
pub open spec fn has_fraction(s: Seq<u8>, k: int) -> bool {
    0 <= k && k + 1 < s.len() && s[k] == 46 && is_digit(s[k + 1])
}

/// End of the longest number lexeme `-?(0|[1-9][0-9]*)?(\.[0-9]+)?` at `i`.
pub open spec fn number_end(s: Seq<u8>, i: int) -> int {
    let k = int_end(s, sign_end(s, i));
    if has_fraction(s, k) {
        digits_end(s, k + 1)
    } else {
        k
    }
}

/// The integer part of the lexeme at `i` has at most `MAX_INT_DIGITS` digits.
pub open spec fn number_fits(s: Seq<u8>, i: int) -> bool {
    int_end(s, sign_end(s, i)) - sign_end(s, i) <= MAX_INT_DIGITS
}

/// The value in counts of the lexeme at `i`: the integer part and the first
/// `FRAC_DIGITS` fraction digits, negated after a minus sign.
pub open spec fn number_value(s: Seq<u8>, i: int) -> int {
    let a = sign_end(s, i);
    let k = int_end(s, a);
    let frac = if has_fraction(s, k) {
        decimal(s, k + 1, number_end(s, i), FRAC_DIGITS as nat)
    } else {
        0
    };
    let mag = decimal(s, a, k, (k - a) as nat) * UNIT + frac;
    if a > i {
        -mag
    } else {
        mag
    }
}

/// The tokens of `s` from index `i`: separators are skipped, and the stream
/// ends at the end of the text, or with `Invalid` at the first text that is no token.
pub open spec fn lex_from(s: Seq<u8>, i: int) -> Seq<Token>
    decreases s.len() - i
    via lex_from_decreases
{
    if i < 0 || i >= s.len() {
        seq![]
    } else if is_separator(s[i]) {
        lex_from(s, i + 1)
    } else if is_letter(s[i]) {
        match command_of(s[i] as char) {
            Some((c, r)) => seq![Token::Command(c, r)] + lex_from(s, i + 1),
            None => seq![Token::Invalid],
        }
    } else if number_end(s, i) > i && number_fits(s, i) {
        seq![Token::Number(number_value(s, i) as i128)] + lex_from(s, number_end(s, i))
    } else {
        seq![Token::Invalid]
    }
}

#[via_fn]
proof fn lex_from_decreases(s: Seq<u8>, i: int) {
    if 0 <= i < s.len() {
        lemma_number_end(s, i);
    }
}

/// The tokens of a whole text.
pub open spec fn lex(s: Seq<u8>) -> Seq<Token> {
    lex_from(s, 0)
}

pub open spec fn token_in_range(t: Token) -> bool {
    match t {
        Token::Number(v) => -LITERAL_LIMIT < v < LITERAL_LIMIT,
        _ => true,
    }
}

pub open spec fn tokens_in_range(ts: Seq<Token>) -> bool {
    forall|j: int| 0 <= j < ts.len() ==> token_in_range(#[trigger] ts[j])
}

proof fn lemma_pow10_mono(m: nat, n: nat)
    requires
        m <= n,
    ensures
        1 <= pow10(m) <= pow10(n),
    decreases n,
{
    if n > m {
        lemma_pow10_mono(m, (n - 1) as nat);
    } else if m > 0 {
        lemma_pow10_mono((m - 1) as nat, (m - 1) as nat);
    }
}

proof fn lemma_digits_end(s: Seq<u8>, j: int)
    requires
        0 <= j <= s.len(),
    ensures
        j <= digits_end(s, j) <= s.len(),
        forall|p: int| j <= p < digits_end(s, j) ==> is_digit(#[trigger] s[p]),
        digits_end(s, j) == s.len() || !is_digit(s[digits_end(s, j)]),
    decreases s.len() - j,
{
    if j < s.len() && is_digit(s[j]) {
        lemma_digits_end(s, j + 1);
    }
}

proof fn lemma_number_end(s: Seq<u8>, i: int)
    requires
        0 <= i < s.len(),
    ensures
        i <= sign_end(s, i) <= int_end(s, sign_end(s, i)) <= number_end(s, i) <= s.len(),
{
    let a = sign_end(s, i);
    lemma_digits_end(s, a);
    let k = int_end(s, a);
    if has_fraction(s, k) {
        lemma_digits_end(s, k + 1);
    }
}

proof fn lemma_decimal_bound(s: Seq<u8>, a: int, e: int, n: nat)
    requires
        forall|p: int| a <= p < e ==> is_digit(#[trigger] s[p]),
    ensures
        0 <= decimal(s, a, e, n) < pow10(n),
    decreases n,
{
    if n > 0 {
        lemma_decimal_bound(s, a, e, (n - 1) as nat);
        let p = a + n - 1;
        let d = if p < e {
            s[p] - 48
        } else {
            0
        };
        let prev = decimal(s, a, e, (n - 1) as nat);
        assert(0 <= d <= 9);
        assert(prev * 10 + d < pow10((n - 1) as nat) * 10) by (nonlinear_arith)
            requires
                0 <= prev < pow10((n - 1) as nat),
                0 <= d <= 9,
        ;
    }
}

fn scan_digits(s: &[u8], j: usize) -> (e: usize)
    requires
        j <= s@.len(),
    ensures
        e as int == digits_end(s@, j as int),
{
    let mut k = j;
    while k < s.len() && 48 <= s[k] && s[k] <= 57
        invariant
            j <= k <= s@.len(),
            digits_end(s@, j as int) == digits_end(s@, k as int),
        decreases s@.len() - k,
    {
        k = k + 1;
    }
    k
}

fn decimal_value(s: &[u8], a: usize, e: usize, n: usize) -> (r: i128)
    requires
        a <= e <= s@.len(),
        n <= MAX_INT_DIGITS,
        forall|p: int| a <= p < e ==> is_digit(#[trigger] s@[p]),
    ensures
        r == decimal(s@, a as int, e as int, n as nat),
        0 <= r < pow10(n as nat),
{
    let mut v: i128 = 0;
    let mut m: usize = 0;
    proof {
        lemma_pow10_mono(n as nat, 12);
        reveal_with_fuel(pow10, 13);
    }
    while m < n
        invariant
            m <= n <= MAX_INT_DIGITS,
            a <= e <= s@.len(),
            forall|p: int| a <= p < e ==> is_digit(#[trigger] s@[p]),
            v == decimal(s@, a as int, e as int, m as nat),
            pow10(n as nat) <= 1_000_000_000_000,
        decreases n - m,
    {
        proof {
            lemma_decimal_bound(s@, a as int, e as int, m as nat);
            lemma_decimal_bound(s@, a as int, e as int, (m + 1) as nat);
            lemma_pow10_mono((m + 1) as nat, n as nat);
        }
        let d: i128 = if m < e - a {
            (s[a + m] - 48) as i128
        } else {
            0
        };
        v = v * 10 + d;
        m = m + 1;
    }
    proof {
        lemma_decimal_bound(s@, a as int, e as int, n as nat);
    }
    v
}

/// Reads the number lexeme at `i`, if there is one that fits: its end and value.
fn read_number(s: &[u8], i: usize) -> (r: Option<(usize, i128)>)
    requires
        i < s@.len(),
    ensures
        match r {
            Some((e, v)) => {
                &&& number_end(s@, i as int) > i && number_fits(s@, i as int)
                &&& e as int == number_end(s@, i as int)
                &&& i < e <= s@.len()
                &&& v as int == number_value(s@, i as int)
                &&& -LITERAL_LIMIT < v < LITERAL_LIMIT
            },
            None => !(number_end(s@, i as int) > i && number_fits(s@, i as int)),
        },
{
    let a: usize = if s[i] == 45 {
        i + 1
    } else {
        i
    };
    let k: usize = if a < s.len() && s[a] == 48 {
        a + 1
    } else if a < s.len() && 49 <= s[a] && s[a] <= 57 {
        scan_digits(s, a)
    } else {
        a
    };
    proof {
        lemma_digits_end(s@, a as int);
    }
    let frac = k < s.len() && s.len() - k > 1 && s[k] == 46 && 48 <= s[k + 1] && s[k + 1] <= 57;
    let e: usize = if frac {
        scan_digits(s, k + 1)
    } else {
        k
    };
    proof {
        if frac {
            lemma_digits_end(s@, (k + 1) as int);
        }
    }
    if e == i || k - a > MAX_INT_DIGITS {
        return None;
    }
    let int_part = decimal_value(s, a, k, k - a);
    let frac_part: i128 = if frac {
        decimal_value(s, k + 1, e, FRAC_DIGITS)
    } else {
        0
    };
    proof {
        lemma_pow10_mono((k - a) as nat, 12);
        reveal_with_fuel(pow10, 13);
    }
    let mag = int_part * UNIT + frac_part;
    let v = if a > i {
        -mag
    } else {
        mag
    };
    Some((e, v))
}

/// The tokens of `path`, up to its end or up to `Invalid` at the first text that is no token.
pub fn tokenize(path: &str) -> (r: Vec<Token>)
    ensures
        r@ == lex(path.spec_bytes()),
        tokens_in_range(r@),
{
    let s = path.as_bytes();
    let mut out: Vec<Token> = Vec::new();
    let mut i: usize = 0;
    while i < s.len()
        invariant
            i <= s@.len(),
            s@ == path.spec_bytes(),
            lex_from(s@, 0) == out@ + lex_from(s@, i as int),
            tokens_in_range(out@),
        decreases s@.len() - i,
    {
        let b = s[i];
        if b == 32 || b == 44 || b == 9 || b == 13 || b == 10 {
            i = i + 1;
        } else if (65 <= b && b <= 90) || (97 <= b && b <= 122) {
            match Cmd::map(b as char) {
                Some((c, rel)) => {
                    let t = Token::Command(c, rel);
                    assert(out@.push(t) + lex_from(s@, i + 1) =~= out@ + (seq![t] + lex_from(
                        s@,
                        i + 1,
                    )));
                    out.push(t);
                    i = i + 1;
                },
                None => {
                    assert(out@.push(Token::Invalid) =~= out@ + lex_from(s@, i as int));
                    out.push(Token::Invalid);
                    return out;
                },
            }
        } else {
            match read_number(s, i) {
                Some((e, v)) => {
                    let t = Token::Number(v);
                    assert(out@.push(t) + lex_from(s@, e as int) =~= out@ + (seq![t] + lex_from(
                        s@,
                        e as int,
                    )));
                    out.push(t);
                    i = e;
                },
                None => {
                    assert(out@.push(Token::Invalid) =~= out@ + lex_from(s@, i as int));
                    out.push(Token::Invalid);
                    return out;
                },
            }
        }
    }
    assert(out@ + lex_from(s@, i as int) =~= out@);
    out
}

} // verus!
