//! The text form of the library's values: whitespace-separated number
//! tokens.  A token is an optionally signed run of digits, a decimal
//! fraction `digits.digits`, or a ratio `digits/digits`; writing a
//! value emits the integer or ratio form, so that reading what was
//! written returns exactly the value written.

use vstd::prelude::*;

use crate::point::Point;
use crate::rat::Rat;
use crate::scalar::{fits, Scalar};
use crate::vec2::{Rat2, Vec2};
use crate::vec3::{Rat3, Vec3};
use crate::GeomError;

verus! {

/// The characters that separate tokens.
pub open spec fn is_space(c: char) -> bool {
    c == ' ' || c == '\t' || c == '\n' || c == '\r'
}

/// The length of the leading run of non-space characters.
pub open spec fn tok_len(s: Seq<char>) -> nat
    decreases s.len(),
{
    if s.len() == 0 || is_space(s[0]) {
        0
    } else {
        (1 + tok_len(s.subrange(1, s.len() as int))) as nat
    }
}

/// The leading run of non-space characters is no longer than the text.
pub proof fn lemma_tok_len_le(s: Seq<char>)
    ensures
        tok_len(s) <= s.len(),
    decreases s.len(),
{
    if s.len() != 0 && !is_space(s[0]) {
        lemma_tok_len_le(s.subrange(1, s.len() as int));
    }
}

/// The whitespace-separated tokens of the text, in order.
pub open spec fn tokens(s: Seq<char>) -> Seq<Seq<char>>
    decreases s.len(),
    via tokens_decreases
{
    if s.len() == 0 {
        Seq::empty()
    } else if is_space(s[0]) {
        tokens(s.subrange(1, s.len() as int))
    } else {
        seq![s.subrange(0, tok_len(s) as int)] + tokens(
            s.subrange(tok_len(s) as int, s.len() as int),
        )
    }
}

#[via_fn]
proof fn tokens_decreases(s: Seq<char>) {
    lemma_tok_len_le(s);
}

/// Whether the character is a space, decided.
fn is_space_x(c: char) -> (r: bool)
    ensures
        r == is_space(c),
{
    c == ' ' || c == '\t' || c == '\n' || c == '\r'
}

/// The length of the leading run of non-space characters.
fn token_len(s: &str) -> (r: usize)
    ensures
        r as nat == tok_len(s@),
    decreases s@.len(),
{
    let n = s.unicode_len();
    if n == 0 {
        0
    } else {
        let c = s.get_char(0);
        if is_space_x(c) {
            0
        } else {
            let rest = s.substring_char(1, n);
            let k = token_len(rest);
            proof {
                lemma_tok_len_le(rest@);
            }
            1 + k
        }
    }
}

/// The whitespace-separated tokens of the text, in order.
fn tokenize(s: &str) -> (r: Vec<String>)
    ensures
        r@.len() == tokens(s@).len(),
        forall|i: int| 0 <= i < r@.len() ==> #[trigger] r@[i]@ == tokens(s@)[i],
    decreases s@.len(),
{
    let n = s.unicode_len();
    if n == 0 {
        Vec::new()
    } else {
        let c = s.get_char(0);
        if is_space_x(c) {
            tokenize(s.substring_char(1, n))
        } else {
            let k = token_len(s);
            proof {
                lemma_tok_len_le(s@);
            }
            let tok = s.substring_char(0, k).to_owned();
            let rest = tokenize(s.substring_char(k, n));
            let mut out: Vec<String> = Vec::new();
            out.push(tok);
            let mut i: usize = 0;
            while i < rest.len()
                invariant
                    0 <= i <= rest.len(),
                    out@.len() == 1 + i,
                    out@[0]@ == s@.subrange(0, tok_len(s@) as int),
                    forall|j: int| 0 <= j < i ==> #[trigger] out@[j + 1]@ == rest@[j]@,
                decreases rest.len() - i,
            {
                let t = rest[i].clone();
                out.push(t);
                i = i + 1;
            }
            proof {
                let full = tokens(s@);
                let rest_toks = tokens(s@.subrange(tok_len(s@) as int, s@.len() as int));
                assert(full == seq![s@.subrange(0, tok_len(s@) as int)] + rest_toks);
                assert forall|j: int| 0 <= j < out@.len() implies #[trigger] out@[j]@
                    == full[j] by {
                    if j >= 1 {
                        assert(out@[(j - 1) + 1]@ == rest@[j - 1]@);
                        assert(rest@[j - 1]@ == rest_toks[j - 1]);
                        assert(full[j] == rest_toks[j - 1]);
                    }
                }
            }
            out
        }
    }
}

/// A nonempty, space-free text followed by nothing or by text that
/// opens with a space has that text as its leading token.
pub proof fn lemma_tok_len_concat(t: Seq<char>, r: Seq<char>)
    requires
        t.len() >= 1,
        forall|i: int| 0 <= i < t.len() ==> !is_space(#[trigger] t[i]),
        r.len() == 0 || is_space(r[0]),
    ensures
        tok_len(t + r) == t.len(),
    decreases t.len(),
{
    let s = t + r;
    assert(s[0] == t[0]);
    assert(!is_space(s[0]));
    if t.len() == 1 {
        assert(s.subrange(1, s.len() as int) =~= r);
        assert(tok_len(r) == 0);
        assert(tok_len(s) == 1 + tok_len(r));
    } else {
        let t2 = t.subrange(1, t.len() as int);
        assert(s.subrange(1, s.len() as int) =~= t2 + r);
        assert(forall|i: int| 0 <= i < t2.len() ==> !is_space(#[trigger] t2[i]));
        lemma_tok_len_concat(t2, r);
        assert(tok_len(s) == 1 + tok_len(t2 + r));
    }
}

/// Splitting off the leading token: a nonempty space-free text
/// followed by nothing or by text opening with a space tokenizes to
/// that text followed by the rest's tokens.
pub proof fn lemma_tokens_concat(t: Seq<char>, r: Seq<char>)
    requires
        t.len() >= 1,
        forall|i: int| 0 <= i < t.len() ==> !is_space(#[trigger] t[i]),
        r.len() == 0 || is_space(r[0]),
    ensures
        tokens(t + r) == seq![t] + tokens(r),
{
    let s = t + r;
    lemma_tok_len_concat(t, r);
    assert(s.subrange(0, tok_len(s) as int) =~= t);
    assert(s.subrange(tok_len(s) as int, s.len() as int) =~= r);
}

/// The decimal digits.
pub open spec fn is_digit(c: char) -> bool {
    '0' as int <= c as int <= '9' as int
}

/// The value of a digit character.
pub open spec fn digit_val(c: char) -> int {
    c as int - '0' as int
}

/// The character of a digit value.
pub open spec fn digit_char(d: int) -> char {
    if d == 0 {
        '0'
    } else if d == 1 {
        '1'
    } else if d == 2 {
        '2'
    } else if d == 3 {
        '3'
    } else if d == 4 {
        '4'
    } else if d == 5 {
        '5'
    } else if d == 6 {
        '6'
    } else if d == 7 {
        '7'
    } else if d == 8 {
        '8'
    } else {
        '9'
    }
}

/// Every character of the text is a digit.
pub open spec fn all_digits(s: Seq<char>) -> bool {
    forall|i: int| 0 <= i < s.len() ==> is_digit(#[trigger] s[i])
}

/// The length of the leading run of digits.
pub open spec fn digits_len(s: Seq<char>) -> nat
    decreases s.len(),
{
    if s.len() == 0 || !is_digit(s[0]) {
        0
    } else {
        (1 + digits_len(s.subrange(1, s.len() as int))) as nat
    }
}

/// The value of a digit text, read in base ten.
pub open spec fn digits_val(s: Seq<char>) -> int
    decreases s.len(),
{
    if s.len() == 0 {
        0
    } else {
        digits_val(s.subrange(0, s.len() - 1)) * 10 + digit_val(s[s.len() - 1])
    }
}

/// The power of ten with exponent `k`.
pub open spec fn pow10(k: nat) -> int
    decreases k,
{
    if k == 0 {
        1
    } else {
        10 * pow10((k - 1) as nat)
    }
}

/// The number a token denotes, if its shape is a digit run, a decimal
/// fraction `digits.digits`, or a ratio `digits/digits` with a nonzero
/// second part.
pub open spec fn parse_body(s: Seq<char>) -> Option<Rat> {
    let k = digits_len(s) as int;
    if k == 0 {
        None
    } else if k == s.len() {
        Some(Rat { n: digits_val(s), d: 1 })
    } else if s[k] == '.' {
        let frac = s.subrange(k + 1, s.len() as int);
        if frac.len() > 0 && all_digits(frac) {
            Some(
                Rat {
                    n: digits_val(s.subrange(0, k)) * pow10(frac.len()) + digits_val(frac),
                    d: pow10(frac.len()),
                },
            )
        } else {
            None
        }
    } else if s[k] == '/' {
        let den = s.subrange(k + 1, s.len() as int);
        if den.len() > 0 && all_digits(den) && digits_val(den) > 0 {
            Some(Rat { n: digits_val(s.subrange(0, k)), d: digits_val(den) })
        } else {
            None
        }
    } else {
        None
    }
}

/// The number a token denotes, with an optional leading minus sign.
pub open spec fn parse_token(s: Seq<char>) -> Option<Rat> {
    if s.len() == 0 {
        None
    } else if s[0] == '-' {
        match parse_body(s.subrange(1, s.len() as int)) {
            Some(r) => Some(Rat { n: -r.n, d: r.d }),
            None => None,
        }
    } else {
        parse_body(s)
    }
}

/// The scalar a token denotes, when it denotes one the machine range
/// can hold.
pub open spec fn read_scalar(s: Seq<char>) -> Option<Rat> {
    match parse_token(s) {
        Some(r) => if fits(r.n) && fits(r.d) {
            Some(r)
        } else {
            None
        },
        None => None,
    }
}

/// The text of a natural number, in base ten without a sign.
pub open spec fn nat_chars(v: nat) -> Seq<char>
    decreases v,
{
    if v < 10 {
        seq![digit_char(v as int)]
    } else {
        nat_chars(v / 10).push(digit_char((v % 10) as int))
    }
}

/// The text of an integer.
pub open spec fn int_chars(n: int) -> Seq<char> {
    if n < 0 {
        seq!['-'] + nat_chars((-n) as nat)
    } else {
        nat_chars(n as nat)
    }
}

/// The text of a scalar: its numerator, and its denominator after a
/// slash unless the denominator is one.
pub open spec fn scalar_chars(r: Rat) -> Seq<char> {
    if r.d == 1 {
        int_chars(r.n)
    } else {
        int_chars(r.n) + seq!['/'] + nat_chars(r.d as nat)
    }
}

/// The digit characters read back as their values.
proof fn lemma_digit_char_val(d: int)
    requires
        0 <= d < 10,
    ensures
        is_digit(digit_char(d)),
        digit_val(digit_char(d)) == d,
{
}

/// The text of a natural number is a nonempty digit run that reads
/// back as the number.
pub proof fn lemma_nat_chars_digits(v: nat)
    ensures
        nat_chars(v).len() >= 1,
        all_digits(nat_chars(v)),
        digits_val(nat_chars(v)) == v,
    decreases v,
{
    if v < 10 {
        lemma_digit_char_val(v as int);
        let s = nat_chars(v);
        assert(s.subrange(0, 0) =~= Seq::<char>::empty());
        assert(digits_val(Seq::<char>::empty()) == 0);
        assert(s[0] == digit_char(v as int));
        assert(digits_val(s) == digits_val(s.subrange(0, 0)) * 10 + digit_val(s[0]));
    } else {
        lemma_nat_chars_digits(v / 10);
        lemma_digit_char_val((v % 10) as int);
        let s = nat_chars(v);
        let p = nat_chars(v / 10);
        assert(s == p.push(digit_char((v % 10) as int)));
        assert(s.subrange(0, s.len() - 1) =~= p);
        assert(s[s.len() - 1] == digit_char((v % 10) as int));
        assert(digits_val(s) == digits_val(p) * 10 + (v % 10));
    }
}

/// The character of the text of a digit.
fn digit_str(d: u64) -> (r: &'static str)
    requires
        d < 10,
    ensures
        r@ == seq![digit_char(d as int)],
{
    if d == 0 {
        proof {
            reveal_strlit("0");
            assert("0"@ =~= seq![digit_char(0)]);
        }
        "0"
    } else if d == 1 {
        proof {
            reveal_strlit("1");
            assert("1"@ =~= seq![digit_char(1)]);
        }
        "1"
    } else if d == 2 {
        proof {
            reveal_strlit("2");
            assert("2"@ =~= seq![digit_char(2)]);
        }
        "2"
    } else if d == 3 {
        proof {
            reveal_strlit("3");
            assert("3"@ =~= seq![digit_char(3)]);
        }
        "3"
    } else if d == 4 {
        proof {
            reveal_strlit("4");
            assert("4"@ =~= seq![digit_char(4)]);
        }
        "4"
    } else if d == 5 {
        proof {
            reveal_strlit("5");
            assert("5"@ =~= seq![digit_char(5)]);
        }
        "5"
    } else if d == 6 {
        proof {
            reveal_strlit("6");
            assert("6"@ =~= seq![digit_char(6)]);
        }
        "6"
    } else if d == 7 {
        proof {
            reveal_strlit("7");
            assert("7"@ =~= seq![digit_char(7)]);
        }
        "7"
    } else if d == 8 {
        proof {
            reveal_strlit("8");
            assert("8"@ =~= seq![digit_char(8)]);
        }
        "8"
    } else {
        proof {
            reveal_strlit("9");
            assert("9"@ =~= seq![digit_char(9)]);
        }
        "9"
    }
}

/// The text of a natural number.
fn nat_text(v: u64) -> (s: String)
    ensures
        s@ == nat_chars(v as nat),
    decreases v,
{
    if v < 10 {
        String::from_str(digit_str(v))
    } else {
        let mut s = nat_text(v / 10);
        s.append(digit_str(v % 10));
        proof {
            assert(s@ =~= nat_chars((v / 10) as nat).push(digit_char((v % 10) as int)));
        }
        s
    }
}

/// The text of an integer.
fn int_text(n: i64) -> (s: String)
    requires
        n > i64::MIN,
    ensures
        s@ == int_chars(n as int),
{
    if n < 0 {
        let mut s = String::from_str("-");
        let t = nat_text((-n) as u64);
        s.append(t.as_str());
        proof {
            reveal_strlit("-");
            assert(s@ =~= seq!['-'] + nat_chars((-(n as int)) as nat));
        }
        s
    } else {
        nat_text(n as u64)
    }
}

/// A digit text has a nonnegative value.
proof fn lemma_digits_val_nonneg(s: Seq<char>)
    requires
        all_digits(s),
    ensures
        digits_val(s) >= 0,
    decreases s.len(),
{
    if s.len() > 0 {
        let p = s.subrange(0, s.len() - 1);
        assert(all_digits(p));
        lemma_digits_val_nonneg(p);
    }
}

/// A prefix of a digit text has a value no greater than the whole.
proof fn lemma_digits_val_prefix_le(s: Seq<char>, l: int)
    requires
        all_digits(s),
        0 <= l <= s.len(),
    ensures
        digits_val(s.subrange(0, l)) <= digits_val(s),
    decreases s.len(),
{
    if l == s.len() {
        assert(s.subrange(0, l) =~= s);
    } else {
        let p = s.subrange(0, s.len() - 1);
        assert(all_digits(p));
        lemma_digits_val_nonneg(p);
        lemma_digits_val_prefix_le(p, l);
        assert(p.subrange(0, l) =~= s.subrange(0, l));
    }
}

/// The leading digit run is exactly the `l` for which everything
/// before is a digit and what follows, if anything, is not.
proof fn lemma_digits_len_char(s: Seq<char>, l: int)
    requires
        0 <= l <= s.len(),
        forall|i: int| 0 <= i < l ==> is_digit(#[trigger] s[i]),
        l == s.len() || !is_digit(s[l]),
    ensures
        digits_len(s) == l,
    decreases s.len(),
{
    if l == 0 {
    } else {
        let s2 = s.subrange(1, s.len() as int);
        assert(forall|i: int| 0 <= i < l - 1 ==> is_digit(#[trigger] s2[i]));
        lemma_digits_len_char(s2, l - 1);
    }
}

/// Powers of ten are positive.
proof fn lemma_pow10_pos(k: nat)
    ensures
        pow10(k) >= 1,
    decreases k,
{
    if k > 0 {
        lemma_pow10_pos((k - 1) as nat);
    }
}

/// Powers of ten grow with the exponent.
proof fn lemma_pow10_mono(i: nat, j: nat)
    requires
        i <= j,
    ensures
        pow10(i) <= pow10(j),
    decreases j,
{
    if i < j {
        lemma_pow10_mono(i, (j - 1) as nat);
        lemma_pow10_pos((j - 1) as nat);
    }
}

/// The powers of ten around the machine range, as literals.
proof fn lemma_pow10_vals()
    ensures
        pow10(17) == 100000000000000000,
        pow10(18) == 1000000000000000000,
        pow10(19) == 10000000000000000000,
{
    reveal_with_fuel(pow10, 21);
}

/// Whether the character is a digit, decided.
fn is_digit_x(c: char) -> (r: bool)
    ensures
        r == is_digit(c),
{
    let u = c as u32;
    48 <= u && u <= 57
}

/// The value of a digit character, computed.
fn digit_val_x(c: char) -> (r: u64)
    requires
        is_digit(c),
    ensures
        r as int == digit_val(c),
        r <= 9,
{
    ((c as u32) - 48) as u64
}

/// The length of the run of digits from position `from`.
fn digit_run(t: &str, from: usize) -> (r: usize)
    requires
        from <= t@.len(),
    ensures
        from + r <= t@.len(),
        forall|i: int| from <= i < from + r ==> is_digit(#[trigger] t@[i]),
        from + r < t@.len() ==> !is_digit(t@[from + r as int]),
{
    let n = t.unicode_len();
    let mut i: usize = from;
    while i < n
        invariant
            from <= i <= n,
            n == t@.len(),
            forall|j: int| from <= j < i ==> is_digit(#[trigger] t@[j]),
        decreases n - i,
    {
        let c = t.get_char(i);
        if !is_digit_x(c) {
            return i - from;
        }
        i = i + 1;
    }
    i - from
}

/// The value of the digit run at `[from, from + count)`, unless it
/// leaves the machine range.
fn digits_value(t: &str, from: usize, count: usize) -> (r: Option<u64>)
    requires
        from + count <= t@.len(),
        from + count <= usize::MAX,
        forall|i: int| from <= i < from + count ==> is_digit(#[trigger] t@[i]),
    ensures
        ({
            let whole = digits_val(t@.subrange(from as int, (from + count) as int));
            match r {
                Some(v) => v as int == whole && v <= 0x7fff_ffff_ffff_ffff,
                None => whole > 0x7fff_ffff_ffff_ffff,
            }
        }),
{
    let mut acc: u64 = 0;
    let mut i: usize = 0;
    proof {
        assert(t@.subrange(from as int, from as int) =~= Seq::<char>::empty());
    }
    while i < count
        invariant
            0 <= i <= count,
            from + count <= t@.len(),
            from + count <= usize::MAX,
            forall|j: int| from <= j < from + count ==> is_digit(#[trigger] t@[j]),
            acc <= 0x7fff_ffff_ffff_ffff,
            acc as int == digits_val(t@.subrange(from as int, (from + i) as int)),
        decreases count - i,
    {
        let c = t.get_char(from + i);
        let d = digit_val_x(c);
        let next: u128 = (acc as u128) * 10 + (d as u128);
        proof {
            let sub1 = t@.subrange(from as int, (from + i + 1) as int);
            assert(sub1.subrange(0, sub1.len() - 1) =~= t@.subrange(
                from as int,
                (from + i) as int,
            ));
            assert(sub1[sub1.len() - 1] == t@[(from + i) as int]);
            assert(digits_val(sub1) == (acc as int) * 10 + digit_val(t@[(from + i) as int]));
        }
        if next > 0x7fff_ffff_ffff_ffff {
            proof {
                let s = t@.subrange(from as int, (from + count) as int);
                assert(all_digits(s));
                lemma_digits_val_prefix_le(s, i + 1);
                assert(s.subrange(0, i + 1) =~= t@.subrange(from as int, (from + i + 1) as int));
            }
            return None;
        }
        acc = next as u64;
        i = i + 1;
    }
    Some(acc)
}

/// The power of ten with exponent `k`, computed.
fn pow10_u64(k: usize) -> (r: u64)
    requires
        k <= 18,
    ensures
        r as int == pow10(k as nat),
{
    let mut r: u64 = 1;
    let mut i: usize = 0;
    while i < k
        invariant
            0 <= i <= k <= 18,
            r as int == pow10(i as nat),
        decreases k - i,
    {
        proof {
            lemma_pow10_mono(i as nat, 17);
            lemma_pow10_pos(i as nat);
            lemma_pow10_vals();
        }
        r = r * 10;
        i = i + 1;
    }
    r
}

/// Reads an unsigned token: the numerator magnitude and denominator of
/// the number it denotes, or nothing when the token is not a number
/// the machine range can hold.
fn parse_body_str(t: &str) -> (r: Option<(u64, u64)>)
    ensures
        ({
            match r {
                Some(p) => parse_body(t@) matches Some(rr) && rr.n == p.0 as int && rr.d == p.1
                    as int && p.0 <= 0x7fff_ffff_ffff_ffff && 1 <= p.1 <= 0x7fff_ffff_ffff_ffff,
                None => match parse_body(t@) {
                    Some(rr) => !(fits(rr.n) && fits(rr.d)),
                    None => true,
                },
            }
        }),
{
    let n = t.unicode_len();
    let k = digit_run(t, 0);
    proof {
        lemma_digits_len_char(t@, k as int);
    }
    if k == 0 {
        return None;
    }
    let a_opt = digits_value(t, 0, k);
    if k == n {
        proof {
            assert(t@.subrange(0, k as int) =~= t@);
        }
        match a_opt {
            Some(a) => {
                return Some((a, 1));
            },
            None => {
                return None;
            },
        }
    }
    let c = t.get_char(k);
    if c == '.' {
        let f = digit_run(t, k + 1);
        let ghost frac = t@.subrange(k + 1, n as int);
        if k + 1 + f != n || f == 0 {
            proof {
                if k + 1 + f < n && f < frac.len() {
                    assert(frac[f as int] == t@[(k + 1 + f) as int]);
                    assert(!all_digits(frac));
                }
            }
            return None;
        }
        proof {
            assert(frac.len() == f);
            assert(forall|i: int| 0 <= i < frac.len() ==> is_digit(#[trigger] frac[i]));
            assert(frac =~= t@.subrange((k + 1) as int, (k + 1 + f) as int));
            lemma_pow10_pos(frac.len());
            lemma_digits_val_nonneg(frac);
            lemma_digits_val_nonneg(t@.subrange(0, k as int));
        }
        if f > 18 {
            proof {
                lemma_pow10_mono(19, f as nat);
                lemma_pow10_vals();
            }
            return None;
        }
        let den = pow10_u64(f);
        proof {
            lemma_pow10_mono(f as nat, 18);
            lemma_pow10_vals();
        }
        let a = match a_opt {
            Some(a) => a,
            None => {
                proof {
                    let av = digits_val(t@.subrange(0, k as int));
                    let bv = digits_val(frac);
                    assert(av * pow10(frac.len()) + bv > 0x7fff_ffff_ffff_ffff)
                        by (nonlinear_arith)
                        requires
                            av > 0x7fff_ffff_ffff_ffff,
                            pow10(frac.len()) >= 1,
                            bv >= 0,
                    ;
                }
                return None;
            },
        };
        let b = match digits_value(t, k + 1, f) {
            Some(b) => b,
            None => {
                proof {
                    let av = digits_val(t@.subrange(0, k as int));
                    let bv = digits_val(frac);
                    assert(av * pow10(frac.len()) + bv > 0x7fff_ffff_ffff_ffff)
                        by (nonlinear_arith)
                        requires
                            av >= 0,
                            pow10(frac.len()) >= 1,
                            bv > 0x7fff_ffff_ffff_ffff,
                    ;
                }
                return None;
            },
        };
        proof {
            assert((a as int) * (den as int) <= 0x7fff_ffff_ffff_ffff * 1000000000000000000)
                by (nonlinear_arith)
                requires
                    0 <= a as int <= 0x7fff_ffff_ffff_ffff,
                    0 <= den as int <= 1000000000000000000,
            ;
            assert((a as int) * (den as int) >= 0) by (nonlinear_arith)
                requires
                    a as int >= 0,
                    den as int >= 0,
            ;
        }
        let num128: u128 = (a as u128) * (den as u128) + (b as u128);
        proof {
            assert(num128 as int == (a as int) * pow10(frac.len()) + b as int);
        }
        if num128 > 0x7fff_ffff_ffff_ffff {
            return None;
        }
        Some((num128 as u64, den))
    } else if c == '/' {
        let g = digit_run(t, k + 1);
        let ghost den = t@.subrange(k + 1, n as int);
        if k + 1 + g != n || g == 0 {
            proof {
                if k + 1 + g < n && g < den.len() {
                    assert(den[g as int] == t@[(k + 1 + g) as int]);
                    assert(!all_digits(den));
                }
            }
            return None;
        }
        proof {
            assert(den.len() == g);
            assert(forall|i: int| 0 <= i < den.len() ==> is_digit(#[trigger] den[i]));
            assert(den =~= t@.subrange((k + 1) as int, (k + 1 + g) as int));
            lemma_digits_val_nonneg(den);
        }
        let a = match a_opt {
            Some(a) => a,
            None => {
                return None;
            },
        };
        match digits_value(t, k + 1, g) {
            Some(dv) => {
                if dv == 0 {
                    None
                } else {
                    Some((a, dv))
                }
            },
            None => None,
        }
    } else {
        None
    }
}

/// Reads a token as a scalar, or nothing when the token does not
/// denote a number the machine range can hold.
fn parse_scalar_str(t: &str) -> (r: Option<Scalar>)
    ensures
        ({
            match read_scalar(t@) {
                Some(rr) => r matches Some(sc) && sc@ == rr && sc.wf(),
                None => r is None,
            }
        }),
{
    let n = t.unicode_len();
    if n == 0 {
        return None;
    }
    if t.get_char(0) == '-' {
        let body = t.substring_char(1, n);
        match parse_body_str(body) {
            Some(p) => Some(Scalar { num: -(p.0 as i64), den: p.1 as i64 }),
            None => None,
        }
    } else {
        match parse_body_str(t) {
            Some(p) => Some(Scalar { num: p.0 as i64, den: p.1 as i64 }),
            None => None,
        }
    }
}

/// The text of a pair of scalars: the two texts with a space between.
pub open spec fn pair_chars(m: Rat2) -> Seq<char> {
    scalar_chars(m.x) + seq![' '] + scalar_chars(m.y)
}

/// The text of a triple of scalars.
pub open spec fn triple_chars(m: Rat3) -> Seq<char> {
    scalar_chars(m.x) + seq![' '] + scalar_chars(m.y) + seq![' '] + scalar_chars(m.z)
}

/// The pair of scalars a text denotes, when it holds exactly two
/// tokens and both denote scalars the machine range can hold.
pub open spec fn read_pair(s: Seq<char>) -> Option<Rat2> {
    let ts = tokens(s);
    if ts.len() == 2 {
        if read_scalar(ts[0]) is Some && read_scalar(ts[1]) is Some {
            Some(Rat2 { x: read_scalar(ts[0])->Some_0, y: read_scalar(ts[1])->Some_0 })
        } else {
            None
        }
    } else {
        None
    }
}

/// The triple of scalars a text denotes.
pub open spec fn read_triple(s: Seq<char>) -> Option<Rat3> {
    let ts = tokens(s);
    if ts.len() == 3 {
        if read_scalar(ts[0]) is Some && read_scalar(ts[1]) is Some && read_scalar(ts[2]) is Some {
            Some(
                Rat3 {
                    x: read_scalar(ts[0])->Some_0,
                    y: read_scalar(ts[1])->Some_0,
                    z: read_scalar(ts[2])->Some_0,
                },
            )
        } else {
            None
        }
    } else {
        None
    }
}

impl Scalar {
    /// The text form of the scalar: the numerator, then a slash and
    /// the denominator unless the denominator is one.
    pub fn to_text(&self) -> (s: String)
        requires
            self.wf(),
        ensures
            s@ == scalar_chars(self@),
    {
        if self.den == 1 {
            int_text(self.num)
        } else {
            let mut s = int_text(self.num);
            s.append("/");
            let d = nat_text(self.den as u64);
            s.append(d.as_str());
            proof {
                reveal_strlit("/");
                assert(s@ =~= scalar_chars(self@));
            }
            s
        }
    }

    /// Reads a scalar from a token, or nothing when the token does not
    /// denote a number the machine range can hold.
    pub fn from_text(t: &str) -> (r: Option<Scalar>)
        ensures
            ({
                match read_scalar(t@) {
                    Some(rr) => r matches Some(sc) && sc@ == rr && sc.wf(),
                    None => r is None,
                }
            }),
    {
        parse_scalar_str(t)
    }
}

impl Vec2 {
    /// The text form of the vector: its components' texts, separated
    /// by a single space.
    pub fn to_text(&self) -> (s: String)
        requires
            self.wf(),
        ensures
            s@ == pair_chars(self@),
    {
        let mut s = self.x.to_text();
        s.append(" ");
        let t = self.y.to_text();
        s.append(t.as_str());
        proof {
            reveal_strlit(" ");
            assert(s@ =~= pair_chars(self@));
        }
        s
    }

    /// Reads a vector from text holding exactly two number tokens, or
    /// reports which expectation the text broke.
    pub fn from_text(t: &str) -> (r: Result<Vec2, GeomError>)
        ensures
            tokens(t@).len() != 2 ==> r == Err::<Vec2, GeomError>(
                GeomError::WrongTokenCount { expected: 2, found: tokens(t@).len() as usize },
            ),
            tokens(t@).len() == 2 && read_scalar(tokens(t@)[0]) is None ==> r == Err::<
                Vec2,
                GeomError,
            >(GeomError::BadToken { index: 0 }),
            tokens(t@).len() == 2 && read_scalar(tokens(t@)[0]) is Some && read_scalar(
                tokens(t@)[1],
            ) is None ==> r == Err::<Vec2, GeomError>(GeomError::BadToken { index: 1 }),
            read_pair(t@) matches Some(m) ==> (r matches Ok(v) && v@ == m && v.wf()),
    {
        let toks = tokenize(t);
        if toks.len() != 2 {
            return Err(GeomError::WrongTokenCount { expected: 2, found: toks.len() });
        }
        let x = match parse_scalar_str(toks[0].as_str()) {
            Some(v) => v,
            None => {
                return Err(GeomError::BadToken { index: 0 });
            },
        };
        let y = match parse_scalar_str(toks[1].as_str()) {
            Some(v) => v,
            None => {
                return Err(GeomError::BadToken { index: 1 });
            },
        };
        Ok(Vec2 { x, y })
    }
}

impl Vec3 {
    /// The text form of the vector: its components' texts, separated
    /// by single spaces.
    pub fn to_text(&self) -> (s: String)
        requires
            self.wf(),
        ensures
            s@ == triple_chars(self@),
    {
        let mut s = self.x.to_text();
        s.append(" ");
        let t = self.y.to_text();
        s.append(t.as_str());
        s.append(" ");
        let u = self.z.to_text();
        s.append(u.as_str());
        proof {
            reveal_strlit(" ");
            assert(s@ =~= triple_chars(self@));
        }
        s
    }

    /// Reads a vector from text holding exactly three number tokens,
    /// or reports which expectation the text broke.
    pub fn from_text(t: &str) -> (r: Result<Vec3, GeomError>)
        ensures
            tokens(t@).len() != 3 ==> r == Err::<Vec3, GeomError>(
                GeomError::WrongTokenCount { expected: 3, found: tokens(t@).len() as usize },
            ),
            tokens(t@).len() == 3 && read_scalar(tokens(t@)[0]) is None ==> r == Err::<
                Vec3,
                GeomError,
            >(GeomError::BadToken { index: 0 }),
            tokens(t@).len() == 3 && read_scalar(tokens(t@)[0]) is Some && read_scalar(
                tokens(t@)[1],
            ) is None ==> r == Err::<Vec3, GeomError>(GeomError::BadToken { index: 1 }),
            tokens(t@).len() == 3 && read_scalar(tokens(t@)[0]) is Some && read_scalar(
                tokens(t@)[1],
            ) is Some && read_scalar(tokens(t@)[2]) is None ==> r == Err::<Vec3, GeomError>(
                GeomError::BadToken { index: 2 },
            ),
            read_triple(t@) matches Some(m) ==> (r matches Ok(v) && v@ == m && v.wf()),
    {
        let toks = tokenize(t);
        if toks.len() != 3 {
            return Err(GeomError::WrongTokenCount { expected: 3, found: toks.len() });
        }
        let x = match parse_scalar_str(toks[0].as_str()) {
            Some(v) => v,
            None => {
                return Err(GeomError::BadToken { index: 0 });
            },
        };
        let y = match parse_scalar_str(toks[1].as_str()) {
            Some(v) => v,
            None => {
                return Err(GeomError::BadToken { index: 1 });
            },
        };
        let z = match parse_scalar_str(toks[2].as_str()) {
            Some(v) => v,
            None => {
                return Err(GeomError::BadToken { index: 2 });
            },
        };
        Ok(Vec3 { x, y, z })
    }
}

impl Point {
    /// The text form of the point: its coordinates' texts, separated
    /// by a single space.
    pub fn to_text(&self) -> (s: String)
        requires
            self.wf(),
        ensures
            s@ == pair_chars(self@),
    {
        let mut s = self.x.to_text();
        s.append(" ");
        let t = self.y.to_text();
        s.append(t.as_str());
        proof {
            reveal_strlit(" ");
            assert(s@ =~= pair_chars(self@));
        }
        s
    }

    /// Reads a point from text holding exactly two number tokens, or
    /// reports which expectation the text broke.
    pub fn from_text(t: &str) -> (r: Result<Point, GeomError>)
        ensures
            tokens(t@).len() != 2 ==> r == Err::<Point, GeomError>(
                GeomError::WrongTokenCount { expected: 2, found: tokens(t@).len() as usize },
            ),
            tokens(t@).len() == 2 && read_scalar(tokens(t@)[0]) is None ==> r == Err::<
                Point,
                GeomError,
            >(GeomError::BadToken { index: 0 }),
            tokens(t@).len() == 2 && read_scalar(tokens(t@)[0]) is Some && read_scalar(
                tokens(t@)[1],
            ) is None ==> r == Err::<Point, GeomError>(GeomError::BadToken { index: 1 }),
            read_pair(t@) matches Some(m) ==> (r matches Ok(p) && p@ == m && p.wf()),
    {
        let toks = tokenize(t);
        if toks.len() != 2 {
            return Err(GeomError::WrongTokenCount { expected: 2, found: toks.len() });
        }
        let x = match parse_scalar_str(toks[0].as_str()) {
            Some(v) => v,
            None => {
                return Err(GeomError::BadToken { index: 0 });
            },
        };
        let y = match parse_scalar_str(toks[1].as_str()) {
            Some(v) => v,
            None => {
                return Err(GeomError::BadToken { index: 1 });
            },
        };
        Ok(Point { x, y })
    }
}

/// The text of a scalar is nonempty and holds no space.
proof fn lemma_scalar_chars_space_free(rr: Rat)
    requires
        rr.d >= 1,
    ensures
        scalar_chars(rr).len() >= 1,
        forall|i: int| 0 <= i < scalar_chars(rr).len() ==> !is_space(#[trigger] scalar_chars(rr)[i]),
{
    let s = scalar_chars(rr);
    let m: nat = if rr.n < 0 {
        (-rr.n) as nat
    } else {
        rr.n as nat
    };
    lemma_nat_chars_digits(m);
    if rr.d == 1 {
        assert forall|i: int| 0 <= i < s.len() implies !is_space(#[trigger] s[i]) by {
            if rr.n < 0 {
                if i >= 1 {
                    assert(s[i] == nat_chars(m)[i - 1]);
                    assert(is_digit(s[i]));
                }
            } else {
                assert(is_digit(s[i]));
            }
        }
    } else {
        lemma_nat_chars_digits(rr.d as nat);
        let ic = int_chars(rr.n);
        assert forall|i: int| 0 <= i < s.len() implies !is_space(#[trigger] s[i]) by {
            if i < ic.len() {
                assert(s[i] == ic[i]);
                if rr.n < 0 {
                    if i >= 1 {
                        assert(ic[i] == nat_chars(m)[i - 1]);
                        assert(is_digit(ic[i]));
                    }
                } else {
                    assert(is_digit(ic[i]));
                }
            } else if i == ic.len() {
                assert(s[i] == '/');
            } else {
                assert(s[i] == nat_chars(rr.d as nat)[i - ic.len() - 1]);
                assert(is_digit(s[i]));
            }
        }
    }
}

/// A bare digit run reads as the integer it spells.
proof fn lemma_parse_body_nat(v: nat)
    ensures
        parse_body(nat_chars(v)) == Some(Rat { n: v as int, d: 1 }),
{
    let s = nat_chars(v);
    lemma_nat_chars_digits(v);
    lemma_digits_len_char(s, s.len() as int);
}

/// A digit run, a slash and a nonzero digit run read as the ratio they
/// spell.
proof fn lemma_parse_body_ratio(a: nat, d: nat)
    requires
        d >= 1,
    ensures
        parse_body(nat_chars(a) + seq!['/'] + nat_chars(d)) == Some(
            Rat { n: a as int, d: d as int },
        ),
{
    let na = nat_chars(a);
    let nd = nat_chars(d);
    let s = na + seq!['/'] + nd;
    lemma_nat_chars_digits(a);
    lemma_nat_chars_digits(d);
    let k = na.len() as int;
    assert(forall|i: int| 0 <= i < k ==> is_digit(#[trigger] s[i]));
    assert(s[k] == '/');
    assert(!is_digit('/'));
    lemma_digits_len_char(s, k);
    assert(s.subrange(0, k) =~= na);
    assert(s.subrange(k + 1, s.len() as int) =~= nd);
}

/// The text of a scalar of the machine range reads back as exactly
/// that scalar.
pub proof fn lemma_read_scalar_chars(rr: Rat)
    requires
        fits(rr.n),
        fits(rr.d),
        rr.d >= 1,
    ensures
        read_scalar(scalar_chars(rr)) == Some(rr),
{
    let s = scalar_chars(rr);
    let m: nat = if rr.n < 0 {
        (-rr.n) as nat
    } else {
        rr.n as nat
    };
    lemma_nat_chars_digits(m);
    if rr.d == 1 {
        if rr.n < 0 {
            assert(s == seq!['-'] + nat_chars(m));
            assert(s[0] == '-');
            assert(s.subrange(1, s.len() as int) =~= nat_chars(m));
            lemma_parse_body_nat(m);
        } else {
            lemma_parse_body_nat(m);
            assert(is_digit(s[0]));
            assert(s[0] != '-');
        }
    } else {
        lemma_nat_chars_digits(rr.d as nat);
        if rr.n < 0 {
            assert(s =~= seq!['-'] + (nat_chars(m) + seq!['/'] + nat_chars(rr.d as nat)));
            assert(s[0] == '-');
            assert(s.subrange(1, s.len() as int) =~= nat_chars(m) + seq!['/'] + nat_chars(
                rr.d as nat,
            ));
            lemma_parse_body_ratio(m, rr.d as nat);
        } else {
            assert(s =~= nat_chars(m) + seq!['/'] + nat_chars(rr.d as nat));
            lemma_parse_body_ratio(m, rr.d as nat);
            assert(is_digit(s[0]));
            assert(s[0] != '-');
        }
    }
}

/// The text of a pair tokenizes into exactly the two scalar texts.
proof fn lemma_pair_tokens(mx: Rat, my: Rat)
    requires
        mx.d >= 1,
        my.d >= 1,
    ensures
        tokens(scalar_chars(mx) + seq![' '] + scalar_chars(my)) == seq![
            scalar_chars(mx),
            scalar_chars(my),
        ],
{
    let sx = scalar_chars(mx);
    let sy = scalar_chars(my);
    lemma_scalar_chars_space_free(mx);
    lemma_scalar_chars_space_free(my);
    let rest = seq![' '] + sy;
    assert(sx + seq![' '] + sy =~= sx + rest);
    lemma_tokens_concat(sx, rest);
    assert(rest.subrange(1, rest.len() as int) =~= sy);
    assert(sy + Seq::<char>::empty() =~= sy);
    lemma_tokens_concat(sy, Seq::<char>::empty());
    assert(tokens(Seq::<char>::empty()) =~= Seq::<Seq<char>>::empty());
    assert(tokens(sx + seq![' '] + sy) =~= seq![sx, sy]);
}

/// The text of a triple tokenizes into exactly the three scalar texts.
proof fn lemma_triple_tokens(mx: Rat, my: Rat, mz: Rat)
    requires
        mx.d >= 1,
        my.d >= 1,
        mz.d >= 1,
    ensures
        tokens(scalar_chars(mx) + seq![' '] + scalar_chars(my) + seq![' '] + scalar_chars(mz))
            == seq![scalar_chars(mx), scalar_chars(my), scalar_chars(mz)],
{
    let sx = scalar_chars(mx);
    let sy = scalar_chars(my);
    let sz = scalar_chars(mz);
    lemma_scalar_chars_space_free(mx);
    lemma_scalar_chars_space_free(my);
    lemma_scalar_chars_space_free(mz);
    let rest1 = seq![' '] + (sy + (seq![' '] + sz));
    assert(sx + seq![' '] + sy + seq![' '] + sz =~= sx + rest1);
    lemma_tokens_concat(sx, rest1);
    assert(rest1.subrange(1, rest1.len() as int) =~= sy + (seq![' '] + sz));
    lemma_tokens_concat(sy, seq![' '] + sz);
    let rest2 = seq![' '] + sz;
    assert(rest2.subrange(1, rest2.len() as int) =~= sz);
    assert(sz + Seq::<char>::empty() =~= sz);
    lemma_tokens_concat(sz, Seq::<char>::empty());
    assert(tokens(Seq::<char>::empty()) =~= Seq::<Seq<char>>::empty());
    assert(tokens(sx + seq![' '] + sy + seq![' '] + sz) =~= seq![sx, sy, sz]);
}

/// Text round trip for plane vectors: reading the text of any vector
/// returns exactly that vector's value.
pub proof fn lemma_vec2_text_round_trip(v: Vec2)
    requires
        v.wf(),
    ensures
        read_pair(pair_chars(v@)) == Some(v@),
{
    lemma_pair_tokens(v@.x, v@.y);
    lemma_read_scalar_chars(v@.x);
    lemma_read_scalar_chars(v@.y);
}

/// Text round trip for space vectors.
pub proof fn lemma_vec3_text_round_trip(v: Vec3)
    requires
        v.wf(),
    ensures
        read_triple(triple_chars(v@)) == Some(v@),
{
    lemma_triple_tokens(v@.x, v@.y, v@.z);
    lemma_read_scalar_chars(v@.x);
    lemma_read_scalar_chars(v@.y);
    lemma_read_scalar_chars(v@.z);
}

/// Text round trip for points.
pub proof fn lemma_point_text_round_trip(p: Point)
    requires
        p.wf(),
    ensures
        read_pair(pair_chars(p@)) == Some(p@),
{
    lemma_pair_tokens(p@.x, p@.y);
    lemma_read_scalar_chars(p@.x);
    lemma_read_scalar_chars(p@.y);
}

} // verus!
