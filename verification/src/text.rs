//! Verified text helpers: rendering integers in decimal, hexadecimal and
//! binary, parsing decimal integers the way the value coercions need, and
//! lexicographic string comparison.

use vstd::prelude::*;
use vstd::string::{StrSliceExecFns, StringExecFns};

verus! {

/// Relies on String::push: appends exactly the one character.
#[verifier::external_body]
pub(crate) fn push_char(s: &mut String, c: char)
    ensures
        final(s)@ == old(s)@.push(c),
{
    s.push(c);
}

/// The character for digit `d`: `'0'..'9'`, then `'a'..'f'`.
pub open spec fn digit_char(d: nat) -> char {
    if d < 10 {
        (48 + d) as char
    } else {
        (87 + d) as char
    }
}

/// The digit characters of `n` in base 10, most significant first;
/// empty for `n == 0`.
pub open spec fn dec_digits(n: nat) -> Seq<char>
    decreases n,
{
    if n == 0 {
        Seq::empty()
    } else {
        dec_digits(n / 10).push(digit_char(n % 10))
    }
}

/// The decimal rendering of `n` (`"0"` for zero).
pub open spec fn dec_str(n: nat) -> Seq<char> {
    if n == 0 {
        seq!['0']
    } else {
        dec_digits(n)
    }
}

/// The decimal rendering of a signed integer, with a leading `'-'` when
/// negative.
pub open spec fn int_str(i: int) -> Seq<char> {
    if i < 0 {
        seq!['-'] + dec_str((-i) as nat)
    } else {
        dec_str(i as nat)
    }
}

/// The digit characters of `n` in base 16 (lowercase), empty for zero.
pub open spec fn hex_digits(n: nat) -> Seq<char>
    decreases n,
{
    if n == 0 {
        Seq::empty()
    } else {
        hex_digits(n / 16).push(digit_char(n % 16))
    }
}

/// The lowercase hexadecimal rendering of `n` (`"0"` for zero), no prefix.
pub open spec fn hex_str(n: nat) -> Seq<char> {
    if n == 0 {
        seq!['0']
    } else {
        hex_digits(n)
    }
}

/// The digit characters of `n` in base 2, empty for zero.
pub open spec fn bin_digits(n: nat) -> Seq<char>
    decreases n,
{
    if n == 0 {
        Seq::empty()
    } else {
        bin_digits(n / 2).push(digit_char(n % 2))
    }
}

/// The binary rendering of `n` (`"0"` for zero), no prefix.
pub open spec fn bin_str(n: nat) -> Seq<char> {
    if n == 0 {
        seq!['0']
    } else {
        bin_digits(n)
    }
}

/// `k` zero characters.
pub open spec fn zeroes(k: nat) -> Seq<char> {
    Seq::new(k, |i: int| '0')
}

/// The binary rendering of `n` left-padded with zeroes to width `w`.
pub open spec fn bin_pad(n: nat, w: nat) -> Seq<char> {
    if bin_str(n).len() >= w {
        bin_str(n)
    } else {
        zeroes((w - bin_str(n).len()) as nat) + bin_str(n)
    }
}

fn digit_char_of(d: u64) -> (c: char)
    requires
        d < 16,
    ensures
        c == digit_char(d as nat),
{
    if d < 10 {
        ((48 + d as u8) as u8) as char
    } else {
        ((87 + d as u8) as u8) as char
    }
}

fn push_dec_digits(n: u64, out: &mut String)
    ensures
        final(out)@ == old(out)@ + dec_digits(n as nat),
    decreases n,
{
    if n > 0 {
        push_dec_digits(n / 10, out);
        let c = digit_char_of(n % 10);
        push_char(out, c);
        assert(final(out)@ =~= old(out)@ + dec_digits(n as nat));
    } else {
        assert(final(out)@ =~= old(out)@ + dec_digits(0));
    }
}

fn push_hex_digits(n: u64, out: &mut String)
    ensures
        final(out)@ == old(out)@ + hex_digits(n as nat),
    decreases n,
{
    if n > 0 {
        push_hex_digits(n / 16, out);
        let c = digit_char_of(n % 16);
        push_char(out, c);
        assert(final(out)@ =~= old(out)@ + hex_digits(n as nat));
    } else {
        assert(final(out)@ =~= old(out)@ + hex_digits(0));
    }
}

fn push_bin_digits(n: u64, out: &mut String)
    ensures
        final(out)@ == old(out)@ + bin_digits(n as nat),
    decreases n,
{
    if n > 0 {
        push_bin_digits(n / 2, out);
        let c = digit_char_of(n % 2);
        push_char(out, c);
        assert(final(out)@ =~= old(out)@ + bin_digits(n as nat));
    } else {
        assert(final(out)@ =~= old(out)@ + bin_digits(0));
    }
}

/// Render an unsigned value in decimal.
pub fn u64_to_dec(n: u64) -> (r: String)
    ensures
        r@ == dec_str(n as nat),
{
    if n == 0 {
        let mut r = String::new();
        push_char(&mut r, '0');
        assert(r@ =~= dec_str(0));
        r
    } else {
        let mut r = String::new();
        push_dec_digits(n, &mut r);
        assert(r@ =~= dec_str(n as nat));
        r
    }
}

/// Render a signed value in decimal, the rendering `to_string` gives an
/// integer value.
pub fn i64_to_dec(i: i64) -> (r: String)
    ensures
        r@ == int_str(i as int),
{
    if i >= 0 {
        u64_to_dec(i as u64)
    } else {
        let mag: u64 = ((-(i + 1)) as u64) + 1;
        assert(mag as int == -(i as int));
        let mut r = String::new();
        push_char(&mut r, '-');
        push_dec_digits(mag, &mut r);
        assert(r@ =~= seq!['-'] + dec_str(mag as nat));
        r
    }
}

/// Render the 64 bits of a value in lowercase hexadecimal without leading
/// zeroes, as the `hex` built-in does.
pub fn u64_to_hex(n: u64) -> (r: String)
    ensures
        r@ == hex_str(n as nat),
{
    if n == 0 {
        let mut r = String::new();
        push_char(&mut r, '0');
        assert(r@ =~= hex_str(0));
        r
    } else {
        let mut r = String::new();
        push_hex_digits(n, &mut r);
        assert(r@ =~= hex_str(n as nat));
        r
    }
}

/// Render the 64 bits of a value in binary, left-padded with zeroes to
/// `width` characters, as the two-argument `binary` built-in does.
pub fn u64_to_bin_pad(n: u64, width: usize) -> (r: String)
    ensures
        r@ == bin_pad(n as nat, width as nat),
{
    let mut digits = String::new();
    if n == 0 {
        push_char(&mut digits, '0');
        assert(digits@ =~= bin_str(0));
    } else {
        push_bin_digits(n, &mut digits);
        assert(digits@ =~= bin_str(n as nat));
    }
    let dlen = digits.as_str().unicode_len();
    if dlen >= width {
        digits
    } else {
        let mut r = String::new();
        let mut k: usize = 0;
        while k < width - dlen
            invariant
                r@ =~= zeroes(k as nat),
                k <= width - dlen,
                dlen < width,
            decreases width - dlen - k,
        {
            push_char(&mut r, '0');
            k = k + 1;
            assert(r@ =~= zeroes(k as nat));
        }
        r.append(digits.as_str());
        assert(r@ =~= zeroes((width - dlen) as nat) + digits@);
        r
    }
}

/// Render the 64 bits of a value in binary without padding, as the
/// one-argument `binary` built-in does.
pub fn u64_to_bin(n: u64) -> (r: String)
    ensures
        r@ == bin_str(n as nat),
{
    u64_to_bin_pad(n, 0)
}

// --- parsing ---

/// Is `c` an ASCII decimal digit?
pub open spec fn is_digit(c: char) -> bool {
    48 <= c as int && c as int <= 57
}

/// The numeric value of a digit character.
pub open spec fn digit_val(c: char) -> nat {
    (c as int - 48) as nat
}

/// Are all characters of `s` ASCII decimal digits?
pub open spec fn all_digits(s: Seq<char>) -> bool {
    forall|i: int| 0 <= i < s.len() ==> is_digit(s[i])
}

/// The value of a digit string, most significant digit first.
pub open spec fn digits_val(s: Seq<char>) -> nat
    decreases s.len(),
{
    if s.len() == 0 {
        0
    } else {
        digits_val(s.drop_last()) * 10 + digit_val(s.last())
    }
}

/// The digit characters of a signed decimal literal: everything after an
/// optional leading sign.
pub open spec fn parse_source_digits(s: Seq<char>) -> Seq<char> {
    if s.len() > 0 && (s[0] == '-' || s[0] == '+') {
        s.drop_first()
    } else {
        s
    }
}

/// What parsing `s` as a 64-bit signed decimal integer yields: an optional
/// sign, then one or more ASCII digits, and a value within range; anything
/// else is rejected.
pub open spec fn parse_i64_spec(s: Seq<char>) -> Option<i64> {
    let neg = s.len() > 0 && s[0] == '-';
    let ds = parse_source_digits(s);
    if ds.len() == 0 || !all_digits(ds) {
        None
    } else {
        let v = digits_val(ds) as int;
        if neg {
            if -v >= i64::MIN {
                Some((-v) as i64)
            } else {
                None
            }
        } else {
            if v <= i64::MAX {
                Some(v as i64)
            } else {
                None
            }
        }
    }
}

proof fn lemma_parse_overflow(s: Seq<char>, neg: bool, v: nat)
    requires
        neg == (s.len() > 0 && s[0] == '-'),
        v == digits_val(parse_source_digits(s)),
        neg ==> v > 0x8000_0000_0000_0000,
        !neg ==> v > 0x7fff_ffff_ffff_ffff,
    ensures
        parse_i64_spec(s) is None,
{
}

proof fn lemma_digits_val_append(p: Seq<char>, q: Seq<char>)
    ensures
        digits_val(p + q) == digits_val(p) * vstd::arithmetic::power::pow(10, q.len() as nat)
            + digits_val(q),
    decreases q.len(),
{
    vstd::arithmetic::power::lemma_pow_positive(10, q.len() as nat);
    if q.len() == 0 {
        assert(p + q =~= p);
        assert(vstd::arithmetic::power::pow(10, q.len() as nat) == 1) by {
            vstd::arithmetic::power::lemma_pow0(10);
        }
        assert(digits_val(q) == 0);
        assert(digits_val(p) * 1 == digits_val(p));
        assert(digits_val(p + q) == digits_val(p) * vstd::arithmetic::power::pow(
            10,
            q.len() as nat,
        ) + digits_val(q));
    } else {
        let q1 = q.drop_last();
        let c = q.last();
        lemma_digits_val_append(p, q1);
        let dp = digits_val(p) as int;
        let dq1 = digits_val(q1) as int;
        let dc = digit_val(c) as int;
        let pw1 = vstd::arithmetic::power::pow(10, q1.len() as nat) as int;
        let pw = vstd::arithmetic::power::pow(10, q.len() as nat) as int;
        assert(pw == pw1 * 10) by {
            vstd::arithmetic::power::lemma_pow1(10);
            vstd::arithmetic::power::lemma_pow_adds(10, q1.len() as nat, 1);
        }
        assert((p + q).drop_last() =~= p + q1);
        assert((p + q).last() == c);
        assert(digits_val(p + q) == digits_val(p + q1) * 10 + dc);
        assert(digits_val(p + q1) == dp * pw1 + dq1);
        assert(digits_val(q) == dq1 * 10 + dc);
        assert((dp * pw1 + dq1) * 10 + dc == dp * (pw1 * 10) + (dq1 * 10 + dc)) by (nonlinear_arith);
        assert(digits_val(p + q) == dp * pw + digits_val(q));
        assert(digits_val(p + q) == digits_val(p) * vstd::arithmetic::power::pow(
            10,
            q.len() as nat,
        ) + digits_val(q));
    }
}

proof fn lemma_digits_val_prefix_le(p: Seq<char>, q: Seq<char>)
    ensures
        digits_val(p) <= digits_val(p + q),
{
    lemma_digits_val_append(p, q);
    let pw = vstd::arithmetic::power::pow(10, q.len() as nat);
    vstd::arithmetic::power::lemma_pow_positive(10, q.len() as nat);
    let dp = digits_val(p);
    assert(dp * pw >= dp) by (nonlinear_arith)
        requires
            pw >= 1,
            dp >= 0,
    {
    }
}

/// Parse a decimal 64-bit signed integer, accepting exactly what
/// [`parse_i64_spec`] accepts.
pub fn parse_i64(s: &str) -> (r: Option<i64>)
    ensures
        r == parse_i64_spec(s@),
{
    let n = s.unicode_len();
    if n == 0 {
        return None;
    }
    let first = s.get_char(0);
    let fu = first as u32;
    let neg = fu == 45;
    let start: usize = if fu == 45 || fu == 43 {
        1
    } else {
        0
    };
    let ghost ds = parse_source_digits(s@);
    proof {
        assert(neg == (s@[0] == '-'));
        assert((start == 1) == (s@[0] == '-' || s@[0] == '+'));
        assert(ds =~= s@.subrange(start as int, n as int));
    }
    if start == n {
        return None;
    }
    let mut acc: i64 = 0;
    let mut i = start;
    while i < n
        invariant
            start <= i <= n,
            n == s@.len(),
            start == 0 || start == 1,
            neg == (s@.len() > 0 && s@[0] == '-'),
            (start == 1) == (s@.len() > 0 && (s@[0] == '-' || s@[0] == '+')),
            ds == s@.subrange(start as int, n as int),
            ds == parse_source_digits(s@),
            all_digits(s@.subrange(start as int, i as int)),
            neg ==> acc as int == -(digits_val(s@.subrange(start as int, i as int)) as int),
            !neg ==> acc as int == digits_val(s@.subrange(start as int, i as int)) as int,
        decreases n - i,
    {
        let ghost pref = s@.subrange(start as int, i as int);
        let c = s.get_char(i);
        let cu = c as u32;
        if !(cu >= 48 && cu <= 57) {
            proof {
                assert(ds[i - start] == c);
                assert(!is_digit(ds[i - start]));
                assert(!all_digits(ds));
            }
            return None;
        }
        let d = (cu as i64) - 48;
        let ghost pref1 = s@.subrange(start as int, i as int + 1);
        proof {
            assert(pref1 =~= pref.push(c));
            assert(pref1.drop_last() =~= pref);
            assert(pref1.last() == c);
            assert(digits_val(pref1) == digits_val(pref) * 10 + digit_val(c));
            assert(ds =~= pref1 + ds.skip(i + 1 - start as int));
            lemma_digits_val_prefix_le(pref1, ds.skip(i + 1 - start as int));
            assert(digits_val(ds) >= digits_val(pref1));
        }
        let acc10 = match acc.checked_mul(10) {
            Some(x) => x,
            None => {
                proof {
                    lemma_parse_overflow(s@, neg, digits_val(ds));
                }
                return None;
            },
        };
        if neg {
            acc = match acc10.checked_sub(d) {
                Some(x) => x,
                None => {
                    proof {
                        lemma_parse_overflow(s@, neg, digits_val(ds));
                    }
                    return None;
                },
            };
        } else {
            acc = match acc10.checked_add(d) {
                Some(x) => x,
                None => {
                    proof {
                        lemma_parse_overflow(s@, neg, digits_val(ds));
                    }
                    return None;
                },
            };
        }
        i = i + 1;
    }
    proof {
        assert(s@.subrange(start as int, n as int) =~= ds);
    }
    Some(acc)
}

// --- lexicographic comparison ---

/// Lexicographic order on character sequences, the order `<` gives two
/// strings.
pub open spec fn seq_lt(a: Seq<char>, b: Seq<char>) -> bool
    decreases a.len(),
{
    if b.len() == 0 {
        false
    } else if a.len() == 0 {
        true
    } else if a[0] != b[0] {
        (a[0] as int) < (b[0] as int)
    } else {
        seq_lt(a.drop_first(), b.drop_first())
    }
}

/// Lexicographic order-or-equality on character sequences.
pub open spec fn seq_le(a: Seq<char>, b: Seq<char>) -> bool {
    seq_lt(a, b) || a == b
}

proof fn lemma_seq_lt_common_prefix(a: Seq<char>, b: Seq<char>, i: int)
    requires
        0 <= i <= a.len(),
        i <= b.len(),
        forall|j: int| 0 <= j < i ==> a[j] == b[j],
    ensures
        seq_lt(a, b) == seq_lt(a.skip(i), b.skip(i)),
    decreases i,
{
    if i > 0 {
        assert(a.len() > 0 && b.len() > 0);
        assert(a[0] == b[0]);
        lemma_seq_lt_common_prefix(a.drop_first(), b.drop_first(), i - 1);
        assert(a.drop_first().skip(i - 1) =~= a.skip(i));
        assert(b.drop_first().skip(i - 1) =~= b.skip(i));
    } else {
        assert(a.skip(0) =~= a);
        assert(b.skip(0) =~= b);
    }
}

/// Character-for-character string equality.
pub fn str_eq(a: &str, b: &str) -> (r: bool)
    ensures
        r == (a@ == b@),
{
    let alen = a.unicode_len();
    let blen = b.unicode_len();
    if alen != blen {
        return false;
    }
    let mut i: usize = 0;
    while i < alen
        invariant
            i <= alen,
            alen == a@.len(),
            alen == b@.len(),
            forall|j: int| 0 <= j < i ==> a@[j] == b@[j],
        decreases alen - i,
    {
        let ca = a.get_char(i);
        let cb = b.get_char(i);
        if ca as u32 != cb as u32 {
            return false;
        }
        proof {
            assert(a@[i as int] == b@[i as int]);
        }
        i = i + 1;
    }
    proof {
        assert(a@ =~= b@);
    }
    true
}

/// Compare two strings lexicographically, as `<` on strings does.
pub fn str_lt(a: &str, b: &str) -> (r: bool)
    ensures
        r == seq_lt(a@, b@),
{
    let alen = a.unicode_len();
    let blen = b.unicode_len();
    let mut i: usize = 0;
    loop
        invariant
            i <= alen,
            i <= blen,
            alen == a@.len(),
            blen == b@.len(),
            forall|j: int| 0 <= j < i ==> a@[j] == b@[j],
        decreases alen - i,
    {
        if i >= alen || i >= blen {
            proof {
                lemma_seq_lt_common_prefix(a@, b@, i as int);
            }
            return alen < blen;
        }
        let ca = a.get_char(i);
        let cb = b.get_char(i);
        if ca as u32 != cb as u32 {
            proof {
                lemma_seq_lt_common_prefix(a@, b@, i as int);
                assert(a@.skip(i as int)[0] == ca);
                assert(b@.skip(i as int)[0] == cb);
            }
            return (ca as u32) < (cb as u32);
        }
        proof {
            assert(a@[i as int] == b@[i as int]);
        }
        i = i + 1;
    }
}

} // verus!
