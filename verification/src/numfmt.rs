//! Decimal text for integers, both directions: rendering a number or a
//! whole list, and reading a signed integer back from its digits.

use vstd::prelude::*;

verus! {

/// The character for one decimal digit.
pub open spec fn digit_char(d: int) -> char {
    ((48 + d) as u8) as char
}

/// The decimal digits of a non-negative number, most significant first.
pub open spec fn dec_digits(n: int) -> Seq<char>
    decreases n,
{
    if n < 10 {
        seq![digit_char(n)]
    } else {
        dec_digits(n / 10).push(digit_char(n % 10))
    }
}

/// The decimal text of an integer, with a leading minus for negatives.
pub open spec fn int_string(v: int) -> Seq<char> {
    if v < 0 {
        seq!['-'] + dec_digits(-v)
    } else {
        dec_digits(v)
    }
}

/// The bracketed, comma-separated text of a number list.
pub open spec fn list_string(s: Seq<i32>) -> Seq<char> {
    seq!['['] + joined_string(s) + seq![']']
}

pub open spec fn joined_string(s: Seq<i32>) -> Seq<char>
    decreases s.len(),
{
    if s.len() == 0 {
        Seq::empty()
    } else if s.len() == 1 {
        int_string(s[0] as int)
    } else {
        joined_string(s.drop_last()) + seq![',', ' '] + int_string(s.last() as int)
    }
}

/// Appends one character.  Relies on `String::push`: the string grows by
/// exactly that character.
#[verifier::external_body]
pub fn push_char(s: &mut String, c: char)
    ensures
        final(s)@ == old(s)@.push(c),
{
    s.push(c);
}

/// The digits of `m`, most significant first.
fn digits_of(m: u64) -> (r: Vec<char>)
    ensures
        r@ == dec_digits(m as int),
    decreases m,
{
    let d = ((m % 10) as u8 + 48) as char;
    if m < 10 {
        let r: Vec<char> = vec![d];
        proof {
            assert(r@ =~= dec_digits(m as int));
        }
        r
    } else {
        let mut r = digits_of(m / 10);
        r.push(d);
        r
    }
}

/// The decimal text of `v`.
pub fn int_to_string(v: i32) -> (r: String)
    ensures
        r@ == int_string(v as int),
{
    let mut out = String::new();
    let m: u64;
    if v < 0 {
        push_char(&mut out, '-');
        m = (-(v as i64)) as u64;
    } else {
        m = v as u64;
    }
    let digits = digits_of(m);
    let mut k: usize = 0;
    while k < digits.len()
        invariant
            k <= digits@.len(),
            out@ == (if v < 0 {
                seq!['-']
            } else {
                Seq::<char>::empty()
            }) + digits@.take(k as int),
        decreases digits.len() - k,
    {
        push_char(&mut out, digits[k]);
        k += 1;
        proof {
            assert(digits@.take(k as int) =~= digits@.take(k - 1).push(digits@[k - 1]));
        }
    }
    proof {
        assert(digits@.take(digits@.len() as int) =~= digits@);
        if v < 0 {
            assert(out@ =~= seq!['-'] + digits@);
        } else {
            assert(out@ =~= digits@);
        }
    }
    out
}

/// The decimal text of an unsigned counter.
pub fn u64_to_string(m: u64) -> (r: String)
    ensures
        r@ == dec_digits(m as int),
{
    let digits = digits_of(m);
    let mut out = String::new();
    let mut k: usize = 0;
    while k < digits.len()
        invariant
            k <= digits@.len(),
            out@ == digits@.take(k as int),
        decreases digits.len() - k,
    {
        push_char(&mut out, digits[k]);
        k += 1;
        proof {
            assert(digits@.take(k as int) =~= digits@.take(k - 1).push(digits@[k - 1]));
        }
    }
    proof {
        assert(digits@.take(digits@.len() as int) =~= digits@);
    }
    out
}

/// The bracketed text of a vector, for display and debugging.
pub fn vec_to_string(data: &Vec<i32>) -> (r: String)
    ensures
        r@ == list_string(data@),
{
    let mut out = String::new();
    push_char(&mut out, '[');
    let mut k: usize = 0;
    while k < data.len()
        invariant
            k <= data@.len(),
            out@ == seq!['['] + joined_string(data@.take(k as int)),
        decreases data.len() - k,
    {
        if k > 0 {
            push_char(&mut out, ',');
            push_char(&mut out, ' ');
        }
        let num = int_to_string(data[k]);
        out.append(num.as_str());
        k += 1;
        proof {
            let t = data@.take(k as int);
            assert(t.drop_last() =~= data@.take(k - 1));
            assert(t.last() == data@[k - 1]);
            if k == 1 {
                assert(joined_string(t) == int_string(data@[0] as int));
                assert(out@ =~= seq!['['] + joined_string(t));
            } else {
                assert(joined_string(t) == joined_string(data@.take(k - 1)) + seq![',', ' ']
                    + int_string(data@[k - 1] as int));
                assert(out@ =~= seq!['['] + joined_string(t));
            }
        }
    }
    push_char(&mut out, ']');
    proof {
        assert(data@.take(data@.len() as int) =~= data@);
        assert(out@ =~= list_string(data@));
    }
    out
}

/// A decimal digit.
pub open spec fn is_digit(c: char) -> bool {
    '0' <= c && c <= '9'
}

pub open spec fn digit_val(c: char) -> int {
    c as int - 48
}

pub open spec fn all_digits(s: Seq<char>) -> bool {
    forall|i: int| 0 <= i < s.len() ==> is_digit(#[trigger] s[i])
}

/// The number the digit sequence denotes.
pub open spec fn digits_value(s: Seq<char>) -> int
    decreases s.len(),
{
    if s.len() == 0 {
        0
    } else {
        digits_value(s.drop_last()) * 10 + digit_val(s.last())
    }
}

/// A well-formed signed decimal literal whose value fits an `i32`.
pub open spec fn valid_int_literal(s: Seq<char>) -> bool {
    if s.len() == 0 {
        false
    } else if s[0] == '-' {
        s.len() >= 2 && all_digits(s.skip(1)) && digits_value(s.skip(1)) <= 0x8000_0000
    } else {
        all_digits(s) && digits_value(s) <= 0x7fff_ffff
    }
}

pub open spec fn int_literal_value(s: Seq<char>) -> int {
    if s[0] == '-' {
        -digits_value(s.skip(1))
    } else {
        digits_value(s)
    }
}

pub proof fn lemma_digits_value_nonneg(s: Seq<char>)
    requires
        all_digits(s),
    ensures
        digits_value(s) >= 0,
    decreases s.len(),
{
    if s.len() > 0 {
        assert(is_digit(s.last()));
        lemma_digits_value_nonneg(s.drop_last());
    }
}

/// A longer digit string never denotes a smaller number.
pub proof fn lemma_digits_value_grows(s: Seq<char>, k: int)
    requires
        all_digits(s),
        0 <= k <= s.len(),
    ensures
        digits_value(s) >= digits_value(s.take(k)),
    decreases s.len() - k,
{
    assert forall|i: int| 0 <= i < s.take(k).len() implies is_digit(#[trigger] s.take(k)[i]) by {
        assert(s.take(k)[i] == s[i]);
    }
    if k == s.len() {
        assert(s.take(k) =~= s);
    }
    if k < s.len() {
        lemma_digits_value_grows(s, k + 1);
        let t = s.take(k + 1);
        assert(t.drop_last() =~= s.take(k));
        assert(t.last() == s[k] && is_digit(s[k]));
        assert(digit_val(s[k]) >= 0);
        lemma_digits_value_nonneg(s.take(k));
        assert(digits_value(t) == digits_value(s.take(k)) * 10 + digit_val(s[k]));
    }
}

/// Reads a signed decimal integer; `None` exactly on text that is not a
/// well-formed literal or does not fit an `i32`.
pub fn parse_i32(tok: &str) -> (r: Option<i32>)
    ensures
        valid_int_literal(tok@) ==> r == Some((int_literal_value(tok@) as i32)),
        valid_int_literal(tok@) ==> i32::MIN <= int_literal_value(tok@) <= i32::MAX,
        !valid_int_literal(tok@) ==> r.is_none(),
{
    let n = tok.unicode_len();
    if n == 0 {
        return None;
    }
    let neg = tok.get_char(0) == '-';
    let start: usize = if neg {
        1
    } else {
        0
    };
    if n == start {
        return None;
    }
    let limit: i64 = if neg {
        0x8000_0000
    } else {
        0x7fff_ffff
    };
    let ghost body = tok@.skip(start as int);
    let mut acc: i64 = 0;
    let mut k = start;
    while k < n
        invariant
            start <= k <= n == tok@.len(),
            body == tok@.skip(start as int),
            neg == (tok@[0] == '-'),
            neg ==> start == 1,
            !neg ==> start == 0,
            neg ==> limit == 0x8000_0000i64,
            !neg ==> limit == 0x7fff_ffffi64,
            n >= start + 1,
            all_digits(body.take(k - start)),
            0 <= acc <= limit,
            acc == digits_value(body.take(k - start)),
        decreases n - k,
    {
        let c = tok.get_char(k);
        if c < '0' || c > '9' {
            proof {
                assert(body[k - start] == tok@[k as int]);
                assert(!is_digit(body[k - start]));
            }
            return None;
        }
        let d = (c as u32 - 48) as i64;
        proof {
            assert(body.take(k - start + 1) =~= body.take(k - start).push(tok@[k as int]));
            assert(body.take(k - start + 1).drop_last() =~= body.take(k - start));
        }
        acc = acc * 10 + d;
        if acc > limit {
            proof {
                if all_digits(body) {
                    lemma_digits_value_grows(body, k - start + 1);
                }
                if !neg {
                    assert(body =~= tok@);
                }
                assert(!valid_int_literal(tok@));
            }
            return None;
        }
        k += 1;
    }
    proof {
        assert(body.take(n - start) =~= body);
        lemma_digits_value_nonneg(body);
        if tok@[0] == '-' {
            assert(valid_int_literal(tok@));
        } else {
            assert(body =~= tok@);
            assert(valid_int_literal(tok@));
        }
    }
    if neg {
        Some((-acc) as i32)
    } else {
        Some(acc as i32)
    }
}

} // verus!
