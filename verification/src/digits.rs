//! Decimal rendering and parsing of machine integers, specified against
//! recursive definitions over character sequences.

use vstd::prelude::*;

verus! {

/// The character for a single decimal digit value.
pub open spec fn digit_char(d: nat) -> char {
    if d == 0 {
        '0'
    } else if d == 1 {
        '1'
    } else if d == 2 {
        '2'
    } else if d == 3 {
        '3'
    } else if d == 4 {
        '4'
    } else if d == 5 {
        '5'
    } else if d == 6 {
        '6'
    } else if d == 7 {
        '7'
    } else if d == 8 {
        '8'
    } else {
        '9'
    }
}

/// The decimal rendering of a natural number, most significant digit first.
pub open spec fn dec_digits(n: nat) -> Seq<char>
    decreases n,
{
    if n < 10 {
        seq![digit_char(n)]
    } else {
        dec_digits(n / 10).push(digit_char(n % 10))
    }
}

/// The decimal rendering of a signed number: a minus sign for negative
/// values, then the digits of the magnitude.
pub open spec fn int_digits(n: int) -> Seq<char> {
    if n < 0 {
        seq!['-'] + dec_digits((-n) as nat)
    } else {
        dec_digits(n as nat)
    }
}

/// Whether `c` is a decimal digit.
pub open spec fn is_dec_digit(c: char) -> bool {
    '0' <= c && c <= '9'
}

/// The numeric value of a sequence of digit characters, most significant
/// first; meaningful only when every character is a digit.
pub open spec fn digits_val(s: Seq<char>) -> int
    decreases s.len(),
{
    if s.len() == 0 {
        0
    } else {
        digits_val(s.drop_last()) * 10 + (s.last() as int - '0' as int)
    }
}

/// Whether every character of `s` is a decimal digit.
pub open spec fn all_digits(s: Seq<char>) -> bool {
    forall|i: int| 0 <= i < s.len() ==> is_dec_digit(#[trigger] s[i])
}

/// The body of a signed decimal literal: the digits after an optional
/// leading sign.
pub open spec fn literal_body(s: Seq<char>) -> Seq<char> {
    if s.len() > 0 && (s[0] == '-' || s[0] == '+') {
        s.drop_first()
    } else {
        s
    }
}

/// Whether `s` is a well-formed signed decimal literal: an optional sign
/// followed by at least one digit, all of them digits.
pub open spec fn is_int_literal(s: Seq<char>) -> bool {
    &&& literal_body(s).len() > 0
    &&& all_digits(literal_body(s))
}

/// The signed value denoted by a well-formed literal.
pub open spec fn literal_val(s: Seq<char>) -> int {
    if s.len() > 0 && s[0] == '-' {
        -digits_val(literal_body(s))
    } else {
        digits_val(literal_body(s))
    }
}

/// What parsing a decimal literal as a 64-bit signed integer yields:
/// the denoted value when the literal is well formed and in range,
/// nothing otherwise.
pub open spec fn parse_i64_spec(s: Seq<char>) -> Option<i64> {
    if is_int_literal(s) && i64::MIN <= literal_val(s) <= i64::MAX {
        Option::Some(literal_val(s) as i64)
    } else {
        Option::None
    }
}

proof fn lemma_digit_char(d: nat)
    requires
        d < 10,
    ensures
        is_dec_digit(digit_char(d)),
        digit_char(d) as int - '0' as int == d,
{
}

proof fn lemma_digits_val_nonneg(s: Seq<char>)
    requires
        all_digits(s),
    ensures
        digits_val(s) >= 0,
    decreases s.len(),
{
    if s.len() > 0 {
        assert(all_digits(s.drop_last())) by {
            assert(forall|i: int|
                0 <= i < s.len() - 1 ==> s.drop_last()[i] == #[trigger] s[i]);
        }
        lemma_digits_val_nonneg(s.drop_last());
    }
}

/// Rendering a value and reading it back is the identity: the digits of
/// `n` are all digits, and they denote `n`.
pub proof fn lemma_dec_digits_val(n: nat)
    ensures
        all_digits(dec_digits(n)),
        digits_val(dec_digits(n)) == n,
    decreases n,
{
    if n < 10 {
        lemma_digit_char(n);
        let s = dec_digits(n);
        assert(s.drop_last() =~= Seq::<char>::empty());
        assert(s.last() == digit_char(n));
        assert(digits_val(s) == digits_val(s.drop_last()) * 10 + (s.last() as int - '0' as int));
        assert(digits_val(s.drop_last()) == 0);
    } else {
        lemma_dec_digits_val(n / 10);
        lemma_digit_char(n % 10);
        let p = dec_digits(n / 10);
        let s = dec_digits(n);
        assert(s == p.push(digit_char(n % 10)));
        assert(s.drop_last() =~= p);
        assert(digits_val(s) == digits_val(p) * 10 + (digit_char(n % 10) as int - '0' as int));
        assert(forall|i: int| 0 <= i < s.len() ==> is_dec_digit(#[trigger] s[i])) by {
            assert(forall|i: int| 0 <= i < p.len() ==> s[i] == #[trigger] p[i]);
            assert(s[s.len() - 1] == digit_char(n % 10));
        }
    }
}

/// Renders an unsigned 64-bit value in decimal.
pub fn u64_to_string(n: u64) -> (r: String)
    ensures
        r@ == dec_digits(n as nat),
{
    let mut rev: Vec<char> = Vec::new();
    let mut m: u64 = n;
    loop
        invariant_except_break
            dec_digits(n as nat) == dec_digits(m as nat) + rev@.reverse(),
        ensures
            dec_digits(n as nat) == rev@.reverse(),
        decreases m,
    {
        let ghost pre = rev@;
        let d: u64 = m % 10;
        let c: char = match d {
            0 => '0',
            1 => '1',
            2 => '2',
            3 => '3',
            4 => '4',
            5 => '5',
            6 => '6',
            7 => '7',
            8 => '8',
            _ => '9',
        };
        assert(c == digit_char((m % 10) as nat));
        rev.push(c);
        assert(rev@.reverse() =~= seq![c] + pre.reverse());
        if m < 10 {
            assert(dec_digits(m as nat) == seq![c]);
            assert(dec_digits(n as nat) =~= rev@.reverse());
            break;
        }
        assert(dec_digits(m as nat) =~= dec_digits((m / 10) as nat) + seq![c]) by {
            assert(dec_digits(m as nat) == dec_digits((m / 10) as nat).push(c));
        }
        assert(dec_digits((m / 10) as nat) + rev@.reverse() =~= dec_digits(m as nat) + pre.reverse());
        m = m / 10;
    }
    let mut out = String::new();
    let mut i: usize = rev.len();
    while i > 0
        invariant
            i <= rev@.len(),
            out@ == rev@.reverse().take(rev@.len() - i),
        decreases i,
    {
        let ghost preout = out@;
        i = i - 1;
        let c = rev[i];
        crate::text::string_push(&mut out, c);
        assert(out@ == preout.push(c));
        assert(rev@.reverse().take(rev@.len() - i) =~= preout.push(c)) by {
            assert(rev@.reverse()[rev@.len() - i - 1] == rev@[i as int]);
        }
    }
    assert(out@ =~= rev@.reverse());
    out
}

/// Renders a signed 64-bit value in decimal, with a leading minus sign
/// when it is negative.
pub fn i64_to_string(n: i64) -> (r: String)
    ensures
        r@ == int_digits(n as int),
{
    if n >= 0 {
        u64_to_string(n as u64)
    } else {
        let mag: u64 = if n == i64::MIN {
            9223372036854775808u64
        } else {
            (-n) as u64
        };
        let mut out = String::new();
        crate::text::string_push(&mut out, '-');
        let digits = u64_to_string(mag);
        let ghost preout = out@;
        out.append(digits.as_str());
        assert(out@ =~= seq!['-'] + dec_digits((-(n as int)) as nat));
        out
    }
}

/// Parses a decimal literal as a 64-bit signed integer; yields the
/// denoted value exactly when the text is an optional sign followed by
/// digits and the value fits.
pub fn parse_i64(s: &str) -> (r: Option<i64>)
    ensures
        r == parse_i64_spec(s@),
{
    let len = s.unicode_len();
    let mut start: usize = 0;
    let mut negative: bool = false;
    if len > 0 {
        let c0 = s.get_char(0);
        if c0 == '-' {
            negative = true;
            start = 1;
        } else if c0 == '+' {
            start = 1;
        }
    }
    let ghost body = literal_body(s@);
    assert(body =~= s@.subrange(start as int, len as int));
    if start >= len {
        assert(!is_int_literal(s@));
        return Option::None;
    }
    // cap: one more than the largest magnitude that can still be in range
    let cap: u128 = 9223372036854775809u128;
    let mut acc: u128 = 0;
    let mut i: usize = start;
    while i < len
        invariant
            start <= i <= len,
            len == s@.len(),
            start < len,
            body == literal_body(s@),
            body == s@.subrange(start as int, len as int),
            all_digits(s@.subrange(start as int, i as int)),
            acc == if digits_val(s@.subrange(start as int, i as int)) < cap {
                digits_val(s@.subrange(start as int, i as int))
            } else {
                cap as int
            },
            cap == 9223372036854775809u128,
        decreases len - i,
    {
        let c = s.get_char(i);
        let cu: u32 = c as u32;
        if !(48 <= cu && cu <= 57) {
            proof {
                let j = i - start;
                assert(body[j] == c);
                assert(!is_dec_digit(body[j]));
                assert(!all_digits(body));
            }
            return Option::None;
        }
        let d: u32 = cu - 48;
        assert(d == c as int - '0' as int);
        let ghost pre = s@.subrange(start as int, i as int);
        let ghost now = s@.subrange(start as int, i + 1 as int);
        assert(now.drop_last() =~= pre);
        assert(now.last() == c);
        proof {
            lemma_digits_val_nonneg(pre);
        }
        let next: u128 = if acc >= cap / 10 + 1 {
            cap
        } else {
            let t = acc * 10 + (d as u128);
            if t >= cap {
                cap
            } else {
                t
            }
        };
        assert(next == if digits_val(now) < cap { digits_val(now) } else { cap as int }) by {
            assert(digits_val(now) == digits_val(pre) * 10 + d);
        }
        acc = next;
        i = i + 1;
        assert(all_digits(now)) by {
            assert(forall|j: int| 0 <= j < pre.len() ==> now[j] == #[trigger] pre[j]);
        }
    }
    assert(s@.subrange(start as int, i as int) =~= body);
    assert(is_int_literal(s@));
    proof {
        lemma_digits_val_nonneg(body);
    }
    if negative {
        if acc <= 9223372036854775808u128 {
            let r: i64 = if acc == 9223372036854775808u128 {
                i64::MIN
            } else {
                -((acc as u64) as i64)
            };
            assert(r as int == -digits_val(body));
            Option::Some(r)
        } else {
            assert(literal_val(s@) < i64::MIN);
            Option::None
        }
    } else {
        if acc <= 9223372036854775807u128 {
            Option::Some((acc as u64) as i64)
        } else {
            assert(literal_val(s@) > i64::MAX);
            Option::None
        }
    }
}


/// Rendering a 64-bit value in decimal and parsing the text back is
/// the identity.
pub proof fn lemma_int_text_round_trip(n: i64)
    ensures
        parse_i64_spec(int_digits(n as int)) == Option::Some(n),
{
    if n >= 0 {
        let s = int_digits(n as int);
        lemma_dec_digits_val(n as nat);
        assert(s == dec_digits(n as nat));
        assert(s.len() >= 1) by {
            assert(digits_val(Seq::<char>::empty()) == 0);
            if s.len() == 0 {
                assert(digits_val(s) == 0);
            }
        }
        assert(is_dec_digit(s[0]));
        assert(s[0] != '-' && s[0] != '+');
        assert(literal_body(s) == s);
        assert(is_int_literal(s));
        assert(literal_val(s) == n);
    } else {
        let mag = (-(n as int)) as nat;
        let d = dec_digits(mag);
        let s = seq!['-'] + d;
        lemma_dec_digits_val(mag);
        assert(int_digits(n as int) == s);
        assert(s[0] == '-');
        assert(literal_body(s) =~= d);
        assert(d.len() >= 1) by {
            assert(digits_val(Seq::<char>::empty()) == 0);
            if d.len() == 0 {
                assert(digits_val(d) == 0);
            }
        }
        assert(is_int_literal(s));
        assert(literal_val(s) == -digits_val(d));
        assert(digits_val(d) == mag);
    }
}

} // verus!
