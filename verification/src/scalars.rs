use vstd::prelude::*;

use crate::parsing::{FieldParser, ParseError};
use crate::text::{all_digits, is_digit};

verus! {

/// Numeric value of a digit character.
pub open spec fn digit_val(c: char) -> int {
    c as u32 - 48
}

/// Value of a string of decimal digits, most significant first.
pub open spec fn digits_val(s: Seq<char>) -> int
    decreases s.len(),
{
    if s.len() == 0 {
        0
    } else {
        digits_val(s.drop_last()) * 10 + digit_val(s.last())
    }
}

/// Number of characters taken by an optional leading sign.
pub open spec fn sign_len(s: Seq<char>) -> int {
    if s.len() > 0 && (s[0] == '+' || s[0] == '-') {
        1
    } else {
        0
    }
}

/// The digit region of an optionally signed integer text.
pub open spec fn int_digits(s: Seq<char>) -> Seq<char> {
    s.skip(sign_len(s))
}

/// The text is an optional sign followed by one or more digits.
pub open spec fn int_syntax_ok(s: Seq<char>) -> bool {
    int_digits(s).len() > 0 && all_digits(int_digits(s))
}

/// Mathematical value of an optionally signed integer text.
pub open spec fn int_text_val(s: Seq<char>) -> int {
    if s.len() > 0 && s[0] == '-' {
        -digits_val(int_digits(s))
    } else {
        digits_val(int_digits(s))
    }
}

/// The text denotes a value representable as `i64`.
pub open spec fn i64_text_ok(s: Seq<char>) -> bool {
    int_syntax_ok(s) && i64::MIN <= int_text_val(s) <= i64::MAX
}

/// The text denotes a value representable as `i32`.
pub open spec fn i32_text_ok(s: Seq<char>) -> bool {
    int_syntax_ok(s) && i32::MIN <= int_text_val(s) <= i32::MAX
}

/// The text denotes a value representable as `i16`.
pub open spec fn i16_text_ok(s: Seq<char>) -> bool {
    int_syntax_ok(s) && i16::MIN <= int_text_val(s) <= i16::MAX
}

/// The text denotes a value representable as `i8`.
pub open spec fn i8_text_ok(s: Seq<char>) -> bool {
    int_syntax_ok(s) && i8::MIN <= int_text_val(s) <= i8::MAX
}

/// A string of digits has a nonnegative value.
pub proof fn lemma_digits_val_nonneg(s: Seq<char>)
    requires
        all_digits(s),
    ensures
        digits_val(s) >= 0,
    decreases s.len(),
{
    if s.len() == 0 {
    } else {
        assert(all_digits(s.drop_last()));
        lemma_digits_val_nonneg(s.drop_last());
    }
}

/// Dropping trailing digits cannot increase the value.
pub proof fn lemma_digits_val_prefix_le(s: Seq<char>, m: int)
    requires
        all_digits(s),
        0 <= m <= s.len(),
    ensures
        digits_val(s.subrange(0, m)) <= digits_val(s),
    decreases s.len(),
{
    if m == s.len() {
        assert(s.subrange(0, m) =~= s);
    } else {
        let d = s.drop_last();
        assert(all_digits(d));
        lemma_digits_val_prefix_le(d, m);
        assert(d.subrange(0, m) =~= s.subrange(0, m));
        lemma_digits_val_nonneg(d);
        assert(is_digit(s.last()));
    }
}

/// If the accumulated value exceeds the divisor-guard, taking the next digit
/// overflows the limit.
proof fn lemma_guard_exceeds(acc: int, dv: int, limit: int)
    requires
        0 <= dv <= 9,
        dv <= limit,
        acc > (limit - dv) / 10,
    ensures
        acc * 10 + dv > limit,
{
    vstd::arithmetic::div_mod::lemma_fundamental_div_mod(limit - dv, 10);
    vstd::arithmetic::div_mod::lemma_mod_bound(limit - dv, 10);
}

/// If the accumulated value stays within the divisor-guard, taking the next
/// digit stays within the limit.
proof fn lemma_guard_fits(acc: int, dv: int, limit: int)
    requires
        0 <= acc,
        0 <= dv <= 9,
        dv <= limit,
        acc <= (limit - dv) / 10,
    ensures
        acc * 10 + dv <= limit,
{
    vstd::arithmetic::div_mod::lemma_fundamental_div_mod(limit - dv, 10);
    vstd::arithmetic::div_mod::lemma_mod_bound(limit - dv, 10);
}

/// Parse an optionally signed decimal integer as `i64`, exactly when the
/// text is well-formed and its value fits.
pub fn parse_i64(s: &str) -> (r: Result<i64, ParseError>)
    ensures
        i64_text_ok(s@) ==> r == Ok::<i64, ParseError>(int_text_val(s@) as i64),
        !i64_text_ok(s@) ==> r == Err::<i64, ParseError>(ParseError),
{
    let len: usize = s.unicode_len();
    let mut start: usize = 0;
    let mut neg: bool = false;
    if len > 0 {
        let c0: char = s.get_char(0);
        if c0 == '-' {
            neg = true;
            start = 1;
        } else if c0 == '+' {
            start = 1;
        }
    }
    if start >= len {
        proof {
            assert(int_digits(s@).len() == 0);
        }
        return Err(ParseError);
    }
    let limit: u64 = if neg {
        9223372036854775808u64
    } else {
        9223372036854775807u64
    };
    let mut acc: u64 = 0;
    let mut i: usize = start;
    while i < len
        invariant
            start <= i <= len,
            len == s@.len(),
            start == sign_len(s@),
            start < len,
            neg == (s@.len() > 0 && s@[0] == '-'),
            limit == if neg {
                9223372036854775808u64
            } else {
                9223372036854775807u64
            },
            all_digits(s@.subrange(start as int, i as int)),
            acc as int == digits_val(s@.subrange(start as int, i as int)),
            acc <= limit,
        decreases len - i,
    {
        let c: char = s.get_char(i);
        let cv: u32 = c as u32;
        if cv < 48 || cv > 57 {
            proof {
                assert(int_digits(s@)[i - start as int] == s@[i as int]);
                assert(!is_digit(s@[i as int]));
            }
            return Err(ParseError);
        }
        let dv: u64 = (cv - 48) as u64;
        let q: u64 = (limit - dv) / 10;
        if acc > q {
            proof {
                lemma_guard_exceeds(acc as int, dv as int, limit as int);
                let d = int_digits(s@);
                if int_syntax_ok(s@) {
                    let m = i + 1 - start as int;
                    assert(d.subrange(0, m).drop_last() =~= s@.subrange(
                        start as int,
                        i as int,
                    ));
                    assert(d.subrange(0, m).last() == s@[i as int]);
                    assert(digits_val(d.subrange(0, m)) == acc as int * 10 + dv as int);
                    lemma_digits_val_prefix_le(d, m);
                }
            }
            return Err(ParseError);
        }
        proof {
            lemma_guard_fits(acc as int, dv as int, limit as int);
            assert(s@.subrange(start as int, i + 1 as int).drop_last() =~= s@.subrange(
                start as int,
                i as int,
            ));
        }
        acc = acc * 10 + dv;
        i = i + 1;
    }
    proof {
        assert(s@.subrange(start as int, len as int) =~= int_digits(s@));
        lemma_digits_val_nonneg(int_digits(s@));
    }
    if neg {
        if acc == 9223372036854775808u64 {
            Ok(i64::MIN)
        } else {
            Ok(-(acc as i64))
        }
    } else {
        Ok(acc as i64)
    }
}

/// Parse an optionally signed decimal integer as `i32`.
pub fn parse_i32(s: &str) -> (r: Result<i32, ParseError>)
    ensures
        i32_text_ok(s@) ==> r == Ok::<i32, ParseError>(int_text_val(s@) as i32),
        !i32_text_ok(s@) ==> r == Err::<i32, ParseError>(ParseError),
{
    match parse_i64(s) {
        Ok(v) => {
            if -2147483648i64 <= v && v <= 2147483647i64 {
                Ok(v as i32)
            } else {
                Err(ParseError)
            }
        },
        Err(_) => Err(ParseError),
    }
}

/// Parse an optionally signed decimal integer as `i16`.
pub fn parse_i16(s: &str) -> (r: Result<i16, ParseError>)
    ensures
        i16_text_ok(s@) ==> r == Ok::<i16, ParseError>(int_text_val(s@) as i16),
        !i16_text_ok(s@) ==> r == Err::<i16, ParseError>(ParseError),
{
    match parse_i64(s) {
        Ok(v) => {
            if -32768i64 <= v && v <= 32767i64 {
                Ok(v as i16)
            } else {
                Err(ParseError)
            }
        },
        Err(_) => Err(ParseError),
    }
}

/// Parse an optionally signed decimal integer as `i8`.
pub fn parse_i8(s: &str) -> (r: Result<i8, ParseError>)
    ensures
        i8_text_ok(s@) ==> r == Ok::<i8, ParseError>(int_text_val(s@) as i8),
        !i8_text_ok(s@) ==> r == Err::<i8, ParseError>(ParseError),
{
    match parse_i64(s) {
        Ok(v) => {
            if -128i64 <= v && v <= 127i64 {
                Ok(v as i8)
            } else {
                Err(ParseError)
            }
        },
        Err(_) => Err(ParseError),
    }
}

/// The unsigned part of a decimal number: either all digits, or digits with
/// a single dot somewhere among them, with at least one digit in total.
pub open spec fn unsigned_decimal_ok(s: Seq<char>) -> bool {
    (s.len() > 0 && all_digits(s)) || (exists|k: int|
        0 <= k < s.len() && (#[trigger] s[k]) == '.' && all_digits(s.subrange(0, k))
            && all_digits(s.subrange(k + 1, s.len() as int)) && s.len() > 1)
}

/// The text is an optionally signed decimal number.
pub open spec fn decimal_text_ok(s: Seq<char>) -> bool {
    unsigned_decimal_ok(s.skip(sign_len(s)))
}

/// First index at or after `from` holding a non-digit, or the length.
pub fn scan_digits(s: &str, from: usize) -> (r: usize)
    requires
        from <= s@.len(),
    ensures
        from <= r <= s@.len(),
        forall|j: int| from <= j < r ==> is_digit(#[trigger] s@[j]),
        r < s@.len() ==> !is_digit(s@[r as int]),
{
    let len: usize = s.unicode_len();
    let mut i: usize = from;
    while i < len
        invariant
            from <= i <= len,
            len == s@.len(),
            forall|j: int| from <= j < i ==> is_digit(#[trigger] s@[j]),
        decreases len - i,
    {
        let cv: u32 = s.get_char(i) as u32;
        if cv < 48 || cv > 57 {
            return i;
        }
        i = i + 1;
    }
    i
}

/// Whether the text is an optionally signed decimal number.
pub fn is_decimal_text(s: &str) -> (b: bool)
    ensures
        b == decimal_text_ok(s@),
{
    let len: usize = s.unicode_len();
    let mut start: usize = 0;
    if len > 0 {
        let c0: char = s.get_char(0);
        if c0 == '-' || c0 == '+' {
            start = 1;
        }
    }
    let ghost d = s@.skip(start as int);
    proof {
        assert(start as int == sign_len(s@));
        assert(d =~= s@.subrange(start as int, s@.len() as int));
    }
    let i: usize = scan_digits(s, start);
    if i == len {
        proof {
            assert(forall|t: int| 0 <= t < d.len() ==> #[trigger] d[t] == s@[start + t]);
            assert(all_digits(d));
            if len > start {
            } else {
                assert(d.len() == 0);
            }
        }
        return len > start;
    }
    let p: Ghost<int> = Ghost(i - start as int);
    proof {
        assert(d[p@] == s@[i as int]);
        assert(!is_digit(d[p@]));
    }
    let ci: char = s.get_char(i);
    if ci != '.' {
        proof {
            assert(d[p@] != '.');
            assert forall|k: int|
                !(0 <= k < d.len() && (#[trigger] d[k]) == '.' && all_digits(d.subrange(0, k))
                    && all_digits(d.subrange(k + 1, d.len() as int)) && d.len() > 1) by {
                if 0 <= k < d.len() && d[k] == '.' {
                    if k < p@ {
                        assert(is_digit(d[k]));
                        assert(d[k] != '.');
                    } else if k == p@ {
                        assert(d[k] != '.');
                    } else {
                        assert(d.subrange(0, k)[p@] == d[p@]);
                        assert(!all_digits(d.subrange(0, k)));
                    }
                }
            }
            assert(!all_digits(d));
        }
        return false;
    }
    let j: usize = scan_digits(s, i + 1);
    if j < len {
        proof {
            let pj = j - start as int;
            assert(d[pj] == s@[j as int]);
            assert(!is_digit(d[pj]));
            assert forall|k: int|
                !(0 <= k < d.len() && (#[trigger] d[k]) == '.' && all_digits(d.subrange(0, k))
                    && all_digits(d.subrange(k + 1, d.len() as int)) && d.len() > 1) by {
                if 0 <= k < d.len() && d[k] == '.' {
                    if k < p@ {
                        assert(is_digit(d[k]));
                        assert(d[k] != '.');
                    } else if k == p@ {
                        assert(d.subrange(k + 1, d.len() as int)[pj - k - 1] == d[pj]);
                        assert(!all_digits(d.subrange(k + 1, d.len() as int)));
                    } else {
                        assert(d.subrange(0, k)[p@] == d[p@]);
                        assert(!all_digits(d.subrange(0, k)));
                    }
                }
            }
            assert(!all_digits(d));
        }
        return false;
    }
    let b: bool = len - start >= 2;
    proof {
        assert(!is_digit('.'));
        assert(!all_digits(d));
        if b {
            assert(d[p@] == '.');
            assert(forall|t: int| 0 <= t < p@ ==> #[trigger] d[t] == s@[start + t]);
            assert(forall|t: int|
                0 <= t < d.subrange(0, p@).len() ==> #[trigger] d.subrange(0, p@)[t] == d[t]);
            assert(all_digits(d.subrange(0, p@)));
            assert(forall|t: int|
                0 <= t < d.subrange(p@ + 1, d.len() as int).len() ==> #[trigger] d.subrange(
                    p@ + 1,
                    d.len() as int,
                )[t] == s@[i + 1 + t]);
            assert(all_digits(d.subrange(p@ + 1, d.len() as int)));
            assert(d.len() > 1);
        } else {
            assert(d.len() <= 1);
        }
    }
    b
}

impl FieldParser<i64> for String {
    fn parse_field(&self) -> Result<i64, ParseError> {
        parse_i64(self.as_str())
    }
}

impl FieldParser<i32> for String {
    fn parse_field(&self) -> Result<i32, ParseError> {
        parse_i32(self.as_str())
    }
}

impl FieldParser<i16> for String {
    fn parse_field(&self) -> Result<i16, ParseError> {
        parse_i16(self.as_str())
    }
}

impl FieldParser<i8> for String {
    fn parse_field(&self) -> Result<i8, ParseError> {
        parse_i8(self.as_str())
    }
}


impl FieldParser<i64> for &str {
    fn parse_field(&self) -> Result<i64, ParseError> {
        parse_i64(self)
    }
}

impl FieldParser<i32> for &str {
    fn parse_field(&self) -> Result<i32, ParseError> {
        parse_i32(self)
    }
}

impl FieldParser<i16> for &str {
    fn parse_field(&self) -> Result<i16, ParseError> {
        parse_i16(self)
    }
}

impl FieldParser<i8> for &str {
    fn parse_field(&self) -> Result<i8, ParseError> {
        parse_i8(self)
    }
}

} // verus!
