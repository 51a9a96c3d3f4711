//! Base-10 integers: parsing character sequences and rendering values.

use vstd::prelude::*;

verus! {

/// Whether `c` is an ASCII decimal digit.
pub open spec fn is_digit(c: char) -> bool {
    48 <= c as u32 <= 57
}

/// The numeric value of the digit `c`.
pub open spec fn digit_val(c: char) -> int {
    c as u32 - 48
}

/// Whether every character of `s` is a decimal digit.
pub open spec fn all_digits(s: Seq<char>) -> bool {
    forall|i: int| 0 <= i < s.len() ==> is_digit(s[i])
}

/// The value of `s` read as a base-10 numeral, most significant digit first.
pub open spec fn digits_val(s: Seq<char>) -> int
    decreases s.len(),
{
    if s.len() == 0 {
        0
    } else {
        digits_val(s.drop_last()) * 10 + digit_val(s.last())
    }
}

/// What parsing `s` as an unsigned machine-word integer yields: an optional
/// leading `+`, then one or more digits, value within range.
pub open spec fn spec_parse_usize(s: Seq<char>) -> Option<usize> {
    let body = if s.len() > 0 && s[0] == '+' {
        s.drop_first()
    } else {
        s
    };
    if body.len() > 0 && all_digits(body) && digits_val(body) <= usize::MAX {
        Some(digits_val(body) as usize)
    } else {
        None
    }
}

/// What parsing `s` as a signed 64-bit integer yields: an optional leading
/// `+` or `-`, then one or more digits, value within range.
pub open spec fn spec_parse_i64(s: Seq<char>) -> Option<i64> {
    let negative = s.len() > 0 && s[0] == '-';
    let body = if s.len() > 0 && (s[0] == '+' || s[0] == '-') {
        s.drop_first()
    } else {
        s
    };
    if body.len() > 0 && all_digits(body) {
        let magnitude = digits_val(body);
        if negative {
            if -magnitude >= i64::MIN {
                Some((-magnitude) as i64)
            } else {
                None
            }
        } else {
            if magnitude <= i64::MAX {
                Some(magnitude as i64)
            } else {
                None
            }
        }
    } else {
        None
    }
}

/// A numeral's value is never negative.
proof fn lemma_digits_val_nonneg(s: Seq<char>)
    requires
        all_digits(s),
    ensures
        digits_val(s) >= 0,
    decreases s.len(),
{
    if s.len() > 0 {
        assert(all_digits(s.drop_last()));
        lemma_digits_val_nonneg(s.drop_last());
    }
}

/// Extending a numeral on the right never decreases its value.
proof fn lemma_digits_val_prefix_le(s: Seq<char>, i: int)
    requires
        all_digits(s),
        0 <= i <= s.len(),
    ensures
        digits_val(s.take(i)) <= digits_val(s),
    decreases s.len() - i,
{
    if i < s.len() {
        lemma_digits_val_prefix_le(s, i + 1);
        let t = s.take(i + 1);
        assert(t.drop_last() =~= s.take(i));
        assert(all_digits(t.drop_last()));
        lemma_digits_val_nonneg(t.drop_last());
        assert(digits_val(t) == digits_val(s.take(i)) * 10 + digit_val(t.last()));
        assert(digits_val(s.take(i)) <= digits_val(t));
    } else {
        assert(s.take(i) =~= s);
    }
}

/// Digits of `v` in `from..to`, read as an unsigned 64-bit numeral.
/// `None` when the range is empty, holds a non-digit, or overflows.
pub fn parse_digits_u64(v: &Vec<char>, from: usize, to: usize) -> (r: Option<u64>)
    requires
        from <= to <= v@.len(),
    ensures
        ({
            let d = v@.subrange(from as int, to as int);
            match r {
                Some(n) => from < to && all_digits(d) && n == digits_val(d),
                None => !(from < to && all_digits(d) && digits_val(d) <= u64::MAX),
            }
        }),
{
    let ghost d = v@.subrange(from as int, to as int);
    if from == to {
        return None;
    }
    let mut acc: u64 = 0;
    let mut i: usize = from;
    assert(d.take(0) =~= Seq::<char>::empty());
    while i < to
        invariant
            from <= i <= to <= v@.len(),
            d == v@.subrange(from as int, to as int),
            all_digits(d.take(i - from)),
            acc == digits_val(d.take(i - from)),
        decreases to - i,
    {
        let c = v[i];
        let u = c as u32;
        proof {
            assert(d[i - from] == v@[i as int]);
        }
        if u < 48 || u > 57 {
            proof {
                assert(!is_digit(d[i - from]));
                assert(!all_digits(d));
            }
            return None;
        }
        let dv: u64 = ((u - 48) as u64);
        proof {
            let p = d.take(i - from + 1);
            assert(p.drop_last() =~= d.take(i - from));
            assert(p.last() == d[i - from]);
            assert(digits_val(p) == acc * 10 + dv);
        }
        if acc < 1844674407370955161 || (acc == 1844674407370955161 && dv <= 5) {
            acc = acc * 10 + dv;
        } else {
            proof {
                let p = d.take(i - from + 1);
                assert(digits_val(p) > u64::MAX);
                if all_digits(d) {
                    lemma_digits_val_prefix_le(d, i - from + 1);
                    assert(digits_val(d) > u64::MAX);
                }
            }
            return None;
        }
        i = i + 1;
    }
    proof {
        assert(d.take(to - from) =~= d);
    }
    Some(acc)
}

/// Digits of `v` in `from..to` with an optional leading sign, parsed as an
/// unsigned machine-word integer, exactly as `spec_parse_usize` states.
pub fn parse_usize(v: &Vec<char>, from: usize, to: usize) -> (r: Option<usize>)
    requires
        from <= to <= v@.len(),
    ensures
        r == spec_parse_usize(v@.subrange(from as int, to as int)),
{
    let ghost s = v@.subrange(from as int, to as int);
    let start: usize = if from < to && v[from] == '+' {
        from + 1
    } else {
        from
    };
    proof {
        let body = if s.len() > 0 && s[0] == '+' {
            s.drop_first()
        } else {
            s
        };
        assert(s[0] == v@[from as int] || s.len() == 0);
        assert(body =~= v@.subrange(start as int, to as int));
    }
    match parse_digits_u64(v, start, to) {
        Some(n) => {
            if n <= usize::MAX as u64 {
                Some(n as usize)
            } else {
                None
            }
        },
        None => None,
    }
}

/// Digits of `v` in `from..to` with an optional leading sign, parsed as a
/// signed 64-bit integer, exactly as `spec_parse_i64` states.
pub fn parse_i64(v: &Vec<char>, from: usize, to: usize) -> (r: Option<i64>)
    requires
        from <= to <= v@.len(),
    ensures
        r == spec_parse_i64(v@.subrange(from as int, to as int)),
{
    let ghost s = v@.subrange(from as int, to as int);
    let signed = from < to && (v[from] == '+' || v[from] == '-');
    let negative = from < to && v[from] == '-';
    let start: usize = if signed {
        from + 1
    } else {
        from
    };
    proof {
        let body = if s.len() > 0 && (s[0] == '+' || s[0] == '-') {
            s.drop_first()
        } else {
            s
        };
        assert(s[0] == v@[from as int] || s.len() == 0);
        assert(body =~= v@.subrange(start as int, to as int));
    }
    match parse_digits_u64(v, start, to) {
        Some(n) => {
            if negative {
                if n <= 9223372036854775807u64 {
                    Some(-(n as i64))
                } else if n == 9223372036854775808u64 {
                    Some(i64::MIN)
                } else {
                    None
                }
            } else {
                if n <= 9223372036854775807u64 {
                    Some(n as i64)
                } else {
                    None
                }
            }
        },
        None => None,
    }
}

/// The decimal digits of `n`, most significant first.
pub open spec fn spec_u64_digits(n: nat) -> Seq<char>
    decreases n,
{
    if n < 10 {
        seq![((n + 48) as u8) as char]
    } else {
        spec_u64_digits(n / 10).push((((n % 10) + 48) as u8) as char)
    }
}

/// The decimal rendering of `n`: a minus sign for negatives, then digits.
pub open spec fn spec_i64_chars(n: int) -> Seq<char> {
    if n < 0 {
        seq!['-'] + spec_u64_digits((-n) as nat)
    } else {
        spec_u64_digits(n as nat)
    }
}

/// The decimal digits of `n`, as characters.
pub fn format_u64(n: u64) -> (r: Vec<char>)
    ensures
        r@ == spec_u64_digits(n as nat),
    decreases n,
{
    if n < 10 {
        let c = ((n as u8) + 48) as char;
        let mut r: Vec<char> = Vec::new();
        r.push(c);
        proof {
            assert(r@ =~= spec_u64_digits(n as nat));
        }
        r
    } else {
        let mut r = format_u64(n / 10);
        let c = (((n % 10) as u8) + 48) as char;
        r.push(c);
        r
    }
}

/// The decimal rendering of `n`, as characters.
pub fn format_i64(n: i64) -> (r: Vec<char>)
    ensures
        r@ == spec_i64_chars(n as int),
{
    if n >= 0 {
        format_u64(n as u64)
    } else {
        let magnitude: u64 = if n == i64::MIN {
            9223372036854775808u64
        } else {
            (-n) as u64
        };
        let digits = format_u64(magnitude);
        let mut r: Vec<char> = Vec::new();
        r.push('-');
        let mut i: usize = 0;
        while i < digits.len()
            invariant
                i <= digits@.len(),
                r@ == seq!['-'] + digits@.take(i as int),
            decreases digits@.len() - i,
        {
            let c = digits[i];
            r.push(c);
            proof {
                assert(digits@.take(i + 1) =~= digits@.take(i as int).push(digits@[i as int]));
            }
            i = i + 1;
        }
        proof {
            assert(digits@.take(digits@.len() as int) =~= digits@);
        }
        r
    }
}

} // verus!
