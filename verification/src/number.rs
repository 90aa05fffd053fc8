//! Decimal text for integers: what `u32::to_string` writes and what
//! `str::parse::<u32>()` and `str::parse::<i32>()` accept.
use vstd::prelude::*;

verus! {

pub open spec fn is_digit(c: char) -> bool {
    '0' <= c && c <= '9'
}

pub open spec fn digit_value(c: char) -> nat {
    (c as int - '0' as int) as nat
}

pub open spec fn digit_char(d: nat) -> char
    recommends
        d < 10,
{
    ((d + '0' as int) as u32) as char
}

pub open spec fn all_digits(s: Seq<char>) -> bool {
    forall|i: int| 0 <= i < s.len() ==> is_digit(#[trigger] s[i])
}

/// The number that a string of decimal digits denotes.
pub open spec fn digits_value(s: Seq<char>) -> nat
    decreases s.len(),
{
    if s.len() == 0 {
        0
    } else {
        digits_value(s.drop_last()) * 10 + digit_value(s.last())
    }
}

/// The decimal writing of `n`, without leading zeros.
pub open spec fn decimal(n: nat) -> Seq<char>
    decreases n,
{
    if n < 10 {
        seq![digit_char(n)]
    } else {
        decimal(n / 10).push(digit_char(n % 10))
    }
}

/// What `parse::<u32>()` accepts: an optional `+`, then one digit or more,
/// denoting a number that fits in `u32`.
pub open spec fn spec_parse_u32(s: Seq<char>) -> Option<u32> {
    let body = if s.len() > 0 && s[0] == '+' {
        s.drop_first()
    } else {
        s
    };
    if body.len() > 0 && all_digits(body) && digits_value(body) <= u32::MAX {
        Some(digits_value(body) as u32)
    } else {
        None
    }
}

/// What `parse::<i32>()` accepts: an optional `+` or `-`, then one digit or
/// more, denoting a number in the range of `i32`.
pub open spec fn spec_parse_i32(s: Seq<char>) -> Option<i32> {
    let negative = s.len() > 0 && s[0] == '-';
    let body = if s.len() > 0 && (s[0] == '+' || s[0] == '-') {
        s.drop_first()
    } else {
        s
    };
    if body.len() > 0 && all_digits(body) {
        let v = digits_value(body) as int;
        if negative && -v >= i32::MIN {
            Some((-v) as i32)
        } else if !negative && v <= i32::MAX {
            Some(v as i32)
        } else {
            None
        }
    } else {
        None
    }
}

pub(crate) proof fn lemma_decimal_digits(n: nat)
    ensures
        all_digits(decimal(n)),
        digits_value(decimal(n)) == n,
        decimal(n).len() >= 1,
        decimal(n)[0] != '+' && decimal(n)[0] != '-',
    decreases n,
{
    if n < 10 {
        assert(decimal(n) == seq![digit_char(n)]);
        assert(seq![digit_char(n)].drop_last() =~= Seq::<char>::empty());
        assert(digits_value(Seq::<char>::empty()) == 0);
        assert(digit_value(digit_char(n)) == n);
    } else {
        lemma_decimal_digits(n / 10);
        let d = decimal(n / 10);
        assert(decimal(n) == d.push(digit_char(n % 10)));
        assert(d.push(digit_char(n % 10)).drop_last() =~= d);
        assert(digit_value(digit_char(n % 10)) == n % 10);
        assert((n / 10) * 10 + n % 10 == n) by (nonlinear_arith);
        assert(all_digits(decimal(n))) by {
            assert forall|i: int| 0 <= i < decimal(n).len() implies is_digit(
                #[trigger] decimal(n)[i],
            ) by {
                if i < d.len() {
                    assert(decimal(n)[i] == d[i]);
                }
            }
        }
        assert(decimal(n)[0] == d[0]);
    }
}

/// Reading back what `u32::to_string` writes gives the number again.
pub proof fn law_parse_of_decimal(n: u32)
    ensures
        spec_parse_u32(decimal(n as nat)) == Some(n),
{
    lemma_decimal_digits(n as nat);
}

/// Reading numbers: a leading `+` is allowed and changes nothing; a `u32`
/// never reads with a leading `-`; an `i32` reads with a leading `-` as its
/// negation down to `i32::MIN`; the empty text and a lone sign never read;
/// and a text with a character that is not a digit after the sign never reads.
pub proof fn law_parse_signs(n: u32, m: nat, s: Seq<char>)
    ensures
        spec_parse_u32(seq!['+'] + decimal(n as nat)) == Some(n),
        spec_parse_u32(seq!['-'] + decimal(n as nat)) is None,
        m <= 2147483648 ==> spec_parse_i32(seq!['-'] + decimal(m)) == Some((-(m as int)) as i32),
        m <= 2147483647 ==> spec_parse_i32(decimal(m)) == Some(m as i32),
        m <= 2147483647 ==> spec_parse_i32(seq!['+'] + decimal(m)) == Some(m as i32),
        m > 2147483648 ==> spec_parse_i32(seq!['-'] + decimal(m)) is None,
        spec_parse_u32(Seq::empty()) is None,
        spec_parse_u32(seq!['+']) is None,
        spec_parse_i32(Seq::empty()) is None,
        spec_parse_i32(seq!['-']) is None,
        spec_parse_i32(seq!['+']) is None,
        (exists|i: int| 0 <= i < s.len() && !is_digit(s[i]) && (i > 0 || (s[0] != '+' && s[0] != '-')))
            ==> spec_parse_u32(s) is None && spec_parse_i32(s) is None,
{
    lemma_decimal_digits(n as nat);
    lemma_decimal_digits(m);
    let p = seq!['+'] + decimal(n as nat);
    assert(p.drop_first() =~= decimal(n as nat));
    let q = seq!['-'] + decimal(n as nat);
    assert(!is_digit(q[0]));
    let pm = seq!['+'] + decimal(m);
    assert(pm.drop_first() =~= decimal(m));
    let qm = seq!['-'] + decimal(m);
    assert(qm.drop_first() =~= decimal(m));
    assert(seq!['+'].drop_first() =~= Seq::<char>::empty());
    assert(seq!['-'].drop_first() =~= Seq::<char>::empty());
    if exists|i: int| 0 <= i < s.len() && !is_digit(s[i]) && (i > 0 || (s[0] != '+' && s[0] != '-')) {
        let i = choose|i: int| 0 <= i < s.len() && !is_digit(s[i]) && (i > 0 || (s[0] != '+' && s[0] != '-'));
        if s.len() > 0 && (s[0] == '+' || s[0] == '-') {
            assert(s.drop_first()[i - 1] == s[i]);
        }
    }
}

/// `n.to_string()`: the decimal writing of `n`.
pub fn u32_to_decimal(n: u32) -> (r: String)
    ensures
        r@ == decimal(n as nat),
{
    let mut digits: Vec<char> = Vec::new();
    let mut m: u32 = n;
    while m >= 10
        invariant
            decimal(n as nat) == decimal(m as nat) + digits@,
        decreases m,
    {
        let d = m % 10;
        let c = char_of_digit(d);
        let ghost old = digits@;
        digits.insert(0, c);
        assert(decimal(m as nat) == decimal((m / 10) as nat).push(digit_char((m % 10) as nat)));
        assert(decimal((m / 10) as nat) + digits@ =~= decimal(m as nat) + old);
        m = m / 10;
    }
    let c = char_of_digit(m);
    let ghost old = digits@;
    digits.insert(0, c);
    assert(digits@ =~= decimal(m as nat) + old);
    let r = crate::text::string_from_char_range(&digits, 0, digits.len());
    assert(digits@.subrange(0, digits.len() as int) =~= digits@);
    r
}

fn char_of_digit(d: u32) -> (c: char)
    requires
        d < 10,
    ensures
        c == digit_char(d as nat),
        is_digit(c),
{
    if d == 0 {
        '0'
    } else if d == 1 {
        '1'
    } else if d == 2 {
        '2'
    } else if d == 3 {
        '3'
    } else if d == 4 {
        '4'
    } else if d == 5 {
        '5'
    } else if d == 6 {
        '6'
    } else if d == 7 {
        '7'
    } else if d == 8 {
        '8'
    } else {
        '9'
    }
}

fn value_of_digit(c: char) -> (d: u64)
    requires
        is_digit(c),
    ensures
        d == digit_value(c),
        d < 10,
{
    (c as u32 - '0' as u32) as u64
}

/// The value of the decimal digits `s[from..]`, capped at `u32::MAX + 1`, or
/// `None` if a character there is not a digit.
fn capped_digits_value(s: &Vec<char>, from: usize) -> (r: Option<u64>)
    requires
        from <= s.len(),
    ensures
        match r {
            Some(v) => all_digits(s@.skip(from as int)) && v == if digits_value(
                s@.skip(from as int),
            ) <= u32::MAX {
                digits_value(s@.skip(from as int))
            } else {
                u32::MAX as nat + 1
            },
            None => !all_digits(s@.skip(from as int)),
        },
{
    let ghost body = s@.skip(from as int);
    let cap: u64 = 4294967296;
    let mut acc: u64 = 0;
    let mut k: usize = from;
    while k < s.len()
        invariant
            from <= k <= s.len(),
            body == s@.skip(from as int),
            all_digits(body.take(k - from)),
            acc == if digits_value(body.take(k - from)) <= u32::MAX {
                digits_value(body.take(k - from))
            } else {
                cap as nat
            },
            cap == u32::MAX as nat + 1,
        decreases s.len() - k,
    {
        let c = s[k];
        if !('0' <= c && c <= '9') {
            assert(body[k - from] == c);
            return None;
        }
        let d = value_of_digit(c);
        let ghost prefix = body.take(k - from);
        let ghost next = body.take(k + 1 - from);
        assert(next.drop_last() =~= prefix);
        assert(next.last() == c);
        assert(digits_value(next) == digits_value(prefix) * 10 + digit_value(c));
        if acc >= cap {
            acc = cap;
        } else {
            let v = acc * 10 + d;
            if v > 4294967295 {
                acc = cap;
            } else {
                acc = v;
            }
        }
        assert(all_digits(next)) by {
            assert forall|i: int| 0 <= i < next.len() implies is_digit(#[trigger] next[i]) by {
                if i < prefix.len() {
                    assert(next[i] == prefix[i]);
                }
            }
        }
        k = k + 1;
    }
    assert(body.take(s.len() - from) =~= body);
    Some(acc)
}

/// `s.parse::<u32>()`, with `None` where it returns an error.
pub fn parse_u32(s: &str) -> (r: Option<u32>)
    ensures
        r == spec_parse_u32(s@),
{
    let cs = crate::text::chars_of(s);
    let from: usize = if cs.len() > 0 && cs[0] == '+' {
        1
    } else {
        0
    };
    assert(cs@.skip(from as int) =~= if s@.len() > 0 && s@[0] == '+' {
        s@.drop_first()
    } else {
        s@
    });
    if from >= cs.len() {
        return None;
    }
    match capped_digits_value(&cs, from) {
        None => None,
        Some(v) => {
            if v > 4294967295 {
                None
            } else {
                Some(v as u32)
            }
        },
    }
}

/// `s.parse::<i32>()`, with `None` where it returns an error.
pub fn parse_i32(s: &str) -> (r: Option<i32>)
    ensures
        r == spec_parse_i32(s@),
{
    let cs = crate::text::chars_of(s);
    let negative = cs.len() > 0 && cs[0] == '-';
    let from: usize = if cs.len() > 0 && (cs[0] == '+' || cs[0] == '-') {
        1
    } else {
        0
    };
    assert(cs@.skip(from as int) =~= if s@.len() > 0 && (s@[0] == '+' || s@[0] == '-') {
        s@.drop_first()
    } else {
        s@
    });
    if from >= cs.len() {
        return None;
    }
    match capped_digits_value(&cs, from) {
        None => None,
        Some(v) => {
            if negative {
                if v > 2147483648 {
                    None
                } else {
                    Some((0 - (v as i64)) as i32)
                }
            } else {
                if v > 2147483647 {
                    None
                } else {
                    Some(v as i32)
                }
            }
        },
    }
}

} // verus!
