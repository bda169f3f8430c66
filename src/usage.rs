use vstd::prelude::*;
use crate::text::{is_white_space, trim_start, white_space, leading_white_space};

verus! {

/// Why the text of a usage reading gave no usage.
#[derive(Clone, Copy, Debug, PartialEq, Eq, Structural)]
pub enum UsageError {
    /// The text holds nothing but white space.
    NoValue,
    /// The first word starts with a minus sign: a usage is never negative.
    Negative,
    /// The first word, without its commas, is not a decimal `i32`.
    NotANumber,
}

/// The characters of `t` up to its first white space.
pub open spec fn leading_word(t: Seq<char>) -> Seq<char>
    decreases t.len(),
{
    if t.len() > 0 && !is_white_space(t[0]) {
        seq![t[0]] + leading_word(t.drop_first())
    } else {
        Seq::empty()
    }
}

/// The first white-space separated word of `s`.
pub open spec fn first_word(s: Seq<char>) -> Seq<char> {
    leading_word(trim_start(s))
}

/// `w` with its commas left out.
pub open spec fn without_commas(w: Seq<char>) -> Seq<char>
    decreases w.len(),
{
    if w.len() == 0 {
        Seq::empty()
    } else {
        let r = without_commas(w.drop_last());
        if w.last() == ',' {
            r
        } else {
            r.push(w.last())
        }
    }
}

pub open spec fn is_digit(c: char) -> bool {
    '0' as u32 <= c as u32 && c as u32 <= '9' as u32
}

pub open spec fn digit_value(c: char) -> int {
    c as u32 - '0' as u32
}

/// The value of a string of decimal digits, most significant first.
pub open spec fn decimal_value(d: Seq<char>) -> int
    decreases d.len(),
{
    if d.len() == 0 {
        0
    } else {
        decimal_value(d.drop_last()) * 10 + digit_value(d.last())
    }
}

/// The digits of `s` after an optional sign.
pub open spec fn unsigned_part(s: Seq<char>) -> Seq<char> {
    if s.len() > 0 && (s[0] == '-' || s[0] == '+') {
        s.drop_first()
    } else {
        s
    }
}

/// The `i32` that `s` writes in decimal: an optional `+` or `-`, then at
/// least one ASCII digit, with a value in the range of `i32`.
pub open spec fn parsed_i32(s: Seq<char>) -> Option<i32> {
    let d = unsigned_part(s);
    let v = if s.len() > 0 && s[0] == '-' {
        -decimal_value(d)
    } else {
        decimal_value(d)
    };
    if d.len() > 0 && (forall|i: int| 0 <= i < d.len() ==> is_digit(#[trigger] d[i])) && i32::MIN
        <= v <= i32::MAX {
        Some(v as i32)
    } else {
        None
    }
}

/// The usage in minutes that a word, without its commas, gives.
pub open spec fn minutes_of(w: Seq<char>) -> Result<i32, UsageError> {
    if w.len() > 0 && w[0] == '-' {
        Err(UsageError::Negative)
    } else {
        match parsed_i32(w) {
            Some(v) => Ok(v),
            None => Err(UsageError::NotANumber),
        }
    }
}

/// A string of digits has a value of at least zero.
proof fn lemma_decimal_nonneg(d: Seq<char>)
    requires
        forall|i: int| 0 <= i < d.len() ==> is_digit(#[trigger] d[i]),
    ensures
        0 <= decimal_value(d),
    decreases d.len(),
{
    if d.len() > 0 {
        let p = d.drop_last();
        assert forall|i: int| 0 <= i < p.len() implies is_digit(#[trigger] p[i]) by {
            assert(p[i] == d[i]);
        }
        lemma_decimal_nonneg(p);
        assert(is_digit(d[d.len() - 1]));
    }
}

/// A prefix of a string of digits has no larger value.
proof fn lemma_decimal_prefix(d: Seq<char>, k: int)
    requires
        0 <= k <= d.len(),
        forall|i: int| 0 <= i < d.len() ==> is_digit(#[trigger] d[i]),
    ensures
        0 <= decimal_value(d.take(k)) <= decimal_value(d),
    decreases d.len(),
{
    lemma_decimal_nonneg(d);
    if k == d.len() {
        assert(d.take(k) =~= d);
    } else {
        let p = d.drop_last();
        assert(p.take(k) =~= d.take(k));
        assert forall|i: int| 0 <= i < p.len() implies is_digit(#[trigger] p[i]) by {
            assert(p[i] == d[i]);
        }
        lemma_decimal_prefix(p, k);
        lemma_decimal_nonneg(p);
        assert(is_digit(d[d.len() - 1]));
    }
}

/// Reads a decimal `i32` as `str::parse` does: an optional sign, then
/// ASCII digits, with no other character.
pub fn parse_i32(s: &Vec<char>) -> (r: Option<i32>)
    ensures
        r == parsed_i32(s@),
{
    let n = s.len();
    if n == 0 {
        return None;
    }
    let negative = s[0] == '-';
    let start: usize = if s[0] == '-' || s[0] == '+' {
        1
    } else {
        0
    };
    let ghost d = unsigned_part(s@);
    assert(d =~= s@.subrange(start as int, n as int));
    if start == n {
        return None;
    }
    let mut acc: i64 = 0;
    let mut k: usize = start;
    assert(s@.subrange(start as int, start as int) =~= Seq::<char>::empty());
    while k < n
        invariant
            n == s@.len(),
            start <= k <= n,
            d == s@.subrange(start as int, n as int),
            d == unsigned_part(s@),
            negative == (s@[0] == '-'),
            acc == decimal_value(s@.subrange(start as int, k as int)),
            0 <= acc <= 2147483648,
            forall|i: int| start <= i < k ==> is_digit(#[trigger] s@[i]),
        decreases n - k,
    {
        let c = s[k];
        let cv = c as u32;
        if !(48 <= cv && cv <= 57) {
            assert(d[k - start] == c);
            assert(!is_digit(d[k - start]));
            return None;
        }
        let dv = (cv - 48) as i64;
        assert(s@.subrange(start as int, k + 1).drop_last() =~= s@.subrange(start as int, k as int));
        acc = acc * 10 + dv;
        k = k + 1;
        if acc > 2147483648 {
            proof {
                assert(d.take(k - start) =~= s@.subrange(start as int, k as int));
                if forall|j: int| 0 <= j < d.len() ==> is_digit(#[trigger] d[j]) {
                    lemma_decimal_prefix(d, k - start);
                }
            }
            return None;
        }
    }
    assert(s@.subrange(start as int, n as int) =~= d);
    assert forall|i: int| 0 <= i < d.len() implies is_digit(#[trigger] d[i]) by {
        assert(d[i] == s@[start + i]);
    }
    if negative {
        Some((-acc) as i32)
    } else if acc <= 2147483647 {
        Some(acc as i32)
    } else {
        None
    }
}

/// Reads a usage reading such as `"3,577 Minute"`: the first word of the
/// text, with its commas left out, is the usage in minutes, never negative.
pub fn parse_total_use(text: &str) -> (r: Result<i32, UsageError>)
    ensures
        trim_start(text@).len() == 0 ==> r == Err::<i32, UsageError>(UsageError::NoValue),
        trim_start(text@).len() > 0 ==> r == minutes_of(without_commas(first_word(text@))),
        r matches Ok(m) ==> m >= 0,
{
    let n = text.unicode_len();
    let i = leading_white_space(text);
    if i == n {
        return Err(UsageError::NoValue);
    }
    let ghost rest = text@.subrange(i as int, n as int);
    let mut digits: Vec<char> = Vec::new();
    let mut j: usize = i;
    assert(text@.subrange(i as int, i as int) =~= Seq::<char>::empty());
    assert(rest =~= text@.subrange(i as int, i as int) + text@.subrange(i as int, n as int));
    loop
        invariant
            n == text@.len(),
            i <= j <= n,
            rest == text@.subrange(i as int, n as int),
            leading_word(rest) == text@.subrange(i as int, j as int) + leading_word(
                text@.subrange(j as int, n as int),
            ),
            digits@ == without_commas(text@.subrange(i as int, j as int)),
        ensures
            j == n || is_white_space(text@[j as int]),
        decreases n - j,
    {
        if j == n {
            break;
        }
        let c = text.get_char(j);
        if white_space(c) {
            break;
        }
        let ghost tail = text@.subrange(j as int, n as int);
        assert(tail[0] == c);
        assert(tail.drop_first() =~= text@.subrange(j + 1, n as int));
        assert(text@.subrange(i as int, j + 1) =~= text@.subrange(i as int, j as int).push(c));
        assert(text@.subrange(i as int, j + 1).drop_last() =~= text@.subrange(i as int, j as int));
        assert(text@.subrange(i as int, j as int) + (seq![c] + text@.subrange(j + 1, n as int))
            =~= text@.subrange(i as int, j + 1) + text@.subrange(j + 1, n as int));
        if c != ',' {
            digits.push(c);
        }
        j = j + 1;
    }
    if j < n {
        assert(text@.subrange(j as int, n as int)[0] == text@[j as int]);
    }
    assert(leading_word(text@.subrange(j as int, n as int)) =~= Seq::<char>::empty());
    assert(text@.subrange(i as int, j as int) + Seq::<char>::empty() =~= text@.subrange(
        i as int,
        j as int,
    ));
    if digits.len() > 0 && digits[0] == '-' {
        return Err(UsageError::Negative);
    }
    let r = parse_i32(&digits);
    proof {
        let d = unsigned_part(digits@);
        if r is Some {
            lemma_decimal_nonneg(d);
        }
    }
    match r {
        Some(v) => Ok(v),
        None => Err(UsageError::NotANumber),
    }
}

} // verus!
