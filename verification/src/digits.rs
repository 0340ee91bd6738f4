use vstd::prelude::*;

verus! {

/// Whether `c` is one of the ten digits.
pub open spec fn is_digit_spec(c: char) -> bool {
    '0' <= c && c <= '9'
}

/// Whether `c` is one of the ten digits.
pub fn is_digit(c: char) -> (r: bool)
    ensures
        r == is_digit_spec(c),
{
    '0' <= c && c <= '9'
}

/// Whether `s` is made of digits only.
pub open spec fn all_digits(s: Seq<char>) -> bool {
    forall|i: int| 0 <= i < s.len() ==> is_digit_spec(#[trigger] s[i])
}

/// The number that the digit `c` stands for.
pub open spec fn digit_value(c: char) -> nat {
    (c as u32 - '0' as u32) as nat
}

/// The number that the digits of `s` write in base ten; the empty text writes zero.
pub open spec fn digits_value(s: Seq<char>) -> nat
    decreases s.len(),
{
    if s.len() == 0 {
        0
    } else {
        digits_value(s.drop_last()) * 10 + digit_value(s.last())
    }
}

/// Whether `text` is made of digits only.
pub fn is_all_digits(text: &Vec<char>) -> (r: bool)
    ensures
        r == all_digits(text@),
{
    let mut i: usize = 0;
    while i < text.len()
        invariant
            i <= text.len(),
            forall|j: int| 0 <= j < i ==> is_digit_spec(#[trigger] text@[j]),
        decreases text.len() - i,
    {
        if !is_digit(text[i]) {
            return false;
        }
        i += 1;
    }
    true
}

/// The number that the digits of `text` write, where it is below `limit`.
pub fn parse_below(text: &Vec<char>, limit: usize) -> (r: Option<usize>)
    requires
        all_digits(text@),
    ensures
        match r {
            Some(v) => v == digits_value(text@) && v < limit,
            None => digits_value(text@) >= limit,
        },
{
    let mut value: usize = 0;
    let mut i: usize = 0;
    if limit == 0 {
        return None;
    }
    proof {
        assert(text@.take(0) =~= Seq::<char>::empty());
    }
    while i < text.len()
        invariant
            i <= text.len(),
            all_digits(text@),
            value == digits_value(text@.take(i as int)),
            value < limit,
        decreases text.len() - i,
    {
        let digit: u32 = text[i] as u32 - '0' as u32;
        let next: u128 = value as u128 * 10 + digit as u128;
        proof {
            assert(text@.take(i + 1).drop_last() =~= text@.take(i as int));
            assert(next == digits_value(text@.take(i + 1)));
        }
        if next >= limit as u128 {
            proof {
                lemma_digits_value_grows(text@, i + 1);
            }
            return None;
        }
        value = next as usize;
        i += 1;
    }
    proof {
        assert(text@.take(i as int) =~= text@);
    }
    Some(value)
}

/// The digits in front write no more than all the digits.
pub proof fn lemma_digits_value_grows(s: Seq<char>, n: int)
    requires
        0 <= n <= s.len(),
    ensures
        digits_value(s.take(n)) <= digits_value(s),
    decreases s.len() - n,
{
    if n < s.len() {
        assert(s.take(n + 1).drop_last() =~= s.take(n));
        lemma_digits_value_grows(s, n + 1);
    } else {
        assert(s.take(n) =~= s);
    }
}

/// A zero in front writes nothing.
pub proof fn lemma_leading_zero(s: Seq<char>)
    requires
        s.len() > 0,
        s[0] == '0',
    ensures
        digits_value(s) == digits_value(s.skip(1)),
    decreases s.len(),
{
    if s.len() == 1 {
        assert(s.drop_last() =~= Seq::<char>::empty());
        assert(s.skip(1) =~= Seq::<char>::empty());
    } else {
        lemma_leading_zero(s.drop_last());
        assert(s.skip(1).drop_last() =~= s.drop_last().skip(1));
    }
}

/// Digits that begin with another digit than zero write a number above zero.
pub proof fn lemma_leading_nonzero(s: Seq<char>, n: int)
    requires
        1 <= n <= s.len(),
        all_digits(s),
        s[0] != '0',
    ensures
        digits_value(s.take(n)) >= 1,
    decreases n,
{
    if n == 1 {
        assert(s.take(1).drop_last() =~= Seq::<char>::empty());
        assert(is_digit_spec(s[0]));
    } else {
        lemma_leading_nonzero(s, n - 1);
        assert(s.take(n).drop_last() =~= s.take(n - 1));
    }
}

/// Where the digits in front of `a` write less than those in front of `b`,
/// and as many digits follow in both, all of `a` writes less than all of `b`.
pub proof fn lemma_less_in_front(a: Seq<char>, b: Seq<char>, i: int, j: int)
    requires
        0 <= i <= a.len(),
        0 <= j <= b.len(),
        a.len() - i == b.len() - j,
        all_digits(a),
        all_digits(b),
        digits_value(a.take(i)) < digits_value(b.take(j)),
    ensures
        digits_value(a) < digits_value(b),
    decreases a.len() - i,
{
    if i == a.len() {
        assert(a.take(i) =~= a);
        assert(b.take(j) =~= b);
    } else {
        assert(a.take(i + 1).drop_last() =~= a.take(i));
        assert(b.take(j + 1).drop_last() =~= b.take(j));
        assert(is_digit_spec(a[i]));
        assert(is_digit_spec(b[j]));
        lemma_less_in_front(a, b, i + 1, j + 1);
    }
}

/// How many zeros stand in front of `text`.
fn leading_zeros(text: &Vec<char>) -> (r: usize)
    ensures
        r <= text.len(),
        digits_value(text@.skip(r as int)) == digits_value(text@),
        r < text.len() ==> text@[r as int] != '0',
{
    let mut i: usize = 0;
    proof {
        assert(text@.skip(0) =~= text@);
    }
    while i < text.len() && text[i] == '0'
        invariant
            i <= text.len(),
            digits_value(text@.skip(i as int)) == digits_value(text@),
        decreases text.len() - i,
    {
        proof {
            lemma_leading_zero(text@.skip(i as int));
            assert(text@.skip(i as int).skip(1) =~= text@.skip(i + 1));
        }
        i += 1;
    }
    i
}

/// Whether the digits of `a` write a smaller number than those of `b`,
/// however long they are.
pub fn digits_less(a: &Vec<char>, b: &Vec<char>) -> (r: bool)
    requires
        all_digits(a@),
        all_digits(b@),
    ensures
        r == (digits_value(a@) < digits_value(b@)),
{
    let i = leading_zeros(a);
    let j = leading_zeros(b);
    let m = a.len() - i;
    let n = b.len() - j;
    let ghost x = a@.skip(i as int);
    let ghost y = b@.skip(j as int);
    proof {
        assert(x.take(0) =~= Seq::<char>::empty());
        assert(y.take(0) =~= Seq::<char>::empty());
    }
    if m < n {
        proof {
            lemma_leading_nonzero(y, n - m);
            lemma_less_in_front(x, y, 0, n - m);
        }
        return true;
    }
    if m > n {
        proof {
            lemma_leading_nonzero(x, m - n);
            lemma_less_in_front(y, x, 0, m - n);
        }
        return false;
    }
    let mut k: usize = 0;
    while k < m
        invariant
            k <= m,
            m == n,
            i + m == a.len(),
            j + n == b.len(),
            x == a@.skip(i as int),
            y == b@.skip(j as int),
            all_digits(x),
            all_digits(y),
            digits_value(x) == digits_value(a@),
            digits_value(y) == digits_value(b@),
            x.take(k as int) == y.take(k as int),
        decreases m - k,
    {
        let c = a[i + k];
        let d = b[j + k];
        proof {
            assert(x.take(k + 1).drop_last() =~= x.take(k as int));
            assert(y.take(k + 1).drop_last() =~= y.take(k as int));
            assert(x[k as int] == c && y[k as int] == d);
            assert(is_digit_spec(c) && is_digit_spec(d));
        }
        if c != d {
            let less = (c as u32) < (d as u32);
            proof {
                if less {
                    lemma_less_in_front(x, y, k + 1, k + 1);
                } else {
                    lemma_less_in_front(y, x, k + 1, k + 1);
                }
            }
            return less;
        }
        proof {
            assert(x.take(k + 1) =~= x.take(k as int).push(c));
            assert(y.take(k + 1) =~= y.take(k as int).push(d));
        }
        k += 1;
    }
    proof {
        assert(x.take(m as int) =~= x);
        assert(y.take(n as int) =~= y);
    }
    false
}

/// The digit that writes `n`, which is below ten.
pub open spec fn digit_of(n: nat) -> char
    recommends
        n < 10,
{
    ('0' as u32 + n as u32) as char
}

/// The digits that write `n` in base ten.
pub open spec fn decimal(n: nat) -> Seq<char>
    decreases n,
{
    if n < 10 {
        seq![digit_of(n)]
    } else {
        decimal(n / 10).push(digit_of(n % 10))
    }
}

/// Writes `n` in base ten behind `out`.
pub fn push_decimal(out: &mut Vec<char>, n: usize)
    ensures
        final(out)@ == old(out)@ + decimal(n as nat),
    decreases n,
{
    if n >= 10 {
        push_decimal(out, n / 10);
    }
    let digit: u8 = (n % 10) as u8;
    let c: char = (48u8 + digit) as char;
    proof {
        assert(c == digit_of((n % 10) as nat));
        if n < 10 {
            assert(old(out)@.push(c) =~= old(out)@ + decimal(n as nat));
        } else {
            assert((old(out)@ + decimal((n / 10) as nat)).push(c) =~= old(out)@ + decimal(n as nat));
        }
    }
    out.push(c);
}

} // verus!
