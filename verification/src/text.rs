use vstd::prelude::*;

verus! {

/// The decimal digit character for `d` (`0 <= d <= 9`).
pub open spec fn digit_char(d: int) -> char {
    if d == 0 {
        '0'
    } else if d == 1 {
        '1'
    } else if d == 2 {
        '2'
    } else if d == 3 {
        '3'
    } else if d == 4 {
        '4'
    } else if d == 5 {
        '5'
    } else if d == 6 {
        '6'
    } else if d == 7 {
        '7'
    } else if d == 8 {
        '8'
    } else {
        '9'
    }
}

/// The one-character text of a digit.
pub fn digit_str(d: u8) -> (s: &'static str)
    requires
        d <= 9,
    ensures
        s@ == seq![digit_char(d as int)],
{
    proof {
        reveal_strlit("0");
        reveal_strlit("1");
        reveal_strlit("2");
        reveal_strlit("3");
        reveal_strlit("4");
        reveal_strlit("5");
        reveal_strlit("6");
        reveal_strlit("7");
        reveal_strlit("8");
        reveal_strlit("9");
    }
    match d {
        0 => "0",
        1 => "1",
        2 => "2",
        3 => "3",
        4 => "4",
        5 => "5",
        6 => "6",
        7 => "7",
        8 => "8",
        _ => "9",
    }
}

/// The decimal digits of `n`, most significant first, without leading zeros.
pub open spec fn decimal(n: nat) -> Seq<char>
    decreases n,
{
    if n < 10 {
        seq![digit_char(n as int)]
    } else {
        decimal(n / 10).push(digit_char((n % 10) as int))
    }
}

/// `decimal(n)` with zeros in front up to `width` characters, as `{:0width$}` prints it.
pub open spec fn zero_padded(n: nat, width: nat) -> Seq<char> {
    if decimal(n).len() < width {
        Seq::new((width - decimal(n).len()) as nat, |i: int| '0') + decimal(n)
    } else {
        decimal(n)
    }
}

/// A `u64` has between 1 and 20 decimal digits.
proof fn lemma_decimal_len(n: nat)
    requires
        n <= u64::MAX,
    ensures
        1 <= decimal(n).len() <= 20,
    decreases n,
{
    if n >= 10 {
        lemma_decimal_len(n / 10);
    }
    reveal_with_fuel(pow10, 21);
    assert(pow10(20) == 100000000000000000000nat);
    lemma_decimal_bound(n, 20);
}

/// Fewer than 10^k means at most k digits.
proof fn lemma_decimal_bound(n: nat, k: nat)
    requires
        n < pow10(k),
        k >= 1,
    ensures
        decimal(n).len() <= k,
    decreases n,
{
    if n >= 10 {
        if k == 1 {
            assert(pow10(1) == 10 * pow10(0));
        } else {
            assert(pow10(k) == 10 * pow10((k - 1) as nat));
            assert(n / 10 < pow10((k - 1) as nat));
            lemma_decimal_bound(n / 10, (k - 1) as nat);
        }
    }
}

pub open spec fn pow10(k: nat) -> nat
    decreases k,
{
    if k == 0 {
        1
    } else {
        10 * pow10((k - 1) as nat)
    }
}

/// The number of decimal digits of `n`.
fn decimal_len(n: u64) -> (l: usize)
    ensures
        l == decimal(n as nat).len(),
    decreases n,
{
    proof {
        lemma_decimal_len(n as nat);
    }
    if n < 10 {
        1
    } else {
        proof {
            lemma_decimal_len((n / 10) as nat);
        }
        decimal_len(n / 10) + 1
    }
}

/// Appends the decimal digits of `n`.
pub fn push_decimal(s: &mut String, n: u64)
    ensures
        final(s)@ == old(s)@ + decimal(n as nat),
    decreases n,
{
    if n >= 10 {
        push_decimal(s, n / 10);
    }
    s.append(digit_str((n % 10) as u8));
    proof {
        if n >= 10 {
            assert(decimal(n as nat) == decimal((n / 10) as nat).push(digit_char((n % 10) as int)));
        }
    }
    assert(final(s)@ =~= old(s)@ + decimal(n as nat));
}

/// Appends `n` in decimal, with zeros in front up to `width` characters.
pub fn push_padded(s: &mut String, n: u64, width: usize)
    ensures
        final(s)@ == old(s)@ + zero_padded(n as nat, width as nat),
{
    let len = decimal_len(n);
    let ghost start = s@;
    let mut i: usize = len;
    while i < width
        invariant
            len <= i,
            i <= width || i == len,
            len == decimal(n as nat).len(),
            s@ == start + Seq::new((i - len) as nat, |j: int| '0'),
        decreases width - i,
    {
        proof {
            reveal_strlit("0");
        }
        s.append("0");
        assert(s@ =~= start + Seq::new((i + 1 - len) as nat, |j: int| '0'));
        i += 1;
    }
    let ghost zeros = s@;
    push_decimal(s, n);
    if len < width {
        assert(zeros == start + Seq::new((width - len) as nat, |j: int| '0'));
        assert(s@ =~= start + zero_padded(n as nat, width as nat));
    } else {
        assert(zeros =~= start);
        assert(s@ =~= start + zero_padded(n as nat, width as nat));
    }
}

/// The digit character of `d` (0 to 9), by its character code.
pub open spec fn code_digit(d: int) -> char {
    (48 + d) as char
}

proof fn lemma_digit_code(d: int)
    requires
        0 <= d <= 9,
    ensures
        digit_char(d) == code_digit(d),
{
}

/// Below 100, two-wide zero padding gives the tens digit, then the ones digit.
pub proof fn lemma_padded_two(n: nat)
    requires
        n < 100,
    ensures
        zero_padded(n, 2) == seq![code_digit(n as int / 10), code_digit(n as int % 10)],
{
    lemma_digit_code(n as int / 10);
    lemma_digit_code(n as int % 10);
    reveal_with_fuel(decimal, 3);
    if n < 10 {
        assert(zero_padded(n, 2) =~= seq![code_digit(n as int / 10), code_digit(n as int % 10)]);
    } else {
        assert(decimal(n) =~= seq![digit_char(n as int / 10), digit_char(n as int % 10)]);
        assert(zero_padded(n, 2) =~= seq![code_digit(n as int / 10), code_digit(n as int % 10)]);
    }
}

/// Below 10000, four-wide zero padding gives the four digits, most significant first.
pub proof fn lemma_padded_four(n: nat)
    requires
        n < 10000,
    ensures
        zero_padded(n, 4) == seq![
            code_digit(n as int / 1000),
            code_digit(n as int / 100 % 10),
            code_digit(n as int / 10 % 10),
            code_digit(n as int % 10),
        ],
{
    let a = n as int / 1000;
    let b = n as int / 100 % 10;
    let c = n as int / 10 % 10;
    let d = n as int % 10;
    lemma_digit_code(a);
    lemma_digit_code(b);
    lemma_digit_code(c);
    lemma_digit_code(d);
    reveal_with_fuel(decimal, 5);
    let want = seq![code_digit(a), code_digit(b), code_digit(c), code_digit(d)];
    if n < 10 {
        assert(zero_padded(n, 4) =~= want);
    } else if n < 100 {
        assert(decimal(n) =~= seq![digit_char(c), digit_char(d)]);
        assert(zero_padded(n, 4) =~= want);
    } else if n < 1000 {
        assert((n / 10) / 10 == n as int / 100);
        assert(decimal(n / 10) =~= seq![digit_char(b), digit_char(c)]);
        assert(decimal(n) =~= seq![digit_char(b), digit_char(c), digit_char(d)]);
        assert(zero_padded(n, 4) =~= want);
    } else {
        assert((n / 10) / 10 == n as int / 100);
        assert(((n / 10) / 10) / 10 == n as int / 1000);
        assert(decimal((n / 10) / 10) =~= seq![digit_char(a), digit_char(b)]);
        assert(decimal(n / 10) =~= seq![digit_char(a), digit_char(b), digit_char(c)]);
        assert(decimal(n) =~= seq![digit_char(a), digit_char(b), digit_char(c), digit_char(d)]);
        assert(zero_padded(n, 4) =~= want);
    }
}

/// A number below 1000, padded to two places, takes two characters below 100, else three.
pub proof fn lemma_padded_two_len(n: nat)
    requires
        n < 1000,
    ensures
        zero_padded(n, 2).len() == if n < 100 {
            2int
        } else {
            3int
        },
{
    reveal_with_fuel(decimal, 4);
    if n >= 100 {
        assert((n / 10) / 10 < 10);
        assert(decimal(n / 10).len() == 2);
    }
}

} // verus!
