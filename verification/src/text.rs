//! Text that the library builds and takes apart.
use vstd::prelude::*;
use vstd::string::StringExecFns;

verus! {

/// `String::push` of the standard library: the character is added at the end.
pub assume_specification[ String::push ](s: &mut String, c: char)
    ensures
        final(s)@ == old(s)@.push(c),
;

/// The decimal digit of a number below ten.
pub open spec fn digit(n: nat) -> char {
    if n == 0 {
        '0'
    } else if n == 1 {
        '1'
    } else if n == 2 {
        '2'
    } else if n == 3 {
        '3'
    } else if n == 4 {
        '4'
    } else if n == 5 {
        '5'
    } else if n == 6 {
        '6'
    } else if n == 7 {
        '7'
    } else if n == 8 {
        '8'
    } else {
        '9'
    }
}

/// A number in decimal, without leading zeros.
pub open spec fn decimal(n: nat) -> Seq<char>
    decreases n,
{
    if n < 10 {
        seq![digit(n)]
    } else {
        decimal(n / 10).push(digit(n % 10))
    }
}

/// A number in decimal, with a leading zero where it has a single digit.
pub open spec fn two_digits(n: nat) -> Seq<char> {
    if n < 10 {
        seq!['0', digit(n)]
    } else {
        decimal(n)
    }
}

/// Whether the character is one of the ten decimal digits.
pub open spec fn is_digit(c: char) -> bool {
    '0' <= c && c <= '9'
}

/// The decimal digit of a number below ten.
fn digit_char(n: u64) -> (c: char)
    requires
        n < 10,
    ensures
        c == digit(n as nat),
{
    if n == 0 {
        '0'
    } else if n == 1 {
        '1'
    } else if n == 2 {
        '2'
    } else if n == 3 {
        '3'
    } else if n == 4 {
        '4'
    } else if n == 5 {
        '5'
    } else if n == 6 {
        '6'
    } else if n == 7 {
        '7'
    } else if n == 8 {
        '8'
    } else {
        '9'
    }
}

/// A number in decimal, without leading zeros.
pub fn to_decimal(n: u64) -> (r: String)
    ensures
        r@ == decimal(n as nat),
    decreases n,
{
    if n < 10 {
        let mut r = String::new();
        r.push(digit_char(n));
        assert(r@ =~= seq![digit(n as nat)]);
        r
    } else {
        let mut r = to_decimal(n / 10);
        r.push(digit_char(n % 10));
        r
    }
}

/// A number in decimal, with a leading zero where it has a single digit.
pub fn to_two_digits(n: u64) -> (r: String)
    ensures
        r@ == two_digits(n as nat),
{
    if n < 10 {
        let mut r = String::new();
        r.push('0');
        r.push(digit_char(n));
        assert(r@ =~= seq!['0', digit(n as nat)]);
        r
    } else {
        to_decimal(n)
    }
}

/// Whether two texts are the same.
pub fn same_text(a: &str, b: &str) -> (r: bool)
    ensures
        r == (a@ == b@),
{
    let left: String = a.to_owned();
    let right: String = b.to_owned();
    left == right
}

/// The first text followed by the second.
pub fn joined(a: &str, b: &str) -> (r: String)
    ensures
        r@ == a@ + b@,
{
    let mut r: String = a.to_owned();
    r.append(b);
    r
}

/// Different numbers have different decimal forms.
pub proof fn law_decimal_is_injective(a: nat, b: nat)
    requires
        decimal(a) == decimal(b),
    ensures
        a == b,
    decreases a,
{
    if a < 10 && b < 10 {
        assert(decimal(a)[0] == digit(a));
        assert(decimal(b)[0] == digit(b));
    } else if a < 10 {
        lemma_decimal_not_empty(b / 10);
        assert(decimal(b).len() >= 2);
    } else if b < 10 {
        lemma_decimal_not_empty(a / 10);
        assert(decimal(a).len() >= 2);
    } else {
        assert(decimal(a).drop_last() =~= decimal(a / 10));
        assert(decimal(b).drop_last() =~= decimal(b / 10));
        assert(decimal(a).last() == digit(a % 10));
        assert(decimal(b).last() == digit(b % 10));
        law_decimal_is_injective(a / 10, b / 10);
    }
}

/// The number that a text of decimal digits stands for, the last digit counting one,
/// the one before it ten, and so on.
pub open spec fn read_back(digits: Seq<char>) -> int
    decreases digits.len(),
{
    if digits.len() == 0 {
        0
    } else {
        read_back(digits.drop_last()) * 10 + (digits.last() as int - '0' as int)
    }
}

/// The decimal form of a number is made of digits, has no leading zero but for zero
/// itself, and read as a number gives the number.
pub proof fn law_decimal_is_read_back(n: nat)
    ensures
        read_back(decimal(n)) == n,
        decimal(n).len() >= 1,
        decimal(n)[0] == '0' ==> decimal(n).len() == 1,
        forall|i: int|
            0 <= i < decimal(n).len() ==> '0' <= #[trigger] decimal(n)[i] && decimal(n)[i] <= '9',
    decreases n,
{
    if n < 10 {
        let d = digit(n);
        assert(seq![d].drop_last() =~= Seq::<char>::empty());
        assert(read_back(seq![d].drop_last()) == 0);
        assert(seq![d].last() == d);
    } else {
        let before = decimal(n / 10);
        law_decimal_is_read_back(n / 10);
        assert(decimal(n).drop_last() =~= before);
        assert(decimal(n).last() == digit(n % 10));
        assert(decimal(n)[0] == before[0]);
        if before[0] == '0' {
            assert(before.drop_last() =~= Seq::<char>::empty());
            assert(read_back(before.drop_last()) == 0);
            assert(read_back(before) == 0);
        }
        assert forall|i: int| 0 <= i < decimal(n).len() implies '0' <= #[trigger] decimal(n)[i]
            && decimal(n)[i] <= '9' by {
            if i < before.len() {
                assert(decimal(n)[i] == before[i]);
            }
        }
    }
}

/// With two digits at least, a number is read back too; below a hundred there are exactly
/// two.
pub proof fn law_two_digits_are_read_back(n: nat)
    ensures
        read_back(two_digits(n)) == n,
        two_digits(n).len() >= 2,
        n < 100 ==> two_digits(n).len() == 2,
        n >= 10 ==> two_digits(n) == decimal(n),
        forall|i: int|
            0 <= i < two_digits(n).len() ==> '0' <= #[trigger] two_digits(n)[i] && two_digits(n)[i]
                <= '9',
{
    law_decimal_is_read_back(n);
    if n < 10 {
        let d = digit(n);
        assert(seq!['0', d].drop_last() =~= seq!['0']);
        assert(seq!['0'].drop_last() =~= Seq::<char>::empty());
        assert(read_back(seq!['0'].drop_last()) == 0);
        assert(read_back(seq!['0']) == 0);
        assert(seq!['0', d].last() == d);
        assert(decimal(n)[0] == d);
    } else {
        lemma_decimal_not_empty(n / 10);
        assert(decimal(n).len() == decimal(n / 10).len() + 1);
    }
}

/// A number has at least one digit.
proof fn lemma_decimal_not_empty(n: nat)
    ensures
        decimal(n).len() >= 1,
    decreases n,
{
    if n >= 10 {
        lemma_decimal_not_empty(n / 10);
    }
}

} // verus!
