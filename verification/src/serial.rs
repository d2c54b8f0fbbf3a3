//! Decimal digits: reading the four-digit serial prefix of a migration file
//! name, reading a signed count from the command line, and printing a serial
//! zero-padded to four digits.

use crate::errors::MigError;
use vstd::prelude::*;
use vstd::string::StrSliceExecFns;
use vstd::string::StringExecFns;

verus! {

/// The value of a decimal digit character, or 10 for any other character.
pub open spec fn digit_val(c: char) -> int {
    if c == '0' {
        0
    } else if c == '1' {
        1
    } else if c == '2' {
        2
    } else if c == '3' {
        3
    } else if c == '4' {
        4
    } else if c == '5' {
        5
    } else if c == '6' {
        6
    } else if c == '7' {
        7
    } else if c == '8' {
        8
    } else if c == '9' {
        9
    } else {
        10
    }
}

/// Whether `c` is a decimal digit.
pub open spec fn is_digit_char(c: char) -> bool {
    digit_val(c) < 10
}

/// Whether every character of `s` is a decimal digit.
pub open spec fn all_digits(s: Seq<char>) -> bool {
    forall|i: int| 0 <= i < s.len() ==> is_digit_char(#[trigger] s[i])
}

/// The number that the digit sequence `s` denotes, most significant first.
pub open spec fn digits_val(s: Seq<char>) -> int
    decreases s.len(),
{
    if s.len() == 0 {
        0
    } else {
        digits_val(s.drop_last()) * 10 + digit_val(s.last())
    }
}

/// Ten to the `n`.
pub open spec fn pow10(n: nat) -> int
    decreases n,
{
    if n == 0 {
        1
    } else {
        10 * pow10((n - 1) as nat)
    }
}

/// Extending a digit sequence on the right can only increase its value.
pub proof fn lemma_digits_val_prefix_le(s: Seq<char>, k: int)
    requires
        0 <= k <= s.len(),
    ensures
        digits_val(s.take(k)) <= digits_val(s),
    decreases s.len() - k,
{
    if k == s.len() {
        assert(s.take(k) =~= s);
    } else {
        lemma_digits_val_prefix_le(s, k + 1);
        let t = s.take(k + 1);
        assert(t.drop_last() =~= s.take(k));
        assert(digits_val(s.take(k + 1)) == digits_val(s.take(k)) * 10 + digit_val(t.last()));
        assert(digits_val(s.take(k)) >= 0 ==> digits_val(s.take(k)) * 10 >= digits_val(s.take(k)));
        if digits_val(s.take(k)) >= 0 {
        } else {
            lemma_digits_val_nonneg_weak(s.take(k));
        }
    }
}

/// A digit sequence never denotes a negative number, digits or not.
proof fn lemma_digits_val_nonneg_weak(s: Seq<char>)
    ensures
        digits_val(s) >= 0,
    decreases s.len(),
{
    if s.len() == 0 {
    } else {
        lemma_digits_val_nonneg_weak(s.drop_last());
        assert(0 <= digit_val(s.last()));
    }
}

/// Ten to any power is positive.
pub proof fn lemma_pow10_pos(n: nat)
    ensures
        pow10(n) >= 1,
    decreases n,
{
    if n > 0 {
        lemma_pow10_pos((n - 1) as nat);
    }
}

/// A digit sequence denotes a number between 0 and `pow10(len) - 1`.
pub proof fn lemma_digits_val_bounds(s: Seq<char>)
    requires
        all_digits(s),
    ensures
        0 <= digits_val(s) < pow10(s.len()),
    decreases s.len(),
{
    if s.len() == 0 {
    } else {
        assert(all_digits(s.drop_last())) by {
            assert(forall|i: int|
                0 <= i < s.len() - 1 ==> #[trigger] s.drop_last()[i] == s[i]);
        }
        lemma_digits_val_bounds(s.drop_last());
        assert(0 <= digit_val(s.last()) <= 9);
        let v = digits_val(s.drop_last());
        let p = pow10((s.len() - 1) as nat);
        assert(pow10(s.len()) == 10 * p);
    }
}

/// Reading a digit sequence from the front: the leading digit carries ten
/// to the remaining length.
pub proof fn lemma_digits_val_front(s: Seq<char>)
    requires
        s.len() > 0,
    ensures
        digits_val(s) == digit_val(s[0]) * pow10((s.len() - 1) as nat) + digits_val(
            s.drop_first(),
        ),
    decreases s.len(),
{
    if s.len() == 1 {
        assert(s.drop_last() =~= Seq::<char>::empty());
        assert(s.drop_first() =~= Seq::<char>::empty());
        assert(pow10(0) == 1);
        assert(s.last() == s[0]);
    } else {
        let head = s.drop_last();
        lemma_digits_val_front(head);
        assert(head[0] == s[0]);
        assert(head.drop_first() =~= s.drop_first().drop_last());
        assert(s.drop_first().last() == s.last());
        let d0 = digit_val(s[0]);
        let t = digits_val(head.drop_first());
        let p1 = pow10((s.len() - 2) as nat);
        assert(pow10((s.len() - 1) as nat) == 10 * p1);
        assert((d0 * p1 + t) * 10 == d0 * (10 * p1) + t * 10) by (nonlinear_arith);
    }
}

/// Among digit characters, code point order is digit order.
pub proof fn lemma_digit_code(c: char)
    requires
        is_digit_char(c),
    ensures
        c as u32 == 48 + digit_val(c),
{
}

/// Lexicographic order on names with equal-length digit prefixes, whatever
/// follows them, respects the prefixes' numeric values.
pub proof fn lemma_lex_le_digits(x: Seq<char>, y: Seq<char>, u: Seq<char>, v: Seq<char>)
    requires
        x.len() == y.len(),
        all_digits(x),
        all_digits(y),
        crate::text::lex_le(x + u, y + v),
    ensures
        digits_val(x) <= digits_val(y),
    decreases x.len(),
{
    if x.len() == 0 {
    } else {
        let a = x + u;
        let b = y + v;
        assert(a[0] == x[0]);
        assert(b[0] == y[0]);
        assert(is_digit_char(x[0]) && is_digit_char(y[0]));
        lemma_digit_code(x[0]);
        lemma_digit_code(y[0]);
        lemma_digits_val_front(x);
        lemma_digits_val_front(y);
        assert(all_digits(x.drop_first())) by {
            assert(forall|i: int|
                0 <= i < x.len() - 1 ==> #[trigger] x.drop_first()[i] == x[i + 1]);
        }
        assert(all_digits(y.drop_first())) by {
            assert(forall|i: int|
                0 <= i < y.len() - 1 ==> #[trigger] y.drop_first()[i] == y[i + 1]);
        }
        lemma_digits_val_bounds(x.drop_first());
        lemma_digits_val_bounds(y.drop_first());
        let p = pow10((x.len() - 1) as nat);
        lemma_pow10_pos((x.len() - 1) as nat);
        if (a[0] as u32) < (b[0] as u32) {
            assert(digit_val(x[0]) + 1 <= digit_val(y[0]));
            assert(digit_val(x[0]) * p + p <= digit_val(y[0]) * p) by (nonlinear_arith)
                requires
                    digit_val(x[0]) + 1 <= digit_val(y[0]),
                    p >= 1,
            ;
        } else if (a[0] as u32) > (b[0] as u32) {
            assert(false);
        } else {
            assert(digit_val(x[0]) == digit_val(y[0]));
            assert(a.drop_first() =~= x.drop_first() + u);
            assert(b.drop_first() =~= y.drop_first() + v);
            lemma_lex_le_digits(x.drop_first(), y.drop_first(), u, v);
        }
    }
}

/// The value of the digit `c`, or 10 when `c` is not a digit.
pub fn digit_of(c: char) -> (r: u32)
    ensures
        r == digit_val(c),
{
    match c {
        '0' => 0,
        '1' => 1,
        '2' => 2,
        '3' => 3,
        '4' => 4,
        '5' => 5,
        '6' => 6,
        '7' => 7,
        '8' => 8,
        '9' => 9,
        _ => 10,
    }
}

/// Whether the first four characters of `name` are decimal digits, so that
/// the name carries a serial.
pub open spec fn has_serial(name: Seq<char>) -> bool {
    name.len() >= 4 && all_digits(name.take(4))
}

/// The serial that the first four characters of `name` denote.
pub open spec fn spec_serial(name: Seq<char>) -> int {
    digits_val(name.take(4))
}

/// Reads the four-digit serial prefix of a migration file name.  A name
/// that does not begin with four decimal digits is invalid.
pub fn parse_serial(name: &String) -> (r: Result<u32, MigError>)
    ensures
        match r {
            Ok(n) => has_serial(name@) && n == spec_serial(name@) && n <= 9999,
            Err(e) => e == MigError::InvalidMigrationName && !has_serial(name@),
        },
{
    let s = name.as_str();
    if s.unicode_len() < 4 {
        return Err(MigError::InvalidMigrationName);
    }
    let mut v: u32 = 0;
    let mut i: usize = 0;
    while i < 4
        invariant
            i <= 4,
            s@.len() >= 4,
            s@ == name@,
            all_digits(s@.take(i as int)),
            v == digits_val(s@.take(i as int)),
            0 <= v < pow10(i as nat),
        decreases 4 - i,
    {
        let c = s.get_char(i);
        let d = digit_of(c);
        if d == 10 {
            assert(!is_digit_char(name@.take(4)[i as int]));
            return Err(MigError::InvalidMigrationName);
        }
        proof {
            reveal_with_fuel(pow10, 5);
        }
        assert(pow10(4) == 10000 && pow10(3) == 1000 && pow10(2) == 100 && pow10(1) == 10
            && pow10(0) == 1);
        v = v * 10 + d;
        proof {
            let t = s@.take(i + 1);
            assert(t.drop_last() =~= s@.take(i as int));
            assert(t.last() == s@[i as int]);
            assert(forall|j: int| 0 <= j < i + 1 ==> is_digit_char(#[trigger] t[j]));
        }
        i = i + 1;
    }
    proof {
        reveal_with_fuel(pow10, 5);
    }
    assert(s@.take(4) =~= name@.take(4));
    Ok(v)
}

/// The digit part of a signed decimal string: what follows an optional
/// leading sign.
pub open spec fn int_digits(s: Seq<char>) -> Seq<char> {
    if s.len() > 0 && (s[0] == '+' || s[0] == '-') {
        s.drop_first()
    } else {
        s
    }
}

/// Whether `s` is a signed decimal string: an optional sign and then one or
/// more digits.
pub open spec fn is_int_str(s: Seq<char>) -> bool {
    int_digits(s).len() > 0 && all_digits(int_digits(s))
}

/// The number a signed decimal string denotes.
pub open spec fn int_str_val(s: Seq<char>) -> int {
    if s.len() > 0 && s[0] == '-' {
        -digits_val(int_digits(s))
    } else {
        digits_val(int_digits(s))
    }
}

/// Reads a signed decimal count, as the command line carries it.  `None`
/// when `s` is not a signed decimal string or its value does not fit an
/// `i32`.
pub fn parse_i32(s: &String) -> (r: Option<i32>)
    ensures
        match r {
            Some(v) => is_int_str(s@) && v == int_str_val(s@),
            None => !(is_int_str(s@) && -0x8000_0000 <= int_str_val(s@) < 0x8000_0000),
        },
{
    let st = s.as_str();
    let len = st.unicode_len();
    if len == 0 {
        return None;
    }
    let c0 = st.get_char(0);
    let negative = c0 == '-';
    let start: usize = if c0 == '-' || c0 == '+' {
        1
    } else {
        0
    };
    proof {
        if start == 1 {
            assert(int_digits(s@) =~= s@.skip(1));
        } else {
            assert(int_digits(s@) =~= s@);
        }
    }
    let ghost digits = int_digits(s@);
    if start == len {
        return None;
    }
    let mut acc: u64 = 0;
    let mut i: usize = start;
    while i < len
        invariant
            start <= i <= len,
            len == s@.len(),
            st@ == s@,
            start == 0 || start == 1,
            start < len,
            digits == int_digits(s@),
            digits == s@.skip(start as int),
            all_digits(digits.take(i - start)),
            acc == digits_val(digits.take(i - start)),
            acc <= 0x8000_0000,
        decreases len - i,
    {
        let c = st.get_char(i);
        let d = digit_of(c);
        proof {
            assert(digits[i - start] == s@[i as int]);
        }
        if d == 10 {
            assert(!is_digit_char(digits[i - start]));
            assert(!all_digits(digits));
            return None;
        }
        acc = acc * 10 + (d as u64);
        proof {
            let t = digits.take(i - start + 1);
            assert(t.drop_last() =~= digits.take(i - start));
            assert(t.last() == digits[i - start]);
            assert(forall|j: int| 0 <= j < i - start + 1 ==> is_digit_char(#[trigger] t[j]));
        }
        i = i + 1;
        if acc > 0x8000_0000 {
            proof {
                assert(digits.take(i - start).len() <= digits.len());
                if all_digits(digits) {
                    lemma_digits_val_prefix_le(digits, i - start);
                    assert(digits_val(digits) >= acc > 0x8000_0000);
                }
            }
            return None;
        }
    }
    assert(digits.take(i - start) =~= digits);
    if negative {
        assert(s@[0] == '-');
        assert(int_str_val(s@) == -(acc as int));
        Some((-(acc as i64)) as i32)
    } else {
        proof {
            if s@[0] == '-' {
                assert(false);
            }
        }
        if acc > 0x7fff_ffff {
            assert(int_str_val(s@) == acc > 0x7fff_ffff);
            return None;
        }
        Some(acc as i32)
    }
}

/// The decimal digits of `n`, most significant first.
pub open spec fn dec_chars(n: int) -> Seq<char>
    decreases n,
{
    if n < 10 {
        seq![digit_char(n)]
    } else {
        dec_chars(n / 10).push(digit_char(n % 10))
    }
}

/// The digit character for a value between 0 and 9.
pub open spec fn digit_char(d: int) -> char {
    if d == 0 {
        '0'
    } else if d == 1 {
        '1'
    } else if d == 2 {
        '2'
    } else if d == 3 {
        '3'
    } else if d == 4 {
        '4'
    } else if d == 5 {
        '5'
    } else if d == 6 {
        '6'
    } else if d == 7 {
        '7'
    } else if d == 8 {
        '8'
    } else {
        '9'
    }
}

/// A serial as it stands in a file name: its decimal digits, zero-padded on
/// the left to at least four.
pub open spec fn serial_chars(n: int) -> Seq<char> {
    if n < 10 {
        seq!['0', '0', '0'] + dec_chars(n)
    } else if n < 100 {
        seq!['0', '0'] + dec_chars(n)
    } else if n < 1000 {
        seq!['0'] + dec_chars(n)
    } else {
        dec_chars(n)
    }
}

/// The digit character for `d`, as a string.
fn digit_str(d: u32) -> (r: &'static str)
    requires
        d < 10,
    ensures
        r@ == seq![digit_char(d as int)],
{
    let r: &'static str = match d {
        0 => "0",
        1 => "1",
        2 => "2",
        3 => "3",
        4 => "4",
        5 => "5",
        6 => "6",
        7 => "7",
        8 => "8",
        _ => "9",
    };
    proof {
        reveal_strlit("0");
        reveal_strlit("1");
        reveal_strlit("2");
        reveal_strlit("3");
        reveal_strlit("4");
        reveal_strlit("5");
        reveal_strlit("6");
        reveal_strlit("7");
        reveal_strlit("8");
        reveal_strlit("9");
    }
    r
}

/// The decimal digits of `n`, as a string.
fn dec_string(n: u32) -> (r: String)
    ensures
        r@ == dec_chars(n as int),
    decreases n,
{
    if n < 10 {
        digit_str(n).to_owned()
    } else {
        let mut head = dec_string(n / 10);
        head.append(digit_str(n % 10));
        assert(head@ =~= dec_chars((n / 10) as int).push(digit_char((n % 10) as int)));
        head
    }
}

/// Prints `n` zero-padded to four digits, as serials stand in file names.
pub fn serial_string(n: u32) -> (r: String)
    ensures
        r@ == serial_chars(n as int),
{
    let digits = dec_string(n);
    let pad: &'static str = if n < 10 {
        "000"
    } else if n < 100 {
        "00"
    } else if n < 1000 {
        "0"
    } else {
        ""
    };
    proof {
        reveal_strlit("000");
        reveal_strlit("00");
        reveal_strlit("0");
        reveal_strlit("");
    }
    let r = pad.to_owned().concat(digits.as_str());
    assert(r@ =~= serial_chars(n as int));
    r
}

} // verus!
