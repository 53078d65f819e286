//! The size column of a listing: a byte count shown in at most four digits
//! and a unit letter, such as `  12k`.
use vstd::prelude::*;
use crate::text::{decimal, digit_char, pad_left, push_padded_decimal, repeat_char};
use crate::network::lemma_decimal_digits;

verus! {

/// A file size in bytes.
pub struct Filesize(pub u64);

/// The number of bytes in one unit of scale `i`: `1024^i`.
pub open spec fn unit_bytes(i: nat) -> nat {
    if i == 0 {
        1
    } else if i == 1 {
        1024
    } else if i == 2 {
        1048576
    } else {
        1073741824
    }
}

/// `size / 1024^i` rounded to the nearest whole number, halves rounded up.
pub open spec fn rounded(size: nat, i: nat) -> nat {
    let d = unit_bytes(i);
    if i == 0 {
        size
    } else {
        size / d + if size % d >= d / 2 { 1nat } else { 0nat }
    }
}

/// The scale at which a size is shown and the number shown: the first
/// scale among bytes, kilo, mega and giga at which the rounded number is
/// below 1024. There is none from `1023.5 * 1024^3` bytes on.
pub open spec fn scale_of(size: nat) -> Option<(nat, nat)> {
    if rounded(size, 0) < 1024 {
        Some((rounded(size, 0), 0nat))
    } else if rounded(size, 1) < 1024 {
        Some((rounded(size, 1), 1nat))
    } else if rounded(size, 2) < 1024 {
        Some((rounded(size, 2), 2nat))
    } else if rounded(size, 3) < 1024 {
        Some((rounded(size, 3), 3nat))
    } else {
        None
    }
}

/// The unit letter of scale `i`, as a field one character wide: a space
/// for plain bytes.
pub open spec fn unit_text(i: nat) -> Seq<char> {
    if i == 0 {
        seq![' ']
    } else if i == 1 {
        seq!['k']
    } else if i == 2 {
        seq!['M']
    } else {
        seq!['G']
    }
}

/// The five characters that show a size: the number right-aligned in four
/// columns, then the unit letter.
pub open spec fn size_text(size: nat) -> Seq<char>
    recommends
        scale_of(size) is Some,
{
    let (n, i) = scale_of(size).unwrap();
    pad_left(decimal(n), 4, ' ') + unit_text(i)
}

/// The largest size that can be shown, plus one: `1023.5 * 1024^3`.
pub const SIZE_LIMIT: u64 = 1098974756864;

/// Rounds `size / d` to the nearest whole number, halves up.
fn round_div(size: u64, d: u64) -> (n: u64)
    requires
        d == 1024 || d == 1048576 || d == 1073741824,
    ensures
        n == size / d + if size % d >= d / 2 { 1nat } else { 0nat },
{
    let q = size / d;
    assert(q < u64::MAX);
    if size % d >= d / 2 {
        q + 1
    } else {
        q
    }
}

impl Filesize {
    /// The number shown for this size and the index of its unit among
    /// bytes, `k`, `M` and `G`; `None` where no unit gives a number below
    /// 1024.
    pub fn scale(&self) -> (r: Option<(u64, usize)>)
        ensures
            r is Some <==> scale_of(self.0 as nat) is Some,
            r matches Some((n, i)) ==> scale_of(self.0 as nat) == Some((n as nat, i as nat)),
            r is Some <==> self.0 < SIZE_LIMIT,
    {
        proof {
            lemma_scale_exists(self.0 as nat);
        }
        let size = self.0;
        if size < 1024 {
            return Some((size, 0));
        }
        let n1 = round_div(size, 1024);
        if n1 < 1024 {
            return Some((n1, 1));
        }
        let n2 = round_div(size, 1048576);
        if n2 < 1024 {
            return Some((n2, 2));
        }
        let n3 = round_div(size, 1073741824);
        if n3 < 1024 {
            return Some((n3, 3));
        }
        None
    }

    /// The five characters of the size column, such as `  12k` or ` 512 `.
    pub fn to_string(&self) -> (s: String)
        requires
            self.0 < SIZE_LIMIT,
        ensures
            s@ == size_text(self.0 as nat),
            s@.len() == 5,
            reads_back(s@, self.0 as nat),
    {
        proof {
            lemma_scale_exists(self.0 as nat);
            lemma_size_text_reads_back(self.0 as nat);
        }
        let (n, i) = match self.scale() {
            Some(p) => p,
            None => (0, 0),
        };
        proof {
            reveal_strlit(" ");
            reveal_strlit("k");
            reveal_strlit("M");
            reveal_strlit("G");
            crate::text::lemma_decimal_len(n as nat);
        }
        let mut s = String::new();
        push_padded_decimal(&mut s, n, 4, " ");
        if i == 0 {
            s.append(" ");
        } else if i == 1 {
            s.append("k");
        } else if i == 2 {
            s.append("M");
        } else {
            s.append("G");
        }
        assert(s@ =~= size_text(self.0 as nat));
        s
    }
}

/// The value of a string of decimal digits.
pub open spec fn digits_value(s: Seq<char>) -> int
    decreases s.len(),
{
    if s.len() == 0 {
        0
    } else {
        digits_value(s.drop_last()) * 10 + (s.last() as int - 48)
    }
}

/// The number a right-aligned column shows: its digits after the spaces
/// that pad it on the left.
pub open spec fn column_value(s: Seq<char>) -> int
    decreases s.len(),
{
    if s.len() == 0 {
        0
    } else if s[0] == ' ' {
        column_value(s.drop_first())
    } else {
        digits_value(s)
    }
}

/// The number of bytes that a unit letter of the size column stands for
/// (a space for plain bytes).
pub open spec fn letter_bytes(c: char) -> int {
    if c == ' ' {
        1
    } else if c == 'k' {
        1024
    } else if c == 'M' {
        1048576
    } else if c == 'G' {
        1073741824
    } else {
        0
    }
}

/// Whether the five characters `t` read back as `size`: the unit letter is
/// the one for the range the size falls in (bytes below 1024, kilobytes
/// below 1023.5 kilobytes, megabytes below 1023.5 megabytes, gigabytes
/// beyond), and the number in the first four columns, below 1024, times the
/// unit is the size to within half a unit (exactly for plain bytes).
pub open spec fn reads_back(t: Seq<char>, size: nat) -> bool {
    let v = column_value(t.take(4));
    let u = letter_bytes(t[4]);
    &&& t.len() == 5
    &&& (t[4] == ' ') == (size < 1024)
    &&& (t[4] == 'k') == (1024 <= size < 1048064)
    &&& (t[4] == 'M') == (1048064 <= size < 1073217536)
    &&& (t[4] == 'G') == (1073217536 <= size)
    &&& 0 <= v < 1024
    &&& v * u <= size + u / 2
    &&& size < v * u + u / 2 || (u == 1 && v == size)
}

/// The digits of a decimal rendering have the rendered value.
proof fn lemma_digits_value(n: nat)
    ensures
        digits_value(decimal(n)) == n,
    decreases n,
{
    let last = n % 10;
    assert(digit_char(last) as int == 48 + last);
    if n >= 10 {
        lemma_digits_value(n / 10);
        let d = decimal(n / 10).push(digit_char(n % 10));
        assert(d.drop_last() =~= decimal(n / 10));
        assert(d.last() == digit_char(last));
        assert(digits_value(d) == digits_value(decimal(n / 10)) * 10 + last);
        vstd::arithmetic::div_mod::lemma_fundamental_div_mod(n as int, 10);
        assert(decimal(n) == d);
        assert(digits_value(decimal(n / 10)) == n / 10);
        assert(digits_value(d) == n);
    } else {
        let d = seq![digit_char(n)];
        assert(d.drop_last() =~= Seq::<char>::empty());
        assert(digits_value(d.drop_last()) == 0);
        assert(d.last() == digit_char(n));
        assert(digits_value(d) == n);
        assert(decimal(n) == d);
    }
}

/// Spaces on the left of a number do not change its value.
proof fn lemma_column_value_padded(k: nat, n: nat)
    ensures
        column_value(repeat_char(' ', k) + decimal(n)) == n,
    decreases k,
{
    let t = repeat_char(' ', k) + decimal(n);
    if k == 0 {
        assert(t =~= decimal(n));
        lemma_decimal_digits(n);
        assert('0' <= decimal(n)[0] <= '9');
        lemma_digits_value(n);
    } else {
        assert(t[0] == ' ');
        assert(t.drop_first() =~= repeat_char(' ', (k - 1) as nat) + decimal(n));
        lemma_column_value_padded((k - 1) as nat, n);
    }
}

/// The size column reads back as the size it shows.
pub proof fn lemma_size_text_reads_back(size: nat)
    requires
        size < SIZE_LIMIT,
    ensures
        reads_back(size_text(size), size),
{
    lemma_scale_exists(size);
    lemma_scale_is_nearest(size);
    lemma_rounded_parts(size, 1);
    lemma_rounded_parts(size, 2);
    lemma_rounded_parts(size, 3);
    let (n, i) = scale_of(size).unwrap();
    crate::text::lemma_decimal_len(n);
    let p = pad_left(decimal(n), 4, ' ');
    let t = size_text(size);
    assert(p =~= repeat_char(' ', (4 - decimal(n).len()) as nat) + decimal(n));
    lemma_column_value_padded((4 - decimal(n).len()) as nat, n);
    assert(t.take(4) =~= p);
    assert(t[4] == unit_text(i)[0]);
    assert(letter_bytes(t[4]) == unit_bytes(i));
}

/// Quotient and remainder of a size by the unit of scale `i`.
proof fn lemma_rounded_parts(size: nat, i: nat)
    requires
        1 <= i <= 3,
    ensures
        size == unit_bytes(i) * (size / unit_bytes(i)) + size % unit_bytes(i),
        0 <= size % unit_bytes(i) < unit_bytes(i),
        rounded(size, i) == size / unit_bytes(i) + if size % unit_bytes(i) >= unit_bytes(i) / 2 {
            1nat
        } else {
            0nat
        },
{
    vstd::arithmetic::div_mod::lemma_fundamental_div_mod(size as int, unit_bytes(i) as int);
}

/// A size has a scale exactly when it is below the limit.
proof fn lemma_scale_exists(size: nat)
    ensures
        scale_of(size) is Some <==> size < SIZE_LIMIT,
{
    lemma_rounded_parts(size, 1);
    lemma_rounded_parts(size, 2);
    lemma_rounded_parts(size, 3);
}

/// The number shown times its unit is within half a unit of the size, the
/// number is below 1024, and no smaller unit would show a number below 1024.
#[verifier::spinoff_prover]
pub proof fn lemma_scale_is_nearest(size: nat)
    requires
        size < SIZE_LIMIT,
    ensures
        scale_of(size) matches Some((n, i)) && {
            &&& n < 1024
            &&& i <= 3
            &&& n * unit_bytes(i) <= size + unit_bytes(i) / 2
            &&& size < n * unit_bytes(i) + unit_bytes(i) / 2 || i == 0 && n == size
            &&& forall|j: nat| j < i ==> rounded(size, j) >= 1024
        },
{
    lemma_scale_exists(size);
    let (n, i) = scale_of(size).unwrap();
    assert forall|j: nat| j < i implies rounded(size, j) >= 1024 by {
        assert(j == 0 || j == 1 || j == 2);
    }
    let d = unit_bytes(i);
    if i == 0 {
        assert(n * d == n) by (nonlinear_arith)
            requires
                d == 1,
        ;
    } else {
        lemma_rounded_parts(size, i);
        let q = size / d;
        let r = size % d;
        let h = d / 2;
        assert(d == 2 * h && h > 0);
        if r >= h {
            assert(n == q + 1);
            assert(n * d == d * q + d) by (nonlinear_arith)
                requires
                    n == q + 1,
            ;
        } else {
            assert(n == q);
            assert(n * d == d * q) by (nonlinear_arith)
                requires
                    n == q,
            ;
        }
    }
}

} // verus!
