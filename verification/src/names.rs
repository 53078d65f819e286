//! The order in which a listing shows file names: by their characters,
//! compared one by one as Unicode scalar values.
use vstd::prelude::*;
use vstd::utf8::{
    encode_scalar,
    encode_utf8,
    is_scalar,
    has_width_1_encoding,
    has_width_2_encoding,
    has_width_3_encoding,
    has_width_4_encoding,
    leading_byte_width_1,
    leading_byte_width_2,
    leading_byte_width_3,
    leading_byte_width_4,
    last_continuation_byte,
    second_last_continuation_byte,
    third_last_continuation_byte,
    char_is_scalar,
};

verus! {

/// Whether name `a` comes strictly before name `b`: at the first position
/// where they differ the character of `a` has the smaller scalar value, or
/// `a` is a proper prefix of `b`.
pub open spec fn name_less(a: Seq<char>, b: Seq<char>) -> bool
    decreases a.len(),
{
    if a.len() == 0 {
        b.len() > 0
    } else if b.len() == 0 {
        false
    } else if a[0] != b[0] {
        (a[0] as int) < (b[0] as int)
    } else {
        name_less(a.drop_first(), b.drop_first())
    }
}

/// No name comes before itself.
pub proof fn lemma_name_less_irreflexive(a: Seq<char>)
    ensures
        !name_less(a, a),
    decreases a.len(),
{
    if a.len() > 0 {
        lemma_name_less_irreflexive(a.drop_first());
    }
}

/// Of two names, at most one comes before the other.
pub proof fn lemma_name_less_asymmetric(a: Seq<char>, b: Seq<char>)
    ensures
        name_less(a, b) ==> !name_less(b, a),
    decreases a.len(),
{
    if a.len() > 0 && b.len() > 0 && a[0] == b[0] {
        lemma_name_less_asymmetric(a.drop_first(), b.drop_first());
    }
}

/// The order of names is transitive.
pub proof fn lemma_name_less_transitive(a: Seq<char>, b: Seq<char>, c: Seq<char>)
    requires
        name_less(a, b),
        name_less(b, c),
    ensures
        name_less(a, c),
    decreases a.len(),
{
    if a.len() > 0 && b.len() > 0 && c.len() > 0 && a[0] == b[0] && b[0] == c[0] {
        lemma_name_less_transitive(a.drop_first(), b.drop_first(), c.drop_first());
    }
}

/// Of two different names, one comes before the other.
pub proof fn lemma_name_less_total(a: Seq<char>, b: Seq<char>)
    ensures
        a != b ==> name_less(a, b) || name_less(b, a),
    decreases a.len(),
{
    if a.len() > 0 && b.len() > 0 {
        if a[0] == b[0] {
            lemma_name_less_total(a.drop_first(), b.drop_first());
            if a.drop_first() == b.drop_first() {
                assert(a =~= seq![a[0]] + a.drop_first());
                assert(b =~= seq![b[0]] + b.drop_first());
            }
        }
    } else if a.len() == 0 && b.len() == 0 {
        assert(a =~= b);
    }
}

/// Whether name `a` comes strictly before name `b`.
pub fn name_before(a: &str, b: &str) -> (r: bool)
    ensures
        r == name_less(a@, b@),
{
    let x = chars_of(a);
    let y = chars_of(b);
    let mut i: usize = 0;
    assert(x@.skip(0) =~= x@);
    assert(y@.skip(0) =~= y@);
    while i < x.len() && i < y.len() && x[i] == y[i]
        invariant
            i <= x@.len(),
            i <= y@.len(),
            name_less(x@, y@) == name_less(x@.skip(i as int), y@.skip(i as int)),
        decreases x.len() - i,
    {
        proof {
            let xs = x@.skip(i as int);
            let ys = y@.skip(i as int);
            assert(xs.drop_first() =~= x@.skip(i + 1));
            assert(ys.drop_first() =~= y@.skip(i + 1));
        }
        i = i + 1;
    }
    proof {
        let xs = x@.skip(i as int);
        let ys = y@.skip(i as int);
        assert(xs.len() == x@.len() - i);
        assert(ys.len() == y@.len() - i);
    }
    if i == x.len() {
        i < y.len()
    } else if i == y.len() {
        false
    } else {
        let cx = x[i];
        let cy = y[i];
        proof {
            assert(x@.skip(i as int)[0] == cx);
            assert(y@.skip(i as int)[0] == cy);
        }
        cx < cy
    }
}

/// The characters of a text, as a vector.
pub fn chars_of(s: &str) -> (v: Vec<char>)
    ensures
        v@ == s@,
{
    let mut v: Vec<char> = Vec::new();
    for c in it: s.chars()
        invariant
            it.seq() == s@,
            v@ == s@.take(it.index() as int),
    {
        v.push(c);
        assert(v@ =~= s@.take(it.index() + 1));
    }
    assert(v@ =~= s@);
    v
}

/// Whether byte string `a` comes strictly before byte string `b`: at the
/// first position where they differ the byte of `a` is smaller, or `a` is a
/// proper prefix of `b`. This is how Rust orders `str` and `String` values:
/// by the bytes of their UTF-8 encodings.
pub open spec fn bytes_less(a: Seq<u8>, b: Seq<u8>) -> bool
    decreases a.len(),
{
    if a.len() == 0 {
        b.len() > 0
    } else if b.len() == 0 {
        false
    } else if a[0] != b[0] {
        a[0] < b[0]
    } else {
        bytes_less(a.drop_first(), b.drop_first())
    }
}

/// Two byte strings that agree before position `k` and differ at it are
/// ordered by their bytes at `k`.
proof fn lemma_bytes_less_at(a: Seq<u8>, b: Seq<u8>, k: int)
    requires
        0 <= k < a.len(),
        k < b.len(),
        forall|i: int| 0 <= i < k ==> a[i] == b[i],
        a[k] != b[k],
    ensures
        bytes_less(a, b) == (a[k] < b[k]),
    decreases k,
{
    if k > 0 {
        assert(a[0] == b[0]);
        lemma_bytes_less_at(a.drop_first(), b.drop_first(), k - 1);
    }
}

/// A common prefix does not change the order of two byte strings.
proof fn lemma_bytes_less_common_prefix(p: Seq<u8>, u: Seq<u8>, v: Seq<u8>)
    ensures
        bytes_less(p + u, p + v) == bytes_less(u, v),
    decreases p.len(),
{
    if p.len() > 0 {
        assert((p + u).drop_first() =~= p.drop_first() + u);
        assert((p + v).drop_first() =~= p.drop_first() + v);
        lemma_bytes_less_common_prefix(p.drop_first(), u, v);
    } else {
        assert(p + u =~= u);
        assert(p + v =~= v);
    }
}

/// The leading bytes of the UTF-8 encodings of scalars of different widths
/// are ordered as the widths are.
proof fn lemma_leading_bytes(x: u32)
    by (bit_vector)
    ensures
        has_width_1_encoding(x) ==> leading_byte_width_1(x) < 0x80,
        has_width_2_encoding(x) ==> 0xC0 <= leading_byte_width_2(x) < 0xE0,
        has_width_3_encoding(x) ==> 0xE0 <= leading_byte_width_3(x) < 0xF0,
        has_width_4_encoding(x) ==> 0xF0 <= leading_byte_width_4(x),
{
}

/// Within one encoding width, the bytes of the UTF-8 encodings order two
/// scalars as their values do, byte by byte.
proof fn lemma_width_1_order(x: u32, y: u32)
    by (bit_vector)
    requires
        has_width_1_encoding(x),
        has_width_1_encoding(y),
        x != y,
    ensures
        leading_byte_width_1(x) != leading_byte_width_1(y),
        (leading_byte_width_1(x) < leading_byte_width_1(y)) == (x < y),
{
}

proof fn lemma_width_2_order(x: u32, y: u32)
    by (bit_vector)
    requires
        has_width_2_encoding(x),
        has_width_2_encoding(y),
        x != y,
    ensures
        leading_byte_width_2(x) != leading_byte_width_2(y) ==> (leading_byte_width_2(x)
            < leading_byte_width_2(y)) == (x < y),
        leading_byte_width_2(x) == leading_byte_width_2(y) ==> last_continuation_byte(x)
            != last_continuation_byte(y) && (last_continuation_byte(x) < last_continuation_byte(
            y,
        )) == (x < y),
{
}

proof fn lemma_width_3_order(x: u32, y: u32)
    by (bit_vector)
    requires
        has_width_3_encoding(x),
        has_width_3_encoding(y),
        x != y,
    ensures
        leading_byte_width_3(x) != leading_byte_width_3(y) ==> (leading_byte_width_3(x)
            < leading_byte_width_3(y)) == (x < y),
        leading_byte_width_3(x) == leading_byte_width_3(y) && second_last_continuation_byte(x)
            != second_last_continuation_byte(y) ==> (second_last_continuation_byte(x)
            < second_last_continuation_byte(y)) == (x < y),
        leading_byte_width_3(x) == leading_byte_width_3(y) && second_last_continuation_byte(x)
            == second_last_continuation_byte(y) ==> last_continuation_byte(x)
            != last_continuation_byte(y) && (last_continuation_byte(x) < last_continuation_byte(
            y,
        )) == (x < y),
{
}

proof fn lemma_width_4_order(x: u32, y: u32)
    by (bit_vector)
    requires
        has_width_4_encoding(x),
        has_width_4_encoding(y),
        x != y,
    ensures
        leading_byte_width_4(x) != leading_byte_width_4(y) ==> (leading_byte_width_4(x)
            < leading_byte_width_4(y)) == (x < y),
        leading_byte_width_4(x) == leading_byte_width_4(y) && third_last_continuation_byte(x)
            != third_last_continuation_byte(y) ==> (third_last_continuation_byte(x)
            < third_last_continuation_byte(y)) == (x < y),
        leading_byte_width_4(x) == leading_byte_width_4(y) && third_last_continuation_byte(x)
            == third_last_continuation_byte(y) && second_last_continuation_byte(x)
            != second_last_continuation_byte(y) ==> (second_last_continuation_byte(x)
            < second_last_continuation_byte(y)) == (x < y),
        leading_byte_width_4(x) == leading_byte_width_4(y) && third_last_continuation_byte(x)
            == third_last_continuation_byte(y) && second_last_continuation_byte(x)
            == second_last_continuation_byte(y) ==> last_continuation_byte(x)
            != last_continuation_byte(y) && (last_continuation_byte(x) < last_continuation_byte(
            y,
        )) == (x < y),
{
}

/// The width class of a scalar, from 1 to 4.
spec fn width(x: u32) -> int {
    if has_width_1_encoding(x) {
        1
    } else if has_width_2_encoding(x) {
        2
    } else if has_width_3_encoding(x) {
        3
    } else {
        4
    }
}

/// Whatever follows them, the UTF-8 encodings of two different scalars
/// are ordered as the scalars are.
proof fn lemma_scalar_order(x: u32, y: u32, u: Seq<u8>, v: Seq<u8>)
    requires
        is_scalar(x),
        is_scalar(y),
        x != y,
    ensures
        bytes_less(encode_scalar(x) + u, encode_scalar(y) + v) == (x < y),
{
    let a = encode_scalar(x) + u;
    let b = encode_scalar(y) + v;
    lemma_leading_bytes(x);
    lemma_leading_bytes(y);
    if width(x) != width(y) {
        assert(a[0] != b[0]);
        assert((a[0] < b[0]) == (x < y));
        lemma_bytes_less_at(a, b, 0);
    } else if width(x) == 1 {
        lemma_width_1_order(x, y);
        lemma_bytes_less_at(a, b, 0);
    } else if width(x) == 2 {
        lemma_width_2_order(x, y);
        if a[0] != b[0] {
            lemma_bytes_less_at(a, b, 0);
        } else {
            lemma_bytes_less_at(a, b, 1);
        }
    } else if width(x) == 3 {
        lemma_width_3_order(x, y);
        if a[0] != b[0] {
            lemma_bytes_less_at(a, b, 0);
        } else if a[1] != b[1] {
            lemma_bytes_less_at(a, b, 1);
        } else {
            lemma_bytes_less_at(a, b, 2);
        }
    } else {
        lemma_width_4_order(x, y);
        if a[0] != b[0] {
            lemma_bytes_less_at(a, b, 0);
        } else if a[1] != b[1] {
            lemma_bytes_less_at(a, b, 1);
        } else if a[2] != b[2] {
            lemma_bytes_less_at(a, b, 2);
        } else {
            lemma_bytes_less_at(a, b, 3);
        }
    }
}

/// A character's scalar value is the same whether read as a `u32` or as an
/// integer.
proof fn lemma_char_value(c: char)
    ensures
        (c as u32) as int == c as int,
{
    char_is_scalar(c);
}

/// The order of names is the order of their UTF-8 encodings, byte by
/// byte: the order in which Rust compares `String` values.
pub proof fn lemma_name_order_is_byte_order(a: Seq<char>, b: Seq<char>)
    ensures
        name_less(a, b) == bytes_less(encode_utf8(a), encode_utf8(b)),
    decreases a.len(),
{
    if a.len() == 0 {
        if b.len() > 0 {
            char_is_scalar(b[0]);
        }
    } else if b.len() == 0 {
        char_is_scalar(a[0]);
    } else {
        char_is_scalar(a[0]);
        char_is_scalar(b[0]);
        let ea = encode_scalar(a[0] as u32);
        let eb = encode_scalar(b[0] as u32);
        if a[0] == b[0] {
            lemma_name_order_is_byte_order(a.drop_first(), b.drop_first());
            lemma_bytes_less_common_prefix(ea, encode_utf8(a.drop_first()), encode_utf8(b.drop_first()));
        } else {
            lemma_char_value(a[0]);
            lemma_char_value(b[0]);
            assert((a[0] as u32) != (b[0] as u32));
            lemma_scalar_order(a[0] as u32, b[0] as u32, encode_utf8(a.drop_first()), encode_utf8(b.drop_first()));
            assert(((a[0] as u32) < (b[0] as u32)) == ((a[0] as int) < (b[0] as int)));
        }
    }
}

} // verus!
