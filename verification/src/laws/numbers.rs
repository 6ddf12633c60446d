//! Numbers: how handles, times and counts are written, ordered and added.

use crate::handles::{
    bytes_of_u32, bytes_of_u64, decode_encode_u32, decode_encode_u64, encode_decode_u32,
    encode_decode_u64, field32, field64,
};
use crate::logical_time::{
    before, is_duration, is_finite, lemma_plus_is_nearest, lemma_value_increases, magnitude,
    not_after, plus, value, INFINITY, NEGATIVE_ZERO,
};
use crate::subscriptions::{lemma_pair_key, pair_key};
use crate::text::{decimal_of, hex_of, signed_decimal_of};
use vstd::arithmetic::power2::pow2;
use vstd::prelude::*;

verus! {

/// The bytes of a handle are those of its number, the most significant first.
pub proof fn handles_travel_with_the_greatest_byte_first(h: u32, long: u64)
    ensures
        ({
            let b = bytes_of_u32(h);
            &&& b.len() == 4
            &&& h == b[0] * 0x100_0000 + b[1] * 0x1_0000 + b[2] * 0x100 + b[3]
        }),
        ({
            let b = bytes_of_u64(long);
            &&& b.len() == 8
            &&& long == b[0] * 0x100_0000_0000_0000 + b[1] * 0x1_0000_0000_0000 + b[2]
                * 0x100_0000_0000 + b[3] * 0x1_0000_0000 + b[4] * 0x100_0000 + b[5] * 0x1_0000
                + b[6] * 0x100 + b[7]
        }),
{
}

/// A field is read as a handle exactly where it has the bytes of that handle.
pub proof fn a_handle_is_read_as_it_was_written(field: Option<Vec<u8>>, h: u32, long: u64)
    ensures
        field32(field) == Some(h) <==> (field matches Some(b) && b@ == bytes_of_u32(h)),
        field64(field) == Some(long) <==> (field matches Some(b) && b@ == bytes_of_u64(long)),
        field32(field) is None <==> !(field matches Some(b) && b@.len() == 4),
        field64(field) is None <==> !(field matches Some(b) && b@.len() == 8),
{
    decode_encode_u32(h);
    decode_encode_u64(long);
    if let Some(b) = field {
        if b@.len() == 4 {
            encode_decode_u32(b@);
        }
        if b@.len() == 8 {
            encode_decode_u64(b@);
        }
    }
}

/// A class and an attribute of it have a key of their own.
pub proof fn every_attribute_has_its_own_key(class: u32, attr: u32, other: u32, another: u32)
    ensures
        pair_key(class, attr) == pair_key(other, another) <==> class == other && attr == another,
{
    lemma_pair_key(class, attr);
    lemma_pair_key(other, another);
}

/// What a figure stands for.
pub open spec fn figure(c: char) -> int {
    let n = c as u32;
    if 0x30 <= n <= 0x39 {
        n - 0x30
    } else if 0x41 <= n <= 0x46 {
        n - 0x37
    } else {
        -1
    }
}

/// The number that is written in figures of a base.
pub open spec fn reads(s: Seq<char>, base: int) -> int
    decreases s.len(),
{
    if s.len() == 0 {
        0
    } else {
        reads(s.drop_last(), base) * base + figure(s.last())
    }
}

/// A number in decimal is written in figures up to nine that stand for it, and begins with
/// none that could be left out; a sign precedes one below zero.
pub proof fn a_number_is_read_as_it_was_written(n: nat)
    ensures
        reads(decimal_of(n), 10) == n,
        decimal_of(n).len() > 0,
        forall|i: int| 0 <= i < decimal_of(n).len() ==> 0 <= figure(#[trigger] decimal_of(n)[i]) <= 9,
        figure(decimal_of(n)[0]) == 0 ==> n == 0,
        n > 0 ==> signed_decimal_of(-n) == seq!['-'] + decimal_of(n),
        signed_decimal_of(n as int) == decimal_of(n),
    decreases n,
{
    let s = decimal_of(n);
    if n < 10 {
        assert(s.drop_last() =~= Seq::empty());
        reveal_with_fuel(reads, 2);
    } else {
        let rest = decimal_of(n / 10);
        a_number_is_read_as_it_was_written(n / 10);
        assert(s.drop_last() =~= rest);
        assert(s[0] == rest[0]);
        assert forall|i: int| 0 <= i < s.len() implies 0 <= figure(#[trigger] s[i]) <= 9 by {
            if i < rest.len() {
                assert(s[i] == rest[i]);
            }
        }
    }
}

/// Powers of sixteen.
pub open spec fn sixteens(count: nat) -> int
    decreases count,
{
    if count == 0 {
        1
    } else {
        16 * sixteens((count - 1) as nat)
    }
}

/// A number below a power of sixteen is written in that many figures that stand for it.
pub proof fn a_number_is_read_as_it_was_written_in_sixteens(n: nat, count: nat)
    requires
        n < sixteens(count),
    ensures
        hex_of(n, count).len() == count,
        reads(hex_of(n, count), 16) == n,
    decreases count,
{
    if count > 0 {
        let s = hex_of(n, count);
        let rest = hex_of(n / 16, (count - 1) as nat);
        a_number_is_read_as_it_was_written_in_sixteens(n / 16, (count - 1) as nat);
        assert(s.drop_last() =~= rest);
    }
}

/// Federates that are named after their handles have names of their own.
pub proof fn names_after_handles_differ(h: u32, g: u32)
    ensures
        hex_of(h as nat, 8) == hex_of(g as nat, 8) <==> h == g,
{
    reveal_with_fuel(sixteens, 9);
    a_number_is_read_as_it_was_written_in_sixteens(h as nat, 8);
    a_number_is_read_as_it_was_written_in_sixteens(g as nat, 8);
}

/// The sign of a time left out.
pub open spec fn unsigned_bits(t: u64) -> int {
    t as int % 0x8000_0000_0000_0000
}

/// Whether the bits of a time are a number; infinity counts as one.
pub open spec fn is_number(t: u64) -> bool {
    unsigned_bits(t) <= 0x7ff0_0000_0000_0000
}

/// How much a time is, counted in the least that there is above zero: eleven bits say how
/// often the fifty-two bits after them are doubled.
pub open spec fn amount(t: u64) -> int {
    let m = unsigned_bits(t);
    let doubled = m / 0x10_0000_0000_0000;
    let rest = m % 0x10_0000_0000_0000;
    let size = if doubled == 0 {
        rest
    } else {
        (0x10_0000_0000_0000 + rest) * pow2((doubled - 1) as nat)
    };
    if t >= 0x8000_0000_0000_0000 {
        -size
    } else {
        size
    }
}

proof fn lemma_amount(t: u64)
    ensures
        unsigned_bits(t) == magnitude(t),
        amount(t) == (if t >= NEGATIVE_ZERO {
            -value(magnitude(t))
        } else {
            value(magnitude(t))
        }),
        value(magnitude(t)) >= 0,
        value(magnitude(t)) == 0 <==> magnitude(t) == 0,
{
    assert(value(0) == 0);
    if magnitude(t) > 0 {
        lemma_value_increases(0, magnitude(t));
    }
}

/// Times are ordered by how much they are, and what is no number comes neither before nor
/// after anything. A duration is finite and not less than zero.
pub proof fn times_are_ordered_by_how_much_they_are(a: u64, b: u64)
    ensures
        before(a, b) <==> is_number(a) && is_number(b) && amount(a) < amount(b),
        not_after(a, b) <==> is_number(a) && is_number(b) && amount(a) <= amount(b),
        is_finite(a) <==> unsigned_bits(a) < 0x7ff0_0000_0000_0000,
        is_duration(a) <==> is_finite(a) && amount(a) >= 0,
{
    lemma_amount(a);
    lemma_amount(b);
    let x = magnitude(a);
    let y = magnitude(b);
    if x < y {
        lemma_value_increases(x, y);
    }
    if y < x {
        lemma_value_increases(y, x);
    }
}

/// How far two amounts are apart.
pub open spec fn apart(a: int, b: int) -> int {
    if a < b {
        b - a
    } else {
        a - b
    }
}

/// The sum of two durations is a number not below zero, and none is nearer to what the two
/// are together.
pub proof fn a_sum_is_the_nearest_there_is(a: u64, b: u64, other: u64)
    requires
        is_duration(a),
        is_duration(b),
        is_number(other),
    ensures
        is_number(plus(a, b)),
        amount(plus(a, b)) >= 0,
        apart(amount(plus(a, b)), amount(a) + amount(b)) <= apart(
            amount(other),
            amount(a) + amount(b),
        ),
{
    lemma_amount(a);
    lemma_amount(b);
    lemma_amount(other);
    lemma_amount(plus(a, b));
    if a != NEGATIVE_ZERO && b != NEGATIVE_ZERO {
        let s = amount(a) + amount(b);
        let r = plus(a, b) as int;
        let y = magnitude(other);
        lemma_plus_is_nearest(a, b);
        assert(0 <= r <= INFINITY);
        if y > r {
            lemma_value_increases(r, r + 1);
            if y > r + 1 {
                lemma_value_increases(r + 1, y);
            }
        }
        if y < r {
            lemma_value_increases(r - 1, r);
            if y < r - 1 {
                lemma_value_increases(y, r - 1);
            }
        }
        if r > 0 {
            lemma_value_increases(r - 1, r);
            if r > 1 {
                lemma_value_increases(0, r - 1);
            }
        }
        assert(value(0) == 0);
    }
}

} // verus!
