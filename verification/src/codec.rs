use vstd::prelude::*;
use vstd::arithmetic::div_mod::{
    lemma_breakdown, lemma_div_denominator, lemma_fundamental_div_mod,
    lemma_fundamental_div_mod_converse, lemma_mod_multiples_basic, lemma_multiply_divide_lt,
};

verus! {

// A fingerprint's canonical binary form packs its bits into bytes of eight,
// most-significant-bit first, in the same row-major order the generator
// emits; a final partial byte is padded with zero bits. The canonical text
// form is lowercase hexadecimal, two digits per byte. The spec functions
// here define both forms and the decoding direction, and the lemmas
// culminate in the round-trip law: decoding a fingerprint's hex encoding
// and re-encoding it yields the identical string.

/// Two to the `n`th power.
pub open spec fn two_pow(n: nat) -> nat
    decreases n,
{
    if n == 0 {
        1
    } else {
        2 * two_pow((n - 1) as nat)
    }
}

/// The value of a bit sequence read most-significant-bit first.
pub open spec fn chunk_val(c: Seq<bool>) -> nat
    decreases c.len(),
{
    if c.len() == 0 {
        0
    } else {
        2 * chunk_val(c.drop_last()) + if c.last() {
            1nat
        } else {
            0nat
        }
    }
}

/// The `n` low bits of `v`, most significant first.
pub open spec fn val_bits(v: nat, n: nat) -> Seq<bool>
    decreases n,
{
    if n == 0 {
        Seq::empty()
    } else {
        val_bits(v / 2, (n - 1) as nat).push(v % 2 == 1)
    }
}

/// Number of bytes needed to hold `n` bits: `n / 8`, rounded up.
pub open spec fn byte_count(n: nat) -> nat {
    (n + 7) / 8
}

/// The bit sequence padded with zero bits up to a whole number of bytes.
pub open spec fn padded_bits(bits: Seq<bool>) -> Seq<bool> {
    bits + Seq::new((8 * byte_count(bits.len()) - bits.len()) as nat, |i: int| false)
}

/// The packed byte form: bits grouped eight per byte, most significant first.
pub open spec fn pack_bytes(bits: Seq<bool>) -> Seq<u8> {
    Seq::new(
        byte_count(bits.len()),
        |i: int| chunk_val(padded_bits(bits).subrange(8 * i, 8 * i + 8)) as u8,
    )
}

/// The bits denoted by a byte sequence: eight per byte, most significant first.
pub open spec fn bytes_bits(bs: Seq<u8>) -> Seq<bool>
    decreases bs.len(),
{
    if bs.len() == 0 {
        Seq::empty()
    } else {
        bytes_bits(bs.drop_last()) + val_bits(bs.last() as nat, 8)
    }
}

/// The lowercase hex digit for a value below sixteen.
pub open spec fn hex_char_of(v: nat) -> char {
    if v == 0 {
        '0'
    } else if v == 1 {
        '1'
    } else if v == 2 {
        '2'
    } else if v == 3 {
        '3'
    } else if v == 4 {
        '4'
    } else if v == 5 {
        '5'
    } else if v == 6 {
        '6'
    } else if v == 7 {
        '7'
    } else if v == 8 {
        '8'
    } else if v == 9 {
        '9'
    } else if v == 10 {
        'a'
    } else if v == 11 {
        'b'
    } else if v == 12 {
        'c'
    } else if v == 13 {
        'd'
    } else if v == 14 {
        'e'
    } else {
        'f'
    }
}

/// Whether `c` is a lowercase hex digit.
pub open spec fn is_hex_char(c: char) -> bool {
    c == '0' || c == '1' || c == '2' || c == '3' || c == '4' || c == '5' || c == '6' || c == '7'
        || c == '8' || c == '9' || c == 'a' || c == 'b' || c == 'c' || c == 'd' || c == 'e'
        || c == 'f'
}

/// The value of a lowercase hex digit (zero for any other character).
pub open spec fn hex_val_of(c: char) -> nat {
    if c == '0' {
        0
    } else if c == '1' {
        1
    } else if c == '2' {
        2
    } else if c == '3' {
        3
    } else if c == '4' {
        4
    } else if c == '5' {
        5
    } else if c == '6' {
        6
    } else if c == '7' {
        7
    } else if c == '8' {
        8
    } else if c == '9' {
        9
    } else if c == 'a' {
        10
    } else if c == 'b' {
        11
    } else if c == 'c' {
        12
    } else if c == 'd' {
        13
    } else if c == 'e' {
        14
    } else if c == 'f' {
        15
    } else {
        0
    }
}

/// Whether every character of `h` is a lowercase hex digit.
pub open spec fn is_hex_seq(h: Seq<char>) -> bool {
    forall|i: int| 0 <= i < h.len() ==> is_hex_char(#[trigger] h[i])
}

/// The hex text of a byte sequence: two digits per byte, high nibble first.
pub open spec fn hex_of_bytes(bs: Seq<u8>) -> Seq<char> {
    Seq::new(
        2 * bs.len(),
        |i: int|
            hex_char_of(
                if i % 2 == 0 {
                    (bs[i / 2] / 16) as nat
                } else {
                    (bs[i / 2] % 16) as nat
                },
            ),
    )
}

/// The bits denoted by a hex digit sequence: four per digit, most
/// significant first.
pub open spec fn hex_bits(h: Seq<char>) -> Seq<bool>
    decreases h.len(),
{
    if h.len() == 0 {
        Seq::empty()
    } else {
        hex_bits(h.drop_last()) + val_bits(hex_val_of(h.last()), 4)
    }
}

pub proof fn lemma_two_pow_pos(n: nat)
    ensures
        two_pow(n) >= 1,
    decreases n,
{
    if n > 0 {
        lemma_two_pow_pos((n - 1) as nat);
    }
}

pub proof fn lemma_two_pow_mono(a: nat, b: nat)
    requires
        a <= b,
    ensures
        two_pow(a) <= two_pow(b),
    decreases b,
{
    if a < b {
        lemma_two_pow_mono(a, (b - 1) as nat);
    }
}

pub proof fn lemma_two_pow_vals()
    ensures
        two_pow(4) == 16,
        two_pow(7) == 128,
        two_pow(8) == 256,
{
    reveal_with_fuel(two_pow, 9);
}

pub proof fn lemma_val_bits_len(v: nat, n: nat)
    ensures
        val_bits(v, n).len() == n,
    decreases n,
{
    if n > 0 {
        lemma_val_bits_len(v / 2, (n - 1) as nat);
    }
}

pub proof fn lemma_chunk_val_bound(c: Seq<bool>)
    ensures
        chunk_val(c) < two_pow(c.len()),
    decreases c.len(),
{
    if c.len() > 0 {
        lemma_chunk_val_bound(c.drop_last());
    }
}

/// Writing a value of at most `n` bits and reading it back reproduces it.
pub proof fn lemma_chunk_val_of_val_bits(v: nat, n: nat)
    requires
        v < two_pow(n),
    ensures
        chunk_val(val_bits(v, n)) == v,
    decreases n,
{
    lemma_val_bits_len(v, n);
    if n == 0 {
        assert(v == 0);
    } else {
        lemma_chunk_val_of_val_bits(v / 2, (n - 1) as nat);
        let c = val_bits(v, n);
        assert(c.drop_last() =~= val_bits(v / 2, (n - 1) as nat));
        assert(v / 2 < two_pow((n - 1) as nat)) by {
            lemma_multiply_divide_lt(v as int, 2, two_pow((n - 1) as nat) as int);
        }
        assert(v == 2 * (v / 2) + v % 2) by {
            lemma_fundamental_div_mod(v as int, 2);
        }
    }
}

/// Splitting a `m + n`-bit write at bit `n`: the high `m` bits hold the
/// quotient by `2^n`, the low `n` bits the remainder.
pub proof fn lemma_val_bits_concat(v: nat, m: nat, n: nat)
    ensures
        val_bits(v, (m + n) as nat) == val_bits(v / two_pow(n), m) + val_bits(
            v % two_pow(n),
            n,
        ),
    decreases n,
{
    lemma_two_pow_pos(n);
    lemma_val_bits_len(v, (m + n) as nat);
    lemma_val_bits_len(v / two_pow(n), m);
    lemma_val_bits_len(v % two_pow(n), n);
    if n == 0 {
        assert(v % 1 == 0);
        assert(v / 1 == v);
        assert(val_bits(v, (m + 0) as nat) =~= val_bits(v / two_pow(0), m) + val_bits(
            v % two_pow(0),
            0,
        ));
    } else {
        let n1 = (n - 1) as nat;
        lemma_two_pow_pos(n1);
        let k1 = two_pow(n1) as int;
        let k = 2 * k1;
        assert(two_pow(n) == k);
        let vi = v as int;
        lemma_div_denominator(vi, 2, k1);
        assert((vi / 2) / k1 == vi / k);
        lemma_breakdown(vi, 2, k1);
        assert(vi % k == 2 * ((vi / 2) % k1) + vi % 2);
        lemma_fundamental_div_mod_converse(vi % k, 2, (vi / 2) % k1, vi % 2);
        assert((vi % k) / 2 == (vi / 2) % k1);
        assert((vi % k) % 2 == vi % 2);
        lemma_val_bits_concat(v / 2, m, n1);
        assert(val_bits((v / 2) as nat, (m + n1) as nat) == val_bits((v / 2) / two_pow(n1), m)
            + val_bits((v / 2) % two_pow(n1), n1));
        lemma_val_bits_len((v / 2) % two_pow(n1), n1);
        assert(val_bits(v, (m + n) as nat) =~= val_bits(v / two_pow(n), m) + val_bits(
            v % two_pow(n),
            n,
        ));
    }
}

/// The hex digit of a value below sixteen is a hex character denoting
/// that value.
pub proof fn lemma_hex_digit(v: nat)
    requires
        v < 16,
    ensures
        is_hex_char(hex_char_of(v)),
        hex_val_of(hex_char_of(v)) == v,
{
}

pub proof fn lemma_bytes_bits_len(bs: Seq<u8>)
    ensures
        bytes_bits(bs).len() == 8 * bs.len(),
    decreases bs.len(),
{
    if bs.len() > 0 {
        lemma_bytes_bits_len(bs.drop_last());
        lemma_val_bits_len(bs.last() as nat, 8);
    }
}

/// Byte `i` of a byte sequence contributes exactly bits `8i .. 8i + 8`.
pub proof fn lemma_bytes_bits_index(bs: Seq<u8>, i: int)
    requires
        0 <= i < bs.len(),
    ensures
        bytes_bits(bs).subrange(8 * i, 8 * i + 8) == val_bits(bs[i] as nat, 8),
    decreases bs.len(),
{
    lemma_bytes_bits_len(bs);
    lemma_bytes_bits_len(bs.drop_last());
    lemma_val_bits_len(bs.last() as nat, 8);
    if i == bs.len() - 1 {
        assert(bytes_bits(bs).subrange(8 * i, 8 * i + 8) =~= val_bits(bs[i] as nat, 8));
    } else {
        lemma_bytes_bits_index(bs.drop_last(), i);
        assert(bytes_bits(bs).subrange(8 * i, 8 * i + 8) =~= bytes_bits(
            bs.drop_last(),
        ).subrange(8 * i, 8 * i + 8));
    }
}

/// Packing the bits a byte sequence denotes reproduces the byte sequence.
pub proof fn lemma_pack_bytes_of_bytes_bits(bs: Seq<u8>)
    ensures
        pack_bytes(bytes_bits(bs)) == bs,
{
    let bits = bytes_bits(bs);
    lemma_bytes_bits_len(bs);
    let l = bs.len() as int;
    assert(byte_count(bits.len()) == l) by {
        lemma_fundamental_div_mod_converse(8 * l + 7, 8, l, 7);
    }
    assert(padded_bits(bits) =~= bits);
    lemma_two_pow_vals();
    assert forall|i: int| 0 <= i < l implies pack_bytes(bits)[i] == bs[i] by {
        lemma_bytes_bits_index(bs, i);
        lemma_chunk_val_of_val_bits(bs[i] as nat, 8);
    }
    assert(pack_bytes(bits) =~= bs);
}

/// The bits denoted by the hex text of a byte sequence are the bits the
/// byte sequence denotes.
pub proof fn lemma_hex_bits_of_bytes(bs: Seq<u8>)
    ensures
        hex_bits(hex_of_bytes(bs)) == bytes_bits(bs),
    decreases bs.len(),
{
    if bs.len() == 0 {
        assert(hex_of_bytes(bs) =~= Seq::<char>::empty());
    } else {
        let d = bs.drop_last();
        let b = bs.last() as nat;
        lemma_hex_bits_of_bytes(d);
        let h = hex_of_bytes(bs);
        let hd = hex_of_bytes(d);
        let chi = hex_char_of(b / 16);
        let clo = hex_char_of(b % 16);
        assert(h =~= hd.push(chi).push(clo));
        assert(b / 16 < 16) by {
            lemma_multiply_divide_lt(b as int, 16, 16);
        }
        lemma_hex_digit(b / 16);
        lemma_hex_digit(b % 16);
        assert(h.drop_last() =~= hd.push(chi));
        assert(hex_bits(h) == hex_bits(hd.push(chi)) + val_bits(b % 16, 4));
        assert(hd.push(chi).drop_last() =~= hd);
        assert(hex_bits(hd.push(chi)) == hex_bits(hd) + val_bits(b / 16, 4));
        lemma_val_bits_concat(b, 4, 4);
        lemma_two_pow_vals();
        assert(val_bits(b, 8) == val_bits(b / 16, 4) + val_bits(b % 16, 4));
        assert(hex_bits(h) =~= bytes_bits(bs));
    }
}

/// Hex round trip: the hex encoding of any bit sequence is a sequence of
/// lowercase hex digits of even length, and decoding it (four bits per
/// digit) and re-encoding yields the identical text.
pub proof fn lemma_hex_round_trip(bits: Seq<bool>)
    ensures
        is_hex_seq(hex_of_bytes(pack_bytes(bits))),
        hex_of_bytes(pack_bytes(bits)).len() % 2 == 0,
        hex_of_bytes(pack_bytes(hex_bits(hex_of_bytes(pack_bytes(bits))))) == hex_of_bytes(
            pack_bytes(bits),
        ),
{
    let bs = pack_bytes(bits);
    let h = hex_of_bytes(bs);
    lemma_hex_seq_of_bytes(bs);
    assert(h.len() % 2 == 0) by {
        lemma_mod_multiples_basic(bs.len() as int, 2);
    }
    lemma_hex_bits_of_bytes(bs);
    lemma_pack_bytes_of_bytes_bits(bs);
}

/// The one-character text of a hex digit.
pub(crate) fn hex_digit_str(v: u8) -> (r: &'static str)
    requires
        v < 16,
    ensures
        r@.len() == 1,
        r@[0] == hex_char_of(v as nat),
{
    proof {
        reveal_strlit("0");
        reveal_strlit("1");
        reveal_strlit("2");
        reveal_strlit("3");
        reveal_strlit("4");
        reveal_strlit("5");
        reveal_strlit("6");
        reveal_strlit("7");
        reveal_strlit("8");
        reveal_strlit("9");
        reveal_strlit("a");
        reveal_strlit("b");
        reveal_strlit("c");
        reveal_strlit("d");
        reveal_strlit("e");
        reveal_strlit("f");
    }
    match v {
        0 => "0",
        1 => "1",
        2 => "2",
        3 => "3",
        4 => "4",
        5 => "5",
        6 => "6",
        7 => "7",
        8 => "8",
        9 => "9",
        10 => "a",
        11 => "b",
        12 => "c",
        13 => "d",
        14 => "e",
        _ => "f",
    }
}

/// The value of a hex digit character, `None` for any other character.
pub(crate) fn hex_digit_val(c: char) -> (r: Option<u8>)
    ensures
        r is Some <==> is_hex_char(c),
        r matches Some(v) ==> v < 16 && v as nat == hex_val_of(c),
{
    match c {
        '0' => Some(0),
        '1' => Some(1),
        '2' => Some(2),
        '3' => Some(3),
        '4' => Some(4),
        '5' => Some(5),
        '6' => Some(6),
        '7' => Some(7),
        '8' => Some(8),
        '9' => Some(9),
        'a' => Some(10),
        'b' => Some(11),
        'c' => Some(12),
        'd' => Some(13),
        'e' => Some(14),
        'f' => Some(15),
        _ => None,
    }
}

/// Every character of a byte sequence's hex text is a lowercase hex digit.
pub proof fn lemma_hex_seq_of_bytes(bs: Seq<u8>)
    ensures
        is_hex_seq(hex_of_bytes(bs)),
        hex_of_bytes(bs).len() == 2 * bs.len(),
{
    let h = hex_of_bytes(bs);
    assert forall|i: int| 0 <= i < h.len() implies is_hex_char(h[i]) by {
        let b = bs[i / 2] as nat;
        assert(b / 16 < 16) by {
            lemma_multiply_divide_lt(b as int, 16, 16);
        }
        if i % 2 == 0 {
            lemma_hex_digit(b / 16);
        } else {
            lemma_hex_digit(b % 16);
        }
    }
}

} // verus!
