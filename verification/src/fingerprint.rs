use vstd::prelude::*;
use vstd::string::StringExecFns;
use vstd::arithmetic::div_mod::{lemma_fundamental_div_mod, lemma_multiply_divide_lt};
use crate::codec::{
    byte_count, chunk_val, hex_bits, hex_digit_str, hex_digit_val, hex_of_bytes, is_hex_seq,
    lemma_chunk_val_bound, lemma_hex_seq_of_bytes, lemma_two_pow_mono, lemma_two_pow_vals,
    lemma_val_bits_len, pack_bytes, padded_bits, val_bits,
};
use crate::error::HashError;

verus! {

/// A fixed-length ordered bit sequence summarizing an image's coarse visual
/// structure. Immutable once created; two fingerprints with identical bits
/// are equal regardless of provenance. Its view is the bit sequence itself,
/// in the row-major order the generator emits.
pub struct Fingerprint {
    bits: Vec<bool>,
}

impl View for Fingerprint {
    type V = Seq<bool>;

    closed spec fn view(&self) -> Seq<bool> {
        self.bits@
    }
}

impl Fingerprint {
    /// Wraps an explicit bit sequence as a fingerprint.
    pub fn from_bits(bits: Vec<bool>) -> (r: Fingerprint)
        ensures
            r@ == bits@,
    {
        Fingerprint { bits }
    }

    /// The number of bits.
    pub fn bit_count(&self) -> (r: usize)
        ensures
            r == self@.len(),
    {
        self.bits.len()
    }

    /// The bit at position `i`.
    pub fn bit(&self, i: usize) -> (r: bool)
        requires
            i < self@.len(),
        ensures
            r == self@[i as int],
    {
        self.bits[i]
    }

    /// The canonical binary form: bits packed eight per byte, most
    /// significant bit first, a final partial byte padded with zero bits.
    #[verifier::loop_isolation(false)]
    pub fn to_bytes(&self) -> (r: Vec<u8>)
        requires
            self@.len() <= usize::MAX - 7,
        ensures
            r@ == pack_bytes(self@),
            r@.len() == byte_count(self@.len()),
    {
        let n = self.bits.len();
        let nb = (n + 7) / 8;
        let ghost pb = padded_bits(self@);
        proof {
            lemma_fundamental_div_mod(n as int + 7, 8);
            assert(pb.len() == 8 * nb);
        }
        let mut out: Vec<u8> = Vec::new();
        let mut j: usize = 0;
        while j < nb
            invariant
                j <= nb,
                out@.len() == j,
                forall|t: int| 0 <= t < j ==> out@[t] == pack_bytes(self@)[t],
            decreases nb - j,
        {
            let mut acc: u8 = 0;
            let mut k: usize = 0;
            while k < 8
                invariant
                    j < nb,
                    k <= 8,
                    acc as nat == chunk_val(pb.subrange(8 * j as int, 8 * j as int + k)),
                decreases 8 - k,
            {
                let idx = 8 * j + k;
                let bitv = if idx < n {
                    self.bits[idx]
                } else {
                    false
                };
                proof {
                    assert(bitv == pb[idx as int]);
                    lemma_chunk_val_bound(pb.subrange(8 * j as int, 8 * j as int + k));
                    lemma_two_pow_mono(k as nat, 7);
                    lemma_two_pow_vals();
                    assert(pb.subrange(8 * j as int, 8 * j as int + k + 1).drop_last()
                        =~= pb.subrange(8 * j as int, 8 * j as int + k));
                    assert(pb.subrange(8 * j as int, 8 * j as int + k + 1).last() == pb[8 * j
                        as int + k]);
                }
                acc = 2 * acc + if bitv {
                    1
                } else {
                    0
                };
                k = k + 1;
            }
            out.push(acc);
            j = j + 1;
        }
        proof {
            assert(out@ =~= pack_bytes(self@));
        }
        out
    }

    /// The canonical text form: lowercase hexadecimal, two digits per byte
    /// of the packed binary form, so `2 * ceil(bit_count / 8)` characters.
    #[verifier::loop_isolation(false)]
    pub fn to_hex(&self) -> (r: String)
        requires
            self@.len() <= usize::MAX - 7,
        ensures
            r@ == hex_of_bytes(pack_bytes(self@)),
            r@.len() == 2 * byte_count(self@.len()),
            is_hex_seq(r@),
    {
        let bytes = self.to_bytes();
        let nb = bytes.len();
        let ghost hx = hex_of_bytes(bytes@);
        let mut s = String::new();
        let mut i: usize = 0;
        while i < nb
            invariant
                i <= nb,
                s@.len() == 2 * i,
                forall|t: int| 0 <= t < 2 * i ==> s@[t] == hx[t],
            decreases nb - i,
        {
            let b = bytes[i];
            proof {
                assert(b / 16 < 16) by {
                    lemma_multiply_divide_lt(b as int, 16, 16);
                }
            }
            let hi = hex_digit_str(b / 16);
            let lo = hex_digit_str(b % 16);
            s.append(hi);
            s.append(lo);
            proof {
                assert((2 * i as int) % 2 == 0 && (2 * i as int) / 2 == i as int);
                assert((2 * i as int + 1) % 2 == 1 && (2 * i as int + 1) / 2 == i as int);
                assert(s@[2 * i as int] == hx[2 * i as int]);
                assert(s@[2 * i as int + 1] == hx[2 * i as int + 1]);
            }
            i = i + 1;
        }
        proof {
            assert(s@ =~= hx);
            lemma_hex_seq_of_bytes(bytes@);
        }
        s
    }

    /// Decodes the canonical hex text form: four bits per digit, most
    /// significant first. Rejects text of odd length or with any character
    /// that is not a lowercase hex digit.
    #[verifier::loop_isolation(false)]
    pub fn from_hex(s: &str) -> (r: Result<Fingerprint, HashError>)
        ensures
            r is Ok <==> s@.len() % 2 == 0 && is_hex_seq(s@),
            r matches Ok(f) ==> f@ == hex_bits(s@) && f@.len() == 4 * s@.len(),
            r is Err ==> r == Err::<Fingerprint, HashError>(HashError::InvalidInput),
    {
        let n = s.unicode_len();
        if n % 2 != 0 {
            return Err(HashError::InvalidInput);
        }
        let mut bits: Vec<bool> = Vec::new();
        let mut i: usize = 0;
        while i < n
            invariant
                i <= n,
                bits@ == hex_bits(s@.subrange(0, i as int)),
                bits@.len() == 4 * i,
                forall|t: int| 0 <= t < i ==> crate::codec::is_hex_char(#[trigger] s@[t]),
            decreases n - i,
        {
            let c = s.get_char(i);
            let v = match hex_digit_val(c) {
                Some(v) => v,
                None => {
                    return Err(HashError::InvalidInput);
                },
            };
            let t1 = v / 2;
            let t2 = t1 / 2;
            let t3 = t2 / 2;
            bits.push(t3 % 2 == 1);
            bits.push(t2 % 2 == 1);
            bits.push(t1 % 2 == 1);
            bits.push(v % 2 == 1);
            proof {
                reveal_with_fuel(val_bits, 5);
                assert(t3 / 2 == 0);
                assert(val_bits(v as nat, 4) =~= seq![
                    t3 % 2 == 1,
                    t2 % 2 == 1,
                    t1 % 2 == 1,
                    v % 2 == 1,
                ]);
                assert(s@.subrange(0, i as int + 1).drop_last() =~= s@.subrange(0, i as int));
                assert(bits@ =~= hex_bits(s@.subrange(0, i as int + 1)));
                lemma_val_bits_len(v as nat, 4);
            }
            i = i + 1;
        }
        proof {
            assert(s@.subrange(0, n as int) =~= s@);
        }
        Ok(Fingerprint { bits })
    }
}

} // verus!
