//! Storage encodings of a value stream at each precision level.
use vstd::prelude::*;
use crate::policy::PrecisionLevel;

verus! {

/// `2^b`.
pub open spec fn pow2(b: nat) -> nat
    decreases b,
{
    if b == 0 {
        1
    } else {
        2 * pow2((b - 1) as nat)
    }
}

/// One value `v / 1000` scaled by `scale`, rounded half up, clamped to
/// `0 ..= scale - 1`.
pub open spec fn quantize_value(v: int, scale: int) -> int {
    if v <= 0 {
        0
    } else if (v * scale + 500) / 1000 > scale - 1 {
        scale - 1
    } else {
        (v * scale + 500) / 1000
    }
}

pub open spec fn quantize_seq(s: Seq<i32>, scale: int) -> Seq<u8> {
    Seq::new(s.len(), |i: int| quantize_value(s[i] as int, scale) as u8)
}

/// A value saturated to 16 bits, as two bytes, low byte first.
pub open spec fn wide_bytes(v: int) -> Seq<u8> {
    let c = if v < -32768 {
        -32768
    } else if v > 32767 {
        32767
    } else {
        v
    };
    let u = if c < 0 {
        c + 65536
    } else {
        c
    };
    seq![(u % 256) as u8, (u / 256) as u8]
}

pub open spec fn wide_seq(s: Seq<i32>) -> Seq<u8>
    decreases s.len(),
{
    if s.len() == 0 {
        Seq::empty()
    } else {
        wide_seq(s.drop_last()) + wide_bytes(s.last() as int)
    }
}

/// The payload stored for `s` at `level`: one quantized byte per value at
/// four or eight bits, two bytes per value for the sixteen-bit level.
pub open spec fn encode_spec(level: PrecisionLevel, s: Seq<i32>) -> Seq<u8> {
    match level {
        PrecisionLevel::Int4 => quantize_seq(s, pow2(3) as int),
        PrecisionLevel::Int8 => quantize_seq(s, pow2(7) as int),
        PrecisionLevel::Float16 => wide_seq(s),
    }
}

pub proof fn lemma_pow2_small(b: nat)
    requires
        b <= 7,
    ensures
        1 <= pow2(b) <= 128,
        b <= 6 ==> pow2(b) <= 64,
{
    reveal_with_fuel(pow2, 8);
}

/// Dynamic quantization of a layer's values.
pub struct DynamicQuantizer;

impl DynamicQuantizer {
    /// Each value scaled by `2^(bits - 1)`, rounded, clamped to
    /// `0 ..= 2^(bits - 1) - 1`.
    pub fn quantize_layer(layer_data: &Vec<i32>, bits: u8) -> (r: Vec<u8>)
        requires
            1 <= bits <= 8,
        ensures
            r@ == quantize_seq(layer_data@, pow2((bits - 1) as nat) as int),
    {
        let mut scale: i64 = 1;
        let mut k: u8 = 1;
        while k < bits
            invariant
                1 <= k <= bits <= 8,
                scale == pow2((k - 1) as nat),
                scale <= 128,
            decreases bits - k,
        {
            proof {
                lemma_pow2_small((k - 1) as nat);
            }
            scale = scale * 2;
            k = k + 1;
        }
        proof {
            lemma_pow2_small((bits - 1) as nat);
        }
        let n = layer_data.len();
        let mut r: Vec<u8> = Vec::new();
        let mut i: usize = 0;
        while i < n
            invariant
                n == layer_data@.len(),
                i <= n,
                1 <= scale <= 128,
                scale == pow2((bits - 1) as nat),
                r@.len() == i,
                forall|j: int|
                    0 <= j < i ==> r@[j] == quantize_value(layer_data@[j] as int, scale as int) as u8,
            decreases n - i,
        {
            let v = layer_data[i] as i64;
            let q: i64 = if v <= 0 {
                0
            } else {
                assert(v * scale <= 2147483647 * 128) by (nonlinear_arith)
                    requires
                        0 < v <= 2147483647,
                        1 <= scale <= 128,
                ;
                let t = (v * scale + 500) / 1000;
                if t > scale - 1 {
                    scale - 1
                } else {
                    t
                }
            };
            r.push(q as u8);
            i = i + 1;
        }
        assert(r@ =~= quantize_seq(layer_data@, scale as int));
        r
    }
}

/// Each value saturated to 16 bits, two bytes per value, low byte first.
pub fn encode_wide(values: &Vec<i32>) -> (r: Vec<u8>)
    ensures
        r@ == wide_seq(values@),
{
    let n = values.len();
    let mut r: Vec<u8> = Vec::new();
    let mut i: usize = 0;
    while i < n
        invariant
            n == values@.len(),
            i <= n,
            r@ == wide_seq(values@.subrange(0, i as int)),
        decreases n - i,
    {
        let v = values[i];
        let c: i32 = if v < -32768 {
            -32768
        } else if v > 32767 {
            32767
        } else {
            v
        };
        let u: i32 = if c < 0 {
            c + 65536
        } else {
            c
        };
        assert(values@.subrange(0, i as int + 1).drop_last() =~= values@.subrange(0, i as int));
        let ghost prev = r@;
        r.push((u % 256) as u8);
        r.push((u / 256) as u8);
        assert(r@ =~= prev + wide_bytes(v as int));
        i = i + 1;
    }
    assert(values@.subrange(0, n as int) =~= values@);
    r
}

/// The payload stored for `values` at `level`.
pub fn encode_payload(level: PrecisionLevel, values: &Vec<i32>) -> (r: Vec<u8>)
    ensures
        r@ == encode_spec(level, values@),
{
    proof {
        reveal_with_fuel(pow2, 8);
    }
    match level {
        PrecisionLevel::Int4 => DynamicQuantizer::quantize_layer(values, 4),
        PrecisionLevel::Int8 => DynamicQuantizer::quantize_layer(values, 8),
        PrecisionLevel::Float16 => encode_wide(values),
    }
}

} // verus!
