//! Statistics over a batch of fixed-point values.
use vstd::prelude::*;
use vstd::arithmetic::div_mod::{lemma_div_is_ordered, lemma_div_multiples_vanish};

verus! {

pub open spec fn seq_sum(p: Seq<i32>) -> int
    decreases p.len(),
{
    if p.len() == 0 {
        0
    } else {
        seq_sum(p.drop_last()) + p.last()
    }
}

pub open spec fn abs_int(x: int) -> int {
    if x < 0 {
        -x
    } else {
        x
    }
}

/// `sum |n * s[i] - total|`, which is `n` times the sum of the absolute
/// deviations from the mean `total / n`.
pub open spec fn deviation_sum(s: Seq<i32>, n: int, total: int) -> int
    decreases s.len(),
{
    if s.len() == 0 {
        0
    } else {
        deviation_sum(s.drop_last(), n, total) + abs_int(n * s.last() - total)
    }
}

/// Mean absolute deviation from the mean, divided by `max(|mean|, 1)`, in
/// thousandths rounded down; 0 for an empty batch. With values `v / 1000`
/// this is `1000 * sum |n v_i - S| / (n * max(|S|, 1000 n))`.
pub open spec fn locality_spec(s: Seq<i32>) -> int {
    let n = s.len() as int;
    let t = seq_sum(s);
    if n == 0 {
        0
    } else {
        1000 * deviation_sum(s, n, t) / (n * if abs_int(t) > 1000 * n {
            abs_int(t)
        } else {
            1000 * n
        })
    }
}

pub proof fn lemma_sum_bound(s: Seq<i32>)
    ensures
        -2147483648 * s.len() <= seq_sum(s) <= 2147483648 * s.len(),
    decreases s.len(),
{
    if s.len() > 0 {
        lemma_sum_bound(s.drop_last());
    }
}

fn batch_sum(data: &Vec<i32>) -> (t: i128)
    requires
        data@.len() <= u32::MAX,
    ensures
        t == seq_sum(data@),
{
    let n = data.len();
    let mut t: i128 = 0;
    let mut i: usize = 0;
    while i < n
        invariant
            n == data@.len(),
            n <= u32::MAX,
            i <= n,
            t == seq_sum(data@.subrange(0, i as int)),
        decreases n - i,
    {
        proof {
            lemma_sum_bound(data@.subrange(0, i as int));
        }
        assert(data@.subrange(0, i as int + 1).drop_last() =~= data@.subrange(0, i as int));
        t = t + data[i] as i128;
        i = i + 1;
    }
    assert(data@.subrange(0, n as int) =~= data@);
    t
}

/// How tightly the batch clusters around its mean: lower is tighter.
pub fn measure_locality(data: &Vec<i32>) -> (r: u64)
    requires
        data@.len() <= u32::MAX,
    ensures
        r == locality_spec(data@),
{
    let n = data.len();
    if n == 0 {
        return 0;
    }
    let t = batch_sum(data);
    proof {
        lemma_sum_bound(data@);
    }
    let ghost b: int = n as int * 4294967296;
    let mut acc: i128 = 0;
    let mut i: usize = 0;
    while i < n
        invariant
            n == data@.len(),
            0 < n <= u32::MAX,
            t == seq_sum(data@),
            -2147483648 * n <= t <= 2147483648 * n,
            b == n as int * 4294967296,
            i <= n,
            acc == deviation_sum(data@.subrange(0, i as int), n as int, t as int),
            0 <= acc <= i * b,
        decreases n - i,
    {
        let x = data[i];
        assert(-2147483648 * n <= n * x <= 2147483648 * n) by (nonlinear_arith)
            requires
                -2147483648 <= x <= 2147483647,
                n > 0,
        ;
        let d: i128 = n as i128 * x as i128 - t;
        let a: i128 = if d < 0 {
            -d
        } else {
            d
        };
        assert(acc + a <= (i + 1) * b) by (nonlinear_arith)
            requires
                acc <= i * b,
                a <= b,
        ;
        assert((i + 1) * b <= 4294967296 * 4294967296 * 4294967296) by (nonlinear_arith)
            requires
                i + 1 <= n,
                n <= 4294967296,
                b == n * 4294967296,
        ;
        assert(data@.subrange(0, i as int + 1).drop_last() =~= data@.subrange(0, i as int));
        acc = acc + a;
        i = i + 1;
    }
    assert(data@.subrange(0, n as int) =~= data@);
    let at: i128 = if t < 0 {
        -t
    } else {
        t
    };
    let floor: i128 = 1000 * n as i128;
    let m: i128 = if at > floor {
        at
    } else {
        floor
    };
    assert(acc <= n * b) by (nonlinear_arith)
        requires
            acc <= i * b,
            i == n,
    ;
    let ghost nn: int = n as int * n as int;
    let ghost nm: int = n as int * m as int;
    assert(acc <= nn * 4294967296) by (nonlinear_arith)
        requires
            acc <= n * b,
            b == n * 4294967296,
            nn == n * n,
    ;
    assert(nm >= 1000 * nn && nm > 0) by (nonlinear_arith)
        requires
            m >= 1000 * n,
            n > 0,
            nn == n * n,
            nm == n * m,
    ;
    assert(nm <= 4294967296 * nn && nn <= 4294967296 * 4294967296) by (nonlinear_arith)
        requires
            m <= 4294967296 * n,
            0 < n <= 4294967295,
            nn == n * n,
            nm == n * m,
    ;
    assert(1000 * acc <= 4294967296 * nm);
    let den: i128 = n as i128 * m;
    let q: i128 = (1000 * acc) / den;
    proof {
        lemma_div_is_ordered(1000 * acc, 4294967296 * den, den as int);
        lemma_div_multiples_vanish(4294967296, den as int);
    }
    q as u64
}

} // verus!
