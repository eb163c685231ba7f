//! Resampling by a ratio of whole numbers: which branch of the kernel is applied
//! to which samples, across block boundaries and without a seam.
//!
//! The stream is thought of on a grid `l` times as fine. An output lies on every
//! `m`th point of that grid; the point says which sample is the newest one the
//! output needs and which of the `l` branches of the kernel falls on it. The
//! kernel itself and the arithmetic of the samples are the caller's.

use crate::signal::dsp::fir;
use vstd::prelude::*;

verus! {

/// Whether `d` divides `n`.
pub open spec fn divides(d: int, n: int) -> bool {
    d > 0 && n % d == 0
}

/// The greatest common divisor.
pub open spec fn gcd_of(a: nat, b: nat) -> nat
    decreases b,
{
    if b == 0 {
        a
    } else {
        gcd_of(b, a % b)
    }
}

/// What divides a number divides its sum with a multiple of the divisor's kind.
proof fn lemma_divides_sum(d: int, a: int, b: int, q: int)
    requires
        divides(d, a),
        divides(d, b),
    ensures
        divides(d, a * q + b),
        divides(d, b - a * q),
{
    let x = a / d;
    let y = b / d;
    vstd::arithmetic::div_mod::lemma_fundamental_div_mod(a, d);
    vstd::arithmetic::div_mod::lemma_fundamental_div_mod(b, d);
    assert(a * q + b == (x * q + y) * d + 0) by (nonlinear_arith)
        requires
            a == d * x + 0,
            b == d * y + 0,
    ;
    assert(b - a * q == (y - x * q) * d + 0) by (nonlinear_arith)
        requires
            a == d * x + 0,
            b == d * y + 0,
    ;
    vstd::arithmetic::div_mod::lemma_fundamental_div_mod_converse(a * q + b, d, x * q + y, 0);
    vstd::arithmetic::div_mod::lemma_fundamental_div_mod_converse(b - a * q, d, y - x * q, 0);
}

/// The greatest common divisor divides both numbers.
pub proof fn lemma_gcd_divides(a: nat, b: nat)
    requires
        a > 0,
    ensures
        gcd_of(a, b) > 0,
        divides(gcd_of(a, b) as int, a as int),
        divides(gcd_of(a, b) as int, b as int),
    decreases b,
{
    if b == 0 {
        assert(a as int % a as int == 0) by (nonlinear_arith)
            requires
                a > 0,
        ;
        assert(0int % a as int == 0) by (nonlinear_arith)
            requires
                a > 0,
        ;
    } else {
        lemma_gcd_divides(b, a % b);
        let g = gcd_of(b, a % b) as int;
        let q = (a / b) as int;
        vstd::arithmetic::div_mod::lemma_fundamental_div_mod(a as int, b as int);
        lemma_divides_sum(g, b as int, (a % b) as int, q);
        assert(a as int == b as int * q + (a % b) as int);
    }
}

/// What divides both numbers divides their greatest common divisor.
pub proof fn lemma_gcd_is_greatest(a: nat, b: nat, d: int)
    requires
        divides(d, a as int),
        divides(d, b as int),
    ensures
        divides(d, gcd_of(a, b) as int),
    decreases b,
{
    if b != 0 {
        let q = (a / b) as int;
        vstd::arithmetic::div_mod::lemma_fundamental_div_mod(a as int, b as int);
        lemma_divides_sum(d, b as int, a as int, q);
        assert((a % b) as int == a as int - b as int * q);
        lemma_gcd_is_greatest(b, a % b, d);
    }
}

/// The greatest common divisor.
pub fn gcd(a: usize, b: usize) -> (g: usize)
    ensures
        g == gcd_of(a as nat, b as nat),
    decreases b,
{
    if b == 0 {
        a
    } else {
        gcd(b, a % b)
    }
}

/// An output: the samples it needs and the branch of the kernel that falls on it.
pub type Tap<T> = (Seq<T>, int);

/// The outputs that samples complete, from the point of the fine grid that lies
/// `p` behind sample `q`.
pub open spec fn outputs_of<T>(buf: Seq<T>, bt: int, l: int, m: int, q: int, p: int) -> Seq<Tap<T>>
    decreases room(buf.len() as int, l, q, p),
    when l > 0 && m > 0 && 0 <= p < l
{
    if q >= buf.len() {
        Seq::empty()
    } else {
        proof {
            lemma_step(buf.len() as int, l, m, q, p);
        }
        seq![(buf.subrange(q + 1 - bt, q + 1), p)] + outputs_of(
            buf,
            bt,
            l,
            m,
            q + (p + m) / l,
            (p + m) % l,
        )
    }
}

/// How much of the fine grid is left.
pub open spec fn room(len: int, l: int, q: int, p: int) -> int {
    if q >= len {
        0
    } else {
        (len - q) * l - p
    }
}

/// One step along the grid uses some of it up.
pub proof fn lemma_step(len: int, l: int, m: int, q: int, p: int)
    requires
        l > 0,
        m > 0,
        0 <= p < l,
        q < len,
    ensures
        0 <= (p + m) % l < l,
        (q + (p + m) / l) * l + (p + m) % l == q * l + p + m,
        q <= q + (p + m) / l,
        0 <= room(len, l, q + (p + m) / l, (p + m) % l) < room(len, l, q, p),
{
    let s = (p + m) / l;
    let r = (p + m) % l;
    vstd::arithmetic::div_mod::lemma_fundamental_div_mod(p + m, l);
    vstd::arithmetic::div_mod::lemma_mod_bound(p + m, l);
    assert(s >= 0) by (nonlinear_arith)
        requires
            p + m == l * s + r,
            0 <= r < l,
            p + m > 0,
    ;
    assert((q + s) * l == q * l + l * s) by (nonlinear_arith);
    assert((len - q) * l == len * l - q * l) by (nonlinear_arith);
    assert((len - (q + s)) * l == len * l - (q + s) * l) by (nonlinear_arith);
    assert(q < len ==> (len - q) * l >= l) by (nonlinear_arith)
        requires
            l > 0,
    ;
    assert(q + s < len ==> (len - (q + s)) * l >= l) by (nonlinear_arith)
        requires
            l > 0,
    ;
}

/// The point of the grid where the next output lies that `len` samples do not
/// reach.
pub open spec fn next_point(len: int, l: int, m: int, point: int) -> int
    decreases (if point >= len * l {
        0
    } else {
        len * l - point
    }),
    when l > 0 && m > 0
{
    if point >= len * l {
        point
    } else {
        next_point(len, l, m, point + m)
    }
}

/// How many outputs lie on the grid from a point on, over `len` samples.
pub open spec fn output_count(len: int, l: int, m: int, point: int) -> int {
    if point >= len * l {
        0
    } else {
        (len * l - point + m - 1) / m
    }
}

/// One completed output.
#[derive(Clone, Copy, Debug, PartialEq, Eq, Structural)]
pub struct Output {
    /// Where its samples start.
    pub start: usize,
    /// The branch of the kernel.
    pub branch: usize,
}

/// The outputs one block completes.
pub struct Outputs<T> {
    pub samples: Vec<T>,
    pub outputs: Vec<Output>,
}

impl<T> Outputs<T> {
    /// The outputs themselves, each with as many samples as a branch has taps.
    pub open spec fn shown(self, bt: int) -> Seq<Tap<T>> {
        Seq::new(
            self.outputs@.len(),
            |i: int|
                (
                    self.samples@.subrange(
                        self.outputs@[i].start as int,
                        self.outputs@[i].start + bt,
                    ),
                    self.outputs@[i].branch as int,
                ),
        )
    }
}

/// A resampler's state between blocks.
pub struct Resampler<T> {
    pub l: usize,
    pub m: usize,
    /// Taps of one branch.
    pub bt: usize,
    /// Taps of the kernel, and where it starts in the padded one.
    pub kernel: usize,
    pub front: usize,
    /// Samples kept: the history of the next output and what is not yet used.
    pub buf: Vec<T>,
    /// The newest sample the next output needs, and its branch.
    pub q: usize,
    pub p: usize,
}

impl<T: Copy> Resampler<T> {
    pub open spec fn valid(self) -> bool {
        &&& 0 < self.l
        &&& 0 < self.m
        &&& self.p < self.l
        &&& 0 < self.bt
        &&& self.bt - 1 <= self.q
        &&& (self.bt - 1) * self.l < self.kernel <= self.bt * self.l
        &&& self.front == (self.bt * self.l - self.kernel) / 2
    }

    /// The outputs that further samples complete.
    pub open spec fn outputs_with(self, input: Seq<T>) -> Seq<Tap<T>> {
        outputs_of(
            self.buf@ + input,
            self.bt as int,
            self.l as int,
            self.m as int,
            self.q as int,
            self.p as int,
        )
    }

    /// Whether the state is that of a new resampler.
    pub open spec fn fresh(self) -> bool {
        self.buf@.len() == 0 && self.q == self.bt - 1 && self.p == 0
    }

    /// The point of the grid where the next output lies.
    pub open spec fn point(self) -> int {
        self.q * self.l + self.p
    }

    /// The state after a block.
    pub open spec fn follows(self, before: Self, input: Seq<T>) -> bool {
        let all = before.buf@ + input;
        let next = next_point(
            all.len() as int,
            before.l as int,
            before.m as int,
            before.point(),
        );
        let newest = next / before.l as int;
        let used = if newest + 1 - before.bt < all.len() {
            newest + 1 - before.bt
        } else {
            all.len() as int
        };
        &&& self.l == before.l
        &&& self.m == before.m
        &&& self.bt == before.bt
        &&& self.kernel == before.kernel
        &&& self.front == before.front
        &&& 0 <= used <= newest
        &&& self.buf@ == all.skip(used)
        &&& self.q == newest - used
        &&& self.p == next % before.l as int
    }

    /// A resampler by `l / m` with a kernel of so many taps. The ratio is reduced
    /// first, and the kernel is padded to whole branches, half of the padding in
    /// front.
    pub fn new(l: usize, m: usize, kernel: usize) -> (r: Self)
        requires
            0 < kernel,
            kernel + l <= usize::MAX,
        ensures
            r.valid(),
            r.fresh(),
            r.kernel == kernel,
            ({
                let a = if l == 0 {
                    1nat
                } else {
                    l as nat
                };
                let b = if m == 0 {
                    1nat
                } else {
                    m as nat
                };
                let g = gcd_of(a, b);
                &&& r.l * g == a
                &&& r.m * g == b
            }),
            r.bt == (kernel + r.l - 1) / (r.l as int),
    {
        let a: usize = if l == 0 {
            1
        } else {
            l
        };
        let b: usize = if m == 0 {
            1
        } else {
            m
        };
        let g: usize = gcd(a, b);
        proof {
            lemma_gcd_divides(a as nat, b as nat);
            vstd::arithmetic::div_mod::lemma_fundamental_div_mod(a as int, g as int);
            vstd::arithmetic::div_mod::lemma_fundamental_div_mod(b as int, g as int);
        }
        let rl: usize = a / g;
        let rm: usize = b / g;
        proof {
            assert(rl * g == a && rm * g == b && 0 < rl <= a && 0 < rm) by (nonlinear_arith)
                requires
                    a == g * (a as int / g as int) + 0,
                    b == g * (b as int / g as int) + 0,
                    rl == a as int / g as int,
                    rm == b as int / g as int,
                    0 < g,
                    0 < a,
                    0 < b,
            ;
        }
        let bt: usize = (kernel - 1) / rl + 1;
        proof {
            let k = kernel as int;
            let c = rl as int;
            let q = (k - 1) / c;
            vstd::arithmetic::div_mod::lemma_fundamental_div_mod(k - 1, c);
            vstd::arithmetic::div_mod::lemma_mod_bound(k - 1, c);
            let rest = (k - 1) % c;
            assert(k + c - 1 == (q + 1) * c + rest) by (nonlinear_arith)
                requires
                    k - 1 == c * q + rest,
            ;
            vstd::arithmetic::div_mod::lemma_fundamental_div_mod_converse(k + c - 1, c, q + 1, rest);
            assert(q * c < k <= (q + 1) * c && (q + 1) * c < k + c && 0 <= q < k) by (nonlinear_arith)
                requires
                    k - 1 == c * q + rest,
                    0 <= rest < c,
                    0 < c,
                    0 < k,
            ;
        }
        let front: usize = (bt * rl - kernel) / 2;
        Resampler { l: rl, m: rm, bt, kernel, front, buf: Vec::new(), q: bt - 1, p: 0 }
    }

    /// Forgets the carried state. The next block starts a fresh run.
    pub fn reset(&mut self)
        requires
            old(self).valid(),
        ensures
            final(self).valid(),
            final(self).fresh(),
            final(self).l == old(self).l,
            final(self).m == old(self).m,
            final(self).bt == old(self).bt,
            final(self).kernel == old(self).kernel,
            final(self).front == old(self).front,
    {
        self.buf = Vec::new();
        self.q = self.bt - 1;
        self.p = 0;
    }

    /// The reduced ratio in use.
    pub fn ratio(&self) -> (r: (usize, usize))
        ensures
            r == (self.l, self.m),
    {
        (self.l, self.m)
    }

    /// The taps of the padded kernel.
    pub fn taps(&self) -> (n: usize)
        requires
            self.bt * self.l <= usize::MAX,
        ensures
            n == self.bt * self.l,
    {
        self.bt * self.l
    }

    /// The input time the first output after a reset stands for, in samples, as a
    /// numerator over twice `l`. The kernel is symmetric, so its middle is where
    /// it stands.
    pub fn delay_input_samples(&self) -> (r: (i128, u128))
        requires
            self.valid(),
        ensures
            r.0 == 2 * ((self.bt - 1) * self.l) - (2 * self.front + self.kernel - 1),
            r.1 == 2 * self.l,
    {
        proof {
            assert((self.bt - 1) * self.l <= self.kernel);
            assert(0 <= (self.bt - 1) * self.l) by (nonlinear_arith)
                requires
                    1 <= self.bt,
                    0 <= self.l,
            ;
            assert((self.bt - 1) * self.l == (self.bt as i128 - 1) * (self.l as i128));
        }
        let grid: i128 = (self.bt as i128 - 1) * (self.l as i128);
        (
            2 * grid - (2 * (self.front as i128) + self.kernel as i128 - 1),
            2 * (self.l as u128),
        )
    }

    /// Which tap of the kernel stands at place `u` of a branch, or `None` where
    /// that place is padding. A branch is stored reversed, so that applying it
    /// runs forward over the samples.
    pub fn branch_tap(&self, branch: usize, u: usize) -> (r: Option<usize>)
        requires
            self.valid(),
            branch < self.l,
            u < self.bt,
            self.bt * self.l <= usize::MAX,
        ensures
            ({
                let at = branch + (self.bt - 1 - u) * self.l - self.front;
                r == if 0 <= at < self.kernel {
                    Some(at as usize)
                } else {
                    None
                }
            }),
    {
        proof {
            assert(0 <= (self.bt - 1 - u) * self.l <= (self.bt - 1) * self.l) by (nonlinear_arith)
                requires
                    0 <= u < self.bt,
                    0 <= self.l,
            ;
            assert((self.bt - 1) * self.l + self.l == self.bt * self.l) by (nonlinear_arith);
        }
        let place: usize = branch + (self.bt - 1 - u) * self.l;
        if place < self.front || place - self.front >= self.kernel {
            None
        } else {
            Some(place - self.front)
        }
    }

    /// Takes a block, and says which outputs it completes.
    pub fn process(&mut self, input: &[T]) -> (out: Outputs<T>)
        requires
            old(self).valid(),
            old(self).buf@.len() + input@.len() + old(self).l + old(self).m <= usize::MAX,
        ensures
            final(self).valid(),
            final(self).follows(*old(self), input@),
            out.shown(old(self).bt as int) == old(self).outputs_with(input@),
    {
        let ghost before = *self;
        let mut all: Vec<T> = fir::copied_from(self.buf.as_slice(), 0);
        fir::extend_with(&mut all, input);
        assert(all@ == before.buf@ + input@);
        let len: usize = all.len();
        let l: usize = self.l;
        let m: usize = self.m;
        let bt: usize = self.bt;
        let mut outputs: Vec<Output> = Vec::new();
        let mut q: usize = self.q;
        let mut p: usize = self.p;
        let ghost whole = outputs_of(all@, bt as int, l as int, m as int, q as int, p as int);
        let ghost start_point = before.point();
        while q < len
            invariant
                len == all@.len(),
                len + l + m <= usize::MAX,
                0 < l && 0 < m && 0 < bt,
                p < l,
                bt - 1 <= q,
                whole == (Outputs { samples: all, outputs }).shown(bt as int) + outputs_of(
                    all@,
                    bt as int,
                    l as int,
                    m as int,
                    q as int,
                    p as int,
                ),
                next_point(len as int, l as int, m as int, q * l + p) == next_point(
                    len as int,
                    l as int,
                    m as int,
                    start_point,
                ),
            decreases room(len as int, l as int, q as int, p as int),
        {
            let ghost shown = (Outputs { samples: all, outputs }).shown(bt as int);
            let ghost rest = outputs_of(
                all@,
                bt as int,
                l as int,
                m as int,
                q + (p + m) / (l as int),
                (p + m) % (l as int),
            );
            let ghost tap = (all@.subrange(q + 1 - bt, q + 1), p as int);
            proof {
                lemma_step(len as int, l as int, m as int, q as int, p as int);
                lemma_reached(len as int, l as int, q as int, p as int);
            }
            outputs.push(Output { start: q + 1 - bt, branch: p });
            proof {
                let now = (Outputs { samples: all, outputs }).shown(bt as int);
                assert(now == shown.push(tap));
                assert(shown + (seq![tap] + rest) == shown.push(tap) + rest);
                assert((p + m) / (l as int) <= p + m) by (nonlinear_arith)
                    requires
                        0 < l,
                        0 <= p + m,
                ;
            }
            let n: usize = p + m;
            p = n % l;
            q = q + n / l;
        }
        proof {
            lemma_reached(len as int, l as int, q as int, p as int);
            vstd::arithmetic::div_mod::lemma_fundamental_div_mod_converse(
                q * l + p,
                l as int,
                q as int,
                p as int,
            );
        }
        let keep_from: usize = q - (bt - 1);
        let used: usize = if keep_from < len {
            keep_from
        } else {
            len
        };
        self.buf = fir::copied_from(all.as_slice(), used);
        self.q = q - used;
        self.p = p;
        let out = Outputs { samples: all, outputs };
        assert(out.shown(bt as int) == before.outputs_with(input@));
        out
    }
}

/// A point of the grid is reached by `len` samples exactly where its sample is.
proof fn lemma_reached(len: int, l: int, q: int, p: int)
    requires
        l > 0,
        0 <= p < l,
    ensures
        q < len <==> q * l + p < len * l,
{
    assert(q < len ==> q * l + l <= len * l) by (nonlinear_arith)
        requires
            l > 0,
    ;
    assert(q >= len ==> q * l >= len * l) by (nonlinear_arith)
        requires
            l > 0,
    ;
}

/// More samples add outputs behind those there were.
proof fn lemma_more_samples<T>(buf: Seq<T>, more: Seq<T>, bt: int, l: int, m: int, q: int, p: int)
    requires
        l > 0,
        m > 0,
        0 <= p < l,
        0 < bt,
        bt - 1 <= q,
    ensures
        ({
            let next = next_point(buf.len() as int, l, m, q * l + p);
            &&& next >= q * l + p
            &&& next >= buf.len() * l
            &&& outputs_of(buf + more, bt, l, m, q, p) == outputs_of(buf, bt, l, m, q, p)
                + outputs_of(buf + more, bt, l, m, next / l, next % l)
        }),
    decreases room(buf.len() as int, l, q, p),
{
    lemma_reached(buf.len() as int, l, q, p);
    if q < buf.len() {
        lemma_step(buf.len() as int, l, m, q, p);
        let q2 = q + (p + m) / l;
        let p2 = (p + m) % l;
        lemma_more_samples(buf, more, bt, l, m, q2, p2);
        let tap = (buf.subrange(q + 1 - bt, q + 1), p);
        assert((buf + more).subrange(q + 1 - bt, q + 1) == buf.subrange(q + 1 - bt, q + 1));
        let next = next_point(buf.len() as int, l, m, q * l + p);
        assert(next == next_point(buf.len() as int, l, m, q2 * l + p2));
        let a = outputs_of(buf, bt, l, m, q2, p2);
        let b = outputs_of(buf + more, bt, l, m, next / l, next % l);
        assert(seq![tap] + (a + b) == (seq![tap] + a) + b);
    } else {
        vstd::arithmetic::div_mod::lemma_fundamental_div_mod_converse(q * l + p, l, q, p);
        let all = outputs_of(buf + more, bt, l, m, q, p);
        assert(Seq::<Tap<T>>::empty() + all == all);
    }
}

/// Samples before the history of the first output do not matter.
proof fn lemma_skipped<T>(buf: Seq<T>, bt: int, l: int, m: int, q: int, p: int, c: int)
    requires
        l > 0,
        m > 0,
        0 <= p < l,
        0 < bt,
        0 <= c <= q + 1 - bt,
        c <= buf.len(),
    ensures
        outputs_of(buf, bt, l, m, q, p) == outputs_of(buf.skip(c), bt, l, m, q - c, p),
    decreases room(buf.len() as int, l, q, p),
{
    if q < buf.len() {
        lemma_step(buf.len() as int, l, m, q, p);
        lemma_skipped(buf, bt, l, m, q + (p + m) / l, (p + m) % l, c);
        assert(buf.skip(c).subrange(q - c + 1 - bt, q - c + 1) == buf.subrange(q + 1 - bt, q + 1));
    }
}

/// Feeding in pieces gives what one long block gives, wherever the pieces are cut.
pub proof fn law_pieces_match_the_whole<T: Copy>(
    before: Resampler<T>,
    after: Resampler<T>,
    a: Seq<T>,
    b: Seq<T>,
)
    requires
        before.valid(),
        after.follows(before, a),
    ensures
        before.outputs_with(a + b) == before.outputs_with(a) + after.outputs_with(b),
{
    let l = before.l as int;
    let m = before.m as int;
    let bt = before.bt as int;
    let q = before.q as int;
    let p = before.p as int;
    let all = before.buf@ + a;
    assert(before.buf@ + (a + b) == all + b);
    lemma_more_samples(all, b, bt, l, m, q, p);
    let next = next_point(all.len() as int, l, m, q * l + p);
    let newest = next / l;
    let used = if newest + 1 - bt < all.len() {
        newest + 1 - bt
    } else {
        all.len() as int
    };
    vstd::arithmetic::div_mod::lemma_mod_bound(next, l);
    lemma_skipped(all + b, bt, l, m, newest, next % l, used);
    assert((all + b).skip(used) == all.skip(used) + b);
}

/// The outputs are as many as the grid has room for.
proof fn lemma_output_count<T>(buf: Seq<T>, bt: int, l: int, m: int, q: int, p: int)
    requires
        l > 0,
        m > 0,
        0 <= p < l,
    ensures
        outputs_of(buf, bt, l, m, q, p).len() == output_count(buf.len() as int, l, m, q * l + p),
    decreases room(buf.len() as int, l, q, p),
{
    lemma_reached(buf.len() as int, l, q, p);
    if q < buf.len() {
        lemma_step(buf.len() as int, l, m, q, p);
        lemma_output_count(buf, bt, l, m, q + (p + m) / l, (p + m) % l);
        let x = buf.len() * l - (q * l + p);
        vstd::arithmetic::div_mod::lemma_fundamental_div_mod(x + m - 1, m);
        vstd::arithmetic::div_mod::lemma_mod_bound(x + m - 1, m);
        let c = (x + m - 1) / m;
        let r = (x + m - 1) % m;
        if x <= m {
            assert(c == 1) by (nonlinear_arith)
                requires
                    x + m - 1 == m * c + r,
                    0 <= r < m,
                    0 < x <= m,
            ;
        } else {
            assert(x - m + m - 1 == (c - 1) * m + r) by (nonlinear_arith)
                requires
                    x + m - 1 == m * c + r,
            ;
            vstd::arithmetic::div_mod::lemma_fundamental_div_mod_converse(
                x - m + m - 1,
                m,
                c - 1,
                r,
            );
        }
    }
}

/// The point after a block lies past its samples, by less than one step where the
/// block completed an output.
proof fn lemma_next_point(len: int, l: int, m: int, point: int)
    requires
        l > 0,
        m > 0,
    ensures
        ({
            let next = next_point(len, l, m, point);
            &&& next >= len * l
            &&& point < len * l ==> next < len * l + m
        }),
    decreases (if point >= len * l {
        0
    } else {
        len * l - point
    }),
{
    if point < len * l {
        lemma_next_point(len, l, m, point + m);
    }
}

/// The output rate is the ratio: once a block has completed an output, every
/// further stretch of `n` samples completes `n * l / m` of them, to within the one
/// that the grid can be caught in the middle of.
pub proof fn law_output_rate<T: Copy>(
    before: Resampler<T>,
    after: Resampler<T>,
    a: Seq<T>,
    b: Seq<T>,
)
    requires
        before.valid(),
        after.follows(before, a),
        before.outputs_with(a).len() > 0,
    ensures
        ({
            let count = after.outputs_with(b).len();
            b.len() * after.l - after.m < count * after.m < b.len() * after.l + after.m
        }),
{
    let l = before.l as int;
    let m = before.m as int;
    let all = before.buf@ + a;
    let len = all.len() as int;
    let point = before.q * l + before.p;
    lemma_output_count(all, before.bt as int, l, m, before.q as int, before.p as int);
    let next = next_point(len, l, m, point);
    lemma_next_point(len, l, m, point);
    let newest = next / l;
    let used = if newest + 1 - before.bt < len {
        newest + 1 - before.bt
    } else {
        len
    };
    vstd::arithmetic::div_mod::lemma_fundamental_div_mod(next, l);
    vstd::arithmetic::div_mod::lemma_mod_bound(next, l);
    let later = after.buf@ + b;
    lemma_output_count(later, after.bt as int, l, m, after.q as int, after.p as int);
    let at = after.q * l + after.p;
    assert(after.q == newest - used);
    assert(at == next - used * l) by (nonlinear_arith)
        requires
            at == after.q * l + after.p,
            after.q == newest - used,
            next == l * newest + after.p,
    ;
    assert(later.len() == len - used + b.len());
    assert(later.len() * l == len * l - used * l + b.len() * l) by (nonlinear_arith)
        requires
            later.len() == len - used + b.len(),
    ;
    let x = later.len() * l - at;
    let c = (x + m - 1) / m;
    vstd::arithmetic::div_mod::lemma_fundamental_div_mod(x + m - 1, m);
    vstd::arithmetic::div_mod::lemma_mod_bound(x + m - 1, m);
    let r = (x + m - 1) % m;
    assert(m * c == c * m) by (nonlinear_arith);
    assert(0 <= b.len() * l) by (nonlinear_arith)
        requires
            0 < l,
    ;
    let count = after.outputs_with(b).len() as int;
    assert(count == output_count(later.len() as int, l, m, at));
    assert(x == b.len() * l - (next - len * l));
    assert(point < len * l);
    if x <= 0 {
        assert(count * m == 0);
    } else {
        assert(count * m == c * m);
    }
}

/// The reduced ratio is in lowest terms: nothing but one divides both parts.
pub proof fn law_ratio_is_in_lowest_terms(l: nat, m: nat, rl: int, rm: int, d: int)
    requires
        l > 0,
        m > 0,
        rl * gcd_of(l, m) == l,
        rm * gcd_of(l, m) == m,
        divides(d, rl),
        divides(d, rm),
    ensures
        d == 1,
{
    let g = gcd_of(l, m) as int;
    lemma_gcd_divides(l, m);
    let x = rl / d;
    let y = rm / d;
    vstd::arithmetic::div_mod::lemma_fundamental_div_mod(rl, d);
    vstd::arithmetic::div_mod::lemma_fundamental_div_mod(rm, d);
    assert(d * g > 0) by (nonlinear_arith)
        requires
            d > 0,
            g > 0,
    ;
    assert(l as int == x * (d * g) + 0) by (nonlinear_arith)
        requires
            rl == d * x + 0,
            rl * g == l,
    ;
    assert(m as int == y * (d * g) + 0) by (nonlinear_arith)
        requires
            rm == d * y + 0,
            rm * g == m,
    ;
    vstd::arithmetic::div_mod::lemma_fundamental_div_mod_converse(l as int, d * g, x, 0);
    vstd::arithmetic::div_mod::lemma_fundamental_div_mod_converse(m as int, d * g, y, 0);
    lemma_gcd_is_greatest(l, m, d * g);
    let k = g / (d * g);
    vstd::arithmetic::div_mod::lemma_fundamental_div_mod(g, d * g);
    assert(d == 1) by (nonlinear_arith)
        requires
            g == (d * g) * k + 0,
            d > 0,
            g > 0,
    ;
}

/// The outputs lie on every `m`th point of the fine grid: the whole part of a point says
/// which sample is the newest an output needs, and the rest which branch falls on it.
pub proof fn law_outputs_lie_on_the_grid<T>(
    buf: Seq<T>,
    bt: int,
    l: int,
    m: int,
    q: int,
    p: int,
    k: int,
)
    requires
        l > 0,
        m > 0,
        0 <= p < l,
        0 <= k < outputs_of(buf, bt, l, m, q, p).len(),
    ensures
        ({
            let (samples, branch) = outputs_of(buf, bt, l, m, q, p)[k];
            let newest = (q * l + p + k * m) / l;
            &&& newest < buf.len()
            &&& samples == buf.subrange(newest + 1 - bt, newest + 1)
            &&& newest * l + branch == q * l + p + k * m
            &&& 0 <= branch < l
        }),
    decreases k,
{
    if k > 0 {
        lemma_step(buf.len() as int, l, m, q, p);
        law_outputs_lie_on_the_grid(buf, bt, l, m, q + (p + m) / l, (p + m) % l, k - 1);
        assert(q * l + p + m + (k - 1) * m == q * l + p + k * m) by (nonlinear_arith);
    } else {
        assert(0 * m == 0);
        assert(q * l + p == l * q + p) by (nonlinear_arith);
        vstd::arithmetic::div_mod::lemma_fundamental_div_mod_converse(q * l + p, l, q, p);
    }
}

/// No output is left out: the one after the last needs a sample that is not there yet.
pub proof fn law_no_output_is_left_out<T>(buf: Seq<T>, bt: int, l: int, m: int, q: int, p: int)
    requires
        l > 0,
        m > 0,
        0 <= p < l,
    ensures
        q * l + p + outputs_of(buf, bt, l, m, q, p).len() * m >= buf.len() * l,
    decreases room(buf.len() as int, l, q, p),
{
    let all = outputs_of(buf, bt, l, m, q, p).len() as int;
    if q < buf.len() {
        lemma_step(buf.len() as int, l, m, q, p);
        law_no_output_is_left_out(buf, bt, l, m, q + (p + m) / l, (p + m) % l);
        assert(q * l + p + m + (all - 1) * m == q * l + p + all * m) by (nonlinear_arith);
    } else {
        assert(0 * m == 0);
        assert(q * l >= buf.len() * l) by (nonlinear_arith)
            requires
                q >= buf.len(),
                l > 0,
        ;
    }
}

} // verus!
