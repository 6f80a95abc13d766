use vstd::prelude::*;

use crate::sample::{Fraction, Sample};
use crate::sampler::Sampler;
use crate::vector::Vec3;

verus! {

/// A [Sampler] that samples each pixel on an even square grid: with `q`
/// samples per pixel side, the image is walked as a grid of
/// `width·q` columns by `height·q` rows, row by row, columns fastest.
pub struct PerfectSquareSampler {
    samples_per_row: usize,
    samples_per_col: usize,
    samples: usize,
    current_sample: usize,
}

impl PerfectSquareSampler {
    pub closed spec fn per_row(self) -> nat {
        self.samples_per_row as nat
    }

    pub closed spec fn per_col(self) -> nat {
        self.samples_per_col as nat
    }

    /// Total number of samples in the schedule.
    pub closed spec fn total(self) -> nat {
        self.samples as nat
    }

    /// Index of the next sample.
    pub closed spec fn cursor(self) -> nat {
        self.current_sample as nat
    }

    pub proof fn lemma_wf(self)
        requires
            self.wf(),
        ensures
            self.total() == self.per_row() * self.per_col(),
            self.cursor() <= self.total(),
    {
    }

    /// What one pull does: while samples remain it returns the one at the
    /// cursor and moves the cursor on by one; after that it returns nothing
    /// and leaves the sampler as it is.
    pub proof fn lemma_next_spec(self)
        requires
            self.wf(),
        ensures
            self.next_spec().0.wf(),
            self.next_spec().0.per_row() == self.per_row(),
            self.next_spec().0.per_col() == self.per_col(),
            self.next_spec().0.total() == self.total(),
            self.cursor() < self.total() ==> self.next_spec().0.cursor() == self.cursor() + 1
                && self.next_spec().1 == Some(self.sample_at(self.cursor())),
            self.cursor() >= self.total() ==> self.next_spec().0 == self && self.next_spec().1
                is None,
            self.remaining() == self.total() - self.cursor(),
    {
    }

    /// The sample at index `k` of the grid: grid row `k / per_row`, grid
    /// column `k % per_row`, each divided by the grid's extent.
    pub open spec fn sample_at(self, k: nat) -> Sample {
        Sample {
            x: Fraction { num: (k % self.per_row()) as u64, den: self.per_row() as u64 },
            y: Fraction { num: (k / self.per_row()) as u64, den: self.per_col() as u64 },
            color: Vec3 { x: 0, y: 0, z: 0 },
        }
    }

    /// A sampler of the grid for an image of `width × height` pixels with
    /// `sqrt_samples_per_pixel²` samples per pixel, at its first sample.
    pub fn new(width: usize, height: usize, sqrt_samples_per_pixel: usize) -> (r: Self)
        requires
            width * sqrt_samples_per_pixel * height * sqrt_samples_per_pixel <= usize::MAX,
            width * sqrt_samples_per_pixel <= usize::MAX,
            height * sqrt_samples_per_pixel <= usize::MAX,
        ensures
            r.wf(),
            r.per_row() == width * sqrt_samples_per_pixel,
            r.per_col() == height * sqrt_samples_per_pixel,
            r.total() == width * height * sqrt_samples_per_pixel * sqrt_samples_per_pixel,
            r.cursor() == 0,
    {
        proof {
            lemma_product_monotone(width as int, sqrt_samples_per_pixel as int, height as int);
            assert(width * sqrt_samples_per_pixel * (height * sqrt_samples_per_pixel) == width
                * height * sqrt_samples_per_pixel * sqrt_samples_per_pixel) by (nonlinear_arith);
            assert(width * sqrt_samples_per_pixel * height * sqrt_samples_per_pixel == width
                * sqrt_samples_per_pixel * (height * sqrt_samples_per_pixel)) by (nonlinear_arith);
        }
        let samples_per_row = width * sqrt_samples_per_pixel;
        let samples_per_col = height * sqrt_samples_per_pixel;
        Self {
            samples_per_row,
            samples_per_col,
            samples: samples_per_row * samples_per_col,
            current_sample: 0,
        }
    }
}

/// Bounds on factors of a product that fits.
proof fn lemma_product_monotone(w: int, q: int, h: int)
    requires
        w >= 0,
        q >= 0,
        h >= 0,
    ensures
        w * q >= 0,
        h * q >= 0,
{
    assert(w * q >= 0 && h * q >= 0) by (nonlinear_arith)
        requires
            w >= 0,
            q >= 0,
            h >= 0,
    ;
}

/// For an index within the grid, its row lies within the grid too.
proof fn lemma_row_in_grid(k: int, per_row: int, per_col: int)
    requires
        0 <= k < per_row * per_col,
        per_row >= 0,
        per_col >= 0,
    ensures
        per_row > 0,
        0 <= k / per_row < per_col,
        0 <= k % per_row < per_row,
        k / per_row <= k,
{
    if per_row == 0 {
        assert(per_row * per_col == 0) by (nonlinear_arith)
            requires
                per_row == 0,
        ;
    }
    vstd::arithmetic::div_mod::lemma_div_is_ordered_by_denominator(k, 1, per_row);
    vstd::arithmetic::div_mod::lemma_div_pos_is_pos(k, per_row);
    vstd::arithmetic::div_mod::lemma_mod_pos_bound(k, per_row);
    if k / per_row >= per_col {
        vstd::arithmetic::div_mod::lemma_fundamental_div_mod(k, per_row);
        assert(per_row * (k / per_row) >= per_row * per_col) by (nonlinear_arith)
            requires
                k / per_row >= per_col,
                per_row > 0,
        ;
        assert(per_row * per_col == per_col * per_row) by (nonlinear_arith);
    }
}

impl Sampler for PerfectSquareSampler {
    closed spec fn wf(&self) -> bool {
        &&& self.samples == self.samples_per_row * self.samples_per_col
        &&& self.current_sample <= self.samples
    }

    closed spec fn remaining(&self) -> nat {
        (self.samples - self.current_sample) as nat
    }

    closed spec fn next_spec(&self) -> (Self, Option<Sample>) {
        if self.cursor() < self.total() {
            (
                PerfectSquareSampler { current_sample: (self.current_sample + 1) as usize, ..*self },
                Some(self.sample_at(self.cursor())),
            )
        } else {
            (*self, None)
        }
    }

    fn next_sample(&mut self) -> (r: Option<Sample>) {
        if self.current_sample < self.samples {
            proof {
                lemma_row_in_grid(
                    self.current_sample as int,
                    self.samples_per_row as int,
                    self.samples_per_col as int,
                );
            }
            proof {
                lemma_in_unit_square(*self, self.current_sample as nat);
            }
            let y = Fraction::new(
                (self.current_sample / self.samples_per_row) as u64,
                self.samples_per_col as u64,
            );
            let x = Fraction::new(
                (self.current_sample % self.samples_per_row) as u64,
                self.samples_per_row as u64,
            );
            self.current_sample = self.current_sample + 1;
            Some(Sample::new(x, y))
        } else {
            None
        }
    }
}

} // verus!

verus! {

/// The sampler after `k` pulls.
pub open spec fn after_pulls(s: PerfectSquareSampler, k: nat) -> PerfectSquareSampler
    decreases k,
{
    if k == 0 {
        s
    } else {
        after_pulls(s, (k - 1) as nat).next_spec().0
    }
}

/// What pull number `k` (counting from zero) returns.
pub open spec fn pull(s: PerfectSquareSampler, k: nat) -> Option<Sample> {
    after_pulls(s, k).next_spec().1
}

proof fn lemma_after_pulls(s: PerfectSquareSampler, k: nat)
    requires
        s.wf(),
        s.cursor() == 0,
    ensures
        after_pulls(s, k).wf(),
        after_pulls(s, k).per_row() == s.per_row(),
        after_pulls(s, k).per_col() == s.per_col(),
        after_pulls(s, k).total() == s.total(),
        after_pulls(s, k).cursor() == if k < s.total() {
            k
        } else {
            s.total()
        },
    decreases k,
{
    if k > 0 {
        lemma_after_pulls(s, (k - 1) as nat);
        after_pulls(s, (k - 1) as nat).lemma_next_spec();
    }
}

/// A fresh sampler returns exactly `width·height·sqrt_samples_per_pixel²`
/// samples, pull `k` giving the grid sample of index `k`, and is exhausted
/// after them.
pub proof fn lemma_schedule(s: PerfectSquareSampler, k: nat)
    requires
        s.wf(),
        s.cursor() == 0,
    ensures
        k < s.total() ==> pull(s, k) == Some(s.sample_at(k)),
        k >= s.total() ==> pull(s, k) is None,
{
    lemma_after_pulls(s, k);
    after_pulls(s, k).lemma_next_spec();
}

/// The grid samples come in row-major order: a later index has a later row,
/// or the same row and a later column.
pub proof fn lemma_row_major(s: PerfectSquareSampler, j: nat, k: nat)
    requires
        s.wf(),
        j < k < s.total(),
    ensures
        s.sample_at(j).y.num < s.sample_at(k).y.num || (s.sample_at(j).y.num
            == s.sample_at(k).y.num && s.sample_at(j).x.num < s.sample_at(k).x.num),
{
    let n = s.per_row() as int;
    s.lemma_wf();
    lemma_row_in_grid(k as int, n, s.per_col() as int);
    lemma_row_in_grid(j as int, n, s.per_col() as int);
    vstd::arithmetic::div_mod::lemma_div_is_ordered(j as int, k as int, n);
    vstd::arithmetic::div_mod::lemma_fundamental_div_mod(j as int, n);
    vstd::arithmetic::div_mod::lemma_fundamental_div_mod(k as int, n);
    vstd::arithmetic::div_mod::lemma_mod_pos_bound(j as int, n);
    vstd::arithmetic::div_mod::lemma_mod_pos_bound(k as int, n);
    vstd::arithmetic::div_mod::lemma_div_pos_is_pos(j as int, n);
    if j as int / n == k as int / n {
        assert(j as int % n < k as int % n);
    }
}

/// Every sample of the schedule lies in `[0, 1)²`.
pub proof fn lemma_in_unit_square(s: PerfectSquareSampler, k: nat)
    requires
        s.wf(),
        k < s.total(),
    ensures
        s.sample_at(k).x.num < s.sample_at(k).x.den,
        s.sample_at(k).y.num < s.sample_at(k).y.den,
        s.sample_at(k).wf(),
{
    s.lemma_wf();
    lemma_row_in_grid(k as int, s.per_row() as int, s.per_col() as int);
}

} // verus!
