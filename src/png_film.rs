use vstd::prelude::*;

use crate::film::{mean, Film, FilmError, FilmView, MAX_SAMPLES_PER_PIXEL};
use crate::sample::Sample;
use crate::vector::{Color3i, Vec3};

verus! {

/// A film that averages the samples of each pixel into an 8-bit RGB image,
/// ready to be encoded as PNG.
pub struct PngFilm {
    sums: Vec<Color3i>,
    counts: Vec<u64>,
    width: u32,
    height: u32,
}

impl View for PngFilm {
    type V = FilmView;

    closed spec fn view(&self) -> FilmView {
        FilmView {
            width: self.width as nat,
            height: self.height as nat,
            sums: self.sums@,
            counts: self.counts@.map_values(|c: u64| c as nat),
        }
    }
}

impl PngFilm {
    /// An empty film of `width × height` pixels.
    pub fn new(width: u32, height: u32) -> (r: Self)
        requires
            3 * (width * height) <= usize::MAX,
        ensures
            r.wf(),
            r@.wf(),
            r@.sums.len() == width * height,
            r@.counts.len() == width * height,
            r@.width == width,
            r@.height == height,
            forall|i: int| 0 <= i < width * height ==> r@.counts[i] == 0 && r@.sums[i] == (Vec3 { x: 0i64, y: 0i64, z: 0i64 }),
    {
        let n: usize = (width as usize) * (height as usize);
        let mut sums: Vec<Color3i> = Vec::with_capacity(n);
        let mut counts: Vec<u64> = Vec::with_capacity(n);
        let mut i: usize = 0;
        while i < n
            invariant
                0 <= i <= n,
                sums@.len() == i,
                counts@.len() == i,
                forall|j: int| 0 <= j < i ==> counts@[j] == 0 && sums@[j] == (Vec3 { x: 0i64, y: 0i64, z: 0i64 }),
            decreases n - i,
        {
            sums.push(Vec3::new(0, 0, 0));
            counts.push(0);
            i = i + 1;
        }
        Self { sums, counts, width, height }
    }
}

/// The mean of a channel's sum over `count` samples as a byte.
fn mean_byte(sum: i64, count: u64) -> (r: u8)
    requires
        count <= MAX_SAMPLES_PER_PIXEL,
        0 <= sum <= 255 * count,
    ensures
        r == mean(sum as int, count as nat) as u8,
        r == mean(sum as int, count as nat),
{
    if count == 0 {
        0
    } else {
        proof {
            assert((sum as int) / (count as int) <= 255) by (nonlinear_arith)
                requires
                    count > 0,
                    0 <= sum <= 255 * count,
            ;
        }
        (sum / (count as i64)) as u8
    }
}

proof fn lemma_wide_product(a: int, b: int)
    requires
        0 <= a <= u64::MAX,
        0 <= b <= u32::MAX,
    ensures
        0 <= a * b <= u128::MAX,
{
    assert(0 <= a * b <= u64::MAX * u32::MAX) by (nonlinear_arith)
        requires
            0 <= a <= u64::MAX,
            0 <= b <= u32::MAX,
    ;
}

proof fn lemma_pixel_in_image(row: int, col: int, width: int, height: int)
    requires
        0 <= row < height,
        0 <= col < width,
    ensures
        0 <= row * width + col < width * height,
{
    assert(row * width + col < width * height) by (nonlinear_arith)
        requires
            0 <= row < height,
            0 <= col < width,
    ;
    assert(0 <= row * width) by (nonlinear_arith)
        requires
            0 <= row,
            0 <= width,
    ;
}

impl Film for PngFilm {
    closed spec fn wf(&self) -> bool {
        &&& self@.wf()
        &&& 3 * (self.width * self.height) <= usize::MAX
    }

    fn add_sample(&mut self, sample: &Sample) -> (r: Result<(), FilmError>) {
        proof {
            lemma_wide_product(sample.y.num as int, self.height as int);
            lemma_wide_product(sample.x.num as int, self.width as int);
        }
        let row = (sample.y.num as u128) * (self.height as u128) / (sample.y.den as u128);
        let col = (sample.x.num as u128) * (self.width as u128) / (sample.x.den as u128);
        if row >= self.height as u128 || col >= self.width as u128 {
            return Err(FilmError::OutOfFrame);
        }
        proof {
            lemma_pixel_in_image(row as int, col as int, self.width as int, self.height as int);
        }
        let i = (row as usize) * (self.width as usize) + (col as usize);
        let count = self.counts[i];
        if count >= MAX_SAMPLES_PER_PIXEL {
            return Err(FilmError::PixelFull);
        }
        let sum = self.sums[i];
        let bytes = sample.color_rgb_bytes();
        proof {
            assert(self@.counts[i as int] == count);
            assert(0 <= sum.x <= 255 * count && 0 <= sum.y <= 255 * count && 0 <= sum.z <= 255 * count);
        }
        let new_sum = Vec3::new(sum.x + bytes.x, sum.y + bytes.y, sum.z + bytes.z);
        let ghost old_view = self@;
        self.sums.set(i, new_sum);
        self.counts.set(i, count + 1);
        proof {
            let v = old_view.add_spec(*sample).0;
            assert(self@.counts =~= v.counts);
            assert(self@.sums =~= v.sums);
            assert forall|j: int| 0 <= j < self@.counts.len() implies {
                let c = #[trigger] self@.counts[j];
                let s = self@.sums[j];
                &&& c <= MAX_SAMPLES_PER_PIXEL
                &&& 0 <= s.x <= 255 * c
                &&& 0 <= s.y <= 255 * c
                &&& 0 <= s.z <= 255 * c
            } by {
                if j != i {
                    assert(old_view.counts[j] == self@.counts[j]);
                }
            }
        }
        Ok(())
    }

    fn develop(&self) -> (r: Vec<u8>) {
        let n = self.sums.len();
        assert(n == self.width * self.height);
        let mut data: Vec<u8> = Vec::with_capacity(3 * n);
        let mut i: usize = 0;
        while i < n
            invariant
                self.wf(),
                n == self@.sums.len(),
                0 <= i <= n,
                data@ == self@.raster().take(3 * i),
            decreases n - i,
        {
            let sum = self.sums[i];
            let count = self.counts[i];
            proof {
                assert(self@.counts[i as int] == count);
            }
            let r = mean_byte(sum.x, count);
            let g = mean_byte(sum.y, count);
            let b = mean_byte(sum.z, count);
            data.push(r);
            data.push(g);
            data.push(b);
            proof {
                let raster = self@.raster();
                assert forall|j: int| 0 <= j < 3 * i + 3 implies data@[j] == raster.take(3 * i + 3)[j] by {
                    if j >= 3 * i {
                        assert(j / 3 == i as int);
                        assert(j % 3 == j - 3 * i);
                    }
                }
                assert(data@ =~= raster.take(3 * (i + 1)));
            }
            i = i + 1;
        }
        assert(self@.raster().take(3 * n as int) =~= self@.raster());
        data
    }
}

} // verus!
