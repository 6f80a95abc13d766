use vstd::prelude::*;

use crate::sample::{channel_byte, Sample};
use crate::vector::{Color3i, Vec3};

verus! {

/// Most samples that one pixel takes.
pub const MAX_SAMPLES_PER_PIXEL: u64 = 4_294_967_296;

/// What a film holds: per pixel, row by row, the sum of the byte colors
/// of its samples and how many there were.
pub struct FilmView {
    pub width: nat,
    pub height: nat,
    pub sums: Seq<Color3i>,
    pub counts: Seq<nat>,
}

/// The byte color of one sample added to a pixel's running sum.
pub open spec fn add_color(sum: Color3i, sample: Sample) -> Color3i {
    Vec3 {
        x: (sum.x + channel_byte(sample.color.x as int)) as i64,
        y: (sum.y + channel_byte(sample.color.y as int)) as i64,
        z: (sum.z + channel_byte(sample.color.z as int)) as i64,
    }
}

/// The mean of a channel's sum over `count` samples, rounded down; black
/// for a pixel without samples.
pub open spec fn mean(sum: int, count: nat) -> int {
    if count == 0 {
        0
    } else {
        sum / (count as int)
    }
}

pub open spec fn channel(c: Color3i, k: int) -> int {
    if k == 0 {
        c.x as int
    } else if k == 1 {
        c.y as int
    } else {
        c.z as int
    }
}

impl FilmView {
    pub open spec fn wf(self) -> bool {
        &&& self.sums.len() == self.width * self.height
        &&& self.counts.len() == self.width * self.height
        &&& forall|i: int|
            0 <= i < self.counts.len() ==> {
                let c = #[trigger] self.counts[i];
                let s = self.sums[i];
                &&& c <= MAX_SAMPLES_PER_PIXEL
                &&& 0 <= s.x <= 255 * c
                &&& 0 <= s.y <= 255 * c
                &&& 0 <= s.z <= 255 * c
            }
    }

    /// The pixel, counted row by row, that a sample at `(x, y)` falls on:
    /// row `⌊y·height⌋`, column `⌊x·width⌋`, if both lie inside the image.
    pub open spec fn pixel_of(self, sample: Sample) -> Option<int> {
        let row = sample.y.num * self.height / sample.y.den as int;
        let col = sample.x.num * self.width / sample.x.den as int;
        if row < self.height && col < self.width {
            Some(row * self.width + col)
        } else {
            None
        }
    }

    pub open spec fn add_spec(self, sample: Sample) -> (FilmView, Result<(), FilmError>) {
        match self.pixel_of(sample) {
            None => (self, Err(FilmError::OutOfFrame)),
            Some(i) => if self.counts[i] >= MAX_SAMPLES_PER_PIXEL {
                (self, Err(FilmError::PixelFull))
            } else {
                (
                    FilmView {
                        sums: self.sums.update(i, add_color(self.sums[i], sample)),
                        counts: self.counts.update(i, self.counts[i] + 1),
                        ..self
                    },
                    Ok(()),
                )
            },
        }
    }

    /// Byte `j` of the developed image: channel `j % 3` of pixel `j / 3`,
    /// the mean of that pixel's samples.
    pub open spec fn raster_byte(self, j: int) -> u8 {
        mean(channel(self.sums[j / 3], j % 3), self.counts[j / 3]) as u8
    }

    pub open spec fn raster(self) -> Seq<u8> {
        Seq::new((3 * self.sums.len()) as nat, |j: int| self.raster_byte(j))
    }
}

/// Why a film refused a sample.
#[derive(Clone, Copy, Debug, PartialEq, Eq, Structural)]
pub enum FilmError {
    /// The sample's position falls outside the image.
    OutOfFrame,
    /// The pixel already holds as many samples as it can count.
    PixelFull,
}

/// The final step of light in its simulation.
/// Responsible for converting light information into an image: it keeps,
/// per pixel, the running sum of the byte colors of its samples and their
/// count (the model `FilmView`), and develops into their means.
pub trait Film: View<V = FilmView> {
    /// The film's own invariant.
    spec fn wf(&self) -> bool;

    /// Adds a [Sample] to the composition, or refuses it and stays as it was.
    fn add_sample(&mut self, sample: &Sample) -> (r: Result<(), FilmError>)
        requires
            old(self).wf(),
            sample.wf(),
        ensures
            final(self).wf(),
            final(self)@.wf(),
            (final(self)@, r) == old(self)@.add_spec(*sample),
    ;

    /// Turns what was added into the finished image, 8-bit RGB row by row.
    fn develop(&self) -> (r: Vec<u8>)
        requires
            self.wf(),
        ensures
            self@.wf(),
            r@ == self@.raster(),
            r@.len() == 3 * (self@.width * self@.height),
    ;
}

} // verus!

verus! {

/// A film of at least one pixel takes every sample of `[0, 1)²` whose pixel
/// is not full: success is owed there, so a render fails only once some
/// pixel has taken `MAX_SAMPLES_PER_PIXEL` samples.
pub proof fn lemma_accepts_unit_square(film: FilmView, sample: Sample)
    requires
        film.wf(),
        film.width > 0,
        film.height > 0,
        sample.wf(),
        sample.in_unit_square(),
    ensures
        film.pixel_of(sample) is Some,
        film.counts[film.pixel_of(sample)->0] < MAX_SAMPLES_PER_PIXEL ==> film.add_spec(
            sample,
        ).1 is Ok,
{
    let (h, w) = (film.height as int, film.width as int);
    let (yn, yd) = (sample.y.num as int, sample.y.den as int);
    let (xn, xd) = (sample.x.num as int, sample.x.den as int);
    assert(yn * h / yd < h) by (nonlinear_arith)
        requires
            0 <= yn < yd,
            h > 0,
    ;
    assert(xn * w / xd < w) by (nonlinear_arith)
        requires
            0 <= xn < xd,
            w > 0,
    ;
    assert(yn * h / yd >= 0 && xn * w / xd >= 0) by (nonlinear_arith)
        requires
            0 <= yn,
            0 < yd,
            0 <= xn,
            0 < xd,
            h > 0,
            w > 0,
    ;
    let row = yn * h / yd;
    let col = xn * w / xd;
    assert(0 <= row * w + col < w * h) by (nonlinear_arith)
        requires
            0 <= row < h,
            0 <= col < w,
    ;
}

} // verus!
