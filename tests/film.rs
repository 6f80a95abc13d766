use rustrace::film::{Film, FilmError};
use rustrace::png_film::PngFilm;
use rustrace::sample::{Fraction, Sample, COLOR_ONE};
use rustrace::vector::Vec3;

fn at(xn: u64, xd: u64, yn: u64, yd: u64, level: i64) -> Sample {
    Sample::new_with_color(Fraction::new(xn, xd), Fraction::new(yn, yd), Vec3::new(level, level, level))
}

#[test]
fn color_bytes_quantize_channels() {
    let s = Sample::new_with_color(
        Fraction::new(0, 1),
        Fraction::new(0, 1),
        Vec3::new(COLOR_ONE, COLOR_ONE / 2, 0),
    );
    assert_eq!(s.color_rgb_bytes(), Vec3::new(255, 127, 0));
    let black = Sample::new(Fraction::new(1, 2), Fraction::new(1, 2));
    assert_eq!(black.color, Vec3::new(0, 0, 0));
}

#[test]
fn film_averages_each_pixel() {
    let mut film = PngFilm::new(2, 1);
    assert_eq!(film.add_sample(&at(0, 4, 0, 2, COLOR_ONE)), Ok(()));
    assert_eq!(film.add_sample(&at(1, 4, 1, 2, 0)), Ok(()));
    assert_eq!(film.add_sample(&at(3, 4, 0, 2, COLOR_ONE)), Ok(()));
    // Pixel 0 holds 255 and 0, pixel 1 holds 255.
    assert_eq!(film.develop(), vec![127, 127, 127, 255, 255, 255]);
}

#[test]
fn film_without_samples_is_black() {
    let film = PngFilm::new(1, 2);
    assert_eq!(film.develop(), vec![0, 0, 0, 0, 0, 0]);
}

#[test]
fn sample_outside_the_frame_is_refused() {
    let mut film = PngFilm::new(2, 2);
    assert_eq!(film.add_sample(&at(1, 1, 0, 1, COLOR_ONE)), Err(FilmError::OutOfFrame));
    assert_eq!(film.add_sample(&at(0, 1, 1, 1, COLOR_ONE)), Err(FilmError::OutOfFrame));
    assert_eq!(film.develop(), vec![0; 12]);
}
