use rustrace::perfect_square_sampler::PerfectSquareSampler;
use rustrace::sampler::Sampler;

#[test]
fn sampler_walks_the_grid_row_by_row() {
    let mut sampler = PerfectSquareSampler::new(2, 1, 2);
    let mut seen = Vec::new();
    while let Some(sample) = sampler.next_sample() {
        seen.push((sample.y.num, sample.y.den, sample.x.num, sample.x.den));
    }
    assert_eq!(
        seen,
        vec![
            (0, 2, 0, 4),
            (0, 2, 1, 4),
            (0, 2, 2, 4),
            (0, 2, 3, 4),
            (1, 2, 0, 4),
            (1, 2, 1, 4),
            (1, 2, 2, 4),
            (1, 2, 3, 4),
        ]
    );
    assert!(sampler.next_sample().is_none());
}

#[test]
fn sampler_count_is_width_height_samples() {
    let (width, height, q) = (5, 3, 3);
    let mut sampler = PerfectSquareSampler::new(width, height, q);
    let mut count = 0usize;
    let mut last: Option<(u64, u64)> = None;
    while let Some(sample) = sampler.next_sample() {
        count += 1;
        assert!(sample.x.num < sample.x.den);
        assert!(sample.y.num < sample.y.den);
        assert_eq!(sample.color.x, 0);
        let here = (sample.y.num, sample.x.num);
        if let Some(before) = last {
            assert!(before < here);
        }
        last = Some(here);
    }
    assert_eq!(count, width * height * q * q);
    assert!(sampler.next_sample().is_none());
}

#[test]
fn empty_image_has_no_samples() {
    let mut sampler = PerfectSquareSampler::new(0, 4, 2);
    assert!(sampler.next_sample().is_none());
}
