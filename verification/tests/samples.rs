use dray::camera::{CameraRayIterator, PixelIndexEntry};
use dray::samples::SampleCounts;

fn came_back(i: i32, j: i32, s: i32) -> PixelIndexEntry {
    PixelIndexEntry { pixel_i: i, pixel_j: j, pixel_sample_num: s }
}

#[test]
fn fresh_counts_lack_every_sample() {
    let counts = SampleCounts::new(16, 9, 4).unwrap();
    assert_eq!((counts.width(), counts.height(), counts.samples()), (16, 9, 4));
    assert_eq!(counts.outstanding(), 16 * 9 * 4);
    assert!(!counts.is_complete());
    for c in 0..144 {
        assert_eq!(counts.count(c), Some(0));
    }
    assert_eq!(counts.count(144), None);
}

#[test]
fn every_counted_sample_is_one_less_outstanding() {
    let mut counts = SampleCounts::new(3, 2, 2).unwrap();
    assert_eq!(counts.outstanding(), 12);
    assert_eq!(counts.record(&came_back(1, 1, 0)), Some((4, 1)));
    assert_eq!(counts.outstanding(), 11);
    assert_eq!(counts.record(&came_back(1, 1, 1)), Some((4, 2)));
    assert_eq!(counts.outstanding(), 10);
    assert_eq!(counts.record(&came_back(1, 1, 1)), Some((4, 3)));
    assert_eq!(counts.outstanding(), 10);
    assert_eq!(counts.record(&came_back(3, 0, 0)), None);
    assert_eq!(counts.record(&came_back(0, 2, 0)), None);
    assert_eq!(counts.record(&came_back(-1, 0, 0)), None);
    assert_eq!(counts.outstanding(), 10);
    assert_eq!(counts.count(4), Some(3));
    assert_eq!(counts.count(0), Some(0));
}

#[test]
fn cells_are_numbered_row_by_row() {
    let counts = SampleCounts::new(4, 3, 1).unwrap();
    assert_eq!(counts.cell_of(&came_back(0, 0, 0)), Some(0));
    assert_eq!(counts.cell_of(&came_back(3, 0, 0)), Some(3));
    assert_eq!(counts.cell_of(&came_back(0, 1, 0)), Some(4));
    assert_eq!(counts.cell_of(&came_back(3, 2, 7)), Some(11));
    assert_eq!(counts.cell_of(&came_back(4, 2, 0)), None);
    assert_eq!(counts.cell_of(&came_back(0, 3, 0)), None);
}

#[test]
fn a_schedule_that_is_run_through_completes_the_image() {
    for (w, h, spp) in [(4, 4, 1), (16, 9, 4), (1, 1, 1), (5, 3, 2), (3, 3, 0)] {
        let mut schedule = CameraRayIterator::new(w, h, spp).unwrap();
        let mut counts = SampleCounts::new(w as usize, h as usize, spp as u64).unwrap();
        let mut handed_out = 0u128;
        while let Some(idx) = schedule.next() {
            assert!(!counts.is_complete());
            assert!(counts.record(&idx).is_some());
            handed_out += 1;
            assert_eq!(counts.outstanding() + handed_out, (w * h * spp) as u128);
        }
        assert_eq!(handed_out, (w * h * spp) as u128);
        assert!(counts.is_complete());
        assert_eq!(counts.outstanding(), 0);
        for c in 0..(w * h) as usize {
            assert_eq!(counts.count(c), Some(spp as u64));
        }
    }
}

#[test]
fn counts_without_pixels_or_without_samples_are_complete() {
    assert!(SampleCounts::new(0, 0, 5).unwrap().is_complete());
    assert!(SampleCounts::new(0, 7, 5).unwrap().is_complete());
    assert!(SampleCounts::new(7, 7, 0).unwrap().is_complete());
    assert!(SampleCounts::empty().is_complete());
    assert_eq!(SampleCounts::empty().outstanding(), 0);
}

#[test]
fn an_image_with_more_pixels_than_can_be_numbered_has_no_counts() {
    assert!(SampleCounts::new(usize::MAX, 2, 1).is_none());
    assert!(SampleCounts::new(2, usize::MAX, 1).is_none());
    assert!(SampleCounts::new(usize::MAX, 0, 1).is_some());
}

#[test]
fn many_samples_per_pixel_are_counted_without_overflow() {
    let mut counts = SampleCounts::new(2, 1, u64::MAX).unwrap();
    assert_eq!(counts.outstanding(), 2 * (u64::MAX as u128));
    counts.record(&came_back(0, 0, 0));
    assert_eq!(counts.outstanding(), 2 * (u64::MAX as u128) - 1);
    assert!(!counts.is_complete());
}
