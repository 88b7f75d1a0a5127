use dray::camera::{
    depth_allows, ray_color_iteration, CameraRayIterator, HitProbe, PixelIndexEntry,
    RayColorStatus,
};

fn flags(finished: bool, hit_object_or_stop: bool) -> RayColorStatus {
    RayColorStatus { finished, hit_object_or_stop }
}

#[test]
fn a_state_without_depth_is_finished_whatever_the_ray_hits() {
    for probe in [HitProbe::Miss, HitProbe::Absorbed, HitProbe::Scattered] {
        let mut depth = 0;
        assert!(!depth_allows(depth));
        assert_eq!(ray_color_iteration(&mut depth, probe), flags(true, true));
        assert_eq!(depth, -1);
    }
    let mut depth = -5;
    assert_eq!(ray_color_iteration(&mut depth, HitProbe::Scattered), flags(true, true));
    assert_eq!(depth, -6);
}

#[test]
fn a_miss_is_finished_and_lets_the_next_brick_look() {
    let mut depth = 1;
    assert!(depth_allows(depth));
    assert_eq!(ray_color_iteration(&mut depth, HitProbe::Miss), flags(true, false));
    assert_eq!(depth, 0);
}

#[test]
fn a_scattered_ray_goes_on_with_one_bounce_less() {
    let mut depth = 50;
    assert_eq!(ray_color_iteration(&mut depth, HitProbe::Scattered), flags(false, true));
    assert_eq!(depth, 49);
}

#[test]
fn an_absorbed_ray_is_finished_and_stops() {
    let mut depth = 3;
    assert_eq!(ray_color_iteration(&mut depth, HitProbe::Absorbed), flags(true, true));
    assert_eq!(depth, 2);
}

#[test]
fn the_smallest_depth_stays() {
    let mut depth = i32::MIN;
    assert_eq!(ray_color_iteration(&mut depth, HitProbe::Miss), flags(true, true));
    assert_eq!(depth, i32::MIN);
    let mut depth = i32::MAX;
    assert_eq!(ray_color_iteration(&mut depth, HitProbe::Miss), flags(true, false));
    assert_eq!(depth, i32::MAX - 1);
}

#[test]
fn the_same_bounce_gives_the_same_answer() {
    for depth in [-1, 0, 1, 2, 50] {
        for probe in [HitProbe::Miss, HitProbe::Absorbed, HitProbe::Scattered] {
            let mut first = depth;
            let mut second = depth;
            let a = ray_color_iteration(&mut first, probe);
            let b = ray_color_iteration(&mut second, probe);
            assert_eq!(a, b);
            assert_eq!(first, second);
        }
    }
}

#[test]
fn probes_are_made_from_what_was_found() {
    assert_eq!(HitProbe::from_scatter(None), HitProbe::Miss);
    assert_eq!(HitProbe::from_scatter(Some(true)), HitProbe::Scattered);
    assert_eq!(HitProbe::from_scatter(Some(false)), HitProbe::Absorbed);
}

#[test]
fn the_default_status_is_neither_finished_nor_stopped() {
    assert_eq!(RayColorStatus::default(), flags(false, false));
}

#[test]
fn four_by_four_with_one_sample_gives_every_pixel_once() {
    let mut it = CameraRayIterator::new(4, 4, 1).unwrap();
    assert_eq!(it.remaining(), 16);
    let mut seen = vec![0; 16];
    let mut count = 0;
    while let Some(idx) = it.next() {
        assert!(0 <= idx.pixel_i && idx.pixel_i < 4);
        assert!(0 <= idx.pixel_j && idx.pixel_j < 4);
        assert_eq!(idx.pixel_sample_num, 0);
        seen[(idx.pixel_j * 4 + idx.pixel_i) as usize] += 1;
        count += 1;
    }
    assert_eq!(count, 16);
    assert_eq!(seen, vec![1; 16]);
    assert_eq!(it.remaining(), 0);
    assert_eq!(it.next(), None);
    assert_eq!(it.next(), None);
}

#[test]
fn every_pass_visits_every_pixel_once() {
    let (w, h, spp) = (7, 5, 4);
    let mut it = CameraRayIterator::new(w, h, spp).unwrap();
    assert_eq!(it.remaining(), 140);
    for pass in 0..spp {
        let mut seen = vec![0; (w * h) as usize];
        for _ in 0..(w * h) {
            let idx = it.next().unwrap();
            assert_eq!(idx.pixel_sample_num, pass);
            assert!(0 <= idx.pixel_i && idx.pixel_i < w);
            assert!(0 <= idx.pixel_j && idx.pixel_j < h);
            seen[(idx.pixel_j * w + idx.pixel_i) as usize] += 1;
        }
        assert_eq!(seen, vec![1; (w * h) as usize]);
        assert_eq!(it.remaining(), ((spp - pass - 1) * w * h) as u64);
    }
    assert_eq!(it.next(), None);
}

#[test]
fn a_wide_image_splits_pixel_numbers_by_its_width() {
    let mut it = CameraRayIterator::new(5, 1, 1).unwrap();
    let mut columns = Vec::new();
    while let Some(idx) = it.next() {
        assert_eq!(idx.pixel_j, 0);
        columns.push(idx.pixel_i);
    }
    columns.sort();
    assert_eq!(columns, vec![0, 1, 2, 3, 4]);

    let mut it = CameraRayIterator::new(1, 5, 1).unwrap();
    let mut rows = Vec::new();
    while let Some(idx) = it.next() {
        assert_eq!(idx.pixel_i, 0);
        rows.push(idx.pixel_j);
    }
    rows.sort();
    assert_eq!(rows, vec![0, 1, 2, 3, 4]);
}

#[test]
fn the_passes_are_shuffled() {
    let (w, h) = (64, 64);
    let mut it = CameraRayIterator::new(w, h, 2).unwrap();
    let mut first = Vec::new();
    for _ in 0..(w * h) {
        let idx = it.next().unwrap();
        first.push(idx.pixel_j * w + idx.pixel_i);
    }
    let mut second = Vec::new();
    for _ in 0..(w * h) {
        let idx = it.next().unwrap();
        second.push(idx.pixel_j * w + idx.pixel_i);
    }
    let scan: Vec<i32> = (0..w * h).collect();
    assert_ne!(first, scan);
    assert_ne!(second, scan);
    assert_ne!(first, second);
}

#[test]
fn a_schedule_without_samples_is_empty() {
    let mut it = CameraRayIterator::new(3, 3, 0).unwrap();
    assert_eq!(it.remaining(), 0);
    assert_eq!(it.next(), None);
}

#[test]
fn images_that_cannot_be_numbered_are_refused() {
    assert!(CameraRayIterator::new(0, 4, 1).is_none());
    assert!(CameraRayIterator::new(4, 0, 1).is_none());
    assert!(CameraRayIterator::new(-1, 4, 1).is_none());
    assert!(CameraRayIterator::new(4, 4, -1).is_none());
    assert!(CameraRayIterator::new(65536, 32768, 1).is_none());
    assert!(CameraRayIterator::new(i32::MAX, 2, 1).is_none());
    assert!(CameraRayIterator::new(1, 1, i32::MAX).is_some());
}

#[test]
fn pixel_indices_compare_by_value() {
    let a = PixelIndexEntry { pixel_i: 1, pixel_j: 2, pixel_sample_num: 3 };
    let b = PixelIndexEntry { pixel_i: 1, pixel_j: 2, pixel_sample_num: 3 };
    let c = PixelIndexEntry { pixel_i: 1, pixel_j: 2, pixel_sample_num: 4 };
    assert_eq!(a, b);
    assert_ne!(a, c);
}
