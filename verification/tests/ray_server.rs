use dray::bricks::{brick_of_slot, BrickTable};
use dray::camera::{ray_color_iteration, HitProbe, PixelIndexEntry, RayColorStatus};
use dray::messages::{Endpoint, RayServerMessage, RayServerMessageType};
use dray::ray_server::{BounceAction, RayProcessor, RayServer, RayServerStep};

#[derive(Clone, Debug, PartialEq)]
struct State {
    depth: i32,
    bounces: u32,
}

fn host(n: u16) -> Endpoint {
    Endpoint { host: 0x7f00_0001, port: 8000 + n }
}

fn pixel(i: i32, j: i32) -> PixelIndexEntry {
    PixelIndexEntry { pixel_i: i, pixel_j: j, pixel_sample_num: 0 }
}

fn status(finished: bool, hit_object_or_stop: bool) -> RayColorStatus {
    RayColorStatus { finished, hit_object_or_stop }
}

fn table_of(lists: Vec<Vec<Endpoint>>) -> BrickTable {
    let bricks = (0..lists.len()).map(brick_of_slot).collect();
    BrickTable::from_parts(bricks, lists).unwrap()
}

fn three_bricks() -> BrickTable {
    table_of(vec![vec![host(0), host(1)], vec![host(2)], vec![host(3), host(4), host(5)]])
}

fn consult(action: Option<BounceAction<State>>) -> (usize, Endpoint) {
    match action {
        Some(BounceAction::Consult { brick, endpoint }) => (brick, endpoint),
        _ => panic!("the loop consults a worker"),
    }
}

fn report(action: Option<BounceAction<State>>) -> (State, bool) {
    match action {
        Some(BounceAction::Report { state, sky }) => (state, sky),
        _ => panic!("the loop reports the sample"),
    }
}

#[test]
fn a_ray_that_enters_no_brick_shows_the_sky() {
    let mut processor = RayProcessor::new(three_bricks());
    let idx = pixel(0, 0);
    assert!(processor.accept(idx, State { depth: 1, bounces: 0 }));
    assert!(matches!(processor.pending(&idx), Some(BounceAction::Locate)));
    let (state, sky) = report(processor.bricks(&idx, &vec![None, None, None]));
    assert!(sky);
    assert_eq!(state, State { depth: 1, bounces: 0 });
    assert!(!processor.contains(&idx));
    assert_eq!(processor.len(), 0);
}

#[test]
fn without_bricks_every_ray_shows_the_sky() {
    let mut processor = RayProcessor::new(table_of(Vec::new()));
    let idx = pixel(3, 3);
    processor.accept(idx, State { depth: 0, bounces: 0 });
    let (state, sky) = report(processor.bricks(&idx, &Vec::new()));
    assert!(sky);
    assert_eq!(state.depth, 0);
}

#[test]
fn in_an_empty_scene_a_ray_passes_its_brick_and_shows_the_sky() {
    let mut processor = RayProcessor::new(three_bricks());
    let idx = pixel(1, 2);
    processor.accept(idx, State { depth: 1, bounces: 0 });
    let (brick, endpoint) = consult(processor.bricks(&idx, &vec![None, Some(17), None]));
    assert_eq!((brick, endpoint), (1, host(2)));
    let mut depth = processor.candidate(&idx).unwrap().depth;
    let answer = ray_color_iteration(&mut depth, HitProbe::Miss);
    assert_eq!(answer, status(true, false));
    let (state, sky) = report(processor.reply(&idx, State { depth, bounces: 0 }, answer));
    assert!(sky);
    assert_eq!(state.depth, 0);
}

#[test]
fn bricks_are_consulted_nearest_first_until_one_stops_the_round() {
    let mut processor = RayProcessor::new(three_bricks());
    let idx = pixel(0, 0);
    processor.accept(idx, State { depth: 9, bounces: 0 });
    let first = consult(processor.bricks(&idx, &vec![Some(30), Some(10), Some(20)]));
    assert_eq!(first, (1, host(2)));
    let second = consult(processor.reply(&idx, State { depth: 8, bounces: 0 }, status(true, false)));
    assert_eq!(second, (2, host(3)));
    assert_eq!(processor.candidate(&idx), Some(&State { depth: 8, bounces: 0 }));
    let next = processor.reply(&idx, State { depth: 7, bounces: 1 }, status(false, true));
    assert!(matches!(next, Some(BounceAction::Locate)));
    assert_eq!(processor.candidate(&idx), Some(&State { depth: 7, bounces: 1 }));
    let again = consult(processor.bricks(&idx, &vec![Some(5), None, None]));
    assert_eq!(again, (0, host(0)));
    let (state, sky) = report(processor.reply(&idx, State { depth: 6, bounces: 1 }, status(true, true)));
    assert!(!sky);
    assert_eq!(state, State { depth: 6, bounces: 1 });
    assert!(!processor.contains(&idx));
}

#[test]
fn a_failed_replica_is_followed_by_its_peer() {
    let mut processor = RayProcessor::new(three_bricks());
    let idx = pixel(0, 0);
    let start = State { depth: 4, bounces: 0 };
    processor.accept(idx, start.clone());
    assert_eq!(consult(processor.bricks(&idx, &vec![Some(1), None, Some(2)])), (0, host(0)));
    assert_eq!(consult(processor.failure(&idx)), (0, host(1)));
    assert_eq!(processor.candidate(&idx), Some(&start));
    let next = consult(processor.reply(&idx, State { depth: 3, bounces: 0 }, status(true, false)));
    assert_eq!(next, (2, host(3)));
    assert_eq!(consult(processor.failure(&idx)), (2, host(4)));
    assert_eq!(consult(processor.failure(&idx)), (2, host(5)));
    let (state, sky) = report(processor.reply(&idx, State { depth: 2, bounces: 0 }, status(true, true)));
    assert!(!sky);
    assert_eq!(state.depth, 2);
}

#[test]
fn after_the_last_replica_the_loop_pauses_and_starts_over() {
    let mut processor = RayProcessor::new(three_bricks());
    let idx = pixel(0, 0);
    let start = State { depth: 4, bounces: 0 };
    processor.accept(idx, start.clone());
    assert_eq!(consult(processor.bricks(&idx, &vec![Some(1), None, None])), (0, host(0)));
    assert_eq!(consult(processor.failure(&idx)), (0, host(1)));
    for _ in 0..3 {
        assert!(matches!(processor.failure(&idx), Some(BounceAction::Sleep)));
        assert!(matches!(processor.pending(&idx), Some(BounceAction::Sleep)));
        assert!(matches!(processor.failure(&idx), Some(BounceAction::Sleep)));
        assert!(matches!(
            processor.reply(&idx, State { depth: 0, bounces: 9 }, status(true, true)),
            Some(BounceAction::Sleep)
        ));
        assert_eq!(consult(processor.resumed(&idx)), (0, host(0)));
        assert_eq!(consult(processor.resumed(&idx)), (0, host(0)));
        assert_eq!(consult(processor.failure(&idx)), (0, host(1)));
        assert_eq!(processor.candidate(&idx), Some(&start));
    }
}

#[test]
fn a_brick_with_one_replica_pauses_at_its_first_failure() {
    let mut processor = RayProcessor::new(three_bricks());
    let idx = pixel(0, 0);
    processor.accept(idx, State { depth: 4, bounces: 0 });
    assert_eq!(consult(processor.bricks(&idx, &vec![None, Some(1), None])), (1, host(2)));
    assert!(matches!(processor.failure(&idx), Some(BounceAction::Sleep)));
    assert_eq!(consult(processor.resumed(&idx)), (1, host(2)));
}

#[test]
fn events_out_of_turn_change_nothing_in_a_loop() {
    let mut processor = RayProcessor::new(three_bricks());
    let idx = pixel(0, 0);
    let start = State { depth: 4, bounces: 0 };
    processor.accept(idx, start.clone());
    assert!(matches!(processor.failure(&idx), Some(BounceAction::Locate)));
    assert!(matches!(processor.resumed(&idx), Some(BounceAction::Locate)));
    assert!(matches!(
        processor.reply(&idx, State { depth: 0, bounces: 5 }, status(true, true)),
        Some(BounceAction::Locate)
    ));
    assert_eq!(processor.candidate(&idx), Some(&start));
    assert!(matches!(processor.bricks(&idx, &vec![Some(1)]), Some(BounceAction::Locate)));
    assert!(matches!(
        processor.bricks(&idx, &vec![Some(1), None, None, None]),
        Some(BounceAction::Locate)
    ));
    assert_eq!(consult(processor.bricks(&idx, &vec![None, None, Some(1)])), (2, host(3)));
    assert_eq!(consult(processor.bricks(&idx, &vec![Some(1), None, None])), (2, host(3)));
    assert_eq!(consult(processor.resumed(&idx)), (2, host(3)));
}

#[test]
fn a_sample_in_flight_keeps_its_loop() {
    let mut processor = RayProcessor::new(three_bricks());
    let a = pixel(0, 0);
    let b = pixel(1, 0);
    assert!(processor.accept(a, State { depth: 4, bounces: 0 }));
    assert!(processor.accept(b, State { depth: 5, bounces: 0 }));
    assert!(!processor.accept(a, State { depth: 9, bounces: 9 }));
    assert_eq!(processor.len(), 2);
    assert_eq!(processor.candidate(&a), Some(&State { depth: 4, bounces: 0 }));
    assert_eq!(consult(processor.bricks(&a, &vec![Some(1), None, None])), (0, host(0)));
    assert!(matches!(processor.pending(&b), Some(BounceAction::Locate)));
    assert_eq!(consult(processor.bricks(&b, &vec![None, None, Some(1)])), (2, host(3)));
    assert_eq!(consult(processor.pending(&a)), (0, host(0)));
    let (state, _) = report(processor.reply(&b, State { depth: 4, bounces: 0 }, status(true, true)));
    assert_eq!(state.depth, 4);
    assert_eq!(processor.len(), 1);
    assert!(processor.contains(&a));
    assert!(!processor.contains(&b));
    assert!(processor.accept(b, State { depth: 1, bounces: 0 }));
}

#[test]
fn events_for_an_unknown_sample_are_passed_over() {
    let mut processor: RayProcessor<State> = RayProcessor::new(three_bricks());
    let idx = pixel(4, 4);
    assert!(processor.pending(&idx).is_none());
    assert!(processor.candidate(&idx).is_none());
    assert!(processor.bricks(&idx, &vec![None, None, None]).is_none());
    assert!(processor.reply(&idx, State { depth: 0, bounces: 0 }, status(true, true)).is_none());
    assert!(processor.failure(&idx).is_none());
    assert!(processor.resumed(&idx).is_none());
    assert_eq!(processor.len(), 0);
    assert_eq!(processor.brick_table().len(), 3);
}

#[test]
fn with_no_depth_the_first_consultation_ends_the_sample_in_black() {
    let mut processor = RayProcessor::new(three_bricks());
    let idx = pixel(0, 0);
    processor.accept(idx, State { depth: 0, bounces: 0 });
    consult(processor.bricks(&idx, &vec![Some(3), Some(2), Some(1)]));
    let mut depth = processor.candidate(&idx).unwrap().depth;
    let answer = ray_color_iteration(&mut depth, HitProbe::Scattered);
    assert_eq!(answer, status(true, true));
    let (state, sky) = report(processor.reply(&idx, State { depth, bounces: 0 }, answer));
    assert!(!sky);
    assert_eq!(state.depth, -1);
}

#[test]
fn a_loop_is_answered_at_most_once_more_than_its_depth() {
    let probes = [HitProbe::Miss, HitProbe::Scattered, HitProbe::Absorbed];
    let mut seed: u64 = 99;
    for max_depth in 0..12 {
        for _ in 0..50 {
            let mut processor = RayProcessor::new(three_bricks());
            let idx = pixel(0, 0);
            processor.accept(idx, State { depth: max_depth, bounces: 0 });
            let mut action = processor.pending(&idx);
            let mut answers = 0;
            let mut steps = 0;
            loop {
                steps += 1;
                assert!(steps < 10_000);
                seed = seed.wrapping_mul(6364136223846793005).wrapping_add(1442695040888963407);
                action = match action {
                    Some(BounceAction::Locate) => {
                        let keys = (0..3)
                            .map(|k| if (seed >> (20 + k)) & 1 == 1 { Some(seed >> 50) } else { None })
                            .collect();
                        processor.bricks(&idx, &keys)
                    }
                    Some(BounceAction::Consult { .. }) => {
                        if (seed >> 30) % 4 == 0 {
                            processor.failure(&idx)
                        } else {
                            let mut state = processor.candidate(&idx).unwrap().clone();
                            let probe = probes[((seed >> 40) % 3) as usize];
                            let answer = ray_color_iteration(&mut state.depth, probe);
                            answers += 1;
                            processor.reply(&idx, state, answer)
                        }
                    }
                    Some(BounceAction::Sleep) => processor.resumed(&idx),
                    Some(BounceAction::Report { state, .. }) => {
                        assert_eq!(state.depth, max_depth - answers);
                        break;
                    }
                    None => panic!("the sample is in flight until it is reported"),
                };
            }
            assert!(answers <= max_depth + 1);
            assert!(answers <= max_depth + 3);
            assert!(!processor.contains(&idx));
        }
    }
}

#[test]
fn a_ray_worker_traces_pixels_only_once_it_has_the_parameters() {
    let mut server = RayServer::new();
    assert!(!server.should_stop());
    let ray: RayServerMessage<u8, f64> = RayServerMessage::new_share_ray(pixel(1, 1), 0.5);
    assert!(matches!(server.handle_msg(ray), RayServerStep::Dropped));

    let params: RayServerMessage<u8, f64> = RayServerMessage::new_share_params(three_bricks(), 7);
    match server.handle_msg(params) {
        RayServerStep::Start(table, camera) => {
            assert_eq!(table.len(), 3);
            assert_eq!(camera, 7);
        }
        _ => panic!("the parameters start a processor"),
    }
    let ray: RayServerMessage<u8, f64> = RayServerMessage::new_share_ray(pixel(1, 1), 0.5);
    match server.handle_msg(ray) {
        RayServerStep::Trace(idx, ray) => {
            assert_eq!(idx, pixel(1, 1));
            assert_eq!(ray, 0.5);
        }
        _ => panic!("a pixel after the parameters is traced"),
    }
    server.end_session();
    let ray: RayServerMessage<u8, f64> = RayServerMessage::new_share_ray(pixel(1, 1), 0.5);
    assert!(matches!(server.handle_msg(ray), RayServerStep::Dropped));
}

#[test]
fn a_ray_worker_drops_what_lacks_its_payload() {
    let mut server = RayServer::new();
    let tag = |t| -> RayServerMessage<u8, f64> { RayServerMessage::new_no_data(t) };
    assert!(matches!(
        server.handle_msg(tag(RayServerMessageType::SendObjectServerDirectory)),
        RayServerStep::Dropped
    ));
    let ray: RayServerMessage<u8, f64> = RayServerMessage::new_share_ray(pixel(1, 1), 0.5);
    assert!(matches!(server.handle_msg(ray), RayServerStep::Dropped));
    let half = RayServerMessage::<u8, f64> {
        message_type: RayServerMessageType::SendObjectServerDirectory,
        object_servers: Some(three_bricks()),
        camera: None,
        pixel_index: None,
        ray: None,
    };
    assert!(matches!(server.handle_msg(half), RayServerStep::Dropped));
    let params: RayServerMessage<u8, f64> = RayServerMessage::new_share_params(three_bricks(), 7);
    assert!(matches!(server.handle_msg(params), RayServerStep::Start(_, 7)));
    assert!(matches!(server.handle_msg(tag(RayServerMessageType::SendPixel)), RayServerStep::Dropped));
    assert!(matches!(server.handle_msg(tag(RayServerMessageType::CheckHit)), RayServerStep::Dropped));
}

#[test]
fn a_ray_worker_pauses_and_resumes_its_announcer() {
    let mut server = RayServer::new();
    let tag = |t| -> RayServerMessage<u8, f64> { RayServerMessage::new_no_data(t) };
    assert!(matches!(
        server.handle_msg(tag(RayServerMessageType::Deregistration)),
        RayServerStep::PauseAnnouncer
    ));
    assert!(server.should_stop());
    assert!(matches!(
        server.handle_msg(tag(RayServerMessageType::Registration)),
        RayServerStep::ResumeAnnouncer
    ));
    assert!(!server.should_stop());
}
