use dray::bricks::{brick_of_slot, Bound, Brick, BrickTable, LATTICE_BRICKS};
use dray::error::FabricError;
use dray::messages::Endpoint;

fn worker(n: u16) -> Endpoint {
    Endpoint { host: 0x7f00_0001, port: 8000 + n }
}

#[test]
fn lattice_steps_are_eight_wide_and_open_at_the_rim() {
    let steps = [
        (Bound::NegInf, Bound::At(-6)),
        (Bound::At(-10), Bound::At(-2)),
        (Bound::At(-6), Bound::At(2)),
        (Bound::At(-2), Bound::At(6)),
        (Bound::At(2), Bound::At(10)),
        (Bound::At(6), Bound::PosInf),
    ];
    for a in 0..6 {
        for b in 0..6 {
            let brick = brick_of_slot(6 * a + b);
            assert_eq!((brick.x_min, brick.x_max), steps[a]);
            assert_eq!((brick.z_min, brick.z_max), steps[b]);
        }
    }
}

#[test]
fn slots_walk_z_first_and_repeat_every_36() {
    let first = Brick {
        x_min: Bound::NegInf,
        x_max: Bound::At(-6),
        z_min: Bound::NegInf,
        z_max: Bound::At(-6),
    };
    assert_eq!(brick_of_slot(0), first);
    assert_eq!(
        brick_of_slot(1),
        Brick { x_min: Bound::NegInf, x_max: Bound::At(-6), z_min: Bound::At(-10), z_max: Bound::At(-2) }
    );
    assert_eq!(
        brick_of_slot(6),
        Brick { x_min: Bound::At(-10), x_max: Bound::At(-2), z_min: Bound::NegInf, z_max: Bound::At(-6) }
    );
    assert_eq!(
        brick_of_slot(35),
        Brick { x_min: Bound::At(6), x_max: Bound::PosInf, z_min: Bound::At(6), z_max: Bound::PosInf }
    );
    assert_eq!(
        brick_of_slot(14),
        Brick { x_min: Bound::At(-6), x_max: Bound::At(2), z_min: Bound::At(-6), z_max: Bound::At(2) }
    );
    for k in 0..LATTICE_BRICKS {
        assert_eq!(brick_of_slot(k), brick_of_slot(k + 36));
        assert_eq!(brick_of_slot(k), brick_of_slot(k + 360));
    }
}

#[test]
fn every_slot_has_a_worker_dealt_in_turn() {
    let servers = vec![worker(0), worker(1), worker(2), worker(3), worker(4)];
    let table = BrickTable::build(&servers, 3).unwrap();
    assert_eq!(table.len(), 108);
    for k in 0..table.len() {
        assert_eq!(table.replicas(k), 1);
        assert_eq!(table.worker(k, 0), Some(servers[k % 5]));
        assert_eq!(table.worker(k, 1), None);
        assert_eq!(table.brick(k), Some(brick_of_slot(k)));
    }
    assert_eq!(table.replicas(108), 0);
    assert_eq!(table.worker(108, 0), None);
    assert_eq!(table.brick(108), None);
}

#[test]
fn one_worker_serves_every_slot() {
    let servers = vec![worker(7)];
    let table = BrickTable::build(&servers, 10).unwrap();
    assert_eq!(table.len(), 360);
    for k in 0..360 {
        assert_eq!(table.worker(k, 0), Some(worker(7)));
    }
}

#[test]
fn more_workers_than_slots_leaves_the_last_without_bricks() {
    let servers: Vec<Endpoint> = (0..50).map(worker).collect();
    let table = BrickTable::build(&servers, 1).unwrap();
    assert_eq!(table.len(), 36);
    for k in 0..36 {
        assert_eq!(table.worker(k, 0), Some(worker(k as u16)));
    }
}

#[test]
fn no_workers_no_table() {
    let servers: Vec<Endpoint> = Vec::new();
    assert!(matches!(BrickTable::build(&servers, 10), Err(FabricError::NoWorkers)));
    assert!(matches!(BrickTable::build(&servers, 0), Err(FabricError::NoWorkers)));
}

#[test]
fn no_repetition_no_bricks() {
    let servers = vec![worker(0)];
    let table = BrickTable::build(&servers, 0).unwrap();
    assert_eq!(table.len(), 0);
    assert_eq!(table.replicas(0), 0);
}

#[test]
fn a_table_is_rebuilt_from_well_formed_columns_only() {
    let bricks = vec![brick_of_slot(0), brick_of_slot(1)];
    let workers = vec![vec![worker(0), worker(1)], vec![worker(1)]];
    let table = BrickTable::from_parts(bricks.clone(), workers).unwrap();
    assert_eq!(table.len(), 2);
    assert_eq!(table.replicas(0), 2);
    assert_eq!(table.replicas(1), 1);
    assert_eq!(table.worker(0, 1), Some(worker(1)));
    assert_eq!(table.worker(0, 2), None);
    assert_eq!(table.brick(1), Some(brick_of_slot(1)));

    let empty_list = vec![vec![worker(0)], Vec::new()];
    assert!(BrickTable::from_parts(bricks.clone(), empty_list).is_none());
    let too_few = vec![vec![worker(0)]];
    assert!(BrickTable::from_parts(bricks, too_few).is_none());
    assert!(BrickTable::from_parts(Vec::new(), Vec::new()).is_some());
}
