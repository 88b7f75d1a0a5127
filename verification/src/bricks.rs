//! The brick lattice and the table that assigns every brick slot to object
//! workers.
//!
//! Bricks tile the XZ plane in a six-by-six grid; Y is unbounded. A brick at
//! the rim of the grid extends to infinity on its outward faces. The grid is
//! laid out `repeat` times in a row, which gives `36 * repeat` slots; slot `k`
//! is served by worker `k mod N`.

use vstd::prelude::*;
use crate::error::FabricError;
use crate::messages::Endpoint;

verus! {

/// Number of lattice steps along each of the two axes.
pub const LATTICE_STEPS: usize = 6;

/// Number of bricks in one copy of the lattice.
pub const LATTICE_BRICKS: usize = 36;

/// One end of an interval: a finite integer coordinate or an infinity.
#[derive(Clone, Copy, PartialEq, Eq, Structural, Debug)]
pub enum Bound {
    NegInf,
    At(i32),
    PosInf,
}

/// An axis-aligned box of the lattice. Y is unbounded in both directions.
#[derive(Clone, Copy, PartialEq, Eq, Structural, Debug)]
pub struct Brick {
    pub x_min: Bound,
    pub x_max: Bound,
    pub z_min: Bound,
    pub z_max: Bound,
}

/// Centre coordinate of lattice step `i`: -10, -6, -2, 2, 6, 10.
pub open spec fn lattice_center(i: int) -> int {
    4 * i - 10
}

/// Lower end of step `i`: four below the centre, or minus infinity at the first step.
pub open spec fn lattice_lower(i: int) -> Bound {
    if i == 0 {
        Bound::NegInf
    } else {
        Bound::At((lattice_center(i) - 4) as i32)
    }
}

/// Upper end of step `i`: four above the centre, or plus infinity at the last step.
pub open spec fn lattice_upper(i: int) -> Bound {
    if i == LATTICE_STEPS - 1 {
        Bound::PosInf
    } else {
        Bound::At((lattice_center(i) + 4) as i32)
    }
}

/// The brick of slot `k`: the X step advances once per six slots, the Z step
/// with every slot, and the pattern repeats every 36 slots.
pub open spec fn lattice_brick(k: int) -> Brick {
    let a = (k % 36) / 6;
    let b = k % 6;
    Brick {
        x_min: lattice_lower(a),
        x_max: lattice_upper(a),
        z_min: lattice_lower(b),
        z_max: lattice_upper(b),
    }
}

/// Lower and upper end of lattice step `i`.
fn lattice_step(i: usize) -> (r: (Bound, Bound))
    requires
        i < LATTICE_STEPS,
    ensures
        r.0 == lattice_lower(i as int),
        r.1 == lattice_upper(i as int),
{
    let step: i32 = i as i32;
    let center: i32 = 4 * step - 10;
    let lower = if i == 0 {
        Bound::NegInf
    } else {
        Bound::At(center - 4)
    };
    let upper = if i == LATTICE_STEPS - 1 {
        Bound::PosInf
    } else {
        Bound::At(center + 4)
    };
    (lower, upper)
}

/// Computes the brick of slot `k`.
pub fn brick_of_slot(k: usize) -> (b: Brick)
    ensures
        b == lattice_brick(k as int),
{
    let a: usize = (k % LATTICE_BRICKS) / LATTICE_STEPS;
    let z: usize = k % LATTICE_STEPS;
    let (x_min, x_max) = lattice_step(a);
    let (z_min, z_max) = lattice_step(z);
    Brick { x_min, x_max, z_min, z_max }
}

/// The bricks of a session and, for each, the ordered list of object workers
/// that serve it. Every list holds at least one worker.
pub struct BrickTable {
    bricks: Vec<Brick>,
    workers: Vec<Vec<Endpoint>>,
}

impl BrickTable {
    #[verifier::type_invariant]
    spec fn inv(self) -> bool {
        &&& self.bricks@.len() == self.workers@.len()
        &&& forall|k: int| 0 <= k < self.workers@.len() ==> (#[trigger] self.workers@[k])@.len() > 0
    }

    /// The bricks, by slot.
    pub closed spec fn bricks(self) -> Seq<Brick> {
        self.bricks@
    }

    /// The worker list of each slot.
    pub closed spec fn workers(self) -> Seq<Seq<Endpoint>> {
        Seq::new(self.workers@.len(), |k: int| self.workers@[k]@)
    }

    /// Well-formedness of a table given by its two columns.
    pub open spec fn well_formed(bricks: Seq<Brick>, workers: Seq<Seq<Endpoint>>) -> bool {
        &&& bricks.len() == workers.len()
        &&& forall|k: int| 0 <= k < workers.len() ==> (#[trigger] workers[k]).len() > 0
    }

    /// Every table is well formed: it has one worker list per brick, and no list is empty.
    pub fn check(&self)
        ensures
            Self::well_formed(self.bricks(), self.workers()),
    {
        proof {
            use_type_invariant(self);
        }
    }

    /// Number of brick slots.
    pub fn len(&self) -> (n: usize)
        ensures
            n == self.bricks().len(),
            n == self.workers().len(),
    {
        proof {
            use_type_invariant(self);
        }
        self.bricks.len()
    }

    /// The brick of slot `k`, if the table has such a slot.
    pub fn brick(&self, k: usize) -> (b: Option<Brick>)
        ensures
            k < self.bricks().len() ==> b == Some(self.bricks()[k as int]),
            k >= self.bricks().len() ==> b.is_none(),
    {
        if k < self.bricks.len() {
            Some(self.bricks[k])
        } else {
            None
        }
    }

    /// Number of workers that serve slot `k`; zero exactly when there is no such slot.
    pub fn replicas(&self, k: usize) -> (n: usize)
        ensures
            k < self.workers().len() ==> n == self.workers()[k as int].len() && n > 0,
            k >= self.workers().len() ==> n == 0,
    {
        proof {
            use_type_invariant(self);
        }
        if k < self.workers.len() {
            self.workers[k].len()
        } else {
            0
        }
    }

    /// The `r`-th worker of slot `k`, if there is one.
    pub fn worker(&self, k: usize, r: usize) -> (e: Option<Endpoint>)
        ensures
            k < self.workers().len() && r < self.workers()[k as int].len() ==> e == Some(
                self.workers()[k as int][r as int],
            ),
            !(k < self.workers().len() && r < self.workers()[k as int].len()) ==> e.is_none(),
    {
        if k < self.workers.len() {
            if r < self.workers[k].len() {
                return Some(self.workers[k][r]);
            }
        }
        None
    }

    /// The `r`-th worker of slot `k`.
    pub(crate) fn slot_worker(&self, k: usize, r: usize) -> (e: Endpoint)
        requires
            k < self.workers().len(),
            r < self.workers()[k as int].len(),
        ensures
            e == self.workers()[k as int][r as int],
    {
        self.workers[k][r]
    }

    /// Lays the lattice out `repeat` times and deals the slots to `servers` in
    /// turn. Fails with `NoWorkers` exactly when `servers` is empty.
    pub fn build(servers: &Vec<Endpoint>, repeat: u16) -> (r: Result<BrickTable, FabricError>)
        ensures
            servers@.len() == 0 ==> r == Err::<BrickTable, FabricError>(FabricError::NoWorkers),
            servers@.len() > 0 ==> r.is_ok(),
            r matches Ok(t) ==> {
                &&& t.bricks().len() == 36 * repeat
                &&& t.workers().len() == 36 * repeat
                &&& forall|k: int|
                    0 <= k < 36 * repeat ==> #[trigger] t.bricks()[k] == lattice_brick(k)
                &&& forall|k: int|
                    0 <= k < 36 * repeat ==> #[trigger] t.workers()[k] == seq![
                        servers@[k % (servers@.len() as int)],
                    ]
            },
    {
        let n: usize = servers.len();
        if n == 0 {
            return Err(FabricError::NoWorkers);
        }
        let total: usize = LATTICE_BRICKS * (repeat as usize);
        let mut bricks: Vec<Brick> = Vec::new();
        let mut workers: Vec<Vec<Endpoint>> = Vec::new();
        let mut k: usize = 0;
        let mut turn: usize = 0;
        while k < total
            invariant
                n == servers@.len(),
                n > 0,
                total == 36 * repeat,
                k <= total,
                turn == k % n,
                bricks@.len() == k,
                workers@.len() == k,
                forall|j: int| 0 <= j < k ==> #[trigger] bricks@[j] == lattice_brick(j),
                forall|j: int|
                    0 <= j < k ==> (#[trigger] workers@[j])@ == seq![servers@[j % (n as int)]],
            decreases total - k,
        {
            bricks.push(brick_of_slot(k));
            let mut list: Vec<Endpoint> = Vec::new();
            list.push(servers[turn]);
            workers.push(list);
            proof {
                lemma_next_turn(k as int, n as int);
            }
            turn = if turn + 1 == n {
                0
            } else {
                turn + 1
            };
            k = k + 1;
        }
        let t = BrickTable { bricks, workers };
        assert(t.workers() =~= Seq::new(total as nat, |j: int| seq![servers@[j % (n as int)]]));
        Ok(t)
    }

    /// Rebuilds a table from its two columns, as a ray worker does with the
    /// columns it was sent. Succeeds exactly when they are well formed.
    pub fn from_parts(bricks: Vec<Brick>, workers: Vec<Vec<Endpoint>>) -> (r: Option<BrickTable>)
        ensures
            r.is_some() <==> Self::well_formed(bricks@, Seq::new(workers@.len(), |k: int| workers@[k]@)),
            r matches Some(t) ==> {
                &&& t.bricks() == bricks@
                &&& t.workers() == Seq::new(workers@.len(), |k: int| workers@[k]@)
            },
    {
        let ghost lists = Seq::new(workers@.len(), |k: int| workers@[k]@);
        if bricks.len() != workers.len() {
            return None;
        }
        let mut k: usize = 0;
        while k < workers.len()
            invariant
                k <= workers@.len(),
                lists == Seq::new(workers@.len(), |k: int| workers@[k]@),
                forall|j: int| 0 <= j < k ==> (#[trigger] workers@[j])@.len() > 0,
            decreases workers@.len() - k,
        {
            if workers[k].len() == 0 {
                assert(lists[k as int].len() == 0);
                return None;
            }
            k = k + 1;
        }
        assert forall|j: int| 0 <= j < lists.len() implies (#[trigger] lists[j]).len() > 0 by {
            assert(workers@[j]@.len() > 0);
        }
        Some(BrickTable { bricks, workers })
    }
}

impl Clone for BrickTable {
    /// A copy with the same bricks and the same workers.
    fn clone(&self) -> (copy: BrickTable)
        ensures
            copy.bricks() == self.bricks(),
            copy.workers() == self.workers(),
    {
        proof {
            use_type_invariant(self);
        }
        let n: usize = self.bricks.len();
        let mut bricks: Vec<Brick> = Vec::new();
        let mut workers: Vec<Vec<Endpoint>> = Vec::new();
        let mut k: usize = 0;
        while k < n
            invariant
                n == self.bricks@.len(),
                n == self.workers@.len(),
                k <= n,
                bricks@ == self.bricks@.take(k as int),
                workers@.len() == k,
                forall|j: int| 0 <= j < k ==> (#[trigger] workers@[j])@ == self.workers@[j]@,
            decreases n - k,
        {
            bricks.push(self.bricks[k]);
            let list = &self.workers[k];
            let mut copied: Vec<Endpoint> = Vec::new();
            let mut r: usize = 0;
            while r < list.len()
                invariant
                    r <= list@.len(),
                    copied@ == list@.take(r as int),
                decreases list@.len() - r,
            {
                copied.push(list[r]);
                assert(list@.take(r + 1) =~= list@.take(r as int).push(list@[r as int]));
                r = r + 1;
            }
            assert(list@.take(list@.len() as int) =~= list@);
            workers.push(copied);
            assert(self.bricks@.take(k + 1) =~= self.bricks@.take(k as int).push(
                self.bricks@[k as int],
            ));
            k = k + 1;
        }
        assert(self.bricks@.take(n as int) =~= self.bricks@);
        let copy = BrickTable { bricks, workers };
        assert(copy.workers() =~= self.workers());
        copy
    }
}

/// Stepping the slot number steps the worker turn, which wraps at `n`.
proof fn lemma_next_turn(k: int, n: int)
    requires
        0 <= k,
        0 < n,
    ensures
        (k + 1) % n == if k % n + 1 == n {
            0
        } else {
            k % n + 1
        },
{
    vstd::arithmetic::div_mod::lemma_mod_adds(k, 1, n);
    vstd::arithmetic::div_mod::lemma_fundamental_div_mod(k, n);
    vstd::arithmetic::div_mod::lemma_fundamental_div_mod(k + 1, n);
    if k % n + 1 == n {
        assert((k + 1) == n * (k / n + 1)) by (nonlinear_arith)
            requires
                k == n * (k / n) + k % n,
                k % n + 1 == n,
        ;
        vstd::arithmetic::div_mod::lemma_mod_multiples_basic(k / n + 1, n);
    } else {
        vstd::arithmetic::div_mod::lemma_small_mod((k % n + 1) as nat, n as nat);
        vstd::arithmetic::div_mod::lemma_mod_add_multiples_vanish(k % n + 1, n);
        assert((k + 1) == n * (k / n) + (k % n + 1));
        vstd::arithmetic::div_mod::lemma_mod_multiples_vanish(k / n, k % n + 1, n);
    }
}

} // verus!
