//! Pixel samples and the decision an object worker takes on one bounce.

use rand::seq::SliceRandom;
use vstd::prelude::*;

verus! {

/// Column, row and sample number of one camera ray. It is fixed when the ray
/// is handed out and is the routing key on the way back.
#[derive(Clone, Copy, PartialEq, Eq, Structural, Debug, Hash)]
pub struct PixelIndexEntry {
    pub pixel_i: i32,
    pub pixel_j: i32,
    pub pixel_sample_num: i32,
}

/// The two flags an object worker returns for a bounce.
#[derive(Clone, Copy, PartialEq, Eq, Structural, Debug)]
pub struct RayColorStatus {
    /// The sample needs no further bounce.
    pub finished: bool,
    /// The ray hit a primitive, or ran out of depth: bricks further along the
    /// ray are not consulted for this bounce.
    pub hit_object_or_stop: bool,
}

impl Default for RayColorStatus {
    fn default() -> (s: RayColorStatus)
        ensures
            s == (RayColorStatus { finished: false, hit_object_or_stop: false }),
    {
        RayColorStatus { finished: false, hit_object_or_stop: false }
    }
}

/// What an object worker found along a ray among its own primitives.
#[derive(Clone, Copy, PartialEq, Eq, Structural, Debug)]
pub enum HitProbe {
    /// No primitive is hit.
    Miss,
    /// The nearest primitive is hit and its material absorbs the ray.
    Absorbed,
    /// The nearest primitive is hit and its material scatters the ray.
    Scattered,
}

impl HitProbe {
    /// The probe for what a worker found: nothing, or a hit together with
    /// whether the material of the hit scattered the ray.
    pub fn from_scatter(hit: Option<bool>) -> (p: HitProbe)
        ensures
            p == match hit {
                None => HitProbe::Miss,
                Some(true) => HitProbe::Scattered,
                Some(false) => HitProbe::Absorbed,
            },
    {
        match hit {
            None => HitProbe::Miss,
            Some(true) => HitProbe::Scattered,
            Some(false) => HitProbe::Absorbed,
        }
    }
}

/// Whether a ray state of depth `depth` may still look for a hit: one bounce
/// is spent on entry, and nothing may be left below zero.
pub open spec fn spec_depth_allows(depth: int) -> bool {
    depth - 1 >= 0
}

/// Depth after one bounce. The smallest representable depth stays as it is.
pub open spec fn spec_depth_after(depth: i32) -> i32 {
    if depth > i32::MIN {
        (depth - 1) as i32
    } else {
        depth
    }
}

/// The flags an object worker answers with: a state out of depth is finished
/// and stops the round whatever lies along the ray; a miss is finished but
/// lets the next brick look; an absorbed ray is finished and stops; a
/// scattered ray stops the round and goes on to another bounce.
pub open spec fn check_hit_status(depth: int, probe: HitProbe) -> RayColorStatus {
    if !spec_depth_allows(depth) {
        RayColorStatus { finished: true, hit_object_or_stop: true }
    } else {
        match probe {
            HitProbe::Miss => RayColorStatus { finished: true, hit_object_or_stop: false },
            HitProbe::Absorbed => RayColorStatus { finished: true, hit_object_or_stop: true },
            HitProbe::Scattered => RayColorStatus { finished: false, hit_object_or_stop: true },
        }
    }
}

/// A status an object worker can give to a ray state of depth `depth`.
pub open spec fn worker_status(depth: int, status: RayColorStatus) -> bool {
    exists|probe: HitProbe| status == check_hit_status(depth, probe)
}

/// Whether the sample's colour becomes its attenuation times black: the state
/// ran out of depth, or the material absorbed the ray.
pub open spec fn check_hit_blackens(depth: int, probe: HitProbe) -> bool {
    !spec_depth_allows(depth) || probe == HitProbe::Absorbed
}

/// Tells whether a state of this depth may look for a hit at all. When it may
/// not, the probe handed to `ray_color_iteration` is not looked at.
pub fn depth_allows(depth: i32) -> (b: bool)
    ensures
        b == spec_depth_allows(depth as int),
{
    depth >= 1
}

/// One bounce at an object worker: spends one unit of depth and answers with
/// the status for what the probe found.
pub fn ray_color_iteration(depth: &mut i32, probe: HitProbe) -> (status: RayColorStatus)
    ensures
        *final(depth) == spec_depth_after(*old(depth)),
        status == check_hit_status(*old(depth) as int, probe),
        worker_status(*old(depth) as int, status),
        (status.finished && status.hit_object_or_stop) == check_hit_blackens(
            *old(depth) as int,
            probe,
        ),
{
    let ghost before = *depth as int;
    let allowed = *depth >= 1;
    if *depth > i32::MIN {
        *depth = *depth - 1;
    }
    let status = if !allowed {
        RayColorStatus { finished: true, hit_object_or_stop: true }
    } else {
        match probe {
            HitProbe::Miss => RayColorStatus { finished: true, hit_object_or_stop: false },
            HitProbe::Absorbed => RayColorStatus { finished: true, hit_object_or_stop: true },
            HitProbe::Scattered => RayColorStatus { finished: false, hit_object_or_stop: true },
        }
    };
    assert(status == check_hit_status(before, probe));
    status
}

/// The pixel numbers of an image of `n` pixels in scan order: 0, 1, .., n - 1.
pub open spec fn pixel_numbers(n: int) -> Seq<i32> {
    Seq::new(n as nat, |k: int| k as i32)
}

/// `order` is an order in which to visit `n` pixels: it holds every pixel
/// number below `n` exactly once.
pub open spec fn is_pass_order(order: Seq<i32>, n: int) -> bool {
    order.to_multiset() == pixel_numbers(n).to_multiset()
}

/// Where a schedule of camera rays stands.
pub ghost struct Schedule {
    pub image_width: int,
    pub image_height: int,
    pub samples_per_pixel: int,
    /// Number of samples handed out so far.
    pub issued: int,
    /// The order in which the current pass visits the pixels.
    pub order: Seq<i32>,
}

impl Schedule {
    /// Pixels in the image, which is the number of samples in a pass.
    pub open spec fn pixels(self) -> int {
        self.image_width * self.image_height
    }

    /// Samples in the whole schedule.
    pub open spec fn total(self) -> int {
        self.pixels() * self.samples_per_pixel
    }

    /// Column of the pixel at position `k` of the order.
    pub open spec fn column_at(self, k: int) -> int {
        (self.order[k] as int) % self.image_width
    }

    /// Row of the pixel at position `k` of the order.
    pub open spec fn row_at(self, k: int) -> int {
        (self.order[k] as int) / self.image_width
    }

    /// The `k`-th sample of the schedule, given the order of its pass: the
    /// pass number is the sample number, and the pixel number splits into row
    /// and column.
    pub open spec fn sample_at(self, k: int) -> PixelIndexEntry {
        PixelIndexEntry {
            pixel_i: self.column_at(k % self.pixels()) as i32,
            pixel_j: self.row_at(k % self.pixels()) as i32,
            pixel_sample_num: (k / self.pixels()) as i32,
        }
    }
}

/// The samples of pass number `pass` over an image of width `width`, when
/// the pass visits the pixels in the order `order`.
pub open spec fn pass_samples(width: int, order: Seq<i32>, pass: int) -> Seq<PixelIndexEntry> {
    Seq::new(
        order.len(),
        |k: int|
            PixelIndexEntry {
                pixel_i: ((order[k] as int) % width) as i32,
                pixel_j: ((order[k] as int) / width) as i32,
                pixel_sample_num: pass as i32,
            },
    )
}

/// All samples of a schedule, in the order they are handed out, when its
/// passes visit the pixels in the orders `orders`.
pub open spec fn schedule_samples(width: int, orders: Seq<Seq<i32>>) -> Seq<PixelIndexEntry>
    decreases orders.len(),
{
    if orders.len() == 0 {
        Seq::empty()
    } else {
        schedule_samples(width, orders.drop_last()) + pass_samples(
            width,
            orders.last(),
            orders.len() - 1,
        )
    }
}

/// An order of a pass has one entry per pixel, every entry is a pixel number,
/// and no pixel number is there twice.
pub proof fn lemma_pass_order(order: Seq<i32>, n: int)
    requires
        0 <= n <= i32::MAX,
        is_pass_order(order, n),
    ensures
        order.len() == n,
        order.no_duplicates(),
        forall|k: int| 0 <= k < order.len() ==> 0 <= #[trigger] order[k] < n,
        forall|v: int| 0 <= v < n ==> #[trigger] order.contains(v as i32),
{
    let scan = pixel_numbers(n);
    vstd::seq_lib::to_multiset_len(order);
    vstd::seq_lib::to_multiset_len(scan);
    assert(scan.no_duplicates());
    scan.lemma_multiset_has_no_duplicates();
    order.lemma_multiset_has_no_duplicates_conv();
    assert forall|k: int| 0 <= k < order.len() implies 0 <= #[trigger] order[k] < n by {
        let v = order[k];
        assert(order.contains(v));
        vstd::seq_lib::to_multiset_contains(order, v);
        vstd::seq_lib::to_multiset_contains(scan, v);
        let j = choose|j: int| 0 <= j < scan.len() && scan[j] == v;
        assert(scan[j] == j as i32);
    }
    assert forall|v: int| 0 <= v < n implies #[trigger] order.contains(v as i32) by {
        assert(scan[v] == v as i32);
        assert(scan.contains(v as i32));
        vstd::seq_lib::to_multiset_contains(order, v as i32);
        vstd::seq_lib::to_multiset_contains(scan, v as i32);
    }
}

/// A sample of a schedule is the sample of its pass at its position in the
/// pass.
pub proof fn sample_is_of_its_pass(s: Schedule, k: int)
    requires
        s.pixels() >= 1,
        s.order.len() == s.pixels(),
        0 <= k,
    ensures
        s.sample_at(k) == pass_samples(s.image_width, s.order, k / s.pixels())[k % s.pixels()],
{
    vstd::arithmetic::div_mod::lemma_mod_pos_bound(k, s.pixels());
}

/// A pass visits every pixel of the image, and no pixel twice: for every
/// column and row of the image exactly one position of the order holds the
/// pixel in that column and row.
pub proof fn pass_visits_every_pixel_once(s: Schedule, i: int, j: int)
    requires
        s.image_width >= 1,
        s.image_height >= 1,
        s.pixels() <= i32::MAX,
        is_pass_order(s.order, s.pixels()),
        0 <= i < s.image_width,
        0 <= j < s.image_height,
    ensures
        exists|k: int| 0 <= k < s.pixels() && #[trigger] s.column_at(k) == i && s.row_at(k) == j,
        forall|k: int, l: int|
            0 <= k < s.pixels() && 0 <= l < s.pixels() && #[trigger] s.column_at(k) == i
                && s.row_at(k) == j && #[trigger] s.column_at(l) == i && s.row_at(l) == j ==> k
                == l,
{
    let w = s.image_width;
    let n = s.pixels();
    assert(n >= 0) by (nonlinear_arith)
        requires
            n == w * s.image_height,
            w >= 1,
            s.image_height >= 1,
    ;
    lemma_pass_order(s.order, n);
    let v = j * w + i;
    assert(0 <= v < n) by (nonlinear_arith)
        requires
            v == j * w + i,
            0 <= i < w,
            0 <= j < s.image_height,
            n == w * s.image_height,
    ;
    vstd::arithmetic::div_mod::lemma_fundamental_div_mod_converse(v, w, j, i);
    assert(s.order.contains(v as i32));
    let k = choose|k: int| 0 <= k < s.order.len() && s.order[k] == v as i32;
    assert(s.column_at(k) == i && s.row_at(k) == j);
    assert forall|k: int, l: int|
        0 <= k < n && 0 <= l < n && #[trigger] s.column_at(k) == i && s.row_at(k) == j
            && #[trigger] s.column_at(l) == i && s.row_at(l) == j implies k == l by {
        vstd::arithmetic::div_mod::lemma_fundamental_div_mod(s.order[k] as int, w);
        vstd::arithmetic::div_mod::lemma_fundamental_div_mod(s.order[l] as int, w);
        assert(s.order[k] == s.order[l]);
    }
}

/// A fresh random order of the entries of `order`.
///
/// Calls `rand::seq::SliceRandom::shuffle` with the generator `rand::rng()`
/// on a copy of `order`. This is believed, not proved: the shuffle only
/// swaps entries of the slice, so the result holds the same numbers as
/// `order`, each as often. Which order comes out is not stated, and two
/// calls may differ. The generator is seeded by the operating system when a
/// thread first uses it, and gives up where the system has no randomness
/// to offer.
#[verifier::external_body]
fn shuffled(order: &Vec<i32>) -> (r: Vec<i32>)
    ensures
        r@.to_multiset() == order@.to_multiset(),
{
    let mut r = order.clone();
    r.shuffle(&mut rand::rng());
    r
}

/// Hands out the pixel samples of an image: `samples_per_pixel` passes over
/// all pixels, each pass in a fresh random order.
pub struct CameraRayIterator {
    image_width: i32,
    image_height: i32,
    samples_per_pixel: i32,
    i: u64,
    n: u64,
    shuffled_seq: Vec<i32>,
}

impl CameraRayIterator {
    #[verifier::type_invariant]
    spec fn inv(self) -> bool {
        &&& self.image_width >= 1
        &&& self.image_height >= 1
        &&& self.samples_per_pixel >= 0
        &&& self.n == self.image_width * self.image_height
        &&& self.n <= i32::MAX
        &&& self.i <= self.n * self.samples_per_pixel
        &&& is_pass_order(self.shuffled_seq@, self.n as int)
    }

    /// Where the schedule stands.
    pub closed spec fn view(self) -> Schedule {
        Schedule {
            image_width: self.image_width as int,
            image_height: self.image_height as int,
            samples_per_pixel: self.samples_per_pixel as int,
            issued: self.i as int,
            order: self.shuffled_seq@,
        }
    }

    /// Whether an image of these measures can be scheduled: it has a pixel, its
    /// pixels can be numbered, and the number of samples is not negative.
    pub open spec fn schedulable(image_width: i32, image_height: i32, samples_per_pixel: i32)
        -> bool {
        &&& image_width >= 1
        &&& image_height >= 1
        &&& samples_per_pixel >= 0
        &&& image_width * image_height <= i32::MAX
    }

    /// A schedule at its start, for an image that can be scheduled.
    pub fn new(image_width: i32, image_height: i32, samples_per_pixel: i32) -> (r: Option<
        CameraRayIterator,
    >)
        ensures
            r.is_some() == Self::schedulable(image_width, image_height, samples_per_pixel),
            r matches Some(it) ==> {
                &&& it@.image_width == image_width
                &&& it@.image_height == image_height
                &&& it@.samples_per_pixel == samples_per_pixel
                &&& it@.issued == 0
                &&& it@.order == pixel_numbers(image_width * image_height)
            },
    {
        if image_width < 1 || image_height < 1 || samples_per_pixel < 0 {
            return None;
        }
        assert(image_width * image_height <= 0x7fff_ffff * 0x7fff_ffff) by (nonlinear_arith)
            requires
                1 <= image_width <= 0x7fff_ffff,
                1 <= image_height <= 0x7fff_ffff,
        ;
        let n: u64 = (image_width as u64) * (image_height as u64);
        if n > i32::MAX as u64 {
            return None;
        }
        let mut order: Vec<i32> = Vec::new();
        let mut k: i32 = 0;
        while (k as u64) < n
            invariant
                n <= i32::MAX,
                0 <= k <= n,
                order@ == pixel_numbers(k as int),
            decreases n - k,
        {
            order.push(k);
            assert(order@ =~= pixel_numbers(k + 1));
            k = k + 1;
        }
        assert(n * samples_per_pixel >= 0) by (nonlinear_arith)
            requires
                n >= 0,
                samples_per_pixel >= 0,
        ;
        Some(
            CameraRayIterator {
                image_width,
                image_height,
                samples_per_pixel,
                i: 0,
                n,
                shuffled_seq: order,
            },
        )
    }

    /// Number of samples not handed out yet.
    pub fn remaining(&self) -> (r: u64)
        ensures
            r == self@.total() - self@.issued,
            is_pass_order(self@.order, self@.pixels()),
            self@.image_width >= 1,
            self@.image_height >= 1,
            self@.samples_per_pixel >= 0,
            self@.pixels() <= i32::MAX,
            0 <= self@.issued <= self@.total(),
    {
        proof {
            use_type_invariant(self);
        }
        let total: u64 = self.total();
        total - self.i
    }

    fn total(&self) -> (t: u64)
        ensures
            t == self.n * self.samples_per_pixel,
            t == self@.total(),
            self.i <= t,
    {
        proof {
            use_type_invariant(self);
            assert(self.n * self.samples_per_pixel <= 0x7fff_ffff * 0x7fff_ffff) by (nonlinear_arith)
                requires
                    0 <= self.n <= 0x7fff_ffff,
                    0 <= self.samples_per_pixel <= 0x7fff_ffff,
            ;
        }
        self.n * (self.samples_per_pixel as u64)
    }

    /// Hands out the next sample, or nothing when the schedule is through.
    /// At the start of every pass the pixels are put in a fresh random order;
    /// within a pass the order stays.
    pub fn next(&mut self) -> (r: Option<PixelIndexEntry>)
        ensures
            final(self)@.image_width == old(self)@.image_width,
            final(self)@.image_height == old(self)@.image_height,
            final(self)@.samples_per_pixel == old(self)@.samples_per_pixel,
            is_pass_order(final(self)@.order, final(self)@.pixels()),
            old(self)@.issued >= old(self)@.total() ==> r.is_none() && final(self)@ == old(self)@,
            old(self)@.issued < old(self)@.total() ==> {
                &&& final(self)@.issued == old(self)@.issued + 1
                &&& old(self)@.issued % old(self)@.pixels() != 0 ==> final(self)@.order == old(
                    self,
                )@.order
                &&& r == Some(final(self)@.sample_at(old(self)@.issued))
                &&& 0 <= r.unwrap().pixel_i < old(self)@.image_width
                &&& 0 <= r.unwrap().pixel_j < old(self)@.image_height
                &&& 0 <= r.unwrap().pixel_sample_num < old(self)@.samples_per_pixel
            },
    {
        proof {
            use_type_invariant(&*self);
        }
        let total: u64 = self.total();
        if self.i >= total {
            return None;
        }
        let i: u64 = self.i;
        let n: u64 = self.n;
        let w: i32 = self.image_width;
        assert(n > 0) by (nonlinear_arith)
            requires
                i < n * self.samples_per_pixel,
                n >= 0,
                self.samples_per_pixel >= 0,
        ;
        if i % n == 0 {
            let fresh = shuffled(&self.shuffled_seq);
            self.shuffled_seq = fresh;
        }
        proof {
            lemma_pass_order(self.shuffled_seq@, n as int);
        }
        let at: usize = (i % n) as usize;
        let pixel: i32 = self.shuffled_seq[at];
        let pass: u64 = i / n;
        proof {
            assert(pass < self.samples_per_pixel) by (nonlinear_arith)
                requires
                    pass == i / n,
                    n > 0,
                    i < n * self.samples_per_pixel,
            ;
            vstd::arithmetic::div_mod::lemma_fundamental_div_mod(pixel as int, w as int);
            assert(0 <= (pixel as int) / (w as int) < self.image_height) by (nonlinear_arith)
                requires
                    0 <= pixel < n,
                    n == w * self.image_height,
                    w >= 1,
            ;
        }
        let entry = PixelIndexEntry {
            pixel_i: ((pixel as u32) % (w as u32)) as i32,
            pixel_j: ((pixel as u32) / (w as u32)) as i32,
            pixel_sample_num: pass as i32,
        };
        self.i = i + 1;
        Some(entry)
    }
}

} // verus!
