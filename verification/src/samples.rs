//! Counting the samples that have come back, pixel by pixel, and telling
//! when an image has all of them.

use vstd::prelude::*;
use crate::camera::{
    is_pass_order,
    lemma_pass_order,
    pass_samples,
    pass_visits_every_pixel_once,
    schedule_samples,
    PixelIndexEntry,
    Schedule,
};

verus! {

/// The counts of an image as a value: the number of samples that arrived for
/// each pixel, row by row, and the number of samples each pixel is to get.
pub ghost struct Counts {
    pub width: int,
    pub height: int,
    pub samples: u64,
    pub counts: Seq<u64>,
}

impl Counts {
    /// The counts of an image for which no sample has arrived.
    pub open spec fn fresh(width: int, height: int, samples: u64) -> Counts {
        Counts { width, height, samples, counts: Seq::new((width * height) as nat, |c: int| 0u64) }
    }

    /// The cell of the pixel in column `i` and row `j`, if the image has
    /// that pixel: rows follow each other, `width` cells each.
    pub open spec fn cell(self, i: int, j: int) -> Option<int> {
        if 0 <= i < self.width && 0 <= j < self.height {
            Some(j * self.width + i)
        } else {
            None
        }
    }

    /// The count of a cell after one more sample. A count that cannot grow stays.
    pub open spec fn bump(count: u64) -> u64 {
        if count < u64::MAX {
            (count + 1) as u64
        } else {
            count
        }
    }

    /// The counts after a sample for column `i`, row `j` arrived: the count
    /// of that pixel's cell grows by one, every other count stays. A sample
    /// for a pixel outside the image changes nothing.
    pub open spec fn counted(self, i: int, j: int) -> Counts {
        match self.cell(i, j) {
            Some(c) => Counts { counts: self.counts.update(c, Self::bump(self.counts[c])), ..self },
            None => self,
        }
    }

    /// The counts after all of `arrivals`, in order.
    pub open spec fn counted_all(self, arrivals: Seq<PixelIndexEntry>) -> Counts
        decreases arrivals.len(),
    {
        if arrivals.len() == 0 {
            self
        } else {
            self.counted_all(arrivals.drop_last()).counted(
                arrivals.last().pixel_i as int,
                arrivals.last().pixel_j as int,
            )
        }
    }

    /// Whether every pixel has its samples: the image is fully rendered.
    pub open spec fn complete(self) -> bool {
        forall|c: int| 0 <= c < self.counts.len() ==> #[trigger] self.counts[c] >= self.samples
    }

    /// Number of samples that have not arrived yet, over all pixels.
    pub open spec fn missing(self) -> nat {
        missing_in(self.counts, self.samples)
    }

    /// One count per pixel.
    pub open spec fn well_formed(self) -> bool {
        &&& self.width >= 0
        &&& self.height >= 0
        &&& self.counts.len() == self.width * self.height
    }
}

/// Number of samples a pixel with `count` samples still lacks.
pub open spec fn deficit(count: u64, samples: u64) -> nat {
    if count < samples {
        (samples - count) as nat
    } else {
        0
    }
}

/// Number of samples the pixels with the counts `counts` still lack.
pub open spec fn missing_in(counts: Seq<u64>, samples: u64) -> nat
    decreases counts.len(),
{
    if counts.len() == 0 {
        0
    } else {
        missing_in(counts.drop_last(), samples) + deficit(counts.last(), samples)
    }
}

/// Nothing is missing exactly when every pixel has its samples.
pub proof fn nothing_missing_is_complete(counts: Seq<u64>, samples: u64)
    ensures
        missing_in(counts, samples) == 0 <==> forall|c: int|
            0 <= c < counts.len() ==> #[trigger] counts[c] >= samples,
    decreases counts.len(),
{
    if counts.len() > 0 {
        let front = counts.drop_last();
        nothing_missing_is_complete(front, samples);
        if missing_in(counts, samples) == 0 {
            assert forall|c: int| 0 <= c < counts.len() implies #[trigger] counts[c] >= samples by {
                if c < front.len() {
                    assert(front[c] == counts[c]);
                }
            }
        }
        if forall|c: int| 0 <= c < counts.len() ==> #[trigger] counts[c] >= samples {
            assert forall|c: int| 0 <= c < front.len() implies #[trigger] front[c] >= samples by {
                assert(front[c] == counts[c]);
            }
            assert(counts[counts.len() - 1] >= samples);
        }
    }
}

/// Changing one count changes what is missing by what that pixel lacks less
/// or more than before.
proof fn lemma_missing_update(counts: Seq<u64>, samples: u64, c: int, count: u64)
    requires
        0 <= c < counts.len(),
    ensures
        missing_in(counts.update(c, count), samples) + deficit(counts[c], samples) == missing_in(
            counts,
            samples,
        ) + deficit(count, samples),
    decreases counts.len(),
{
    let after = counts.update(c, count);
    if c == counts.len() - 1 {
        assert(after.drop_last() =~= counts.drop_last());
    } else {
        assert(after.drop_last() =~= counts.drop_last().update(c, count));
        lemma_missing_update(counts.drop_last(), samples, c, count);
    }
}

/// An image without samples lacks all of them.
proof fn lemma_missing_fresh(cells: nat, samples: u64)
    ensures
        missing_in(Seq::new(cells, |c: int| 0u64), samples) == cells * samples,
    decreases cells,
{
    let counts = Seq::new(cells, |c: int| 0u64);
    if cells > 0 {
        assert(counts.drop_last() =~= Seq::new((cells - 1) as nat, |c: int| 0u64));
        lemma_missing_fresh((cells - 1) as nat, samples);
        assert(cells * samples == (cells - 1) * samples + samples) by (nonlinear_arith);
    } else {
        assert(cells * samples == 0) by (nonlinear_arith)
            requires
                cells == 0,
        ;
    }
}

/// Number of samples among `arrivals` that are for column `i` and row `j`.
pub open spec fn arrivals_for(arrivals: Seq<PixelIndexEntry>, i: int, j: int) -> nat
    decreases arrivals.len(),
{
    if arrivals.len() == 0 {
        0
    } else {
        let one: nat = if arrivals.last().pixel_i == i && arrivals.last().pixel_j == j {
            1
        } else {
            0
        };
        arrivals_for(arrivals.drop_last(), i, j) + one
    }
}

/// After any samples have arrived, in whatever order, the count of a pixel
/// is what it was before plus the number of samples that were for it.
pub proof fn count_is_number_of_arrivals(
    counts: Counts,
    arrivals: Seq<PixelIndexEntry>,
    i: int,
    j: int,
)
    requires
        counts.well_formed(),
        counts.cell(i, j).is_some(),
        counts.counts[counts.cell(i, j).unwrap()] + arrivals.len() <= u64::MAX,
    ensures
        counts.counted_all(arrivals).well_formed(),
        counts.counted_all(arrivals).width == counts.width,
        counts.counted_all(arrivals).height == counts.height,
        counts.counted_all(arrivals).samples == counts.samples,
        counts.counted_all(arrivals).counts[counts.cell(i, j).unwrap()] == counts.counts[counts.cell(
            i,
            j,
        ).unwrap()] + arrivals_for(arrivals, i, j),
        arrivals_for(arrivals, i, j) <= arrivals.len(),
    decreases arrivals.len(),
{
    let c = counts.cell(i, j).unwrap();
    lemma_cell_index(counts.width, counts.height, i, j);
    if arrivals.len() > 0 {
        let front = arrivals.drop_last();
        let last = arrivals.last();
        count_is_number_of_arrivals(counts, front, i, j);
        let before = counts.counted_all(front);
        match before.cell(last.pixel_i as int, last.pixel_j as int) {
            Some(d) => {
                lemma_cell_index(counts.width, counts.height, last.pixel_i as int, last.pixel_j as int);
                if d == c {
                    lemma_cell_is_pixel(
                        counts.width,
                        i,
                        j,
                        last.pixel_i as int,
                        last.pixel_j as int,
                    );
                } else {
                    assert(!(last.pixel_i == i && last.pixel_j == j));
                }
            },
            None => {},
        }
    }
}

/// The arrivals of two runs of samples add up.
proof fn lemma_arrivals_add(a: Seq<PixelIndexEntry>, b: Seq<PixelIndexEntry>, i: int, j: int)
    ensures
        arrivals_for(a + b, i, j) == arrivals_for(a, i, j) + arrivals_for(b, i, j),
    decreases b.len(),
{
    if b.len() == 0 {
        assert(a + b =~= a);
    } else {
        assert((a + b).drop_last() =~= a + b.drop_last());
        assert((a + b).last() == b.last());
        lemma_arrivals_add(a, b.drop_last(), i, j);
    }
}

/// Samples none of which is for a pixel hold no arrival for it, and samples
/// of which exactly one is for it hold one.
proof fn lemma_arrivals_of_one(samples: Seq<PixelIndexEntry>, i: int, j: int, at: int)
    requires
        forall|k: int|
            0 <= k < samples.len() && k != at ==> !((#[trigger] samples[k]).pixel_i == i
                && samples[k].pixel_j == j),
    ensures
        arrivals_for(samples, i, j) == if 0 <= at < samples.len() && samples[at].pixel_i == i
            && samples[at].pixel_j == j {
            1nat
        } else {
            0nat
        },
    decreases samples.len(),
{
    if samples.len() > 0 {
        let front = samples.drop_last();
        assert forall|k: int| 0 <= k < front.len() && k != at implies !((
        #[trigger] front[k]).pixel_i == i && front[k].pixel_j == j) by {
            assert(front[k] == samples[k]);
        }
        lemma_arrivals_of_one(front, i, j, at);
        if 0 <= at < front.len() {
            assert(front[at] == samples[at]);
        }
    }
}

/// A schedule that is run through hands out, for every pixel of the image,
/// as many samples as it has passes. So once every sample has come back,
/// the count of every pixel has grown by the number of samples per pixel.
pub proof fn full_schedule_gives_every_pixel_its_samples(
    width: int,
    height: int,
    orders: Seq<Seq<i32>>,
    i: int,
    j: int,
)
    requires
        width >= 1,
        height >= 1,
        width * height <= i32::MAX,
        forall|p: int| 0 <= p < orders.len() ==> is_pass_order(#[trigger] orders[p], width * height),
        0 <= i < width,
        0 <= j < height,
    ensures
        arrivals_for(schedule_samples(width, orders), i, j) == orders.len(),
        schedule_samples(width, orders).len() == orders.len() * (width * height),
    decreases orders.len(),
{
    if orders.len() > 0 {
        let front = orders.drop_last();
        let order = orders.last();
        let pass = orders.len() - 1;
        assert forall|p: int| 0 <= p < front.len() implies is_pass_order(
            #[trigger] front[p],
            width * height,
        ) by {
            assert(front[p] == orders[p]);
        }
        full_schedule_gives_every_pixel_its_samples(width, height, front, i, j);
        let samples = pass_samples(width, order, pass);
        let s = Schedule {
            image_width: width,
            image_height: height,
            samples_per_pixel: orders.len() as int,
            issued: 0,
            order: order,
        };
        pass_visits_every_pixel_once(s, i, j);
        crate::camera::lemma_pass_order(order, width * height);
        let at = choose|k: int| 0 <= k < s.pixels() && #[trigger] s.column_at(k) == i && s.row_at(k) == j;
        assert forall|k: int| 0 <= k < samples.len() && k != at implies !((
        #[trigger] samples[k]).pixel_i == i && samples[k].pixel_j == j) by {
            lemma_pixel_in_image(width, height, order[k] as int);
            if samples[k].pixel_i == i && samples[k].pixel_j == j {
                assert(s.column_at(k) == i && s.row_at(k) == j);
            }
        }
        lemma_pixel_in_image(width, height, order[at] as int);
        assert(samples[at].pixel_i == i && samples[at].pixel_j == j);
        lemma_arrivals_of_one(samples, i, j, at);
        lemma_arrivals_add(schedule_samples(width, front), samples, i, j);
        assert(orders.len() * (width * height) == front.len() * (width * height) + width * height)
            by (nonlinear_arith)
            requires
                orders.len() == front.len() + 1,
        ;
    }
}

/// Once every sample of a schedule that was run through has come back, in
/// whatever order the samples of a pass were handed out, an image that
/// started without samples is fully rendered.
pub proof fn full_schedule_completes_the_image(width: int, height: int, orders: Seq<Seq<i32>>)
    requires
        width >= 1,
        height >= 1,
        width * height <= i32::MAX,
        orders.len() <= i32::MAX,
        forall|p: int| 0 <= p < orders.len() ==> is_pass_order(#[trigger] orders[p], width * height),
    ensures
        Counts::fresh(width, height, orders.len() as u64).counted_all(
            schedule_samples(width, orders),
        ).complete(),
{
    let fresh = Counts::fresh(width, height, orders.len() as u64);
    let samples = schedule_samples(width, orders);
    let end = fresh.counted_all(samples);
    assert(width * height >= 1) by (nonlinear_arith)
        requires
            width >= 1,
            height >= 1,
    ;
    assert(orders.len() * (width * height) <= 0x7fff_ffff * 0x7fff_ffff) by (nonlinear_arith)
        requires
            orders.len() <= 0x7fff_ffff,
            0 <= width * height <= 0x7fff_ffff,
    ;
    assert forall|c: int| 0 <= c < end.counts.len() implies #[trigger] end.counts[c]
        >= end.samples by {
        let i = c % width;
        let j = c / width;
        full_schedule_gives_every_pixel_its_samples(width, height, orders, 0, 0);
        count_is_number_of_arrivals(fresh, samples, 0, 0);
        lemma_pixel_in_image(width, height, c);
        vstd::arithmetic::div_mod::lemma_fundamental_div_mod(c, width);
        assert(j * width == width * j) by (nonlinear_arith);
        full_schedule_gives_every_pixel_its_samples(width, height, orders, i, j);
        count_is_number_of_arrivals(fresh, samples, i, j);
    }
}

/// Column and row of a pixel number of the image are a column and a row of
/// the image.
proof fn lemma_pixel_in_image(width: int, height: int, pixel: int)
    requires
        width >= 1,
        height >= 1,
        0 <= pixel < width * height,
    ensures
        0 <= pixel % width < width,
        0 <= pixel / width < height,
        pixel % width <= pixel,
        pixel / width <= pixel,
{
    vstd::arithmetic::div_mod::lemma_fundamental_div_mod(pixel, width);
    assert(0 <= pixel / width < height && pixel / width <= pixel) by (nonlinear_arith)
        requires
            0 <= pixel < width * height,
            width >= 1,
            pixel == width * (pixel / width) + pixel % width,
            0 <= pixel % width < width,
    ;
}

/// The cell of a pixel of the image is a cell of the image.
pub(crate) proof fn lemma_cell_index(width: int, height: int, i: int, j: int)
    requires
        0 <= i < width,
        0 <= j < height,
    ensures
        0 <= j * width + i < width * height,
{
    assert(0 <= j * width + i < width * height) by (nonlinear_arith)
        requires
            0 <= i < width,
            0 <= j < height,
    ;
}

/// Two pixels with the same cell are the same pixel.
pub(crate) proof fn lemma_cell_is_pixel(width: int, i: int, j: int, k: int, l: int)
    requires
        0 <= i < width,
        0 <= k < width,
        j * width + i == l * width + k,
    ensures
        i == k,
        j == l,
{
    vstd::arithmetic::div_mod::lemma_fundamental_div_mod_converse(j * width + i, width, j, i);
    vstd::arithmetic::div_mod::lemma_fundamental_div_mod_converse(l * width + k, width, l, k);
}

/// The sample counts of an image.
pub struct SampleCounts {
    width: usize,
    height: usize,
    samples: u64,
    counts: Vec<u64>,
    outstanding: u128,
}

impl SampleCounts {
    #[verifier::type_invariant]
    spec fn inv(self) -> bool {
        &&& self.counts@.len() == self.width * self.height
        &&& self.outstanding == missing_in(self.counts@, self.samples)
    }

    /// The counts held.
    pub closed spec fn view(self) -> Counts {
        Counts {
            width: self.width as int,
            height: self.height as int,
            samples: self.samples,
            counts: self.counts@,
        }
    }

    /// The counts of an image of `width` by `height` pixels that are to get
    /// `samples` samples each, before any sample arrived. There are none for
    /// an image with more pixels than can be numbered.
    pub fn new(width: usize, height: usize, samples: u64) -> (r: Option<SampleCounts>)
        ensures
            r.is_some() == (width * height <= usize::MAX),
            r matches Some(counts) ==> counts@ == Counts::fresh(width as int, height as int, samples),
    {
        let cells: usize = match width.checked_mul(height) {
            Some(cells) => cells,
            None => {
                return None;
            },
        };
        let mut counts: Vec<u64> = Vec::new();
        let mut c: usize = 0;
        while c < cells
            invariant
                c <= cells,
                counts@ == Seq::new(c as nat, |c: int| 0u64),
            decreases cells - c,
        {
            counts.push(0);
            assert(counts@ =~= Seq::new((c + 1) as nat, |c: int| 0u64));
            c = c + 1;
        }
        proof {
            lemma_missing_fresh(cells as nat, samples);
            assert(cells * samples <= 0xffff_ffff_ffff_ffff * 0xffff_ffff_ffff_ffff)
                by (nonlinear_arith)
                requires
                    cells <= 0xffff_ffff_ffff_ffff,
                    samples <= 0xffff_ffff_ffff_ffff,
            ;
        }
        let outstanding: u128 = (cells as u128) * (samples as u128);
        Some(SampleCounts { width, height, samples, counts, outstanding })
    }

    /// The counts of an image without pixels.
    pub fn empty() -> (r: SampleCounts)
        ensures
            r@ == Counts::fresh(0, 0, 0),
    {
        let r = SampleCounts { width: 0, height: 0, samples: 0, counts: Vec::new(), outstanding: 0 };
        assert(r@.counts =~= Counts::fresh(0, 0, 0).counts);
        r
    }

    /// Number of columns.
    pub fn width(&self) -> (w: usize)
        ensures
            w == self@.width,
    {
        self.width
    }

    /// Number of rows.
    pub fn height(&self) -> (h: usize)
        ensures
            h == self@.height,
    {
        self.height
    }

    /// Number of samples each pixel is to get.
    pub fn samples(&self) -> (s: u64)
        ensures
            s == self@.samples,
    {
        self.samples
    }

    /// Every value of this type has one count per pixel.
    pub fn check(&self)
        ensures
            self@.well_formed(),
    {
        proof {
            use_type_invariant(self);
        }
    }

    /// The cell of a pixel sample, if the image has that pixel.
    pub fn cell_of(&self, idx: &PixelIndexEntry) -> (r: Option<usize>)
        ensures
            r.is_some() == self@.cell(idx.pixel_i as int, idx.pixel_j as int).is_some(),
            r matches Some(c) ==> self@.cell(idx.pixel_i as int, idx.pixel_j as int) == Some(
                c as int,
            ) && c < self@.counts.len(),
    {
        proof {
            use_type_invariant(self);
        }
        if idx.pixel_i < 0 || idx.pixel_j < 0 {
            return None;
        }
        let i: usize = idx.pixel_i as usize;
        let j: usize = idx.pixel_j as usize;
        if i >= self.width || j >= self.height {
            return None;
        }
        let cells: usize = self.counts.len();
        proof {
            lemma_cell_index(self.width as int, self.height as int, i as int, j as int);
            assert(0 <= j * self.width) by (nonlinear_arith)
                requires
                    0 <= j,
                    0 <= self.width,
            ;
        }
        Some(j * self.width + i)
    }

    /// Counts a sample that arrived. Returns the cell of its pixel and the
    /// cell's new count, or nothing for a sample outside the image, which
    /// changes nothing.
    pub fn record(&mut self, idx: &PixelIndexEntry) -> (r: Option<(usize, u64)>)
        ensures
            final(self)@ == old(self)@.counted(idx.pixel_i as int, idx.pixel_j as int),
            match old(self)@.cell(idx.pixel_i as int, idx.pixel_j as int) {
                Some(c) => r == Some((c as usize, final(self)@.counts[c])) && c < old(
                    self,
                )@.counts.len(),
                None => r.is_none(),
            },
    {
        proof {
            use_type_invariant(&*self);
        }
        match self.cell_of(idx) {
            None => None,
            Some(c) => {
                let mut taken = SampleCounts::empty();
                std::mem::swap(self, &mut taken);
                let SampleCounts { width, height, samples, mut counts, outstanding } = taken;
                let count: u64 = counts[c];
                let bumped: u64 = if count < u64::MAX {
                    count + 1
                } else {
                    count
                };
                proof {
                    lemma_missing_update(counts@, samples, c as int, bumped);
                }
                let left: u128 = if count < samples {
                    outstanding - 1
                } else {
                    outstanding
                };
                counts[c] = bumped;
                *self = SampleCounts { width, height, samples, counts, outstanding: left };
                Some((c, bumped))
            },
        }
    }

    /// The count of a cell.
    pub fn count(&self, c: usize) -> (r: Option<u64>)
        ensures
            c < self@.counts.len() ==> r == Some(self@.counts[c as int]),
            c >= self@.counts.len() ==> r.is_none(),
    {
        if c < self.counts.len() {
            Some(self.counts[c])
        } else {
            None
        }
    }

    /// Number of samples that have not arrived yet, over all pixels.
    pub fn outstanding(&self) -> (n: u128)
        ensures
            n == self@.missing(),
    {
        proof {
            use_type_invariant(self);
        }
        self.outstanding
    }

    /// Whether every pixel has its samples.
    pub fn is_complete(&self) -> (b: bool)
        ensures
            b == self@.complete(),
    {
        proof {
            use_type_invariant(self);
            nothing_missing_is_complete(self.counts@, self.samples);
            assert(self@.counts == self.counts@ && self@.samples == self.samples);
        }
        self.outstanding == 0
    }
}

} // verus!
