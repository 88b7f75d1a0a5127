//! The client's framebuffer: one cell per pixel that adds up the samples
//! that arrive for it and counts them.
//!
//! The colour type and its addition belong to the caller; a cell's sum is
//! only ever replaced by what the caller's addition makes of the sum so far
//! and the arriving colour.

use vstd::prelude::*;
use crate::camera::PixelIndexEntry;
use crate::samples::{lemma_cell_index, lemma_cell_is_pixel, Counts, SampleCounts};

verus! {

/// The cells of an image as a value: the counts, and per pixel the sum of
/// the samples that arrived.
pub ghost struct Cells<V> {
    pub counts: Counts,
    pub sums: Seq<V>,
}

/// What taking in a sample makes of the cells: the sample is counted, and the
/// sum of its pixel becomes what `plus` makes of the sum so far and the
/// sample's colour. Every other sum stays, and a sample outside the image
/// changes no sum.
pub open spec fn recorded<V, F: Fn(&V, &V) -> V>(
    before: Cells<V>,
    idx: PixelIndexEntry,
    color: V,
    plus: F,
    after: Cells<V>,
) -> bool {
    &&& after.counts == before.counts.counted(idx.pixel_i as int, idx.pixel_j as int)
    &&& after.sums.len() == before.sums.len()
    &&& match before.counts.cell(idx.pixel_i as int, idx.pixel_j as int) {
        Some(c) => {
            &&& plus.ensures((&before.sums[c], &color), after.sums[c])
            &&& forall|d: int|
                0 <= d < before.sums.len() && d != c ==> after.sums[d] == before.sums[d]
        },
        None => after.sums == before.sums,
    }
}

/// The colours among `arrivals` that are for column `i` and row `j`, in the
/// order they arrived.
pub open spec fn contributions_for<V>(arrivals: Seq<(PixelIndexEntry, V)>, i: int, j: int) -> Seq<V>
    decreases arrivals.len(),
{
    if arrivals.len() == 0 {
        Seq::empty()
    } else if arrivals.last().0.pixel_i == i && arrivals.last().0.pixel_j == j {
        contributions_for(arrivals.drop_last(), i, j).push(arrivals.last().1)
    } else {
        contributions_for(arrivals.drop_last(), i, j)
    }
}

/// `total` is what `plus` makes of `start` and `contributions`, added one
/// after the other in their order.
pub open spec fn added_up<V, F: Fn(&V, &V) -> V>(
    plus: F,
    start: V,
    contributions: Seq<V>,
    total: V,
) -> bool
    decreases contributions.len(),
{
    if contributions.len() == 0 {
        total == start
    } else {
        exists|sum: V|
            added_up(plus, start, contributions.drop_last(), sum) && #[trigger] plus.ensures(
                (&sum, &contributions.last()),
                total,
            )
    }
}

/// After any samples have been taken in, the sum of a pixel is what the
/// caller's addition makes of the sum it had and the colours that arrived
/// for it, in the order they arrived. `frames` are the cells before the
/// first sample and after each.
pub proof fn sum_is_contributions_added_up<V, F: Fn(&V, &V) -> V>(
    plus: F,
    frames: Seq<Cells<V>>,
    arrivals: Seq<(PixelIndexEntry, V)>,
    i: int,
    j: int,
)
    requires
        frames.len() == arrivals.len() + 1,
        forall|k: int|
            0 <= k < arrivals.len() ==> recorded(
                #[trigger] frames[k],
                arrivals[k].0,
                arrivals[k].1,
                plus,
                frames[k + 1],
            ),
        frames[0].counts.well_formed(),
        frames[0].sums.len() == frames[0].counts.counts.len(),
        frames[0].counts.cell(i, j).is_some(),
    ensures
        frames.last().counts.width == frames[0].counts.width,
        frames.last().counts.height == frames[0].counts.height,
        frames.last().counts.well_formed(),
        frames.last().sums.len() == frames[0].sums.len(),
        added_up(
            plus,
            frames[0].sums[frames[0].counts.cell(i, j).unwrap()],
            contributions_for(arrivals, i, j),
            frames.last().sums[frames[0].counts.cell(i, j).unwrap()],
        ),
    decreases arrivals.len(),
{
    let c = frames[0].counts.cell(i, j).unwrap();
    let start = frames[0].sums[c];
    if arrivals.len() == 0 {
        assert(frames.last() == frames[0]);
    } else {
        let n = arrivals.len() as int;
        let front_frames = frames.drop_last();
        let front = arrivals.drop_last();
        assert forall|k: int| 0 <= k < front.len() implies recorded(
            #[trigger] front_frames[k],
            front[k].0,
            front[k].1,
            plus,
            front_frames[k + 1],
        ) by {
            assert(front_frames[k] == frames[k]);
            assert(front_frames[k + 1] == frames[k + 1]);
            assert(front[k] == arrivals[k]);
        }
        assert(front_frames[0] == frames[0]);
        sum_is_contributions_added_up(plus, front_frames, front, i, j);
        let before = frames[n - 1];
        let after = frames[n];
        let last = arrivals.last();
        assert(before == front_frames.last());
        assert(after == frames.last());
        assert(recorded(before, last.0, last.1, plus, after));
        assert(added_up(plus, start, contributions_for(front, i, j), before.sums[c]));
        lemma_cell_index(before.counts.width, before.counts.height, i, j);
        if last.0.pixel_i == i && last.0.pixel_j == j {
            let all = contributions_for(arrivals, i, j);
            assert(all.drop_last() =~= contributions_for(front, i, j));
            assert(all.last() == last.1);
            assert(plus.ensures((&before.sums[c], &all.last()), after.sums[c]));
        } else {
            match before.counts.cell(last.0.pixel_i as int, last.0.pixel_j as int) {
                Some(d) => {
                    lemma_cell_index(
                        before.counts.width,
                        before.counts.height,
                        last.0.pixel_i as int,
                        last.0.pixel_j as int,
                    );
                    if d == c {
                        lemma_cell_is_pixel(
                            before.counts.width,
                            i,
                            j,
                            last.0.pixel_i as int,
                            last.0.pixel_j as int,
                        );
                    }
                    assert(after.sums[c] == before.sums[c]);
                },
                None => {
                    assert(after.sums[c] == before.sums[c]);
                },
            }
        }
    }
}

/// The word a window shows for a pixel: full opacity in the top byte, then
/// red, green and blue.
pub open spec fn spec_pack_color(r: u8, g: u8, b: u8) -> u32 {
    (0xff00_0000 + r * 0x1_0000 + g * 0x100 + b) as u32
}

/// Packs the three colour bytes of a pixel into the word a window shows.
pub fn pack_color(r: u8, g: u8, b: u8) -> (word: u32)
    ensures
        word == spec_pack_color(r, g, b),
{
    0xff00_0000u32 + (r as u32) * 0x1_0000 + (g as u32) * 0x100 + (b as u32)
}

/// The framebuffer of a client. `V` is the colour type.
pub struct Framebuffer<V> {
    counts: SampleCounts,
    sums: Vec<V>,
}

impl<V> Framebuffer<V> {
    #[verifier::type_invariant]
    spec fn inv(self) -> bool {
        self.sums@.len() == self.counts@.counts.len()
    }

    /// The cells held.
    pub closed spec fn view(self) -> Cells<V> {
        Cells { counts: self.counts@, sums: self.sums@ }
    }

    /// A framebuffer of `width` by `height` cells, each with the sum in
    /// `sums` and no samples, for an image that is to get `samples` samples
    /// per pixel. There is none unless `sums` has a sum for every cell and
    /// no more.
    pub fn new(width: usize, height: usize, samples: u64, sums: Vec<V>) -> (r: Option<
        Framebuffer<V>,
    >)
        ensures
            r.is_some() == (sums@.len() == width * height),
            r matches Some(fb) ==> {
                &&& fb@.counts == Counts::fresh(width as int, height as int, samples)
                &&& fb@.sums == sums@
            },
    {
        let given: usize = sums.len();
        match SampleCounts::new(width, height, samples) {
            None => {
                assert(given < width * height);
                None
            },
            Some(counts) => {
                counts.check();
                if given != counts.width() * counts.height() {
                    None
                } else {
                    Some(Framebuffer { counts, sums })
                }
            },
        }
    }

    /// Number of columns.
    pub fn width(&self) -> (w: usize)
        ensures
            w == self@.counts.width,
    {
        self.counts.width()
    }

    /// Number of rows.
    pub fn height(&self) -> (h: usize)
        ensures
            h == self@.counts.height,
    {
        self.counts.height()
    }

    /// The cell of a pixel sample, if the image has that pixel.
    pub fn cell_of(&self, idx: &PixelIndexEntry) -> (r: Option<usize>)
        ensures
            r.is_some() == self@.counts.cell(idx.pixel_i as int, idx.pixel_j as int).is_some(),
            r matches Some(c) ==> self@.counts.cell(idx.pixel_i as int, idx.pixel_j as int) == Some(
                c as int,
            ) && c < self@.counts.counts.len() && c < self@.sums.len(),
    {
        proof {
            use_type_invariant(self);
        }
        self.counts.cell_of(idx)
    }

    /// Takes in the colour of a finished sample: the pixel's sum becomes
    /// what `plus` makes of the sum so far and `color`, and its count grows by
    /// one. Returns the cell and its new count, or nothing for a sample
    /// outside the image, which changes nothing.
    pub fn record<F: Fn(&V, &V) -> V>(&mut self, idx: &PixelIndexEntry, color: V, plus: F) -> (r:
        Option<(usize, u64)>)
        requires
            forall|a: &V, b: &V| plus.requires((a, b)),
        ensures
            recorded(old(self)@, *idx, color, plus, final(self)@),
            match old(self)@.counts.cell(idx.pixel_i as int, idx.pixel_j as int) {
                Some(c) => r == Some((c as usize, final(self)@.counts.counts[c])),
                None => r.is_none(),
            },
    {
        proof {
            use_type_invariant(&*self);
        }
        match self.counts.cell_of(idx) {
            None => {
                assert(self@.counts.counted(idx.pixel_i as int, idx.pixel_j as int)
                    == self@.counts);
                None
            },
            Some(c) => {
                let sum = plus(&self.sums[c], &color);
                let mut taken = Framebuffer::<V>::empty();
                std::mem::swap(self, &mut taken);
                let Framebuffer { mut counts, mut sums } = taken;
                let r = counts.record(idx);
                sums[c] = sum;
                *self = Framebuffer { counts, sums };
                r
            },
        }
    }

    /// The framebuffer of an image without pixels: no cell, no sum, and no
    /// sample asked for. It stands in for a framebuffer while that one is
    /// taken apart and put together again.
    fn empty() -> (fb: Framebuffer<V>)
        ensures
            fb@.counts == Counts::fresh(0, 0, 0),
            fb@.sums == Seq::<V>::empty(),
    {
        Framebuffer { counts: SampleCounts::empty(), sums: Vec::new() }
    }

    /// The sum and the count of a cell.
    pub fn get(&self, c: usize) -> (r: Option<(&V, u64)>)
        ensures
            c < self@.counts.counts.len() ==> r == Some(
                (&self@.sums[c as int], self@.counts.counts[c as int]),
            ),
            c >= self@.counts.counts.len() ==> r.is_none(),
    {
        proof {
            use_type_invariant(self);
        }
        match self.counts.count(c) {
            Some(count) => Some((&self.sums[c], count)),
            None => None,
        }
    }

    /// Whether every pixel has its samples: the image is then fully
    /// rendered.
    pub fn is_complete(&self) -> (b: bool)
        ensures
            b == self@.counts.complete(),
    {
        self.counts.is_complete()
    }
}

} // verus!
