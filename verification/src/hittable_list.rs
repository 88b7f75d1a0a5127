//! A list of things a ray can hit, and the order of hits along a ray.
//!
//! Whether and where a ray hits one thing is real-valued work that is done
//! elsewhere. What comes in here, for each thing, is nothing or the key of
//! its hit: an integer that grows with the distance of the hit along the
//! ray. For a distance that is a positive IEEE 754 double its bit pattern is
//! such a key.

use vstd::prelude::*;

verus! {

/// A list of things a ray can hit, in the order they were added.
pub struct HittableList<P> {
    pub objects: Vec<P>,
}

impl<P> HittableList<P> {
    /// The empty list.
    pub fn new() -> (l: Self)
        ensures
            l.objects@ == Seq::<P>::empty(),
    {
        HittableList { objects: Vec::new() }
    }

    /// The list of `objects`.
    pub fn new_w_objs(objects: Vec<P>) -> (l: Self)
        ensures
            l.objects == objects,
    {
        HittableList { objects }
    }

    /// The list of one object.
    pub fn new_w_obj(object: P) -> (l: Self)
        ensures
            l.objects@ == seq![object],
    {
        let mut list = Self::new();
        list.add(object);
        list
    }

    /// Empties the list.
    pub fn clear(&mut self)
        ensures
            final(self).objects@ == Seq::<P>::empty(),
    {
        self.objects.clear();
    }

    /// Appends `object`.
    pub fn add(&mut self, object: P)
        ensures
            final(self).objects@ == old(self).objects@.push(object),
    {
        self.objects.push(object);
    }

    /// Number of objects.
    pub fn len(&self) -> (n: usize)
        ensures
            n == self.objects@.len(),
    {
        self.objects.len()
    }

    /// The object at position `i`, if there is one.
    pub fn get(&self, i: usize) -> (r: Option<&P>)
        ensures
            i < self.objects@.len() ==> r == Some(&self.objects@[i as int]),
            i >= self.objects@.len() ==> r.is_none(),
    {
        if i < self.objects.len() {
            Some(&self.objects[i])
        } else {
            None
        }
    }
}

/// A hit: the position of the thing that is hit, and the key of the hit.
pub type Hit = (usize, u64);

/// Whether hit `a` comes before hit `b` along the ray: it is nearer, or as
/// near and earlier in the list.
pub open spec fn comes_before(a: Hit, b: Hit) -> bool {
    a.1 < b.1 || (a.1 == b.1 && a.0 < b.0)
}

/// Whether `h` is the hit of one of the things whose keys are `keys`.
pub open spec fn is_hit(keys: Seq<Option<u64>>, h: Hit) -> bool {
    h.0 < keys.len() && keys[h.0 as int] == Some(h.1)
}

/// Whether `hits` lists the hit of the thing at position `i` with key `key`.
pub open spec fn lists(hits: Seq<Hit>, i: int, key: u64) -> bool {
    exists|j: int| 0 <= j < hits.len() && (#[trigger] hits[j]).0 == i && hits[j].1 == key
}

/// `hits` are the hits among `keys`, all of them, nearest first.
pub open spec fn ordered_hits(keys: Seq<Option<u64>>, hits: Seq<Hit>) -> bool {
    &&& forall|j: int| 0 <= j < hits.len() ==> is_hit(keys, #[trigger] hits[j])
    &&& forall|i: int|
        0 <= i < keys.len() && (#[trigger] keys[i]).is_some() ==> lists(hits, i, keys[i].unwrap())
    &&& forall|j: int, k: int|
        0 <= j < k < hits.len() ==> comes_before(#[trigger] hits[j], #[trigger] hits[k])
}

/// Position `i` holds the nearest hit among `keys`: no hit is nearer, and no
/// hit that is as near stands earlier in the list.
pub open spec fn is_nearest(keys: Seq<Option<u64>>, i: int) -> bool {
    &&& 0 <= i < keys.len()
    &&& keys[i].is_some()
    &&& forall|j: int|
        0 <= j < keys.len() && (#[trigger] keys[j]).is_some() ==> keys[i].unwrap()
            < keys[j].unwrap() || (keys[i].unwrap() == keys[j].unwrap() && i <= j)
}

/// The hits among `keys`, nearest first. There is one such list only, see
/// `ordered_hits_are_unique`.
pub open spec fn nearest_first(keys: Seq<Option<u64>>) -> Seq<Hit> {
    choose|hits: Seq<Hit>| ordered_hits(keys, hits)
}

/// The hits among `keys`, nearest first; hits that are equally near come in
/// the order of the list.
pub fn hits_vec(keys: &Vec<Option<u64>>) -> (hits: Vec<Hit>)
    ensures
        ordered_hits(keys@, hits@),
        hits@ == nearest_first(keys@),
{
    let mut hits: Vec<Hit> = Vec::new();
    let mut i: usize = 0;
    while i < keys.len()
        invariant
            i <= keys@.len(),
            ordered_hits(keys@.take(i as int), hits@),
        decreases keys@.len() - i,
    {
        let ghost before = hits@;
        let ghost seen = keys@.take(i as int);
        let ghost upto = keys@.take(i + 1);
        match keys[i] {
            None => {
                proof {
                    assert forall|j: int| 0 <= j < hits@.len() implies is_hit(
                        upto,
                        #[trigger] hits@[j],
                    ) by {
                        assert(is_hit(seen, hits@[j]));
                    }
                    assert forall|k: int| 0 <= k < upto.len() && (#[trigger] upto[k]).is_some()
                        implies lists(hits@, k, upto[k].unwrap()) by {
                        assert(seen[k] == upto[k]);
                    }
                }
            },
            Some(key) => {
                let mut p: usize = 0;
                while p < hits.len() && hits[p].1 <= key
                    invariant
                        p <= hits@.len(),
                        forall|j: int| 0 <= j < p ==> (#[trigger] hits@[j]).1 <= key,
                    decreases hits@.len() - p,
                {
                    p = p + 1;
                }
                hits.insert(p, (i, key));
                proof {
                    let new: Hit = (i, key);
                    assert forall|j: int| 0 <= j < hits@.len() implies is_hit(
                        upto,
                        #[trigger] hits@[j],
                    ) by {
                        if j < p {
                            assert(is_hit(seen, before[j]));
                        } else if j > p {
                            assert(is_hit(seen, before[j - 1]));
                        }
                    }
                    assert forall|k: int| 0 <= k < upto.len() && (#[trigger] upto[k]).is_some()
                        implies lists(hits@, k, upto[k].unwrap()) by {
                        if k < i {
                            assert(seen[k] == upto[k]);
                            assert(lists(before, k, upto[k].unwrap()));
                            let j = choose|j: int|
                                0 <= j < before.len() && (#[trigger] before[j]).0 == k
                                    && before[j].1 == upto[k].unwrap();
                            if j < p {
                                assert(hits@[j] == before[j]);
                            } else {
                                assert(hits@[j + 1] == before[j]);
                            }
                        } else {
                            assert(hits@[p as int] == new);
                        }
                    }
                    assert forall|j: int, k: int| 0 <= j < k < hits@.len() implies comes_before(
                        #[trigger] hits@[j],
                        #[trigger] hits@[k],
                    ) by {
                        if k < p {
                            assert(comes_before(before[j], before[k]));
                        } else if k == p {
                            assert(is_hit(seen, before[j]));
                        } else if j < p {
                            assert(comes_before(before[j], before[k - 1]));
                        } else if j == p {
                            if p < k - 1 {
                                assert(comes_before(before[p as int], before[k - 1]));
                            }
                        } else {
                            assert(comes_before(before[j - 1], before[k - 1]));
                        }
                    }
                }
            },
        }
        i = i + 1;
    }
    proof {
        assert(keys@.take(keys@.len() as int) =~= keys@);
        ordered_hits_are_unique(keys@, hits@, nearest_first(keys@));
    }
    hits
}

/// The position of the nearest hit among `keys`, if anything is hit. Of
/// hits that are equally near the one earlier in the list is taken.
pub fn nearest_hit(keys: &Vec<Option<u64>>) -> (r: Option<usize>)
    ensures
        r.is_none() <==> forall|j: int| 0 <= j < keys@.len() ==> (#[trigger] keys@[j]).is_none(),
        r matches Some(i) ==> is_nearest(keys@, i as int),
{
    let mut best: Option<Hit> = None;
    let mut i: usize = 0;
    while i < keys.len()
        invariant
            i <= keys@.len(),
            best.is_none() <==> forall|j: int| 0 <= j < i ==> (#[trigger] keys@[j]).is_none(),
            best matches Some(b) ==> {
                &&& b.0 < i
                &&& keys@[b.0 as int] == Some(b.1)
                &&& forall|j: int|
                    0 <= j < i && (#[trigger] keys@[j]).is_some() ==> b.1 < keys@[j].unwrap() || (
                    b.1 == keys@[j].unwrap() && b.0 <= j)
            },
        decreases keys@.len() - i,
    {
        match keys[i] {
            None => {},
            Some(key) => {
                match best {
                    None => {
                        best = Some((i, key));
                    },
                    Some(b) => {
                        if key < b.1 {
                            best = Some((i, key));
                        }
                    },
                }
            },
        }
        i = i + 1;
    }
    match best {
        None => None,
        Some(b) => Some(b.0),
    }
}

/// The first of the ordered hits is the nearest hit, and there is no
/// nearest hit exactly when there is no hit at all.
pub proof fn first_hit_is_nearest(keys: Seq<Option<u64>>, hits: Seq<Hit>)
    requires
        ordered_hits(keys, hits),
    ensures
        hits.len() > 0 ==> is_nearest(keys, hits[0].0 as int),
        hits.len() == 0 <==> forall|j: int| 0 <= j < keys.len() ==> (#[trigger] keys[j]).is_none(),
{
    if hits.len() > 0 {
        let first = hits[0];
        assert(is_hit(keys, first));
        assert forall|j: int| 0 <= j < keys.len() && (#[trigger] keys[j]).is_some() implies first.1
            < keys[j].unwrap() || (first.1 == keys[j].unwrap() && first.0 <= j) by {
            assert(lists(hits, j, keys[j].unwrap()));
            let k = choose|k: int|
                0 <= k < hits.len() && (#[trigger] hits[k]).0 == j && hits[k].1 == keys[j].unwrap();
            if k > 0 {
                assert(comes_before(hits[0], hits[k]));
            }
        }
        assert(keys[first.0 as int].is_some());
    } else {
        assert forall|j: int| 0 <= j < keys.len() implies (#[trigger] keys[j]).is_none() by {
            if keys[j].is_some() {
                assert(lists(hits, j, keys[j].unwrap()));
            }
        }
    }
}

/// There is one way only to order the hits: two lists that both hold all
/// hits among `keys`, nearest first, are the same list.
pub proof fn ordered_hits_are_unique(keys: Seq<Option<u64>>, a: Seq<Hit>, b: Seq<Hit>)
    requires
        ordered_hits(keys, a),
        ordered_hits(keys, b),
    ensures
        a == b,
    decreases a.len(),
{
    if a.len() == 0 {
        if b.len() > 0 {
            assert(is_hit(keys, b[0]));
            assert(keys[b[0].0 as int].is_some());
            assert(lists(a, b[0].0 as int, b[0].1));
        }
        assert(a =~= b);
    } else if b.len() == 0 {
        assert(is_hit(keys, a[0]));
        assert(keys[a[0].0 as int].is_some());
        assert(lists(b, a[0].0 as int, a[0].1));
    } else {
        let la = a.last();
        let lb = b.last();
        // The last hit of either list is the farthest hit, so they agree.
        assert(is_hit(keys, la));
        assert(is_hit(keys, lb));
        assert(keys[la.0 as int].is_some());
        assert(keys[lb.0 as int].is_some());
        assert(lists(b, la.0 as int, la.1));
        assert(lists(a, lb.0 as int, lb.1));
        let ia = choose|k: int| 0 <= k < b.len() && (#[trigger] b[k]).0 == la.0 && b[k].1 == la.1;
        let ib = choose|k: int| 0 <= k < a.len() && (#[trigger] a[k]).0 == lb.0 && a[k].1 == lb.1;
        if ia < b.len() - 1 {
            assert(comes_before(b[ia], b[b.len() - 1]));
        }
        if ib < a.len() - 1 {
            assert(comes_before(a[ib], a[a.len() - 1]));
        }
        assert(la == lb);
        // Without the farthest thing the shorter lists order the remaining hits.
        let rest = keys.update(la.0 as int, None);
        lemma_drop_farthest(keys, a);
        lemma_drop_farthest(keys, b);
        ordered_hits_are_unique(rest, a.drop_last(), b.drop_last());
        assert(a =~= a.drop_last().push(la));
        assert(b =~= b.drop_last().push(lb));
    }
}

proof fn lemma_drop_farthest(keys: Seq<Option<u64>>, hits: Seq<Hit>)
    requires
        ordered_hits(keys, hits),
        hits.len() > 0,
    ensures
        ordered_hits(keys.update(hits.last().0 as int, None), hits.drop_last()),
{
    let last = hits.last();
    let rest = keys.update(last.0 as int, None);
    let front = hits.drop_last();
    assert(is_hit(keys, last));
    assert forall|j: int| 0 <= j < front.len() implies is_hit(rest, #[trigger] front[j]) by {
        assert(is_hit(keys, hits[j]));
        assert(comes_before(hits[j], hits[hits.len() - 1]));
    }
    assert forall|i: int| 0 <= i < rest.len() && (#[trigger] rest[i]).is_some() implies lists(
        front,
        i,
        rest[i].unwrap(),
    ) by {
        assert(keys[i] == rest[i]);
        assert(lists(hits, i, keys[i].unwrap()));
        let k = choose|k: int|
            0 <= k < hits.len() && (#[trigger] hits[k]).0 == i && hits[k].1 == keys[i].unwrap();
        assert(front[k] == hits[k]);
    }
    assert forall|j: int, k: int| 0 <= j < k < front.len() implies comes_before(
        #[trigger] front[j],
        #[trigger] front[k],
    ) by {
        assert(comes_before(hits[j], hits[k]));
    }
}

} // verus!
