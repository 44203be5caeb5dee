//! Chunked index of static collision rectangles, and the swept-collision
//! solver used to clamp movement against them.
//!
//! Coordinates are integer world units, bounded so that the solver's
//! exact 128-bit arithmetic cannot overflow.

use vstd::prelude::*;

use crate::frac::Frac;

verus! {

/// Largest coordinate magnitude the index accepts. The swept solver
/// multiplies up to eight coordinate-sized factors into an `i128`, so the
/// bound keeps every product representable.
pub const COORD_LIMIT: i64 = 4096;

/// An axis-aligned collision rectangle with ordered, bounded sides.
#[derive(Clone, Copy, Debug, PartialEq, Eq, Structural, Hash)]
pub struct Hitbox {
    pub min_x: i64,
    pub min_y: i64,
    pub max_x: i64,
    pub max_y: i64,
}

impl Hitbox {
    /// Sides ordered per axis, coordinates within the index's bound.
    pub open spec fn wf(self) -> bool {
        &&& -(COORD_LIMIT as int) <= self.min_x <= self.max_x <= COORD_LIMIT as int
        &&& -(COORD_LIMIT as int) <= self.min_y <= self.max_y <= COORD_LIMIT as int
    }

    /// Open-interval overlap: rectangles that merely touch do not
    /// intersect.
    pub open spec fn spec_intersects(self, o: Hitbox) -> bool {
        !(self.max_x <= o.min_x || self.min_x >= o.max_x || self.max_y <= o.min_y
            || self.min_y >= o.max_y)
    }

    /// Accepts the rectangle only when its sides are ordered and within
    /// the coordinate bound.
    pub fn new(min: [i64; 2], max: [i64; 2]) -> (r: Option<Hitbox>)
        ensures
            match r {
                Some(h) => {
                    &&& h.min_x == min[0] && h.min_y == min[1]
                    &&& h.max_x == max[0] && h.max_y == max[1]
                    &&& h.wf()
                },
                None => !(Hitbox {
                    min_x: min[0],
                    min_y: min[1],
                    max_x: max[0],
                    max_y: max[1],
                }).wf(),
            },
    {
        let h = Hitbox { min_x: min[0], min_y: min[1], max_x: max[0], max_y: max[1] };
        if h.min_x <= h.max_x && h.min_y <= h.max_y && -COORD_LIMIT <= h.min_x
            && h.max_x <= COORD_LIMIT && -COORD_LIMIT <= h.min_y && h.max_y <= COORD_LIMIT {
            Some(h)
        } else {
            None
        }
    }

    pub fn intersects(&self, other: &Hitbox) -> (r: bool)
        ensures
            r == self.spec_intersects(*other),
    {
        !(self.max_x <= other.min_x || self.min_x >= other.max_x || self.max_y <= other.min_y
            || self.min_y >= other.max_y)
    }

    /// The rectangle shifted by an offset.
    pub fn add_offset(self, dx: i64, dy: i64) -> (r: Hitbox)
        requires
            self.wf(),
            -(COORD_LIMIT as int) <= dx <= COORD_LIMIT as int,
            -(COORD_LIMIT as int) <= dy <= COORD_LIMIT as int,
        ensures
            r.min_x == self.min_x + dx && r.max_x == self.max_x + dx,
            r.min_y == self.min_y + dy && r.max_y == self.max_y + dy,
    {
        Hitbox {
            min_x: self.min_x + dx,
            min_y: self.min_y + dy,
            max_x: self.max_x + dx,
            max_y: self.max_y + dy,
        }
    }
}

/// Smallest box covering both arguments.
pub open spec fn expand_box(b: Hitbox, h: Hitbox) -> Hitbox {
    Hitbox {
        min_x: if h.min_x < b.min_x { h.min_x } else { b.min_x },
        min_y: if h.min_y < b.min_y { h.min_y } else { b.min_y },
        max_x: if h.max_x > b.max_x { h.max_x } else { b.max_x },
        max_y: if h.max_y > b.max_y { h.max_y } else { b.max_y },
    }
}

/// The tight bounding box of a sequence of rectangles, `None` when it is
/// empty.
pub open spec fn bb_of(s: Seq<Hitbox>) -> Option<Hitbox>
    decreases s.len(),
{
    if s.len() == 0 {
        None
    } else {
        match bb_of(s.drop_last()) {
            None => Some(s.last()),
            Some(b) => Some(expand_box(b, s.last())),
        }
    }
}

/// One box lies inside another.
pub open spec fn box_inside(inner: Hitbox, outer: Hitbox) -> bool {
    outer.min_x <= inner.min_x && outer.min_y <= inner.min_y && inner.max_x <= outer.max_x
        && inner.max_y <= outer.max_y
}

/// Every rectangle of a non-empty sequence lies inside its tight bound.
pub proof fn lemma_bb_contains(s: Seq<Hitbox>)
    requires
        s.len() > 0,
    ensures
        bb_of(s) is Some,
        forall|i: int| 0 <= i < s.len() ==> box_inside(s[i], bb_of(s)->Some_0),
    decreases s.len(),
{
    if s.len() > 1 {
        lemma_bb_contains(s.drop_last());
        assert(forall|i: int| 0 <= i < s.len() - 1 ==> s.drop_last()[i] == s[i]);
    }
}

/// Each side of the tight bound is achieved by some rectangle: the bound
/// is not merely an enclosure but the least one.
pub proof fn lemma_bb_achieved(s: Seq<Hitbox>)
    requires
        s.len() > 0,
    ensures
        bb_of(s) is Some,
        exists|i: int| 0 <= i < s.len() && s[i].min_x == bb_of(s)->Some_0.min_x,
        exists|i: int| 0 <= i < s.len() && s[i].min_y == bb_of(s)->Some_0.min_y,
        exists|i: int| 0 <= i < s.len() && s[i].max_x == bb_of(s)->Some_0.max_x,
        exists|i: int| 0 <= i < s.len() && s[i].max_y == bb_of(s)->Some_0.max_y,
    decreases s.len(),
{
    if s.len() > 1 {
        lemma_bb_achieved(s.drop_last());
        assert(forall|i: int| 0 <= i < s.len() - 1 ==> s.drop_last()[i] == s[i]);
        assert(s[s.len() - 1] == s.last());
        let bprev = bb_of(s.drop_last())->Some_0;
        let b = bb_of(s)->Some_0;
        if s.last().min_x < bprev.min_x {
            assert(s[s.len() - 1].min_x == b.min_x);
        } else {
            let i = choose|i: int|
                0 <= i < s.drop_last().len() && s.drop_last()[i].min_x == bprev.min_x;
            assert(s[i].min_x == b.min_x);
        }
        if s.last().min_y < bprev.min_y {
            assert(s[s.len() - 1].min_y == b.min_y);
        } else {
            let i = choose|i: int|
                0 <= i < s.drop_last().len() && s.drop_last()[i].min_y == bprev.min_y;
            assert(s[i].min_y == b.min_y);
        }
        if s.last().max_x > bprev.max_x {
            assert(s[s.len() - 1].max_x == b.max_x);
        } else {
            let i = choose|i: int|
                0 <= i < s.drop_last().len() && s.drop_last()[i].max_x == bprev.max_x;
            assert(s[i].max_x == b.max_x);
        }
        if s.last().max_y > bprev.max_y {
            assert(s[s.len() - 1].max_y == b.max_y);
        } else {
            let i = choose|i: int|
                0 <= i < s.drop_last().len() && s.drop_last()[i].max_y == bprev.max_y;
            assert(s[i].max_y == b.max_y);
        }
    } else {
        assert(s[0] == s.last());
    }
}

/// Whether a sequence holds a given rectangle.
pub open spec fn has_elem(s: Seq<Hitbox>, h: Hitbox) -> bool {
    exists|i: int| 0 <= i < s.len() && s[i] == h
}

/// A spatial bucket: a set of rectangles plus their cached tight
/// bounding box, expanded incrementally on insert and recomputed from
/// scratch on removal.
#[derive(Debug)]
pub struct HitboxChunk {
    bounding_box: Option<Hitbox>,
    elements: Vec<Hitbox>,
}

impl HitboxChunk {
    /// All elements well-formed and distinct, and the cached box is the
    /// tight bound of the current element set.
    pub closed spec fn wf(self) -> bool {
        &&& forall|i: int| 0 <= i < self.elements@.len() ==> (#[trigger] self.elements@[i]).wf()
        &&& forall|i: int, j: int|
            0 <= i < j < self.elements@.len() ==> self.elements@[i] != self.elements@[j]
        &&& self.bounding_box == bb_of(self.elements@)
    }

    pub closed spec fn spec_elements(self) -> Seq<Hitbox> {
        self.elements@
    }

    pub closed spec fn spec_bounding_box(self) -> Option<Hitbox> {
        self.bounding_box
    }

    pub fn new() -> (r: HitboxChunk)
        ensures
            r.wf(),
            r.spec_elements().len() == 0,
    {
        HitboxChunk { bounding_box: None, elements: Vec::new() }
    }

    /// The cached bounding box.
    pub fn bounding_box(&self) -> (r: Option<Hitbox>)
        ensures
            r == self.spec_bounding_box(),
    {
        self.bounding_box
    }

    /// Read access to the element set.
    pub fn elements(&self) -> (r: &Vec<Hitbox>)
        ensures
            r@ == self.spec_elements(),
    {
        &self.elements
    }

    pub fn contains(&self, h: &Hitbox) -> (r: bool)
        ensures
            r == has_elem(self.spec_elements(), *h),
    {
        let mut i: usize = 0;
        while i < self.elements.len()
            invariant
                0 <= i <= self.elements@.len(),
                forall|j: int| 0 <= j < i ==> self.elements@[j] != *h,
            decreases self.elements@.len() - i,
        {
            if self.elements[i] == *h {
                return true;
            }
            i += 1;
        }
        false
    }

    /// Adds a rectangle (no effect when already present) and keeps the
    /// cached box tight.
    pub fn insert(&mut self, h: Hitbox)
        requires
            old(self).wf(),
            h.wf(),
        ensures
            final(self).wf(),
            has_elem(old(self).spec_elements(), h) ==> final(self).spec_elements()
                == old(self).spec_elements(),
            !has_elem(old(self).spec_elements(), h) ==> final(self).spec_elements()
                == old(self).spec_elements().push(h),
    {
        if self.contains(&h) {
            return;
        }
        let new_bb = match self.bounding_box {
            None => h,
            Some(b) => Hitbox {
                min_x: if h.min_x < b.min_x { h.min_x } else { b.min_x },
                min_y: if h.min_y < b.min_y { h.min_y } else { b.min_y },
                max_x: if h.max_x > b.max_x { h.max_x } else { b.max_x },
                max_y: if h.max_y > b.max_y { h.max_y } else { b.max_y },
            },
        };
        self.bounding_box = Some(new_bb);
        self.elements.push(h);
        proof {
            assert(self.elements@.drop_last() =~= old(self).elements@);
            assert(self.elements@.last() == h);
        }
    }

    /// Removes a rectangle if present and recomputes the cached box from
    /// scratch.
    pub fn remove(&mut self, h: Hitbox)
        requires
            old(self).wf(),
        ensures
            final(self).wf(),
            !has_elem(old(self).spec_elements(), h) ==> final(self).spec_elements()
                == old(self).spec_elements(),
            has_elem(old(self).spec_elements(), h) ==> {
                &&& final(self).spec_elements().len() == old(self).spec_elements().len() - 1
                &&& !has_elem(final(self).spec_elements(), h)
                &&& forall|x: Hitbox|
                    x != h ==> (has_elem(final(self).spec_elements(), x) == has_elem(
                        old(self).spec_elements(),
                        x,
                    ))
            },
    {
        if !self.contains(&h) {
            return;
        }
        let mut i: usize = 0;
        while i < self.elements.len()
            invariant
                0 <= i <= self.elements@.len(),
                self == old(self),
                old(self).wf(),
                has_elem(self.elements@, h),
                forall|j: int| 0 <= j < i ==> self.elements@[j] != h,
            decreases self.elements@.len() - i,
        {
            if self.elements[i] == h {
                let idx = i;
                self.elements.remove(idx);
                proof {
                    assert(has_elem(old(self).spec_elements(), h));
                    assert forall|x: Hitbox| x != h implies (has_elem(self.elements@, x)
                        == has_elem(old(self).elements@, x)) by {
                        if has_elem(old(self).elements@, x) {
                            let j = choose|j: int|
                                0 <= j < old(self).elements@.len() && old(self).elements@[j] == x;
                            if j < idx {
                                assert(self.elements@[j] == x);
                            } else {
                                assert(j > idx);
                                assert(self.elements@[j - 1] == x);
                            }
                        }
                        if has_elem(self.elements@, x) {
                            let j = choose|j: int|
                                0 <= j < self.elements@.len() && self.elements@[j] == x;
                            if j < idx {
                                assert(old(self).elements@[j] == x);
                            } else {
                                assert(old(self).elements@[j + 1] == x);
                            }
                        }
                    }
                    assert(old(self).elements@[idx as int] == h);
                    assert forall|j: int| 0 <= j < self.elements@.len()
                        implies self.elements@[j] != h by {
                        if j < idx {
                        } else {
                            assert(self.elements@[j] == old(self).elements@[j + 1]);
                            assert(old(self).elements@[idx as int] != old(self).elements@[j + 1]);
                        }
                    }
                    assert forall|j: int| 0 <= j < self.elements@.len()
                        implies (#[trigger] self.elements@[j]).wf() by {
                        if j < idx {
                            assert(self.elements@[j] == old(self).elements@[j]);
                        } else {
                            assert(self.elements@[j] == old(self).elements@[j + 1]);
                        }
                    }
                    assert forall|j1: int, j2: int| 0 <= j1 < j2 < self.elements@.len()
                        implies self.elements@[j1] != self.elements@[j2] by {
                        let k1 = if j1 < idx { j1 } else { j1 + 1 };
                        let k2 = if j2 < idx { j2 } else { j2 + 1 };
                        assert(self.elements@[j1] == old(self).elements@[k1]);
                        assert(self.elements@[j2] == old(self).elements@[k2]);
                        assert(old(self).elements@[k1] != old(self).elements@[k2]);
                    }
                }
                self.recompute_bounding_box();
                return;
            }
            i += 1;
        }
        proof {
            assert(false);
        }
    }

    fn recompute_bounding_box(&mut self)
        requires
            forall|i: int| 0 <= i < old(self).elements@.len()
                ==> (#[trigger] old(self).elements@[i]).wf(),
        ensures
            final(self).elements@ == old(self).elements@,
            final(self).bounding_box == bb_of(final(self).elements@),
    {
        let mut bb: Option<Hitbox> = None;
        let mut i: usize = 0;
        while i < self.elements.len()
            invariant
                0 <= i <= self.elements@.len(),
                self.elements@ == old(self).elements@,
                bb == bb_of(self.elements@.take(i as int)),
            decreases self.elements@.len() - i,
        {
            let h = self.elements[i];
            bb = match bb {
                None => Some(h),
                Some(b) => Some(Hitbox {
                    min_x: if h.min_x < b.min_x { h.min_x } else { b.min_x },
                    min_y: if h.min_y < b.min_y { h.min_y } else { b.min_y },
                    max_x: if h.max_x > b.max_x { h.max_x } else { b.max_x },
                    max_y: if h.max_y > b.max_y { h.max_y } else { b.max_y },
                }),
            };
            proof {
                assert(self.elements@.take(i + 1).drop_last() =~= self.elements@.take(i as int));
                assert(self.elements@.take(i + 1).last() == self.elements@[i as int]);
            }
            i += 1;
        }
        proof {
            assert(self.elements@.take(self.elements@.len() as int) =~= self.elements@);
        }
        self.bounding_box = bb;
    }
}

/// Law: after any sequence of insertions and removals the cached box of
/// a well-formed chunk is exactly the tight bound of its element set:
/// every element lies inside it and each of its four sides is achieved.
pub proof fn law_chunk_bounding_box_tight(c: &HitboxChunk)
    requires
        c.wf(),
        c.spec_elements().len() > 0,
    ensures
        c.spec_bounding_box() == bb_of(c.spec_elements()),
        c.spec_bounding_box() is Some,
        forall|i: int| 0 <= i < c.spec_elements().len()
            ==> box_inside(c.spec_elements()[i], c.spec_bounding_box()->Some_0),
        exists|i: int| 0 <= i < c.spec_elements().len()
            && c.spec_elements()[i].min_x == c.spec_bounding_box()->Some_0.min_x,
        exists|i: int| 0 <= i < c.spec_elements().len()
            && c.spec_elements()[i].min_y == c.spec_bounding_box()->Some_0.min_y,
        exists|i: int| 0 <= i < c.spec_elements().len()
            && c.spec_elements()[i].max_x == c.spec_bounding_box()->Some_0.max_x,
        exists|i: int| 0 <= i < c.spec_elements().len()
            && c.spec_elements()[i].max_y == c.spec_bounding_box()->Some_0.max_y,
{
    lemma_bb_contains(c.spec_elements());
    lemma_bb_achieved(c.spec_elements());
}


/// A sparse uniform grid of chunks keyed by integer chunk coordinates.
///
/// A rectangle is indexed only by the chunk holding its minimum corner,
/// so queries examine the 3-by-3 chunk neighbourhood around a rectangle.
#[derive(Debug)]
pub struct HitboxManager {
    chunks: Vec<((i64, i64), HitboxChunk)>,
    chunk_width: i64,
    chunk_height: i64,
}

impl HitboxManager {
    /// Positive bounded chunk dimensions, unique keys, well-formed
    /// chunks.
    pub closed spec fn wf(self) -> bool {
        &&& 0 < self.chunk_width <= COORD_LIMIT as int
        &&& 0 < self.chunk_height <= COORD_LIMIT as int
        &&& forall|i: int, j: int|
            0 <= i < j < self.chunks@.len() ==> (#[trigger] self.chunks@[i]).0 != (
            #[trigger] self.chunks@[j]).0
        &&& forall|i: int| 0 <= i < self.chunks@.len() ==> (#[trigger] self.chunks@[i]).1.wf()
    }

    pub closed spec fn spec_chunk_width(self) -> int {
        self.chunk_width as int
    }

    pub closed spec fn spec_chunk_height(self) -> int {
        self.chunk_height as int
    }

    /// The chunk stored under a key, if any.
    pub closed spec fn spec_chunk_at(self, key: (i64, i64)) -> Option<HitboxChunk> {
        if exists|i: int| 0 <= i < self.chunks@.len() && (#[trigger] self.chunks@[i]).0 == key {
            let i = choose|i: int|
                0 <= i < self.chunks@.len() && (#[trigger] self.chunks@[i]).0 == key;
            Some(self.chunks@[i].1)
        } else {
            None
        }
    }

    /// The elements indexed under a key: empty when no chunk is stored.
    pub open spec fn spec_elems_at(self, key: (i64, i64)) -> Seq<Hitbox> {
        match self.spec_chunk_at(key) {
            Some(c) => c.spec_elements(),
            None => Seq::empty(),
        }
    }

    /// The chunk key of a rectangle: floor of its minimum corner over
    /// the chunk dimensions.
    pub open spec fn spec_chunk_key(self, h: Hitbox) -> (i64, i64) {
        (
            ((h.min_x as int) / self.spec_chunk_width()) as i64,
            ((h.min_y as int) / self.spec_chunk_height()) as i64,
        )
    }

    pub fn new(chunk_width: i64, chunk_height: i64) -> (r: HitboxManager)
        requires
            0 < chunk_width <= COORD_LIMIT as int,
            0 < chunk_height <= COORD_LIMIT as int,
        ensures
            r.wf(),
            r.spec_chunk_width() == chunk_width,
            r.spec_chunk_height() == chunk_height,
            forall|key: (i64, i64)| r.spec_chunk_at(key) is None,
    {
        HitboxManager { chunks: Vec::new(), chunk_width, chunk_height }
    }

    /// Computes the chunk key of a rectangle.
    pub fn chunk_key(&self, h: &Hitbox) -> (r: (i64, i64))
        requires
            self.wf(),
            h.wf(),
        ensures
            r == self.spec_chunk_key(*h),
            -(COORD_LIMIT as int) <= r.0 <= COORD_LIMIT as int,
            -(COORD_LIMIT as int) <= r.1 <= COORD_LIMIT as int,
    {
        let kx = crate::floor_div(h.min_x, self.chunk_width);
        let ky = crate::floor_div(h.min_y, self.chunk_height);
        proof {
            lemma_div_magnitude(h.min_x as int, self.chunk_width as int);
            lemma_div_magnitude(h.min_y as int, self.chunk_height as int);
        }
        (kx, ky)
    }

    fn find_idx(&self, key: (i64, i64)) -> (r: Option<usize>)
        requires
            self.wf(),
        ensures
            match r {
                Some(i) => i < self.chunks@.len() && self.chunks@[i as int].0 == key
                    && self.spec_chunk_at(key) == Some(self.chunks@[i as int].1),
                None => self.spec_chunk_at(key) is None,
            },
    {
        let mut i: usize = 0;
        while i < self.chunks.len()
            invariant
                0 <= i <= self.chunks@.len(),
                self.wf(),
                forall|j: int| 0 <= j < i ==> (#[trigger] self.chunks@[j]).0 != key,
            decreases self.chunks@.len() - i,
        {
            let (k, _) = &self.chunks[i];
            if k.0 == key.0 && k.1 == key.1 {
                proof {
                    let j = choose|j: int|
                        0 <= j < self.chunks@.len() && (#[trigger] self.chunks@[j]).0 == key;
                    assert(j == i);
                }
                return Some(i);
            }
            i += 1;
        }
        None
    }

    /// Routes a rectangle to the chunk of its minimum corner, creating
    /// the chunk on first use; every other chunk is untouched.
    pub fn insert(&mut self, h: Hitbox)
        requires
            old(self).wf(),
            h.wf(),
        ensures
            final(self).wf(),
            final(self).spec_chunk_width() == old(self).spec_chunk_width(),
            final(self).spec_chunk_height() == old(self).spec_chunk_height(),
            ({
                let key = old(self).spec_chunk_key(h);
                &&& (if has_elem(old(self).spec_elems_at(key), h) {
                    final(self).spec_elems_at(key) == old(self).spec_elems_at(key)
                } else {
                    final(self).spec_elems_at(key) == old(self).spec_elems_at(key).push(h)
                })
                &&& forall|k: (i64, i64)|
                    k != key ==> final(self).spec_elems_at(k) == old(self).spec_elems_at(k)
            }),
    {
        let key = self.chunk_key(&h);
        match self.find_idx(key) {
            Some(i) => {
                let ghost old_self = *self;
                self.chunks[i].1.insert(h);
                proof {
                    lemma_chunk_at_update(old_self, *self, i as int, key);
                }
            },
            None => {
                let ghost old_self = *self;
                let mut c = HitboxChunk::new();
                c.insert(h);
                self.chunks.push((key, c));
                proof {
                    assert(old_self.spec_elems_at(key) =~= Seq::<Hitbox>::empty());
                    lemma_chunk_at_push(old_self, *self, key);
                }
            },
        }
    }

    /// Removes a rectangle from the chunk of its minimum corner, if
    /// present; every other chunk is untouched.
    pub fn remove(&mut self, h: Hitbox)
        requires
            old(self).wf(),
            h.wf(),
        ensures
            final(self).wf(),
            final(self).spec_chunk_width() == old(self).spec_chunk_width(),
            final(self).spec_chunk_height() == old(self).spec_chunk_height(),
            ({
                let key = old(self).spec_chunk_key(h);
                &&& !has_elem(final(self).spec_elems_at(key), h)
                &&& forall|x: Hitbox|
                    x != h ==> has_elem(final(self).spec_elems_at(key), x) == has_elem(
                        old(self).spec_elems_at(key),
                        x,
                    )
                &&& forall|k: (i64, i64)|
                    k != key ==> final(self).spec_elems_at(k) == old(self).spec_elems_at(k)
            }),
    {
        let key = self.chunk_key(&h);
        match self.find_idx(key) {
            Some(i) => {
                let ghost old_self = *self;
                self.chunks[i].1.remove(h);
                proof {
                    lemma_chunk_at_update(old_self, *self, i as int, key);
                }
            },
            None => {
            },
        }
    }
}

/// Magnitude bound for Euclidean division by a positive divisor.
proof fn lemma_div_magnitude(a: int, b: int)
    requires
        b > 0,
        -(COORD_LIMIT as int) <= a <= COORD_LIMIT as int,
    ensures
        -(COORD_LIMIT as int) <= a / b <= COORD_LIMIT as int,
{
    vstd::arithmetic::div_mod::lemma_fundamental_div_mod(a, b);
    vstd::arithmetic::div_mod::lemma_mod_bound(a, b);
    let q = a / b;
    let r = a % b;
    if a >= 0 {
        assert(0 <= q <= a) by (nonlinear_arith)
            requires a == b * q + r, 0 <= r < b, b >= 1, a >= 0;
    } else {
        assert(q >= a && q <= 0) by (nonlinear_arith)
            requires a == b * q + r, 0 <= r < b, b >= 1, a < 0;
    }
}

/// After updating the chunk stored at index `i` (key unchanged), lookups
/// at its key see the new chunk and all other keys are unchanged.
proof fn lemma_chunk_at_update(
    pre: HitboxManager,
    post: HitboxManager,
    i: int,
    key: (i64, i64),
)
    requires
        pre.wf(),
        0 <= i < pre.chunks@.len(),
        pre.chunks@[i].0 == key,
        post.chunks@ == pre.chunks@.update(i, (key, post.chunks@[i].1)),
        post.chunk_width == pre.chunk_width,
        post.chunk_height == pre.chunk_height,
        post.chunks@[i].1.wf(),
    ensures
        post.wf(),
        post.spec_chunk_at(key) == Some(post.chunks@[i].1),
        forall|k: (i64, i64)| k != key ==> post.spec_chunk_at(k) == pre.spec_chunk_at(k),
{
    assert forall|k: (i64, i64)| k != key implies post.spec_chunk_at(k) == pre.spec_chunk_at(k) by {
        if exists|j: int| 0 <= j < pre.chunks@.len() && (#[trigger] pre.chunks@[j]).0 == k {
            let j = choose|j: int| 0 <= j < pre.chunks@.len() && (#[trigger] pre.chunks@[j]).0 == k;
            assert(post.chunks@[j].0 == k);
            let j2 = choose|j2: int|
                0 <= j2 < post.chunks@.len() && (#[trigger] post.chunks@[j2]).0 == k;
            assert(pre.chunks@[j2].0 == k || j2 == i);
            assert(j2 == j);
        } else {
            assert forall|j: int| 0 <= j < post.chunks@.len()
                implies (#[trigger] post.chunks@[j]).0 != k by {
                assert(j == i || post.chunks@[j] == pre.chunks@[j]);
            }
        }
    }
    let j2 = choose|j2: int|
        0 <= j2 < post.chunks@.len() && (#[trigger] post.chunks@[j2]).0 == key;
    assert(post.chunks@[i].0 == key);
    assert(j2 == i || pre.chunks@[j2].0 == key);
    assert(j2 == i);
}

/// After appending a chunk under a fresh key, lookups at that key see it
/// and all other keys are unchanged.
proof fn lemma_chunk_at_push(pre: HitboxManager, post: HitboxManager, key: (i64, i64))
    requires
        pre.wf(),
        pre.spec_chunk_at(key) is None,
        post.chunks@ == pre.chunks@.push((key, post.chunks@.last().1)),
        post.chunks@.last().0 == key,
        post.chunks@.last().1.wf(),
        post.chunk_width == pre.chunk_width,
        post.chunk_height == pre.chunk_height,
    ensures
        post.wf(),
        post.spec_chunk_at(key) == Some(post.chunks@.last().1),
        forall|k: (i64, i64)| k != key ==> post.spec_chunk_at(k) == pre.spec_chunk_at(k),
{
    let n = pre.chunks@.len() as int;
    assert(forall|j: int| 0 <= j < n ==> post.chunks@[j] == pre.chunks@[j]);
    assert forall|i: int, j: int| 0 <= i < j < post.chunks@.len()
        implies (#[trigger] post.chunks@[i]).0 != (#[trigger] post.chunks@[j]).0 by {
        if j == n {
            assert(pre.chunks@[i].0 != key) by {
                if pre.chunks@[i].0 == key {
                    assert(exists|m: int|
                        0 <= m < pre.chunks@.len() && (#[trigger] pre.chunks@[m]).0 == key);
                }
            }
        }
    }
    assert(post.chunks@[n].0 == key);
    let j2 = choose|j2: int|
        0 <= j2 < post.chunks@.len() && (#[trigger] post.chunks@[j2]).0 == key;
    assert(j2 == n) by {
        if j2 < n {
            assert(pre.chunks@[j2].0 == key);
        }
    }
    assert forall|k: (i64, i64)| k != key implies post.spec_chunk_at(k) == pre.spec_chunk_at(k) by {
        if exists|j: int| 0 <= j < pre.chunks@.len() && (#[trigger] pre.chunks@[j]).0 == k {
            let j = choose|j: int| 0 <= j < pre.chunks@.len() && (#[trigger] pre.chunks@[j]).0 == k;
            assert(post.chunks@[j].0 == k);
            let m = choose|m: int|
                0 <= m < post.chunks@.len() && (#[trigger] post.chunks@[m]).0 == k;
            assert(m < n);
            assert(m == j);
        } else {
            assert forall|j: int| 0 <= j < post.chunks@.len()
                implies (#[trigger] post.chunks@[j]).0 != k by {
                if j < n {
                    assert(post.chunks@[j] == pre.chunks@[j]);
                }
            }
        }
    }
}


/// A 2D line given by a start point and a direction vector, in integer
/// world units.
#[derive(Clone, Copy, Debug, PartialEq, Eq, Structural)]
pub struct Line {
    pub px: i64,
    pub py: i64,
    pub dx: i64,
    pub dy: i64,
}

impl Line {
    pub fn from_position_direction(position: (i64, i64), direction: (i64, i64)) -> (r: Line)
        ensures
            r.px == position.0 && r.py == position.1,
            r.dx == direction.0 && r.dy == direction.1,
    {
        Line { px: position.0, py: position.1, dx: direction.0, dy: direction.1 }
    }

    pub fn from_start_end(start: (i64, i64), end: (i64, i64)) -> (r: Line)
        requires
            -0x4000_0000_0000_0000 < start.0 < 0x4000_0000_0000_0000,
            -0x4000_0000_0000_0000 < start.1 < 0x4000_0000_0000_0000,
            -0x4000_0000_0000_0000 < end.0 < 0x4000_0000_0000_0000,
            -0x4000_0000_0000_0000 < end.1 < 0x4000_0000_0000_0000,
        ensures
            r.px == start.0 && r.py == start.1,
            r.dx == end.0 - start.0 && r.dy == end.1 - start.1,
    {
        Line { px: start.0, py: start.1, dx: end.0 - start.0, dy: end.1 - start.1 }
    }

    pub fn start_point(&self) -> (r: (i64, i64))
        ensures
            r == (self.px, self.py),
    {
        (self.px, self.py)
    }

    pub fn direction(&self) -> (r: (i64, i64))
        ensures
            r == (self.dx, self.dy),
    {
        (self.dx, self.dy)
    }
}

/// Coordinate bound accepted by `line_collision`; products of four such
/// factors stay far inside `i128`.
pub const LINE_LIMIT: i64 = 0x100_0000;

/// 2D cross product.
pub open spec fn spec_cross(ax: int, ay: int, bx: int, by: int) -> int {
    ax * by - ay * bx
}

/// `min(n/d, 1)` as a numerator/denominator pair, for `d > 0`.
pub open spec fn spec_min_one(n: int, d: int) -> (int, int) {
    if n <= d {
        (n, d)
    } else {
        (1, 1)
    }
}

/// The collision fraction of one moving edge against one static edge.
///
/// The static edge is re-expressed in the moving edge's (along-edge,
/// along-movement) frame by inverting the 2-by-2 matrix `[d | m]`; the
/// result is the smallest fraction of the movement at which the two
/// segments touch, clamped to at most one, or one when they never
/// touch within the edge's extent. A singular matrix (movement parallel
/// to the edge) reports one.
pub open spec fn lc_spec(
    p: (int, int),
    d: (int, int),
    m: (int, int),
    q: (int, int),
    e: (int, int),
) -> (int, int) {
    let det = spec_cross(d.0, d.1, m.0, m.1);
    if det == 0 {
        (1, 1)
    } else {
        let neg = det < 0;
        let den = if neg { -det } else { det };
        let rx = q.0 - p.0;
        let ry = q.1 - p.1;
        let om0 = if neg { -(m.1 * rx - m.0 * ry) } else { m.1 * rx - m.0 * ry };
        let dm0 = if neg { -(d.0 * ry - d.1 * rx) } else { d.0 * ry - d.1 * rx };
        let ok0 = if neg { -(m.1 * e.0 - m.0 * e.1) } else { m.1 * e.0 - m.0 * e.1 };
        let dk0 = if neg { -(d.0 * e.1 - d.1 * e.0) } else { d.0 * e.1 - d.1 * e.0 };
        let om = if dk0 < 0 { om0 + ok0 } else { om0 };
        let dm = if dk0 < 0 { dm0 + dk0 } else { dm0 };
        let ok = if dk0 < 0 { -ok0 } else { ok0 };
        let dk = if dk0 < 0 { -dk0 } else { dk0 };
        if om >= 0 {
            if om <= den {
                spec_min_one(dm, den)
            } else if ok >= 0 {
                (1, 1)
            } else {
                let tn = om - den;
                let td = -ok;
                if tn <= td {
                    spec_min_one(dk * tn + dm * td, den * td)
                } else {
                    (1, 1)
                }
            }
        } else {
            if ok <= 0 {
                (1, 1)
            } else {
                let tn = -om;
                let td = ok;
                if tn <= td {
                    spec_min_one(dk * tn + dm * td, den * td)
                } else {
                    (1, 1)
                }
            }
        }
    }
}

/// Product bound: factors bounded in magnitude bound the product.
pub proof fn lemma_mul_bound(a: int, b: int, ba: int, bb: int)
    requires
        -ba <= a <= ba,
        -bb <= b <= bb,
        0 <= ba,
        0 <= bb,
    ensures
        -(ba * bb) <= a * b <= ba * bb,
{
    assert(-(ba * bb) <= a * b <= ba * bb) by (nonlinear_arith)
        requires -ba <= a <= ba, -bb <= b <= bb, 0 <= ba, 0 <= bb;
}

/// Magnitude bounds of the collision fraction, in terms of a bound on
/// the edge and movement coordinates.
pub proof fn lemma_lc_bounds(
    p: (int, int),
    d: (int, int),
    m: (int, int),
    q: (int, int),
    e: (int, int),
    lim: int,
)
    requires
        1 <= lim,
        -lim <= p.0 <= lim && -lim <= p.1 <= lim,
        -lim <= d.0 <= lim && -lim <= d.1 <= lim,
        -lim <= m.0 <= lim && -lim <= m.1 <= lim,
        -lim <= q.0 <= lim && -lim <= q.1 <= lim,
        -lim <= e.0 <= lim && -lim <= e.1 <= lim,
    ensures
        ({
            let (n, dd) = lc_spec(p, d, m, q, e);
            &&& -(28 * lim * lim * lim * lim) <= n <= 28 * lim * lim * lim * lim
            &&& 0 < dd <= 4 * lim * lim * lim * lim
        }),
{
    let l2 = lim * lim;
    let l4 = l2 * l2;
    assert(lim <= l2 && l2 <= l4 && 1 <= l2 && 1 <= l4) by (nonlinear_arith)
        requires 1 <= lim, l2 == lim * lim, l4 == l2 * l2;
    let det = spec_cross(d.0, d.1, m.0, m.1);
    lemma_mul_bound(d.0, m.1, lim, lim);
    lemma_mul_bound(d.1, m.0, lim, lim);
    if det != 0 {
        let neg = det < 0;
        let den: int = if neg { -det } else { det };
        let rx = q.0 - p.0;
        let ry = q.1 - p.1;
        lemma_mul_bound(m.1, rx, lim, 2 * lim);
        lemma_mul_bound(m.0, ry, lim, 2 * lim);
        lemma_mul_bound(d.0, ry, lim, 2 * lim);
        lemma_mul_bound(d.1, rx, lim, 2 * lim);
        lemma_mul_bound(m.1, e.0, lim, lim);
        lemma_mul_bound(m.0, e.1, lim, lim);
        lemma_mul_bound(d.0, e.1, lim, lim);
        lemma_mul_bound(d.1, e.0, lim, lim);
        assert(2 * lim * lim == 2 * l2) by (nonlinear_arith)
            requires l2 == lim * lim;
        assert(lim * (2 * lim) == 2 * l2) by (nonlinear_arith)
            requires l2 == lim * lim;
        let om0: int = if neg { -(m.1 * rx - m.0 * ry) } else { m.1 * rx - m.0 * ry };
        let dm0: int = if neg { -(d.0 * ry - d.1 * rx) } else { d.0 * ry - d.1 * rx };
        let ok0: int = if neg { -(m.1 * e.0 - m.0 * e.1) } else { m.1 * e.0 - m.0 * e.1 };
        let dk0: int = if neg { -(d.0 * e.1 - d.1 * e.0) } else { d.0 * e.1 - d.1 * e.0 };
        assert(0 < den <= 2 * l2);
        assert(-(4 * l2) <= om0 <= 4 * l2);
        assert(-(4 * l2) <= dm0 <= 4 * l2);
        assert(-(2 * l2) <= ok0 <= 2 * l2);
        assert(-(2 * l2) <= dk0 <= 2 * l2);
        let om = if dk0 < 0 { om0 + ok0 } else { om0 };
        let dm = if dk0 < 0 { dm0 + dk0 } else { dm0 };
        let ok = if dk0 < 0 { -ok0 } else { ok0 };
        let dk = if dk0 < 0 { -dk0 } else { dk0 };
        assert(-(6 * l2) <= om <= 6 * l2);
        assert(-(6 * l2) <= dm <= 6 * l2);
        assert(-(2 * l2) <= ok <= 2 * l2);
        assert(-(2 * l2) <= dk <= 2 * l2);
        let tn1 = om - den;
        let td1 = -ok;
        let tn2 = -om;
        let td2 = ok;
        assert(-(8 * l2) <= tn1 <= 8 * l2);
        lemma_mul_bound(dk, tn1, 2 * l2, 8 * l2);
        lemma_mul_bound(dm, td1, 6 * l2, 2 * l2);
        lemma_mul_bound(dk, tn2, 2 * l2, 8 * l2);
        lemma_mul_bound(dm, td2, 6 * l2, 2 * l2);
        lemma_mul_bound(den, td1, 2 * l2, 2 * l2);
        lemma_mul_bound(den, td2, 2 * l2, 2 * l2);
        assert((2 * l2) * (8 * l2) == 16 * l4) by (nonlinear_arith)
            requires l4 == l2 * l2;
        assert((6 * l2) * (2 * l2) == 12 * l4) by (nonlinear_arith)
            requires l4 == l2 * l2;
        assert((2 * l2) * (2 * l2) == 4 * l4) by (nonlinear_arith)
            requires l4 == l2 * l2;
        if om >= 0 && om > den && ok < 0 && tn1 <= td1 {
            assert(0 < den * td1) by (nonlinear_arith)
                requires den > 0, td1 > 0;
        }
        if om < 0 && ok > 0 && tn2 <= td2 {
            assert(0 < den * td2) by (nonlinear_arith)
                requires den > 0, td2 > 0;
        }
        assert(2 * l2 <= 4 * l4 && 6 * l2 <= 28 * l4 && 16 * l4 + 12 * l4 <= 28 * l4);
    }
    assert(28 * l4 == 28 * lim * lim * lim * lim && 4 * l4 == 4 * lim * lim * lim * lim)
        by (nonlinear_arith)
        requires l2 == lim * lim, l4 == l2 * l2;
}


impl HitboxManager {
    /// The fraction of `movement` at which the moving edge touches the
    /// static edge, clamped to at most one; exactly `lc_spec` of the
    /// coordinates.
    pub fn line_collision(moving_line: &Line, movement: (i64, i64), collider: &Line) -> (r: Frac)
        requires
            -(LINE_LIMIT as int) <= moving_line.px <= LINE_LIMIT as int,
            -(LINE_LIMIT as int) <= moving_line.py <= LINE_LIMIT as int,
            -(LINE_LIMIT as int) <= moving_line.dx <= LINE_LIMIT as int,
            -(LINE_LIMIT as int) <= moving_line.dy <= LINE_LIMIT as int,
            -(LINE_LIMIT as int) <= movement.0 <= LINE_LIMIT as int,
            -(LINE_LIMIT as int) <= movement.1 <= LINE_LIMIT as int,
            -(LINE_LIMIT as int) <= collider.px <= LINE_LIMIT as int,
            -(LINE_LIMIT as int) <= collider.py <= LINE_LIMIT as int,
            -(LINE_LIMIT as int) <= collider.dx <= LINE_LIMIT as int,
            -(LINE_LIMIT as int) <= collider.dy <= LINE_LIMIT as int,
        ensures
            r.wf(),
            (r.num as int, r.den as int) == lc_spec(
                (moving_line.px as int, moving_line.py as int),
                (moving_line.dx as int, moving_line.dy as int),
                (movement.0 as int, movement.1 as int),
                (collider.px as int, collider.py as int),
                (collider.dx as int, collider.dy as int),
            ),
            crate::frac::ratio_le(r.num as int, r.den as int, 1, 1),
    {
        let ghost lim: int = LINE_LIMIT as int;
        let px = moving_line.px as i128;
        let py = moving_line.py as i128;
        let dx = moving_line.dx as i128;
        let dy = moving_line.dy as i128;
        let mx = movement.0 as i128;
        let my = movement.1 as i128;
        let qx = collider.px as i128;
        let qy = collider.py as i128;
        let ex = collider.dx as i128;
        let ey = collider.dy as i128;
        proof {
            lemma_mul_bound(dx as int, my as int, lim, lim);
            lemma_mul_bound(mx as int, dy as int, lim, lim);
        }
        let det: i128 = dx * my - mx * dy;
        if det == 0 {
            return Frac::one();
        }
        let neg = det < 0;
        let den: i128 = if neg { -det } else { det };
        let rx: i128 = qx - px;
        let ry: i128 = qy - py;
        proof {
            lemma_mul_bound(my as int, rx as int, lim, 2 * lim);
            lemma_mul_bound(mx as int, ry as int, lim, 2 * lim);
            lemma_mul_bound(dx as int, ry as int, lim, 2 * lim);
            lemma_mul_bound(dy as int, rx as int, lim, 2 * lim);
            lemma_mul_bound(my as int, ex as int, lim, lim);
            lemma_mul_bound(mx as int, ey as int, lim, lim);
            lemma_mul_bound(dx as int, ey as int, lim, lim);
            lemma_mul_bound(dy as int, ex as int, lim, lim);
        }
        let om0: i128 = if neg { -(my * rx - mx * ry) } else { my * rx - mx * ry };
        let dm0: i128 = if neg { -(dx * ry - dy * rx) } else { dx * ry - dy * rx };
        let ok0: i128 = if neg { -(my * ex - mx * ey) } else { my * ex - mx * ey };
        let dk0: i128 = if neg { -(dx * ey - dy * ex) } else { dx * ey - dy * ex };
        let om: i128 = if dk0 < 0 { om0 + ok0 } else { om0 };
        let dm: i128 = if dk0 < 0 { dm0 + dk0 } else { dm0 };
        let ok: i128 = if dk0 < 0 { -ok0 } else { ok0 };
        let dk: i128 = if dk0 < 0 { -dk0 } else { dk0 };
        if om >= 0 {
            if om <= den {
                if dm <= den {
                    Frac { num: dm, den }
                } else {
                    Frac::one()
                }
            } else if ok >= 0 {
                Frac::one()
            } else {
                let tn: i128 = om - den;
                let td: i128 = -ok;
                if tn <= td {
                    proof {
                        lemma_mul_bound(dk as int, tn as int, 2 * lim * lim, 8 * lim * lim);
                        lemma_mul_bound(dm as int, td as int, 6 * lim * lim, 2 * lim * lim);
                        lemma_mul_bound(den as int, td as int, 2 * lim * lim, 2 * lim * lim);
                    }
                    let n: i128 = dk * tn + dm * td;
                    let dd: i128 = den * td;
                    proof {
                        lemma_mul_bound(den as int, td as int, 2 * lim * lim, 2 * lim * lim);
                        assert(dd > 0) by (nonlinear_arith)
                            requires den > 0, td > 0, dd == den as int * td as int;
                    }
                    if n <= dd {
                        Frac { num: n, den: dd }
                    } else {
                        Frac::one()
                    }
                } else {
                    Frac::one()
                }
            }
        } else {
            if ok <= 0 {
                Frac::one()
            } else {
                let tn: i128 = -om;
                let td: i128 = ok;
                if tn <= td {
                    proof {
                        lemma_mul_bound(dk as int, tn as int, 2 * lim * lim, 8 * lim * lim);
                        lemma_mul_bound(dm as int, td as int, 6 * lim * lim, 2 * lim * lim);
                        lemma_mul_bound(den as int, td as int, 2 * lim * lim, 2 * lim * lim);
                    }
                    let n: i128 = dk * tn + dm * td;
                    let dd: i128 = den * td;
                    proof {
                        assert(dd > 0) by (nonlinear_arith)
                            requires den > 0, td > 0, dd == den as int * td as int;
                    }
                    if n <= dd {
                        Frac { num: n, den: dd }
                    } else {
                        Frac::one()
                    }
                } else {
                    Frac::one()
                }
            }
        }
    }
}


/// The four edges of a rectangle as (start, direction) pairs, in the
/// order the sweep visits them: top, right, bottom, left.
pub open spec fn rect_lines(h: Hitbox) -> Seq<((int, int), (int, int))> {
    seq![
        ((h.min_x as int, h.max_y as int), (h.max_x - h.min_x as int, 0int)),
        ((h.max_x as int, h.max_y as int), (0int, h.min_y - h.max_y as int)),
        ((h.max_x as int, h.min_y as int), (h.min_x - h.max_x as int, 0int)),
        ((h.min_x as int, h.min_y as int), (0int, h.max_y - h.min_y as int)),
    ]
}

/// The near-parallel test of the tie-break rule: the two edge
/// directions' unit dot product exceeds nine tenths in magnitude,
/// stated squared to stay in integers.
pub open spec fn spec_dot_cond(sd: (int, int), cd: (int, int)) -> bool {
    let dot = sd.0 * cd.0 + sd.1 * cd.1;
    100 * dot * dot > 81 * ((sd.0 * sd.0 + sd.1 * sd.1) * (cd.0 * cd.0 + cd.1 * cd.1))
}

/// Sweep state: the smallest collision fraction found so far and the
/// direction of the moving edge it was found on.
pub open spec fn sweep_init() -> ((int, int), (int, int)) {
    ((1, 1), (0, 0))
}

/// One (moving edge, static edge) pair: skip edges not facing the
/// movement; otherwise keep the fraction smallest in magnitude, and on a
/// tie prefer the edge nearly parallel to the static one.
pub open spec fn step_pair(
    st: ((int, int), (int, int)),
    sline: ((int, int), (int, int)),
    m: (int, int),
    cline: ((int, int), (int, int)),
) -> ((int, int), (int, int)) {
    let sd = sline.1;
    if spec_cross(sd.0, sd.1, m.0, m.1) <= 0 {
        st
    } else {
        let t = lc_spec(sline.0, sd, m, cline.0, cline.1);
        let st1: ((int, int), (int, int)) = if vstd::math::abs(t.0) * st.0.1 < vstd::math::abs(
            st.0.0,
        ) * t.1 {
            (t, sd)
        } else {
            st
        };
        if vstd::math::abs(t.0) * st1.0.1 <= vstd::math::abs(st1.0.0) * t.1 && spec_dot_cond(
            sd,
            cline.1,
        ) {
            (st1.0, sd)
        } else {
            st1
        }
    }
}

/// Folds one static edge against the moving edges from index `k` on.
pub open spec fn fold_srcs(
    st: ((int, int), (int, int)),
    srcs: Seq<((int, int), (int, int))>,
    m: (int, int),
    cline: ((int, int), (int, int)),
    k: int,
) -> ((int, int), (int, int))
    decreases srcs.len() - k,
{
    if k < 0 || k >= srcs.len() {
        st
    } else {
        fold_srcs(step_pair(st, srcs[k], m, cline), srcs, m, cline, k + 1)
    }
}

/// One static edge: skipped unless it faces against the movement.
pub open spec fn step_cline(
    st: ((int, int), (int, int)),
    cline: ((int, int), (int, int)),
    srcs: Seq<((int, int), (int, int))>,
    m: (int, int),
) -> ((int, int), (int, int)) {
    if spec_cross(cline.1.0, cline.1.1, m.0, m.1) >= 0 {
        st
    } else {
        fold_srcs(st, srcs, m, cline, 0)
    }
}

/// Folds the static edges of one rectangle from index `k` on.
pub open spec fn fold_clines(
    st: ((int, int), (int, int)),
    clines: Seq<((int, int), (int, int))>,
    srcs: Seq<((int, int), (int, int))>,
    m: (int, int),
    k: int,
) -> ((int, int), (int, int))
    decreases clines.len() - k,
{
    if k < 0 || k >= clines.len() {
        st
    } else {
        fold_clines(step_cline(st, clines[k], srcs, m), clines, srcs, m, k + 1)
    }
}

/// One candidate rectangle: skipped unless it overlaps the target.
pub open spec fn step_elem(
    st: ((int, int), (int, int)),
    elem: Hitbox,
    target: Hitbox,
    srcs: Seq<((int, int), (int, int))>,
    m: (int, int),
) -> ((int, int), (int, int)) {
    if !elem.spec_intersects(target) {
        st
    } else {
        fold_clines(st, rect_lines(elem), srcs, m, 0)
    }
}

/// Folds the candidate rectangles from index `k` on.
pub open spec fn fold_elems(
    st: ((int, int), (int, int)),
    cands: Seq<Hitbox>,
    target: Hitbox,
    srcs: Seq<((int, int), (int, int))>,
    m: (int, int),
    k: int,
) -> ((int, int), (int, int))
    decreases cands.len() - k,
{
    if k < 0 || k >= cands.len() {
        st
    } else {
        fold_elems(step_elem(st, cands[k], target, srcs, m), cands, target, srcs, m, k + 1)
    }
}

impl HitboxManager {
    /// The rectangle moved to its target position.
    pub open spec fn spec_target(rect: Hitbox, movement: (i64, i64)) -> Hitbox {
        Hitbox {
            min_x: (rect.min_x + movement.0) as i64,
            min_y: (rect.min_y + movement.1) as i64,
            max_x: (rect.max_x + movement.0) as i64,
            max_y: (rect.max_y + movement.1) as i64,
        }
    }

    /// The elements a query takes from one chunk: all of them when the
    /// chunk exists and its cached bounding box overlaps the target,
    /// none otherwise.
    pub open spec fn pass_elems(self, key: (i64, i64), target: Hitbox) -> Seq<Hitbox> {
        match self.spec_chunk_at(key) {
            None => Seq::empty(),
            Some(c) => match c.spec_bounding_box() {
                None => Seq::empty(),
                Some(bb) => if bb.spec_intersects(target) {
                    c.spec_elements()
                } else {
                    Seq::empty()
                },
            },
        }
    }

    /// The candidates of a query: the passing chunks of the 3-by-3
    /// neighbourhood around the rectangle's chunk, row by row.
    pub open spec fn spec_candidates(self, rect: Hitbox, movement: (i64, i64)) -> Seq<Hitbox> {
        let key = self.spec_chunk_key(rect);
        let target = Self::spec_target(rect, movement);
        self.pass_elems(((key.0 - 1) as i64, (key.1 - 1) as i64), target) + self.pass_elems(
            (key.0, (key.1 - 1) as i64),
            target,
        ) + self.pass_elems(((key.0 + 1) as i64, (key.1 - 1) as i64), target) + self.pass_elems(
            ((key.0 - 1) as i64, key.1),
            target,
        ) + self.pass_elems((key.0, key.1), target) + self.pass_elems(
            ((key.0 + 1) as i64, key.1),
            target,
        ) + self.pass_elems(((key.0 - 1) as i64, (key.1 + 1) as i64), target) + self.pass_elems(
            (key.0, (key.1 + 1) as i64),
            target,
        ) + self.pass_elems(((key.0 + 1) as i64, (key.1 + 1) as i64), target)
    }

    /// The sweep over all candidate edge pairs.
    pub open spec fn spec_sweep(self, rect: Hitbox, movement: (i64, i64)) -> (
        (int, int),
        (int, int),
    ) {
        fold_elems(
            sweep_init(),
            self.spec_candidates(rect, movement),
            Self::spec_target(rect, movement),
            rect_lines(rect),
            (movement.0 as int, movement.1 as int),
            0,
        )
    }

    /// The resolved movement: the movement scaled by the collision
    /// fraction, plus the remainder projected onto the collision edge (a
    /// single-bounce slide).
    pub open spec fn spec_resolve(self, rect: Hitbox, movement: (i64, i64)) -> (
        (int, int),
        (int, int),
    ) {
        let ((tn, td), (dirx, diry)) = self.spec_sweep(rect, movement);
        let mx = movement.0 as int;
        let my = movement.1 as int;
        let dd = dirx * dirx + diry * diry;
        if dd == 0 {
            ((tn * mx, td), (tn * my, td))
        } else {
            let mdotd = mx * dirx + my * diry;
            (
                (tn * mx * dd + (td - tn) * mdotd * dirx, td * dd),
                (tn * my * dd + (td - tn) * mdotd * diry, td * dd),
            )
        }
    }

    fn gather_from(&self, key: (i64, i64), target: &Hitbox, cands: &mut Vec<Hitbox>)
        requires
            self.wf(),
            forall|i: int| 0 <= i < old(cands)@.len() ==> (#[trigger] old(cands)@[i]).wf(),
        ensures
            final(cands)@ == old(cands)@ + self.pass_elems(key, *target),
            forall|i: int| 0 <= i < final(cands)@.len() ==> (#[trigger] final(cands)@[i]).wf(),
    {
        match self.find_idx(key) {
            None => {
                proof {
                    assert(cands@ =~= cands@ + self.pass_elems(key, *target));
                }
            },
            Some(i) => {
                let chunk = &self.chunks[i].1;
                match chunk.bounding_box() {
                    None => {
                        proof {
                            assert(cands@ =~= cands@ + self.pass_elems(key, *target));
                        }
                    },
                    Some(bb) => {
                        if bb.intersects(target) {
                            let elems = chunk.elements();
                            let mut j: usize = 0;
                            while j < elems.len()
                                invariant
                                    0 <= j <= elems@.len(),
                                    elems@ == chunk.spec_elements(),
                                    chunk.wf(),
                                    cands@ == old(cands)@ + elems@.take(j as int),
                                    forall|i2: int| 0 <= i2 < old(cands)@.len()
                                        ==> (#[trigger] old(cands)@[i2]).wf(),
                                decreases elems@.len() - j,
                            {
                                cands.push(elems[j]);
                                proof {
                                    assert(cands@ =~= old(cands)@ + elems@.take(j + 1));
                                }
                                j += 1;
                            }
                            proof {
                                assert(elems@.take(elems@.len() as int) =~= elems@);
                                assert(cands@ == old(cands)@ + self.pass_elems(key, *target));
                                assert forall|i2: int| 0 <= i2 < cands@.len()
                                    implies (#[trigger] cands@[i2]).wf() by {
                                    if i2 >= old(cands)@.len() {
                                        assert(cands@[i2] == chunk.spec_elements()[i2 - old(
                                            cands,
                                        )@.len()]);
                                    }
                                }
                            }
                        } else {
                            proof {
                                assert(cands@ =~= cands@ + self.pass_elems(key, *target));
                            }
                        }
                    },
                }
            },
        }
    }
}


/// Magnitude bounds on a sweep-state fraction: what `lc_spec` can
/// produce from coordinates within the index's bound, and the initial
/// one.
pub open spec fn sweep_frac_bounded(n: int, d: int) -> bool {
    &&& -0x1C0_0000_0000_0000 <= n <= 0x1C0_0000_0000_0000
    &&& 0 < d <= 0x40_0000_0000_0000
}

impl HitboxManager {
    /// The edges of a rectangle, one at a time, matching `rect_lines`.
    fn edge_line(h: &Hitbox, idx: usize) -> (r: Line)
        requires
            h.wf(),
            idx < 4,
        ensures
            ((r.px as int, r.py as int), (r.dx as int, r.dy as int)) == rect_lines(*h)[idx as int],
            -2 * (COORD_LIMIT as int) <= r.px <= 2 * (COORD_LIMIT as int),
            -2 * (COORD_LIMIT as int) <= r.py <= 2 * (COORD_LIMIT as int),
            -2 * (COORD_LIMIT as int) <= r.dx <= 2 * (COORD_LIMIT as int),
            -2 * (COORD_LIMIT as int) <= r.dy <= 2 * (COORD_LIMIT as int),
    {
        if idx == 0 {
            Line { px: h.min_x, py: h.max_y, dx: h.max_x - h.min_x, dy: 0 }
        } else if idx == 1 {
            Line { px: h.max_x, py: h.max_y, dx: 0, dy: h.min_y - h.max_y }
        } else if idx == 2 {
            Line { px: h.max_x, py: h.min_y, dx: h.min_x - h.max_x, dy: 0 }
        } else {
            Line { px: h.min_x, py: h.min_y, dx: 0, dy: h.max_y - h.min_y }
        }
    }

    /// The tie-break test on two edge directions.
    fn dot_cond(sdx: i64, sdy: i64, cdx: i64, cdy: i64) -> (r: bool)
        requires
            -2 * (COORD_LIMIT as int) <= sdx <= 2 * (COORD_LIMIT as int),
            -2 * (COORD_LIMIT as int) <= sdy <= 2 * (COORD_LIMIT as int),
            -2 * (COORD_LIMIT as int) <= cdx <= 2 * (COORD_LIMIT as int),
            -2 * (COORD_LIMIT as int) <= cdy <= 2 * (COORD_LIMIT as int),
        ensures
            r == spec_dot_cond((sdx as int, sdy as int), (cdx as int, cdy as int)),
    {
        let sx = sdx as i128;
        let sy = sdy as i128;
        let cx = cdx as i128;
        let cy = cdy as i128;
        proof {
            lemma_mul_bound(sx as int, cx as int, 0x2000, 0x2000);
            lemma_mul_bound(sy as int, cy as int, 0x2000, 0x2000);
            lemma_mul_bound(sx as int, sx as int, 0x2000, 0x2000);
            lemma_mul_bound(sy as int, sy as int, 0x2000, 0x2000);
            lemma_mul_bound(cx as int, cx as int, 0x2000, 0x2000);
            lemma_mul_bound(cy as int, cy as int, 0x2000, 0x2000);
        }
        let dot: i128 = sx * cx + sy * cy;
        let ss: i128 = sx * sx + sy * sy;
        let cc: i128 = cx * cx + cy * cy;
        proof {
            lemma_mul_bound(dot as int, dot as int, 0x800_0000, 0x800_0000);
            lemma_mul_bound(ss as int, cc as int, 0x800_0000, 0x800_0000);
        }
        let dot2: i128 = dot * dot;
        let sscc: i128 = ss * cc;
        proof {
            assert(100 * (dot as int) * (dot as int) == 100 * (dot2 as int) && 81 * ((ss as int)
                * (cc as int)) == 81 * (sscc as int)) by (nonlinear_arith)
                requires dot2 == dot as int * (dot as int), sscc == ss as int * (cc as int);
        }
        100 * dot2 > 81 * sscc
    }

    /// Resolves a swept movement of a rectangle against the indexed
    /// rectangles: the movement is clamped at the earliest collision
    /// along it and the remainder slides along the collision edge. With
    /// nothing in the way the movement comes back whole.
    pub fn moving_hit_test(&self, rect: Hitbox, movement: (i64, i64)) -> (r: (Frac, Frac))
        requires
            self.wf(),
            rect.wf(),
            -(COORD_LIMIT as int) <= movement.0 <= COORD_LIMIT as int,
            -(COORD_LIMIT as int) <= movement.1 <= COORD_LIMIT as int,
        ensures
            r.0.wf(),
            r.1.wf(),
            ((r.0.num as int, r.0.den as int), (r.1.num as int, r.1.den as int))
                == self.spec_resolve(rect, movement),
    {
        let ghost m_int: (int, int) = (movement.0 as int, movement.1 as int);
        let ghost srcs = rect_lines(rect);
        let target = rect.add_offset(movement.0, movement.1);
        proof {
            assert(target == Self::spec_target(rect, movement));
        }
        let key = self.chunk_key(&rect);
        let mut cands: Vec<Hitbox> = Vec::new();
        self.gather_from((key.0 - 1, key.1 - 1), &target, &mut cands);
        self.gather_from((key.0, key.1 - 1), &target, &mut cands);
        self.gather_from((key.0 + 1, key.1 - 1), &target, &mut cands);
        self.gather_from((key.0 - 1, key.1), &target, &mut cands);
        self.gather_from((key.0, key.1), &target, &mut cands);
        self.gather_from((key.0 + 1, key.1), &target, &mut cands);
        self.gather_from((key.0 - 1, key.1 + 1), &target, &mut cands);
        self.gather_from((key.0, key.1 + 1), &target, &mut cands);
        self.gather_from((key.0 + 1, key.1 + 1), &target, &mut cands);
        proof {
            assert(cands@ =~= self.spec_candidates(rect, movement));
        }
        let ghost total = fold_elems(sweep_init(), cands@, target, srcs, m_int, 0);

        let mut min_t = Frac::one();
        let mut dir: (i64, i64) = (0, 0);
        let mut i: usize = 0;
        while i < cands.len()
            invariant
                0 <= i <= cands@.len(),
                rect.wf(),
                -(COORD_LIMIT as int) <= movement.0 <= COORD_LIMIT as int,
                -(COORD_LIMIT as int) <= movement.1 <= COORD_LIMIT as int,
                m_int == (movement.0 as int, movement.1 as int),
                srcs == rect_lines(rect),
                forall|j: int| 0 <= j < cands@.len() ==> (#[trigger] cands@[j]).wf(),
                min_t.wf(),
                sweep_frac_bounded(min_t.num as int, min_t.den as int),
                -2 * (COORD_LIMIT as int) <= dir.0 <= 2 * (COORD_LIMIT as int),
                -2 * (COORD_LIMIT as int) <= dir.1 <= 2 * (COORD_LIMIT as int),
                fold_elems(
                    ((min_t.num as int, min_t.den as int), (dir.0 as int, dir.1 as int)),
                    cands@,
                    target,
                    srcs,
                    m_int,
                    i as int,
                ) == total,
            decreases cands@.len() - i,
        {
            let elem = cands[i];
            if elem.intersects(&target) {
                let ghost clines = rect_lines(elem);
                let ghost st_elem = ((min_t.num as int, min_t.den as int), (
                    dir.0 as int,
                    dir.1 as int,
                ));
                let ghost elem_goal = fold_clines(st_elem, clines, srcs, m_int, 0);
                let mut ci: usize = 0;
                while ci < 4
                    invariant
                        0 <= ci <= 4,
                        rect.wf(),
                        elem.wf(),
                        -(COORD_LIMIT as int) <= movement.0 <= COORD_LIMIT as int,
                        -(COORD_LIMIT as int) <= movement.1 <= COORD_LIMIT as int,
                        m_int == (movement.0 as int, movement.1 as int),
                        srcs == rect_lines(rect),
                        clines == rect_lines(elem),
                        min_t.wf(),
                        sweep_frac_bounded(min_t.num as int, min_t.den as int),
                        -2 * (COORD_LIMIT as int) <= dir.0 <= 2 * (COORD_LIMIT as int),
                        -2 * (COORD_LIMIT as int) <= dir.1 <= 2 * (COORD_LIMIT as int),
                        fold_clines(
                            ((min_t.num as int, min_t.den as int), (dir.0 as int, dir.1 as int)),
                            clines,
                            srcs,
                            m_int,
                            ci as int,
                        ) == elem_goal,
                    decreases 4 - ci,
                {
                    let c = Self::edge_line(&elem, ci);
                    proof {
                        lemma_mul_bound(c.dx as int, movement.1 as int, 0x2000, 0x1000);
                        lemma_mul_bound(c.dy as int, movement.0 as int, 0x2000, 0x1000);
                    }
                    let cross_c: i128 = (c.dx as i128) * (movement.1 as i128) - (c.dy as i128)
                        * (movement.0 as i128);
                    proof {
                        assert(cross_c as int == spec_cross(
                            c.dx as int,
                            c.dy as int,
                            m_int.0,
                            m_int.1,
                        ));
                    }
                    if cross_c >= 0 {
                        proof {
                            let st_now = ((min_t.num as int, min_t.den as int), (
                                dir.0 as int,
                                dir.1 as int,
                            ));
                            assert(step_cline(st_now, clines[ci as int], srcs, m_int) == st_now);
                        }
                        ci += 1;
                        continue;
                    }
                    let ghost cline_c = clines[ci as int];
                    let ghost st_ci = ((min_t.num as int, min_t.den as int), (
                        dir.0 as int,
                        dir.1 as int,
                    ));
                    let ghost cline_goal = fold_srcs(st_ci, srcs, m_int, cline_c, 0);
                    let mut si: usize = 0;
                    while si < 4
                        invariant
                            0 <= si <= 4,
                            rect.wf(),
                            elem.wf(),
                            -(COORD_LIMIT as int) <= movement.0 <= COORD_LIMIT as int,
                            -(COORD_LIMIT as int) <= movement.1 <= COORD_LIMIT as int,
                            m_int == (movement.0 as int, movement.1 as int),
                            srcs == rect_lines(rect),
                            clines == rect_lines(elem),
                            ci < 4,
                            cline_c == clines[ci as int],
                            ((c.px as int, c.py as int), (c.dx as int, c.dy as int)) == cline_c,
                            -2 * (COORD_LIMIT as int) <= c.px <= 2 * (COORD_LIMIT as int),
                            -2 * (COORD_LIMIT as int) <= c.py <= 2 * (COORD_LIMIT as int),
                            -2 * (COORD_LIMIT as int) <= c.dx <= 2 * (COORD_LIMIT as int),
                            -2 * (COORD_LIMIT as int) <= c.dy <= 2 * (COORD_LIMIT as int),
                            min_t.wf(),
                            sweep_frac_bounded(min_t.num as int, min_t.den as int),
                            -2 * (COORD_LIMIT as int) <= dir.0 <= 2 * (COORD_LIMIT as int),
                            -2 * (COORD_LIMIT as int) <= dir.1 <= 2 * (COORD_LIMIT as int),
                            fold_srcs(
                                ((min_t.num as int, min_t.den as int), (
                                    dir.0 as int,
                                    dir.1 as int,
                                )),
                                srcs,
                                m_int,
                                cline_c,
                                si as int,
                            ) == cline_goal,
                        decreases 4 - si,
                    {
                        let sl = Self::edge_line(&rect, si);
                        proof {
                            lemma_mul_bound(sl.dx as int, movement.1 as int, 0x2000, 0x1000);
                            lemma_mul_bound(sl.dy as int, movement.0 as int, 0x2000, 0x1000);
                        }
                        let cross_s: i128 = (sl.dx as i128) * (movement.1 as i128) - (sl.dy
                            as i128) * (movement.0 as i128);
                        proof {
                            assert(cross_s as int == spec_cross(
                                sl.dx as int,
                                sl.dy as int,
                                m_int.0,
                                m_int.1,
                            ));
                        }
                        if cross_s <= 0 {
                            proof {
                                let st_now = ((min_t.num as int, min_t.den as int), (
                                    dir.0 as int,
                                    dir.1 as int,
                                ));
                                assert(step_pair(st_now, srcs[si as int], m_int, cline_c)
                                    == st_now);
                            }
                            si += 1;
                            continue;
                        }
                        let ghost st_before = ((min_t.num as int, min_t.den as int), (
                            dir.0 as int,
                            dir.1 as int,
                        ));
                        let t = Self::line_collision(&sl, movement, &c);
                        proof {
                            lemma_lc_bounds(
                                (sl.px as int, sl.py as int),
                                (sl.dx as int, sl.dy as int),
                                m_int,
                                (c.px as int, c.py as int),
                                (c.dx as int, c.dy as int),
                                0x2000,
                            );
                            lemma_mul_bound(
                                vstd::math::abs(t.num as int) as int,
                                min_t.den as int,
                                0x1C0_0000_0000_0000,
                                0x40_0000_0000_0000,
                            );
                            lemma_mul_bound(
                                vstd::math::abs(min_t.num as int) as int,
                                t.den as int,
                                0x1C0_0000_0000_0000,
                                0x40_0000_0000_0000,
                            );
                        }
                        if t.abs_lt(&min_t) {
                            dir = (sl.dx, sl.dy);
                            min_t = t;
                        }
                        proof {
                            lemma_mul_bound(
                                vstd::math::abs(t.num as int) as int,
                                min_t.den as int,
                                0x1C0_0000_0000_0000,
                                0x40_0000_0000_0000,
                            );
                            lemma_mul_bound(
                                vstd::math::abs(min_t.num as int) as int,
                                t.den as int,
                                0x1C0_0000_0000_0000,
                                0x40_0000_0000_0000,
                            );
                        }
                        if t.abs_le(&min_t) && Self::dot_cond(sl.dx, sl.dy, c.dx, c.dy) {
                            dir = (sl.dx, sl.dy);
                        }
                        proof {
                            assert(((min_t.num as int, min_t.den as int), (
                                dir.0 as int,
                                dir.1 as int,
                            )) == step_pair(st_before, srcs[si as int], m_int, cline_c));
                        }
                        si += 1;
                    }
                    proof {
                        let st_now = ((min_t.num as int, min_t.den as int), (
                            dir.0 as int,
                            dir.1 as int,
                        ));
                        assert(st_now == cline_goal);
                        assert(step_cline(st_ci, cline_c, srcs, m_int) == fold_srcs(
                            st_ci,
                            srcs,
                            m_int,
                            cline_c,
                            0,
                        ));
                        assert(fold_clines(st_ci, clines, srcs, m_int, ci as int) == fold_clines(
                            st_now,
                            clines,
                            srcs,
                            m_int,
                            ci + 1,
                        ));
                    }
                    ci += 1;
                }
                proof {
                    let st_now = ((min_t.num as int, min_t.den as int), (
                        dir.0 as int,
                        dir.1 as int,
                    ));
                    assert(st_now == elem_goal);
                    assert(step_elem(st_elem, elem, target, srcs, m_int) == elem_goal);
                    assert(fold_elems(st_elem, cands@, target, srcs, m_int, i as int)
                        == fold_elems(st_now, cands@, target, srcs, m_int, i + 1));
                }
            }
            i += 1;
        }
        proof {
            assert(((min_t.num as int, min_t.den as int), (dir.0 as int, dir.1 as int)) == total);
        }
        let mx = movement.0 as i128;
        let my = movement.1 as i128;
        let dirx = dir.0 as i128;
        let diry = dir.1 as i128;
        proof {
            lemma_mul_bound(dirx as int, dirx as int, 0x2000, 0x2000);
            lemma_mul_bound(diry as int, diry as int, 0x2000, 0x2000);
            assert(dirx * dirx >= 0 && diry * diry >= 0) by (nonlinear_arith);
        }
        let dd: i128 = dirx * dirx + diry * diry;
        if dd == 0 {
            proof {
                lemma_mul_bound(min_t.num as int, mx as int, 0x1C0_0000_0000_0000, 0x1000);
                lemma_mul_bound(min_t.num as int, my as int, 0x1C0_0000_0000_0000, 0x1000);
            }
            (
                Frac { num: min_t.num * mx, den: min_t.den },
                Frac { num: min_t.num * my, den: min_t.den },
            )
        } else {
            proof {
                lemma_mul_bound(mx as int, dirx as int, 0x1000, 0x2000);
                lemma_mul_bound(my as int, diry as int, 0x1000, 0x2000);
            }
            let mdotd: i128 = mx * dirx + my * diry;
            let tdmtn: i128 = min_t.den - min_t.num;
            proof {
                lemma_mul_bound(min_t.num as int, mx as int, 0x1C0_0000_0000_0000, 0x1000);
                lemma_mul_bound(min_t.num as int, my as int, 0x1C0_0000_0000_0000, 0x1000);
                lemma_mul_bound(
                    (min_t.num * mx) as int,
                    dd as int,
                    0x1C0_0000_0000_0000int * 0x1000,
                    0x800_0000,
                );
                lemma_mul_bound(
                    (min_t.num * my) as int,
                    dd as int,
                    0x1C0_0000_0000_0000int * 0x1000,
                    0x800_0000,
                );
                lemma_mul_bound(tdmtn as int, mdotd as int, 0x200_0000_0000_0000, 0x400_0000);
                lemma_mul_bound(
                    (tdmtn * mdotd) as int,
                    dirx as int,
                    0x200_0000_0000_0000int * 0x400_0000,
                    0x2000,
                );
                lemma_mul_bound(
                    (tdmtn * mdotd) as int,
                    diry as int,
                    0x200_0000_0000_0000int * 0x400_0000,
                    0x2000,
                );
                lemma_mul_bound(min_t.den as int, dd as int, 0x40_0000_0000_0000, 0x800_0000);
                assert(min_t.den * dd > 0) by (nonlinear_arith)
                    requires min_t.den > 0, dd > 0;
            }
            let num_x: i128 = min_t.num * mx * dd + tdmtn * mdotd * dirx;
            let num_y: i128 = min_t.num * my * dd + tdmtn * mdotd * diry;
            let den: i128 = min_t.den * dd;
            (Frac { num: num_x, den }, Frac { num: num_y, den })
        }
    }
}


/// Candidates that never overlap the target leave the sweep state
/// untouched.
proof fn lemma_fold_elems_untouched(
    st: ((int, int), (int, int)),
    cands: Seq<Hitbox>,
    target: Hitbox,
    srcs: Seq<((int, int), (int, int))>,
    m: (int, int),
    k: int,
)
    requires
        forall|i: int| k <= i < cands.len() ==> !(#[trigger] cands[i]).spec_intersects(target),
    ensures
        fold_elems(st, cands, target, srcs, m, k) == st,
    decreases cands.len() - k,
{
    if k < 0 || k >= cands.len() {
    } else {
        assert(step_elem(st, cands[k], target, srcs, m) == st);
        lemma_fold_elems_untouched(st, cands, target, srcs, m, k + 1);
    }
}

/// Law: a swept query whose candidate set holds no rectangle
/// overlapping the moved rectangle returns the movement unchanged.
pub proof fn law_unobstructed_full_movement(m: &HitboxManager, rect: Hitbox, movement: (i64, i64))
    requires
        forall|i: int|
            0 <= i < m.spec_candidates(rect, movement).len() ==> !(
            #[trigger] m.spec_candidates(rect, movement)[i]).spec_intersects(
                HitboxManager::spec_target(rect, movement),
            ),
    ensures
        m.spec_resolve(rect, movement) == ((movement.0 as int, 1int), (movement.1 as int, 1int)),
{
    lemma_fold_elems_untouched(
        sweep_init(),
        m.spec_candidates(rect, movement),
        HitboxManager::spec_target(rect, movement),
        rect_lines(rect),
        (movement.0 as int, movement.1 as int),
        0,
    );
    assert(m.spec_sweep(rect, movement) == sweep_init());
    assert(m.spec_sweep(rect, movement) == ((1int, 1int), (0int, 0int)));
    assert(0int * 0int == 0int) by (nonlinear_arith);
    assert(1int * (movement.0 as int) == movement.0 as int) by (nonlinear_arith);
    assert(1int * (movement.1 as int) == movement.1 as int) by (nonlinear_arith);
}

} // verus!
