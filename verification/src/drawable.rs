//! Drawables and the shared-part pipeline cache.
//!
//! Many drawables of one kind share the same pipeline and call-site
//! invariant bindables. The cache builds that shared part once per
//! drawable-kind tag and hands every later construction the same
//! pipeline; per-instance bindables are built fresh each time. Entries
//! are reference counted and a dead entry's slot is reused, modelling
//! the weak-reference registry.

use vstd::prelude::*;

use crate::pipeline::{
    sets_complete, spec_apply_all, Bindable, BuilderView, MeshTopology, PipelineBuilder,
    PipelineDesc, PipelineError,
};

verus! {

/// The immutable bundle shared by every drawable of one kind: the
/// compiled pipeline and the kind-invariant bindables.
#[derive(Clone, Debug)]
pub struct SharedPart {
    pub pipeline_id: u64,
    pub bindables: Vec<Bindable>,
    pub desc: PipelineDesc,
}

/// One renderable object: its per-instance bindables, the shared part
/// of its kind, and how many indices its draw call covers.
#[derive(Clone, Debug)]
pub struct Drawable {
    pub bindables: Vec<Bindable>,
    pub shared_part: SharedPart,
    pub index_count: u32,
}

impl Drawable {
    /// The per-instance bindables, bound first on each draw.
    pub fn get_bindables(&self) -> (r: &Vec<Bindable>)
        ensures
            r == &self.bindables,
    {
        &self.bindables
    }

    /// The shared bindables, bound after the instance ones.
    pub fn get_shared_bindables(&self) -> (r: &Vec<Bindable>)
        ensures
            r == &self.shared_part.bindables,
    {
        &self.shared_part.bindables
    }

    pub fn get_index_count(&self) -> (r: u32)
        ensures
            r == self.index_count,
    {
        self.index_count
    }

    /// The compiled pipeline's identity.
    pub fn get_pipeline(&self) -> (r: u64)
        ensures
            r == self.shared_part.pipeline_id,
    {
        self.shared_part.pipeline_id
    }
}

/// A solid colored quad's placement: position and pixel dimensions.
#[derive(Clone, Copy, Debug, PartialEq, Eq, Default)]
pub struct SquareDesc {
    pub pos: [i32; 2],
    pub width: u32,
    pub height: u32,
}

/// One cache slot: the kind tag, its shared part, and how many live
/// drawables still reference it.
#[derive(Clone, Debug)]
pub struct CacheEntry {
    pub key: String,
    pub part: SharedPart,
    pub refs: u64,
}

/// A reference count after one more holder, saturating.
pub open spec fn spec_inc(r: u64) -> u64 {
    if r == 0xFFFF_FFFF_FFFF_FFFF {
        r
    } else {
        (r + 1) as u64
    }
}

/// The kind-tag-keyed registry of shared parts.
#[derive(Debug)]
pub struct DrawableCache {
    entries: Vec<CacheEntry>,
    next_pipeline_id: u64,
}

/// The fresh builder state every shared-part compilation starts from.
pub open spec fn builder_init() -> BuilderView {
    BuilderView {
        vertex_layout: None,
        vertex_shader: None,
        fragment_shader: None,
        topology: MeshTopology::TriangleList,
        set_layouts: Seq::empty(),
        push_constant_size: 0,
    }
}

/// The builder state after the instance bindables and then the shared
/// bindables have configured a fresh pipeline, in that order.
pub open spec fn spec_configured(instance: Seq<Bindable>, shared: Seq<Bindable>) -> BuilderView {
    spec_apply_all(spec_apply_all(builder_init(), instance, 0), shared, 0)
}

/// A bindable list whose descriptor-set numbers are within the
/// builder's slot bound.
pub open spec fn set_nums_ok(xs: Seq<Bindable>) -> bool {
    forall|i: int|
        0 <= i < xs.len() ==> match #[trigger] xs[i] {
            Bindable::UniformBufferBinding { set_num, .. } => set_num < 0x1000,
            Bindable::TextureBinding { set_num, .. } => set_num < 0x1000,
            _ => true,
        }
}

impl DrawableCache {
    /// Unique keys, unique pipeline ids, all below the next fresh id.
    pub closed spec fn wf(self) -> bool {
        &&& forall|i: int, j: int|
            0 <= i < j < self.entries@.len() ==> (#[trigger] self.entries@[i]).key@ != (
            #[trigger] self.entries@[j]).key@
        &&& forall|i: int, j: int|
            0 <= i < j < self.entries@.len() ==> (#[trigger] self.entries@[i]).part.pipeline_id
                != (#[trigger] self.entries@[j]).part.pipeline_id
        &&& forall|i: int|
            0 <= i < self.entries@.len() ==> (#[trigger] self.entries@[i]).part.pipeline_id
                < self.next_pipeline_id
    }

    /// The entry stored under a kind tag, if any.
    pub closed spec fn spec_entry(self, key: Seq<char>) -> Option<CacheEntry> {
        if exists|i: int| 0 <= i < self.entries@.len() && (#[trigger] self.entries@[i]).key@
            == key {
            let i = choose|i: int|
                0 <= i < self.entries@.len() && (#[trigger] self.entries@[i]).key@ == key;
            Some(self.entries@[i])
        } else {
            None
        }
    }

    /// Whether a kind tag currently has a live (still referenced)
    /// shared part.
    pub open spec fn spec_live(self, key: Seq<char>) -> bool {
        match self.spec_entry(key) {
            Some(e) => e.refs > 0,
            None => false,
        }
    }

    pub closed spec fn spec_next_pipeline_id(self) -> u64 {
        self.next_pipeline_id
    }

    pub fn new() -> (r: DrawableCache)
        ensures
            r.wf(),
            forall|k: Seq<char>| r.spec_entry(k) is None,
            r.spec_next_pipeline_id() == 0,
    {
        DrawableCache { entries: Vec::new(), next_pipeline_id: 0 }
    }

    fn find_idx(&self, key: &String) -> (r: Option<usize>)
        requires
            self.wf(),
        ensures
            match r {
                Some(i) => i < self.entries@.len() && self.entries@[i as int].key@ == key@
                    && self.spec_entry(key@) == Some(self.entries@[i as int]),
                None => self.spec_entry(key@) is None,
            },
    {
        let mut i: usize = 0;
        while i < self.entries.len()
            invariant
                0 <= i <= self.entries@.len(),
                self.wf(),
                forall|j: int| 0 <= j < i ==> (#[trigger] self.entries@[j]).key@ != key@,
            decreases self.entries@.len() - i,
        {
            if self.entries[i].key == *key {
                proof {
                    let j = choose|j: int|
                        0 <= j < self.entries@.len() && (#[trigger] self.entries@[j]).key@ == key@;
                    assert(j == i);
                }
                return Some(i);
            }
            i += 1;
        }
        None
    }

    /// Looks up or builds the shared part of a drawable kind.
    ///
    /// On a live hit only the instance bindables are used and the
    /// existing pipeline is shared. On a miss a fresh pipeline is
    /// compiled from the instance bindables followed by the shared
    /// bindables, registered under the tag, and handed out; compilation
    /// fails exactly as the builder's completeness check dictates, and
    /// a failed build leaves the cache unchanged.
    pub fn get_or_build(
        &mut self,
        key: &String,
        instance_bindables: Vec<Bindable>,
        shared_bindables: Vec<Bindable>,
        index_count: u32,
    ) -> (r: Result<Drawable, PipelineError>)
        requires
            old(self).wf(),
            set_nums_ok(instance_bindables@),
            set_nums_ok(shared_bindables@),
            old(self).spec_next_pipeline_id() < 0xFFFF_FFFF_FFFF_FFFF,
        ensures
            final(self).wf(),
            match r {
                Ok(d) => {
                    &&& d.bindables == instance_bindables
                    &&& d.index_count == index_count
                    &&& final(self).spec_live(key@)
                    &&& final(self).spec_entry(key@) is Some
                    &&& final(self).spec_entry(key@)->Some_0.part.pipeline_id
                        == d.shared_part.pipeline_id
                    &&& (if old(self).spec_live(key@) {
                        &&& d.shared_part.pipeline_id == old(self).spec_entry(
                            key@,
                        )->Some_0.part.pipeline_id
                        &&& d.shared_part.bindables@ == old(self).spec_entry(
                            key@,
                        )->Some_0.part.bindables@
                        &&& final(self).spec_next_pipeline_id() == old(
                            self,
                        ).spec_next_pipeline_id()
                    } else {
                        &&& d.shared_part.pipeline_id == old(self).spec_next_pipeline_id()
                        &&& d.shared_part.bindables@ == shared_bindables@
                        &&& final(self).spec_next_pipeline_id() == old(
                            self,
                        ).spec_next_pipeline_id() + 1
                        &&& ({
                            let bv = spec_configured(instance_bindables@, shared_bindables@);
                            &&& bv.vertex_shader is Some
                            &&& bv.fragment_shader is Some
                            &&& sets_complete(bv.set_layouts)
                            &&& d.shared_part.desc.vertex_shader == bv.vertex_shader->Some_0
                            &&& d.shared_part.desc.fragment_shader == bv.fragment_shader->Some_0
                            &&& d.shared_part.desc.topology == bv.topology
                            &&& d.shared_part.desc.vertex_layout == bv.vertex_layout
                            &&& d.shared_part.desc.set_layouts@.len() == bv.set_layouts.len()
                            &&& forall|si: int|
                                0 <= si < bv.set_layouts.len()
                                    ==> #[trigger] d.shared_part.desc.set_layouts@[si]
                                    == bv.set_layouts[si]->Some_0
                        })
                    })
                    &&& forall|k: Seq<char>|
                        k != key@ ==> #[trigger] final(self).spec_entry(k) == old(
                            self,
                        ).spec_entry(k)
                },
                Err(e) => {
                    &&& !old(self).spec_live(key@)
                    &&& *final(self) == *old(self)
                    &&& ({
                        let bv = spec_configured(instance_bindables@, shared_bindables@);
                        match e {
                            PipelineError::MissingVertexShader => bv.vertex_shader is None,
                            PipelineError::MissingFragmentShader => {
                                &&& bv.vertex_shader is Some
                                &&& bv.fragment_shader is None
                            },
                            PipelineError::MissingDescriptorSet => {
                                &&& bv.vertex_shader is Some
                                &&& bv.fragment_shader is Some
                                &&& !sets_complete(bv.set_layouts)
                            },
                        }
                    })
                },
            },
    {
        let found = self.find_idx(key);
        match found {
            Some(i) => {
                if self.entries[i].refs > 0 {
                    let ghost pre = *self;
                    let part = clone_part(&self.entries[i].part);
                    let old_refs = self.entries[i].refs;
                    let new_refs: u64 = if old_refs == 0xFFFF_FFFF_FFFF_FFFF {
                        old_refs
                    } else {
                        old_refs + 1
                    };
                    self.entries[i].refs = new_refs;
                    proof {
                        lemma_entry_update(pre, *self, i as int, key@);
                    }
                    return Ok(
                        Drawable { bindables: instance_bindables, shared_part: part, index_count },
                    );
                }
                self.build_and_store(i, true, key, instance_bindables, shared_bindables, index_count)
            },
            None => {
                self.build_and_store(0, false, key, instance_bindables, shared_bindables, index_count)
            },
        }
    }

    /// Compiles the pipeline on a cache miss and stores it, either in a
    /// dead entry's slot or appended.
    fn build_and_store(
        &mut self,
        slot: usize,
        replace: bool,
        key: &String,
        instance_bindables: Vec<Bindable>,
        shared_bindables: Vec<Bindable>,
        index_count: u32,
    ) -> (r: Result<Drawable, PipelineError>)
        requires
            old(self).wf(),
            set_nums_ok(instance_bindables@),
            set_nums_ok(shared_bindables@),
            replace ==> slot < old(self).entries@.len() && old(self).entries@[slot as int].key@
                == key@ && old(self).entries@[slot as int].refs == 0,
            !replace ==> old(self).spec_entry(key@) is None,
            old(self).spec_next_pipeline_id() < 0xFFFF_FFFF_FFFF_FFFF,
        ensures
            final(self).wf(),
            match r {
                Ok(d) => {
                    &&& d.bindables == instance_bindables
                    &&& d.index_count == index_count
                    &&& final(self).spec_live(key@)
                    &&& final(self).spec_entry(key@) is Some
                    &&& final(self).spec_entry(key@)->Some_0.part.pipeline_id
                        == d.shared_part.pipeline_id
                    &&& d.shared_part.pipeline_id == old(self).spec_next_pipeline_id()
                    &&& d.shared_part.bindables@ == shared_bindables@
                    &&& final(self).spec_next_pipeline_id() == old(self).spec_next_pipeline_id()
                        + 1
                    &&& ({
                        let bv = spec_configured(instance_bindables@, shared_bindables@);
                        &&& bv.vertex_shader is Some
                        &&& bv.fragment_shader is Some
                        &&& sets_complete(bv.set_layouts)
                        &&& d.shared_part.desc.vertex_shader == bv.vertex_shader->Some_0
                        &&& d.shared_part.desc.fragment_shader == bv.fragment_shader->Some_0
                        &&& d.shared_part.desc.topology == bv.topology
                        &&& d.shared_part.desc.vertex_layout == bv.vertex_layout
                        &&& d.shared_part.desc.set_layouts@.len() == bv.set_layouts.len()
                        &&& forall|si: int|
                            0 <= si < bv.set_layouts.len()
                                ==> #[trigger] d.shared_part.desc.set_layouts@[si]
                                == bv.set_layouts[si]->Some_0
                    })
                    &&& forall|k: Seq<char>|
                        k != key@ ==> #[trigger] final(self).spec_entry(k) == old(
                            self,
                        ).spec_entry(k)
                },
                Err(e) => {
                    &&& *final(self) == *old(self)
                    &&& ({
                        let bv = spec_configured(instance_bindables@, shared_bindables@);
                        match e {
                            PipelineError::MissingVertexShader => bv.vertex_shader is None,
                            PipelineError::MissingFragmentShader => {
                                &&& bv.vertex_shader is Some
                                &&& bv.fragment_shader is None
                            },
                            PipelineError::MissingDescriptorSet => {
                                &&& bv.vertex_shader is Some
                                &&& bv.fragment_shader is Some
                                &&& !sets_complete(bv.set_layouts)
                            },
                        }
                    })
                },
            },
    {
        let mut builder = PipelineBuilder::new();
        proof {
            assert(builder@.set_layouts =~= Seq::<Option<u32>>::empty());
            assert(builder@ == builder_init());
        }
        builder.apply_all(&instance_bindables);
        builder.apply_all(&shared_bindables);
        let desc = match builder.build() {
            Ok(d) => d,
            Err(e) => {
                return Err(e);
            },
        };
        let ghost pre = *self;
        let pipeline_id = self.next_pipeline_id;
        self.next_pipeline_id = self.next_pipeline_id + 1;
        let part = SharedPart { pipeline_id, bindables: shared_bindables, desc };
        let entry = CacheEntry { key: clone_string(key), part: clone_part(&part), refs: 1 };
        if replace {
            self.entries[slot] = entry;
            proof {
                lemma_entry_update(pre, *self, slot as int, key@);
            }
        } else {
            self.entries.push(entry);
            proof {
                lemma_entry_push(pre, *self, key@);
            }
        }
        Ok(Drawable { bindables: instance_bindables, shared_part: part, index_count })
    }

    /// Drops one live reference of a kind's shared part; the entry with
    /// no references left is dead and its slot is reused by the next
    /// miss on that kind.
    pub fn release(&mut self, key: &String)
        requires
            old(self).wf(),
        ensures
            final(self).wf(),
            final(self).spec_next_pipeline_id() == old(self).spec_next_pipeline_id(),
            match old(self).spec_entry(key@) {
                Some(e) => {
                    &&& final(self).spec_entry(key@) == Some(
                        CacheEntry {
                            refs: if e.refs > 0 {
                                (e.refs - 1) as u64
                            } else {
                                0
                            },
                            ..e
                        },
                    )
                    &&& forall|k: Seq<char>|
                        k != key@ ==> #[trigger] final(self).spec_entry(k) == old(
                            self,
                        ).spec_entry(k)
                },
                None => *final(self) == *old(self),
            },
    {
        let found = self.find_idx(key);
        match found {
            Some(i) => {
                let ghost pre = *self;
                if self.entries[i].refs > 0 {
                    let r = self.entries[i].refs;
                    self.entries[i].refs = r - 1;
                } else {
                    proof {
                        assert(self.entries@ =~= pre.entries@.update(
                            i as int,
                            pre.entries@[i as int],
                        ));
                    }
                }
                proof {
                    lemma_entry_update(pre, *self, i as int, key@);
                }
            },
            None => {},
        }
    }
}

/// A plain copy of a string.
fn clone_string(s: &String) -> (r: String)
    ensures
        r@ == s@,
{
    s.clone()
}

/// Updating the entry at an index (key unchanged) changes lookups only
/// at that key.
proof fn lemma_entry_update(pre: DrawableCache, post: DrawableCache, i: int, key: Seq<char>)
    requires
        pre.wf(),
        0 <= i < pre.entries@.len(),
        pre.entries@[i].key@ == key,
        post.entries@ == pre.entries@.update(i, post.entries@[i]),
        post.entries@[i].key@ == key,
        post.entries@[i].part.pipeline_id < post.next_pipeline_id,
        post.next_pipeline_id >= pre.next_pipeline_id,
        forall|j: int|
            0 <= j < pre.entries@.len() && j != i ==> (#[trigger] pre.entries@[j]).part.pipeline_id
                != post.entries@[i].part.pipeline_id,
    ensures
        post.wf(),
        post.spec_entry(key) == Some(post.entries@[i]),
        forall|k: Seq<char>| k != key ==> #[trigger] post.spec_entry(k) == pre.spec_entry(k),
{
    assert forall|k: Seq<char>| k != key implies #[trigger] post.spec_entry(k) == pre.spec_entry(
        k,
    ) by {
        if exists|j: int| 0 <= j < pre.entries@.len() && (#[trigger] pre.entries@[j]).key@ == k {
            let j = choose|j: int|
                0 <= j < pre.entries@.len() && (#[trigger] pre.entries@[j]).key@ == k;
            assert(j != i);
            assert(post.entries@[j].key@ == k);
            let j2 = choose|j2: int|
                0 <= j2 < post.entries@.len() && (#[trigger] post.entries@[j2]).key@ == k;
            assert(j2 != i ==> post.entries@[j2] == pre.entries@[j2]);
            assert(j2 == j);
        } else {
            assert forall|j: int| 0 <= j < post.entries@.len()
                implies (#[trigger] post.entries@[j]).key@ != k by {
                if j != i {
                    assert(post.entries@[j] == pre.entries@[j]);
                }
            }
        }
    }
    let j2 = choose|j2: int|
        0 <= j2 < post.entries@.len() && (#[trigger] post.entries@[j2]).key@ == key;
    assert(post.entries@[i].key@ == key);
    assert(j2 == i || pre.entries@[j2].key@ == key);
    assert(j2 == i);
}

/// Appending an entry under a fresh key changes lookups only at that
/// key.
proof fn lemma_entry_push(pre: DrawableCache, post: DrawableCache, key: Seq<char>)
    requires
        pre.wf(),
        pre.spec_entry(key) is None,
        post.entries@ == pre.entries@.push(post.entries@.last()),
        post.entries@.last().key@ == key,
        post.entries@.last().part.pipeline_id == pre.next_pipeline_id,
        post.next_pipeline_id == pre.next_pipeline_id + 1,
    ensures
        post.wf(),
        post.spec_entry(key) == Some(post.entries@.last()),
        forall|k: Seq<char>| k != key ==> #[trigger] post.spec_entry(k) == pre.spec_entry(k),
{
    let n = pre.entries@.len() as int;
    assert(forall|j: int| 0 <= j < n ==> post.entries@[j] == pre.entries@[j]);
    assert forall|i: int, j: int| 0 <= i < j < post.entries@.len()
        implies (#[trigger] post.entries@[i]).key@ != (#[trigger] post.entries@[j]).key@ by {
        if j == n {
            if pre.entries@[i].key@ == key {
                assert(exists|m: int|
                    0 <= m < pre.entries@.len() && (#[trigger] pre.entries@[m]).key@ == key);
            }
        }
    }
    assert(post.entries@[n].key@ == key);
    let j2 = choose|j2: int|
        0 <= j2 < post.entries@.len() && (#[trigger] post.entries@[j2]).key@ == key;
    assert(j2 == n) by {
        if j2 < n {
            assert(pre.entries@[j2].key@ == key);
        }
    }
    assert forall|k: Seq<char>| k != key implies #[trigger] post.spec_entry(k) == pre.spec_entry(
        k,
    ) by {
        if exists|j: int| 0 <= j < pre.entries@.len() && (#[trigger] pre.entries@[j]).key@ == k {
            let j = choose|j: int|
                0 <= j < pre.entries@.len() && (#[trigger] pre.entries@[j]).key@ == k;
            assert(post.entries@[j].key@ == k);
            let m = choose|m: int|
                0 <= m < post.entries@.len() && (#[trigger] post.entries@[m]).key@ == k;
            assert(m < n);
            assert(m == j);
        } else {
            assert forall|j: int| 0 <= j < post.entries@.len()
                implies (#[trigger] post.entries@[j]).key@ != k by {
                if j < n {
                    assert(post.entries@[j] == pre.entries@[j]);
                }
            }
        }
    }
}

/// Law: drawables built from one kind tag share one pipeline object,
/// and drawables built from two different tags get two distinct
/// pipeline objects even if their bindables are identical - the cache
/// key is the tag, not the bindables' shape.
pub proof fn law_shared_part_reuse(
    c0: DrawableCache,
    c1: DrawableCache,
    c2: DrawableCache,
    d1: Drawable,
    d2: Drawable,
    key1: Seq<char>,
    key2: Seq<char>,
)
    requires
        c0.wf(),
        c1.wf(),
        c2.wf(),
        // d1 came out of a successful build on c0 under key1
        c1.spec_live(key1),
        c1.spec_entry(key1)->Some_0.part.pipeline_id == d1.shared_part.pipeline_id,
        c1.spec_next_pipeline_id() >= c0.spec_next_pipeline_id(),
        // d2 came out of a successful build on c1 under key2
        c2.spec_live(key2),
        c2.spec_entry(key2)->Some_0.part.pipeline_id == d2.shared_part.pipeline_id,
        forall|k: Seq<char>| k != key2 ==> #[trigger] c2.spec_entry(k) == c1.spec_entry(k),
        (if c1.spec_live(key2) {
            d2.shared_part.pipeline_id == c1.spec_entry(key2)->Some_0.part.pipeline_id
        } else {
            d2.shared_part.pipeline_id == c1.spec_next_pipeline_id()
        }),
    ensures
        key1 == key2 ==> d2.shared_part.pipeline_id == d1.shared_part.pipeline_id,
        key1 != key2 ==> d2.shared_part.pipeline_id != d1.shared_part.pipeline_id,
{
    if key1 == key2 {
    } else {
        let e1 = c1.spec_entry(key1)->Some_0;
        lemma_entry_id_bound(c1, key1);
        if c1.spec_live(key2) {
            let e2 = c1.spec_entry(key2)->Some_0;
            lemma_distinct_keys_distinct_ids(c1, key1, key2);
        } else {
        }
    }
}

/// Every stored pipeline id is below the next fresh id.
proof fn lemma_entry_id_bound(c: DrawableCache, key: Seq<char>)
    requires
        c.wf(),
        c.spec_entry(key) is Some,
    ensures
        c.spec_entry(key)->Some_0.part.pipeline_id < c.spec_next_pipeline_id(),
{
}

/// Entries under two different keys carry two different pipeline ids.
proof fn lemma_distinct_keys_distinct_ids(c: DrawableCache, key1: Seq<char>, key2: Seq<char>)
    requires
        c.wf(),
        key1 != key2,
        c.spec_entry(key1) is Some,
        c.spec_entry(key2) is Some,
    ensures
        c.spec_entry(key1)->Some_0.part.pipeline_id != c.spec_entry(key2)->Some_0.part.pipeline_id,
{
    let i1 = choose|i: int| 0 <= i < c.entries@.len() && (#[trigger] c.entries@[i]).key@ == key1;
    let i2 = choose|i: int| 0 <= i < c.entries@.len() && (#[trigger] c.entries@[i]).key@ == key2;
    assert(i1 != i2);
}


/// A plain copy of a bindable list.
fn clone_bindables(v: &Vec<Bindable>) -> (r: Vec<Bindable>)
    ensures
        r@ == v@,
{
    let mut r: Vec<Bindable> = Vec::new();
    let mut i: usize = 0;
    while i < v.len()
        invariant
            0 <= i <= v@.len(),
            r@ == v@.take(i as int),
        decreases v@.len() - i,
    {
        r.push(v[i]);
        proof {
            assert(r@ =~= v@.take(i + 1));
        }
        i += 1;
    }
    proof {
        assert(v@.take(v@.len() as int) =~= v@);
    }
    r
}

/// A plain copy of a layout-id list.
fn clone_u32s(v: &Vec<u32>) -> (r: Vec<u32>)
    ensures
        r@ == v@,
{
    let mut r: Vec<u32> = Vec::new();
    let mut i: usize = 0;
    while i < v.len()
        invariant
            0 <= i <= v@.len(),
            r@ == v@.take(i as int),
        decreases v@.len() - i,
    {
        r.push(v[i]);
        proof {
            assert(r@ =~= v@.take(i + 1));
        }
        i += 1;
    }
    proof {
        assert(v@.take(v@.len() as int) =~= v@);
    }
    r
}

/// A field-for-field copy of a pipeline description.
fn clone_desc(d: &PipelineDesc) -> (r: PipelineDesc)
    ensures
        r.vertex_layout == d.vertex_layout,
        r.vertex_shader == d.vertex_shader,
        r.fragment_shader == d.fragment_shader,
        r.topology == d.topology,
        r.set_layouts@ == d.set_layouts@,
        r.push_constant_size == d.push_constant_size,
{
    PipelineDesc {
        vertex_layout: d.vertex_layout,
        vertex_shader: d.vertex_shader,
        fragment_shader: d.fragment_shader,
        topology: d.topology,
        set_layouts: clone_u32s(&d.set_layouts),
        push_constant_size: d.push_constant_size,
    }
}

/// A field-for-field copy of a shared part.
fn clone_part(p: &SharedPart) -> (r: SharedPart)
    ensures
        r.pipeline_id == p.pipeline_id,
        r.bindables@ == p.bindables@,
        r.desc.vertex_layout == p.desc.vertex_layout,
        r.desc.vertex_shader == p.desc.vertex_shader,
        r.desc.fragment_shader == p.desc.fragment_shader,
        r.desc.topology == p.desc.topology,
        r.desc.set_layouts@ == p.desc.set_layouts@,
        r.desc.push_constant_size == p.desc.push_constant_size,
{
    SharedPart {
        pipeline_id: p.pipeline_id,
        bindables: clone_bindables(&p.bindables),
        desc: clone_desc(&p.desc),
    }
}

} // verus!
