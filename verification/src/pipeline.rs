//! The pipeline-under-construction model.
//!
//! Bindables contribute their pipeline-facing configuration (vertex
//! layout, shaders, topology, descriptor-set layouts) to a builder; the
//! builder then compiles into a pipeline description exactly when a
//! vertex and fragment shader were supplied and the registered
//! descriptor-set slots have no gap.

use vstd::prelude::*;

verus! {

/// Primitive topology of a mesh.
#[derive(Clone, Copy, Debug, PartialEq, Eq, Structural, Hash)]
pub enum MeshTopology {
    TriangleList,
    LineList,
    LineStrip,
    PointList,
}

/// What one GPU-bound resource contributes: its effect on pipeline
/// construction, and which slot it binds at draw time.
#[derive(Clone, Copy, Debug, PartialEq, Eq, Structural)]
pub enum Bindable {
    /// Fixes the pipeline's vertex input layout.
    VertexBuffer { layout_id: u32, vertex_count: u32 },
    /// No pipeline effect; binds the indices at draw time.
    IndexBuffer { index_count: u32 },
    /// Registers a descriptor-set layout at a fixed set number.
    UniformBufferBinding { set_num: u32, layout_id: u32 },
    /// Registers a texture's descriptor-set layout at a set number.
    TextureBinding { set_num: u32, layout_id: u32 },
    /// Declares a push-constant range.
    PushConstant { size: u32 },
    VertexShader { module_id: u64 },
    FragmentShader { module_id: u64 },
    /// Overrides the input-assembly topology.
    Topology { topology: MeshTopology },
}

/// The mathematical state of a builder.
pub struct BuilderView {
    pub vertex_layout: Option<u32>,
    pub vertex_shader: Option<u64>,
    pub fragment_shader: Option<u64>,
    pub topology: MeshTopology,
    pub set_layouts: Seq<Option<u32>>,
    pub push_constant_size: u32,
}

/// The slot sequence after registering `layout_id` at `set_num`,
/// growing the slot list with empty slots as needed.
pub open spec fn spec_set_layout(s: Seq<Option<u32>>, set_num: u32, layout_id: u32) -> Seq<
    Option<u32>,
> {
    let grown = if s.len() <= set_num {
        s + Seq::new((set_num + 1 - s.len()) as nat, |i: int| None::<u32>)
    } else {
        s
    };
    grown.update(set_num as int, Some(layout_id))
}

/// A builder after one bindable has configured it.
pub open spec fn spec_apply(b: BuilderView, x: Bindable) -> BuilderView {
    match x {
        Bindable::VertexBuffer { layout_id, .. } => BuilderView {
            vertex_layout: Some(layout_id),
            ..b
        },
        Bindable::IndexBuffer { .. } => b,
        Bindable::UniformBufferBinding { set_num, layout_id } => BuilderView {
            set_layouts: spec_set_layout(b.set_layouts, set_num, layout_id),
            ..b
        },
        Bindable::TextureBinding { set_num, layout_id } => BuilderView {
            set_layouts: spec_set_layout(b.set_layouts, set_num, layout_id),
            ..b
        },
        Bindable::PushConstant { size } => BuilderView { push_constant_size: size, ..b },
        Bindable::VertexShader { module_id } => BuilderView {
            vertex_shader: Some(module_id),
            ..b
        },
        Bindable::FragmentShader { module_id } => BuilderView {
            fragment_shader: Some(module_id),
            ..b
        },
        Bindable::Topology { topology } => BuilderView { topology, ..b },
    }
}

/// A builder folded over a bindable list from index `k` on.
pub open spec fn spec_apply_all(b: BuilderView, xs: Seq<Bindable>, k: int) -> BuilderView
    decreases xs.len() - k,
{
    if k < 0 || k >= xs.len() {
        b
    } else {
        spec_apply_all(spec_apply(b, xs[k]), xs, k + 1)
    }
}

/// A compiled pipeline description: everything the builder accumulated,
/// with the descriptor-set slots checked gap-free.
#[derive(Clone, Debug)]
pub struct PipelineDesc {
    pub vertex_layout: Option<u32>,
    pub vertex_shader: u64,
    pub fragment_shader: u64,
    pub topology: MeshTopology,
    pub set_layouts: Vec<u32>,
    pub push_constant_size: u32,
}

/// Why a pipeline failed to compile.
#[derive(Clone, Copy, Debug, PartialEq, Eq, Structural)]
pub enum PipelineError {
    /// No vertex shader was supplied.
    MissingVertexShader,
    /// No fragment shader was supplied.
    MissingFragmentShader,
    /// A descriptor-set slot below the highest registered one was left
    /// empty.
    MissingDescriptorSet,
}

/// A pipeline under construction.
#[derive(Clone, Debug)]
pub struct PipelineBuilder {
    pub vertex_layout: Option<u32>,
    pub vertex_shader: Option<u64>,
    pub fragment_shader: Option<u64>,
    pub topology: MeshTopology,
    pub descriptor_set_layouts: Vec<Option<u32>>,
    pub push_constant_size: u32,
}

impl View for PipelineBuilder {
    type V = BuilderView;

    open spec fn view(&self) -> BuilderView {
        BuilderView {
            vertex_layout: self.vertex_layout,
            vertex_shader: self.vertex_shader,
            fragment_shader: self.fragment_shader,
            topology: self.topology,
            set_layouts: self.descriptor_set_layouts@,
            push_constant_size: self.push_constant_size,
        }
    }
}

/// All descriptor-set slots are filled.
pub open spec fn sets_complete(s: Seq<Option<u32>>) -> bool {
    forall|i: int| 0 <= i < s.len() ==> (#[trigger] s[i]) is Some
}

impl PipelineBuilder {
    /// A fresh builder: nothing registered, triangle-list topology.
    pub fn new() -> (r: PipelineBuilder)
        ensures
            r@.vertex_layout is None,
            r@.vertex_shader is None,
            r@.fragment_shader is None,
            r@.topology == MeshTopology::TriangleList,
            r@.set_layouts.len() == 0,
            r@.push_constant_size == 0,
    {
        PipelineBuilder {
            vertex_layout: None,
            vertex_shader: None,
            fragment_shader: None,
            topology: MeshTopology::TriangleList,
            descriptor_set_layouts: Vec::new(),
            push_constant_size: 0,
        }
    }

    /// Registers a descriptor-set layout at a set number, growing the
    /// slot list with empty slots as needed.
    pub fn add_descriptor_set_layout(&mut self, set_num: u32, layout_id: u32)
        requires
            set_num < 0x1000,
        ensures
            final(self)@ == (BuilderView {
                set_layouts: spec_set_layout(old(self)@.set_layouts, set_num, layout_id),
                ..old(self)@
            }),
    {
        let set = set_num as usize;
        while self.descriptor_set_layouts.len() <= set
            invariant
                set == set_num as int,
                ({
                    let s = old(self).descriptor_set_layouts@;
                    if s.len() > set {
                        self.descriptor_set_layouts@ == s
                    } else {
                        &&& s.len() <= self.descriptor_set_layouts@.len() <= set + 1
                        &&& self.descriptor_set_layouts@ == s + Seq::new(
                            (self.descriptor_set_layouts@.len() - s.len()) as nat,
                            |i: int| None::<u32>,
                        )
                    }
                }),
                self.vertex_layout == old(self).vertex_layout,
                self.vertex_shader == old(self).vertex_shader,
                self.fragment_shader == old(self).fragment_shader,
                self.topology == old(self).topology,
                self.push_constant_size == old(self).push_constant_size,
            decreases set + 1 - self.descriptor_set_layouts@.len(),
        {
            self.descriptor_set_layouts.push(None);
            proof {
                let s = old(self).descriptor_set_layouts@;
                assert(self.descriptor_set_layouts@ =~= s + Seq::new(
                    (self.descriptor_set_layouts@.len() - s.len()) as nat,
                    |i: int| None::<u32>,
                ));
            }
        }
        self.descriptor_set_layouts[set] = Some(layout_id);
        proof {
            assert(self.descriptor_set_layouts@ =~= spec_set_layout(
                old(self).descriptor_set_layouts@,
                set_num,
                layout_id,
            ));
        }
    }

    /// Lets one bindable configure the pipeline.
    pub fn apply(&mut self, x: &Bindable)
        requires
            match *x {
                Bindable::UniformBufferBinding { set_num, .. } => set_num < 0x1000,
                Bindable::TextureBinding { set_num, .. } => set_num < 0x1000,
                _ => true,
            },
        ensures
            final(self)@ == spec_apply(old(self)@, *x),
    {
        match *x {
            Bindable::VertexBuffer { layout_id, .. } => {
                self.vertex_layout = Some(layout_id);
            },
            Bindable::IndexBuffer { .. } => {},
            Bindable::UniformBufferBinding { set_num, layout_id } => {
                self.add_descriptor_set_layout(set_num, layout_id);
            },
            Bindable::TextureBinding { set_num, layout_id } => {
                self.add_descriptor_set_layout(set_num, layout_id);
            },
            Bindable::PushConstant { size } => {
                self.push_constant_size = size;
            },
            Bindable::VertexShader { module_id } => {
                self.vertex_shader = Some(module_id);
            },
            Bindable::FragmentShader { module_id } => {
                self.fragment_shader = Some(module_id);
            },
            Bindable::Topology { topology } => {
                self.topology = topology;
            },
        }
    }

    /// Lets a whole bindable list configure the pipeline, in order.
    pub fn apply_all(&mut self, xs: &Vec<Bindable>)
        requires
            forall|i: int|
                0 <= i < xs@.len() ==> match #[trigger] xs@[i] {
                    Bindable::UniformBufferBinding { set_num, .. } => set_num < 0x1000,
                    Bindable::TextureBinding { set_num, .. } => set_num < 0x1000,
                    _ => true,
                },
        ensures
            final(self)@ == spec_apply_all(old(self)@, xs@, 0),
    {
        let ghost goal = spec_apply_all(self@, xs@, 0);
        let mut i: usize = 0;
        while i < xs.len()
            invariant
                0 <= i <= xs@.len(),
                forall|j: int|
                    0 <= j < xs@.len() ==> match #[trigger] xs@[j] {
                        Bindable::UniformBufferBinding { set_num, .. } => set_num < 0x1000,
                        Bindable::TextureBinding { set_num, .. } => set_num < 0x1000,
                        _ => true,
                    },
                spec_apply_all(self@, xs@, i as int) == goal,
            decreases xs@.len() - i,
        {
            self.apply(&xs[i]);
            i += 1;
        }
    }

    /// Compiles the builder. Succeeds exactly when a vertex shader and
    /// a fragment shader were supplied and no registered descriptor-set
    /// slot below the highest one is empty; each failure reports the
    /// first missing piece in that order.
    pub fn build(self) -> (r: Result<PipelineDesc, PipelineError>)
        ensures
            match r {
                Ok(d) => {
                    &&& self@.vertex_shader is Some
                    &&& self@.fragment_shader is Some
                    &&& sets_complete(self@.set_layouts)
                    &&& d.vertex_layout == self@.vertex_layout
                    &&& d.vertex_shader == self@.vertex_shader->Some_0
                    &&& d.fragment_shader == self@.fragment_shader->Some_0
                    &&& d.topology == self@.topology
                    &&& d.push_constant_size == self@.push_constant_size
                    &&& d.set_layouts@.len() == self@.set_layouts.len()
                    &&& forall|i: int|
                        0 <= i < d.set_layouts@.len() ==> #[trigger] d.set_layouts@[i]
                            == self@.set_layouts[i]->Some_0
                },
                Err(e) => match e {
                    PipelineError::MissingVertexShader => self@.vertex_shader is None,
                    PipelineError::MissingFragmentShader => {
                        &&& self@.vertex_shader is Some
                        &&& self@.fragment_shader is None
                    },
                    PipelineError::MissingDescriptorSet => {
                        &&& self@.vertex_shader is Some
                        &&& self@.fragment_shader is Some
                        &&& !sets_complete(self@.set_layouts)
                    },
                },
            },
    {
        let vs = match self.vertex_shader {
            Some(v) => v,
            None => {
                return Err(PipelineError::MissingVertexShader);
            },
        };
        let fs = match self.fragment_shader {
            Some(v) => v,
            None => {
                return Err(PipelineError::MissingFragmentShader);
            },
        };
        let mut set_layouts: Vec<u32> = Vec::new();
        let mut i: usize = 0;
        while i < self.descriptor_set_layouts.len()
            invariant
                0 <= i <= self.descriptor_set_layouts@.len(),
                self.vertex_shader is Some,
                self.fragment_shader is Some,
                set_layouts@.len() == i,
                forall|j: int| 0 <= j < i ==> (#[trigger] self.descriptor_set_layouts@[j]) is Some,
                forall|j: int|
                    0 <= j < i ==> #[trigger] set_layouts@[j] == self.descriptor_set_layouts@[j]
                        ->Some_0,
            decreases self.descriptor_set_layouts@.len() - i,
        {
            match self.descriptor_set_layouts[i] {
                Some(l) => {
                    set_layouts.push(l);
                },
                None => {
                    proof {
                        assert(!(self.descriptor_set_layouts@[i as int] is Some));
                    }
                    return Err(PipelineError::MissingDescriptorSet);
                },
            }
            i += 1;
        }
        Ok(PipelineDesc {
            vertex_layout: self.vertex_layout,
            vertex_shader: vs,
            fragment_shader: fs,
            topology: self.topology,
            set_layouts,
            push_constant_size: self.push_constant_size,
        })
    }
}

} // verus!
