//! The frame driver: command recording, the draw-queue drain, and the
//! in-flight frame rotation.
//!
//! Drawables queued during a frame's update phase are recorded in
//! enqueue order - each binds its instance bindables, then its shared
//! bindables, then its pipeline, then issues one indexed draw - and the
//! queue is drained exactly once per frame. Presenting rotates the
//! in-flight slot modulo the in-flight count; a swapchain that has
//! fallen out of date triggers a rebuild and the frame is skipped, never
//! a crash.

use vstd::prelude::*;

use crate::drawable::Drawable;
use crate::pipeline::Bindable;

verus! {

/// One recorded GPU command of a frame.
#[derive(Clone, Copy, Debug, PartialEq, Eq, Structural)]
pub enum RenderCommand {
    /// Make one bindable active for the next draw.
    Bind(Bindable),
    /// Bind a compiled pipeline.
    BindPipeline(u64),
    /// Draw that many indices.
    DrawIndexed(u32),
}

/// The commands one drawable records: its instance bindables first,
/// then its shared bindables, then its pipeline, then the draw.
pub open spec fn cmds_of(d: Drawable) -> Seq<RenderCommand> {
    d.bindables@.map_values(|b: Bindable| RenderCommand::Bind(b))
        + d.shared_part.bindables@.map_values(|b: Bindable| RenderCommand::Bind(b)) + seq![
        RenderCommand::BindPipeline(d.shared_part.pipeline_id),
        RenderCommand::DrawIndexed(d.index_count),
    ]
}

/// The commands of a whole queue, in enqueue order.
pub open spec fn cmds_of_queue(q: Seq<Drawable>) -> Seq<RenderCommand>
    decreases q.len(),
{
    if q.len() == 0 {
        Seq::empty()
    } else {
        cmds_of_queue(q.drop_last()) + cmds_of(q.last())
    }
}

/// What the GPU reported for a frame.
#[derive(Clone, Copy, Debug, PartialEq, Eq, Structural)]
pub enum FrameOutcome {
    /// The image was presented; the surface may still be suboptimal.
    Presented { suboptimal: bool },
    /// The swapchain is out of date; the frame was skipped.
    SwapchainOutOfDate,
}

/// The frame driver's bookkeeping state.
#[derive(Debug)]
pub struct FrameRenderer {
    in_flight_count: usize,
    inflight_index: usize,
    framebuffer_index: u32,
    swapchain_generation: u64,
    draw_queue: Vec<Drawable>,
}

impl FrameRenderer {
    pub closed spec fn wf(self) -> bool {
        &&& self.in_flight_count >= 1
        &&& self.inflight_index < self.in_flight_count
    }

    pub closed spec fn spec_in_flight_count(self) -> int {
        self.in_flight_count as int
    }

    pub closed spec fn spec_inflight_index(self) -> int {
        self.inflight_index as int
    }

    pub closed spec fn spec_framebuffer_index(self) -> u32 {
        self.framebuffer_index
    }

    pub closed spec fn spec_swapchain_generation(self) -> u64 {
        self.swapchain_generation
    }

    pub closed spec fn spec_queue(self) -> Seq<Drawable> {
        self.draw_queue@
    }

    pub fn new(in_flight_count: usize) -> (r: FrameRenderer)
        requires
            in_flight_count >= 1,
        ensures
            r.wf(),
            r.spec_in_flight_count() == in_flight_count,
            r.spec_inflight_index() == 0,
            r.spec_queue().len() == 0,
            r.spec_swapchain_generation() == 0,
    {
        FrameRenderer {
            in_flight_count,
            inflight_index: 0,
            framebuffer_index: 0,
            swapchain_generation: 0,
            draw_queue: Vec::new(),
        }
    }

    /// The in-flight slot whose fence the next frame waits on.
    pub fn get_in_flight_index(&self) -> (r: usize)
        ensures
            r == self.spec_inflight_index(),
    {
        self.inflight_index
    }

    pub fn get_in_flight_count(&self) -> (r: usize)
        ensures
            r == self.spec_in_flight_count(),
    {
        self.in_flight_count
    }

    /// Appends a drawable for this frame; queuing is append-only during
    /// the update phase.
    pub fn queue_drawable(&mut self, d: Drawable)
        requires
            old(self).wf(),
        ensures
            final(self).wf(),
            final(self).spec_queue() == old(self).spec_queue().push(d),
            final(self).spec_inflight_index() == old(self).spec_inflight_index(),
            final(self).spec_in_flight_count() == old(self).spec_in_flight_count(),
            final(self).spec_swapchain_generation() == old(self).spec_swapchain_generation(),
    {
        self.draw_queue.push(d);
    }

    /// Records this frame's command buffer: every queued drawable in
    /// enqueue order, and drains the queue - exactly once per frame.
    pub fn record_commands(&mut self, framebuffer_index: u32) -> (r: Vec<RenderCommand>)
        requires
            old(self).wf(),
        ensures
            final(self).wf(),
            r@ == cmds_of_queue(old(self).spec_queue()),
            final(self).spec_queue().len() == 0,
            final(self).spec_framebuffer_index() == framebuffer_index,
            final(self).spec_inflight_index() == old(self).spec_inflight_index(),
            final(self).spec_in_flight_count() == old(self).spec_in_flight_count(),
            final(self).spec_swapchain_generation() == old(self).spec_swapchain_generation(),
    {
        let mut r: Vec<RenderCommand> = Vec::new();
        let mut i: usize = 0;
        while i < self.draw_queue.len()
            invariant
                0 <= i <= self.draw_queue@.len(),
                self == old(self),
                r@ == cmds_of_queue(self.draw_queue@.take(i as int)),
            decreases self.draw_queue@.len() - i,
        {
            let d = &self.draw_queue[i];
            let ghost r_pre = r@;
            let mut b: usize = 0;
            while b < d.bindables.len()
                invariant
                    0 <= b <= d.bindables@.len(),
                    d == &self.draw_queue@[i as int],
                    r@ == r_pre + d.bindables@.take(b as int).map_values(
                        |x: Bindable| RenderCommand::Bind(x),
                    ),
                decreases d.bindables@.len() - b,
            {
                r.push(RenderCommand::Bind(d.bindables[b]));
                proof {
                    assert(r@ =~= r_pre + d.bindables@.take(b + 1).map_values(
                        |x: Bindable| RenderCommand::Bind(x),
                    ));
                }
                b += 1;
            }
            let ghost r_mid = r@;
            let mut sb: usize = 0;
            while sb < d.shared_part.bindables.len()
                invariant
                    0 <= sb <= d.shared_part.bindables@.len(),
                    d == &self.draw_queue@[i as int],
                    r@ == r_mid + d.shared_part.bindables@.take(sb as int).map_values(
                        |x: Bindable| RenderCommand::Bind(x),
                    ),
                decreases d.shared_part.bindables@.len() - sb,
            {
                r.push(RenderCommand::Bind(d.shared_part.bindables[sb]));
                proof {
                    assert(r@ =~= r_mid + d.shared_part.bindables@.take(sb + 1).map_values(
                        |x: Bindable| RenderCommand::Bind(x),
                    ));
                }
                sb += 1;
            }
            r.push(RenderCommand::BindPipeline(d.shared_part.pipeline_id));
            r.push(RenderCommand::DrawIndexed(d.index_count));
            proof {
                assert(d.bindables@.take(d.bindables@.len() as int) =~= d.bindables@);
                assert(d.shared_part.bindables@.take(d.shared_part.bindables@.len() as int)
                    =~= d.shared_part.bindables@);
                assert(self.draw_queue@.take(i + 1).drop_last() =~= self.draw_queue@.take(i as int));
                assert(self.draw_queue@.take(i + 1).last() == self.draw_queue@[i as int]);
                assert(r@ =~= cmds_of_queue(self.draw_queue@.take(i + 1)));
            }
            i += 1;
        }
        proof {
            assert(self.draw_queue@.take(self.draw_queue@.len() as int) =~= self.draw_queue@);
        }
        self.draw_queue.clear();
        self.framebuffer_index = framebuffer_index;
        r
    }

    /// Finishes a frame: presenting rotates the in-flight slot modulo
    /// the in-flight count (and additionally rebuilds a suboptimal
    /// swapchain); an out-of-date swapchain only rebuilds, skipping the
    /// frame with the slot unchanged.
    pub fn end_frame(&mut self, outcome: FrameOutcome)
        requires
            old(self).wf(),
            old(self).spec_swapchain_generation() < 0xFFFF_FFFF_FFFF_FFFF,
        ensures
            final(self).wf(),
            final(self).spec_queue() == old(self).spec_queue(),
            final(self).spec_in_flight_count() == old(self).spec_in_flight_count(),
            match outcome {
                FrameOutcome::Presented { suboptimal } => {
                    &&& final(self).spec_inflight_index() == (old(self).spec_inflight_index() + 1)
                        % old(self).spec_in_flight_count()
                    &&& final(self).spec_swapchain_generation() == if suboptimal {
                        old(self).spec_swapchain_generation() + 1
                    } else {
                        old(self).spec_swapchain_generation() as int
                    }
                },
                FrameOutcome::SwapchainOutOfDate => {
                    &&& final(self).spec_inflight_index() == old(self).spec_inflight_index()
                    &&& final(self).spec_swapchain_generation() == old(
                        self,
                    ).spec_swapchain_generation() + 1
                },
            },
    {
        match outcome {
            FrameOutcome::Presented { suboptimal } => {
                self.inflight_index = (self.inflight_index + 1) % self.in_flight_count;
                if suboptimal {
                    self.swapchain_generation = self.swapchain_generation + 1;
                }
                proof {
                    vstd::arithmetic::div_mod::lemma_mod_bound(
                        old(self).inflight_index + 1,
                        self.in_flight_count as int,
                    );
                }
            },
            FrameOutcome::SwapchainOutOfDate => {
                self.swapchain_generation = self.swapchain_generation + 1;
            },
        }
    }

    /// Whether the swapchain no longer matches the window and must be
    /// rebuilt before drawing.
    pub fn swapchain_bad(window_extent: (u32, u32), swapchain_extent: (u32, u32)) -> (r: bool)
        ensures
            r == (window_extent != swapchain_extent),
    {
        window_extent.0 != swapchain_extent.0 || window_extent.1 != swapchain_extent.1
    }
}

} // verus!
