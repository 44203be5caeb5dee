use rosten::drawable::DrawableCache;
use rosten::pipeline::Bindable;
use rosten::renderer::{FrameOutcome, FrameRenderer, RenderCommand};

fn simple_drawable(cache: &mut DrawableCache, tag: &str) -> rosten::drawable::Drawable {
    let key = String::from(tag);
    cache
        .get_or_build(
            &key,
            vec![Bindable::VertexBuffer { layout_id: 1, vertex_count: 4 }],
            vec![
                Bindable::VertexShader { module_id: 1 },
                Bindable::FragmentShader { module_id: 2 },
            ],
            6,
        )
        .unwrap()
}

#[test]
fn recording_preserves_enqueue_order_and_drains_once() {
    let mut cache = DrawableCache::new();
    let d1 = simple_drawable(&mut cache, "first");
    let d2 = simple_drawable(&mut cache, "second");
    let p1 = d1.get_pipeline();
    let p2 = d2.get_pipeline();

    let mut renderer = FrameRenderer::new(2);
    renderer.queue_drawable(d1);
    renderer.queue_drawable(d2);

    let cmds = renderer.record_commands(0);
    // per drawable: one instance bind, two shared binds, the pipeline,
    // one indexed draw; first enqueued first
    assert_eq!(cmds.len(), 10);
    assert_eq!(cmds[0], RenderCommand::Bind(Bindable::VertexBuffer { layout_id: 1, vertex_count: 4 }));
    assert_eq!(cmds[3], RenderCommand::BindPipeline(p1));
    assert_eq!(cmds[4], RenderCommand::DrawIndexed(6));
    assert_eq!(cmds[8], RenderCommand::BindPipeline(p2));
    assert_eq!(cmds[9], RenderCommand::DrawIndexed(6));

    // the queue was drained exactly once: recording again is empty
    let empty = renderer.record_commands(0);
    assert!(empty.is_empty());
}

#[test]
fn presenting_rotates_in_flight_slot_modulo_count() {
    let mut renderer = FrameRenderer::new(2);
    assert_eq!(renderer.get_in_flight_index(), 0);
    renderer.end_frame(FrameOutcome::Presented { suboptimal: false });
    assert_eq!(renderer.get_in_flight_index(), 1);
    renderer.end_frame(FrameOutcome::Presented { suboptimal: false });
    assert_eq!(renderer.get_in_flight_index(), 0);
}

#[test]
fn out_of_date_swapchain_rebuilds_without_advancing() {
    let mut renderer = FrameRenderer::new(2);
    renderer.end_frame(FrameOutcome::SwapchainOutOfDate);
    // the frame was skipped: the slot did not advance, the swapchain
    // was rebuilt (its generation moved on), and nothing crashed
    assert_eq!(renderer.get_in_flight_index(), 0);
    renderer.end_frame(FrameOutcome::Presented { suboptimal: true });
    assert_eq!(renderer.get_in_flight_index(), 1);
}

#[test]
fn swapchain_bad_compares_extents() {
    assert!(FrameRenderer::swapchain_bad((800, 600), (640, 480)));
    assert!(!FrameRenderer::swapchain_bad((800, 600), (800, 600)));
}
