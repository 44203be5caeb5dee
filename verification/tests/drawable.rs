use rosten::drawable::DrawableCache;
use rosten::pipeline::{Bindable, MeshTopology, PipelineError};

fn instance_bindables() -> Vec<Bindable> {
    vec![
        Bindable::VertexBuffer { layout_id: 7, vertex_count: 4 },
        Bindable::IndexBuffer { index_count: 6 },
    ]
}

fn shared_bindables() -> Vec<Bindable> {
    vec![
        Bindable::VertexShader { module_id: 100 },
        Bindable::FragmentShader { module_id: 200 },
        Bindable::UniformBufferBinding { set_num: 0, layout_id: 1 },
    ]
}

#[test]
fn shared_part_reused_per_kind_tag() {
    let mut cache = DrawableCache::new();
    let key = String::from("tile_static");

    let d1 = cache
        .get_or_build(&key, instance_bindables(), shared_bindables(), 6)
        .unwrap();
    let d2 = cache
        .get_or_build(&key, instance_bindables(), shared_bindables(), 6)
        .unwrap();
    // two entities from the same kind tag share one pipeline object
    assert_eq!(d1.get_pipeline(), d2.get_pipeline());
    assert_eq!(d1.get_index_count(), 6);
    assert_eq!(d2.get_bindables().len(), 2);
    assert_eq!(d2.get_shared_bindables().len(), 3);
}

#[test]
fn distinct_kind_tags_get_distinct_pipelines() {
    let mut cache = DrawableCache::new();
    let key_a = String::from("tile_static");
    let key_b = String::from("tile_animated");

    // identical bindable shapes, different tags: the cache key is the
    // tag, not the structure
    let d1 = cache
        .get_or_build(&key_a, instance_bindables(), shared_bindables(), 6)
        .unwrap();
    let d2 = cache
        .get_or_build(&key_b, instance_bindables(), shared_bindables(), 6)
        .unwrap();
    assert_ne!(d1.get_pipeline(), d2.get_pipeline());
}

#[test]
fn released_kind_is_rebuilt() {
    let mut cache = DrawableCache::new();
    let key = String::from("ui_image");
    let d1 = cache
        .get_or_build(&key, instance_bindables(), shared_bindables(), 6)
        .unwrap();
    // the only holder drops; the entry is dead and the next build makes
    // a fresh pipeline
    cache.release(&key);
    let d2 = cache
        .get_or_build(&key, instance_bindables(), shared_bindables(), 6)
        .unwrap();
    assert_ne!(d1.get_pipeline(), d2.get_pipeline());
}

#[test]
fn build_reports_first_missing_piece() {
    let mut cache = DrawableCache::new();
    let key = String::from("broken");
    let no_shaders: Vec<Bindable> = vec![
        Bindable::VertexBuffer { layout_id: 7, vertex_count: 4 },
    ];
    let err = cache
        .get_or_build(&key, no_shaders, vec![], 6)
        .unwrap_err();
    assert_eq!(err, PipelineError::MissingVertexShader);

    let vs_only = vec![Bindable::VertexShader { module_id: 1 }];
    let err = cache.get_or_build(&key, vs_only, vec![], 6).unwrap_err();
    assert_eq!(err, PipelineError::MissingFragmentShader);

    let gap = vec![
        Bindable::VertexShader { module_id: 1 },
        Bindable::FragmentShader { module_id: 2 },
        Bindable::UniformBufferBinding { set_num: 1, layout_id: 3 },
    ];
    let err = cache.get_or_build(&key, gap, vec![], 6).unwrap_err();
    assert_eq!(err, PipelineError::MissingDescriptorSet);
}

#[test]
fn pipeline_desc_collects_configuration() {
    let mut cache = DrawableCache::new();
    let key = String::from("mesh_lines");
    let instance = vec![
        Bindable::VertexBuffer { layout_id: 9, vertex_count: 4 },
        Bindable::Topology { topology: MeshTopology::LineStrip },
        Bindable::UniformBufferBinding { set_num: 1, layout_id: 5 },
    ];
    let shared = vec![
        Bindable::VertexShader { module_id: 1 },
        Bindable::FragmentShader { module_id: 2 },
        Bindable::UniformBufferBinding { set_num: 0, layout_id: 4 },
    ];
    let d = cache.get_or_build(&key, instance, shared, 5).unwrap();
    let desc = &d.shared_part.desc;
    assert_eq!(desc.vertex_layout, Some(9));
    assert_eq!(desc.vertex_shader, 1);
    assert_eq!(desc.fragment_shader, 2);
    assert_eq!(desc.topology, MeshTopology::LineStrip);
    assert_eq!(desc.set_layouts, vec![4, 5]);
}
