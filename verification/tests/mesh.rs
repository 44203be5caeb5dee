use rosten::mesh::wireframe;
use rosten::pipeline::MeshTopology;

#[test]
fn triangle_list_becomes_deduplicated_line_list() {
    // two triangles of a quad share the 1-2 diagonal: five distinct
    // edges, each once, endpoints sorted within the edge
    let indices: Vec<u32> = vec![0, 1, 2, 2, 1, 3];
    let (topology, lines) = wireframe(MeshTopology::TriangleList, &indices).unwrap();
    assert_eq!(topology, MeshTopology::LineList);
    assert_eq!(lines, vec![0, 1, 0, 2, 1, 2, 1, 3, 2, 3]);
}

#[test]
fn line_topologies_pass_through() {
    let indices: Vec<u32> = vec![0, 1, 2, 3, 0];
    let (topology, lines) = wireframe(MeshTopology::LineStrip, &indices).unwrap();
    assert_eq!(topology, MeshTopology::LineStrip);
    assert_eq!(lines, indices);

    let (topology, lines) = wireframe(MeshTopology::LineList, &indices).unwrap();
    assert_eq!(topology, MeshTopology::LineList);
    assert_eq!(lines, indices);
}

#[test]
fn point_list_has_no_wireframe() {
    assert!(wireframe(MeshTopology::PointList, &vec![0, 1, 2]).is_none());
}
