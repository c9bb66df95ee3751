use objmesh::obj_parser::{FaceLayout, ObjType};
use objmesh::triangles::{TriangleMesh, VertexAttribute, VertexAttributeLayout, FLOAT_TYPE};

#[test]
fn stride_is_sum_of_attribute_sizes() {
    let layout = VertexAttributeLayout::new(vec![
        VertexAttribute::new(0, 3, 12, FLOAT_TYPE),
        VertexAttribute::new(2, 2, 8, FLOAT_TYPE),
    ]);
    assert_eq!(layout.stride(), 20);
    assert_eq!(layout.len(), 2);
}

#[test]
fn offsets_are_cumulative_sizes() {
    let layout = VertexAttributeLayout::new(vec![
        VertexAttribute::new(0, 3, 12, FLOAT_TYPE),
        VertexAttribute::new(1, 3, 12, FLOAT_TYPE),
        VertexAttribute::new(2, 2, 8, FLOAT_TYPE),
    ]);
    assert_eq!(layout.offsets(), vec![0, 12, 24]);
    assert_eq!(layout.stride(), 32);
}

#[test]
fn empty_layout_has_zero_stride() {
    let layout = VertexAttributeLayout::new(Vec::new());
    assert_eq!(layout.stride(), 0);
    assert_eq!(layout.len(), 0);
    assert_eq!(layout.offsets(), Vec::<i32>::new());
}

#[test]
fn attribute_accessor_returns_declared_values() {
    let layout = VertexAttributeLayout::new(vec![VertexAttribute::new(4, 2, 8, FLOAT_TYPE)]);
    let a = layout.attribute(0);
    assert_eq!(a.index, 4);
    assert_eq!(a.attrib_size, 2);
    assert_eq!(a.attrib_mem_size, 8);
    assert_eq!(a.attrib_type, FLOAT_TYPE);
}

#[test]
fn derived_layout_follows_configured_channels() {
    let all = FaceLayout::new(Some(0), Some(1), Some(2)).attribute_layout();
    assert_eq!(all.len(), 3);
    assert_eq!(all.stride(), 32);
    assert_eq!(all.offsets(), vec![0, 12, 24]);
    assert_eq!(all.attribute(0).index, 0);
    assert_eq!(all.attribute(1).index, 1);
    assert_eq!(all.attribute(2).index, 2);
    assert_eq!(all.attribute(2).attrib_size, 2);

    let pos_tex = FaceLayout::new(Some(0), Some(1), None).attribute_layout();
    assert_eq!(pos_tex.len(), 2);
    assert_eq!(pos_tex.stride(), 20);
    assert_eq!(pos_tex.attribute(0).index, 0);
    assert_eq!(pos_tex.attribute(1).index, 2);

    let none = FaceLayout::new(None, None, None).attribute_layout();
    assert_eq!(none.len(), 0);
    assert_eq!(none.stride(), 0);
}

#[test]
fn update_indicies_appends_per_configured_channel() {
    let layout = FaceLayout::new(Some(0), Some(1), Some(2));
    let mut verts: Vec<u32> = Vec::new();
    let mut norms: Vec<u32> = Vec::new();
    let mut tex: Vec<u32> = Vec::new();
    layout.update_indicies(&mut verts, &mut norms, &mut tex, &vec![10, 20, 30]);
    assert_eq!(verts, vec![10]);
    assert_eq!(tex, vec![20]);
    assert_eq!(norms, vec![30]);

    let partial = FaceLayout::new(Some(1), None, None);
    layout.update_indicies(&mut verts, &mut norms, &mut tex, &vec![11, 21, 31]);
    partial.update_indicies(&mut verts, &mut norms, &mut tex, &vec![7, 8]);
    assert_eq!(verts, vec![10, 11, 8]);
    assert_eq!(norms, vec![30, 31]);
    assert_eq!(tex, vec![20, 21]);
}

#[test]
fn make_verticies_interleaves_in_channel_order() {
    let layout = FaceLayout::new(Some(0), None, Some(1));
    let mut verts = vec![
        vec![b"0".to_vec(), b"0".to_vec(), b"0".to_vec()],
        vec![b"1".to_vec(), b"0".to_vec(), b"0".to_vec()],
    ];
    let mut norms = vec![vec![b"0".to_vec(), b"0".to_vec(), b"1".to_vec()]];
    let mut tex: Vec<Vec<Vec<u8>>> = Vec::new();
    let vert_indicies: Vec<u32> = vec![1, 0];
    let norm_indicies: Vec<u32> = vec![0, 0];
    let tex_indicies: Vec<u32> = Vec::new();
    let buffer = layout.make_verticies(
        &mut verts,
        &mut norms,
        &mut tex,
        &vert_indicies,
        &norm_indicies,
        &tex_indicies,
    );
    let expected: Vec<Vec<u8>> = ["1", "0", "0", "0", "0", "1", "0", "0", "0", "0", "0", "1"]
        .iter()
        .map(|w| w.as_bytes().to_vec())
        .collect();
    assert_eq!(buffer, expected);
}

#[test]
fn mesh_owns_what_it_was_built_from() {
    let layout = VertexAttributeLayout::new(vec![VertexAttribute::new(0, 3, 12, FLOAT_TYPE)]);
    let mesh = TriangleMesh::from_array_indicies(
        vec![b"1".to_vec()],
        vec![0, 1, 2],
        vec![3],
        vec![4],
        layout,
    );
    assert_eq!(mesh.verticies, vec![b"1".to_vec()]);
    assert_eq!(mesh.vertex_indicies, vec![0, 1, 2]);
    assert_eq!(mesh.normal_indicies, vec![3]);
    assert_eq!(mesh.texture_indicies, vec![4]);
    assert_eq!(mesh.vertex_attrib_layout.stride(), 12);
}

#[test]
fn obj_type_equality() {
    assert_eq!(ObjType::VERTEX, ObjType::VERTEX);
    assert_ne!(ObjType::VERTEX, ObjType::NORMAL);
    assert_ne!(ObjType::TEXTURE, ObjType::NORMAL);
}
