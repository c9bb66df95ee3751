use objmesh::obj_parser::{obj_to_mesh, FaceLayout, MeshError, ObjType};

fn toks(words: &[&str]) -> Vec<Vec<u8>> {
    words.iter().map(|w| w.as_bytes().to_vec()).collect()
}

#[test]
fn scenario_position_only() {
    let content = b"v 0 0 0\nv 1 0 0\nv 0 1 0\nf 1/1/1 2/2/2 3/3/3";
    let layout = FaceLayout::new(Some(0), None, None);
    let mesh = obj_to_mesh(content, &layout).unwrap();
    assert_eq!(mesh.verticies, toks(&["0", "0", "0", "1", "0", "0", "0", "1", "0"]));
    assert_eq!(mesh.vertex_indicies, vec![0, 1, 2]);
    assert_eq!(mesh.normal_indicies, Vec::<u32>::new());
    assert_eq!(mesh.texture_indicies, Vec::<u32>::new());
}

#[test]
fn fourth_face_vertex_ignored() {
    let content = b"v 0 0 0\nv 1 0 0\nv 0 1 0\nv 1 1 1\nf 1 2 3 4";
    let layout = FaceLayout::new(Some(0), None, None);
    let mesh = obj_to_mesh(content, &layout).unwrap();
    assert_eq!(mesh.vertex_indicies, vec![0, 1, 2]);
    assert_eq!(mesh.verticies.len(), 9);
}

#[test]
fn one_based_indices_become_zero_based() {
    let content = b"v 5 5 5\nf 1 1 1";
    let layout = FaceLayout::new(Some(0), None, None);
    let mesh = obj_to_mesh(content, &layout).unwrap();
    assert_eq!(mesh.vertex_indicies, vec![0, 0, 0]);
}

#[test]
fn malformed_face_component_coerces_to_zero() {
    let content = b"v 7 8 9\nf abc 1 99999999999";
    let layout = FaceLayout::new(Some(0), None, None);
    let mesh = obj_to_mesh(content, &layout).unwrap();
    // "abc" fails to parse, the overlong number overflows: both become 0.
    assert_eq!(mesh.vertex_indicies, vec![0, 0, 0]);
}

#[test]
fn parsing_twice_is_bit_identical() {
    let content = b"v 0 0 0\nv 1 0 0\nv 0 1 0\nvt 0.5 0.5\nf 1/1 2/1 3/1\n";
    let layout = FaceLayout::new(Some(0), Some(1), None);
    let first = obj_to_mesh(content, &layout).unwrap();
    let second = obj_to_mesh(content, &layout).unwrap();
    assert_eq!(first.verticies, second.verticies);
    assert_eq!(first.vertex_indicies, second.vertex_indicies);
    assert_eq!(first.normal_indicies, second.normal_indicies);
    assert_eq!(first.texture_indicies, second.texture_indicies);
}

#[test]
fn position_only_round_trip_shape() {
    let content = b"v 0 0 0\nv 1 0 0\nv 0 1 0\nvn 1 0 0\nvt 0 1\nf 1/1/1 2/1/1 3/1/1\n";
    let layout = FaceLayout::new(Some(0), None, None);
    let mesh = obj_to_mesh(content, &layout).unwrap();
    assert!(mesh.normal_indicies.is_empty());
    assert!(mesh.texture_indicies.is_empty());
    assert_eq!(mesh.verticies.len(), 3 * mesh.vertex_indicies.len());
}

#[test]
fn three_indices_per_face_record() {
    let content = b"v 0 0 0\nv 1 0 0\nv 0 1 0\nvn 0 0 1\nvt 0 0\n\
f 1/1/1 2/1/1 3/1/1\nf 3/1/1 2/1/1 1/1/1";
    let layout = FaceLayout::new(Some(0), Some(1), Some(2));
    let mesh = obj_to_mesh(content, &layout).unwrap();
    assert_eq!(mesh.vertex_indicies.len(), 6);
    assert_eq!(mesh.normal_indicies.len(), 6);
    assert_eq!(mesh.texture_indicies.len(), 6);
    assert_eq!(mesh.vertex_indicies, vec![0, 1, 2, 2, 1, 0]);
}

#[test]
fn buffer_length_matches_configured_channels() {
    let content = b"v 0 0 0\nv 1 0 0\nv 0 1 0\nvt 0.25 0.75\nf 1/1 2/1 3/1";
    let layout = FaceLayout::new(Some(0), Some(1), None);
    let mesh = obj_to_mesh(content, &layout).unwrap();
    // 3 position scalars + 2 texture scalars per vertex, 3 vertices.
    assert_eq!(mesh.verticies.len(), 15);
    assert_eq!(mesh.vertex_attrib_layout.stride(), 20);
    assert_eq!(
        mesh.verticies,
        toks(&[
            "0", "0", "0", "0.25", "0.75", "1", "0", "0", "0.25", "0.75", "0", "1", "0", "0.25",
            "0.75",
        ])
    );
}

#[test]
fn unknown_and_blank_lines_are_skipped() {
    let content = b"# comment\n\no object\ns 1\nv 1 2 3\nusemtl a\nf 1 1 1\n";
    let layout = FaceLayout::new(Some(0), None, None);
    let mesh = obj_to_mesh(content, &layout).unwrap();
    assert_eq!(mesh.vertex_indicies, vec![0, 0, 0]);
    assert_eq!(mesh.verticies, toks(&["1", "2", "3", "1", "2", "3", "1", "2", "3"]));
}

#[test]
fn carriage_returns_are_field_separators() {
    let content = b"v 1 2 3\r\nf 1 1 1\r\n";
    let layout = FaceLayout::new(Some(0), None, None);
    let mesh = obj_to_mesh(content, &layout).unwrap();
    assert_eq!(mesh.verticies, toks(&["1", "2", "3", "1", "2", "3", "1", "2", "3"]));
}

#[test]
fn short_coordinate_record_is_fatal() {
    let content = b"v 1 2\nf 1 1 1";
    let layout = FaceLayout::new(Some(0), None, None);
    let err = obj_to_mesh(content, &layout).unwrap_err();
    assert_eq!(err, MeshError::CoordinateTooShort);
}

#[test]
fn malformed_coordinate_is_fatal() {
    let content = b"v 1 x 3";
    let layout = FaceLayout::new(Some(0), None, None);
    let err = obj_to_mesh(content, &layout).unwrap_err();
    assert_eq!(err, MeshError::BadCoordinate);
}

#[test]
fn short_face_record_is_fatal() {
    let content = b"v 1 2 3\nf 1 2";
    let layout = FaceLayout::new(Some(0), None, None);
    let err = obj_to_mesh(content, &layout).unwrap_err();
    assert_eq!(err, MeshError::FaceTooShort);
}

#[test]
fn configured_slot_beyond_tuple_is_fatal() {
    let content = b"v 1 2 3\nf 1/2 1/2 1/2";
    let layout = FaceLayout::new(Some(2), None, None);
    let err = obj_to_mesh(content, &layout).unwrap_err();
    assert_eq!(err, MeshError::FaceIndexMissing);
}

#[test]
fn index_past_coordinate_records_is_fatal() {
    let content = b"v 1 2 3\nf 5 5 5";
    let layout = FaceLayout::new(Some(0), None, None);
    let err = obj_to_mesh(content, &layout).unwrap_err();
    assert_eq!(err, MeshError::IndexOutOfRange);
}

#[test]
fn first_fatal_record_wins() {
    let content = b"v 1 x 3\nv 1 2\nf 1 2";
    let layout = FaceLayout::new(Some(0), None, None);
    let err = obj_to_mesh(content, &layout).unwrap_err();
    assert_eq!(err, MeshError::BadCoordinate);
}

#[test]
fn exotic_numeric_tokens_are_accepted() {
    let content = b"v .5 1. -2e3\nv +0.25 1.5E-2 inf\nv NaN -Infinity 0\nf 1 2 3";
    let layout = FaceLayout::new(Some(0), None, None);
    let mesh = obj_to_mesh(content, &layout).unwrap();
    assert_eq!(mesh.verticies.len(), 9);
    assert_eq!(mesh.verticies[0], b".5".to_vec());
    assert_eq!(mesh.verticies[5], b"inf".to_vec());
}

#[test]
fn normal_channel_alone() {
    let content = b"vn 0 0 1\nvn 0 1 0\nf //1 //2 //1";
    let layout = FaceLayout::new(None, None, Some(2));
    let mesh = obj_to_mesh(content, &layout).unwrap();
    assert_eq!(mesh.normal_indicies, vec![0, 1, 0]);
    assert!(mesh.vertex_indicies.is_empty());
    assert!(mesh.texture_indicies.is_empty());
    assert_eq!(
        mesh.verticies,
        toks(&["0", "0", "1", "0", "1", "0", "0", "0", "1"])
    );
}

#[test]
fn face_layout_slots_are_recorded() {
    let layout = FaceLayout::new(Some(0), Some(1), Some(2));
    assert_eq!(layout.slot(ObjType::VERTEX), Some(0));
    assert_eq!(layout.slot(ObjType::TEXTURE), Some(1));
    assert_eq!(layout.slot(ObjType::NORMAL), Some(2));
    let none = FaceLayout::new(None, None, None);
    assert_eq!(none.slot(ObjType::VERTEX), None);
}

#[test]
fn no_channels_configured_emits_nothing() {
    let content = b"v 1 2 3\nf 1 1 1";
    let layout = FaceLayout::new(None, None, None);
    let mesh = obj_to_mesh(content, &layout).unwrap();
    assert!(mesh.verticies.is_empty());
    assert!(mesh.vertex_indicies.is_empty());
}
