//! End-to-end tests of the PRIM transcoder: byte-level scenarios for the
//! version translation policy, round trips, boundary behaviors, and the
//! little-endian stream primitives.
use primport::io::{align, read_u16, read_u32, read_u8_array, write_u16, write_u32};
use primport::prim::{
    BoneIndices, Cloth, Collision, Indices, Object, Prim, SPrimHeader, SPrimMesh,
    SPrimMeshWeighted, SPrimObject, SPrimObjectHeader, SPrimSubMesh, Vertices,
};
use primport::GameVersion;

fn bb3() -> Vec<u32> {
    vec![0x3f800000, 0x40000000, 0x40400000]
}

fn object(draw_destination: u8, flags: u8, color1: Option<u32>) -> SPrimObject {
    SPrimObject {
        header: SPrimHeader { draw_destination, pack_type: 0, prim_type: 2 },
        sub_type: 0,
        flags,
        lod_mask: 0xFF,
        variant_id: 0,
        bias: 0,
        offset: 0,
        material_id: 7,
        wire_color: 0x11223344,
        color1,
        bounding_box_min: bb3(),
        bounding_box_max: bb3(),
    }
}

fn empty_sub_mesh(color1: Option<u32>) -> SPrimSubMesh {
    SPrimSubMesh {
        object: object(0, 0, color1),
        num_vertices: 0,
        offset_vertices: 0,
        vertices: None,
        num_indices: 0,
        num_indices_extra: None,
        offset_indices: 0,
        indices: None,
        offset_collision: 0,
        collision: None,
        offset_cloth: 0,
        cloth: None,
        num_uv_channels: 1,
    }
}

fn mesh(obj: SPrimObject, sub_mesh: SPrimSubMesh, cloth_id: u8) -> SPrimMesh {
    SPrimMesh {
        object: obj,
        sub_mesh_table: 0,
        sub_mesh,
        position_scale: vec![1, 2, 3, 4],
        position_bias: vec![5, 6, 7, 8],
        uv_scale: vec![9, 10],
        uv_bias: vec![11, 12],
        cloth_id,
        pad: vec![0, 0, 0],
    }
}

fn header(header_flags: u32, objects: Vec<Object>) -> SPrimObjectHeader {
    SPrimObjectHeader {
        header: SPrimHeader { draw_destination: 0, pack_type: 0, prim_type: 1 },
        header_flags,
        bone_rig_resource_index: 0xFFFFFFFF,
        num_objects: objects.len() as u32,
        object_table: 0,
        bounding_box_min: bb3(),
        bounding_box_max: bb3(),
        objects,
    }
}

fn weighted(m: SPrimMesh, bone_indices: Option<BoneIndices>) -> SPrimMeshWeighted {
    let offset_bone_indices = if bone_indices.is_some() { 0x40 } else { 0 };
    SPrimMeshWeighted {
        mesh: m,
        num_copy_bones: 0,
        offset_copy_bones: 0,
        copy_bones: None,
        offset_bone_indices,
        bone_indices,
        offset_bone_info: 0,
        bone_info: None,
    }
}

fn le32_of(b: &[u8]) -> u32 {
    b[0] as u32 + 256 * b[1] as u32 + 65536 * b[2] as u32 + 16777216 * b[3] as u32
}

#[test]
fn empty_file_is_header_only() {
    let p = Prim { header: header(0, vec![]) };
    let out = p.write(GameVersion::Woa, false);
    assert_eq!(out.len(), 64);
    assert_eq!(out.len() % 16, 0);
    assert_eq!(le32_of(&out[0..4]), 16);
    let back = Prim::read(&out, GameVersion::Woa).unwrap();
    assert_eq!(back.header.num_objects, 0);
    assert_eq!(back.header.objects.len(), 0);
}

#[test]
fn color1_dropped_on_alpha_downgrade() {
    let mut sm = empty_sub_mesh(Some(0));
    sm.object.color1 = Some(0);
    let m = mesh(object(0, 0, Some(0xDEADBEEF)), sm, 0);
    let p = Prim { header: header(0, vec![Object::Mesh(m)]) };
    let out = p.write(GameVersion::Alpha, false);
    // No window of the output holds the dropped color1 word.
    let needle = [0xEFu8, 0xBE, 0xAD, 0xDE];
    assert!(!out.windows(4).any(|w| w == needle));
    let back = Prim::read(&out, GameVersion::Alpha).unwrap();
    match &back.header.objects[0] {
        Object::Mesh(m2) => assert!(m2.object.color1.is_none()),
        _ => panic!("expected a plain mesh"),
    }
}

#[test]
fn extra_indices_blob_preserved_on_alpha_downgrade() {
    let indices: Vec<u16> = (0..126u16).collect();
    let mut sm = empty_sub_mesh(Some(0));
    sm.num_indices = 120;
    sm.num_indices_extra = Some(6);
    sm.offset_indices = 0x100;
    sm.indices = Some(Indices { indices: indices.clone() });
    let m = mesh(object(0, 0, Some(0)), sm, 0);
    let p = Prim { header: header(0, vec![Object::Mesh(m)]) };
    let out = p.write(GameVersion::Alpha, false);
    // The index payload is the first record, at position 16: all 126 entries
    // survive byte for byte even though the extra count itself is dropped.
    for (i, v) in indices.iter().enumerate() {
        let at = 16 + 2 * i;
        assert_eq!(out[at] as u16 + 256 * out[at + 1] as u16, *v);
    }
    let back = Prim::read(&out, GameVersion::Alpha).unwrap();
    match &back.header.objects[0] {
        Object::Mesh(m2) => {
            assert_eq!(m2.sub_mesh.num_indices, 120);
            assert!(m2.sub_mesh.num_indices_extra.is_none());
            // An ALPHA reader sees only the declared 120 indices.
            assert_eq!(m2.sub_mesh.indices.as_ref().unwrap().indices.len(), 120);
        },
        _ => panic!("expected a plain mesh"),
    }
}

#[test]
fn alpha_weighted_draw_destination_masked() {
    let m = mesh(object(0x83, 0, Some(0)), empty_sub_mesh(Some(0)), 0);
    let p = Prim { header: header(8, vec![Object::MeshWeighted(weighted(m, None))]) };
    let out = p.write(GameVersion::Alpha, false);
    let back = Prim::read(&out, GameVersion::Alpha).unwrap();
    match &back.header.objects[0] {
        Object::MeshWeighted(w) => {
            assert_eq!(w.mesh.object.header.draw_destination, 0x03);
        },
        _ => panic!("expected a weighted mesh"),
    }
}

#[test]
fn alpha_plain_draw_destination_forced() {
    let m = mesh(object(0x42, 0, Some(0)), empty_sub_mesh(Some(0)), 0);
    let p = Prim { header: header(0, vec![Object::Mesh(m)]) };
    let out = p.write(GameVersion::Alpha, false);
    let back = Prim::read(&out, GameVersion::Alpha).unwrap();
    match &back.header.objects[0] {
        Object::Mesh(m2) => assert_eq!(m2.object.header.draw_destination, 0x81),
        _ => panic!("expected a plain mesh"),
    }
}

#[test]
fn woa_output_stores_one_uv_channel() {
    let mut sm = empty_sub_mesh(Some(0));
    sm.num_uv_channels = 4;
    let m = mesh(object(0, 0, Some(0)), sm, 0);
    let p = Prim { header: header(0, vec![Object::Mesh(m)]) };
    let out = p.write(GameVersion::Woa, false);
    let back = Prim::read(&out, GameVersion::Woa).unwrap();
    match &back.header.objects[0] {
        Object::Mesh(m2) => assert_eq!(m2.sub_mesh.num_uv_channels, 1),
        _ => panic!("expected a plain mesh"),
    }
}

#[test]
fn cloth_drop_keeps_only_payload_or_clean_objects() {
    // Object A declares a cloth id but has no payload: dropped.
    let ma = mesh(object(0, 0, Some(0)), empty_sub_mesh(Some(0)), 0x81);
    // Object B carries a cloth payload: kept.
    let mut smb = empty_sub_mesh(Some(0));
    smb.offset_cloth = 0x200;
    smb.cloth = Some(Cloth { data: vec![2, 0, 0, 0, 9, 9] });
    let mb = mesh(object(0, 0, Some(0)), smb, 0x80);
    let p = Prim {
        header: header(
            8,
            vec![
                Object::MeshWeighted(weighted(ma, None)),
                Object::MeshWeighted(weighted(mb, None)),
            ],
        ),
    };
    let out = p.write(GameVersion::Woa, true);
    let back = Prim::read(&out, GameVersion::Woa).unwrap();
    assert_eq!(back.header.num_objects, 1);
    match &back.header.objects[0] {
        Object::MeshWeighted(w) => {
            assert_eq!(w.mesh.cloth_id, 0x80);
            assert_eq!(w.mesh.sub_mesh.cloth.as_ref().unwrap().data, vec![2, 0, 0, 0, 9, 9]);
        },
        _ => panic!("expected a weighted mesh"),
    }
}

#[test]
fn cloth_drop_keeps_weighted_object_without_cloth_id() {
    // offset_cloth == 0 and cloth_id == 0: retained under the drop.
    let m = mesh(object(0, 0, Some(0)), empty_sub_mesh(Some(0)), 0);
    let p = Prim { header: header(8, vec![Object::MeshWeighted(weighted(m, None))]) };
    let out = p.write(GameVersion::Woa, true);
    let back = Prim::read(&out, GameVersion::Woa).unwrap();
    assert_eq!(back.header.num_objects, 1);
}

#[test]
fn bone_index_count_widens_to_alpha_and_woa_encodings() {
    let bones: Vec<u16> = (100..110u16).collect();
    let m = mesh(object(0, 0, None), empty_sub_mesh(None), 0);
    let p = Prim {
        header: header(
            8,
            vec![Object::MeshWeighted(weighted(m, Some(BoneIndices { data: bones.clone() })))],
        ),
    };
    // WOA output: the stored count prefix is the 32-bit value 12.
    let out = p.write(GameVersion::Woa, false);
    let back = Prim::read(&out, GameVersion::Woa).unwrap();
    match &back.header.objects[0] {
        Object::MeshWeighted(w) => {
            let off = w.offset_bone_indices as usize;
            assert_eq!(le32_of(&out[off..off + 4]), 12);
            assert_eq!(w.bone_indices.as_ref().unwrap().data, bones);
        },
        _ => panic!("expected a weighted mesh"),
    }
    // ALPHA output: the stored count prefix is the 16-bit value 11.
    let out2 = p.write(GameVersion::Alpha, false);
    let back2 = Prim::read(&out2, GameVersion::Alpha).unwrap();
    match &back2.header.objects[0] {
        Object::MeshWeighted(w) => {
            let off = w.offset_bone_indices as usize;
            assert_eq!(out2[off] as u16 + 256 * out2[off + 1] as u16, 11);
            assert_eq!(w.bone_indices.as_ref().unwrap().data, bones);
        },
        _ => panic!("expected a weighted mesh"),
    }
}

#[test]
fn zero_vertex_sub_mesh_emits_no_payload() {
    let mut sm = empty_sub_mesh(Some(0));
    sm.num_vertices = 0;
    let m = mesh(object(0, 0, Some(0)), sm, 0);
    let p = Prim { header: header(0, vec![Object::Mesh(m)]) };
    let out = p.write(GameVersion::Woa, false);
    let back = Prim::read(&out, GameVersion::Woa).unwrap();
    match &back.header.objects[0] {
        Object::Mesh(m2) => {
            assert_eq!(m2.sub_mesh.offset_vertices, 0);
            assert!(m2.sub_mesh.vertices.is_none());
        },
        _ => panic!("expected a plain mesh"),
    }
}

fn rich_tree() -> Prim {
    let vertices = Vertices {
        positions: vec![1, 2, 3, 4, 5, 6, 7, 8],
        weights: vec![],
        normals: vec![0x01020304, 0x05060708],
        tangents: vec![0x11121314, 0x15161718],
        bitangents: vec![0x21222324, 0x25262728],
        uvs: vec![0x31323334, 0x35363738],
        colors: vec![0x41424344, 0x45464748],
    };
    let mut sm = empty_sub_mesh(Some(0));
    sm.num_vertices = 2;
    sm.offset_vertices = 0x30;
    sm.vertices = Some(vertices);
    sm.num_indices = 3;
    sm.num_indices_extra = Some(0);
    sm.offset_indices = 0x20;
    sm.indices = Some(Indices { indices: vec![0, 1, 2] });
    sm.offset_collision = 0x40;
    sm.collision = Some(Collision { bounding_boxes: vec![1, 2, 3, 4, 5, 6], triangles_per_box: 9 });
    let m = mesh(object(0x05, 0, Some(0xABCD0123)), sm, 0);
    Prim { header: header(0, vec![Object::Mesh(m)]) }
}

#[test]
fn identity_transcode_round_trips_structure() {
    let p = rich_tree();
    let out = p.write(GameVersion::Woa, false);
    let back = Prim::read(&out, GameVersion::Woa).unwrap();
    match (&p.header.objects[0], &back.header.objects[0]) {
        (Object::Mesh(a), Object::Mesh(b)) => {
            assert_eq!(b.object.material_id, a.object.material_id);
            assert_eq!(b.object.wire_color, a.object.wire_color);
            assert_eq!(b.object.color1, a.object.color1);
            assert_eq!(b.position_scale, a.position_scale);
            assert_eq!(b.position_bias, a.position_bias);
            assert_eq!(b.uv_scale, a.uv_scale);
            assert_eq!(b.uv_bias, a.uv_bias);
            assert_eq!(b.sub_mesh.num_vertices, a.sub_mesh.num_vertices);
            let va = a.sub_mesh.vertices.as_ref().unwrap();
            let vb = b.sub_mesh.vertices.as_ref().unwrap();
            assert_eq!(vb.positions, va.positions);
            assert_eq!(vb.normals, va.normals);
            assert_eq!(vb.tangents, va.tangents);
            assert_eq!(vb.bitangents, va.bitangents);
            assert_eq!(vb.uvs, va.uvs);
            assert_eq!(vb.colors, va.colors);
            assert_eq!(
                b.sub_mesh.indices.as_ref().unwrap().indices,
                a.sub_mesh.indices.as_ref().unwrap().indices
            );
            let ca = a.sub_mesh.collision.as_ref().unwrap();
            let cb = b.sub_mesh.collision.as_ref().unwrap();
            assert_eq!(cb.bounding_boxes, ca.bounding_boxes);
            assert_eq!(cb.triangles_per_box, ca.triangles_per_box);
        },
        _ => panic!("expected plain meshes"),
    }
}

#[test]
fn identity_transcode_is_idempotent() {
    let p = rich_tree();
    let once = p.write(GameVersion::Woa, false);
    let back = Prim::read(&once, GameVersion::Woa).unwrap();
    let twice = back.write(GameVersion::Woa, false);
    assert_eq!(twice, once);
}

#[test]
fn every_record_offset_is_aligned() {
    let p = rich_tree();
    let out = p.write(GameVersion::Woa, false);
    assert_eq!(out.len() % 16, 0);
    let main = le32_of(&out[0..4]) as usize;
    assert_eq!(main % 16, 0);
    let back = Prim::read(&out, GameVersion::Woa).unwrap();
    match &back.header.objects[0] {
        Object::Mesh(m2) => {
            assert_eq!(m2.sub_mesh_table % 16, 0);
            assert_eq!(m2.sub_mesh.offset_vertices % 16, 0);
            assert_eq!(m2.sub_mesh.offset_indices % 16, 0);
            assert_eq!(m2.sub_mesh.offset_collision % 16, 0);
            // Every stored offset points backward at an already-written record.
            assert!((m2.sub_mesh.offset_indices as usize) < out.len());
            assert!((m2.sub_mesh.offset_vertices as usize) < out.len());
        },
        _ => panic!("expected a plain mesh"),
    }
}

#[test]
fn malformed_input_is_rejected() {
    assert!(Prim::read(&vec![], GameVersion::Woa).is_none());
    assert!(Prim::read(&vec![1, 2, 3], GameVersion::Woa).is_none());
    // A main offset past the end of the buffer.
    assert!(Prim::read(&vec![0xFF, 0, 0, 0, 0, 0, 0, 0], GameVersion::Woa).is_none());
}

#[test]
fn hma_output_of_alpha_style_tree_parses_nowhere_extended() {
    // HMA files can be written, never read as HMA; the bytes still parse as
    // ALPHA since the two layouts agree.
    let m = mesh(object(0x05, 0, None), empty_sub_mesh(None), 0);
    let p = Prim { header: header(0, vec![Object::Mesh(m)]) };
    let out = p.write(GameVersion::Hma, false);
    let back = Prim::read(&out, GameVersion::Alpha).unwrap();
    assert_eq!(back.header.num_objects, 1);
}

#[test]
fn align_pads_with_zeros_to_boundary() {
    let mut v: Vec<u8> = vec![1, 2, 3];
    align(&mut v, 0x10);
    assert_eq!(v.len(), 16);
    assert_eq!(&v[3..], &[0u8; 13]);
    // Already aligned: nothing is appended.
    align(&mut v, 0x10);
    assert_eq!(v.len(), 16);
}

#[test]
fn little_endian_words_round_trip() {
    let mut v: Vec<u8> = Vec::new();
    write_u16(&mut v, 0xBEEF);
    write_u32(&mut v, 0xCAFEBABE);
    assert_eq!(v, vec![0xEF, 0xBE, 0xBE, 0xBA, 0xFE, 0xCA]);
    let mut pos: usize = 0;
    assert_eq!(read_u16(&v, &mut pos), Some(0xBEEF));
    assert_eq!(read_u32(&v, &mut pos), Some(0xCAFEBABE));
    assert_eq!(read_u32(&v, &mut pos), None);
    pos = 2;
    assert_eq!(read_u8_array(&v, &mut pos, 4), Some(vec![0xBE, 0xBA, 0xFE, 0xCA]));
}

#[test]
fn version_codes_round_trip() {
    for v in [GameVersion::Hma, GameVersion::Alpha, GameVersion::Hm2016, GameVersion::Woa] {
        assert_eq!(GameVersion::from_code(v.code()), Some(v));
    }
    assert_eq!(GameVersion::from_code(4), None);
    assert!(GameVersion::Woa.extended_layout());
    assert!(GameVersion::Hm2016.extended_layout());
    assert!(!GameVersion::Alpha.extended_layout());
    assert!(!GameVersion::Hma.extended_layout());
}

#[test]
fn alpha_output_uses_alternate_packing_and_round_trips() {
    // Writing a plain mesh for ALPHA forces draw destination 0x81, whose high
    // bit selects the alternate per-vertex interleaving; reading the output
    // back exercises that layout.
    let p = rich_tree();
    let out = p.write(GameVersion::Alpha, false);
    let back = Prim::read(&out, GameVersion::Alpha).unwrap();
    match (&p.header.objects[0], &back.header.objects[0]) {
        (Object::Mesh(a), Object::Mesh(b)) => {
            assert_eq!(b.object.header.draw_destination, 0x81);
            let va = a.sub_mesh.vertices.as_ref().unwrap();
            let vb = b.sub_mesh.vertices.as_ref().unwrap();
            assert_eq!(vb.positions, va.positions);
            assert_eq!(vb.normals, va.normals);
            assert_eq!(vb.tangents, va.tangents);
            assert_eq!(vb.bitangents, va.bitangents);
            assert_eq!(vb.uvs, va.uvs);
            assert_eq!(vb.colors, va.colors);
        },
        _ => panic!("expected plain meshes"),
    }
    // Transcoding the ALPHA file back to WOA restores the WOA byte layout.
    let woa = back.write(GameVersion::Woa, false);
    let again = Prim::read(&woa, GameVersion::Woa).unwrap();
    match &again.header.objects[0] {
        Object::Mesh(m2) => {
            let v2 = m2.sub_mesh.vertices.as_ref().unwrap();
            let va = match &p.header.objects[0] {
                Object::Mesh(a) => a.sub_mesh.vertices.as_ref().unwrap(),
                _ => panic!("expected a plain mesh"),
            };
            assert_eq!(v2.positions, va.positions);
            assert_eq!(v2.uvs, va.uvs);
        },
        _ => panic!("expected a plain mesh"),
    }
}

#[test]
fn hi_res_positions_round_trip() {
    // Object flags bit 3: positions are three raw float words per vertex,
    // stored as six 16-bit words each.
    let vertices = Vertices {
        positions: vec![10, 11, 12, 13, 14, 15, 20, 21, 22, 23, 24, 25],
        weights: vec![],
        normals: vec![1, 2],
        tangents: vec![3, 4],
        bitangents: vec![5, 6],
        uvs: vec![7, 8],
        colors: vec![9, 10],
    };
    let mut sm = empty_sub_mesh(Some(0));
    sm.num_vertices = 2;
    sm.offset_vertices = 0x30;
    sm.vertices = Some(vertices);
    let m = mesh(object(0, 8, Some(0)), sm, 0);
    let p = Prim { header: header(0, vec![Object::Mesh(m)]) };
    let out = p.write(GameVersion::Woa, false);
    let back = Prim::read(&out, GameVersion::Woa).unwrap();
    match &back.header.objects[0] {
        Object::Mesh(m2) => {
            let v = m2.sub_mesh.vertices.as_ref().unwrap();
            assert_eq!(v.positions, vec![10, 11, 12, 13, 14, 15, 20, 21, 22, 23, 24, 25]);
        },
        _ => panic!("expected a plain mesh"),
    }
}

#[test]
fn broadcast_color_fills_every_vertex() {
    // Sub-mesh flags bit 5: no per-vertex colors are stored; the sub-mesh's
    // own color1 is broadcast to all vertices on read.
    let vertices = Vertices {
        positions: vec![1, 2, 3, 4, 5, 6, 7, 8],
        weights: vec![],
        normals: vec![1, 2],
        tangents: vec![3, 4],
        bitangents: vec![5, 6],
        uvs: vec![7, 8],
        colors: vec![111, 222],
    };
    let mut sm = empty_sub_mesh(Some(0xAABBCCDD));
    sm.object.flags = 0x20;
    sm.num_vertices = 2;
    sm.offset_vertices = 0x30;
    sm.vertices = Some(vertices);
    let m = mesh(object(0, 0, Some(0)), sm, 0);
    let p = Prim { header: header(0, vec![Object::Mesh(m)]) };
    let out = p.write(GameVersion::Woa, false);
    let back = Prim::read(&out, GameVersion::Woa).unwrap();
    match &back.header.objects[0] {
        Object::Mesh(m2) => {
            let v = m2.sub_mesh.vertices.as_ref().unwrap();
            assert_eq!(v.colors, vec![0xAABBCCDD, 0xAABBCCDD]);
        },
        _ => panic!("expected a plain mesh"),
    }
}

#[test]
fn weighted_payloads_round_trip() {
    let vertices = Vertices {
        positions: vec![1, 2, 3, 4, 5, 6, 7, 8],
        weights: (0..24u8).collect(),
        normals: vec![1, 2],
        tangents: vec![3, 4],
        bitangents: vec![5, 6],
        uvs: vec![7, 8],
        colors: vec![111, 222],
    };
    let mut sm = empty_sub_mesh(Some(0));
    sm.num_vertices = 2;
    sm.offset_vertices = 0x30;
    sm.vertices = Some(vertices);
    let m = mesh(object(0, 0, Some(0)), sm, 0);
    let mut w = weighted(m, Some(primport::prim::BoneIndices { data: vec![7, 8, 9] }));
    w.num_copy_bones = 2;
    w.offset_copy_bones = 0x50;
    w.copy_bones = Some(primport::prim::CopyBones { data: vec![1, 2, 3, 4] });
    w.offset_bone_info = 0x60;
    w.bone_info = Some(primport::prim::BoneInfo { data: vec![6, 0, 0xAA, 0xBB, 0xCC, 0xDD] });
    let p = Prim { header: header(8, vec![Object::MeshWeighted(w)]) };
    let out = p.write(GameVersion::Woa, false);
    let back = Prim::read(&out, GameVersion::Woa).unwrap();
    match &back.header.objects[0] {
        Object::MeshWeighted(w2) => {
            assert_eq!(w2.num_copy_bones, 2);
            assert_eq!(w2.copy_bones.as_ref().unwrap().data, vec![1, 2, 3, 4]);
            assert_eq!(w2.bone_indices.as_ref().unwrap().data, vec![7, 8, 9]);
            assert_eq!(
                w2.bone_info.as_ref().unwrap().data,
                vec![6, 0, 0xAA, 0xBB, 0xCC, 0xDD]
            );
            let v = w2.mesh.sub_mesh.vertices.as_ref().unwrap();
            assert_eq!(v.weights, (0..24u8).collect::<Vec<u8>>());
            assert_eq!(v.colors, vec![111, 222]);
        },
        _ => panic!("expected a weighted mesh"),
    }
}

#[test]
fn truncated_file_is_rejected() {
    // Cutting a valid file anywhere inside a payload or header makes the
    // parse fail rather than return a partial tree.
    let p = rich_tree();
    let out = p.write(GameVersion::Woa, false);
    assert!(Prim::read(&out, GameVersion::Woa).is_some());
    let truncated: Vec<u8> = out[..out.len() - 20].to_vec();
    assert!(Prim::read(&truncated, GameVersion::Woa).is_none());
    let beheaded: Vec<u8> = out[..20].to_vec();
    assert!(Prim::read(&beheaded, GameVersion::Woa).is_none());
}
