//! The PRIM record tree: one owned value per record of the file format, the
//! well-formedness predicates the writer relies on, and the version
//! translation policy (draw-destination rewrite, UV-channel count, cloth
//! retention, bone-count encoding).
//!
//! Fields the engine stores as 32-bit floats (bounding boxes, scale and bias
//! vectors, hi-res positions) are carried as raw little-endian bit patterns;
//! the transcoder copies them and never interprets them.
use crate::GameVersion;
use vstd::prelude::*;

verus! {

// ---------------------------------------------------------------------------
// Flag bits
// ---------------------------------------------------------------------------
/// Bit 3 of the file-level `header_flags`: every child object is weighted.
pub open spec fn is_weighted_flags(header_flags: u32) -> bool {
    header_flags & 8 == 8
}

/// Bit 7 of a draw destination selects the alternate per-vertex interleaving.
pub open spec fn alt_packing(draw_destination: u8) -> bool {
    draw_destination & 0x80 == 0x80
}

/// Bit 3 of an object's flags selects full-width positions over quantized
/// ones.
pub open spec fn hi_res_flags(flags: u8) -> bool {
    flags & 8 == 8
}

/// Bit 5 of an object's flags: a single `color1` value stands in for the
/// per-vertex color array.
pub open spec fn color1_flag(flags: u8) -> bool {
    flags & 0x20 == 0x20
}

/// Bit 7 of a mesh's cloth id selects the length-prefixed cloth payload over
/// the fixed-size one.
pub open spec fn cloth_small(cloth_id: u8) -> bool {
    cloth_id & 0x80 == 0x80
}

/// Words per vertex of the position stream: three raw floats stored as six
/// 16-bit words when hi-res, else four quantized 16-bit words.
pub open spec fn pos_words(hi_res: bool) -> int {
    if hi_res {
        6
    } else {
        4
    }
}

// ---------------------------------------------------------------------------
// Version translation policy
// ---------------------------------------------------------------------------
/// The draw destination actually stored when writing for `v`: targeting ALPHA
/// keeps the low nibble on weighted files and forces `0x81` otherwise; every
/// other target keeps the low nibble.
pub open spec fn spec_get_draw_destination(header_flags: u32, draw_destination: u8, v: GameVersion) -> u8 {
    if v == GameVersion::Alpha {
        if is_weighted_flags(header_flags) {
            draw_destination & 0xF
        } else {
            0x81
        }
    } else {
        draw_destination & 0xF
    }
}

/// The `num_uv_channels` stored when writing for `v`: always 1 for WOA, else
/// 0 on weighted files and 1 otherwise.
pub open spec fn spec_num_uv_channels(v: GameVersion, weighted: bool) -> u32 {
    if v == GameVersion::Woa {
        1
    } else if weighted {
        0
    } else {
        1
    }
}

/// Whether a weighted object survives the optional cloth drop: everything is
/// kept unless `no_cloth` is set; under `no_cloth` an object is kept when it
/// has a cloth payload, or has neither payload nor cloth id.
pub open spec fn spec_keep_object(no_cloth: bool, offset_cloth: u32, cloth_id: u8) -> bool {
    !no_cloth || offset_cloth > 0 || (offset_cloth == 0 && cloth_id == 0)
}

/// Whether a bone-index list of `n` entries can be given a count prefix for
/// output version `v` (the prefix stores `n + 1` as 16 bits on the early
/// generations and `n + 2` as 32 bits on the later ones).
pub open spec fn bone_count_fits(n: int, v: GameVersion) -> bool {
    if v.spec_extended_layout() {
        n + 2 <= 0xFFFFFFFF
    } else {
        n + 1 <= 0xFFFF
    }
}

// ---------------------------------------------------------------------------
// Records
// ---------------------------------------------------------------------------
/// The 4-byte prefix every record starts with.
pub struct SPrimHeader {
    pub draw_destination: u8,
    pub pack_type: u8,
    pub prim_type: u16,
}

/// The common object record: flags, material, wire color, the optional
/// `color1` word (present on disk for HM2016/WOA only) and two bounding-box
/// corners of three raw float words each.
pub struct SPrimObject {
    pub header: SPrimHeader,
    pub sub_type: u8,
    pub flags: u8,
    pub lod_mask: u8,
    pub variant_id: u8,
    pub bias: u8,
    pub offset: u8,
    pub material_id: u16,
    pub wire_color: u32,
    pub color1: Option<u32>,
    pub bounding_box_min: Vec<u32>,
    pub bounding_box_max: Vec<u32>,
}

impl SPrimObject {
    pub open spec fn wf(self) -> bool {
        &&& self.bounding_box_min@.len() == 3
        &&& self.bounding_box_max@.len() == 3
    }
}

/// The per-vertex attribute streams of one sub-mesh, kept exactly as stored:
/// positions as 16-bit words (four quantized words, or six words holding
/// three raw floats, per vertex), the weight/bone block as twelve raw bytes
/// per vertex, and normals, tangents, bitangents, UV pairs and colors as one
/// 32-bit word per vertex each.
pub struct Vertices {
    pub positions: Vec<u16>,
    pub weights: Vec<u8>,
    pub normals: Vec<u32>,
    pub tangents: Vec<u32>,
    pub bitangents: Vec<u32>,
    pub uvs: Vec<u32>,
    pub colors: Vec<u32>,
}

impl Vertices {
    /// Stream lengths agree with the vertex count and the layout flags.
    /// `has_colors` says whether the color stream is populated (it is when the
    /// file is weighted or the mesh has no object-level `color1`).
    pub open spec fn wf(self, n: int, hi_res: bool, weighted: bool, has_colors: bool) -> bool {
        &&& self.positions@.len() == n * pos_words(hi_res)
        &&& self.weights@.len() == if weighted {
            12 * n
        } else {
            0
        }
        &&& self.normals@.len() == n
        &&& self.tangents@.len() == n
        &&& self.bitangents@.len() == n
        &&& self.uvs@.len() == n
        &&& self.colors@.len() == if has_colors {
            n
        } else {
            0
        }
    }
}

/// The index payload: 16-bit indices, `num_indices + num_indices_extra` of
/// them.
pub struct Indices {
    pub indices: Vec<u16>,
}

/// The collision payload: a triangle count per box and six bytes (two
/// three-byte corners) per bounding box, kept flat.
pub struct Collision {
    pub bounding_boxes: Vec<u8>,
    pub triangles_per_box: u16,
}

impl Collision {
    pub open spec fn wf(self) -> bool {
        &&& self.bounding_boxes@.len() % 6 == 0
        &&& self.bounding_boxes@.len() / 6 <= 0xFFFF
    }
}

/// The cloth payload, an opaque blob (its leading length word, when the cloth
/// id selects the length-prefixed form, is part of the blob).
pub struct Cloth {
    pub data: Vec<u8>,
}

/// The copy-bones payload: two 32-bit words per copy bone.
pub struct CopyBones {
    pub data: Vec<u32>,
}

/// The bone-index payload: 16-bit entries; the on-disk count prefix is
/// version-encoded and recomputed on write.
pub struct BoneIndices {
    pub data: Vec<u16>,
}

/// The bone-info payload, an opaque blob whose first 16-bit word is its total
/// length in bytes.
pub struct BoneInfo {
    pub data: Vec<u8>,
}

/// The sub-mesh record: the attribute counts, the offsets as they stood in
/// the input file, and the materialized payloads.
pub struct SPrimSubMesh {
    pub object: SPrimObject,
    pub num_vertices: u32,
    pub offset_vertices: u32,
    pub vertices: Option<Vertices>,
    pub num_indices: u32,
    pub num_indices_extra: Option<u32>,
    pub offset_indices: u32,
    pub indices: Option<Indices>,
    pub offset_collision: u32,
    pub collision: Option<Collision>,
    pub offset_cloth: u32,
    pub cloth: Option<Cloth>,
    pub num_uv_channels: u32,
}

impl SPrimSubMesh {
    /// `num_indices_extra`, or zero where the input version had no such
    /// field.
    pub open spec fn extra_or_zero(self) -> u32 {
        match self.num_indices_extra {
            Some(x) => x,
            None => 0,
        }
    }

    /// Payload presence mirrors the offsets of the input file, and every
    /// payload is well formed against the owning mesh's flags.
    pub open spec fn wf(self, weighted: bool, mesh_flags: u8) -> bool {
        &&& self.object.wf()
        &&& (self.vertices is Some <==> self.num_vertices > 0 && self.offset_vertices > 0)
        &&& (self.vertices matches Some(v) ==> v.wf(
            self.num_vertices as int,
            hi_res_flags(mesh_flags),
            weighted,
            weighted || !color1_flag(mesh_flags),
        ))
        &&& (self.indices is Some <==> self.num_indices > 0 && self.offset_indices > 0)
        &&& (self.indices matches Some(ind) ==> ind.indices@.len() == self.num_indices
            + self.extra_or_zero())
        &&& (self.collision is Some <==> self.offset_collision > 0)
        &&& (self.collision matches Some(c) ==> c.wf())
        &&& (self.cloth is Some ==> self.offset_cloth > 0)
    }
}

/// The mesh record: its object, exactly one sub-mesh reached through the
/// sub-mesh table, the quantization scale/bias vectors as raw float words,
/// and the cloth id.
pub struct SPrimMesh {
    pub object: SPrimObject,
    pub sub_mesh_table: u32,
    pub sub_mesh: SPrimSubMesh,
    pub position_scale: Vec<u32>,
    pub position_bias: Vec<u32>,
    pub uv_scale: Vec<u32>,
    pub uv_bias: Vec<u32>,
    pub cloth_id: u8,
    pub pad: Vec<u8>,
}

impl SPrimMesh {
    pub open spec fn wf(self, weighted: bool) -> bool {
        &&& self.object.wf()
        &&& self.position_scale@.len() == 4
        &&& self.position_bias@.len() == 4
        &&& self.uv_scale@.len() == 2
        &&& self.uv_bias@.len() == 2
        &&& self.pad@.len() == 3
        &&& self.sub_mesh.wf(weighted, self.object.flags)
    }
}

/// A weighted mesh: a mesh plus the three optional skeletal payloads.
pub struct SPrimMeshWeighted {
    pub mesh: SPrimMesh,
    pub num_copy_bones: u32,
    pub offset_copy_bones: u32,
    pub copy_bones: Option<CopyBones>,
    pub offset_bone_indices: u32,
    pub bone_indices: Option<BoneIndices>,
    pub offset_bone_info: u32,
    pub bone_info: Option<BoneInfo>,
}

impl SPrimMeshWeighted {
    pub open spec fn wf(self) -> bool {
        &&& self.mesh.wf(true)
        &&& (self.copy_bones is Some <==> self.num_copy_bones > 0 && self.offset_copy_bones > 0)
        &&& (self.copy_bones matches Some(cb) ==> cb.data@.len() == 2 * self.num_copy_bones)
        &&& (self.bone_indices is Some <==> self.offset_bone_indices > 0)
        &&& (self.bone_info is Some <==> self.offset_bone_info > 0)
    }

    /// The bone-index count prefix fits the output version's encoding.
    pub open spec fn bone_counts_fit(self, v: GameVersion) -> bool {
        self.bone_indices matches Some(b) ==> bone_count_fits(b.data@.len() as int, v)
    }
}

/// One child of the file header: a plain or a weighted mesh.
pub enum Object {
    Mesh(SPrimMesh),
    MeshWeighted(SPrimMeshWeighted),
}

impl Object {
    /// Shape and well-formedness as the file-level weighted flag demands:
    /// weighted files hold weighted meshes only, others plain meshes only.
    pub open spec fn wf(self, weighted: bool) -> bool {
        if weighted {
            self matches Object::MeshWeighted(w) && w.wf()
        } else {
            self matches Object::Mesh(m) && m.wf(false)
        }
    }
}

/// The file-level header: global flags, the object table, a bounding box of
/// raw float words, and the materialized child objects.
pub struct SPrimObjectHeader {
    pub header: SPrimHeader,
    pub header_flags: u32,
    pub bone_rig_resource_index: u32,
    pub num_objects: u32,
    pub object_table: u32,
    pub bounding_box_min: Vec<u32>,
    pub bounding_box_max: Vec<u32>,
    pub objects: Vec<Object>,
}

impl SPrimObjectHeader {
    pub open spec fn wf(self) -> bool {
        &&& self.bounding_box_min@.len() == 3
        &&& self.bounding_box_max@.len() == 3
        &&& self.objects@.len() == self.num_objects
        &&& forall|i: int|
            0 <= i < self.objects@.len() ==> self.objects@[i].wf(
                is_weighted_flags(self.header_flags),
            )
    }

    /// Every bone-index list of the tree fits the output version's count
    /// encoding.
    pub open spec fn bone_counts_fit(self, v: GameVersion) -> bool {
        forall|i: int|
            0 <= i < self.objects@.len() ==> match #[trigger] self.objects@[i] {
                Object::MeshWeighted(w) => w.bone_counts_fit(v),
                Object::Mesh(_) => true,
            }
    }

    /// Runtime test for the file-level weighted flag.
    pub fn is_weighted(&self) -> (r: bool)
        ensures
            r == is_weighted_flags(self.header_flags),
    {
        self.header_flags & 8 == 8
    }

    /// The draw destination stored when writing an object for
    /// `output_version`; see [`spec_get_draw_destination`].
    pub fn get_draw_destination(header_flags: u32, draw_destination: u8, output_version: GameVersion) -> (r: u8)
        ensures
            r == spec_get_draw_destination(header_flags, draw_destination, output_version),
    {
        match output_version {
            GameVersion::Alpha => {
                if header_flags & 8 == 8 {
                    draw_destination & 0xF
                } else {
                    0x81
                }
            },
            _ => draw_destination & 0xF,
        }
    }
}

/// A whole PRIM file, materialized.
pub struct Prim {
    pub header: SPrimObjectHeader,
}

impl Prim {
    pub open spec fn wf(self) -> bool {
        self.header.wf()
    }
}

// ---------------------------------------------------------------------------
// Laws of the version translation policy
// ---------------------------------------------------------------------------
/// Rewriting a draw destination twice for the same target changes nothing, so
/// an identity transcode applied to its own output stores the same draw
/// destinations again.
pub proof fn lemma_draw_destination_idempotent(header_flags: u32, draw_destination: u8, v: GameVersion)
    ensures
        spec_get_draw_destination(
            header_flags,
            spec_get_draw_destination(header_flags, draw_destination, v),
            v,
        ) == spec_get_draw_destination(header_flags, draw_destination, v),
{
    assert(forall|dd: u8| #[trigger] (dd & 0xF) & 0xF == dd & 0xF) by (bit_vector);
    assert(0x81u8 & 0xF == 1) by (bit_vector);
    if v == GameVersion::Alpha && !is_weighted_flags(header_flags) {
        assert(spec_get_draw_destination(header_flags, 0x81, v) == 0x81);
    }
}

/// Writing for WOA always stores one UV channel, whatever the input held.
pub proof fn lemma_woa_uv_channels(weighted: bool)
    ensures
        spec_num_uv_channels(GameVersion::Woa, weighted) == 1,
{
}

/// Under the cloth drop, a weighted object without a cloth payload survives
/// exactly when its cloth id is zero; objects with a payload always survive.
pub proof fn lemma_cloth_retention(offset_cloth: u32, cloth_id: u8)
    ensures
        spec_keep_object(true, 0, cloth_id) <==> cloth_id == 0,
        offset_cloth > 0 ==> spec_keep_object(true, offset_cloth, cloth_id),
        spec_keep_object(false, offset_cloth, cloth_id),
{
}

/// Targeting ALPHA keeps the low nibble of a weighted object's draw
/// destination and forces `0x81` on a plain one.
pub proof fn lemma_alpha_draw_destination(header_flags: u32, draw_destination: u8)
    ensures
        is_weighted_flags(header_flags) ==> spec_get_draw_destination(
            header_flags,
            draw_destination,
            GameVersion::Alpha,
        ) == draw_destination & 0xF,
        !is_weighted_flags(header_flags) ==> spec_get_draw_destination(
            header_flags,
            draw_destination,
            GameVersion::Alpha,
        ) == 0x81,
{
}

} // verus!
