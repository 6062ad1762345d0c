//! Parsing: from a byte buffer to the record tree. Every reader takes the
//! whole buffer and a cursor, returns `None` on a malformed buffer (reads past
//! the end, impossible counts), and on success pins the result down by a
//! byte-correspondence: the serialised form of what was read equals the bytes
//! it was read from. Compound readers follow absolute offsets, as the format
//! links all records by them.
use crate::io::{
    le16_at, le32_at, lemma_le16_encode, lemma_le32_encode, lemma_seq_le16_of_bytes,
    lemma_seq_le32_of_bytes, lemma_subrange_concat, read_u16, read_u16_array, read_u32,
    read_u32_array, read_u8, read_u8_array, seq_le16, seq_le32,
};
use crate::prim::{
    alt_packing, cloth_small, color1_flag, hi_res_flags, is_weighted_flags, pos_words, BoneIndices,
    BoneInfo, Cloth, Collision, CopyBones, Indices, Object, Prim, SPrimHeader, SPrimMesh,
    SPrimMeshWeighted, SPrimObject, SPrimObjectHeader, SPrimSubMesh, Vertices,
};
use crate::writer::{
    bone_indices_body, collision_body, header4, object_emit, opt_or_zero, vertices_body,
};
use crate::GameVersion;
use vstd::prelude::*;

verus! {

/// Size of an object record on disk: 40 bytes, 44 when the version stores the
/// `color1` word.
pub open spec fn object_size(v: GameVersion) -> int {
    if v.spec_extended_layout() {
        44
    } else {
        40
    }
}

impl SPrimHeader {
    /// Read the 4-byte record prefix. `Some` exactly when four bytes are
    /// available; the result re-encodes to the bytes it was read from.
    pub fn read(d: &Vec<u8>, pos: &mut usize) -> (r: Option<SPrimHeader>)
        ensures
            r is Some <==> *old(pos) + 4 <= d@.len(),
            r matches Some(h) ==> {
                &&& header4(h) == d@.subrange(*old(pos) as int, *old(pos) + 4)
                &&& *final(pos) == *old(pos) + 4
            },
    {
        let ghost at = *old(pos) as int;
        let draw_destination = match read_u8(d, pos) {
            Some(b) => b,
            None => {
                return None;
            },
        };
        let pack_type = match read_u8(d, pos) {
            Some(b) => b,
            None => {
                return None;
            },
        };
        let prim_type = match read_u16(d, pos) {
            Some(v) => v,
            None => {
                return None;
            },
        };
        let h = SPrimHeader { draw_destination, pack_type, prim_type };
        proof {
            lemma_le16_encode(d@, at + 2);
            assert(header4(h) =~= d@.subrange(at, at + 4));
        }
        Some(h)
    }
}

impl SPrimObject {
    /// Read an object record for `input_version`. `Some` exactly when the
    /// whole record fits; the result is well formed, carries a `color1` word
    /// exactly when the version has one, and re-encodes (with its own draw
    /// destination) to the bytes it was read from.
    pub fn read(d: &Vec<u8>, pos: &mut usize, input_version: GameVersion) -> (r: Option<
        SPrimObject,
    >)
        ensures
            r is Some <==> *old(pos) + object_size(input_version) <= d@.len(),
            r matches Some(o) ==> {
                &&& o.wf()
                &&& (o.color1 is Some <==> input_version.spec_extended_layout())
                &&& object_emit(o, o.header.draw_destination, input_version) == d@.subrange(
                    *old(pos) as int,
                    *old(pos) + object_size(input_version),
                )
                &&& *final(pos) == *old(pos) + object_size(input_version)
            },
    {
        let ghost at = *old(pos) as int;
        let ghost iv = input_version;
        let header = match SPrimHeader::read(d, pos) {
            Some(h) => h,
            None => {
                return None;
            },
        };
        let sub_type = match read_u8(d, pos) {
            Some(b) => b,
            None => {
                return None;
            },
        };
        let flags = match read_u8(d, pos) {
            Some(b) => b,
            None => {
                return None;
            },
        };
        let lod_mask = match read_u8(d, pos) {
            Some(b) => b,
            None => {
                return None;
            },
        };
        let variant_id = match read_u8(d, pos) {
            Some(b) => b,
            None => {
                return None;
            },
        };
        let bias = match read_u8(d, pos) {
            Some(b) => b,
            None => {
                return None;
            },
        };
        let offset = match read_u8(d, pos) {
            Some(b) => b,
            None => {
                return None;
            },
        };
        let material_id = match read_u16(d, pos) {
            Some(v) => v,
            None => {
                return None;
            },
        };
        let wire_color = match read_u32(d, pos) {
            Some(v) => v,
            None => {
                return None;
            },
        };
        let color1: Option<u32> = if input_version.extended_layout() {
            match read_u32(d, pos) {
                Some(v) => Some(v),
                None => {
                    return None;
                },
            }
        } else {
            None
        };
        let ghost c0 = at + object_size(iv) - 24;
        let bounding_box_min = match read_u32_array(d, pos, 3) {
            Some(v) => v,
            None => {
                return None;
            },
        };
        let bounding_box_max = match read_u32_array(d, pos, 3) {
            Some(v) => v,
            None => {
                return None;
            },
        };
        let o = SPrimObject {
            header,
            sub_type,
            flags,
            lod_mask,
            variant_id,
            bias,
            offset,
            material_id,
            wire_color,
            color1,
            bounding_box_min,
            bounding_box_max,
        };
        proof {
            reveal(crate::writer::object_emit);
            lemma_le16_encode(d@, at + 10);
            lemma_le32_encode(d@, at + 12);
            if iv.spec_extended_layout() {
                lemma_le32_encode(d@, at + 16);
            }
            lemma_seq_le32_of_bytes(d@, c0, o.bounding_box_min@);
            lemma_seq_le32_of_bytes(d@, c0 + 12, o.bounding_box_max@);
            assert(object_emit(o, o.header.draw_destination, iv) =~= d@.subrange(
                at,
                at + object_size(iv),
            ));
        }
        Some(o)
    }
}

impl Indices {
    /// Read `count` 16-bit indices. `Some` exactly when they fit; the entries
    /// re-encode to the bytes they were read from.
    pub fn read(d: &Vec<u8>, pos: &mut usize, count: usize) -> (r: Option<Indices>)
        ensures
            r is Some <==> *old(pos) + 2 * count <= d@.len(),
            r matches Some(ind) ==> {
                &&& ind.indices@.len() == count
                &&& seq_le16(ind.indices@) == d@.subrange(*old(pos) as int, *old(pos) + 2 * count)
                &&& *final(pos) == *old(pos) + 2 * count
            },
    {
        let ghost at = *old(pos) as int;
        let indices = match read_u16_array(d, pos, count) {
            Some(v) => v,
            None => {
                return None;
            },
        };
        proof {
            lemma_seq_le16_of_bytes(d@, at, indices@);
        }
        Some(Indices { indices })
    }
}

impl Collision {
    /// Read a collision payload. `Some` exactly when the two counters and the
    /// box corners fit; the result re-encodes to the bytes it was read from.
    pub fn read(d: &Vec<u8>, pos: &mut usize) -> (r: Option<Collision>)
        ensures
            r is Some <==> *old(pos) + 4 <= d@.len() && *old(pos) + 4 + 6 * le16_at(
                d@,
                *old(pos) as int,
            ) <= d@.len(),
            r matches Some(c) ==> {
                &&& c.wf()
                &&& c.bounding_boxes@.len() == 6 * le16_at(d@, *old(pos) as int)
                &&& collision_body(c) == d@.subrange(
                    *old(pos) as int,
                    *old(pos) + 4 + 6 * le16_at(d@, *old(pos) as int),
                )
                &&& *final(pos) == *old(pos) + 4 + 6 * le16_at(d@, *old(pos) as int)
            },
    {
        let ghost at = *old(pos) as int;
        let count = match read_u16(d, pos) {
            Some(v) => v,
            None => {
                return None;
            },
        };
        let triangles_per_box = match read_u16(d, pos) {
            Some(v) => v,
            None => {
                return None;
            },
        };
        let bounding_boxes = match read_u8_array(d, pos, 6 * count as usize) {
            Some(v) => v,
            None => {
                return None;
            },
        };
        let c = Collision { bounding_boxes, triangles_per_box };
        proof {
            assert(c.bounding_boxes@.len() as int / 6 == count);
            lemma_le16_encode(d@, at);
            lemma_le16_encode(d@, at + 2);
            assert(collision_body(c) =~= d@.subrange(at, at + 4 + 6 * le16_at(d@, at)));
        }
        Some(c)
    }
}

/// Stored byte size of a cloth payload at `at`: a length-prefixed blob when
/// the cloth id selects the small form (the prefix word counted in), else a
/// fixed 20 bytes per vertex.
pub open spec fn cloth_stored_size(d: Seq<u8>, at: int, num_vertices: u32, cloth_id: u8) -> int {
    if cloth_small(cloth_id) {
        4 + le32_at(d, at)
    } else {
        0x14 * num_vertices
    }
}

impl Cloth {
    /// Read a cloth payload, sized by the owning mesh's cloth id. `Some`
    /// exactly when the payload fits; the stored blob is kept verbatim,
    /// length prefix included.
    pub fn read(d: &Vec<u8>, pos: &mut usize, num_vertices: u32, cloth_id: u8) -> (r: Option<Cloth>)
        ensures
            r is Some <==> (*old(pos) + 4 <= d@.len() || !cloth_small(cloth_id)) && *old(pos)
                + cloth_stored_size(d@, *old(pos) as int, num_vertices, cloth_id) <= d@.len(),
            r matches Some(c) ==> {
                &&& c.data@ == d@.subrange(
                    *old(pos) as int,
                    *old(pos) + cloth_stored_size(d@, *old(pos) as int, num_vertices, cloth_id),
                )
                &&& *final(pos) == *old(pos) + cloth_stored_size(
                    d@,
                    *old(pos) as int,
                    num_vertices,
                    cloth_id,
                )
            },
    {
        let at = *pos;
        let dlen: usize = d.len();
        if cloth_id & 0x80 == 0x80 {
            let size = match read_u32(d, pos) {
                Some(v) => v,
                None => {
                    return None;
                },
            };
            let total = match (size as usize).checked_add(4) {
                Some(t) => t,
                None => {
                    proof {
                        assert(at + cloth_stored_size(d@, at as int, num_vertices, cloth_id)
                            > dlen);
                    }
                    *pos = at;
                    return None;
                },
            };
            *pos = at;
            let data = match read_u8_array(d, pos, total) {
                Some(v) => v,
                None => {
                    return None;
                },
            };
            Some(Cloth { data })
        } else {
            let size: u64 = num_vertices as u64 * 0x14;
            if size > usize::MAX as u64 {
                proof {
                    assert(at + cloth_stored_size(d@, at as int, num_vertices, cloth_id) > dlen);
                }
                return None;
            }
            let data = match read_u8_array(d, pos, size as usize) {
                Some(v) => v,
                None => {
                    return None;
                },
            };
            Some(Cloth { data })
        }
    }
}

impl CopyBones {
    /// Read `2 * num_copy_bones` 32-bit words. `Some` exactly when they fit;
    /// the entries re-encode to the bytes they were read from.
    pub fn read(d: &Vec<u8>, pos: &mut usize, num_copy_bones: u32) -> (r: Option<CopyBones>)
        ensures
            r is Some <==> *old(pos) + 8 * num_copy_bones <= d@.len(),
            r matches Some(cb) ==> {
                &&& cb.data@.len() == 2 * num_copy_bones
                &&& seq_le32(cb.data@) == d@.subrange(
                    *old(pos) as int,
                    *old(pos) + 8 * num_copy_bones,
                )
                &&& *final(pos) == *old(pos) + 8 * num_copy_bones
            },
    {
        let ghost at = *old(pos) as int;
        let dlen: usize = d.len();
        let size = match (num_copy_bones as usize).checked_mul(2) {
            Some(s) => s,
            None => {
                proof {
                    assert(at + 8 * num_copy_bones > dlen);
                }
                return None;
            },
        };
        let data = match read_u32_array(d, pos, size) {
            Some(v) => v,
            None => {
                return None;
            },
        };
        proof {
            lemma_seq_le32_of_bytes(d@, at, data@);
        }
        Some(CopyBones { data })
    }
}

/// Size in bytes of the bone-index count prefix for version `v`.
pub open spec fn bone_prefix_size(v: GameVersion) -> int {
    if v.spec_extended_layout() {
        4
    } else {
        2
    }
}

/// The entry count encoded by the bone-index prefix stored at `at`: the
/// stored count minus one (early generations) or minus two (later ones).
pub open spec fn bone_entries_at(d: Seq<u8>, at: int, v: GameVersion) -> int {
    if v.spec_extended_layout() {
        le32_at(d, at) - 2
    } else {
        le16_at(d, at) - 1
    }
}

impl BoneIndices {
    /// Read a bone-index payload with the count prefix of `input_version`.
    /// `Some` exactly when the prefix is present, decodes to a representable
    /// count, and the entries fit; the result re-encodes (for the same
    /// version) to the bytes it was read from.
    pub fn read(d: &Vec<u8>, pos: &mut usize, input_version: GameVersion) -> (r: Option<
        BoneIndices,
    >)
        ensures
            r is Some <==> {
                &&& *old(pos) + bone_prefix_size(input_version) <= d@.len()
                &&& bone_entries_at(d@, *old(pos) as int, input_version) >= 0
                &&& *old(pos) + bone_prefix_size(input_version) + 2 * bone_entries_at(
                    d@,
                    *old(pos) as int,
                    input_version,
                ) <= d@.len()
            },
            r matches Some(b) ==> {
                &&& b.data@.len() == bone_entries_at(d@, *old(pos) as int, input_version)
                &&& bone_indices_body(b.data@, input_version) == d@.subrange(
                    *old(pos) as int,
                    *old(pos) + bone_prefix_size(input_version) + 2 * bone_entries_at(
                        d@,
                        *old(pos) as int,
                        input_version,
                    ),
                )
                &&& *final(pos) == *old(pos) + bone_prefix_size(input_version) + 2
                    * bone_entries_at(d@, *old(pos) as int, input_version)
            },
    {
        let ghost at = *old(pos) as int;
        let ghost iv = input_version;
        let size: usize = if input_version.extended_layout() {
            let stored = match read_u32(d, pos) {
                Some(v) => v,
                None => {
                    return None;
                },
            };
            if stored < 2 {
                *pos = *pos - 4;
                return None;
            }
            ((stored - 2) as usize)
        } else {
            let stored = match read_u16(d, pos) {
                Some(v) => v,
                None => {
                    return None;
                },
            };
            if stored < 1 {
                *pos = *pos - 2;
                return None;
            }
            ((stored - 1) as usize)
        };
        let ghost mid = *pos as int;
        let data = match read_u16_array(d, pos, size) {
            Some(v) => v,
            None => {
                return None;
            },
        };
        let b = BoneIndices { data };
        proof {
            lemma_seq_le16_of_bytes(d@, mid, data@);
            if iv.spec_extended_layout() {
                lemma_le32_encode(d@, at);
            } else {
                lemma_le16_encode(d@, at);
            }
            lemma_subrange_concat(d@, at, mid, mid + 2 * size);
            assert(bone_indices_body(b.data@, iv) == d@.subrange(
                at,
                at + bone_prefix_size(iv) + 2 * bone_entries_at(d@, at, iv),
            ));
        }
        Some(b)
    }
}

impl BoneInfo {
    /// Read a bone-info blob: its first 16-bit word gives its total length in
    /// bytes, itself included. `Some` exactly when the length word and the
    /// blob fit; the blob is kept verbatim.
    pub fn read(d: &Vec<u8>, pos: &mut usize) -> (r: Option<BoneInfo>)
        ensures
            r is Some <==> *old(pos) + 2 <= d@.len() && *old(pos) + le16_at(d@, *old(pos) as int)
                <= d@.len(),
            r matches Some(bi) ==> {
                &&& bi.data@.len() == le16_at(d@, *old(pos) as int)
                &&& bi.data@ == d@.subrange(
                    *old(pos) as int,
                    *old(pos) + le16_at(d@, *old(pos) as int),
                )
                &&& *final(pos) == *old(pos) + le16_at(d@, *old(pos) as int)
            },
    {
        let at = *pos;
        let size = match read_u16(d, pos) {
            Some(v) => v,
            None => {
                return None;
            },
        };
        *pos = at;
        let data = match read_u8_array(d, pos, size as usize) {
            Some(v) => v,
            None => {
                return None;
            },
        };
        Some(BoneInfo { data })
    }
}

// ---------------------------------------------------------------------------
// Vertex streams
// ---------------------------------------------------------------------------
/// Stored byte size of one interleaved per-vertex block.
pub open spec fn block_size(alt: bool, hi: bool) -> int {
    (if alt {
        2 * pos_words(hi)
    } else {
        0
    }) + 16
}

/// Stored byte size of a whole vertex payload of `n` vertices (independent of
/// the interleaving order).
pub open spec fn vertices_size(n: int, weighted: bool, hi: bool, store_colors: bool) -> int {
    2 * (n * pos_words(hi)) + (if weighted {
        12 * n
    } else {
        0
    }) + 16 * n + (if store_colors {
        4 * n
    } else {
        0
    })
}

/// The position words of vertex `j` inside a flat position stream of `pw`
/// words per vertex.
pub open spec fn pos_chunk(p: Seq<u16>, pw: int, j: int) -> Seq<u16> {
    p.subrange(j * pw, (j + 1) * pw)
}

/// One plain interleaved block decodes from sixteen consecutive bytes.
proof fn lemma_block_bytes_plain(d: Seq<u8>, cur: int, nv: u32, tv: u32, bv: u32, uv: u32)
    requires
        0 <= cur,
        cur + 16 <= d.len(),
        nv == le32_at(d, cur),
        tv == le32_at(d, cur + 4),
        bv == le32_at(d, cur + 8),
        uv == le32_at(d, cur + 12),
    ensures
        Seq::<u8>::empty() + crate::io::le32(nv) + crate::io::le32(tv) + crate::io::le32(bv)
            + crate::io::le32(uv) == d.subrange(cur, cur + 16),
{
    lemma_le32_encode(d, cur);
    lemma_le32_encode(d, cur + 4);
    lemma_le32_encode(d, cur + 8);
    lemma_le32_encode(d, cur + 12);
    assert(Seq::<u8>::empty() + crate::io::le32(nv) =~= crate::io::le32(nv));
    lemma_subrange_concat(d, cur, cur + 4, cur + 8);
    lemma_subrange_concat(d, cur, cur + 8, cur + 12);
    lemma_subrange_concat(d, cur, cur + 12, cur + 16);
}

/// One alternate-packing block (position words leading) decodes from its
/// consecutive bytes.
proof fn lemma_block_bytes_alt(
    d: Seq<u8>,
    cur: int,
    chunk: Seq<u16>,
    pwi: int,
    nv: u32,
    tv: u32,
    bv: u32,
    uv: u32,
)
    requires
        0 <= cur,
        0 <= pwi,
        cur + 2 * pwi + 16 <= d.len(),
        seq_le16(chunk) == d.subrange(cur, cur + 2 * pwi),
        nv == le32_at(d, cur + 2 * pwi),
        tv == le32_at(d, cur + 2 * pwi + 4),
        bv == le32_at(d, cur + 2 * pwi + 8),
        uv == le32_at(d, cur + 2 * pwi + 12),
    ensures
        seq_le16(chunk) + crate::io::le32(nv) + crate::io::le32(tv) + crate::io::le32(bv)
            + crate::io::le32(uv) == d.subrange(cur, cur + 2 * pwi + 16),
{
    lemma_le32_encode(d, cur + 2 * pwi);
    lemma_le32_encode(d, cur + 2 * pwi + 4);
    lemma_le32_encode(d, cur + 2 * pwi + 8);
    lemma_le32_encode(d, cur + 2 * pwi + 12);
    lemma_subrange_concat(d, cur, cur + 2 * pwi, cur + 2 * pwi + 4);
    lemma_subrange_concat(d, cur, cur + 2 * pwi + 4, cur + 2 * pwi + 8);
    lemma_subrange_concat(d, cur, cur + 2 * pwi + 8, cur + 2 * pwi + 12);
    lemma_subrange_concat(d, cur, cur + 2 * pwi + 12, cur + 2 * pwi + 16);
}

/// Read one 32-bit word that is known to fit.
fn take_u32(d: &Vec<u8>, pos: &mut usize) -> (r: u32)
    requires
        *old(pos) + 4 <= d@.len(),
    ensures
        r == le32_at(d@, *old(pos) as int),
        *final(pos) == *old(pos) + 4,
{
    match read_u32(d, pos) {
        Some(v) => v,
        None => vstd::pervasive::unreached(),
    }
}

/// Read a run of 16-bit words that is known to fit.
fn take_u16_words(d: &Vec<u8>, pos: &mut usize, size: usize) -> (r: Vec<u16>)
    requires
        *old(pos) + 2 * size <= d@.len(),
    ensures
        r@.len() == size,
        forall|i: int| 0 <= i < size ==> r@[i] == le16_at(d@, *old(pos) + 2 * i),
        *final(pos) == *old(pos) + 2 * size,
{
    match read_u16_array(d, pos, size) {
        Some(v) => v,
        None => vstd::pervasive::unreached(),
    }
}

/// Read a run of 32-bit words that is known to fit.
fn take_u32_words(d: &Vec<u8>, pos: &mut usize, size: usize) -> (r: Vec<u32>)
    requires
        *old(pos) + 4 * size <= d@.len(),
    ensures
        r@.len() == size,
        forall|i: int| 0 <= i < size ==> r@[i] == le32_at(d@, *old(pos) + 4 * i),
        *final(pos) == *old(pos) + 4 * size,
{
    match read_u32_array(d, pos, size) {
        Some(v) => v,
        None => vstd::pervasive::unreached(),
    }
}

/// Word facts of an alternate-packing block run decode to the run's bytes.
#[verifier::rlimit(100)]
#[verifier::spinoff_prover]
proof fn lemma_blocks_decode_alt(
    d: Seq<u8>,
    q2: int,
    p_seq: Seq<u16>,
    n_seq: Seq<u32>,
    t_seq: Seq<u32>,
    b_seq: Seq<u32>,
    u_seq: Seq<u32>,
    k: int,
    n: int,
    hi: bool,
)
    requires
        0 <= q2,
        0 <= k <= n,
        q2 + n * block_size(true, hi) <= d.len(),
        n_seq.len() == n,
        t_seq.len() == n,
        b_seq.len() == n,
        u_seq.len() == n,
        p_seq.len() == n * pos_words(hi),
        forall|j: int|
            0 <= j < n ==> #[trigger] n_seq[j] == le32_at(
                d,
                q2 + j * block_size(true, hi) + 2 * pos_words(hi),
            ),
        forall|j: int|
            0 <= j < n ==> #[trigger] t_seq[j] == le32_at(
                d,
                q2 + j * block_size(true, hi) + 2 * pos_words(hi) + 4,
            ),
        forall|j: int|
            0 <= j < n ==> #[trigger] b_seq[j] == le32_at(
                d,
                q2 + j * block_size(true, hi) + 2 * pos_words(hi) + 8,
            ),
        forall|j: int|
            0 <= j < n ==> #[trigger] u_seq[j] == le32_at(
                d,
                q2 + j * block_size(true, hi) + 2 * pos_words(hi) + 12,
            ),
        forall|j: int|
            0 <= j < n ==> seq_le16(#[trigger] pos_chunk(p_seq, pos_words(hi), j)) == d.subrange(
                q2 + j * block_size(true, hi),
                q2 + j * block_size(true, hi) + 2 * pos_words(hi),
            ),
    ensures
        crate::writer::vertex_blocks_streams(p_seq, n_seq, t_seq, b_seq, u_seq, true, hi, k)
            == d.subrange(q2, q2 + k * block_size(true, hi)),
    decreases k,
{
    let bs = block_size(true, hi);
    let pwi = pos_words(hi);
    if k == 0 {
        assert(crate::writer::vertex_blocks_streams(p_seq, n_seq, t_seq, b_seq, u_seq, true, hi, 0)
            =~= d.subrange(q2, q2));
    } else {
        let j = k - 1;
        assert(k * bs == (k - 1) * bs + bs) by (nonlinear_arith);
        assert(0 <= (k - 1) * bs && k * bs <= n * bs) by (nonlinear_arith)
            requires
                1 <= k <= n,
                bs >= 16,
        ;
        lemma_blocks_decode_alt(d, q2, p_seq, n_seq, t_seq, b_seq, u_seq, j, n, hi);
        lemma_block_bytes_alt(
            d,
            q2 + j * bs,
            pos_chunk(p_seq, pwi, j),
            pwi,
            n_seq[j],
            t_seq[j],
            b_seq[j],
            u_seq[j],
        );
        lemma_subrange_concat(d, q2, q2 + j * bs, q2 + k * bs);
    }
}

/// Word facts of a plain block run decode to the run's bytes.
#[verifier::rlimit(100)]
#[verifier::spinoff_prover]
proof fn lemma_blocks_decode_plain(
    d: Seq<u8>,
    q2: int,
    p_seq: Seq<u16>,
    n_seq: Seq<u32>,
    t_seq: Seq<u32>,
    b_seq: Seq<u32>,
    u_seq: Seq<u32>,
    k: int,
    n: int,
    hi: bool,
)
    requires
        0 <= q2,
        0 <= k <= n,
        q2 + n * 16 <= d.len(),
        n_seq.len() == n,
        t_seq.len() == n,
        b_seq.len() == n,
        u_seq.len() == n,
        forall|j: int| 0 <= j < n ==> #[trigger] n_seq[j] == le32_at(d, q2 + j * 16),
        forall|j: int| 0 <= j < n ==> #[trigger] t_seq[j] == le32_at(d, q2 + j * 16 + 4),
        forall|j: int| 0 <= j < n ==> #[trigger] b_seq[j] == le32_at(d, q2 + j * 16 + 8),
        forall|j: int| 0 <= j < n ==> #[trigger] u_seq[j] == le32_at(d, q2 + j * 16 + 12),
    ensures
        crate::writer::vertex_blocks_streams(p_seq, n_seq, t_seq, b_seq, u_seq, false, hi, k)
            == d.subrange(q2, q2 + k * 16),
    decreases k,
{
    if k == 0 {
        assert(crate::writer::vertex_blocks_streams(
            p_seq,
            n_seq,
            t_seq,
            b_seq,
            u_seq,
            false,
            hi,
            0,
        ) =~= d.subrange(q2, q2));
    } else {
        let j = k - 1;
        lemma_blocks_decode_plain(d, q2, p_seq, n_seq, t_seq, b_seq, u_seq, j, n, hi);
        lemma_block_bytes_plain(d, q2 + j * 16, n_seq[j], t_seq[j], b_seq[j], u_seq[j]);
        lemma_subrange_concat(d, q2, q2 + j * 16, q2 + k * 16);
    }
}

/// First pass over the interleaved blocks: the four scalar words of every
/// block, skipping the position words under alternate packing. The caller has
/// already checked that the blocks fit.
#[verifier::rlimit(100)]
#[verifier::spinoff_prover]
fn read_scalar_blocks(d: &Vec<u8>, pos: &mut usize, n: usize, alt: bool, hi: bool) -> (r: (
    Vec<u32>,
    Vec<u32>,
    Vec<u32>,
    Vec<u32>,
))
    requires
        *old(pos) + n * block_size(alt, hi) <= d@.len(),
    ensures
        ({
            let (normals, tangents, bitangents, uvs) = r;
            let q2 = *old(pos) as int;
            let bs = block_size(alt, hi);
            let ao: int = if alt {
                2 * pos_words(hi)
            } else {
                0
            };
            &&& normals@.len() == n
            &&& tangents@.len() == n
            &&& bitangents@.len() == n
            &&& uvs@.len() == n
            &&& *final(pos) == *old(pos) + n * bs
            &&& forall|j: int| 0 <= j < n ==> normals@[j] == le32_at(d@, q2 + j * bs + ao)
            &&& forall|j: int| 0 <= j < n ==> tangents@[j] == le32_at(d@, q2 + j * bs + ao + 4)
            &&& forall|j: int| 0 <= j < n ==> bitangents@[j] == le32_at(d@, q2 + j * bs + ao + 8)
            &&& forall|j: int| 0 <= j < n ==> uvs@[j] == le32_at(d@, q2 + j * bs + ao + 12)
        }),
{
    let mut p: usize = *pos;
    let start: usize = *pos;
    let dlen: usize = d.len();
    let ghost q2 = *old(pos) as int;
    let ghost bs = block_size(alt, hi);
    let pw: usize = if hi {
        6
    } else {
        4
    };
    let ghost ao: int = if alt {
        2 * pos_words(hi)
    } else {
        0
    };
    let mut normals: Vec<u32> = Vec::new();
    let mut tangents: Vec<u32> = Vec::new();
    let mut bitangents: Vec<u32> = Vec::new();
    let mut uvs: Vec<u32> = Vec::new();
    for i in 0..n
        invariant
            pw == pos_words(hi),
            bs == block_size(alt, hi),
            ao == if alt {
                2 * pos_words(hi)
            } else {
                0int
            },
            q2 == start as int,
            d@.len() == dlen,
            q2 + n * bs <= dlen,
            p == q2 + i * bs,
            normals@.len() == i,
            tangents@.len() == i,
            bitangents@.len() == i,
            uvs@.len() == i,
            forall|j: int| 0 <= j < i ==> normals@[j] == le32_at(d@, q2 + j * bs + ao),
            forall|j: int| 0 <= j < i ==> tangents@[j] == le32_at(d@, q2 + j * bs + ao + 4),
            forall|j: int| 0 <= j < i ==> bitangents@[j] == le32_at(d@, q2 + j * bs + ao + 8),
            forall|j: int| 0 <= j < i ==> uvs@[j] == le32_at(d@, q2 + j * bs + ao + 12),
    {
        proof {
            assert((i + 1) * bs == i * bs + bs) by (nonlinear_arith);
            assert((i + 1) * bs <= n * bs) by (nonlinear_arith)
                requires
                    i + 1 <= n,
                    bs >= 0,
            ;
        }
        if alt {
            p = p + 2 * pw;
        }
        let nv = take_u32(d, &mut p);
        let tv = take_u32(d, &mut p);
        let bv = take_u32(d, &mut p);
        let uv = take_u32(d, &mut p);
        normals.push(nv);
        tangents.push(tv);
        bitangents.push(bv);
        uvs.push(uv);
    }
    *pos = p;
    (normals, tangents, bitangents, uvs)
}

/// Second pass under alternate packing: the position words of every block,
/// appended to `positions`.
#[verifier::rlimit(100)]
#[verifier::spinoff_prover]
fn read_position_run(d: &Vec<u8>, start: usize, positions: &mut Vec<u16>, n: usize, hi: bool)
    requires
        old(positions)@.len() == 0,
        start + n * block_size(true, hi) <= d@.len(),
    ensures
        final(positions)@.len() == n as int * pos_words(hi),
        forall|j: int|
            0 <= j < n ==> seq_le16(#[trigger] pos_chunk(final(positions)@, pos_words(hi), j))
                == d@.subrange(
                start + j * block_size(true, hi),
                start + j * block_size(true, hi) + 2 * pos_words(hi),
            ),
{
    let dlen: usize = d.len();
    let ghost q2 = start as int;
    let ghost bs = block_size(true, hi);
    let pw: usize = if hi {
        6
    } else {
        4
    };
    let mut pp: usize = start;
    for i in 0..n
        invariant
            pw == pos_words(hi),
            bs == block_size(true, hi),
            q2 == start as int,
            d@.len() == dlen,
            q2 + n * bs <= dlen,
            pp == q2 + i * bs,
            positions@.len() == i * pos_words(hi),
            forall|j: int|
                0 <= j < i ==> seq_le16(#[trigger] pos_chunk(positions@, pos_words(hi), j))
                    == d@.subrange(q2 + j * bs, q2 + j * bs + 2 * pos_words(hi)),
    {
        proof {
            assert((i + 1) * bs == i * bs + bs) by (nonlinear_arith);
            assert((i + 1) * bs <= n * bs) by (nonlinear_arith)
                requires
                    i + 1 <= n,
                    bs >= 0,
            ;
            assert(i * pos_words(hi) + pos_words(hi) == (i + 1) * pos_words(hi))
                by (nonlinear_arith);
        }
        let ghost cur = pp as int;
        let ghost ppre = positions@;
        let mut chunk = take_u16_words(d, &mut pp, pw);
        let ghost chunkv = chunk@;
        positions.append(&mut chunk);
        pp = pp + 16;
        proof {
            assert(positions@ == ppre + chunkv);
            assert(pos_chunk(positions@, pos_words(hi), i as int) =~= chunkv);
            lemma_seq_le16_of_bytes(d@, cur, chunkv);
            let pwi = pos_words(hi);
            assert forall|j: int| 0 <= j < i implies #[trigger] pos_chunk(positions@, pwi, j)
                == pos_chunk(ppre, pwi, j) by {
                assert((j + 1) * pwi <= i * pwi) by (nonlinear_arith)
                    requires
                        j + 1 <= i,
                        pwi >= 0,
                ;
                assert(0 <= j * pwi) by (nonlinear_arith)
                    requires
                        0 <= j,
                        pwi >= 0,
                ;
                assert(pos_chunk(positions@, pwi, j) =~= pos_chunk(ppre, pwi, j));
            }
        }
    }
}

/// Read the `n` interleaved per-vertex blocks, appending position words to
/// `positions` under alternate packing. The caller has already checked that
/// the blocks fit, so reading cannot fail.
#[verifier::rlimit(100)]
#[verifier::spinoff_prover]
fn read_vertex_blocks(
    d: &Vec<u8>,
    pos: &mut usize,
    positions: &mut Vec<u16>,
    n: usize,
    alt: bool,
    hi: bool,
) -> (r: (Vec<u32>, Vec<u32>, Vec<u32>, Vec<u32>))
    requires
        alt ==> old(positions)@.len() == 0,
        *old(pos) + n * block_size(alt, hi) <= d@.len(),
    ensures
        ({
            let (normals, tangents, bitangents, uvs) = r;
            let q2 = *old(pos) as int;
            let bs = block_size(alt, hi);
            &&& normals@.len() == n
            &&& tangents@.len() == n
            &&& bitangents@.len() == n
            &&& uvs@.len() == n
            &&& final(positions)@.len() == old(positions)@.len() + (if alt {
                n as int * pos_words(hi)
            } else {
                0
            })
            &&& (!alt ==> final(positions)@ == old(positions)@)
            &&& *final(pos) == *old(pos) + n * block_size(alt, hi)
            &&& crate::writer::vertex_blocks_streams(
                final(positions)@,
                normals@,
                tangents@,
                bitangents@,
                uvs@,
                alt,
                hi,
                n as int,
            ) == d@.subrange(q2, q2 + n * bs)
        }),
{
    let start: usize = *pos;
    let ghost q2 = *old(pos) as int;
    let ghost bs = block_size(alt, hi);
    let (normals, tangents, bitangents, uvs) = read_scalar_blocks(d, pos, n, alt, hi);
    if alt {
        read_position_run(d, start, positions, n, hi);
    }
    proof {
        if alt {
            lemma_blocks_decode_alt(
                d@,
                q2,
                positions@,
                normals@,
                tangents@,
                bitangents@,
                uvs@,
                n as int,
                n as int,
                hi,
            );
        } else {
            assert(block_size(false, hi) == 16);
            lemma_blocks_decode_plain(
                d@,
                q2,
                positions@,
                normals@,
                tangents@,
                bitangents@,
                uvs@,
                n as int,
                n as int,
                hi,
            );
        }
    }
    (normals, tangents, bitangents, uvs)
}

impl Vertices {
    /// Read the vertex payload of a sub-mesh with `num_vertices` vertices.
    /// The interleaving order follows the owning mesh's draw destination and
    /// flags as stored in the input file. `Some` exactly when the whole
    /// payload fits; every stream then re-encodes to the bytes it was read
    /// from, and when the sub-mesh broadcasts a single color, the color
    /// stream holds `color1` (zero when absent) `num_vertices` times.
    #[verifier::rlimit(100)]
    #[verifier::spinoff_prover]
    pub fn read(
        d: &Vec<u8>,
        pos: &mut usize,
        header_flags: u32,
        mesh_dd: u8,
        mesh_flags: u8,
        sub_mesh_flags: u8,
        num_vertices: u32,
        color1: Option<u32>,
    ) -> (r: Option<Vertices>)
        ensures
            ({
                let weighted = is_weighted_flags(header_flags);
                let alt = alt_packing(mesh_dd);
                let hi = hi_res_flags(mesh_flags);
                let read_colors = weighted || !color1_flag(mesh_flags);
                let store_colors = read_colors && !color1_flag(sub_mesh_flags);
                let size = vertices_size(num_vertices as int, weighted, hi, store_colors);
                &&& (r is Some <==> *old(pos) + size <= d@.len())
                &&& (r matches Some(vtx) ==> {
                    &&& vtx.wf(num_vertices as int, hi, weighted, read_colors)
                    &&& vertices_body(vtx, weighted, alt, hi, store_colors) == d@.subrange(
                        *old(pos) as int,
                        *old(pos) + size,
                    )
                    &&& (read_colors && color1_flag(sub_mesh_flags) ==> forall|i: int|
                        0 <= i < num_vertices ==> vtx.colors@[i] == opt_or_zero(color1))
                    &&& *final(pos) == *old(pos) + size
                })
            }),
    {
        let at = *pos;
        let dlen: usize = d.len();
        let n = num_vertices as usize;
        let alt = mesh_dd & 0x80 == 0x80;
        let hi = mesh_flags & 8 == 8;
        let weighted = header_flags & 8 == 8;
        let read_colors = weighted || mesh_flags & 0x20 != 0x20;
        let store_colors = read_colors && sub_mesh_flags & 0x20 != 0x20;
        let ghost size = vertices_size(n as int, weighted, hi, store_colors);
        // The exact stored size, computed up front so a short buffer is
        // rejected before any stream is read.
        let psz: u64 = if hi {
            12 * (n as u64)
        } else {
            8 * (n as u64)
        };
        let size64: u64 = psz + (if weighted {
            12 * (n as u64)
        } else {
            0
        }) + 16 * (n as u64) + (if store_colors {
            4 * (n as u64)
        } else {
            0
        });
        proof {
            if hi {
                assert(2 * ((n as int) * 6) == 12 * (n as int));
            } else {
                assert(2 * ((n as int) * 4) == 8 * (n as int));
            }
            assert(size64 == size);
        }
        if at > dlen || size64 > (dlen - at) as u64 {
            return None;
        }
        // From here on the whole payload is known to fit.
        let ghost atg = at as int;
        let mut positions: Vec<u16> = Vec::new();
        if !alt {
            let words = n * (if hi {
                6
            } else {
                4
            });
            positions = match read_u16_array(d, pos, words) {
                Some(v) => v,
                None => vstd::pervasive::unreached(),
            };
            proof {
                lemma_seq_le16_of_bytes(d@, atg, positions@);
            }
        }
        let ghost q1 = atg + (if !alt {
            2 * ((n as int) * pos_words(hi))
        } else {
            0
        });
        let mut weights: Vec<u8> = Vec::new();
        if weighted {
            weights = match read_u8_array(d, pos, 12 * n) {
                Some(v) => v,
                None => vstd::pervasive::unreached(),
            };
        }
        let ghost q2 = q1 + (if weighted {
            12 * (n as int)
        } else {
            0
        });
        let ghost bs = block_size(alt, hi);
        proof {
            assert(*pos == q2);
            let ni = n as int;
            let pwi = pos_words(hi);
            let bsi = block_size(alt, hi);
            if alt {
                assert(ni * bsi == 2 * (ni * pwi) + 16 * ni) by (nonlinear_arith)
                    requires
                        bsi == 2 * pwi + 16,
                        ni >= 0,
                ;
            } else {
                assert(ni * bsi == 16 * ni) by (nonlinear_arith)
                    requires
                        bsi == 16,
                        ni >= 0,
                ;
            }
        }
        // Interleaved per-vertex blocks.
        let (normals, tangents, bitangents, uvs) = read_vertex_blocks(
            d,
            pos,
            &mut positions,
            n,
            alt,
            hi,
        );
        let ghost q3 = q2 + (n as int) * bs;
        // Colors: read per vertex, or broadcast the single color.
        let mut colors: Vec<u32> = Vec::new();
        if read_colors {
            if sub_mesh_flags & 0x20 == 0x20 {
                let c: u32 = match &color1 {
                    Some(v) => *v,
                    None => 0,
                };
                for i in 0..n
                    invariant
                        colors@.len() == i,
                        forall|j: int| 0 <= j < i ==> colors@[j] == c,
                {
                    colors.push(c);
                }
            } else {
                colors = match read_u32_array(d, pos, n) {
                    Some(v) => v,
                    None => vstd::pervasive::unreached(),
                };
                proof {
                    lemma_seq_le32_of_bytes(d@, q3, colors@);
                }
            }
        }
        let ghost positions_s = positions@;
        let ghost normals_s = normals@;
        let ghost tangents_s = tangents@;
        let ghost bitangents_s = bitangents@;
        let ghost uvs_s = uvs@;
        let vtx = Vertices { positions, weights, normals, tangents, bitangents, uvs, colors };
        proof {
            assert(vtx.positions@ == positions_s);
            assert(vtx.normals@ == normals_s);
            assert(vtx.tangents@ == tangents_s);
            assert(vtx.bitangents@ == bitangents_s);
            assert(vtx.uvs@ == uvs_s);
            assert(crate::writer::vertex_blocks(vtx, alt, hi, n as int) == d@.subrange(
                q2,
                q2 + (n as int) * bs,
            ));
            let ppart = if !alt {
                seq_le16(vtx.positions@)
            } else {
                Seq::<u8>::empty()
            };
            let wpart = if weighted {
                vtx.weights@
            } else {
                Seq::<u8>::empty()
            };
            let cpart = if store_colors {
                seq_le32(vtx.colors@)
            } else {
                Seq::<u8>::empty()
            };
            assert(ppart == d@.subrange(atg, q1));
            assert(wpart == d@.subrange(q1, q2));
            assert(cpart == d@.subrange(q3, atg + size));
            lemma_subrange_concat(d@, atg, q1, q2);
            lemma_subrange_concat(d@, atg, q2, q3);
            lemma_subrange_concat(d@, atg, q3, atg + size);
            assert(vertices_body(vtx, weighted, alt, hi, store_colors) == d@.subrange(
                atg,
                atg + size,
            ));
        }
        Some(vtx)
    }
}

// ---------------------------------------------------------------------------
// Compound records
// ---------------------------------------------------------------------------
/// Fixed on-disk size of a mesh record: its object record plus the sub-mesh
/// table offset, the scale/bias vectors, the cloth id and three padding
/// bytes.
pub open spec fn mesh_fixed_size(v: GameVersion) -> int {
    object_size(v) + 56
}

/// Fixed on-disk size of a sub-mesh record: its object record plus the seven
/// count and offset words, eight when the version stores `num_indices_extra`.
pub open spec fn submesh_fixed_size(v: GameVersion) -> int {
    object_size(v) + (if v.spec_extended_layout() {
        32int
    } else {
        28
    })
}

/// When a sub-mesh subtree can be read at `at`: the fixed record fits, and
/// every payload a non-zero offset names fits at its position, with sizes
/// drawn from the stored counts (including the index-count sum staying
/// representable).
#[verifier::opaque]
pub open spec fn readable_submesh(
    d: Seq<u8>,
    at: int,
    weighted: bool,
    mesh_dd: u8,
    mesh_flags: u8,
    cloth_id: u8,
    iv: GameVersion,
) -> bool {
    let osz = object_size(iv);
    let x: int = if iv.spec_extended_layout() {
        4
    } else {
        0
    };
    let nv = le32_at(d, at + osz);
    let ov = le32_at(d, at + osz + 4);
    let ni = le32_at(d, at + osz + 8);
    let extra: u32 = if iv.spec_extended_layout() {
        le32_at(d, at + osz + 12)
    } else {
        0
    };
    let oi = le32_at(d, at + osz + 12 + x);
    let oc = le32_at(d, at + osz + 16 + x);
    let ocl = le32_at(d, at + osz + 20 + x);
    let store_colors = (weighted || !color1_flag(mesh_flags)) && !color1_flag(d[at + 5]);
    &&& at + submesh_fixed_size(iv) <= d.len()
    &&& (nv > 0 && ov > 0 ==> ov + vertices_size(
        nv as int,
        weighted,
        hi_res_flags(mesh_flags),
        store_colors,
    ) <= d.len())
    &&& (ni > 0 && oi > 0 ==> ni + extra <= 0xFFFFFFFF && oi + 2 * (ni + extra) <= d.len())
    &&& (oc > 0 ==> oc + 4 <= d.len() && oc + 4 + 6 * le16_at(d, oc as int) <= d.len())
    &&& (ocl > 0 && iv.spec_extended_layout() ==> (cloth_small(cloth_id) ==> ocl + 4 <= d.len())
        && ocl + cloth_stored_size(d, ocl as int, nv, cloth_id) <= d.len())
}

/// What it means for `s` to be the sub-mesh parsed from `d` at `at`: the
/// header fields decode from the fixed record, and each materialized payload
/// re-encodes to the bytes at its stored offset.
#[verifier::opaque]
pub open spec fn parsed_submesh(
    d: Seq<u8>,
    at: int,
    weighted: bool,
    mesh_dd: u8,
    mesh_flags: u8,
    cloth_id: u8,
    iv: GameVersion,
    s: SPrimSubMesh,
) -> bool {
    let osz = object_size(iv);
    let x: int = if iv.spec_extended_layout() {
        4
    } else {
        0
    };
    &&& object_emit(s.object, s.object.header.draw_destination, iv) == d.subrange(at, at + osz)
    &&& s.num_vertices == le32_at(d, at + osz)
    &&& s.offset_vertices == le32_at(d, at + osz + 4)
    &&& s.num_indices == le32_at(d, at + osz + 8)
    &&& s.num_indices_extra == (if iv.spec_extended_layout() {
        Some(le32_at(d, at + osz + 12))
    } else {
        None::<u32>
    })
    &&& s.offset_indices == le32_at(d, at + osz + 12 + x)
    &&& s.offset_collision == le32_at(d, at + osz + 16 + x)
    &&& s.offset_cloth == le32_at(d, at + osz + 20 + x)
    &&& s.num_uv_channels == le32_at(d, at + osz + 24 + x)
    &&& (s.vertices matches Some(v) ==> {
        let read_colors = weighted || !color1_flag(mesh_flags);
        let store_colors = read_colors && !color1_flag(s.object.flags);
        &&& s.offset_vertices + vertices_size(
            s.num_vertices as int,
            weighted,
            hi_res_flags(mesh_flags),
            store_colors,
        ) <= d.len()
        &&& vertices_body(
            v,
            weighted,
            alt_packing(mesh_dd),
            hi_res_flags(mesh_flags),
            store_colors,
        ) == d.subrange(
            s.offset_vertices as int,
            s.offset_vertices + vertices_size(
                s.num_vertices as int,
                weighted,
                hi_res_flags(mesh_flags),
                store_colors,
            ),
        )
        &&& (read_colors && color1_flag(s.object.flags) ==> forall|i: int|
            0 <= i < s.num_vertices ==> v.colors@[i] == opt_or_zero(s.object.color1))
    })
    &&& (s.indices matches Some(ind) ==> s.offset_indices + 2 * (s.num_indices
        + s.extra_or_zero()) <= d.len() && seq_le16(ind.indices@) == d.subrange(
        s.offset_indices as int,
        s.offset_indices + 2 * (s.num_indices + s.extra_or_zero()),
    ))
    &&& (s.collision matches Some(c) ==> s.offset_collision + 4 + c.bounding_boxes@.len()
        <= d.len() && collision_body(c) == d.subrange(
        s.offset_collision as int,
        s.offset_collision + 4 + c.bounding_boxes@.len(),
    ))
    &&& (s.cloth is Some <==> s.offset_cloth > 0 && iv.spec_extended_layout())
    &&& (s.cloth matches Some(c) ==> s.offset_cloth + cloth_stored_size(
        d,
        s.offset_cloth as int,
        s.num_vertices,
        cloth_id,
    ) <= d.len() && c.data@ == d.subrange(
        s.offset_cloth as int,
        s.offset_cloth + cloth_stored_size(d, s.offset_cloth as int, s.num_vertices, cloth_id),
    ))
}

impl SPrimSubMesh {
    /// Read a sub-mesh record and every payload its offsets point at, and
    /// succeed exactly when the buffer is readable here: `Some` if and only
    /// if [`readable_submesh`] holds. On success the result is well formed
    /// against the owning mesh's flags and satisfies [`parsed_submesh`]. The
    /// cursor is left after the last payload read, as the caller restores it.
    #[verifier::rlimit(100)]
    #[verifier::spinoff_prover]
    pub fn read(
        d: &Vec<u8>,
        pos: &mut usize,
        header_flags: u32,
        mesh_dd: u8,
        mesh_flags: u8,
        cloth_id: u8,
        input_version: GameVersion,
    ) -> (r: Option<SPrimSubMesh>)
        ensures
            r is Some <==> readable_submesh(
                d@,
                *old(pos) as int,
                is_weighted_flags(header_flags),
                mesh_dd,
                mesh_flags,
                cloth_id,
                input_version,
            ),
            r matches Some(s) ==> {
                &&& s.wf(is_weighted_flags(header_flags), mesh_flags)
                &&& parsed_submesh(
                    d@,
                    *old(pos) as int,
                    is_weighted_flags(header_flags),
                    mesh_dd,
                    mesh_flags,
                    cloth_id,
                    input_version,
                    s,
                )
            },
    {
        let ghost at = *old(pos) as int;
        let ghost weighted = is_weighted_flags(header_flags);
        let start = *pos;
        let dlen: usize = d.len();
        let fixed: usize = if input_version.extended_layout() {
            76
        } else {
            68
        };
        if start > dlen || dlen - start < fixed {
            proof {
                assert(!readable_submesh(
                    d@,
                    at,
                    weighted,
                    mesh_dd,
                    mesh_flags,
                    cloth_id,
                    input_version,
                )) by {
                    reveal(readable_submesh);
                }
            }
            return None;
        }
        // The whole fixed record fits; its reads cannot fail.
        let object = match SPrimObject::read(d, pos, input_version) {
            Some(o) => o,
            None => vstd::pervasive::unreached(),
        };
        proof {
            crate::writer::lemma_object_emit_fields(
                object,
                object.header.draw_destination,
                input_version,
            );
            assert(object.flags == d@[at + 5]);
        }
        let num_vertices = take_u32(d, pos);
        let offset_vertices = take_u32(d, pos);
        let num_indices = take_u32(d, pos);
        let num_indices_extra: Option<u32> = if input_version.extended_layout() {
            Some(take_u32(d, pos))
        } else {
            None
        };
        let offset_indices = take_u32(d, pos);
        let offset_collision = take_u32(d, pos);
        let offset_cloth = take_u32(d, pos);
        let num_uv_channels = take_u32(d, pos);
        let vertices: Option<Vertices> = if num_vertices > 0 && offset_vertices > 0 {
            *pos = offset_vertices as usize;
            match Vertices::read(
                d,
                pos,
                header_flags,
                mesh_dd,
                mesh_flags,
                object.flags,
                num_vertices,
                object.color1,
            ) {
                Some(v) => Some(v),
                None => {
                    proof {
                        assert(!readable_submesh(
                            d@,
                            at,
                            weighted,
                            mesh_dd,
                            mesh_flags,
                            cloth_id,
                            input_version,
                        )) by {
                            reveal(readable_submesh);
                        }
                    }
                    return None;
                },
            }
        } else {
            None
        };
        let indices: Option<Indices> = if num_indices > 0 && offset_indices > 0 {
            let extra: u32 = match &num_indices_extra {
                Some(x) => *x,
                None => 0,
            };
            let count: u32 = match num_indices.checked_add(extra) {
                Some(c) => c,
                None => {
                    proof {
                        assert(!readable_submesh(
                            d@,
                            at,
                            weighted,
                            mesh_dd,
                            mesh_flags,
                            cloth_id,
                            input_version,
                        )) by {
                            reveal(readable_submesh);
                        }
                    }
                    return None;
                },
            };
            *pos = offset_indices as usize;
            match Indices::read(d, pos, count as usize) {
                Some(v) => Some(v),
                None => {
                    proof {
                        assert(!readable_submesh(
                            d@,
                            at,
                            weighted,
                            mesh_dd,
                            mesh_flags,
                            cloth_id,
                            input_version,
                        )) by {
                            reveal(readable_submesh);
                        }
                    }
                    return None;
                },
            }
        } else {
            None
        };
        let collision: Option<Collision> = if offset_collision > 0 {
            *pos = offset_collision as usize;
            match Collision::read(d, pos) {
                Some(v) => Some(v),
                None => {
                    proof {
                        assert(!readable_submesh(
                            d@,
                            at,
                            weighted,
                            mesh_dd,
                            mesh_flags,
                            cloth_id,
                            input_version,
                        )) by {
                            reveal(readable_submesh);
                        }
                    }
                    return None;
                },
            }
        } else {
            None
        };
        let cloth: Option<Cloth> = if offset_cloth > 0 && input_version.extended_layout() {
            *pos = offset_cloth as usize;
            match Cloth::read(d, pos, num_vertices, cloth_id) {
                Some(v) => Some(v),
                None => {
                    proof {
                        assert(!readable_submesh(
                            d@,
                            at,
                            weighted,
                            mesh_dd,
                            mesh_flags,
                            cloth_id,
                            input_version,
                        )) by {
                            reveal(readable_submesh);
                        }
                    }
                    return None;
                },
            }
        } else {
            None
        };
        proof {
            assert(readable_submesh(d@, at, weighted, mesh_dd, mesh_flags, cloth_id, input_version))
                by {
                reveal(readable_submesh);
            }
        }
        let s = SPrimSubMesh {
            object,
            num_vertices,
            offset_vertices,
            vertices,
            num_indices,
            num_indices_extra,
            offset_indices,
            indices,
            offset_collision,
            collision,
            offset_cloth,
            cloth,
            num_uv_channels,
        };
        proof {
            assert(parsed_submesh(
                d@,
                at,
                weighted,
                mesh_dd,
                mesh_flags,
                cloth_id,
                input_version,
                s,
            )) by {
                reveal(parsed_submesh);
            }
        }
        Some(s)
    }
}

/// When a plain-mesh subtree can be read at `at`: the fixed mesh record fits,
/// the one-word sub-mesh table it names is readable, and the sub-mesh that
/// table names is readable under the mesh's stored flags and cloth id.
#[verifier::opaque]
pub open spec fn readable_mesh(d: Seq<u8>, at: int, header_flags: u32, iv: GameVersion) -> bool {
    let osz = object_size(iv);
    &&& at + mesh_fixed_size(iv) <= d.len()
    &&& le32_at(d, at + osz) + 4 <= d.len()
    &&& readable_submesh(
        d,
        le32_at(d, le32_at(d, at + osz) as int) as int,
        is_weighted_flags(header_flags),
        d[at],
        d[at + 5],
        d[at + osz + 52],
        iv,
    )
}

/// What it means for `m` to be the mesh parsed from `d` at `at`: the object
/// record and the quantization vectors decode from the fixed record, and the
/// sub-mesh reached through the one-word table satisfies [`parsed_submesh`].
#[verifier::opaque]
pub open spec fn parsed_mesh(
    d: Seq<u8>,
    at: int,
    header_flags: u32,
    iv: GameVersion,
    m: SPrimMesh,
) -> bool {
    let osz = object_size(iv);
    &&& object_emit(m.object, m.object.header.draw_destination, iv) == d.subrange(at, at + osz)
    &&& m.sub_mesh_table == le32_at(d, at + osz)
    &&& seq_le32(m.position_scale@) == d.subrange(at + osz + 4, at + osz + 20)
    &&& seq_le32(m.position_bias@) == d.subrange(at + osz + 20, at + osz + 36)
    &&& seq_le32(m.uv_scale@) == d.subrange(at + osz + 36, at + osz + 44)
    &&& seq_le32(m.uv_bias@) == d.subrange(at + osz + 44, at + osz + 52)
    &&& m.cloth_id == d[at + osz + 52]
    &&& m.pad@ == d.subrange(at + osz + 53, at + osz + 56)
    &&& parsed_submesh(
        d,
        le32_at(d, m.sub_mesh_table as int) as int,
        is_weighted_flags(header_flags),
        m.object.header.draw_destination,
        m.object.flags,
        m.cloth_id,
        iv,
        m.sub_mesh,
    )
}

impl SPrimMesh {
    /// Read a mesh record and its whole sub-mesh subtree, and succeed exactly
    /// when the buffer is readable here: `Some` if and only if
    /// [`readable_mesh`] holds. On success the result is well formed,
    /// satisfies [`parsed_mesh`], and the cursor is left right after the
    /// fixed mesh record.
    #[verifier::rlimit(100)]
    #[verifier::spinoff_prover]
    pub fn read(d: &Vec<u8>, pos: &mut usize, header_flags: u32, input_version: GameVersion) -> (r:
        Option<SPrimMesh>)
        ensures
            r is Some <==> readable_mesh(d@, *old(pos) as int, header_flags, input_version),
            r matches Some(m) ==> {
                &&& m.wf(is_weighted_flags(header_flags))
                &&& parsed_mesh(d@, *old(pos) as int, header_flags, input_version, m)
                &&& *final(pos) == *old(pos) + mesh_fixed_size(input_version)
            },
    {
        let ghost at = *old(pos) as int;
        let start = *pos;
        let dlen: usize = d.len();
        let fixed: usize = if input_version.extended_layout() {
            100
        } else {
            96
        };
        if start > dlen || dlen - start < fixed {
            proof {
                assert(!readable_mesh(d@, at, header_flags, input_version)) by {
                    reveal(readable_mesh);
                }
            }
            return None;
        }
        // The whole fixed record fits; its reads cannot fail.
        let object = match SPrimObject::read(d, pos, input_version) {
            Some(o) => o,
            None => vstd::pervasive::unreached(),
        };
        proof {
            crate::writer::lemma_object_emit_fields(
                object,
                object.header.draw_destination,
                input_version,
            );
            assert(object.header.draw_destination == d@[at]);
            assert(object.flags == d@[at + 5]);
        }
        let sub_mesh_table = take_u32(d, pos);
        let position_scale = take_u32_words(d, pos, 4);
        let position_bias = take_u32_words(d, pos, 4);
        let uv_scale = take_u32_words(d, pos, 2);
        let uv_bias = take_u32_words(d, pos, 2);
        let cloth_id = match read_u8(d, pos) {
            Some(v) => v,
            None => vstd::pervasive::unreached(),
        };
        let pad = match read_u8_array(d, pos, 3) {
            Some(v) => v,
            None => vstd::pervasive::unreached(),
        };
        let mut cursor: usize = sub_mesh_table as usize;
        let sub_mesh_offset = match read_u32(d, &mut cursor) {
            Some(v) => v,
            None => {
                proof {
                    assert(!readable_mesh(d@, at, header_flags, input_version)) by {
                        reveal(readable_mesh);
                    }
                }
                return None;
            },
        };
        cursor = sub_mesh_offset as usize;
        let sub_mesh = match SPrimSubMesh::read(
            d,
            &mut cursor,
            header_flags,
            object.header.draw_destination,
            object.flags,
            cloth_id,
            input_version,
        ) {
            Some(sm) => sm,
            None => {
                proof {
                    assert(!readable_mesh(d@, at, header_flags, input_version)) by {
                        reveal(readable_mesh);
                    }
                }
                return None;
            },
        };
        let m = SPrimMesh {
            object,
            sub_mesh_table,
            sub_mesh,
            position_scale,
            position_bias,
            uv_scale,
            uv_bias,
            cloth_id,
            pad,
        };
        proof {
            lemma_seq_le32_of_bytes(d@, at + object_size(input_version) + 4, m.position_scale@);
            lemma_seq_le32_of_bytes(d@, at + object_size(input_version) + 20, m.position_bias@);
            lemma_seq_le32_of_bytes(d@, at + object_size(input_version) + 36, m.uv_scale@);
            lemma_seq_le32_of_bytes(d@, at + object_size(input_version) + 44, m.uv_bias@);
            assert(readable_mesh(d@, at, header_flags, input_version)) by {
                reveal(readable_mesh);
            }
            assert(parsed_mesh(d@, at, header_flags, input_version, m)) by {
                reveal(parsed_mesh);
            }
        }
        Some(m)
    }
}

/// When a weighted-mesh subtree can be read at `at`: the mesh subtree is
/// readable, the four-word weighted trailer fits, and every skeletal payload
/// a non-zero offset names fits at its position.
#[verifier::opaque]
pub open spec fn readable_weighted(d: Seq<u8>, at: int, header_flags: u32, iv: GameVersion) -> bool {
    let t = at + mesh_fixed_size(iv);
    let ncb = le32_at(d, t);
    let ocb = le32_at(d, t + 4);
    let obi = le32_at(d, t + 8);
    let obf = le32_at(d, t + 12);
    &&& readable_mesh(d, at, header_flags, iv)
    &&& t + 16 <= d.len()
    &&& (ncb > 0 && ocb > 0 ==> ocb + 8 * ncb <= d.len())
    &&& (obi > 0 ==> obi + bone_prefix_size(iv) <= d.len() && bone_entries_at(d, obi as int, iv)
        >= 0 && obi + bone_prefix_size(iv) + 2 * bone_entries_at(d, obi as int, iv) <= d.len())
    &&& (obf > 0 ==> obf + 2 <= d.len() && obf + le16_at(d, obf as int) <= d.len())
}

/// What it means for `w` to be the weighted mesh parsed from `d` at `at`: a
/// parsed mesh, the weighted trailer's count and offsets, and each skeletal
/// payload re-encoding to the bytes at its stored offset.
#[verifier::opaque]
pub open spec fn parsed_weighted(
    d: Seq<u8>,
    at: int,
    header_flags: u32,
    iv: GameVersion,
    w: SPrimMeshWeighted,
) -> bool {
    let t = at + mesh_fixed_size(iv);
    &&& parsed_mesh(d, at, header_flags, iv, w.mesh)
    &&& w.num_copy_bones == le32_at(d, t)
    &&& w.offset_copy_bones == le32_at(d, t + 4)
    &&& w.offset_bone_indices == le32_at(d, t + 8)
    &&& w.offset_bone_info == le32_at(d, t + 12)
    &&& (w.copy_bones matches Some(cb) ==> seq_le32(cb.data@) == d.subrange(
        w.offset_copy_bones as int,
        w.offset_copy_bones + 8 * w.num_copy_bones,
    ))
    &&& (w.bone_indices matches Some(b) ==> bone_indices_body(b.data@, iv) == d.subrange(
        w.offset_bone_indices as int,
        w.offset_bone_indices + bone_prefix_size(iv) + 2 * b.data@.len(),
    ))
    &&& (w.bone_info matches Some(bi) ==> bi.data@.len() == le16_at(d, w.offset_bone_info as int)
        && bi.data@ == d.subrange(
        w.offset_bone_info as int,
        w.offset_bone_info + le16_at(d, w.offset_bone_info as int),
    ))
}

impl SPrimMeshWeighted {
    /// Read a weighted mesh record, its sub-mesh subtree and its skeletal
    /// payloads, and succeed exactly when the buffer is readable here: `Some`
    /// if and only if [`readable_weighted`] holds. On success the result is
    /// well formed and satisfies [`parsed_weighted`].
    #[verifier::rlimit(100)]
    #[verifier::spinoff_prover]
    pub fn read(d: &Vec<u8>, pos: &mut usize, header_flags: u32, input_version: GameVersion) -> (r:
        Option<SPrimMeshWeighted>)
        ensures
            r is Some <==> readable_weighted(d@, *old(pos) as int, header_flags, input_version),
            r matches Some(w) ==> {
                &&& (is_weighted_flags(header_flags) ==> w.wf())
                &&& parsed_weighted(d@, *old(pos) as int, header_flags, input_version, w)
            },
    {
        let ghost at = *old(pos) as int;
        let dlen: usize = d.len();
        let mesh = match SPrimMesh::read(d, pos, header_flags, input_version) {
            Some(m) => m,
            None => {
                proof {
                    assert(!readable_weighted(d@, at, header_flags, input_version)) by {
                        reveal(readable_weighted);
                    }
                }
                return None;
            },
        };
        if *pos > dlen || dlen - *pos < 16 {
            proof {
                assert(!readable_weighted(d@, at, header_flags, input_version)) by {
                    reveal(readable_weighted);
                }
            }
            return None;
        }
        let num_copy_bones = take_u32(d, pos);
        let offset_copy_bones = take_u32(d, pos);
        let offset_bone_indices = take_u32(d, pos);
        let offset_bone_info = take_u32(d, pos);
        let copy_bones: Option<CopyBones> = if num_copy_bones > 0 && offset_copy_bones > 0 {
            *pos = offset_copy_bones as usize;
            match CopyBones::read(d, pos, num_copy_bones) {
                Some(v) => Some(v),
                None => {
                    proof {
                        assert(!readable_weighted(d@, at, header_flags, input_version)) by {
                            reveal(readable_weighted);
                        }
                    }
                    return None;
                },
            }
        } else {
            None
        };
        let bone_indices: Option<BoneIndices> = if offset_bone_indices > 0 {
            *pos = offset_bone_indices as usize;
            match BoneIndices::read(d, pos, input_version) {
                Some(v) => Some(v),
                None => {
                    proof {
                        assert(!readable_weighted(d@, at, header_flags, input_version)) by {
                            reveal(readable_weighted);
                        }
                    }
                    return None;
                },
            }
        } else {
            None
        };
        let bone_info: Option<BoneInfo> = if offset_bone_info > 0 {
            *pos = offset_bone_info as usize;
            match BoneInfo::read(d, pos) {
                Some(v) => Some(v),
                None => {
                    proof {
                        assert(!readable_weighted(d@, at, header_flags, input_version)) by {
                            reveal(readable_weighted);
                        }
                    }
                    return None;
                },
            }
        } else {
            None
        };
        let w = SPrimMeshWeighted {
            mesh,
            num_copy_bones,
            offset_copy_bones,
            copy_bones,
            offset_bone_indices,
            bone_indices,
            offset_bone_info,
            bone_info,
        };
        proof {
            assert(readable_weighted(d@, at, header_flags, input_version)) by {
                reveal(readable_weighted);
            }
            assert(parsed_weighted(d@, at, header_flags, input_version, w)) by {
                reveal(parsed_weighted);
            }
        }
        Some(w)
    }
}

// ---------------------------------------------------------------------------
// File header and whole file
// ---------------------------------------------------------------------------
/// What it means for the fixed fields of `h` to be parsed from `d` at `at`.
pub open spec fn parsed_header_fixed(d: Seq<u8>, at: int, h: SPrimObjectHeader) -> bool {
    &&& header4(h.header) == d.subrange(at, at + 4)
    &&& h.header_flags == le32_at(d, at + 4)
    &&& h.bone_rig_resource_index == le32_at(d, at + 8)
    &&& h.num_objects == le32_at(d, at + 12)
    &&& h.object_table == le32_at(d, at + 16)
    &&& seq_le32(h.bounding_box_min@) == d.subrange(at + 20, at + 32)
    &&& seq_le32(h.bounding_box_max@) == d.subrange(at + 32, at + 44)
}

/// When the `i`-th object-table entry and the subtree it names can be read:
/// the table word fits, and the object at its stored offset is readable as a
/// weighted or plain mesh, as the file-level flag demands.
#[verifier::opaque]
pub open spec fn readable_object_entry(
    d: Seq<u8>,
    object_table: int,
    header_flags: u32,
    iv: GameVersion,
    i: int,
) -> bool {
    &&& object_table + 4 * i + 4 <= d.len()
    &&& (if is_weighted_flags(header_flags) {
        readable_weighted(d, le32_at(d, object_table + 4 * i) as int, header_flags, iv)
    } else {
        readable_mesh(d, le32_at(d, object_table + 4 * i) as int, header_flags, iv)
    })
}

/// When a whole PRIM file can be read: the leading main offset and the file
/// header record it names fit, and every object-table entry is readable.
#[verifier::opaque]
pub open spec fn readable_prim(d: Seq<u8>, iv: GameVersion) -> bool {
    let main = le32_at(d, 0) as int;
    &&& 4 <= d.len()
    &&& main + 44 <= d.len()
    &&& forall|o: int|
        0 <= o < le32_at(d, main + 12) ==> #[trigger] readable_object_entry(
            d,
            le32_at(d, main + 16) as int,
            le32_at(d, main + 4),
            iv,
            o,
        )
}

/// What it means for `o` to be the `i`-th child object parsed through the
/// object table: a weighted mesh on weighted files, a plain mesh otherwise,
/// at the absolute offset the table stores.
pub open spec fn parsed_object_entry(
    d: Seq<u8>,
    object_table: int,
    header_flags: u32,
    iv: GameVersion,
    i: int,
    o: Object,
) -> bool {
    let off = le32_at(d, object_table + 4 * i) as int;
    if is_weighted_flags(header_flags) {
        o matches Object::MeshWeighted(w) && parsed_weighted(d, off, header_flags, iv, w)
    } else {
        o matches Object::Mesh(m) && parsed_mesh(d, off, header_flags, iv, m)
    }
}

/// What it means for `p` to be the tree parsed from the whole file `d`: the
/// first word names the file header record, its fixed fields decode there,
/// and every child object parses through the object table.
pub open spec fn parsed_prim(d: Seq<u8>, iv: GameVersion, p: Prim) -> bool {
    let main = le32_at(d, 0) as int;
    &&& parsed_header_fixed(d, main, p.header)
    &&& p.header.objects@.len() == p.header.num_objects
    &&& forall|i: int|
        0 <= i < p.header.objects@.len() ==> parsed_object_entry(
            d,
            p.header.object_table as int,
            p.header.header_flags,
            iv,
            i,
            #[trigger] p.header.objects@[i],
        )
}

impl SPrimObjectHeader {
    /// Read the fixed fields of the file header record (the object list stays
    /// empty until [`Self::read_objects`]). `Some` exactly when the record
    /// fits.
    pub fn read(d: &Vec<u8>, pos: &mut usize) -> (r: Option<SPrimObjectHeader>)
        ensures
            r is Some <==> *old(pos) + 44 <= d@.len(),
            r matches Some(h) ==> {
                &&& parsed_header_fixed(d@, *old(pos) as int, h)
                &&& h.bounding_box_min@.len() == 3
                &&& h.bounding_box_max@.len() == 3
                &&& h.objects@.len() == 0
                &&& *final(pos) == *old(pos) + 44
            },
    {
        let ghost at = *old(pos) as int;
        let header = match SPrimHeader::read(d, pos) {
            Some(h) => h,
            None => {
                return None;
            },
        };
        let header_flags = match read_u32(d, pos) {
            Some(v) => v,
            None => {
                return None;
            },
        };
        let bone_rig_resource_index = match read_u32(d, pos) {
            Some(v) => v,
            None => {
                return None;
            },
        };
        let num_objects = match read_u32(d, pos) {
            Some(v) => v,
            None => {
                return None;
            },
        };
        let object_table = match read_u32(d, pos) {
            Some(v) => v,
            None => {
                return None;
            },
        };
        let bounding_box_min = match read_u32_array(d, pos, 3) {
            Some(v) => v,
            None => {
                return None;
            },
        };
        let bounding_box_max = match read_u32_array(d, pos, 3) {
            Some(v) => v,
            None => {
                return None;
            },
        };
        let h = SPrimObjectHeader {
            header,
            header_flags,
            bone_rig_resource_index,
            num_objects,
            object_table,
            bounding_box_min,
            bounding_box_max,
            objects: Vec::new(),
        };
        proof {
            lemma_seq_le32_of_bytes(d@, at + 20, h.bounding_box_min@);
            lemma_seq_le32_of_bytes(d@, at + 32, h.bounding_box_max@);
        }
        Some(h)
    }

    /// Materialize every child object by chasing the object table, and
    /// succeed exactly when every entry is readable: `true` if and only if
    /// [`readable_object_entry`] holds for each index. On success the header
    /// is well formed and every child satisfies [`parsed_object_entry`]; on
    /// failure the header is left unchanged.
    #[verifier::rlimit(100)]
    #[verifier::spinoff_prover]
    pub fn read_objects(&mut self, d: &Vec<u8>, input_version: GameVersion) -> (r: bool)
        requires
            old(self).objects@.len() == 0,
            old(self).bounding_box_min@.len() == 3,
            old(self).bounding_box_max@.len() == 3,
        ensures
            r <==> forall|o: int|
                0 <= o < old(self).num_objects ==> #[trigger] readable_object_entry(
                    d@,
                    old(self).object_table as int,
                    old(self).header_flags,
                    input_version,
                    o,
                ),
            !r ==> *final(self) == *old(self),
            final(self).header == old(self).header,
            final(self).header_flags == old(self).header_flags,
            final(self).bone_rig_resource_index == old(self).bone_rig_resource_index,
            final(self).num_objects == old(self).num_objects,
            final(self).object_table == old(self).object_table,
            final(self).bounding_box_min == old(self).bounding_box_min,
            final(self).bounding_box_max == old(self).bounding_box_max,
            r ==> {
                &&& final(self).wf()
                &&& forall|i: int|
                    0 <= i < final(self).objects@.len() ==> parsed_object_entry(
                        d@,
                        old(self).object_table as int,
                        old(self).header_flags,
                        input_version,
                        i,
                        #[trigger] final(self).objects@[i],
                    )
            },
    {
        let ghost table = self.object_table as int;
        let ghost flags = self.header_flags;
        let weighted = self.header_flags & 8 == 8;
        let dlen: usize = d.len();
        let n = self.num_objects;
        let mut objects: Vec<Object> = Vec::new();
        let mut o: u32 = 0;
        while o < n
            invariant
                weighted == is_weighted_flags(self.header_flags),
                o <= n,
                n == self.num_objects,
                dlen == d@.len(),
                table == self.object_table as int,
                flags == self.header_flags,
                objects@.len() == o,
                self == old(self),
                forall|j: int|
                    0 <= j < o ==> #[trigger] objects@[j].wf(is_weighted_flags(self.header_flags)),
                forall|j: int|
                    0 <= j < o ==> parsed_object_entry(
                        d@,
                        self.object_table as int,
                        self.header_flags,
                        input_version,
                        j,
                        #[trigger] objects@[j],
                    ),
                forall|j: int|
                    0 <= j < o ==> #[trigger] readable_object_entry(
                        d@,
                        table,
                        flags,
                        input_version,
                        j,
                    ),
            decreases n - o,
        {
            let t64: u64 = self.object_table as u64 + 4 * (o as u64);
            if t64 > usize::MAX as u64 {
                proof {
                    assert(!readable_object_entry(d@, table, flags, input_version, o as int)) by {
                        reveal(readable_object_entry);
                    }
                }
                return false;
            }
            let mut cursor: usize = t64 as usize;
            let object_offset = match read_u32(d, &mut cursor) {
                Some(v) => v,
                None => {
                    proof {
                        assert(!readable_object_entry(d@, table, flags, input_version, o as int))
                            by {
                            reveal(readable_object_entry);
                        }
                    }
                    return false;
                },
            };
            cursor = object_offset as usize;
            if weighted {
                let w = match SPrimMeshWeighted::read(d, &mut cursor, self.header_flags, input_version) {
                    Some(w) => w,
                    None => {
                        proof {
                            assert(!readable_object_entry(
                                d@,
                                table,
                                flags,
                                input_version,
                                o as int,
                            )) by {
                                reveal(readable_object_entry);
                            }
                        }
                        return false;
                    },
                };
                objects.push(Object::MeshWeighted(w));
            } else {
                let m = match SPrimMesh::read(d, &mut cursor, self.header_flags, input_version) {
                    Some(m) => m,
                    None => {
                        proof {
                            assert(!readable_object_entry(
                                d@,
                                table,
                                flags,
                                input_version,
                                o as int,
                            )) by {
                                reveal(readable_object_entry);
                            }
                        }
                        return false;
                    },
                };
                objects.push(Object::Mesh(m));
            }
            proof {
                assert(readable_object_entry(d@, table, flags, input_version, o as int)) by {
                    reveal(readable_object_entry);
                }
            }
            o = o + 1;
        }
        self.objects = objects;
        true
    }
}

impl Prim {
    /// Parse a whole PRIM file: follow the leading main offset to the file
    /// header record and materialize the full record tree. The parse succeeds
    /// exactly when the buffer is readable: `Some` if and only if
    /// [`readable_prim`] holds; on success the tree is well formed and
    /// satisfies [`parsed_prim`].
    #[verifier::rlimit(100)]
    #[verifier::spinoff_prover]
    pub fn read(data: &Vec<u8>, input_version: GameVersion) -> (r: Option<Prim>)
        ensures
            r is Some <==> readable_prim(data@, input_version),
            r matches Some(p) ==> {
                &&& p.wf()
                &&& parsed_prim(data@, input_version, p)
            },
    {
        let mut pos: usize = 0;
        let main_offset = match read_u32(data, &mut pos) {
            Some(v) => v,
            None => {
                proof {
                    assert(!readable_prim(data@, input_version)) by {
                        reveal(readable_prim);
                    }
                }
                return None;
            },
        };
        pos = main_offset as usize;
        let mut header = match SPrimObjectHeader::read(data, &mut pos) {
            Some(h) => h,
            None => {
                proof {
                    assert(!readable_prim(data@, input_version)) by {
                        reveal(readable_prim);
                    }
                }
                return None;
            },
        };
        if !header.read_objects(data, input_version) {
            proof {
                assert(!readable_prim(data@, input_version)) by {
                    reveal(readable_prim);
                }
            }
            return None;
        }
        proof {
            assert(readable_prim(data@, input_version)) by {
                reveal(readable_prim);
            }
        }
        Some(Prim { header })
    }
}

// ---------------------------------------------------------------------------
// Laws bridging parse and emit
// ---------------------------------------------------------------------------
/// An index payload survives a transcode byte for byte: what the writer emits
/// for a parsed sub-mesh's indices begins with exactly the bytes the reader
/// took them from, whatever the output version and position. Only the
/// `num_indices_extra` header word can be dropped, never the entries.
pub proof fn lemma_index_payload_preserved(
    d: Seq<u8>,
    at: int,
    weighted: bool,
    mesh_dd: u8,
    mesh_flags: u8,
    cloth_id: u8,
    iv: GameVersion,
    s: SPrimSubMesh,
    at_out: int,
)
    requires
        parsed_submesh(d, at, weighted, mesh_dd, mesh_flags, cloth_id, iv, s),
    ensures
        s.indices matches Some(ind) ==> crate::writer::indices_emit(ind.indices@, at_out).subrange(
            0,
            2 * (s.num_indices + s.extra_or_zero()),
        ) == d.subrange(
            s.offset_indices as int,
            s.offset_indices + 2 * (s.num_indices + s.extra_or_zero()),
        ),
{
    reveal(parsed_submesh);
    reveal(crate::writer::indices_emit);
    if s.indices is Some {
        let ind = s.indices->Some_0;
        let b = seq_le16(ind.indices@);
        assert(b.len() == d.subrange(
            s.offset_indices as int,
            s.offset_indices + 2 * (s.num_indices + s.extra_or_zero()),
        ).len());
        assert(crate::writer::indices_emit(ind.indices@, at_out).subrange(0, b.len() as int)
            =~= b);
        assert(b.len() as int == 2 * (s.num_indices + s.extra_or_zero()));
        assert(crate::writer::indices_emit(ind.indices@, at_out).subrange(
            0,
            2 * (s.num_indices + s.extra_or_zero()),
        ) == d.subrange(
            s.offset_indices as int,
            s.offset_indices + 2 * (s.num_indices + s.extra_or_zero()),
        ));
    }
}

/// A cloth payload survives a transcode byte for byte, length prefix
/// included: what the writer emits for a parsed sub-mesh's cloth begins with
/// exactly the bytes the reader took it from.
pub proof fn lemma_cloth_payload_preserved(
    d: Seq<u8>,
    at: int,
    weighted: bool,
    mesh_dd: u8,
    mesh_flags: u8,
    cloth_id: u8,
    iv: GameVersion,
    s: SPrimSubMesh,
    at_out: int,
)
    requires
        parsed_submesh(d, at, weighted, mesh_dd, mesh_flags, cloth_id, iv, s),
    ensures
        s.cloth matches Some(c) ==> crate::writer::blob_emit(c.data@, at_out).subrange(
            0,
            c.data@.len() as int,
        ) == d.subrange(
            s.offset_cloth as int,
            s.offset_cloth + cloth_stored_size(d, s.offset_cloth as int, s.num_vertices, cloth_id),
        ),
{
    reveal(parsed_submesh);
    reveal(crate::writer::blob_emit);
    if s.cloth is Some {
        let c = s.cloth->Some_0;
        assert(c.data@.len() == d.subrange(
            s.offset_cloth as int,
            s.offset_cloth + cloth_stored_size(d, s.offset_cloth as int, s.num_vertices, cloth_id),
        ).len());
        assert(crate::writer::blob_emit(c.data@, at_out).subrange(0, c.data@.len() as int)
            =~= c.data@);
        assert(crate::writer::blob_emit(c.data@, at_out).subrange(0, c.data@.len() as int)
            == d.subrange(
            s.offset_cloth as int,
            s.offset_cloth + cloth_stored_size(d, s.offset_cloth as int, s.num_vertices, cloth_id),
        ));
    }
}

/// A file-level round trip at the boundary: the output written for a tree
/// without objects can be read again, whatever the versions involved. (The
/// writer's laws give the bytes; this connects them to the reader's
/// success condition.)
#[verifier::rlimit(100)]
#[verifier::spinoff_prover]
pub proof fn lemma_empty_tree_output_reads_back(
    p: Prim,
    v: GameVersion,
    no_cloth: bool,
    iv: GameVersion,
)
    requires
        p.wf(),
        p.header.objects@.len() == 0,
    ensures
        readable_prim(crate::writer::prim_emit(p, v, no_cloth), iv),
{
    let d = crate::writer::prim_emit(p, v, no_cloth);
    let he = crate::writer::header_emit(p.header, v, no_cloth, 16);
    let e = crate::writer::objects_emit(p.header.objects@, p.header.header_flags, v, no_cloth, 16);
    crate::writer::lemma_empty_tree_output(p, v, no_cloth);
    assert(e == (Seq::<u8>::empty(), Seq::<u32>::empty())) by {
        reveal(crate::writer::objects_emit);
    }
    let b_hdr = crate::writer::header4(p.header.header) + crate::io::le32(p.header.header_flags)
        + crate::io::le32(p.header.bone_rig_resource_index) + crate::io::le32(e.1.len() as u32)
        + crate::io::le32(16u32) + seq_le32(p.header.bounding_box_min@) + seq_le32(
        p.header.bounding_box_max@,
    );
    assert(he.0 == e.0 + (seq_le32(e.1) + crate::writer::pad16(16 + seq_le32(e.1).len() as int))
        + (b_hdr + crate::writer::pad16(16 + b_hdr.len() as int))) by {
        reveal(crate::writer::header_emit);
    }
    crate::io::lemma_seq_le32_len(p.header.bounding_box_min@);
    crate::io::lemma_seq_le32_len(p.header.bounding_box_max@);
    assert(seq_le32(Seq::<u32>::empty()) == Seq::<u8>::empty());
    assert(crate::writer::pad16(16int).len() == 0);
    assert(b_hdr.len() == 44);
    assert(d == crate::io::le32(16u32) + crate::io::zero_bytes(12) + he.0);
    assert(d.len() == 64);
    // The leading word names position 16.
    assert(d.subrange(0, 4) =~= crate::io::le32(16u32));
    crate::io::lemma_le32_decode(16u32);
    assert(le32_at(d, 0) == le32_at(crate::io::le32(16u32), 0));
    assert(le32_at(d, 0) == 16);
    // The stored object count at position 28 is zero.
    assert(d.subrange(28, 32) =~= crate::io::le32(0u32));
    crate::io::lemma_le32_decode(0u32);
    assert(le32_at(d, 28) == le32_at(crate::io::le32(0u32), 0));
    assert(le32_at(d, 28) == 0);
    assert(readable_prim(d, iv)) by {
        reveal(readable_prim);
    }
}

} // verus!
