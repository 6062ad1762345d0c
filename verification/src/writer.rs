//! Serialisation of the record tree. Every writer appends to a growing byte
//! buffer and is specified against an `*_emit` function that gives the exact
//! bytes appended, as a function of the record, the version policy, and the
//! absolute position `at` where appending starts (the position decides the
//! padding and the stored offsets).
//!
//! The layout is two-pass in one sweep: payload records are emitted before
//! the header that points at them, so every stored offset names a position
//! already written.
use crate::io::{
    align, le16, le32, lemma_seq_le32_len, pad_len, seq_le16, seq_le32, shift2,
    shift3, shift4, shift5, shift6, shift7, shift8, shift9, store_u32_at, write_u16, write_u16_into, write_u32,
    write_u32_into, write_u8_into, write_zero_bytes, zero_bytes,
};
use crate::prim::{
    alt_packing, bone_count_fits, color1_flag, hi_res_flags, is_weighted_flags, pos_words,
    spec_get_draw_destination, spec_keep_object, spec_num_uv_channels, BoneIndices, BoneInfo,
    Cloth, Collision, CopyBones, Indices, Object, Prim, SPrimHeader, SPrimMesh, SPrimMeshWeighted,
    SPrimObject, SPrimObjectHeader, SPrimSubMesh, Vertices,
};
use crate::GameVersion;
use vstd::prelude::*;

verus! {

/// Zero padding from position `p` up to the next 16-byte boundary.
pub open spec fn pad16(p: int) -> Seq<u8> {
    zero_bytes(pad_len(p, 16))
}

/// The value of an optional word, with zero standing for absence.
pub open spec fn opt_or_zero(x: Option<u32>) -> u32 {
    match x {
        Some(v) => v,
        None => 0,
    }
}

// ---------------------------------------------------------------------------
// Leaf payload records
// ---------------------------------------------------------------------------
/// Bytes of an index payload written at `at`: the 16-bit indices, padded.
#[verifier::opaque]
pub open spec fn indices_emit(ind: Seq<u16>, at: int) -> Seq<u8> {
    let b = seq_le16(ind);
    b + pad16(at + b.len())
}

/// Bytes of a collision payload without its padding: box count, triangles
/// per box, the box corners.
pub open spec fn collision_body(c: Collision) -> Seq<u8> {
    le16((c.bounding_boxes@.len() as int / 6) as u16) + le16(c.triangles_per_box)
        + c.bounding_boxes@
}

/// Bytes of a collision payload written at `at`: box count, triangles per
/// box, the box corners, padded.
#[verifier::opaque]
pub open spec fn collision_emit(c: Collision, at: int) -> Seq<u8> {
    let b = collision_body(c);
    b + pad16(at + b.len())
}

/// Bytes of an opaque blob (cloth, bone info) written at `at`: the blob,
/// padded.
#[verifier::opaque]
pub open spec fn blob_emit(data: Seq<u8>, at: int) -> Seq<u8> {
    data + pad16(at + data.len())
}

/// Bytes of a copy-bones payload written at `at`.
#[verifier::opaque]
pub open spec fn copy_bones_emit(d: Seq<u32>, at: int) -> Seq<u8> {
    let b = seq_le32(d);
    b + pad16(at + b.len())
}

/// The version-encoded count prefix of a bone-index list of `n` entries:
/// `n + 1` as 16 bits for the early generations, `n + 2` as 32 bits for the
/// later ones.
pub open spec fn bone_index_prefix(n: int, v: GameVersion) -> Seq<u8> {
    if v.spec_extended_layout() {
        le32((n + 2) as u32)
    } else {
        le16((n + 1) as u16)
    }
}

/// Bytes of a bone-index payload without its padding: the version-encoded
/// count prefix, then the entries.
pub open spec fn bone_indices_body(d: Seq<u16>, v: GameVersion) -> Seq<u8> {
    bone_index_prefix(d.len() as int, v) + seq_le16(d)
}

/// Bytes of a bone-index payload written at `at` for output version `v`.
#[verifier::opaque]
pub open spec fn bone_indices_emit(d: Seq<u16>, v: GameVersion, at: int) -> Seq<u8> {
    let b = bone_indices_body(d, v);
    b + pad16(at + b.len())
}

/// The four bytes of a record prefix.
pub open spec fn header4(h: SPrimHeader) -> Seq<u8> {
    seq![h.draw_destination, h.pack_type] + le16(h.prim_type)
}

/// Bytes of an object record with draw destination `dd` written for version
/// `v`: 40 bytes, or 44 when `v` stores the `color1` word.
#[verifier::opaque]
pub open spec fn object_emit(o: SPrimObject, dd: u8, v: GameVersion) -> Seq<u8> {
    seq![dd, o.header.pack_type] + le16(o.header.prim_type) + seq![
        o.sub_type,
        o.flags,
        o.lod_mask,
        o.variant_id,
        o.bias,
        o.offset,
    ] + le16(o.material_id) + le32(o.wire_color) + (if v.spec_extended_layout() {
        le32(opt_or_zero(o.color1))
    } else {
        Seq::<u8>::empty()
    }) + seq_le32(o.bounding_box_min@) + seq_le32(o.bounding_box_max@)
}

/// An object record is 40 bytes long, 44 when the version stores `color1`.
pub proof fn lemma_object_emit_len(o: SPrimObject, dd: u8, v: GameVersion)
    requires
        o.wf(),
    ensures
        object_emit(o, dd, v).len() == if v.spec_extended_layout() {
            44int
        } else {
            40int
        },
{
    reveal(object_emit);
    lemma_seq_le32_len(o.bounding_box_min@);
    lemma_seq_le32_len(o.bounding_box_max@);
}

// ---------------------------------------------------------------------------
// Vertex streams
// ---------------------------------------------------------------------------
/// Bytes of vertex `i`'s interleaved block, over the five attribute streams:
/// under alternate packing the vertex's position words lead; then its normal,
/// tangent, bitangent and UV words.
pub open spec fn vertex_block_streams(
    p_seq: Seq<u16>,
    n_seq: Seq<u32>,
    t_seq: Seq<u32>,
    b_seq: Seq<u32>,
    u_seq: Seq<u32>,
    alt: bool,
    hi: bool,
    i: int,
) -> Seq<u8> {
    (if alt {
        seq_le16(p_seq.subrange(i * pos_words(hi), (i + 1) * pos_words(hi)))
    } else {
        Seq::<u8>::empty()
    }) + le32(n_seq[i]) + le32(t_seq[i]) + le32(b_seq[i]) + le32(u_seq[i])
}

/// The first `n` interleaved per-vertex blocks, in order, over the streams.
pub open spec fn vertex_blocks_streams(
    p_seq: Seq<u16>,
    n_seq: Seq<u32>,
    t_seq: Seq<u32>,
    b_seq: Seq<u32>,
    u_seq: Seq<u32>,
    alt: bool,
    hi: bool,
    n: int,
) -> Seq<u8>
    decreases n,
{
    if n <= 0 {
        Seq::<u8>::empty()
    } else {
        vertex_blocks_streams(p_seq, n_seq, t_seq, b_seq, u_seq, alt, hi, n - 1)
            + vertex_block_streams(p_seq, n_seq, t_seq, b_seq, u_seq, alt, hi, n - 1)
    }
}

/// Bytes of vertex `i`'s interleaved block.
pub open spec fn vertex_block(vtx: Vertices, alt: bool, hi: bool, i: int) -> Seq<u8> {
    vertex_block_streams(
        vtx.positions@,
        vtx.normals@,
        vtx.tangents@,
        vtx.bitangents@,
        vtx.uvs@,
        alt,
        hi,
        i,
    )
}

/// The first `n` interleaved per-vertex blocks, in order.
pub open spec fn vertex_blocks(vtx: Vertices, alt: bool, hi: bool, n: int) -> Seq<u8> {
    vertex_blocks_streams(
        vtx.positions@,
        vtx.normals@,
        vtx.tangents@,
        vtx.bitangents@,
        vtx.uvs@,
        alt,
        hi,
        n,
    )
}

/// Bytes of a vertex payload without its padding. Without alternate packing
/// all position words lead; the weight/bone block follows on weighted files;
/// then the per-vertex interleaved blocks; then the color words when
/// `store_colors`.
pub open spec fn vertices_body(
    vtx: Vertices,
    weighted: bool,
    alt: bool,
    hi: bool,
    store_colors: bool,
) -> Seq<u8> {
    (if !alt {
        seq_le16(vtx.positions@)
    } else {
        Seq::<u8>::empty()
    }) + (if weighted {
        vtx.weights@
    } else {
        Seq::<u8>::empty()
    }) + vertex_blocks(vtx, alt, hi, vtx.normals@.len() as int) + (if store_colors {
        seq_le32(vtx.colors@)
    } else {
        Seq::<u8>::empty()
    })
}

/// Bytes of a vertex payload written at `at`: the body, padded.
#[verifier::opaque]
pub open spec fn vertices_emit(
    vtx: Vertices,
    weighted: bool,
    alt: bool,
    hi: bool,
    write_colors: bool,
    at: int,
) -> Seq<u8> {
    let b = vertices_body(vtx, weighted, alt, hi, write_colors);
    b + pad16(at + b.len())
}

impl Vertices {
    /// Append the vertex payload and pad. The packing order is taken from the
    /// draw destination that will be stored on the owning mesh, and colors
    /// are emitted only when the color stream is stored per vertex (the file
    /// is weighted or the mesh has no object-level `color1`, and the sub-mesh
    /// does not broadcast a single color).
    #[verifier::rlimit(100)]
    pub fn write(
        &self,
        out: &mut Vec<u8>,
        header_flags: u32,
        mesh_dd: u8,
        mesh_flags: u8,
        sub_mesh_flags: u8,
    )
        requires
            self.wf(
                self.normals@.len() as int,
                hi_res_flags(mesh_flags),
                is_weighted_flags(header_flags),
                is_weighted_flags(header_flags) || !color1_flag(mesh_flags),
            ),
        ensures
            final(out)@ == old(out)@ + vertices_emit(
                *self,
                is_weighted_flags(header_flags),
                alt_packing(mesh_dd),
                hi_res_flags(mesh_flags),
                (is_weighted_flags(header_flags) || !color1_flag(mesh_flags)) && !color1_flag(
                    sub_mesh_flags,
                ),
                old(out)@.len() as int,
            ),
    {
        let ghost at = old(out)@.len() as int;
        let alt = mesh_dd & 0x80 == 0x80;
        let hi = mesh_flags & 8 == 8;
        let weighted = header_flags & 8 == 8;
        if !alt {
            write_u16_into(out, self.positions.as_slice());
        }
        if weighted {
            write_u8_into(out, self.weights.as_slice());
        }
        let ghost base = out@;
        let n: usize = self.normals.len();
        let plen: usize = self.positions.len();
        let pw: usize = if hi {
            6
        } else {
            4
        };
        let mut pbase: usize = 0;
        proof {
            assert(base + vertex_blocks(*self, alt, hi, 0) =~= base);
        }
        for i in 0..n
            invariant
                self.normals@.len() == n,
                self.tangents@.len() == n,
                self.bitangents@.len() == n,
                self.uvs@.len() == n,
                plen == self.positions@.len(),
                plen == n * pos_words(hi),
                hi == hi_res_flags(mesh_flags),
                pw == pos_words(hi),
                pbase == i * pos_words(hi),
                out@ == base + vertex_blocks(*self, alt, hi, i as int),
        {
            proof {
                assert((i + 1) * pos_words(hi) == i * pos_words(hi) + pos_words(hi))
                    by (nonlinear_arith);
                assert((i + 1) * pos_words(hi) <= n * pos_words(hi)) by (nonlinear_arith)
                    requires
                        i + 1 <= n,
                        pos_words(hi) >= 0,
                ;
            }
            let ghost before = out@;
            let ghost pa = if alt {
                seq_le16(
                    self.positions@.subrange(
                        i as int * pos_words(hi),
                        (i as int + 1) * pos_words(hi),
                    ),
                )
            } else {
                Seq::<u8>::empty()
            };
            if alt {
                let s = vstd::slice::slice_subrange(self.positions.as_slice(), pbase, pbase + pw);
                write_u16_into(out, s);
            } else {
                proof {
                    assert(before + pa =~= before);
                }
            }
            proof {
                assert(out@ == before + pa);
            }
            write_u32(out, self.normals[i]);
            write_u32(out, self.tangents[i]);
            write_u32(out, self.bitangents[i]);
            write_u32(out, self.uvs[i]);
            pbase = pbase + pw;
            proof {
                shift5(
                    before,
                    pa,
                    le32(self.normals@[i as int]),
                    le32(self.tangents@[i as int]),
                    le32(self.bitangents@[i as int]),
                    le32(self.uvs@[i as int]),
                );
                assert(out@ == before + vertex_block(*self, alt, hi, i as int));
                shift2(
                    base,
                    vertex_blocks(*self, alt, hi, i as int),
                    vertex_block(*self, alt, hi, i as int),
                );
                assert(out@ == base + vertex_blocks(*self, alt, hi, i as int + 1));
            }
        }
        let ghost cbase = out@;
        let ghost colors_part = if (weighted || !color1_flag(mesh_flags)) && !color1_flag(
            sub_mesh_flags,
        ) {
            seq_le32(self.colors@)
        } else {
            Seq::<u8>::empty()
        };
        if weighted || mesh_flags & 0x20 != 0x20 {
            if sub_mesh_flags & 0x20 != 0x20 {
                write_u32_into(out, self.colors.as_slice());
            } else {
                proof {
                    assert(cbase + colors_part =~= cbase);
                }
            }
        } else {
            proof {
                assert(cbase + colors_part =~= cbase);
            }
        }
        proof {
            assert(out@ == cbase + colors_part);
        }
        let ghost wpart = if weighted {
            self.weights@
        } else {
            Seq::<u8>::empty()
        };
        let ghost ppart = if !alt {
            seq_le16(self.positions@)
        } else {
            Seq::<u8>::empty()
        };
        proof {
            if !alt {
                if weighted {
                    shift4(
                        old(out)@,
                        ppart,
                        wpart,
                        vertex_blocks(*self, alt, hi, n as int),
                        colors_part,
                    );
                } else {
                    assert(old(out)@ + ppart + wpart =~= old(out)@ + ppart);
                    shift4(
                        old(out)@,
                        ppart,
                        wpart,
                        vertex_blocks(*self, alt, hi, n as int),
                        colors_part,
                    );
                }
            } else {
                assert(old(out)@ + ppart =~= old(out)@);
                shift4(
                    old(out)@,
                    ppart,
                    wpart,
                    vertex_blocks(*self, alt, hi, n as int),
                    colors_part,
                );
                if !weighted {
                    assert(old(out)@ + ppart + wpart =~= old(out)@);
                }
            }
            let body = ppart + wpart + vertex_blocks(*self, alt, hi, n as int) + colors_part;
            assert(out@ == old(out)@ + body);
        }
        let ghost body = ppart + wpart + vertex_blocks(*self, alt, hi, n as int) + colors_part;
        align(out, 0x10);
        proof {
            reveal(vertices_emit);
            shift2(old(out)@, body, pad16(at + body.len()));
            assert(out@ == old(out)@ + (body + pad16(at + body.len())));
            assert(out@ == old(out)@ + vertices_emit(
                *self,
                is_weighted_flags(header_flags),
                alt_packing(mesh_dd),
                hi_res_flags(mesh_flags),
                (is_weighted_flags(header_flags) || !color1_flag(mesh_flags)) && !color1_flag(
                    sub_mesh_flags,
                ),
                at,
            ));
        }
    }
}

impl Indices {
    /// Append the index payload and pad.
    pub fn write(&self, out: &mut Vec<u8>)
        ensures
            final(out)@ == old(out)@ + indices_emit(self.indices@, old(out)@.len() as int),
    {
        write_u16_into(out, self.indices.as_slice());
        align(out, 0x10);
        proof {
            reveal(indices_emit);
            assert(out@ =~= old(out)@ + indices_emit(self.indices@, old(out)@.len() as int));
        }
    }
}

impl Collision {
    /// Append the collision payload and pad.
    pub fn write(&self, out: &mut Vec<u8>)
        requires
            self.wf(),
        ensures
            final(out)@ == old(out)@ + collision_emit(*self, old(out)@.len() as int),
    {
        let count: usize = self.bounding_boxes.len() / 6;
        write_u16(out, count as u16);
        write_u16(out, self.triangles_per_box);
        write_u8_into(out, self.bounding_boxes.as_slice());
        align(out, 0x10);
        proof {
            reveal(collision_emit);
            assert(out@ =~= old(out)@ + collision_emit(*self, old(out)@.len() as int));
        }
    }
}

impl Cloth {
    /// Append the cloth blob verbatim and pad.
    pub fn write(&self, out: &mut Vec<u8>)
        ensures
            final(out)@ == old(out)@ + blob_emit(self.data@, old(out)@.len() as int),
    {
        write_u8_into(out, self.data.as_slice());
        align(out, 0x10);
        proof {
            reveal(blob_emit);
            assert(out@ =~= old(out)@ + blob_emit(self.data@, old(out)@.len() as int));
        }
    }
}

impl CopyBones {
    /// Append the copy-bones payload and pad.
    pub fn write(&self, out: &mut Vec<u8>)
        ensures
            final(out)@ == old(out)@ + copy_bones_emit(self.data@, old(out)@.len() as int),
    {
        write_u32_into(out, self.data.as_slice());
        align(out, 0x10);
        proof {
            reveal(copy_bones_emit);
            assert(out@ =~= old(out)@ + copy_bones_emit(self.data@, old(out)@.len() as int));
        }
    }
}

impl BoneIndices {
    /// Append the bone-index payload with the count prefix of
    /// `output_version`, and pad. The stored count is the entry count plus
    /// one (16-bit prefix) or plus two (32-bit prefix).
    pub fn write(&self, out: &mut Vec<u8>, output_version: GameVersion)
        requires
            bone_count_fits(self.data@.len() as int, output_version),
        ensures
            final(out)@ == old(out)@ + bone_indices_emit(
                self.data@,
                output_version,
                old(out)@.len() as int,
            ),
    {
        if output_version.extended_layout() {
            write_u32(out, (self.data.len() + 2) as u32);
        } else {
            write_u16(out, (self.data.len() + 1) as u16);
        }
        write_u16_into(out, self.data.as_slice());
        align(out, 0x10);
        proof {
            reveal(bone_indices_emit);
            assert(out@ =~= old(out)@ + bone_indices_emit(
                self.data@,
                output_version,
                old(out)@.len() as int,
            ));
        }
    }
}

impl BoneInfo {
    /// Append the bone-info blob verbatim and pad.
    pub fn write(&self, out: &mut Vec<u8>)
        ensures
            final(out)@ == old(out)@ + blob_emit(self.data@, old(out)@.len() as int),
    {
        write_u8_into(out, self.data.as_slice());
        align(out, 0x10);
        proof {
            reveal(blob_emit);
            assert(out@ =~= old(out)@ + blob_emit(self.data@, old(out)@.len() as int));
        }
    }
}

impl SPrimHeader {
    /// Append the 4-byte record prefix.
    pub fn write(&self, out: &mut Vec<u8>)
        ensures
            final(out)@ == old(out)@ + header4(*self),
    {
        out.push(self.draw_destination);
        out.push(self.pack_type);
        write_u16(out, self.prim_type);
        proof {
            assert(out@ =~= old(out)@ + header4(*self));
        }
    }
}

impl SPrimObject {
    /// Append the object record, with `dd` in place of the stored draw
    /// destination. The `color1` word is emitted only for versions that have
    /// it, with zero standing for an absent value.
    pub fn write(&self, out: &mut Vec<u8>, dd: u8, output_version: GameVersion)
        requires
            self.wf(),
        ensures
            final(out)@ == old(out)@ + object_emit(*self, dd, output_version),
    {
        out.push(dd);
        out.push(self.header.pack_type);
        write_u16(out, self.header.prim_type);
        out.push(self.sub_type);
        out.push(self.flags);
        out.push(self.lod_mask);
        out.push(self.variant_id);
        out.push(self.bias);
        out.push(self.offset);
        write_u16(out, self.material_id);
        write_u32(out, self.wire_color);
        if output_version.extended_layout() {
            let color1: u32 = match &self.color1 {
                Some(c) => *c,
                None => 0,
            };
            write_u32(out, color1);
        }
        write_u32_into(out, self.bounding_box_min.as_slice());
        write_u32_into(out, self.bounding_box_max.as_slice());
        proof {
            reveal(object_emit);
            assert(out@ =~= old(out)@ + object_emit(*self, dd, output_version));
        }
    }
}


/// Bytes of the sub-mesh header record alone (no padding): the object record,
/// the counts, the captured payload offsets, and the stored UV-channel count.
#[verifier::opaque]
pub open spec fn submesh_header_emit(
    s: SPrimSubMesh,
    off_vtx: u32,
    off_ind: u32,
    off_col: u32,
    off_clo: u32,
    weighted: bool,
    v: GameVersion,
) -> Seq<u8> {
    object_emit(s.object, s.object.header.draw_destination, v) + le32(s.num_vertices) + le32(
        off_vtx,
    ) + le32(s.num_indices) + (if v.spec_extended_layout() {
        le32(s.extra_or_zero())
    } else {
        Seq::<u8>::empty()
    }) + le32(off_ind) + le32(off_col) + le32(off_clo) + le32(spec_num_uv_channels(v, weighted))
}

impl SPrimSubMesh {
    /// Append the sub-mesh header record with the given payload offsets.
    fn write_header(
        &self,
        out: &mut Vec<u8>,
        off_vertices: u32,
        off_indices: u32,
        off_collision: u32,
        off_cloth: u32,
        header_flags: u32,
        output_version: GameVersion,
    )
        requires
            self.object.wf(),
        ensures
            final(out)@ == old(out)@ + submesh_header_emit(
                *self,
                off_vertices,
                off_indices,
                off_collision,
                off_cloth,
                is_weighted_flags(header_flags),
                output_version,
            ),
    {
        let ghost v = output_version;
        let ghost weighted = is_weighted_flags(header_flags);
        self.object.write(out, self.object.header.draw_destination, output_version);
        write_u32(out, self.num_vertices);
        write_u32(out, off_vertices);
        write_u32(out, self.num_indices);
        let ghost hmid = out@;
        if output_version.extended_layout() {
            let extra: u32 = match &self.num_indices_extra {
                Some(x) => *x,
                None => 0,
            };
            write_u32(out, extra);
        } else {
            proof {
                assert(hmid + Seq::<u8>::empty() =~= hmid);
            }
        }
        write_u32(out, off_indices);
        write_u32(out, off_collision);
        write_u32(out, off_cloth);
        let num_uv_channels: u32 = match output_version {
            GameVersion::Woa => 1,
            _ => {
                if header_flags & 8 == 8 {
                    0
                } else {
                    1
                }
            },
        };
        write_u32(out, num_uv_channels);
        proof {
            reveal(submesh_header_emit);
            assert(num_uv_channels == spec_num_uv_channels(v, weighted));
            shift9(
                old(out)@,
                object_emit(self.object, self.object.header.draw_destination, v),
                le32(self.num_vertices),
                le32(off_vertices),
                le32(self.num_indices),
                if v.spec_extended_layout() {
                    le32(self.extra_or_zero())
                } else {
                    Seq::<u8>::empty()
                },
                le32(off_indices),
                le32(off_collision),
                le32(off_cloth),
                le32(spec_num_uv_channels(v, weighted)),
            );
        }
    }
}

// ---------------------------------------------------------------------------
// Sub-mesh subtree
// ---------------------------------------------------------------------------
/// Bytes of a whole sub-mesh subtree written at `at`, and the absolute
/// position of its one-word sub-mesh table. The index, vertex, collision and
/// cloth payloads come first (each aligned), then the sub-mesh header record
/// holding the captured payload offsets (zero for an absent payload), then
/// the table word pointing back at the header record.
#[verifier::opaque]
pub open spec fn submesh_emit(
    s: SPrimSubMesh,
    weighted: bool,
    mesh_dd: u8,
    mesh_flags: u8,
    v: GameVersion,
    at: int,
) -> (Seq<u8>, int) {
    let b_ind = match s.indices {
        Some(ind) => indices_emit(ind.indices@, at),
        None => Seq::<u8>::empty(),
    };
    let off_ind: u32 = if s.indices is Some {
        at as u32
    } else {
        0u32
    };
    let b1 = b_ind + pad16(at + b_ind.len());
    let p1 = at + b1.len();
    let b_vtx = match s.vertices {
        Some(vtx) => vertices_emit(
            vtx,
            weighted,
            alt_packing(mesh_dd),
            hi_res_flags(mesh_flags),
            (weighted || !color1_flag(mesh_flags)) && !color1_flag(s.object.flags),
            p1,
        ),
        None => Seq::<u8>::empty(),
    };
    let off_vtx: u32 = if s.vertices is Some {
        p1 as u32
    } else {
        0u32
    };
    let b2 = b_vtx + pad16(p1 + b_vtx.len());
    let p2 = p1 + b2.len();
    let b_col = match s.collision {
        Some(c) => collision_emit(c, p2),
        None => Seq::<u8>::empty(),
    };
    let off_col: u32 = if s.collision is Some {
        p2 as u32
    } else {
        0u32
    };
    let b3 = b_col + pad16(p2 + b_col.len());
    let p3 = p2 + b3.len();
    let b_clo = match s.cloth {
        Some(c) => blob_emit(c.data@, p3),
        None => Seq::<u8>::empty(),
    };
    let off_clo: u32 = if s.cloth is Some {
        p3 as u32
    } else {
        0u32
    };
    let b4 = b_clo + pad16(p3 + b_clo.len());
    let p4 = p3 + b4.len();
    let b_hdr = submesh_header_emit(s, off_vtx, off_ind, off_col, off_clo, weighted, v);
    let b5 = b_hdr + pad16(p4 + b_hdr.len());
    let p5 = p4 + b5.len();
    let b6 = le32(p4 as u32) + pad16(p5 + 4);
    (b1 + b2 + b3 + b4 + b5 + b6, p5)
}

impl SPrimSubMesh {
    /// Append the whole sub-mesh subtree (payloads, header record, one-word
    /// sub-mesh table) and return the absolute offset of the table word. An
    /// absent payload is emitted as nothing and its stored offset is zero;
    /// the `num_indices_extra` word is emitted only for versions that have
    /// it; the stored `num_uv_channels` follows the output version's policy.
    #[verifier::rlimit(100)]
    pub fn write(
        &self,
        out: &mut Vec<u8>,
        header_flags: u32,
        mesh_dd: u8,
        mesh_flags: u8,
        output_version: GameVersion,
    ) -> (r: u32)
        requires
            self.wf(is_weighted_flags(header_flags), mesh_flags),
            old(out)@.len() as int + submesh_emit(
                *self,
                is_weighted_flags(header_flags),
                mesh_dd,
                mesh_flags,
                output_version,
                old(out)@.len() as int,
            ).0.len() <= 0xFFFFFFFF,
        ensures
            ({
                let emit = submesh_emit(
                    *self,
                    is_weighted_flags(header_flags),
                    mesh_dd,
                    mesh_flags,
                    output_version,
                    old(out)@.len() as int,
                );
                &&& final(out)@ == old(out)@ + emit.0
                &&& r as int == emit.1
                &&& old(out)@.len() <= r as int
                &&& r as int + 4 <= final(out)@.len()
                &&& r as int % 16 == 0
                &&& final(out)@.len() as int % 16 == 0
            }),
    {
        let ghost at = old(out)@.len() as int;
        let ghost weighted = is_weighted_flags(header_flags);
        let ghost v = output_version;
        let ghost emit = submesh_emit(*self, weighted, mesh_dd, mesh_flags, v, at);
        let ghost b_ind = match &self.indices {
            Some(ind) => indices_emit(ind.indices@, at),
            None => Seq::<u8>::empty(),
        };
        let ghost b1 = b_ind + pad16(at + b_ind.len());
        let ghost p1 = at + b1.len();
        let ghost b_vtx = match &self.vertices {
            Some(vtx) => vertices_emit(
                *vtx,
                weighted,
                alt_packing(mesh_dd),
                hi_res_flags(mesh_flags),
                (weighted || !color1_flag(mesh_flags)) && !color1_flag(self.object.flags),
                p1,
            ),
            None => Seq::<u8>::empty(),
        };
        let ghost b2 = b_vtx + pad16(p1 + b_vtx.len());
        let ghost p2 = p1 + b2.len();
        let ghost b_col = match &self.collision {
            Some(c) => collision_emit(*c, p2),
            None => Seq::<u8>::empty(),
        };
        let ghost b3 = b_col + pad16(p2 + b_col.len());
        let ghost p3 = p2 + b3.len();
        let ghost b_clo = match &self.cloth {
            Some(c) => blob_emit(c.data@, p3),
            None => Seq::<u8>::empty(),
        };
        let ghost b4 = b_clo + pad16(p3 + b_clo.len());
        let ghost p4 = p3 + b4.len();
        let ghost off_vtx_s: u32 = if self.vertices is Some {
            p1 as u32
        } else {
            0u32
        };
        let ghost off_ind_s: u32 = if self.indices is Some {
            at as u32
        } else {
            0u32
        };
        let ghost off_col_s: u32 = if self.collision is Some {
            p2 as u32
        } else {
            0u32
        };
        let ghost off_clo_s: u32 = if self.cloth is Some {
            p3 as u32
        } else {
            0u32
        };
        let ghost b_hdr = submesh_header_emit(
            *self,
            off_vtx_s,
            off_ind_s,
            off_col_s,
            off_clo_s,
            weighted,
            v,
        );
        let ghost b5 = b_hdr + pad16(p4 + b_hdr.len());
        let ghost p5 = p4 + b5.len();
        let ghost b6 = le32(p4 as u32) + pad16(p5 + 4);
        proof {
            reveal(submesh_emit);
            assert(emit == (b1 + b2 + b3 + b4 + b5 + b6, p5));
        }
        // Index payload.
        let mut off_indices: u32 = 0;
        match &self.indices {
            Some(ind) => {
                off_indices = out.len() as u32;
                ind.write(out);
            },
            None => {
                proof {
                    assert(out@ + b_ind =~= out@);
                }
            },
        }
        align(out, 0x10);
        proof {
            assert(out@ == old(out)@ + b_ind + pad16(at + b_ind.len()));
            shift2(old(out)@, b_ind, pad16(at + b_ind.len()));
            assert(out@ == old(out)@ + b1);
            assert(off_indices == off_ind_s);
        }
        // Vertex payload.
        let mut off_vertices: u32 = 0;
        match &self.vertices {
            Some(vtx) => {
                off_vertices = out.len() as u32;
                vtx.write(out, header_flags, mesh_dd, mesh_flags, self.object.flags);
            },
            None => {
                proof {
                    assert(out@ + b_vtx =~= out@);
                }
            },
        }
        align(out, 0x10);
        proof {
            assert(out@ == old(out)@ + b1 + b_vtx + pad16(p1 + b_vtx.len()));
            shift2(old(out)@ + b1, b_vtx, pad16(p1 + b_vtx.len()));
            assert(out@ == old(out)@ + b1 + b2);
            assert(off_vertices == off_vtx_s);
        }
        // Collision payload.
        let mut off_collision: u32 = 0;
        match &self.collision {
            Some(c) => {
                off_collision = out.len() as u32;
                c.write(out);
            },
            None => {
                proof {
                    assert(out@ + b_col =~= out@);
                }
            },
        }
        align(out, 0x10);
        proof {
            assert(out@ == old(out)@ + b1 + b2 + b_col + pad16(p2 + b_col.len()));
            shift2(old(out)@ + b1 + b2, b_col, pad16(p2 + b_col.len()));
            assert(out@ == old(out)@ + b1 + b2 + b3);
            assert(off_collision == off_col_s);
        }
        // Cloth payload.
        let mut off_cloth: u32 = 0;
        match &self.cloth {
            Some(c) => {
                off_cloth = out.len() as u32;
                c.write(out);
            },
            None => {
                proof {
                    assert(out@ + b_clo =~= out@);
                }
            },
        }
        align(out, 0x10);
        proof {
            assert(out@ == old(out)@ + b1 + b2 + b3 + b_clo + pad16(p3 + b_clo.len()));
            shift2(old(out)@ + b1 + b2 + b3, b_clo, pad16(p3 + b_clo.len()));
            assert(out@ == old(out)@ + b1 + b2 + b3 + b4);
            assert(off_cloth == off_clo_s);
        }
        // Header record.
        let off_object: u32 = out.len() as u32;
        self.write_header(
            out,
            off_vertices,
            off_indices,
            off_collision,
            off_cloth,
            header_flags,
            output_version,
        );
        align(out, 0x10);
        proof {
            shift2(old(out)@ + b1 + b2 + b3 + b4, b_hdr, pad16(p4 + b_hdr.len()));
            assert(out@ == old(out)@ + b1 + b2 + b3 + b4 + b5);
        }
        // Sub-mesh table word.
        let off_table: u32 = out.len() as u32;
        write_u32(out, off_object);
        align(out, 0x10);
        proof {
            assert(off_object as int == p4);
            shift2(old(out)@ + b1 + b2 + b3 + b4 + b5, le32(p4 as u32), pad16(p5 + 4));
            assert(out@ == old(out)@ + b1 + b2 + b3 + b4 + b5 + b6);
            shift6(old(out)@, b1, b2, b3, b4, b5, b6);
            assert(out@ == old(out)@ + emit.0);
            assert(off_table as int == p5);
        }
        off_table
    }
}

// ---------------------------------------------------------------------------
// Mesh subtrees
// ---------------------------------------------------------------------------
/// Bytes of the fixed mesh record alone (no padding): the object record with
/// the rewritten draw destination `dd`, the sub-mesh table offset, the
/// quantization scale/bias words, the cloth id and three padding bytes.
#[verifier::opaque]
pub open spec fn mesh_header_emit(m: SPrimMesh, dd: u8, sub_mesh_table: u32, v: GameVersion) -> Seq<
    u8,
> {
    object_emit(m.object, dd, v) + le32(sub_mesh_table) + seq_le32(m.position_scale@) + seq_le32(
        m.position_bias@,
    ) + seq_le32(m.uv_scale@) + seq_le32(m.uv_bias@) + seq![m.cloth_id] + m.pad@
}

/// Bytes and header offset of a plain mesh subtree written at `at`: the
/// sub-mesh subtree first, then the mesh record pointing at its table word.
#[verifier::opaque]
pub open spec fn mesh_emit(m: SPrimMesh, header_flags: u32, dd: u8, v: GameVersion, at: int) -> (
    Seq<u8>,
    int,
) {
    let sub = submesh_emit(m.sub_mesh, is_weighted_flags(header_flags), dd, m.object.flags, v, at);
    let off = at + sub.0.len();
    (sub.0 + mesh_header_emit(m, dd, sub.1 as u32, v), off)
}

/// Bytes and header offset of a weighted mesh subtree written at `at`: the
/// sub-mesh subtree, the copy-bones, bone-info and bone-index payloads (each
/// aligned), then the mesh record and the weighted trailer (copy-bone count
/// and the three captured offsets), padded.
#[verifier::opaque]
pub open spec fn weighted_emit(
    w: SPrimMeshWeighted,
    header_flags: u32,
    dd: u8,
    v: GameVersion,
    at: int,
) -> (Seq<u8>, int) {
    let sub = submesh_emit(
        w.mesh.sub_mesh,
        is_weighted_flags(header_flags),
        dd,
        w.mesh.object.flags,
        v,
        at,
    );
    let b0 = sub.0;
    let q0 = at + b0.len();
    let b_cb = match w.copy_bones {
        Some(cb) => copy_bones_emit(cb.data@, q0),
        None => Seq::<u8>::empty(),
    };
    let off_cb: u32 = if w.copy_bones is Some {
        q0 as u32
    } else {
        0u32
    };
    let b1 = b_cb + pad16(q0 + b_cb.len());
    let q1 = q0 + b1.len();
    let b_info = match w.bone_info {
        Some(bi) => blob_emit(bi.data@, q1),
        None => Seq::<u8>::empty(),
    };
    let off_info: u32 = if w.bone_info is Some {
        q1 as u32
    } else {
        0u32
    };
    let b2 = b_info + pad16(q1 + b_info.len());
    let q2 = q1 + b2.len();
    let b_bidx = match w.bone_indices {
        Some(b) => bone_indices_emit(b.data@, v, q2),
        None => Seq::<u8>::empty(),
    };
    let off_bidx: u32 = if w.bone_indices is Some {
        q2 as u32
    } else {
        0u32
    };
    let b3 = b_bidx + pad16(q2 + b_bidx.len());
    let q3 = q2 + b3.len();
    let b_hdr = mesh_header_emit(w.mesh, dd, sub.1 as u32, v) + le32(w.num_copy_bones) + le32(
        off_cb,
    ) + le32(off_bidx) + le32(off_info);
    let b4 = b_hdr + pad16(q3 + b_hdr.len());
    (b0 + b1 + b2 + b3 + b4, q3)
}

impl SPrimMesh {
    /// Append the fixed mesh record with the rewritten draw destination and
    /// the given sub-mesh table offset.
    fn write_header(&self, out: &mut Vec<u8>, dd: u8, sub_mesh_table: u32, output_version: GameVersion)
        requires
            self.object.wf(),
        ensures
            final(out)@ == old(out)@ + mesh_header_emit(*self, dd, sub_mesh_table, output_version),
    {
        self.object.write(out, dd, output_version);
        write_u32(out, sub_mesh_table);
        write_u32_into(out, self.position_scale.as_slice());
        write_u32_into(out, self.position_bias.as_slice());
        write_u32_into(out, self.uv_scale.as_slice());
        write_u32_into(out, self.uv_bias.as_slice());
        out.push(self.cloth_id);
        write_u8_into(out, self.pad.as_slice());
        proof {
            reveal(mesh_header_emit);
            assert(old(out)@ + object_emit(self.object, dd, output_version) + le32(sub_mesh_table)
                + seq_le32(self.position_scale@) + seq_le32(self.position_bias@) + seq_le32(
                self.uv_scale@,
            ) + seq_le32(self.uv_bias@) + seq![self.cloth_id] =~= old(out)@ + object_emit(
                self.object,
                dd,
                output_version,
            ) + le32(sub_mesh_table) + seq_le32(self.position_scale@) + seq_le32(
                self.position_bias@,
            ) + seq_le32(self.uv_scale@) + seq_le32(self.uv_bias@) + seq![self.cloth_id]);
            shift8(
                old(out)@,
                object_emit(self.object, dd, output_version),
                le32(sub_mesh_table),
                seq_le32(self.position_scale@),
                seq_le32(self.position_bias@),
                seq_le32(self.uv_scale@),
                seq_le32(self.uv_bias@),
                seq![self.cloth_id],
                self.pad@,
            );
        }
    }

    /// Append the whole plain-mesh subtree (sub-mesh subtree, then the mesh
    /// record) and return the absolute offset of the mesh record. `dd` is the
    /// draw destination after the version rewrite.
    pub fn write(&self, out: &mut Vec<u8>, header_flags: u32, dd: u8, output_version: GameVersion) -> (r:
        u32)
        requires
            self.wf(is_weighted_flags(header_flags)),
            old(out)@.len() as int + mesh_emit(
                *self,
                header_flags,
                dd,
                output_version,
                old(out)@.len() as int,
            ).0.len() <= 0xFFFFFFFF,
        ensures
            ({
                let emit = mesh_emit(*self, header_flags, dd, output_version, old(out)@.len() as int);
                &&& final(out)@ == old(out)@ + emit.0
                &&& r as int == emit.1
                &&& old(out)@.len() <= r as int
                &&& r as int % 16 == 0
            }),
    {
        let ghost at = old(out)@.len() as int;
        let ghost emit = mesh_emit(*self, header_flags, dd, output_version, at);
        let ghost sub = submesh_emit(
            self.sub_mesh,
            is_weighted_flags(header_flags),
            dd,
            self.object.flags,
            output_version,
            at,
        );
        proof {
            reveal(mesh_emit);
            assert(emit == (sub.0 + mesh_header_emit(*self, dd, sub.1 as u32, output_version), at
                + sub.0.len()));
        }
        let smt = self.sub_mesh.write(out, header_flags, dd, self.object.flags, output_version);
        let off = out.len() as u32;
        self.write_header(out, dd, smt, output_version);
        proof {
            assert(out@ == old(out)@ + emit.0);
        }
        off
    }
}

impl SPrimMeshWeighted {
    /// Append the whole weighted-mesh subtree (sub-mesh subtree, skeletal
    /// payloads, then the mesh record with its weighted trailer) and return
    /// the absolute offset of the mesh record. `dd` is the draw destination
    /// after the version rewrite.
    #[verifier::rlimit(100)]
    pub fn write(&self, out: &mut Vec<u8>, header_flags: u32, dd: u8, output_version: GameVersion) -> (r:
        u32)
        requires
            self.wf(),
            is_weighted_flags(header_flags),
            self.bone_counts_fit(output_version),
            old(out)@.len() as int + weighted_emit(
                *self,
                header_flags,
                dd,
                output_version,
                old(out)@.len() as int,
            ).0.len() <= 0xFFFFFFFF,
        ensures
            ({
                let emit = weighted_emit(
                    *self,
                    header_flags,
                    dd,
                    output_version,
                    old(out)@.len() as int,
                );
                &&& final(out)@ == old(out)@ + emit.0
                &&& r as int == emit.1
                &&& old(out)@.len() <= r as int
                &&& r as int % 16 == 0
                &&& final(out)@.len() as int % 16 == 0
            }),
    {
        let ghost at = old(out)@.len() as int;
        let ghost v = output_version;
        let ghost emit = weighted_emit(*self, header_flags, dd, v, at);
        let ghost sub = submesh_emit(
            self.mesh.sub_mesh,
            is_weighted_flags(header_flags),
            dd,
            self.mesh.object.flags,
            v,
            at,
        );
        let ghost b0 = sub.0;
        let ghost q0 = at + b0.len();
        let ghost b_cb = match &self.copy_bones {
            Some(cb) => copy_bones_emit(cb.data@, q0),
            None => Seq::<u8>::empty(),
        };
        let ghost off_cb_s: u32 = if self.copy_bones is Some {
            q0 as u32
        } else {
            0u32
        };
        let ghost b1 = b_cb + pad16(q0 + b_cb.len());
        let ghost q1 = q0 + b1.len();
        let ghost b_info = match &self.bone_info {
            Some(bi) => blob_emit(bi.data@, q1),
            None => Seq::<u8>::empty(),
        };
        let ghost off_info_s: u32 = if self.bone_info is Some {
            q1 as u32
        } else {
            0u32
        };
        let ghost b2 = b_info + pad16(q1 + b_info.len());
        let ghost q2 = q1 + b2.len();
        let ghost b_bidx = match &self.bone_indices {
            Some(b) => bone_indices_emit(b.data@, v, q2),
            None => Seq::<u8>::empty(),
        };
        let ghost off_bidx_s: u32 = if self.bone_indices is Some {
            q2 as u32
        } else {
            0u32
        };
        let ghost b3 = b_bidx + pad16(q2 + b_bidx.len());
        let ghost q3 = q2 + b3.len();
        let ghost b_hdr = mesh_header_emit(self.mesh, dd, sub.1 as u32, v) + le32(
            self.num_copy_bones,
        ) + le32(off_cb_s) + le32(off_bidx_s) + le32(off_info_s);
        let ghost b4 = b_hdr + pad16(q3 + b_hdr.len());
        proof {
            reveal(weighted_emit);
            assert(emit == (b0 + b1 + b2 + b3 + b4, q3));
        }
        let sub_mesh_table = self.mesh.sub_mesh.write(
            out,
            header_flags,
            dd,
            self.mesh.object.flags,
            output_version,
        );
        // Copy-bones payload.
        let mut offset_copy_bones: u32 = 0;
        match &self.copy_bones {
            Some(cb) => {
                offset_copy_bones = out.len() as u32;
                cb.write(out);
            },
            None => {
                proof {
                    assert(out@ + b_cb =~= out@);
                }
            },
        }
        align(out, 0x10);
        proof {
            assert(out@ == old(out)@ + b0 + b_cb + pad16(q0 + b_cb.len()));
            shift2(old(out)@ + b0, b_cb, pad16(q0 + b_cb.len()));
            assert(out@ == old(out)@ + b0 + b1);
            assert(offset_copy_bones == off_cb_s);
        }
        // Bone-info payload.
        let mut offset_bone_info: u32 = 0;
        match &self.bone_info {
            Some(bi) => {
                offset_bone_info = out.len() as u32;
                bi.write(out);
            },
            None => {
                proof {
                    assert(out@ + b_info =~= out@);
                }
            },
        }
        align(out, 0x10);
        proof {
            assert(out@ == old(out)@ + b0 + b1 + b_info + pad16(q1 + b_info.len()));
            shift2(old(out)@ + b0 + b1, b_info, pad16(q1 + b_info.len()));
            assert(out@ == old(out)@ + b0 + b1 + b2);
            assert(offset_bone_info == off_info_s);
        }
        // Bone-index payload.
        let mut offset_bone_indices: u32 = 0;
        match &self.bone_indices {
            Some(b) => {
                offset_bone_indices = out.len() as u32;
                b.write(out, output_version);
            },
            None => {
                proof {
                    assert(out@ + b_bidx =~= out@);
                }
            },
        }
        align(out, 0x10);
        proof {
            assert(out@ == old(out)@ + b0 + b1 + b2 + b_bidx + pad16(q2 + b_bidx.len()));
            shift2(old(out)@ + b0 + b1 + b2, b_bidx, pad16(q2 + b_bidx.len()));
            assert(out@ == old(out)@ + b0 + b1 + b2 + b3);
            assert(offset_bone_indices == off_bidx_s);
        }
        // Mesh record and weighted trailer.
        let off = out.len() as u32;
        self.mesh.write_header(out, dd, sub_mesh_table, output_version);
        write_u32(out, self.num_copy_bones);
        write_u32(out, offset_copy_bones);
        write_u32(out, offset_bone_indices);
        write_u32(out, offset_bone_info);
        proof {
            shift5(
                old(out)@ + b0 + b1 + b2 + b3,
                mesh_header_emit(self.mesh, dd, sub.1 as u32, v),
                le32(self.num_copy_bones),
                le32(off_cb_s),
                le32(off_bidx_s),
                le32(off_info_s),
            );
            assert(out@ == old(out)@ + b0 + b1 + b2 + b3 + b_hdr);
        }
        align(out, 0x10);
        proof {
            shift2(old(out)@ + b0 + b1 + b2 + b3, b_hdr, pad16(q3 + b_hdr.len()));
            assert(out@ == old(out)@ + b0 + b1 + b2 + b3 + b4);
            shift5(old(out)@, b0, b1, b2, b3, b4);
            assert(out@ == old(out)@ + emit.0);
            assert(off as int == q3);
        }
        off
    }
}

// ---------------------------------------------------------------------------
// File header and whole file
// ---------------------------------------------------------------------------
/// Bytes and collected mesh-record offsets of the first `objs.len()` objects
/// written at `at`. A plain mesh is always written (and aligned after); a
/// weighted mesh is written only when it survives the cloth drop. Each
/// object's draw destination is rewritten for the output version before it is
/// stored.
#[verifier::opaque]
pub open spec fn objects_emit(
    objs: Seq<Object>,
    header_flags: u32,
    v: GameVersion,
    no_cloth: bool,
    at: int,
) -> (Seq<u8>, Seq<u32>)
    decreases objs.len(),
{
    if objs.len() == 0 {
        (Seq::<u8>::empty(), Seq::<u32>::empty())
    } else {
        let prev = objects_emit(objs.drop_last(), header_flags, v, no_cloth, at);
        let p = at + prev.0.len();
        match objs.last() {
            Object::Mesh(m) => {
                let dd = spec_get_draw_destination(
                    header_flags,
                    m.object.header.draw_destination,
                    v,
                );
                let me = mesh_emit(m, header_flags, dd, v, p);
                (prev.0 + (me.0 + pad16(p + me.0.len())), prev.1.push(me.1 as u32))
            },
            Object::MeshWeighted(w) => {
                if spec_keep_object(no_cloth, w.mesh.sub_mesh.offset_cloth, w.mesh.cloth_id) {
                    let dd = spec_get_draw_destination(
                        header_flags,
                        w.mesh.object.header.draw_destination,
                        v,
                    );
                    let we = weighted_emit(w, header_flags, dd, v, p);
                    (prev.0 + we.0, prev.1.push(we.1 as u32))
                } else {
                    prev
                }
            },
        }
    }
}

/// Unfolding step: emitting one more object appends that object's bytes and,
/// when it survives, its offset.
pub proof fn lemma_objects_emit_step(
    objs: Seq<Object>,
    header_flags: u32,
    v: GameVersion,
    no_cloth: bool,
    at: int,
    i: int,
)
    requires
        0 <= i < objs.len(),
    ensures
        ({
            let prev = objects_emit(objs.take(i), header_flags, v, no_cloth, at);
            let p = at + prev.0.len();
            objects_emit(objs.take(i + 1), header_flags, v, no_cloth, at) == match objs[i] {
                Object::Mesh(m) => {
                    let dd = spec_get_draw_destination(
                        header_flags,
                        m.object.header.draw_destination,
                        v,
                    );
                    let me = mesh_emit(m, header_flags, dd, v, p);
                    (prev.0 + (me.0 + pad16(p + me.0.len())), prev.1.push(me.1 as u32))
                },
                Object::MeshWeighted(w) => {
                    if spec_keep_object(no_cloth, w.mesh.sub_mesh.offset_cloth, w.mesh.cloth_id) {
                        let dd = spec_get_draw_destination(
                            header_flags,
                            w.mesh.object.header.draw_destination,
                            v,
                        );
                        let we = weighted_emit(w, header_flags, dd, v, p);
                        (prev.0 + we.0, prev.1.push(we.1 as u32))
                    } else {
                        prev
                    }
                },
            }
        }),
{
    reveal(objects_emit);
    assert(objs.take(i + 1).len() == i + 1);
    assert(objs.take(i + 1).drop_last() =~= objs.take(i));
    assert(objs.take(i + 1).last() == objs[i]);
}


/// A prefix of the object list emits no more bytes than the whole list.
pub proof fn lemma_objects_emit_prefix_len(
    objs: Seq<Object>,
    header_flags: u32,
    v: GameVersion,
    no_cloth: bool,
    at: int,
    j: int,
)
    requires
        0 <= j <= objs.len(),
    ensures
        objects_emit(objs.take(j), header_flags, v, no_cloth, at).0.len() <= objects_emit(
            objs,
            header_flags,
            v,
            no_cloth,
            at,
        ).0.len(),
    decreases objs.len() - j,
{
    reveal(objects_emit);
    if j == objs.len() {
        assert(objs.take(j) =~= objs);
    } else {
        lemma_objects_emit_prefix_len(objs, header_flags, v, no_cloth, at, j + 1);
        assert(objs.take(j + 1).drop_last() =~= objs.take(j));
        assert(objs.take(j + 1).last() == objs[j]);
    }
}

/// Bytes and stored main offset of the file-level record group written at
/// `at`: the surviving object subtrees, the object-offset table (aligned),
/// then the file header record itself (aligned). The stored object count is
/// the count of surviving objects, not the input count.
#[verifier::opaque]
pub open spec fn header_emit(h: SPrimObjectHeader, v: GameVersion, no_cloth: bool, at: int) -> (
    Seq<u8>,
    int,
) {
    let objs = objects_emit(h.objects@, h.header_flags, v, no_cloth, at);
    let table_at = at + objs.0.len();
    let b_table = seq_le32(objs.1) + pad16(table_at + seq_le32(objs.1).len());
    let main_at = table_at + b_table.len();
    let b_hdr = header4(h.header) + le32(h.header_flags) + le32(h.bone_rig_resource_index) + le32(
        objs.1.len() as u32,
    ) + le32(table_at as u32) + seq_le32(h.bounding_box_min@) + seq_le32(h.bounding_box_max@);
    (objs.0 + b_table + (b_hdr + pad16(main_at + b_hdr.len())), main_at)
}

impl SPrimObjectHeader {
    /// Append every surviving object subtree, the object-offset table and the
    /// file header record; return the absolute offset of the file header
    /// record (the file's main offset).
    #[verifier::rlimit(100)]
    pub fn write(&self, out: &mut Vec<u8>, output_version: GameVersion, no_cloth: bool) -> (r: u32)
        requires
            self.wf(),
            self.bone_counts_fit(output_version),
            old(out)@.len() as int + header_emit(
                *self,
                output_version,
                no_cloth,
                old(out)@.len() as int,
            ).0.len() <= 0xFFFFFFFF,
        ensures
            ({
                let emit = header_emit(*self, output_version, no_cloth, old(out)@.len() as int);
                &&& final(out)@ == old(out)@ + emit.0
                &&& r as int == emit.1
                &&& old(out)@.len() <= r as int
                &&& r as int % 16 == 0
                &&& final(out)@.len() as int % 16 == 0
            }),
    {
        let ghost at = old(out)@.len() as int;
        let ghost v = output_version;
        let ghost flags = self.header_flags;
        let ghost emit = header_emit(*self, v, no_cloth, at);
        let ghost objs_full = objects_emit(self.objects@, flags, v, no_cloth, at);
        let ghost table_at = at + objs_full.0.len();
        let ghost b_table = seq_le32(objs_full.1) + pad16(table_at + seq_le32(objs_full.1).len());
        let ghost main_at = table_at + b_table.len();
        let ghost b_hdr = header4(self.header) + le32(self.header_flags) + le32(
            self.bone_rig_resource_index,
        ) + le32(objs_full.1.len() as u32) + le32(table_at as u32) + seq_le32(
            self.bounding_box_min@,
        ) + seq_le32(self.bounding_box_max@);
        proof {
            reveal(header_emit);
            assert(emit == (objs_full.0 + b_table + (b_hdr + pad16(main_at + b_hdr.len())),
            main_at));
        }
        let mut object_offsets: Vec<u32> = Vec::new();
        let n = self.objects.len();
        proof {
            reveal(objects_emit);
            assert(self.objects@.take(0int).len() == 0);
            assert(out@ + objects_emit(self.objects@.take(0int), flags, v, no_cloth, at).0 =~= out@);
        }
        for i in 0..n
            invariant
                n == self.objects@.len(),
                self.wf(),
                self.bone_counts_fit(v),
                flags == self.header_flags,
                v == output_version,
                at + emit.0.len() <= 0xFFFFFFFF,
                emit.0 == objs_full.0 + b_table + (b_hdr + pad16(main_at + b_hdr.len())),
                objs_full == objects_emit(self.objects@, flags, v, no_cloth, at),
                out@ == old(out)@ + objects_emit(
                    self.objects@.take(i as int),
                    flags,
                    v,
                    no_cloth,
                    at,
                ).0,
                object_offsets@ == objects_emit(
                    self.objects@.take(i as int),
                    flags,
                    v,
                    no_cloth,
                    at,
                ).1,
                object_offsets@.len() <= i,
                at == old(out)@.len(),
        {
            let ghost prefix = objects_emit(self.objects@.take(i as int), flags, v, no_cloth, at);
            let ghost p = at + prefix.0.len();
            proof {
                lemma_objects_emit_step(self.objects@, flags, v, no_cloth, at, i as int);
                lemma_objects_emit_prefix_len(self.objects@, flags, v, no_cloth, at, i as int + 1);
                assert(self.objects@[i as int].wf(is_weighted_flags(flags)));
            }
            match &self.objects[i] {
                Object::Mesh(m) => {
                    proof {
                        assert(self.objects@[i as int] == Object::Mesh(*m));
                    }
                    let dd = SPrimObjectHeader::get_draw_destination(
                        self.header_flags,
                        m.object.header.draw_destination,
                        output_version,
                    );
                    let ghost me = mesh_emit(*m, flags, dd, v, p);
                    proof {
                        assert(objects_emit(self.objects@.take(i as int + 1), flags, v, no_cloth, at)
                            == (prefix.0 + (me.0 + pad16(p + me.0.len())), prefix.1.push(
                            me.1 as u32,
                        )));
                        assert(p + me.0.len() <= at + emit.0.len());
                    }
                    let off = m.write(out, self.header_flags, dd, output_version);
                    object_offsets.push(off);
                    align(out, 0x10);
                    proof {
                        shift2(old(out)@ + prefix.0, me.0, pad16(p + me.0.len()));
                        assert(out@ == old(out)@ + prefix.0 + (me.0 + pad16(p + me.0.len())));
                        assert(out@ == old(out)@ + objects_emit(
                            self.objects@.take(i as int + 1),
                            flags,
                            v,
                            no_cloth,
                            at,
                        ).0);
                        assert(object_offsets@ == objects_emit(
                            self.objects@.take(i as int + 1),
                            flags,
                            v,
                            no_cloth,
                            at,
                        ).1);
                    }
                },
                Object::MeshWeighted(w) => {
                    proof {
                        assert(self.objects@[i as int] == Object::MeshWeighted(*w));
                    }
                    let keep = !no_cloth || w.mesh.sub_mesh.offset_cloth > 0 || (
                    w.mesh.sub_mesh.offset_cloth == 0 && w.mesh.cloth_id == 0);
                    proof {
                        assert(keep == spec_keep_object(
                            no_cloth,
                            w.mesh.sub_mesh.offset_cloth,
                            w.mesh.cloth_id,
                        ));
                    }
                    if keep {
                        let dd = SPrimObjectHeader::get_draw_destination(
                            self.header_flags,
                            w.mesh.object.header.draw_destination,
                            output_version,
                        );
                        let ghost we = weighted_emit(*w, flags, dd, v, p);
                        proof {
                            assert(objects_emit(self.objects@.take(i as int + 1), flags, v, no_cloth, at)
                                == (prefix.0 + we.0, prefix.1.push(we.1 as u32)));
                            assert(p + we.0.len() <= at + emit.0.len());
                        }
                        let off = w.write(out, self.header_flags, dd, output_version);
                        object_offsets.push(off);
                        proof {
                            assert(out@ == old(out)@ + prefix.0 + we.0);
                            assert(out@ == old(out)@ + objects_emit(
                                self.objects@.take(i as int + 1),
                                flags,
                                v,
                                no_cloth,
                                at,
                            ).0);
                            assert(object_offsets@ == objects_emit(
                                self.objects@.take(i as int + 1),
                                flags,
                                v,
                                no_cloth,
                                at,
                            ).1);
                        }
                    } else {
                        proof {
                            assert(objects_emit(
                                self.objects@.take(i as int + 1),
                                flags,
                                v,
                                no_cloth,
                                at,
                            ) == prefix);
                        }
                    }
                },
            }
        }
        proof {
            assert(self.objects@.take(n as int) =~= self.objects@);
            assert(out@ == old(out)@ + objs_full.0);
            assert(object_offsets@ == objs_full.1);
        }
        // Object-offset table.
        let object_table = out.len() as u32;
        write_u32_into(out, object_offsets.as_slice());
        align(out, 0x10);
        proof {
            shift2(
                old(out)@ + objs_full.0,
                seq_le32(objs_full.1),
                pad16(table_at + seq_le32(objs_full.1).len()),
            );
            assert(out@ == old(out)@ + objs_full.0 + b_table);
            assert(object_table as int == table_at);
        }
        // File header record.
        let main_offset = out.len() as u32;
        self.header.write(out);
        write_u32(out, self.header_flags);
        write_u32(out, self.bone_rig_resource_index);
        write_u32(out, object_offsets.len() as u32);
        write_u32(out, object_table);
        write_u32_into(out, self.bounding_box_min.as_slice());
        write_u32_into(out, self.bounding_box_max.as_slice());
        proof {
            shift7(
                old(out)@ + objs_full.0 + b_table,
                header4(self.header),
                le32(self.header_flags),
                le32(self.bone_rig_resource_index),
                le32(objs_full.1.len() as u32),
                le32(table_at as u32),
                seq_le32(self.bounding_box_min@),
                seq_le32(self.bounding_box_max@),
            );
            assert(out@ == old(out)@ + objs_full.0 + b_table + b_hdr);
        }
        align(out, 0x10);
        proof {
            shift2(old(out)@ + objs_full.0 + b_table, b_hdr, pad16(main_at + b_hdr.len()));
            assert(out@ == old(out)@ + objs_full.0 + b_table + (b_hdr + pad16(
                main_at + b_hdr.len(),
            )));
            shift3(old(out)@, objs_full.0, b_table, b_hdr + pad16(main_at + b_hdr.len()));
            assert(out@ == old(out)@ + emit.0);
            assert(main_offset as int == main_at);
        }
        main_offset
    }
}

/// The bytes of a whole PRIM file for the given tree: the 16-byte prelude
/// whose first word is patched to the main offset, then the file-level record
/// group written at position 16.
pub open spec fn prim_emit(p: Prim, v: GameVersion, no_cloth: bool) -> Seq<u8> {
    let he = header_emit(p.header, v, no_cloth, 16);
    le32(he.1 as u32) + zero_bytes(12) + he.0
}

impl Prim {
    /// Serialise the whole tree for `output_version`, optionally dropping
    /// cloth-less weighted objects. The output starts with the main offset,
    /// twelve zero bytes, and then the record group; every record stands on a
    /// 16-byte boundary and the file length is a multiple of 16. The
    /// preconditions ask for a well-formed tree whose bone counts fit the
    /// output version's prefix and whose serialisation stays addressable by
    /// the format's 32-bit offsets.
    pub fn write(&self, output_version: GameVersion, no_cloth: bool) -> (r: Vec<u8>)
        requires
            self.wf(),
            self.header.bone_counts_fit(output_version),
            16 + header_emit(self.header, output_version, no_cloth, 16).0.len() <= 0xFFFFFFFF,
        ensures
            r@ == prim_emit(*self, output_version, no_cloth),
            r@.len() as int % 16 == 0,
    {
        let mut out: Vec<u8> = Vec::new();
        write_zero_bytes(&mut out, 16);
        proof {
            assert(out@ =~= Seq::<u8>::empty() + zero_bytes(16));
            assert(out@.len() == 16);
        }
        let main_offset = self.header.write(&mut out, output_version, no_cloth);
        store_u32_at(&mut out, 0, main_offset);
        proof {
            let he = header_emit(self.header, output_version, no_cloth, 16);
            assert(out@ =~= prim_emit(*self, output_version, no_cloth));
        }
        out
    }
}

// ---------------------------------------------------------------------------
// Laws of the layout
// ---------------------------------------------------------------------------
/// Padding always reaches the next 16-byte boundary and never adds a full
/// block.
pub proof fn lemma_pad16_aligned(p: int)
    requires
        p >= 0,
    ensures
        (p + pad16(p).len()) % 16 == 0,
        0 <= pad16(p).len() < 16,
{
    if p % 16 == 0 {
        vstd::arithmetic::div_mod::lemma_mod_multiples_basic(1, 16);
        assert(1 * 16 == 16);
    } else {
        vstd::arithmetic::div_mod::lemma_small_mod((16 - p % 16) as nat, 16nat);
        vstd::arithmetic::div_mod::lemma_fundamental_div_mod(p, 16);
        assert(p + (16 - p % 16) == (p / 16 + 1) * 16) by {
            assert(16 * (p / 16) + 16 == (p / 16 + 1) * 16) by (nonlinear_arith);
        }
        vstd::arithmetic::div_mod::lemma_mod_multiples_basic(p / 16 + 1, 16);
    }
}

/// A sub-mesh subtree ends on a 16-byte boundary, and its sub-mesh table word
/// stands on one, after everything else the subtree emitted.
#[verifier::rlimit(100)]
#[verifier::spinoff_prover]
pub proof fn lemma_submesh_emit_layout(
    s: SPrimSubMesh,
    weighted: bool,
    mesh_dd: u8,
    mesh_flags: u8,
    v: GameVersion,
    at: int,
)
    requires
        at >= 0,
    ensures
        ({
            let emit = submesh_emit(s, weighted, mesh_dd, mesh_flags, v, at);
            &&& (at + emit.0.len()) % 16 == 0
            &&& emit.1 % 16 == 0
            &&& at <= emit.1
            &&& emit.1 + 4 <= at + emit.0.len()
        }),
{
    let b_ind = match s.indices {
        Some(ind) => indices_emit(ind.indices@, at),
        None => Seq::<u8>::empty(),
    };
    let b1 = b_ind + pad16(at + b_ind.len());
    let p1 = at + b1.len();
    lemma_pad16_aligned(at + b_ind.len());
    let b_vtx = match s.vertices {
        Some(vtx) => vertices_emit(
            vtx,
            weighted,
            alt_packing(mesh_dd),
            hi_res_flags(mesh_flags),
            (weighted || !color1_flag(mesh_flags)) && !color1_flag(s.object.flags),
            p1,
        ),
        None => Seq::<u8>::empty(),
    };
    let b2 = b_vtx + pad16(p1 + b_vtx.len());
    let p2 = p1 + b2.len();
    lemma_pad16_aligned(p1 + b_vtx.len());
    let b_col = match s.collision {
        Some(c) => collision_emit(c, p2),
        None => Seq::<u8>::empty(),
    };
    let b3 = b_col + pad16(p2 + b_col.len());
    let p3 = p2 + b3.len();
    lemma_pad16_aligned(p2 + b_col.len());
    let b_clo = match s.cloth {
        Some(c) => blob_emit(c.data@, p3),
        None => Seq::<u8>::empty(),
    };
    let b4 = b_clo + pad16(p3 + b_clo.len());
    let p4 = p3 + b4.len();
    lemma_pad16_aligned(p3 + b_clo.len());
    let b_hdr = submesh_header_emit(
        s,
        if s.vertices is Some {
            p1 as u32
        } else {
            0u32
        },
        if s.indices is Some {
            at as u32
        } else {
            0u32
        },
        if s.collision is Some {
            p2 as u32
        } else {
            0u32
        },
        if s.cloth is Some {
            p3 as u32
        } else {
            0u32
        },
        weighted,
        v,
    );
    let b5 = b_hdr + pad16(p4 + b_hdr.len());
    let p5 = p4 + b5.len();
    lemma_pad16_aligned(p4 + b_hdr.len());
    lemma_pad16_aligned(p5 + 4);
    let b6 = le32(p4 as u32) + pad16(p5 + 4);
    assert(submesh_emit(s, weighted, mesh_dd, mesh_flags, v, at) == (b1 + b2 + b3 + b4 + b5 + b6,
    p5)) by {
        reveal(submesh_emit);
    }
}

/// A plain mesh subtree's returned record offset is 16-aligned and lies
/// strictly inside the bytes the subtree emitted.
#[verifier::rlimit(100)]
pub proof fn lemma_mesh_emit_layout(
    m: SPrimMesh,
    header_flags: u32,
    dd: u8,
    v: GameVersion,
    at: int,
)
    requires
        at >= 0,
    ensures
        ({
            let emit = mesh_emit(m, header_flags, dd, v, at);
            &&& emit.1 % 16 == 0
            &&& at <= emit.1
            &&& emit.1 < at + emit.0.len()
        }),
{
    lemma_submesh_emit_layout(
        m.sub_mesh,
        is_weighted_flags(header_flags),
        dd,
        m.object.flags,
        v,
        at,
    );
    let sub = submesh_emit(m.sub_mesh, is_weighted_flags(header_flags), dd, m.object.flags, v, at);
    let hdr = mesh_header_emit(m, dd, sub.1 as u32, v);
    assert(mesh_emit(m, header_flags, dd, v, at) == (sub.0 + hdr, at + sub.0.len())) by {
        reveal(mesh_emit);
    }
    assert(hdr.len() > 0) by {
        reveal(mesh_header_emit);
        reveal(object_emit);
    }
}

/// A weighted mesh subtree ends on a 16-byte boundary and its returned record
/// offset is 16-aligned, inside the bytes the subtree emitted.
#[verifier::rlimit(100)]
#[verifier::spinoff_prover]
pub proof fn lemma_weighted_emit_layout(
    w: SPrimMeshWeighted,
    header_flags: u32,
    dd: u8,
    v: GameVersion,
    at: int,
)
    requires
        at >= 0,
    ensures
        ({
            let emit = weighted_emit(w, header_flags, dd, v, at);
            &&& (at + emit.0.len()) % 16 == 0
            &&& emit.1 % 16 == 0
            &&& at <= emit.1
            &&& emit.1 < at + emit.0.len()
        }),
{
    let sub = submesh_emit(
        w.mesh.sub_mesh,
        is_weighted_flags(header_flags),
        dd,
        w.mesh.object.flags,
        v,
        at,
    );
    lemma_submesh_emit_layout(
        w.mesh.sub_mesh,
        is_weighted_flags(header_flags),
        dd,
        w.mesh.object.flags,
        v,
        at,
    );
    let q0 = at + sub.0.len();
    let b_cb = match w.copy_bones {
        Some(cb) => copy_bones_emit(cb.data@, q0),
        None => Seq::<u8>::empty(),
    };
    let b1 = b_cb + pad16(q0 + b_cb.len());
    let q1 = q0 + b1.len();
    lemma_pad16_aligned(q0 + b_cb.len());
    let b_info = match w.bone_info {
        Some(bi) => blob_emit(bi.data@, q1),
        None => Seq::<u8>::empty(),
    };
    let b2 = b_info + pad16(q1 + b_info.len());
    let q2 = q1 + b2.len();
    lemma_pad16_aligned(q1 + b_info.len());
    let b_bidx = match w.bone_indices {
        Some(b) => bone_indices_emit(b.data@, v, q2),
        None => Seq::<u8>::empty(),
    };
    let b3 = b_bidx + pad16(q2 + b_bidx.len());
    let q3 = q2 + b3.len();
    lemma_pad16_aligned(q2 + b_bidx.len());
    let b_hdr = mesh_header_emit(w.mesh, dd, sub.1 as u32, v) + le32(w.num_copy_bones) + le32(
        if w.copy_bones is Some {
            q0 as u32
        } else {
            0u32
        },
    ) + le32(
        if w.bone_indices is Some {
            q2 as u32
        } else {
            0u32
        },
    ) + le32(
        if w.bone_info is Some {
            q1 as u32
        } else {
            0u32
        },
    );
    lemma_pad16_aligned(q3 + b_hdr.len());
    let b4 = b_hdr + pad16(q3 + b_hdr.len());
    assert(weighted_emit(w, header_flags, dd, v, at) == (sub.0 + b1 + b2 + b3 + b4, q3)) by {
        reveal(weighted_emit);
    }
}

/// Every mesh-record offset the object loop collects for the object table is
/// a multiple of 16 and points backward, into the bytes the objects emitted
/// before the table.
#[verifier::rlimit(100)]
#[verifier::spinoff_prover]
pub proof fn lemma_object_table_offsets(
    objs: Seq<Object>,
    header_flags: u32,
    v: GameVersion,
    no_cloth: bool,
    at: int,
)
    requires
        at >= 0,
        at + objects_emit(objs, header_flags, v, no_cloth, at).0.len() <= 0xFFFFFFFF,
    ensures
        ({
            let e = objects_emit(objs, header_flags, v, no_cloth, at);
            &&& e.1.len() <= objs.len()
            &&& forall|k: int|
                0 <= k < e.1.len() ==> (#[trigger] e.1[k]) % 16 == 0 && at <= e.1[k]
                    < at + e.0.len()
        }),
    decreases objs.len(),
{
    reveal(objects_emit);
    if objs.len() > 0 {
        let prev = objects_emit(objs.drop_last(), header_flags, v, no_cloth, at);
        let p = at + prev.0.len();
        lemma_object_table_offsets(objs.drop_last(), header_flags, v, no_cloth, at);
        match objs.last() {
            Object::Mesh(m) => {
                let dd = spec_get_draw_destination(
                    header_flags,
                    m.object.header.draw_destination,
                    v,
                );
                lemma_mesh_emit_layout(m, header_flags, dd, v, p);
            },
            Object::MeshWeighted(w) => {
                if spec_keep_object(no_cloth, w.mesh.sub_mesh.offset_cloth, w.mesh.cloth_id) {
                    let dd = spec_get_draw_destination(
                        header_flags,
                        w.mesh.object.header.draw_destination,
                        v,
                    );
                    lemma_weighted_emit_layout(w, header_flags, dd, v, p);
                }
            },
        }
    }
}

/// A tree without objects serialises to exactly the 16-byte prelude, an empty
/// object table, and the 48-byte padded file header record, with the main
/// offset naming position 16.
pub proof fn lemma_empty_tree_output(p: Prim, v: GameVersion, no_cloth: bool)
    requires
        p.wf(),
        p.header.objects@.len() == 0,
    ensures
        prim_emit(p, v, no_cloth).len() == 64,
        header_emit(p.header, v, no_cloth, 16).1 == 16,
{
    reveal(header_emit);
    reveal(objects_emit);
    lemma_seq_le32_len(p.header.bounding_box_min@);
    lemma_seq_le32_len(p.header.bounding_box_max@);
    let e = objects_emit(p.header.objects@, p.header.header_flags, v, no_cloth, 16);
    assert(seq_le32(e.1) == Seq::<u8>::empty());
    assert(pad_len(16, 16) == 0);
    assert(pad_len(60, 16) == 4);
}

/// The fields of an object record can be recovered from its bytes.
#[verifier::rlimit(100)]
#[verifier::spinoff_prover]
pub proof fn lemma_object_emit_fields(o: SPrimObject, dd: u8, v: GameVersion)
    requires
        o.wf(),
    ensures
        ({
            let b = object_emit(o, dd, v);
            let c0: int = if v.spec_extended_layout() {
                20
            } else {
                16
            };
            &&& b[0] == dd
            &&& b[1] == o.header.pack_type
            &&& crate::io::le16_at(b, 2) == o.header.prim_type
            &&& b[4] == o.sub_type
            &&& b[5] == o.flags
            &&& b[6] == o.lod_mask
            &&& b[7] == o.variant_id
            &&& b[8] == o.bias
            &&& b[9] == o.offset
            &&& crate::io::le16_at(b, 10) == o.material_id
            &&& crate::io::le32_at(b, 12) == o.wire_color
            &&& (v.spec_extended_layout() ==> crate::io::le32_at(b, 16) == opt_or_zero(o.color1))
            &&& forall|i: int|
                0 <= i < 3 ==> crate::io::le32_at(b, c0 + 4 * i) == o.bounding_box_min@[i]
            &&& forall|i: int|
                0 <= i < 3 ==> crate::io::le32_at(b, c0 + 4 * i + 12) == o.bounding_box_max@[i]
        }),
{
    reveal(object_emit);
    lemma_object_emit_len(o, dd, v);
    let b = object_emit(o, dd, v);
    let c0: int = if v.spec_extended_layout() {
        20
    } else {
        16
    };
    crate::io::lemma_le16_decode(o.header.prim_type);
    assert(b.subrange(2, 4) =~= le16(o.header.prim_type));
    assert(crate::io::le16_at(b, 2) == o.header.prim_type);
    crate::io::lemma_le16_decode(o.material_id);
    assert(b.subrange(10, 12) =~= le16(o.material_id));
    assert(crate::io::le16_at(b, 10) == o.material_id);
    crate::io::lemma_le32_decode(o.wire_color);
    assert(b.subrange(12, 16) =~= le32(o.wire_color));
    assert(crate::io::le32_at(b, 12) == o.wire_color);
    if v.spec_extended_layout() {
        crate::io::lemma_le32_decode(opt_or_zero(o.color1));
        assert(b.subrange(16, 20) =~= le32(opt_or_zero(o.color1)));
        assert(crate::io::le32_at(b, 16) == opt_or_zero(o.color1));
    }
    lemma_seq_le32_len(o.bounding_box_min@);
    lemma_seq_le32_len(o.bounding_box_max@);
    assert(b.subrange(c0, c0 + 12) =~= seq_le32(o.bounding_box_min@));
    assert(b.subrange(c0 + 12, c0 + 24) =~= seq_le32(o.bounding_box_max@));
    assert forall|i: int| 0 <= i < 3 implies crate::io::le32_at(b, c0 + 4 * i)
        == o.bounding_box_min@[i] by {
        crate::io::lemma_seq_le32_index(b, c0, o.bounding_box_min@, i);
    }
    assert forall|i: int| 0 <= i < 3 implies crate::io::le32_at(b, c0 + 4 * i + 12)
        == o.bounding_box_max@[i] by {
        crate::io::lemma_seq_le32_index(b, c0 + 12, o.bounding_box_max@, i);
    }
}

/// An object record determines its fields: two well-formed objects whose
/// records for the same version coincide byte for byte agree on every field.
/// Together with the parser's byte correspondence, reading back a written
/// object record yields the same object again.
#[verifier::rlimit(100)]
#[verifier::spinoff_prover]
pub proof fn lemma_object_emit_injective(
    o1: SPrimObject,
    dd1: u8,
    o2: SPrimObject,
    dd2: u8,
    v: GameVersion,
)
    requires
        o1.wf(),
        o2.wf(),
        o1.color1 is Some <==> v.spec_extended_layout(),
        o2.color1 is Some <==> v.spec_extended_layout(),
        object_emit(o1, dd1, v) == object_emit(o2, dd2, v),
    ensures
        dd1 == dd2,
        o1.header.pack_type == o2.header.pack_type,
        o1.header.prim_type == o2.header.prim_type,
        o1.sub_type == o2.sub_type,
        o1.flags == o2.flags,
        o1.lod_mask == o2.lod_mask,
        o1.variant_id == o2.variant_id,
        o1.bias == o2.bias,
        o1.offset == o2.offset,
        o1.material_id == o2.material_id,
        o1.wire_color == o2.wire_color,
        o1.color1 == o2.color1,
        o1.bounding_box_min@ == o2.bounding_box_min@,
        o1.bounding_box_max@ == o2.bounding_box_max@,
{
    lemma_object_emit_fields(o1, dd1, v);
    lemma_object_emit_fields(o2, dd2, v);
    if v.spec_extended_layout() {
        assert(opt_or_zero(o1.color1) == opt_or_zero(o2.color1));
        assert(o1.color1 == o2.color1);
    }
    assert(o1.bounding_box_min@ =~= o2.bounding_box_min@);
    assert(o1.bounding_box_max@ =~= o2.bounding_box_max@);
}

/// The object run ends on a 16-byte boundary (so the object table that
/// follows it stands on one).
pub proof fn lemma_objects_emit_end_aligned(
    objs: Seq<Object>,
    header_flags: u32,
    v: GameVersion,
    no_cloth: bool,
    at: int,
)
    requires
        at >= 0,
        at % 16 == 0,
    ensures
        (at + objects_emit(objs, header_flags, v, no_cloth, at).0.len()) % 16 == 0,
    decreases objs.len(),
{
    reveal(objects_emit);
    if objs.len() > 0 {
        lemma_objects_emit_end_aligned(objs.drop_last(), header_flags, v, no_cloth, at);
        let prev = objects_emit(objs.drop_last(), header_flags, v, no_cloth, at);
        let p = at + prev.0.len();
        match objs.last() {
            Object::Mesh(m) => {
                let dd = spec_get_draw_destination(
                    header_flags,
                    m.object.header.draw_destination,
                    v,
                );
                let me = mesh_emit(m, header_flags, dd, v, p);
                lemma_pad16_aligned(p + me.0.len());
            },
            Object::MeshWeighted(w) => {
                if spec_keep_object(no_cloth, w.mesh.sub_mesh.offset_cloth, w.mesh.cloth_id) {
                    let dd = spec_get_draw_destination(
                        header_flags,
                        w.mesh.object.header.draw_destination,
                        v,
                    );
                    lemma_weighted_emit_layout(w, header_flags, dd, v, p);
                }
            },
        }
    }
}

/// The whole-file layout law: in the bytes of a written file, the object
/// table and the root header record stand on 16-byte boundaries after
/// everything they refer to, every object offset collected into the table is
/// a multiple of 16 pointing backward into the object run, and the file's
/// first word names the root header record.
#[verifier::rlimit(100)]
#[verifier::spinoff_prover]
pub proof fn lemma_prim_emit_layout(p: Prim, v: GameVersion, no_cloth: bool)
    requires
        p.wf(),
        16 + header_emit(p.header, v, no_cloth, 16).0.len() <= 0xFFFFFFFF,
    ensures
        ({
            let he = header_emit(p.header, v, no_cloth, 16);
            let e = objects_emit(p.header.objects@, p.header.header_flags, v, no_cloth, 16);
            let table_at: int = 16 + e.0.len() as int;
            &&& prim_emit(p, v, no_cloth).len() == 16 + he.0.len()
            &&& prim_emit(p, v, no_cloth).subrange(0, 4) == le32(he.1 as u32)
            &&& table_at % 16 == 0
            &&& he.1 % 16 == 0
            &&& table_at <= he.1
            &&& he.1 + 44 <= 16 + he.0.len()
            &&& forall|k: int|
                0 <= k < e.1.len() ==> (#[trigger] e.1[k]) % 16 == 0 && 16 <= e.1[k] < table_at
        }),
{
    let he = header_emit(p.header, v, no_cloth, 16);
    let e = objects_emit(p.header.objects@, p.header.header_flags, v, no_cloth, 16);
    let table_at: int = 16 + e.0.len() as int;
    let b_table = seq_le32(e.1) + pad16(table_at + seq_le32(e.1).len());
    let main_at: int = table_at + b_table.len();
    let b_hdr = header4(p.header.header) + le32(p.header.header_flags) + le32(
        p.header.bone_rig_resource_index,
    ) + le32(e.1.len() as u32) + le32(table_at as u32) + seq_le32(p.header.bounding_box_min@)
        + seq_le32(p.header.bounding_box_max@);
    assert(he == (e.0 + b_table + (b_hdr + pad16(main_at + b_hdr.len())), main_at)) by {
        reveal(header_emit);
    }
    assert(he.0.len() <= 0xFFFFFFFF);
    lemma_objects_emit_end_aligned(p.header.objects@, p.header.header_flags, v, no_cloth, 16);
    lemma_object_table_offsets(p.header.objects@, p.header.header_flags, v, no_cloth, 16);
    lemma_pad16_aligned(table_at + seq_le32(e.1).len());
    lemma_pad16_aligned(main_at + b_hdr.len());
    lemma_seq_le32_len(p.header.bounding_box_min@);
    lemma_seq_le32_len(p.header.bounding_box_max@);
    assert(b_hdr.len() == 44);
    assert(prim_emit(p, v, no_cloth) == le32(he.1 as u32) + zero_bytes(12) + he.0);
    assert(prim_emit(p, v, no_cloth).subrange(0, 4) =~= le32(he.1 as u32));
}

} // verus!
