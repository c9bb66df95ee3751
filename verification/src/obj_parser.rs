//! The mesh-ingestion core: a line-oriented geometry description is scanned
//! record by record into per-channel coordinate sequences and per-channel
//! resolved index sequences, then interleaved into one vertex buffer
//! according to the configured face layout.
//!
//! The whole pass is specified by one function over the input bytes,
//! `obj_to_mesh_spec`; the executable builder is proved to return exactly
//! its value.

use vstd::prelude::*;
use vstd::slice::slice_to_vec;
use crate::lexer::{split_at_byte, split_fields, split_lines, split_slash, tokens_of, NEWLINE, SLASH};
use crate::numeric::{face_component_index, is_float_token, parse_face_component};
use crate::triangles::{
    stride_of, TriangleMesh, VertexAttribute, VertexAttributeLayout, FLOAT_TYPE,
};

verus! {

/// The three index channels a face reference can carry.
#[derive(Clone, Copy, PartialEq, Eq, Hash, Structural, Debug)]
#[allow(non_camel_case_types)]
pub enum ObjType {
    VERTEX,
    NORMAL,
    TEXTURE,
}

/// Why mesh construction failed: structured outcomes for the fatal cases,
/// in place of the aborts of a naive loader.
#[derive(Clone, Copy, PartialEq, Eq, Structural, Debug)]
pub enum MeshError {
    /// A coordinate record with fewer numeric fields than its kind needs.
    CoordinateTooShort,
    /// A coordinate field that is not a numeric token.
    BadCoordinate,
    /// A face record with fewer than three face references.
    FaceTooShort,
    /// A face reference with no component at a configured slot.
    FaceIndexMissing,
    /// A resolved index pointing past the end of its coordinate sequence.
    IndexOutOfRange,
}

/// Per-file declaration of which channels appear in a face-index tuple and
/// at which slot position.
pub struct FaceLayout {
    vertex: Option<usize>,
    texture: Option<usize>,
    normal: Option<usize>,
}

impl FaceLayout {
    /// The slot configured for one channel, `None` when the channel is
    /// absent from face tuples.
    pub closed spec fn slot_of(self, t: ObjType) -> Option<usize> {
        match t {
            ObjType::VERTEX => self.vertex,
            ObjType::NORMAL => self.normal,
            ObjType::TEXTURE => self.texture,
        }
    }

    pub open spec fn vertex_slot(self) -> Option<usize> {
        self.slot_of(ObjType::VERTEX)
    }

    pub open spec fn normal_slot(self) -> Option<usize> {
        self.slot_of(ObjType::NORMAL)
    }

    pub open spec fn texture_slot(self) -> Option<usize> {
        self.slot_of(ObjType::TEXTURE)
    }

    pub fn new(vertex: Option<usize>, texture: Option<usize>, normal: Option<usize>) -> (layout:
        FaceLayout)
        ensures
            layout.vertex_slot() == vertex,
            layout.texture_slot() == texture,
            layout.normal_slot() == normal,
    {
        FaceLayout { vertex, texture, normal }
    }

    /// The slot configured for `t`.
    pub fn slot(&self, t: ObjType) -> (s: Option<usize>)
        ensures
            s == self.slot_of(t),
    {
        match t {
            ObjType::VERTEX => self.vertex,
            ObjType::NORMAL => self.normal,
            ObjType::TEXTURE => self.texture,
        }
    }
}

/// What one face-index tuple contributes to a channel's index buffer: the
/// component at the configured slot, nothing when unconfigured.
pub open spec fn channel_pick(slot: Option<usize>, tuple: Seq<u32>) -> Seq<u32> {
    match slot {
        Some(s) => seq![tuple[s as int]],
        None => Seq::<u32>::empty(),
    }
}

/// Whether a face tuple has a component at every slot the layout
/// configures.
pub open spec fn tuple_covers(layout: FaceLayout, tuple: Seq<u32>) -> bool {
    &&& (layout.vertex_slot() matches Some(s) ==> s < tuple.len())
    &&& (layout.normal_slot() matches Some(s) ==> s < tuple.len())
    &&& (layout.texture_slot() matches Some(s) ==> s < tuple.len())
}

impl FaceLayout {
    /// Appends the component at each configured slot of one face-index
    /// tuple to that channel's index buffer; unconfigured channels are
    /// untouched. The tuple must reach every configured slot.
    pub fn update_indicies(
        &self,
        verts: &mut Vec<u32>,
        norms: &mut Vec<u32>,
        tex: &mut Vec<u32>,
        indicies: &Vec<u32>,
    )
        requires
            tuple_covers(*self, indicies@),
        ensures
            final(verts)@ == old(verts)@ + channel_pick(self.vertex_slot(), indicies@),
            final(norms)@ == old(norms)@ + channel_pick(self.normal_slot(), indicies@),
            final(tex)@ == old(tex)@ + channel_pick(self.texture_slot(), indicies@),
    {
        if let Some(indx) = self.vertex {
            verts.push(indicies[indx]);
        }
        if let Some(indx) = self.normal {
            norms.push(indicies[indx]);
        }
        if let Some(indx) = self.texture {
            tex.push(indicies[indx]);
        }
        proof {
            assert(verts@ =~= old(verts)@ + channel_pick(self.vertex_slot(), indicies@));
            assert(norms@ =~= old(norms)@ + channel_pick(self.normal_slot(), indicies@));
            assert(tex@ =~= old(tex)@ + channel_pick(self.texture_slot(), indicies@));
        }
    }
}

/// Everything one pass over the records collects: per-channel coordinate
/// records in parse order, and per-channel resolved index sequences.
pub ghost struct ObjScan {
    pub verts: Seq<Seq<Seq<u8>>>,
    pub norms: Seq<Seq<Seq<u8>>>,
    pub tex: Seq<Seq<Seq<u8>>>,
    pub vertex_indicies: Seq<u32>,
    pub normal_indicies: Seq<u32>,
    pub texture_indicies: Seq<u32>,
}

pub open spec fn empty_scan() -> ObjScan {
    ObjScan {
        verts: Seq::empty(),
        norms: Seq::empty(),
        tex: Seq::empty(),
        vertex_indicies: Seq::empty(),
        normal_indicies: Seq::empty(),
        texture_indicies: Seq::empty(),
    }
}

/// The resolved 0-based components of one face reference.
pub open spec fn face_tuple(token: Seq<u8>) -> Seq<u32> {
    split_at_byte(token, SLASH).map_values(|c: Seq<u8>| face_component_index(c))
}

pub open spec fn kw_v() -> Seq<u8> {
    seq![118u8]
}

pub open spec fn kw_vn() -> Seq<u8> {
    seq![118u8, 110]
}

pub open spec fn kw_vt() -> Seq<u8> {
    seq![118u8, 116]
}

pub open spec fn kw_f() -> Seq<u8> {
    seq![102u8]
}

/// The four record keywords are pairwise distinct.
pub proof fn lemma_keywords_distinct()
    ensures
        kw_v() != kw_vn(),
        kw_v() != kw_vt(),
        kw_v() != kw_f(),
        kw_vn() != kw_vt(),
        kw_vn() != kw_f(),
        kw_vt() != kw_f(),
{
    assert(kw_v().len() == 1);
    assert(kw_vn().len() == 2);
    assert(kw_vt().len() == 2);
    assert(kw_f().len() == 1);
    assert(kw_v()[0] == 118);
    assert(kw_f()[0] == 102);
    assert(kw_vn()[1] == 110);
    assert(kw_vt()[1] == 116);
}

/// Whether the `dim` coordinate fields after the keyword are all numeric
/// tokens.
pub open spec fn coord_fields_ok(toks: Seq<Seq<u8>>, dim: int) -> bool {
    forall|i: int| 1 <= i <= dim ==> is_float_token(toks[i])
}

pub open spec fn scan_with_record(st: ObjScan, rec: Seq<Seq<u8>>, t: ObjType) -> ObjScan {
    match t {
        ObjType::VERTEX => ObjScan { verts: st.verts.push(rec), ..st },
        ObjType::NORMAL => ObjScan { norms: st.norms.push(rec), ..st },
        ObjType::TEXTURE => ObjScan { tex: st.tex.push(rec), ..st },
    }
}

/// One coordinate record: the `dim` fields after the keyword, all numeric,
/// appended to the channel's coordinate sequence; too few fields or a
/// non-numeric one is fatal.
pub open spec fn scan_coord(st: ObjScan, toks: Seq<Seq<u8>>, dim: int, t: ObjType) -> Result<
    ObjScan,
    MeshError,
> {
    if toks.len() < dim + 1 {
        Err(MeshError::CoordinateTooShort)
    } else if !coord_fields_ok(toks, dim) {
        Err(MeshError::BadCoordinate)
    } else {
        Ok(scan_with_record(st, toks.subrange(1, dim + 1), t))
    }
}

/// One face record: exactly the first three face references are read, any
/// further ones are ignored; each reference contributes one component to
/// every configured channel.
pub open spec fn scan_face(st: ObjScan, toks: Seq<Seq<u8>>, layout: FaceLayout) -> Result<
    ObjScan,
    MeshError,
> {
    if toks.len() < 4 {
        Err(MeshError::FaceTooShort)
    } else {
        let t1 = face_tuple(toks[1]);
        let t2 = face_tuple(toks[2]);
        let t3 = face_tuple(toks[3]);
        if !(tuple_covers(layout, t1) && tuple_covers(layout, t2) && tuple_covers(layout, t3)) {
            Err(MeshError::FaceIndexMissing)
        } else {
            Ok(
                ObjScan {
                    vertex_indicies: st.vertex_indicies + channel_pick(layout.vertex_slot(), t1)
                        + channel_pick(layout.vertex_slot(), t2) + channel_pick(
                        layout.vertex_slot(),
                        t3,
                    ),
                    normal_indicies: st.normal_indicies + channel_pick(layout.normal_slot(), t1)
                        + channel_pick(layout.normal_slot(), t2) + channel_pick(
                        layout.normal_slot(),
                        t3,
                    ),
                    texture_indicies: st.texture_indicies + channel_pick(layout.texture_slot(), t1)
                        + channel_pick(layout.texture_slot(), t2) + channel_pick(
                        layout.texture_slot(),
                        t3,
                    ),
                    ..st
                },
            )
        }
    }
}

/// One line's effect on the scan: the record kind its first field selects,
/// applied to the state; lines with no or an unknown keyword are skipped.
pub open spec fn scan_line(st: ObjScan, line: Seq<u8>, layout: FaceLayout) -> Result<
    ObjScan,
    MeshError,
> {
    let toks = tokens_of(line);
    if toks.len() == 0 {
        Ok(st)
    } else if toks[0] == kw_v() {
        scan_coord(st, toks, 3, ObjType::VERTEX)
    } else if toks[0] == kw_vn() {
        scan_coord(st, toks, 3, ObjType::NORMAL)
    } else if toks[0] == kw_vt() {
        scan_coord(st, toks, 2, ObjType::TEXTURE)
    } else if toks[0] == kw_f() {
        scan_face(st, toks, layout)
    } else {
        Ok(st)
    }
}

/// The scan of a whole sequence of lines, stopped by the first fatal
/// record.
pub open spec fn scan_lines(lines: Seq<Seq<u8>>, layout: FaceLayout) -> Result<ObjScan, MeshError>
    decreases lines.len(),
{
    if lines.len() == 0 {
        Ok(empty_scan())
    } else {
        match scan_lines(lines.drop_last(), layout) {
            Ok(st) => scan_line(st, lines.last(), layout),
            Err(e) => Err(e),
        }
    }
}

/// Groups loose per-channel sequences as one scan state.
pub open spec fn scan_parts(
    verts: Seq<Seq<Seq<u8>>>,
    norms: Seq<Seq<Seq<u8>>>,
    tex: Seq<Seq<Seq<u8>>>,
    vertex_indicies: Seq<u32>,
    normal_indicies: Seq<u32>,
    texture_indicies: Seq<u32>,
) -> ObjScan {
    ObjScan { verts, norms, tex, vertex_indicies, normal_indicies, texture_indicies }
}

/// How many vertices the interleaved buffer emits: one per entry of the
/// configured channels' (equal-length) index sequences.
pub open spec fn emitted_count(layout: FaceLayout, st: ObjScan) -> nat {
    if layout.vertex_slot() is Some {
        st.vertex_indicies.len()
    } else if layout.normal_slot() is Some {
        st.normal_indicies.len()
    } else if layout.texture_slot() is Some {
        st.texture_indicies.len()
    } else {
        0
    }
}

/// Whether every resolved index of a configured channel points at an
/// existing coordinate record of that channel.
pub open spec fn indices_in_range(layout: FaceLayout, st: ObjScan) -> bool {
    &&& (layout.vertex_slot() is Some ==> forall|i: int|
        0 <= i < st.vertex_indicies.len() ==> st.vertex_indicies[i] < st.verts.len())
    &&& (layout.normal_slot() is Some ==> forall|i: int|
        0 <= i < st.normal_indicies.len() ==> st.normal_indicies[i] < st.norms.len())
    &&& (layout.texture_slot() is Some ==> forall|i: int|
        0 <= i < st.texture_indicies.len() ==> st.texture_indicies[i] < st.tex.len())
}

/// The caller contract of `make_verticies`: the configured channels'
/// index sequences share one length and every index points at a record.
pub open spec fn channels_consistent(layout: FaceLayout, st: ObjScan) -> bool {
    &&& (layout.vertex_slot() is Some ==> st.vertex_indicies.len() == emitted_count(layout, st))
    &&& (layout.normal_slot() is Some ==> st.normal_indicies.len() == emitted_count(layout, st))
    &&& (layout.texture_slot() is Some ==> st.texture_indicies.len() == emitted_count(layout, st))
    &&& indices_in_range(layout, st)
}

/// The coordinate records one emitted vertex strings together, in engine
/// channel order — position, normal, texture — filtered to the configured
/// channels.
pub open spec fn vertex_fields(layout: FaceLayout, st: ObjScan, i: int) -> Seq<Seq<u8>> {
    (if layout.vertex_slot() is Some {
        st.verts[st.vertex_indicies[i] as int]
    } else {
        Seq::<Seq<u8>>::empty()
    }) + (if layout.normal_slot() is Some {
        st.norms[st.normal_indicies[i] as int]
    } else {
        Seq::<Seq<u8>>::empty()
    }) + (if layout.texture_slot() is Some {
        st.tex[st.texture_indicies[i] as int]
    } else {
        Seq::<Seq<u8>>::empty()
    })
}

/// The interleaved buffer of the first `n` emitted vertices.
pub open spec fn interleave_upto(layout: FaceLayout, st: ObjScan, n: int) -> Seq<Seq<u8>>
    decreases n,
{
    if n <= 0 {
        Seq::<Seq<u8>>::empty()
    } else {
        interleave_upto(layout, st, n - 1) + vertex_fields(layout, st, n - 1)
    }
}

/// The whole interleaved buffer.
pub open spec fn interleaved(layout: FaceLayout, st: ObjScan) -> Seq<Seq<u8>> {
    interleave_upto(layout, st, emitted_count(layout, st) as int)
}

/// Appends a copy of every token of one coordinate record to the buffer.
fn append_record(out: &mut Vec<Vec<u8>>, rec: &Vec<Vec<u8>>)
    ensures
        final(out).deep_view() == old(out).deep_view() + rec.deep_view(),
{
    let m = rec.len();
    let mut k: usize = 0;
    proof {
        assert(out.deep_view() =~~= old(out).deep_view() + rec.deep_view().take(0));
    }
    while k < m
        invariant
            k <= m,
            m == rec@.len(),
            out.deep_view() =~~= old(out).deep_view() + rec.deep_view().take(k as int),
        decreases m - k,
    {
        let token = slice_to_vec(rec[k].as_slice());
        proof {
            assert(token@ == rec@[k as int]@);
            assert(token.deep_view() =~= rec.deep_view()[k as int]);
            assert(rec.deep_view().take(k as int + 1) =~= rec.deep_view().take(k as int).push(
                rec.deep_view()[k as int],
            ));
        }
        let ghost prior = out.deep_view();
        out.push(token);
        proof {
            assert(out.deep_view() =~~= prior.push(token.deep_view()));
            assert(out.deep_view() =~~= old(out).deep_view() + rec.deep_view().take(k as int + 1));
        }
        k += 1;
    }
    proof {
        assert(rec.deep_view().take(m as int) =~= rec.deep_view());
    }
}

impl FaceLayout {
    /// Builds the interleaved buffer: for each emitted vertex in turn, the
    /// coordinate records selected by the configured channels' indices, in
    /// engine channel order. The coordinate sequences are untouched.
    pub fn make_verticies(
        &self,
        verts: &mut Vec<Vec<Vec<u8>>>,
        norms: &mut Vec<Vec<Vec<u8>>>,
        tex: &mut Vec<Vec<Vec<u8>>>,
        vert_indicies: &Vec<u32>,
        norm_indicies: &Vec<u32>,
        tex_indicies: &Vec<u32>,
    ) -> (verticies: Vec<Vec<u8>>)
        requires
            channels_consistent(
                *self,
                scan_parts(
                    old(verts).deep_view(),
                    old(norms).deep_view(),
                    old(tex).deep_view(),
                    vert_indicies@,
                    norm_indicies@,
                    tex_indicies@,
                ),
            ),
        ensures
            final(verts)@ == old(verts)@,
            final(norms)@ == old(norms)@,
            final(tex)@ == old(tex)@,
            verticies.deep_view() == interleaved(
                *self,
                scan_parts(
                    old(verts).deep_view(),
                    old(norms).deep_view(),
                    old(tex).deep_view(),
                    vert_indicies@,
                    norm_indicies@,
                    tex_indicies@,
                ),
            ),
    {
        let ghost st = scan_parts(
            verts.deep_view(),
            norms.deep_view(),
            tex.deep_view(),
            vert_indicies@,
            norm_indicies@,
            tex_indicies@,
        );
        let n: usize = if self.vertex.is_some() {
            vert_indicies.len()
        } else if self.normal.is_some() {
            norm_indicies.len()
        } else if self.texture.is_some() {
            tex_indicies.len()
        } else {
            0
        };
        let mut verticies: Vec<Vec<u8>> = Vec::new();
        let mut i: usize = 0;
        proof {
            assert(verticies.deep_view() =~~= interleave_upto(*self, st, 0));
        }
        while i < n
            invariant
                i <= n,
                n == emitted_count(*self, st),
                channels_consistent(*self, st),
                st == scan_parts(
                    verts.deep_view(),
                    norms.deep_view(),
                    tex.deep_view(),
                    vert_indicies@,
                    norm_indicies@,
                    tex_indicies@,
                ),
                verts@ == old(verts)@,
                norms@ == old(norms)@,
                tex@ == old(tex)@,
                verticies.deep_view() =~~= interleave_upto(*self, st, i as int),
            decreases n - i,
        {
            let ghost before = verticies.deep_view();
            if self.vertex.is_some() {
                let idx = vert_indicies[i] as usize;
                append_record(&mut verticies, &verts[idx]);
            }
            if self.normal.is_some() {
                let idx = norm_indicies[i] as usize;
                append_record(&mut verticies, &norms[idx]);
            }
            if self.texture.is_some() {
                let idx = tex_indicies[i] as usize;
                append_record(&mut verticies, &tex[idx]);
            }
            proof {
                assert(verticies.deep_view() =~~= before + vertex_fields(*self, st, i as int));
                assert(verticies.deep_view() =~~= interleave_upto(*self, st, i as int + 1));
            }
            i += 1;
        }
        verticies
    }
}

/// Validates the `dim` coordinate fields after the keyword of one record
/// and appends them, as one record of `dim` tokens, to the channel's
/// coordinate sequence. Too few fields or a non-numeric one is fatal and
/// leaves the sequence untouched.
pub fn add_coordinate(elms: &Vec<Vec<u8>>, arr: &mut Vec<Vec<Vec<u8>>>, dim: usize) -> (r: Result<
    (),
    MeshError,
>)
    requires
        dim < usize::MAX,
    ensures
        match r {
            Ok(_) => elms@.len() >= dim + 1 && coord_fields_ok(elms.deep_view(), dim as int)
                && final(arr).deep_view() == old(arr).deep_view().push(
                elms.deep_view().subrange(1, dim as int + 1),
            ),
            Err(e) => {
                &&& final(arr)@ == old(arr)@
                &&& (e == MeshError::CoordinateTooShort || e == MeshError::BadCoordinate)
                &&& (e == MeshError::CoordinateTooShort <==> elms@.len() < dim + 1)
                &&& (e == MeshError::BadCoordinate <==> elms@.len() >= dim + 1 && !coord_fields_ok(
                    elms.deep_view(),
                    dim as int,
                ))
            },
        },
{
    if elms.len() < dim + 1 {
        return Err(MeshError::CoordinateTooShort);
    }
    let mut rec: Vec<Vec<u8>> = Vec::new();
    let mut k: usize = 1;
    while k <= dim
        invariant
            1 <= k <= dim + 1,
            dim < usize::MAX,
            elms@.len() >= dim + 1,
            rec.deep_view() =~~= elms.deep_view().subrange(1, k as int),
            forall|i: int| 1 <= i < k ==> is_float_token(elms.deep_view()[i]),
        decreases dim + 1 - k,
    {
        proof {
            assert(elms.deep_view()[k as int] =~= elms@[k as int]@);
        }
        if !crate::numeric::check_float_token(&elms[k]) {
            proof {
                assert(elms.deep_view()[k as int] =~= elms@[k as int]@);
                assert(!is_float_token(elms.deep_view()[k as int]));
            }
            return Err(MeshError::BadCoordinate);
        }
        let token = slice_to_vec(elms[k].as_slice());
        proof {
            assert(token.deep_view() =~= elms.deep_view()[k as int]);
            assert(elms.deep_view().subrange(1, k as int + 1) =~= elms.deep_view().subrange(
                1,
                k as int,
            ).push(elms.deep_view()[k as int]));
        }
        let ghost prior = rec.deep_view();
        rec.push(token);
        proof {
            assert(rec.deep_view() =~~= prior.push(token.deep_view()));
        }
        k += 1;
    }
    let ghost prior = arr.deep_view();
    arr.push(rec);
    proof {
        assert(arr.deep_view() =~~= prior.push(rec.deep_view()));
        assert(coord_fields_ok(elms.deep_view(), dim as int));
    }
    Ok(())
}

pub open spec fn position_attribute() -> VertexAttribute {
    VertexAttribute { index: 0, attrib_size: 3, attrib_mem_size: 12, attrib_type: FLOAT_TYPE }
}

pub open spec fn normal_attribute() -> VertexAttribute {
    VertexAttribute { index: 1, attrib_size: 3, attrib_mem_size: 12, attrib_type: FLOAT_TYPE }
}

pub open spec fn texture_attribute() -> VertexAttribute {
    VertexAttribute { index: 2, attrib_size: 2, attrib_mem_size: 8, attrib_type: FLOAT_TYPE }
}

/// The attribute list the configured channels induce, in engine channel
/// order; deriving it and the interleave order from one declaration keeps
/// the two consistent by construction.
pub open spec fn derived_attributes(layout: FaceLayout) -> Seq<VertexAttribute> {
    (if layout.vertex_slot() is Some {
        seq![position_attribute()]
    } else {
        Seq::<VertexAttribute>::empty()
    }) + (if layout.normal_slot() is Some {
        seq![normal_attribute()]
    } else {
        Seq::<VertexAttribute>::empty()
    }) + (if layout.texture_slot() is Some {
        seq![texture_attribute()]
    } else {
        Seq::<VertexAttribute>::empty()
    })
}

/// Scalar count of one emitted vertex: the components of the configured
/// channels.
pub open spec fn floats_per_vertex(layout: FaceLayout) -> int {
    (if layout.vertex_slot() is Some {
        3int
    } else {
        0int
    }) + (if layout.normal_slot() is Some {
        3int
    } else {
        0int
    }) + (if layout.texture_slot() is Some {
        2int
    } else {
        0int
    })
}

/// One interleaved vertex occupies four bytes per scalar: the stride of
/// the derived layout is exactly `4 * floats_per_vertex`.
pub proof fn lemma_derived_stride(layout: FaceLayout)
    ensures
        stride_of(derived_attributes(layout)) == 4 * floats_per_vertex(layout),
{
    let p = if layout.vertex_slot() is Some {
        seq![position_attribute()]
    } else {
        Seq::<VertexAttribute>::empty()
    };
    let n = if layout.normal_slot() is Some {
        seq![normal_attribute()]
    } else {
        Seq::<VertexAttribute>::empty()
    };
    let t = if layout.texture_slot() is Some {
        seq![texture_attribute()]
    } else {
        Seq::<VertexAttribute>::empty()
    };
    crate::triangles::lemma_stride_of_concat(p + n, t);
    crate::triangles::lemma_stride_of_concat(p, n);
    assert(Seq::<VertexAttribute>::empty().push(position_attribute()) =~= seq![
        position_attribute(),
    ]);
    crate::triangles::lemma_stride_of_push(Seq::<VertexAttribute>::empty(), position_attribute());
    assert(Seq::<VertexAttribute>::empty().push(normal_attribute()) =~= seq![normal_attribute()]);
    crate::triangles::lemma_stride_of_push(Seq::<VertexAttribute>::empty(), normal_attribute());
    assert(Seq::<VertexAttribute>::empty().push(texture_attribute()) =~= seq![texture_attribute()]);
    crate::triangles::lemma_stride_of_push(Seq::<VertexAttribute>::empty(), texture_attribute());
}

impl FaceLayout {
    /// The vertex-attribute layout matching this face layout: position at
    /// shader slot 0 (3 floats), normal at slot 1 (3 floats), texture at
    /// slot 2 (2 floats), filtered to the configured channels.
    pub fn attribute_layout(&self) -> (layout: VertexAttributeLayout)
        ensures
            layout@ == derived_attributes(*self),
    {
        let mut attrs: Vec<VertexAttribute> = Vec::new();
        if self.vertex.is_some() {
            attrs.push(VertexAttribute::new(0, 3, 12, FLOAT_TYPE));
        }
        if self.normal.is_some() {
            attrs.push(VertexAttribute::new(1, 3, 12, FLOAT_TYPE));
        }
        if self.texture.is_some() {
            attrs.push(VertexAttribute::new(2, 2, 8, FLOAT_TYPE));
        }
        proof {
            assert(attrs@ =~= derived_attributes(*self));
            lemma_derived_stride(*self);
        }
        VertexAttributeLayout::new(attrs)
    }
}

/// A fatal record in a prefix decides the whole scan.
pub proof fn lemma_scan_lines_stops_at_err(lines: Seq<Seq<u8>>, layout: FaceLayout, i: int)
    requires
        0 <= i <= lines.len(),
        scan_lines(lines.take(i), layout) is Err,
    ensures
        scan_lines(lines, layout) == scan_lines(lines.take(i), layout),
    decreases lines.len() - i,
{
    if i == lines.len() {
        assert(lines.take(i) =~= lines);
    } else {
        assert(lines.take(i + 1).drop_last() =~= lines.take(i));
        assert(scan_lines(lines.take(i + 1), layout) == scan_lines(lines.take(i), layout));
        lemma_scan_lines_stops_at_err(lines, layout, i + 1);
    }
}

/// Whether a line is a face record.
pub open spec fn is_face_line(line: Seq<u8>) -> bool {
    let toks = tokens_of(line);
    toks.len() > 0 && toks[0] == kw_f()
}

/// How many face records a sequence of lines holds.
pub open spec fn count_faces(lines: Seq<Seq<u8>>) -> nat
    decreases lines.len(),
{
    if lines.len() == 0 {
        0
    } else {
        count_faces(lines.drop_last()) + (if is_face_line(lines.last()) {
            1nat
        } else {
            0nat
        })
    }
}

/// After a successful scan each configured channel holds exactly three
/// indices per face record, in face order, and an unconfigured channel
/// none.
pub proof fn lemma_scan_lines_lengths(lines: Seq<Seq<u8>>, layout: FaceLayout)
    requires
        scan_lines(lines, layout) is Ok,
    ensures
        ({
            let st = scan_lines(lines, layout)->Ok_0;
            &&& st.vertex_indicies.len() == if layout.vertex_slot() is Some {
                3 * count_faces(lines)
            } else {
                0nat
            }
            &&& st.normal_indicies.len() == if layout.normal_slot() is Some {
                3 * count_faces(lines)
            } else {
                0nat
            }
            &&& st.texture_indicies.len() == if layout.texture_slot() is Some {
                3 * count_faces(lines)
            } else {
                0nat
            }
        }),
    decreases lines.len(),
{
    if lines.len() > 0 {
        lemma_scan_lines_lengths(lines.drop_last(), layout);
        lemma_keywords_distinct();
        let prev = scan_lines(lines.drop_last(), layout)->Ok_0;
        let st = scan_lines(lines, layout)->Ok_0;
        let toks = tokens_of(lines.last());
        if toks.len() > 0 && toks[0] == kw_f() {
            assert(is_face_line(lines.last()));
            assert(count_faces(lines) == count_faces(lines.drop_last()) + 1);
            assert(st == scan_face(prev, toks, layout)->Ok_0);
        } else {
            assert(!is_face_line(lines.last()));
            assert(st.vertex_indicies == prev.vertex_indicies);
            assert(st.normal_indicies == prev.normal_indicies);
            assert(st.texture_indicies == prev.texture_indicies);
        }
    }
}

/// Every coordinate record a successful scan collects has its channel's
/// arity: three scalars for position and normal, two for texture.
pub open spec fn records_arity(st: ObjScan) -> bool {
    &&& forall|i: int| 0 <= i < st.verts.len() ==> (#[trigger] st.verts[i]).len() == 3
    &&& forall|i: int| 0 <= i < st.norms.len() ==> (#[trigger] st.norms[i]).len() == 3
    &&& forall|i: int| 0 <= i < st.tex.len() ==> (#[trigger] st.tex[i]).len() == 2
}

pub proof fn lemma_scan_lines_arity(lines: Seq<Seq<u8>>, layout: FaceLayout)
    requires
        scan_lines(lines, layout) is Ok,
    ensures
        records_arity(scan_lines(lines, layout)->Ok_0),
    decreases lines.len(),
{
    if lines.len() > 0 {
        lemma_scan_lines_arity(lines.drop_last(), layout);
        lemma_keywords_distinct();
        let prev = scan_lines(lines.drop_last(), layout)->Ok_0;
        let st = scan_lines(lines, layout)->Ok_0;
        let toks = tokens_of(lines.last());
        if toks.len() > 0 && toks[0] == kw_v() {
            assert(st.verts == prev.verts.push(toks.subrange(1, 4)));
            assert(toks.subrange(1, 4).len() == 3);
        } else if toks.len() > 0 && toks[0] == kw_vn() {
            assert(st.norms == prev.norms.push(toks.subrange(1, 4)));
            assert(toks.subrange(1, 4).len() == 3);
        } else if toks.len() > 0 && toks[0] == kw_vt() {
            assert(st.tex == prev.tex.push(toks.subrange(1, 3)));
            assert(toks.subrange(1, 3).len() == 2);
        } else {
            assert(st.verts == prev.verts);
            assert(st.norms == prev.norms);
            assert(st.tex == prev.tex);
        }
    }
}

/// The whole build as a function of the input bytes and the layout: the
/// scan of the lines, then the check that every resolved index of a
/// configured channel points at a collected record.
pub open spec fn obj_to_mesh_spec(content: Seq<u8>, layout: FaceLayout) -> Result<
    ObjScan,
    MeshError,
> {
    match scan_lines(split_at_byte(content, NEWLINE), layout) {
        Ok(st) => if indices_in_range(layout, st) {
            Ok(st)
        } else {
            Err(MeshError::IndexOutOfRange)
        },
        Err(e) => Err(e),
    }
}

/// The executable mesh carries exactly the spec-level scan's data.
pub open spec fn mesh_matches(mesh: TriangleMesh, st: ObjScan, layout: FaceLayout) -> bool {
    &&& mesh.vertex_indicies@ == st.vertex_indicies
    &&& mesh.normal_indicies@ == st.normal_indicies
    &&& mesh.texture_indicies@ == st.texture_indicies
    &&& mesh.verticies.deep_view() == interleaved(layout, st)
    &&& mesh.vertex_attrib_layout@ == derived_attributes(layout)
}

/// The interleaved buffer of the first `n` emitted vertices holds exactly
/// `floats_per_vertex` scalars per vertex.
pub proof fn lemma_interleave_upto_len(layout: FaceLayout, st: ObjScan, n: int)
    requires
        records_arity(st),
        channels_consistent(layout, st),
        0 <= n <= emitted_count(layout, st),
    ensures
        interleave_upto(layout, st, n).len() == n * floats_per_vertex(layout),
    decreases n,
{
    let f = floats_per_vertex(layout);
    if n > 0 {
        lemma_interleave_upto_len(layout, st, n - 1);
        assert(interleave_upto(layout, st, n) == interleave_upto(layout, st, n - 1)
            + vertex_fields(layout, st, n - 1));
        assert(vertex_fields(layout, st, n - 1).len() == f);
        assert(interleave_upto(layout, st, n).len() == (n - 1) * f + f);
        assert(n * f == (n - 1) * f + f) by (nonlinear_arith);
    } else {
        assert(interleave_upto(layout, st, n).len() == 0);
        assert(n * f == 0) by (nonlinear_arith)
            requires
                n == 0,
        ;
    }
}

/// For every successful build, the interleaved buffer holds exactly
/// `floats_per_vertex` scalars per emitted vertex — so its length is an
/// exact multiple of the derived layout's stride divided by four, the
/// byte size of one scalar.
pub proof fn lemma_vertex_buffer_shape(content: Seq<u8>, layout: FaceLayout)
    requires
        obj_to_mesh_spec(content, layout) is Ok,
    ensures
        ({
            let st = obj_to_mesh_spec(content, layout)->Ok_0;
            &&& interleaved(layout, st).len() == emitted_count(layout, st) * floats_per_vertex(
                layout,
            )
            &&& stride_of(derived_attributes(layout)) == 4 * floats_per_vertex(layout)
        }),
{
    let lines = split_at_byte(content, NEWLINE);
    let st = obj_to_mesh_spec(content, layout)->Ok_0;
    assert(st == scan_lines(lines, layout)->Ok_0);
    lemma_scan_lines_arity(lines, layout);
    lemma_scan_lines_lengths(lines, layout);
    assert(channels_consistent(layout, st));
    lemma_interleave_upto_len(layout, st, emitted_count(layout, st) as int);
    lemma_derived_stride(layout);
}

/// For every successful build, each configured channel's index buffer
/// holds exactly three indices per face record of the input, in face
/// order; an unconfigured channel's index buffer is empty.
pub proof fn lemma_index_buffer_lengths(content: Seq<u8>, layout: FaceLayout)
    requires
        obj_to_mesh_spec(content, layout) is Ok,
    ensures
        ({
            let st = obj_to_mesh_spec(content, layout)->Ok_0;
            let faces = count_faces(split_at_byte(content, NEWLINE));
            &&& st.vertex_indicies.len() == if layout.vertex_slot() is Some {
                3 * faces
            } else {
                0nat
            }
            &&& st.normal_indicies.len() == if layout.normal_slot() is Some {
                3 * faces
            } else {
                0nat
            }
            &&& st.texture_indicies.len() == if layout.texture_slot() is Some {
                3 * faces
            } else {
                0nat
            }
        }),
{
    lemma_scan_lines_lengths(split_at_byte(content, NEWLINE), layout);
}

/// A build from a layout configured for the position channel alone yields
/// empty normal and texture index buffers and an interleaved buffer of
/// exactly three scalars per emitted vertex.
pub proof fn lemma_position_only_mesh(content: Seq<u8>, layout: FaceLayout)
    requires
        layout.vertex_slot() is Some,
        layout.normal_slot() is None,
        layout.texture_slot() is None,
        obj_to_mesh_spec(content, layout) is Ok,
    ensures
        ({
            let st = obj_to_mesh_spec(content, layout)->Ok_0;
            &&& st.normal_indicies.len() == 0
            &&& st.texture_indicies.len() == 0
            &&& floats_per_vertex(layout) == 3
            &&& interleaved(layout, st).len() == 3 * st.vertex_indicies.len()
        }),
{
    lemma_index_buffer_lengths(content, layout);
    lemma_vertex_buffer_shape(content, layout);
    let st = obj_to_mesh_spec(content, layout)->Ok_0;
    let n = emitted_count(layout, st);
    let f = floats_per_vertex(layout);
    assert(f == 3);
    assert(n == st.vertex_indicies.len());
    assert(interleaved(layout, st).len() == n * f);
    assert(n * f == 3 * n) by (nonlinear_arith)
        requires
            f == 3,
    ;
}

/// One input under one layout determines the build exactly: two builds of
/// the same bytes under the same layout agree on everything.
pub proof fn lemma_build_deterministic(
    content: Seq<u8>,
    layout: FaceLayout,
    r1: Result<ObjScan, MeshError>,
    r2: Result<ObjScan, MeshError>,
)
    requires
        r1 == obj_to_mesh_spec(content, layout),
        r2 == obj_to_mesh_spec(content, layout),
    ensures
        r1 == r2,
{
}

/// Two meshes built from the same scan carry bit-identical vertex and
/// index buffers.
pub proof fn lemma_mesh_determinism(
    m1: TriangleMesh,
    m2: TriangleMesh,
    st: ObjScan,
    layout: FaceLayout,
)
    requires
        mesh_matches(m1, st, layout),
        mesh_matches(m2, st, layout),
    ensures
        m1.verticies.deep_view() == m2.verticies.deep_view(),
        m1.vertex_indicies@ == m2.vertex_indicies@,
        m1.normal_indicies@ == m2.normal_indicies@,
        m1.texture_indicies@ == m2.texture_indicies@,
        m1.vertex_attrib_layout@ == m2.vertex_attrib_layout@,
{
}

/// The resolved components of one face reference.
fn read_face_tuple(token: &Vec<u8>) -> (tuple: Vec<u32>)
    ensures
        tuple@ == face_tuple(token@),
{
    let comps = split_slash(token);
    let mut tuple: Vec<u32> = Vec::new();
    let mut k: usize = 0;
    while k < comps.len()
        invariant
            k <= comps@.len(),
            comps.deep_view() == split_at_byte(token@, SLASH),
            tuple@.len() == k,
            forall|m: int| 0 <= m < k ==> tuple@[m] == face_component_index(comps.deep_view()[m]),
        decreases comps@.len() - k,
    {
        proof {
            assert(comps@[k as int]@ =~= comps.deep_view()[k as int]);
        }
        let c = parse_face_component(&comps[k]);
        tuple.push(c);
        k += 1;
    }
    proof {
        assert(tuple@ =~= face_tuple(token@));
    }
    tuple
}

impl FaceLayout {
    /// Whether one face tuple reaches every configured slot.
    fn covers_tuple(&self, tuple: &Vec<u32>) -> (b: bool)
        ensures
            b == tuple_covers(*self, tuple@),
    {
        let v_ok = match self.vertex {
            Some(s) => s < tuple.len(),
            None => true,
        };
        let n_ok = match self.normal {
            Some(s) => s < tuple.len(),
            None => true,
        };
        let t_ok = match self.texture {
            Some(s) => s < tuple.len(),
            None => true,
        };
        v_ok && n_ok && t_ok
    }
}

/// Whether every index is below `count`.
fn indices_below(indicies: &Vec<u32>, count: usize) -> (ok: bool)
    ensures
        ok == (forall|i: int| 0 <= i < indicies@.len() ==> indicies@[i] < count),
{
    let mut k: usize = 0;
    while k < indicies.len()
        invariant
            k <= indicies@.len(),
            forall|i: int| 0 <= i < k ==> indicies@[i] < count,
        decreases indicies@.len() - k,
    {
        if indicies[k] as usize >= count {
            return false;
        }
        k += 1;
    }
    true
}

/// Builds a mesh from raw file content under the given face layout: scans
/// the records line by line, resolves the face references of each face
/// record into the configured channels' index buffers, checks every index
/// against its coordinate sequence, and interleaves the referenced records
/// into one vertex buffer laid out by the matching attribute layout.
pub fn obj_to_mesh(content: &[u8], face_layout: &FaceLayout) -> (r: Result<TriangleMesh, MeshError>)
    ensures
        match r {
            Ok(mesh) => obj_to_mesh_spec(content@, *face_layout) matches Ok(st) && mesh_matches(
                mesh,
                st,
                *face_layout,
            ),
            Err(e) => obj_to_mesh_spec(content@, *face_layout) == Err::<ObjScan, MeshError>(e),
        },
{
    let lines = split_lines(content);
    let ghost lseq = lines.deep_view();
    let mut verts: Vec<Vec<Vec<u8>>> = Vec::new();
    let mut norms: Vec<Vec<Vec<u8>>> = Vec::new();
    let mut tex: Vec<Vec<Vec<u8>>> = Vec::new();
    let mut vertex_indicies: Vec<u32> = Vec::new();
    let mut norm_indicies: Vec<u32> = Vec::new();
    let mut tex_indicies: Vec<u32> = Vec::new();
    let mut li: usize = 0;
    proof {
        assert(lseq.take(0) =~= Seq::<Seq<u8>>::empty());
        assert(verts.deep_view() =~= Seq::<Seq<Seq<u8>>>::empty());
        assert(norms.deep_view() =~= Seq::<Seq<Seq<u8>>>::empty());
        assert(tex.deep_view() =~= Seq::<Seq<Seq<u8>>>::empty());
        assert(scan_parts(
            verts.deep_view(),
            norms.deep_view(),
            tex.deep_view(),
            vertex_indicies@,
            norm_indicies@,
            tex_indicies@,
        ) == empty_scan());
    }
    while li < lines.len()
        invariant
            li <= lines@.len(),
            lseq == lines.deep_view(),
            lseq == split_at_byte(content@, NEWLINE),
            lseq.len() == lines@.len(),
            scan_lines(lseq.take(li as int), *face_layout) == Ok::<ObjScan, MeshError>(
                scan_parts(
                    verts.deep_view(),
                    norms.deep_view(),
                    tex.deep_view(),
                    vertex_indicies@,
                    norm_indicies@,
                    tex_indicies@,
                ),
            ),
        decreases lines@.len() - li,
    {
        let ghost st0 = scan_parts(
            verts.deep_view(),
            norms.deep_view(),
            tex.deep_view(),
            vertex_indicies@,
            norm_indicies@,
            tex_indicies@,
        );
        let row = &lines[li];
        let elms = split_fields(row);
        let ghost toks = tokens_of(lseq[li as int]);
        proof {
            assert(lseq[li as int] =~= row@);
            assert(elms.deep_view() == toks);
            assert(lseq.take(li as int + 1).drop_last() =~= lseq.take(li as int));
            assert(lseq.take(li as int + 1).last() == lseq[li as int]);
        }
        if elms.len() > 0 {
            let t0 = &elms[0];
            proof {
                assert(t0@ =~= toks[0]);
                lemma_keywords_distinct();
            }
            if t0.len() == 1 && t0[0] == 118 {
                proof {
                    assert(toks[0] =~= kw_v());
                }
                match add_coordinate(&elms, &mut verts, 3) {
                    Ok(_) => {
                        proof {
                            assert(scan_line(st0, lseq[li as int], *face_layout)
                                == Ok::<ObjScan, MeshError>(
                                scan_parts(
                                    verts.deep_view(),
                                    norms.deep_view(),
                                    tex.deep_view(),
                                    vertex_indicies@,
                                    norm_indicies@,
                                    tex_indicies@,
                                ),
                            ));
                        }
                    },
                    Err(e) => {
                        proof {
                            assert(scan_line(st0, lseq[li as int], *face_layout) == Err::<
                                ObjScan,
                                MeshError,
                            >(e));
                            lemma_scan_lines_stops_at_err(lseq, *face_layout, li as int + 1);
                        }
                        return Err(e);
                    },
                }
            } else if t0.len() == 2 && t0[0] == 118 && t0[1] == 110 {
                proof {
                    assert(toks[0] =~= kw_vn());
                }
                match add_coordinate(&elms, &mut norms, 3) {
                    Ok(_) => {
                        proof {
                            assert(scan_line(st0, lseq[li as int], *face_layout)
                                == Ok::<ObjScan, MeshError>(
                                scan_parts(
                                    verts.deep_view(),
                                    norms.deep_view(),
                                    tex.deep_view(),
                                    vertex_indicies@,
                                    norm_indicies@,
                                    tex_indicies@,
                                ),
                            ));
                        }
                    },
                    Err(e) => {
                        proof {
                            assert(scan_line(st0, lseq[li as int], *face_layout) == Err::<
                                ObjScan,
                                MeshError,
                            >(e));
                            lemma_scan_lines_stops_at_err(lseq, *face_layout, li as int + 1);
                        }
                        return Err(e);
                    },
                }
            } else if t0.len() == 2 && t0[0] == 118 && t0[1] == 116 {
                proof {
                    assert(toks[0] =~= kw_vt());
                }
                match add_coordinate(&elms, &mut tex, 2) {
                    Ok(_) => {
                        proof {
                            assert(scan_line(st0, lseq[li as int], *face_layout)
                                == Ok::<ObjScan, MeshError>(
                                scan_parts(
                                    verts.deep_view(),
                                    norms.deep_view(),
                                    tex.deep_view(),
                                    vertex_indicies@,
                                    norm_indicies@,
                                    tex_indicies@,
                                ),
                            ));
                        }
                    },
                    Err(e) => {
                        proof {
                            assert(scan_line(st0, lseq[li as int], *face_layout) == Err::<
                                ObjScan,
                                MeshError,
                            >(e));
                            lemma_scan_lines_stops_at_err(lseq, *face_layout, li as int + 1);
                        }
                        return Err(e);
                    },
                }
            } else if t0.len() == 1 && t0[0] == 102 {
                proof {
                    assert(toks[0] =~= kw_f());
                }
                if elms.len() < 4 {
                    proof {
                        assert(scan_line(st0, lseq[li as int], *face_layout) == Err::<
                            ObjScan,
                            MeshError,
                        >(MeshError::FaceTooShort));
                        lemma_scan_lines_stops_at_err(lseq, *face_layout, li as int + 1);
                    }
                    return Err(MeshError::FaceTooShort);
                }
                proof {
                    assert(elms@[1]@ =~= toks[1]);
                    assert(elms@[2]@ =~= toks[2]);
                    assert(elms@[3]@ =~= toks[3]);
                }
                let tuple1 = read_face_tuple(&elms[1]);
                let tuple2 = read_face_tuple(&elms[2]);
                let tuple3 = read_face_tuple(&elms[3]);
                let c1 = face_layout.covers_tuple(&tuple1);
                let c2 = face_layout.covers_tuple(&tuple2);
                let c3 = face_layout.covers_tuple(&tuple3);
                if !(c1 && c2 && c3) {
                    proof {
                        assert(scan_line(st0, lseq[li as int], *face_layout) == Err::<
                            ObjScan,
                            MeshError,
                        >(MeshError::FaceIndexMissing));
                        lemma_scan_lines_stops_at_err(lseq, *face_layout, li as int + 1);
                    }
                    return Err(MeshError::FaceIndexMissing);
                }
                face_layout.update_indicies(
                    &mut vertex_indicies,
                    &mut norm_indicies,
                    &mut tex_indicies,
                    &tuple1,
                );
                face_layout.update_indicies(
                    &mut vertex_indicies,
                    &mut norm_indicies,
                    &mut tex_indicies,
                    &tuple2,
                );
                face_layout.update_indicies(
                    &mut vertex_indicies,
                    &mut norm_indicies,
                    &mut tex_indicies,
                    &tuple3,
                );
                proof {
                    assert(scan_line(st0, lseq[li as int], *face_layout) == Ok::<
                        ObjScan,
                        MeshError,
                    >(
                        scan_parts(
                            verts.deep_view(),
                            norms.deep_view(),
                            tex.deep_view(),
                            vertex_indicies@,
                            norm_indicies@,
                            tex_indicies@,
                        ),
                    ));
                }
            } else {
                proof {
                    assert(toks[0] != kw_v());
                    assert(toks[0] != kw_vn());
                    assert(toks[0] != kw_vt());
                    assert(toks[0] != kw_f());
                    assert(scan_line(st0, lseq[li as int], *face_layout) == Ok::<
                        ObjScan,
                        MeshError,
                    >(st0));
                }
            }
        } else {
            proof {
                assert(scan_line(st0, lseq[li as int], *face_layout) == Ok::<ObjScan, MeshError>(
                    st0,
                ));
            }
        }
        li += 1;
    }
    proof {
        assert(lseq.take(lines@.len() as int) =~= lseq);
    }
    let ghost st = scan_parts(
        verts.deep_view(),
        norms.deep_view(),
        tex.deep_view(),
        vertex_indicies@,
        norm_indicies@,
        tex_indicies@,
    );
    if face_layout.vertex.is_some() {
        if !indices_below(&vertex_indicies, verts.len()) {
            return Err(MeshError::IndexOutOfRange);
        }
    }
    if face_layout.normal.is_some() {
        if !indices_below(&norm_indicies, norms.len()) {
            return Err(MeshError::IndexOutOfRange);
        }
    }
    if face_layout.texture.is_some() {
        if !indices_below(&tex_indicies, tex.len()) {
            return Err(MeshError::IndexOutOfRange);
        }
    }
    proof {
        assert(indices_in_range(*face_layout, st));
        lemma_scan_lines_lengths(lseq, *face_layout);
        assert(channels_consistent(*face_layout, st));
    }
    let vertex_attrib_layout = face_layout.attribute_layout();
    let verticies = face_layout.make_verticies(
        &mut verts,
        &mut norms,
        &mut tex,
        &vertex_indicies,
        &norm_indicies,
        &tex_indicies,
    );
    Ok(
        TriangleMesh::from_array_indicies(
            verticies,
            vertex_indicies,
            norm_indicies,
            tex_indicies,
            vertex_attrib_layout,
        ),
    )
}

} // verus!
