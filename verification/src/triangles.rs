//! The declarative vertex-attribute layout — ordered attribute descriptors,
//! the per-vertex byte stride they add up to, each attribute's byte offset
//! within one interleaved vertex — and the finished mesh that owns the
//! buffers built from it.

use vstd::prelude::*;

verus! {

/// Code for a 32-bit float component, as the graphics API numbers
/// component types.
pub const FLOAT_TYPE: u32 = 5126;

/// One GPU vertex attribute: shader slot index, number of components,
/// byte size of the whole component group, and component type code.
#[derive(Clone, Copy, PartialEq, Eq, Structural, Debug)]
pub struct VertexAttribute {
    pub index: u32,
    pub attrib_size: i32,
    pub attrib_mem_size: i32,
    pub attrib_type: u32,
}

impl VertexAttribute {
    pub fn new(index: u32, attrib_size: i32, attrib_mem_size: i32, attrib_type: u32) -> (a:
        VertexAttribute)
        ensures
            a == (VertexAttribute { index, attrib_size, attrib_mem_size, attrib_type }),
    {
        VertexAttribute { index, attrib_size, attrib_mem_size, attrib_type }
    }
}

/// Total byte size of one interleaved vertex under these attributes.
pub open spec fn stride_of(attrs: Seq<VertexAttribute>) -> int
    decreases attrs.len(),
{
    if attrs.len() == 0 {
        0
    } else {
        stride_of(attrs.drop_last()) + attrs.last().attrib_mem_size
    }
}

/// Byte offset of attribute `i`: the sizes of the attributes before it.
pub open spec fn offset_of(attrs: Seq<VertexAttribute>, i: int) -> int {
    stride_of(attrs.take(i))
}

pub open spec fn sizes_nonneg(attrs: Seq<VertexAttribute>) -> bool {
    forall|i: int| 0 <= i < attrs.len() ==> attrs[i].attrib_mem_size >= 0
}

/// Every prefix sum of non-negative attribute sizes sits between 0 and the
/// full stride.
pub proof fn lemma_stride_of_prefix(attrs: Seq<VertexAttribute>, i: int)
    requires
        sizes_nonneg(attrs),
        0 <= i <= attrs.len(),
    ensures
        0 <= stride_of(attrs.take(i)) <= stride_of(attrs),
    decreases attrs.len(),
{
    if attrs.len() == 0 {
        assert(attrs.take(i) =~= attrs);
    } else if i == attrs.len() {
        assert(attrs.take(i) =~= attrs);
        assert(sizes_nonneg(attrs.drop_last()));
        lemma_stride_of_prefix(attrs.drop_last(), i - 1);
        assert(attrs.drop_last().take(i - 1) =~= attrs.drop_last());
    } else {
        assert(sizes_nonneg(attrs.drop_last()));
        lemma_stride_of_prefix(attrs.drop_last(), i);
        assert(attrs.drop_last().take(i) =~= attrs.take(i));
    }
}

pub proof fn lemma_stride_of_push(attrs: Seq<VertexAttribute>, a: VertexAttribute)
    ensures
        stride_of(attrs.push(a)) == stride_of(attrs) + a.attrib_mem_size,
{
    assert(attrs.push(a).drop_last() =~= attrs);
}

pub proof fn lemma_stride_of_concat(a: Seq<VertexAttribute>, b: Seq<VertexAttribute>)
    ensures
        stride_of(a + b) == stride_of(a) + stride_of(b),
    decreases b.len(),
{
    if b.len() == 0 {
        assert(a + b =~= a);
    } else {
        assert((a + b).drop_last() =~= a + b.drop_last());
        lemma_stride_of_concat(a, b.drop_last());
    }
}

/// Ordered list of vertex attributes together with the per-vertex byte
/// stride they add up to.
#[derive(Debug)]
pub struct VertexAttributeLayout {
    attributes: Vec<VertexAttribute>,
    stride: i32,
}

impl View for VertexAttributeLayout {
    type V = Seq<VertexAttribute>;

    closed spec fn view(&self) -> Seq<VertexAttribute> {
        self.attributes@
    }
}

impl VertexAttributeLayout {
    #[verifier::type_invariant]
    spec fn wf(self) -> bool {
        &&& self.stride == stride_of(self.attributes@)
        &&& sizes_nonneg(self.attributes@)
        &&& stride_of(self.attributes@) <= i32::MAX
    }

    pub fn new(vertex_attributes: Vec<VertexAttribute>) -> (layout: VertexAttributeLayout)
        requires
            sizes_nonneg(vertex_attributes@),
            stride_of(vertex_attributes@) <= i32::MAX,
        ensures
            layout@ == vertex_attributes@,
    {
        let mut layout = VertexAttributeLayout { attributes: Vec::new(), stride: 0 };
        layout.add(vertex_attributes);
        layout
    }

    fn add(&mut self, vertex_attributes: Vec<VertexAttribute>)
        requires
            sizes_nonneg(vertex_attributes@),
            stride_of(old(self)@ + vertex_attributes@) <= i32::MAX,
        ensures
            final(self)@ == old(self)@ + vertex_attributes@,
    {
        proof {
            use_type_invariant(&*self);
        }
        let mut fresh = VertexAttributeLayout { attributes: Vec::new(), stride: 0 };
        core::mem::swap(self, &mut fresh);
        let VertexAttributeLayout { mut attributes, mut stride } = fresh;
        let ghost orig = attributes@;
        let ghost added = vertex_attributes@;
        let n = vertex_attributes.len();
        let mut k: usize = 0;
        while k < n
            invariant
                k <= n,
                n == added.len(),
                sizes_nonneg(added),
                sizes_nonneg(orig),
                stride_of(orig + added) <= i32::MAX,
                attributes@ =~= orig + added.take(k as int),
                stride == stride_of(attributes@),
                vertex_attributes@ == added,
            decreases n - k,
        {
            let attrib = vertex_attributes[k];
            proof {
                lemma_stride_of_push(attributes@, attrib);
                assert(attributes@.push(attrib) =~= orig + added.take(k as int + 1));
                let cur = orig + added.take(k as int);
                let next = orig + added.take(k as int + 1);
                assert(next.drop_last() =~= cur);
                assert(next.last() == added[k as int]);
                assert(sizes_nonneg(orig + added));
                lemma_stride_of_prefix(orig + added, orig.len() + k + 1);
                assert((orig + added).take(orig.len() + k + 1) =~= next);
                lemma_stride_of_prefix(next, next.len() as int - 1);
                assert(next.take(next.len() as int - 1) =~= cur);
            }
            stride = stride + attrib.attrib_mem_size;
            attributes.push(attrib);
            k += 1;
        }
        proof {
            assert(added.take(n as int) =~= added);
        }
        *self = VertexAttributeLayout { attributes, stride };
    }

    /// How many attributes the layout declares.
    pub fn len(&self) -> (n: usize)
        ensures
            n == self@.len(),
    {
        self.attributes.len()
    }

    /// The attribute at position `i`.
    pub fn attribute(&self, i: usize) -> (a: VertexAttribute)
        requires
            i < self@.len(),
        ensures
            a == self@[i as int],
    {
        self.attributes[i]
    }

    /// The per-vertex byte stride: the sum of all attribute sizes.
    pub fn stride(&self) -> (s: i32)
        ensures
            s == stride_of(self@),
    {
        proof {
            use_type_invariant(self);
        }
        self.stride
    }

    /// The byte offset of each attribute within one interleaved vertex, in
    /// declaration order.
    pub fn offsets(&self) -> (offs: Vec<i32>)
        ensures
            offs@.len() == self@.len(),
            forall|i: int| 0 <= i < self@.len() ==> offs@[i] == offset_of(self@, i),
    {
        proof {
            use_type_invariant(self);
        }
        let n = self.attributes.len();
        let mut offs: Vec<i32> = Vec::new();
        let mut ptr: i32 = 0;
        let mut i: usize = 0;
        while i < n
            invariant
                i <= n,
                n == self@.len(),
                self.wf(),
                ptr == offset_of(self@, i as int),
                offs@.len() == i,
                forall|m: int| 0 <= m < i ==> offs@[m] == offset_of(self@, m),
            decreases n - i,
        {
            offs.push(ptr);
            proof {
                lemma_stride_of_prefix(self@, i as int + 1);
                let cur = self@.take(i as int);
                let next = self@.take(i as int + 1);
                assert(next.drop_last() =~= cur);
                assert(next.last() == self@[i as int]);
                lemma_stride_of_prefix(self@, i as int);
            }
            ptr = ptr + self.attributes[i].attrib_mem_size;
            i += 1;
        }
        offs
    }
}

/// The finished mesh: the interleaved scalar buffer, one index buffer per
/// channel, and the attribute layout the buffers follow.
#[derive(Debug)]
pub struct TriangleMesh {
    pub verticies: Vec<Vec<u8>>,
    pub vertex_indicies: Vec<u32>,
    pub normal_indicies: Vec<u32>,
    pub texture_indicies: Vec<u32>,
    pub vertex_attrib_layout: VertexAttributeLayout,
}

impl TriangleMesh {
    pub fn from_array_indicies(
        verticies: Vec<Vec<u8>>,
        vertex_indicies: Vec<u32>,
        normal_indicies: Vec<u32>,
        texture_indicies: Vec<u32>,
        vertex_attrib_layout: VertexAttributeLayout,
    ) -> (mesh: TriangleMesh)
        ensures
            mesh.verticies == verticies,
            mesh.vertex_indicies == vertex_indicies,
            mesh.normal_indicies == normal_indicies,
            mesh.texture_indicies == texture_indicies,
            mesh.vertex_attrib_layout == vertex_attrib_layout,
    {
        TriangleMesh {
            verticies,
            vertex_indicies,
            normal_indicies,
            texture_indicies,
            vertex_attrib_layout,
        }
    }
}

} // verus!
