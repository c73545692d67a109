//! The layout of a vertex: its attributes and its size in bytes.

use vstd::prelude::*;

verus! {

/// The bytes of one float component.
pub const FLOAT_SIZE: u32 = 4;

/// The type of an attribute: one to four floats.
#[derive(Copy, Clone, Debug, PartialEq, Eq, Structural)]
pub enum AttributeVariant {
    Float,
    Float2,
    Float3,
    Float4,
}

/// The number of components of an attribute type.
pub open spec fn components(v: AttributeVariant) -> u32 {
    match v {
        AttributeVariant::Float => 1,
        AttributeVariant::Float2 => 2,
        AttributeVariant::Float3 => 3,
        AttributeVariant::Float4 => 4,
    }
}

/// A `FloatN` type has `N` components of four bytes each: the count grows by one from type to
/// type, starting at one.
pub proof fn lemma_components_are_counts(v: AttributeVariant)
    ensures
        1 <= components(v) <= 4,
        components(AttributeVariant::Float) == 1,
        components(AttributeVariant::Float2) == components(AttributeVariant::Float) + 1,
        components(AttributeVariant::Float3) == components(AttributeVariant::Float2) + 1,
        components(AttributeVariant::Float4) == components(AttributeVariant::Float3) + 1,
        FLOAT_SIZE == 4,
{
}

impl AttributeVariant {
    /// The number of floats of the type: one for `Float` up to four for `Float4`.
    pub fn components_count(self) -> (r: u32)
        ensures
            r == components(self),
            self == AttributeVariant::Float ==> r == 1,
            self == AttributeVariant::Float2 ==> r == 2,
            self == AttributeVariant::Float3 ==> r == 3,
            self == AttributeVariant::Float4 ==> r == 4,
    {
        match self {
            AttributeVariant::Float => 1,
            AttributeVariant::Float2 => 2,
            AttributeVariant::Float3 => 3,
            AttributeVariant::Float4 => 4,
        }
    }

    /// The bytes of an attribute: its components times `FLOAT_SIZE`, so 4, 8, 12 or 16.
    pub fn size(self) -> (r: u32)
        ensures
            r == components(self) * FLOAT_SIZE,
            self == AttributeVariant::Float ==> r == 4,
            self == AttributeVariant::Float2 ==> r == 8,
            self == AttributeVariant::Float3 ==> r == 12,
            self == AttributeVariant::Float4 ==> r == 16,
    {
        self.components_count() * FLOAT_SIZE
    }
}

/// An attribute of a vertex: where it binds, its type, and whether it is normalized.
#[derive(Copy, Clone, Debug, PartialEq, Eq, Structural)]
pub struct VertexAttribute {
    pub location: u8,
    pub variant: AttributeVariant,
    pub normalized: bool,
}

/// The bytes of the attributes, in all.
pub open spec fn attributes_size(attributes: Seq<VertexAttribute>) -> int
    decreases attributes.len(),
{
    if attributes.len() == 0 {
        0
    } else {
        attributes_size(attributes.drop_last()) + components(attributes.last().variant) * FLOAT_SIZE
    }
}

/// A vertex layout: its attributes, in order, and the size of a vertex.
pub struct VertexFormat {
    attributes: Vec<VertexAttribute>,
    size: u32,
}

proof fn lemma_attributes_size_bound(attributes: Seq<VertexAttribute>)
    ensures
        0 <= attributes_size(attributes) <= 16 * attributes.len(),
    decreases attributes.len(),
{
    if attributes.len() > 0 {
        lemma_attributes_size_bound(attributes.drop_last());
    }
}

impl VertexFormat {
    pub closed spec fn attribute_list(&self) -> Seq<VertexAttribute> {
        self.attributes@
    }

    pub closed spec fn vertex_size(&self) -> u32 {
        self.size
    }

    /// A layout of the given attributes; the size is the sum of theirs, which
    /// `requires` keeps within `u32::MAX`.
    pub fn new(attributes: Vec<VertexAttribute>) -> (r: Self)
        requires
            attributes_size(attributes@) <= u32::MAX,
        ensures
            r.wf(),
            r.attribute_list() == attributes@,
            r.vertex_size() == attributes_size(attributes@),
    {
        let mut size: u32 = 0;
        let mut i: usize = 0;
        while i < attributes.len()
            invariant
                i <= attributes@.len(),
                attributes_size(attributes@) <= u32::MAX,
                size == attributes_size(attributes@.take(i as int)),
            decreases attributes@.len() - i,
        {
            proof {
                assert(attributes@.take(i as int + 1).drop_last() =~= attributes@.take(i as int));
                lemma_prefix_size(attributes@, i as int + 1);
            }
            size = size + attributes[i].variant.size();
            i = i + 1;
        }
        proof {
            assert(attributes@.take(i as int) =~= attributes@);
        }
        VertexFormat { attributes, size }
    }

    pub fn attributes(&self) -> (r: &Vec<VertexAttribute>)
        ensures
            r@ == self.attribute_list(),
    {
        &self.attributes
    }

    pub fn size(&self) -> (r: u32)
        ensures
            r == self.vertex_size(),
    {
        self.size
    }

    /// The layout's invariant: the vertex size is the sum of the attribute sizes.
    pub open spec fn wf(&self) -> bool {
        self.vertex_size() == attributes_size(self.attribute_list())
    }

    /// The byte offset of each attribute within a vertex: the sizes of the attributes before it.
    pub fn attribute_offsets(&self) -> (r: Vec<u32>)
        requires
            self.wf(),
        ensures
            r@.len() == self.attribute_list().len(),
            forall|i: int| 0 <= i < r@.len() ==> #[trigger] r@[i] == attributes_size(self.attribute_list().take(i)),
    {
        let mut offsets: Vec<u32> = Vec::new();
        let mut offset: u32 = 0;
        let mut i: usize = 0;
        while i < self.attributes.len()
            invariant
                i <= self.attributes@.len(),
                self.wf(),
                offsets@.len() == i,
                offset == attributes_size(self.attributes@.take(i as int)),
                forall|j: int| 0 <= j < i ==> #[trigger] offsets@[j] == attributes_size(self.attributes@.take(j)),
            decreases self.attributes@.len() - i,
        {
            proof {
                assert(self.attributes@.take(i as int + 1).drop_last() =~= self.attributes@.take(i as int));
                lemma_prefix_size(self.attributes@, i as int + 1);
            }
            offsets.push(offset);
            offset = offset + self.attributes[i].variant.size();
            i = i + 1;
        }
        offsets
    }
}

/// The attributes of a prefix weigh no more than all of them.
/// Attribute offsets in a vertex: the first attribute starts at byte 0, and each next one
/// starts where the one before ends, `4 * components` bytes on.
pub proof fn lemma_offsets_step(attributes: Seq<VertexAttribute>, i: int)
    requires
        0 <= i < attributes.len(),
    ensures
        attributes_size(attributes.take(0)) == 0,
        attributes_size(attributes.take(i + 1)) == attributes_size(attributes.take(i)) + 4 * components(attributes[i].variant),
{
    assert(attributes.take(0) =~= Seq::<VertexAttribute>::empty());
    assert(attributes.take(i + 1).drop_last() =~= attributes.take(i));
}

proof fn lemma_prefix_size(attributes: Seq<VertexAttribute>, k: int)
    requires
        0 <= k <= attributes.len(),
    ensures
        attributes_size(attributes.take(k)) <= attributes_size(attributes),
    decreases attributes.len() - k,
{
    if k < attributes.len() {
        lemma_prefix_size(attributes, k + 1);
        assert(attributes.take(k + 1).drop_last() =~= attributes.take(k));
    } else {
        assert(attributes.take(k) =~= attributes);
    }
}

} // verus!
