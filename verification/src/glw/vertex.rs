//! How vertex data is laid out for the shaders.
use vstd::prelude::*;

verus! {

/// The type of the components of a vertex attribute.
#[derive(Clone, Copy, Debug, PartialEq, Eq, Structural)]
pub enum GLType {
    Float,
    UInt,
    Int,
}

impl GLType {
    /// The size of one component, in bytes: GL's float, unsigned and signed
    /// integer types are four bytes each.
    pub fn size(&self) -> (r: usize)
        ensures
            r == 4,
    {
        match *self {
            GLType::Float => 4,
            GLType::UInt => 4,
            GLType::Int => 4,
        }
    }

    /// Whether the components are integers, which the shaders read without
    /// conversion to floats.
    pub fn is_integral(&self) -> (r: bool)
        ensures
            r == !(*self is Float),
    {
        match *self {
            GLType::Float => false,
            GLType::UInt => true,
            GLType::Int => true,
        }
    }
}

/// How to pass one input of the vertex shaders from a vertex buffer.
#[derive(Clone, Copy, Debug)]
pub struct AttribData<'a> {
    /// The name of the shader's input variable.
    pub name: &'a str,
    /// The number of components of this attribute.
    pub size: usize,
    /// The type of each component.
    pub unit: GLType,
}

/// The number of bytes one attribute takes in a vertex.
pub open spec fn attrib_bytes(a: AttribData) -> int {
    a.size * 4
}

/// The number of bytes the first `n` attributes take in a vertex: the
/// offset of attribute `n`.
pub open spec fn attribs_bytes(attribs: Seq<AttribData>, n: int) -> int
    decreases n,
{
    if n <= 0 {
        0
    } else {
        attribs_bytes(attribs, n - 1) + attrib_bytes(attribs[n - 1])
    }
}

/// The byte offset of each attribute within a vertex, and the size of a
/// whole vertex.
pub fn attrib_offsets(attribs: &[AttribData]) -> (r: (Vec<usize>, usize))
    requires
        attribs_bytes(attribs@, attribs@.len() as int) <= usize::MAX,
    ensures
        r.0@.len() == attribs@.len(),
        forall|i: int| 0 <= i < attribs@.len() ==> r.0@[i] == attribs_bytes(attribs@, i),
        r.1 == attribs_bytes(attribs@, attribs@.len() as int),
{
    let mut offsets: Vec<usize> = Vec::new();
    let mut offset: usize = 0;
    let mut i: usize = 0;
    while i < attribs.len()
        invariant
            0 <= i <= attribs@.len(),
            offsets@.len() == i,
            forall|j: int| 0 <= j < i ==> offsets@[j] == attribs_bytes(attribs@, j),
            offset == attribs_bytes(attribs@, i as int),
            attribs_bytes(attribs@, attribs@.len() as int) <= usize::MAX,
        decreases attribs@.len() - i,
    {
        proof {
            lemma_attribs_bytes_monotonic(attribs@, i + 1, attribs@.len() as int);
        }
        offsets.push(offset);
        let a = attribs[i];
        offset = offset + a.size * a.unit.size();
        i = i + 1;
    }
    (offsets, offset)
}

/// The size of a vertex laid out by `attribs`, in bytes, when it is a
/// machine number.
pub fn attribs_size(attribs: &[AttribData]) -> (r: Option<usize>)
    ensures
        r == (if attribs_bytes(attribs@, attribs@.len() as int) <= usize::MAX {
            Some(attribs_bytes(attribs@, attribs@.len() as int) as usize)
        } else {
            None::<usize>
        }),
{
    let mut total: usize = 0;
    let mut i: usize = 0;
    while i < attribs.len()
        invariant
            0 <= i <= attribs@.len(),
            total == attribs_bytes(attribs@, i as int),
        decreases attribs@.len() - i,
    {
        proof {
            lemma_attribs_bytes_monotonic(attribs@, i + 1, attribs@.len() as int);
        }
        let a = attribs[i];
        let bytes = match a.size.checked_mul(a.unit.size()) {
            Some(b) => b,
            None => {
                proof {
                    lemma_attribs_bytes_monotonic(attribs@, i + 1, attribs@.len() as int);
                    lemma_attribs_bytes_monotonic(attribs@, i as int, i as int);
                }
                return None;
            },
        };
        total = match total.checked_add(bytes) {
            Some(t) => t,
            None => {
                return None;
            },
        };
        i = i + 1;
    }
    Some(total)
}

/// Whether `attribs` describe the whole of a `T`, with nothing left over.
pub fn attribs_fill<T>(attribs: &[AttribData]) -> (r: bool)
    ensures
        r == (attribs_bytes(attribs@, attribs@.len() as int) == vstd::layout::size_of::<T>()),
{
    let size = core::mem::size_of::<T>();
    proof {
        lemma_attribs_bytes_monotonic(attribs@, 0, attribs@.len() as int);
    }
    match attribs_size(attribs) {
        Some(n) => n == size,
        None => false,
    }
}

/// Whether a `T` is a whole, non-zero number of vertices laid out by
/// `attribs`.
pub fn attribs_divide<T>(attribs: &[AttribData]) -> (r: bool)
    ensures
        r == (attribs_bytes(attribs@, attribs@.len() as int) <= usize::MAX && attribs_bytes(
            attribs@,
            attribs@.len() as int,
        ) != 0 && vstd::layout::size_of::<T>() as int % attribs_bytes(
            attribs@,
            attribs@.len() as int,
        ) == 0),
{
    let size = core::mem::size_of::<T>();
    proof {
        lemma_attribs_bytes_monotonic(attribs@, 0, attribs@.len() as int);
    }
    match attribs_size(attribs) {
        Some(n) => n != 0 && size % n == 0,
        None => false,
    }
}

/// Attributes never take a negative number of bytes, so the offsets grow.
pub proof fn lemma_attribs_bytes_monotonic(attribs: Seq<AttribData>, m: int, n: int)
    requires
        0 <= m <= n,
    ensures
        0 <= attribs_bytes(attribs, m) <= attribs_bytes(attribs, n),
    decreases n,
{
    if n > m {
        lemma_attribs_bytes_monotonic(attribs, m, n - 1);
    } else if m > 0 {
        lemma_attribs_bytes_monotonic(attribs, m - 1, m - 1);
    }
}

} // verus!
