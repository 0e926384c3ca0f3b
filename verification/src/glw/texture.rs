//! The texture units of the shaders, handed out one by one.
use vstd::prelude::*;
use crate::id_allocator::IdValue;
use vstd::std_specs::ops::AddSpecImpl;

verus! {

/// A texture unit, by its number in the shaders.
#[derive(Clone, Copy, Debug, PartialEq, Eq, Structural, Hash)]
pub struct TextureUnit {
    pub glsl_id: u32,
}

impl Default for TextureUnit {
    fn default() -> (r: TextureUnit)
        ensures
            r == (TextureUnit { glsl_id: 0 }),
    {
        TextureUnit { glsl_id: 0 }
    }
}

impl core::ops::Add<u32> for TextureUnit {
    type Output = TextureUnit;

    fn add(self, rhs: u32) -> (r: TextureUnit) {
        TextureUnit { glsl_id: self.glsl_id + rhs }
    }
}

impl AddSpecImpl<u32> for TextureUnit {
    open spec fn obeys_add_spec() -> bool {
        true
    }

    open spec fn add_req(self, rhs: u32) -> bool {
        self.glsl_id + rhs <= u32::MAX
    }

    open spec fn add_spec(self, rhs: u32) -> TextureUnit {
        TextureUnit { glsl_id: (self.glsl_id + rhs) as u32 }
    }
}

impl IdValue for TextureUnit {
    open spec fn index(&self) -> int {
        self.glsl_id as int
    }

    fn first() -> (r: Self) {
        TextureUnit::default()
    }

    fn is_last(&self) -> (r: bool) {
        self.glsl_id == u32::MAX
    }

    fn after(&self) -> (r: Self) {
        *self + 1
    }

    proof fn index_range(a: Self) {
    }

    proof fn index_injective(a: Self, b: Self) {
    }
}

} // verus!
