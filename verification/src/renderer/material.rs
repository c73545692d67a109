//! Materials: a shader and a value for each of its uniforms, looked up by the uniform's name.
//!
//! The values are the renderer's own type `D`; the material only keeps them in the order of
//! the shader's uniforms.

use vstd::prelude::*;

verus! {

/// The type of a shader uniform.
#[derive(Copy, Clone, Debug, PartialEq, Eq, Structural)]
pub enum UniformVariant {
    Float,
    Float2,
    Float3,
    Float4,
    Mat4,
    Texture2D,
}

/// The GL type of each uniform type: `gl::FLOAT`, `gl::FLOAT_VEC2`, `gl::FLOAT_VEC3`,
/// `gl::FLOAT_VEC4`, `gl::FLOAT_MAT4` and `gl::SAMPLER_2D`, which the gl crate generates from
/// the Khronos registry: `0x1406`, `0x8B50`, `0x8B51`, `0x8B52`, `0x8B5C` and `0x8B5E`.
#[verifier::external_body]
fn gl_uniform_types() -> (r: (u32, u32, u32, u32, u32, u32))
    ensures
        r == (0x1406u32, 0x8B50u32, 0x8B51u32, 0x8B52u32, 0x8B5Cu32, 0x8B5Eu32),
{
    (gl::FLOAT, gl::FLOAT_VEC2, gl::FLOAT_VEC3, gl::FLOAT_VEC4, gl::FLOAT_MAT4, gl::SAMPLER_2D)
}

/// The uniform type of a GL type enum, for the types a material supports.
pub open spec fn variant_of_gl_type(gl_type: u32) -> Option<UniformVariant> {
    if gl_type == 0x1406 {
        Some(UniformVariant::Float)
    } else if gl_type == 0x8B50 {
        Some(UniformVariant::Float2)
    } else if gl_type == 0x8B51 {
        Some(UniformVariant::Float3)
    } else if gl_type == 0x8B52 {
        Some(UniformVariant::Float4)
    } else if gl_type == 0x8B5C {
        Some(UniformVariant::Mat4)
    } else if gl_type == 0x8B5E {
        Some(UniformVariant::Texture2D)
    } else {
        None
    }
}

/// The uniform type that a linked shader reports as GL type `gl_type`; `None` for a type a
/// material does not support.
pub fn uniform_variant(gl_type: u32) -> (r: Option<UniformVariant>)
    ensures
        r == variant_of_gl_type(gl_type),
{
    let (float, vec2, vec3, vec4, mat4, sampler2d) = gl_uniform_types();
    if gl_type == float {
        Some(UniformVariant::Float)
    } else if gl_type == vec2 {
        Some(UniformVariant::Float2)
    } else if gl_type == vec3 {
        Some(UniformVariant::Float3)
    } else if gl_type == vec4 {
        Some(UniformVariant::Float4)
    } else if gl_type == mat4 {
        Some(UniformVariant::Mat4)
    } else if gl_type == sampler2d {
        Some(UniformVariant::Texture2D)
    } else {
        None
    }
}

/// A uniform of a linked shader: its name, its type and its location in the program.
#[derive(Clone, Debug)]
pub struct UniformInfo {
    pub name: String,
    pub variant: UniformVariant,
    pub location: i32,
}

/// Whether `i` is the first place of `name` in `names`.
pub open spec fn first_place(names: Seq<Seq<char>>, name: Seq<char>, i: int) -> bool {
    &&& 0 <= i < names.len()
    &&& names[i] == name
    &&& forall|j: int| 0 <= j < i ==> #[trigger] names[j] != name
}

/// The first place of `name` in `names` (meaningful when it occurs).
pub open spec fn first_index(names: Seq<Seq<char>>, name: Seq<char>) -> int {
    choose|i: int| first_place(names, name, i)
}

/// Two first places are the same place.
proof fn lemma_first_place_unique(names: Seq<Seq<char>>, name: Seq<char>, i: int)
    requires
        first_place(names, name, i),
    ensures
        first_index(names, name) == i,
{
    let k = first_index(names, name);
    assert(first_place(names, name, k));
    if k < i {
        assert(names[k] != name);
    } else if k > i {
        assert(names[i] != name);
    }
}

/// A material of shader `shader`, with a value for each uniform of the shader.
pub struct Material<D> {
    shader: u32,
    uniforms: Vec<UniformInfo>,
    uniform_data: Vec<D>,
}

impl<D> Material<D> {
    /// The shader program.
    pub closed spec fn shader_id(&self) -> u32 {
        self.shader
    }

    /// The names of the uniforms, in the shader's order.
    pub closed spec fn names(&self) -> Seq<Seq<char>> {
        self.uniforms@.map_values(|u: UniformInfo| u.name@)
    }

    /// The locations of the uniforms, in the shader's order.
    pub closed spec fn locations(&self) -> Seq<i32> {
        self.uniforms@.map_values(|u: UniformInfo| u.location)
    }

    /// The value of each uniform, in the shader's order.
    pub closed spec fn data(&self) -> Seq<D> {
        self.uniform_data@
    }

    /// One value per uniform.
    pub open spec fn wf(&self) -> bool {
        self.data().len() == self.names().len()
    }

    /// The material of shader `shader` with uniforms `uniforms`, each starting at the value of
    /// `initial` in the same place.
    pub fn new(shader: u32, uniforms: Vec<UniformInfo>, initial: Vec<D>) -> (r: Self)
        requires
            initial@.len() == uniforms@.len(),
        ensures
            r.wf(),
            r.shader_id() == shader,
            r.names() == uniforms@.map_values(|u: UniformInfo| u.name@),
            r.locations() == uniforms@.map_values(|u: UniformInfo| u.location),
            r.data() == initial@,
    {
        Material { shader, uniforms, uniform_data: initial }
    }

    pub fn shader(&self) -> (r: u32)
        ensures
            r == self.shader_id(),
    {
        self.shader
    }

    /// Where the first uniform named `name` stands.
    fn position(&self, name: &String) -> (r: Option<usize>)
        ensures
            match r {
                Some(i) => first_place(self.names(), name@, i as int),
                None => !self.names().contains(name@),
            },
    {
        let mut i: usize = 0;
        while i < self.uniforms.len()
            invariant
                i <= self.uniforms@.len(),
                forall|k: int| 0 <= k < i ==> #[trigger] self.names()[k] != name@,
            decreases self.uniforms@.len() - i,
        {
            if self.uniforms[i].name == *name {
                return Some(i);
            }
            i = i + 1;
        }
        proof {
            assert forall|k: int| 0 <= k < self.names().len() implies #[trigger] self.names()[k] != name@ by {}
        }
        None
    }

    /// Whether the shader has a uniform named `name`.
    pub fn has_uniform(&self, name: &String) -> (r: bool)
        ensures
            r == self.names().contains(name@),
    {
        self.position(name).is_some()
    }

    /// Sets the value of the first uniform named `name`. `requires` asks that there
    /// be one.
    pub fn set_uniform(&mut self, name: &String, value: D)
        requires
            old(self).wf(),
            old(self).names().contains(name@),
        ensures
            final(self).wf(),
            final(self).shader_id() == old(self).shader_id(),
            final(self).names() == old(self).names(),
            final(self).locations() == old(self).locations(),
            final(self).data() == old(self).data().update(first_index(old(self).names(), name@), value),
    {
        match self.position(name) {
            Some(i) => {
                proof {
                    lemma_first_place_unique(self.names(), name@, i as int);
                }
                self.uniform_data.set(i, value);
            },
            None => {
                proof {
                    assert(false);
                }
            },
        }
    }

    /// The place and the value of the first uniform named `name`, if any.
    pub fn get_uniform(&self, name: &String) -> (r: Option<(usize, &D)>)
        requires
            self.wf(),
        ensures
            match r {
                Some((i, v)) => i == first_index(self.names(), name@) && first_place(self.names(), name@, i as int)
                    && *v == self.data()[i as int],
                None => !self.names().contains(name@),
            },
    {
        match self.position(name) {
            Some(i) => {
                proof {
                    lemma_first_place_unique(self.names(), name@, i as int);
                }
                Some((i, &self.uniform_data[i]))
            },
            None => None,
        }
    }

    /// The location of the first uniform named `name`, if any.
    pub fn get_uniform_location(&self, name: &String) -> (r: Option<i32>)
        ensures
            match r {
                Some(l) => self.names().contains(name@) && l == self.locations()[first_index(self.names(), name@)],
                None => !self.names().contains(name@),
            },
    {
        match self.position(name) {
            Some(i) => {
                proof {
                    lemma_first_place_unique(self.names(), name@, i as int);
                }
                Some(self.uniforms[i].location)
            },
            None => None,
        }
    }
}

} // verus!
