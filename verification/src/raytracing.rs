//! Ray tracing against the scene's geometry, where the hardware supports it.
//!
//! Screen-space effects can only work with what the camera sees. Ray tracing hardware works with
//! the geometry itself: the triangles are put into an acceleration structure once, and after that a
//! shader can ask "does anything block this ray?" and get an answer that includes what is behind
//! the camera or around a corner.
//!
//! Without ray tracing hardware everything here returns [`None`] and the caller falls back to
//! whatever it did before.
use crate::bytes::{
    cast_words, law_low_bits_are_what_is_left, low_bits, low_word, words_in_memory,
};
use crate::float_bits::F32Bits;
use crate::server::WgpuGraphicsServer;
use crate::texture::FrameworkError;
use vstd::prelude::*;

verus! {

/// The bytes from one vertex position to the next: three floats.
pub const VERTEX_STRIDE: u64 = 12;

/// The number zero.
pub const ZERO: u32 = 0;

/// The number one.
pub const ONE: u32 = 0x3f80_0000;

/// Geometry placed in a scene: the rows of the matrix that moves it there, the number that shaders
/// see, and the rays that hit it.
pub struct SceneInstance {
    pub transform: [F32Bits; 12],
    pub custom_data: u32,
    pub mask: u8,
}

impl SceneInstance {
    /// The geometry stays where it is: the transform is the identity.
    pub open spec fn is_in_place(self) -> bool {
        forall|i: int|
            0 <= i < 12 ==> #[trigger] self.transform@[i] == F32Bits(
                if i % 5 == 0 {
                    ONE
                } else {
                    ZERO
                },
            )
    }

    /// Geometry that is already in world space, so that it sits at the origin. Every ray hits it.
    fn in_place() -> (instance: Self)
        ensures
            instance.is_in_place(),
            instance.custom_data == 0,
            instance.mask == 0xff,
    {
        let zero = F32Bits(ZERO);
        let one = F32Bits(ONE);
        SceneInstance {
            transform: [one, zero, zero, zero, zero, one, zero, zero, zero, zero, one, zero],
            custom_data: 0,
            mask: 0xff,
        }
    }
}

/// Scene geometry in a form the ray tracing hardware can trace against.
pub struct RayTracedScene {
    /// What the acceleration structure is built from.
    pub vertices: Vec<u8>,
    pub indices: Vec<u8>,
    pub vertex_count: u32,
    pub index_count: u32,
    pub triangle_count: u32,
    /// Where the geometry is in the scene.
    pub instances: Vec<SceneInstance>,
}

impl RayTracedScene {
    /// How many triangles were put into the structure.
    pub fn triangle_count(&self) -> (count: u32)
        ensures
            count == self.triangle_count,
    {
        self.triangle_count
    }
}

/// The bits of numbers, as words.
pub open spec fn words_of(numbers: Seq<F32Bits>) -> Seq<u32> {
    numbers.map_values(|number: F32Bits| number.0)
}

/// The bits of numbers, as words.
pub fn to_words(numbers: &[F32Bits]) -> (words: Vec<u32>)
    ensures
        words@ == words_of(numbers@),
{
    let mut words: Vec<u32> = Vec::new();
    let mut i: usize = 0;
    while i < numbers.len()
        invariant
            i <= numbers@.len(),
            words@ == words_of(numbers@).take(i as int),
        decreases numbers@.len() - i,
    {
        words.push(numbers[i].0);
        assert(words_of(numbers@).take(i + 1) =~= words_of(numbers@).take(i as int).push(
            numbers@[i as int].0,
        ));
        i = i + 1;
    }
    assert(words_of(numbers@).take(i as int) =~= words_of(numbers@));
    words
}

/// `scene` is made of these triangles, or is none without ray tracing hardware and without triangles.
pub open spec fn is_scene_of(
    scene: Option<RayTracedScene>,
    server: WgpuGraphicsServer,
    vertices: Seq<F32Bits>,
    indices: Seq<u32>,
) -> bool {
    &&& scene is Some <==> server.ray_tracing && vertices.len() > 0 && indices.len() >= 3
    &&& scene matches Some(s) ==> {
        &&& s.vertices@ == words_in_memory(words_of(vertices))
        &&& s.indices@ == words_in_memory(indices)
        &&& s.vertex_count == low_bits(vertices.len() as int / 3)
        &&& s.index_count == low_bits(indices.len() as int)
        &&& s.triangle_count == s.index_count / 3
        &&& s.instances@.len() == 1
        &&& s.instances@[0].is_in_place()
        &&& s.instances@[0].custom_data == 0
        &&& s.instances@[0].mask == 0xff
    }
}

impl WgpuGraphicsServer {
    /// Puts triangles into an acceleration structure. Positions are in world space, three floats
    /// each; every three indices make a triangle. Returns [`None`] without ray tracing hardware,
    /// and where there is no triangle.
    pub fn build_ray_traced_scene(
        &self,
        vertices: &[F32Bits],
        indices: &[u32],
    ) -> (scene: Result<Option<RayTracedScene>, FrameworkError>)
        ensures
            scene is Ok,
            is_scene_of(scene->Ok_0, *self, vertices@, indices@),
    {
        if !self.ray_tracing || vertices.len() == 0 || indices.len() < 3 {
            return Ok(None);
        }
        let vertex_count: u32 = low_word((vertices.len() / 3) as u64);
        let index_count: u32 = low_word(indices.len() as u64);
        let mut instances: Vec<SceneInstance> = Vec::new();
        instances.push(SceneInstance::in_place());
        Ok(
            Some(
                RayTracedScene {
                    vertices: cast_words(to_words(vertices).as_slice()),
                    indices: cast_words(indices),
                    vertex_count,
                    index_count,
                    triangle_count: index_count / 3,
                    instances,
                },
            ),
        )
    }
}

/// Every vertex the structure is told of lies within the data it is built from, as does every index,
/// and all triangles but for stray indices at the end are counted.
pub proof fn law_scenes_lie_within_their_data(vertices: Seq<F32Bits>, indices: Seq<u32>)
    requires
        indices.len() <= u32::MAX,
    ensures
        low_bits(vertices.len() as int / 3) * VERTEX_STRIDE <= words_in_memory(
            words_of(vertices),
        ).len(),
        low_bits(indices.len() as int) * 4 == words_in_memory(indices).len(),
        0 <= indices.len() - 3 * (low_bits(indices.len() as int) / 3) < 3,
{
}

/// A scene holds every float of every position and every index, four bytes each, in the order in which
/// they were given. Whole positions, indices and whole triangles are counted; stray floats and
/// indices at the end are not. There is none without ray tracing hardware, positions or a triangle.
pub proof fn law_scenes_hold_what_they_were_given(
    scene: Option<RayTracedScene>,
    server: WgpuGraphicsServer,
    vertices: Seq<F32Bits>,
    indices: Seq<u32>,
    i: int,
)
    requires
        is_scene_of(scene, server, vertices, indices),
        vertices.len() <= u32::MAX,
        indices.len() <= u32::MAX,
        0 <= i < 4,
    ensures
        scene is None <==> !server.ray_tracing || vertices.len() == 0 || indices.len() <= 2,
        scene matches Some(s) ==> {
            &&& s.vertices@.len() == 4 * vertices.len()
            &&& s.indices@.len() == 4 * indices.len()
            &&& forall|k: int|
                #![trigger vertices[k]]
                0 <= k < vertices.len() ==> s.vertices@[4 * k + i] == words_in_memory(
                    seq![vertices[k].0],
                )[i]
            &&& forall|k: int|
                #![trigger indices[k]]
                0 <= k < indices.len() ==> s.indices@[4 * k + i] == words_in_memory(
                    seq![indices[k]],
                )[i]
            &&& s.index_count == indices.len()
            &&& 3 * s.vertex_count <= vertices.len() < 3 * s.vertex_count + 3
            &&& 3 * s.triangle_count <= indices.len() < 3 * s.triangle_count + 3
        },
{
    law_low_bits_are_what_is_left(vertices.len() as int / 3);
    law_low_bits_are_what_is_left(indices.len() as int);
}

/// The geometry is put into the scene once, where it is: a point moved by the rows of the transform
/// stays where it was.
pub proof fn law_scenes_leave_geometry_in_place(
    scene: Option<RayTracedScene>,
    server: WgpuGraphicsServer,
    vertices: Seq<F32Bits>,
    indices: Seq<u32>,
    row: int,
    column: int,
)
    requires
        is_scene_of(scene, server, vertices, indices),
        0 <= row < 3,
        0 <= column < 4,
    ensures
        scene matches Some(s) ==> {
            &&& s.instances@.len() == 1
            &&& s.instances@[0].mask == 255
            &&& s.instances@[0].transform@[4 * row + column] == F32Bits(
                if row == column {
                    0x3f80_0000
                } else {
                    0
                },
            )
        },
{
    if let Some(s) = scene {
        let k = 4 * row + column;
        assert(s.instances@[0].transform@[k] == s.instances@[0].transform@[4 * row + column]);
        assert(k % 5 == 0 <==> row == column);
    }
}

} // verus!
