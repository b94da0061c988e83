//! Triangles, materials and the scene that holds them.

use vstd::prelude::*;
use vstd::string::StringExecFns;
use crate::loader::obj::OBJ;
use crate::vector::{Vec3k, KEY_ONE};
use crate::bvh::BVH;
use crate::texture::Texture;

verus! {

/// A corner of a triangle: the order keys of its position, its normal and
/// its texture coordinate.
#[derive(Clone, Copy, Debug)]
pub struct Vertex {
    pub position: [i32; 3],
    pub normal: [i32; 3],
    pub tex_coord: [i32; 2],
}

/// A triangle with its corners held by value. `centroid` is what the
/// hierarchy sorts by.
#[derive(Clone, Copy, Debug)]
pub struct Triangle {
    pub vertices: [Vertex; 3],
    pub centroid: Vec3k,
    pub material_id: usize,
}

impl Triangle {
    pub fn new(vertices: [Vertex; 3], centroid: Vec3k, material_id: usize) -> (t: Self)
        ensures
            t.vertices == vertices,
            t.centroid == centroid,
            t.material_id == material_id,
    {
        Self { vertices, centroid, material_id }
    }

    /// The centroid the triangle is sorted by.
    pub fn mid(&self) -> (c: Vec3k)
        ensures
            c == self.centroid,
    {
        self.centroid
    }

    /// The smallest key among the three corners on one axis.
    pub open spec fn low(self, axis: int) -> int {
        crate::vector::key_min(
            crate::vector::key_min(
                self.vertices[0].position[axis] as int,
                self.vertices[1].position[axis] as int,
            ),
            self.vertices[2].position[axis] as int,
        )
    }

    /// The largest key among the three corners on one axis.
    pub open spec fn high(self, axis: int) -> int {
        crate::vector::key_max(
            crate::vector::key_max(
                self.vertices[0].position[axis] as int,
                self.vertices[1].position[axis] as int,
            ),
            self.vertices[2].position[axis] as int,
        )
    }
}

/// How a surface answers light. Every real-valued field is an order key.
#[derive(Clone, Debug)]
pub struct Material {
    pub name: String,
    pub base_color: Vec3k,
    pub specular_tint: Vec3k,
    pub emission: Vec3k,
    pub transmission: i32,
    pub ior: i32,
    pub roughness: i32,
    pub metallic: i32,
    /// Index into the scene's textures, or -1 for none.
    pub base_color_tex_id: i32,
    /// Index into the scene's textures, or -1 for none.
    pub emission_tex_id: i32,
}

impl Default for Material {
    /// A white surface that neither shines nor glows, without textures,
    /// with the refractive index 1.45.
    fn default() -> (m: Self)
        ensures
            m.name@ == "default_material"@,
            m.base_color.data@ == seq![KEY_ONE, KEY_ONE, KEY_ONE],
            m.specular_tint.data@ == seq![KEY_ONE, KEY_ONE, KEY_ONE],
            m.emission.data@ == seq![0i32, 0i32, 0i32],
            m.transmission == 0,
            m.ior == 0x3FB9_999A,
            m.roughness == KEY_ONE,
            m.metallic == 0,
            m.base_color_tex_id == -1,
            m.emission_tex_id == -1,
    {
        Material {
            name: String::from_str("default_material"),
            base_color: Vec3k::from(KEY_ONE),
            specular_tint: Vec3k::from(KEY_ONE),
            emission: Vec3k::from(0),
            transmission: 0,
            ior: 0x3FB9_999A,
            roughness: KEY_ONE,
            metallic: 0,
            base_color_tex_id: -1,
            emission_tex_id: -1,
        }
    }
}

/// The texture a material's index names, if it names one.
pub open spec fn texture_named(id: i32, count: int) -> Option<int> {
    if 0 <= id < count {
        Some(id as int)
    } else {
        None
    }
}

/// The entry of `buffer` at `index`, or zeros where there is none.
pub open spec fn entry_or_zero<const N: usize>(buffer: Seq<[i32; N]>, index: int) -> Seq<i32> {
    if 0 <= index < buffer.len() {
        buffer[index]@
    } else {
        Seq::new(N as nat, |i: int| 0i32)
    }
}

/// The triangles in hierarchy order, what they are made of, and the
/// hierarchy over them.
#[derive(Clone, Debug)]
pub struct Scene {
    pub tris: Vec<Triangle>,
    pub materials: Vec<Material>,
    pub textures: Vec<Texture>,
    pub bvh: BVH,
}

impl Scene {
    /// Looks up a corner's position or normal.
    fn entry3(buffer: &Vec<[i32; 3]>, index: usize) -> (e: [i32; 3])
        ensures
            e@ == entry_or_zero(buffer@, index as int),
    {
        let e: [i32; 3] = if index < buffer.len() {
            buffer[index]
        } else {
            [0, 0, 0]
        };
        proof {
            assert(e@ =~= entry_or_zero(buffer@, index as int));
        }
        e
    }

    /// Looks up a corner's texture coordinate.
    fn entry2(buffer: &Vec<[i32; 2]>, index: usize) -> (e: [i32; 2])
        ensures
            e@ == entry_or_zero(buffer@, index as int),
    {
        let e: [i32; 2] = if index < buffer.len() {
            buffer[index]
        } else {
            [0, 0]
        };
        proof {
            assert(e@ =~= entry_or_zero(buffer@, index as int));
        }
        e
    }

    /// Corner `c` of face `k` of `obj`, looked up in its vertex buffer.
    pub open spec fn baked(obj: OBJ, k: int, c: int, v: Vertex) -> bool {
        &&& v.position@ == entry_or_zero(
            obj.vertex_buffer.positions@,
            obj.tris@[k].positions[c] as int,
        )
        &&& v.normal@ == entry_or_zero(obj.vertex_buffer.normals@, obj.tris@[k].normals[c] as int)
        &&& v.tex_coord@ == entry_or_zero(
            obj.vertex_buffer.tex_coords@,
            obj.tris@[k].tex_coords[c] as int,
        )
    }

    /// Assembles a scene from a mesh: every face becomes a triangle that
    /// holds its corners by value, looked up in the vertex buffer, with
    /// zeros where the buffer has no such entry. The materials and
    /// textures are the mesh's. The centroids are left at zero and there
    /// is no hierarchy yet: both wait for the caller.
    pub fn from(obj: OBJ) -> (scene: Self)
        ensures
            scene.tris@.len() == obj.tris@.len(),
            forall|k: int, c: int|
                0 <= k < obj.tris@.len() && 0 <= c < 3 ==> Self::baked(
                    obj,
                    k,
                    c,
                    #[trigger] scene.tris@[k].vertices[c],
                ),
            forall|k: int|
                0 <= k < obj.tris@.len() ==> (#[trigger] scene.tris@[k]).material_id
                    == obj.tris@[k].material_id && scene.tris@[k].centroid.data@ == seq![
                    0i32,
                    0i32,
                    0i32,
                ],
            scene.materials == obj.materials,
            scene.textures == obj.textures,
            scene.bvh.nodes@.len() == 0,
    {
        let mut tris: Vec<Triangle> = Vec::new();
        let mut k: usize = 0;
        while k < obj.tris.len()
            invariant
                k <= obj.tris@.len(),
                tris@.len() == k,
                forall|m: int, c: int|
                    0 <= m < k && 0 <= c < 3 ==> Self::baked(
                        obj,
                        m,
                        c,
                        #[trigger] tris@[m].vertices[c],
                    ),
                forall|m: int|
                    0 <= m < k ==> (#[trigger] tris@[m]).material_id == obj.tris@[m].material_id
                        && tris@[m].centroid.data@ == seq![0i32, 0i32, 0i32],
            decreases obj.tris@.len() - k,
        {
            let face = obj.tris[k];
            let v0 = Self::corner(&obj, k, 0);
            let v1 = Self::corner(&obj, k, 1);
            let v2 = Self::corner(&obj, k, 2);
            let tri = Triangle::new([v0, v1, v2], Vec3k::from(0), face.material_id);
            tris.push(tri);
            k += 1;
        }
        Scene {
            tris,
            materials: obj.materials,
            textures: obj.textures,
            bvh: BVH { nodes: Vec::new() },
        }
    }

    /// Looks up corner `c` of face `k`.
    fn corner(obj: &OBJ, k: usize, c: usize) -> (v: Vertex)
        requires
            k < obj.tris@.len(),
            c < 3,
        ensures
            Self::baked(*obj, k as int, c as int, v),
    {
        let face = obj.tris[k];
        Vertex {
            position: Self::entry3(&obj.vertex_buffer.positions, face.positions[c]),
            normal: Self::entry3(&obj.vertex_buffer.normals, face.normals[c]),
            tex_coord: Self::entry2(&obj.vertex_buffer.tex_coords, face.tex_coords[c]),
        }
    }

    /// Says whether the file at `path` is of the one kind a scene is read
    /// from: a mesh, by the `obj` after its last dot.
    pub fn supports(path: &str) -> (r: bool)
        ensures
            r == (crate::loader::obj::extension_of(path@) == "obj"@),
    {
        crate::loader::obj::extension_is(path, "obj")
    }

    /// The texture that index `id` of a material names: the one at that
    /// place, or none when the index is -1 or names no texture of the
    /// scene.
    pub fn texture(&self, id: i32) -> (t: Option<&Texture>)
        ensures
            match texture_named(id, self.textures@.len() as int) {
                Some(at) => t == Some(&self.textures@[at]),
                None => t is None,
            },
    {
        if id >= 0 && (id as usize) < self.textures.len() {
            Some(&self.textures[id as usize])
        } else {
            None
        }
    }
}

} // verus!
