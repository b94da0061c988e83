use ray_tracing::bvh::BVH;
use ray_tracing::loader::obj::{
    classify, classify_mtl, extension_is, read_corner, read_index, MtlLine, ObjLine,
    ParseObjTriangleError, Triangle, VertexBuffer, OBJ,
};
use ray_tracing::scene::{Material, Scene};
use ray_tracing::texture::Texture;
use ray_tracing::vector::KEY_ONE;

fn face(s: &str) -> ([usize; 3], [usize; 3], [usize; 3]) {
    let t = Triangle::from_str(s).unwrap();
    assert_eq!(t.material_id, 0);
    (t.positions, t.tex_coords, t.normals)
}

fn index(s: &str) -> Option<usize> {
    let chars: Vec<char> = s.chars().collect();
    read_index(&chars, 0, chars.len())
}

fn named(name: &str) -> Material {
    let mut material = Material::default();
    material.name = name.to_string();
    material
}

#[test]
fn a_face_of_positions_only() {
    assert_eq!(face("1 2 3"), ([0, 1, 2], [0; 3], [0; 3]));
    assert_eq!(face("  10\t20   30  "), ([9, 19, 29], [0; 3], [0; 3]));
}

#[test]
fn a_face_of_positions_and_texture_coordinates() {
    assert_eq!(face("1/4 2/5 3/6"), ([0, 1, 2], [3, 4, 5], [0; 3]));
}

#[test]
fn a_face_of_positions_and_normals() {
    assert_eq!(face("1//7 2//8 3//9"), ([0, 1, 2], [0; 3], [6, 7, 8]));
}

#[test]
fn a_face_of_all_three() {
    assert_eq!(face("1/4/7 2/5/8 3/6/9"), ([0, 1, 2], [3, 4, 5], [6, 7, 8]));
    assert_eq!(face("5/1/2 6//3 7"), ([4, 5, 6], [0, 0, 0], [1, 2, 0]));
}

#[test]
fn corners_left_out_stay_at_place_zero() {
    assert_eq!(face(""), ([0; 3], [0; 3], [0; 3]));
    assert_eq!(face("   "), ([0; 3], [0; 3], [0; 3]));
    assert_eq!(face("4 5"), ([3, 4, 0], [0; 3], [0; 3]));
}

#[test]
fn an_index_may_carry_a_plus_sign_and_leading_zeros() {
    assert_eq!(face("+1 007 +0003"), ([0, 6, 2], [0; 3], [0; 3]));
    assert_eq!(index("2147483647"), Some(2147483646));
    assert_eq!(index("0000000000002147483647"), Some(2147483646));
    assert_eq!(index("2147483648"), None);
    assert_eq!(index("99999999999999999999999999"), None);
    assert_eq!(index("1"), Some(0));
}

#[test]
fn an_index_below_one_is_refused() {
    assert_eq!(Triangle::from_str("0 1 2").unwrap_err(), ParseObjTriangleError);
    assert!(Triangle::from_str("-1 -2 -3").is_err());
    assert!(Triangle::from_str("1 2 -0").is_err());
    assert_eq!(index("0"), None);
    assert_eq!(index("+0"), None);
    assert_eq!(index("-5"), None);
}

#[test]
fn an_index_that_is_no_number_is_refused() {
    assert!(Triangle::from_str("1 2 x").is_err());
    assert!(Triangle::from_str("1 2 3.0").is_err());
    assert!(Triangle::from_str("1/ 2 3").is_err());
    assert!(Triangle::from_str("/1 2 3").is_err());
    assert!(Triangle::from_str("1/2/ 2 3").is_err());
    assert!(Triangle::from_str("1// 2 3").is_err());
    assert!(Triangle::from_str("1///2 2 3").is_err());
    assert!(Triangle::from_str("//2 2 3").is_err());
    assert_eq!(index(""), None);
    assert_eq!(index("+"), None);
    assert_eq!(index("++1"), None);
    assert_eq!(index("1+"), None);
    assert_eq!(index("\u{0661}"), None);
}

#[test]
fn a_fourth_corner_is_refused() {
    assert!(Triangle::from_str("1 2 3 4").is_err());
    assert!(Triangle::from_str("1/1 2/2 3/3 4/4").is_err());
}

#[test]
fn a_corner_of_four_parts_names_nothing() {
    assert_eq!(face("1/2/3/4 5 6"), ([0, 4, 5], [0; 3], [0; 3]));
    assert_eq!(face("1 2 3 4/4/4/4"), ([0, 1, 2], [0; 3], [0; 3]));
    assert_eq!(face("1 2 3 a/b/c/d"), ([0, 1, 2], [0; 3], [0; 3]));
}

#[test]
fn a_normal_ends_at_the_next_pair_of_slashes() {
    assert_eq!(face("1//2//zzz 3 4"), ([0, 2, 3], [0; 3], [1, 0, 0]));
    let chars: Vec<char> = "3//4".chars().collect();
    let corner = read_corner(&chars).unwrap();
    assert_eq!(corner.position, Some(2));
    assert_eq!(corner.tex_coord, None);
    assert_eq!(corner.normal, Some(3));
}

#[test]
fn corners_are_separated_by_any_white_space() {
    assert_eq!(face("1\u{A0}2\u{2003}3"), ([0, 1, 2], [0; 3], [0; 3]));
    assert_eq!(face("1\u{3000}2\r\n3\u{85}"), ([0, 1, 2], [0; 3], [0; 3]));
    assert!(Triangle::from_str("1\u{200B}2 3").is_err());
}

#[test]
fn the_reader_agrees_with_the_standard_parser_on_indices() {
    for s in ["1", "12", "+7", "-7", "0", "", "+", "1 ", " 1", "4294967296", "00", "001", "2147483647", "2147483648", "1e3", "0x10"] {
        let expected = match s.parse::<i32>() {
            Ok(v) if v >= 1 => Some(s.parse::<usize>().unwrap() - 1),
            _ => None,
        };
        assert_eq!(index(s), expected, "{:?}", s);
    }
}

#[test]
fn lines_of_a_mesh_file() {
    assert_eq!(classify("# a remark"), ObjLine::Comment);
    assert_eq!(classify("   #v 1 2 3"), ObjLine::Comment);
    assert_eq!(classify("v 1 2 3"), ObjLine::Position);
    assert_eq!(classify("  v\t1 2 3"), ObjLine::Position);
    assert_eq!(classify("v"), ObjLine::Position);
    assert_eq!(classify("vt 0.5 0.5"), ObjLine::TexCoord);
    assert_eq!(classify("vn 0 1 0"), ObjLine::Normal);
    assert_eq!(classify("vp 0 1 0"), ObjLine::Other);
    assert_eq!(classify("usemtl glass"), ObjLine::UseMaterial);
    assert_eq!(classify("usemtl "), ObjLine::UseMaterial);
    assert_eq!(classify("usemtl"), ObjLine::Other);
    assert_eq!(classify("usemtl\tglass"), ObjLine::Other);
    assert_eq!(classify(" usemtl glass"), ObjLine::StrayUseMaterial);
    assert_eq!(classify("f 1 2 3"), ObjLine::Face);
    assert_eq!(classify("\tf 1 2 3"), ObjLine::StrayFace);
    assert_eq!(classify("f\t1 2 3"), ObjLine::Other);
    assert_eq!(classify("f"), ObjLine::Other);
    assert_eq!(classify("mtllib scene.mtl"), ObjLine::Library);
    assert_eq!(classify("mtllib"), ObjLine::StrayLibrary);
    assert_eq!(classify(" mtllib scene.mtl"), ObjLine::StrayLibrary);
    assert_eq!(classify("mtllibrary x"), ObjLine::StrayLibrary);
    assert_eq!(classify(""), ObjLine::Other);
    assert_eq!(classify("   "), ObjLine::Other);
    assert_eq!(classify("o cube"), ObjLine::Other);
    assert_eq!(classify("s off"), ObjLine::Other);
}

#[test]
fn lines_of_a_material_file_outside_a_material() {
    assert_eq!(classify_mtl(false, "newmtl glass"), MtlLine::Begin);
    assert_eq!(classify_mtl(false, "newmtl "), MtlLine::Begin);
    assert_eq!(classify_mtl(false, " newmtl glass"), MtlLine::Malformed);
    assert_eq!(classify_mtl(false, "newmtl"), MtlLine::Malformed);
    assert_eq!(classify_mtl(false, "x newmtl"), MtlLine::Malformed);
    assert_eq!(classify_mtl(false, "Kd 1 0 0"), MtlLine::Skip);
    assert_eq!(classify_mtl(false, ""), MtlLine::Skip);
    assert_eq!(classify_mtl(false, "newmt"), MtlLine::Skip);
}

#[test]
fn lines_of_a_material_file_inside_a_material() {
    assert_eq!(classify_mtl(true, "Kd 1 0 0"), MtlLine::BaseColor);
    assert_eq!(classify_mtl(true, "  Ks 1 1 1"), MtlLine::SpecularTint);
    assert_eq!(classify_mtl(true, "Ke 0 0 0"), MtlLine::Emission);
    assert_eq!(classify_mtl(true, "Ni 1.45"), MtlLine::Ior);
    assert_eq!(classify_mtl(true, "Pr 0.5"), MtlLine::Roughness);
    assert_eq!(classify_mtl(true, "Pm 0"), MtlLine::Metallic);
    assert_eq!(classify_mtl(true, "Tf 1"), MtlLine::Transmission);
    assert_eq!(classify_mtl(true, "map_Kd wood.bmp"), MtlLine::BaseColorMap);
    assert_eq!(classify_mtl(true, "map_Ke glow.bmp"), MtlLine::EmissionMap);
    assert_eq!(classify_mtl(true, ""), MtlLine::End);
    assert_eq!(classify_mtl(true, " \t "), MtlLine::End);
    assert_eq!(classify_mtl(true, "newmtl other"), MtlLine::Skip);
    assert_eq!(classify_mtl(true, "Ka 1 1 1"), MtlLine::Skip);
    assert_eq!(classify_mtl(true, "Kdx 1 1 1"), MtlLine::Skip);
    assert_eq!(classify_mtl(true, "kd 1 1 1"), MtlLine::Skip);
}

#[test]
fn what_follows_the_last_dot() {
    assert!(extension_is("a/b.c/d.obj", "obj"));
    assert!(extension_is("obj", "obj"));
    assert!(extension_is("a.", ""));
    assert!(extension_is("", ""));
    assert!(!extension_is("a.obj", "bj"));
    assert!(!extension_is("a.obj", ".obj"));
    assert!(Scene::supports("mesh.obj"));
    assert!(!Scene::supports("mesh.ply"));
    assert!(!Scene::supports("mesh.obj.bak"));
}

#[test]
fn the_material_file_lies_beside_the_mesh() {
    assert_eq!(OBJ::library_path("res/scenes/a.obj", "a.mtl"), "res/scenes/a.mtl");
    assert_eq!(OBJ::library_path("a.obj", "a.mtl"), "a.mtl");
    assert_eq!(OBJ::library_path("/a.obj", "a.mtl"), "a.mtl");
    assert_eq!(OBJ::library_path("C:\\res\\a.obj", "m.mtl"), "C:\\res/m.mtl");
    assert_eq!(OBJ::library_path("C:\\res/x\\a.obj", "m.mtl"), "C:\\res/m.mtl");
    assert_eq!(OBJ::library_path("\u{e9}t\u{e9}/a.obj", "m.mtl"), "\u{e9}t\u{e9}/m.mtl");
}

#[test]
fn a_material_is_found_by_its_name() {
    let mut obj = OBJ::default();
    assert_eq!(obj.material_id("glass"), 0);
    obj.materials = vec![named("wood"), named("glass"), named("steel"), named("glass")];
    assert_eq!(obj.material_id("wood"), 0);
    assert_eq!(obj.material_id("glass"), 1);
    assert_eq!(obj.material_id("steel"), 2);
    assert_eq!(obj.material_id("stone"), 0);
    assert_eq!(obj.material_id("Glass"), 0);
    assert_eq!(obj.material_id("glass "), 0);
}

#[test]
fn the_default_material() {
    let m = Material::default();
    assert_eq!(m.name, "default_material");
    assert_eq!(m.base_color.data.map(|k| f32::from_bits(k as u32)), [1.0, 1.0, 1.0]);
    assert_eq!(m.specular_tint.data, [KEY_ONE; 3]);
    assert_eq!(m.emission.data, [0; 3]);
    assert_eq!(f32::from_bits(m.transmission as u32), 0.0);
    assert_eq!(f32::from_bits(m.ior as u32), 1.45);
    assert_eq!(f32::from_bits(m.roughness as u32), 1.0);
    assert_eq!(f32::from_bits(m.metallic as u32), 0.0);
    assert_eq!(m.base_color_tex_id, -1);
    assert_eq!(m.emission_tex_id, -1);
}

#[test]
fn textures_are_numbered_as_they_come() {
    let mut obj = OBJ::default();
    let texture = |n: usize| Texture {
        width: n,
        height: 1,
        pixel_data: vec![[0, 0, 0]; n],
    };
    assert_eq!(obj.add_texture(texture(1)), 0);
    assert_eq!(obj.add_texture(texture(2)), 1);
    assert_eq!(obj.add_texture(texture(3)), 2);
    assert_eq!(obj.textures.len(), 3);
    assert_eq!(obj.textures[1].width, 2);

    let scene = Scene {
        tris: Vec::new(),
        materials: Vec::new(),
        textures: obj.textures,
        bvh: BVH { nodes: Vec::new() },
    };
    assert_eq!(scene.texture(2).unwrap().width, 3);
    assert_eq!(scene.texture(0).unwrap().width, 1);
    assert!(scene.texture(-1).is_none());
    assert!(scene.texture(3).is_none());
    assert!(scene.texture(i32::MIN).is_none());
}

#[test]
fn faces_get_normals_of_their_own() {
    let mut obj = OBJ::default();
    for k in 0..3 {
        let mut tri = Triangle::from_str("1/2 3/4 5/6").unwrap();
        tri.material_id = k + 10;
        obj.tris.push(tri);
    }
    obj.use_face_normals();
    for k in 0..3 {
        assert_eq!(obj.tris[k].normals, [k, k, k]);
        assert_eq!(obj.tris[k].positions, [0, 2, 4]);
        assert_eq!(obj.tris[k].tex_coords, [1, 3, 5]);
        assert_eq!(obj.tris[k].material_id, k + 10);
    }
}

#[test]
fn a_scene_holds_its_corners_by_value() {
    let mut obj = OBJ {
        tris: Vec::new(),
        vertex_buffer: VertexBuffer {
            positions: vec![[1, 2, 3], [4, 5, 6], [7, 8, 9]],
            tex_coords: vec![[10, 11]],
            normals: vec![[20, 21, 22], [23, 24, 25]],
        },
        materials: vec![named("a"), named("b")],
        textures: Vec::new(),
    };
    let mut tri = Triangle::from_str("3/1/2 1/1/1 2/9/9").unwrap();
    tri.material_id = 1;
    obj.tris.push(tri);
    obj.tris.push(Triangle::from_str("4 1 2").unwrap());

    let scene = Scene::from(obj);
    assert_eq!(scene.tris.len(), 2);
    assert!(scene.bvh.nodes.is_empty());
    assert_eq!(scene.materials.len(), 2);
    assert_eq!(scene.materials[1].name, "b");

    let t = &scene.tris[0];
    assert_eq!(t.material_id, 1);
    assert_eq!(t.centroid.data, [0, 0, 0]);
    assert_eq!(t.vertices[0].position, [7, 8, 9]);
    assert_eq!(t.vertices[0].tex_coord, [10, 11]);
    assert_eq!(t.vertices[0].normal, [23, 24, 25]);
    assert_eq!(t.vertices[1].position, [1, 2, 3]);
    assert_eq!(t.vertices[1].normal, [20, 21, 22]);
    assert_eq!(t.vertices[2].position, [4, 5, 6]);
    assert_eq!(t.vertices[2].tex_coord, [0, 0]);
    assert_eq!(t.vertices[2].normal, [0, 0, 0]);

    let t = &scene.tris[1];
    assert_eq!(t.material_id, 0);
    assert_eq!(t.vertices[0].position, [0, 0, 0]);
    assert_eq!(t.vertices[1].position, [1, 2, 3]);
    assert_eq!(t.vertices[2].position, [4, 5, 6]);
    assert_eq!(t.vertices[1].tex_coord, [10, 11]);
    assert_eq!(t.vertices[1].normal, [20, 21, 22]);
}

fn mesh_with_materials() -> OBJ {
    let mut obj = OBJ::default();
    obj.materials = vec![named("wood"), named("glass"), named("steel")];
    obj.vertex_buffer.positions = vec![[1, 2, 3]];
    obj
}

fn lines(text: &str) -> Vec<String> {
    text.lines().map(String::from).collect()
}

#[test]
fn faces_take_the_material_last_named() {
    let mut obj = mesh_with_materials();
    obj.tris.push(Triangle::from_str("9 9 9").unwrap());
    let file = "# cube\nmtllib cube.mtl\nv 0 0 0\nf 1 2 3\nusemtl steel\nf 4/1 5/2 6/3\nf 7 8 9\n\nusemtl stone\nvn 0 1 0\nf 1//1 2//2 3//3\nusemtl glass\n  # f 1 1 1\nf 2 2 2";
    assert_eq!(obj.read_faces(&lines(file)), Ok(()));
    let read: Vec<([usize; 3], usize)> = obj.tris.iter().map(|t| (t.positions, t.material_id)).collect();
    assert_eq!(
        read,
        vec![
            ([8, 8, 8], 0),
            ([0, 1, 2], 0),
            ([3, 4, 5], 2),
            ([6, 7, 8], 2),
            ([0, 1, 2], 0),
            ([1, 1, 1], 1),
        ]
    );
    assert_eq!(obj.tris[2].tex_coords, [0, 1, 2]);
    assert_eq!(obj.tris[4].normals, [0, 1, 2]);
    assert_eq!(obj.materials.len(), 3);
    assert_eq!(obj.vertex_buffer.positions, vec![[1, 2, 3]]);
}

#[test]
fn lines_without_faces_add_nothing() {
    let mut obj = mesh_with_materials();
    assert_eq!(obj.read_faces(&Vec::new()), Ok(()));
    assert_eq!(obj.read_faces(&lines("v 1 2 3\nusemtl glass\no cube\n mtllib x\nf\t1 2 3")), Ok(()));
    assert!(obj.tris.is_empty());
    assert_eq!(obj.read_faces(&lines("f 1 2 3")), Ok(()));
    assert_eq!(obj.tris[0].material_id, 0);
}

#[test]
fn a_face_that_cannot_be_read_leaves_the_mesh_as_it_was() {
    for bad in ["f 1 2 0", "f 1 2 x", " f 1 2 3", "\tusemtl glass", "f 1 2 3 4", "f -1 -2 -3"] {
        let mut obj = mesh_with_materials();
        obj.tris.push(Triangle::from_str("9 9 9").unwrap());
        let file = format!("usemtl glass\nf 1 2 3\n{}\nf 4 5 6", bad);
        assert_eq!(obj.read_faces(&lines(&file)), Err(ParseObjTriangleError), "{:?}", bad);
        assert_eq!(obj.tris.len(), 1);
        assert_eq!(obj.tris[0].positions, [8, 8, 8]);
        assert_eq!(obj.materials.len(), 3);
    }
}
