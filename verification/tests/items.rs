//! Items worn on the face.

#![allow(dead_code)]

use vision_tasks::features::face::glb::material::Picture;
use vision_tasks::features::face::glb::model::{parse_glb, GlbError};
use vision_tasks::features::face::item::load_item;
use vision_tasks::features::face::items3d::{
    item_adjust, screen_points, slot, ItemError, ItemModel, ItemsOverlay, Mesh, Plane, Slot,
    Wardrobe,
};
use vision_tasks::features::face::light::{camera_uniform, mesh_uniform, Light, Scene};
use vision_tasks::features::face::linear::{
    mat_compose, mat_identity, mat_mul, mat_translate, quat_normalize, quat_slerp, Quat,
};
use vision_tasks::features::face::mesh::{build_plane, build_sphere};
use vision_tasks::features::face::pose::{
    fit_pose, follow, observe, Pose, FIT_POINTS, FIT_X, FIT_Y, FIT_Z,
};
use vision_tasks::features::face::render::{brim_shadow, head, order, writes, Pass, Writes};
use vision_tasks::features::face::srgb::{linear_to_srgb_u8, srgb_light};
use vision_tasks::features::face::textures::{build_mip_chain, env_faces, ENV_CUBE_MIPS, ENV_CUBE_SIZE};
use vision_tasks::features::vb::framing::Crop;
use vision_tasks::ieee::{F32, F64};
use vision_tasks::points::V3;
use vision_tasks::reals::Reals;

/// Hardware arithmetic.
struct Host;

fn n(x: f32) -> F32 {
    F32 { bits: x.to_bits() }
}

fn f(x: F32) -> f32 {
    f32::from_bits(x.bits)
}

fn n64(x: f64) -> F64 {
    F64 { bits: x.to_bits() }
}

fn f64v(x: F64) -> f64 {
    f64::from_bits(x.bits)
}

impl Reals for Host {
    fn add(&self, a: F32, b: F32) -> F32 {
        n(f(a) + f(b))
    }
    fn sub(&self, a: F32, b: F32) -> F32 {
        n(f(a) - f(b))
    }
    fn mul(&self, a: F32, b: F32) -> F32 {
        n(f(a) * f(b))
    }
    fn div(&self, a: F32, b: F32) -> F32 {
        n(f(a) / f(b))
    }
    fn sqrt(&self, a: F32) -> F32 {
        n(f(a).sqrt())
    }
    fn hypot(&self, a: F32, b: F32) -> F32 {
        n(f(a).hypot(f(b)))
    }
    fn exp(&self, a: F32) -> F32 {
        n(f(a).exp())
    }
    fn acos_degrees(&self, a: F32) -> F32 {
        n(f(a).acos().to_degrees())
    }
    fn atan2(&self, y: F32, x: F32) -> F32 {
        n(f(y).atan2(f(x)))
    }
    fn sin(&self, a: F32) -> F32 {
        n(f(a).sin())
    }
    fn cos(&self, a: F32) -> F32 {
        n(f(a).cos())
    }
    fn tan(&self, a: F32) -> F32 {
        n(f(a).tan())
    }
    fn acos(&self, a: F32) -> F32 {
        n(f(a).acos())
    }
    fn pow(&self, a: F32, b: F32) -> F32 {
        n(f(a).powf(f(b)))
    }
    fn floor(&self, a: F32) -> F32 {
        n(f(a).floor())
    }
    fn trunc(&self, a: F32) -> u32 {
        f(a) as u32
    }
    fn round(&self, a: F32) -> u32 {
        f(a).round() as u32
    }
    fn round_int(&self, a: F32) -> i32 {
        f(a).round() as i32
    }
    fn ceil_int(&self, a: F32) -> i32 {
        f(a).ceil() as i32
    }
    fn trunc_int(&self, a: F32) -> i32 {
        f(a) as i32
    }
    fn of_int(&self, k: i64) -> F32 {
        n(k as f32)
    }
    fn add64(&self, a: F64, b: F64) -> F64 {
        n64(f64v(a) + f64v(b))
    }
    fn rem64(&self, a: F64, b: F64) -> F64 {
        n64(f64v(a).rem_euclid(f64v(b)))
    }
    fn sin64(&self, a: F64) -> F64 {
        n64(f64v(a).sin())
    }
    fn cos64(&self, a: F64) -> F64 {
        n64(f64v(a).cos())
    }
    fn of_uint64(&self, k: u64) -> F64 {
        n64(k as f64)
    }
    fn sub64(&self, a: F64, b: F64) -> F64 {
        n64(f64v(a) - f64v(b))
    }
    fn mul64(&self, a: F64, b: F64) -> F64 {
        n64(f64v(a) * f64v(b))
    }
    fn div64(&self, a: F64, b: F64) -> F64 {
        n64(f64v(a) / f64v(b))
    }
    fn ratio64(&self, a: u64, b: u64) -> F64 {
        n64(a as f64 / b as f64)
    }
    fn round64(&self, a: F64) -> u32 {
        f64v(a).round() as u32
    }
    fn narrow(&self, a: F64) -> F32 {
        n(f64v(a) as f32)
    }
    fn widen(&self, a: F32) -> F64 {
        n64(f(a) as f64)
    }
}

fn p3(x: f32, y: f32, z: f32) -> V3 {
    V3 { x: n(x), y: n(y), z: n(z) }
}

fn model(i: usize) -> (f32, f32, f32) {
    (f32::from_bits(FIT_X[i]), f32::from_bits(FIT_Y[i]), f32::from_bits(FIT_Z[i]))
}

#[test]
fn fit_identity_pose() {
    let obs: Vec<V3> = (0..15).map(|i| { let (x, y, z) = model(i); p3(x, y, z) }).collect();
    let fit = fit_pose(&obs, &Host);
    assert!((f(fit.scale) - 1.0).abs() < 1e-3, "scale={}", f(fit.scale));
    assert!([fit.pos.x, fit.pos.y, fit.pos.z].iter().all(|v| f(*v).abs() < 1e-2));
    assert!((f(fit.quat.w).abs() - 1.0).abs() < 1e-3);
}

#[test]
fn fit_translation_and_scale() {
    let obs: Vec<V3> = (0..15)
        .map(|i| {
            let (x, y, z) = model(i);
            p3(x * 2.0 + 3.0, y * 2.0 - 1.0, z * 2.0 + 5.0)
        })
        .collect();
    let fit = fit_pose(&obs, &Host);
    assert!((f(fit.scale) - 2.0).abs() < 1e-3);
    assert!((f(fit.pos.x) - 3.0).abs() < 1e-2);
    assert!((f(fit.pos.y) + 1.0).abs() < 1e-2);
    assert!((f(fit.pos.z) - 5.0).abs() < 1e-2);
}

#[test]
fn fit_rotation_z90() {
    let obs: Vec<V3> = (0..15).map(|i| { let (x, y, z) = model(i); p3(-y, x, z) }).collect();
    let fit = fit_pose(&obs, &Host);
    let expect = std::f32::consts::FRAC_1_SQRT_2;
    assert!((f(fit.quat.z).abs() - expect).abs() < 1e-3, "quat={:?}", fit.quat);
    assert!((f(fit.quat.w).abs() - expect).abs() < 1e-3);
}

/// A binary glTF file of this text and binary chunk.
fn container(text: &str, bin: &[u8]) -> Vec<u8> {
    let mut json_bytes = text.as_bytes().to_vec();
    while json_bytes.len() % 4 != 0 {
        json_bytes.push(b' ');
    }
    let total = 12 + 8 + json_bytes.len() + 8 + bin.len();
    let mut glb = Vec::new();
    glb.extend_from_slice(b"glTF");
    glb.extend_from_slice(&2u32.to_le_bytes());
    glb.extend_from_slice(&(total as u32).to_le_bytes());
    glb.extend_from_slice(&(json_bytes.len() as u32).to_le_bytes());
    glb.extend_from_slice(b"JSON");
    glb.extend_from_slice(&json_bytes);
    glb.extend_from_slice(&(bin.len() as u32).to_le_bytes());
    glb.extend_from_slice(b"BIN\0");
    glb.extend_from_slice(bin);
    glb
}

fn triangle_bin() -> Vec<u8> {
    let positions: Vec<u8> = [[0.0f32, 0.0, 0.0], [1.0, 0.0, 0.0], [0.0, 1.0, 0.0]]
        .iter()
        .flat_map(|p| p.iter().flat_map(|x| x.to_le_bytes()))
        .collect();
    let indices: Vec<u8> = [0u16, 1, 2].iter().flat_map(|i| i.to_le_bytes()).collect();
    let mut bin = positions.clone();
    bin.extend_from_slice(&indices);
    while bin.len() % 4 != 0 {
        bin.push(0);
    }
    bin
}

const TRIANGLE: &str = r#"
    "accessors": [
        {"bufferView": 0, "componentType": 5126, "count": 3, "type": "VEC3"},
        {"bufferView": 1, "componentType": 5123, "count": 3, "type": "SCALAR"}
    ],
    "meshes": [{"primitives": [{"attributes": {"POSITION": 0}, "indices": 1}]}],
    "scene": 0,
    "scenes": [{"nodes": [0]}],
    "asset": {"version": "2.0"}"#;

const VIEWS: &str = r#"{"buffer": 0, "byteOffset": 0, "byteLength": 36},
        {"buffer": 0, "byteOffset": 36, "byteLength": 6}"#;

fn triangle(nodes: &str, more: &str) -> String {
    format!(
        "{{\"nodes\": {nodes}, \"bufferViews\": [{VIEWS}], \"buffers\": [{{\"byteLength\": 44}}]{more},{TRIANGLE}}}"
    )
}

#[test]
fn glb_parse_minimal() {
    let glb = container(&triangle(r#"[{"mesh": 0}]"#, ""), &triangle_bin());
    let model = parse_glb(&glb, &Host).ok().expect("parse");
    assert_eq!(model.primitives.len(), 1);
    assert_eq!(model.primitives[0].positions.len(), 3);
    assert_eq!(model.primitives[0].indices, vec![0, 1, 2]);
}

#[test]
fn surfaces_without_normals_are_shaded_flat() {
    let glb = container(&triangle(r#"[{"mesh": 0}]"#, ""), &triangle_bin());
    let model = parse_glb(&glb, &Host).ok().unwrap();
    let normals = &model.primitives[0].normals;
    assert_eq!(normals.len(), 3);
    assert!(normals.iter().all(|m| (f(m.x), f(m.y), f(m.z)) == (0.0, 0.0, 1.0)));
}

#[test]
fn files_that_are_no_models() {
    assert!(matches!(parse_glb(b"gltf", &Host), Err(GlbError::Magic)));
    let mut cut = container("{}", &[]);
    cut.truncate(20);
    assert!(matches!(parse_glb(&cut, &Host), Err(GlbError::Truncated)));
    assert!(matches!(parse_glb(&container("{nodes", &[]), &Host), Err(GlbError::Text(_))));
    assert!(matches!(parse_glb(&container("{}", &[]), &Host), Err(GlbError::NoPrimitives)));
    let round = triangle(r#"[{"mesh": 0, "children": [0]}]"#, "");
    assert!(matches!(
        parse_glb(&container(&round, &triangle_bin()), &Host),
        Err(GlbError::Cycle)
    ));
}

fn png(w: u32, h: u32, px: [u8; 4]) -> Vec<u8> {
    let mut img = image::RgbaImage::new(w, h);
    for p in img.pixels_mut() {
        *p = image::Rgba(px);
    }
    let mut out = std::io::Cursor::new(Vec::new());
    img.write_to(&mut out, image::ImageFormat::Png).unwrap();
    out.into_inner()
}

#[test]
fn textures_and_factors_of_a_material() {
    let mut bin = triangle_bin();
    let pic = png(2, 1, [10, 20, 30, 255]);
    let (start, len) = (bin.len(), pic.len());
    bin.extend_from_slice(&pic);
    let text = format!(
        r#"{{"nodes": [{{"mesh": 0}}],
        "bufferViews": [{VIEWS}, {{"buffer": 0, "byteOffset": {start}, "byteLength": {len}}}],
        "images": [{{"bufferView": 2, "mimeType": "image/png"}}],
        "textures": [{{"source": 0}}],
        "materials": [{{
            "doubleSided": true,
            "normalTexture": {{"index": 0, "scale": 0.5}},
            "pbrMetallicRoughness": {{
                "metallicRoughnessTexture": {{"index": 0}},
                "baseColorTexture": {{"index": 0}}
            }},
            "extensions": {{"KHR_materials_transmission": {{"transmissionFactor": 1.0}}}}
        }}],{TRIANGLE}}}"#
    );
    let model = parse_glb(&container(&text, &bin), &Host).ok().expect("parse");
    let m = &model.materials[0];
    assert!(m.double_sided);
    assert!(m.blend);
    assert_eq!(f64v(m.transmission), 1.0);
    assert_eq!(f64v(m.normal_scale), 0.5);
    assert_eq!((f64v(m.metallic), f64v(m.roughness)), (1.0, 1.0));
    assert_eq!(f64v(m.base_color.a), 1.0);
    assert!(m.mr_tex.is_some() && m.normal_tex.is_some());
    let t = m.tex.as_ref().expect("texture");
    assert_eq!((t.width, t.height), (2, 1));
    assert_eq!(t.rgba, vec![10, 20, 30, 255, 10, 20, 30, 255]);
}

#[test]
fn a_model_without_materials_is_grey() {
    let glb = container(&triangle(r#"[{"mesh": 0}]"#, ""), &triangle_bin());
    let model = parse_glb(&glb, &Host).ok().unwrap();
    assert_eq!(model.materials.len(), 1);
    assert_eq!(f64v(model.materials[0].base_color.r), 0.8);
    assert!(!model.materials[0].double_sided);
}

#[test]
fn a_beard_is_placed_by_its_nodes_alone() {
    let nodes = r#"[{"children": [1], "translation": [1, 2, 3]},
        {"mesh": 0, "scale": [2, 2, 2]}]"#;
    let glb = container(&triangle(nodes, ""), &triangle_bin());
    let item = load_item("mustache1", &glb, &Host).ok().expect("item");
    assert_eq!(item.parts.len(), 1);
    let m: Vec<f32> = item.parts[0].local.m.iter().map(|x| f(*x)).collect();
    assert_eq!(
        m,
        vec![2.0, 0.0, 0.0, 0.0, 0.0, 2.0, 0.0, 0.0, 0.0, 0.0, 2.0, 0.0, 1.0, 2.0, 3.0, 1.0]
    );
    assert_eq!(item.parts[0].vertices.len(), 3);
    assert!(!item.parts[0].blend);
}

#[test]
fn a_hat_sits_on_its_anchor() {
    let glb = container(&triangle(r#"[{"mesh": 0}]"#, ""), &triangle_bin());
    let item = load_item("hat5", &glb, &Host).ok().expect("item");
    let m: Vec<f32> = item.parts[0].local.m.iter().map(|x| f(*x)).collect();
    assert_eq!((m[0], m[5], m[10]), (15.33, 15.33, 15.33));
    assert_eq!((m[12], m[13], m[14]), (0.0, 8.9, -2.2));
    let item = load_item("glasses1", &glb, &Host).ok().expect("item");
    let m: Vec<f32> = item.parts[0].local.m.iter().map(|x| f(*x)).collect();
    assert_eq!(m[0], 6.3f32 / 0.52);
    assert_eq!((m[12], m[13], m[14]), (0.0, 2.6, 4.7));
    assert!(load_item("hat5", b"none", &Host).is_err());
}

#[test]
fn kinds_have_slots_and_corrections() {
    assert_eq!(slot("hat3"), Some(Slot::Hat));
    assert_eq!(slot("glasses_heart"), Some(Slot::Eyewear));
    assert_eq!(slot("beard_full"), Some(Slot::Beard));
    assert_eq!(slot("none"), None);
    let a = item_adjust("hat_bicycle");
    assert_eq!(f(a.pitch), -std::f32::consts::FRAC_PI_2);
    assert_eq!((f(a.scale), f(a.dy), f(a.dz)), (1.08, -0.32, 0.45));
    assert_eq!(f(item_adjust("hat5").scale), 1.0);
}

#[test]
fn the_wardrobe_draws_what_it_holds() {
    let mut w = Wardrobe::new();
    assert_eq!(w.preload_glb("crown", None), Err(ItemError::UnknownKind));
    assert_eq!(w.preload_glb("hat1", None), Err(ItemError::LoadFailed));
    assert!(w.plan(468, "hat1", "none", "none").is_none());
    let meshes = vec![Mesh { id: 7, blend: false }, Mesh { id: 8, blend: true }];
    assert_eq!(w.preload_glb("hat1", Some(ItemModel { meshes })), Ok(()));
    assert!(w.plan(467, "hat1", "none", "none").is_none());
    let l = w.plan(468, "hat1", "glasses1", "none").unwrap();
    assert_eq!((l.opaque, l.blend, l.shadow), (vec![7], vec![8], true));
}

#[test]
fn env_cube_bytes_match_mip_chain() {
    let mut expect = 0usize;
    for mip in 0..ENV_CUBE_MIPS {
        let s = (ENV_CUBE_SIZE >> mip).max(1) as usize;
        expect += s * s * 4 * 2 * 6;
    }
    let faces = env_faces(expect).unwrap();
    assert_eq!(faces.len(), 42);
    assert_eq!(faces[41].end, expect);
    let short = env_faces(expect - 1).unwrap_err();
    assert_eq!((short.mip, short.face), (6, 5));
}

#[test]
fn levels_halve_down_to_one_pixel() {
    let img = Picture { width: 4, height: 2, rgba: vec![255u8; 32] };
    let levels = build_mip_chain(&img, true, &Host);
    let sizes: Vec<(u32, u32)> = levels.iter().map(|l| (l.width, l.height)).collect();
    assert_eq!(sizes, vec![(4, 2), (2, 1), (1, 1)]);
    assert_eq!(levels[2].rgba, vec![255, 255, 255, 255]);
}

#[test]
fn colours_are_averaged_as_light() {
    let rgba = vec![0, 0, 0, 0, 255, 255, 255, 255, 0, 0, 0, 0, 255, 255, 255, 255];
    let img = Picture { width: 2, height: 2, rgba };
    let light = build_mip_chain(&img, true, &Host);
    assert_eq!(light[1].rgba, vec![188, 188, 188, 128]);
    let plain = build_mip_chain(&img, false, &Host);
    assert_eq!(plain[1].rgba, vec![128, 128, 128, 128]);
}

#[test]
fn light_and_bytes_are_each_others_inverse() {
    for c in 0..=255u8 {
        assert_eq!(linear_to_srgb_u8(srgb_light(c, &Host), &Host), c);
    }
    assert_eq!(f(srgb_light(255, &Host)), 1.0);
}

fn frontal() -> Vec<V3> {
    let mut lm = vec![p3(320.0, 180.0, 0.0); 468];
    for i in 0..15 {
        let (x, y, z) = model(i);
        lm[FIT_POINTS[i]] = p3(320.0 + x * 10.0, 180.0 - y * 10.0, -z * 10.0);
    }
    lm[159] = p3(290.0, 150.0, 0.0);
    lm[386] = p3(350.0, 150.0, 0.0);
    lm
}

#[test]
fn observed_points_stand_before_the_camera() {
    let obs = observe(&frontal(), 640, 360, &Host);
    assert_eq!(obs.len(), 15);
    assert!(obs.iter().all(|o| f(o.z) < -10.0));
    let fit = fit_pose(&obs, &Host);
    assert!(f(fit.scale) > 0.0);
}

#[test]
fn the_first_pose_is_taken_and_later_ones_follow() {
    let q = Quat { x: n(0.0), y: n(0.0), z: n(0.0), w: n(1.0) };
    let a = Pose { quat: q, pos: p3(0.0, 0.0, 0.0), scale: n(1.0) };
    let b = Pose { quat: q, pos: p3(0.1, 0.0, 0.0), scale: n(2.0) };
    assert_eq!(follow(None, a, &Host), a);
    let c = follow(Some(a), b, &Host);
    assert!((f(c.pos.x) - 0.0415).abs() < 1e-6, "{}", f(c.pos.x));
    assert!((f(c.scale) - 1.415).abs() < 1e-6);
    let far = Pose { quat: q, pos: p3(5.0, 0.0, 0.0), scale: n(2.0) };
    assert_eq!(f(follow(Some(a), far, &Host).pos.x), 5.0);
}

#[test]
fn the_overlay_forgets_a_lost_face() {
    let mut o = ItemsOverlay::new();
    assert!(!o.active());
    o.set_items("hat1", "none", "none");
    assert!(o.active());
    assert!(o.begin(640, 360).is_none());
    o.set_pose(Some(frontal()));
    assert_eq!(o.begin(640, 360), Some(true));
    assert_eq!(o.begin(640, 360), Some(false));
    let w = o.bind_blit(3);
    assert!(w.pipeline && w.bind);
    let w = o.bind_blit(3);
    assert!(!w.pipeline && !w.bind);
    o.take_pose(&frontal(), 640, 360, &Host);
    assert!(o.smooth.is_some());
    o.set_pose(None);
    assert!(o.smooth.is_none());
    assert!(o.begin(640, 360).is_none());
}

/// The same face, 0 to 1 in the picture.
fn normalised() -> Vec<V3> {
    frontal()
        .iter()
        .map(|p| p3(f(p.x) / 640.0, f(p.y) / 360.0, f(p.z) / 640.0))
        .collect()
}

#[test]
fn the_screen_shows_the_crop() {
    let full = Crop { scale: n(1.0), cx: n(0.5), cy: n(0.5) };
    let px = screen_points(&[p3(0.25, 0.5, 0.1)], full, 640, 360, &Host);
    assert_eq!((f(px[0].x), f(px[0].y)), (160.0, 180.0));
    assert!((f(px[0].z) - 64.0).abs() < 1e-4);
    // the middle half: twice as large
    let half = Crop { scale: n(0.5), cx: n(0.5), cy: n(0.5) };
    let px = screen_points(&[p3(0.5, 0.5, 0.1), p3(0.25, 0.75, 0.0)], half, 640, 360, &Host);
    assert_eq!((f(px[0].x), f(px[0].y)), (320.0, 180.0));
    assert!((f(px[0].z) - 128.0).abs() < 1e-4);
    assert_eq!((f(px[1].x), f(px[1].y)), (0.0, 360.0));
}

#[test]
fn a_frame_is_drawn_only_with_an_item_and_a_face() {
    let mut w = Wardrobe::new();
    let light = Light::new();
    let mut o = ItemsOverlay::new();
    assert!(o.draw(&w, &light, 640, 360, &Host).is_none());
    o.set_items("hat1", "none", "none");
    assert!(o.draw(&w, &light, 640, 360, &Host).is_none());
    o.set_pose(Some(normalised()));
    // not loaded: the target is made, nothing is drawn and no pose is taken
    let d = o.draw(&w, &light, 640, 360, &Host).unwrap();
    assert!(d.stale && d.frame.is_none() && o.smooth.is_none());
    let meshes = vec![Mesh { id: 7, blend: true }, Mesh { id: 8, blend: false }];
    w.preload_glb("hat1", Some(ItemModel { meshes })).unwrap();
    let d = o.draw(&w, &light, 640, 360, &Host).unwrap();
    assert!(!d.stale);
    let fr = d.frame.unwrap();
    let near = o.smooth.unwrap();
    assert_eq!(fr.camera.len(), 24);
    let all: Vec<(Pass, Option<u64>)> =
        order(&fr.list).iter().map(|d| (d.pass, d.mesh)).collect();
    assert_eq!(
        all,
        vec![
            (Pass::Head, None),
            (Pass::Opaque, Some(8)),
            (Pass::Blend, Some(7)),
            (Pass::Shadow, None)
        ]
    );
    // half of the picture fills the screen: the face comes nearer
    o.reset_smoothing();
    o.set_view_crop(n(0.5), n(0.5), n(0.5));
    assert!(o.draw(&w, &light, 640, 360, &Host).unwrap().frame.is_some());
    let zoomed = o.smooth.unwrap();
    assert!(f(zoomed.pos.z) > f(near.pos.z) + 1.0);
}

#[test]
fn only_solid_surfaces_write_depth() {
    assert_eq!(writes(Pass::Head), Writes { depth: true, color: false });
    assert_eq!(writes(Pass::Opaque), Writes { depth: true, color: true });
    assert_eq!(writes(Pass::Blend), Writes { depth: false, color: true });
    assert_eq!(writes(Pass::Shadow), Writes { depth: false, color: true });
}

#[test]
fn head_and_shadow_stand_in_place() {
    let h = head(&Host);
    assert_eq!((h.vertices.len(), h.indices.len()), (825, 4608));
    let at: Vec<f32> = h.local.m.iter().map(|x| f(*x)).collect();
    assert_eq!((at[0], at[5], at[10]), (8.6, 11.5, 8.3));
    assert_eq!((at[12], at[13], at[14]), (0.0, 1.0, -3.8));
    assert_eq!(f(h.look.alpha), 0.0);
    let b = brim_shadow(&Host);
    assert_eq!((b.vertices.len(), b.indices.len()), (4, 6));
    let at: Vec<f32> = b.local.m.iter().map(|x| f(*x)).collect();
    assert_eq!((at[0], at[10]), (13.0, (-0.35f32).cos()));
    assert_eq!((at[12], at[13], at[14]), (0.0, 6.0, 5.3));
    assert_eq!((f(b.look.alpha), f(b.look.mode)), (1.0, 1.0));
}

#[test]
fn probes_come_every_eighth_call() {
    let mut s = Scene::new();
    let white = vec![255u8; 32 * 32 * 3];
    s.probe_scene_light_rgb(&white, 32, 32, &Host);
    let once = s.light;
    assert!((f(once.exposure) - (1.0 + 0.4 * 0.15)).abs() < 1e-5);
    assert_eq!(f(once.r), 1.0);
    for _ in 0..7 {
        s.probe_scene_light_rgb(&white, 32, 32, &Host);
    }
    assert_eq!(s.light, once);
    s.probe_scene_light_rgb(&white, 32, 32, &Host);
    assert_ne!(s.light, once);
}

#[test]
fn probes_without_pixels_change_nothing() {
    let mut s = Scene::new();
    s.probe_scene_light_rgb_now(&[], 0, 0, &Host);
    assert_eq!(s.light, Light::new());
}

#[test]
fn grey_planes_have_no_tint() {
    let mut s = Scene::new();
    let (y, u) = (vec![107u8; 64], vec![128u8; 16]);
    let yp = Plane { data: &y, stride: 8 };
    let up = Plane { data: &u, stride: 4 };
    let vp = Plane { data: &u, stride: 4 };
    s.probe_scene_light(&yp, &up, &vp, 8, 8, &Host);
    assert_eq!((f(s.light.r), f(s.light.g), f(s.light.b)), (1.0, 1.0, 1.0));
    assert!((f(s.light.exposure) - 1.0).abs() < 1e-3);
}

#[test]
fn blocks_hold_their_numbers() {
    let cam = camera_uniform(640, 360, &Light::new(), &Host);
    assert_eq!(cam.len(), 24);
    assert_eq!(f(cam[11]), -1.0);
    assert_eq!(f(cam[19]), 1.0);
    assert_eq!((f(cam[20]), f(cam[23])), (1.0, 0.0));
    let glb = container(&triangle(r#"[{"mesh": 0}]"#, ""), &triangle_bin());
    let item = load_item("mustache1", &glb, &Host).ok().unwrap();
    let p = &item.parts[0];
    let u = mesh_uniform(&mat_identity(), &p.local, &p.look, &Host);
    assert_eq!(u.len(), 32);
    assert_eq!((f(u[0]), f(u[16]), f(u[19])), (1.0, 0.8, 1.0));
    assert_eq!((f(u[20]), f(u[21]), f(u[22])), (0.0, 0.8, 0.0));
}

#[test]
fn matrices_compose() {
    let t = mat_translate(n(1.0), n(2.0), n(3.0));
    let m = mat_mul(&t, &mat_identity(), &Host);
    assert_eq!((f(m.m[12]), f(m.m[13]), f(m.m[14])), (1.0, 2.0, 3.0));
    let q = Quat { x: n(0.0), y: n(0.0), z: n(1.0), w: n(0.0) };
    let c = mat_compose(p3(0.0, 0.0, 0.0), q, p3(1.0, 1.0, 1.0), &Host);
    assert_eq!((f(c.m[0]), f(c.m[5]), f(c.m[10])), (-1.0, -1.0, 1.0));
}

#[test]
fn rotations_turn_the_shorter_way() {
    let a = Quat { x: n(0.0), y: n(0.0), z: n(0.0), w: n(1.0) };
    let b = Quat { x: n(0.0), y: n(0.0), z: n(0.0), w: n(-1.0) };
    assert_eq!(quat_slerp(a, b, n(0.5), &Host), a);
    let s = std::f32::consts::FRAC_1_SQRT_2;
    let quarter = Quat { x: n(0.0), y: n(0.0), z: n(s), w: n(s) };
    let half = quat_slerp(a, quarter, n(0.5), &Host);
    assert!((f(half.z) - (std::f32::consts::PI / 8.0).sin()).abs() < 1e-6);
    let none = Quat { x: n(0.0), y: n(0.0), z: n(0.0), w: n(0.0) };
    assert_eq!(quat_normalize(none, &Host), a);
}

#[test]
fn shapes_have_their_vertices() {
    let (v, i) = build_sphere(4, 2, &Host);
    assert_eq!((v.len(), i.len()), (15, 48));
    assert_eq!((f(v[0].pos.y), f(v[0].uv.x)), (1.0, 0.0));
    assert!(i.iter().all(|k| (*k as usize) < v.len()));
    let (v, i) = build_plane();
    assert_eq!(v.len(), 4);
    assert_eq!(i, vec![0, 2, 1, 2, 3, 1]);
    assert_eq!((f(v[3].pos.x), f(v[3].pos.y)), (0.5, -0.5));
}
