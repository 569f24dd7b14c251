use pathrs_renderer::material::{
    Dielectric, DiffuseLight, Lambertian, Material, MaterialTable, Metal,
};
use pathrs_renderer::renderer::{CPURenderer, CameraController, MAX_DEPTH};

type Mat = Material<[f32; 3], f32>;

#[test]
fn light_never_scatters() {
    let light: Mat = Material::DiffuseLight(DiffuseLight::new([5.0, 5.0, 5.0]));
    assert!(!light.scatters());
    assert!(Mat::Lambertian(Lambertian::new([0.5; 3])).scatters());
    assert!(Mat::Metal(Metal::new([0.5; 3], 0.0)).scatters());
    assert!(Mat::Dielectric(Dielectric::new(1.5)).scatters());
}

#[test]
fn light_emits_only_through_front_face() {
    let light: Mat = Material::DiffuseLight(DiffuseLight::new([3.5, 1.8, 0.2]));
    assert_eq!(light.emitted(true, [0.0; 3]), [3.5, 1.8, 0.2]);
    assert_eq!(light.emitted(false, [0.0; 3]), [0.0; 3]);
    let white: Mat = Material::Lambertian(Lambertian::new([0.73; 3]));
    assert_eq!(white.emitted(true, [0.0; 3]), [0.0; 3]);
}

#[test]
fn material_ids_are_positions() {
    let mut t: MaterialTable<Mat> = MaterialTable::new();
    let a = t.add_material(Material::Dielectric(Dielectric::new(1.5)));
    let b = t.add_material(Material::DiffuseLight(DiffuseLight::new([1.0; 3])));
    assert_eq!((a, b), (0, 1));
    assert_eq!(t.len(), 2);
    assert!(matches!(t.material(0), Material::Dielectric(d) if d.refraction_index == 1.5));
    assert!(!t.material(1).scatters());
}

#[test]
fn unit_types_construct() {
    let _ = CPURenderer::new();
    let _ = CameraController::new();
    assert_eq!(MAX_DEPTH, 10);
}
