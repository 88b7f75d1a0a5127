use dray::material::{DefaultMaterial, Transparent};

#[test]
fn the_default_material_absorbs() {
    let m = DefaultMaterial::default();
    assert_eq!(m.scatter((1.0, 2.0, 3.0)), None);
    assert_eq!(m, DefaultMaterial {});
}

#[test]
fn a_transparent_material_passes_the_ray_as_it_came() {
    let m = Transparent {};
    assert_eq!(m.scatter((1.0, 2.0, 3.0)), Some((1.0, 2.0, 3.0)));
    assert_eq!(m.scatter("ray"), Some("ray"));
}

