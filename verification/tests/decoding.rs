//! Exercises of the scene decoding layer.

use pyrite::expression::{
    ComplexExpression, DecodeError, Expression, FieldKind,
};
use pyrite::color::decode_rgb;
use pyrite::math::Fresnel;
use pyrite::tracer::{
    decode_sky_color, decode_world, DecodePlace, Material, MaterialDescription, MaterialKind,
    ObjectDescription, SphereDescription, WorldDescription,
};

const FX: i64 = 65536;

fn fx_of(units: i64) -> i64 {
    units * FX
}

fn number(v: i64) -> Expression {
    Expression::Number(v)
}

fn sphere_desc(z: i64) -> SphereDescription {
    SphereDescription { x: 0, y: 0, z, radius: FX }
}

fn material_desc(kind: MaterialKind) -> MaterialDescription {
    MaterialDescription { kind, color: Some(number(FX)) }
}

#[test]
fn a_sky_needs_its_color() {
    let err = decode_sky_color(None).unwrap_err();
    assert_eq!(err, DecodeError::MissingField(FieldKind::Color));
    assert_eq!(err.message(), "missing field 'color'");
    assert!(decode_sky_color(Some(number(FX))).is_ok());
}

#[test]
fn a_world_needs_its_sky() {
    let desc = WorldDescription { sky: None, objects: vec![] };
    let err = decode_world(desc).unwrap_err();
    assert_eq!(err.place, DecodePlace::Sky);
    assert_eq!(err.error, DecodeError::MissingField(FieldKind::Sky));
    assert_eq!(err.error.message(), "missing field 'sky'");
}

#[test]
fn an_object_needs_a_material_with_a_color() {
    let missing_material = WorldDescription {
        sky: Some(number(FX)),
        objects: vec![ObjectDescription { shape: sphere_desc(-fx_of(6)), material: None }],
    };
    let err = decode_world(missing_material).unwrap_err();
    assert_eq!(err.place, DecodePlace::ObjectAt(0));
    assert_eq!(err.error, DecodeError::MissingField(FieldKind::Material));

    let missing_color = WorldDescription {
        sky: Some(number(FX)),
        objects: vec![ObjectDescription {
            shape: sphere_desc(-fx_of(6)),
            material: Some(MaterialDescription { kind: MaterialKind::Diffuse, color: None }),
        }],
    };
    let err = decode_world(missing_color).unwrap_err();
    assert_eq!(err.place, DecodePlace::ObjectAt(0));
    assert_eq!(err.error, DecodeError::MissingField(FieldKind::Color));
}

#[test]
fn emitting_objects_become_the_lights() {
    let desc = WorldDescription {
        sky: Some(number(FX / 4)),
        objects: vec![
            ObjectDescription {
                shape: sphere_desc(-fx_of(6)),
                material: Some(material_desc(MaterialKind::Diffuse)),
            },
            ObjectDescription {
                shape: sphere_desc(-fx_of(3)),
                material: Some(material_desc(MaterialKind::Emission)),
            },
            ObjectDescription {
                shape: sphere_desc(-fx_of(9)),
                material: Some(material_desc(MaterialKind::Mirror)),
            },
        ],
    };
    let world = decode_world(desc).unwrap();
    assert_eq!(world.objects.len(), 3);
    assert_eq!(world.lights, vec![1]);
    assert!(matches!(world.objects[1].material, Material::Emission { .. }));
}

#[test]
fn degenerate_spheres_are_refused() {
    let desc = WorldDescription {
        sky: Some(number(FX)),
        objects: vec![ObjectDescription {
            shape: SphereDescription { x: 0, y: 0, z: 0, radius: 0 },
            material: Some(material_desc(MaterialKind::Diffuse)),
        }],
    };
    let err = decode_world(desc).unwrap_err();
    assert_eq!(err.place, DecodePlace::ObjectAt(0));
    assert_eq!(err.error, DecodeError::NumberOutOfRange);
}

#[test]
fn out_of_range_channels_are_refused() {
    let err = decode_rgb(i64::MAX, 0, 0).unwrap_err();
    assert_eq!(err, DecodeError::NumberOutOfRange);
}

#[test]
fn only_fresnel_expressions_build_fresnel_nodes() {
    let err = Fresnel::from_complex_expression(ComplexExpression::Texture).unwrap_err();
    assert_eq!(err, DecodeError::ExpectedFresnel);
    assert_eq!(err.message(), "expected a Fresnel expression");
    let built = Fresnel::from_complex_expression(ComplexExpression::Fresnel {
        ior: Box::new(number(FX + FX / 2)),
        env_ior: Some(Box::new(number(FX))),
    });
    assert!(built.is_ok());
}
