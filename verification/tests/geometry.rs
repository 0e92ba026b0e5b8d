use erika::geometry::OutputInfo;
use erika::geometry_laws::TURN_TOLERANCE;
use erika::ieee::{Binary32, Binary64};

fn number(value: f64) -> Binary64 {
    Binary64 { bits: value.to_bits() }
}

fn floats(numbers: [Binary32; 4]) -> [f32; 4] {
    numbers.map(|n| f32::from_bits(n.bits))
}

/// The geometry for the machine's sine and cosine of the rotation.
fn geometry(info: &OutputInfo) -> ([f32; 4], [f32; 4], u32, u32) {
    let angle = f64::from_bits(info.rotation_radians().bits);
    let (s, c) = angle.sin_cos();
    let (crop, inverse, width, height) = info.presentation_geometry(number(s), number(c));
    (floats(crop), floats(inverse), width, height)
}

/// The same in floating point.
fn expected(
    crop: [f64; 4],
    rotation: f64,
    aspect: f64,
    width: u32,
    height: u32,
) -> ([f32; 4], [f32; 4], u32, u32) {
    let w = crop[2].max(1.0) * aspect.max(0.0001);
    let h = crop[3].max(1.0);
    let (s, c) = rotation.to_radians().sin_cos();
    let dw = c.abs() * w + s.abs() * h;
    let dh = s.abs() * w + c.abs() * h;
    (
        [
            crop[0] as f32 / width as f32,
            crop[1] as f32 / height as f32,
            crop[2] as f32 / width as f32,
            crop[3] as f32 / height as f32,
        ],
        [
            (c * dw / w) as f32,
            (s * dh / w) as f32,
            (-s * dw / h) as f32,
            (c * dh / h) as f32,
        ],
        dw.round().max(1.0) as u32,
        dh.round().max(1.0) as u32,
    )
}

fn output(crop: [f64; 4], rotation: f64, aspect: f64, width: u32, height: u32) -> OutputInfo {
    OutputInfo {
        width,
        height,
        crop: crop.map(number),
        rotation: number(rotation),
        aspect: number(aspect),
        ..Default::default()
    }
}

#[test]
fn crop_and_non_square_pixels_rotate_into_display_geometry() {
    let info = OutputInfo {
        width: 100,
        height: 100,
        crop: [10., 20., 80., 40.].map(number),
        rotation: number(90.),
        aspect: number(2.),
        ..Default::default()
    };
    let (crop, inverse, width, height) = geometry(&info);
    assert_eq!(crop, [0.1, 0.2, 0.8, 0.4]);
    assert_eq!((width, height), (40, 160));
    let corner = [
        0.5 - 0.5 * (inverse[0] + inverse[1]),
        0.5 - 0.5 * (inverse[2] + inverse[3]),
    ];
    assert!(corner[0].abs() < 1e-6 && (corner[1] - 1.).abs() < 1e-6);
}

#[test]
fn geometry_agrees_with_floating_point_arithmetic() {
    let crops = [
        [0.0, 0.0, 1920.0, 1080.0],
        [10.5, 20.25, 719.75, 480.125],
        [-3.0, 0.0, 0.25, -7.0],
        [0.0, 0.0, 1e20, 3.0],
    ];
    for crop in crops {
        for rotation in [0.0, 1.0, 45.0, 90.0, 180.0, 270.0, -33.3, 720.5] {
            for aspect in [1.0, 2.0, 0.0, -1.0, 1.0666666666666667] {
                for (width, height) in [(1920, 1080), (16_777_217, 3), (720, 480)] {
                    let info = output(crop, rotation, aspect, width, height);
                    assert_eq!(
                        geometry(&info),
                        expected(crop, rotation, aspect, width, height)
                    );
                }
            }
        }
    }
}

#[test]
fn degrees_become_radians_as_the_machine_converts_them() {
    for rotation in [0.0, 1.0, 30.0, 90.0, 123.456, -270.0, 1e10, 5e-324] {
        let info = output([0.0; 4], rotation, 1.0, 1, 1);
        assert_eq!(f64::from_bits(info.rotation_radians().bits), rotation.to_radians());
    }
}

#[test]
fn unturned_picture_keeps_its_size() {
    let info = output([0.0, 0.0, 320.0, 200.0], 0.0, 1.5, 320, 200);
    let (_, inverse, width, height) = info.presentation_geometry(number(0.0), number(1.0));
    assert_eq!((width, height), (480, 200));
    assert_eq!(floats(inverse), [1.0, 0.0, -0.0, 1.0]);
}

#[test]
fn quarter_turn_swaps_width_and_height() {
    let info = output([0.0, 0.0, 320.0, 200.0], 90.0, 1.5, 320, 200);
    let (_, inverse, width, height) = info.presentation_geometry(number(1.0), number(0.0));
    assert_eq!((width, height), (200, 480));
    assert_eq!(floats(inverse), [0.0, 1.0, -1.0, 0.0]);
}

#[test]
fn empty_crop_still_covers_a_pixel() {
    let info = OutputInfo::default();
    let (_, _, width, height) = info.presentation_geometry(number(0.0), number(1.0));
    assert_eq!((width, height), (1, 1));
}

#[test]
fn quarter_turns_exchange_the_displayed_sides() {
    let crop = [3.0, 4.0, 1_920.0, 99_999.0];
    for (aspect, whole) in [(1.0, 1_920), (1.5, 2_880), (0.25, 480), (50.0, 96_000)] {
        let mut sides = (whole, 99_999);
        let upright = geometry(&output(crop, 0.0, aspect, 2_000, 100_000));
        for rotation in [0.0, 90.0, 180.0, 270.0, 360.0] {
            let turned = geometry(&output(crop, rotation, aspect, 2_000, 100_000));
            assert_eq!((turned.2, turned.3), sides);
            assert_eq!(turned.0, upright.0);
            sides = (sides.1, sides.0);
        }
    }
}

#[test]
fn sines_of_quarter_turns_are_within_the_tolerance() {
    let sines = [0.0, 1.0, 0.0, -1.0, 0.0, 1.0];
    let tolerance = f64::from_bits(TURN_TOLERANCE);
    assert_eq!(tolerance, 2.0_f64.powi(-21));
    for quarters in 0..5 {
        let info = output([0.0; 4], quarters as f64 * 90.0, 1.0, 1, 1);
        let (sin, cos) = f64::from_bits(info.rotation_radians().bits).sin_cos();
        assert!((sin - sines[quarters]).abs() <= tolerance);
        assert!((cos - sines[quarters + 1]).abs() <= tolerance);
    }
}

#[test]
fn sides_are_exchanged_by_sines_at_the_tolerance() {
    let info = output([0.0, 0.0, 262_144.0, 262_143.0], 90.0, 1.0, 1, 1);
    let tolerance = f64::from_bits(TURN_TOLERANCE);
    for (sin, cos) in [(1.0 - tolerance, -tolerance), (-1.0 - tolerance, tolerance)] {
        let (_, _, width, height) = info.presentation_geometry(number(sin), number(cos));
        assert_eq!((width, height), (262_143, 262_144));
    }
}
