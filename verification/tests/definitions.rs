use colorspace::{ColorHSIA, ColorHSLA, ColorHSVA, ColorND, ColorRGBA, UNIT};

const UNIT_F: f64 = 3_600_000.0;

/// Turns a [0, 1] fraction into grid units.
fn g(x: f64) -> u32 {
    (x * UNIT_F).round() as u32
}

/// Turns a [0, 1] fraction into grid units, as a signed constructor input.
fn gi(x: f64) -> i64 {
    (x * UNIT_F).round() as i64
}

/// Test new method
#[test]
fn definitions_new() {
    let result_valid = ColorRGBA::new(gi(0.1), gi(0.2), gi(0.3), gi(0.4));
    let result_low_r = ColorRGBA::new(gi(-0.1), gi(0.2), gi(0.3), gi(0.4));
    let result_low_g = ColorRGBA::new(gi(0.1), gi(-0.2), gi(0.3), gi(0.4));
    let result_low_b = ColorRGBA::new(gi(0.1), gi(0.2), gi(-0.3), gi(0.4));
    let result_low_a = ColorRGBA::new(gi(0.1), gi(0.2), gi(0.3), gi(-0.4));
    let result_hig_r = ColorRGBA::new(gi(1.1), gi(0.2), gi(0.3), gi(0.4));
    let result_hig_g = ColorRGBA::new(gi(0.1), gi(1.2), gi(0.3), gi(0.4));
    let result_hig_b = ColorRGBA::new(gi(0.1), gi(0.2), gi(1.3), gi(0.4));
    let result_hig_a = ColorRGBA::new(gi(0.1), gi(0.2), gi(0.3), gi(1.4));

    assert_eq!(result_valid.get(), [g(0.1), g(0.2), g(0.3), g(0.4)]);
    assert_eq!(result_low_r.get(), [g(0.0), g(0.2), g(0.3), g(0.4)]);
    assert_eq!(result_low_g.get(), [g(0.1), g(0.0), g(0.3), g(0.4)]);
    assert_eq!(result_low_b.get(), [g(0.1), g(0.2), g(0.0), g(0.4)]);
    assert_eq!(result_low_a.get(), [g(0.1), g(0.2), g(0.3), g(0.0)]);
    assert_eq!(result_hig_r.get(), [g(1.0), g(0.2), g(0.3), g(0.4)]);
    assert_eq!(result_hig_g.get(), [g(0.1), g(1.0), g(0.3), g(0.4)]);
    assert_eq!(result_hig_b.get(), [g(0.1), g(0.2), g(1.0), g(0.4)]);
    assert_eq!(result_hig_a.get(), [g(0.1), g(0.2), g(0.3), g(1.0)]);
}

/// Test new_rgb method
#[test]
fn new_rgb() {
    let result_valid = ColorRGBA::new_rgb(gi(0.1), gi(0.2), gi(0.3));
    let result_low_r = ColorRGBA::new_rgb(gi(-0.1), gi(0.2), gi(0.3));
    let result_low_g = ColorRGBA::new_rgb(gi(0.1), gi(-0.2), gi(0.3));
    let result_low_b = ColorRGBA::new_rgb(gi(0.1), gi(0.2), gi(-0.3));
    let result_hig_r = ColorRGBA::new_rgb(gi(1.1), gi(0.2), gi(0.3));
    let result_hig_g = ColorRGBA::new_rgb(gi(0.1), gi(1.2), gi(0.3));
    let result_hig_b = ColorRGBA::new_rgb(gi(0.1), gi(0.2), gi(1.3));

    assert_eq!(result_valid.get(), [g(0.1), g(0.2), g(0.3), g(1.0)]);
    assert_eq!(result_low_r.get(), [g(0.0), g(0.2), g(0.3), g(1.0)]);
    assert_eq!(result_low_g.get(), [g(0.1), g(0.0), g(0.3), g(1.0)]);
    assert_eq!(result_low_b.get(), [g(0.1), g(0.2), g(0.0), g(1.0)]);
    assert_eq!(result_hig_r.get(), [g(1.0), g(0.2), g(0.3), g(1.0)]);
    assert_eq!(result_hig_g.get(), [g(0.1), g(1.0), g(0.3), g(1.0)]);
    assert_eq!(result_hig_b.get(), [g(0.1), g(0.2), g(1.0), g(1.0)]);
}

/// Test get_red method
#[test]
fn get_red() {
    let value = ColorRGBA::new(gi(0.1), gi(0.2), gi(0.3), gi(0.4));

    assert_eq!(value.get_red(), g(0.1));
}

/// Test get_green method
#[test]
fn get_green() {
    let value = ColorRGBA::new(gi(0.1), gi(0.2), gi(0.3), gi(0.4));

    assert_eq!(value.get_green(), g(0.2));
}

/// Test get_blue method
#[test]
fn get_blue() {
    let value = ColorRGBA::new(gi(0.1), gi(0.2), gi(0.3), gi(0.4));

    assert_eq!(value.get_blue(), g(0.3));
}

/// Test get_alpha method
#[test]
fn get_alpha() {
    let value = ColorRGBA::new(gi(0.1), gi(0.2), gi(0.3), gi(0.4));

    assert_eq!(value.get_alpha(), g(0.4));
}

/// Test get method
#[test]
fn get() {
    let value = ColorRGBA::new(gi(0.1), gi(0.2), gi(0.3), gi(0.4));

    assert_eq!(value.get(), [g(0.1), g(0.2), g(0.3), g(0.4)]);
}

/// Test ColorND new method
#[test]
fn definitions_new_nd() {
    let result_1_low = ColorND::<1>::new(&[gi(-0.2)]);
    let result_1_mid = ColorND::<1>::new(&[gi(0.2)]);
    let result_1_hig = ColorND::<1>::new(&[gi(1.2)]);
    let result_3_low = ColorND::<3>::new(&[gi(-0.2), gi(0.3), gi(0.4)]);
    let result_3_mid = ColorND::<3>::new(&[gi(0.2), gi(0.3), gi(0.4)]);
    let result_3_hig = ColorND::<3>::new(&[gi(0.2), gi(0.3), gi(1.4)]);

    assert_eq!(result_1_low.get(), &vec![g(0.0)]);
    assert_eq!(result_1_mid.get(), &vec![g(0.2)]);
    assert_eq!(result_1_hig.get(), &vec![g(1.0)]);
    assert_eq!(result_3_low.get(), &vec![g(0.0), g(0.3), g(0.4)]);
    assert_eq!(result_3_mid.get(), &vec![g(0.2), g(0.3), g(0.4)]);
    assert_eq!(result_3_hig.get(), &vec![g(0.2), g(0.3), g(1.0)]);
}

/// The hue component of the hue-based constructors wraps modulo the
/// circle, with a non-negative result for negative inputs.
#[test]
fn hue_wraps_modulo_circle() {
    let hsl = ColorHSLA::new(gi(-0.25), gi(0.5), gi(0.5), gi(1.0));
    let hsv = ColorHSVA::new(gi(1.25), gi(0.5), gi(0.5), gi(1.0));
    let hsi = ColorHSIA::new(gi(-2.0), gi(0.5), gi(0.5), gi(1.0));
    let exact = ColorHSVA::new(UNIT as i64, gi(0.5), gi(0.5), gi(1.0));

    assert_eq!(hsl.get_hue(), g(0.75));
    assert_eq!(hsv.get_hue(), g(0.25));
    assert_eq!(hsi.get_hue(), g(0.0));
    assert_eq!(exact.get_hue(), g(0.0));
}

/// The non-hue components of the hue-based constructors clamp like the
/// RGBA constructor does.
#[test]
fn hue_types_clamp_components() {
    let hsl = ColorHSLA::new_hsl(gi(0.25), gi(-0.5), gi(1.5));
    let hsv = ColorHSVA::new_hsv(gi(0.25), gi(1.5), gi(-0.5));
    let hsi = ColorHSIA::new_hsi(gi(0.25), gi(0.5), gi(2.5));

    assert_eq!(hsl.get(), [g(0.25), g(0.0), g(1.0), g(1.0)]);
    assert_eq!(hsv.get(), [g(0.25), g(1.0), g(0.0), g(1.0)]);
    assert_eq!(hsi.get(), [g(0.25), g(0.5), g(1.0), g(1.0)]);
}
