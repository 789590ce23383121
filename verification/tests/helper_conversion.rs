use colorspace::utils::ColorHCMA;
use colorspace::{ColorHSIA, ColorHSLA, ColorHSVA, ColorRGBA};

const UNIT_F: f64 = 3_600_000.0;

/// The tolerance of the reference conversion table: 0.001 on the [0, 1]
/// scale.
const TOL: i64 = 3_600;

/// Turns a [0, 1] fraction into grid units.
fn g(x: f64) -> u32 {
    (x * UNIT_F).round() as u32
}

/// Turns a [0, 1] fraction into grid units, as a signed constructor input.
fn gi(x: f64) -> i64 {
    (x * UNIT_F).round() as i64
}

/// The two components are within the table's tolerance of each other.
fn close(actual: u32, expected: u32) -> bool {
    (actual as i64 - expected as i64).abs() <= TOL
}

fn assert_close4(actual: [u32; 4], expected: [u32; 4], entry: usize) {
    for k in 0..4 {
        assert!(
            close(actual[k], expected[k]),
            "entry {}, component {}: got {}, expected {}",
            entry,
            k,
            actual[k],
            expected[k]
        );
    }
}

fn hcm_parts(color: &ColorHCMA) -> [u32; 4] {
    [color.get_hue(), color.get_chroma(), color.get_min(), color.get_alpha()]
}

/// Retrieves all test colors.
fn get_test_values() -> Vec<(ColorHCMA, ColorRGBA, ColorHSVA, ColorHSLA, ColorHSIA)> {
    vec![
        (
            ColorHCMA::new(g(0.0), g(0.0), g(1.0), g(1.0)),
            ColorRGBA::new_rgb(gi(1.0), gi(1.0), gi(1.0)),
            ColorHSVA::new_hsv(gi(0.0), gi(0.0), gi(1.0)),
            ColorHSLA::new_hsl(gi(0.0), gi(0.0), gi(1.0)),
            ColorHSIA::new_hsi(gi(0.0), gi(0.0), gi(1.0)),
        ),
        (
            ColorHCMA::new(g(0.0), g(0.0), g(0.5), g(1.0)),
            ColorRGBA::new_rgb(gi(0.5), gi(0.5), gi(0.5)),
            ColorHSVA::new_hsv(gi(0.0), gi(0.0), gi(0.5)),
            ColorHSLA::new_hsl(gi(0.0), gi(0.0), gi(0.5)),
            ColorHSIA::new_hsi(gi(0.0), gi(0.0), gi(0.5)),
        ),
        (
            ColorHCMA::new(g(0.0), g(0.0), g(0.0), g(1.0)),
            ColorRGBA::new_rgb(gi(0.0), gi(0.0), gi(0.0)),
            ColorHSVA::new_hsv(gi(0.0), gi(0.0), gi(0.0)),
            ColorHSLA::new_hsl(gi(0.0), gi(0.0), gi(0.0)),
            ColorHSIA::new_hsi(gi(0.0), gi(0.0), gi(0.0)),
        ),
        (
            ColorHCMA::new(g(0.0), g(1.0), g(0.0), g(1.0)),
            ColorRGBA::new_rgb(gi(1.0), gi(0.0), gi(0.0)),
            ColorHSVA::new_hsv(gi(0.0), gi(1.0), gi(1.0)),
            ColorHSLA::new_hsl(gi(0.0), gi(1.0), gi(0.5)),
            ColorHSIA::new_hsi(gi(0.0), gi(1.0), gi(0.3333)),
        ),
        (
            ColorHCMA::new(g(60.0/360.0), g(0.75), g(0.0), g(1.0)),
            ColorRGBA::new_rgb(gi(0.75), gi(0.75), gi(0.0)),
            ColorHSVA::new_hsv(gi(60.0/360.0), gi(1.0), gi(0.75)),
            ColorHSLA::new_hsl(gi(60.0/360.0), gi(1.0), gi(0.375)),
            ColorHSIA::new_hsi(gi(60.0/360.0), gi(1.0), gi(0.5)),
        ),
        (
            ColorHCMA::new(g(120.0/360.0), g(0.5), g(0.0), g(1.0)),
            ColorRGBA::new_rgb(gi(0.0), gi(0.5), gi(0.0)),
            ColorHSVA::new_hsv(gi(120.0/360.0), gi(1.0), gi(0.5)),
            ColorHSLA::new_hsl(gi(120.0/360.0), gi(1.0), gi(0.25)),
            ColorHSIA::new_hsi(gi(120.0/360.0), gi(1.0), gi(0.1667)),
        ),
        (
            ColorHCMA::new(g(180.0/360.0), g(0.5), g(0.5), g(1.0)),
            ColorRGBA::new_rgb(gi(0.5), gi(1.0), gi(1.0)),
            ColorHSVA::new_hsv(gi(180.0/360.0), gi(0.5), gi(1.0)),
            ColorHSLA::new_hsl(gi(180.0/360.0), gi(1.0), gi(0.75)),
            ColorHSIA::new_hsi(gi(180.0/360.0), gi(0.4), gi(0.833)),
        ),
        (
            ColorHCMA::new(g(240.0/360.0), g(0.5), g(0.5), g(1.0)),
            ColorRGBA::new_rgb(gi(0.5), gi(0.5), gi(1.0)),
            ColorHSVA::new_hsv(gi(240.0/360.0), gi(0.5), gi(1.0)),
            ColorHSLA::new_hsl(gi(240.0/360.0), gi(1.0), gi(0.75)),
            ColorHSIA::new_hsi(gi(240.0/360.0), gi(0.25), gi(0.667)),
        ),
        (
            ColorHCMA::new(g(300.0/360.0), g(0.5), g(0.25), g(1.0)),
            ColorRGBA::new_rgb(gi(0.75), gi(0.25), gi(0.75)),
            ColorHSVA::new_hsv(gi(300.0/360.0), gi(0.667), gi(0.75)),
            ColorHSLA::new_hsl(gi(300.0/360.0), gi(0.5), gi(0.5)),
            ColorHSIA::new_hsi(gi(300.0/360.0), gi(0.571), gi(0.5834)),
        ),
        (
            ColorHCMA::new(g(61.8/360.0), g(0.501), g(0.142), g(1.0)),
            ColorRGBA::new_rgb(gi(0.628), gi(0.643), gi(0.142)),
            ColorHSVA::new_hsv(gi(61.8/360.0), gi(0.779), gi(0.643)),
            ColorHSLA::new_hsl(gi(61.8/360.0), gi(0.638), gi(0.3924)),
            ColorHSIA::new_hsi(gi(61.8/360.0), gi(0.699), gi(0.471)),
        ),
    ]
}

#[test]
fn helper_from_rgb() {
    let test_values = get_test_values();

    for (entry, values) in test_values.iter().enumerate() {
        let hcm = ColorHCMA::from_rgb(&values.1);

        assert_close4(hcm_parts(&hcm), hcm_parts(&values.0), entry);
    }
}

#[test]
fn helper_from_hsv() {
    let test_values = get_test_values();

    for (entry, values) in test_values.iter().enumerate() {
        let hcm = ColorHCMA::from_hsv(&values.2);

        assert_close4(hcm_parts(&hcm), hcm_parts(&values.0), entry);
    }
}

#[test]
fn helper_from_hsl() {
    let test_values = get_test_values();

    for (entry, values) in test_values.iter().enumerate() {
        let hcm = ColorHCMA::from_hsl(&values.3);

        assert_close4(hcm_parts(&hcm), hcm_parts(&values.0), entry);
    }
}

#[test]
fn helper_from_hsi() {
    let test_values = get_test_values();

    for (entry, values) in test_values.iter().enumerate() {
        let hcm = ColorHCMA::from_hsi(&values.4);

        assert_close4(hcm_parts(&hcm), hcm_parts(&values.0), entry);
    }
}

#[test]
fn helper_to_rgb() {
    let test_values = get_test_values();

    for (entry, values) in test_values.iter().enumerate() {
        let color = values.0.to_rgb();

        assert_close4(color.get(), values.1.get(), entry);
    }
}

#[test]
fn helper_to_hsv() {
    let test_values = get_test_values();

    for (entry, values) in test_values.iter().enumerate() {
        let color = values.0.to_hsv();

        assert_close4(color.get(), values.2.get(), entry);
    }
}

#[test]
fn helper_to_hsl() {
    let test_values = get_test_values();

    for (entry, values) in test_values.iter().enumerate() {
        let color = values.0.to_hsl();

        assert_close4(color.get(), values.3.get(), entry);
    }
}

#[test]
fn helper_to_hsi() {
    let test_values = get_test_values();

    for (entry, values) in test_values.iter().enumerate() {
        let color = values.0.to_hsi();

        assert_close4(color.get(), values.4.get(), entry);
    }
}
