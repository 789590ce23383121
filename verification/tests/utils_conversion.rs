use colorspace::utils::ColorHCMA;
use colorspace::{ColorHSIA, ColorHSLA, ColorHSVA, ColorRGBA};

const UNIT_F: f64 = 3_600_000.0;

/// The tolerance of the reference conversion table: 0.001 on the [0, 1]
/// scale.
const TOL: i64 = 3_600;

/// Turns a [0, 1] fraction into grid units.
fn g(x: f64) -> u32 {
    (x * UNIT_F).round() as u32
}

/// Turns a [0, 1] fraction into grid units, as a signed constructor input.
fn gi(x: f64) -> i64 {
    (x * UNIT_F).round() as i64
}

/// The two components are within the table's tolerance of each other.
fn close(actual: u32, expected: u32) -> bool {
    (actual as i64 - expected as i64).abs() <= TOL
}

fn assert_close4(actual: [u32; 4], expected: [u32; 4], entry: usize) {
    for k in 0..4 {
        assert!(
            close(actual[k], expected[k]),
            "entry {}, component {}: got {}, expected {}",
            entry,
            k,
            actual[k],
            expected[k]
        );
    }
}

fn hcm_parts(color: &ColorHCMA) -> [u32; 4] {
    [color.get_hue(), color.get_chroma(), color.get_min(), color.get_alpha()]
}

/// Retrieves all test colors.
fn get_test_values() -> Vec<(ColorHCMA, ColorRGBA, ColorHSVA, ColorHSLA, ColorHSIA)> {
    vec![
        (
            ColorHCMA::new(g(0.0), g(0.0), g(1.0), g(1.0)),
            ColorRGBA::new_rgb(gi(1.0), gi(1.0), gi(1.0)),
            ColorHSVA::new_hsv(gi(0.0), gi(0.0), gi(1.0)),
            ColorHSLA::new_hsl(gi(0.0), gi(0.0), gi(1.0)),
            ColorHSIA::new_hsi(gi(0.0), gi(0.0), gi(1.0)),
        ),
        (
            ColorHCMA::new(g(0.0), g(0.0), g(0.5), g(1.0)),
            ColorRGBA::new_rgb(gi(0.5), gi(0.5), gi(0.5)),
            ColorHSVA::new_hsv(gi(0.0), gi(0.0), gi(0.5)),
            ColorHSLA::new_hsl(gi(0.0), gi(0.0), gi(0.5)),
            ColorHSIA::new_hsi(gi(0.0), gi(0.0), gi(0.5)),
        ),
        (
            ColorHCMA::new(g(0.0), g(0.0), g(0.0), g(1.0)),
            ColorRGBA::new_rgb(gi(0.0), gi(0.0), gi(0.0)),
            ColorHSVA::new_hsv(gi(0.0), gi(0.0), gi(0.0)),
            ColorHSLA::new_hsl(gi(0.0), gi(0.0), gi(0.0)),
            ColorHSIA::new_hsi(gi(0.0), gi(0.0), gi(0.0)),
        ),
        (
            ColorHCMA::new(g(0.0), g(1.0), g(0.0), g(1.0)),
            ColorRGBA::new_rgb(gi(1.0), gi(0.0), gi(0.0)),
            ColorHSVA::new_hsv(gi(0.0), gi(1.0), gi(1.0)),
            ColorHSLA::new_hsl(gi(0.0), gi(1.0), gi(0.5)),
            ColorHSIA::new_hsi(gi(0.0), gi(1.0), gi(0.3333)),
        ),
        (
            ColorHCMA::new(g(60.0/360.0), g(0.75), g(0.0), g(1.0)),
            ColorRGBA::new_rgb(gi(0.75), gi(0.75), gi(0.0)),
            ColorHSVA::new_hsv(gi(60.0/360.0), gi(1.0), gi(0.75)),
            ColorHSLA::new_hsl(gi(60.0/360.0), gi(1.0), gi(0.375)),
            ColorHSIA::new_hsi(gi(60.0/360.0), gi(1.0), gi(0.5)),
        ),
        (
            ColorHCMA::new(g(120.0/360.0), g(0.5), g(0.0), g(1.0)),
            ColorRGBA::new_rgb(gi(0.0), gi(0.5), gi(0.0)),
            ColorHSVA::new_hsv(gi(120.0/360.0), gi(1.0), gi(0.5)),
            ColorHSLA::new_hsl(gi(120.0/360.0), gi(1.0), gi(0.25)),
            ColorHSIA::new_hsi(gi(120.0/360.0), gi(1.0), gi(0.1667)),
        ),
        (
            ColorHCMA::new(g(180.0/360.0), g(0.5), g(0.5), g(1.0)),
            ColorRGBA::new_rgb(gi(0.5), gi(1.0), gi(1.0)),
            ColorHSVA::new_hsv(gi(180.0/360.0), gi(0.5), gi(1.0)),
            ColorHSLA::new_hsl(gi(180.0/360.0), gi(1.0), gi(0.75)),
            ColorHSIA::new_hsi(gi(180.0/360.0), gi(0.4), gi(0.833)),
        ),
        (
            ColorHCMA::new(g(240.0/360.0), g(0.5), g(0.5), g(1.0)),
            ColorRGBA::new_rgb(gi(0.5), gi(0.5), gi(1.0)),
            ColorHSVA::new_hsv(gi(240.0/360.0), gi(0.5), gi(1.0)),
            ColorHSLA::new_hsl(gi(240.0/360.0), gi(1.0), gi(0.75)),
            ColorHSIA::new_hsi(gi(240.0/360.0), gi(0.25), gi(0.667)),
        ),
        (
            ColorHCMA::new(g(300.0/360.0), g(0.5), g(0.25), g(1.0)),
            ColorRGBA::new_rgb(gi(0.75), gi(0.25), gi(0.75)),
            ColorHSVA::new_hsv(gi(300.0/360.0), gi(0.667), gi(0.75)),
            ColorHSLA::new_hsl(gi(300.0/360.0), gi(0.5), gi(0.5)),
            ColorHSIA::new_hsi(gi(300.0/360.0), gi(0.571), gi(0.5834)),
        ),
        (
            ColorHCMA::new(g(61.8/360.0), g(0.501), g(0.142), g(1.0)),
            ColorRGBA::new_rgb(gi(0.628), gi(0.643), gi(0.142)),
            ColorHSVA::new_hsv(gi(61.8/360.0), gi(0.779), gi(0.643)),
            ColorHSLA::new_hsl(gi(61.8/360.0), gi(0.638), gi(0.3924)),
            ColorHSIA::new_hsi(gi(61.8/360.0), gi(0.699), gi(0.471)),
        ),
        (
            ColorHCMA::new(g(251.1/360.0), g(0.814), g(0.104), g(1.0)),
            ColorRGBA::new_rgb(gi(0.255), gi(0.104), gi(0.918)),
            ColorHSVA::new_hsv(gi(251.1/360.0), gi(0.887), gi(0.918)),
            ColorHSLA::new_hsl(gi(251.1/360.0), gi(0.832), gi(0.511)),
            ColorHSIA::new_hsi(gi(251.1/360.0), gi(0.7555), gi(0.4255)),
        ),
        (
            ColorHCMA::new(g(134.9/360.0), g(0.559), g(0.116), g(1.0)),
            ColorRGBA::new_rgb(gi(0.116), gi(0.675), gi(0.255)),
            ColorHSVA::new_hsv(gi(134.9/360.0), gi(0.828), gi(0.675)),
            ColorHSLA::new_hsl(gi(134.9/360.0), gi(0.7065), gi(0.3955)),
            ColorHSIA::new_hsi(gi(134.9/360.0), gi(0.667), gi(0.349)),
        ),
        (
            ColorHCMA::new(g(49.5/360.0), g(0.888), g(0.053), g(1.0)),
            ColorRGBA::new_rgb(gi(0.9405), gi(0.7855), gi(0.053)),
            ColorHSVA::new_hsv(gi(49.5/360.0), gi(0.944), gi(0.941)),
            ColorHSLA::new_hsl(gi(49.5/360.0), gi(0.893), gi(0.497)),
            ColorHSIA::new_hsi(gi(49.5/360.0), gi(0.911), gi(0.593)),
        ),
        (
            ColorHCMA::new(g(283.7/360.0), g(0.71), g(0.187), g(1.0)),
            ColorRGBA::new_rgb(gi(0.704), gi(0.187), gi(0.897)),
            ColorHSVA::new_hsv(gi(283.7/360.0), gi(0.792), gi(0.897)),
            ColorHSLA::new_hsl(gi(283.7/360.0), gi(0.775), gi(0.542)),
            ColorHSIA::new_hsi(gi(283.7/360.0), gi(0.686), gi(0.596)),
        ),
        (
            ColorHCMA::new(g(14.3/360.0), g(0.615), g(0.316), g(1.0)),
            ColorRGBA::new_rgb(gi(0.931), gi(0.463), gi(0.316)),
            ColorHSVA::new_hsv(gi(14.3/360.0), gi(0.661), gi(0.931)),
            ColorHSLA::new_hsl(gi(14.3/360.0), gi(0.81749), gi(0.6239)),
            ColorHSIA::new_hsi(gi(14.3/360.0), gi(0.4454), gi(0.57)),
        ),
        (
            ColorHCMA::new(g(56.9/360.0), g(0.466), g(0.532), g(1.0)),
            ColorRGBA::new_rgb(gi(0.998), gi(0.974), gi(0.532)),
            ColorHSVA::new_hsv(gi(56.9/360.0), gi(0.467), gi(0.998)),
            ColorHSLA::new_hsl(gi(56.9/360.0), gi(0.991), gi(0.765)),
            ColorHSIA::new_hsi(gi(56.9/360.0), gi(0.3625), gi(0.8345)),
        ),
        (
            ColorHCMA::new(g(162.4/360.0), g(0.696), g(0.099), g(1.0)),
            ColorRGBA::new_rgb(gi(0.099), gi(0.795), gi(0.591)),
            ColorHSVA::new_hsv(gi(162.4/360.0), gi(0.875), gi(0.795)),
            ColorHSLA::new_hsl(gi(162.4/360.0), gi(0.779), gi(0.447)),
            ColorHSIA::new_hsi(gi(162.4/360.0), gi(0.8), gi(0.495)),
        ),
        (
            ColorHCMA::new(g(248.3/360.0), g(0.448), g(0.149), g(1.0)),
            ColorRGBA::new_rgb(gi(0.211), gi(0.149), gi(0.597)),
            ColorHSVA::new_hsv(gi(248.3/360.0), gi(0.75), gi(0.597)),
            ColorHSLA::new_hsl(gi(248.3/360.0), gi(0.601), gi(0.373)),
            ColorHSIA::new_hsi(gi(248.3/360.0), gi(0.533), gi(0.319)),
        ),
        (
            ColorHCMA::new(g(240.5/360.0), g(0.228), g(0.493), g(1.0)),
            ColorRGBA::new_rgb(gi(0.495), gi(0.493), gi(0.721)),
            ColorHSVA::new_hsv(gi(240.5/360.0), gi(0.316), gi(0.721)),
            ColorHSLA::new_hsl(gi(240.5/360.0), gi(0.29), gi(0.607)),
            ColorHSIA::new_hsi(gi(240.5/360.0), gi(0.1345), gi(0.5695)),
        ),
    ]
}

#[test]
fn utils_from_rgb() {
    let test_values = get_test_values();

    for (entry, values) in test_values.iter().enumerate() {
        let hcm = ColorHCMA::from_rgb(&values.1);

        assert_close4(hcm_parts(&hcm), hcm_parts(&values.0), entry);
    }
}

#[test]
fn utils_from_hsv() {
    let test_values = get_test_values();

    for (entry, values) in test_values.iter().enumerate() {
        let hcm = ColorHCMA::from_hsv(&values.2);

        assert_close4(hcm_parts(&hcm), hcm_parts(&values.0), entry);
    }
}

#[test]
fn utils_from_hsl() {
    let test_values = get_test_values();

    for (entry, values) in test_values.iter().enumerate() {
        let hcm = ColorHCMA::from_hsl(&values.3);

        assert_close4(hcm_parts(&hcm), hcm_parts(&values.0), entry);
    }
}

#[test]
fn utils_from_hsi() {
    let test_values = get_test_values();

    for (entry, values) in test_values.iter().enumerate() {
        let hcm = ColorHCMA::from_hsi(&values.4);

        assert_close4(hcm_parts(&hcm), hcm_parts(&values.0), entry);
    }
}

#[test]
fn utils_to_rgb() {
    let test_values = get_test_values();

    for (entry, values) in test_values.iter().enumerate() {
        let color = values.0.to_rgb();

        assert_close4(color.get(), values.1.get(), entry);
    }
}

#[test]
fn utils_to_hsv() {
    let test_values = get_test_values();

    for (entry, values) in test_values.iter().enumerate() {
        let color = values.0.to_hsv();

        assert_close4(color.get(), values.2.get(), entry);
    }
}

#[test]
fn utils_to_hsl() {
    let test_values = get_test_values();

    for (entry, values) in test_values.iter().enumerate() {
        let color = values.0.to_hsl();

        assert_close4(color.get(), values.3.get(), entry);
    }
}

#[test]
fn utils_to_hsi() {
    let test_values = get_test_values();

    for (entry, values) in test_values.iter().enumerate() {
        let color = values.0.to_hsi();

        assert_close4(color.get(), values.4.get(), entry);
    }
}
