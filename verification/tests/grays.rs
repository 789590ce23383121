use colorspace::{Color, ColorMap, ColorND, UNIT};

const UNIT_F: f64 = 3_600_000.0;

/// Turns a [0, 1] fraction into grid units.
fn g(x: f64) -> u32 {
    (x * UNIT_F).round() as u32
}

/// Turns a [0, 1] fraction into grid units, as a signed constructor input.
fn gi(x: f64) -> i64 {
    (x * UNIT_F).round() as i64
}

/// The gray color constructor clamps both components.
#[test]
fn grays_new_clamps() {
    let low = colorspace::colors::Grays::new(gi(-0.3), gi(0.5));
    let high = colorspace::colors::Grays::new(gi(1.3), gi(1.5));

    assert_eq!(low.get_rgba().get(), [0, 0, 0, g(0.5)]);
    assert_eq!(high.get_rgba().get(), [UNIT, UNIT, UNIT, UNIT]);
}

/// The unchecked gray constructor stores its components verbatim.
#[test]
fn grays_new_unsafe_verbatim() {
    let gray = colorspace::colors::Grays::new_unsafe(g(0.25), g(0.75));

    assert_eq!(gray.get_rgba().get(), [g(0.25), g(0.25), g(0.25), g(0.75)]);
}

/// A gray color expands to an RGBA color with all three channels at the
/// gray value.
#[test]
fn grays_get_rgba() {
    let gray = colorspace::colors::Grays::new(gi(0.6), gi(1.0));

    assert_eq!(gray.get_rgba().get(), [g(0.6), g(0.6), g(0.6), UNIT]);
}

/// The gray color map turns a one-dimensional color into the matching
/// gray, carrying the map's alpha.
#[test]
fn gray_map_get_color() {
    let map = colorspace::maps::Grays::new(gi(0.5));
    let color = ColorND::<1>::new(&[gi(0.4)]);

    let gray = map.get_color(color);

    assert_eq!(gray.get_rgba().get(), [g(0.4), g(0.4), g(0.4), g(0.5)]);
}

/// The gray color map constructor clamps its alpha.
#[test]
fn gray_map_new_clamps() {
    let map = colorspace::maps::Grays::new(gi(2.0));
    let color = ColorND::<1>::new(&[gi(1.0)]);

    assert_eq!(map.get_color(color).get_rgba().get_alpha(), UNIT);
}
