use geo_reproject::conversions::{FromGeo, ToGeo};
use geo_reproject::coordinates::{bits_are_nan, bits_float_eq, Coordinate, Line, Polygon};
use geo_reproject::error::CoordinateFault;
use geo_reproject::simplification::coordinates_equal;

fn c(x: f64, y: f64) -> Coordinate {
    Coordinate::new(x.to_bits(), y.to_bits())
}

#[test]
fn nan_detection_follows_the_bits() {
    assert!(bits_are_nan(f64::NAN.to_bits()));
    assert!(bits_are_nan((-f64::NAN).to_bits()));
    assert!(!bits_are_nan(f64::INFINITY.to_bits()));
    assert!(!bits_are_nan(0.0f64.to_bits()));
    assert!(!bits_are_nan(f64::MAX.to_bits()));
}

#[test]
fn float_equality_follows_f64() {
    assert!(bits_float_eq(0.0f64.to_bits(), (-0.0f64).to_bits()));
    assert!(!bits_float_eq(f64::NAN.to_bits(), f64::NAN.to_bits()));
    assert!(bits_float_eq(1.5f64.to_bits(), 1.5f64.to_bits()));
    assert!(!bits_float_eq(1.5f64.to_bits(), 2.5f64.to_bits()));
    assert!(coordinates_equal(&c(0.0, 1.0), &c(-0.0, 1.0)));
    assert!(!coordinates_equal(&c(f64::NAN, 1.0), &c(f64::NAN, 1.0)));
}

#[test]
fn validate_checks_nan_then_range() {
    assert_eq!(c(13.377, 52.518).validate(), Ok(()));
    assert_eq!(c(f64::NAN, 0.0).validate(), Err(CoordinateFault::NotANumber));
    assert_eq!(c(0.0, f64::NAN).validate(), Err(CoordinateFault::NotANumber));
    assert_eq!(c(190.0, 0.0).validate(), Err(CoordinateFault::OutOfRange));
    assert_eq!(c(0.0, -90.5).validate(), Err(CoordinateFault::OutOfRange));
    assert_eq!(c(f64::NEG_INFINITY, 0.0).validate(), Err(CoordinateFault::OutOfRange));
}

#[test]
fn positions_need_two_components() {
    assert_eq!(
        Coordinate::from_position(&vec![1.0f64.to_bits()]),
        Err(CoordinateFault::WrongArity)
    );
    assert_eq!(
        Coordinate::from_position(&vec![1.0f64.to_bits(), 2.0f64.to_bits()]),
        Ok(c(1.0, 2.0))
    );
}

#[test]
fn fault_messages() {
    assert_eq!(CoordinateFault::NotANumber.message(), "NaN coordinates are not allowed");
    assert_eq!(CoordinateFault::OutOfRange.message(), "Coordinates out of valid range");
    assert_eq!(
        CoordinateFault::WrongArity.message(),
        "Coordinates must have exactly two components"
    );
}

#[test]
fn positions_round_trip() {
    let coords = vec![c(13.377, 52.518), c(13.379, 52.517)];
    assert_eq!(c(1.0, 2.0).to_vec(), vec![1.0f64.to_bits(), 2.0f64.to_bits()]);
    let vecs = Coordinate::to_vecs(&coords);
    assert_eq!(vecs.len(), 2);
    assert_eq!(vecs[1], vec![13.379f64.to_bits(), 52.517f64.to_bits()]);
    assert_eq!(Line::new(coords.clone()).to_vecs(), vecs);
}

#[test]
fn geo_layout_round_trip() {
    let coord = c(13.377, 52.518);
    assert_eq!(coord.to_geo(), (13.377f64.to_bits(), 52.518f64.to_bits()));
    assert_eq!(Coordinate::from_geo(&coord.to_geo()), coord);
    let line = Line::new(vec![c(0.0, 0.0), c(1.0, 2.0)]);
    let pairs = line.to_geo();
    assert_eq!(pairs[1], (1.0f64.to_bits(), 2.0f64.to_bits()));
    assert_eq!(Line::from_geo(&pairs).coordinates, line.coordinates);
    let polygon = Polygon::new(line.clone(), vec![Line::new(vec![c(0.5, 0.5)])]);
    let (exterior, holes) = polygon.to_geo();
    assert_eq!(exterior, pairs);
    assert_eq!(holes, vec![vec![(0.5f64.to_bits(), 0.5f64.to_bits())]]);
    let copy = polygon.copy();
    assert_eq!(copy.exterior.coordinates, polygon.exterior.coordinates);
    assert_eq!(copy.interiors[0].coordinates, polygon.interiors[0].coordinates);
}
