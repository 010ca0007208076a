use gpxmat::parse::{parse_rows, sample_from_row, RawRow};
use gpxmat::TrackSample;

fn rows_of(text: &str) -> Vec<RawRow> {
    parse_rows(&text.as_bytes().to_vec())
}

#[test]
fn marker_row_is_accepted() {
    let rows = rows_of("T,lat,lon,alt,dist,12.5,-3.25");
    assert_eq!(rows.len(), 1);
    assert_eq!(rows[0].speed_field, b"12.5".to_vec());
    assert_eq!(rows[0].slope_field, Some(b"-3.25".to_vec()));
}

#[test]
fn wrong_marker_is_dropped() {
    assert_eq!(rows_of("X,lat,lon,alt,dist,12.5,-3.25").len(), 0);
    assert_eq!(rows_of("type,lat,lon,alt,dist,speed,slope").len(), 0);
    assert_eq!(rows_of("").len(), 0);
}

#[test]
fn empty_speed_field_is_dropped() {
    assert_eq!(rows_of("T,lat,lon,alt,dist,,-3.25").len(), 0);
    assert_eq!(rows_of("T,lat,lon,alt,dist,").len(), 0);
}

#[test]
fn short_row_is_dropped() {
    assert_eq!(rows_of("T,lat,lon,alt,dist").len(), 0);
    assert_eq!(rows_of("T").len(), 0);
}

#[test]
fn missing_slope_field_is_kept_as_absent() {
    let rows = rows_of("T,lat,lon,alt,dist,12.5");
    assert_eq!(rows.len(), 1);
    assert_eq!(rows[0].speed_field, b"12.5".to_vec());
    assert_eq!(rows[0].slope_field, None);
}

#[test]
fn extra_fields_are_ignored() {
    let rows = rows_of("T,lat,lon,alt,dist,12.5,-3.25,extra,more");
    assert_eq!(rows.len(), 1);
    assert_eq!(rows[0].speed_field, b"12.5".to_vec());
    assert_eq!(rows[0].slope_field, Some(b"-3.25".to_vec()));
}

#[test]
fn rows_keep_their_order() {
    let text = "header,a,b,c,d,e\nT,a,b,c,d,1.0,9.0\nX,a,b,c,d,2.0\nT,a,b,c,d,3.0\n";
    let rows = rows_of(text);
    assert_eq!(rows.len(), 2);
    assert_eq!(rows[0].speed_field, b"1.0".to_vec());
    assert_eq!(rows[0].slope_field, Some(b"9.0".to_vec()));
    assert_eq!(rows[1].speed_field, b"3.0".to_vec());
    assert_eq!(rows[1].slope_field, None);
}

#[test]
fn non_numeric_speed_drops_the_row() {
    // The caller found no number in the speed field and hands over None.
    assert_eq!(sample_from_row(None, Some(1.5f64.to_bits())), None);
    assert_eq!(sample_from_row(None, None), None);
}

#[test]
fn missing_slope_defaults_to_zero() {
    let sample = sample_from_row(Some(12.5f64.to_bits()), None);
    assert_eq!(sample, Some(TrackSample::new(12.5f64.to_bits(), 0.0f64.to_bits())));
    // The fallback bit pattern really is the zero slope.
    assert_eq!(0.0f64.to_bits(), 0u64);
}

#[test]
fn present_slope_is_kept() {
    let sample = sample_from_row(Some(12.5f64.to_bits()), Some((-3.25f64).to_bits()));
    assert_eq!(sample, Some(TrackSample::new(12.5f64.to_bits(), (-3.25f64).to_bits())));
}
