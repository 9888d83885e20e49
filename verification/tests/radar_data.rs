use std::io::Cursor;
use std::sync::Arc;
use std::time::Duration;

use front::dbz::{code_to_dbz, dbz_bands, dbz_to_code, dbz_to_color, DbzError, DBZ_UNIT};
use front::double::Double;
use front::download::{
    boundary_slot, classify_head, frame_list, retry_after, s3_key, s3_url, Answer, Download,
    DownloadStep, Probe, ProbeCache, DOWNLOAD_ATTEMPTS, DOWNLOAD_RETRY_BASE, MAX_RETRY_AFTER,
    MISSING_RETRY, PROBE_CACHE_MAX, TRANSIENT_RETRY_SECS,
};
use front::frd::{decode_frd, encode_frd, join_frd, FrdError, RadarGrid};
use front::directory::has_moderate_size;
use front::geotiff::{
    grid_of_parts, parse_geotiff, GeotiffError, Pixels, TagNumber, TiffParts,
};
use front::retry::RetryPolicy;
use front::store::{
    cached_timestamps, convert, frame_file, is_legacy_tiff, ConvertError, Corners, FieldStep,
    FieldStore, RadarField, WarmStep, MAX_CACHED_GRIDS,
};
use tiff::encoder::colortype::{Gray32Float, Gray8, GrayI16};
use tiff::encoder::TiffEncoder;
use tiff::tags::Tag;

fn d(x: f64) -> Double {
    Double::from_bits(x.to_bits())
}

fn f(x: Double) -> f64 {
    f64::from_bits(x.bits)
}

fn encode(v: f32) -> Result<u8, DbzError> {
    dbz_to_code(d(v as f64))
}

const MIN_DBZ: f32 = 1.0;

#[test]
fn every_opera_dbz_step_round_trips_exactly() {
    for code in 1..=255u8 {
        let dbz = code_to_dbz(code).expect("non-zero code has a value");
        assert_eq!(dbz_to_code(dbz).unwrap(), code, "dBZ {} lost its code", f(dbz));
        assert_eq!(f(dbz), -32.0 + (code as f64 - 1.0) * 0.5);
    }
    assert_eq!(code_to_dbz(0), None, "code 0 is no-data");
}

#[test]
fn nodata_and_sentinel_encode_to_the_nodata_code() {
    assert_eq!(encode(f32::NAN).unwrap(), 0);
    assert_eq!(encode(-9_999_000.0).unwrap(), 0);
    assert_eq!(encode(f32::NEG_INFINITY).unwrap(), 0);
}

#[test]
fn off_grid_values_fail_loudly_rather_than_rounding() {
    assert!(encode(10.25).is_err(), "off-grid value must be rejected");
    assert!(encode(200.0).is_err());
}

#[test]
fn sub_floor_values_become_nodata_rather_than_failing_the_frame() {
    for v in [-32.5_f32, -35.0, -100.0] {
        assert_eq!(
            encode(v).expect("must not fail the frame"),
            0,
            "{v} dBZ should read as undetect"
        );
    }
    assert_eq!(encode(-32.0).unwrap(), 1);
}

#[test]
fn one_sub_floor_pixel_does_not_abort_the_grid() {
    let mut values = vec![10.0_f32; 64];
    values[37] = -35.0;
    let codes: Result<Vec<u8>, DbzError> = values.iter().map(|&v| encode(v)).collect();
    let codes = codes.expect("grid with one sub-floor pixel must still encode");
    assert_eq!(codes[37], 0, "the outlier reads as undetect");
    assert!(codes.iter().filter(|&&c| c != 0).count() == 63);
}

#[test]
fn each_bad_value_has_its_error() {
    assert_ne!(encode(10.25).unwrap_err(), encode(200.0).unwrap_err());
    assert_eq!(encode(10.0005).unwrap(), encode(10.0).unwrap());
    assert_eq!(encode(f32::INFINITY).unwrap(), 0);
}

fn grid(codes: Vec<u8>, width: u32, height: u32) -> RadarGrid {
    RadarGrid {
        codes,
        width,
        height,
        tie_x: d(0.0),
        tie_y: d(0.0),
        scale_x: d(1000.0),
        scale_y: d(1000.0),
    }
}

#[test]
fn frd_round_trips_grid_and_geotransform() {
    let mut codes = vec![0u8; 64 * 32];
    for (i, c) in codes.iter_mut().enumerate() {
        *c = (i % 256) as u8;
    }
    let grid = RadarGrid {
        codes: codes.clone(),
        width: 64,
        height: 32,
        tie_x: d(-500.5),
        tie_y: d(500.25),
        scale_x: d(1000.0),
        scale_y: d(2000.0),
    };
    let encoded = encode_frd(&grid).expect("encode");
    let back = decode_frd(&encoded).expect("decode");
    assert_eq!(back.codes, codes);
    assert_eq!((back.width, back.height), (64, 32));
    assert_eq!(f(back.tie_x), -500.5);
    assert_eq!(f(back.tie_y), 500.25);
    assert_eq!(f(back.scale_x), 1000.0);
    assert_eq!(f(back.scale_y), 2000.0);
}

#[test]
fn frd_rejects_foreign_and_truncated_files() {
    assert!(decode_frd(b"II*\0garbage").is_err());
    assert!(decode_frd(b"").is_err());
    let small = RadarGrid {
        codes: vec![7u8; 16],
        width: 4,
        height: 4,
        tie_x: d(0.0),
        tie_y: d(0.0),
        scale_x: d(1.0),
        scale_y: d(1.0),
    };
    let mut enc = encode_frd(&small).unwrap();
    enc.truncate(enc.len() - 1);
    assert!(decode_frd(&enc).is_err(), "truncated payload must not decode");
}

#[test]
fn frd_payload_beats_the_source_geotiff_on_size() {
    let (w, h) = (3800u32, 4400u32);
    let mut codes = vec![0u8; (w * h) as usize];
    for row in 0..h as usize {
        for col in 0..w as usize {
            if (row / 40 + col / 40) % 7 == 0 {
                codes[row * w as usize + col] = 60 + (row % 32) as u8;
            }
        }
    }
    let grid = grid(codes, w, h);
    let encoded = encode_frd(&grid).expect("encode");
    assert!(
        encoded.len() < 2_800_000,
        "frd payload {} bytes should undercut the source geotiff",
        encoded.len()
    );
    assert_eq!(decode_frd(&encoded).unwrap().codes, grid.codes);
}

#[test]
fn each_bad_file_has_its_error() {
    assert_eq!(decode_frd(b"").unwrap_err(), FrdError::BadMagic);
    let enc = encode_frd(&grid(vec![7u8; 16], 4, 4)).unwrap();
    assert_eq!(&enc[0..4], b"FRD1");
    let mut broken = enc[..44].to_vec();
    broken.push(9);
    assert_eq!(decode_frd(&broken).unwrap_err(), FrdError::Decompress);
    let mut wider = enc.clone();
    wider[4] = 5;
    assert_eq!(decode_frd(&wider).unwrap_err(), FrdError::Length);
}

fn tiny_grid(fill: u8) -> RadarGrid {
    grid(vec![fill; 16], 4, 4)
}

#[test]
fn field_warm_serves_ram_frd_bytes_without_disk_or_network_and_never_redecodes() {
    let mut store = FieldStore::new();
    let grid = tiny_grid(42);
    store.keep_saved(1_000, encode_frd(&grid).expect("encode"));
    let field = store.field_warm(1_000).expect("bytes are warm in RAM");
    assert_eq!(field.grid.codes, grid.codes);
    let field2 = store.field_warm(1_000).expect("still warm");
    assert!(Arc::ptr_eq(&field.grid, &field2.grid), "a warm ts must not be redecoded");
    assert!(
        store.field_warm(999_999).is_none(),
        "a cold ts (no RAM bytes) has no synchronous fast path"
    );
}

#[test]
fn decoded_grid_lru_stays_bounded_while_frd_bytes_cover_the_whole_window() {
    let mut store = FieldStore::new();
    for ts in 0..5i64 {
        store.keep_saved(ts, encode_frd(&tiny_grid(ts as u8 + 1)).expect("encode"));
    }
    for ts in 0..5i64 {
        assert!(store.field_warm(ts).is_some(), "ts {ts} should decode");
    }
    assert_eq!(store.decoded_count(), MAX_CACHED_GRIDS);
    assert_eq!(store.warm_slots().len(), 5);
}

#[test]
fn prune_field_window_drops_frames_outside_the_keep_set() {
    let mut store = FieldStore::new();
    for ts in [100i64, 200, 300] {
        store.keep_saved(ts, Vec::new());
    }
    let keep = [100i64, 300];
    store.prune_field_window(&keep);
    let mut remaining = store.warm_slots();
    remaining.sort();
    assert_eq!(remaining, keep);
}

#[test]
fn field_is_warm_reflects_the_ram_byte_cache_only() {
    let mut store = FieldStore::new();
    assert!(!store.field_is_warm(5_000));
    store.keep_saved(5_000, Vec::new());
    assert!(store.field_is_warm(5_000));
}

#[test]
fn dbz_to_color_thresholds_map_to_expected_hues() {
    let (c, i) = dbz_to_color(d(2.0));
    assert!(c.b > c.r && c.b > c.g, "< 5 dBZ should be blue-dominant");
    assert!(i >= 1);
    let (c2, _) = dbz_to_color(d(10.0));
    assert!(c2.b > c2.r);
    let (c3, _) = dbz_to_color(d(20.0));
    assert!(c3.g > c3.r && c3.g > c3.b);
    let (c4, _) = dbz_to_color(d(52.0));
    assert!(c4.r > c4.b);
    let (c5, i5) = dbz_to_color(d(65.0));
    assert!(c5.r >= 128 && c5.g >= 128 && c5.b >= 128);
    assert_eq!(i5, 14, "intensity caps at 14");
}

#[test]
fn dbz_to_color_intensity_increases_with_dbz() {
    let (_, i_low) = dbz_to_color(d(5.0));
    let (_, i_high) = dbz_to_color(d(45.0));
    assert!(i_high > i_low, "higher dBZ must give higher intensity");
}

#[test]
fn dbz_bands_are_enumerable_with_unit_label() {
    assert_eq!(DBZ_UNIT, "dBZ");
    assert_eq!(dbz_bands().len(), 10, "one band per documented threshold");
    assert!(f(dbz_bands().last().unwrap().max).is_infinite(), "top band must be open-ended");
}

/// The mean of the cells around a place in linear reflectivity.
fn sample_at(field: &RadarField, cf: f64, rf: f64) -> Option<f32> {
    let k: Corners = field.corners(d(cf), d(rf))?;
    let z = |code: u8| match code_to_dbz(code) {
        Some(dbz) => 10f64.powf(f(dbz) / 10.0),
        None => 0.0,
    };
    let (fx, fy) = (cf - k.col as f64, rf - k.row as f64);
    let top = z(k.here) * (1.0 - fx) + z(k.right) * fx;
    let bottom = z(k.below) * (1.0 - fx) + z(k.across) * fx;
    let mean = top * (1.0 - fy) + bottom * fy;
    if mean <= 0.0 {
        return None;
    }
    let dbz = (10.0 * mean.log10()) as f32;
    (dbz >= MIN_DBZ).then_some(dbz)
}

fn field_row(codes: Vec<u8>) -> RadarField {
    let width = codes.len() as u32;
    RadarField { grid: Arc::new(grid(codes, width, 1)) }
}

#[test]
fn bilinear_interpolates_between_cells_in_linear_z() {
    let g = field_row(vec![105, 145]);
    assert!((sample_at(&g, 0.0, 0.0).unwrap() - 20.0).abs() < 0.01);
    assert!((sample_at(&g, 1.0, 0.0).unwrap() - 40.0).abs() < 0.01);
    let mid = sample_at(&g, 0.5, 0.0).unwrap() as f64;
    let expect = 10.0 * ((10f64.powi(2) + 10f64.powi(4)) / 2.0).log10();
    assert!((mid - expect).abs() < 0.05, "mid {mid} vs {expect}");
}

#[test]
fn bilinear_fades_into_no_data_instead_of_stepping() {
    let g = field_row(vec![0, 145]);
    assert_eq!(sample_at(&g, 0.0, 0.0), None);
    let mid = sample_at(&g, 0.5, 0.0).unwrap();
    assert!(mid > MIN_DBZ && mid < 40.0, "faded edge, got {mid}");
}

#[test]
fn places_off_the_grid_have_no_cells() {
    let g = RadarField { grid: Arc::new(grid(vec![1, 2, 3, 4, 5, 6], 3, 2)) };
    assert_eq!(
        g.corners(d(0.5), d(0.5)),
        Some(Corners { col: 0, row: 0, here: 1, right: 2, below: 4, across: 5 })
    );
    assert_eq!(
        g.corners(d(2.9), d(1.9)),
        Some(Corners { col: 2, row: 1, here: 6, right: 6, below: 6, across: 6 })
    );
    assert_eq!(g.corners(d(-0.1), d(0.0)), None);
    assert_eq!(g.corners(d(3.0), d(0.0)), None);
    assert_eq!(g.corners(d(0.0), d(f64::INFINITY)), None);
}

#[test]
fn retry_after_parses_delta_seconds() {
    assert_eq!(retry_after(Some("30")), Some(Duration::from_secs(30)));
    assert_eq!(retry_after(Some(" 7 ")), Some(Duration::from_secs(7)));
}

#[test]
fn retry_after_ignores_the_http_date_form() {
    assert_eq!(retry_after(Some("Wed, 21 Oct 2026 07:28:00 GMT")), None);
    assert_eq!(retry_after(Some("-5")), None);
    assert_eq!(retry_after(Some("99999999999999999999")), None);
}

#[test]
fn retry_after_absent_is_none() {
    assert_eq!(retry_after(None), None);
}

#[test]
fn transient_failures_are_retried_sooner_than_confirmed_absences() {
    assert!(
        TRANSIENT_RETRY_SECS * 1_000_000_000 < MISSING_RETRY,
        "an unreachable slot is likely present; a 404 slot is known not to be"
    );
}

#[test]
fn retry_after_is_capped() {
    let huge = Duration::from_secs(86_400);
    let cap = Duration::from_nanos(MAX_RETRY_AFTER);
    assert_eq!(huge.min(cap), cap);
    let mut dl = Download::new();
    match dl.answered(Answer::Status(503, Some(huge))) {
        DownloadStep::Retry(wait) => assert_eq!(wait, cap),
        other => panic!("expected a retry, got {other:?}"),
    }
}

#[test]
fn download_retry_sequence_matches_today() {
    let policy = RetryPolicy::new(
        Duration::from_nanos(DOWNLOAD_RETRY_BASE as u64),
        Duration::from_nanos(MAX_RETRY_AFTER),
        Some(DOWNLOAD_ATTEMPTS),
    );
    let mut delay = Duration::from_nanos(DOWNLOAD_RETRY_BASE as u64);
    assert_eq!(delay, Duration::from_millis(400));
    delay = policy.double(delay);
    assert_eq!(delay, Duration::from_millis(800));

    let mut dl = Download::new();
    assert!(matches!(
        dl.answered(Answer::Unreachable),
        DownloadStep::Retry(w) if w == Duration::from_millis(400)
    ));
    assert!(matches!(
        dl.answered(Answer::Broken),
        DownloadStep::Retry(w) if w == Duration::from_millis(800)
    ));
    assert!(matches!(dl.answered(Answer::Unreachable), DownloadStep::GiveUp));
}

#[test]
fn retry_after_redirects_the_doubling_baseline() {
    let mut dl = Download::new();
    assert!(matches!(
        dl.answered(Answer::Status(503, Some(Duration::from_secs(30)))),
        DownloadStep::Retry(w) if w == Duration::from_secs(30)
    ));
    match dl.answered(Answer::Unreachable) {
        DownloadStep::Retry(wait) => assert_eq!(
            wait,
            Duration::from_secs(60),
            "the sleep after a 30s Retry-After must be 60s, not the base sequence's 800ms"
        ),
        other => panic!("expected a retry, got {other:?}"),
    }
}

#[test]
fn an_image_that_is_not_published_is_not_asked_for_again() {
    let mut dl = Download::new();
    assert!(matches!(dl.answered(Answer::Status(404, None)), DownloadStep::NotPublished));
    assert!(matches!(dl.answered(Answer::Status(410, None)), DownloadStep::NotPublished));
    assert!(matches!(dl.answered(Answer::Image), DownloadStep::Done));
}

#[test]
fn answers_about_slots_are_remembered() {
    assert!(matches!(classify_head(Some(200), None), Probe::Exists));
    assert!(matches!(classify_head(Some(404), None), Probe::Absent));
    assert!(matches!(
        classify_head(Some(429), Some(Duration::from_secs(9))),
        Probe::Transient(w) if w == Duration::from_secs(9)
    ));
    assert!(matches!(
        classify_head(None, None),
        Probe::Transient(w) if w == Duration::from_secs(5)
    ));
    let mut cache = ProbeCache::new();
    assert_eq!(cache.known(300, 0), None);
    assert!(cache.record(300, Probe::Exists, 0));
    assert_eq!(cache.known(300, u64::MAX), Some(true));
    assert!(!cache.record(600, Probe::Absent, 0));
    assert_eq!(cache.known(600, MISSING_RETRY - 1), Some(false));
    assert_eq!(cache.known(600, MISSING_RETRY), None);
    cache.record(900, Probe::Transient(Duration::from_secs(86_400)), 0);
    assert_eq!(cache.known(900, MAX_RETRY_AFTER - 1), Some(false));
    assert_eq!(cache.known(900, MAX_RETRY_AFTER), None);
    for ts in 0..=PROBE_CACHE_MAX as i64 {
        cache.record(10_000 + ts, Probe::Exists, 0);
    }
    assert_eq!(cache.known(300, 0), None, "the record starts over when it is too large");
}

#[test]
fn a_published_boundary_slot_heads_the_list() {
    assert_eq!(boundary_slot(1_000), 900);
    assert_eq!(frame_list(1_000, 3, true)[0], 900);
    assert_eq!(frame_list(1_000, 3, false)[0], 600);
    assert_eq!(frame_list(1_000, 3, true).len(), 36);
}

#[test]
fn images_have_their_place_in_the_archive() {
    assert_eq!(
        s3_key(1_700_000_000),
        "2023/11/14/OPERA/COMP/OPERA@20231114T2213@0@DBZH.tiff"
    );
    assert_eq!(
        s3_url("https://s3.example", "bucket", 0),
        "https://s3.example/bucket/1970/01/01/OPERA/COMP/OPERA@19700101T0000@0@DBZH.tiff"
    );
    assert_eq!(s3_key(i64::MAX), s3_key(0));
    assert_eq!(
        s3_key(253_402_300_800),
        "10000/01/01/OPERA/COMP/OPERA@+100000101T0000@0@DBZH.tiff"
    );
    assert_eq!(s3_key(-62_198_755_140), "-001/01/01/OPERA/COMP/OPERA@-00010101T0001@0@DBZH.tiff");
}

#[test]
fn files_are_named_by_their_slots() {
    assert_eq!(frame_file(1_700_000_100), "1700000100.frd");
    assert_eq!(frame_file(-5), "-5.frd");
    let names: Vec<String> = ["1700000100.frd", "x.frd", "17.tiff", "-5.frd", "+1700000100.frd"]
        .iter()
        .map(|s| s.to_string())
        .collect();
    assert_eq!(cached_timestamps(&names), vec![1_700_000_100, -5]);
    assert!(is_legacy_tiff("17.tiff"));
    assert!(!is_legacy_tiff(".tiff"));
    assert!(!is_legacy_tiff("17.frd"));
}

fn geotiff(w: u32, h: u32, values: &[f32], tie: &[f64], scale: &[f64]) -> Vec<u8> {
    let mut out = Cursor::new(Vec::new());
    let mut encoder = TiffEncoder::new(&mut out).unwrap();
    let mut image = encoder.new_image::<Gray32Float>(w, h).unwrap();
    image.encoder().write_tag(Tag::ModelTiepointTag, tie).unwrap();
    image.encoder().write_tag(Tag::ModelPixelScaleTag, scale).unwrap();
    image.write_data(values).unwrap();
    out.into_inner()
}

const TIE: [f64; 6] = [0.0, 0.0, 0.0, -500.5, 499.5, 0.0];
const SCALE: [f64; 3] = [1000.0, -2000.0, 0.0];

#[test]
fn an_image_becomes_a_grid() {
    let values = [10.0, 10.5, -32.0, -9_999_000.0, f32::NAN, -35.0];
    let grid = parse_geotiff(&geotiff(3, 2, &values, &TIE, &SCALE)).unwrap();
    assert_eq!((grid.width, grid.height), (3, 2));
    assert_eq!(grid.codes, vec![85, 86, 1, 0, 0, 0]);
    assert_eq!((f(grid.tie_x), f(grid.tie_y)), (-500.5, 499.5));
    assert_eq!((f(grid.scale_x), f(grid.scale_y)), (1000.0, 2000.0));
}

#[test]
fn each_bad_image_has_its_error() {
    assert_eq!(parse_geotiff(b"no image").unwrap_err(), GeotiffError::NotTiff);
    let bad = geotiff(1, 1, &[10.25], &TIE, &SCALE);
    assert!(matches!(parse_geotiff(&bad).unwrap_err(), GeotiffError::Value(_)));
    let short = geotiff(1, 1, &[10.0], &TIE[..3], &SCALE);
    assert_eq!(parse_geotiff(&short).unwrap_err(), GeotiffError::NoTiepoint);
    let mut out = Cursor::new(Vec::new());
    TiffEncoder::new(&mut out).unwrap().write_image::<Gray32Float>(1, 1, &[1.0]).unwrap();
    assert_eq!(parse_geotiff(&out.into_inner()).unwrap_err(), GeotiffError::NoTiepoint);
    let mut out = Cursor::new(Vec::new());
    {
        let mut encoder = TiffEncoder::new(&mut out).unwrap();
        let mut image = encoder.new_image::<Gray8>(1, 1).unwrap();
        image.encoder().write_tag(Tag::ModelTiepointTag, &TIE[..]).unwrap();
        image.encoder().write_tag(Tag::ModelPixelScaleTag, &SCALE[..]).unwrap();
        image.write_data(&[1]).unwrap();
    }
    assert_eq!(parse_geotiff(&out.into_inner()).unwrap_err(), GeotiffError::UnsupportedType);
}

/// A classic file with one directory that holds numbers of type LONG.
fn directory(entries: &[(u16, u32)]) -> Vec<u8> {
    let mut out = b"II*\0\x08\0\0\0".to_vec();
    out.extend((entries.len() as u16).to_le_bytes());
    for (tag, value) in entries {
        out.extend(tag.to_le_bytes());
        out.extend(4u16.to_le_bytes());
        out.extend(1u32.to_le_bytes());
        out.extend(value.to_le_bytes());
    }
    out.extend([0; 4]);
    out
}

/// The same, most significant bytes first and with places of 64 bits.
fn wide_directory(entries: &[(u16, u64)]) -> Vec<u8> {
    let mut out = b"MM\0\x2b\0\x08\0\0".to_vec();
    out.extend(16u64.to_be_bytes());
    out.extend((entries.len() as u64).to_be_bytes());
    for (tag, value) in entries {
        out.extend(tag.to_be_bytes());
        out.extend(16u16.to_be_bytes());
        out.extend(1u64.to_be_bytes());
        out.extend(value.to_be_bytes());
    }
    out.extend([0; 8]);
    out
}

#[test]
fn an_image_that_announces_too_much_is_not_read() {
    // One row per strip, a plane per value: 2^17 times 2^15 strips.
    let strips = |height: u32, samples: u32| {
        directory(&[
            (256, 1),
            (257, height),
            (258, 16),
            (262, 1),
            (273, 8),
            (277, samples),
            (278, 1),
            (279, 2),
            (284, 2),
        ])
    };
    assert_eq!(parse_geotiff(&strips(1 << 17, 1 << 15)).unwrap_err(), GeotiffError::TooLarge);
    assert_eq!(parse_geotiff(&strips(1 << 17, 2)).unwrap_err(), GeotiffError::NotTiff);
    assert!(has_moderate_size(&strips(0x7fff_ffff, 1)));
    assert!(!has_moderate_size(&strips(0x8000_0000, 1)));
    assert!(has_moderate_size(&strips(0x8000_0000, 0)));
    assert!(!has_moderate_size(&wide_directory(&[(256, 1 << 32), (257, 1)])));
    assert!(has_moderate_size(&wide_directory(&[(256, 1 << 32), (256, 9), (257, 1)])));
    let tiles = wide_directory(&[(256, 0xffff_ffff), (257, 0xffff_ffff), (322, 1), (323, 1)]);
    assert_eq!(parse_geotiff(&tiles).unwrap_err(), GeotiffError::TooLarge);
    let good = geotiff(3, 2, &[10.0; 6], &TIE, &SCALE);
    assert!(has_moderate_size(&good) && has_moderate_size(&good[..20]) && has_moderate_size(b""));
}

#[test]
fn integer_images_are_read_too() {
    let mut out = Cursor::new(Vec::new());
    {
        let mut encoder = TiffEncoder::new(&mut out).unwrap();
        let mut image = encoder.new_image::<GrayI16>(2, 1).unwrap();
        image.encoder().write_tag(Tag::ModelTiepointTag, &TIE[..]).unwrap();
        image.encoder().write_tag(Tag::ModelPixelScaleTag, &SCALE[..]).unwrap();
        image.write_data(&[20, -32]).unwrap();
    }
    assert_eq!(parse_geotiff(&out.into_inner()).unwrap().codes, vec![105, 1]);
}

fn parts(pixels: Option<Option<Vec<f32>>>, samples: Option<u16>, planar: Option<u16>) -> TiffParts {
    TiffParts {
        size: Some((2, 1)),
        tiepoint: Some(Some(TIE.iter().map(|x| TagNumber::Double(x.to_bits())).collect())),
        pixel_scale: Some(Some(SCALE.iter().map(|x| TagNumber::Double(x.to_bits())).collect())),
        pixels: pixels.map(|o| match o {
            Some(v) => Pixels::Singles(v.iter().map(|x| x.to_bits()).collect()),
            None => Pixels::Other,
        }),
        samples,
        planar,
    }
}

#[test]
fn interleaved_values_are_skipped() {
    let v = vec![10.0, 99.25, 11.0, 99.25];
    let chunky = grid_of_parts(&parts(Some(Some(v.clone())), Some(2), Some(1))).unwrap();
    assert_eq!(chunky.codes, vec![85, 87]);
    let planes = grid_of_parts(&parts(Some(Some(vec![10.0, 11.0])), Some(2), Some(2))).unwrap();
    assert_eq!(planes.codes, vec![85, 87]);
    assert_eq!(
        grid_of_parts(&parts(Some(Some(v[..3].to_vec())), Some(2), None)).unwrap_err(),
        GeotiffError::TooFewValues
    );
    assert_eq!(grid_of_parts(&parts(None, None, None)).unwrap_err(), GeotiffError::Unreadable);
    let mut no_scale = parts(Some(Some(vec![10.0, 11.0])), None, None);
    no_scale.pixel_scale = Some(None);
    assert_eq!(grid_of_parts(&no_scale).unwrap_err(), GeotiffError::NoPixelScale);
}

#[test]
fn a_fetched_frame_is_at_hand_from_then_on() {
    let tiff = geotiff(2, 1, &[10.0, 10.5], &TIE, &SCALE);
    let mut store = FieldStore::new();
    assert!(matches!(store.field(300), FieldStep::ReadDisk));
    assert!(matches!(store.field_from_disk(300, None), FieldStep::Fetch));
    let (field, bytes) = store.field_from_image(300, &tiff).unwrap();
    assert_eq!(field.grid.codes, vec![85, 86]);
    let other = store.warm_from_image(600, &tiff).unwrap();
    assert_eq!(other, bytes);
    assert!(matches!(store.field(600), FieldStep::Ready(_)));
    let mut fresh = FieldStore::new();
    match fresh.field_from_disk(300, Some(bytes)) {
        FieldStep::Ready(f) => assert_eq!(f.grid.codes, vec![85, 86]),
        other => panic!("expected the grid, got {other:?}"),
    }
    assert!(matches!(fresh.field_from_disk(600, Some(vec![1, 2, 3])), FieldStep::Refetch));
    assert!(!fresh.field_is_warm(600));
    fresh.keep_saved(900, vec![0]);
    assert!(matches!(fresh.field(900), FieldStep::Refetch));
    assert!(!fresh.field_is_warm(900));
    assert!(matches!(convert(b"nothing"), Err(ConvertError::Image(GeotiffError::NotTiff))));
}

#[test]
fn bytes_are_warmed_from_memory_disk_and_network_in_turn() {
    let mut store = FieldStore::new();
    assert_eq!(store.warm(300), WarmStep::ReadDisk);
    assert_eq!(store.warm_from_disk(300, None), WarmStep::Fetch);
    assert_eq!(store.warm(300), WarmStep::ReadDisk);
    assert_eq!(store.warm_from_disk(300, Some(vec![1, 2])), WarmStep::Ready);
    assert_eq!(store.warm(300), WarmStep::Ready);
    assert!(store.field_is_warm(300));
}

#[test]
fn tags_come_in_many_types() {
    let mut p = parts(Some(Some(vec![10.0, f32::NAN])), None, None);
    let zero = TagNumber::Double(0);
    p.tiepoint = Some(Some(vec![zero, zero, zero, TagNumber::Signed(-7), TagNumber::Other, zero]));
    p.pixel_scale =
        Some(Some(vec![TagNumber::Single((-2.5f32).to_bits()), TagNumber::Unsigned(2000)]));
    let grid = grid_of_parts(&p).unwrap();
    assert_eq!((f(grid.tie_x), f(grid.tie_y)), (-7.0, 0.0));
    assert_eq!((f(grid.scale_x), f(grid.scale_y)), (2.5, 2000.0));
    assert_eq!(grid.codes, vec![85, 0]);
    p.pixels = Some(Pixels::Unsigned(vec![0, 95]));
    assert_eq!(grid_of_parts(&p).unwrap().codes, vec![65, 255]);
    p.pixels = Some(Pixels::Signed(vec![-32, -100]));
    assert_eq!(grid_of_parts(&p).unwrap().codes, vec![1, 0]);
    p.pixels = Some(Pixels::Other);
    assert_eq!(grid_of_parts(&p).unwrap_err(), GeotiffError::UnsupportedType);
}

#[test]
fn a_grid_is_saved_behind_its_header() {
    let g = grid(vec![7u8; 16], 4, 4);
    let bytes = join_frd(&g, Some(vec![1, 2, 3])).unwrap();
    assert_eq!(bytes.len(), 47);
    assert_eq!(&bytes[..12], &[0x46, 0x52, 0x44, 0x31, 4, 0, 0, 0, 4, 0, 0, 0]);
    assert_eq!(&bytes[44..], &[1, 2, 3]);
    assert_eq!(join_frd(&g, None).unwrap_err(), FrdError::Compress);
}
