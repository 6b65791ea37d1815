use arlen_comp::golden::{assert_or_write_golden, compare_to_golden, GoldenError, GoldenMismatch};

#[test]
fn identical_pixels_match_exactly() {
    let px = vec![255u8, 0, 0, 255, 10, 20, 30, 40];
    assert_eq!(compare_to_golden(&px, &px, 2, 1, 0), Ok(()));
}

#[test]
fn differences_within_tolerance_match() {
    let golden = vec![250u8, 5, 5, 255];
    let rendered = vec![255u8, 0, 0, 250];
    assert_eq!(compare_to_golden(&golden, &rendered, 1, 1, 5), Ok(()));
}

#[test]
fn the_first_byte_outside_tolerance_is_reported() {
    let golden = vec![0u8, 10, 200, 7];
    let rendered = vec![0u8, 13, 100, 0];
    assert_eq!(
        compare_to_golden(&golden, &rendered, 1, 1, 2),
        Err(GoldenMismatch::Pixel { index: 1, golden: 10, rendered: 13, tolerance: 2 })
    );
    assert_eq!(
        compare_to_golden(&golden, &rendered, 1, 1, 3),
        Err(GoldenMismatch::Pixel { index: 2, golden: 200, rendered: 100, tolerance: 3 })
    );
}

#[test]
fn a_size_mismatch_comes_first() {
    let golden = vec![0u8; 8];
    let rendered = vec![9u8; 4];
    assert_eq!(
        compare_to_golden(&golden, &rendered, 1, 1, 0),
        Err(GoldenMismatch::Size { golden_len: 8, rendered_len: 4, width: 1, height: 1 })
    );
}

fn recorded(pixels: &[u8], width: u32, height: u32) -> Vec<u8> {
    match assert_or_write_golden(None, pixels, width, height, 0) {
        Ok(Some(png)) => png,
        other => panic!("expected a golden to record, got {other:?}"),
    }
}

#[test]
fn a_missing_golden_is_recorded_as_png() {
    let px = vec![255u8, 0, 0, 255, 0, 255, 0, 128];
    let png = recorded(&px, 2, 1);
    assert_eq!(&png[..8], &[0x89, b'P', b'N', b'G', 0x0d, 0x0a, 0x1a, 0x0a]);
    assert_ne!(png, px);
}

#[test]
fn a_recorded_golden_matches_its_own_rendering() {
    let px: Vec<u8> = (0..48u32).map(|i| (i * 5) as u8).collect();
    let png = recorded(&px, 4, 3);
    assert_eq!(assert_or_write_golden(Some(png.as_slice()), &px, 4, 3, 0), Ok(None));
}

#[test]
fn a_recorded_golden_reports_the_first_differing_byte() {
    let px = vec![10u8, 20, 30, 255, 40, 50, 60, 255];
    let png = recorded(&px, 2, 1);
    let mut other = px.clone();
    other[5] = 58;
    other[6] = 61;
    assert_eq!(
        assert_or_write_golden(Some(png.as_slice()), &other, 2, 1, 1),
        Err(GoldenError::Mismatch(GoldenMismatch::Pixel {
            index: 5,
            golden: 50,
            rendered: 58,
            tolerance: 1
        }))
    );
    assert_eq!(assert_or_write_golden(Some(png.as_slice()), &other, 2, 1, 8), Ok(None));
}

#[test]
fn a_golden_of_another_size_is_a_size_mismatch() {
    let png = recorded(&[1u8, 2, 3, 4], 1, 1);
    let px = vec![1u8, 2, 3, 4, 1, 2, 3, 4];
    assert_eq!(
        assert_or_write_golden(Some(png.as_slice()), &px, 2, 1, 0),
        Err(GoldenError::Mismatch(GoldenMismatch::Size {
            golden_len: 4,
            rendered_len: 8,
            width: 2,
            height: 1
        }))
    );
}

#[test]
fn a_file_that_is_not_png_does_not_decode() {
    let px = vec![0u8; 4];
    assert_eq!(assert_or_write_golden(Some(&b"not a png"[..]), &px, 1, 1, 0), Err(GoldenError::Decode));
    assert_eq!(assert_or_write_golden(Some(px.as_slice()), &px, 1, 1, 0), Err(GoldenError::Decode));
}

#[test]
fn pixels_of_the_wrong_length_do_not_encode() {
    assert_eq!(assert_or_write_golden(None, &[0u8; 5], 1, 1, 0), Err(GoldenError::Encode));
    assert_eq!(assert_or_write_golden(None, &[], 0, 0, 0), Err(GoldenError::Encode));
}
