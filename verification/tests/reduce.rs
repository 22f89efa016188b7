//! Tests for the raster aggregate and the reduction driver.

use seamstress::OpenImage;
use seamstress::CarveError;
use seamstress::Config;

/// A deterministic raster with enough variation to give distinct energies.
fn varied_raster(w: usize, h: usize) -> Vec<Vec<[u8; 3]>> {
    let mut raster = Vec::new();
    for r in 0..h {
        let mut row = Vec::new();
        for c in 0..w {
            row.push([
                ((r * 31 + c * 17) % 256) as u8,
                ((r * 7 + c * 3) % 256) as u8,
                ((c * 53 + r * 11) % 256) as u8,
            ]);
        }
        raster.push(row);
    }
    raster
}

#[test]
fn config_accepts_percentage() {
    let config = Config::new(String::from("images/picture.jpg"), 40).unwrap();
    assert_eq!(config.img_path, "images/picture.jpg");
    assert_eq!(config.reduce_by, 40);
}

#[test]
fn config_rejects_fraction_over_100() {
    let res = Config::new(String::from("images/picture.jpg"), 101);
    assert!(matches!(res, Err(CarveError::InvalidInput)));
}

#[test]
fn open_image_measures_raster() {
    let img = OpenImage::new(varied_raster(7, 4)).unwrap();
    assert_eq!(img.dims, (7, 4));
    assert_eq!(img.buffer.len(), 4);
    assert_eq!(img.buffer[0].len(), 7);
}

#[test]
fn open_image_rejects_ragged_raster() {
    let mut raster = varied_raster(5, 3);
    raster[1].pop();
    let res = OpenImage::new(raster);
    assert!(matches!(res, Err(CarveError::InvalidInput)));
}

#[test]
fn open_image_rejects_empty_raster() {
    assert!(matches!(OpenImage::new(Vec::new()), Err(CarveError::InvalidInput)));
    assert!(matches!(OpenImage::new(vec![Vec::new()]), Err(CarveError::InvalidInput)));
}

#[test]
fn seam_spans_every_row_and_is_connected() {
    let img = OpenImage::new(varied_raster(5, 4)).unwrap();
    let seam = img.find_vertical_seam();
    assert_eq!(seam.len(), 4);
    for (r, &(col, row)) in seam.iter().enumerate() {
        assert_eq!(row, r as u32);
        assert!(col < 5);
    }
    for pair in seam.windows(2) {
        let a = pair[0].0 as i64;
        let b = pair[1].0 as i64;
        assert!((a - b).abs() <= 1);
    }
}

#[test]
fn removing_seam_keeps_rows_equal() {
    let mut img = OpenImage::new(varied_raster(6, 4)).unwrap();
    let seam = img.find_vertical_seam();
    img.remove_vertical_seam(seam);
    assert_eq!(img.dims, (5, 4));
    for row in &img.buffer {
        assert_eq!(row.len(), 5);
    }
}

#[test]
fn reduce_by_zero_returns_raster_unchanged() {
    let raster = varied_raster(6, 3);
    let img = OpenImage::new(raster.clone()).unwrap();
    let out = img.reduce(0).unwrap();
    assert_eq!(out.buffer, raster);
    assert_eq!(out.dims, (6, 3));
}

#[test]
fn reduce_shrinks_width_keeps_height() {
    let img = OpenImage::new(varied_raster(6, 3)).unwrap();
    // floor(6 * 50 / 100) = 3 seams.
    let out = img.reduce(50).unwrap();
    assert_eq!(out.dims, (3, 3));
    assert_eq!(out.buffer.len(), 3);
    for row in &out.buffer {
        assert_eq!(row.len(), 3);
    }
}

#[test]
fn reduce_clips_at_carving_floor() {
    let img = OpenImage::new(varied_raster(4, 3)).unwrap();
    // floor(4 * 100 / 100) = 4 seams requested, but only 2 can go before the
    // raster falls below the floor.
    let out = img.reduce(100).unwrap();
    assert_eq!(out.dims, (2, 3));
}

#[test]
fn reduce_rejects_fraction_over_100() {
    let img = OpenImage::new(varied_raster(6, 3)).unwrap();
    assert!(matches!(img.reduce(101), Err(CarveError::InvalidInput)));
}

#[test]
fn reduce_rejects_narrow_raster() {
    let img = OpenImage::new(varied_raster(2, 3)).unwrap();
    assert!(matches!(img.reduce(10), Err(CarveError::InvalidInput)));
}

#[test]
fn reduce_rejects_short_raster() {
    let img = OpenImage::new(varied_raster(6, 1)).unwrap();
    assert!(matches!(img.reduce(10), Err(CarveError::InvalidInput)));
}

#[test]
fn reduce_twice_equals_reduce_once() {
    // floor(10 * 10 / 100) = 1 seam, then floor(9 * 23 / 100) = 2 seams,
    // against floor(10 * 30 / 100) = 3 seams in one run.
    let raster = varied_raster(10, 4);
    let twice = OpenImage::new(raster.clone())
        .unwrap()
        .reduce(10)
        .unwrap()
        .reduce(23)
        .unwrap();
    let once = OpenImage::new(raster).unwrap().reduce(30).unwrap();
    assert_eq!(twice.dims, (7, 4));
    assert_eq!(once.dims, (7, 4));
    assert_eq!(twice.buffer, once.buffer);
}
