use raytracer::render::{row_bands, worker_bands, Band, PixelBuffer};
use raytracer::texture::{wrap, Texture};

fn covers(bands: &[Band], height: u32) -> bool {
    let mut next = 0u32;
    for b in bands {
        if b.start != next || b.start >= b.end {
            return false;
        }
        next = b.end;
    }
    next == height
}

#[test]
fn wrap_keeps_coordinates_in_range() {
    assert_eq!(wrap(3, 4), 3);
    assert_eq!(wrap(0, 4), 0);
    assert_eq!(wrap(4, 4), 0);
    assert_eq!(wrap(9, 4), 1);
}

#[test]
fn wrap_negative_coordinates() {
    assert_eq!(wrap(-1, 4), 3);
    assert_eq!(wrap(-4, 4), 0);
    assert_eq!(wrap(-5, 4), 3);
    assert_eq!(wrap(i32::MIN, 3), 1);
}

#[test]
fn wrap_large_bound() {
    assert_eq!(wrap(-1, u32::MAX), u32::MAX - 1);
    assert_eq!(wrap(i32::MAX, 1), 0);
}

#[test]
fn texture_rejects_bad_sizes() {
    assert!(Texture::new(0, 2, vec![]).is_none());
    assert!(Texture::new(2, 0, vec![]).is_none());
    assert!(Texture::new(2, 2, vec![0; 15]).is_none());
    assert!(Texture::new(2, 2, vec![0; 17]).is_none());
    let t = Texture::new(2, 2, vec![0; 16]).unwrap();
    assert_eq!((t.width(), t.height()), (2, 2));
}

#[test]
fn texture_lookup_wraps() {
    let bytes: Vec<u8> = (0..24).collect();
    let t = Texture::new(3, 2, bytes).unwrap();
    assert_eq!(t.texel_at(0, 0), [0, 1, 2, 3]);
    assert_eq!(t.texel_at(2, 1), [20, 21, 22, 23]);
    assert_eq!(t.texel_at(-1, 0), [8, 9, 10, 11]);
    assert_eq!(t.texel_at(4, -1), [16, 17, 18, 19]);
}

#[test]
fn bands_split_evenly() {
    let b = row_bands(10, 3);
    assert_eq!(b, vec![Band { start: 0, end: 4 }, Band { start: 4, end: 8 }, Band { start: 8, end: 10 }]);
    assert!(covers(&b, 10));
}

#[test]
fn bands_exact_division() {
    let b = row_bands(600, 4);
    assert_eq!(b.len(), 4);
    assert!(b.iter().all(|x| x.end - x.start == 150));
    assert!(covers(&b, 600));
}

#[test]
fn more_workers_than_rows() {
    let b = row_bands(3, 8);
    assert_eq!(b, vec![Band { start: 0, end: 1 }, Band { start: 1, end: 2 }, Band { start: 2, end: 3 }]);
}

#[test]
fn empty_image_has_no_bands() {
    assert!(row_bands(0, 4).is_empty());
    assert!(worker_bands(0).is_empty());
}

#[test]
fn one_worker_takes_everything() {
    assert_eq!(row_bands(u32::MAX, 1), vec![Band { start: 0, end: u32::MAX }]);
}

#[test]
fn machine_bands_cover_image() {
    let b = worker_bands(600);
    assert!(!b.is_empty());
    assert!(covers(&b, 600));
}

#[test]
fn pixel_buffer_starts_blank() {
    let p = PixelBuffer::new(3, 2);
    assert_eq!((p.width(), p.height()), (3, 2));
    assert_eq!(p.into_raw(), vec![0u8; 24]);
}

#[test]
fn pixel_buffer_put_and_get() {
    let mut p = PixelBuffer::new(3, 2);
    p.put_pixel(1, 1, [9, 8, 7, 255]);
    assert_eq!(p.get_pixel(1, 1), [9, 8, 7, 255]);
    assert_eq!(p.get_pixel(0, 0), [0, 0, 0, 0]);
    let raw = p.into_raw();
    assert_eq!(&raw[16..20], &[9, 8, 7, 255]);
    assert_eq!(raw.iter().filter(|&&x| x != 0).count(), 4);
}

#[test]
fn pixel_buffer_write_band() {
    let mut p = PixelBuffer::new(2, 3);
    let rows: Vec<u8> = (1..=8).collect();
    p.write_band(Band { start: 1, end: 2 }, &rows);
    assert_eq!(p.get_pixel(0, 1), [1, 2, 3, 4]);
    assert_eq!(p.get_pixel(1, 1), [5, 6, 7, 8]);
    let raw = p.into_raw();
    assert_eq!(&raw[0..8], &[0; 8]);
    assert_eq!(&raw[16..24], &[0; 8]);
}
