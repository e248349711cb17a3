use shard::encode::{
    adaptive_page, decode_webp_to_rgba, decoded_pixels, encode_page_to_webp, encoded_page,
    page_pixels, rgb_pixels, QualitySearch, MAX_PROBES,
};
use shard::error::AppError;
use shard::render::PageData;

fn page(width: u32, height: u32) -> PageData {
    let mut rgba_data = Vec::new();
    for y in 0..height {
        for x in 0..width {
            rgba_data.extend_from_slice(&[(x * 7) as u8, (y * 5) as u8, (x * y) as u8, 255]);
        }
    }
    PageData { page_num: 1, rgba_data, width, height }
}

#[test]
fn a_page_is_encoded_as_webp() {
    let p = page(32, 16);
    let w = encode_page_to_webp(&p, b"/o/page-001.webp", 80).unwrap().unwrap();
    assert_eq!(w.path, b"/o/page-001.webp");
    assert_eq!(w.temp_path, b"/o/page-001.webp.tmp");
    assert_eq!(&w.bytes[0..4], b"RIFF");
    assert_eq!(&w.bytes[8..12], b"WEBP");
    assert_ne!(w.bytes, p.rgba_data);
    let expected = webp::Encoder::from_rgba(&p.rgba_data, 32, 16).encode(80.0).to_vec();
    assert_eq!(w.bytes, expected);
}

#[test]
fn quality_changes_the_image() {
    let p = page(64, 64);
    let low = encode_page_to_webp(&p, b"/o/p.webp", 10).unwrap().unwrap();
    let high = encode_page_to_webp(&p, b"/o/p.webp", 95).unwrap().unwrap();
    assert!(low.bytes.len() < high.bytes.len());
}

#[test]
fn short_buffers_are_refused() {
    let mut p = page(4, 4);
    p.rgba_data.pop();
    assert!(matches!(
        encode_page_to_webp(&p, b"/o/p.webp", 80),
        Err(AppError::Webp(t)) if t == "Bad buffer 4x4"
    ));
    assert!(matches!(page_pixels(&p), Err(AppError::Webp(t)) if t == "Bad image buffer"));
}

#[test]
fn of_some_pages_the_encoder_makes_nothing() {
    let p = PageData { page_num: 1, rgba_data: vec![], width: 0, height: 0 };
    assert!(matches!(encode_page_to_webp(&p, b"/o/p.webp", 80), Ok(None)));
    assert!(matches!(encode_page_to_webp(&page(4, 4), b"/o/p.webp", 101), Ok(None)));
    assert!(encoded_page(b"/o/p.webp", None).is_none());
    let w = encoded_page(b"/o/p.webp", Some(vec![1, 2])).unwrap();
    assert_eq!((w.path.as_slice(), w.bytes), (b"/o/p.webp".as_slice(), vec![1, 2]));
}

#[test]
fn pixels_come_back_from_an_image() {
    let p = page(24, 8);
    assert_eq!(page_pixels(&p).unwrap(), p.rgba_data);
    let bytes = encode_page_to_webp(&p, b"/o/p.webp", 90).unwrap().unwrap().bytes;
    let pixels = decode_webp_to_rgba(&bytes).unwrap();
    assert_eq!(pixels.len(), 24 * 8 * 4);
    assert_ne!(pixels, bytes);
    let far = pixels.iter().zip(&p.rgba_data).filter(|(a, b)| a.abs_diff(**b) > 60).count();
    assert!(far < pixels.len() / 10);
}

#[test]
fn what_is_no_image_is_not_decoded() {
    assert!(matches!(
        decode_webp_to_rgba(b"not an image"),
        Err(AppError::Webp(t)) if t == "Failed to decode WebP for verification"
    ));
    assert!(matches!(decoded_pixels(None), Err(AppError::Webp(_))));
    assert_eq!(decoded_pixels(Some(vec![3])).unwrap(), vec![3]);
}

#[test]
fn colours_are_taken_without_opacity() {
    assert_eq!(rgb_pixels(&[1, 2, 3, 4, 5, 6, 7, 8, 9]), vec![[1, 2, 3], [5, 6, 7]]);
    assert_eq!(rgb_pixels(&[1, 2, 3]), Vec::<[u8; 3]>::new());
}

/// The search as floating-point numbers do it.
fn search_by_floats(min: f32, max: f32, meets: &dyn Fn(f32) -> bool) -> (f32, u32) {
    let (mut lo, mut hi, mut best, mut tried) = (min, max, max, 0);
    for _ in 0..6 {
        let mid = (lo + hi) / 2.0;
        if (hi - lo) < 2.0 {
            break;
        }
        tried += 1;
        if meets(mid) {
            best = mid;
            hi = mid;
        } else {
            lo = mid;
        }
    }
    (best, tried)
}

fn run(min: u8, max: u8, meets: &dyn Fn(f32) -> bool) -> (f32, u32) {
    let mut s = QualitySearch::new(min, max);
    while let Some(q) = s.next_probe() {
        s.record(meets(q as f32 / 64.0));
    }
    (s.best as f32 / 64.0, s.probes)
}

#[test]
fn the_search_is_that_of_floating_point() {
    for (min, max) in [(40u8, 95u8), (0, 255), (0, 100), (50, 51), (95, 40), (60, 60), (40, 42)] {
        for step in 0..200 {
            let bound = step as f32 * 1.3;
            let meets = move |q: f32| q >= bound;
            let odd = move |q: f32| ((q * 64.0) as u32 + step) % 3 == 0;
            assert_eq!(run(min, max, &meets), search_by_floats(min as f32, max as f32, &meets));
            assert_eq!(run(min, max, &odd), search_by_floats(min as f32, max as f32, &odd));
        }
    }
}

#[test]
fn the_search_finds_the_lowest_quality_within_two() {
    for bound in 40..=95 {
        let (best, probes) = run(40, 95, &|q| q >= bound as f32);
        assert!(probes <= MAX_PROBES);
        assert!(best >= bound as f32 && best < bound as f32 + 2.0);
    }
    assert_eq!(run(40, 95, &|_| false).0, 95.0);
}

#[test]
fn a_searched_page_is_written_with_its_numbers() {
    let mut s = QualitySearch::new(40, 95);
    s.record(true);
    let (w, stats) = adaptive_page(b"/o/page-002.webp", &s, vec![9; 3000], Some(7));
    assert_eq!(w.bytes.len(), 3000);
    assert_eq!(w.path, b"/o/page-002.webp");
    assert_eq!(w.temp_path, b"/o/page-002.webp.tmp");
    assert_eq!(stats.quality_used as f32 / 64.0, 67.5);
    assert_eq!((stats.ssimulacra2_score, stats.file_size), (7, 3000));
    let (_, stats) = adaptive_page(b"/o/p.webp", &s, vec![], None);
    assert_eq!(f64::from_bits(stats.ssimulacra2_score), 0.0);
}
