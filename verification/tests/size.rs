use shard::size::{format_size, round_half_even};

/// A size in words as floating-point numbers give it.
fn by_floats(bytes: u64) -> String {
    if bytes >= 1024 * 1024 {
        format!("{:.1} MB", bytes as f64 / (1024.0 * 1024.0))
    } else if bytes >= 1024 {
        format!("{:.0} KB", bytes as f64 / 1024.0)
    } else {
        format!("{bytes} B")
    }
}

#[test]
fn sizes_are_put_in_words() {
    assert_eq!(format_size(0), "0 B");
    assert_eq!(format_size(1023), "1023 B");
    assert_eq!(format_size(1024), "1 KB");
    assert_eq!(format_size(1_048_575), "1024 KB");
    assert_eq!(format_size(1_048_576), "1.0 MB");
    assert_eq!(format_size(1_572_864), "1.5 MB");
    assert_eq!(format_size(10_000_000_000), "9536.7 MB");
}

#[test]
fn sizes_agree_with_floating_point() {
    let mut n: u64 = 1;
    for i in 0..40_000u64 {
        assert_eq!(format_size(i), by_floats(i), "{i}");
        let m = 1_048_576 + i * 26_214 + i % 7;
        assert_eq!(format_size(m), by_floats(m), "{m}");
        n = n.wrapping_mul(6364136223846793005).wrapping_add(1442695040888963407);
        for k in [n, n >> 8, n >> 11, n >> 20, n >> 40, n << 12] {
            assert_eq!(format_size(k), by_floats(k), "{k}");
        }
    }
    for shift in 0..64 {
        for d in [0, 1, 2, 3] {
            let k = (1u64 << shift).wrapping_sub(2).wrapping_add(d);
            assert_eq!(format_size(k), by_floats(k), "{k}");
        }
    }
    assert_eq!(format_size(u64::MAX), by_floats(u64::MAX));
}

#[test]
fn halves_go_to_the_even_number() {
    assert_eq!(round_half_even(5, 2), 2);
    assert_eq!(round_half_even(7, 2), 4);
    assert_eq!(round_half_even(1536, 1024), 2);
    assert_eq!(round_half_even(2560, 1024), 2);
    assert_eq!(round_half_even(10, 3), 3);
    assert_eq!(round_half_even(11, 3), 4);
}
