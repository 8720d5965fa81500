use nls::size::human_readable_size;

/// The same text computed with double-precision arithmetic.
fn with_doubles(size: u64) -> String {
    let mut value = size as f64;
    let mut unit = "B";
    for next in ["K", "M", "G", "T", "P"] {
        if value > 1024.0 {
            value /= 1024.0;
            unit = next;
        }
    }
    format!("{:.2}{}", value, unit)
}

#[test]
fn size_zero_is_bytes() {
    assert_eq!(human_readable_size(0), "0.00B");
}

#[test]
fn size_of_exactly_1024_stays_in_bytes() {
    assert_eq!(human_readable_size(1024), "1024.00B");
}

#[test]
fn size_of_1025_is_promoted() {
    assert_eq!(human_readable_size(1025), "1.00K");
}

#[test]
fn size_of_exactly_1024_kib_stays_in_kib() {
    assert_eq!(human_readable_size(1048576), "1024.00K");
    assert_eq!(human_readable_size(1048577), "1.00M");
}

#[test]
fn size_small_values() {
    assert_eq!(human_readable_size(1), "1.00B");
    assert_eq!(human_readable_size(10), "10.00B");
    assert_eq!(human_readable_size(500), "500.00B");
    assert_eq!(human_readable_size(1536), "1.50K");
    assert_eq!(human_readable_size(2048), "2.00K");
}

#[test]
fn size_ties_go_to_the_even_digit() {
    // 1152 / 1024 = 1.125 and 1408 / 1024 = 1.375, both exactly.
    assert_eq!(human_readable_size(1152), "1.12K");
    assert_eq!(human_readable_size(1408), "1.38K");
    assert_eq!(human_readable_size(1152), with_doubles(1152));
    assert_eq!(human_readable_size(1408), with_doubles(1408));
}

#[test]
fn size_each_unit() {
    assert_eq!(human_readable_size(5 * 1024), "5.00K");
    assert_eq!(human_readable_size(5 * 1024 * 1024), "5.00M");
    assert_eq!(human_readable_size(5 * 1024 * 1024 * 1024), "5.00G");
    assert_eq!(human_readable_size(5 * 1024 * 1024 * 1024 * 1024), "5.00T");
    assert_eq!(human_readable_size(5 * 1024 * 1024 * 1024 * 1024 * 1024), "5.00P");
}

#[test]
fn size_stops_at_petabytes() {
    assert_eq!(human_readable_size(u64::MAX), "16384.00P");
    assert_eq!(human_readable_size(1 << 60), "1024.00P");
    assert_eq!(human_readable_size((1 << 60) + (1 << 50)), "1025.00P");
}

#[test]
fn size_agrees_with_doubles_near_unit_boundaries() {
    let mut power: u64 = 1;
    for _ in 0..6 {
        power *= 1024;
        for delta in 0..40u64 {
            for size in [power - delta, power + delta, power / 3 + delta, power * 15 + delta * 7] {
                assert_eq!(human_readable_size(size), with_doubles(size), "size {}", size);
            }
        }
    }
}

#[test]
fn size_agrees_with_doubles_on_a_sweep() {
    let mut size: u64 = 0;
    let mut step: u64 = 1;
    let mut count = 0;
    while count < 20000 {
        assert_eq!(human_readable_size(size), with_doubles(size), "size {}", size);
        size = match size.checked_add(step) {
            Some(next) => next,
            None => break,
        };
        if count % 40 == 39 {
            step = step.saturating_mul(2).max(1);
            if step > (1 << 58) {
                step = 3;
            }
        }
        count += 1;
    }
}

#[test]
fn size_agrees_with_doubles_beyond_53_bits() {
    let mut seed: u64 = 0x9e37_79b9_7f4a_7c15;
    for _ in 0..20000 {
        seed ^= seed << 13;
        seed ^= seed >> 7;
        seed ^= seed << 17;
        let size = seed | (1 << 63);
        assert_eq!(human_readable_size(size), with_doubles(size), "size {}", size);
        let size = seed >> 9;
        assert_eq!(human_readable_size(size), with_doubles(size), "size {}", size);
    }
}

#[test]
fn size_agrees_with_doubles_on_ties_of_every_unit() {
    // Multiples of 1024^k / 8 give values with three exact binary decimals.
    let mut unit: u64 = 1024;
    for _ in 0..5 {
        for n in 8193..8400u64 {
            let size = unit / 8 * n / 8;
            assert_eq!(human_readable_size(size), with_doubles(size), "size {}", size);
            let size = unit / 128 * n;
            assert_eq!(human_readable_size(size), with_doubles(size), "size {}", size);
        }
        unit *= 1024;
    }
}
