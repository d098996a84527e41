use getcat::format::{
    digits, format_bytes, format_duration, format_mb, method_color, status_color,
};
use getcat::model::{Duration, Method};

#[test]
fn bytes_formatting() {
    assert_eq!(format_bytes(0), "0 B");
    assert_eq!(format_bytes(312), "312 B");
    assert_eq!(format_bytes(49_357), "48.2 KB");
    assert_eq!(format_bytes(1_572_864), "1.5 MB");
    assert_eq!(format_bytes(3 * 1024 * 1024 * 1024), "3.0 GB");
}

#[test]
fn bytes_formatting_carries_at_unit_boundaries() {
    // 1_048_570 B = 1023.99 KB shows as 1.0 MB
    assert_eq!(format_bytes(1_048_570), "1.0 MB");
    assert_eq!(format_bytes(1_048_576), "1.0 MB");
    assert_eq!(format_bytes(1_047_000), "1022.5 KB");
    assert_eq!(format_bytes(u64::MAX), "16777216.0 TB");
}

fn float_bytes(n: u64) -> String {
    const UNITS: [&str; 4] = ["KB", "MB", "GB", "TB"];
    if n < 1024 {
        return format!("{n} B");
    }
    let mut value = n as f64 / 1024.0;
    let mut unit = 0;
    while value >= 1023.95 && unit < UNITS.len() - 1 {
        value /= 1024.0;
        unit += 1;
    }
    format!("{value:.1} {}", UNITS[unit])
}

#[test]
fn sizes_agree_with_floating_point() {
    let mut n: u64 = 1;
    for i in 0..4000u64 {
        n = n.wrapping_mul(6364136223846793005).wrapping_add(1442695040888963407);
        let m = n >> (i % 64);
        assert_eq!(format_bytes(m), float_bytes(m), "{m}");
        assert_eq!(format_mb(m), format!("{:.1} MB", m as f64 / 1_048_576.0), "{m}");
    }
    // halfway between two tenths, and at the edges of each unit
    for base in [1024u64, 1 << 20, 1 << 30, 1 << 40] {
        for k in 0..200u64 {
            for m in [base + base / 20 * k, base * 1023 + base / 20 * k, base * 1024 - k] {
                assert_eq!(format_bytes(m), float_bytes(m), "{m}");
            }
        }
    }
}

#[test]
fn duration_formatting() {
    assert_eq!(format_duration(Duration::from_millis(312)), "312 ms");
    assert_eq!(format_duration(Duration::from_millis(1250)), "1.25 s");
    assert_eq!(format_duration(Duration::from_micros(800)), "1 ms");
}

#[test]
fn duration_formatting_carries_at_one_second() {
    assert_eq!(format_duration(Duration::from_micros(999_600)), "1.00 s");
    assert_eq!(format_duration(Duration::from_micros(999_400)), "999 ms");
}

#[test]
fn durations_round_to_the_nearest_step() {
    assert_eq!(format_duration(Duration::from_nanos(0)), "1 ms");
    assert_eq!(format_duration(Duration::from_micros(1_500)), "2 ms");
    assert_eq!(format_duration(Duration::from_millis(61_004)), "61.00 s");
    assert_eq!(format_duration(Duration::from_millis(61_006)), "61.01 s");
    assert_eq!(format_duration(Duration::from_secs(3600)), "3600.00 s");
}

fn by_floats(d: std::time::Duration) -> String {
    let ms = d.as_secs_f64() * 1000.0;
    let rounded = ms.round();
    if rounded < 1000.0 {
        format!("{} ms", rounded.max(1.0) as u64)
    } else {
        format!("{:.2} s", ms / 1000.0)
    }
}

#[test]
fn durations_are_shown_as_binary_numbers() {
    assert_eq!(format_duration(Duration::from_millis(2_675)), "2.67 s");
    assert_eq!(format_duration(Duration::from_millis(1_015)), "1.01 s");
    assert_eq!(format_duration(Duration::from_millis(1_125)), "1.12 s");
    assert_eq!(format_duration(Duration::from_millis(1_375)), "1.38 s");
    let check = |secs: u64, nanos: u32| {
        assert_eq!(
            format_duration(Duration { secs, nanos }),
            by_floats(std::time::Duration::new(secs, nanos)),
            "{secs} {nanos}"
        );
    };
    for ms in 0..20_000u64 {
        check(ms / 1000, (ms % 1000) as u32 * 1_000_000);
        check(ms / 1000, (ms % 1000) as u32 * 1_000_000 + 500_000);
    }
    let mut x: u64 = 0x9e37_79b9_7f4a_7c15;
    for _ in 0..20_000 {
        x ^= x << 13;
        x ^= x >> 7;
        x ^= x << 17;
        let nanos = (x >> 20) as u32 % 1_000_000_000;
        check(x >> (x % 64), nanos);
        check(x >> (x % 64), nanos / 1_000_000 * 1_000_000);
        check(x >> (x % 64), 500_000_000);
        check(0, nanos >> (x % 30));
    }
    for secs in [1, (1 << 52) - 1, 1 << 52, (1 << 53) - 1, 1 << 53, u64::MAX] {
        for nanos in [0, 1, 499_999_999, 500_000_000, 500_000_001, 999_999_999] {
            check(secs, nanos);
        }
    }
}

#[test]
fn line_numbers_have_as_many_digits_as_they_need() {
    assert_eq!(digits(0), 1);
    assert_eq!(digits(9), 1);
    assert_eq!(digits(10), 2);
    assert_eq!(digits(usize::MAX), usize::MAX.to_string().len());
}

#[test]
fn method_colors_use_the_dedicated_light_palette() {
    assert_eq!(method_color(Method::Get, false), 0x007762);
    assert_eq!(method_color(Method::Post, false), 0x925d0c);
    assert_eq!(method_color(Method::Put, false), 0x226ea2);
    assert_eq!(method_color(Method::Patch, false), 0x6d5ea6);
    assert_eq!(method_color(Method::Delete, false), 0xb74131);
    assert_eq!(method_color(Method::Head, false), 0x5e6a77);
    assert_eq!(method_color(Method::Options, false), 0x5e6a77);
}

#[test]
fn method_colors_use_the_dedicated_dark_palette() {
    assert_eq!(method_color(Method::Get, true), 0x4bb39a);
    assert_eq!(method_color(Method::Post, true), 0xd7a042);
    assert_eq!(method_color(Method::Put, true), 0x6fa8d4);
    assert_eq!(method_color(Method::Patch, true), 0xa596d8);
    assert_eq!(method_color(Method::Delete, true), 0xe77968);
    assert_eq!(method_color(Method::Head, true), 0x8f9aa3);
}

#[test]
fn status_colors_are_readable_on_their_own_tint() {
    assert_eq!(status_color(200, false), Some(0x007460));
    assert_eq!(status_color(204, false), Some(0x007460));
    assert_eq!(status_color(302, false), Some(0x67599f));
    assert_eq!(status_color(404, false), Some(0x8a5600));
    assert_eq!(status_color(500, false), Some(0xaf3829));
    assert_eq!(status_color(200, true), Some(0x6ccbb2));
    assert_eq!(status_color(302, true), Some(0xb5a8e0));
    assert_eq!(status_color(404, true), Some(0xe0ad50));
    assert_eq!(status_color(500, true), Some(0xe58474));
}

#[test]
fn status_color_outside_known_ranges_falls_back_to_muted() {
    assert_eq!(status_color(100, false), None);
    assert_eq!(status_color(600, false), None);
}

#[test]
fn put_and_patch_no_longer_share_a_hue() {
    for dark in [false, true] {
        assert_ne!(
            method_color(Method::Put, dark),
            method_color(Method::Patch, dark)
        );
    }
}

#[test]
fn sizes_are_shown_as_binary_numbers() {
    let by_floats = |n: u64| {
        let units = ["KB", "MB", "GB", "TB"];
        if n < 1024 {
            return format!("{n} B");
        }
        let mut value = n as f64 / 1024.0;
        let mut unit = 0;
        while value >= 1023.95 && unit < units.len() - 1 {
            value /= 1024.0;
            unit += 1;
        }
        format!("{value:.1} {}", units[unit])
    };
    let mut x: u64 = 0x9e37_79b9_7f4a_7c15;
    for _ in 0..20_000 {
        x ^= x << 13;
        x ^= x >> 7;
        x ^= x << 17;
        let n = x >> (x % 64);
        assert_eq!(format_bytes(n), by_floats(n), "{n}");
    }
    for near in [1_048_524, 1_073_689_395, 1_099_457_940_684, u64::MAX - 8] {
        for n in near - 3..near + 4 {
            assert_eq!(format_bytes(n), by_floats(n), "{n}");
        }
    }
}
