use yt_dlp_ui::size::format_bytes;

fn floating(bytes: u64) -> String {
    let units = ["B", "KB", "MB", "GB", "TB"];
    if bytes == 0 {
        return "0 B".to_string();
    }
    let mut size = bytes as f64;
    let mut unit = 0;
    while size >= 1024.0 && unit < units.len() - 1 {
        size /= 1024.0;
        unit += 1;
    }
    if unit == 0 {
        format!("{} {}", bytes, units[unit])
    } else {
        format!("{:.2} {}", size, units[unit])
    }
}

#[test]
fn format_bytes_exact_values() {
    assert_eq!(format_bytes(0), "0 B");
    assert_eq!(format_bytes(1), "1 B");
    assert_eq!(format_bytes(1023), "1023 B");
    assert_eq!(format_bytes(1024), "1.00 KB");
    assert_eq!(format_bytes(1536), "1.50 KB");
    assert_eq!(format_bytes(1_048_576), "1.00 MB");
    assert_eq!(format_bytes(1_048_575), "1024.00 KB");
    assert_eq!(format_bytes(5_368_709_120), "5.00 GB");
    assert_eq!(format_bytes(1_099_511_627_776), "1.00 TB");
    assert_eq!(format_bytes(u64::MAX), "16777216.00 TB");
}

#[test]
fn format_bytes_breaks_ties_to_even() {
    assert_eq!(format_bytes(1152), "1.12 KB");
    assert_eq!(format_bytes(1024 + 384), "1.38 KB");
    assert_eq!(format_bytes(1024 + 640), "1.62 KB");
    assert_eq!(format_bytes(1024 + 896), "1.88 KB");
}

#[test]
fn format_bytes_agrees_with_double_precision() {
    for bytes in 0..300_000u64 {
        assert_eq!(format_bytes(bytes), floating(bytes));
    }
    let mut seed = 0x9e37_79b9_7f4a_7c15u64;
    for round in 0..200_000u64 {
        seed = seed.wrapping_mul(6_364_136_223_846_793_005).wrapping_add(1_442_695_040_888_963_407);
        let bytes = seed >> (round % 64);
        assert_eq!(format_bytes(bytes), floating(bytes), "{}", bytes);
    }
    // Quarters of a hundredth of a unit, and the numbers around them.
    for shift in [10u32, 20, 30, 40] {
        for eighths in 8..4000u64 {
            let Some(middle) = eighths.checked_mul(1u64 << (shift - 3)) else { continue };
            for bytes in [middle - 1, middle, middle + 1] {
                assert_eq!(format_bytes(bytes), floating(bytes), "{}", bytes);
            }
        }
    }
    for power in 53..64u32 {
        for offset in 0..5000u64 {
            let bytes = (1u64 << power) + offset;
            assert_eq!(format_bytes(bytes), floating(bytes), "{}", bytes);
            let bytes = (1u64 << power) - offset;
            assert_eq!(format_bytes(bytes), floating(bytes), "{}", bytes);
        }
    }
}
