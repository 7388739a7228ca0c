use auximap::size::format_bytes_human;

fn with_floats(bytes: usize) -> String {
    if bytes < 1024 {
        format!("{} B", bytes)
    } else if bytes < 1024 * 1024 {
        format!("{:.1} KB", bytes as f64 / 1024.0)
    } else {
        format!("{:.1} MB", bytes as f64 / (1024.0 * 1024.0))
    }
}

#[test]
fn sizes_are_written() {
    assert_eq!(format_bytes_human(0), "0 B");
    assert_eq!(format_bytes_human(1023), "1023 B");
    assert_eq!(format_bytes_human(1024), "1.0 KB");
    assert_eq!(format_bytes_human(1536), "1.5 KB");
    assert_eq!(format_bytes_human(1024 * 1024 - 1), "1024.0 KB");
    assert_eq!(format_bytes_human(5 * 1024 * 1024 + 512 * 1024), "5.5 MB");
}

#[test]
fn small_sizes_agree_with_floating_point() {
    for bytes in 0..1_100_000usize {
        assert_eq!(format_bytes_human(bytes), with_floats(bytes));
    }
}

#[test]
fn large_sizes_agree_with_floating_point() {
    let mut n: u64 = 0x9e37_79b9_7f4a_7c15;
    for i in 0..200_000u32 {
        n = n.wrapping_mul(6364136223846793005).wrapping_add(1442695040888963407);
        let bytes = (n >> (i % 44)) as usize;
        assert_eq!(format_bytes_human(bytes), with_floats(bytes), "{}", bytes);
    }
    for tie in [0x1000_0000_0001_9999u64, 0x20_0000_0000_0001, u64::MAX, 1 << 63, (1 << 53) + 3] {
        assert_eq!(format_bytes_human(tie as usize), with_floats(tie as usize));
    }
}
