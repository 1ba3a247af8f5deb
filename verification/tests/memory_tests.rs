use mtg_engine::memory::{check_memory_admission, parse_kb, parse_meminfo, AdmissionVerdict, SystemMemory};

fn fixture(total_kb: usize, avail_kb: usize) -> String {
    format!(
        "MemTotal:       {total_kb} kB\nMemFree:        {avail_kb} kB\nMemAvailable:   {avail_kb} kB\nBuffers:           1024 kB\n",
    )
}

#[test]
fn parses_meminfo_total_and_available() {
    let f = fixture(16_000_000, 4_000_000);
    let m = parse_meminfo(&f).expect("parse");
    assert_eq!(m.total_mb, 16_000_000 / 1024);
    assert_eq!(m.available_mb, 4_000_000 / 1024);
}

#[test]
fn used_percent_basic_arithmetic() {
    let m = SystemMemory { total_mb: 100, available_mb: 25 };
    assert_eq!(m.used_percent(), 75);
}

#[test]
fn used_percent_clamps_at_100() {
    let m = SystemMemory { total_mb: 100, available_mb: 150 };
    assert_eq!(m.used_percent(), 0);
}

#[test]
fn used_percent_handles_zero_total() {
    let m = SystemMemory { total_mb: 0, available_mb: 0 };
    assert_eq!(m.used_percent(), 0);
}

#[test]
fn used_percent_rounds_down() {
    assert_eq!(SystemMemory { total_mb: 3, available_mb: 1 }.used_percent(), 66);
    assert_eq!(SystemMemory { total_mb: 8000, available_mb: 0 }.used_percent(), 100);
}

#[test]
fn missing_field_returns_none() {
    let no_avail = "MemTotal: 16000000 kB\nMemFree: 4000000 kB\n";
    assert!(parse_meminfo(no_avail).is_none());
    let no_total = "MemAvailable: 4000000 kB\n";
    assert!(parse_meminfo(no_total).is_none());
}

#[test]
fn meminfo_fields_need_a_kb_unit_and_a_number() {
    assert!(parse_meminfo("MemTotal: 100 MB\nMemAvailable: 50 kB\n").is_none());
    assert!(parse_meminfo("MemTotal: lots kB\nMemAvailable: 50 kB\n").is_none());
    assert_eq!(
        parse_meminfo("MemAvailable: 2048 KB\r\nMemTotal: 4096 kb"),
        Some(SystemMemory { total_mb: 4, available_mb: 2 })
    );
    assert_eq!(parse_kb(&"  1024 kB".chars().collect()), Some(1024));
    // A missing unit is taken as kB; another unit is refused.
    assert_eq!(parse_kb(&"1024".chars().collect()), Some(1024));
    assert_eq!(parse_kb(&"1024 MB".chars().collect()), None);
}

#[test]
fn admission_zero_ceiling_always_admits() {
    assert_eq!(check_memory_admission(0, None), AdmissionVerdict::Admit);
    let full = SystemMemory { total_mb: 100, available_mb: 0 };
    assert_eq!(check_memory_admission(0, Some(full)), AdmissionVerdict::Admit);
}

#[test]
fn admission_rejects_above_the_ceiling_only() {
    let m = SystemMemory { total_mb: 100, available_mb: 10 };
    assert_eq!(check_memory_admission(80, Some(m)), AdmissionVerdict::Reject { memory: m, ceiling_percent: 80 });
    assert_eq!(check_memory_admission(90, Some(m)), AdmissionVerdict::Admit);
    assert_eq!(check_memory_admission(80, None), AdmissionVerdict::Admit);
}
