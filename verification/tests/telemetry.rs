use memsol_core::model::MemorySnapshot;
use memsol_core::telemetry::{parse_meminfo, parse_psi_records, psi_line_indices};

#[test]
fn parses_meminfo() {
    let snapshot = parse_meminfo(
        "MemTotal:       16384000 kB\nMemAvailable:    8192000 kB\nSwapTotal:       8388608 kB\nSwapFree:        6291456 kB\n",
    )
    .expect("valid meminfo");

    assert_eq!(snapshot.total_kib, 16_384_000);
    assert_eq!(snapshot.available_kib, 8_192_000);
    assert_eq!(snapshot.swap_used_kib(), 2_097_152);
}

#[test]
fn meminfo_needs_every_field() {
    assert_eq!(parse_meminfo("MemTotal: 1 kB\nMemAvailable: 1 kB\nSwapTotal: 1 kB\n"), None);
}

#[test]
fn meminfo_rejects_malformed_lines() {
    assert_eq!(parse_meminfo("MemTotal 1 kB\n"), None);
    assert_eq!(parse_meminfo("MemTotal: lots kB\n"), None);
    assert_eq!(parse_meminfo("MemTotal:\n"), None);
}

#[test]
fn meminfo_last_value_wins() {
    let snapshot = parse_meminfo(
        "MemTotal: 10 kB\nMemAvailable: 4 kB\nSwapTotal: 0 kB\nSwapFree: 0 kB\nMemTotal: 20 kB\nCached: 3 kB",
    )
    .expect("valid meminfo");
    assert_eq!(snapshot.total_kib, 20);
    assert_eq!(snapshot.available_kib, 4);
}

#[test]
fn swap_used_saturates() {
    let snapshot = MemorySnapshot { total_kib: 1, available_kib: 1, swap_total_kib: 5, swap_free_kib: 9 };
    assert_eq!(snapshot.swap_used_kib(), 0);
    let snapshot = MemorySnapshot { total_kib: 1, available_kib: 1, swap_total_kib: 9, swap_free_kib: 5 };
    assert_eq!(snapshot.swap_used_kib(), 4);
}

#[test]
fn parses_memory_psi_records() {
    let records = parse_psi_records(
        "some avg10=0.15 avg60=0.10 avg300=0.05 total=12345\nfull avg10=0.01 avg60=0.00 avg300=0.00 total=900\n",
    )
    .expect("valid PSI");
    assert_eq!(records.len(), 2);
    assert_eq!(records[0].kind, "some");
    assert_eq!(records[0].avg10, "0.15");
    assert_eq!(records[0].total_us, 12345);
    assert_eq!(records[1].kind, "full");
    assert_eq!(records[1].total_us, 900);
    assert_eq!(psi_line_indices(&records), Some((0, 1)));
}

#[test]
fn psi_needs_both_kinds() {
    let records = parse_psi_records("some avg10=0.15 avg60=0.10 avg300=0.05 total=12345\n").expect("valid line");
    assert_eq!(psi_line_indices(&records), None);
}

#[test]
fn psi_rejects_incomplete_lines() {
    assert!(parse_psi_records("some avg10=0.15 avg60=0.10 total=12345\n").is_none());
    assert!(parse_psi_records("some avg10=0.15 avg60=0.10 avg300=0.05 total=x\n").is_none());
    assert!(parse_psi_records("some avg10=1 avg60=1 avg300=1 total=1\n\n").is_none());
    assert!(parse_psi_records("some avg10=1 avg60=1 avg300=1 total=1\n   \n").is_none());
}

#[test]
fn psi_takes_the_last_line_of_each_kind_and_last_field() {
    let records = parse_psi_records(
        "full avg10=1 avg60=1 avg300=1 total=1\nsome avg10=2 avg60=2 avg300=2 total=2 total=3\nfull avg10=4 avg60=4 avg300=4 total=4",
    )
    .expect("valid PSI");
    assert_eq!(records[1].total_us, 3);
    assert_eq!(psi_line_indices(&records), Some((1, 2)));
}
