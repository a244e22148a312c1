use handiva::key_monitor::{clock_text, format_utc_time, utc_time_str, KeyMonitor, LogEntry, MAX_ENTRIES};

fn entry(i: usize) -> LogEntry {
    LogEntry { time: format!("t{}", i), key: format!("K{}", i), process: "p".into(), window: "w".into() }
}

#[test]
fn listener_starts_once() {
    let mut m = KeyMonitor::new();
    assert!(!m.is_active());
    assert!(m.toggle());
    assert!(m.is_active());
    assert!(!m.toggle());
    assert!(!m.is_active());
    assert!(!m.toggle());
    assert!(m.is_active());
}

#[test]
fn log_keeps_the_last_entries() {
    let mut m = KeyMonitor::new();
    for i in 0..MAX_ENTRIES + 3 {
        m.push_entry(entry(i));
    }
    assert_eq!(m.entry_count(), 500);
    let snap = m.snapshot();
    assert_eq!(snap.len(), 500);
    assert_eq!(snap[0].key, "K3");
    assert_eq!(snap[499].key, format!("K{}", MAX_ENTRIES + 2));
}

#[test]
fn clear_empties_the_log() {
    let mut m = KeyMonitor::new();
    m.push_entry(entry(1));
    m.push_entry(entry(2));
    assert_eq!(m.entry_count(), 2);
    m.clear();
    assert_eq!(m.entry_count(), 0);
    assert!(m.snapshot().is_empty());
}

#[test]
fn formats_clock_text() {
    assert_eq!(format_utc_time(0, 0), "00:00:00.000");
    assert_eq!(format_utc_time(3661, 7), "01:01:01.007");
    assert_eq!(format_utc_time(86399, 999), "23:59:59.999");
    assert_eq!(format_utc_time(86400 + 45, 120), "00:00:45.120");
    assert_eq!(format_utc_time(u64::MAX, 5), format!("{:02}:{:02}:{:02}.{:03}", (u64::MAX / 3600) % 24, (u64::MAX % 3600) / 60, u64::MAX % 60, 5));
}

#[test]
fn current_clock_text_has_the_clock_shape() {
    let t = utc_time_str();
    let b = t.as_bytes();
    assert_eq!(b.len(), 12);
    assert_eq!(b[2], b':');
    assert_eq!(b[5], b':');
    assert_eq!(b[8], b'.');
    for i in [0, 1, 3, 4, 6, 7, 9, 10, 11] {
        assert!(b[i].is_ascii_digit());
    }
}

#[test]
fn clock_readings() {
    assert_eq!(clock_text(None), "00:00:00.000");
    assert_eq!(clock_text(Some((3661, 5))), "01:01:01.005");
    assert_eq!(clock_text(Some((86399, 999))), "23:59:59.999");
    assert_eq!(clock_text(Some((86400, 0))), "00:00:00.000");
}
