use mboot::boot_log::{BootLog, Cell, ProbeReport, COLUMNS, LINES};

#[test]
fn probe_report_is_bounded_without_allocating() {
    let mut report = ProbeReport::new();
    report.write_str("GPU report\n").unwrap();
    report.write_str(&format!("errno={}\n", -5)).unwrap();
    assert_eq!(report.text(), "GPU report\nerrno=-5\n");
    assert!(report.write_str(core::str::from_utf8(&[b'x'; 4096]).unwrap()).is_err());
    assert_eq!(report.text(), "GPU report\nerrno=-5\n");
}

#[test]
fn preserves_fragmented_lines() {
    let mut log = BootLog::new();
    log.append(b"Linux ver");
    log.append(b"sion\r\nPANIC\t-5\n");
    assert_eq!(log.text(), b"Linux version\nPANIC -5\n");
}

#[test]
fn console_updates_only_changed_cells_and_preserves_case() {
    let mut log = BootLog::new();
    log.append(b"Linux\n");
    let first = log.render_console();
    assert!(first.begin);
    assert_eq!(first.cells.len(), 5);
    assert_eq!(first.cells[1], Cell { x: 1, y: 0, byte: b'i' });
    let second = log.render_console();
    assert!(!second.begin);
    assert_eq!(second.cells.len(), 0);
    log.append(b"ok");
    let third = log.render_console();
    assert!(!third.begin);
    assert_eq!(third.cells.len(), 2);
    assert_eq!(
        third.cells,
        vec![Cell { x: 0, y: 1, byte: b'o' }, Cell { x: 1, y: 1, byte: b'k' }]
    );
}

#[test]
fn console_never_writes_after_linux_handoff() {
    let mut log = BootLog::new();
    log.append(b"boot\n");
    log.finish_console();
    let redraw = log.render_console();
    assert!(!redraw.begin);
    assert_eq!(redraw.cells.len(), 0);
    assert!(log.console_finished());
}

#[test]
fn ordinary_logs_never_request_a_redraw() {
    let mut log = BootLog::new();
    for _ in 0..1000 {
        log.append(b"device initialized\nfirmware load failed -2\n");
        assert!(!log.take_failure());
    }
}

#[test]
fn structured_failure_stays_latched() {
    let mut log = BootLog::new();
    log.mark_failure_shown();
    for _ in 0..100 {
        log.append(b"ordinary startup status\nKernel panic: later error\n");
        assert!(!log.take_failure());
        assert!(log.failure_shown());
    }
}

#[test]
fn completed_failure_is_displayed_only_once() {
    let mut log = BootLog::new();
    log.append(b"Kernel pan");
    assert!(!log.take_failure());
    log.append(b"ic: cannot mount root");
    assert!(!log.take_failure());
    log.append(b"\n");
    assert!(log.take_failure());
    for _ in 0..1000 {
        log.append(b"error while loading shared libraries: libdrm.so.2\n");
        assert!(!log.take_failure());
    }
    assert!(log.failure_shown());
}

#[test]
fn wraps_and_bounds_long_records() {
    let mut log = BootLog::new();
    for _ in 0..1000 {
        log.append(&[b'x'; 137]);
    }
    assert!(log.text().len() <= (COLUMNS + 1) * LINES);
    assert!(log.text().split(|&b| b == b'\n').count() <= LINES);
    assert!(log.text().split(|&b| b == b'\n').all(|line| line.len() <= COLUMNS));
}

#[test]
fn keeps_latest_records_and_sanitizes_controls() {
    let mut log = BootLog::new();
    log.append(b"old\n");
    for _ in 0..100 {
        log.append(b"current\n");
    }
    log.append(b"error\x1b\xff");
    assert!(log.text().starts_with(b"current\n"));
    assert!(log.text().ends_with(b"error??"));
}

#[test]
fn default_log_is_empty() {
    let log = BootLog::default();
    assert_eq!(log.text(), b"");
    assert!(!log.console_started());
    assert!(!log.failure_shown());
}

#[test]
fn the_text_is_the_last_lines_of_everything_appended() {
    let mut pieces = BootLog::new();
    let mut whole = BootLog::new();
    let mut all = Vec::new();
    for number in 0..40u8 {
        let line = [b'a' + number % 26, b'\n'];
        pieces.append(&line[..1]);
        pieces.append(&line[1..]);
        all.extend_from_slice(&line);
    }
    whole.append(&all);
    assert_eq!(pieces.text(), whole.text());
    let lines: Vec<&[u8]> = all.split(|byte| *byte == b'\n').collect();
    assert_eq!(whole.text(), lines[lines.len() - LINES..].join(&b'\n'));
}
