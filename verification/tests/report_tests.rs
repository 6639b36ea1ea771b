use sysfetch::count::count_lines;
use sysfetch::registry::probe_registry;
use sysfetch::report::{assemble_report, build_report, classify_probe, format_entry, usize_to_string, ProbeResult};

#[test]
fn count_empty_output_is_zero() {
    assert_eq!(count_lines(b""), 0);
}

#[test]
fn count_newline_terminated_lines() {
    assert_eq!(count_lines(b"a\nb\nc\n"), 3);
    assert_eq!(count_lines(b"\n"), 1);
    assert_eq!(count_lines(b"one line\n"), 1);
}

#[test]
fn count_unterminated_final_line() {
    assert_eq!(count_lines(b"abc"), 1);
    assert_eq!(count_lines(b"a\nb"), 2);
}

#[test]
fn count_blank_lines_count() {
    assert_eq!(count_lines(b"\n\n\n"), 3);
    assert_eq!(count_lines(b"a\n\nb\n"), 3);
}

#[test]
fn count_accepts_non_utf8_bytes() {
    assert_eq!(count_lines(&[0xff, 0x0a, 0xfe]), 2);
    assert_eq!(count_lines(&[0xf0, 0x28, 0x8c, 0x28, 0x0a]), 1);
}

#[test]
fn decimal_rendering() {
    assert_eq!(usize_to_string(0), "0");
    assert_eq!(usize_to_string(7), "7");
    assert_eq!(usize_to_string(10), "10");
    assert_eq!(usize_to_string(12345), "12345");
}

#[test]
fn entry_formatting() {
    assert_eq!(format_entry(3, "pm1"), "3(pm1)");
    assert_eq!(format_entry(0, "x"), "0(x)");
    assert_eq!(format_entry(120, "flatpak"), "120(flatpak)");
}

#[test]
fn classify_counts_lines() {
    let r = classify_probe(&Some(b"a\nb\nc\n".to_vec()), "pm1");
    match r {
        ProbeResult::Present { count, label } => {
            assert_eq!(count, 3);
            assert_eq!(label, "pm1");
        }
        ProbeResult::Absent => panic!("probe with output must be present"),
    }
}

#[test]
fn classify_missing_tool_is_absent() {
    let r = classify_probe(&None, "pm1");
    assert!(matches!(r, ProbeResult::Absent));
}

#[test]
fn classify_zero_count_is_absent() {
    let r = classify_probe(&Some(Vec::new()), "pm1");
    assert!(matches!(r, ProbeResult::Absent));
}

#[test]
fn assemble_two_present() {
    let results = vec![
        ProbeResult::Present { count: 10, label: String::from("apt") },
        ProbeResult::Absent,
        ProbeResult::Present { count: 25, label: String::from("snapd") },
    ];
    assert_eq!(assemble_report(&results), "10(apt), 25(snapd)");
}

#[test]
fn assemble_no_present_is_empty() {
    let results = vec![ProbeResult::Absent, ProbeResult::Absent];
    assert_eq!(assemble_report(&results), "");
    assert_eq!(assemble_report(&Vec::new()), "");
}

#[test]
fn scenario_zero_count_filtered() {
    let labels = vec![String::from("X")];
    let outputs = vec![Some(Vec::new())];
    assert_eq!(build_report(&labels, &outputs), "");
}

#[test]
fn scenario_three_lines_one_probe() {
    let labels = vec![String::from("pm1")];
    let outputs = vec![Some(b"a\nb\nc\n".to_vec())];
    assert_eq!(build_report(&labels, &outputs), "3(pm1)");
}

#[test]
fn scenario_two_probes_in_registry_order() {
    let labels = vec![String::from("apt"), String::from("snapd")];
    let outputs = vec![Some(b"x\n".repeat(10)), Some(b"y\n".repeat(25))];
    assert_eq!(build_report(&labels, &outputs), "10(apt), 25(snapd)");
}

#[test]
fn absent_probe_leaves_no_trace() {
    let labels = vec![String::from("alpha"), String::from("beta")];
    let outputs = vec![None, Some(b"p\nq\n".to_vec())];
    assert_eq!(build_report(&labels, &outputs), "2(beta)");
}

#[test]
fn absent_label_never_marked() {
    let labels = vec![String::from("pkg"), String::from("pkg_info")];
    let outputs = vec![None, Some(b"a\n".to_vec())];
    let report = build_report(&labels, &outputs);
    assert_eq!(report, "1(pkg_info)");
    assert!(!report.contains("(pkg)"));
}

#[test]
fn report_is_deterministic() {
    let labels = vec![String::from("rpm"), String::from("apk")];
    let outputs = vec![Some(b"a\nb\n".to_vec()), None];
    let first = build_report(&labels, &outputs);
    let second = build_report(&labels, &outputs);
    assert_eq!(first, second);
    assert_eq!(first, "2(rpm)");
}

#[test]
fn registry_is_the_fixed_table() {
    let r = probe_registry();
    assert_eq!(r.len(), 15);
    assert_eq!(r[0].executable, "xbps-query");
    assert_eq!(r[0].arguments, vec!["-l"]);
    assert_eq!(r[0].label, "xbps");
    assert_eq!(r[4].executable, "dpkg-query");
    assert_eq!(r[4].arguments, vec!["-f", "'.\\n'", "-W"]);
    assert_eq!(r[4].label, "apt");
    assert_eq!(r[9].executable, "pkg_info");
    assert!(r[9].arguments.is_empty());
    assert_eq!(r[14].executable, "nix-store");
    assert_eq!(r[14].arguments, vec!["-qR", "/run/current-system/sw"]);
    assert_eq!(r[14].label, "nix-system");
}
