use hephaestus::telemetry::time_travel::{
    heap_regions_underflow, parse_heap_regions, parse_ppid, parse_u64_radix, TimeTravelTelemetry,
};

fn pairs(v: &[(&str, &str)]) -> Vec<(String, String)> {
    v.iter().map(|(a, b)| (a.to_string(), b.to_string())).collect()
}

#[test]
fn parent_pid_from_stat() {
    assert_eq!(parse_ppid("1234 (cargo) S 987 1234 1234 0").unwrap(), 987);
    assert_eq!(parse_ppid("1 (x) S").unwrap_err(), "Invalid format in /proc/self/stat");
    assert_eq!(parse_ppid("1 (x) S abc 1").unwrap_err(), "Invalid PPID in /proc/self/stat");
}

#[test]
fn numbers_in_a_radix() {
    let digits: Vec<char> = "ff".chars().collect();
    assert_eq!(parse_u64_radix(&digits, 16), Some(255));
    let dec: Vec<char> = "0042".chars().collect();
    assert_eq!(parse_u64_radix(&dec, 10), Some(42));
    let bad: Vec<char> = "4g".chars().collect();
    assert_eq!(parse_u64_radix(&bad, 16), None);
    let empty: Vec<char> = Vec::new();
    assert_eq!(parse_u64_radix(&empty, 10), None);
    let big: Vec<char> = "18446744073709551616".chars().collect();
    assert_eq!(parse_u64_radix(&big, 10), None);
}

#[test]
fn writable_mappings_become_regions() {
    let maps = "00400000-00452000 r-xp 00000000 08:02 173521 /usr/bin/dbus\n\
                01a00000-01a21000 rw-p 00000000 00:00 0 [heap]\n\
                short line\n\
                7f0000000000-7f0000010000 rw-p 00000000 00:00 0 anon\n";
    assert!(!heap_regions_underflow(maps));
    let regions = parse_heap_regions(maps).unwrap();
    assert_eq!(regions.len(), 2);
    assert_eq!(regions[0].start_addr, 0x01a00000);
    assert_eq!(regions[0].size, 0x21000);
    assert_eq!(regions[0].data.len(), 4096);
    assert!(regions[0].data.iter().all(|b| *b == 0));
    assert_eq!(regions[1].size, 0x10000);

    let small = "1000-1010 rw-p 0 0 0 x\n";
    assert_eq!(parse_heap_regions(small).unwrap()[0].data.len(), 16);
}

#[test]
fn malformed_addresses_are_reported() {
    let bad = "zz-1000 rw-p 0 0 0 x\n";
    assert_eq!(parse_heap_regions(bad).unwrap_err(), "Invalid start address in zz-1000");
    let bad_end = "1000-qq rw-p 0 0 0 x\n";
    assert_eq!(parse_heap_regions(bad_end).unwrap_err(), "Invalid end address in 1000-qq");
    assert!(heap_regions_underflow("2000-1000 rw-p 0 0 0 x\n"));
    assert!(!heap_regions_underflow("2000-1000 r--p 0 0 0 x\n"));
}

#[test]
fn environment_snapshot_keeps_allowed_names() {
    let vars = pairs(&[
        ("PATH", "/bin"),
        ("HOME", "/root"),
        ("rust_log", "debug"),
        ("LANG", "C"),
        ("GITHUB_TOKEN", "x"),
    ]);
    let safe = TimeTravelTelemetry::safe_env_vars(vars);
    assert_eq!(safe, pairs(&[("PATH", "/bin"), ("rust_log", "debug"), ("LANG", "C")]));
}

#[test]
fn registers_are_zero() {
    let r = TimeTravelTelemetry::capture_registers();
    assert_eq!(r.rax, 0);
    assert_eq!(r.rsp, 0);
    assert_eq!(r.r15, 0);
}
