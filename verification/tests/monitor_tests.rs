use crucible::monitor::{
    choose_cpu_temp, hwmon_dir_entries, is_cpu_temp_driver, parse_stat_cpu, read_cpu_usage,
    read_memory, read_memory_is_defined, stat_cpu_line_is_defined, temp_input_files,
    thermal_zone_entries, CpuUsage, History, TempChoice, HISTORY_SIZE,
};

#[test]
fn test_parse_stat_cpu_valid() {
    // A typical cpu line: cpu user nice system idle iowait ...
    let line = "cpu 100 200 300 400 500";
    let parsed = parse_stat_cpu(line);
    assert!(parsed.is_some());
    let (total, idle_total) = parsed.unwrap();
    // total = 100 + 200 + 300 + 400 + 500 = 1500
    // idle_total = 400 + 500 = 900
    assert_eq!(total, 1500);
    assert_eq!(idle_total, 900);
}

#[test]
fn test_parse_stat_cpu_extra_spaces() {
    let line = "cpu   100   200   300   400   500   600   700";
    let parsed = parse_stat_cpu(line);
    assert!(parsed.is_some());
    let (total, idle_total) = parsed.unwrap();
    assert_eq!(total, 1500);
    assert_eq!(idle_total, 900);
}

#[test]
fn test_parse_stat_cpu_invalid_prefix() {
    let line = "cpu0 100 200 300 400 500";
    let parsed = parse_stat_cpu(line);
    assert!(parsed.is_none());
}

#[test]
fn test_parse_stat_cpu_too_few_fields() {
    let line = "cpu 100 200 300";
    let parsed = parse_stat_cpu(line);
    assert!(parsed.is_none());
}

#[test]
fn test_parse_stat_cpu_non_numeric() {
    let line = "cpu abc def 300 400";
    let parsed = parse_stat_cpu(line);
    assert!(parsed.is_none());
}

#[test]
fn parse_stat_cpu_without_iowait_counts_zero() {
    // Five words, four counters: iowait is taken as zero.
    assert_eq!(parse_stat_cpu("cpu 1 2 3 4"), Some((10, 4)));
}

#[test]
fn parse_stat_cpu_skips_words_that_are_not_numbers() {
    // The counters are the words after "cpu" that parse; "x" is skipped.
    assert_eq!(parse_stat_cpu("cpu 1 x 2 3 4"), Some((10, 4)));
    assert_eq!(parse_stat_cpu("cpu +1 2 3 4 5"), Some((15, 9)));
}

#[test]
fn stat_cpu_line_definedness() {
    assert!(stat_cpu_line_is_defined("cpu 100 200 300 400 500"));
    assert!(stat_cpu_line_is_defined("intr 1 2 3"));
    // Exactly three counters would index past the end.
    assert!(!stat_cpu_line_is_defined("cpu 1 2 3 x"));
    // The counters overflow 64 bits when added.
    assert!(!stat_cpu_line_is_defined("cpu 18446744073709551615 1 0 0 0"));
    assert!(stat_cpu_line_is_defined("cpu 18446744073709551615 0 0 0 0"));
}

#[test]
fn cpu_usage_first_sample_primes() {
    let mut t = 0u64;
    let mut i = 0u64;
    assert_eq!(read_cpu_usage(&mut t, &mut i, Some((1000, 400))), CpuUsage::Zero);
    assert_eq!((t, i), (1000, 400));
    assert_eq!(
        read_cpu_usage(&mut t, &mut i, Some((1200, 450))),
        CpuUsage::Ratio { busy: 150, total: 200 }
    );
    assert_eq!((t, i), (1200, 450));
    // No change in the total gives zero.
    assert_eq!(read_cpu_usage(&mut t, &mut i, Some((1200, 450))), CpuUsage::Zero);
    // A missing sample keeps the totals.
    assert_eq!(read_cpu_usage(&mut t, &mut i, None), CpuUsage::Zero);
    assert_eq!((t, i), (1200, 450));
    // Counters that went back count as no time.
    assert_eq!(read_cpu_usage(&mut t, &mut i, Some((1100, 300))), CpuUsage::Zero);
    assert_eq!((t, i), (1100, 300));
}

#[test]
fn memory_from_meminfo() {
    let text = "MemTotal:       16000000 kB\nMemFree:         1000000 kB\nMemAvailable:    4000000 kB\n";
    assert!(read_memory_is_defined(text));
    assert_eq!(read_memory(text), ((16000000 - 4000000) * 1024, 16000000 * 1024));
    // Missing values count as zero; used never goes below zero.
    assert_eq!(read_memory("MemAvailable: 10 kB\n"), (0, 0));
    assert_eq!(read_memory(""), (0, 0));
    // The last value of a key wins.
    assert_eq!(read_memory("MemTotal: 1 kB\nMemTotal: 2 kB\n"), (2048, 2048));
    assert!(!read_memory_is_defined("MemTotal: 18446744073709551615 kB\n"));
}

#[test]
fn sensor_directory_names() {
    let names: Vec<String> = ["thermal_zone0", "cooling_device0", "thermal_zone12", "xthermal_zone1"]
        .iter()
        .map(|s| s.to_string())
        .collect();
    assert_eq!(thermal_zone_entries(&names), Some(vec![0, 2]));
    let hw: Vec<String> = ["hwmon0", "hwmon", "hwmon3x"].iter().map(|s| s.to_string()).collect();
    assert_eq!(hwmon_dir_entries(&hw), Some(vec![0]));
}

#[test]
fn temperature_inputs_with_numbers() {
    let files: Vec<String> = ["name", "temp1_input", "temp1_label", "temp12_input"]
        .iter()
        .map(|s| s.to_string())
        .collect();
    let found = temp_input_files(&files).unwrap();
    assert_eq!(found, vec![(1, "1".to_string()), (3, "12".to_string())]);
}

#[test]
fn cpu_temperature_drivers() {
    assert!(is_cpu_temp_driver("k10temp\n"));
    assert!(is_cpu_temp_driver("  coretemp "));
    assert!(!is_cpu_temp_driver("nvme\n"));
    assert!(!is_cpu_temp_driver("k10temps"));
}

fn labels(v: &[&str]) -> Vec<String> {
    v.iter().map(|s| s.to_string()).collect()
}

#[test]
fn cpu_temperature_choice_order() {
    assert_eq!(choose_cpu_temp(&labels(&[])), TempChoice::Nothing);
    assert_eq!(choose_cpu_temp(&labels(&["Tctl", "Tdie"])), TempChoice::Reading(1));
    assert_eq!(choose_cpu_temp(&labels(&["Core 0", "Package id 0"])), TempChoice::Reading(1));
    assert_eq!(choose_cpu_temp(&labels(&["Tccd1", "Tctl"])), TempChoice::Reading(1));
    assert_eq!(
        choose_cpu_temp(&labels(&["Tccd1", "", "Tccd2"])),
        TempChoice::MeanOf(vec![0, 2])
    );
    assert_eq!(choose_cpu_temp(&labels(&["", "Core 1"])), TempChoice::Reading(1));
    assert_eq!(choose_cpu_temp(&labels(&["", ""])), TempChoice::Reading(0));
}

#[test]
fn test_system_monitor_history_limiting() {
    let mut freq: History<f64> = History::new(HISTORY_SIZE);
    let mut temp: History<Option<f64>> = History::new(HISTORY_SIZE);
    assert_eq!(freq.len(), 0);
    assert_eq!(temp.len(), 0);

    // Push more than HISTORY_SIZE readings
    for i in 0..(HISTORY_SIZE + 50) {
        freq.push(i as f64);
        temp.push(None);
    }

    assert_eq!(freq.len(), HISTORY_SIZE);
    assert_eq!(temp.len(), HISTORY_SIZE);
    // The oldest readings were dropped; the newest is last.
    assert_eq!(*freq.get(0), 50.0);
    assert_eq!(*freq.get(HISTORY_SIZE - 1), (HISTORY_SIZE + 49) as f64);
}

#[test]
fn history_of_zero_capacity_stays_empty() {
    let mut h: History<u8> = History::new(0);
    h.push(1);
    assert_eq!(h.len(), 0);
    assert_eq!(h.capacity_of(), 0);
}

#[test]
fn parse_stat_cpu_ignores_spacing_and_trailing_text() {
    let plain = parse_stat_cpu("cpu 100 200 300 400 500");
    assert_eq!(plain, Some((1500, 900)));
    assert_eq!(parse_stat_cpu("  cpu\t100 \t 200   300\t400 500  "), plain);
    assert_eq!(parse_stat_cpu("cpu 100 200 300 400 500 600 700 800"), plain);
    assert_eq!(parse_stat_cpu("cpu 100 200 300 400 500 guest 9"), plain);
}
