use crucible::hardware::{
    card_entries, cores_text, cpu_counts, cpu_model, gpu_subtitle, gpus_from_lspci,
    is_cpu_dir_name, pci_name_from_lspci, total_ram, total_ram_is_defined, vendor_label,
    GpuInfo, GpuScan, OsRelease, SystemSpecs,
};

fn freq_text(mhz: f64) -> String {
    let ghz = if mhz > 0.0 { mhz / 1000.0 } else { 0.0 };
    format!("{:.2}", ghz)
}

fn ram_text(bytes: u64) -> String {
    format!("{:.1}", bytes as f64 / 1_000_000_000.0)
}

#[test]
fn test_to_plain_text() {
    let specs_no_gpu = SystemSpecs {
        os_name: "Ubuntu".to_string(),
        os_version: "22.04".to_string(),
        kernel: "5.15.0".to_string(),
        cpu_model: "Intel Core i7-10700K".to_string(),
        cpu_cores_physical: 8,
        cpu_cores_logical: 16,
        gpus: vec![],
        ram_total_bytes: 16_000_000_000,
    };
    let text = specs_no_gpu.to_plain_text(&freq_text(5100.0), &ram_text(16_000_000_000));
    assert!(text.contains("OS: Ubuntu 22.04"));
    assert!(text.contains("Kernel: 5.15.0"));
    assert!(text.contains("CPU: Intel Core i7-10700K (8C/16T @ 5.10 GHz)"));
    assert!(text.contains("GPU: Unknown"));
    assert!(text.contains("RAM: 16.0 GB"));

    let specs_with_gpu = SystemSpecs {
        os_name: "Ubuntu 22.04 LTS".to_string(),
        os_version: "22.04".to_string(),
        kernel: "5.15.0".to_string(),
        cpu_model: "Intel Core i7-10700K".to_string(),
        cpu_cores_physical: 8,
        cpu_cores_logical: 16,
        gpus: vec![
            GpuInfo {
                name: "NVIDIA GeForce RTX 3080".to_string(),
                vendor: "NVIDIA".to_string(),
                is_integrated: false,
            },
            GpuInfo {
                name: "Intel UHD Graphics 630".to_string(),
                vendor: "Intel".to_string(),
                is_integrated: true,
            },
        ],
        ram_total_bytes: 16_000_000_000,
    };
    let text_with_gpu = specs_with_gpu.to_plain_text(&freq_text(5100.0), &ram_text(16_000_000_000));
    assert!(text_with_gpu.contains("OS: Ubuntu 22.04 LTS"));
    assert!(text_with_gpu.contains("GPU 0: NVIDIA GeForce RTX 3080"));
    assert!(text_with_gpu.contains("GPU 1: Intel UHD Graphics 630 (integrated)"));
}

#[test]
fn plain_text_is_exact() {
    let specs = SystemSpecs {
        os_name: "Fedora".to_string(),
        os_version: String::new(),
        kernel: "6.9".to_string(),
        cpu_model: "X".to_string(),
        cpu_cores_physical: 1,
        cpu_cores_logical: 2,
        gpus: vec![GpuInfo { name: "G".to_string(), vendor: String::new(), is_integrated: false }],
        ram_total_bytes: 0,
    };
    assert_eq!(
        specs.to_plain_text("0.00", "0.0"),
        "System Specs\n\nOS: Fedora\nKernel: 6.9\nCPU: X (1C/2T @ 0.00 GHz)\nGPU 0: G\nRAM: 0.0 GB"
    );
}

#[test]
fn test_read_os_release() {
    let content = "\
# This is a comment
PRETTY_NAME=\"Ubuntu 22.04.2 LTS\"
VERSION_ID=\"22.04\"
INVALID_LINE
";
    let info = OsRelease::parse(content);
    assert_eq!(info.get("PRETTY_NAME").unwrap(), "Ubuntu 22.04.2 LTS");
    assert_eq!(info.get("VERSION_ID").unwrap(), "22.04");
    assert_eq!(info.get("INVALID_LINE"), None);
}

#[test]
fn os_release_later_wins_and_defaults() {
    let info = OsRelease::parse("NAME='Arch'\n  VERSION_ID=1\nVERSION_ID=\"2\"\n");
    assert_eq!(info.get("NAME").unwrap(), "Arch");
    assert_eq!(info.get("VERSION_ID").unwrap(), "2");
    assert_eq!(info.os_info(), ("Linux".to_string(), "2".to_string()));
    let info = OsRelease::parse("PRETTY_NAME=Debian\n");
    assert_eq!(info.os_info(), ("Debian".to_string(), String::new()));
}

#[test]
fn cpuinfo_model_and_counts() {
    let text = "processor\t: 0\nphysical id\t: 0\ncore id\t\t: 0\nmodel name\t: AMD Ryzen 7 5800X 8-Core Processor\n\nprocessor\t: 1\nphysical id\t: 0\ncore id\t\t: 1\n\nprocessor\t: 2\nphysical id\t: 0\ncore id\t\t: 0\n";
    assert_eq!(cpu_model(text), "AMD Ryzen 7 5800X 8-Core Processor");
    // The ids seen before a processor line count for it; the lines after
    // the last processor line are not counted.
    assert_eq!(cpu_counts(text), (2, 3));
    assert_eq!(cpu_model("cpu cores : 4\n"), "Unknown CPU");
    assert_eq!(cpu_counts(""), (1, 1));
    assert_eq!(cpu_counts("processor : 0\nprocessor : 1\n"), (2, 2));
    assert_eq!(cpu_model("Processor : ARMv7 rev 4 (v7l)\n"), "ARMv7 rev 4 (v7l)");
}

#[test]
fn total_ram_takes_first_value() {
    assert_eq!(total_ram("MemFree: 5 kB\nMemTotal: 8 kB\nMemTotal: 9 kB\n"), 8192);
    assert_eq!(total_ram("MemTotal: lots\n"), 0);
    assert!(total_ram_is_defined("MemTotal: 8 kB\n"));
    assert!(!total_ram_is_defined("MemTotal: 18446744073709551615 kB\n"));
}

#[test]
fn cpu_directory_names() {
    assert!(is_cpu_dir_name("cpu0"));
    assert!(is_cpu_dir_name("cpu17"));
    assert!(!is_cpu_dir_name("cpu"));
    assert!(!is_cpu_dir_name("cpufreq"));
    assert!(!is_cpu_dir_name("cpuidle"));
}

#[test]
fn drm_cards_and_vendors() {
    let names: Vec<String> = ["card0", "card0-DP-1", "renderD128", "card1"]
        .iter()
        .map(|s| s.to_string())
        .collect();
    assert_eq!(card_entries(&names), Some(vec![0, 3]));
    assert_eq!(vendor_label("0x10de"), "NVIDIA");
    assert_eq!(vendor_label("0x1002"), "AMD");
    assert_eq!(vendor_label("0x8086"), "Intel");
    assert_eq!(vendor_label("0x1234"), "0x1234");
}

#[test]
fn gpu_scan_skips_seen_cards() {
    let mut scan = GpuScan::new();
    assert!(scan.claim_key("0x8086", "0x9bc5"));
    scan.add("0x8086", None);
    assert!(!scan.claim_key("0x8086", "0x9bc5"));
    assert!(scan.claim_key("0x10de", "0x2206"));
    scan.add("0x10de", Some("GA102 [GeForce RTX 3080]".to_string()));
    let gpus = scan.into_gpus();
    assert_eq!(gpus.len(), 2);
    assert_eq!(gpus[0].name, "Intel GPU");
    assert_eq!(gpus[0].vendor, "Intel");
    assert!(gpus[0].is_integrated);
    assert_eq!(gpus[1].name, "GA102 [GeForce RTX 3080]");
    assert_eq!(gpus[1].vendor, "NVIDIA");
    assert!(!gpus[1].is_integrated);
}

#[test]
fn lspci_name_loses_revision() {
    let out = "01:00.0 VGA compatible controller: NVIDIA Corporation GA102 [GeForce RTX 3080] (rev a1)\n";
    assert_eq!(
        pci_name_from_lspci(out).unwrap(),
        Some("NVIDIA Corporation GA102 [GeForce RTX 3080]".to_string())
    );
    assert_eq!(pci_name_from_lspci("").unwrap(), None);
    assert_eq!(pci_name_from_lspci("no separator here\n").unwrap(), None);
}

#[test]
fn lspci_listing_finds_display_controllers() {
    let out = "00:02.0 VGA compatible controller: Intel Corporation UHD Graphics 630\n00:1f.3 Audio device: Intel Corporation Cannon Lake PCH cAVS\n01:00.0 3D controller: NVIDIA Corporation TU117M\n02:00.0 Display controller: Matrox G200\n";
    let gpus = gpus_from_lspci(out);
    assert_eq!(gpus.len(), 3);
    assert_eq!(gpus[0].name, "Intel Corporation UHD Graphics 630");
    assert_eq!(gpus[0].vendor, "Intel");
    assert!(gpus[0].is_integrated);
    assert_eq!(gpus[1].vendor, "NVIDIA");
    assert!(!gpus[1].is_integrated);
    assert_eq!(gpus[2].name, "Matrox G200");
    assert_eq!(gpus[2].vendor, "");
}

#[test]
fn specs_view_texts() {
    assert_eq!(cores_text(8, 16), "8 cores, 16 threads");
    let g = GpuInfo { name: "x".to_string(), vendor: "Intel".to_string(), is_integrated: true };
    assert_eq!(gpu_subtitle(&g), "Intel · Integrated");
    let g = GpuInfo { name: "x".to_string(), vendor: String::new(), is_integrated: true };
    assert_eq!(gpu_subtitle(&g), "Integrated");
    let g = GpuInfo { name: "x".to_string(), vendor: String::new(), is_integrated: false };
    assert_eq!(gpu_subtitle(&g), "");
}

#[test]
fn gpu_scan_falls_back_to_lspci() {
    let out = "00:02.0 VGA compatible controller: Intel Corporation UHD Graphics 630\n\
               00:1f.3 Audio device: Intel Corporation Cannon Lake PCH cAVS\n";
    let empty = GpuScan::new();
    assert!(empty.wants_lspci());
    let gpus = empty.finish(Some(out));
    assert_eq!(gpus.len(), 1);
    assert_eq!(gpus[0].name, "Intel Corporation UHD Graphics 630");
    assert_eq!(gpus[0].vendor, "Intel");
    assert!(gpus[0].is_integrated);
    assert!(GpuScan::new().finish(None).is_empty());

    let mut scan = GpuScan::new();
    assert!(scan.claim_key("0x10de", "0x2206"));
    scan.add("0x10de", None);
    assert!(!scan.wants_lspci());
    let gpus = scan.finish(Some(out));
    assert_eq!(gpus.len(), 1);
    assert_eq!(gpus[0].name, "NVIDIA GPU");
}
