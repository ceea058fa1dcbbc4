use rsensor::gpu::GpuVendor;
use rsensor::gpu_source::{extract_gpu_name_from_lspci, parse_nvidia_output, pci_bus_id_from_link};
use rsensor::number::{parse_milli, parse_u64};
use rsensor::text::{lines, push_decimal, push_signed, push_tenths, replace_str, split_char, trim};

#[test]
fn decimal_text_reads_into_thousandths() {
    assert_eq!(parse_milli("45.5"), Some(45500));
    assert_eq!(parse_milli("-3"), Some(-3000));
    assert_eq!(parse_milli("+0.1234"), Some(123));
    assert_eq!(parse_milli(".5"), Some(500));
    assert_eq!(parse_milli("7."), Some(7000));
    assert_eq!(parse_milli("[N/A]"), None);
    assert_eq!(parse_milli(""), None);
    assert_eq!(parse_milli("."), None);
    assert_eq!(parse_milli("99999999999999999999"), None);
}

#[test]
fn unsigned_text_reads_like_u64_from_str() {
    assert_eq!(parse_u64("4096"), Some(4096));
    assert_eq!(parse_u64("+42"), Some(42));
    assert_eq!(parse_u64("18446744073709551615"), Some(u64::MAX));
    assert_eq!(parse_u64("18446744073709551616"), None);
    assert_eq!(parse_u64("-1"), None);
    assert_eq!(parse_u64(""), None);
}

#[test]
fn trim_split_and_lines_follow_std() {
    assert_eq!(trim("  0x1002\n"), "0x1002");
    assert_eq!(trim("\u{3000}x\u{a0}"), "x");
    assert_eq!(split_char("a,,b", ','), vec!["a", "", "b"]);
    assert_eq!(lines("a\r\nb\n\nc\n"), vec!["a", "b", "", "c"]);
    assert_eq!(lines("a\r"), vec!["a\r"]);
    assert!(lines("").is_empty());
    assert_eq!(replace_str("xAyAz", "A", "--"), String::from("x--y--z"));
}

#[test]
fn vendor_tool_row_parses_into_gpu() {
    let gpus = parse_nvidia_output("GeForce RTX 3080, 65, 42, 4096, 10240");
    assert_eq!(gpus.len(), 1);
    let g = &gpus[0];
    assert_eq!(g.name, "GeForce RTX 3080");
    assert_eq!(g.vendor, GpuVendor::Nvidia);
    assert_eq!(g.edge_temp, 65000);
    assert_eq!(g.junction_temp, 65000);
    assert_eq!(g.memory_temp, 0);
    assert_eq!(g.usage_percent, 42000);
    assert_eq!(g.memory_used, 4096 * 1024 * 1024);
    assert_eq!(g.memory_total, 10240 * 1024 * 1024);
    assert_eq!(g.memory_percent, 40000);
}

#[test]
fn short_row_is_dropped_alone() {
    let out = "Quadro P400, 40, 3, 100\nGeForce RTX 3080, 65, 42, 4096, 10240\n";
    let gpus = parse_nvidia_output(out);
    assert_eq!(gpus.len(), 1);
    assert_eq!(gpus[0].name, "GeForce RTX 3080");
    assert_eq!(gpus[0].usage_percent, 42000);
}

#[test]
fn unreadable_numbers_count_as_zero() {
    let gpus = parse_nvidia_output("Tesla T4, [N/A], 7, 0, 0\r\n");
    assert_eq!(gpus.len(), 1);
    assert_eq!(gpus[0].name, "Tesla T4");
    assert_eq!(gpus[0].edge_temp, 0);
    assert_eq!(gpus[0].usage_percent, 7000);
    assert_eq!(gpus[0].memory_percent, 0);
}

#[test]
fn lspci_listing_gives_marketing_name() {
    let out = "03:00.0 VGA compatible controller [0300]: Advanced Micro Devices, Inc. [AMD/ATI] Navi 21 [Radeon RX 6800] [1002:73bf] (rev c1)\n\tSubsystem: Sapphire\n";
    assert_eq!(
        extract_gpu_name_from_lspci(out),
        Some(String::from("Advanced Micro Devices, Inc. [AMD/ATI] Navi 21 [Radeon RX 6800] [1002:73bf]"))
    );
    let plain = "0a:00.0 Display controller: AMD Radeon Pro W6800\n";
    assert_eq!(extract_gpu_name_from_lspci(plain), Some(String::from("AMD Radeon Pro W6800")));
    let other = "01:00.0 VGA compatible controller: NVIDIA Corporation GA102\n";
    assert_eq!(extract_gpu_name_from_lspci(other), None);
}

#[test]
fn device_link_gives_bus_address() {
    assert_eq!(
        pci_bus_id_from_link("../../devices/pci0000:00/0000:00:03.1/0000:03:00.0"),
        Some(String::from("03:00.0"))
    );
    assert_eq!(pci_bus_id_from_link("../../devices/platform/gpu"), None);
}

#[test]
fn vendor_labels() {
    assert_eq!(GpuVendor::Nvidia.as_string(), "NVIDIA");
    assert_eq!(GpuVendor::Amd.as_string(), "AMD");
    assert_eq!(GpuVendor::Unknown.as_string(), "Unknown");
}

#[test]
fn tenths_round_half_away_from_zero() {
    let mut s = String::new();
    push_tenths(&mut s, 45250);
    assert_eq!(s, "45.3");
    let mut s = String::new();
    push_tenths(&mut s, 45249);
    assert_eq!(s, "45.2");
    let mut s = String::new();
    push_tenths(&mut s, -20);
    assert_eq!(s, "-0.0");
    let mut s = String::from("x");
    push_decimal(&mut s, 1907);
    push_signed(&mut s, i64::MIN);
    assert_eq!(s, "x1907-9223372036854775808");
}

#[test]
fn huge_memory_counts_saturate() {
    let gpus = parse_nvidia_output("Big, 1, 2, 17592186044416, 17592186044416");
    assert_eq!(gpus[0].memory_used, u64::MAX);
    assert_eq!(gpus[0].memory_total, u64::MAX);
    assert_eq!(gpus[0].memory_percent, 100000);
}
