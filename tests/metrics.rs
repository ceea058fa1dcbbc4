use rsensor::cpu::{label_names_ccd1, read_cpu_temperatures, CpuStats, CpuTemps};
use rsensor::extrema::Extrema;
use rsensor::gpu::{GpuInfo, GpuStats, GpuVendor};
use rsensor::gpu_source::{add_amd_gpu_info, is_amd_card, DrmCard};
use rsensor::memory::{scaled_percent, MemStats};
use rsensor::panel::Mouse;
use rsensor::sensors::{FileRead, SensorChip};

fn chip(name: &str, inputs: Vec<Option<&str>>, labels: Vec<FileRead>) -> SensorChip {
    SensorChip {
        name: Some(String::from(name)),
        inputs: inputs.into_iter().map(|i| i.map(String::from)).collect(),
        labels,
    }
}

fn gpu(name: &str, usage: i64, edge: i64) -> GpuInfo {
    GpuInfo {
        name: String::from(name),
        vendor: GpuVendor::Nvidia,
        edge_temp: edge,
        junction_temp: edge,
        memory_temp: 0,
        usage_percent: usage,
        memory_total: 1024,
        memory_used: 512,
        memory_percent: 50000,
    }
}

#[test]
fn zero_minimum_takes_next_reading() {
    let mut e = Extrema::unset();
    e.observe(5);
    assert_eq!((e.min, e.max), (5, 5));
    e.observe(3);
    e.observe(9);
    assert_eq!((e.min, e.max), (3, 9));
    let mut z = Extrema::seeded(0);
    z.observe(7);
    assert_eq!((z.min, z.max), (7, 7));
}

#[test]
fn first_memory_reading_sets_both_extrema() {
    let mut m = MemStats::new();
    let gib: u64 = 1 << 30;
    let used = 4_509_715_661;
    m.update(16 * gib, used, 16 * gib - used);
    assert_eq!(m.min_mem_usage(), used);
    assert_eq!(m.max_mem_usage(), used);
    assert_eq!(m.percentage_used(), 26);
    let panel = m.get_mouse();
    assert_eq!(panel.title(), "Memory");
    assert_eq!(panel.content().len(), 1);
    assert_eq!(panel.content()[0], "Memory Usage:4.20GiB/16.00GiB 26% Max:4.20GiB Min:4.20GiB");
}

#[test]
fn memory_extrema_follow_readings() {
    let mut m = MemStats::new();
    m.update(1000, 400, 600);
    m.update(1000, 300, 700);
    m.update(1000, 700, 300);
    assert_eq!(m.min_mem_usage(), 300);
    assert_eq!(m.max_mem_usage(), 700);
    m.update(1000, 700, 300);
    assert_eq!((m.min_mem_usage(), m.max_mem_usage()), (300, 700));
    m.update(0, 0, 0);
    assert_eq!(m.percentage_used(), 0);
}

#[test]
fn coretemp_only_tree_gives_package_temperature() {
    let chips = vec![chip("coretemp\n", vec![Some("45000\n")], vec![])];
    let t = read_cpu_temperatures(&chips);
    assert_eq!(t, CpuTemps { tctl: 45000, tccd1: 0, composite: 45000 });
    let mut cpu = CpuStats::new();
    cpu.update(Some("Intel(R) Core(TM) i7"), 12500, vec![10000, 15000], &chips);
    let panel = cpu.get_mouse();
    let lines = panel.content();
    assert!(lines.iter().any(|l| l == "Tctl: 45.0°C (Min: 45.0°C, Max: 45.0°C)"));
    assert!(!lines.iter().any(|l| l.starts_with("Tccd1")));
    assert!(!lines.iter().any(|l| l.starts_with("Composite")));
}

#[test]
fn k10temp_labels_pick_ccd1_channel() {
    let chips = vec![
        chip("nvme", vec![Some("30000")], vec![]),
        chip(
            "k10temp",
            vec![Some("61250"), Some("50000"), Some("58000")],
            vec![FileRead::Text(String::from("Tctl")), FileRead::Text(String::from("Tccd0")), FileRead::Text(String::from("TCCD1\n"))],
        ),
        chip("coretemp", vec![Some("99000")], vec![]),
    ];
    let t = read_cpu_temperatures(&chips);
    assert_eq!(t, CpuTemps { tctl: 61250, tccd1: 58000, composite: 61250 });
}

#[test]
fn k10temp_without_labels_uses_second_channel() {
    let chips = vec![chip("k10temp", vec![Some("61000"), Some("52000")], vec![])];
    let t = read_cpu_temperatures(&chips);
    assert_eq!(t, CpuTemps { tctl: 61000, tccd1: 52000, composite: 61000 });
    let unreadable = vec![chip("k10temp", vec![Some("61000"), Some("52000")], vec![FileRead::Absent, FileRead::Unreadable])];
    assert_eq!(read_cpu_temperatures(&unreadable).tccd1, 0);
}

#[test]
fn no_sensors_leave_temperatures_zero() {
    let t = read_cpu_temperatures(&vec![]);
    assert_eq!(t, CpuTemps { tctl: 0, tccd1: 0, composite: 0 });
}

#[test]
fn twenty_cores_show_sixteen_and_a_count() {
    let mut cpu = CpuStats::new();
    let cores: Vec<i64> = (0..20).map(|i| i * 1000).collect();
    cpu.update(None, 5000, cores, &vec![]);
    let panel = cpu.get_mouse();
    let lines = panel.content();
    assert_eq!(lines[0], "Model: Unknown CPU");
    assert_eq!(lines[1], "Cores: 10, Threads: 20");
    assert_eq!(lines[2], "Usage: 5.0% (Min: 5.0%, Max: 5.0%)");
    assert_eq!(lines[3], "");
    assert_eq!(lines[4], "Per-core Usage:");
    assert_eq!(lines[5], "CPU0: 0.0%, CPU1: 1.0%, CPU2: 2.0%, CPU3: 3.0%");
    assert_eq!(lines[8], "CPU12: 12.0%, CPU13: 13.0%, CPU14: 14.0%, CPU15: 15.0%");
    assert_eq!(lines[9], "... and 4 more cores");
    assert_eq!(lines.len(), 10);
}

#[test]
fn cpu_usage_extrema_are_zero_aware() {
    let mut cpu = CpuStats::new();
    cpu.update(Some("X"), 0, vec![], &vec![]);
    cpu.update(Some("X"), 30000, vec![], &vec![]);
    assert_eq!(cpu.usage_extrema(), Extrema { min: 30000, max: 30000 });
    cpu.update(Some("X"), 20000, vec![], &vec![]);
    assert_eq!(cpu.usage_extrema(), Extrema { min: 20000, max: 30000 });
}

fn amd_card() -> DrmCard {
    DrmCard {
        entry_name: String::from("card1"),
        is_dir: true,
        vendor: Some(String::from("0x1002\n")),
        lspci_output: None,
        product: Some(String::from("  Radeon Test  \n")),
        hwmon: vec![chip("amdgpu", vec![Some("45000\n"), Some("52000\n"), Some("60000\n")], vec![])],
        vram_total: FileRead::Text(String::from("8589934592\n")),
        vram_used: FileRead::Text(String::from("4294967296\n")),
        busy_percent: Some(String::from("37\n")),
    }
}

#[test]
fn amd_card_files_give_gpu() {
    let card = amd_card();
    assert!(is_amd_card(&card));
    let g = add_amd_gpu_info(&card);
    assert_eq!(g.name, "Radeon Test");
    assert_eq!(g.vendor, GpuVendor::Amd);
    assert_eq!((g.edge_temp, g.junction_temp, g.memory_temp), (45000, 52000, 60000));
    assert_eq!(g.usage_percent, 37000);
    assert_eq!(g.memory_total, 8589934592);
    assert_eq!(g.memory_used, 4294967296);
    assert_eq!(g.memory_percent, 50000);
}

#[test]
fn amd_card_name_prefers_lspci_and_falls_back() {
    let mut card = amd_card();
    card.lspci_output = Some(String::from("03:00.0 VGA compatible controller: AMD Radeon RX 7900 (rev c8)\n"));
    assert_eq!(add_amd_gpu_info(&card).name, "AMD Radeon RX 7900");
    card.lspci_output = None;
    card.product = Some(String::from("   "));
    assert_eq!(add_amd_gpu_info(&card).name, "AMD GPU");
    card.vram_used = FileRead::Absent;
    let g = add_amd_gpu_info(&card);
    assert_eq!((g.memory_total, g.memory_used, g.memory_percent), (0, 0, 0));
    card.vendor = Some(String::from("0x10de"));
    assert!(!is_amd_card(&card));
}

#[test]
fn poll_reads_both_vendors() {
    let mut stats = GpuStats::new();
    let cards = vec![amd_card()];
    stats.update(Some("GeForce RTX 3080, 65, 42, 4096, 10240\n"), &cards);
    let gpus = stats.get_gpus();
    assert_eq!(gpus.len(), 2);
    assert_eq!(gpus[0].vendor, GpuVendor::Nvidia);
    assert_eq!(gpus[1].vendor, GpuVendor::Amd);
    stats.update(None, &vec![]);
    assert_eq!(stats.get_gpus().len(), 0);
    assert_eq!(stats.extrema_for(&String::from("NVIDIA GeForce RTX 3080")), None);
}

#[test]
fn vanished_gpu_loses_its_extrema() {
    let mut stats = GpuStats::new();
    stats.record_inventory(vec![gpu("A", 10000, 50000), gpu("B", 20000, 60000)]);
    assert!(stats.extrema_for(&String::from("NVIDIA B")).is_some());
    stats.record_inventory(vec![gpu("A", 15000, 55000)]);
    assert!(stats.extrema_for(&String::from("NVIDIA B")).is_none());
    let a = stats.extrema_for(&String::from("NVIDIA A")).unwrap();
    assert_eq!(a.usage_percent, Extrema { min: 10000, max: 15000 });
    assert_eq!(a.edge_temp, Extrema { min: 50000, max: 55000 });
}

#[test]
fn new_gpu_is_seeded_with_its_reading() {
    let mut stats = GpuStats::new();
    stats.record_inventory(vec![gpu("A", 10000, 50000)]);
    stats.record_inventory(vec![gpu("A", 10000, 50000), gpu("C", 33000, 71000)]);
    let c = stats.extrema_for(&String::from("NVIDIA C")).unwrap();
    assert_eq!(c.usage_percent, Extrema { min: 33000, max: 33000 });
    assert_eq!(c.edge_temp, Extrema { min: 71000, max: 71000 });
    assert_eq!(c.memory_temp, Extrema { min: 0, max: 0 });
}

#[test]
fn same_readings_keep_extrema() {
    let mut stats = GpuStats::new();
    let poll = || vec![gpu("A", 0, 50000), gpu("B", 20000, 60000)];
    stats.record_inventory(poll());
    let a1 = stats.extrema_for(&String::from("NVIDIA A")).unwrap();
    let b1 = stats.extrema_for(&String::from("NVIDIA B")).unwrap();
    stats.record_inventory(poll());
    stats.record_inventory(poll());
    assert_eq!(stats.extrema_for(&String::from("NVIDIA A")).unwrap(), a1);
    assert_eq!(stats.extrema_for(&String::from("NVIDIA B")).unwrap(), b1);
}

#[test]
fn gpu_panel_lines() {
    let mut stats = GpuStats::new();
    let empty = stats.get_mouse();
    assert_eq!(empty.title(), "GPU");
    assert_eq!(empty.content(), &vec![String::from("No GPUs detected")]);
    let mut g = gpu("Advanced Micro Devices, Inc. [AMD/ATI] Navi 21", 42000, 65000);
    g.vendor = GpuVendor::Amd;
    g.memory_temp = 70000;
    stats.record_inventory(vec![g, gpu("B", 1000, 40000)]);
    let panel = stats.get_mouse();
    let lines = panel.content();
    assert_eq!(lines[0], "GPU 1: AMD Navi 21");
    assert_eq!(lines[1], "Temp: Edge: 65.0°C (Min: 65.0°C, Max: 65.0°C)");
    assert_eq!(lines[2], "Junct: 65.0°C (Min: 65.0°C, Max: 65.0°C)");
    assert_eq!(lines[3], "Mem Temp: 70.0°C (Min: 70.0°C, Max: 70.0°C)");
    assert_eq!(lines[4], "GPU Usage: 42.0% (Min: 42.0%, Max: 42.0%)");
    assert_eq!(lines[5], "Memory: 512.00B/1.00KiB (50.0%)");
    assert_eq!(lines[6], "Mem Usage: Min: 50.0%, Max: 50.0%");
    assert_eq!(lines[7], "");
    assert_eq!(lines[8], "GPU 2: B");
}

#[test]
fn panel_sizes() {
    let mut m = Mouse::new(String::from("Memory"));
    assert_eq!(m.content_height(), 2);
    assert_eq!(m.content_width(), 6);
    m.add(String::from("Temp: 45.0°C"));
    m.add(String::from("ab"));
    assert_eq!(m.content_height(), 4);
    assert_eq!(m.content_width(), 12);
}

#[test]
fn memory_share_uses_scaled_sizes() {
    let mib: u64 = 1 << 20;
    let gib: u64 = 1 << 30;
    assert_eq!(scaled_percent(900 * mib, 16 * gib), 5625);
    assert_eq!(scaled_percent(8 * gib, 16 * gib), 50);
    assert_eq!(scaled_percent(512, 1024), 51200);
    assert_eq!(scaled_percent(u64::MAX, u64::MAX), 100);
    assert_eq!(scaled_percent(5, 0), 0);
    let mut m = MemStats::new();
    m.update(16 * gib, 900 * mib, 15 * gib);
    assert_eq!(m.percentage_used(), 5625);
}

#[test]
fn lowercased_labels_naming_ccd1() {
    assert!(label_names_ccd1("tccd1"));
    assert!(label_names_ccd1("ccd1 die"));
    assert!(!label_names_ccd1("tccd0"));
    assert!(!label_names_ccd1("TCCD1"));
}
