use am02_service::collector::{
    average_mhz, choose_net_iface, disk_usage, fan_rpm, first_num, fps_from_message, is_cpu_dir_name,
    is_k10temp, millidegrees_to_c, mount_candidates, oper_up, parse_cpu_times, parse_gpu_metrics,
    parse_u64_text, ram_usage, read_rapl_package, sysv_queue_ids, u16_at, Collector, CpuDelta, CpuTimes, EnergyDelta,
    FanChip, FsStats, GpuReading, NetDelta, NetIface, RaplDomain,
};

#[test]
fn cpu_times_from_proc_stat() {
    let stat = "cpu  10 20 30 400 50 6 7 0 0 0\ncpu0 1 2 3 4 5 6 7 0 0 0\nintr 1\n";
    assert_eq!(parse_cpu_times(stat), Some(CpuTimes { idle: 450, total: 523 }));
    // only four numbers: no iowait
    assert_eq!(parse_cpu_times("cpu 1 2 3 4"), Some(CpuTimes { idle: 4, total: 10 }));
    // words that are not numbers are skipped
    assert_eq!(parse_cpu_times("cpu 1 x 2 3 4"), Some(CpuTimes { idle: 4, total: 10 }));
    assert_eq!(parse_cpu_times("cpu 1 2 3"), None);
    assert_eq!(parse_cpu_times("cpu0 1 2 3 4 5"), None);
    assert_eq!(parse_cpu_times(""), None);
    assert_eq!(parse_cpu_times("\ncpu 1 2 3 4"), None);
    // the sum wraps around like release-mode arithmetic
    let big = format!("cpu {} 1 0 0", u64::MAX);
    assert_eq!(parse_cpu_times(&big), Some(CpuTimes { idle: 0, total: 0 }));
}

#[test]
fn meminfo_in_gb() {
    let m = "MemTotal:       32505856 kB\nMemFree:         1000000 kB\nMemAvailable:   22020096 kB\n";
    // 32505856 kB = 31 GB; used 10485760 kB = 10 GB
    assert_eq!(ram_usage(m), (10, 31));
    assert_eq!(ram_usage(""), (0, 0));
    // available larger than total saturates at 0
    assert_eq!(ram_usage("MemTotal: 1048576 kB\nMemAvailable: 9999999 kB"), (0, 1));
}

#[test]
fn numbers_in_text() {
    assert_eq!(first_num("   123 kB"), 123);
    assert_eq!(first_num("abc 5"), 0);
    assert_eq!(first_num(""), 0);
    assert_eq!(parse_u64_text(" 42\n"), Some(42));
    assert_eq!(parse_u64_text("+7"), Some(7));
    assert_eq!(parse_u64_text("-7"), None);
    assert_eq!(parse_u64_text("+"), None);
    assert_eq!(parse_u64_text(""), None);
    assert_eq!(parse_u64_text("18446744073709551615"), Some(u64::MAX));
    assert_eq!(parse_u64_text("18446744073709551616"), None);
    assert_eq!(parse_u64_text("12a"), None);
}

#[test]
fn mounts_pick_each_data_partition_once() {
    let mounts = "\
/dev/nvme0n1p7 /var btrfs rw 0 0
/dev/nvme0n1p7 /home btrfs rw 0 0
/dev/nvme0n1p1 /boot/efi vfat rw 0 0
/dev/nvme0n1p2 /boot ext4 rw 0 0
/dev/sda1 /run/media/game btrfs rw 0 0
/dev/mapper/luks /srv btrfs rw 0 0
overlay / overlay rw 0 0
/dev/zram0 none swap rw 0 0
/dev/mmcblk0p1 /mnt/sd exfat rw 0 0
broken-line
";
    assert_eq!(mount_candidates(mounts), vec!["/var", "/run/media/game", "/mnt/sd"]);
    assert!(mount_candidates("").is_empty());
}

#[test]
fn disk_totals_round_to_gb() {
    const GB: u64 = 1 << 30;
    let stats = vec![
        FsStats { blocks: 250 * 1024 * 1024, bfree: 100 * 1024 * 1024, frsize: 4096 }, // 1000 GB, 600 used
        FsStats { blocks: 3 * GB / 2 / 4096, bfree: 0, frsize: 4096 },                 // 1.5 GB rounds to 2
    ];
    assert_eq!(disk_usage(&stats), (602, 1002));
    assert_eq!(disk_usage(&Vec::new()), (0, 0));
    let huge = vec![FsStats { blocks: u64::MAX, bfree: 0, frsize: 4096 }];
    // saturates instead of overflowing
    assert_eq!(disk_usage(&huge), ((u64::MAX / GB) as i32, (u64::MAX / GB) as i32));
}

#[test]
fn gpu_metrics_layouts() {
    assert_eq!(u16_at(&[1, 2, 3], 1), 0x0302);
    assert_eq!(u16_at(&[1, 2, 3], 2), 0);
    let mut v2 = vec![0u8; 80];
    v2[2] = 2;
    v2[4..6].copy_from_slice(&4550u16.to_le_bytes());
    v2[28..30].copy_from_slice(&2345u16.to_le_bytes());
    v2[46..48].copy_from_slice(&12500u16.to_le_bytes());
    v2[64..66].copy_from_slice(&1800u16.to_le_bytes());
    assert_eq!(
        parse_gpu_metrics(&v2),
        Some(GpuReading { usage_centipercent: 2345, temp: 45, power_mw: 12500, freq: 1800 })
    );
    let mut v1 = vec![0u8; 60];
    v1[2] = 1;
    v1[6..8].copy_from_slice(&6000u16.to_le_bytes());
    v1[16..18].copy_from_slice(&10000u16.to_le_bytes());
    v1[22..24].copy_from_slice(&5000u16.to_le_bytes());
    v1[54..56].copy_from_slice(&2200u16.to_le_bytes());
    assert_eq!(
        parse_gpu_metrics(&v1),
        Some(GpuReading { usage_centipercent: 10000, temp: 60, power_mw: 5000, freq: 2200 })
    );
    assert_eq!(parse_gpu_metrics(&[0, 0, 3, 0]), None);
    assert_eq!(parse_gpu_metrics(&[0, 0, 2]), None);
    // short blob: fields past the end read as 0
    assert_eq!(
        parse_gpu_metrics(&[0, 0, 2, 0, 0x10, 0x27]),
        Some(GpuReading { usage_centipercent: 0, temp: 100, power_mw: 0, freq: 0 })
    );
}

fn iface(name: &str, physical: bool, up: bool) -> NetIface {
    NetIface { name: name.to_string(), physical, up }
}

#[test]
fn net_interface_choice() {
    let v = vec![iface("lo", true, true), iface("wlan0", false, true), iface("eno1", true, false), iface("eno2", true, false)];
    assert_eq!(choose_net_iface(&v), Some(2));
    let v = vec![iface("docker0", false, true), iface("eno1", true, true)];
    assert_eq!(choose_net_iface(&v), Some(1));
    assert_eq!(choose_net_iface(&vec![iface("lo", true, true)]), None);
    assert_eq!(choose_net_iface(&Vec::new()), None);
    assert!(oper_up("up\n"));
    assert!(!oper_up("down\n"));
    assert!(!oper_up("upper"));
}

#[test]
fn cpu_frequency_and_temperature() {
    assert!(is_cpu_dir_name("cpu0"));
    assert!(is_cpu_dir_name("cpu15"));
    assert!(!is_cpu_dir_name("cpu"));
    assert!(!is_cpu_dir_name("cpufreq"));
    assert!(!is_cpu_dir_name("cpuidle"));
    assert!(!is_cpu_dir_name("node0"));
    assert_eq!(average_mhz(&vec![3_000_000, 4_000_000]), 3500);
    assert_eq!(average_mhz(&Vec::new()), 0);
    assert_eq!(millidegrees_to_c(54875), 54);
    assert!(is_k10temp("k10temp\n"));
    assert!(!is_k10temp("amdgpu\n"));
}

#[test]
fn fan_speed_from_ite_chip() {
    let chips = vec![
        FanChip { name: "k10temp\n".to_string(), fans: vec![Some(900)] },
        FanChip { name: "it8620\n".to_string(), fans: vec![None, Some(0), Some(2150), Some(3000)] },
    ];
    assert_eq!(fan_rpm(&chips), 2150);
    let idle = vec![FanChip { name: "it87\n".to_string(), fans: vec![Some(0), None] }];
    assert_eq!(fan_rpm(&idle), 0);
    assert_eq!(fan_rpm(&Vec::new()), 0);
}

fn rapl(name: &str, e: Option<u64>, m: Option<u64>) -> RaplDomain {
    RaplDomain { name: name.to_string(), energy_uj: e, max_energy_range_uj: m }
}

#[test]
fn rapl_domain_choice() {
    let v = vec![rapl("intel-rapl:0:0", Some(5), Some(9)), rapl("intel-rapl:0", Some(100), Some(1000))];
    assert_eq!(read_rapl_package(&v), Some((100, 1000)));
    let v = vec![rapl("intel-rapl:0", None, None), rapl("intel-rapl:1", Some(7), None), rapl("intel-rapl:2", Some(8), Some(1))];
    assert_eq!(read_rapl_package(&v), Some((7, 0)));
    let v = vec![rapl("dtpm", Some(1), Some(1)), rapl("intel-rapl:1", None, None), rapl("intel-rapl:2", Some(8), Some(1))];
    assert_eq!(read_rapl_package(&v), None);
    assert_eq!(read_rapl_package(&Vec::new()), None);
}

#[test]
fn rate_baselines() {
    let mut c = Collector::new();
    assert_eq!(c.cpu_sample(Some(CpuTimes { idle: 100, total: 1000 })), None);
    assert_eq!(
        c.cpu_sample(Some(CpuTimes { idle: 150, total: 1200 })),
        Some(CpuDelta { total: 200, idle: 50 })
    );
    assert_eq!(c.cpu_sample(None), None);
    assert_eq!(c.last_cpu, None);

    assert_eq!(c.rapl_sample(Some((1000, 5000)), 10), None);
    assert_eq!(c.rapl_sample(Some((1500, 5000)), 1_000_000_010), Some(EnergyDelta { energy_uj: 500, elapsed_ns: 1_000_000_000 }));
    // wrap-around of the counter
    assert_eq!(c.rapl_sample(Some((100, 5000)), 2_000_000_010), Some(EnergyDelta { energy_uj: 3600, elapsed_ns: 1_000_000_000 }));
    // no time elapsed: no rate
    assert_eq!(c.rapl_sample(Some((200, 5000)), 2_000_000_010), None);

    assert_eq!(c.net_sample(Some((1000, 10)), 0), None);
    assert_eq!(c.net_sample(None, 5), None);
    assert_eq!(c.last_net_rx, Some(1000));
    assert_eq!(
        c.net_sample(Some((3048, 5)), 1_000_000_000),
        Some(NetDelta { rx_bytes: 2048, tx_bytes: 0, elapsed_ns: 1_000_000_000 })
    );
}

#[test]
fn fps_from_mangoapp_message() {
    let mut buf = vec![0u8; 1032];
    buf[24..32].copy_from_slice(&16_666_667u64.to_le_bytes());
    assert_eq!(fps_from_message(&buf), Some(59));
    buf[24..32].copy_from_slice(&0u64.to_le_bytes());
    assert_eq!(fps_from_message(&buf), Some(0));
    assert_eq!(fps_from_message(&buf[..31]), None);
}

#[test]
fn sysv_queue_listing() {
    let text = "       key      msqid perms      cbytes       qnum lspid lrpid   uid   gid  cuid  cgid      stime      rtime      ctime\n\
 1090584637          3   666           0          0     0     0  1000  1000  1000  1000          0          0 1716000000\n\
 0 -5 600\n\
 0 x 600\n\
 7\n\
 0 2147483648 1\n\
 0 +12 1\n";
    assert_eq!(sysv_queue_ids(text), vec![3, -5, 12]);
    assert!(sysv_queue_ids("").is_empty());
    assert!(sysv_queue_ids("header only\n").is_empty());
}

#[test]
fn missing_sources_read_as_zero() {
    assert_eq!(parse_cpu_times(""), None);
    assert_eq!(ram_usage(""), (0, 0));
    assert!(mount_candidates("").is_empty());
    assert_eq!(disk_usage(&Vec::new()), (0, 0));
    assert_eq!(parse_gpu_metrics(&[]), None);
    assert_eq!(fan_rpm(&Vec::new()), 0);
    assert_eq!(read_rapl_package(&Vec::new()), None);
    assert_eq!(parse_u64_text(""), None);
    assert_eq!(first_num(""), 0);
    assert!(!oper_up(""));
    assert!(sysv_queue_ids("").is_empty());
    assert_eq!(average_mhz(&Vec::new()), 0);
    assert_eq!(fps_from_message(&[]), None);
    let mut c = Collector::new();
    assert_eq!(c.cpu_sample(None), None);
    assert_eq!(c.rapl_sample(None, 1_000), None);
    assert_eq!(c.net_sample(None, 1_000), None);
}
