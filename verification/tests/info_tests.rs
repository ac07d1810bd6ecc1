use std::collections::VecDeque;

use fast::info::bar::build_bar;
use fast::info::disk::{DiskEntry, DiskWidget};
use fast::info::gpu::GpuWidget;
use fast::info::network::{braille_char, push_history, total_traffic, TrafficCounter, HISTORY};
use fast::info::ram::{MemoryKind, RamWidget};
use fast::info::system_info::{format_uptime, SystemInfoWidget};

#[test]
fn ten_cell_bar() {
    assert_eq!(build_bar(0), "░░".repeat(10));
    assert_eq!(build_bar(35), format!("{}{}", "██".repeat(3), "░░".repeat(7)));
    assert_eq!(build_bar(100), "██".repeat(10));
    assert_eq!(build_bar(250), "██".repeat(10));
}

#[test]
fn ram_percent_and_mebibytes() {
    let w = RamWidget { total_memory: 8 << 30, used_memory: 2 << 30, total_swap: 0, used_swap: 0 };
    assert_eq!(w.percentage(MemoryKind::Ram), 25);
    assert_eq!(w.percentage(MemoryKind::Swap), 0);
    assert_eq!(w.values_mb(MemoryKind::Ram), (2048, 8192));
    assert_eq!(w.values_mb(MemoryKind::Swap), (0, 0));
    let n = RamWidget::new();
    assert_eq!((n.total_memory, n.used_memory, n.total_swap, n.used_swap), (0, 0, 0, 0));
}

#[test]
fn ram_render_text() {
    let w = RamWidget { total_memory: 1000 << 20, used_memory: 450 << 20, total_swap: 100 << 20, used_swap: 100 << 20 };
    let expected = format!(
        "\n RAM  {}{} 450 MB/1000 MB\n\n SWAP {} 100 MB/100 MB\n",
        "██".repeat(2),
        "░░".repeat(3),
        "██".repeat(5)
    );
    assert_eq!(w.render(), expected);
}

#[test]
fn disk_figures() {
    assert_eq!(DiskWidget::percent(50, 200), 25);
    assert_eq!(DiskWidget::percent(5, 0), 0);
    assert_eq!(DiskWidget::to_gb(2_500_000_000), 2);
    assert_eq!(DiskWidget::build_blocks(47), " [■■■■□□□□□□]");
    assert_eq!(DiskWidget::build_blocks(100), " [■■■■■■■■■■]");
    let d = DiskEntry::from_space("/".to_string(), "SSD".to_string(), 100, 40);
    assert_eq!(d.used, 60);
    assert_eq!(d.total, 100);
}

#[test]
fn disk_render_text() {
    let mut w = DiskWidget::new();
    assert_eq!(w.render(), "\n");
    w.disks.push(DiskEntry::from_space("/".to_string(), "SSD".to_string(), 500_000_000_000, 125_000_000_000));
    w.disks.push(DiskEntry { mount: "/mnt".to_string(), kind: "HDD".to_string(), total: 0, used: 0 });
    let expected = "\n / (SSD)\n [■■■■■■■□□□]\n 375GB / 500GB  (75%)\n /mnt (HDD)\n [□□□□□□□□□□]\n 0GB / 0GB  (0%)\n";
    assert_eq!(w.render(), expected);
}

#[test]
fn gpu_render_text() {
    let mut g = GpuWidget::new();
    let empty = format!("  \n Temp  0°C\n\n Load {} 0%\n\n VRAM {} 0 / 0 MB\n", "░░".repeat(10), "░░".repeat(10));
    assert_eq!(g.render(), empty);
    g.update("NVIDIA".to_string(), "RTX".to_string(), 8 << 30, 2 << 30, 57, 65_432);
    let expected = format!(
        " NVIDIA RTX\n Temp  65°C\n\n Load {}{} 57%\n\n VRAM {}{} 2048 / 8192 MB\n",
        "██".repeat(5),
        "░░".repeat(5),
        "██".repeat(2),
        "░░".repeat(8)
    );
    assert_eq!(g.render(), expected);
}

#[test]
fn uptime_format() {
    assert_eq!(format_uptime(0), "00h 00m 00s");
    assert_eq!(format_uptime(3661), "01h 01m 01s");
    assert_eq!(format_uptime(86399), "23h 59m 59s");
    assert_eq!(format_uptime(360_000), "100h 00m 00s");
}

#[test]
fn system_render_text() {
    let mut w = SystemInfoWidget::new();
    assert_eq!(
        w.render(),
        " Host     \n OS        \n Kernel   \n CPU      \n Cores    0\n Uptime   00h 00m 00s\n Boot     0\n"
    );
    w.apply(
        Some("Linux".to_string()),
        Some("22.04".to_string()),
        Some("6.1.0".to_string()),
        Some("box".to_string()),
        7325,
        1_700_000_000,
        Some("Ryzen".to_string()),
        8,
    );
    let expected = " Host     box\n OS       Linux 22.04\n Kernel   6.1.0\n CPU      Ryzen\n Cores    8\n Uptime   02h 02m 05s\n Boot     1700000000\n";
    assert_eq!(w.render(), expected);
    // no CPU listed: the brand stays, unknown names show empty
    w.apply(None, None, None, None, 5, 6, None, 0);
    let expected = " Host     \n OS        \n Kernel   \n CPU      Ryzen\n Cores    0\n Uptime   00h 00m 05s\n Boot     6\n";
    assert_eq!(w.render(), expected);
}

#[test]
fn traffic_totals_and_overflow() {
    assert_eq!(total_traffic(&vec![]), Some((0, 0)));
    assert_eq!(total_traffic(&vec![(10, 1), (20, 2), (30, 3)]), Some((60, 6)));
    assert_eq!(total_traffic(&vec![(u64::MAX, 0), (1, 0)]), None);
    assert_eq!(total_traffic(&vec![(0, u64::MAX), (0, 1)]), None);
    assert_eq!(total_traffic(&vec![(u64::MAX - 1, 5), (1, 5)]), Some((u64::MAX, 10)));
}

#[test]
fn traffic_counter_deltas() {
    let mut c = TrafficCounter::new();
    assert_eq!(c.advance(1000, 500), (1000, 500));
    assert_eq!(c.advance(1500, 700), (500, 200));
    // a counter that went down (interface reset) gives 0
    assert_eq!(c.advance(100, 900), (0, 200));
    assert_eq!((c.last_rx, c.last_tx), (100, 900));
}

#[test]
fn history_stays_bounded() {
    let mut h: VecDeque<u32> = VecDeque::new();
    for i in 0..25u32 {
        push_history(&mut h, i);
        assert!(h.len() <= HISTORY);
    }
    let v: Vec<u32> = h.into_iter().collect();
    assert_eq!(v, (15..25).collect::<Vec<u32>>());
}

#[test]
fn braille_levels() {
    let glyphs: Vec<char> = (0..10u8).map(braille_char).collect();
    assert_eq!(glyphs, vec!['⣀', '⣄', '⣆', '⣇', '⣧', '⣷', '⣾', '⣿', '⣿', '⣿']);
}
