use startpe::geometry::Rect;
use startpe::paint::Draw;
use startpe::sysinfo::format::{dash, fmt_bytes, fmt_mhz, num};
use startpe::sysinfo::gather::{arch_name, bios_date, bios_date_ok, wql, Facts, Field, Record, WmiClass};
use startpe::sysinfo::rows::{build_rows, rows_height, Row};
use startpe::sysinfo::{
    close_button, content_area, glyph_height, hit, launch, make_glyph_icon, nav_item, show_at, tint_pixel,
    Gpu, Hit, Launch, MemModule, Nic, Outcome, State, SysInfo,
};

fn float_bytes(b: u64) -> String {
    if b == 0 {
        return "\u{2014}".into();
    }
    let gb = b as f64 / (1024.0 * 1024.0 * 1024.0);
    if gb >= 1.0 {
        format!("{gb:.1} GB")
    } else {
        format!("{:.0} MB", b as f64 / (1024.0 * 1024.0))
    }
}

fn float_mhz(mhz: u32) -> String {
    if mhz == 0 {
        "\u{2014}".into()
    } else if mhz >= 1000 {
        format!("{:.2} GHz", mhz as f64 / 1000.0)
    } else {
        format!("{mhz} MHz")
    }
}

#[test]
fn sizes_are_written_like_floats() {
    let mut seeds: Vec<u64> = vec![
        0, 1, 524287, 524288, 524289, 1 << 20, (1 << 20) + (1 << 19), (2 << 20) + (1 << 19), 1 << 30, (1 << 30) - 1,
        8589934592, 34359738368, 17179869184 + 53687091, 53687091, 53687092, u64::MAX, u64::MAX - 1, 1 << 53,
        (1 << 53) + 1, (1 << 54) + 2, (1 << 54) + 3, (1 << 63) + 1024, (1 << 63) + 1025, 1 << 63,
    ];
    let mut x: u64 = 0x9E37_79B9_7F4A_7C15;
    for i in 0..20000u32 {
        x ^= x << 13;
        x ^= x >> 7;
        x ^= x << 17;
        seeds.push(x >> (i % 64));
    }
    for k in 0..2000u64 {
        seeds.push((1 << 30) + k * 53687091 + k / 2);
        seeds.push(k * 524288);
        seeds.push((1u64 << 29) * k);
    }
    for b in seeds {
        assert_eq!(fmt_bytes(b), float_bytes(b), "{b}");
    }
}

#[test]
fn clock_rates_are_written_like_floats() {
    for m in 0..20000u32 {
        assert_eq!(fmt_mhz(m), float_mhz(m), "{m}");
    }
    let mut m: u32 = 20000;
    while m < 4_000_000_000 {
        assert_eq!(fmt_mhz(m), float_mhz(m), "{m}");
        m += 999_995;
    }
    assert_eq!(fmt_mhz(u32::MAX), float_mhz(u32::MAX));
    assert_eq!(fmt_mhz(3600), "3.60 GHz");
    assert_eq!(fmt_mhz(800), "800 MHz");
    assert_eq!(dash(""), "\u{2014}");
    assert_eq!(dash("x"), "x");
    assert_eq!(num(0), "\u{2014}");
    assert_eq!(num(16), "16");
}

fn record(v: &[(&str, &str)]) -> Record {
    Record { fields: v.iter().map(|(n, x)| Field { name: n.to_string(), value: x.to_string() }).collect() }
}

fn texts(rows: &[Row]) -> Vec<String> {
    rows.iter()
        .map(|r| match r {
            Row::Head(t) => format!("# {t}"),
            Row::Kv(k, v) => format!("{k}={v}"),
            Row::Gap => String::new(),
        })
        .collect()
}

#[test]
fn answers_are_put_together() {
    let mut s = SysInfo::empty();
    s.add_os(&record(&[("Caption", " Windows PE "), ("Version", ""), ("BuildNumber", "26100")]));
    s.add_computer(&record(&[("Name", "PC"), ("TotalPhysicalMemory", "8589934592"), ("Model", "M")]));
    s.add_processor(&record(&[("Name", "CPU one"), ("NumberOfCores", "8"), ("MaxClockSpeed", "x")]));
    s.add_processor(&record(&[("Name", "CPU two"), ("NumberOfCores", "99")]));
    s.add_board(&record(&[("Manufacturer", "ASUS")]));
    s.add_bios(&record(&[("SMBIOSBIOSVersion", "1.2"), ("ReleaseDate", "20240131000000.000000+000")]));
    s.add_module(&record(&[("Capacity", "4294967296"), ("Speed", "3200")]));
    s.add_gpu(&record(&[("Name", ""), ("AdapterRAM", "5")]));
    s.add_gpu(&record(&[("Name", "GPU"), ("AdapterRAM", "-1"), ("DriverVersion", "9")]));
    s.add_disk(&record(&[("Model", "SSD"), ("Size", "1000204886016")]));
    s.add_disk(&record(&[("Size", "5")]));
    s.add_nic(&record(&[("Name", "Eth")]));
    s.add_nic(&record(&[("MACAddress", "00:11")]));
    assert_eq!((s.os_caption.as_str(), s.os_version.as_str(), s.os_build.as_str()), ("Windows PE", "", "26100"));
    assert_eq!((s.cpu_name.as_str(), s.cpu_cores, s.cpu_clock_mhz), ("CPU one", 8, 0));
    assert_eq!((s.board.as_str(), s.bios.as_str()), ("ASUS", "1.2 (2024-01-31)"));
    assert_eq!((s.mem_modules.len(), s.gpus.len(), s.disks.len(), s.nics.len()), (1, 1, 1, 1));
    assert_eq!((s.gpus[0].vram, s.ram_total), (0, 8589934592));
    let f = Facts {
        arch: 9,
        processors: 16,
        memory: Some((1, 2)),
        computer_name: Some("other".to_string()),
        monitors: vec![(1920, 1080), (800, 600)],
        product_name: Some("Other".to_string()),
        build_number: None,
    };
    s.gather_win32(&f);
    assert_eq!((s.cpu_arch.as_str(), s.cpu_threads, s.system_type.as_str()), ("x64 (AMD64)", 16, "x64 (AMD64)-based PC"));
    assert_eq!((s.ram_total, s.ram_avail, s.computer_name.as_str()), (8589934592, 2, "PC"));
    assert_eq!(s.displays, vec!["1920 × 1080", "800 × 600"]);
    assert_eq!(s.os_caption, "Windows PE");
    assert_eq!((arch_name(12), arch_name(0), arch_name(5)), ("ARM64", "x86", "Unknown"));
    assert!(wql(WmiClass::Bios).contains("Win32_BIOS"));
    assert!(wql(WmiClass::NetworkAdapter).ends_with("PhysicalAdapter=TRUE"));
}

#[test]
fn firmware_dates() {
    assert_eq!(bios_date("20240131"), "2024-01-31");
    assert_eq!(bios_date("2024"), "2024");
    assert_eq!(bios_date(""), "");
    assert!(bios_date_ok("2024é31"));
    assert!(!bios_date_ok("202é4131"));
    assert_eq!(bios_date("é34é7890"), "é34-é-78");
}

#[test]
fn sections_list_what_is_known() {
    let s = SysInfo::empty();
    assert_eq!(
        texts(&build_rows(0, &s)),
        vec![
            "# Operating system", "Edition=—", "Version=—", "Build=—", "# Device", "Device name=—", "Manufacturer=—",
            "Model=—", "System type=—", "# Processor", "CPU=—", "# Memory", "Installed RAM=—"
        ]
    );
    assert_eq!(texts(&build_rows(1, &s)).last().unwrap(), "Modules=—");
    assert_eq!(texts(&build_rows(2, &s)), vec!["# Graphics", "GPU=—", "# Displays", "Displays=—"]);
    assert_eq!(texts(&build_rows(3, &s)), vec!["# Disks", "Disks=—", "# Network adapters", "Adapters=—"]);
    let mut k = SysInfo::empty();
    k.mem_modules.push(MemModule { capacity: 8 << 30, speed: 3200, slot: String::new() });
    k.mem_modules.push(MemModule { capacity: 0, speed: 0, slot: "DIMM2".to_string() });
    k.gpus.push(Gpu { name: "A".to_string(), vram: 1 << 30, driver: String::new() });
    k.gpus.push(Gpu { name: "B".to_string(), vram: 0, driver: "7".to_string() });
    k.nics.push(Nic { name: String::new(), mac: "m".to_string() });
    k.displays.push("1 × 1".to_string());
    let cpu = texts(&build_rows(1, &k));
    assert_eq!(&cpu[cpu.len() - 2..], &["Slot 1=8.0 GB @ 3200 MT/s", "DIMM2=—"]);
    assert_eq!(
        texts(&build_rows(2, &k)),
        vec!["# Graphics", "GPU 1=A", "  VRAM=1.0 GB", "", "GPU 2=B", "  Driver=7", "", "# Displays", "Display 1=1 × 1"]
    );
    assert_eq!(texts(&build_rows(3, &k)).last().unwrap(), "Adapter=m");
    assert_eq!(rows_height(&build_rows(0, &s), 96), 4 * 40 + 9 * 24);
}

#[test]
fn the_window_answers_the_mouse() {
    assert_eq!(close_button(96), Rect { left: 690, top: 0, right: 720, bottom: 30 });
    assert_eq!(nav_item(1, 96), Rect { left: 6, top: 84, right: 186, bottom: 126 });
    assert_eq!(content_area(96), Rect { left: 208, top: 46, right: 704, bottom: 504 });
    assert_eq!(hit(700, 5, 96), Hit::Close);
    assert_eq!(hit(10, 85, 96), Hit::Nav(1));
    assert_eq!(hit(10, 127, 96), Hit::Nothing);
    assert_eq!(show_at(Rect { left: 0, top: 0, right: 1920, bottom: 1040 }, 96), (600, 260));
    assert_eq!(show_at(Rect { left: 0, top: 0, right: 100, bottom: 100 }, 96), (0, 0));
    let mut s = State::show(5);
    let m = s.on_mouse_move(10, 85, 96);
    assert!(m.track && m.repaint && s.hover == Hit::Nav(1));
    assert_eq!(s.on_button_down(10, 85, 96), Outcome::Repaint);
    assert_eq!(s.section, 1);
    assert_eq!(s.on_button_down(10, 85, 96), Outcome::Nothing);
    assert_eq!(s.on_button_down(300, 5, 96), Outcome::Drag);
    assert_eq!(s.on_button_down(300, 300, 96), Outcome::Nothing);
    assert_eq!(s.on_button_down(700, 5, 96), Outcome::Close);
    assert!(s.on_mouse_leave() && !s.on_mouse_leave());
}

#[test]
fn the_window_answers_keys_and_the_wheel() {
    let mut s = State::show(5);
    assert_eq!(s.on_key(0x26, 96), Outcome::Nothing);
    assert_eq!(s.on_key(0x28, 96), Outcome::Repaint);
    s.section = 3;
    assert_eq!(s.on_key(0x28, 96), Outcome::Nothing);
    s.content_h = 500;
    assert!(s.on_wheel(-120, 96));
    assert_eq!(s.scroll, 40);
    assert_eq!(s.on_key(0x22, 96), Outcome::Repaint);
    assert_eq!(s.scroll, 240);
    assert_eq!(s.on_key(0x21, 96), Outcome::Repaint);
    assert_eq!(s.on_key(0x24, 96), Outcome::Repaint);
    assert_eq!(s.scroll, 0);
    assert!(!s.on_wheel(120, 96));
    assert_eq!(s.on_key(0x1B, 96), Outcome::Close);
    assert_eq!(s.on_key(0x41, 96), Outcome::Nothing);
}

#[test]
fn the_window_is_drawn() {
    let mut s = State::show(0xABC);
    let v = s.paint(0x555555, 720, 520, 96);
    assert!(v.iter().any(|d| matches!(d, Draw::Text { text, .. } if text == "Gathering system information\u{2026}")));
    s.on_data(SysInfo::empty());
    s.scroll = 9999;
    let w = s.paint(0x555555, 720, 520, 96);
    assert_eq!((s.scroll, s.content_h), (0, 0));
    assert!(w.iter().any(|d| matches!(d, Draw::Text { text, color: 0xABC, rect, .. } if text == "Operating system" && rect.top == 62)));
    let mut k = SysInfo::empty();
    for _ in 0..40 {
        k.displays.push("x".to_string());
    }
    s.on_data(k);
    s.section = 2;
    s.scroll = 9999;
    s.paint(0, 720, 520, 96);
    assert_eq!(s.content_h, 2 * 40 + 41 * 24 - 458);
    assert_eq!(s.scroll, s.content_h);
}

#[test]
fn the_icon_is_tinted() {
    assert_eq!(tint_pixel(0x00FFFFFF, 0x00E65AB4), 0xFFB45AE6);
    assert_eq!(tint_pixel(0, 0x00E65AB4), 0);
    assert_eq!(tint_pixel(0x00000080, 0x000000FF), 0x8080_0000);
    let mut p = vec![0x00FFFFFFu32, 0];
    make_glyph_icon(&mut p, 0x00FFFFFF);
    assert_eq!(p, vec![0xFFFFFFFF, 0]);
    assert_eq!(glyph_height(32), 23);
}

#[test]
fn information_opens_once() {
    let app = Some("s.exe".to_string());
    assert!(matches!(launch(true, &app), Launch::Focus));
    assert!(matches!(launch(false, &app), Launch::External(s) if s == "s.exe"));
    assert!(matches!(launch(false, &None), Launch::BuiltIn));
}

#[test]
fn rows_are_taken_in_order() {
    let mut s = SysInfo::empty();
    let rows = vec![
        record(&[("Name", "A"), ("AdapterRAM", "7")]),
        record(&[("Name", "  ")]),
        record(&[("Name", "B"), ("DriverVersion", "2")]),
    ];
    s.add_records(WmiClass::VideoController, &rows);
    let names: Vec<(&str, u64, &str)> = s.gpus.iter().map(|g| (g.name.as_str(), g.vram, g.driver.as_str())).collect();
    assert_eq!(names, vec![("A", 7, ""), ("B", 0, "2")]);
    s.add_records(WmiClass::Processor, &vec![
        record(&[("NumberOfCores", "4")]),
        record(&[("Name", "one"), ("MaxClockSpeed", "3000")]),
        record(&[("Name", "two"), ("NumberOfCores", "9")]),
    ]);
    assert_eq!((s.cpu_name.as_str(), s.cpu_cores, s.cpu_clock_mhz), ("one", 4, 3000));
    s.add_records(WmiClass::PhysicalMemory, &vec![record(&[]), record(&[("Capacity", "5")])]);
    assert_eq!(s.mem_modules.iter().map(|m| m.capacity).collect::<Vec<_>>(), vec![0, 5]);
    s.add_records(WmiClass::DiskDrive, &vec![record(&[("Model", "d")]), record(&[])]);
    s.add_records(WmiClass::NetworkAdapter, &vec![record(&[]), record(&[("MACAddress", "m")])]);
    assert_eq!((s.disks.len(), s.nics.len()), (1, 1));
    s.add_records(WmiClass::OperatingSystem, &vec![record(&[("Caption", "x")]), record(&[("Version", "y")])]);
    assert_eq!((s.os_caption.as_str(), s.os_version.as_str()), ("x", "y"));
    s.add_records(WmiClass::ComputerSystem, &vec![]);
    s.add_records(WmiClass::BaseBoard, &vec![record(&[("Product", "p")])]);
    s.add_records(WmiClass::Bios, &vec![record(&[("ReleaseDate", "20240131")])]);
    assert_eq!((s.board.as_str(), s.bios.as_str()), ("p", "(2024-01-31)"));
}
