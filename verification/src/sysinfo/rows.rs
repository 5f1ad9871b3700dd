//! The rows that the window shows of each section.

use vstd::prelude::*;
use vstd::string::*;
use crate::geometry::{lemma_px, px, scaled, valid_dpi};
use crate::num::{decimal, u64_text};
use crate::sysinfo::format::{
    bytes_text, count_text, dash, dashed, fmt_bytes, fmt_mhz, mhz_text, num, DASH,
};
use crate::sysinfo::{Disk, Gpu, MemModule, Nic, SysInfo};
use crate::text::{chars_of, join2};

verus! {

pub const HEAD_GAP: i32 = 16;

pub const HEAD_H: i32 = 24;

pub const ROW_H: i32 = 24;

pub const GAP_H: i32 = 8;

/// A row of content.
pub enum Row {
    Head(String),
    Kv(String, String),
    Gap,
}

pub enum RowView {
    Head(Seq<char>),
    Kv(Seq<char>, Seq<char>),
    Gap,
}

impl View for Row {
    type V = RowView;

    open spec fn view(&self) -> RowView {
        match *self {
            Row::Head(t) => RowView::Head(t@),
            Row::Kv(k, v) => RowView::Kv(k@, v@),
            Row::Gap => RowView::Gap,
        }
    }
}

pub open spec fn row_views(v: Seq<Row>) -> Seq<RowView> {
    Seq::new(v.len(), |i: int| v[i]@)
}

/// A label with a number counted from 1.
pub open spec fn numbered(label: Seq<char>, i: int) -> Seq<char> {
    label + decimal((i + 1) as nat)
}

pub open spec fn system_rows(s: SysInfo) -> Seq<RowView> {
    seq![
        RowView::Head("Operating system"@),
        RowView::Kv("Edition"@, dashed(s.os_caption@)),
        RowView::Kv("Version"@, dashed(s.os_version@)),
        RowView::Kv("Build"@, dashed(s.os_build@)),
        RowView::Head("Device"@),
        RowView::Kv("Device name"@, dashed(s.computer_name@)),
        RowView::Kv("Manufacturer"@, dashed(s.manufacturer@)),
        RowView::Kv("Model"@, dashed(s.model@)),
        RowView::Kv("System type"@, dashed(s.system_type@)),
        RowView::Head("Processor"@),
        RowView::Kv("CPU"@, dashed(s.cpu_name@)),
        RowView::Head("Memory"@),
        RowView::Kv("Installed RAM"@, bytes_text(s.ram_total as int)),
    ]
}

/// A module: by its slot, or its number; its capacity, and its speed where known.
pub open spec fn module_row(m: MemModule, i: int) -> RowView {
    RowView::Kv(
        if m.slot@.len() == 0 {
            numbered("Slot "@, i)
        } else {
            m.slot@
        },
        bytes_text(m.capacity as int) + (if m.speed > 0 {
            " @ "@ + decimal(m.speed as nat) + " MT/s"@
        } else {
            seq![]
        }),
    )
}

pub open spec fn module_rows(v: Seq<MemModule>) -> Seq<RowView> {
    if v.len() == 0 {
        seq![RowView::Kv("Modules"@, DASH@)]
    } else {
        Seq::new(v.len(), |i: int| module_row(v[i], i))
    }
}

pub open spec fn cpu_rows(s: SysInfo) -> Seq<RowView> {
    seq![
        RowView::Head("Processor"@),
        RowView::Kv("Model"@, dashed(s.cpu_name@)),
        RowView::Kv("Cores"@, count_text(s.cpu_cores as int)),
        RowView::Kv("Logical processors"@, count_text(s.cpu_threads as int)),
        RowView::Kv("Max clock"@, mhz_text(s.cpu_clock_mhz as int)),
        RowView::Kv("Architecture"@, dashed(s.cpu_arch@)),
        RowView::Head("Firmware"@),
        RowView::Kv("Baseboard"@, dashed(s.board@)),
        RowView::Kv("BIOS"@, dashed(s.bios@)),
        RowView::Head("Physical memory"@),
        RowView::Kv("Total"@, bytes_text(s.ram_total as int)),
        RowView::Kv("Available"@, bytes_text(s.ram_avail as int)),
    ] + module_rows(s.mem_modules@)
}

/// A graphics adapter, numbered where there are several; what is not known of it is
/// left out.
pub open spec fn gpu_rows(g: Gpu, i: int, many: bool) -> Seq<RowView> {
    seq![
        RowView::Kv(
            if many {
                numbered("GPU "@, i)
            } else {
                "GPU"@
            },
            dashed(g.name@),
        ),
    ] + (if g.vram > 0 {
        seq![RowView::Kv("  VRAM"@, bytes_text(g.vram as int))]
    } else {
        seq![]
    }) + (if g.driver@.len() > 0 {
        seq![RowView::Kv("  Driver"@, g.driver@)]
    } else {
        seq![]
    }) + seq![RowView::Gap]
}

pub open spec fn gpus_upto(v: Seq<Gpu>, n: int) -> Seq<RowView>
    decreases n,
{
    if n <= 0 {
        seq![]
    } else {
        gpus_upto(v, n - 1) + gpu_rows(v[n - 1], n - 1, v.len() > 1)
    }
}

pub open spec fn display_rows(v: Seq<String>) -> Seq<RowView> {
    if v.len() == 0 {
        seq![RowView::Kv("Displays"@, DASH@)]
    } else {
        Seq::new(v.len(), |i: int| RowView::Kv(numbered("Display "@, i), v[i]@))
    }
}

pub open spec fn graphics_rows(s: SysInfo) -> Seq<RowView> {
    seq![RowView::Head("Graphics"@)] + (if s.gpus@.len() == 0 {
        seq![RowView::Kv("GPU"@, DASH@)]
    } else {
        gpus_upto(s.gpus@, s.gpus@.len() as int)
    }) + seq![RowView::Head("Displays"@)] + display_rows(s.displays@)
}

pub open spec fn disk_rows(d: Disk, i: int) -> Seq<RowView> {
    seq![
        RowView::Kv(numbered("Disk "@, i), dashed(d.model@)),
        RowView::Kv("  Capacity"@, bytes_text(d.size as int)),
    ] + (if d.bus@.len() > 0 {
        seq![RowView::Kv("  Bus"@, d.bus@)]
    } else {
        seq![]
    }) + seq![RowView::Gap]
}

pub open spec fn disks_upto(v: Seq<Disk>, n: int) -> Seq<RowView>
    decreases n,
{
    if n <= 0 {
        seq![]
    } else {
        disks_upto(v, n - 1) + disk_rows(v[n - 1], n - 1)
    }
}

pub open spec fn nic_rows(v: Seq<Nic>) -> Seq<RowView> {
    if v.len() == 0 {
        seq![RowView::Kv("Adapters"@, DASH@)]
    } else {
        Seq::new(
            v.len(),
            |i: int|
                RowView::Kv(
                    if v[i].name@.len() == 0 {
                        "Adapter"@
                    } else {
                        v[i].name@
                    },
                    v[i].mac@,
                ),
        )
    }
}

pub open spec fn storage_rows(s: SysInfo) -> Seq<RowView> {
    seq![RowView::Head("Disks"@)] + (if s.disks@.len() == 0 {
        seq![RowView::Kv("Disks"@, DASH@)]
    } else {
        disks_upto(s.disks@, s.disks@.len() as int)
    }) + seq![RowView::Head("Network adapters"@)] + nic_rows(s.nics@)
}

/// The rows of a section: the system, processor and memory, graphics and displays,
/// storage and network.
pub open spec fn section_rows(section: int, s: SysInfo) -> Seq<RowView> {
    if section == 0 {
        system_rows(s)
    } else if section == 1 {
        cpu_rows(s)
    } else if section == 2 {
        graphics_rows(s)
    } else {
        storage_rows(s)
    }
}

fn push_row(r: &mut Vec<Row>, row: Row)
    ensures
        row_views(final(r)@) == row_views(old(r)@).push(row@),
        final(r)@.len() == old(r)@.len() + 1,
{
    r.push(row);
    assert(row_views(r@) =~= row_views(old(r)@).push(row@));
}

fn head(r: &mut Vec<Row>, t: &str)
    ensures
        row_views(final(r)@) == row_views(old(r)@).push(RowView::Head(t@)),
        final(r)@.len() == old(r)@.len() + 1,
{
    push_row(r, Row::Head(t.to_owned()));
}

fn kv(r: &mut Vec<Row>, k: &str, v: String)
    ensures
        row_views(final(r)@) == row_views(old(r)@).push(RowView::Kv(k@, v@)),
        final(r)@.len() == old(r)@.len() + 1,
{
    push_row(r, Row::Kv(k.to_owned(), v));
}

fn number_label(label: &str, i: usize) -> (r: String)
    requires
        i < usize::MAX,
    ensures
        r@ == numbered(label@, i as int),
{
    let n = u64_text(i as u64 + 1);
    join2(label, n.as_str())
}

fn is_blank(s: &String) -> (r: bool)
    ensures
        r == (s@.len() == 0),
{
    chars_of(s.as_str()).len() == 0
}

fn add_system(r: &mut Vec<Row>, info: &SysInfo)
    ensures
        row_views(final(r)@) == row_views(old(r)@) + system_rows(*info),
{
    let ghost before = row_views(r@);
    head(r, "Operating system");
    kv(r, "Edition", dash(info.os_caption.as_str()));
    kv(r, "Version", dash(info.os_version.as_str()));
    kv(r, "Build", dash(info.os_build.as_str()));
    head(r, "Device");
    kv(r, "Device name", dash(info.computer_name.as_str()));
    kv(r, "Manufacturer", dash(info.manufacturer.as_str()));
    kv(r, "Model", dash(info.model.as_str()));
    kv(r, "System type", dash(info.system_type.as_str()));
    head(r, "Processor");
    kv(r, "CPU", dash(info.cpu_name.as_str()));
    head(r, "Memory");
    kv(r, "Installed RAM", fmt_bytes(info.ram_total));
    assert(row_views(r@) =~= before + system_rows(*info));
}

fn add_modules(r: &mut Vec<Row>, v: &Vec<MemModule>)
    ensures
        row_views(final(r)@) == row_views(old(r)@) + module_rows(v@),
{
    let ghost before = row_views(r@);
    if v.len() == 0 {
        kv(r, "Modules", DASH.to_owned());
        assert(row_views(r@) =~= before + module_rows(v@));
        return;
    }
    let ghost wanted = module_rows(v@);
    let mut i: usize = 0;
    assert(before + wanted.take(0) =~= before);
    while i < v.len()
        invariant
            i <= v.len(),
            v.len() > 0,
            wanted == module_rows(v@),
            row_views(r@) == before + wanted.take(i as int),
        decreases v.len() - i,
    {
        let m = &v[i];
        let slot = if is_blank(&m.slot) {
            number_label("Slot ", i)
        } else {
            m.slot.clone()
        };
        let mut text = fmt_bytes(m.capacity);
        if m.speed > 0 {
            text.append(" @ ");
            text.append(u64_text(m.speed as u64).as_str());
            text.append(" MT/s");
        }
        assert(text@ =~= module_row(*m, i as int)->Kv_1);
        kv(r, slot.as_str(), text);
        i = i + 1;
        assert(row_views(r@) =~= before + wanted.take(i as int));
    }
    assert(wanted.take(i as int) =~= wanted);
}

fn add_cpu(r: &mut Vec<Row>, info: &SysInfo)
    ensures
        row_views(final(r)@) == row_views(old(r)@) + cpu_rows(*info),
{
    let ghost before = row_views(r@);
    head(r, "Processor");
    kv(r, "Model", dash(info.cpu_name.as_str()));
    kv(r, "Cores", num(info.cpu_cores));
    kv(r, "Logical processors", num(info.cpu_threads));
    kv(r, "Max clock", fmt_mhz(info.cpu_clock_mhz));
    kv(r, "Architecture", dash(info.cpu_arch.as_str()));
    head(r, "Firmware");
    kv(r, "Baseboard", dash(info.board.as_str()));
    kv(r, "BIOS", dash(info.bios.as_str()));
    head(r, "Physical memory");
    kv(r, "Total", fmt_bytes(info.ram_total));
    kv(r, "Available", fmt_bytes(info.ram_avail));
    add_modules(r, &info.mem_modules);
    assert(row_views(r@) =~= before + cpu_rows(*info));
}

fn add_gpu(r: &mut Vec<Row>, g: &Gpu, i: usize, many: bool)
    requires
        i < usize::MAX,
    ensures
        row_views(final(r)@) == row_views(old(r)@) + gpu_rows(*g, i as int, many),
{
    let ghost before = row_views(r@);
    let label = if many {
        number_label("GPU ", i)
    } else {
        "GPU".to_owned()
    };
    kv(r, label.as_str(), dash(g.name.as_str()));
    if g.vram > 0 {
        kv(r, "  VRAM", fmt_bytes(g.vram));
    }
    if !is_blank(&g.driver) {
        kv(r, "  Driver", g.driver.clone());
    }
    push_row(r, Row::Gap);
    assert(row_views(r@) =~= before + gpu_rows(*g, i as int, many));
}

fn add_displays(r: &mut Vec<Row>, v: &Vec<String>)
    ensures
        row_views(final(r)@) == row_views(old(r)@) + display_rows(v@),
{
    let ghost before = row_views(r@);
    if v.len() == 0 {
        kv(r, "Displays", DASH.to_owned());
        assert(row_views(r@) =~= before + display_rows(v@));
        return;
    }
    let ghost wanted = display_rows(v@);
    let mut i: usize = 0;
    assert(before + wanted.take(0) =~= before);
    while i < v.len()
        invariant
            i <= v.len(),
            v.len() > 0,
            wanted == display_rows(v@),
            row_views(r@) == before + wanted.take(i as int),
        decreases v.len() - i,
    {
        let label = number_label("Display ", i);
        kv(r, label.as_str(), v[i].clone());
        i = i + 1;
        assert(row_views(r@) =~= before + wanted.take(i as int));
    }
    assert(wanted.take(i as int) =~= wanted);
}

fn add_graphics(r: &mut Vec<Row>, info: &SysInfo)
    ensures
        row_views(final(r)@) == row_views(old(r)@) + graphics_rows(*info),
{
    let ghost before = row_views(r@);
    head(r, "Graphics");
    if info.gpus.len() == 0 {
        kv(r, "GPU", DASH.to_owned());
    } else {
        let ghost so_far = row_views(r@);
        let v = &info.gpus;
        let many = v.len() > 1;
        let mut i: usize = 0;
        assert(so_far + gpus_upto(v@, 0) =~= so_far);
        while i < v.len()
            invariant
                i <= v.len(),
                many == (v.len() > 1),
                row_views(r@) == so_far + gpus_upto(v@, i as int),
            decreases v.len() - i,
        {
            add_gpu(r, &v[i], i, many);
            i = i + 1;
            assert(row_views(r@) =~= so_far + gpus_upto(v@, i as int));
        }
    }
    head(r, "Displays");
    add_displays(r, &info.displays);
    assert(row_views(r@) =~= before + graphics_rows(*info));
}

fn add_disk(r: &mut Vec<Row>, d: &Disk, i: usize)
    requires
        i < usize::MAX,
    ensures
        row_views(final(r)@) == row_views(old(r)@) + disk_rows(*d, i as int),
{
    let ghost before = row_views(r@);
    let label = number_label("Disk ", i);
    kv(r, label.as_str(), dash(d.model.as_str()));
    kv(r, "  Capacity", fmt_bytes(d.size));
    if !is_blank(&d.bus) {
        kv(r, "  Bus", d.bus.clone());
    }
    push_row(r, Row::Gap);
    assert(row_views(r@) =~= before + disk_rows(*d, i as int));
}

fn add_nics(r: &mut Vec<Row>, v: &Vec<Nic>)
    ensures
        row_views(final(r)@) == row_views(old(r)@) + nic_rows(v@),
{
    let ghost before = row_views(r@);
    if v.len() == 0 {
        kv(r, "Adapters", DASH.to_owned());
        assert(row_views(r@) =~= before + nic_rows(v@));
        return;
    }
    let ghost wanted = nic_rows(v@);
    let mut i: usize = 0;
    assert(before + wanted.take(0) =~= before);
    while i < v.len()
        invariant
            i <= v.len(),
            v.len() > 0,
            wanted == nic_rows(v@),
            row_views(r@) == before + wanted.take(i as int),
        decreases v.len() - i,
    {
        let label = if is_blank(&v[i].name) {
            "Adapter"
        } else {
            v[i].name.as_str()
        };
        kv(r, label, v[i].mac.clone());
        i = i + 1;
        assert(row_views(r@) =~= before + wanted.take(i as int));
    }
    assert(wanted.take(i as int) =~= wanted);
}

fn add_storage(r: &mut Vec<Row>, info: &SysInfo)
    ensures
        row_views(final(r)@) == row_views(old(r)@) + storage_rows(*info),
{
    let ghost before = row_views(r@);
    head(r, "Disks");
    if info.disks.len() == 0 {
        kv(r, "Disks", DASH.to_owned());
    } else {
        let ghost so_far = row_views(r@);
        let v = &info.disks;
        let mut i: usize = 0;
        assert(so_far + disks_upto(v@, 0) =~= so_far);
        while i < v.len()
            invariant
                i <= v.len(),
                row_views(r@) == so_far + disks_upto(v@, i as int),
            decreases v.len() - i,
        {
            add_disk(r, &v[i], i);
            i = i + 1;
            assert(row_views(r@) =~= so_far + disks_upto(v@, i as int));
        }
    }
    head(r, "Network adapters");
    add_nics(r, &info.nics);
    assert(row_views(r@) =~= before + storage_rows(*info));
}

/// The rows of a section.
pub fn build_rows(section: usize, info: &SysInfo) -> (r: Vec<Row>)
    ensures
        row_views(r@) == section_rows(section as int, *info),
{
    let mut r: Vec<Row> = Vec::new();
    let ghost none = row_views(r@);
    assert(none =~= seq![]);
    if section == 0 {
        add_system(&mut r, info);
    } else if section == 1 {
        add_cpu(&mut r, info);
    } else if section == 2 {
        add_graphics(&mut r, info);
    } else {
        add_storage(&mut r, info);
    }
    assert(none + section_rows(section as int, *info) =~= section_rows(section as int, *info));
    r
}

/// Height of one row.
pub open spec fn row_h(r: RowView, dpi: int) -> int {
    match r {
        RowView::Head(_) => px(HEAD_GAP as int, dpi) + px(HEAD_H as int, dpi),
        RowView::Kv(_, _) => px(ROW_H as int, dpi),
        RowView::Gap => px(GAP_H as int, dpi),
    }
}

/// Height of the first `n` rows.
pub open spec fn height_upto(v: Seq<RowView>, n: int, dpi: int) -> int
    decreases n,
{
    if n <= 0 {
        0
    } else {
        height_upto(v, n - 1, dpi) + row_h(v[n - 1], dpi)
    }
}

/// A row is never higher than this many pixels.
pub proof fn lemma_row_h(r: RowView, dpi: int)
    requires
        0 <= dpi <= 32767,
    ensures
        0 <= row_h(r, dpi) <= 13680,
{
    lemma_px(16, dpi);
    lemma_px(24, dpi);
    lemma_px(8, dpi);
}

pub fn height_of(r: &Row, dpi: i32) -> (h: i32)
    requires
        valid_dpi(dpi),
    ensures
        h == row_h(r@, dpi as int),
        0 <= h <= 13680,
{
    proof {
        lemma_row_h(r@, dpi as int);
    }
    match r {
        Row::Head(_) => scaled(HEAD_GAP, dpi) + scaled(HEAD_H, dpi),
        Row::Kv(_, _) => scaled(ROW_H, dpi),
        Row::Gap => scaled(GAP_H, dpi),
    }
}

/// The heights of all rows add up.
pub open spec fn rows_fit(v: Seq<RowView>, dpi: int) -> bool {
    height_upto(v, v.len() as int, dpi) <= 0x1b00_0000
}

/// More rows are no less high.
pub proof fn lemma_height_upto(v: Seq<RowView>, n: int, m: int, dpi: int)
    requires
        0 <= n <= m,
        0 <= dpi <= 32767,
    ensures
        0 <= height_upto(v, n, dpi) <= height_upto(v, m, dpi),
    decreases m,
{
    if m > n {
        lemma_row_h(v[m - 1], dpi);
        lemma_height_upto(v, n, m - 1, dpi);
    } else if n > 0 {
        lemma_row_h(v[n - 1], dpi);
        lemma_height_upto(v, n - 1, n - 1, dpi);
    }
}

/// Height of all rows.
pub fn rows_height(rows: &Vec<Row>, dpi: i32) -> (h: i32)
    requires
        valid_dpi(dpi),
        rows_fit(row_views(rows@), dpi as int),
    ensures
        h == height_upto(row_views(rows@), rows@.len() as int, dpi as int),
        0 <= h <= 0x1b00_0000,
{
    let mut h: i32 = 0;
    let mut i: usize = 0;
    let ghost v = row_views(rows@);
    while i < rows.len()
        invariant
            i <= rows.len() == v.len(),
            valid_dpi(dpi),
            v == row_views(rows@),
            rows_fit(v, dpi as int),
            h == height_upto(v, i as int, dpi as int),
            0 <= h <= 0x1b00_0000,
        decreases rows.len() - i,
    {
        assert(v[i as int] == rows@[i as int]@);
        proof {
            lemma_height_upto(v, i + 1, v.len() as int, dpi as int);
        }
        h = h + height_of(&rows[i], dpi);
        i = i + 1;
    }
    h
}

// ---- What the pages are for ----

/// Some row has this label and this value beside it.
pub open spec fn says(rows: Seq<RowView>, label: Seq<char>, value: Seq<char>) -> bool {
    exists|i: int| 0 <= i < rows.len() && #[trigger] rows[i] == RowView::Kv(label, value)
}

/// The memory installed is the same on the first page and on that of the processor
/// and memory: the machine's total. What is available is said of itself alone.
pub proof fn installed_memory_is_the_total(s: SysInfo)
    ensures
        exists|value: Seq<char>|
            #![trigger says(section_rows(0, s), "Installed RAM"@, value)]
            value == bytes_text(s.ram_total as int) && says(
                section_rows(0, s),
                "Installed RAM"@,
                value,
            ) && says(section_rows(1, s), "Total"@, value),
        says(section_rows(1, s), "Available"@, bytes_text(s.ram_avail as int)),
{
    let value = bytes_text(s.ram_total as int);
    let a = section_rows(0, s);
    let b = section_rows(1, s);
    assert(a[12] == RowView::Kv("Installed RAM"@, value));
    assert(b[10] == RowView::Kv("Total"@, value));
    assert(b[11] == RowView::Kv("Available"@, bytes_text(s.ram_avail as int)));
    assert(says(a, "Installed RAM"@, value));
}

/// The first page depends on nothing but the system, the device, the processor's
/// name and the memory installed: two machines that agree on these have the same
/// page, whatever memory is available and whatever else they have.
pub proof fn the_first_page_depends_on_its_facts(s: SysInfo, t: SysInfo)
    requires
        s.os_caption@ == t.os_caption@,
        s.os_version@ == t.os_version@,
        s.os_build@ == t.os_build@,
        s.computer_name@ == t.computer_name@,
        s.manufacturer@ == t.manufacturer@,
        s.model@ == t.model@,
        s.system_type@ == t.system_type@,
        s.cpu_name@ == t.cpu_name@,
        s.ram_total == t.ram_total,
    ensures
        section_rows(0, s) == section_rows(0, t),
{
    assert(section_rows(0, s) =~= section_rows(0, t));
}

/// Each fact of the system stands beside its label on the first page.
pub proof fn the_first_page_says_each_fact(s: SysInfo)
    ensures
        says(section_rows(0, s), "Edition"@, dashed(s.os_caption@)),
        says(section_rows(0, s), "Version"@, dashed(s.os_version@)),
        says(section_rows(0, s), "Build"@, dashed(s.os_build@)),
        says(section_rows(0, s), "Device name"@, dashed(s.computer_name@)),
        says(section_rows(0, s), "Manufacturer"@, dashed(s.manufacturer@)),
        says(section_rows(0, s), "Model"@, dashed(s.model@)),
        says(section_rows(0, s), "System type"@, dashed(s.system_type@)),
        says(section_rows(0, s), "CPU"@, dashed(s.cpu_name@)),
{
    let a = section_rows(0, s);
    assert(a[1] == RowView::Kv("Edition"@, dashed(s.os_caption@)));
    assert(a[2] == RowView::Kv("Version"@, dashed(s.os_version@)));
    assert(a[3] == RowView::Kv("Build"@, dashed(s.os_build@)));
    assert(a[5] == RowView::Kv("Device name"@, dashed(s.computer_name@)));
    assert(a[6] == RowView::Kv("Manufacturer"@, dashed(s.manufacturer@)));
    assert(a[7] == RowView::Kv("Model"@, dashed(s.model@)));
    assert(a[8] == RowView::Kv("System type"@, dashed(s.system_type@)));
    assert(a[10] == RowView::Kv("CPU"@, dashed(s.cpu_name@)));
}

/// Each fact of the processor, the firmware and the memory stands beside its label on
/// the second page.
pub proof fn the_second_page_says_each_fact(s: SysInfo)
    ensures
        says(section_rows(1, s), "Model"@, dashed(s.cpu_name@)),
        says(section_rows(1, s), "Cores"@, count_text(s.cpu_cores as int)),
        says(section_rows(1, s), "Logical processors"@, count_text(s.cpu_threads as int)),
        says(section_rows(1, s), "Max clock"@, mhz_text(s.cpu_clock_mhz as int)),
        says(section_rows(1, s), "Architecture"@, dashed(s.cpu_arch@)),
        says(section_rows(1, s), "Baseboard"@, dashed(s.board@)),
        says(section_rows(1, s), "BIOS"@, dashed(s.bios@)),
        says(section_rows(1, s), "Available"@, bytes_text(s.ram_avail as int)),
{
    let a = section_rows(1, s);
    assert(a[1] == RowView::Kv("Model"@, dashed(s.cpu_name@)));
    assert(a[2] == RowView::Kv("Cores"@, count_text(s.cpu_cores as int)));
    assert(a[3] == RowView::Kv("Logical processors"@, count_text(s.cpu_threads as int)));
    assert(a[4] == RowView::Kv("Max clock"@, mhz_text(s.cpu_clock_mhz as int)));
    assert(a[5] == RowView::Kv("Architecture"@, dashed(s.cpu_arch@)));
    assert(a[7] == RowView::Kv("Baseboard"@, dashed(s.board@)));
    assert(a[8] == RowView::Kv("BIOS"@, dashed(s.bios@)));
    assert(a[11] == RowView::Kv("Available"@, bytes_text(s.ram_avail as int)));
}

/// Every memory module has a row, in their order: named by its slot, or counted from
/// 1, and with its capacity, and its speed where that is known.
pub proof fn every_module_has_a_row(s: SysInfo, i: int)
    requires
        0 <= i < s.mem_modules@.len(),
    ensures
        ({
            let m = s.mem_modules@[i];
            let rows = section_rows(1, s);
            let at = rows.len() - s.mem_modules@.len() + i;
            &&& 0 <= at < rows.len()
            &&& rows[at] matches RowView::Kv(label, value) && {
                &&& m.slot@.len() > 0 ==> label == m.slot@
                &&& m.slot@.len() == 0 ==> label == "Slot "@ + decimal((i + 1) as nat)
                &&& m.speed == 0 ==> value == bytes_text(m.capacity as int)
                &&& m.speed > 0 ==> value == bytes_text(m.capacity as int) + " @ "@ + decimal(
                    m.speed as nat,
                ) + " MT/s"@
            }
        }),
{
    let m = s.mem_modules@[i];
    let rows = section_rows(1, s);
    assert(rows[12 + i] == module_row(m, i));
    assert(bytes_text(m.capacity as int) + (" @ "@ + decimal(m.speed as nat) + " MT/s"@)
        =~= bytes_text(m.capacity as int) + " @ "@ + decimal(m.speed as nat) + " MT/s"@);
    assert(bytes_text(m.capacity as int) + Seq::<char>::empty() =~= bytes_text(m.capacity as int));
}

/// Where the rows of adapter `i` start among those of all.
spec fn gpu_start(v: Seq<Gpu>, i: int) -> int {
    gpus_upto(v, i).len() as int
}

proof fn lemma_gpu_at(v: Seq<Gpu>, n: int, i: int, k: int)
    requires
        0 <= i < n <= v.len(),
        0 <= k < gpu_rows(v[i], i, v.len() > 1).len(),
    ensures
        gpu_start(v, i) + k < gpus_upto(v, n).len(),
        gpus_upto(v, n)[gpu_start(v, i) + k] == gpu_rows(v[i], i, v.len() > 1)[k],
    decreases n,
{
    if i < n - 1 {
        lemma_gpu_at(v, n - 1, i, k);
    }
}

/// Every graphics adapter is named, in their order, counted from 1 where there are
/// several, with its memory and driver below it where they are known.
pub proof fn every_adapter_is_named(s: SysInfo, i: int)
    requires
        0 <= i < s.gpus@.len(),
    ensures
        ({
            let rows = section_rows(2, s);
            let g = s.gpus@[i];
            let label = if s.gpus@.len() > 1 {
                "GPU "@ + decimal((i + 1) as nat)
            } else {
                "GPU"@
            };
            exists|k: int|
                0 <= k && k + 1 < rows.len() && #[trigger] rows[k] == RowView::Kv(
                    label,
                    dashed(g.name@),
                ) && (g.vram > 0 ==> rows[k + 1] == RowView::Kv(
                    "  VRAM"@,
                    bytes_text(g.vram as int),
                )) && (g.driver@.len() > 0 ==> rows[k + 1 + (if g.vram > 0 {
                    1int
                } else {
                    0
                })] == RowView::Kv("  Driver"@, g.driver@))
        }),
{
    let v = s.gpus@;
    let rows = section_rows(2, s);
    let g = v[i];
    let own = gpu_rows(g, i, v.len() > 1);
    let at = gpu_start(v, i);
    assert forall|k: int| 0 <= k < own.len() implies at + 1 + k < rows.len() && #[trigger] rows[at + 1
        + k] == own[k] by {
        lemma_gpu_at(v, v.len() as int, i, k);
    }
    let k = at + 1;
    assert(rows[at + 1 + 0] == own[0]);
    assert(rows[at + 1 + 1] == own[1]);
    if g.vram > 0 && g.driver@.len() > 0 {
        assert(rows[at + 1 + 2] == own[2]);
    }
    assert(rows[k] == RowView::Kv(
        if v.len() > 1 {
            "GPU "@ + decimal((i + 1) as nat)
        } else {
            "GPU"@
        },
        dashed(g.name@),
    ));
}

spec fn disk_start(v: Seq<Disk>, i: int) -> int {
    disks_upto(v, i).len() as int
}

proof fn lemma_disk_at(v: Seq<Disk>, n: int, i: int, k: int)
    requires
        0 <= i < n <= v.len(),
        0 <= k < disk_rows(v[i], i).len(),
    ensures
        disk_start(v, i) + k < disks_upto(v, n).len(),
        disks_upto(v, n)[disk_start(v, i) + k] == disk_rows(v[i], i)[k],
    decreases n,
{
    if i < n - 1 {
        lemma_disk_at(v, n - 1, i, k);
    }
}

/// Every disk is named, counted from 1, with its capacity below it, and its bus where
/// that is known.
pub proof fn every_disk_is_named(s: SysInfo, i: int)
    requires
        0 <= i < s.disks@.len(),
    ensures
        ({
            let rows = section_rows(3, s);
            let d = s.disks@[i];
            exists|k: int|
                0 <= k && k + 2 < rows.len() && #[trigger] rows[k] == RowView::Kv(
                    "Disk "@ + decimal((i + 1) as nat),
                    dashed(d.model@),
                ) && rows[k + 1] == RowView::Kv("  Capacity"@, bytes_text(d.size as int)) && (
                d.bus@.len() > 0 ==> rows[k + 2] == RowView::Kv("  Bus"@, d.bus@))
        }),
{
    let v = s.disks@;
    let rows = section_rows(3, s);
    let d = v[i];
    let own = disk_rows(d, i);
    let at = disk_start(v, i);
    assert forall|k: int| 0 <= k < own.len() implies at + 1 + k < rows.len() && #[trigger] rows[at + 1
        + k] == own[k] by {
        lemma_disk_at(v, v.len() as int, i, k);
    }
    let k = at + 1;
    assert(rows[at + 1 + 0] == own[0]);
    assert(rows[at + 1 + 1] == own[1]);
    assert(rows[at + 1 + 2] == own[2]);
    assert(rows[k] == RowView::Kv("Disk "@ + decimal((i + 1) as nat), dashed(d.model@)));
}

/// Every display and every network adapter has a row, in their order; an adapter's
/// hardware address stands beside its name.
pub proof fn every_display_and_network_adapter_has_a_row(s: SysInfo, i: int)
    ensures
        0 <= i < s.displays@.len() ==> {
            let rows = section_rows(2, s);
            rows[rows.len() - s.displays@.len() + i] == RowView::Kv(
                "Display "@ + decimal((i + 1) as nat),
                s.displays@[i]@,
            )
        },
        0 <= i < s.nics@.len() ==> {
            let rows = section_rows(3, s);
            rows[rows.len() - s.nics@.len() + i] == RowView::Kv(
                if s.nics@[i].name@.len() > 0 {
                    s.nics@[i].name@
                } else {
                    "Adapter"@
                },
                s.nics@[i].mac@,
            )
        },
{
}

/// What there is none of is said so, with a dash.
pub proof fn missing_parts_are_dashed(s: SysInfo)
    ensures
        s.mem_modules@.len() == 0 ==> section_rows(1, s).last() == RowView::Kv("Modules"@, DASH@),
        s.gpus@.len() == 0 ==> section_rows(2, s)[1] == RowView::Kv("GPU"@, DASH@),
        s.displays@.len() == 0 ==> section_rows(2, s).last() == RowView::Kv("Displays"@, DASH@),
        s.disks@.len() == 0 ==> section_rows(3, s)[1] == RowView::Kv("Disks"@, DASH@),
        s.nics@.len() == 0 ==> section_rows(3, s).last() == RowView::Kv("Adapters"@, DASH@),
{
}

} // verus!
