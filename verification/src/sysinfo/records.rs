//! Taking the answers of a query, object by object.

use vstd::prelude::*;
use vstd::string::*;
use crate::num::decimal;
use crate::sysinfo::gather::{date_cuts, date_text, number_or, text_or, Record, WmiClass};
use crate::sysinfo::{Disk, Gpu, MemModule, Nic, SysInfo};
use crate::text::trimmed;

verus! {

pub struct ModuleView {
    pub capacity: u64,
    pub speed: u32,
    pub slot: Seq<char>,
}

pub struct GpuView {
    pub name: Seq<char>,
    pub vram: u64,
    pub driver: Seq<char>,
}

pub struct DiskView {
    pub model: Seq<char>,
    pub size: u64,
    pub bus: Seq<char>,
}

pub struct NicView {
    pub name: Seq<char>,
    pub mac: Seq<char>,
}

impl View for MemModule {
    type V = ModuleView;

    open spec fn view(&self) -> ModuleView {
        ModuleView { capacity: self.capacity, speed: self.speed, slot: self.slot@ }
    }
}

impl View for Gpu {
    type V = GpuView;

    open spec fn view(&self) -> GpuView {
        GpuView { name: self.name@, vram: self.vram, driver: self.driver@ }
    }
}

impl View for Disk {
    type V = DiskView;

    open spec fn view(&self) -> DiskView {
        DiskView { model: self.model@, size: self.size, bus: self.bus@ }
    }
}

impl View for Nic {
    type V = NicView;

    open spec fn view(&self) -> NicView {
        NicView { name: self.name@, mac: self.mac@ }
    }
}

pub open spec fn module_views(v: Seq<MemModule>) -> Seq<ModuleView> {
    Seq::new(v.len(), |i: int| v[i]@)
}

pub open spec fn gpu_views(v: Seq<Gpu>) -> Seq<GpuView> {
    Seq::new(v.len(), |i: int| v[i]@)
}

pub open spec fn disk_views(v: Seq<Disk>) -> Seq<DiskView> {
    Seq::new(v.len(), |i: int| v[i]@)
}

pub open spec fn nic_views(v: Seq<Nic>) -> Seq<NicView> {
    Seq::new(v.len(), |i: int| v[i]@)
}

/// All that is known, with its texts as characters.
pub struct InfoView {
    pub os_caption: Seq<char>,
    pub os_version: Seq<char>,
    pub os_build: Seq<char>,
    pub computer_name: Seq<char>,
    pub manufacturer: Seq<char>,
    pub model: Seq<char>,
    pub system_type: Seq<char>,
    pub cpu_name: Seq<char>,
    pub cpu_cores: u32,
    pub cpu_threads: u32,
    pub cpu_clock_mhz: u32,
    pub cpu_arch: Seq<char>,
    pub board: Seq<char>,
    pub bios: Seq<char>,
    pub ram_total: u64,
    pub ram_avail: u64,
    pub mem_modules: Seq<ModuleView>,
    pub gpus: Seq<GpuView>,
    pub displays: Seq<Seq<char>>,
    pub disks: Seq<DiskView>,
    pub nics: Seq<NicView>,
}

impl View for SysInfo {
    type V = InfoView;

    open spec fn view(&self) -> InfoView {
        InfoView {
            os_caption: self.os_caption@,
            os_version: self.os_version@,
            os_build: self.os_build@,
            computer_name: self.computer_name@,
            manufacturer: self.manufacturer@,
            model: self.model@,
            system_type: self.system_type@,
            cpu_name: self.cpu_name@,
            cpu_cores: self.cpu_cores,
            cpu_threads: self.cpu_threads,
            cpu_clock_mhz: self.cpu_clock_mhz,
            cpu_arch: self.cpu_arch@,
            board: self.board@,
            bios: self.bios@,
            ram_total: self.ram_total,
            ram_avail: self.ram_avail,
            mem_modules: module_views(self.mem_modules@),
            gpus: gpu_views(self.gpus@),
            displays: crate::text::views(self.displays@),
            disks: disk_views(self.disks@),
            nics: nic_views(self.nics@),
        }
    }
}

/// A memory module out of a row.
pub open spec fn module_in(o: Record) -> ModuleView {
    ModuleView {
        capacity: number_or(o, "Capacity"@, u64::MAX as nat, 0) as u64,
        speed: number_or(o, "Speed"@, u32::MAX as nat, 0) as u32,
        slot: text_or(o, "DeviceLocator"@, seq![]),
    }
}

/// A graphics adapter out of a row that has a name.
pub open spec fn gpu_in(o: Record) -> Seq<GpuView> {
    match o.prop_spec("Name"@) {
        Some(name) => seq![
            GpuView {
                name,
                vram: number_or(o, "AdapterRAM"@, u64::MAX as nat, 0) as u64,
                driver: text_or(o, "DriverVersion"@, seq![]),
            },
        ],
        None => seq![],
    }
}

/// A disk out of a row that has a model name.
pub open spec fn disk_in(o: Record) -> Seq<DiskView> {
    match o.prop_spec("Model"@) {
        Some(model) => seq![
            DiskView {
                model,
                size: number_or(o, "Size"@, u64::MAX as nat, 0) as u64,
                bus: text_or(o, "InterfaceType"@, seq![]),
            },
        ],
        None => seq![],
    }
}

/// A network adapter out of a row that has an address.
pub open spec fn nic_in(o: Record) -> Seq<NicView> {
    match o.prop_spec("MACAddress"@) {
        Some(mac) => seq![NicView { name: text_or(o, "Name"@, seq![]), mac }],
        None => seq![],
    }
}

/// What is known after a row of a class was taken.
pub open spec fn taken(v: InfoView, class: WmiClass, o: Record) -> InfoView {
    let big = u64::MAX as nat;
    let small = u32::MAX as nat;
    match class {
        WmiClass::OperatingSystem => InfoView {
            os_caption: text_or(o, "Caption"@, v.os_caption),
            os_version: text_or(o, "Version"@, v.os_version),
            os_build: text_or(o, "BuildNumber"@, v.os_build),
            ..v
        },
        WmiClass::ComputerSystem => InfoView {
            computer_name: text_or(o, "Name"@, v.computer_name),
            manufacturer: text_or(o, "Manufacturer"@, v.manufacturer),
            model: text_or(o, "Model"@, v.model),
            system_type: text_or(o, "SystemType"@, v.system_type),
            ram_total: number_or(o, "TotalPhysicalMemory"@, big, v.ram_total as int) as u64,
            ..v
        },
        WmiClass::Processor => if v.cpu_name.len() > 0 {
            v
        } else {
            InfoView {
                cpu_name: text_or(o, "Name"@, v.cpu_name),
                cpu_cores: number_or(o, "NumberOfCores"@, small, v.cpu_cores as int) as u32,
                cpu_threads: number_or(
                    o,
                    "NumberOfLogicalProcessors"@,
                    small,
                    v.cpu_threads as int,
                ) as u32,
                cpu_clock_mhz: number_or(o, "MaxClockSpeed"@, small, v.cpu_clock_mhz as int) as u32,
                ..v
            }
        },
        WmiClass::BaseBoard => InfoView {
            board: trimmed(
                text_or(o, "Manufacturer"@, seq![]) + " "@ + text_or(o, "Product"@, seq![]),
            ),
            ..v
        },
        WmiClass::Bios => InfoView {
            bios: trimmed(
                text_or(o, "SMBIOSBIOSVersion"@, seq![]) + " ("@ + date_text(
                    text_or(o, "ReleaseDate"@, seq![]),
                ) + ")"@,
            ),
            ..v
        },
        WmiClass::PhysicalMemory => InfoView { mem_modules: v.mem_modules.push(module_in(o)), ..v },
        WmiClass::VideoController => InfoView { gpus: v.gpus + gpu_in(o), ..v },
        WmiClass::DiskDrive => InfoView { disks: v.disks + disk_in(o), ..v },
        WmiClass::NetworkAdapter => InfoView { nics: v.nics + nic_in(o), ..v },
    }
}

/// What is known after the first `n` rows of a class were taken, in order.
pub open spec fn all_taken(v: InfoView, class: WmiClass, rows: Seq<Record>, n: int) -> InfoView
    decreases n,
{
    if n <= 0 {
        v
    } else {
        taken(all_taken(v, class, rows, n - 1), class, rows[n - 1])
    }
}

/// A row of a class can be taken: firmware has a date that can be cut.
pub open spec fn takes(class: WmiClass, o: Record) -> bool {
    class == WmiClass::Bios ==> date_cuts(text_or(o, "ReleaseDate"@, seq![]))
}

impl SysInfo {
    /// Take one row of a class.
    pub fn add_record(&mut self, class: WmiClass, o: &Record)
        requires
            takes(class, *o),
        ensures
            final(self)@ == taken(old(self)@, class, *o),
    {
        match class {
            WmiClass::OperatingSystem => self.add_os(o),
            WmiClass::ComputerSystem => self.add_computer(o),
            WmiClass::Processor => self.add_processor(o),
            WmiClass::BaseBoard => self.add_board(o),
            WmiClass::Bios => self.add_bios(o),
            WmiClass::PhysicalMemory => {
                self.add_module(o);
                assert(module_views(self.mem_modules@) =~= module_views(
                    old(self).mem_modules@,
                ).push(module_in(*o))) by {
                    assert(self.mem_modules@.drop_last() == old(self).mem_modules@);
                }
            },
            WmiClass::VideoController => {
                self.add_gpu(o);
                assert(gpu_views(self.gpus@) =~= gpu_views(old(self).gpus@) + gpu_in(*o)) by {
                    if o.prop_spec("Name"@) is Some {
                        assert(self.gpus@.drop_last() == old(self).gpus@);
                    }
                }
            },
            WmiClass::DiskDrive => {
                self.add_disk(o);
                assert(disk_views(self.disks@) =~= disk_views(old(self).disks@) + disk_in(*o)) by {
                    if o.prop_spec("Model"@) is Some {
                        assert(self.disks@.drop_last() == old(self).disks@);
                    }
                }
            },
            WmiClass::NetworkAdapter => {
                self.add_nic(o);
                assert(nic_views(self.nics@) =~= nic_views(old(self).nics@) + nic_in(*o)) by {
                    if o.prop_spec("MACAddress"@) is Some {
                        assert(self.nics@.drop_last() == old(self).nics@);
                    }
                }
            },
        }
    }

    /// Take all rows that a class's query gave, in order.
    pub fn add_records(&mut self, class: WmiClass, rows: &Vec<Record>)
        requires
            forall|i: int| 0 <= i < rows@.len() ==> takes(class, #[trigger] rows@[i]),
        ensures
            final(self)@ == all_taken(old(self)@, class, rows@, rows@.len() as int),
    {
        let mut i: usize = 0;
        while i < rows.len()
            invariant
                i <= rows.len(),
                forall|k: int| 0 <= k < rows@.len() ==> takes(class, #[trigger] rows@[k]),
                self@ == all_taken(old(self)@, class, rows@, i as int),
            decreases rows.len() - i,
        {
            self.add_record(class, &rows[i]);
            i = i + 1;
        }
    }
}

// ---- Laws ----

/// The graphics adapters of the first `n` rows: those that have a name, in order.
pub open spec fn gpus_in(rows: Seq<Record>, n: int) -> Seq<GpuView>
    decreases n,
{
    if n <= 0 {
        seq![]
    } else {
        gpus_in(rows, n - 1) + gpu_in(rows[n - 1])
    }
}

/// The disks of the first `n` rows: those that have a model name, in order.
pub open spec fn disks_in(rows: Seq<Record>, n: int) -> Seq<DiskView>
    decreases n,
{
    if n <= 0 {
        seq![]
    } else {
        disks_in(rows, n - 1) + disk_in(rows[n - 1])
    }
}

/// The network adapters of the first `n` rows: those that have an address, in order.
pub open spec fn nics_in(rows: Seq<Record>, n: int) -> Seq<NicView>
    decreases n,
{
    if n <= 0 {
        seq![]
    } else {
        nics_in(rows, n - 1) + nic_in(rows[n - 1])
    }
}

/// Every device that a query gives is listed once, in the order of the rows, behind
/// those that were known: memory modules one for each row, the others where they are
/// named. Nothing else changes.
pub proof fn devices_are_listed_in_order(v: InfoView, rows: Seq<Record>, n: int)
    requires
        0 <= n <= rows.len(),
    ensures
        all_taken(v, WmiClass::PhysicalMemory, rows, n) == (InfoView {
            mem_modules: v.mem_modules + Seq::new(n as nat, |i: int| module_in(rows[i])),
            ..v
        }),
        all_taken(v, WmiClass::VideoController, rows, n) == (InfoView {
            gpus: v.gpus + gpus_in(rows, n),
            ..v
        }),
        all_taken(v, WmiClass::DiskDrive, rows, n) == (InfoView {
            disks: v.disks + disks_in(rows, n),
            ..v
        }),
        all_taken(v, WmiClass::NetworkAdapter, rows, n) == (InfoView {
            nics: v.nics + nics_in(rows, n),
            ..v
        }),
    decreases n,
{
    if n > 0 {
        devices_are_listed_in_order(v, rows, n - 1);
        let m = Seq::new((n - 1) as nat, |i: int| module_in(rows[i]));
        assert((v.mem_modules + m).push(module_in(rows[n - 1])) =~= v.mem_modules + Seq::new(
            n as nat,
            |i: int| module_in(rows[i]),
        ));
        assert((v.gpus + gpus_in(rows, n - 1)) + gpu_in(rows[n - 1]) =~= v.gpus + gpus_in(rows, n));
        assert((v.disks + disks_in(rows, n - 1)) + disk_in(rows[n - 1]) =~= v.disks + disks_in(
            rows,
            n,
        ));
        assert((v.nics + nics_in(rows, n - 1)) + nic_in(rows[n - 1]) =~= v.nics + nics_in(rows, n));
    } else {
        assert(v.mem_modules + Seq::new(0, |i: int| module_in(rows[i])) =~= v.mem_modules);
        assert(v.gpus + gpus_in(rows, 0) =~= v.gpus);
        assert(v.disks + disks_in(rows, 0) =~= v.disks);
        assert(v.nics + nics_in(rows, 0) =~= v.nics);
    }
}

/// Once a processor is known by name, further rows change nothing.
pub proof fn the_first_processor_stays(v: InfoView, rows: Seq<Record>, n: int)
    requires
        v.cpu_name.len() > 0,
    ensures
        all_taken(v, WmiClass::Processor, rows, n) == v,
    decreases n,
{
    if n > 0 {
        the_first_processor_stays(v, rows, n - 1);
    }
}

/// Each fact comes from the property of its name in the rows of its class.
pub proof fn facts_come_from_their_properties(v: InfoView, o: Record, x: Seq<char>)
    ensures
        o.prop_spec("Caption"@) == Some(x) ==> taken(v, WmiClass::OperatingSystem, o).os_caption == x,
        o.prop_spec("Version"@) == Some(x) ==> taken(v, WmiClass::OperatingSystem, o).os_version == x,
        o.prop_spec("BuildNumber"@) == Some(x) ==> taken(v, WmiClass::OperatingSystem, o).os_build
            == x,
        o.prop_spec("Name"@) == Some(x) ==> taken(v, WmiClass::ComputerSystem, o).computer_name == x,
        o.prop_spec("Manufacturer"@) == Some(x) ==> taken(
            v,
            WmiClass::ComputerSystem,
            o,
        ).manufacturer == x,
        o.prop_spec("Model"@) == Some(x) ==> taken(v, WmiClass::ComputerSystem, o).model == x,
        o.prop_spec("SystemType"@) == Some(x) ==> taken(v, WmiClass::ComputerSystem, o).system_type
            == x,
        (o.prop_spec("Name"@) == Some(x) && v.cpu_name.len() == 0) ==> taken(
            v,
            WmiClass::Processor,
            o,
        ).cpu_name == x,
        o.prop_spec("DeviceLocator"@) == Some(x) ==> taken(
            v,
            WmiClass::PhysicalMemory,
            o,
        ).mem_modules.last().slot == x,
        o.prop_spec("Name"@) == Some(x) ==> taken(v, WmiClass::VideoController, o).gpus.last().name
            == x,
        o.prop_spec("Model"@) == Some(x) ==> taken(v, WmiClass::DiskDrive, o).disks.last().model == x,
        o.prop_spec("MACAddress"@) == Some(x) ==> taken(v, WmiClass::NetworkAdapter, o).nics.last().mac
            == x,
        (o.prop_spec("MACAddress"@) is Some && o.prop_spec("Name"@) == Some(x)) ==> taken(
            v,
            WmiClass::NetworkAdapter,
            o,
        ).nics.last().name == x,
        (o.prop_spec("Name"@) is Some && o.prop_spec("DriverVersion"@) == Some(x)) ==> taken(
            v,
            WmiClass::VideoController,
            o,
        ).gpus.last().driver == x,
        (o.prop_spec("Model"@) is Some && o.prop_spec("InterfaceType"@) == Some(x)) ==> taken(
            v,
            WmiClass::DiskDrive,
            o,
        ).disks.last().bus == x,
{
}

/// Each number comes from the property of its name: memory, cores, threads, clock,
/// capacities and speeds.
pub proof fn numbers_come_from_their_properties(v: InfoView, o: Record, n: u32)
    ensures
        o.prop_spec("TotalPhysicalMemory"@) == Some(decimal(n as nat)) ==> taken(
            v,
            WmiClass::ComputerSystem,
            o,
        ).ram_total == n,
        (o.prop_spec("NumberOfCores"@) == Some(decimal(n as nat)) && v.cpu_name.len() == 0) ==> taken(
            v,
            WmiClass::Processor,
            o,
        ).cpu_cores == n,
        (o.prop_spec("NumberOfLogicalProcessors"@) == Some(decimal(n as nat)) && v.cpu_name.len()
            == 0) ==> taken(v, WmiClass::Processor, o).cpu_threads == n,
        (o.prop_spec("MaxClockSpeed"@) == Some(decimal(n as nat)) && v.cpu_name.len() == 0) ==> taken(
            v,
            WmiClass::Processor,
            o,
        ).cpu_clock_mhz == n,
        o.prop_spec("Capacity"@) == Some(decimal(n as nat)) ==> taken(
            v,
            WmiClass::PhysicalMemory,
            o,
        ).mem_modules.last().capacity == n,
        o.prop_spec("Speed"@) == Some(decimal(n as nat)) ==> taken(
            v,
            WmiClass::PhysicalMemory,
            o,
        ).mem_modules.last().speed == n,
        (o.prop_spec("Name"@) is Some && o.prop_spec("AdapterRAM"@) == Some(decimal(n as nat)))
            ==> taken(v, WmiClass::VideoController, o).gpus.last().vram == n,
        (o.prop_spec("Model"@) is Some && o.prop_spec("Size"@) == Some(decimal(n as nat))) ==> taken(
            v,
            WmiClass::DiskDrive,
            o,
        ).disks.last().size == n,
{
    crate::num::lemma_decimal_reads_back(n as nat, u64::MAX as nat);
    crate::num::lemma_decimal_reads_back(n as nat, u32::MAX as nat);
}

/// A row changes nothing but what its class is about; the memory available, the
/// displays and the architecture never come from here.
pub proof fn a_row_changes_its_own_facts(v: InfoView, class: WmiClass, o: Record)
    ensures
        ({
            let w = taken(v, class, o);
            &&& w.ram_avail == v.ram_avail && w.displays == v.displays && w.cpu_arch == v.cpu_arch
            &&& !(class is OperatingSystem) ==> w.os_caption == v.os_caption && w.os_version
                == v.os_version && w.os_build == v.os_build
            &&& !(class is ComputerSystem) ==> w.computer_name == v.computer_name && w.manufacturer
                == v.manufacturer && w.model == v.model && w.system_type == v.system_type
                && w.ram_total == v.ram_total
            &&& !(class is Processor) ==> w.cpu_name == v.cpu_name && w.cpu_cores == v.cpu_cores
                && w.cpu_threads == v.cpu_threads && w.cpu_clock_mhz == v.cpu_clock_mhz
            &&& !(class is BaseBoard) ==> w.board == v.board
            &&& !(class is Bios) ==> w.bios == v.bios
            &&& !(class is PhysicalMemory) ==> w.mem_modules == v.mem_modules
            &&& !(class is VideoController) ==> w.gpus == v.gpus
            &&& !(class is DiskDrive) ==> w.disks == v.disks
            &&& !(class is NetworkAdapter) ==> w.nics == v.nics
        }),
{
}

} // verus!
