//! Putting together what the system reports of its hardware.

use vstd::prelude::*;
use vstd::string::*;
use crate::num::{decimal, decimal_int, i64_text, parse_nat, parse_u32, parsed_nat};
use crate::search::{first, first_from};
use crate::sysinfo::{Disk, Gpu, MemModule, Nic, SysInfo};
use crate::text::{chars_of, join2, same_str, slice_of, string_of, trim, trimmed};
use crate::util::opt_view;

verus! {

/// What is asked of the management service, in order.
#[derive(Clone, Copy, PartialEq, Eq, Structural, Debug)]
pub enum WmiClass {
    OperatingSystem,
    ComputerSystem,
    Processor,
    BaseBoard,
    Bios,
    PhysicalMemory,
    VideoController,
    DiskDrive,
    NetworkAdapter,
}

/// The query for a class.
pub fn wql(class: WmiClass) -> (r: &'static str)
    ensures
        r@ == match class {
            WmiClass::OperatingSystem =>
                "SELECT Caption,Version,BuildNumber FROM Win32_OperatingSystem"@,
            WmiClass::ComputerSystem =>
                "SELECT Name,Manufacturer,Model,SystemType,TotalPhysicalMemory FROM Win32_ComputerSystem"@,
            WmiClass::Processor =>
                "SELECT Name,NumberOfCores,NumberOfLogicalProcessors,MaxClockSpeed FROM Win32_Processor"@,
            WmiClass::BaseBoard => "SELECT Manufacturer,Product FROM Win32_BaseBoard"@,
            WmiClass::Bios => "SELECT SMBIOSBIOSVersion,ReleaseDate FROM Win32_BIOS"@,
            WmiClass::PhysicalMemory =>
                "SELECT Capacity,Speed,DeviceLocator FROM Win32_PhysicalMemory"@,
            WmiClass::VideoController =>
                "SELECT Name,AdapterRAM,DriverVersion FROM Win32_VideoController"@,
            WmiClass::DiskDrive => "SELECT Model,Size,InterfaceType FROM Win32_DiskDrive"@,
            WmiClass::NetworkAdapter =>
                "SELECT Name,MACAddress FROM Win32_NetworkAdapter WHERE PhysicalAdapter=TRUE"@,
        },
{
    match class {
        WmiClass::OperatingSystem =>
            "SELECT Caption,Version,BuildNumber FROM Win32_OperatingSystem",
        WmiClass::ComputerSystem =>
            "SELECT Name,Manufacturer,Model,SystemType,TotalPhysicalMemory FROM Win32_ComputerSystem",
        WmiClass::Processor =>
            "SELECT Name,NumberOfCores,NumberOfLogicalProcessors,MaxClockSpeed FROM Win32_Processor",
        WmiClass::BaseBoard => "SELECT Manufacturer,Product FROM Win32_BaseBoard",
        WmiClass::Bios => "SELECT SMBIOSBIOSVersion,ReleaseDate FROM Win32_BIOS",
        WmiClass::PhysicalMemory => "SELECT Capacity,Speed,DeviceLocator FROM Win32_PhysicalMemory",
        WmiClass::VideoController =>
            "SELECT Name,AdapterRAM,DriverVersion FROM Win32_VideoController",
        WmiClass::DiskDrive => "SELECT Model,Size,InterfaceType FROM Win32_DiskDrive",
        WmiClass::NetworkAdapter =>
            "SELECT Name,MACAddress FROM Win32_NetworkAdapter WHERE PhysicalAdapter=TRUE",
    }
}

/// A property of an answer, as text.
pub struct Field {
    pub name: String,
    pub value: String,
}

/// One object of an answer.
pub struct Record {
    pub fields: Vec<Field>,
}

impl Record {
    /// A property without white space around it; an empty one counts as absent.
    pub open spec fn prop_spec(&self, name: Seq<char>) -> Option<Seq<char>> {
        match first(self.fields@.len() as int, |i: int| self.fields@[i].name@ == name) {
            Some(i) => {
                let v = trimmed(self.fields@[i].value@);
                if v.len() == 0 {
                    None
                } else {
                    Some(v)
                }
            },
            None => None,
        }
    }

    /// A property that is a number of at most `max`.
    pub open spec fn number_spec(&self, name: Seq<char>, max: nat) -> Option<nat> {
        match self.prop_spec(name) {
            Some(s) => parsed_nat(s, max),
            None => None,
        }
    }

    pub fn prop(&self, name: &str) -> (r: Option<String>)
        ensures
            opt_view(r) == self.prop_spec(name@),
    {
        let ghost n = self.fields@.len() as int;
        let ghost p = |i: int| self.fields@[i].name@ == name@;
        let mut i: usize = 0;
        while i < self.fields.len()
            invariant
                i <= self.fields.len() == n,
                p == (|i: int| self.fields@[i].name@ == name@),
                first(n, p) == first_from(i as int, n, p),
            decreases self.fields.len() - i,
        {
            if same_str(self.fields[i].name.as_str(), name) {
                assert(p(i as int));
                let v = trim(&chars_of(self.fields[i].value.as_str()));
                if v.len() == 0 {
                    return None;
                }
                return Some(string_of(&v));
            }
            assert(!p(i as int));
            i = i + 1;
        }
        None
    }

    pub fn prop_u64(&self, name: &str) -> (r: Option<u64>)
        ensures
            r is Some == self.number_spec(name@, u64::MAX as nat) is Some,
            r matches Some(v) ==> v == self.number_spec(name@, u64::MAX as nat)->0,
    {
        match self.prop(name) {
            Some(s) => parse_nat(&chars_of(s.as_str()), u64::MAX),
            None => None,
        }
    }

    pub fn prop_u32(&self, name: &str) -> (r: Option<u32>)
        ensures
            r is Some == self.number_spec(name@, u32::MAX as nat) is Some,
            r matches Some(v) ==> v == self.number_spec(name@, u32::MAX as nat)->0,
    {
        match self.prop(name) {
            Some(s) => parse_u32(&chars_of(s.as_str())),
            None => None,
        }
    }
}

/// A property, or what was there.
pub open spec fn text_or(o: Record, name: Seq<char>, kept: Seq<char>) -> Seq<char> {
    match o.prop_spec(name) {
        Some(v) => v,
        None => kept,
    }
}

pub open spec fn number_or(o: Record, name: Seq<char>, max: nat, kept: int) -> int {
    match o.number_spec(name, max) {
        Some(v) => v as int,
        None => kept,
    }
}

fn put_text(o: &Record, name: &str, target: &mut String)
    ensures
        final(target)@ == text_or(*o, name@, old(target)@),
        o.prop_spec(name@) is None ==> *final(target) == *old(target),
{
    match o.prop(name) {
        Some(v) => {
            *target = v;
        },
        None => {},
    }
}

fn put_u32(o: &Record, name: &str, target: &mut u32)
    ensures
        *final(target) == number_or(*o, name@, u32::MAX as nat, *old(target) as int),
{
    match o.prop_u32(name) {
        Some(v) => {
            *target = v;
        },
        None => {},
    }
}

fn text_of(o: &Record, name: &str) -> (r: String)
    ensures
        r@ == text_or(*o, name@, seq![]),
{
    match o.prop(name) {
        Some(v) => v,
        None => String::new(),
    }
}

fn u64_of(o: &Record, name: &str) -> (r: u64)
    ensures
        r == number_or(*o, name@, u64::MAX as nat, 0),
{
    match o.prop_u64(name) {
        Some(v) => v,
        None => 0,
    }
}

fn u32_of(o: &Record, name: &str) -> (r: u32)
    ensures
        r == number_or(*o, name@, u32::MAX as nat, 0),
{
    match o.prop_u32(name) {
        Some(v) => v,
        None => 0,
    }
}

// ---- The firmware date ----

/// How many bytes a character takes in UTF-8.
pub open spec fn byte_len(c: char) -> int {
    let v = c as u32;
    if v < 0x80 {
        1
    } else if v < 0x800 {
        2
    } else if v < 0x10000 {
        3
    } else {
        4
    }
}

/// How many bytes a text takes in UTF-8.
pub open spec fn bytes_in(s: Seq<char>) -> int
    decreases s.len(),
{
    if s.len() == 0 {
        0
    } else {
        bytes_in(s.drop_last()) + byte_len(s.last())
    }
}

/// How many characters stand before byte `k`, where a character starts there.
pub open spec fn chars_before(s: Seq<char>, k: int) -> Option<int> {
    first(s.len() as int + 1, |i: int| bytes_in(s.take(i)) == k)
}

/// A date that can be cut into year, month and day behind its bytes 4, 6 and 8.
pub open spec fn date_cuts(s: Seq<char>) -> bool {
    bytes_in(s) >= 8 ==> chars_before(s, 4) is Some && chars_before(s, 6) is Some && chars_before(
        s,
        8,
    ) is Some
}

/// A date as year-month-day, where it is long enough for that.
pub open spec fn date_text(s: Seq<char>) -> Seq<char> {
    if bytes_in(s) >= 8 {
        let a = chars_before(s, 4)->0;
        let b = chars_before(s, 6)->0;
        let c = chars_before(s, 8)->0;
        s.take(a) + "-"@ + s.subrange(a, b) + "-"@ + s.subrange(b, c)
    } else {
        s
    }
}

fn char_bytes(c: char) -> (r: usize)
    ensures
        r == byte_len(c),
{
    let v: u32 = c as u32;
    if v < 0x80 {
        1
    } else if v < 0x800 {
        2
    } else if v < 0x10000 {
        3
    } else {
        4
    }
}

proof fn lemma_bytes_in(s: Seq<char>, i: int, j: int)
    requires
        0 <= i <= j <= s.len(),
    ensures
        bytes_in(s.take(i)) + (j - i) <= bytes_in(s.take(j)),
        bytes_in(s.take(j)) <= bytes_in(s.take(i)) + 4 * (j - i),
    decreases j,
{
    if i < j {
        lemma_bytes_in(s, i, j - 1);
        assert(s.take(j).drop_last() =~= s.take(j - 1));
    }
}

/// The characters before byte `k` of at most 8, and whether the text goes on to
/// byte `k` at all.
fn find_byte(s: &Vec<char>, k: usize) -> (r: Option<usize>)
    requires
        0 < k <= 8,
    ensures
        match chars_before(s@, k as int) {
            Some(i) => r == Some(i as usize) && 0 <= i <= s.len(),
            None => r is None,
        },
{
    let ghost t = s@;
    let ghost n = t.len() as int + 1;
    let ghost g = k as int;
    let ghost p = |i: int| bytes_in(t.take(i)) == g;
    let mut i: usize = 0;
    let mut bytes: usize = 0;
    assert(t.take(0) =~= seq![]);
    while i < s.len() && bytes < k
        invariant
            i <= s.len(),
            t == s@,
            n == t.len() + 1,
            g == k,
            0 < k <= 8,
            bytes == bytes_in(t.take(i as int)),
            bytes <= 11,
            p == (|i: int| bytes_in(t.take(i)) == g),
            first(n, p) == first_from(i as int, n, p),
        decreases s.len() - i,
    {
        assert(!p(i as int));
        assert(t.take(i as int + 1).drop_last() =~= t.take(i as int));
        bytes = bytes + char_bytes(s[i]);
        i = i + 1;
    }
    if bytes == k {
        assert(p(i as int));
        Some(i)
    } else {
        proof {
            assert forall|j: int| i <= j < n implies !(#[trigger] p(j)) by {
                lemma_bytes_in(t, i as int, j);
                if i < s.len() {
                    assert(bytes > k);
                }
            }
            crate::search::lemma_first_none(i as int, n, p);
        }
        None
    }
}

/// Whether a text takes at least 8 bytes.
fn is_long(s: &Vec<char>) -> (r: bool)
    ensures
        r == (bytes_in(s@) >= 8),
{
    let ghost t = s@;
    let mut i: usize = 0;
    let mut bytes: usize = 0;
    assert(t.take(0) =~= seq![]);
    while i < s.len() && bytes < 8
        invariant
            i <= s.len(),
            t == s@,
            bytes == bytes_in(t.take(i as int)),
            bytes <= 11,
        decreases s.len() - i,
    {
        assert(t.take(i as int + 1).drop_last() =~= t.take(i as int));
        bytes = bytes + char_bytes(s[i]);
        i = i + 1;
    }
    proof {
        lemma_bytes_in(t, i as int, t.len() as int);
        assert(t.take(t.len() as int) =~= t);
    }
    bytes >= 8
}

proof fn lemma_cuts_in_order(s: Seq<char>, j: int, k: int)
    requires
        chars_before(s, j) is Some,
        chars_before(s, k) is Some,
        j <= k,
    ensures
        0 <= chars_before(s, j)->0 <= chars_before(s, k)->0 <= s.len(),
{
    let n = s.len() as int + 1;
    let p = |i: int| bytes_in(s.take(i)) == j;
    let q = |i: int| bytes_in(s.take(i)) == k;
    crate::search::lemma_first_from(0, n, p);
    crate::search::lemma_first_from(0, n, q);
    let a = chars_before(s, j)->0;
    let b = chars_before(s, k)->0;
    assert(p(a));
    assert(q(b));
    if b < a {
        lemma_bytes_in(s, b, a);
    }
}

/// Whether the firmware's release date can be cut.
pub fn bios_date_ok(date: &str) -> (r: bool)
    ensures
        r == date_cuts(date@),
{
    let s = chars_of(date);
    !is_long(&s) || (find_byte(&s, 4).is_some() && find_byte(&s, 6).is_some() && find_byte(
        &s,
        8,
    ).is_some())
}

/// A release date as year-month-day.
pub fn bios_date(date: &str) -> (r: String)
    requires
        date_cuts(date@),
    ensures
        r@ == date_text(date@),
{
    let s = chars_of(date);
    if !is_long(&s) {
        return date.to_owned();
    }
    match (find_byte(&s, 4), find_byte(&s, 6), find_byte(&s, 8)) {
        (Some(a), Some(b), Some(c)) => {
            proof {
                lemma_cuts_in_order(s@, 4, 6);
                lemma_cuts_in_order(s@, 6, 8);
            }
            let year = slice_of(&s, 0, a);
            assert(year@ =~= s@.take(a as int));
            let mut r = string_of(&year);
            r.append("-");
            r.append(string_of(&slice_of(&s, a, b)).as_str());
            r.append("-");
            r.append(string_of(&slice_of(&s, b, c)).as_str());
            r
        },
        _ => date.to_owned(),
    }
}

// ---- Answers ----

/// A text with the white space at its ends cut off.
fn trimmed_text(s: String) -> (r: String)
    ensures
        r@ == trimmed(s@),
{
    string_of(&trim(&chars_of(s.as_str())))
}

impl SysInfo {
    /// Nothing known.
    pub fn empty() -> (r: SysInfo)
        ensures
            r.os_caption@.len() == 0,
            r.os_version@.len() == 0,
            r.os_build@.len() == 0,
            r.computer_name@.len() == 0,
            r.manufacturer@.len() == 0,
            r.model@.len() == 0,
            r.system_type@.len() == 0,
            r.cpu_name@.len() == 0,
            r.cpu_cores == 0,
            r.cpu_threads == 0,
            r.cpu_clock_mhz == 0,
            r.cpu_arch@.len() == 0,
            r.board@.len() == 0,
            r.bios@.len() == 0,
            r.ram_total == 0,
            r.ram_avail == 0,
            r.mem_modules@.len() == 0,
            r.gpus@.len() == 0,
            r.displays@.len() == 0,
            r.disks@.len() == 0,
            r.nics@.len() == 0,
    {
        SysInfo {
            os_caption: String::new(),
            os_version: String::new(),
            os_build: String::new(),
            computer_name: String::new(),
            manufacturer: String::new(),
            model: String::new(),
            system_type: String::new(),
            cpu_name: String::new(),
            cpu_cores: 0,
            cpu_threads: 0,
            cpu_clock_mhz: 0,
            cpu_arch: String::new(),
            board: String::new(),
            bios: String::new(),
            ram_total: 0,
            ram_avail: 0,
            mem_modules: Vec::new(),
            gpus: Vec::new(),
            displays: Vec::new(),
            disks: Vec::new(),
            nics: Vec::new(),
        }
    }

    /// Take an operating system.
    pub fn add_os(&mut self, o: &Record)
        ensures
            final(self).os_caption@ == text_or(*o, "Caption"@, old(self).os_caption@),
            final(self).os_version@ == text_or(*o, "Version"@, old(self).os_version@),
            final(self).os_build@ == text_or(*o, "BuildNumber"@, old(self).os_build@),
            *final(self) == (SysInfo {
                os_caption: final(self).os_caption,
                os_version: final(self).os_version,
                os_build: final(self).os_build,
                ..*old(self)
            }),
    {
        put_text(o, "Caption", &mut self.os_caption);
        put_text(o, "Version", &mut self.os_version);
        put_text(o, "BuildNumber", &mut self.os_build);
    }

    /// Take a computer system.
    pub fn add_computer(&mut self, o: &Record)
        ensures
            final(self).computer_name@ == text_or(*o, "Name"@, old(self).computer_name@),
            final(self).manufacturer@ == text_or(*o, "Manufacturer"@, old(self).manufacturer@),
            final(self).model@ == text_or(*o, "Model"@, old(self).model@),
            final(self).system_type@ == text_or(*o, "SystemType"@, old(self).system_type@),
            final(self).ram_total == number_or(
                *o,
                "TotalPhysicalMemory"@,
                u64::MAX as nat,
                old(self).ram_total as int,
            ),
            *final(self) == (SysInfo {
                computer_name: final(self).computer_name,
                manufacturer: final(self).manufacturer,
                model: final(self).model,
                system_type: final(self).system_type,
                ram_total: final(self).ram_total,
                ..*old(self)
            }),
    {
        put_text(o, "Name", &mut self.computer_name);
        put_text(o, "Manufacturer", &mut self.manufacturer);
        put_text(o, "Model", &mut self.model);
        put_text(o, "SystemType", &mut self.system_type);
        match o.prop_u64("TotalPhysicalMemory") {
            Some(v) => {
                self.ram_total = v;
            },
            None => {},
        }
    }

    /// Take a processor, unless one is known by name already.
    pub fn add_processor(&mut self, o: &Record)
        ensures
            old(self).cpu_name@.len() > 0 ==> *final(self) == *old(self),
            old(self).cpu_name@.len() == 0 ==> {
                &&& final(self).cpu_name@ == text_or(*o, "Name"@, old(self).cpu_name@)
                &&& final(self).cpu_cores == number_or(
                    *o,
                    "NumberOfCores"@,
                    u32::MAX as nat,
                    old(self).cpu_cores as int,
                )
                &&& final(self).cpu_threads == number_or(
                    *o,
                    "NumberOfLogicalProcessors"@,
                    u32::MAX as nat,
                    old(self).cpu_threads as int,
                )
                &&& final(self).cpu_clock_mhz == number_or(
                    *o,
                    "MaxClockSpeed"@,
                    u32::MAX as nat,
                    old(self).cpu_clock_mhz as int,
                )
            },
            *final(self) == (SysInfo {
                cpu_name: final(self).cpu_name,
                cpu_cores: final(self).cpu_cores,
                cpu_threads: final(self).cpu_threads,
                cpu_clock_mhz: final(self).cpu_clock_mhz,
                ..*old(self)
            }),
    {
        if chars_of(self.cpu_name.as_str()).len() == 0 {
            put_text(o, "Name", &mut self.cpu_name);
            put_u32(o, "NumberOfCores", &mut self.cpu_cores);
            put_u32(o, "NumberOfLogicalProcessors", &mut self.cpu_threads);
            put_u32(o, "MaxClockSpeed", &mut self.cpu_clock_mhz);
        }
    }

    /// Take a baseboard.
    pub fn add_board(&mut self, o: &Record)
        ensures
            final(self).board@ == trimmed(
                text_or(*o, "Manufacturer"@, seq![]) + " "@ + text_or(*o, "Product"@, seq![]),
            ),
            *final(self) == (SysInfo { board: final(self).board, ..*old(self) }),
    {
        let mut s = text_of(o, "Manufacturer");
        s.append(" ");
        s.append(text_of(o, "Product").as_str());
        self.board = trimmed_text(s);
    }

    /// Take the firmware.
    pub fn add_bios(&mut self, o: &Record)
        requires
            date_cuts(text_or(*o, "ReleaseDate"@, seq![])),
        ensures
            final(self).bios@ == trimmed(
                text_or(*o, "SMBIOSBIOSVersion"@, seq![]) + " ("@ + date_text(
                    text_or(*o, "ReleaseDate"@, seq![]),
                ) + ")"@,
            ),
            *final(self) == (SysInfo { bios: final(self).bios, ..*old(self) }),
    {
        let mut s = text_of(o, "SMBIOSBIOSVersion");
        let date = text_of(o, "ReleaseDate");
        s.append(" (");
        s.append(bios_date(date.as_str()).as_str());
        s.append(")");
        self.bios = trimmed_text(s);
    }

    /// Take a memory module.
    pub fn add_module(&mut self, o: &Record)
        ensures
            final(self).mem_modules@.len() == old(self).mem_modules@.len() + 1,
            final(self).mem_modules@.drop_last() == old(self).mem_modules@,
            ({
                let m = final(self).mem_modules@.last();
                &&& m.capacity == number_or(*o, "Capacity"@, u64::MAX as nat, 0)
                &&& m.speed == number_or(*o, "Speed"@, u32::MAX as nat, 0)
                &&& m.slot@ == text_or(*o, "DeviceLocator"@, seq![])
            }),
            *final(self) == (SysInfo { mem_modules: final(self).mem_modules, ..*old(self) }),
    {
        let m = MemModule {
            capacity: u64_of(o, "Capacity"),
            speed: u32_of(o, "Speed"),
            slot: text_of(o, "DeviceLocator"),
        };
        self.mem_modules.push(m);
        assert(self.mem_modules@.drop_last() =~= old(self).mem_modules@);
    }

    /// Take a graphics adapter that has a name.
    pub fn add_gpu(&mut self, o: &Record)
        ensures
            o.prop_spec("Name"@) is None ==> *final(self) == *old(self),
            o.prop_spec("Name"@) is Some ==> {
                &&& final(self).gpus@.len() == old(self).gpus@.len() + 1
                &&& final(self).gpus@.drop_last() == old(self).gpus@
                &&& final(self).gpus@.last().name@ == o.prop_spec("Name"@)->0
                &&& final(self).gpus@.last().vram == number_or(
                    *o,
                    "AdapterRAM"@,
                    u64::MAX as nat,
                    0,
                )
                &&& final(self).gpus@.last().driver@ == text_or(*o, "DriverVersion"@, seq![])
            },
            *final(self) == (SysInfo { gpus: final(self).gpus, ..*old(self) }),
    {
        match o.prop("Name") {
            Some(name) => {
                let g = Gpu {
                    name,
                    vram: u64_of(o, "AdapterRAM"),
                    driver: text_of(o, "DriverVersion"),
                };
                self.gpus.push(g);
                assert(self.gpus@.drop_last() =~= old(self).gpus@);
            },
            None => {},
        }
    }

    /// Take a disk that has a model name.
    pub fn add_disk(&mut self, o: &Record)
        ensures
            o.prop_spec("Model"@) is None ==> *final(self) == *old(self),
            o.prop_spec("Model"@) is Some ==> {
                &&& final(self).disks@.len() == old(self).disks@.len() + 1
                &&& final(self).disks@.drop_last() == old(self).disks@
                &&& final(self).disks@.last().model@ == o.prop_spec("Model"@)->0
                &&& final(self).disks@.last().size == number_or(*o, "Size"@, u64::MAX as nat, 0)
                &&& final(self).disks@.last().bus@ == text_or(*o, "InterfaceType"@, seq![])
            },
            *final(self) == (SysInfo { disks: final(self).disks, ..*old(self) }),
    {
        match o.prop("Model") {
            Some(model) => {
                let d = Disk {
                    model,
                    size: u64_of(o, "Size"),
                    bus: text_of(o, "InterfaceType"),
                };
                self.disks.push(d);
                assert(self.disks@.drop_last() =~= old(self).disks@);
            },
            None => {},
        }
    }

    /// Take a network adapter that has an address.
    pub fn add_nic(&mut self, o: &Record)
        ensures
            o.prop_spec("MACAddress"@) is None ==> *final(self) == *old(self),
            o.prop_spec("MACAddress"@) is Some ==> {
                &&& final(self).nics@.len() == old(self).nics@.len() + 1
                &&& final(self).nics@.drop_last() == old(self).nics@
                &&& final(self).nics@.last().mac@ == o.prop_spec("MACAddress"@)->0
                &&& final(self).nics@.last().name@ == text_or(*o, "Name"@, seq![])
            },
            *final(self) == (SysInfo { nics: final(self).nics, ..*old(self) }),
    {
        match o.prop("MACAddress") {
            Some(mac) => {
                let n = Nic { name: text_of(o, "Name"), mac };
                self.nics.push(n);
                assert(self.nics@.drop_last() =~= old(self).nics@);
            },
            None => {},
        }
    }
}

// ---- What the system itself reports ----

/// The processor architecture's name.
pub open spec fn arch_text(code: u16) -> Seq<char> {
    if code == 9 {
        "x64 (AMD64)"@
    } else if code == 12 {
        "ARM64"@
    } else if code == 0 {
        "x86"@
    } else {
        "Unknown"@
    }
}

pub fn arch_name(code: u16) -> (r: &'static str)
    ensures
        r@ == arch_text(code),
{
    if code == 9 {
        "x64 (AMD64)"
    } else if code == 12 {
        "ARM64"
    } else if code == 0 {
        "x86"
    } else {
        "Unknown"
    }
}

/// What is known without the management service.
pub struct Facts {
    pub arch: u16,
    pub processors: u32,
    /// Total and available memory in bytes, where they could be read.
    pub memory: Option<(u64, u64)>,
    pub computer_name: Option<String>,
    /// Width and height of the monitors.
    pub monitors: Vec<(i32, i32)>,
    /// The system's own name and build in the registry.
    pub product_name: Option<String>,
    pub build_number: Option<String>,
}

/// A monitor's size.
pub open spec fn monitor_text(w: int, h: int) -> Seq<char> {
    decimal_int(w) + " \u{00d7} "@ + decimal_int(h)
}

fn monitor_label(w: i32, h: i32) -> (r: String)
    ensures
        r@ == monitor_text(w as int, h as int),
{
    let mut s = i64_text(w as i64);
    s.append(" \u{00d7} ");
    s.append(i64_text(h as i64).as_str());
    s
}

/// `kept`, or another text in place of an empty one.
pub open spec fn filled(kept: Seq<char>, other: Option<Seq<char>>) -> Seq<char> {
    match other {
        Some(s) if kept.len() == 0 => s,
        _ => kept,
    }
}

fn fill_text(target: &mut String, other: &Option<String>)
    ensures
        final(target)@ == filled(old(target)@, opt_view(*other)),
{
    if chars_of(target.as_str()).len() == 0 {
        match other {
            Some(s) => {
                *target = s.clone();
            },
            None => {},
        }
    }
}

/// How what is known without the management service completes what is known by it.
pub open spec fn completes(was: SysInfo, now: SysInfo, f: Facts) -> bool {
    &&& now.cpu_threads == if was.cpu_threads == 0 {
        f.processors
    } else {
        was.cpu_threads
    }
    &&& f.memory matches Some(m) ==> now.ram_avail == m.1
    &&& f.memory is None ==> now.ram_avail == was.ram_avail && now.ram_total == was.ram_total
    &&& (f.memory matches Some(m) ==> now.ram_total == if was.ram_total == 0 {
        m.0
    } else {
        was.ram_total
    })
    &&& now.computer_name@ == filled(was.computer_name@, opt_view(f.computer_name))
    &&& now.os_caption@ == filled(was.os_caption@, opt_view(f.product_name))
    &&& now.os_build@ == filled(was.os_build@, opt_view(f.build_number))
    &&& now.cpu_arch@ == filled(was.cpu_arch@, Some(arch_text(f.arch)))
    &&& now.displays@.len() == was.displays@.len() + f.monitors@.len()
    &&& forall|i: int|
        0 <= i < f.monitors@.len() ==> (#[trigger] now.displays@[was.displays@.len() + i])@
            == monitor_text(f.monitors@[i].0 as int, f.monitors@[i].1 as int)
}

impl SysInfo {
    /// Fill in what the management service left out. The available memory and the
    /// monitors always come from here.
    pub fn gather_win32(&mut self, f: &Facts)
        ensures
            final(self).cpu_arch@ == filled(old(self).cpu_arch@, Some(arch_text(f.arch))),
            final(self).cpu_threads == if old(self).cpu_threads == 0 {
                f.processors
            } else {
                old(self).cpu_threads
            },
            final(self).system_type@ == filled(
                old(self).system_type@,
                Some(arch_text(f.arch) + "-based PC"@),
            ),
            final(self).ram_total == match f.memory {
                Some(m) if old(self).ram_total == 0 => m.0,
                _ => old(self).ram_total,
            },
            final(self).ram_avail == match f.memory {
                Some(m) => m.1,
                None => old(self).ram_avail,
            },
            final(self).computer_name@ == filled(
                old(self).computer_name@,
                opt_view(f.computer_name),
            ),
            final(self).displays@.len() == old(self).displays@.len() + f.monitors@.len(),
            final(self).displays@.take(old(self).displays@.len() as int) == old(self).displays@,
            forall|i: int|
                0 <= i < f.monitors@.len() ==> (#[trigger] final(self).displays@[old(
                    self,
                ).displays@.len() + i])@ == monitor_text(
                    f.monitors@[i].0 as int,
                    f.monitors@[i].1 as int,
                ),
            final(self).os_caption@ == filled(old(self).os_caption@, opt_view(f.product_name)),
            final(self).os_build@ == filled(old(self).os_build@, opt_view(f.build_number)),
            *final(self) == (SysInfo {
                cpu_arch: final(self).cpu_arch,
                cpu_threads: final(self).cpu_threads,
                system_type: final(self).system_type,
                ram_total: final(self).ram_total,
                ram_avail: final(self).ram_avail,
                computer_name: final(self).computer_name,
                displays: final(self).displays,
                os_caption: final(self).os_caption,
                os_build: final(self).os_build,
                ..*old(self)
            }),
            completes(*old(self), *final(self), *f),
    {
        let arch = arch_name(f.arch);
        let arch_known: Option<String> = Some(arch.to_owned());
        fill_text(&mut self.cpu_arch, &arch_known);
        if self.cpu_threads == 0 {
            self.cpu_threads = f.processors;
        }
        let kind: Option<String> = Some(join2(arch, "-based PC"));
        fill_text(&mut self.system_type, &kind);
        match f.memory {
            Some(m) => {
                if self.ram_total == 0 {
                    self.ram_total = m.0;
                }
                self.ram_avail = m.1;
            },
            None => {},
        }
        fill_text(&mut self.computer_name, &f.computer_name);
        fill_text(&mut self.os_caption, &f.product_name);
        fill_text(&mut self.os_build, &f.build_number);
        let mut displays: Vec<String> = Vec::new();
        let ghost n = self.displays@.len() as int;
        let mut i: usize = 0;
        while i < f.monitors.len()
            invariant
                i <= f.monitors.len(),
                displays@.len() == i,
                forall|k: int|
                    0 <= k < i ==> (#[trigger] displays@[k])@ == monitor_text(
                        f.monitors@[k].0 as int,
                        f.monitors@[k].1 as int,
                    ),
            decreases f.monitors.len() - i,
        {
            let (w, h) = f.monitors[i];
            displays.push(monitor_label(w, h));
            i = i + 1;
        }
        let ghost added = displays@;
        self.displays.append(&mut displays);
        assert(self.displays@ =~= old(self).displays@ + added);
        assert(self.displays@.take(n) =~= old(self).displays@);
        assert forall|i: int| 0 <= i < f.monitors@.len() implies (#[trigger] self.displays@[n
            + i])@ == monitor_text(f.monitors@[i].0 as int, f.monitors@[i].1 as int) by {
            assert(self.displays@[n + i] == added[i]);
        }
    }
}

// ---- What an answer says ----

/// A property is found by its name and read without the white space around it; the
/// first of that name counts, and a blank one is as good as none.
pub proof fn a_property_is_found_by_its_name(o: Record, name: String, k: int)
    requires
        0 <= k < o.fields@.len(),
        o.fields@[k].name@ == name@,
        forall|j: int| 0 <= j < k ==> (#[trigger] o.fields@[j]).name@ != name@,
    ensures
        trimmed(o.fields@[k].value@).len() > 0 ==> o.prop_spec(name@) == Some(
            trimmed(o.fields@[k].value@),
        ),
        trimmed(o.fields@[k].value@).len() == 0 ==> o.prop_spec(name@) is None,
{
    let p = |i: int| o.fields@[i].name@ == name@;
    assert(p(k));
    assert forall|j: int| 0 <= j < k implies !(#[trigger] p(j)) by {
        assert(o.fields@[j].name@ != name@);
    }
    crate::search::lemma_first_is(0, o.fields@.len() as int, p, k);
}

/// A property that writes a number is read as that number.
pub proof fn a_number_is_read(o: Record, name: Seq<char>, n: nat, max: nat, kept: int)
    requires
        o.prop_spec(name) == Some(decimal(n)),
        n <= max,
    ensures
        number_or(o, name, max, kept) == n,
{
    crate::num::lemma_decimal_reads_back(n, max);
}

proof fn lemma_ascii_bytes(s: Seq<char>, i: int)
    requires
        0 <= i <= s.len(),
        forall|k: int| 0 <= k < i ==> (#[trigger] s[k] as u32) < 0x80,
    ensures
        bytes_in(s.take(i)) == i,
    decreases i,
{
    if i > 0 {
        lemma_ascii_bytes(s, i - 1);
        assert(s.take(i).drop_last() =~= s.take(i - 1));
        assert(s.take(i).last() == s[i - 1]);
    } else {
        assert(s.take(0) =~= seq![]);
    }
}

proof fn lemma_bytes_grow(s: Seq<char>, i: int)
    requires
        0 <= i <= s.len(),
    ensures
        bytes_in(s.take(i)) <= bytes_in(s),
    decreases s.len(),
{
    if i < s.len() {
        lemma_bytes_grow(s.drop_last(), i);
        assert(s.drop_last().take(i) =~= s.take(i));
    } else {
        assert(s.take(i) =~= s);
    }
}

/// A release date written as eight digits and more is shown as year, month and day.
pub proof fn a_date_is_cut_into_year_month_and_day(s: Seq<char>)
    requires
        s.len() >= 8,
        forall|k: int| 0 <= k < 8 ==> (#[trigger] s[k] as u32) < 0x80,
    ensures
        date_cuts(s),
        date_text(s) == s.take(4) + "-"@ + s.subrange(4, 6) + "-"@ + s.subrange(6, 8),
{
    lemma_ascii_bytes(s, 8);
    lemma_bytes_grow(s, 8);
    lemma_cut(s, 4);
    lemma_cut(s, 6);
    lemma_cut(s, 8);
}

proof fn lemma_cut(s: Seq<char>, k: int)
    requires
        0 <= k <= 8 <= s.len(),
        forall|i: int| 0 <= i < 8 ==> (#[trigger] s[i] as u32) < 0x80,
    ensures
        chars_before(s, k) == Some(k),
{
    let p = |i: int| bytes_in(s.take(i)) == k;
    lemma_ascii_bytes(s, k);
    assert(p(k));
    assert forall|i: int| 0 <= i < k implies !(#[trigger] p(i)) by {
        lemma_ascii_bytes(s, i);
    }
    crate::search::lemma_first_is(0, s.len() as int + 1, p, k);
}

/// What is known already stays; what is not is filled in.
pub proof fn known_facts_stay(kept: Seq<char>, other: Option<Seq<char>>)
    ensures
        kept.len() > 0 ==> filled(kept, other) == kept,
        (kept.len() == 0 && other is Some) ==> filled(kept, other) == other->0,
        other is None ==> filled(kept, other) == kept,
{
}

/// The three architectures have their names, and others none.
pub proof fn architectures_have_their_names(code: u16)
    ensures
        arch_text(9) == "x64 (AMD64)"@,
        arch_text(12) == "ARM64"@,
        arch_text(0) == "x86"@,
        (code != 0 && code != 9 && code != 12) ==> arch_text(code) == "Unknown"@,
{
}

/// A monitor is written as its width, a cross and its height.
pub proof fn monitors_are_written_width_by_height(w: int, h: int)
    ensures
        monitor_text(w, h) == decimal_int(w) + " \u{00d7} "@ + decimal_int(h),
        monitor_text(w, h).take(decimal_int(w).len() as int) == decimal_int(w),
{
    assert(monitor_text(w, h).take(decimal_int(w).len() as int) =~= decimal_int(w));
}

/// What the management service told stays; without it the machine's own figures stand
/// in, and the memory available is always the machine's own, as the total is never.
pub proof fn told_facts_stay_and_the_rest_is_filled_in(was: SysInfo, now: SysInfo, f: Facts)
    requires
        completes(was, now, f),
    ensures
        was.ram_total != 0 ==> now.ram_total == was.ram_total,
        (was.ram_total == 0 && f.memory is Some) ==> now.ram_total == (f.memory->0).0,
        f.memory is Some ==> now.ram_avail == (f.memory->0).1,
        was.cpu_threads != 0 ==> now.cpu_threads == was.cpu_threads,
        was.cpu_threads == 0 ==> now.cpu_threads == f.processors,
        was.os_caption@.len() > 0 ==> now.os_caption@ == was.os_caption@,
        was.computer_name@.len() > 0 ==> now.computer_name@ == was.computer_name@,
        (was.computer_name@.len() == 0 && f.computer_name is Some) ==> now.computer_name@
            == f.computer_name->0@,
        (was.displays@.len() == 0 && f.monitors@.len() > 0) ==> now.displays@[0]@ == decimal_int(
            f.monitors@[0].0 as int,
        ) + " \u{00d7} "@ + decimal_int(f.monitors@[0].1 as int),
{
    if was.displays@.len() == 0 && f.monitors@.len() > 0 {
        assert(now.displays@[was.displays@.len() + 0int]@ == monitor_text(
            f.monitors@[0].0 as int,
            f.monitors@[0].1 as int,
        ));
    }
}

} // verus!
