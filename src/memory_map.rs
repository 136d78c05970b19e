use vstd::prelude::*;
use crate::memory::{
    Memory, MemoryError, hi_byte, lo_byte, read_u8_of, read_u16_of, write_u8_of, write_u16_of,
};
use crate::screen::{Screen, ScreenView, run_command, write_cell};

verus! {

/// Size of the address space.
pub const ADDRESS_SPACE: usize = 0x1_0000;

/// Something that can be placed in the address space.
pub enum Device {
    Ram(Memory),
    Screen(Screen),
}

/// Abstract state of a device.
pub ghost enum DeviceView {
    Ram(Seq<u8>),
    Screen(ScreenView),
}

impl DeviceView {
    pub open spec fn wf(self) -> bool {
        match self {
            DeviceView::Ram(_) => true,
            DeviceView::Screen(s) => s.wf(),
        }
    }

    /// Number of addresses the device answers for.
    pub open spec fn len(self) -> nat {
        match self {
            DeviceView::Ram(m) => m.len(),
            DeviceView::Screen(s) => s.width * s.height,
        }
    }

    pub open spec fn read_u8(self, a: int) -> Result<u8, MemoryError> {
        match self {
            DeviceView::Ram(m) => read_u8_of(m, a),
            DeviceView::Screen(_) => Ok(0),
        }
    }

    pub open spec fn read_u16(self, a: int) -> Result<u16, MemoryError> {
        match self {
            DeviceView::Ram(m) => read_u16_of(m, a),
            DeviceView::Screen(_) => Ok(0),
        }
    }

    pub open spec fn write_u8(self, a: int, v: u8) -> Result<DeviceView, MemoryError> {
        match self {
            DeviceView::Ram(m) => match write_u8_of(m, a, v) {
                Ok(m2) => Ok(DeviceView::Ram(m2)),
                Err(e) => Err(e),
            },
            DeviceView::Screen(s) => Ok(DeviceView::Screen(run_command(s, v))),
        }
    }

    pub open spec fn write_u16(self, a: int, v: u16) -> Result<DeviceView, MemoryError> {
        match self {
            DeviceView::Ram(m) => match write_u16_of(m, a, v) {
                Ok(m2) => Ok(DeviceView::Ram(m2)),
                Err(e) => Err(e),
            },
            DeviceView::Screen(s) => match write_cell(s, a as nat, v) {
                Ok(s2) => Ok(DeviceView::Screen(s2)),
                Err(e) => Err(e),
            },
        }
    }
}

impl View for Device {
    type V = DeviceView;

    open spec fn view(&self) -> DeviceView {
        match self {
            Device::Ram(m) => DeviceView::Ram(m@),
            Device::Screen(s) => DeviceView::Screen(s@),
        }
    }
}

impl Device {
    /// Number of addresses the device answers for.
    pub fn len(&self) -> (n: usize)
        requires
            self@.wf(),
        ensures
            n == self@.len(),
    {
        match self {
            Device::Ram(m) => m.len(),
            Device::Screen(s) => s.len(),
        }
    }

    /// True when the device answers for no address.
    pub fn is_empty(&self) -> (b: bool)
        ensures
            b == (self@.len() == 0),
    {
        match self {
            Device::Ram(m) => m.is_empty(),
            Device::Screen(s) => {
                let b = s.is_empty();
                proof {
                    let w = s@.width;
                    let h = s@.height;
                    assert((w * h == 0) == (w == 0 || h == 0)) by (nonlinear_arith);
                }
                b
            },
        }
    }

    /// Hands out the terminal output the device holds and forgets it.
    pub fn take_output(&mut self) -> (o: Vec<u8>)
        ensures
            o@ == match old(self)@ {
                DeviceView::Screen(s) => s.out,
                DeviceView::Ram(_) => Seq::empty(),
            },
            final(self)@ == match old(self)@ {
                DeviceView::Screen(s) => DeviceView::Screen(ScreenView { out: Seq::empty(), ..s }),
                DeviceView::Ram(m) => DeviceView::Ram(m),
            },
    {
        match self {
            Device::Ram(_) => Vec::new(),
            Device::Screen(s) => s.take_output(),
        }
    }

    pub fn get_memory_at_u8(&self, location: usize) -> (r: Result<u8, MemoryError>)
        ensures
            r == self@.read_u8(location as int),
    {
        match self {
            Device::Ram(m) => m.get_memory_at_u8(location),
            Device::Screen(s) => s.get_memory_at_u8(location),
        }
    }

    pub fn get_memory_at_u16(&self, location: usize) -> (r: Result<u16, MemoryError>)
        ensures
            r == self@.read_u16(location as int),
    {
        match self {
            Device::Ram(m) => m.get_memory_at_u16(location),
            Device::Screen(s) => s.get_memory_at_u16(location),
        }
    }

    pub fn set_memory_at_u8(&mut self, location: usize, data: u8) -> (r: Result<(), MemoryError>)
        ensures
            match old(self)@.write_u8(location as int, data) {
                Ok(d) => r is Ok && final(self)@ == d,
                Err(e) => r == Err::<(), MemoryError>(e) && final(self)@ == old(self)@,
            },
    {
        match self {
            Device::Ram(m) => m.set_memory_at_u8(location, data),
            Device::Screen(s) => s.set_memory_at_u8(location, data),
        }
    }

    pub fn set_memory_at_u16(&mut self, location: usize, data: u16) -> (r: Result<(), MemoryError>)
        ensures
            match old(self)@.write_u16(location as int, data) {
                Ok(d) => r is Ok && final(self)@ == d,
                Err(e) => r == Err::<(), MemoryError>(e) && final(self)@ == old(self)@,
            },
    {
        match self {
            Device::Ram(m) => m.set_memory_at_u16(location, data),
            Device::Screen(s) => s.set_memory_at_u16(location, data),
        }
    }
}

/// Writes keep a device's size.
pub proof fn lemma_write_keeps_shape(d: DeviceView, a: int, v8: u8, v16: u16)
    requires
        d.wf(),
    ensures
        d.write_u8(a, v8) matches Ok(d2) ==> d2.wf() && d2.len() == d.len(),
        d.write_u16(a, v16) matches Ok(d2) ==> d2.wf() && d2.len() == d.len(),
{
}

/// A device placed at `[start, end)` of the address space.
pub ghost struct RegionView {
    pub device: DeviceView,
    pub start: nat,
    pub end: nat,
}

impl RegionView {
    pub open spec fn wf(self) -> bool {
        &&& self.device.wf()
        &&& self.end == self.start + self.device.len()
        &&& self.end <= ADDRESS_SPACE
    }

    pub open spec fn contains(self, a: int) -> bool {
        self.start <= a < self.end
    }
}

/// Index of the last region in `rs` that contains `a`.
pub open spec fn find_region(rs: Seq<RegionView>, a: int) -> Option<int>
    decreases rs.len(),
{
    if rs.len() == 0 {
        None
    } else if rs.last().contains(a) {
        Some(rs.len() - 1)
    } else {
        find_region(rs.drop_last(), a)
    }
}

/// Byte that the address space `rs` gives at `a`.
pub open spec fn map_read_u8(rs: Seq<RegionView>, a: int) -> Result<u8, MemoryError> {
    match find_region(rs, a) {
        Some(i) => rs[i].device.read_u8(a - rs[i].start),
        None => Err(MemoryError::OutOfBounds(a as usize)),
    }
}

/// Word that the address space `rs` gives at `a`.
pub open spec fn map_read_u16(rs: Seq<RegionView>, a: int) -> Result<u16, MemoryError> {
    match find_region(rs, a) {
        Some(i) => rs[i].device.read_u16(a - rs[i].start),
        None => Err(MemoryError::OutOfBounds(a as usize)),
    }
}

/// Address space after writing byte `v` at `a`.
pub open spec fn map_write_u8(rs: Seq<RegionView>, a: int, v: u8) -> Result<Seq<RegionView>, MemoryError> {
    match find_region(rs, a) {
        Some(i) => match rs[i].device.write_u8(a - rs[i].start, v) {
            Ok(d) => Ok(rs.update(i, RegionView { device: d, ..rs[i] })),
            Err(e) => Err(e),
        },
        None => Err(MemoryError::OutOfBounds(a as usize)),
    }
}

/// Address space after writing word `v` at `a`.
pub open spec fn map_write_u16(rs: Seq<RegionView>, a: int, v: u16) -> Result<Seq<RegionView>, MemoryError> {
    match find_region(rs, a) {
        Some(i) => match rs[i].device.write_u16(a - rs[i].start, v) {
            Ok(d) => Ok(rs.update(i, RegionView { device: d, ..rs[i] })),
            Err(e) => Err(e),
        },
        None => Err(MemoryError::OutOfBounds(a as usize)),
    }
}

/// The last region that contains an address is the one found.
pub proof fn lemma_find_region_is_last(rs: Seq<RegionView>, a: int, i: int)
    requires
        0 <= i < rs.len(),
        rs[i].contains(a),
        forall|j: int| i < j < rs.len() ==> !rs[j].contains(a),
    ensures
        find_region(rs, a) == Some(i),
    decreases rs.len(),
{
    if i < rs.len() - 1 {
        lemma_find_region_is_last(rs.drop_last(), a, i);
    }
}

/// With no region containing an address, none is found.
pub proof fn lemma_find_region_none(rs: Seq<RegionView>, a: int)
    requires
        forall|j: int| 0 <= j < rs.len() ==> !rs[j].contains(a),
    ensures
        find_region(rs, a) is None,
    decreases rs.len(),
{
    if rs.len() > 0 {
        lemma_find_region_none(rs.drop_last(), a);
    }
}

/// What `find_region` gives is a region that contains the address, and no later one does.
pub proof fn lemma_find_region_found(rs: Seq<RegionView>, a: int)
    ensures
        find_region(rs, a) matches Some(i) ==> {
            &&& 0 <= i < rs.len()
            &&& rs[i].contains(a)
            &&& forall|j: int| i < j < rs.len() ==> !rs[j].contains(a)
        },
    decreases rs.len(),
{
    if rs.len() > 0 && !rs.last().contains(a) {
        let d = rs.drop_last();
        lemma_find_region_found(d, a);
        if let Some(i) = find_region(d, a) {
            assert(d[i] == rs[i]);
            assert forall|j: int| i < j < rs.len() implies !rs[j].contains(a) by {
                if j < rs.len() - 1 {
                    assert(d[j] == rs[j]);
                }
            }
        }
    }
}

/// When two regions both contain an address, the one registered later, or
/// one after it, answers for that address: never the earlier one.
pub proof fn lemma_last_registered_wins(rs: Seq<RegionView>, a: int, i: int, j: int)
    requires
        0 <= i < j < rs.len(),
        rs[i].contains(a),
        rs[j].contains(a),
    ensures
        find_region(rs, a) matches Some(k) && k >= j,
{
    lemma_find_region_found(rs, a);
    if find_region(rs, a) is None {
        assert(!rs[j].contains(a)) by {
            lemma_find_region_none_means(rs, a, j);
        }
    }
}

/// When no region is found, none contains the address.
proof fn lemma_find_region_none_means(rs: Seq<RegionView>, a: int, j: int)
    requires
        find_region(rs, a) is None,
        0 <= j < rs.len(),
    ensures
        !rs[j].contains(a),
    decreases rs.len(),
{
    if j < rs.len() - 1 {
        lemma_find_region_none_means(rs.drop_last(), a, j);
    }
}

/// A device added at `r.start` answers for every address it covers: reads
/// of the address space there are reads of the device, and writes go to it.
pub proof fn lemma_added_device_answers(rs: Seq<RegionView>, r: RegionView, a: int, v: u16)
    requires
        r.contains(a),
    ensures
        map_read_u8(rs.push(r), a) == r.device.read_u8(a - r.start),
        map_read_u16(rs.push(r), a) == r.device.read_u16(a - r.start),
        map_write_u8(rs.push(r), a, v as u8) == (match r.device.write_u8(a - r.start, v as u8) {
            Ok(d) => Ok(rs.push(RegionView { device: d, ..r })),
            Err(e) => Err::<Seq<RegionView>, MemoryError>(e),
        }),
        map_write_u16(rs.push(r), a, v) == (match r.device.write_u16(a - r.start, v) {
            Ok(d) => Ok(rs.push(RegionView { device: d, ..r })),
            Err(e) => Err::<Seq<RegionView>, MemoryError>(e),
        }),
{
    let rs2 = rs.push(r);
    assert(rs2.last() == r);
    assert(find_region(rs2, a) == Some(rs.len() as int));
    match r.device.write_u8(a - r.start, v as u8) {
        Ok(d) => {
            assert(rs2.update(rs.len() as int, RegionView { device: d, ..r }) =~= rs.push(RegionView { device: d, ..r }));
        },
        Err(_) => {},
    }
    match r.device.write_u16(a - r.start, v) {
        Ok(d) => {
            assert(rs2.update(rs.len() as int, RegionView { device: d, ..r }) =~= rs.push(RegionView { device: d, ..r }));
        },
        Err(_) => {},
    }
}

/// Terminal output that the screens of `rs` hold, in region order.
pub open spec fn pending_output(rs: Seq<RegionView>) -> Seq<u8>
    decreases rs.len(),
{
    if rs.len() == 0 {
        Seq::empty()
    } else {
        pending_output(rs.drop_last()) + match rs.last().device {
            DeviceView::Screen(s) => s.out,
            DeviceView::Ram(_) => Seq::empty(),
        }
    }
}

/// Region `r` once its output was handed out.
pub open spec fn drained(r: RegionView) -> RegionView {
    match r.device {
        DeviceView::Screen(s) => RegionView { device: DeviceView::Screen(ScreenView { out: Seq::empty(), ..s }), ..r },
        DeviceView::Ram(_) => r,
    }
}

/// Address `a` and the byte after it are served by one RAM.
pub open spec fn ram_word(rs: Seq<RegionView>, a: int) -> bool {
    &&& find_region(rs, a) matches Some(i)
    &&& rs[i].device is Ram
    &&& a + 1 < rs[i].end
}

/// Same regions in the same places, with devices of the same kinds.
pub open spec fn same_layout(rs: Seq<RegionView>, qs: Seq<RegionView>) -> bool {
    &&& rs.len() == qs.len()
    &&& forall|i: int| 0 <= i < rs.len() ==> {
        &&& #[trigger] rs[i].start == qs[i].start
        &&& rs[i].end == qs[i].end
        &&& (rs[i].device is Ram <==> qs[i].device is Ram)
    }
}

/// Regions in the same places answer for the same addresses.
pub proof fn lemma_same_layout_find(rs: Seq<RegionView>, qs: Seq<RegionView>, a: int)
    requires
        same_layout(rs, qs),
    ensures
        find_region(rs, a) == find_region(qs, a),
    decreases rs.len(),
{
    if rs.len() > 0 {
        assert(rs.last().start == qs.last().start);
        assert(same_layout(rs.drop_last(), qs.drop_last())) by {
            assert forall|i: int| 0 <= i < rs.len() - 1 implies #[trigger] rs.drop_last()[i].start
                == qs.drop_last()[i].start by {
                assert(rs[i].start == qs[i].start);
            }
        }
        lemma_same_layout_find(rs.drop_last(), qs.drop_last(), a);
    }
}

/// A word written at an address served by RAM reads back; a word at least
/// two bytes away reads as before; the layout stays.
pub proof fn lemma_ram_write_u16(rs: Seq<RegionView>, a: int, v: u16, b: int)
    requires
        forall|i: int| 0 <= i < rs.len() ==> #[trigger] rs[i].wf(),
        ram_word(rs, a),
    ensures
        map_write_u16(rs, a, v) matches Ok(qs) && {
            &&& same_layout(rs, qs)
            &&& forall|i: int| 0 <= i < qs.len() ==> #[trigger] qs[i].wf()
            &&& map_read_u16(qs, a) == Ok::<u16, MemoryError>(v)
            &&& (b + 2 <= a || a + 2 <= b ==> map_read_u16(qs, b) == map_read_u16(rs, b))
        },
{
    lemma_find_region_found(rs, a);
    let i = find_region(rs, a)->Some_0;
    assert(rs[i].wf());
    let qs = map_write_u16(rs, a, v)->Ok_0;
    lemma_write_keeps_shape(rs[i].device, a - rs[i].start, 0, v);
    assert(same_layout(rs, qs));
    assert forall|j: int| 0 <= j < qs.len() implies #[trigger] qs[j].wf() by {
        assert(rs[j].wf());
    }
    lemma_same_layout_find(rs, qs, a);
    lemma_same_layout_find(rs, qs, b);
    let m = rs[i].device->Ram_0;
    let o = a - rs[i].start;
    let m2 = m.update(o, hi_byte(v)).update(o + 1, lo_byte(v));
    assert(qs[i].device == DeviceView::Ram(m2));
    assert(map_read_u16(qs, a) == Ok::<u16, MemoryError>(v));
    if b + 2 <= a || a + 2 <= b {
        lemma_find_region_found(rs, b);
        if let Some(j) = find_region(rs, b) {
            if j != i {
                assert(qs[j] == rs[j]);
            } else {
                let p = b - rs[i].start;
                if 0 <= p && p + 1 < m.len() {
                    assert(m2[p] == m[p]);
                    assert(m2[p + 1] == m[p + 1]);
                }
            }
        }
    }
}

/// A device placed in the address space.
pub struct Region {
    device: Device,
    start: usize,
    end: usize,
}

impl View for Region {
    type V = RegionView;

    closed spec fn view(&self) -> RegionView {
        RegionView { device: self.device@, start: self.start as nat, end: self.end as nat }
    }
}

impl Region {
    /// Places `device` at `start`; fails when it would reach past the address space.
    pub fn new(device: Device, start: usize) -> (r: Result<Region, MemoryError>)
        requires
            device@.wf(),
        ensures
            start + device@.len() <= ADDRESS_SPACE ==> (r matches Ok(reg) && reg@ == (RegionView {
                device: device@,
                start: start as nat,
                end: (start + device@.len()) as nat,
            })),
            start + device@.len() > ADDRESS_SPACE ==> r == Err::<Region, MemoryError>(
                MemoryError::UnaddressableRegion(if start + device@.len() > usize::MAX {
                    usize::MAX
                } else {
                    (start + device@.len()) as usize
                }),
            ),
    {
        let len = device.len();
        if len > ADDRESS_SPACE || start > ADDRESS_SPACE - len {
            return Err(MemoryError::UnaddressableRegion(start.saturating_add(len)));
        }
        let end = start + len;
        Ok(Self { device, start, end })
    }

    /// Offset of `address` in the region, when the region contains it.
    pub fn contain(&self, address: usize) -> (r: Option<usize>)
        ensures
            self@.contains(address as int) ==> r == Some((address - self@.start) as usize),
            !self@.contains(address as int) ==> r is None,
    {
        if address >= self.start && address < self.end {
            Some(address - self.start)
        } else {
            None
        }
    }
}

/// The address space: regions in the order they were registered, the first
/// one a RAM covering all of it.
pub struct MemoryMap {
    regions: Vec<Region>,
}

impl Default for MemoryMap {
    fn default() -> (m: Self)
        ensures
            m.wf(),
            m@ == seq![RegionView {
                device: DeviceView::Ram(Seq::new(ADDRESS_SPACE as nat, |i: int| 0u8)),
                start: 0,
                end: ADDRESS_SPACE as nat,
            }],
    {
        Self::new()
    }
}

impl View for MemoryMap {
    type V = Seq<RegionView>;

    closed spec fn view(&self) -> Seq<RegionView> {
        self.regions@.map_values(|r: Region| r@)
    }
}

impl MemoryMap {
    pub open spec fn wf(&self) -> bool {
        forall|i: int| 0 <= i < self@.len() ==> #[trigger] self@[i].wf()
    }

    /// An address space served by one zeroed RAM of `0x1_0000` bytes.
    pub fn new() -> (m: Self)
        ensures
            m.wf(),
            m@ == seq![RegionView {
                device: DeviceView::Ram(Seq::new(ADDRESS_SPACE as nat, |i: int| 0u8)),
                start: 0,
                end: ADDRESS_SPACE as nat,
            }],
    {
        let ram = Region { device: Device::Ram(Memory::new(ADDRESS_SPACE)), start: 0, end: ADDRESS_SPACE };
        let mut regions = Vec::new();
        regions.push(ram);
        let m = Self { regions };
        assert(m@ =~= seq![RegionView {
            device: DeviceView::Ram(Seq::new(ADDRESS_SPACE as nat, |i: int| 0u8)),
            start: 0,
            end: ADDRESS_SPACE as nat,
        }]);
        m
    }

    /// Registers `device` at `start`. It then answers for the addresses it
    /// covers, in front of every region registered before it.
    pub fn add_device(&mut self, device: Device, start: usize) -> (r: Result<(), MemoryError>)
        requires
            old(self).wf(),
            device@.wf(),
        ensures
            final(self).wf(),
            start + device@.len() <= ADDRESS_SPACE ==> r is Ok && final(self)@ == old(self)@.push(
                RegionView { device: device@, start: start as nat, end: (start + device@.len()) as nat },
            ),
            start + device@.len() > ADDRESS_SPACE ==> r is Err && final(self)@ == old(self)@,
            start + device@.len() > ADDRESS_SPACE ==> r == Err::<(), MemoryError>(
                MemoryError::UnaddressableRegion(if start + device@.len() > usize::MAX {
                    usize::MAX
                } else {
                    (start + device@.len()) as usize
                }),
            ),
    {
        let reg = Region::new(device, start)?;
        self.regions.push(reg);
        assert(self@ =~= old(self)@.push(reg@));
        Ok(())
    }

    /// Index of the region answering for `address`, and the offset in it.
    fn find_region(&self, address: usize) -> (r: Option<(usize, usize)>)
        ensures
            self@.len() == self.regions@.len(),
            r matches Some((i, _)) ==> i < self.regions@.len(),
            r matches Some((i, off)) ==> find_region(self@, address as int) == Some(i as int)
                && off + self@[i as int].start == address,
            r is None ==> find_region(self@, address as int) is None,
    {
        let mut i = self.regions.len();
        assert(self@.len() == self.regions@.len());
        while i > 0
            invariant
                i <= self.regions@.len(),
                self@.len() == self.regions@.len(),
                forall|j: int| i <= j < self@.len() ==> !self@[j].contains(address as int),
            decreases i,
        {
            i -= 1;
            if let Some(offset) = self.regions[i].contain(address) {
                proof {
                    lemma_find_region_is_last(self@, address as int, i as int);
                }
                return Some((i, offset));
            }
        }
        proof {
            lemma_find_region_none(self@, address as int);
        }
        None
    }

    pub fn get_memory_at_u8(&self, location: usize) -> (r: Result<u8, MemoryError>)
        ensures
            r == map_read_u8(self@, location as int),
    {
        proof {
            lemma_find_region_found(self@, location as int);
        }
        match self.find_region(location) {
            Some((i, offset)) => {
                assert(self@[i as int] == self.regions@[i as int]@);
                self.regions[i].device.get_memory_at_u8(offset)
            },
            None => Err(MemoryError::OutOfBounds(location)),
        }
    }

    pub fn get_memory_at_u16(&self, location: usize) -> (r: Result<u16, MemoryError>)
        ensures
            r == map_read_u16(self@, location as int),
    {
        proof {
            lemma_find_region_found(self@, location as int);
        }
        match self.find_region(location) {
            Some((i, offset)) => {
                assert(self@[i as int] == self.regions@[i as int]@);
                self.regions[i].device.get_memory_at_u16(offset)
            },
            None => Err(MemoryError::OutOfBounds(location)),
        }
    }

    pub fn set_memory_at_u8(&mut self, location: usize, data: u8) -> (r: Result<(), MemoryError>)
        requires
            old(self).wf(),
        ensures
            final(self).wf(),
            match map_write_u8(old(self)@, location as int, data) {
                Ok(m) => r is Ok && final(self)@ == m,
                Err(e) => r == Err::<(), MemoryError>(e) && final(self)@ == old(self)@,
            },
    {
        proof {
            lemma_find_region_found(self@, location as int);
        }
        match self.find_region(location) {
            Some((i, offset)) => {
                let ghost old_rs = self@;
                assert(old_rs[i as int] == self.regions@[i as int]@);
                let r = self.regions[i].device.set_memory_at_u8(offset, data);
                proof {
                    assert(self@ =~= old_rs.update(
                        i as int,
                        RegionView { device: self.regions@[i as int].device@, ..old_rs[i as int] },
                    ));
                    if r is Err {
                        assert(self@ =~= old_rs);
                    }
                    assert(old_rs[i as int].wf());
                    lemma_write_keeps_shape(old_rs[i as int].device, offset as int, data, 0);
                    assert forall|j: int| 0 <= j < self@.len() implies #[trigger] self@[j].wf() by {
                        if j != i {
                            assert(self@[j] == old_rs[j]);
                        }
                    }
                }
                r
            },
            None => Err(MemoryError::OutOfBounds(location)),
        }
    }

    pub fn set_memory_at_u16(&mut self, location: usize, data: u16) -> (r: Result<(), MemoryError>)
        requires
            old(self).wf(),
        ensures
            final(self).wf(),
            match map_write_u16(old(self)@, location as int, data) {
                Ok(m) => r is Ok && final(self)@ == m,
                Err(e) => r == Err::<(), MemoryError>(e) && final(self)@ == old(self)@,
            },
    {
        proof {
            lemma_find_region_found(self@, location as int);
        }
        match self.find_region(location) {
            Some((i, offset)) => {
                let ghost old_rs = self@;
                assert(old_rs[i as int] == self.regions@[i as int]@);
                let r = self.regions[i].device.set_memory_at_u16(offset, data);
                proof {
                    assert(self@ =~= old_rs.update(
                        i as int,
                        RegionView { device: self.regions@[i as int].device@, ..old_rs[i as int] },
                    ));
                    if r is Err {
                        assert(self@ =~= old_rs);
                    }
                    assert(old_rs[i as int].wf());
                    lemma_write_keeps_shape(old_rs[i as int].device, offset as int, 0, data);
                    assert forall|j: int| 0 <= j < self@.len() implies #[trigger] self@[j].wf() by {
                        if j != i {
                            assert(self@[j] == old_rs[j]);
                        }
                    }
                }
                r
            },
            None => Err(MemoryError::OutOfBounds(location)),
        }
    }

    /// Hands out the terminal output of every screen, in region order, and forgets it.
    pub fn take_output(&mut self) -> (o: Vec<u8>)
        requires
            old(self).wf(),
        ensures
            final(self).wf(),
            o@ == pending_output(old(self)@),
            final(self)@ == old(self)@.map_values(|r: RegionView| drained(r)),
    {
        let mut o: Vec<u8> = Vec::new();
        let mut i: usize = 0;
        let n = self.regions.len();
        assert(self@.len() == n);
        while i < n
            invariant
                n == self.regions@.len(),
                self@.len() == n,
                old(self)@.len() == n,
                0 <= i <= n,
                o@ == pending_output(old(self)@.take(i as int)),
                forall|j: int| 0 <= j < i ==> #[trigger] self@[j] == drained(old(self)@[j]),
                forall|j: int| i <= j < n ==> #[trigger] self@[j] == old(self)@[j],
                forall|j: int| 0 <= j < n ==> #[trigger] old(self)@[j].wf(),
            decreases n - i,
        {
            let ghost before = self@;
            assert(before[i as int] == self.regions@[i as int]@);
            let mut part = self.regions[i].device.take_output();
            o.append(&mut part);
            proof {
                assert(old(self)@.take(i + 1).drop_last() =~= old(self)@.take(i as int));
                assert(self@ =~= before.update(i as int, drained(before[i as int])));
            }
            i += 1;
        }
        proof {
            assert(old(self)@.take(n as int) =~= old(self)@);
            assert(self@ =~= old(self)@.map_values(|r: RegionView| drained(r)));
            assert forall|j: int| 0 <= j < self@.len() implies #[trigger] self@[j].wf() by {
                assert(self@[j] == drained(old(self)@[j]));
                assert(old(self)@[j].wf());
            }
        }
        o
    }

    /// Size of the address space.
    pub fn len(&self) -> (n: usize)
        ensures
            n == ADDRESS_SPACE,
    {
        ADDRESS_SPACE
    }

    /// The address space is never empty.
    pub fn is_empty(&self) -> (b: bool)
        ensures
            !b,
    {
        false
    }
}

} // verus!
