use vstd::prelude::*;

verus! {

/// What can go wrong when a memory, a device or the register file is accessed.
#[derive(Debug, Clone, PartialEq, Eq)]
pub enum MemoryError {
    OutOfBounds(usize),
    BadRegisterLen(u8),
    NoRegister(String),
    UnaddressableRegion(usize),
    UnexpectedData(u16, usize),
}

/// Big-endian value of two bytes.
pub open spec fn be16(hi: u8, lo: u8) -> u16 {
    (hi as int * 256 + lo as int) as u16
}

/// High byte of a 16-bit value.
pub open spec fn hi_byte(v: u16) -> u8 {
    (v as int / 256) as u8
}

/// Low byte of a 16-bit value.
pub open spec fn lo_byte(v: u16) -> u8 {
    (v as int % 256) as u8
}

/// Byte `a` of `m`.
pub open spec fn read_u8_of(m: Seq<u8>, a: int) -> Result<u8, MemoryError> {
    if 0 <= a < m.len() {
        Ok(m[a])
    } else {
        Err(MemoryError::OutOfBounds(a as usize))
    }
}

/// First address of a 16-bit access at `a` that lies outside `m`.
pub open spec fn bad_u16_address(m: Seq<u8>, a: int) -> usize {
    if a >= m.len() { a as usize } else { (a + 1) as usize }
}

/// Big-endian 16-bit word at `a` of `m`.
pub open spec fn read_u16_of(m: Seq<u8>, a: int) -> Result<u16, MemoryError> {
    if 0 <= a && a + 1 < m.len() {
        Ok(be16(m[a], m[a + 1]))
    } else {
        Err(MemoryError::OutOfBounds(bad_u16_address(m, a)))
    }
}

/// `m` with byte `a` set to `v`.
pub open spec fn write_u8_of(m: Seq<u8>, a: int, v: u8) -> Result<Seq<u8>, MemoryError> {
    if 0 <= a < m.len() {
        Ok(m.update(a, v))
    } else {
        Err(MemoryError::OutOfBounds(a as usize))
    }
}

/// `m` with the big-endian word `v` at `a`; nothing is written when either byte is outside.
pub open spec fn write_u16_of(m: Seq<u8>, a: int, v: u16) -> Result<Seq<u8>, MemoryError> {
    if 0 <= a && a + 1 < m.len() {
        Ok(m.update(a, hi_byte(v)).update(a + 1, lo_byte(v)))
    } else {
        Err(MemoryError::OutOfBounds(bad_u16_address(m, a)))
    }
}

/// A flat buffer of bytes.
pub struct Memory {
    data: Vec<u8>,
}

impl View for Memory {
    type V = Seq<u8>;

    closed spec fn view(&self) -> Seq<u8> {
        self.data@
    }
}

impl Memory {
    /// A memory of `size` bytes, all zero.
    pub fn new(size: usize) -> (m: Self)
        ensures
            m@ == Seq::new(size as nat, |i: int| 0u8),
    {
        let data = vec![0u8; size];
        proof {
            assert(data@ =~= Seq::new(size as nat, |i: int| 0u8));
        }
        Self { data }
    }

    /// Number of bytes.
    pub fn len(&self) -> (n: usize)
        ensures
            n == self@.len(),
    {
        self.data.len()
    }

    /// True when the memory holds no byte.
    pub fn is_empty(&self) -> (b: bool)
        ensures
            b == (self@.len() == 0),
    {
        self.data.len() == 0
    }

    /// Byte at `location`.
    pub fn get_memory_at_u8(&self, location: usize) -> (r: Result<u8, MemoryError>)
        ensures
            r == read_u8_of(self@, location as int),
    {
        if location >= self.data.len() {
            return Err(MemoryError::OutOfBounds(location));
        }
        Ok(self.data[location])
    }

    /// Byte at `location`; the same as `get_memory_at_u8`.
    pub fn get_memory_at(&self, location: usize) -> (r: Result<u8, MemoryError>)
        ensures
            r == read_u8_of(self@, location as int),
    {
        self.get_memory_at_u8(location)
    }

    /// Big-endian word at `location`: high byte there, low byte after it.
    pub fn get_memory_at_u16(&self, location: usize) -> (r: Result<u16, MemoryError>)
        ensures
            r == read_u16_of(self@, location as int),
    {
        if location >= self.data.len() {
            return Err(MemoryError::OutOfBounds(location));
        }
        if location + 1 >= self.data.len() {
            return Err(MemoryError::OutOfBounds(location + 1));
        }
        let left = self.data[location];
        let right = self.data[location + 1];
        Ok(left as u16 * 256 + right as u16)
    }

    /// Sets the byte at `location`.
    pub fn set_memory_at_u8(&mut self, location: usize, value: u8) -> (r: Result<(), MemoryError>)
        ensures
            match write_u8_of(old(self)@, location as int, value) {
                Ok(m) => r is Ok && final(self)@ == m,
                Err(e) => r == Err::<(), MemoryError>(e) && final(self)@ == old(self)@,
            },
    {
        if location >= self.data.len() {
            return Err(MemoryError::OutOfBounds(location));
        }
        self.data.set(location, value);
        Ok(())
    }

    /// Sets the byte at `location`; the same as `set_memory_at_u8`.
    pub fn set_memory_at(&mut self, location: usize, value: u8) -> (r: Result<(), MemoryError>)
        ensures
            match write_u8_of(old(self)@, location as int, value) {
                Ok(m) => r is Ok && final(self)@ == m,
                Err(e) => r == Err::<(), MemoryError>(e) && final(self)@ == old(self)@,
            },
    {
        self.set_memory_at_u8(location, value)
    }

    /// Sets the big-endian word at `location`. Both bytes are checked before
    /// either is written, so a failed call changes nothing.
    pub fn set_memory_at_u16(&mut self, location: usize, value: u16) -> (r: Result<(), MemoryError>)
        ensures
            match write_u16_of(old(self)@, location as int, value) {
                Ok(m) => r is Ok && final(self)@ == m,
                Err(e) => r == Err::<(), MemoryError>(e) && final(self)@ == old(self)@,
            },
    {
        if location >= self.data.len() {
            return Err(MemoryError::OutOfBounds(location));
        }
        if location + 1 >= self.data.len() {
            return Err(MemoryError::OutOfBounds(location + 1));
        }
        self.data.set(location, (value / 256) as u8);
        self.data.set(location + 1, (value % 256) as u8);
        Ok(())
    }
}

} // verus!

verus! {

/// In a RAM covering the whole address space, a word written at `a`
/// (below its last byte) reads back whole: its high byte at `a`, its low
/// byte at `a + 1`.
pub proof fn lemma_ram_word_round_trip(m: Seq<u8>, a: int, v: u16)
    requires
        m.len() == 0x1_0000,
        0 <= a < 0xFFFF,
    ensures
        write_u16_of(m, a, v) matches Ok(m2) && {
            &&& read_u16_of(m2, a) == Ok::<u16, MemoryError>(v)
            &&& read_u8_of(m2, a) == Ok::<u8, MemoryError>((v >> 8) as u8)
            &&& read_u8_of(m2, a + 1) == Ok::<u8, MemoryError>((v & 0xFF) as u8)
        },
{
    assert(v >> 8 == v / 256) by (bit_vector);
    assert(v & 0xFF == v % 256) by (bit_vector);
}

} // verus!
