use vstd::prelude::*;
use crate::memory::{Memory, MemoryError};
use crate::memory_map::{Device, DeviceView};
use crate::screen::Screen;

verus! {

/// What a device offers the address space: byte and word reads and
/// writes at offsets into it, and its size.
pub trait MemoryIO {
    /// The device's state.
    spec fn device_view(&self) -> DeviceView;

    fn get_memory_at_u8(&self, location: usize) -> (r: Result<u8, MemoryError>)
        ensures
            r == self.device_view().read_u8(location as int);

    fn get_memory_at_u16(&self, location: usize) -> (r: Result<u16, MemoryError>)
        ensures
            r == self.device_view().read_u16(location as int);

    fn set_memory_at_u8(&mut self, location: usize, data: u8) -> (r: Result<(), MemoryError>)
        ensures
            match old(self).device_view().write_u8(location as int, data) {
                Ok(d) => r is Ok && final(self).device_view() == d,
                Err(e) => r == Err::<(), MemoryError>(e) && final(self).device_view() == old(self).device_view(),
            };

    fn set_memory_at_u16(&mut self, location: usize, data: u16) -> (r: Result<(), MemoryError>)
        ensures
            match old(self).device_view().write_u16(location as int, data) {
                Ok(d) => r is Ok && final(self).device_view() == d,
                Err(e) => r == Err::<(), MemoryError>(e) && final(self).device_view() == old(self).device_view(),
            };

    fn len(&self) -> (n: usize)
        requires
            self.device_view().wf(),
        ensures
            n == self.device_view().len();

    fn is_empty(&self) -> (b: bool)
        ensures
            b == (self.device_view().len() == 0);
}

impl MemoryIO for Memory {
    open spec fn device_view(&self) -> DeviceView {
        DeviceView::Ram(self@)
    }

    fn get_memory_at_u8(&self, location: usize) -> (r: Result<u8, MemoryError>) {
        Memory::get_memory_at_u8(self, location)
    }

    fn get_memory_at_u16(&self, location: usize) -> (r: Result<u16, MemoryError>) {
        Memory::get_memory_at_u16(self, location)
    }

    fn set_memory_at_u8(&mut self, location: usize, data: u8) -> (r: Result<(), MemoryError>) {
        Memory::set_memory_at_u8(self, location, data)
    }

    fn set_memory_at_u16(&mut self, location: usize, data: u16) -> (r: Result<(), MemoryError>) {
        Memory::set_memory_at_u16(self, location, data)
    }

    fn len(&self) -> (n: usize) {
        Memory::len(self)
    }

    fn is_empty(&self) -> (b: bool) {
        Memory::is_empty(self)
    }
}

impl MemoryIO for Screen {
    open spec fn device_view(&self) -> DeviceView {
        DeviceView::Screen(self@)
    }

    fn get_memory_at_u8(&self, location: usize) -> (r: Result<u8, MemoryError>) {
        Screen::get_memory_at_u8(self, location)
    }

    fn get_memory_at_u16(&self, location: usize) -> (r: Result<u16, MemoryError>) {
        Screen::get_memory_at_u16(self, location)
    }

    fn set_memory_at_u8(&mut self, location: usize, data: u8) -> (r: Result<(), MemoryError>) {
        Screen::set_memory_at_u8(self, location, data)
    }

    fn set_memory_at_u16(&mut self, location: usize, data: u16) -> (r: Result<(), MemoryError>) {
        Screen::set_memory_at_u16(self, location, data)
    }

    fn len(&self) -> (n: usize) {
        Screen::len(self)
    }

    fn is_empty(&self) -> (b: bool) {
        let b = Screen::is_empty(self);
        proof {
            let w = self@.width;
            let h = self@.height;
            assert((w * h == 0) == (w == 0 || h == 0)) by (nonlinear_arith);
        }
        b
    }
}

impl MemoryIO for Device {
    open spec fn device_view(&self) -> DeviceView {
        self@
    }

    fn get_memory_at_u8(&self, location: usize) -> (r: Result<u8, MemoryError>) {
        Device::get_memory_at_u8(self, location)
    }

    fn get_memory_at_u16(&self, location: usize) -> (r: Result<u16, MemoryError>) {
        Device::get_memory_at_u16(self, location)
    }

    fn set_memory_at_u8(&mut self, location: usize, data: u8) -> (r: Result<(), MemoryError>) {
        Device::set_memory_at_u8(self, location, data)
    }

    fn set_memory_at_u16(&mut self, location: usize, data: u16) -> (r: Result<(), MemoryError>) {
        Device::set_memory_at_u16(self, location, data)
    }

    fn len(&self) -> (n: usize) {
        Device::len(self)
    }

    fn is_empty(&self) -> (b: bool) {
        Device::is_empty(self)
    }
}

} // verus!
