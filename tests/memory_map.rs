use vm16::memory::{Memory, MemoryError};
use vm16::memory_io::MemoryIO;
use vm16::memory_map::{Device, MemoryMap};
use vm16::screen::Screen;

#[test]
fn later_region_wins() {
    let mut map = MemoryMap::new();
    map.set_memory_at_u8(0x1001, 0xAA).unwrap();
    let mut overlay = Memory::new(0x10);
    overlay.set_memory_at_u8(0x01, 0x55).unwrap();
    map.add_device(Device::Ram(overlay), 0x1000).unwrap();
    assert_eq!(map.get_memory_at_u8(0x1001).unwrap(), 0x55);
    map.set_memory_at_u16(0x1002, 0xBEEF).unwrap();
    assert_eq!(map.get_memory_at_u16(0x1002).unwrap(), 0xBEEF);
    // Outside the overlay the first RAM still answers.
    assert_eq!(map.get_memory_at_u8(0x0FFF).unwrap(), 0x00);
    assert_eq!(map.get_memory_at_u8(0x1010).unwrap(), 0x00);
}

#[test]
fn region_past_address_space() {
    let mut map = MemoryMap::new();
    assert_eq!(
        map.add_device(Device::Ram(Memory::new(0x20)), 0xFFF0),
        Err(MemoryError::UnaddressableRegion(0x1_0010))
    );
    assert!(map.add_device(Device::Ram(Memory::new(0x10)), 0xFFF0).is_ok());
    assert!(map.get_memory_at_u8(0x1_0000).is_err());
    assert_eq!(map.len(), 0x1_0000);
    assert!(!map.is_empty());
}

#[test]
fn ram_word_round_trip() {
    let mut m = Memory::new(0x1_0000);
    m.set_memory_at_u16(0xFFFE, 0x1234).unwrap();
    assert_eq!(m.get_memory_at_u16(0xFFFE).unwrap(), 0x1234);
    assert_eq!(m.get_memory_at_u8(0xFFFE).unwrap(), 0x12);
    assert_eq!(m.get_memory_at_u8(0xFFFF).unwrap(), 0x34);
    assert_eq!(m.set_memory_at_u16(0xFFFF, 0x1), Err(MemoryError::OutOfBounds(0x1_0000)));
    assert_eq!(m.get_memory_at_u8(0xFFFF).unwrap(), 0x34);
    assert_eq!(m.len(), 0x1_0000);
    assert!(!m.is_empty());
    assert!(Memory::new(0).is_empty());
}

#[test]
fn screen_commands() {
    let mut s = Screen::new(10, 2);
    assert_eq!(s.len(), 20);
    s.set_memory_at_u8(0, 0xFE).unwrap();
    assert_eq!(s.take_output(), b"\x1b[1K\x1b[1G".to_vec());
    s.set_memory_at_u16(13, 0x00E9).unwrap();
    assert_eq!(s.take_output(), "\x1b[1E\x1b[4G\u{e9}".as_bytes().to_vec());
    s.set_memory_at_u16(0, 0x0041).unwrap();
    assert_eq!(s.take_output(), b"\x1b[1F\x1b[1GA".to_vec());
    assert_eq!(s.set_memory_at_u16(20, 0x0041), Err(MemoryError::OutOfBounds(20)));
    assert_eq!(s.get_memory_at_u16(3).unwrap(), 0);
}

fn first_word<D: MemoryIO>(d: &mut D) -> u16 {
    d.set_memory_at_u16(0, 0x0141).unwrap();
    d.get_memory_at_u16(0).unwrap()
}

#[test]
fn devices_share_one_capability() {
    let mut ram = Memory::new(4);
    assert_eq!(first_word(&mut ram), 0x0141);
    let mut screen = Screen::new(4, 1);
    assert_eq!(first_word(&mut screen), 0);
    assert_eq!(MemoryIO::len(&screen), 4);
    let mut dev = Device::Ram(Memory::new(2));
    assert_eq!(first_word(&mut dev), 0x0141);
    assert!(!MemoryIO::is_empty(&dev));
    assert_eq!(MemoryIO::len(&dev), 2);
}
