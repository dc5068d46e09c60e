use flow_mem::address::{Address, Length};
use flow_mem::arch::{Architecture, ByteOrder, InstructionSet};
use flow_mem::codec::{
    decode_i32, decode_i64, decode_u32, decode_u64, decode_uint, encode_i32, encode_i64,
    encode_u32, encode_u64, encode_uint,
};
use flow_mem::mem::{Error, MemoryImage, PhysicalRead, PhysicalWrite};
use flow_mem::plugin::{LoadableOs, OsDescriptor, PluginError};
use flow_mem::translate::vtop;
use flow_mem::typed::{decode_cstr, truncate_at_nul, VirtualRead, VirtualWrite};
use flow_mem::virt::{virt_read_phys, virt_write_phys};

fn put64(mem: &mut [u8], at: usize, v: u64) {
    mem[at..at + 8].copy_from_slice(&v.to_le_bytes());
}

fn put32(mem: &mut [u8], at: usize, v: u32) {
    mem[at..at + 4].copy_from_slice(&v.to_le_bytes());
}

fn x64() -> Architecture {
    Architecture::new(InstructionSet::X64)
}

/// Four-level tables at 0x1000..0x5000 mapping the virtual page at `vaddr`
/// to physical 0x5000 and the page after it to physical 0x7000.
fn x64_image(vaddr: u64) -> Vec<u8> {
    let mut m = vec![0u8; 0x8000];
    let i0 = ((vaddr >> 39) & 0x1ff) as usize;
    let i1 = ((vaddr >> 30) & 0x1ff) as usize;
    let i2 = ((vaddr >> 21) & 0x1ff) as usize;
    let i3 = ((vaddr >> 12) & 0x1ff) as usize;
    put64(&mut m, 0x1000 + i0 * 8, 0x2000 | 3);
    put64(&mut m, 0x2000 + i1 * 8, 0x3000 | 3);
    put64(&mut m, 0x3000 + i2 * 8, 0x4000 | 3);
    put64(&mut m, 0x4000 + i3 * 8, 0x5000 | 3);
    put64(&mut m, 0x4000 + (i3 + 1) * 8, 0x7000 | 3);
    m
}

const V: u64 = 0x0000_0080_4060_3123;

#[test]
fn x64_walk_reaches_the_page() {
    let mut mem = MemoryImage::new(x64_image(V));
    let r = vtop(x64(), &mut mem, Address::from_u64(0x1000), Address::from_u64(V));
    assert_eq!(r, Ok(Address::from_u64(0x5123)));
    let again = vtop(x64(), &mut mem, Address::from_u64(0x1000), Address::from_u64(V));
    assert_eq!(again, r);
}

#[test]
fn x64_walk_low_dtb_bits_are_ignored() {
    let mut mem = MemoryImage::new(x64_image(V));
    let r = vtop(x64(), &mut mem, Address::from_u64(0x1fff), Address::from_u64(V));
    assert_eq!(r, Ok(Address::from_u64(0x5123)));
}

#[test]
fn x64_not_present_entry_faults_at_its_level() {
    let i2 = ((V >> 21) & 0x1ff) as usize;
    let mut img = x64_image(V);
    put64(&mut img, 0x3000 + i2 * 8, 0x4000);
    let mut mem = MemoryImage::new(img);
    let r = vtop(x64(), &mut mem, Address::from_u64(0x1000), Address::from_u64(V));
    assert_eq!(r, Err(Error::TranslationFault(2)));

    let mut empty = MemoryImage::new(vec![0u8; 0x2000]);
    let r = vtop(x64(), &mut empty, Address::from_u64(0x1000), Address::from_u64(V));
    assert_eq!(r, Err(Error::TranslationFault(0)));
}

#[test]
fn x64_large_pages_end_the_walk() {
    let i1 = ((V >> 30) & 0x1ff) as usize;
    let i2 = ((V >> 21) & 0x1ff) as usize;

    let mut img = x64_image(V);
    put64(&mut img, 0x3000 + i2 * 8, 0x0020_0000 | 0x83);
    let mut mem = MemoryImage::new(img);
    let r = vtop(x64(), &mut mem, Address::from_u64(0x1000), Address::from_u64(V));
    assert_eq!(r, Ok(Address::from_u64(0x0020_0000 | (V & 0x1f_ffff))));

    let mut img = x64_image(V);
    put64(&mut img, 0x2000 + i1 * 8, 0x4000_0000 | 0x83);
    let mut mem = MemoryImage::new(img);
    let r = vtop(x64(), &mut mem, Address::from_u64(0x1000), Address::from_u64(V));
    assert_eq!(r, Ok(Address::from_u64(0x4000_0000 | (V & 0x3fff_ffff))));
}

#[test]
fn x64_table_outside_memory_is_an_io_error() {
    let mut mem = MemoryImage::new(x64_image(V));
    let r = vtop(x64(), &mut mem, Address::from_u64(0x10_0000), Address::from_u64(V));
    assert_eq!(r, Err(Error::Io));
}

#[test]
fn x86_walk_and_large_page() {
    let arch = Architecture::new(InstructionSet::X86);
    let v: u64 = 0x0040_3123;
    let mut img = vec![0u8; 0x4000];
    put32(&mut img, 0x1000 + 1 * 4, 0x2000 | 3);
    put32(&mut img, 0x2000 + 3 * 4, 0x3000 | 3);
    let mut mem = MemoryImage::new(img.clone());
    let r = vtop(arch, &mut mem, Address::from_u64(0x1000), Address::from_u64(v));
    assert_eq!(r, Ok(Address::from_u64(0x3123)));

    put32(&mut img, 0x1000 + 1 * 4, 0x0080_0000 | 0x83);
    let mut mem = MemoryImage::new(img);
    let r = vtop(arch, &mut mem, Address::from_u64(0x1000), Address::from_u64(v));
    assert_eq!(r, Ok(Address::from_u64(0x0080_0000 | (v & 0x3f_ffff))));
}

#[test]
fn x86_pae_walk() {
    let arch = Architecture::new(InstructionSet::X86Pae);
    let v: u64 = 0x4060_3123;
    let mut img = vec![0u8; 0x5000];
    put64(&mut img, 0x1000 + 1 * 8, 0x2000 | 1);
    put64(&mut img, 0x2000 + 3 * 8, 0x3000 | 3);
    put64(&mut img, 0x3000 + 3 * 8, 0x4000 | 3);
    let mut mem = MemoryImage::new(img.clone());
    let r = vtop(arch, &mut mem, Address::from_u64(0x1000), Address::from_u64(v));
    assert_eq!(r, Ok(Address::from_u64(0x4123)));

    put64(&mut img, 0x3000 + 3 * 8, 0x4000);
    let mut mem = MemoryImage::new(img);
    let r = vtop(arch, &mut mem, Address::from_u64(0x1000), Address::from_u64(v));
    assert_eq!(r, Err(Error::TranslationFault(2)));
}

#[test]
fn virt_read_joins_pages_that_are_apart() {
    let mut img = x64_image(0);
    for i in 0..8 {
        img[0x5ff8 + i] = i as u8;
        img[0x7000 + i] = 0x10 + i as u8;
    }
    let mut mem = MemoryImage::new(img);
    let r = virt_read_phys(&mut mem, x64(), Address::from_u64(0x1000), Address::from_u64(0xff8), Length::from(16)).unwrap();
    assert_eq!(r, vec![0, 1, 2, 3, 4, 5, 6, 7, 0x10, 0x11, 0x12, 0x13, 0x14, 0x15, 0x16, 0x17]);
}

#[test]
fn virt_read_fails_whole_on_an_unmapped_page() {
    let mut mem = MemoryImage::new(x64_image(0));
    let r = mem.virt_read(x64(), Address::from_u64(0x1000), Address::from_u64(0x1ff0), Length::from(0x20));
    assert_eq!(r, Err(Error::TranslationFault(3)));
    let r = mem.virt_read(x64(), Address::from_u64(0x1000), Address::from_u64(0x1ff0), Length::from(0));
    assert_eq!(r, Ok(vec![]));
}

#[test]
fn virt_read_cstr_stops_at_zero() {
    let mut img = x64_image(0);
    img[0x5100..0x5104].copy_from_slice(&[0x41, 0x42, 0x00, 0x43]);
    let mut mem = MemoryImage::new(img);
    let s = mem
        .virt_read_cstr(x64(), Address::from_u64(0x1000), Address::from_u64(0x100), Length::from(4))
        .unwrap();
    assert_eq!(s, "AB");
    let s = mem
        .virt_read_cstr(x64(), Address::from_u64(0x1000), Address::from_u64(0x102), Length::from(2))
        .unwrap();
    assert_eq!(s, "");
}

#[test]
fn cstr_helpers() {
    assert_eq!(truncate_at_nul(&[0x41, 0x42, 0x00, 0x43]), vec![0x41, 0x42]);
    assert_eq!(truncate_at_nul(&[0x41, 0x42]), vec![0x41, 0x42]);
    assert_eq!(decode_cstr(&[0x41, 0x42, 0x00, 0x43]), "AB");
    assert_eq!(decode_cstr(&[0x68, 0x69]), "hi");
    assert_eq!(decode_cstr(&[0xff, 0x41]), "\u{fffd}A");
}

#[test]
fn typed_reads_decode_little_endian() {
    let mut img = x64_image(0);
    img[0x5200..0x5208].copy_from_slice(&0x1122_3344_5566_7788u64.to_le_bytes());
    img[0x5300..0x5304].copy_from_slice(&(-2i32).to_le_bytes());
    let mut mem = MemoryImage::new(img);
    let dtb = Address::from_u64(0x1000);
    assert_eq!(mem.virt_read_u64(x64(), dtb, Address::from_u64(0x200)), Ok(0x1122_3344_5566_7788));
    assert_eq!(mem.virt_read_u32(x64(), dtb, Address::from_u64(0x200)), Ok(0x5566_7788));
    assert_eq!(mem.virt_read_i32(x64(), dtb, Address::from_u64(0x300)), Ok(-2));
    assert_eq!(mem.virt_read_i64(x64(), dtb, Address::from_u64(0x200)), Ok(0x1122_3344_5566_7788));
    assert_eq!(mem.virt_read_addr(x64(), dtb, Address::from_u64(0x200)), Ok(Address::from_u64(0x1122_3344_5566_7788)));
    assert_eq!(mem.virt_read_u64(x64(), dtb, Address::from_u64(0x2000)), Err(Error::TranslationFault(3)));
}

#[test]
fn typed_writes_round_trip_across_a_page_edge() {
    let mut mem = MemoryImage::new(x64_image(0));
    let dtb = Address::from_u64(0x1000);
    let at = Address::from_u64(0xffc);
    assert_eq!(mem.virt_write_u64(x64(), dtb, at, 0xdead_beef_0bad_f00d), Ok(Length::from(8)));
    assert_eq!(&mem.data[0x5ffc..0x6000], &[0x0d, 0xf0, 0xad, 0x0b]);
    assert_eq!(&mem.data[0x7000..0x7004], &[0xef, 0xbe, 0xad, 0xde]);
    assert_eq!(mem.virt_read_u64(x64(), dtb, at), Ok(0xdead_beef_0bad_f00d));
    assert_eq!(mem.virt_write_i64(x64(), dtb, at, i64::MIN), Ok(Length::from(8)));
    assert_eq!(mem.virt_read_i64(x64(), dtb, at), Ok(i64::MIN));
    assert_eq!(mem.virt_write_i32(x64(), dtb, at, -1), Ok(Length::from(4)));
    assert_eq!(mem.virt_read_i32(x64(), dtb, at), Ok(-1));
    assert_eq!(mem.virt_write_u32(x64(), dtb, at, u32::MAX), Ok(Length::from(4)));
    assert_eq!(mem.virt_read_u32(x64(), dtb, at), Ok(u32::MAX));
    assert_eq!(mem.virt_write_addr(x64(), dtb, at, Address::from_u64(0x1234)), Ok(Length::from(8)));
    assert_eq!(mem.virt_read_addr(x64(), dtb, at), Ok(Address::from_u64(0x1234)));
}

#[test]
fn virt_write_stops_at_an_unmapped_page() {
    let mut mem = MemoryImage::new(x64_image(0));
    let data = vec![7u8; 8];
    let r = virt_write_phys(&mut mem, x64(), Address::from_u64(0x1000), Address::from_u64(0x1ffc), &data);
    assert_eq!(r, Err(Error::TranslationFault(3)));
    assert_eq!(&mem.data[0x7ffc..0x8000], &[7, 7, 7, 7]);
}

#[test]
fn physical_access_checks_bounds() {
    let mut mem = MemoryImage::new(vec![1, 2, 3, 4]);
    assert_eq!(mem.phys_read(Address::from_u64(1), Length::from(3)), Ok(vec![2, 3, 4]));
    assert_eq!(mem.phys_read(Address::from_u64(2), Length::from(3)), Err(Error::Io));
    assert_eq!(mem.phys_write(Address::from_u64(3), &vec![9]), Ok(Length::from(1)));
    assert_eq!(mem.data, vec![1, 2, 3, 9]);
    assert_eq!(mem.phys_write(Address::from_u64(4), &vec![9]), Err(Error::Io));
}

#[test]
fn scalar_encodings() {
    let le = ByteOrder::LittleEndian;
    let be = ByteOrder::BigEndian;
    let b = [1u8, 2, 3, 4, 5, 6, 7, 8];
    assert_eq!(decode_u64(le, &b), 0x0807_0605_0403_0201);
    assert_eq!(decode_u64(be, &b), 0x0102_0304_0506_0708);
    assert_eq!(decode_u32(be, &b), 0x0102_0304);
    assert_eq!(decode_uint(le, &b, 3), 0x03_0201);
    assert_eq!(encode_i32(le, -2), vec![0xfe, 0xff, 0xff, 0xff]);
    assert_eq!(encode_u32(be, 0x0102_0304), vec![1, 2, 3, 4]);
    assert_eq!(encode_uint(be, 0x0102, 2), vec![1, 2]);
    for order in [le, be] {
        for v in [0u64, 1, 0x1234_5678, u64::MAX] {
            assert_eq!(decode_u64(order, &encode_u64(order, v)), v);
        }
        for v in [0i64, -1, i64::MIN, i64::MAX] {
            assert_eq!(decode_i64(order, &encode_i64(order, v)), v);
        }
        for v in [0i32, -7, i32::MIN, i32::MAX] {
            assert_eq!(decode_i32(order, &encode_i32(order, v)), v);
        }
        for v in [0u32, u32::MAX] {
            assert_eq!(decode_u32(order, &encode_u32(order, v)), v);
        }
    }
}

#[test]
fn arch_widths() {
    let x86 = InstructionSet::X86;
    assert_eq!(x86.len_addr().as_usize(), 4);
    assert_eq!(InstructionSet::X64.len_addr().as_usize(), 8);
    assert_eq!(x86.byte_order(), ByteOrder::LittleEndian);
    assert_eq!(x64().page_size().as_usize(), 0x1000);
    assert_eq!(Address::from_u64(0x1234).as_page_aligned(Length::from(0x1000)), Address::from_u64(0x1000));
}

#[test]
fn os_plugin_descriptor() {
    assert_eq!(LoadableOs::export_prefix(), "MEMFLOW_OS_");
    assert_eq!(LoadableOs::plugin_type(), "OS");
    let os = LoadableOs::new(OsDescriptor {
        name: "win32".to_string(),
        help_texts: Some(vec!["first".to_string(), "second".to_string()]),
    });
    assert_eq!(os.ident(), "win32");
    assert_eq!(os.help(), Ok("first".to_string()));
    assert_eq!(os.target_list(), Err(PluginError::NotSupported));
    let quiet = LoadableOs::new(OsDescriptor { name: "x".to_string(), help_texts: Some(vec![]) });
    assert_eq!(quiet.help(), Err(PluginError::NotSupported));
    let none = LoadableOs::new(OsDescriptor { name: "y".to_string(), help_texts: None });
    assert_eq!(none.help(), Err(PluginError::NotSupported));
}
