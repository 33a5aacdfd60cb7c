use mboot::image::{
    load_elf, load_linux_pvh, ELF_CLASS_64, ELF_DATA_LITTLE_ENDIAN, ELF_HEADER_SIZE,
    ELF_MACHINE_X86_64, ELF_MAGIC, ELF_TYPE_EXECUTABLE, PROGRAM_HEADER_SIZE, PT_LOAD, PT_NOTE,
    PVH_MEMORY_MAP_GPA, PVH_START_INFO_GPA, XEN_ELFNOTE_PHYS32_ENTRY, XEN_HVM_MEMMAP_TYPE_RAM,
    XEN_HVM_MEMMAP_TYPE_RESERVED, XEN_HVM_START_MAGIC_VALUE,
};
use mboot::Error;

#[test]
fn truncated_elf_is_rejected() {
    let mut memory = vec![0u8; 4096];
    assert_eq!(load_elf(&ELF_MAGIC, &mut memory), Err(Error::InvalidImage));
}

fn put(bytes: &mut [u8], offset: usize, value: &[u8]) {
    bytes[offset..offset + value.len()].copy_from_slice(value);
}

fn put_header(kernel: &mut [u8], entry: u64, program_header_count: u16) {
    put(kernel, 0, &ELF_MAGIC);
    kernel[4] = ELF_CLASS_64;
    kernel[5] = ELF_DATA_LITTLE_ENDIAN;
    put(kernel, 16, &ELF_TYPE_EXECUTABLE.to_le_bytes());
    put(kernel, 18, &ELF_MACHINE_X86_64.to_le_bytes());
    put(kernel, 20, &1u32.to_le_bytes());
    put(kernel, 24, &entry.to_le_bytes());
    put(kernel, 32, &(ELF_HEADER_SIZE as u64).to_le_bytes());
    put(kernel, 52, &(ELF_HEADER_SIZE as u16).to_le_bytes());
    put(kernel, 54, &(PROGRAM_HEADER_SIZE as u16).to_le_bytes());
    put(kernel, 56, &program_header_count.to_le_bytes());
}

fn put_program_header(
    kernel: &mut [u8],
    index: usize,
    segment_type: u32,
    flags: u32,
    fields: [u64; 6],
) {
    let start = ELF_HEADER_SIZE + index * PROGRAM_HEADER_SIZE;
    put(kernel, start, &segment_type.to_le_bytes());
    put(kernel, start + 4, &flags.to_le_bytes());
    for (position, value) in fields.iter().enumerate() {
        put(kernel, start + 8 + 8 * position, &value.to_le_bytes());
    }
}

fn pvh_kernel() -> Vec<u8> {
    let mut kernel = vec![0u8; 0x400];
    put_header(&mut kernel, 0, 2);
    put_program_header(
        &mut kernel,
        0,
        PT_LOAD,
        5,
        [0x200, 0xffff_ffff_8100_0000, 0x1_0000, 4, 8, 0x1000],
    );
    put_program_header(&mut kernel, 1, PT_NOTE, 0, [0x300, 0, 0, 24, 24, 4]);
    kernel[0x200..0x204].copy_from_slice(b"PVH!");
    kernel[0x300..0x304].copy_from_slice(&4u32.to_le_bytes());
    kernel[0x304..0x308].copy_from_slice(&8u32.to_le_bytes());
    kernel[0x308..0x30c].copy_from_slice(&XEN_ELFNOTE_PHYS32_ENTRY.to_le_bytes());
    kernel[0x30c..0x310].copy_from_slice(b"Xen\0");
    kernel[0x310..0x318].copy_from_slice(&0x1_0000u64.to_le_bytes());
    kernel
}

fn word(bytes: &[u8], offset: usize) -> u32 {
    u32::from_le_bytes(bytes[offset..offset + 4].try_into().unwrap())
}

fn quad(bytes: &[u8], offset: usize) -> u64 {
    u64::from_le_bytes(bytes[offset..offset + 8].try_into().unwrap())
}

#[test]
fn loads_a_linux_pvh_kernel_and_boot_information() {
    let kernel = pvh_kernel();
    let mut guest = vec![0xaau8; 128 * 1024];
    let size = guest.len() as u64;
    let loaded = load_linux_pvh(
        &kernel,
        Some(b"initramfs"),
        "console=ttyS0",
        0x1234,
        size - 2 * 4096,
        &mut guest,
    )
    .unwrap();
    assert_eq!(loaded.entry(), 0x1_0000);
    assert_eq!(loaded.boot_info(), PVH_START_INFO_GPA);
    assert_eq!(&guest[0x1_0000..0x1_0004], b"PVH!");
    assert_eq!(&guest[0x1_0004..0x1_0008], &[0; 4]);
    let start = PVH_START_INFO_GPA as usize;
    assert_eq!(word(&guest, start), XEN_HVM_START_MAGIC_VALUE);
    assert_eq!(word(&guest, start + 12), 1);
    assert_eq!(quad(&guest, start + 32), 0x1234);
    assert_eq!(word(&guest, start + 48), 2);
    let map = PVH_MEMORY_MAP_GPA as usize;
    assert_eq!(quad(&guest, map + 8), size - 2 * 4096);
    assert_eq!(word(&guest, map + 16), XEN_HVM_MEMMAP_TYPE_RAM);
    assert_eq!(quad(&guest, map + 24 + 8), 2 * 4096);
    assert_eq!(word(&guest, map + 24 + 16), XEN_HVM_MEMMAP_TYPE_RESERVED);
}

#[test]
fn kernels_without_an_entry_note_are_rejected() {
    let mut kernel = pvh_kernel();
    kernel[0x308] = 1;
    let mut guest = vec![0u8; 128 * 1024];
    assert_eq!(
        load_linux_pvh(&kernel, None, "", 0, 0x1_e000, &mut guest),
        Err(Error::InvalidImage)
    );
}

#[test]
fn native_images_are_loaded_at_their_physical_addresses() {
    let mut image = vec![0u8; 0x300];
    put_header(&mut image, 0x1_0002, 1);
    put_program_header(&mut image, 0, PT_LOAD, 5, [0x200, 0x1_0000, 0x1_0000, 4, 8, 0x1000]);
    image[0x200..0x204].copy_from_slice(b"mnu!");
    let mut guest = vec![0xaau8; 128 * 1024];
    let loaded = load_elf(&image, &mut guest).unwrap();
    assert_eq!(loaded.entry(), 0x1_0002);
    assert_eq!(&guest[0x1_0000..0x1_0008], b"mnu!\0\0\0\0");
    assert_eq!(guest[0x1_0008], 0xaa);
    let mut small = vec![0u8; 0x1_0004];
    assert_eq!(load_elf(&image, &mut small), Err(Error::ImageTooLarge));
}
