use mboot::bundle::{NetworkBundle, HEADER_SIZE, MAGIC, VERSION};
use mboot::Error;

fn bundle(files: &[(&str, &[u8])]) -> Vec<u8> {
    let mut bytes = Vec::from(MAGIC);
    bytes.extend_from_slice(&VERSION.to_le_bytes());
    bytes.extend_from_slice(&(HEADER_SIZE as u16).to_le_bytes());
    bytes.extend_from_slice(&(files.len() as u16).to_le_bytes());
    bytes.extend_from_slice(&0u16.to_le_bytes());
    bytes.extend_from_slice(&0u32.to_le_bytes());
    bytes.extend_from_slice(&[0; 12]);
    for (path, data) in files {
        bytes.extend_from_slice(&(path.len() as u16).to_le_bytes());
        bytes.extend_from_slice(&0u16.to_le_bytes());
        bytes.extend_from_slice(&(data.len() as u64).to_le_bytes());
        bytes.extend_from_slice(&0u32.to_le_bytes());
        bytes.extend_from_slice(path.as_bytes());
        bytes.extend_from_slice(data);
    }
    let size = bytes.len() as u32;
    bytes[16..20].copy_from_slice(&size.to_le_bytes());
    bytes
}

#[test]
fn finds_files_with_uefi_or_unix_separators() {
    let bytes = bundle(&[(r"\EFI\MBOOT\LAUNCH.MF", b"manifest")]);
    let parsed = NetworkBundle::parse(&bytes).unwrap();
    assert_eq!(parsed.file("/EFI/MBOOT/LAUNCH.MF"), Ok(b"manifest".as_slice()));
}

#[test]
fn rejects_truncated_and_duplicate_entries() {
    let mut truncated = bundle(&[(r"\EFI\MBOOT\MNU.ELF", b"image")]);
    truncated.pop();
    assert_eq!(NetworkBundle::parse(&truncated), Err(Error::InvalidBundle));

    let duplicate = bundle(&[
        (r"\EFI\MBOOT\MNU.ELF", b"one"),
        (r"/EFI/MBOOT/MNU.ELF", b"two"),
    ]);
    assert_eq!(NetworkBundle::parse(&duplicate), Err(Error::InvalidBundle));
}

#[test]
fn every_packed_file_is_found_and_no_other() {
    let bytes = bundle(&[("/a", b"first"), ("/b", b""), (r"\dir\c", b"third")]);
    let parsed = NetworkBundle::parse(&bytes).unwrap();
    assert_eq!(parsed.file("/a"), Ok(b"first".as_slice()));
    assert_eq!(parsed.file("/b"), Ok(b"".as_slice()));
    assert_eq!(parsed.file("/dir/c"), Ok(b"third".as_slice()));
    assert!(parsed.file("/d").is_err());
}

#[test]
fn header_fields_are_checked() {
    let good = bundle(&[("/a", b"x")]);
    for index in [0, 8, 10, 14, 16, 20] {
        let mut bad = good.clone();
        bad[index] ^= 0x40;
        assert_eq!(NetworkBundle::parse(&bad), Err(Error::InvalidBundle));
    }
    let mut trailing = good.clone();
    trailing.push(0);
    assert_eq!(NetworkBundle::parse(&trailing), Err(Error::InvalidBundle));
    assert_eq!(NetworkBundle::parse(&[]), Err(Error::InvalidBundle));
    let mut text = good;
    text[32 + 16 + 1] = 0xff;
    assert_eq!(NetworkBundle::parse(&text), Err(Error::InvalidBundle));
}

#[test]
fn separators_do_not_matter_and_letter_case_does() {
    let bytes = bundle(&[(r"\EFI\MBOOT/MNU.ELF", b"one"), (r"\EFI\MBOOT\mnu.elf", b"two")]);
    let parsed = NetworkBundle::parse(&bytes).unwrap();
    for path in [r"\EFI\MBOOT\MNU.ELF", "/EFI/MBOOT/MNU.ELF", r"/EFI\MBOOT/MNU.ELF"] {
        assert_eq!(parsed.file(path), Ok(b"one".as_slice()));
        assert_eq!(parsed.file(&path.replace('\\', "/")), parsed.file(path));
    }
    assert_eq!(parsed.file("/EFI/MBOOT/mnu.elf"), Ok(b"two".as_slice()));
    assert_eq!(parsed.file("/efi/mboot/mnu.elf"), Err(Error::InvalidBundle));
}
