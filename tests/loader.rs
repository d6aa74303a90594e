use monster::compile::{compile_example, validate_example, CompileError, Toolchain};
use monster::elf::{load, PT_LOAD, SIZEOF_EHDR, SIZEOF_PHDR};

fn image(p_type: u32, offset: u64, filesz: u64) -> Vec<u8> {
    let mut image = vec![0u8; 64 + 56 + 8];
    image[0..4].copy_from_slice(&[0x7f, b'E', b'L', b'F']);
    image[24..32].copy_from_slice(&0x10000u64.to_le_bytes());
    image[32..40].copy_from_slice(&64u64.to_le_bytes());
    image[56..58].copy_from_slice(&1u16.to_le_bytes());
    image[64..68].copy_from_slice(&p_type.to_le_bytes());
    image[72..80].copy_from_slice(&offset.to_le_bytes());
    image[96..104].copy_from_slice(&filesz.to_le_bytes());
    image[120..128].copy_from_slice(&[1, 2, 3, 4, 5, 6, 7, 8]);
    image
}

#[test]
fn layout_constants_agree_with_goblin() {
    assert_eq!(SIZEOF_EHDR, goblin::elf::header::header64::SIZEOF_EHDR);
    assert_eq!(SIZEOF_PHDR, goblin::elf::program_header::program_header64::SIZEOF_PHDR);
    assert_eq!(PT_LOAD, goblin::elf::program_header::PT_LOAD);
}

#[test]
fn can_load_elf_binary() {
    let (memory, meta) = load(&image(PT_LOAD, 120, 8), 10).unwrap();
    assert_eq!(memory.len(), 10 * 1024 * 1024);
    assert_eq!(&memory[0..9], &[1, 2, 3, 4, 5, 6, 7, 8, 0]);
    assert_eq!(meta.entry_address, 0x10000);
}

#[test]
fn non_loadable_segments_are_skipped() {
    let (memory, _) = load(&image(4, 120, 8), 1).unwrap();
    assert!(memory.iter().all(|b| *b == 0));
}

#[test]
fn malformed_images_are_rejected() {
    assert!(load(&image(PT_LOAD, 120, 8)[0..63], 1).is_none());
    assert!(load(&image(PT_LOAD, 120, 9), 1).is_none());
    assert!(load(&image(PT_LOAD, 120, 8), 0).is_none());
    let mut far = image(PT_LOAD, 120, 8);
    far[32..40].copy_from_slice(&4096u64.to_le_bytes());
    assert!(load(&far, 1).is_none());
    let mut truncated = image(PT_LOAD, 120, 8);
    truncated[56..58].copy_from_slice(&2u16.to_le_bytes());
    assert!(load(&truncated, 1).is_none());
}

#[test]
fn compile_c_source_file() {
    assert_eq!(compile_example(Some("c"), None), Ok(Toolchain::Clang));
}

#[test]
fn compiler_selection() {
    assert_eq!(compile_example(Some("c"), Some("selfie")), Ok(Toolchain::Selfie));
    assert_eq!(compile_example(Some("c"), Some("clang")), Ok(Toolchain::Clang));
    assert_eq!(compile_example(Some("c"), Some("gcc")), Err(CompileError::UnsupportedCompiler));
    assert_eq!(compile_example(Some("rs"), Some("gcc")), Ok(Toolchain::Cargo));
    assert_eq!(compile_example(Some("txt"), None), Err(CompileError::NotASourceFile));
    assert_eq!(compile_example(None, None), Err(CompileError::NotASourceFile));
    assert_eq!(CompileError::UnsupportedCompiler.message(), "compiler is not supported");
    assert_eq!(
        CompileError::CommandFailed(Toolchain::Cargo).message(),
        "Rust compile command was not successful"
    );
}

#[test]
fn example_validation() {
    assert_eq!(validate_example(None, "/s", true), Err(CompileError::InvalidPath));
    assert_eq!(validate_example(Some(None), "/s", true), Err(CompileError::NoParentDirectory));
    assert_eq!(validate_example(Some(Some("/t")), "/s", true), Err(CompileError::OutsideExamples));
    assert_eq!(validate_example(Some(Some("/s")), "/s", false), Err(CompileError::Missing));
    assert_eq!(validate_example(Some(Some("/s")), "/s", true), Ok(()));
}
