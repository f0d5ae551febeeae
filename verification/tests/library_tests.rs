//! Scenarios for the library's building blocks, on concrete values.

use rjrssync::boss_deploy::{binary_extension, check_deploy_ok, compatible_target_triples, create_big_binary,
    deploy_message, embedded_binaries_data, find_embedded_binary, make_executable_command, remote_folders,
    remote_is_windows, scp_destination, EmbeddedBinaries, EmbeddedBinary, NeedsDeployBehaviour, SECTION_NAME};
use rjrssync::boss_doer_interface::{Command, EntryDetails, ModifiedTime, ProgressMarker, ProgressPhase, Response, SymlinkKind, SymlinkTarget};
use rjrssync::boss_launch::{classify_line, deploy_reason, doer_args, new_secret_key_and_message, parse_port, read_secret_key,
    remote_launch_command, secret_key_message, split_log_line, Handshake, LaunchOutcome, LaunchStep, SshEvent, SshLine,
    SshStream};
use rjrssync::boss_sync::{root_ancestors_command, run_steps, DestReport, DestResponseCheck, RunStep, Stats, SyncQuery, SyncTotals};
use rjrssync::memory_status::peak_memory_from_status;
use rjrssync::memory_bound::must_wait;
use rjrssync::text::human_count;
use rjrssync::doer::{platform_target, symlink_target_from, DoerAction, DoerPlatform, DoerState, FileChunker,
    FIRST_CHUNK_SIZE, MAX_CHUNK_SIZE, PROBE_SIZE};
use rjrssync::encrypted_comms::{frame_length, open_message, seal_message, NonceCounter};
use rjrssync::entries_list::EntriesList;
use rjrssync::exe_utils::{add_section_to_elf, add_section_to_pe, align, extract_section_from_elf, extract_section_from_pe,
    validate_elf_header, validate_pe_signature, ExtractSectionError};
use rjrssync::ordered_map::OrderedMap;
use rjrssync::profiling::{chrome_trace_events, ChromePhase, GlobalProfilingData, ProcessProfilingData, ProfilingEntry,
    ThreadProfilingData};
use rjrssync::root_relative_path::RootRelativePath;

fn path(p: &str) -> RootRelativePath {
    let comps: Vec<Option<String>> = p.split('/').filter(|c| !c.is_empty()).map(|c| Some(c.to_string())).collect();
    RootRelativePath::from_components(false, &comps).unwrap()
}

fn put(bytes: &mut Vec<u8>, at: usize, v: u64, width: usize) {
    for i in 0..width {
        bytes[at + i] = ((v >> (8 * i)) & 0xff) as u8;
    }
}

// ====================================================================================
// Executable files
// ====================================================================================

/// A minimal 64-bit little-endian ELF file: a null section and the section name table.
fn minimal_elf() -> Vec<u8> {
    let names = b"\0.shstrtab\0";
    let mut b = vec![0u8; 80 + 2 * 64];
    b[0..4].copy_from_slice(&[0x7f, b'E', b'L', b'F']);
    b[4] = 2;
    b[5] = 1;
    b[6] = 1;
    put(&mut b, 0x28, 80, 8); // section header table offset
    put(&mut b, 0x3a, 64, 2); // section header size
    put(&mut b, 0x3c, 2, 2); // number of sections
    put(&mut b, 0x3e, 1, 2); // index of the section name table
    b[64..64 + names.len()].copy_from_slice(names);
    let h = 80 + 64;
    put(&mut b, h, 1, 4); // name
    put(&mut b, h + 4, 3, 4); // string table
    put(&mut b, h + 0x18, 64, 8); // offset
    put(&mut b, h + 0x20, names.len() as u64, 8); // size
    b
}

/// A minimal 64-bit PE file with one section, `.text`.
fn minimal_pe() -> Vec<u8> {
    let mut b = vec![0u8; 0x400];
    b[0] = b'M';
    b[1] = b'Z';
    put(&mut b, 0x3c, 0x40, 4);
    b[0x40..0x44].copy_from_slice(b"PE\0\0");
    let coff = 0x44;
    put(&mut b, coff, 0x8664, 2);
    put(&mut b, coff + 2, 1, 2); // number of sections
    put(&mut b, coff + 16, 0xf0, 2); // size of the optional header
    let optional = coff + 20;
    put(&mut b, optional, 0x20b, 2);
    put(&mut b, optional + 32, 0x1000, 4); // section alignment
    put(&mut b, optional + 36, 0x200, 4); // file alignment
    put(&mut b, optional + 56, 0x2000, 4); // size of image
    put(&mut b, optional + 60, 0x200, 4); // size of headers
    let section = optional + 0xf0;
    b[section..section + 5].copy_from_slice(b".text");
    put(&mut b, section + 8, 0x10, 4); // virtual size
    put(&mut b, section + 12, 0x1000, 4); // virtual address
    put(&mut b, section + 16, 0x200, 4); // size of raw data
    put(&mut b, section + 20, 0x200, 4); // pointer to raw data
    for i in 0..0x10 {
        b[0x200 + i] = 0xc3;
    }
    b
}

#[test]
fn elf_header_errors() {
    assert!(validate_elf_header(&minimal_elf()).is_ok());
    assert_eq!(validate_elf_header(b"\x7fELX\x02\x01\x01"), Err("Invalid ELF magic".to_string()));
    assert_eq!(validate_elf_header(b"\x7fELF\x01\x01\x01"), Err("Only 64-bit ELF files are supported".to_string()));
    assert_eq!(validate_elf_header(b"\x7fELF\x02\x02\x01"), Err("Only little-endian ELF files are supported".to_string()));
    assert_eq!(validate_elf_header(b"\x7fELF\x02\x01\x02"), Err("Only V1 ELF files are supported".to_string()));
    assert!(validate_elf_header(b"\x7fE").is_err());
}

#[test]
fn elf_section_added_can_be_extracted() {
    let elf = minimal_elf();
    assert!(matches!(extract_section_from_elf(elf.clone(), ".embedded"), Err(ExtractSectionError::SectionNotFound)));
    assert_eq!(extract_section_from_elf(elf.clone(), ".shstrtab").ok().unwrap(), b"\0.shstrtab\0".to_vec());
    let data = b"some embedded binaries".to_vec();
    let bigger = add_section_to_elf(elf, ".embedded", data.clone()).unwrap();
    assert!(validate_elf_header(&bigger).is_ok());
    assert_eq!(extract_section_from_elf(bigger.clone(), ".embedded").ok().unwrap(), data);
    // The existing sections are still there
    assert!(extract_section_from_elf(bigger, ".shstrtab").is_ok());
}

/// A 64-bit ELF file whose sections lie in the order of their headers: `.text` before the table
/// of section names, `.data` after it.
fn elf_with_sections() -> Vec<u8> {
    let names = b"\0.text\0.shstrtab\0.data\0";
    let table = 100;
    let mut b = vec![0u8; table + 4 * 64];
    b[0..4].copy_from_slice(&[0x7f, b'E', b'L', b'F']);
    b[4] = 2;
    b[5] = 1;
    b[6] = 1;
    put(&mut b, 0x28, table as u64, 8);
    put(&mut b, 0x3a, 64, 2);
    put(&mut b, 0x3c, 4, 2);
    put(&mut b, 0x3e, 2, 2);
    b[64..72].copy_from_slice(b"codecode");
    b[72..72 + names.len()].copy_from_slice(names);
    b[95..100].copy_from_slice(b"datum");
    let rows = [(1u64, 64u64, 8u64), (7, 72, names.len() as u64), (17, 95, 5)];
    for (i, (name, offset, size)) in rows.iter().enumerate() {
        let h = table + (i + 1) * 64;
        put(&mut b, h, *name, 4);
        put(&mut b, h + 0x18, *offset, 8);
        put(&mut b, h + 0x20, *size, 8);
    }
    b
}

#[test]
fn elf_sections_other_than_the_added_one_are_kept() {
    let elf = elf_with_sections();
    assert_eq!(extract_section_from_elf(elf.clone(), ".text").ok().unwrap(), b"codecode".to_vec());
    assert_eq!(extract_section_from_elf(elf.clone(), ".data").ok().unwrap(), b"datum".to_vec());
    let bigger = add_section_to_elf(elf, ".embedded", b"payload".to_vec()).unwrap();
    assert_eq!(extract_section_from_elf(bigger.clone(), ".text").ok().unwrap(), b"codecode".to_vec());
    assert_eq!(extract_section_from_elf(bigger.clone(), ".data").ok().unwrap(), b"datum".to_vec());
    assert_eq!(extract_section_from_elf(bigger.clone(), ".embedded").ok().unwrap(), b"payload".to_vec());
    assert!(matches!(extract_section_from_elf(bigger, ".missing"), Err(ExtractSectionError::SectionNotFound)));
}

#[test]
fn elf_extract_from_garbage_fails() {
    match extract_section_from_elf(vec![1, 2, 3], ".x") {
        Err(ExtractSectionError::Other(e)) => assert_eq!(e, "Failed to read 4 bytes at 0"),
        _ => panic!("garbage was read as an ELF file"),
    }
    // A file cut short inside the header table.
    let mut cut = minimal_elf();
    cut.truncate(0x41);
    match extract_section_from_elf(cut, ".x") {
        Err(ExtractSectionError::Other(e)) => assert_eq!(e, "Failed to read 8 bytes at 168"),
        _ => panic!("a cut file was read"),
    }
    assert!(add_section_to_elf(vec![1, 2, 3], ".x", vec![]).is_err());
}

#[test]
fn pe_signature_errors() {
    assert_eq!(validate_pe_signature(&minimal_pe()), Ok(0x44));
    let mut bad = minimal_pe();
    bad[0x41] = b'X';
    assert_eq!(validate_pe_signature(&bad), Err("Invalid PE signature".to_string()));
    assert!(validate_pe_signature(&[0u8; 10]).is_err());
    match extract_section_from_pe(vec![0u8; 10], ".x") {
        Err(ExtractSectionError::Other(e)) => assert_eq!(e, "Failed to read 4 bytes at 60"),
        _ => panic!("garbage was read as a PE file"),
    }
}

#[test]
fn pe_section_added_can_be_extracted() {
    let pe = minimal_pe();
    assert_eq!(extract_section_from_pe(pe.clone(), ".text").ok().unwrap()[..0x10], [0xc3u8; 0x10]);
    assert!(matches!(extract_section_from_pe(pe.clone(), ".rjembed"), Err(ExtractSectionError::SectionNotFound)));
    let data = b"some embedded binaries".to_vec();
    let bigger = add_section_to_pe(pe, ".rjembed", data.clone()).unwrap();
    assert_eq!(validate_pe_signature(&bigger), Ok(0x44));
    let extracted = extract_section_from_pe(bigger.clone(), ".rjembed").ok().unwrap();
    // The section is padded to the file alignment
    assert_eq!(extracted.len() % 0x200, 0);
    assert_eq!(&extracted[..data.len()], &data[..]);
    assert!(extracted[data.len()..].iter().all(|b| *b == 0));
    assert!(extract_section_from_pe(bigger, ".text").is_ok());
}

#[test]
fn pe_sections_other_than_the_added_one_are_kept() {
    let pe = minimal_pe();
    let text = extract_section_from_pe(pe.clone(), ".text").ok().unwrap();
    let bigger = add_section_to_pe(pe, ".rjembed", b"payload".to_vec()).unwrap();
    assert_eq!(extract_section_from_pe(bigger.clone(), ".text").ok().unwrap(), text);
    assert!(matches!(extract_section_from_pe(bigger.clone(), ".missing"), Err(ExtractSectionError::SectionNotFound)));
    // Adding a second section keeps both earlier ones.
    let biggest = add_section_to_pe(bigger.clone(), ".second", b"more".to_vec()).unwrap();
    assert_eq!(extract_section_from_pe(biggest.clone(), ".text").ok().unwrap(), text);
    assert_eq!(extract_section_from_pe(biggest, ".rjembed").ok(), extract_section_from_pe(bigger, ".rjembed").ok());
}

#[test]
fn an_elf_section_with_the_longest_name_is_found_again() {
    let name = "abcdefghijklmnopqrstuvwxyz012345";
    assert_eq!(name.len(), 32);
    let bigger = add_section_to_elf(elf_with_sections(), name, b"long".to_vec()).unwrap();
    assert_eq!(extract_section_from_elf(bigger.clone(), name).ok().unwrap(), b"long".to_vec());
    assert_eq!(extract_section_from_elf(bigger, ".data").ok().unwrap(), b"datum".to_vec());
}

#[test]
fn an_added_elf_section_grows_the_file_as_expected() {
    let elf = elf_with_sections();
    let bigger = add_section_to_elf(elf.clone(), ".embedded", b"payload".to_vec()).unwrap();
    let read = |b: &Vec<u8>, at: usize, w: usize| (0..w).fold(0u64, |v, i| v | ((b[at + i] as u64) << (8 * i)));
    assert_eq!(bigger.len(), elf.len() + ".embedded".len() + 1 + 7 + 64);
    assert_eq!(read(&bigger, 0x3c, 2), 5);
    let table = read(&bigger, 0x28, 8) as usize;
    assert_eq!(table, bigger.len() - 5 * 64);
    assert_eq!(read(&bigger, table + 2 * 64 + 0x20, 8), 23 + ".embedded".len() as u64 + 1);
}

#[test]
fn an_added_pe_section_counts_and_aligns_the_headers() {
    let bigger = add_section_to_pe(minimal_pe(), ".rjembed", b"payload".to_vec()).unwrap();
    let read = |b: &Vec<u8>, at: usize, w: usize| (0..w).fold(0u64, |v, i| v | ((b[at + i] as u64) << (8 * i)));
    assert_eq!(read(&bigger, 0x44 + 2, 2), 2);
    let size_of_headers = read(&bigger, 0x44 + 80, 4);
    assert_eq!(size_of_headers, 0x200);
    assert_eq!(size_of_headers % 0x200, 0);
}

#[test]
fn refused_files_get_the_error_that_comes_first() {
    // An ELF file that does not end with its table of section headers
    let mut longer = minimal_elf();
    longer.push(0);
    assert_eq!(add_section_to_elf(longer, ".x", vec![1]), Err("ELF file wrong size or layout".to_string()));
    assert_eq!(add_section_to_elf(b"\x7fELX\x02\x01\x01".to_vec(), ".x", vec![1]), Err("Invalid ELF magic".to_string()));
    // Section headers too short to hold the new one: writing its size fails.
    let mut short = vec![0u8; 80 + 2 * 32];
    short[0..4].copy_from_slice(&[0x7f, b'E', b'L', b'F']);
    short[4] = 2;
    short[5] = 1;
    short[6] = 1;
    put(&mut short, 0x28, 80, 8);
    put(&mut short, 0x3a, 32, 2);
    put(&mut short, 0x3c, 2, 2);
    put(&mut short, 0x3e, 0, 2);
    short[64..75].copy_from_slice(b"\0.shstrtab\0");
    put(&mut short, 80 + 0x18, 64, 8);
    put(&mut short, 80 + 0x20, 11, 8);
    assert_eq!(add_section_to_elf(short, ".x", vec![1]), Err("Failed to write 8 bytes at 32".to_string()));
    // A PE file cut short in its optional header
    let mut pe = minimal_pe();
    pe.truncate(0x44 + 40);
    assert_eq!(add_section_to_pe(pe, ".x", vec![1]), Err("Failed to read 4 bytes at 120".to_string()));
    let mut bad = minimal_pe();
    bad[0x41] = b'X';
    assert_eq!(add_section_to_pe(bad, ".x", vec![1]), Err("Invalid PE signature".to_string()));
    // A file alignment of zero cannot be met
    let mut unaligned = minimal_pe();
    put(&mut unaligned, 0x44 + 20 + 36, 0, 4);
    assert_eq!(add_section_to_pe(unaligned, ".x", vec![1]), Err("Invalid alignment in PE file".to_string()));
}

#[test]
fn align_rounds_up() {
    // Zero has no multiple to round up to here, and a zero multiple is refused
    assert_eq!(align(0, 8), None);
    assert_eq!(align(5, 0), None);
    assert_eq!(align(1, 8), Some(8));
    assert_eq!(align(8, 8), Some(8));
    assert_eq!(align(9, 0x200), Some(0x200));
}

// ====================================================================================
// Deployment
// ====================================================================================

#[test]
fn remote_platform_detection() {
    assert!(remote_is_windows("Remote system is Windows AMD64"));
    assert!(!remote_is_windows("Remote system is Linux host 5.15 x86_64 GNU/Linux"));
    assert_eq!(binary_extension(true), "exe");
    assert_eq!(binary_extension(false), "");
    assert_eq!(compatible_target_triples("Remote system is Windows AMD64").unwrap(),
        vec!["x86_64-pc-windows-msvc".to_string(), "x86_64-pc-windows-gnu".to_string()]);
    assert_eq!(compatible_target_triples("Remote system is Linux host 5.15 x86_64 GNU/Linux").unwrap(),
        vec!["x86_64-unknown-linux-musl".to_string()]);
    assert_eq!(compatible_target_triples("Remote system is Linux pi 6.1 aarch64 GNU/Linux").unwrap(),
        vec!["aarch64-unknown-linux-musl".to_string()]);
    assert_eq!(compatible_target_triples("Remote system is Darwin mac 22.1 arm64"),
        Err("Unknown target platform: Remote system is Darwin mac 22.1 arm64".to_string()));
}

#[test]
fn embedded_binary_selection() {
    let binaries = EmbeddedBinaries { binaries: vec![
        EmbeddedBinary { target_triple: "x86_64-unknown-linux-musl".to_string(), data: vec![1] },
        EmbeddedBinary { target_triple: "x86_64-pc-windows-gnu".to_string(), data: vec![2] },
        EmbeddedBinary { target_triple: "x86_64-pc-windows-msvc".to_string(), data: vec![3] },
    ] };
    let windows = vec!["x86_64-pc-windows-msvc".to_string(), "x86_64-pc-windows-gnu".to_string()];
    // The first binary in the table that is compatible
    assert_eq!(find_embedded_binary(&binaries, &windows), Ok(1));
    let arm = vec!["aarch64-unknown-linux-musl".to_string()];
    assert_eq!(find_embedded_binary(&binaries, &arm), Err("No embedded binary for any compatible target triple \
        ([\"aarch64-unknown-linux-musl\"]). Run --list-embedded-binaries to check what is available.".to_string()));
    assert_eq!(find_embedded_binary(&EmbeddedBinaries { binaries: vec![] }, &windows), Err("No embedded binary for any \
        compatible target triple ([\"x86_64-pc-windows-msvc\", \"x86_64-pc-windows-gnu\"]). Run --list-embedded-binaries \
        to check what is available.".to_string()));
}

#[test]
fn big_binary_holds_the_embedded_data() {
    let data = b"the embedded binaries table".to_vec();
    let elf = create_big_binary("x86_64-unknown-linux-musl", minimal_elf(), data.clone()).unwrap();
    assert_eq!(extract_section_from_elf(elf.clone(), SECTION_NAME).ok().unwrap(), data);
    assert_eq!(embedded_binaries_data(elf, false), Ok(data.clone()));
    let pe = create_big_binary("x86_64-pc-windows-msvc", minimal_pe(), data.clone()).unwrap();
    let extracted = embedded_binaries_data(pe, true).unwrap();
    assert_eq!(&extracted[..data.len()], &data[..]);
    assert_eq!(create_big_binary("riscv64gc-unknown-none-elf", minimal_elf(), data),
        Err("No executable generating code for this platform".to_string()));
    assert_eq!(embedded_binaries_data(minimal_elf(), false), Err("No embedded binaries in this executable".to_string()));
    assert!(embedded_binaries_data(vec![0; 8], true).is_err());
}

#[test]
fn deploy_texts() {
    assert_eq!(remote_folders(true), ("%TEMP%".to_string(), "%TEMP%\\rjrssync".to_string()));
    assert_eq!(remote_folders(false), ("/var/tmp".to_string(), "/var/tmp/rjrssync".to_string()));
    assert_eq!(deploy_message("host", "rjrssync is not present on the remote target", 100, "/var/tmp/rjrssync"),
        "rjrssync needs to be deployed onto remote target host because rjrssync is not present on the remote target. \
        A pre-built 100 B binary will be copied onto the remote target into the folder '/var/tmp/rjrssync'");
    assert_eq!(check_deploy_ok(NeedsDeployBehaviour::Deploy, "msg"), Ok(()));
    assert_eq!(check_deploy_ok(NeedsDeployBehaviour::Error, "msg"), Err("msg. Will not deploy. See --needs-deploy.".to_string()));
    assert_eq!(scp_destination("user@host", "/var/tmp"), "user@host:/var/tmp");
    assert_eq!(make_executable_command("/var/tmp/rjrssync"), "cd /var/tmp/rjrssync && chmod +x rjrssync");
}

#[test]
fn deploy_reasons() {
    assert_eq!(deploy_reason(&LaunchOutcome::Success, true), Some("--deploy=force was set".to_string()));
    assert_eq!(deploy_reason(&LaunchOutcome::NotPresentOnRemote, false),
        Some("rjrssync is not present on the remote target".to_string()));
    assert_eq!(deploy_reason(&LaunchOutcome::HandshakeIncompatibleVersion { expected: "126".to_string(), actual: "99".to_string() }, false),
        Some("the rjrssync version present on the remote target (99) is not compatible with this version (126)".to_string()));
    assert_eq!(deploy_reason(&LaunchOutcome::ExitedUnexpectedly, false), None);
    assert_eq!(deploy_reason(&LaunchOutcome::FailedToRunSsh, false), None);
}

// ====================================================================================
// Launching a doer over ssh
// ====================================================================================

#[test]
fn launch_commands() {
    let args = doer_args("info", Some(1234), false);
    assert_eq!(args, "--doer  --log-filter info   --port 1234 ");
    assert_eq!(doer_args("debug", None, true), "--doer  --log-filter debug    --dump-memory-usage");
    assert_eq!(remote_launch_command("--doer"), "echo >/dev/null # >nul & %TEMP%\\rjrssync\\rjrssync.exe --doer\n\
        /var/tmp/rjrssync/rjrssync --doer");
}

#[test]
fn port_numbers() {
    assert_eq!(parse_port("1234"), Some(1234));
    assert_eq!(parse_port("0"), Some(0));
    assert_eq!(parse_port("65535"), Some(65535));
    assert_eq!(parse_port("65536"), None);
    assert_eq!(parse_port(""), None);
    assert_eq!(parse_port("12a"), None);
    assert_eq!(parse_port("+12"), "+12".parse::<u16>().ok());
}

#[test]
fn ssh_lines() {
    assert_eq!(classify_line("rjrssync doer v126"), SshLine::HandshakeStarted);
    assert_eq!(classify_line("Waiting for incoming network connection on port 5000"), SshLine::HandshakeCompleted);
    assert_eq!(classify_line("Password:"), SshLine::Other);
    assert_eq!(split_log_line("123 INFO rjrssync::doer Hello there"),
        Some(("123".to_string(), "INFO".to_string(), "rjrssync::doer".to_string(), "Hello there".to_string())));
    assert_eq!(split_log_line("no-spaces"), None);
}

#[test]
fn secret_key_round_trip() {
    let (key, msg) = new_secret_key_and_message();
    assert_eq!(key.len(), 16);
    assert_eq!(msg, secret_key_message(&key));
    assert!(msg.ends_with('\n'));
    // The line is read with its newline, which is dropped
    assert_eq!(read_secret_key(&msg), Ok(key));
    assert!(read_secret_key("not base64!\n").is_err());
    assert!(read_secret_key("").is_err());
    // A valid encoding of the wrong length
    assert!(read_secret_key("AAAA\n").is_err());
}

#[test]
fn handshake_succeeds_after_both_streams_and_the_secret() {
    let mut h = Handshake::new();
    assert!(matches!(h.step(SshStream::Stdout, SshEvent::Line("Welcome".to_string())), LaunchStep::Continue));
    assert!(matches!(h.step(SshStream::Stdout, SshEvent::HandshakeStarted("rjrssync doer v126".to_string())), LaunchStep::SendSecret));
    assert!(matches!(h.step(SshStream::Stderr, SshEvent::HandshakeStarted("rjrssync doer v126".to_string())), LaunchStep::Continue));
    h.secret_sent = true;
    let done = "Waiting for incoming network connection on port 40000".to_string();
    assert!(matches!(h.step(SshStream::Stdout, SshEvent::HandshakeCompleted(done.clone())), LaunchStep::Continue));
    assert!(matches!(h.step(SshStream::Stderr, SshEvent::HandshakeCompleted(done)), LaunchStep::Success { port: 40000 }));
}

#[test]
fn handshake_failures() {
    let mut h = Handshake::new();
    match h.step(SshStream::Stdout, SshEvent::HandshakeStarted("rjrssync doer v99".to_string())) {
        LaunchStep::HandshakeIncompatibleVersion { expected, actual } => {
            assert_eq!(expected, "126");
            assert_eq!(actual, "99");
        }
        _ => panic!("expected a version mismatch"),
    }
    assert!(matches!(h.step(SshStream::Stderr, SshEvent::Line("bash: /var/tmp/rjrssync/rjrssync: No such file or directory".to_string())),
        LaunchStep::NotPresentOnRemote));
    match h.step(SshStream::Stdout, SshEvent::HandshakeCompleted("Waiting for incoming network connection on port x".to_string())) {
        LaunchStep::CommunicationError(e) =>
            assert_eq!(e, "Failed to parse port number from line 'Waiting for incoming network connection on port x'"),
        _ => panic!("expected an error"),
    }
    match h.step(SshStream::Stderr, SshEvent::ReadError("broken pipe".to_string())) {
        LaunchStep::CommunicationError(e) => assert_eq!(e, "Error reading from stderr: broken pipe"),
        _ => panic!("expected an error"),
    }
    assert!(matches!(h.step(SshStream::Stdout, SshEvent::AllStreamsClosed), LaunchStep::ExitedUnexpectedly));
}

// ====================================================================================
// Encrypted messages
// ====================================================================================

#[test]
fn sealed_messages_open_with_the_matching_counter() {
    let key = vec![7u8; 16];
    let mut send = NonceCounter::new(0);
    let mut recv = NonceCounter::new(0);
    for message in [b"first".to_vec(), vec![], vec![42u8; 5000]] {
        let framed = seal_message(&key, &mut send, &message).unwrap();
        assert_eq!(frame_length(&framed[..8]) as usize, framed.len() - 8);
        // The message is not in the clear
        assert_ne!(&framed[8..], &message[..]);
        assert_eq!(open_message(&key, &mut recv, &framed[8..]).unwrap(), message);
    }
}

#[test]
fn opening_fails_with_the_wrong_nonce_or_key() {
    let key = vec![7u8; 16];
    let mut send = NonceCounter::new(0);
    let framed = seal_message(&key, &mut send, b"hello").unwrap();
    // The other direction's counter has the other parity, so never the same nonce
    let mut other_direction = NonceCounter::new(1);
    assert!(open_message(&key, &mut other_direction, &framed[8..]).is_err());
    let mut recv = NonceCounter::new(0);
    assert!(open_message(&[8u8; 16], &mut recv, &framed[8..]).is_err());
    // A failed open does not use up the nonce
    assert_eq!(open_message(&key, &mut recv, &framed[8..]).unwrap(), b"hello".to_vec());
}

// ====================================================================================
// The doer
// ====================================================================================

fn linux() -> DoerPlatform {
    DoerPlatform { differentiates_symlinks: false, dir_separator: '/' }
}
fn windows() -> DoerPlatform {
    DoerPlatform { differentiates_symlinks: true, dir_separator: '\\' }
}

#[test]
fn doer_sets_its_root_first() {
    let mut d = DoerState::new();
    match d.exec(Command::SetRoot { root: "/data".to_string() }, linux()) {
        DoerAction::ReportRootDetails { root } => assert_eq!(root, "/data"),
        _ => panic!("expected the root to be reported"),
    }
    match d.exec(Command::CreateFolder { path: path("a") }, linux()) {
        DoerAction::CreateFolder { root, path: p } => {
            assert_eq!(root, "/data");
            assert_eq!(p, path("a"));
        }
        _ => panic!("expected a folder to be created"),
    }
    let marker = ProgressMarker { completed_work: 5, phase: ProgressPhase::Done };
    assert!(matches!(d.exec(Command::Marker(marker), linux()), DoerAction::Reply(Response::Marker(m)) if m == marker));
    assert!(matches!(d.exec(Command::ProfilingTimeSync, linux()), DoerAction::SendProfilingTime));
    assert!(matches!(d.exec(Command::Shutdown, linux()), DoerAction::Stop));
}

#[test]
fn doer_receives_a_file_in_chunks() {
    let mut d = DoerState::new();
    d.exec(Command::SetRoot { root: "/data".to_string() }, linux());
    let t = ModifiedTime { secs_since_epoch: 10, nanos: 0 };
    let chunk = |data: &[u8], last: bool| Command::CreateOrUpdateFile {
        path: path("f"), data: data.to_vec(), set_modified_time: if last { Some(t) } else { None }, more_to_follow: !last,
    };
    assert!(matches!(d.exec(chunk(b"ab", false), linux()),
        DoerAction::WriteFileChunk { append: false, ref data, set_modified_time: None, .. } if data == b"ab"));
    assert!(matches!(d.exec(chunk(b"cd", false), linux()), DoerAction::WriteFileChunk { append: true, .. }));
    assert!(matches!(d.exec(chunk(b"ef", true), linux()),
        DoerAction::WriteFileChunk { append: true, set_modified_time: Some(_), .. }));
    // The next file starts afresh
    assert!(matches!(d.exec(chunk(b"gh", true), linux()), DoerAction::WriteFileChunk { append: false, .. }));
}

#[test]
fn doer_refuses_an_unexpected_continuation() {
    let mut d = DoerState::new();
    d.exec(Command::SetRoot { root: "/data".to_string() }, linux());
    d.exec(Command::CreateOrUpdateFile { path: path("f"), data: vec![1], set_modified_time: None, more_to_follow: true }, linux());
    match d.exec(Command::CreateOrUpdateFile { path: path("g"), data: vec![2], set_modified_time: None, more_to_follow: false }, linux()) {
        DoerAction::Reply(Response::Error(e)) => assert_eq!(e, "Unexpected continued file transfer!"),
        _ => panic!("expected an error"),
    }
    // The partial file was dropped, so a new file can start
    assert!(matches!(d.exec(Command::CreateOrUpdateFile { path: path("g"), data: vec![2], set_modified_time: None,
        more_to_follow: false }, linux()), DoerAction::WriteFileChunk { append: false, .. }));
}

#[test]
fn doer_symlinks_follow_the_platform() {
    let mut d = DoerState::new();
    d.exec(Command::SetRoot { root: "C:\\data".to_string() }, windows());
    match d.exec(Command::CreateSymlink { path: path("l"), kind: SymlinkKind::File,
        target: SymlinkTarget::Normalized("../a/b".to_string()) }, windows()) {
        DoerAction::CreateSymlink { target, kind, .. } => {
            assert_eq!(target, "..\\a\\b");
            assert_eq!(kind, SymlinkKind::File);
        }
        _ => panic!("expected a symlink"),
    }
    assert!(matches!(d.exec(Command::CreateSymlink { path: path("l"), kind: SymlinkKind::Unknown,
        target: SymlinkTarget::NotNormalized("x".to_string()) }, windows()), DoerAction::UnknownSymlinkKind { creating: true, .. }));
    assert!(matches!(d.exec(Command::DeleteSymlink { path: path("l"), kind: SymlinkKind::Folder }, windows()),
        DoerAction::DeleteSymlink { as_folder: true, .. }));
    assert!(matches!(d.exec(Command::DeleteSymlink { path: path("l"), kind: SymlinkKind::Unknown }, windows()),
        DoerAction::UnknownSymlinkKind { creating: false, .. }));
    let mut l = DoerState::new();
    l.exec(Command::SetRoot { root: "/data".to_string() }, linux());
    assert!(matches!(l.exec(Command::DeleteSymlink { path: path("l"), kind: SymlinkKind::Folder }, linux()),
        DoerAction::DeleteSymlink { as_folder: false, .. }));
    assert!(matches!(l.exec(Command::CreateSymlink { path: path("l"), kind: SymlinkKind::Unknown,
        target: SymlinkTarget::NotNormalized("/abs".to_string()) }, linux()), DoerAction::CreateSymlink { ref target, .. } if target == "/abs"));
}

#[test]
fn symlink_targets() {
    assert_eq!(platform_target(&SymlinkTarget::Normalized("a/b".to_string()), '\\'), "a\\b");
    assert_eq!(platform_target(&SymlinkTarget::NotNormalized("a/b".to_string()), '\\'), "a/b");
    let comps = vec![Some("..".to_string()), Some("x".to_string())];
    assert_eq!(symlink_target_from(false, &comps, "..\\x".to_string()), SymlinkTarget::Normalized("../x".to_string()));
    assert_eq!(symlink_target_from(true, &comps, "/x".to_string()), SymlinkTarget::NotNormalized("/x".to_string()));
    assert_eq!(symlink_target_from(false, &vec![None], "bad".to_string()), SymlinkTarget::NotNormalized("bad".to_string()));
}

fn chunk_data(r: Response) -> (Vec<u8>, bool) {
    match r {
        Response::FileContent { data, more_to_follow } => (data, more_to_follow),
        _ => panic!("expected file content"),
    }
}

#[test]
fn file_chunks_grow_and_reassemble() {
    let file: Vec<u8> = (0..30000u32).map(|i| (i % 251) as u8).collect();
    let mut c = FileChunker::new();
    assert_eq!(c.next_read_size(), FIRST_CHUNK_SIZE);
    let mut sent = vec![];
    let mut at = 0;
    let mut sizes = vec![];
    while at < file.len() {
        let n = std::cmp::min(c.next_read_size(), file.len() - at);
        sizes.push(c.next_read_size());
        if let Some(r) = c.on_read(file[at..at + n].to_vec()) {
            let (d, more) = chunk_data(r);
            assert!(more);
            sent.extend(d);
        }
        at += n;
    }
    let (d, more) = chunk_data(c.finish());
    assert!(!more);
    sent.extend(d);
    assert_eq!(sent, file);
    // Reads double while they fill their buffers
    assert_eq!(&sizes[..3], &[4096, 8192, 16384]);
}

#[test]
fn file_chunks_probe_after_a_short_read() {
    let mut c = FileChunker::new();
    assert!(c.on_read(vec![1; 10]).is_none());
    assert_eq!(c.next_read_size(), PROBE_SIZE);
    let (d, more) = chunk_data(c.finish());
    assert_eq!(d, vec![1; 10]);
    assert!(!more);
    // An empty file is one empty chunk
    let (d, more) = chunk_data(FileChunker::new().finish());
    assert!(d.is_empty() && !more);
}

#[test]
fn file_chunks_stop_growing_at_the_largest_size() {
    let mut c = FileChunker::new();
    for _ in 0..12 {
        let n = c.next_read_size();
        c.on_read(vec![0; n]);
    }
    assert_eq!(c.next_read_size(), MAX_CHUNK_SIZE);
}

// ====================================================================================
// Summaries and profiling
// ====================================================================================

#[test]
fn human_numbers() {
    let mut t = SyncTotals::new();
    t.num_files_copied = 42;
    t.num_bytes_copied = 17;
    t.num_folders_created = 7654;
    t.num_symlinks_copied = 1234567890;
    assert_eq!(t.copy_summary(false),
        "Copied 42 file(s) totalling 17 B, created 7,654 folder(s) and copied 1,234,567,890 symlink(s)");
    t.num_bytes_copied = 1500;
    assert_eq!(t.copy_summary(false),
        "Copied 42 file(s) totalling 1.46 KiB, created 7,654 folder(s) and copied 1,234,567,890 symlink(s)");
    assert_eq!(deploy_message("h", "r", 1500, "f"),
        "rjrssync needs to be deployed onto remote target h because r. A pre-built 1.46 KiB binary will be copied onto the remote target into the folder 'f'");
}

#[test]
fn sync_summaries() {
    let mut t = SyncTotals::new();
    assert!(t.nothing_done() && !t.any_deleted() && !t.any_copied());
    t.num_files_deleted = 2;
    t.num_bytes_deleted = 17;
    t.num_folders_deleted = 1;
    t.num_symlinks_deleted = 1;
    t.num_files_copied = 1234;
    t.num_bytes_copied = 0;
    assert!(t.any_deleted() && t.any_copied());
    assert_eq!(t.delete_summary(true), "Would delete 2 file(s) totalling 17 B, 1 folder(s) and 1 symlink(s)");
    assert_eq!(t.delete_summary(false), "Deleted 2 file(s) totalling 17 B, 1 folder(s) and 1 symlink(s)");
    assert_eq!(t.copy_summary(false), "Copied 1,234 file(s) totalling 0 B, created 0 folder(s) and copied 0 symlink(s)");
    assert_eq!(t.copy_summary(true), "Would copy 1,234 file(s) totalling 0 B, would create 0 folder(s) and would copy 0 symlink(s)");
    let mut s = Stats::new();
    s.num_src_files = 2;
    s.src_total_bytes = 17;
    s.num_src_folders = 2;
    s.num_src_symlinks = 1;
    assert_eq!(s.source_summary(), "Source: 2 file(s) totalling 17 B, 2 folder(s) and 1 symlink(s)");
    assert_eq!(s.dest_summary(), "Dest: 0 file(s) totalling 0 B, 0 folder(s) and 0 symlink(s)");
}

fn entry(name: &str, start: u64, end: u64) -> ProfilingEntry {
    ProfilingEntry { scope_name: name.to_string(), start_nanos: start, end_nanos: end, duration_nanos: end - start }
}

#[test]
fn chrome_trace_orders_threads_and_processes() {
    let local = ProcessProfilingData {
        timestamp_offset_nanos: 0,
        threads: vec![
            ("late".to_string(), ThreadProfilingData { entries: vec![entry("a", 50, 60)] }),
            ("early".to_string(), ThreadProfilingData { entries: vec![entry("b", 5, 6), entry("c", 10, 20)] }),
        ],
    };
    let remote = ProcessProfilingData {
        timestamp_offset_nanos: 100,
        threads: vec![("main".to_string(), ThreadProfilingData { entries: vec![entry("d", 0, 1)] })],
    };
    let data = GlobalProfilingData { processes: vec![
        ("remote doer".to_string(), remote),
        ("<Local>".to_string(), local),
    ] };
    let events = chrome_trace_events(&data);
    let summary: Vec<(String, ChromePhase, u128, usize, usize, Option<String>)> =
        events.into_iter().map(|e| (e.name, e.phase, e.ts, e.pid, e.tid, e.label)).collect();
    let s = |x: &str| x.to_string();
    assert_eq!(summary, vec![
        (s("d"), ChromePhase::Begin, 100, 0, 0, None),
        (s("d"), ChromePhase::End, 101, 0, 0, None),
        (s("thread_name"), ChromePhase::Metadata, 0, 0, 0, Some(s("0 main"))),
        (s("a"), ChromePhase::Begin, 50, 1, 0, None),
        (s("a"), ChromePhase::End, 60, 1, 0, None),
        (s("b"), ChromePhase::Begin, 5, 1, 1, None),
        (s("b"), ChromePhase::End, 6, 1, 1, None),
        (s("c"), ChromePhase::Begin, 10, 1, 1, None),
        (s("c"), ChromePhase::End, 20, 1, 1, None),
        // Threads are placed by the start of their last scope: "early" (10) before "late" (50)
        (s("thread_name"), ChromePhase::Metadata, 0, 1, 0, Some(s("1 late"))),
        (s("thread_name"), ChromePhase::Metadata, 0, 1, 1, Some(s("0 early"))),
        // The local process is the boss; the remote one comes after it (100 > 10)
        (s("process_name"), ChromePhase::Metadata, 0, 0, 0, Some(s("1 remote doer"))),
        (s("process_name"), ChromePhase::Metadata, 0, 1, 0, Some(s("0 Boss"))),
    ]);
}

// ====================================================================================
// Collections
// ====================================================================================

#[test]
fn entries_list_keeps_order_and_finds_entries() {
    let mut l = EntriesList::new();
    l.add(path("b"), rjrssync::boss_doer_interface::EntryDetails::Folder);
    l.add(path("a"), rjrssync::boss_doer_interface::EntryDetails::File {
        modified_time: ModifiedTime { secs_since_epoch: 1, nanos: 0 }, size: 3 });
    assert_eq!(l.len(), 2);
    assert_eq!(l.iter()[0].0, path("b"));
    assert_eq!(l.iter()[1].0, path("a"));
    assert_eq!(l.lookup(&path("b")), Some(&rjrssync::boss_doer_interface::EntryDetails::Folder));
    assert_eq!(l.lookup(&path("c")), None);
}

#[test]
fn ordered_map_keeps_insertion_order() {
    let mut m = OrderedMap::new();
    m.add(path("x"), 1);
    m.add(path("y"), 2);
    m.add(path("z"), 3);
    assert_eq!(m.len(), 3);
    m.remove(&path("y"));
    assert_eq!(m.len(), 2);
    assert_eq!(m.lookup(&path("y")), None);
    m.update(&path("x"), 10);
    assert_eq!(m.lookup(&path("x")), Some(&10));
    let keys: Vec<String> = m.iter().into_iter().map(|(k, _)| k.as_str().to_string()).collect();
    assert_eq!(keys, vec!["x", "z"]);
    m.reverse_order();
    let keys: Vec<String> = m.iter().into_iter().map(|(k, _)| k.as_str().to_string()).collect();
    assert_eq!(keys, vec!["z", "x"]);
    m.reverse_order();
    let keys: Vec<String> = m.iter().into_iter().map(|(k, _)| k.as_str().to_string()).collect();
    assert_eq!(keys, vec!["x", "z"]);
}

#[test]
fn ordered_map_lists_each_key_once() {
    let mut m = OrderedMap::new();
    m.add(path("a"), 1);
    m.add(path("b"), 2);
    // Added again: listed once, at the end, with the new value
    m.add(path("a"), 3);
    let entries: Vec<(String, i32)> = m.iter().into_iter().map(|(k, v)| (k.as_str().to_string(), *v)).collect();
    assert_eq!(entries, vec![("b".to_string(), 2), ("a".to_string(), 3)]);
    assert_eq!(m.len(), 2);
    // Removed, then added again
    m.remove(&path("b"));
    m.add(path("c"), 4);
    m.add(path("b"), 5);
    let entries: Vec<(String, i32)> = m.iter().into_iter().map(|(k, v)| (k.as_str().to_string(), *v)).collect();
    assert_eq!(entries, vec![("a".to_string(), 3), ("c".to_string(), 4), ("b".to_string(), 5)]);
    assert_eq!(m.iter().len(), m.len());
    m.reverse_order();
    let keys: Vec<String> = m.iter().into_iter().map(|(k, _)| k.as_str().to_string()).collect();
    assert_eq!(keys, vec!["b", "c", "a"]);
    assert_eq!(m.lookup(&path("c")), Some(&4));
}

// ====================================================================================
// Memory status
// ====================================================================================

#[test]
fn peak_memory_is_read_from_the_status() {
    let status = "Name:\trjrssync\nVmPeak:\t   12345 kB\nVmSize:\t    1000 kB\n";
    assert_eq!(peak_memory_from_status(status), Some(12345 * 1024));
    assert_eq!(peak_memory_from_status("Name:\tx\r\nVmPeak:+7 kB\r\n"), Some(7 * 1024));
    assert_eq!(peak_memory_from_status("VmPeak: 0 kB"), Some(0));
}

#[test]
fn peak_memory_is_missing_or_unreadable() {
    assert_eq!(peak_memory_from_status(""), None);
    assert_eq!(peak_memory_from_status("VmSize: 5 kB\n"), None);
    // The line must start with the name
    assert_eq!(peak_memory_from_status("  VmPeak: 5 kB\n"), None);
    assert_eq!(peak_memory_from_status("VmPeak 5 kB\n"), None);
    assert_eq!(peak_memory_from_status("VmPeak: many kB\n"), None);
    assert_eq!(peak_memory_from_status("VmPeak: 5 6 kB\n"), None);
    // Only the first such line counts
    assert_eq!(peak_memory_from_status("VmPeak: x\nVmPeak: 5 kB\n"), None);
    // Too many bytes to count
    assert_eq!(peak_memory_from_status("VmPeak: 99999999999999999999 kB\n"), None);
    assert_eq!(peak_memory_from_status("VmPeak: 18014398509481984 kB\n"), None);
}

// ====================================================================================
// Planning and checking a sync
// ====================================================================================

#[test]
fn planned_actions_keep_the_order_of_discovery() {
    let file = || EntryDetails::File { modified_time: ModifiedTime { secs_since_epoch: 1, nanos: 0 }, size: 1 };
    let mut q = SyncQuery::new(EntryDetails::Folder, Some(EntryDetails::Folder), false);
    q.add_dest_entry(path("old"), EntryDetails::Folder).unwrap();
    q.add_src_entry(path("b"), file()).unwrap();
    q.add_dest_entry(path("old/x"), file()).unwrap();
    q.add_src_entry(path("a"), file()).unwrap();
    q.add_dest_entry(path("old/y"), file()).unwrap();
    let (actions, _) = q.finish();
    let copies: Vec<String> = actions.to_copy.iter().into_iter().map(|(k, _)| k.as_str().to_string()).collect();
    assert_eq!(copies, vec!["b", "a"]);
    // Deletions come in reverse order, so a folder's contents go before the folder
    let deletes: Vec<String> = actions.to_delete.iter().into_iter().map(|(k, _)| k.as_str().to_string()).collect();
    assert_eq!(deletes, vec!["old/y", "old/x", "old"]);
}

#[test]
fn the_plan_does_not_depend_on_how_the_sides_interleave() {
    let file = |t: u64| EntryDetails::File { modified_time: ModifiedTime { secs_since_epoch: t, nanos: 0 }, size: 1 };
    let plan = |src_first: bool| {
        let mut q = SyncQuery::new(EntryDetails::Folder, Some(EntryDetails::Folder), false);
        if src_first {
            q.add_src_entry(path("a"), file(1)).unwrap();
            q.add_src_entry(path("b"), file(2)).unwrap();
            q.add_dest_entry(path("b"), file(1)).unwrap();
            q.add_dest_entry(path("c"), file(1)).unwrap();
        } else {
            q.add_dest_entry(path("b"), file(1)).unwrap();
            q.add_src_entry(path("a"), file(1)).unwrap();
            q.add_dest_entry(path("c"), file(1)).unwrap();
            q.add_src_entry(path("b"), file(2)).unwrap();
        }
        let (actions, _) = q.finish();
        let copies: Vec<String> = actions.to_copy.iter().into_iter().map(|(k, _)| k.as_str().to_string()).collect();
        let deletes: Vec<String> = actions.to_delete.iter().into_iter().map(|(k, _)| k.as_str().to_string()).collect();
        (copies, deletes)
    };
    assert_eq!(plan(true), plan(false));
    assert_eq!(plan(true), (vec!["a".to_string(), "b".to_string()], vec!["c".to_string()]));
}

#[test]
fn unexpected_responses_are_reported_in_full() {
    let mut c = DestResponseCheck::new(false);
    assert!(c.on_report(DestReport::Response(Response::EndOfEntries)));
    assert!(c.on_report(DestReport::Response(Response::Error("boom".to_string()))));
    assert_eq!(c.finish(), Err("Unexpected response (expected Error or Marker): Ok(EndOfEntries), boom".to_string()));
}

/// Planned actions with one deletion (a stale folder), and copies of a file and a folder.
fn small_plan() -> rjrssync::boss_sync::Actions {
    let file = EntryDetails::File { modified_time: ModifiedTime { secs_since_epoch: 7, nanos: 0 }, size: 3 };
    let mut q = SyncQuery::new(EntryDetails::Folder, Some(EntryDetails::Folder), false);
    q.add_dest_entry(path("old"), EntryDetails::Folder).unwrap();
    q.add_src_entry(path("f"), file).unwrap();
    q.add_src_entry(path("d"), EntryDetails::Folder).unwrap();
    q.finish().0
}

#[test]
fn run_steps_carry_out_the_plan_in_order() {
    let steps = run_steps(&small_plan(), false, "S", "D", '/', '\\');
    assert_eq!(steps.len(), 3);
    assert!(matches!(&steps[0], RunStep::SendDest(Command::DeleteFolder { path }) if path.as_str() == "old"));
    assert!(matches!(&steps[1], RunStep::CopyFile { path, modified_time }
        if path.as_str() == "f" && *modified_time == ModifiedTime { secs_since_epoch: 7, nanos: 0 }));
    assert!(matches!(&steps[2], RunStep::SendDest(Command::CreateFolder { path }) if path.as_str() == "d"));
}

#[test]
fn a_dry_run_only_reports() {
    let steps = run_steps(&small_plan(), true, "S", "D", '/', '\\');
    let texts: Vec<String> = steps.into_iter().map(|s| match s {
        RunStep::Report(t) => t,
        _ => panic!("a dry run sent a command"),
    }).collect();
    assert_eq!(texts, vec![
        "Would delete dest folder 'D\\old'".to_string(),
        "Would copy source file 'S/f' => dest file 'D\\f'".to_string(),
        "Would create dest folder 'D\\d'".to_string(),
    ]);
}

#[test]
fn root_ancestors_are_created_only_for_a_missing_root_outside_a_dry_run() {
    assert!(matches!(root_ancestors_command(false, false), Some(Command::CreateRootAncestors)));
    assert!(root_ancestors_command(true, false).is_none());
    assert!(root_ancestors_command(false, true).is_none());
    assert!(root_ancestors_command(true, true).is_none());
}

#[test]
fn a_sender_waits_only_while_the_channel_is_over_capacity() {
    assert!(!must_wait(0, 100));
    assert!(!must_wait(100, 100));
    assert!(must_wait(101, 100));
    // However large the message, it goes through once what came before is within capacity.
    assert!(!must_wait(99, 100));
}

#[test]
fn counts_are_grouped_in_threes() {
    assert_eq!(human_count(0), "0");
    assert_eq!(human_count(999), "999");
    assert_eq!(human_count(1000), "1,000");
    assert_eq!(human_count(1234567), "1,234,567");
    assert_eq!(human_count(u64::MAX), "18,446,744,073,709,551,615");
}
