use lilith_kernel::exec::{get_format_name, identify_exec_format, ExecFormat};

#[test]
fn pe_header_with_signature() {
    let mut h = vec![0u8; 0x100];
    h[0] = 0x4D;
    h[1] = 0x5A;
    h[0x3C] = 0x80;
    h[0x80..0x84].copy_from_slice(&[0x50, 0x45, 0, 0]);
    assert_eq!(identify_exec_format(&h), ExecFormat::PE);
    h[0x82] = 1;
    assert_eq!(identify_exec_format(&h), ExecFormat::Unknown);
}

#[test]
fn elf_needs_executable_or_shared_type() {
    let mut h = vec![0u8; 24];
    h[..4].copy_from_slice(&[0x7F, b'E', b'L', b'F']);
    h[16] = 2;
    assert_eq!(identify_exec_format(&h), ExecFormat::ELF);
    h[16] = 3;
    assert_eq!(identify_exec_format(&h), ExecFormat::ELF);
    h[16] = 1;
    assert_eq!(identify_exec_format(&h), ExecFormat::Unknown);
    h[16] = 0;
    h[20] = 2;
    assert_eq!(identify_exec_format(&h), ExecFormat::Unknown);
    assert_eq!(identify_exec_format(&[0x7F, b'E', b'L', b'F', b'#', b'!', b'/']), ExecFormat::Unknown);
}

#[test]
fn macho_com_script_unknown() {
    assert_eq!(identify_exec_format(&[0xCF, 0xFA, 0xED, 0xFE]), ExecFormat::MachO);
    assert_eq!(identify_exec_format(&[0xFE, 0xED, 0xFA, 0xCE, 0]), ExecFormat::MachO);
    assert_eq!(identify_exec_format(&[0xEB, 0x0E, 0x90]), ExecFormat::COM);
    assert_eq!(identify_exec_format(&[0xEB, 0x10]), ExecFormat::Unknown);
    assert_eq!(identify_exec_format(b"#!/bin/sh\necho"), ExecFormat::Script);
    assert_eq!(identify_exec_format(b"\xff\xfe #!/usr/bin/env"), ExecFormat::Script);
    assert_eq!(identify_exec_format(b"#!"), ExecFormat::Unknown);
    assert_eq!(identify_exec_format(&[]), ExecFormat::Unknown);
}

#[test]
fn format_names() {
    assert_eq!(get_format_name(ExecFormat::PE), "PE");
    assert_eq!(get_format_name(ExecFormat::ELF), "ELF");
    assert_eq!(get_format_name(ExecFormat::MachO), "Mach-O");
    assert_eq!(get_format_name(ExecFormat::COM), "COM");
    assert_eq!(get_format_name(ExecFormat::Script), "Script");
    assert_eq!(get_format_name(ExecFormat::Unknown), "Unknown");
}
