use sys_info::{
    cpu_count, decode_field, disk_info_from_stats, hostname_from_buffer, hostname_from_output,
    Cause, Error, Info,
};

fn field(text: &str, width: usize) -> Vec<u8> {
    let mut v = text.as_bytes().to_vec();
    v.resize(width, 0);
    v
}

#[test]
fn composed_identity_has_no_machine() {
    let info = Info::composed("Windows".to_string(), "desk".to_string(), "10.0".to_string());
    assert!(matches!(info.machine(), Err(Error::UnsupportedSystem)));
    assert_eq!(info.sysname().unwrap(), "Windows");
    assert_eq!(info.nodename().unwrap(), "desk");
    assert_eq!(info.release().unwrap(), "10.0");
    assert_eq!(info.version().unwrap(), "10.0");
    assert!(matches!(info.domainname(), Err(Error::UnsupportedSystem)));
}

#[test]
fn native_identity_reads_each_field() {
    let info = Info::from_native(
        field("Linux", 65),
        field("box", 65),
        field("5.10.4-arch2-1", 65),
        field("#1 SMP PREEMPT", 65),
        field("x86_64", 65),
        Some(field("(none)", 65)),
    );
    assert_eq!(info.sysname().unwrap(), "Linux");
    assert_eq!(info.nodename().unwrap(), "box");
    assert_eq!(info.release().unwrap(), "5.10.4-arch2-1");
    assert_eq!(info.version().unwrap(), "#1 SMP PREEMPT");
    assert_eq!(info.machine().unwrap(), "x86_64");
    assert_eq!(info.domainname().unwrap(), "(none)");
}

#[test]
fn unterminated_field_fails_alone() {
    let info = Info::from_native(
        field("Linux", 65),
        vec![b'a'; 65],
        field("5.10", 65),
        field("#1", 65),
        field("x86_64", 65),
        None,
    );
    assert!(matches!(info.nodename(), Err(Error::Unknown)));
    assert_eq!(info.sysname().unwrap(), "Linux");
    assert!(matches!(info.domainname(), Err(Error::UnsupportedSystem)));
}

#[test]
fn field_decoding() {
    assert_eq!(decode_field(b"abc\0def").unwrap(), "abc");
    assert_eq!(decode_field(b"\0").unwrap(), "");
    assert!(matches!(decode_field(b"abc"), Err(Error::Unknown)));
    assert!(matches!(decode_field(&[0xff, 0xfe, 0]), Err(Error::Unknown)));
}

#[test]
fn hostname_buffer_stops_at_nul() {
    assert_eq!(hostname_from_buffer(b"myhost\0\0\0").unwrap(), "myhost");
    assert_eq!(hostname_from_buffer(b"full").unwrap(), "full");
    assert!(matches!(hostname_from_buffer(&[0xc3, 0x28, 0]), Err(Error::Unknown)));
}

#[test]
fn hostname_output_loses_one_terminator() {
    assert_eq!(hostname_from_output(b"desk\r\n").unwrap(), "desk");
    assert_eq!(hostname_from_output(b"desk\n").unwrap(), "desk");
    assert_eq!(hostname_from_output(b"desk\n\n").unwrap(), "desk\n");
    assert_eq!(hostname_from_output(b"desk").unwrap(), "desk");
    assert!(matches!(hostname_from_output(&[0x80]), Err(Error::Unknown)));
}

#[test]
fn disk_from_block_counts() {
    let d = disk_info_from_stats(1000, 250, 4096).unwrap();
    assert_eq!(d.total, 4000);
    assert_eq!(d.free, 1000);
    assert!(d.total >= d.free);
    let d = disk_info_from_stats(3, 1, 1000).unwrap();
    assert_eq!(d.total, 2);
    assert_eq!(d.free, 0);
}

#[test]
fn disk_with_more_free_than_total_fails() {
    assert!(matches!(disk_info_from_stats(10, 11, 4096), Err(Error::Unknown)));
}

#[test]
fn disk_total_beyond_64_bits_fails() {
    assert!(matches!(disk_info_from_stats(u64::MAX, 0, u64::MAX), Err(Error::Unknown)));
}

#[test]
fn processor_count_is_checked() {
    assert_eq!(cpu_count(8).unwrap(), 8);
    assert!(matches!(cpu_count(0), Err(Error::Unknown)));
    assert!(matches!(cpu_count(-1), Err(Error::Unknown)));
    assert!(matches!(cpu_count(1 << 40), Err(Error::Unknown)));
}

#[test]
fn error_descriptions_and_messages() {
    assert_eq!(Error::UnsupportedSystem.description(), "unsupported system");
    assert_eq!(Error::Unknown.description(), "unknown error");
    assert_eq!(Error::UnsupportedSystem.to_string(), "System is not supported");
    assert_eq!(Error::Unknown.to_string(), "An unknown error occurred");
    assert_eq!(Error::General("time went backwards".to_string()).to_string(), "Error: time went backwards");
    let io = std::io::Error::new(std::io::ErrorKind::NotFound, "gone");
    let e: Error = io.into();
    assert_eq!(e.description(), "io error");
    assert!(matches!(e.cause(), Some(Cause::Io(_))));
    assert!(e.to_string().starts_with("IO error: "));
    assert!(Error::Unknown.cause().is_none());
}

#[test]
fn system_time_error_is_carried() {
    let later = std::time::SystemTime::now() + std::time::Duration::from_secs(3600);
    let err = std::time::UNIX_EPOCH.duration_since(later).unwrap_err();
    let e: Error = err.into();
    assert!(matches!(e, Error::SystemTime(_)));
    assert_eq!(e.description(), "system time");
    assert!(e.to_string().starts_with("System time error: "));
    assert!(matches!(e.cause(), Some(Cause::SystemTime(_))));
}
