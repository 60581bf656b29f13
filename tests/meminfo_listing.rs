use sys_info::{parse_meminfo, Error};

const LISTING: &str = "MemTotal:       16318460 kB\n\
MemFree:         1011428 kB\n\
MemAvailable:    9214576 kB\n\
Buffers:          529620 kB\n\
Cached:          7771324 kB\n\
SwapCached:            0 kB\n\
Shmem:            512000 kB\n\
SReclaimable:     600000 kB\n\
SwapTotal:       2097148 kB\n\
SwapFree:        2097000 kB\n\
HugePages_Total:       0\n";

#[test]
fn full_listing_is_read() {
    let m = parse_meminfo(LISTING).unwrap();
    assert_eq!(m.total, 16318460);
    assert_eq!(m.free, 1011428);
    assert_eq!(m.avail, 9214576);
    assert_eq!(m.buffers, 529620);
    assert_eq!(m.cached, 7771324);
    assert_eq!(m.swap_total, 2097148);
    assert_eq!(m.swap_free, 2097000);
    assert!(m.total >= m.free);
}

#[test]
fn missing_mem_total_fails() {
    let listing = LISTING.replace("MemTotal:       16318460 kB\n", "");
    assert!(matches!(parse_meminfo(&listing), Err(Error::Unknown)));
}

#[test]
fn missing_swap_free_fails() {
    let listing = LISTING.replace("SwapFree:        2097000 kB\n", "");
    assert!(matches!(parse_meminfo(&listing), Err(Error::Unknown)));
}

#[test]
fn available_is_estimated_without_mem_available() {
    let listing = LISTING.replace("MemAvailable:    9214576 kB\n", "");
    let m = parse_meminfo(&listing).unwrap();
    assert_eq!(m.avail, 1011428 + 529620 + 7771324 + 600000 - 512000);
}

#[test]
fn estimate_needs_slab_and_shared() {
    let listing = LISTING
        .replace("MemAvailable:    9214576 kB\n", "")
        .replace("Shmem:            512000 kB\n", "");
    assert!(matches!(parse_meminfo(&listing), Err(Error::Unknown)));
}

#[test]
fn estimate_is_held_within_bounds() {
    let listing = "MemTotal: 100 kB\nMemFree: 10 kB\nBuffers: 0 kB\nCached: 0 kB\n\
SReclaimable: 0 kB\nShmem: 50 kB\nSwapTotal: 0 kB\nSwapFree: 0 kB\n";
    assert_eq!(parse_meminfo(listing).unwrap().avail, 0);
    let listing = "MemTotal: 100 kB\nMemFree: 90 kB\nBuffers: 30 kB\nCached: 30 kB\n\
SReclaimable: 0 kB\nShmem: 0 kB\nSwapTotal: 0 kB\nSwapFree: 0 kB\n";
    assert_eq!(parse_meminfo(listing).unwrap().avail, 100);
}

#[test]
fn free_above_total_is_refused() {
    let listing = "MemTotal: 100 kB\nMemFree: 200 kB\nMemAvailable: 50 kB\nBuffers: 0 kB\n\
Cached: 0 kB\nSwapTotal: 0 kB\nSwapFree: 0 kB\n";
    assert!(matches!(parse_meminfo(listing), Err(Error::Unknown)));
}

#[test]
fn value_that_is_not_a_number_fails() {
    let listing = format!("{}Bogus:   12x kB\n", LISTING);
    assert!(matches!(parse_meminfo(&listing), Err(Error::Unknown)));
}

#[test]
fn short_lines_are_skipped_and_later_entries_win() {
    let listing = format!("{}\nlonely\nMemFree: 7 kB\n", LISTING);
    let m = parse_meminfo(&listing).unwrap();
    assert_eq!(m.free, 7);
}

#[test]
fn value_with_plus_sign_is_read() {
    let listing = LISTING.replace("MemFree:         1011428 kB", "MemFree: +1011428 kB");
    assert_eq!(parse_meminfo(&listing).unwrap().free, 1011428);
}

#[test]
fn empty_listing_fails() {
    assert!(matches!(parse_meminfo(""), Err(Error::Unknown)));
}
