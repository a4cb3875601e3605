use spirit::parse::{
    anon_mem_mb, extract_sampled_pages, find_anon_memory, find_cgroup_path, find_event_count,
    find_io_bytes, parse_comma_u64_range, parse_hex_range, parse_memory_bytes_as_mb,
    parse_u64_range, parse_u64_trimmed,
};

#[test]
fn decimal_numbers() {
    let b = b"12345".to_vec();
    assert_eq!(parse_u64_range(&b, 0, 5), Some(12345));
    assert_eq!(parse_u64_range(&b, 1, 3), Some(23));
    assert_eq!(parse_u64_range(&b, 2, 2), None);
    let max = b"18446744073709551615".to_vec();
    assert_eq!(parse_u64_range(&max, 0, max.len()), Some(u64::MAX));
    let over = b"18446744073709551616".to_vec();
    assert_eq!(parse_u64_range(&over, 0, over.len()), None);
    let junk = b"12a45".to_vec();
    assert_eq!(parse_u64_range(&junk, 0, 5), None);
}

#[test]
fn trimmed_numbers_as_cgroup_files_hold_them() {
    assert_eq!(parse_u64_trimmed(&b"5368709120\n".to_vec()), Some(5368709120));
    assert_eq!(parse_u64_trimmed(&b"  42  ".to_vec()), Some(42));
    assert_eq!(parse_u64_trimmed(&b"42 7".to_vec()), None);
    assert_eq!(parse_u64_trimmed(&b"\n".to_vec()), None);
    assert_eq!(parse_u64_trimmed(&b"max\n".to_vec()), None);
}

#[test]
fn memory_current_to_mb() {
    // 5 GiB of memory.current reads as 5120 MB
    assert_eq!(parse_memory_bytes_as_mb(&b"5368709120\n".to_vec()), Some(5120));
    assert_eq!(parse_memory_bytes_as_mb(&b"1048575\n".to_vec()), Some(0));
    assert_eq!(parse_memory_bytes_as_mb(&b"bad\n".to_vec()), None);
}

#[test]
fn anon_line_of_memory_stat() {
    let stat = b"file 1234\nanon 4194304\nkernel 99\n".to_vec();
    assert_eq!(find_anon_memory(&stat), Some(4194304));
    // no anon line at all
    assert_eq!(find_anon_memory(&b"file 1234\nshmem 5\n".to_vec()), None);
    // the anon line must carry exactly one number
    assert_eq!(find_anon_memory(&b"anon 12 34\n".to_vec()), None);
    assert_eq!(find_anon_memory(&b"anonx 12\n".to_vec()), None);
    // a later well-formed line still counts
    assert_eq!(find_anon_memory(&b"anon x\nanon 77\n".to_vec()), Some(77));
}

#[test]
fn anon_plus_swap_in_mb() {
    assert_eq!(anon_mem_mb(4194304, 2097152), 6);
    assert_eq!(anon_mem_mb(0, 0), 0);
    assert_eq!(anon_mem_mb(u64::MAX, u64::MAX), (u64::MAX as u128 * 2 / (1024 * 1024)) as u64);
}

#[test]
fn io_stat_line_for_device() {
    let stat = b"7:0 rbytes=1 wbytes=2\n8:16 rbytes=1459200 wbytes=314773504 rios=192 wios=353\n"
        .to_vec();
    assert_eq!(find_io_bytes(&stat, &b"8:16".to_vec()), Some((1459200, 314773504)));
    assert_eq!(find_io_bytes(&stat, &b"7:0".to_vec()), Some((1, 2)));
    assert_eq!(find_io_bytes(&stat, &b"9:9".to_vec()), None);
    // a matching line without counters reports zeroes
    assert_eq!(find_io_bytes(&b"8:16 rios=5\n".to_vec(), &b"8:16".to_vec()), Some((0, 0)));
}

#[test]
fn comma_grouped_counters() {
    let b = b"1,234,567".to_vec();
    assert_eq!(parse_comma_u64_range(&b, 0, b.len()), Some(1234567));
    let plain = b"42".to_vec();
    assert_eq!(parse_comma_u64_range(&plain, 0, 2), Some(42));
    let leading = b",42".to_vec();
    assert_eq!(parse_comma_u64_range(&leading, 0, 3), None);
    let junk = b"1,2x".to_vec();
    assert_eq!(parse_comma_u64_range(&junk, 0, 4), None);
}

#[test]
fn event_counter_in_stat_output() {
    let out = b" Performance counter stats:\n\n  12,345,678  MEM_UOPS_RETIRED.ALL_LOADS:u\n  901  major-faults:u\n".to_vec();
    assert_eq!(
        find_event_count(&out, &b"MEM_UOPS_RETIRED.ALL_LOADS:u".to_vec()),
        Some(12345678)
    );
    assert_eq!(find_event_count(&out, &b"major-faults:u".to_vec()), Some(901));
    assert_eq!(find_event_count(&out, &b"cache-references:u".to_vec()), None);
    // an event whose preceding token is no counter yields nothing
    assert_eq!(find_event_count(&out, &b"stats:".to_vec()), None);
}

#[test]
fn hex_numbers() {
    let b = b"75a4abe405c0".to_vec();
    assert_eq!(parse_hex_range(&b, 0, b.len()), Some(0x75a4abe405c0));
    let caps = b"1A2B".to_vec();
    assert_eq!(parse_hex_range(&caps, 0, 4), Some(0x1A2B));
    let bad = b"75g4".to_vec();
    assert_eq!(parse_hex_range(&bad, 0, 4), None);
}

#[test]
fn sampled_pages_from_script_output() {
    let marker = b"MEM_LOAD_UOPS_RETIRED.L3_MISS:uP:".to_vec();
    let out = b"memtouch 117264 19751.351774: 100 MEM_LOAD_UOPS_RETIRED.L3_MISS:uP: 75a4abe405c0 1e05080022\nother line\nmemtouch 117264 19751.351775: 100 MEM_LOAD_UOPS_RETIRED.L3_MISS:uP: 75a4abe51000 xx\n".to_vec();
    let pages = extract_sampled_pages(&out, &marker);
    assert_eq!(pages, vec![0x75a4abe405c0u64 / 4096, 0x75a4abe51000u64 / 4096]);
    // a record whose address field is no hex number is passed over
    let broken = b"100 MEM_LOAD_UOPS_RETIRED.L3_MISS:uP: zz\n".to_vec();
    assert!(extract_sampled_pages(&broken, &marker).is_empty());
    assert!(extract_sampled_pages(&b"nothing here\n".to_vec(), &marker).is_empty());
}

#[test]
fn cgroup_path_of_process_file() {
    let file = b"12:cpuset:/ignored\n0::/docker/abc123\n".to_vec();
    assert_eq!(find_cgroup_path(&file), Some(b"/docker/abc123".to_vec()));
    // the unified line alone
    assert_eq!(find_cgroup_path(&b"0::/\n".to_vec()), Some(b"/".to_vec()));
    // no unified entry at all
    assert_eq!(find_cgroup_path(&b"12:cpuset:/x\n".to_vec()), None);
    // the path ends at a second separator
    assert_eq!(find_cgroup_path(&b"a::/b::c\n".to_vec()), Some(b"/b".to_vec()));
}
