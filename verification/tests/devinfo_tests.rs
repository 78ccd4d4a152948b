use devinfo::addr_fmt::{format_ipv4, format_ipv6, format_mac, format_mac_window, words_from_octets};
use devinfo::aggregate::{apply_address, collect_adapters, collect_interfaces};
use devinfo::assemble::{assemble, assemble_adapters};
use devinfo::identity::{bytes_before_nul, macos_system_name, parse_os_release};
use devinfo::types::{
    AdapterEntry, DevInfoError, InterfaceAddressRecord, RawAddress, RawAddressEntry,
};

const UP: u32 = 1;
const DOWN: u32 = 0;

fn v4_entry(name: &str, flags: u32, addr: u32) -> RawAddressEntry {
    RawAddressEntry { name: name.to_string(), flags, address: RawAddress::V4 { addr } }
}

fn v6_entry(name: &str, flags: u32, octets: Vec<u8>) -> RawAddressEntry {
    RawAddressEntry { name: name.to_string(), flags, address: RawAddress::V6 { octets } }
}

fn link_entry(name: &str, flags: u32, header_len: usize, data: Vec<u8>) -> RawAddressEntry {
    RawAddressEntry { name: name.to_string(), flags, address: RawAddress::Link { header_len, data } }
}

#[test]
fn mac_format_exact() {
    let bytes = vec![0xDE, 0xAD, 0xBE, 0xEF, 0x00, 0x01];
    assert_eq!(format_mac(&bytes), "DE:AD:BE:EF:00:01");
}

#[test]
fn mac_format_deterministic() {
    let bytes = vec![0x00, 0x1A, 0x2B, 0x3C, 0x4D, 0x5E];
    let once = format_mac(&bytes);
    let twice = format_mac(&bytes);
    assert_eq!(once, twice);
    assert_eq!(once, "00:1A:2B:3C:4D:5E");
    assert_eq!(once.len(), 17);
}

#[test]
fn mac_format_window_skips_header() {
    let data = vec![0xFF, 0xFF, 0xDE, 0xAD, 0xBE, 0xEF, 0x00, 0x01];
    assert_eq!(format_mac_window(&data, 2), "DE:AD:BE:EF:00:01");
}

#[test]
fn ipv4_format_exact() {
    assert_eq!(format_ipv4(0xC0A8010A), "192.168.1.10");
    assert_eq!(format_ipv4(0), "0.0.0.0");
    assert_eq!(format_ipv4(0xFFFFFFFF), "255.255.255.255");
    assert_eq!(format_ipv4(0x0A000005), "10.0.0.5");
    assert_eq!(format_ipv4(0x7F000001), "127.0.0.1");
}

#[test]
fn ipv6_format_loopback() {
    let mut octets = vec![0u8; 16];
    octets[15] = 1;
    let words = words_from_octets(&octets);
    assert_eq!(format_ipv6(&words), "::1");
}

#[test]
fn ipv6_format_all_zero() {
    let octets = vec![0u8; 16];
    let words = words_from_octets(&octets);
    assert_eq!(format_ipv6(&words), "::");
}

#[test]
fn ipv6_format_documentation_address() {
    let octets = vec![
        0x20, 0x01, 0x0D, 0xB8, 0x00, 0x00, 0x00, 0x00, 0x00, 0x00, 0x8A, 0x2E, 0x03, 0x70,
        0x73, 0x34,
    ];
    let words = words_from_octets(&octets);
    assert_eq!(format_ipv6(&words), "2001:db8::8a2e:370:7334");
}

#[test]
fn ipv6_format_single_zero_group_not_compressed() {
    let octets = vec![
        0x20, 0x01, 0x0D, 0xB8, 0x00, 0x00, 0x00, 0x01, 0x00, 0x01, 0x00, 0x01, 0x00, 0x01,
        0x00, 0x01,
    ];
    let words = words_from_octets(&octets);
    assert_eq!(format_ipv6(&words), "2001:db8:0:1:1:1:1:1");
}

#[test]
fn ipv6_format_no_zero_groups() {
    let octets = vec![
        0xFE, 0x80, 0x12, 0x34, 0x56, 0x78, 0x9A, 0xBC, 0xDE, 0xF0, 0x00, 0x11, 0x22, 0x33,
        0x44, 0x55,
    ];
    let words = words_from_octets(&octets);
    assert_eq!(format_ipv6(&words), "fe80:1234:5678:9abc:def0:11:2233:4455");
}

#[test]
fn ipv6_format_leftmost_longest_run_wins() {
    // Runs of length 2 at groups 1-2 and 5-6: the leftmost is compressed.
    let octets = vec![
        0x00, 0x01, 0x00, 0x00, 0x00, 0x00, 0x00, 0x02, 0x00, 0x03, 0x00, 0x00, 0x00, 0x00,
        0x00, 0x04,
    ];
    let words = words_from_octets(&octets);
    assert_eq!(format_ipv6(&words), "1::2:3:0:0:4");
}

#[test]
fn single_record_merges_families() {
    let entries = vec![
        v4_entry("eth0", UP, 0xC0A8010A),
        link_entry("eth0", UP, 0, vec![0xDE, 0xAD, 0xBE, 0xEF, 0x00, 0x01]),
    ];
    let records = collect_interfaces(&entries);
    assert_eq!(records.len(), 1);
    assert_eq!(records[0].name, "eth0");
    assert_eq!(records[0].ipv4, Some("192.168.1.10".to_string()));
    assert_eq!(records[0].hardware_address, Some("DE:AD:BE:EF:00:01".to_string()));
    assert_eq!(records[0].ipv6, None);
}

#[test]
fn down_interface_never_appears() {
    let mut loopback = vec![0u8; 16];
    loopback[15] = 1;
    let entries = vec![
        v4_entry("eth0", UP, 0x0A000005),
        v4_entry("lo0", DOWN, 0x7F000001),
        v6_entry("eth1", UP, loopback),
    ];
    let records = collect_interfaces(&entries);
    assert_eq!(records.len(), 2);
    assert_eq!(records[0].name, "eth0");
    assert_eq!(records[0].ipv4, Some("10.0.0.5".to_string()));
    assert_eq!(records[1].name, "eth1");
    assert_eq!(records[1].ipv6, Some("::1".to_string()));
    assert!(records.iter().all(|r| r.name != "lo0"));
}

#[test]
fn later_ipv4_overwrites_earlier() {
    let entries = vec![
        v4_entry("eth0", UP, 0x0A000001),
        v4_entry("eth0", UP, 0x0A000002),
    ];
    let records = collect_interfaces(&entries);
    assert_eq!(records.len(), 1);
    assert_eq!(records[0].ipv4, Some("10.0.0.2".to_string()));
}

#[test]
fn repeated_name_later_block_replaces_earlier() {
    let entries = vec![
        v4_entry("eth0", UP, 0x0A000001),
        v4_entry("eth1", UP, 0x0A000002),
        v4_entry("eth0", UP, 0x0A000003),
    ];
    let records = collect_interfaces(&entries);
    assert_eq!(records.len(), 2);
    assert_eq!(records[0].name, "eth0");
    assert_eq!(records[0].ipv4, Some("10.0.0.3".to_string()));
    assert_eq!(records[1].name, "eth1");
}

#[test]
fn short_link_payload_contributes_nothing() {
    let entries = vec![link_entry("eth0", UP, 4, vec![0, 0, 0, 0, 1, 2, 3, 4])];
    let records = collect_interfaces(&entries);
    assert_eq!(records.len(), 1);
    assert_eq!(records[0].hardware_address, None);
}

#[test]
fn unknown_family_contributes_nothing() {
    let entries = vec![
        RawAddressEntry {
            name: "eth0".to_string(),
            flags: UP,
            address: RawAddress::Other,
        },
        v4_entry("eth0", UP, 0x0A000001),
    ];
    let records = collect_interfaces(&entries);
    assert_eq!(records.len(), 1);
    assert_eq!(records[0].ipv4, Some("10.0.0.1".to_string()));
    assert_eq!(records[0].ipv6, None);
    assert_eq!(records[0].hardware_address, None);
}

#[test]
fn apply_address_overwrites_in_place() {
    let mut rec = InterfaceAddressRecord {
        name: "eth0".to_string(),
        ipv4: None,
        ipv6: None,
        hardware_address: None,
    };
    apply_address(&mut rec, &RawAddress::V4 { addr: 0x01020304 });
    assert_eq!(rec.ipv4, Some("1.2.3.4".to_string()));
    apply_address(&mut rec, &RawAddress::V4 { addr: 0x05060708 });
    assert_eq!(rec.ipv4, Some("5.6.7.8".to_string()));
    assert_eq!(rec.name, "eth0");
}

#[test]
fn adapters_keep_only_ethernet() {
    let adapters = vec![
        AdapterEntry {
            name: "adapter0".to_string(),
            if_type: 6,
            ip_address: "192.168.0.2".to_string(),
            hardware: vec![0xDE, 0xAD, 0xBE, 0xEF, 0x00, 0x01, 0x00, 0x00],
        },
        AdapterEntry {
            name: "tunnel0".to_string(),
            if_type: 131,
            ip_address: "10.8.0.1".to_string(),
            hardware: vec![0; 8],
        },
    ];
    let records = collect_adapters(&adapters);
    assert_eq!(records.len(), 1);
    assert_eq!(records[0].name, "adapter0");
    assert_eq!(records[0].ipv4, Some("192.168.0.2".to_string()));
    assert_eq!(records[0].hardware_address, Some("DE:AD:BE:EF:00:01".to_string()));
    assert_eq!(records[0].ipv6, None);
}

#[test]
fn enumeration_failure_wins_over_identity_success() {
    let r = assemble(
        Err(DevInfoError::OsQueryFailed { code: 5 }),
        Ok("host".to_string()),
        Ok("system".to_string()),
    );
    assert_eq!(r.err(), Some(DevInfoError::OsQueryFailed { code: 5 }));
}

#[test]
fn empty_stream_still_succeeds() {
    let r = assemble(Ok(vec![]), Ok("host".to_string()), Ok("system".to_string()));
    let result = r.unwrap();
    assert!(result.devices.is_empty());
    assert_eq!(result.identity.host_name, "host");
    assert_eq!(result.identity.system_name, "system");
}

#[test]
fn all_down_stream_still_succeeds() {
    let entries = vec![v4_entry("eth0", DOWN, 0x0A000001)];
    let r = assemble(Ok(entries), Ok("host".to_string()), Ok("system".to_string()));
    let result = r.unwrap();
    assert!(result.devices.is_empty());
}

#[test]
fn host_name_failure_propagates() {
    let r = assemble(Ok(vec![]), Err(DevInfoError::EncodingFailed), Ok("system".to_string()));
    assert_eq!(r.err(), Some(DevInfoError::EncodingFailed));
}

#[test]
fn system_name_failure_propagates() {
    let r = assemble(
        Ok(vec![]),
        Ok("host".to_string()),
        Err(DevInfoError::UnsupportedPlatform),
    );
    assert_eq!(r.err(), Some(DevInfoError::UnsupportedPlatform));
}

#[test]
fn adapter_assembly_mirrors_posix_assembly() {
    let r = assemble_adapters(
        Err(DevInfoError::OsQueryFailed { code: 87 }),
        Ok("host".to_string()),
        Ok("system".to_string()),
    );
    assert_eq!(r.err(), Some(DevInfoError::OsQueryFailed { code: 87 }));

    let ok = assemble_adapters(Ok(vec![]), Ok("h".to_string()), Ok("s".to_string())).unwrap();
    assert!(ok.devices.is_empty());
}

#[test]
fn bytes_before_nul_trims_at_first_nul() {
    let buf = vec![b'h', b'o', b's', b't', 0, b'x', 0];
    assert_eq!(bytes_before_nul(&buf), vec![b'h', b'o', b's', b't']);
}

#[test]
fn bytes_before_nul_keeps_whole_buffer_without_nul() {
    let buf = vec![b'a', b'b'];
    assert_eq!(bytes_before_nul(&buf), vec![b'a', b'b']);
}

#[test]
fn bytes_before_nul_empty_for_leading_nul() {
    let buf = vec![0, b'a'];
    assert_eq!(bytes_before_nul(&buf), Vec::<u8>::new());
}

#[test]
fn os_release_pretty_name_wins() {
    let text = "NAME=Ubuntu\nPRETTY_NAME=Ubuntu 22.04 LTS\nVERSION=22.04\n";
    assert_eq!(parse_os_release(text), "Ubuntu 22.04 LTS");
}

#[test]
fn os_release_falls_back_to_name_and_version() {
    let text = "NAME=Fedora\nVERSION=39\nID=fedora\n";
    assert_eq!(parse_os_release(text), "Fedora 39");
}

#[test]
fn os_release_last_assignment_wins_for_fallback() {
    let text = "NAME=One\nNAME=Two\nVERSION=3";
    assert_eq!(parse_os_release(text), "Two 3");
}

#[test]
fn os_release_empty_text_gives_single_space() {
    assert_eq!(parse_os_release(""), " ");
}

#[test]
fn macos_system_name_prefixes_version() {
    assert_eq!(macos_system_name("14.1"), "Macos 14.1");
}
