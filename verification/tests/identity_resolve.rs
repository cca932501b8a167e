use zephyr_rust_metrics::identity::{dev_type, device, node_id, os, resolve, transport, HostString};

fn answer(status: i32, text: &[u8]) -> HostString {
    let mut bytes = [0u8; 32];
    bytes[..text.len()].copy_from_slice(text);
    HostString { status, bytes }
}

fn ok(text: &[u8]) -> HostString {
    answer(text.len() as i32, text)
}

#[test]
fn host_answers_in_range_are_kept() {
    let id = resolve(&ok(b"heltec_v3"), &ok(b"esp32c6"), &ok(b"zephyr"), &ok(b"ble"));
    assert_eq!(device(&id), b"heltec_v3");
    assert_eq!(dev_type(&id), b"esp32c6");
    assert_eq!(os(&id), b"zephyr");
    assert_eq!(transport(&id), b"ble");
}

#[test]
fn failed_queries_fall_back() {
    let id = resolve(&answer(0, b""), &answer(-1, b"xx"), &answer(33, b"yy"), &answer(-5, b""));
    assert_eq!(device(&id), b"unknown_device");
    assert_eq!(dev_type(&id), b"unknown_type");
    assert_eq!(os(&id), b"unknown_os");
    assert_eq!(transport(&id), b"unknown");
}

#[test]
fn status_counts_bytes_of_the_buffer() {
    // only the announced length is kept, whatever follows in the buffer
    let id = resolve(&answer(3, b"abcdef"), &ok(b"t"), &ok(b"o"), &ok(b"x"));
    assert_eq!(device(&id), b"abc");
    let full = [b'q'; 32];
    let id = resolve(&answer(32, &full), &ok(b"t"), &ok(b"o"), &ok(b"x"));
    assert_eq!(device(&id), &full[..]);
}

#[test]
fn node_id_is_fnv1a_of_device() {
    // reference FNV-1a 32-bit values
    let id = resolve(&ok(b"a"), &ok(b"t"), &ok(b"o"), &ok(b"x"));
    assert_eq!(node_id(&id), 0xe40c_292c);
    let id = resolve(&ok(b"foobar"), &ok(b"t"), &ok(b"o"), &ok(b"x"));
    assert_eq!(node_id(&id), 0xbf9c_f968);
    let id = resolve(&answer(0, b""), &ok(b"t"), &ok(b"o"), &ok(b"x"));
    let mut h: u32 = 0x811c_9dc5;
    for &b in b"unknown_device" {
        h ^= b as u32;
        h = h.wrapping_mul(0x0100_0193);
    }
    assert_eq!(node_id(&id), h);
}
