use zephyr_rust_metrics::cbor::{build_frame, record_fits};
use zephyr_rust_metrics::identity::{resolve, HostString, Identity};
use zephyr_rust_metrics::metrics::Metrics;

fn metrics() -> Metrics {
    Metrics {
        uptime_ms: 123_456,
        cpu_usage_pct: 42,
        free_heap_bytes: 20_000,
        stack_usage_pct: 30,
        active_threads: 5,
        battery_mv: 3900,
        energy_proxy: 70_000,
        last_send_duration_ms: 15,
        tx_success_rate: 100,
        consecutive_failures: 0,
        signal_dbm: -70,
        bytes_tx: 40_000,
        bytes_rx: 30_000,
        transport_errors: 1,
        coap_retransmissions: 2,
        sleep_ratio_pct: 90,
        reset_count: 3,
    }
}

fn answer(text: &[u8]) -> HostString {
    let mut bytes = [0u8; 32];
    bytes[..text.len()].copy_from_slice(text);
    HostString { status: text.len() as i32, bytes }
}

/// The frame of one measurement, as built in a TX_CAP buffer.
fn frame(m: &Metrics, seq: u32, id: &Identity) -> Vec<u8> {
    let mut tx = [0xAAu8; 544];
    let n = build_frame(&mut tx, m, seq, id);
    // the rest of the buffer is left untouched
    assert!(tx[n..].iter().all(|&b| b == 0xAA));
    tx[..n].to_vec()
}

fn identity(device: &[u8], ty: &[u8], os: &[u8], tr: &[u8]) -> Identity {
    resolve(&answer(device), &answer(ty), &answer(os), &answer(tr))
}

#[derive(Debug, PartialEq)]
enum Item {
    Uint(u64),
    Nint(i64),
    Text(Vec<u8>),
}

fn head(b: &[u8]) -> (u8, u64, usize) {
    let major = b[0] >> 5;
    let info = b[0] & 0x1f;
    match info {
        0..=23 => (major, info as u64, 1),
        24 => (major, b[1] as u64, 2),
        25 => (major, ((b[1] as u64) << 8) | b[2] as u64, 3),
        26 => (
            major,
            ((b[1] as u64) << 24) | ((b[2] as u64) << 16) | ((b[3] as u64) << 8) | b[4] as u64,
            5,
        ),
        _ => panic!("unexpected additional info"),
    }
}

fn item(b: &[u8]) -> (Item, usize) {
    let (major, arg, n) = head(b);
    match major {
        0 => (Item::Uint(arg), n),
        1 => (Item::Nint(-1 - arg as i64), n),
        3 => (Item::Text(b[n..n + arg as usize].to_vec()), n + arg as usize),
        _ => panic!("unexpected major type"),
    }
}

fn decode_map(b: &[u8]) -> (Vec<(Vec<u8>, Item)>, usize) {
    assert_eq!(b[0], 0xBF);
    let mut i = 1;
    let mut out = Vec::new();
    while b[i] != 0xFF {
        let (k, n1) = item(&b[i..]);
        i += n1;
        let (v, n2) = item(&b[i..]);
        i += n2;
        match k {
            Item::Text(k) => out.push((k, v)),
            _ => panic!("key is not text"),
        }
    }
    (out, i + 1)
}

#[test]
fn frame_prefix_is_record_length() {
    let id = identity(b"heltec", b"esp32", b"zephyr", b"wifi");
    let f = frame(&metrics(), 7, &id);
    let len = ((f[0] as usize) << 8) | f[1] as usize;
    assert_eq!(len, f.len() - 2);
    assert_eq!(f[2], 0xBF);
    assert_eq!(*f.last().unwrap(), 0xFF);
}

#[test]
fn frame_decodes_to_the_record_fields() {
    let id = identity(b"heltec", b"esp32", b"zephyr", b"wifi");
    let m = metrics();
    let f = frame(&m, 7, &id);
    let (fields, used) = decode_map(&f[2..]);
    assert_eq!(used, f.len() - 2);
    let expected: Vec<(&[u8], Item)> = vec![
        (b"node_id", Item::Uint(id.node_id as u64)),
        (b"device", Item::Text(b"heltec".to_vec())),
        (b"type", Item::Text(b"esp32".to_vec())),
        (b"os", Item::Text(b"zephyr".to_vec())),
        (b"transport", Item::Text(b"wifi".to_vec())),
        (b"seq", Item::Uint(7)),
        (b"uptime_ms", Item::Uint(123_456)),
        (b"cpu_usage_pct", Item::Uint(42)),
        (b"free_heap_bytes", Item::Uint(20_000)),
        (b"stack_usage_pct", Item::Uint(30)),
        (b"active_threads", Item::Uint(5)),
        (b"battery_mv", Item::Uint(3900)),
        (b"energy_proxy", Item::Uint(70_000)),
        (b"sleep_ratio_pct", Item::Uint(90)),
        (b"signal_dbm", Item::Nint(-70)),
        (b"last_send_duration_ms", Item::Uint(15)),
        (b"bytes_tx", Item::Uint(40_000)),
        (b"bytes_rx", Item::Uint(30_000)),
        (b"transport_errors", Item::Uint(1)),
        (b"coap_retransmissions", Item::Uint(2)),
        (b"tx_success_rate", Item::Uint(100)),
        (b"consecutive_failures", Item::Uint(0)),
        (b"reset_count", Item::Uint(3)),
        (b"status", Item::Text(b"ok".to_vec())),
    ];
    assert_eq!(fields.len(), expected.len());
    for (got, want) in fields.iter().zip(expected.iter()) {
        assert_eq!(got.0.as_slice(), want.0);
        assert_eq!(got.1, want.1);
    }
}

#[test]
fn record_starts_with_node_id_key() {
    let id = identity(b"d", b"t", b"o", b"x");
    let f = frame(&metrics(), 1, &id);
    // 0xBF, then the text "node_id" (0x60 + 7), then an unsigned head.
    assert_eq!(&f[2..11], &[0xBF, 0x67, b'n', b'o', b'd', b'e', b'_', b'i', b'd']);
    assert_eq!(f[11], 0x1A);
    let nid = u32::from_be_bytes([f[12], f[13], f[14], f[15]]);
    assert_eq!(nid, id.node_id);
}

#[test]
fn integer_heads_use_shortest_form() {
    let id = identity(b"d", b"t", b"o", b"x");
    let mut m = metrics();
    m.cpu_usage_pct = 500;
    m.signal_dbm = -500;
    m.free_heap_bytes = 23;
    m.stack_usage_pct = 24;
    let f = frame(&m, 0, &id);
    let find = |key: &[u8]| {
        let mut pat = vec![0x60 + key.len() as u8];
        pat.extend_from_slice(key);
        let pos = f.windows(pat.len()).position(|w| w == pat.as_slice()).unwrap();
        pos + pat.len()
    };
    let p = find(b"cpu_usage_pct");
    assert_eq!(&f[p..p + 3], &[0x19, 0x01, 0xF4]);
    let p = find(b"signal_dbm");
    assert_eq!(&f[p..p + 3], &[0x39, 0x01, 0xF3]);
    let p = find(b"free_heap_bytes");
    assert_eq!(f[p], 23);
    let p = find(b"stack_usage_pct");
    assert_eq!(&f[p..p + 2], &[0x18, 24]);
    let p = find(b"seq");
    assert_eq!(f[p], 0);
}

#[test]
fn long_identity_text_uses_two_byte_head() {
    let id = identity(b"abcdefghijklmnopqrstuvwxyz", b"t", b"o", b"x");
    let f = frame(&metrics(), 0, &id);
    let key = b"\x66device";
    let pos = f.windows(key.len()).position(|w| w == key).unwrap() + key.len();
    assert_eq!(&f[pos..pos + 2], &[0x78, 26]);
    assert_eq!(&f[pos + 2..pos + 28], b"abcdefghijklmnopqrstuvwxyz");
}

#[test]
fn record_fits_with_short_identity() {
    let id = identity(b"aaaaaaaaaaaaaaaaaaaaaaa", b"bbbbbbbbbbbbbbbbbbbbbbb", b"ccccccccccccccccccccccc", b"ddddddddddddddddddddddd");
    let mut m = metrics();
    m.cpu_usage_pct = 0xFFFF_FFFF;
    m.free_heap_bytes = 0xFFFF_FFFF;
    assert!(record_fits(&m, u32::MAX, &id));
    let f = frame(&m, u32::MAX, &id);
    assert!(f.len() - 2 <= 512);
}

#[test]
fn record_does_not_fit_with_four_full_identity_strings() {
    let full = [b'z'; 32];
    let id = identity(&full, &full, &full, &full);
    let mut m = metrics();
    m.uptime_ms = u32::MAX;
    m.free_heap_bytes = u32::MAX;
    m.stack_usage_pct = u32::MAX;
    m.active_threads = u32::MAX;
    m.battery_mv = u32::MAX;
    m.energy_proxy = u32::MAX;
    m.sleep_ratio_pct = u32::MAX;
    m.signal_dbm = i32::MIN;
    m.last_send_duration_ms = u32::MAX;
    m.bytes_tx = u32::MAX;
    m.bytes_rx = u32::MAX;
    m.transport_errors = u32::MAX;
    m.coap_retransmissions = u32::MAX;
    m.tx_success_rate = u32::MAX;
    m.reset_count = u32::MAX;
    m.cpu_usage_pct = u32::MAX;
    assert!(!record_fits(&m, u32::MAX, &id));
}

#[test]
fn status_text_is_carried_in_the_record() {
    let id = identity(b"d", b"t", b"o", b"x");
    let mut m = metrics();
    m.free_heap_bytes = 100;
    let f = frame(&m, 0, &id);
    let tail = b"\x66status\x68heap_low\xFF";
    assert_eq!(&f[f.len() - tail.len()..], tail);
}
