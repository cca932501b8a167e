use zephyr_rust_metrics::log::{log_num_line, log_text_line, write_u32};

fn num_msg(prefix: &[u8], n: u32) -> Vec<u8> {
    let mut buf = [0u8; 160];
    let len = log_num_line(&mut buf, prefix, n);
    buf[..len].to_vec()
}

fn text_msg(prefix: &[u8], text: &[u8]) -> Vec<u8> {
    let mut buf = [0u8; 160];
    let len = log_text_line(&mut buf, prefix, text);
    buf[..len].to_vec()
}

#[test]
fn write_u32_zero() {
    let mut b = [9u8; 4];
    assert_eq!(write_u32(&mut b, 1, 0), 2);
    assert_eq!(b, [9, b'0', 9, 9]);
}

#[test]
fn write_u32_digits_in_place() {
    let mut b = [0u8; 12];
    assert_eq!(write_u32(&mut b, 2, 4_294_967_295), 12);
    assert_eq!(&b[2..], b"4294967295");
    assert_eq!(&b[..2], &[0, 0]);
    let mut b = [b'x'; 6];
    assert_eq!(write_u32(&mut b, 0, 1050), 4);
    assert_eq!(&b, b"1050xx");
}

#[test]
fn num_line() {
    assert_eq!(num_msg(b"[METRICS] seq=", 42), b"[METRICS] seq=42\n".to_vec());
    assert_eq!(num_msg(b"", 7), b"7\n".to_vec());
}

#[test]
fn num_line_cuts_long_prefix() {
    let prefix = [b'p'; 200];
    let line = num_msg(&prefix, 123);
    assert_eq!(line.len(), 144 + 3 + 1);
    assert_eq!(&line[..144], &prefix[..144]);
    assert_eq!(&line[144..], b"123\n");
}

#[test]
fn text_line() {
    assert_eq!(text_msg(b"Device    : ", b"heltec"), b"Device    : heltec\n".to_vec());
}

#[test]
fn text_line_cuts_to_capacity() {
    let prefix = [b'p'; 150];
    let text = [b't'; 50];
    let line = text_msg(&prefix, &text);
    assert_eq!(line.len(), 160);
    assert_eq!(&line[..150], &prefix[..]);
    assert_eq!(&line[150..159], &text[..9]);
    assert_eq!(line[159], b'\n');
    let prefix = [b'p'; 300];
    let line = text_msg(&prefix, b"abc");
    assert_eq!(line.len(), 160);
    assert_eq!(&line[158..], b"a\n");
}
