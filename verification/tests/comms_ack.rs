use zephyr_rust_metrics::comms::{apply_interval_reconfig, settle_exchange, Exchange, Reconfig};
use zephyr_rust_metrics::log::write_u32;
use zephyr_rust_metrics::metrics::{current_interval, Counters};

fn ack(text: &[u8]) -> Vec<u8> {
    let mut b = vec![0u8; 128];
    b[..text.len()].copy_from_slice(text);
    b
}

#[test]
fn interval_order_is_applied() {
    let mut c = Counters::new();
    let a = ack(b"INTERVAL=60");
    assert_eq!(apply_interval_reconfig(&mut c, &a, 11), Reconfig::Updated(60));
    assert_eq!(current_interval(&c), 60);
    assert_eq!(apply_interval_reconfig(&mut c, &a, 11), Reconfig::Unchanged(60));
}

#[test]
fn plain_ok_carries_no_order() {
    let mut c = Counters::new();
    assert_eq!(apply_interval_reconfig(&mut c, &ack(b"OK"), 2), Reconfig::NoOrder);
    assert_eq!(current_interval(&c), 2);
}

#[test]
fn order_out_of_bounds_is_ignored() {
    let mut c = Counters::new();
    assert_eq!(apply_interval_reconfig(&mut c, &ack(b"INTERVAL=0"), 10), Reconfig::OutOfRange(0));
    assert_eq!(apply_interval_reconfig(&mut c, &ack(b"INTERVAL=301"), 12), Reconfig::OutOfRange(301));
    assert_eq!(current_interval(&c), 2);
    assert_eq!(apply_interval_reconfig(&mut c, &ack(b"INTERVAL=300"), 12), Reconfig::Updated(300));
    assert_eq!(apply_interval_reconfig(&mut c, &ack(b"INTERVAL=1"), 10), Reconfig::Updated(1));
}

#[test]
fn tag_without_digits_is_no_order() {
    let mut c = Counters::new();
    assert_eq!(apply_interval_reconfig(&mut c, &ack(b"INTERVAL=x5"), 11), Reconfig::NoOrder);
    assert_eq!(apply_interval_reconfig(&mut c, &ack(b"INTERVAL="), 9), Reconfig::NoOrder);
}

#[test]
fn tag_is_searched_in_the_received_length_only() {
    let mut c = Counters::new();
    let a = ack(b"INTERVAL=45");
    assert_eq!(apply_interval_reconfig(&mut c, &a, 8), Reconfig::NoOrder);
    // digits are read up to the received length
    assert_eq!(apply_interval_reconfig(&mut c, &a, 10), Reconfig::Updated(4));
}

#[test]
fn first_tag_wins_and_digits_stop_at_non_digit() {
    let mut c = Counters::new();
    let a = ack(b"OK INTERVAL=12;INTERVAL=99");
    assert_eq!(apply_interval_reconfig(&mut c, &a, 27), Reconfig::Updated(12));
}

#[test]
fn number_beyond_u32_is_ignored() {
    let mut c = Counters::new();
    let a = ack(b"INTERVAL=4294967297");
    assert_eq!(apply_interval_reconfig(&mut c, &a, 19), Reconfig::TooLarge);
    assert_eq!(current_interval(&c), 2);
    // leading zeros add nothing to the value
    let text = b"INTERVAL=00000000000000000000000000000000000000000000000000000000000007";
    let a = ack(text);
    assert_eq!(apply_interval_reconfig(&mut c, &a, text.len()), Reconfig::Updated(7));
}

#[test]
fn largest_u32_is_out_of_range() {
    let mut c = Counters::new();
    let a = ack(b"INTERVAL=4294967295");
    assert_eq!(apply_interval_reconfig(&mut c, &a, 19), Reconfig::OutOfRange(4294967295));
    assert_eq!(current_interval(&c), 2);
}

#[test]
fn exchange_send_failed() {
    let mut c = Counters::new();
    let out = settle_exchange(&mut c, -1, 0, &ack(b""), 100, 130);
    assert_eq!(out, Exchange::SendFailed);
    assert_eq!(c.send_total, 1);
    assert_eq!(c.send_ok, 0);
    assert_eq!(c.consec_failures, 1);
    assert_eq!(c.last_send_ms, 30);
}

#[test]
fn exchange_without_ack() {
    let mut c = Counters::new();
    let out = settle_exchange(&mut c, 50, 0, &ack(b""), 10, 20);
    assert_eq!(out, Exchange::NoAck);
    assert_eq!(c.consec_failures, 1);
    assert_eq!(c.last_send_ms, 10);
}

#[test]
fn exchange_acked_with_order() {
    let mut c = Counters::new();
    c.consec_failures = 2;
    let out = settle_exchange(&mut c, 50, 11, &ack(b"INTERVAL=20"), u32::MAX - 4, 5);
    assert_eq!(out, Exchange::Acked(Reconfig::Updated(20)));
    assert_eq!(c.send_total, 1);
    assert_eq!(c.send_ok, 1);
    assert_eq!(c.consec_failures, 0);
    assert_eq!(c.last_send_ms, 10);
    assert_eq!(current_interval(&c), 20);
}

#[test]
fn written_number_reads_back() {
    let mut c = Counters::new();
    let mut a = ack(b"INTERVAL=");
    let end = write_u32(&mut a, 9, 250);
    a[end] = b';';
    assert_eq!(apply_interval_reconfig(&mut c, &a, end + 1), Reconfig::Updated(250));
}
