//! Frame exchange and acknowledgement handling.
//!
//! After a frame is sent, the edge answers with an ACK: the text "OK" or
//! "INTERVAL=<n>". The counters are updated, and an interval
//! reconfiguration carried by the ACK is applied; it costs no extra request
//! since it rides on the answer already exchanged.
use vstd::prelude::*;
use vstd::string::StringSliceAdditionalSpecFns;
use vstd::string::is_ascii_spec_bytes;
use crate::cbor::splice;
use crate::config::{INTERVAL_MAX_S, INTERVAL_MIN_S};
use crate::log::{ASCII_ZERO, dec_digits};
use crate::metrics::{
    after_ack, after_attempt, after_fail, lemma_success_rate_percent, note_ack, note_attempt,
    note_fail, set_interval, success_rate_spec, Counters,
};

verus! {

/// The tag that announces an interval order.
pub open spec fn interval_tag() -> Seq<u8> {
    "INTERVAL=".spec_bytes()
}

proof fn lemma_interval_tag()
    ensures
        interval_tag().len() == 9,
{
    reveal_strlit("INTERVAL=");
    is_ascii_spec_bytes("INTERVAL=");
}

/// The tag occurs in `buf` at position `i`.
pub open spec fn tag_at(buf: Seq<u8>, i: int) -> bool {
    buf.subrange(i, i + interval_tag().len()) == interval_tag()
}

/// Searching `buf[..len]` from position `i` on: the position right after
/// the first occurrence of the tag.
pub open spec fn tag_search(buf: Seq<u8>, len: int, i: int) -> Option<int>
    decreases len - i,
{
    if i < 0 || i >= len || i + interval_tag().len() > len {
        None
    } else if tag_at(buf, i) {
        Some(i + interval_tag().len())
    } else {
        tag_search(buf, len, i + 1)
    }
}

/// The search finds the first occurrence of the tag, and none when the tag
/// does not occur.
pub proof fn lemma_tag_search_first(buf: Seq<u8>, len: int, i: int)
    requires
        0 <= i,
    ensures
        tag_search(buf, len, i) matches Some(p) ==> {
            &&& i + interval_tag().len() <= p <= len
            &&& tag_at(buf, p - interval_tag().len())
            &&& forall|j: int|
                i <= j < p - interval_tag().len() ==> !#[trigger] tag_at(buf, j)
        },
        tag_search(buf, len, i) is None ==> forall|j: int|
            i <= j && j + interval_tag().len() <= len ==> !#[trigger] tag_at(buf, j),
    decreases len - i,
{
    lemma_interval_tag();
    if i < len && i + interval_tag().len() <= len && !tag_at(buf, i) {
        lemma_tag_search_first(buf, len, i + 1);
        if tag_search(buf, len, i) is None {
            assert forall|j: int| i <= j && j + interval_tag().len() <= len implies !#[trigger] tag_at(
                buf,
                j,
            ) by {
                if j > i {
                }
            }
        }
    }
}

/// Looks for "INTERVAL=" in buf[..len], returns the position right after
/// the '='.
fn find_interval_tag(buf: &[u8], len: usize) -> (pos: Option<usize>)
    requires
        len <= buf@.len(),
    ensures
        pos == (match tag_search(buf@, len as int, 0) {
            Some(p) => Some(p as usize),
            None => None,
        }),
{
    let tag = "INTERVAL=".as_bytes();
    proof {
        lemma_interval_tag();
    }
    if len < tag.len() {
        return None;
    }
    let mut i: usize = 0;
    while i <= len - tag.len()
        invariant
            tag@ == interval_tag(),
            tag@.len() == 9,
            9 <= len <= buf@.len(),
            tag_search(buf@, len as int, 0) == tag_search(buf@, len as int, i as int),
        decreases len - i,
    {
        let mut k: usize = 0;
        while k < tag.len() && buf[i + k] == tag[k]
            invariant
                tag@.len() == 9,
                i + 9 <= len,
                len <= buf@.len(),
                k <= 9,
                forall|j: int| 0 <= j < k ==> buf@[i + j] == tag@[j],
            decreases 9 - k,
        {
            k += 1;
        }
        if k == tag.len() {
            assert(buf@.subrange(i as int, i + 9) =~= tag@);
            return Some(i + tag.len());
        }
        assert(buf@.subrange(i as int, i + 9)[k as int] != tag@[k as int]);
        i += 1;
    }
    None
}

pub open spec fn is_digit(c: u8) -> bool {
    0x30 <= c <= 0x39
}

/// Number of consecutive digits in `buf[start..len]` from `start` on.
pub open spec fn digit_run(buf: Seq<u8>, start: int, len: int) -> nat
    decreases len - start,
{
    if 0 <= start < len && is_digit(buf[start]) {
        1 + digit_run(buf, start + 1, len)
    } else {
        0
    }
}

/// Value of one ASCII digit (0 for any other byte).
pub open spec fn digit_value(c: u8) -> nat {
    if is_digit(c) {
        (c - ASCII_ZERO) as nat
    } else {
        0
    }
}

/// Decimal value of a string of ASCII digits.
pub open spec fn dec_value(s: Seq<u8>) -> nat
    decreases s.len(),
{
    if s.len() == 0 {
        0
    } else {
        dec_value(s.drop_last()) * 10 + digit_value(s.last())
    }
}

/// The decimal number written in `buf[start..len]`: the value of the digits
/// from `start` on, or None when there is no digit there.
pub open spec fn number_at(buf: Seq<u8>, start: int, len: int) -> Option<nat> {
    let run = digit_run(buf, start, len);
    if run == 0 {
        None
    } else {
        Some(dec_value(buf.subrange(start, start + run)))
    }
}

proof fn lemma_digit_run_bound(buf: Seq<u8>, start: int, len: int)
    requires
        0 <= start,
    ensures
        digit_run(buf, start, len) > 0 ==> start + digit_run(buf, start, len) <= len,
    decreases len - start,
{
    if 0 <= start < len && is_digit(buf[start]) {
        lemma_digit_run_bound(buf, start + 1, len);
    }
}

/// More digits never make a smaller number.
proof fn lemma_dec_value_prefix(s: Seq<u8>, k: int)
    requires
        0 <= k <= s.len(),
    ensures
        dec_value(s.take(k)) <= dec_value(s),
    decreases s.len(),
{
    if k < s.len() {
        assert(s.drop_last().take(k) =~= s.take(k));
        lemma_dec_value_prefix(s.drop_last(), k);
    } else {
        assert(s.take(k) =~= s);
    }
}

/// What the parser finds at a position.
enum ParsedNumber {
    /// No digit there.
    NoDigits,
    /// The digits' value.
    Value(u32),
    /// Digits whose value exceeds u32::MAX.
    TooLarge,
}

/// Reads a decimal integer from buf[start..len].
fn parse_u32_at(buf: &[u8], start: usize, len: usize) -> (v: ParsedNumber)
    requires
        len <= buf@.len(),
    ensures
        v == ParsedNumber::NoDigits <==> number_at(buf@, start as int, len as int) is None,
        v matches ParsedNumber::Value(x) ==> number_at(buf@, start as int, len as int) == Some(
            x as nat,
        ),
        v == ParsedNumber::TooLarge ==> (number_at(buf@, start as int, len as int) matches Some(n)
            && n > u32::MAX),
{
    let mut i = start;
    let mut val: u32 = 0;
    let mut seen = false;
    proof {
        lemma_digit_run_bound(buf@, start as int, len as int);
    }
    while i < len
        invariant_except_break
            start <= i,
            i > start ==> i <= len,
            len <= buf@.len(),
            digit_run(buf@, start as int, len as int) > 0 ==> start + digit_run(
                buf@,
                start as int,
                len as int,
            ) <= len,
            i == start ==> val == 0,
            i > start ==> val == dec_value(buf@.subrange(start as int, i as int)),
            seen == (i > start),
            digit_run(buf@, start as int, len as int) == (i - start) + digit_run(
                buf@,
                i as int,
                len as int,
            ),
        ensures
            start <= i,
            i > start ==> i <= len,
            i > start ==> val == dec_value(buf@.subrange(start as int, i as int)),
            seen == (i > start),
            digit_run(buf@, start as int, len as int) == (i - start),
        decreases len - i,
    {
        let c = buf[i];
        if c >= 0x30 && c <= 0x39 {
            let ghost sub = buf@.subrange(start as int, i + 1);
            proof {
                assert(sub.drop_last() =~= buf@.subrange(start as int, i as int));
                assert(sub.last() == c);
                if i == start {
                    assert(dec_value(sub.drop_last()) == 0);
                }
                assert(dec_value(sub) == val * 10 + (c - 0x30));
            }
            let dg = (c - 0x30) as u32;
            let next = match val.checked_mul(10) {
                Some(a) => a.checked_add(dg),
                None => None,
            };
            match next {
                Some(b) => {
                    val = b;
                },
                None => {
                    proof {
                        assert(digit_run(buf@, i as int, len as int) >= 1);
                        let run = digit_run(buf@, start as int, len as int);
                        let whole = buf@.subrange(start as int, start + run);
                        assert(whole.take(i + 1 - start) =~= sub);
                        lemma_dec_value_prefix(whole, i + 1 - start);
                    }
                    return ParsedNumber::TooLarge;
                },
            }
            seen = true;
            i += 1;
        } else {
            break;
        }
    }
    if seen {
        ParsedNumber::Value(val)
    } else {
        ParsedNumber::NoDigits
    }
}

/// What the ACK orders about the interval: the number after the tag.
pub open spec fn ack_order(ack: Seq<u8>, len: int) -> Option<nat> {
    match tag_search(ack, len, 0) {
        Some(p) => number_at(ack, p, len),
        None => None,
    }
}

/// Outcome of an interval order carried by an ACK.
#[derive(Clone, Copy, Debug, PartialEq, Eq, Structural)]
pub enum Reconfig {
    /// The ACK carries no order.
    NoOrder,
    /// The ordered interval lies outside [INTERVAL_MIN_S, INTERVAL_MAX_S]:
    /// ignored.
    OutOfRange(u32),
    /// The ordered interval does not even fit a u32: ignored.
    TooLarge,
    /// The ordered interval is the current one.
    Unchanged(u32),
    /// The interval was updated to this value.
    Updated(u32),
}

/// The outcome of an order against the current interval.
pub open spec fn reconfig_spec(order: Option<nat>, current: u32) -> Reconfig {
    match order {
        None => Reconfig::NoOrder,
        Some(v) => {
            if v > u32::MAX {
                Reconfig::TooLarge
            } else if v < INTERVAL_MIN_S || v > INTERVAL_MAX_S {
                Reconfig::OutOfRange(v as u32)
            } else if v == current {
                Reconfig::Unchanged(v as u32)
            } else {
                Reconfig::Updated(v as u32)
            }
        },
    }
}

/// Applies an interval reconfiguration order present in the ACK
/// `ack[..len]`.
pub fn apply_interval_reconfig(c: &mut Counters, ack: &[u8], len: usize) -> (out: Reconfig)
    requires
        len <= ack@.len(),
    ensures
        out == reconfig_spec(ack_order(ack@, len as int), old(c).current_interval_s),
        *final(c) == (match out {
            Reconfig::Updated(v) => Counters { current_interval_s: v, ..*old(c) },
            _ => *old(c),
        }),
{
    proof {
        lemma_tag_search_first(ack@, len as int, 0);
    }
    let pos = match find_interval_tag(ack, len) {
        Some(p) => p,
        None => return Reconfig::NoOrder,
    };
    let new_val = match parse_u32_at(ack, pos, len) {
        ParsedNumber::Value(v) => v,
        ParsedNumber::NoDigits => return Reconfig::NoOrder,
        ParsedNumber::TooLarge => return Reconfig::TooLarge,
    };
    if new_val < INTERVAL_MIN_S || new_val > INTERVAL_MAX_S {
        return Reconfig::OutOfRange(new_val);
    }
    if new_val != c.current_interval_s {
        set_interval(c, new_val);
        Reconfig::Updated(new_val)
    } else {
        Reconfig::Unchanged(new_val)
    }
}

/// Outcome of one frame exchange.
#[derive(Clone, Copy, Debug, PartialEq, Eq, Structural)]
pub enum Exchange {
    /// The transport refused the frame.
    SendFailed,
    /// Sent, but no acknowledgement came back (harmless).
    NoAck,
    /// Acknowledged; what the ACK ordered about the interval.
    Acked(Reconfig),
}

/// The counters after an exchange: one attempt, then an acknowledgement
/// (with the ordered interval applied) or a failure, of duration
/// `t1 - t0` modulo 2^32.
pub open spec fn exchange_spec(
    c: Counters,
    sent: i32,
    received: i32,
    ack: Seq<u8>,
    t0: u32,
    t1: u32,
) -> (Counters, Exchange) {
    let dur = (if t1 >= t0 {
        t1 - t0
    } else {
        t1 - t0 + 0x1_0000_0000
    }) as u32;
    let c1 = after_attempt(c);
    if sent > 0 && received > 0 {
        let out = reconfig_spec(ack_order(ack, received as int), c1.current_interval_s);
        let c2 = match out {
            Reconfig::Updated(v) => Counters { current_interval_s: v, ..c1 },
            _ => c1,
        };
        (after_ack(c2, dur), Exchange::Acked(out))
    } else {
        (after_fail(c1, dur), if sent > 0 {
            Exchange::NoAck
        } else {
            Exchange::SendFailed
        })
    }
}

/// Settles one exchange: `sent` is what the transport returned for the
/// frame, `received` what it returned for the ACK read into `ack` (0 when
/// nothing was read), `t0` and `t1` the uptimes before and after.
pub fn settle_exchange(
    c: &mut Counters,
    sent: i32,
    received: i32,
    ack: &[u8],
    t0: u32,
    t1: u32,
) -> (out: Exchange)
    requires
        old(c).send_total < u32::MAX,
        sent > 0 && received > 0 ==> old(c).send_ok < u32::MAX && received as int <= ack@.len(),
        !(sent > 0 && received > 0) ==> old(c).consec_failures < u32::MAX,
    ensures
        (*final(c), out) == exchange_spec(*old(c), sent, received, ack@, t0, t1),
{
    note_attempt(c);

    let mut got_ack = false;
    let mut out = Exchange::SendFailed;
    if sent > 0 {
        if received > 0 {
            got_ack = true;
            let r = apply_interval_reconfig(c, ack, received as usize);
            out = Exchange::Acked(r);
        } else {
            out = Exchange::NoAck;
        }
    }
    let dur = t1.wrapping_sub(t0);
    if got_ack {
        note_ack(c, dur);
    } else {
        note_fail(c, dur);
    }
    out
}

/// An ACK never sets the interval outside [INTERVAL_MIN_S, INTERVAL_MAX_S]:
/// an order out of range, or no order, leaves it as it was.
pub proof fn lemma_reconfig_in_bounds(order: Option<nat>, current: u32)
    ensures
        reconfig_spec(order, current) matches Reconfig::Updated(v) ==> INTERVAL_MIN_S <= v
            <= INTERVAL_MAX_S && v != current,
        order matches Some(v) ==> (INTERVAL_MIN_S <= v <= INTERVAL_MAX_S ==> (reconfig_spec(
            order,
            current,
        ) == Reconfig::Updated(v as u32) || reconfig_spec(order, current) == Reconfig::Unchanged(v as u32))),
{
}

/// Only an acknowledged exchange can change the interval, and every
/// exchange counts one attempt.
pub proof fn lemma_exchange_interval(
    c: Counters,
    sent: i32,
    received: i32,
    ack: Seq<u8>,
    t0: u32,
    t1: u32,
)
    requires
        c.send_total < u32::MAX,
    ensures
        exchange_spec(c, sent, received, ack, t0, t1).0.send_total == c.send_total + 1,
        !(sent > 0 && received > 0) ==> exchange_spec(c, sent, received, ack, t0, t1).0.current_interval_s
            == c.current_interval_s,
        exchange_spec(c, sent, received, ack, t0, t1).0.current_interval_s != c.current_interval_s
            ==> INTERVAL_MIN_S <= exchange_spec(c, sent, received, ack, t0, t1).0.current_interval_s
            <= INTERVAL_MAX_S,
{
}

/// An exchange never counts more acknowledged sends than attempts, so the
/// success rate reported later stays a percentage.
pub proof fn lemma_settle_keeps_ok_within_total(
    c: Counters,
    sent: i32,
    received: i32,
    ack: Seq<u8>,
    t0: u32,
    t1: u32,
)
    requires
        c.send_ok <= c.send_total < u32::MAX,
    ensures
        exchange_spec(c, sent, received, ack, t0, t1).0.send_ok <= exchange_spec(
            c,
            sent,
            received,
            ack,
            t0,
            t1,
        ).0.send_total,
        0 <= success_rate_spec(exchange_spec(c, sent, received, ack, t0, t1).0) <= 100,
{
    lemma_success_rate_percent(exchange_spec(c, sent, received, ack, t0, t1).0);
}

/// An exchange always counts one attempt; it counts an acknowledgement,
/// ending the failure streak, exactly when the frame was sent and an answer
/// received, and a failure otherwise; it records the elapsed time t1 - t0
/// (modulo 2^32).
pub proof fn lemma_settle_outcome(
    c: Counters,
    sent: i32,
    received: i32,
    ack: Seq<u8>,
    t0: u32,
    t1: u32,
)
    requires
        c.send_total < u32::MAX,
        c.send_ok < u32::MAX,
        c.consec_failures < u32::MAX,
    ensures
        ({
            let (c2, out) = exchange_spec(c, sent, received, ack, t0, t1);
            &&& c2.send_total == c.send_total + 1
            &&& (sent > 0 && received > 0) ==> c2.send_ok == c.send_ok + 1 && c2.consec_failures
                == 0 && out is Acked
            &&& !(sent > 0 && received > 0) ==> c2.send_ok == c.send_ok && c2.consec_failures
                == c.consec_failures + 1
            &&& sent <= 0 ==> out == Exchange::SendFailed
            &&& (sent > 0 && received <= 0) ==> out == Exchange::NoAck
            &&& t1 >= t0 ==> c2.last_send_ms == t1 - t0
            &&& t1 < t0 ==> c2.last_send_ms == t1 + 0x1_0000_0000 - t0
            &&& c2.sleep_ms_total == c.sleep_ms_total
        }),
{
}

// --- Decimal numbers read back ---

proof fn lemma_dec_digits_are_digits(n: nat)
    ensures
        forall|j: int| 0 <= j < dec_digits(n).len() ==> is_digit(#[trigger] dec_digits(n)[j]),
    decreases n,
{
    if n >= 10 {
        lemma_dec_digits_are_digits(n / 10);
        let a = dec_digits(n / 10);
        let b = seq![(ASCII_ZERO + n % 10) as u8];
        assert forall|j: int| 0 <= j < dec_digits(n).len() implies is_digit(
            #[trigger] dec_digits(n)[j],
        ) by {
            if j < a.len() {
                assert(dec_digits(n)[j] == a[j]);
            }
        }
    }
}

proof fn lemma_dec_value_digits(n: nat)
    ensures
        dec_value(dec_digits(n)) == n,
    decreases n,
{
    let d = dec_digits(n);
    if n >= 10 {
        lemma_dec_value_digits(n / 10);
        assert(d.drop_last() =~= dec_digits(n / 10));
        assert(d.last() == (ASCII_ZERO + n % 10) as u8);
        assert((n / 10) * 10 + n % 10 == n);
    } else {
        assert(d.drop_last() =~= Seq::<u8>::empty());
        assert(d.last() == (ASCII_ZERO + n) as u8);
        assert(dec_value(d.drop_last()) == 0);
    }
}

proof fn lemma_digit_run_of_digits(buf: Seq<u8>, i: int, end: int)
    requires
        0 <= i <= end <= buf.len(),
        forall|j: int| i <= j < end ==> is_digit(#[trigger] buf[j]),
    ensures
        digit_run(buf, i, end) == end - i,
    decreases end - i,
{
    if i < end {
        lemma_digit_run_of_digits(buf, i + 1, end);
    }
}

/// A number written in decimal in `buf` at `offset` reads back as itself
/// from `offset` up to the end of its digits.
pub proof fn lemma_decimal_roundtrip(buf: Seq<u8>, offset: int, n: u32)
    requires
        0 <= offset,
        offset + dec_digits(n as nat).len() <= buf.len(),
        buf.subrange(offset, offset + dec_digits(n as nat).len()) == dec_digits(n as nat),
    ensures
        number_at(buf, offset, offset + dec_digits(n as nat).len()) == Some(n as nat),
{
    let d = dec_digits(n as nat);
    let end = offset + d.len();
    lemma_dec_digits_are_digits(n as nat);
    assert forall|j: int| offset <= j < end implies is_digit(#[trigger] buf[j]) by {
        assert(buf[j] == d[j - offset]);
    }
    lemma_digit_run_of_digits(buf, offset, end);
    lemma_dec_value_digits(n as nat);
}

/// What `write_u32` writes at `offset`, `parse` reads back: the number, in
/// one to ten digits.
pub proof fn lemma_write_then_read(old_buf: Seq<u8>, offset: int, n: u32)
    requires
        0 <= offset,
        offset + dec_digits(n as nat).len() <= old_buf.len(),
    ensures
        1 <= dec_digits(n as nat).len() <= 10,
        number_at(
            splice(old_buf, offset, dec_digits(n as nat)),
            offset,
            offset + dec_digits(n as nat).len(),
        ) == Some(n as nat),
{
    let d = dec_digits(n as nat);
    let b = splice(old_buf, offset, d);
    crate::log::lemma_u32_digits(n);
    assert(b.subrange(offset, offset + d.len()) =~= d);
    lemma_decimal_roundtrip(b, offset, n);
}

} // verus!
