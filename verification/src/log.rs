//! Light logging: the messages handed to the host's print function.
//!
//! Messages are built in a buffer of LOG_CAP bytes, with a home-made ASCII
//! decimal format (no dependency, no formatting machinery).
use vstd::prelude::*;
use crate::cbor::splice;
use crate::config::LOG_CAP;

verus! {

/// ASCII '0'.
pub const ASCII_ZERO: u8 = 0x30;

/// ASCII line feed.
pub const ASCII_LF: u8 = 0x0A;

/// The decimal digits of `n` in ASCII, most significant first, with no
/// leading zero ("0" for zero).
pub open spec fn dec_digits(n: nat) -> Seq<u8>
    decreases n,
{
    if n < 10 {
        seq![(ASCII_ZERO + n) as u8]
    } else {
        dec_digits(n / 10) + seq![(ASCII_ZERO + n % 10) as u8]
    }
}

spec fn digits_above(n: nat) -> Seq<u8> {
    if n == 0 {
        Seq::empty()
    } else {
        dec_digits(n)
    }
}

proof fn lemma_digits_above_step(n: nat)
    requires
        n > 0,
    ensures
        digits_above(n) == digits_above(n / 10) + seq![(ASCII_ZERO + n % 10) as u8],
{
    if n < 10 {
        assert(digits_above(n) =~= digits_above(n / 10) + seq![(ASCII_ZERO + n % 10) as u8]);
    }
}

spec fn pow10(k: nat) -> nat
    decreases k,
{
    if k == 0 {
        1
    } else {
        10 * pow10((k - 1) as nat)
    }
}

proof fn lemma_dec_digits_len(n: nat, k: nat)
    requires
        k >= 1,
        n < pow10(k),
    ensures
        1 <= dec_digits(n).len() <= k,
    decreases k,
{
    if n >= 10 {
        assert(k >= 2) by {
            if k == 1 {
                assert(pow10(0) == 1);
            }
        }
        lemma_dec_digits_len(n / 10, (k - 1) as nat);
    }
}

/// A u32 has at most 10 decimal digits.
pub proof fn lemma_u32_digits(n: u32)
    ensures
        1 <= dec_digits(n as nat).len() <= 10,
{
    reveal_with_fuel(pow10, 11);
    assert(pow10(10) == 10_000_000_000);
    lemma_dec_digits_len(n as nat, 10);
}

/// Writes the decimal number `n` into `dst[offset..]`, returns the new
/// offset.
pub fn write_u32(dst: &mut [u8], offset: usize, n: u32) -> (next: usize)
    requires
        offset + dec_digits(n as nat).len() <= old(dst)@.len(),
    ensures
        final(dst)@ == splice(old(dst)@, offset as int, dec_digits(n as nat)),
        next == offset + dec_digits(n as nat).len(),
{
    let ghost d = dec_digits(n as nat);
    if n == 0 {
        dst[offset] = ASCII_ZERO;
        assert(dst@ =~= splice(old(dst)@, offset as int, d));
        return offset + 1;
    }
    proof {
        lemma_u32_digits(n);
    }
    let mut n = n;
    let mut tmp: [u8; 10] = [0u8; 10];
    let mut len: usize = 0;
    let ghost mut suffix: Seq<u8> = Seq::empty();
    while n > 0
        invariant
            tmp@.len() == 10,
            d.len() <= 10,
            d == digits_above(n as nat) + suffix,
            suffix.len() == len,
            forall|j: int| 0 <= j < len ==> suffix[j] == #[trigger] tmp@[len - 1 - j],
        decreases n,
    {
        proof {
            lemma_digits_above_step(n as nat);
            if n / 10 > 0 {
                lemma_u32_digits(n / 10);
            }
        }
        let c = ASCII_ZERO + (n % 10) as u8;
        let ghost old_tmp = tmp@;
        let ghost old_suffix = suffix;
        let ghost old_len = len as int;
        tmp[len] = c;
        proof {
            assert(digits_above(n as nat) + suffix =~= digits_above((n / 10) as nat) + (seq![c]
                + suffix));
            suffix = seq![c] + suffix;
        }
        n /= 10;
        len += 1;
        assert forall|j: int| 0 <= j < len implies suffix[j] == #[trigger] tmp@[len - 1 - j] by {
            if j > 0 {
                assert(suffix[j] == old_suffix[j - 1]);
                assert(old_suffix[j - 1] == old_tmp[old_len - 1 - (j - 1)]);
            }
        }
    }
    assert(suffix =~= d);
    let ghost before = dst@;
    let mut i: usize = 0;
    while i < len
        invariant
            len == d.len(),
            len <= 10,
            offset + len <= dst@.len(),
            offset + len <= dst.len(),
            dst@.len() == before.len(),
            tmp@.len() == 10,
            forall|j: int| 0 <= j < len ==> d[j] == #[trigger] tmp@[len - 1 - j],
            i <= len,
            dst@ == splice(before, offset as int, d.take(i as int)),
        decreases len - i,
    {
        dst[offset + i] = tmp[len - 1 - i];
        i += 1;
        assert(dst@ =~= splice(before, offset as int, d.take(i as int)));
    }
    assert(d.take(len as int) =~= d);
    offset + len
}

/// The line "prefix<n>\n", the prefix cut to LOG_CAP - 16 bytes.
pub open spec fn num_line_spec(prefix: Seq<u8>, n: u32) -> Seq<u8> {
    let plen = if prefix.len() < LOG_CAP - 16 {
        prefix.len() as int
    } else {
        LOG_CAP - 16
    };
    prefix.take(plen) + dec_digits(n as nat) + seq![ASCII_LF]
}

/// The line "prefix<text>\n", the prefix cut to LOG_CAP - 2 bytes and the
/// text to what is left of LOG_CAP - 1.
pub open spec fn text_line_spec(prefix: Seq<u8>, text: Seq<u8>) -> Seq<u8> {
    let plen = if prefix.len() < LOG_CAP - 2 {
        prefix.len() as int
    } else {
        LOG_CAP - 2
    };
    let room = LOG_CAP - plen - 1;
    let tlen = if text.len() < room {
        text.len() as int
    } else {
        room
    };
    prefix.take(plen) + text.take(tlen) + seq![ASCII_LF]
}

/// Copies `src[..n]` into `dst[at..]`.
fn copy_into(dst: &mut [u8], at: usize, src: &[u8], n: usize)
    requires
        n <= src@.len(),
        at + n <= old(dst)@.len(),
    ensures
        final(dst)@ == splice(old(dst)@, at as int, src@.take(n as int)),
{
    let ghost before = dst@;
    let mut k: usize = 0;
    while k < n
        invariant
            n <= src@.len(),
            at + n <= dst@.len(),
            at + n <= dst.len(),
            dst@.len() == before.len(),
            k <= n,
            dst@ == splice(before, at as int, src@.take(k as int)),
        decreases n - k,
    {
        dst[at + k] = src[k];
        k += 1;
        assert(dst@ =~= splice(before, at as int, src@.take(k as int)));
    }
}

/// Builds the message "prefix<n>\n" printed for a number into the log
/// buffer, and returns its length.
pub fn log_num_line(buf: &mut [u8], prefix: &[u8], n: u32) -> (len: usize)
    requires
        old(buf)@.len() >= LOG_CAP,
    ensures
        final(buf)@ == splice(old(buf)@, 0, num_line_spec(prefix@, n)),
        len == num_line_spec(prefix@, n).len(),
        len <= LOG_CAP,
{
    let ghost b0 = buf@;
    let plen = if prefix.len() < LOG_CAP - 16 {
        prefix.len()
    } else {
        LOG_CAP - 16
    };
    proof {
        lemma_u32_digits(n);
    }
    copy_into(buf, 0, prefix, plen);
    let i = write_u32(buf, plen, n);
    buf[i] = ASCII_LF;
    assert(buf@ =~= splice(b0, 0, num_line_spec(prefix@, n)));
    i + 1
}

/// Builds the message "prefix<text>\n" printed for a text into the log
/// buffer, and returns its length.
pub fn log_text_line(buf: &mut [u8], prefix: &[u8], text: &[u8]) -> (len: usize)
    requires
        old(buf)@.len() >= LOG_CAP,
    ensures
        final(buf)@ == splice(old(buf)@, 0, text_line_spec(prefix@, text@)),
        len == text_line_spec(prefix@, text@).len(),
        len <= LOG_CAP,
{
    let ghost b0 = buf@;
    let plen = if prefix.len() < LOG_CAP - 2 {
        prefix.len()
    } else {
        LOG_CAP - 2
    };
    copy_into(buf, 0, prefix, plen);
    let room = LOG_CAP - plen - 1;
    let tlen = if text.len() < room {
        text.len()
    } else {
        room
    };
    copy_into(buf, plen, text, tlen);
    buf[plen + tlen] = ASCII_LF;
    assert(buf@ =~= splice(b0, 0, text_line_spec(prefix@, text@)));
    plen + tlen + 1
}

/// A number line is the prefix (whole when shorter than LOG_CAP - 16
/// bytes, else its first LOG_CAP - 16), the number's decimal digits, and a
/// line feed.
pub proof fn lemma_num_line_shape(prefix: Seq<u8>, n: u32)
    ensures
        ({
            let line = num_line_spec(prefix, n);
            let plen = if prefix.len() < LOG_CAP - 16 {
                prefix.len() as int
            } else {
                LOG_CAP - 16
            };
            &&& line.len() == plen + dec_digits(n as nat).len() + 1
            &&& forall|j: int| 0 <= j < plen ==> #[trigger] line[j] == prefix[j]
            &&& line.subrange(plen, plen + dec_digits(n as nat).len()) == dec_digits(n as nat)
            &&& line[line.len() - 1] == ASCII_LF
        }),
{
    let line = num_line_spec(prefix, n);
    let plen = if prefix.len() < LOG_CAP - 16 {
        prefix.len() as int
    } else {
        LOG_CAP - 16
    };
    assert(line.subrange(plen, plen + dec_digits(n as nat).len()) =~= dec_digits(n as nat));
}

/// A text line is the prefix (whole when shorter than LOG_CAP - 2 bytes),
/// as much of the text as fits in LOG_CAP - 1 bytes in all, and a line
/// feed.
pub proof fn lemma_text_line_shape(prefix: Seq<u8>, text: Seq<u8>)
    ensures
        ({
            let line = text_line_spec(prefix, text);
            &&& prefix.len() < LOG_CAP - 2 ==> forall|j: int|
                0 <= j < prefix.len() ==> #[trigger] line[j] == prefix[j]
            &&& prefix.len() < LOG_CAP - 2 && prefix.len() + text.len() < LOG_CAP ==> line.len()
                == prefix.len() + text.len() + 1
            &&& line.len() <= LOG_CAP
            &&& line[line.len() - 1] == ASCII_LF
        }),
{
    let line = text_line_spec(prefix, text);
    let plen = if prefix.len() < LOG_CAP - 2 {
        prefix.len() as int
    } else {
        LOG_CAP - 2
    };
    let room = LOG_CAP - plen - 1;
    let tlen = if text.len() < room {
        text.len() as int
    } else {
        room
    };
    let a = prefix.take(plen);
    let b = text.take(tlen);
    assert(line == a + b + seq![ASCII_LF]);
    assert(line.len() == plen + tlen + 1);
    assert forall|j: int| 0 <= j < plen implies #[trigger] line[j] == prefix[j] by {
        assert(line[j] == (a + b)[j]);
        assert((a + b)[j] == a[j]);
    }
    assert(line[line.len() - 1] == ASCII_LF);
}

} // verus!
