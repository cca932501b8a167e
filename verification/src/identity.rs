//! Node identity, resolved at run time from the host.
//!
//! device / type / os / transport are never hard-coded: they are asked of
//! the host at start-up. node_id is a short identifier (FNV-1a hash of the
//! device name) that accompanies each measurement.
use vstd::prelude::*;
use vstd::string::StringSliceAdditionalSpecFns;
use crate::config::ID_CAP;

verus! {

/// One identity string, held in a buffer of ID_CAP bytes.
#[derive(Clone, Copy, Debug)]
pub struct IdText {
    bytes: [u8; ID_CAP],
    len: usize,
}

impl IdText {
    #[verifier::type_invariant]
    spec fn inv(self) -> bool {
        self.len <= ID_CAP
    }

    /// The bytes of the string.
    pub fn as_bytes(&self) -> (s: &[u8])
        ensures
            s@ == self@,
    {
        proof {
            use_type_invariant(self);
        }
        &self.bytes.as_slice()[0..self.len]
    }
}

impl View for IdText {
    type V = Seq<u8>;

    closed spec fn view(&self) -> Seq<u8> {
        self.bytes@.take(self.len as int)
    }
}

/// The node's identity as resolved from the host.
#[derive(Clone, Copy, Debug)]
pub struct Identity {
    pub device: IdText,
    pub dev_type: IdText,
    pub os: IdText,
    pub transport: IdText,
    pub node_id: u32,
}

/// What the host answered to one identity query: the status it returned and
/// the buffer of `ID_CAP` bytes it was given to fill.
#[derive(Clone, Copy, Debug)]
pub struct HostString {
    pub status: i32,
    pub bytes: [u8; ID_CAP],
}

pub const FNV_OFFSET_BASIS: u32 = 0x811c_9dc5;
pub const FNV_PRIME: u32 = 0x0100_0193;

/// 32-bit FNV-1a over `s`: for each byte, xor then multiply modulo 2^32.
pub open spec fn fnv1a_spec(s: Seq<u8>) -> u32
    decreases s.len(),
{
    if s.len() == 0 {
        FNV_OFFSET_BASIS
    } else {
        let h = fnv1a_spec(s.drop_last()) ^ (s.last() as u32);
        ((h as nat * FNV_PRIME as nat) % 0x1_0000_0000) as u32
    }
}

/// FNV-1a starts from the offset basis and, for each further byte, xors it
/// in and multiplies by the prime modulo 2^32; the hash is a function of the
/// bytes alone.
pub proof fn lemma_fnv1a_step(s: Seq<u8>, b: u8)
    ensures
        fnv1a_spec(Seq::empty()) == FNV_OFFSET_BASIS,
        fnv1a_spec(s.push(b)) == (((fnv1a_spec(s) ^ (b as u32)) as nat * FNV_PRIME as nat)
            % 0x1_0000_0000) as u32,
{
    assert(s.push(b).drop_last() =~= s);
}

/// 32-bit FNV-1a hash (stable, allocation free) -> node_id.
fn fnv1a(bytes: &[u8]) -> (h: u32)
    ensures
        h == fnv1a_spec(bytes@),
{
    let mut h: u32 = 0x811c_9dc5;
    let mut k: usize = 0;
    while k < bytes.len()
        invariant
            k <= bytes.len(),
            h == fnv1a_spec(bytes@.take(k as int)),
        decreases bytes.len() - k,
    {
        let b = bytes[k];
        proof {
            assert(bytes@.take(k + 1).drop_last() =~= bytes@.take(k as int));
        }
        h ^= b as u32;
        h = h.wrapping_mul(0x0100_0193);
        k += 1;
    }
    assert(bytes@.take(k as int) =~= bytes@);
    h
}

/// The identity string kept from one host answer: the first `status` bytes
/// when `0 < status <= ID_CAP`, else the fallback cut to `ID_CAP` bytes.
pub open spec fn resolved_spec(status: i32, bytes: Seq<u8>, fallback: Seq<u8>) -> Seq<u8> {
    if 0 < status && status <= ID_CAP {
        bytes.take(status as int)
    } else if fallback.len() < ID_CAP {
        fallback
    } else {
        fallback.take(ID_CAP as int)
    }
}

/// Keeps the host's answer when it is a length in range, else writes the
/// fallback, cut to `ID_CAP` bytes, over the buffer.
fn resolve_one(answer: &HostString, fallback: &[u8]) -> (r: IdText)
    ensures
        r@ == resolved_spec(answer.status, answer.bytes@, fallback@),
        r@.len() <= ID_CAP,
{
    let n = answer.status;
    let mut bytes = answer.bytes;
    if n > 0 && (n as usize) <= ID_CAP {
        let r = IdText { bytes, len: n as usize };
        assert(r@ =~= resolved_spec(answer.status, answer.bytes@, fallback@));
        return r;
    }
    let l: usize = if fallback.len() < ID_CAP {
        fallback.len()
    } else {
        ID_CAP
    };
    let mut k: usize = 0;
    while k < l
        invariant
            l <= fallback@.len(),
            l <= ID_CAP,
            bytes@.len() == ID_CAP,
            k <= l,
            bytes@.take(k as int) == fallback@.take(k as int),
        decreases l - k,
    {
        bytes[k] = fallback[k];
        k += 1;
        assert(bytes@.take(k as int) =~= fallback@.take(k as int));
    }
    let r = IdText { bytes, len: l };
    if fallback.len() < ID_CAP {
        assert(fallback@.take(l as int) =~= fallback@);
    }
    r
}

/// The identity resolved from the four host answers, with the fallbacks
/// "unknown_device", "unknown_type", "unknown_os" and "unknown"; node_id is
/// the FNV-1a hash of the device name.
pub open spec fn identity_spec(
    device: HostString,
    dev_type: HostString,
    os: HostString,
    transport: HostString,
) -> (Seq<u8>, Seq<u8>, Seq<u8>, Seq<u8>, u32) {
    let d = resolved_spec(device.status, device.bytes@, "unknown_device".spec_bytes());
    (
        d,
        resolved_spec(dev_type.status, dev_type.bytes@, "unknown_type".spec_bytes()),
        resolved_spec(os.status, os.bytes@, "unknown_os".spec_bytes()),
        resolved_spec(transport.status, transport.bytes@, "unknown".spec_bytes()),
        fnv1a_spec(d),
    )
}

/// Builds the identity from what the host answered to the four queries,
/// then derives node_id.
pub fn resolve(device: &HostString, dev_type: &HostString, os: &HostString, transport: &HostString) -> (id: Identity)
    ensures
        (id.device@, id.dev_type@, id.os@, id.transport@, id.node_id) == identity_spec(
            *device,
            *dev_type,
            *os,
            *transport,
        ),
        id.device@.len() <= ID_CAP,
        id.dev_type@.len() <= ID_CAP,
        id.os@.len() <= ID_CAP,
        id.transport@.len() <= ID_CAP,
{
    let d = resolve_one(device, "unknown_device".as_bytes());
    let t = resolve_one(dev_type, "unknown_type".as_bytes());
    let o = resolve_one(os, "unknown_os".as_bytes());
    let tr = resolve_one(transport, "unknown".as_bytes());
    let node_id = fnv1a(d.as_bytes());
    Identity { device: d, dev_type: t, os: o, transport: tr, node_id }
}

pub fn device(id: &Identity) -> (s: &[u8])
    ensures
        s@ == id.device@,
{
    id.device.as_bytes()
}

pub fn dev_type(id: &Identity) -> (s: &[u8])
    ensures
        s@ == id.dev_type@,
{
    id.dev_type.as_bytes()
}

pub fn os(id: &Identity) -> (s: &[u8])
    ensures
        s@ == id.os@,
{
    id.os.as_bytes()
}

pub fn transport(id: &Identity) -> (s: &[u8])
    ensures
        s@ == id.transport@,
{
    id.transport.as_bytes()
}

pub fn node_id(id: &Identity) -> (n: u32)
    ensures
        n == id.node_id,
{
    id.node_id
}

/// A host answer in range is kept as the first `status` bytes of the host's
/// buffer; any other answer gives the fallback, cut to ID_CAP bytes.
pub proof fn lemma_resolved_text(status: i32, bytes: Seq<u8>, fallback: Seq<u8>)
    requires
        bytes.len() == ID_CAP,
    ensures
        0 < status <= ID_CAP ==> resolved_spec(status, bytes, fallback).len() == status
            && forall|j: int| 0 <= j < status ==> #[trigger] resolved_spec(status, bytes, fallback)[j]
            == bytes[j],
        !(0 < status <= ID_CAP) ==> resolved_spec(status, bytes, fallback).len() == (if fallback.len()
            < ID_CAP {
            fallback.len()
        } else {
            ID_CAP as nat
        }) && forall|j: int|
            0 <= j < resolved_spec(status, bytes, fallback).len() ==> #[trigger] resolved_spec(
                status,
                bytes,
                fallback,
            )[j] == fallback[j],
{
}

} // verus!
