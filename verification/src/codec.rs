//! Binary wire protocol for the sync handshake.
//!
//! A frame is a tagged union `{SyncStep1(state_vector), SyncStep2(update),
//! Update(update)}` encoded with the scheme the peers agree on: variable-length
//! unsigned integers (seven value bits per byte, least-significant group first,
//! high bit set on every byte but the last) and length-prefixed byte buffers.
//! Receivers ignore frames with unrecognized tags instead of erroring, which
//! keeps the protocol forward-compatible.

use vstd::prelude::*;

verus! {

/// A decoded protocol frame. `Other` stands for every well-tagged message this
/// engine does not act on (awareness, auth, unknown extensions).
pub enum Frame<T> {
    SyncStep1(T),
    SyncStep2(T),
    Update(T),
    Other,
}

impl Frame<Vec<u8>> {
    /// The mathematical value of a decoded frame: the same tag over the
    /// payload's byte sequence.
    pub open spec fn view(&self) -> Frame<Seq<u8>> {
        match self {
            Frame::SyncStep1(p) => Frame::SyncStep1(p@),
            Frame::SyncStep2(p) => Frame::SyncStep2(p@),
            Frame::Update(p) => Frame::Update(p@),
            Frame::Other => Frame::Other,
        }
    }
}

/// Variable-length encoding of an unsigned integer: seven bits per byte,
/// least-significant group first, high bit marking a continuation.
pub open spec fn varint(n: nat) -> Seq<u8>
    decreases n,
{
    if n < 128 {
        seq![n as u8]
    } else {
        seq![(128 + n % 128) as u8] + varint(n / 128)
    }
}

/// A length-prefixed byte buffer.
pub open spec fn length_prefixed(payload: Seq<u8>) -> Seq<u8> {
    varint(payload.len()) + payload
}

/// Top-level tag of every synchronization message.
pub open spec fn sync_tag() -> nat {
    0
}

/// Encoding of one synchronization frame: the sync tag, the sub-tag, then the
/// length-prefixed payload.
pub open spec fn sync_frame(subtag: nat, payload: Seq<u8>) -> Seq<u8> {
    varint(sync_tag()) + varint(subtag) + length_prefixed(payload)
}

/// Bytes of a `SyncStep1` frame carrying a state vector.
pub open spec fn spec_sync_step1_frame(sv: Seq<u8>) -> Seq<u8> {
    sync_frame(0, sv)
}

/// Bytes of a `SyncStep2` frame carrying an update.
pub open spec fn spec_sync_step2_frame(update: Seq<u8>) -> Seq<u8> {
    sync_frame(1, update)
}

/// Bytes of an `Update` frame carrying an update.
pub open spec fn spec_update_frame(update: Seq<u8>) -> Seq<u8> {
    sync_frame(2, update)
}

/// Parse one variable-length integer starting at `pos`; on success yield the
/// value and the position just past it. A value that cannot be spelled in 64
/// bits is rejected, as the peers' decoders reject it.
pub open spec fn spec_decode_var(d: Seq<u8>, pos: nat) -> Option<(nat, nat)>
    decreases d.len() - pos,
{
    if pos >= d.len() {
        None
    } else {
        let b = d[pos as int];
        if b < 128 {
            Some((b as nat, (pos + 1) as nat))
        } else {
            match spec_decode_var(d, pos + 1) {
                None => None,
                Some((v, p)) => if (b - 128) + 128 * v <= u64::MAX {
                    Some((((b - 128) + 128 * v) as nat, p))
                } else {
                    None
                },
            }
        }
    }
}

/// Parse one length-prefixed buffer starting at `pos`.
pub open spec fn spec_decode_buf(d: Seq<u8>, pos: nat) -> Option<(Seq<u8>, nat)> {
    match spec_decode_var(d, pos) {
        None => None,
        Some((n, p)) => if p + n <= d.len() {
            Some((d.subrange(p as int, (p + n) as int), (p + n) as nat))
        } else {
            None
        },
    }
}

/// Parse one frame from the start of a binary message. `None` is a malformed
/// frame (truncated integer or buffer); `Some(Frame::Other)` is a well-formed
/// message this engine ignores. Trailing bytes are ignored.
pub open spec fn spec_decode_frame(d: Seq<u8>) -> Option<Frame<Seq<u8>>> {
    match spec_decode_var(d, 0) {
        None => None,
        Some((tag, p)) => if tag != sync_tag() {
            Some(Frame::Other)
        } else {
            match spec_decode_var(d, p) {
                None => None,
                Some((subtag, p2)) => match spec_decode_buf(d, p2) {
                    None => None,
                    Some((payload, _end)) => if subtag == 0 {
                        Some(Frame::SyncStep1(payload))
                    } else if subtag == 1 {
                        Some(Frame::SyncStep2(payload))
                    } else if subtag == 2 {
                        Some(Frame::Update(payload))
                    } else {
                        Some(Frame::Other)
                    },
                },
            }
        },
    }
}

/// Append the variable-length encoding of `n` to `out`.
pub fn encode_var(out: &mut Vec<u8>, n: u64)
    ensures
        final(out)@ == old(out)@ + varint(n as nat),
{
    let mut value: u64 = n;
    while value >= 128
        invariant
            out@ + varint(value as nat) == old(out)@ + varint(n as nat),
        decreases value,
    {
        let b: u8 = (value % 128) as u8 + 128;
        proof {
            assert(out@.push(b) + varint((value / 128) as nat) == out@ + varint(value as nat));
        }
        out.push(b);
        value = value / 128;
    }
    proof {
        assert(out@.push(value as u8) == out@ + varint(value as nat));
    }
    out.push(value as u8);
}

/// Append all of `data` to `out`.
pub fn push_bytes(out: &mut Vec<u8>, data: &Vec<u8>)
    ensures
        final(out)@ == old(out)@ + data@,
{
    let mut i: usize = 0;
    while i < data.len()
        invariant
            i <= data.len(),
            out@ == old(out)@ + data@.subrange(0, i as int),
        decreases data.len() - i,
    {
        out.push(data[i]);
        i = i + 1;
        proof {
            assert(out@ =~= old(out)@ + data@.subrange(0, i as int));
        }
    }
    proof {
        assert(out@ =~= old(out)@ + data@);
    }
}

fn encode_sync(subtag: u64, payload: &Vec<u8>) -> (r: Vec<u8>)
    requires
        subtag < 128,
    ensures
        r@ == sync_frame(subtag as nat, payload@),
{
    let mut out: Vec<u8> = Vec::new();
    encode_var(&mut out, 0);
    encode_var(&mut out, subtag);
    encode_var(&mut out, payload.len() as u64);
    push_bytes(&mut out, payload);
    proof {
        assert(out@ =~= sync_frame(subtag as nat, payload@));
    }
    out
}

/// Build the handshake-initiation frame: `SyncStep1` carrying a state vector.
pub fn encode_sync_step1(sv: &Vec<u8>) -> (r: Vec<u8>)
    ensures
        r@ == spec_sync_step1_frame(sv@),
{
    encode_sync(0, sv)
}

/// Build a `SyncStep2` frame carrying a catch-up update.
pub fn encode_sync_step2(update: &Vec<u8>) -> (r: Vec<u8>)
    ensures
        r@ == spec_sync_step2_frame(update@),
{
    encode_sync(1, update)
}

/// Build an `Update` frame carrying one incremental delta.
pub fn encode_update_frame(update: &Vec<u8>) -> (r: Vec<u8>)
    ensures
        r@ == spec_update_frame(update@),
{
    encode_sync(2, update)
}

/// Every position a successful parse returns stays within the buffer and makes
/// progress.
pub proof fn lemma_decode_var_pos(d: Seq<u8>, pos: nat)
    requires
        spec_decode_var(d, pos) is Some,
    ensures
        pos < spec_decode_var(d, pos)->Some_0.1 <= d.len(),
    decreases d.len() - pos,
{
    if pos < d.len() && d[pos as int] >= 128 {
        lemma_decode_var_pos(d, pos + 1);
    }
}

fn decode_var_at(d: &Vec<u8>, pos: usize) -> (r: Option<(u64, usize)>)
    ensures
        match spec_decode_var(d@, pos as nat) {
            None => r is None,
            Some((v, p)) => r == Some((v as u64, p as usize)),
        },
    decreases d.len() - pos,
{
    if pos >= d.len() {
        return None;
    }
    let b = d[pos];
    if b < 128 {
        Some((b as u64, pos + 1))
    } else {
        proof {
            if spec_decode_var(d@, pos as nat + 1) is Some {
                lemma_decode_var_pos(d@, pos as nat + 1);
                lemma_decode_var_value_fits(d@, pos as nat + 1);
            }
        }
        match decode_var_at(d, pos + 1) {
            None => None,
            Some((v, p)) => {
                let low: u64 = (b - 128) as u64;
                if v <= (u64::MAX - low) / 128 {
                    proof {
                        assert(low + 128 * v <= u64::MAX) by (nonlinear_arith)
                            requires
                                v <= (u64::MAX - low) / 128,
                                low < 128,
                        ;
                    }
                    Some((low + 128 * v, p))
                } else {
                    proof {
                        assert(low + 128 * v > u64::MAX) by (nonlinear_arith)
                            requires
                                v > (u64::MAX - low) / 128,
                                low < 128,
                        ;
                    }
                    None
                }
            },
        }
    }
}

/// Every value the specification parser accepts fits in 64 bits.
proof fn lemma_decode_var_value_fits(d: Seq<u8>, pos: nat)
    requires
        spec_decode_var(d, pos) is Some,
    ensures
        spec_decode_var(d, pos)->Some_0.0 <= u64::MAX,
    decreases d.len() - pos,
{
}

/// Parse one frame from a received binary message. Returns `None` for a
/// malformed frame and `Some(Frame::Other)` for a message to be ignored,
/// exactly as `spec_decode_frame` describes.
pub fn decode_frame(d: &Vec<u8>) -> (r: Option<Frame<Vec<u8>>>)
    ensures
        match r {
            None => spec_decode_frame(d@) is None,
            Some(f) => spec_decode_frame(d@) == Some(f@),
        },
{
    let dlen = d.len();
    let (tag, p) = match decode_var_at(d, 0) {
        None => {
            return None;
        },
        Some(tp) => tp,
    };
    proof {
        lemma_decode_var_pos(d@, 0);
    }
    if tag != 0 {
        return Some(Frame::Other);
    }
    let (subtag, p2) = match decode_var_at(d, p) {
        None => {
            return None;
        },
        Some(sp) => sp,
    };
    proof {
        lemma_decode_var_pos(d@, p as nat);
    }
    let (len, p3) = match decode_var_at(d, p2) {
        None => {
            return None;
        },
        Some(lp) => lp,
    };
    proof {
        lemma_decode_var_pos(d@, p2 as nat);
    }
    if len > (dlen - p3) as u64 {
        return None;
    }
    let len: usize = len as usize;
    let mut payload: Vec<u8> = Vec::new();
    let mut i: usize = 0;
    while i < len
        invariant
            i <= len,
            p3 + len <= d@.len(),
            d@.len() <= usize::MAX,
            payload@ == d@.subrange(p3 as int, p3 + i as int),
        decreases len - i,
    {
        payload.push(d[p3 + i]);
        i = i + 1;
        proof {
            assert(payload@ =~= d@.subrange(p3 as int, p3 + i as int));
        }
    }
    if subtag == 0 {
        Some(Frame::SyncStep1(payload))
    } else if subtag == 1 {
        Some(Frame::SyncStep2(payload))
    } else if subtag == 2 {
        Some(Frame::Update(payload))
    } else {
        Some(Frame::Other)
    }
}

/// Decoding inverts encoding: a varint written at `pos` parses back to the
/// value written, leaving the cursor just past it.
pub proof fn lemma_varint_roundtrip(d: Seq<u8>, pos: nat, n: nat)
    requires
        n <= u64::MAX,
        pos + varint(n).len() <= d.len(),
        d.subrange(pos as int, pos + varint(n).len() as int) == varint(n),
    ensures
        spec_decode_var(d, pos) == Some((n, (pos + varint(n).len()) as nat)),
    decreases n,
{
    if n < 128 {
        assert(d[pos as int] == varint(n)[0]);
    } else {
        assert(d[pos as int] == varint(n)[0]);
        let rest = varint(n / 128);
        assert(d.subrange(pos as int + 1, pos as int + 1 + rest.len() as int) =~= rest) by {
            assert(forall|i: int|
                0 <= i < rest.len() ==> d.subrange(pos as int, pos + varint(n).len() as int)[i + 1]
                    == #[trigger] rest[i]);
        }
        lemma_varint_roundtrip(d, pos + 1, n / 128);
    }
}

/// Decoding inverts encoding for whole frames: each constructor's bytes parse
/// back to the same tag and payload.
pub proof fn lemma_frame_roundtrip(subtag: nat, payload: Seq<u8>)
    requires
        subtag < 3,
        payload.len() <= u64::MAX,
    ensures
        spec_decode_frame(sync_frame(subtag, payload)) == Some(
            if subtag == 0 {
                Frame::SyncStep1(payload)
            } else if subtag == 1 {
                Frame::SyncStep2(payload)
            } else {
                Frame::Update(payload)
            },
        ),
{
    let d = sync_frame(subtag, payload);
    let t0 = varint(sync_tag());
    let t1 = varint(subtag);
    let t2 = varint(payload.len());
    assert(d =~= t0 + t1 + t2 + payload) by {
        assert(d == t0 + t1 + (t2 + payload));
    }
    assert(t0 == seq![0u8]);
    assert(t1.len() == 1 && t2.len() >= 1);
    assert(d.subrange(0, t0.len() as int) =~= t0);
    lemma_varint_roundtrip(d, 0, sync_tag());
    assert(d.subrange(1, 1 + t1.len() as int) =~= t1);
    lemma_varint_roundtrip(d, 1, subtag);
    let p2 = 1 + t1.len();
    assert(d.subrange(p2 as int, p2 + t2.len() as int) =~= t2);
    lemma_varint_roundtrip(d, p2 as nat, payload.len());
    let p3 = p2 + t2.len();
    assert(d.subrange(p3 as int, p3 + payload.len() as int) =~= payload);
}

} // verus!
