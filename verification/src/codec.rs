//! Length-prefixed framing over a raw byte stream.
//!
//! A frame on the wire is a 2-byte length prefix followed by exactly that
//! many payload bytes.  The prefix is written and read low byte first; both
//! ends of a tunnel must agree on that order, so it is fixed here rather
//! than left to whatever the machine's native order happens to be.  The
//! receive side accumulates partial deliveries in an [`RxBuffer`] and
//! yields every complete frame as soon as its last byte has arrived; the
//! residual tail persists across calls.

use vstd::prelude::*;
use bytes::BytesMut;
use crate::error::VpnError;

verus! {

/// Byte length of the frame length prefix.
pub const PREFIX_SIZE: usize = 2;

/// Largest payload a single frame can carry: the prefix is 16 bits wide.
pub const MAX_FRAME_SIZE: usize = 65535;

#[verifier::external_type_specification]
#[verifier::external_body]
pub struct ExBytesMut(BytesMut);

/// The bytes a `BytesMut` currently holds, front to back.
pub uninterp spec fn bytes_view(b: BytesMut) -> Seq<u8>;

/// Relies on `bytes::BytesMut::with_capacity`: the returned buffer holds no
/// bytes, whatever capacity was reserved.
#[verifier::external_body]
fn buf_with_capacity(cap: usize) -> (b: BytesMut)
    ensures
        bytes_view(b) == Seq::<u8>::empty(),
{
    BytesMut::with_capacity(cap)
}

/// Relies on `bytes::BytesMut::len`: the number of bytes held.
#[verifier::external_body]
fn buf_len(b: &BytesMut) -> (n: usize)
    ensures
        n == bytes_view(*b).len(),
{
    b.len()
}

/// Relies on `bytes::BytesMut::extend_from_slice`: appends the slice at the
/// back of the buffer.
#[verifier::external_body]
fn buf_extend(b: &mut BytesMut, v: &[u8])
    ensures
        bytes_view(*final(b)) == bytes_view(*old(b)) + v@,
{
    b.extend_from_slice(v);
}

/// Relies on `<bytes::BytesMut as bytes::Buf>::advance`: drops the first
/// `n` bytes; panics if `n` exceeds the length, which the precondition
/// rules out.
#[verifier::external_body]
fn buf_advance(b: &mut BytesMut, n: usize)
    requires
        n <= bytes_view(*old(b)).len(),
    ensures
        bytes_view(*final(b)) == bytes_view(*old(b)).skip(n as int),
{
    bytes::Buf::advance(b, n);
}

/// Relies on `bytes::BytesMut::split_to`: removes and returns the first `n`
/// bytes; panics if `n` exceeds the length, which the precondition rules out.
#[verifier::external_body]
fn buf_split_to_vec(b: &mut BytesMut, n: usize) -> (r: Vec<u8>)
    requires
        n <= bytes_view(*old(b)).len(),
    ensures
        r@ == bytes_view(*old(b)).subrange(0, n as int),
        bytes_view(*final(b)) == bytes_view(*old(b)).skip(n as int),
{
    let part = b.split_to(n);
    part.as_ref().to_vec()
}

/// Relies on `<bytes::BytesMut as AsRef<[u8]>>::as_ref`: the full contents
/// as a slice.
#[verifier::external_body]
fn buf_slice(b: &BytesMut) -> (s: &[u8])
    ensures
        s@ == bytes_view(*b),
{
    b.as_ref()
}

/// The length encoded by a two-byte prefix, low byte first.
pub open spec fn prefix_val(lo: u8, hi: u8) -> int {
    lo + 256 * hi
}

/// The wire form of one frame: length prefix, then the payload.
pub open spec fn encode_spec(p: Seq<u8>) -> Seq<u8>
    recommends
        p.len() < 65536,
{
    seq![(p.len() % 256) as u8, (p.len() / 256) as u8] + p
}

/// One full decoding pass over a byte sequence: the complete frames it
/// holds, in order, and the residual tail that is not yet a complete frame.
pub open spec fn decode_state(s: Seq<u8>) -> (Seq<Seq<u8>>, Seq<u8>)
    decreases s.len(),
{
    if s.len() < 2 {
        (Seq::<Seq<u8>>::empty(), s)
    } else {
        let l = prefix_val(s[0], s[1]);
        if s.len() < 2 + l {
            (Seq::<Seq<u8>>::empty(), s)
        } else {
            let rest = decode_state(s.skip(2 + l));
            (seq![s.subrange(2, 2 + l)] + rest.0, rest.1)
        }
    }
}

/// The views of a sequence of byte vectors.
pub open spec fn seq_views(s: Seq<Vec<u8>>) -> Seq<Seq<u8>> {
    Seq::new(s.len(), |i: int| s[i]@)
}

/// Accumulates raw bytes between decode passes; owns only the unconsumed
/// residual tail.
pub struct RxBuffer {
    inner: BytesMut,
}

impl View for RxBuffer {
    type V = Seq<u8>;

    closed spec fn view(&self) -> Seq<u8> {
        bytes_view(self.inner)
    }
}

impl Default for RxBuffer {
    /// An empty buffer with room for a couple of maximal frames.
    fn default() -> (r: Self)
        ensures
            r@ == Seq::<u8>::empty(),
    {
        RxBuffer { inner: buf_with_capacity(2 * (PREFIX_SIZE + MAX_FRAME_SIZE)) }
    }
}

impl RxBuffer {
    /// Appends a received chunk and drains every frame that is now complete,
    /// in order; the residual tail stays buffered for the next call.
    pub fn process(&mut self, received: Vec<u8>) -> (out: Vec<Vec<u8>>)
        ensures
            seq_views(out@) == decode_state(old(self)@ + received@).0,
            final(self)@ == decode_state(old(self)@ + received@).1,
    {
        buf_extend(&mut self.inner, received.as_slice());
        let ghost init: Seq<u8> = self@;
        let mut out: Vec<Vec<u8>> = Vec::new();
        proof {
            assert(seq_views(out@) =~= Seq::<Seq<u8>>::empty());
        }
        loop
            invariant_except_break
                decode_state(init).0 == seq_views(out@) + decode_state(self@).0,
                decode_state(init).1 == decode_state(self@).1,
            ensures
                decode_state(init).0 == seq_views(out@),
                decode_state(init).1 == self@,
            decreases self@.len(),
        {
            let n = buf_len(&self.inner);
            if n < PREFIX_SIZE {
                proof {
                    assert(decode_state(self@).0 =~= Seq::<Seq<u8>>::empty());
                }
                break;
            }
            let s = buf_slice(&self.inner);
            let lo = s[0];
            let hi = s[1];
            let len: u16 = lo as u16 + 256 * (hi as u16);
            proof {
                assert(len == prefix_val(self@[0], self@[1]));
            }
            let ghost before: Seq<u8> = self@;
            match take_next(self, len) {
                Some(payload) => {
                    proof {
                        assert(decode_state(before) == (
                            seq![before.subrange(2, 2 + len)] + decode_state(self@).0,
                            decode_state(self@).1,
                        ));
                        assert(payload@ == before.subrange(2, 2 + len));
                    }
                    let ghost out_before: Seq<Vec<u8>> = out@;
                    out.push(payload);
                    proof {
                        assert(seq_views(out@) =~= seq_views(out_before) + seq![before.subrange(
                            2,
                            2 + len,
                        )]);
                    }
                },
                None => {
                    proof {
                        assert(decode_state(self@).0 =~= Seq::<Seq<u8>>::empty());
                    }
                    break;
                },
            }
        }
        out
    }
}

/// Reads the length prefix at the front of `src`, if two bytes are buffered.
pub fn read_prefix(src: &[u8]) -> (r: Option<u16>)
    ensures
        src@.len() < 2 ==> r is None,
        src@.len() >= 2 ==> (r matches Some(l) && l == prefix_val(src@[0], src@[1])),
{
    if src.len() < PREFIX_SIZE {
        return None;
    }
    let lo = src[0];
    let hi = src[1];
    Some(lo as u16 + 256 * (hi as u16))
}

/// Removes one complete frame of payload length `len` from the front of the
/// buffer, prefix included; leaves the buffer untouched (the prefix too) when
/// fewer bytes than a whole frame are buffered, so that a retry sees the same
/// prefix.
pub fn take_next(src: &mut RxBuffer, len: u16) -> (r: Option<Vec<u8>>)
    ensures
        2 + len <= old(src)@.len() ==> (r matches Some(p) && p@ == old(src)@.subrange(
            2,
            2 + len as int,
        ) && final(src)@ == old(src)@.skip(2 + len as int)),
        2 + len > old(src)@.len() ==> (r is None && final(src)@ == old(src)@),
{
    let l: usize = len as usize;
    let p_len: usize = PREFIX_SIZE + l;
    let n = buf_len(&src.inner);
    if n >= p_len {
        let ghost before: Seq<u8> = bytes_view(src.inner);
        buf_advance(&mut src.inner, PREFIX_SIZE);
        let part = buf_split_to_vec(&mut src.inner, l);
        proof {
            assert(part@ =~= before.subrange(2, 2 + len as int));
            assert(bytes_view(src.inner) =~= before.skip(2 + len as int));
        }
        Some(part)
    } else {
        None
    }
}

/// Frames a payload in place: the two-byte length prefix is put in front of
/// the bytes already in `dst`.
pub fn write_prefix(dst: &mut Vec<u8>)
    requires
        old(dst)@.len() <= MAX_FRAME_SIZE,
    ensures
        final(dst)@ == encode_spec(old(dst)@),
{
    let n = dst.len();
    let mut out: Vec<u8> = Vec::new();
    out.push((n % 256) as u8);
    out.push((n / 256) as u8);
    out.append(dst);
    proof {
        assert(out@ =~= encode_spec(old(dst)@));
    }
    *dst = out;
}

/// Frames one payload for the wire; payloads that cannot fit the 16-bit
/// length prefix are refused.
pub fn encode(payload: &[u8]) -> (r: Result<Vec<u8>, VpnError>)
    ensures
        payload@.len() <= MAX_FRAME_SIZE <==> r is Ok,
        r matches Ok(v) ==> v@ == encode_spec(payload@),
        r matches Err(e) ==> e == VpnError::FrameTooLarge,
{
    if payload.len() > MAX_FRAME_SIZE {
        return Err(VpnError::FrameTooLarge);
    }
    let mut v = vstd::slice::slice_to_vec(payload);
    write_prefix(&mut v);
    Ok(v)
}

/// Feeding chunks one by one into a decoder whose residual starts as
/// `residual`: the frames every pass yields, in order, and the final
/// residual.
pub open spec fn feed(residual: Seq<u8>, chunks: Seq<Seq<u8>>) -> (Seq<Seq<u8>>, Seq<u8>)
    decreases chunks.len(),
{
    if chunks.len() == 0 {
        (Seq::<Seq<u8>>::empty(), residual)
    } else {
        let d = decode_state(residual + chunks.first());
        let r = feed(d.1, chunks.drop_first());
        (d.0 + r.0, r.1)
    }
}

/// The codec round trip: a decoding pass over the wire form of one payload
/// yields exactly that payload and leaves nothing buffered.
pub proof fn lemma_round_trip(p: Seq<u8>)
    requires
        p.len() <= MAX_FRAME_SIZE,
    ensures
        decode_state(encode_spec(p)).0 == seq![p],
        decode_state(encode_spec(p)).1 == Seq::<u8>::empty(),
{
    let e = encode_spec(p);
    let n = p.len() as int;
    assert(e.len() == 2 + n);
    assert(e[0] == (p.len() % 256) as u8);
    assert(e[1] == (p.len() / 256) as u8);
    assert(0 <= n % 256 < 256 && 0 <= n / 256 < 256);
    assert(e[0] as int == n % 256);
    assert(e[1] as int == n / 256);
    vstd::arithmetic::div_mod::lemma_fundamental_div_mod(n, 256);
    assert(prefix_val(e[0], e[1]) == n);
    assert(e.subrange(2, 2 + n) =~= p);
    assert(e.skip(2 + n) =~= Seq::<u8>::empty());
    assert(decode_state(Seq::<u8>::empty()).0 == Seq::<Seq<u8>>::empty());
    assert(decode_state(Seq::<u8>::empty()).1 == Seq::<u8>::empty());
    assert(decode_state(e).0 == seq![e.subrange(2, 2 + n)] + decode_state(e.skip(2 + n)).0);
    assert(decode_state(e).1 == decode_state(e.skip(2 + n)).1);
    assert(decode_state(e).0 =~= seq![p]);
}

/// A decoding pass is exhaustive: its residual holds no complete frame, so a
/// further pass over the residual alone yields nothing and keeps it as it is.
pub proof fn lemma_residual_holds_no_frame(s: Seq<u8>)
    ensures
        decode_state(decode_state(s).1).0 == Seq::<Seq<u8>>::empty(),
        decode_state(decode_state(s).1).1 == decode_state(s).1,
    decreases s.len(),
{
    if s.len() < 2 {
    } else {
        let l = prefix_val(s[0], s[1]);
        if s.len() < 2 + l {
        } else {
            lemma_residual_holds_no_frame(s.skip(2 + l));
        }
    }
}

/// Decoding is incremental: a pass over `s + t` yields first what a pass
/// over `s` yields, then what a pass over `s`'s residual extended by `t`
/// yields, with the same final residual.
pub proof fn lemma_decode_append(s: Seq<u8>, t: Seq<u8>)
    ensures
        decode_state(s + t).0 == decode_state(s).0 + decode_state(decode_state(s).1 + t).0,
        decode_state(s + t).1 == decode_state(decode_state(s).1 + t).1,
    decreases s.len(),
{
    let st = s + t;
    if s.len() < 2 {
        assert(decode_state(s).1 + t =~= st);
        assert(decode_state(s).0 + decode_state(st).0 =~= decode_state(st).0);
    } else {
        let l = prefix_val(s[0], s[1]);
        if s.len() < 2 + l {
            assert(decode_state(s).1 + t =~= st);
            assert(decode_state(s).0 + decode_state(st).0 =~= decode_state(st).0);
        } else {
            let s1 = s.skip(2 + l);
            assert(st.len() >= 2 + l);
            assert(st[0] == s[0] && st[1] == s[1]);
            assert(st.subrange(2, 2 + l) =~= s.subrange(2, 2 + l));
            assert(st.skip(2 + l) =~= s1 + t);
            lemma_decode_append(s1, t);
            assert(decode_state(s).1 == decode_state(s1).1);
            assert(decode_state(st).0 =~= seq![s.subrange(2, 2 + l)] + decode_state(s1 + t).0);
            assert(decode_state(s).0 + decode_state(decode_state(s).1 + t).0 =~= seq![s.subrange(
                2,
                2 + l,
            )] + (decode_state(s1).0 + decode_state(decode_state(s1).1 + t).0));
            assert(decode_state(st).0 =~= decode_state(s).0 + decode_state(
                decode_state(s).1 + t,
            ).0);
        }
    }
}

/// The round trip survives any chunking: the wire form of one payload,
/// split into chunks of whatever sizes and fed in order into a fresh
/// decoder, yields exactly that payload and leaves nothing buffered.
pub proof fn lemma_round_trip_chunked(p: Seq<u8>, chunks: Seq<Seq<u8>>)
    requires
        p.len() <= MAX_FRAME_SIZE,
        chunks.flatten() == encode_spec(p),
    ensures
        feed(Seq::<u8>::empty(), chunks).0 == seq![p],
        feed(Seq::<u8>::empty(), chunks).1 == Seq::<u8>::empty(),
{
    let empty = Seq::<u8>::empty();
    lemma_feed_equals_whole(empty, chunks);
    assert(empty + chunks.flatten() =~= encode_spec(p));
    lemma_round_trip(p);
}

/// Chunking does not matter: starting from a residual that holds no complete
/// frame — as every residual a decoding pass leaves behind does — feeding a
/// byte stream in any chunks, in order, yields the same frames and the same
/// residual as one pass over the whole stream appended to that residual.
pub proof fn lemma_feed_equals_whole(residual: Seq<u8>, chunks: Seq<Seq<u8>>)
    requires
        decode_state(residual).0 == Seq::<Seq<u8>>::empty(),
        decode_state(residual).1 == residual,
    ensures
        feed(residual, chunks).0 == decode_state(residual + chunks.flatten()).0,
        feed(residual, chunks).1 == decode_state(residual + chunks.flatten()).1,
    decreases chunks.len(),
{
    if chunks.len() == 0 {
        assert(residual + chunks.flatten() =~= residual);
    } else {
        let c0 = chunks.first();
        let rest = chunks.drop_first();
        let d = decode_state(residual + c0);
        lemma_residual_holds_no_frame(residual + c0);
        lemma_feed_equals_whole(d.1, rest);
        lemma_decode_append(residual + c0, rest.flatten());
        assert(chunks.flatten() == c0 + rest.flatten());
        assert((residual + c0) + rest.flatten() =~= residual + chunks.flatten());
        assert(feed(residual, chunks).0 == d.0 + feed(d.1, rest).0);
        assert(feed(d.1, rest).0 == decode_state(d.1 + rest.flatten()).0);
        assert(decode_state((residual + c0) + rest.flatten()).0 == d.0 + decode_state(
            d.1 + rest.flatten(),
        ).0);
        assert(residual + chunks.flatten() == (residual + c0) + rest.flatten());
        assert(feed(residual, chunks).0 == decode_state(residual + chunks.flatten()).0);
        assert(feed(residual, chunks).1 == decode_state(residual + chunks.flatten()).1);
    }
}

} // verus!
