//! Framing over a byte stream: a read buffer that yields complete
//! payloads and a write buffer that tolerates partial writes.
//!
//! Every frame on the wire is a four-byte little-endian length followed by
//! exactly that many payload bytes; the length never counts itself. The
//! read path never blocks on an incomplete frame and never misreads one:
//! until the advertised bytes have arrived it yields nothing and keeps the
//! buffer intact.

use vstd::prelude::*;
use crate::codec::{enc_u32, lemma_rd_u32, rd_u32, take_raw, take_u32};
use crate::protocol::{
    enc_cpkt, enc_spkt, encode_client, encode_server, wf_cpkt, wf_spkt, ClientPacket, ServerPacket,
};
use crate::Error;

verus! {

/// The length a buffered prefix advertises for its first frame.
pub open spec fn frame_len(s: Seq<u8>) -> int
    recommends
        s.len() >= 4,
{
    rd_u32(s, 0) as int
}

/// A complete frame is buffered: the length prefix and all the payload
/// bytes it advertises.
pub open spec fn frame_ready(s: Seq<u8>) -> bool {
    s.len() >= 4 && s.len() >= 4 + frame_len(s)
}

/// The bytes of one frame: the payload's length, then the payload.
pub open spec fn enc_frame(payload: Seq<u8>) -> Seq<u8>
    recommends
        payload.len() <= u32::MAX,
{
    enc_u32(payload.len() as u32) + payload
}

/// The complete frames a buffer holds, in order.
pub open spec fn frames_of(s: Seq<u8>) -> Seq<Seq<u8>>
    decreases s.len(),
{
    if frame_ready(s) {
        seq![s.subrange(4, 4 + frame_len(s))] + frames_of(s.skip(4 + frame_len(s)))
    } else {
        Seq::empty()
    }
}

/// What stays buffered once every complete frame is consumed: the bytes
/// of a frame still in flight.
pub open spec fn residue(s: Seq<u8>) -> Seq<u8>
    decreases s.len(),
{
    if frame_ready(s) {
        residue(s.skip(4 + frame_len(s)))
    } else {
        s
    }
}

/// A truncated buffer — the length prefix present, the payload short by
/// at least one byte — is never a frame: the reader waits for more data
/// instead of misreading it.
pub proof fn lemma_truncated_frame_waits(payload: Seq<u8>, k: int)
    requires
        payload.len() <= u32::MAX,
        0 <= k < payload.len(),
    ensures
        !frame_ready(enc_frame(payload).take(4 + k)),
{
    let s = enc_frame(payload).take(4 + k);
    assert(s.subrange(0, 4) =~= enc_u32(payload.len() as u32));
    lemma_rd_u32(s, 0, payload.len() as u32);
}

/// A buffer holding one whole frame and anything after it is ready, its
/// first frame is the payload, and the rest follows it.
pub proof fn lemma_frame_parses(payload: Seq<u8>, rest: Seq<u8>)
    requires
        payload.len() <= u32::MAX,
    ensures
        frame_ready(enc_frame(payload) + rest),
        frame_len(enc_frame(payload) + rest) == payload.len(),
        (enc_frame(payload) + rest).subrange(4, 4 + payload.len() as int) == payload,
        (enc_frame(payload) + rest).skip(4 + payload.len() as int) == rest,
{
    let s = enc_frame(payload) + rest;
    assert(s.subrange(0, 4) =~= enc_u32(payload.len() as u32));
    lemma_rd_u32(s, 0, payload.len() as u32);
    assert(s.subrange(4, 4 + payload.len() as int) =~= payload);
    assert(s.skip(4 + payload.len() as int) =~= rest);
}

/// The read half of one connection: buffers raw bytes and yields complete
/// payloads.
#[derive(Debug)]
pub struct PacketReceiver {
    /// Bytes received and not yet consumed by a complete frame.
    pub buf: Vec<u8>,
}

impl Default for PacketReceiver {
    /// An empty read buffer.
    fn default() -> (r: PacketReceiver)
        ensures
            r.buf@ == Seq::<u8>::empty(),
    {
        PacketReceiver { buf: Vec::new() }
    }
}

impl PacketReceiver {
    /// Appends bytes as they arrive from the stream.
    pub fn push_bytes(&mut self, chunk: &[u8])
        ensures
            final(self).buf@ == old(self).buf@ + chunk@,
    {
        let mut j: usize = 0;
        while j < chunk.len()
            invariant
                j <= chunk@.len(),
                self.buf@ == old(self).buf@ + chunk@.take(j as int),
            decreases chunk@.len() - j,
        {
            let b = chunk[j];
            self.buf.push(b);
            assert(self.buf@ =~= old(self).buf@ + chunk@.take(j + 1));
            j = j + 1;
        }
        assert(chunk@.take(j as int) =~= chunk@);
    }

    /// Yields the first complete payload, consuming its frame; with fewer
    /// than four bytes buffered, or fewer payload bytes than the length
    /// prefix advertises, yields nothing and leaves the buffer intact.
    pub fn next_frame(&mut self) -> (r: Option<Vec<u8>>)
        ensures
            if frame_ready(old(self).buf@) {
                match r {
                    Some(payload) => payload@ == old(self).buf@.subrange(
                        4,
                        4 + frame_len(old(self).buf@),
                    ) && final(self).buf@ == old(self).buf@.skip(4 + frame_len(old(self).buf@)),
                    None => false,
                }
            } else {
                r is None && final(self).buf@ == old(self).buf@
            },
    {
        let (len32, _) = match take_u32(&self.buf, 0) {
            Some(v) => v,
            None => {
                return None;
            },
        };
        let len = len32 as usize;
        if self.buf.len() - 4 < len {
            return None;
        }
        let payload = match take_raw(&self.buf, 4, len) {
            Some((payload, _)) => payload,
            None => {
                return None;
            },
        };
        let n = self.buf.len();
        let rest = match take_raw(&self.buf, 4 + len, n - (4 + len)) {
            Some((rest, _)) => rest,
            None => {
                return None;
            },
        };
        assert(rest@ =~= self.buf@.skip(4 + frame_len(self.buf@)));
        self.buf = rest;
        Some(payload)
    }
}

/// The write half of one connection: packets queue as framed bytes, and
/// the stream drains the queue as far as it will go.
#[derive(Debug)]
pub struct PacketSender {
    /// Framed bytes queued and not yet written to the stream.
    pub buf: Vec<u8>,
}

impl Default for PacketSender {
    /// An empty write queue.
    fn default() -> (r: PacketSender)
        ensures
            r.buf@ == Seq::<u8>::empty(),
    {
        PacketSender { buf: Vec::new() }
    }
}

impl PacketSender {
    /// Frames and queues one client packet. A packet too large for one
    /// frame cannot travel this transport at all and is refused as a
    /// transport failure, leaving the queue intact.
    pub fn queue_client(&mut self, p: &ClientPacket) -> (r: Result<(), Error>)
        ensures
            if wf_cpkt(p@) {
                r is Ok && final(self).buf@ == old(self).buf@ + enc_frame(enc_cpkt(p@))
            } else {
                (r matches Err(e) && e == Error::Io) && final(self).buf@ == old(self).buf@
            },
    {
        let ok = match p {
            ClientPacket::Ping => true,
            ClientPacket::Action { .. } => true,
            ClientPacket::Authenticate(a) => (a.username.len() as u128) + 5 <= u32::MAX as u128,
            ClientPacket::Route(t) => (t.len() as u128) + 5 <= u32::MAX as u128,
        };
        if !ok {
            return Err(Error::Io);
        }
        let payload = encode_client(p);
        assert(payload@.len() <= u32::MAX);
        crate::codec::put_u32(&mut self.buf, payload.len() as u32);
        let mut j: usize = 0;
        let ghost mid = self.buf@;
        while j < payload.len()
            invariant
                j <= payload@.len(),
                self.buf@ == mid + payload@.take(j as int),
            decreases payload@.len() - j,
        {
            let b = payload[j];
            self.buf.push(b);
            assert(self.buf@ =~= mid + payload@.take(j + 1));
            j = j + 1;
        }
        assert(payload@.take(j as int) =~= payload@);
        assert(self.buf@ =~= old(self).buf@ + enc_frame(enc_cpkt(p@)));
        Ok(())
    }

    /// Frames and queues one server packet, with the same size rule as
    /// [`PacketSender::queue_client`].
    pub fn queue_server(&mut self, p: &ServerPacket) -> (r: Result<(), Error>)
        ensures
            if wf_spkt(p@) {
                r is Ok && final(self).buf@ == old(self).buf@ + enc_frame(enc_spkt(p@))
            } else {
                (r matches Err(e) && e == Error::Io) && final(self).buf@ == old(self).buf@
            },
    {
        let ok = match p {
            ServerPacket::Ping => true,
            ServerPacket::Message(m) => (m.len() as u128) + 5 <= u32::MAX as u128,
            ServerPacket::World(w) => (w.pieces.len() as u128) * 34 + (w.tiles.len() as u128) + 21
                <= u32::MAX as u128,
        };
        if !ok {
            return Err(Error::Io);
        }
        let payload = encode_server(p);
        proof {
            match p@ {
                crate::protocol::SPkt::Ping => {},
                crate::protocol::SPkt::Message(_) => {},
                crate::protocol::SPkt::World(w) => {
                    crate::protocol::lemma_enc_pieces_len(w.pieces);
                    crate::protocol::lemma_enc_tiles_len(w.tiles);
                },
            }
            assert(payload@.len() <= u32::MAX);
        }
        crate::codec::put_u32(&mut self.buf, payload.len() as u32);
        let mut j: usize = 0;
        let ghost mid = self.buf@;
        while j < payload.len()
            invariant
                j <= payload@.len(),
                self.buf@ == mid + payload@.take(j as int),
            decreases payload@.len() - j,
        {
            let b = payload[j];
            self.buf.push(b);
            assert(self.buf@ =~= mid + payload@.take(j + 1));
            j = j + 1;
        }
        assert(payload@.take(j as int) =~= payload@);
        assert(self.buf@ =~= old(self).buf@ + enc_frame(enc_spkt(p@)));
        Ok(())
    }

    /// Drops the first `n` bytes after a partial write; the remainder
    /// stays queued for the next flush.
    pub fn written(&mut self, n: usize)
        requires
            n <= old(self).buf@.len(),
        ensures
            final(self).buf@ == old(self).buf@.skip(n as int),
    {
        let m = self.buf.len();
        let rest = match take_raw(&self.buf, n, m - n) {
            Some((rest, _)) => rest,
            None => {
                proof {
                    assert(false);
                }
                vstd::pervasive::unreached()
            },
        };
        assert(rest@ =~= self.buf@.skip(n as int));
        self.buf = rest;
    }
}

} // verus!
