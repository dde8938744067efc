//! Bounded-memory segment decryption and decoy-header removal.
use vstd::prelude::*;
use vstd::slice::slice_subrange;
use crate::jav::util::{
    first_packets, packets_at, payload, strip_fake_header, LAST_OFFSET, PACKET, SYNC,
};
use crate::outside::cipher::{aes_cbc, chained, decrypt_blocks, first_part};

verus! {

/// How many bytes are held back to find the end of a decoy header: its offsets
/// reach up to the last one at which a run of five packets is looked for.
pub const HEADER_PROBE: usize = 8753;

/// Why a segment cannot be used.
#[derive(Debug, Clone, Copy, PartialEq, Eq, Structural)]
pub enum SegmentError {
    KeyLength(usize),
    Truncated,
    Padding,
    Empty,
}

/// The text in front of a PKCS#7 padding: the last byte says how many bytes
/// there are of it, at least one and at most a block, and all are that byte.
pub open spec fn unpadded(plain: Seq<u8>) -> Option<Seq<u8>> {
    if plain.len() < 16 {
        None
    } else {
        let n = plain.last() as int;
        if 1 <= n <= 16 && (forall|i: int|
            plain.len() - n <= i < plain.len() ==> #[trigger] plain[i] == plain.last()) {
            Some(plain.take(plain.len() - n))
        } else {
            None
        }
    }
}

/// The text in front of the padding of a block; `None` where the padding is
/// malformed.
fn unpad(block: &[u8]) -> (r: Option<Vec<u8>>)
    requires
        block@.len() == 16,
    ensures
        match r {
            Some(v) => unpadded(block@) == Some(v@),
            None => unpadded(block@) is None,
        },
{
    let last = block[15];
    if last == 0 || last > 16 {
        return None;
    }
    let start: usize = 16 - last as usize;
    let mut i: usize = start;
    while i < 16
        invariant
            start <= i <= 16,
            block@.len() == 16,
            last == block@[15],
            start == 16 - last,
            1 <= last <= 16,
            forall|j: int| start <= j < i ==> block@[j] == last,
        decreases 16 - i,
    {
        if block[i] != last {
            assert(block@[i as int] != block@.last());
            return None;
        }
        i += 1;
    }
    let r = copy_bytes(slice_subrange(block, 0, start));
    assert(r@ =~= block@.take(start as int));
    Some(r)
}

/// Padding concerns the last block alone.
proof fn lemma_unpadded_tail(a: Seq<u8>, b: Seq<u8>)
    requires
        b.len() == 16,
    ensures
        unpadded(a + b) == (match unpadded(b) {
            Some(p) => Some(a + p),
            None => None,
        }),
{
    let whole = a + b;
    let n = b.last() as int;
    assert(whole.last() == b.last());
    assert(forall|i: int| 0 <= i < 16 ==> whole[a.len() + i] == b[i]);
    if 1 <= n <= 16 {
        let good_b = forall|i: int| 16 - n <= i < 16 ==> #[trigger] b[i] == b.last();
        let good_w = forall|i: int|
            whole.len() - n <= i < whole.len() ==> #[trigger] whole[i] == whole.last();
        if good_b {
            assert forall|i: int| whole.len() - n <= i < whole.len() implies #[trigger] whole[i]
                == whole.last() by {
                assert(whole[i] == b[i - a.len()]);
            }
        }
        if good_w {
            assert forall|i: int| 16 - n <= i < 16 implies #[trigger] b[i] == b.last() by {
                assert(b[i] == whole[a.len() + i]);
            }
        }
        assert(whole.take(whole.len() - n) =~= a + b.take(16 - n));
    }
}

/// The plain text of a whole segment, where there is one: the segment itself,
/// or, under a key, what stands in front of its padding.
pub open spec fn plain_text(cipher: Option<(Seq<u8>, Seq<u8>)>, input: Seq<u8>) -> Result<
    Seq<u8>,
    SegmentError,
> {
    match cipher {
        None => Ok(input),
        Some((key, iv)) => if input.len() == 0 || input.len() % 16 != 0 {
            Err(SegmentError::Truncated)
        } else {
            match unpadded(aes_cbc(key, iv, input)) {
                Some(p) => Ok(p),
                None => Err(SegmentError::Padding),
            }
        },
    }
}

/// What is written of a plain segment: what follows its decoy header, or all of
/// it where no packets are found.
pub open spec fn delivered(plain: Seq<u8>) -> Seq<u8> {
    if payload(plain).len() == 0 {
        plain
    } else {
        payload(plain)
    }
}

/// What is written of a whole segment, however it arrived in pieces.
pub open spec fn segment_output(cipher: Option<(Seq<u8>, Seq<u8>)>, input: Seq<u8>) -> Result<
    Seq<u8>,
    SegmentError,
> {
    match plain_text(cipher, input) {
        Err(e) => Err(e),
        Ok(p) => if p.len() == 0 {
            Err(SegmentError::Empty)
        } else {
            Ok(delivered(p))
        },
    }
}

proof fn lemma_first_packets_extends(a: Seq<u8>, b: Seq<u8>, from: int)
    requires
        a.len() >= HEADER_PROBE,
        0 <= from,
    ensures
        first_packets(a + b, from) == first_packets(a, from),
    decreases LAST_OFFSET + 1 - from,
{
    if from <= LAST_OFFSET {
        assert(packets_at(a + b, from) == packets_at(a, from));
        lemma_first_packets_extends(a, b, from + 1);
    }
}

proof fn lemma_first_packets_found(data: Seq<u8>, from: int)
    requires
        0 <= from,
    ensures
        first_packets(data, from) matches Some(j) ==> from <= j && j + 4 * PACKET < data.len(),
    decreases LAST_OFFSET + 1 - from,
{
    if from <= LAST_OFFSET && from + 4 * PACKET < data.len() && !packets_at(data, from) {
        lemma_first_packets_found(data, from + 1);
    }
}

/// Once the first byte is a sync byte, or enough bytes are there to find every
/// header, what follows is written as it is.
proof fn lemma_delivered_extends(a: Seq<u8>, b: Seq<u8>)
    requires
        a.len() > 0,
        a[0] == SYNC || a.len() >= HEADER_PROBE,
    ensures
        delivered(a + b) == delivered(a) + b,
{
    assert((a + b)[0] == a[0]);
    if a[0] != SYNC {
        lemma_first_packets_extends(a, b, 0);
        lemma_first_packets_found(a, 0);
        if let Some(j) = first_packets(a, 0) {
            assert((a + b).skip(j) =~= a.skip(j) + b);
        }
    }
}

/// A segment in the making: takes the bytes as they arrive and hands out the
/// bytes to write.
pub struct SegmentWriter {
    key: [u8; 16],
    iv: [u8; 16],
    encrypted: bool,
    pending: Vec<u8>,
    prefix: Vec<u8>,
    header_done: bool,
    first_iv: Ghost<Seq<u8>>,
    fed: Ghost<Seq<u8>>,
    written: Ghost<Seq<u8>>,
}

fn to_block(v: &[u8]) -> (r: [u8; 16])
    requires
        v@.len() == 16,
    ensures
        r@ == v@,
{
    let mut out: [u8; 16] = [0u8;16];
    let mut i: usize = 0;
    while i < 16
        invariant
            i <= 16,
            v@.len() == 16,
            out@.len() == 16,
            forall|j: int| 0 <= j < i ==> out@[j] == v@[j],
        decreases 16 - i,
    {
        out[i] = v[i];
        i += 1;
    }
    assert(out@ =~= v@);
    out
}

/// A copy of a run of bytes.
fn copy_bytes(v: &[u8]) -> (r: Vec<u8>)
    ensures
        r@ == v@,
{
    let mut out: Vec<u8> = Vec::new();
    push_bytes(&mut out, v);
    assert(out@ =~= v@);
    out
}

fn push_bytes(v: &mut Vec<u8>, tail: &[u8])
    ensures
        final(v)@ == old(v)@ + tail@,
{
    let ghost start = v@;
    let mut i: usize = 0;
    while i < tail.len()
        invariant
            i <= tail@.len(),
            v@ == start + tail@.take(i as int),
        decreases tail@.len() - i,
    {
        assert((start + tail@.take(i as int)).push(tail@[i as int]) =~= start + tail@.take(i + 1));
        v.push(tail[i]);
        i += 1;
    }
    assert(tail@.take(tail@.len() as int) =~= tail@);
}

impl SegmentWriter {
    /// The key and the initialization vector, where the segment is encrypted.
    pub closed spec fn cipher(&self) -> Option<(Seq<u8>, Seq<u8>)> {
        if self.encrypted {
            Some((self.key@, self.first_iv@))
        } else {
            None
        }
    }

    /// The bytes that have arrived.
    pub closed spec fn fed(&self) -> Seq<u8> {
        self.fed@
    }

    /// The bytes that have been handed out.
    pub closed spec fn written(&self) -> Seq<u8> {
        self.written@
    }

    /// The bytes that have been decrypted.
    spec fn done(&self) -> Seq<u8> {
        self.fed@.take(self.fed@.len() - self.pending@.len())
    }

    /// The plain text so far.
    spec fn plain(&self) -> Seq<u8> {
        if !self.encrypted {
            self.fed@
        } else {
            first_part(self.key@, self.first_iv@, self.done())
        }
    }

    spec fn header_inv(&self, plain: Seq<u8>) -> bool {
        if self.header_done {
            &&& self.prefix@.len() == 0
            &&& plain.len() > 0
            &&& plain[0] == SYNC || plain.len() >= HEADER_PROBE
            &&& self.written@ == delivered(plain)
        } else {
            &&& self.prefix@ == plain
            &&& self.written@.len() == 0
            &&& plain.len() < HEADER_PROBE
            &&& plain.len() > 0 ==> plain[0] != SYNC
        }
    }

    /// Nothing of what arrived is lost: it is pending, held back, or handed out.
    pub closed spec fn wf(&self) -> bool {
        &&& self.pending@.len() <= self.fed@.len()
        &&& self.fed@.skip(self.fed@.len() - self.pending@.len()) == self.pending@
        &&& !self.encrypted ==> self.pending@.len() == 0
        &&& self.encrypted ==> {
            &&& self.first_iv@.len() == 16
            &&& self.done().len() % 16 == 0
            &&& self.pending@.len() <= 16
            &&& self.fed@.len() > 0 ==> self.pending@.len() > 0
            &&& self.iv@ == chained(self.first_iv@, self.done())
            &&& self.plain().len() == self.done().len()
        }
        &&& self.header_inv(self.plain())
    }

    /// A writer without bytes, with the key and the initialization vector where
    /// the segment is encrypted.
    pub fn new(encryption: Option<(&[u8], &[u8; 16])>) -> (r: Result<Self, SegmentError>)
        ensures
            match encryption {
                Some((key, iv)) => if key@.len() == 16 {
                    r matches Ok(w) && w.wf() && w.cipher() == Some((key@, iv@)) && w.fed()
                        == Seq::<u8>::empty() && w.written() == Seq::<u8>::empty()
                } else {
                    r matches Err(SegmentError::KeyLength(n)) && n == key@.len()
                },
                None => r matches Ok(w) && w.wf() && w.cipher() is None && w.fed() == Seq::<
                    u8,
                >::empty() && w.written() == Seq::<u8>::empty(),
            },
    {
        let (encrypted, key, iv): (bool, [u8; 16], [u8; 16]) = match encryption {
            Some((key, iv)) => {
                if key.len() != 16 {
                    return Err(SegmentError::KeyLength(key.len()));
                }
                (true, to_block(key), *iv)
            },
            None => (false, [0u8;16], [0u8;16]),
        };
        let w = SegmentWriter {
            key,
            iv,
            encrypted,
            pending: Vec::new(),
            prefix: Vec::new(),
            header_done: false,
            first_iv: Ghost(iv@),
            fed: Ghost(Seq::empty()),
            written: Ghost(Seq::empty()),
        };
        proof {
            assert(w.fed@.skip(0) =~= w.pending@);
            assert(w.done() =~= Seq::<u8>::empty());
            assert(w.prefix@ =~= w.plain());
        }
        Ok(w)
    }

    /// Take plain text in: hand out what is no part of a header.
    fn write_plain(&mut self, data: &[u8], Ghost(before): Ghost<Seq<u8>>) -> (r: Vec<u8>)
        requires
            old(self).header_inv(before),
        ensures
            final(self).header_inv(before + data@),
            final(self).written@ == old(self).written@ + r@,
            final(self).key == old(self).key,
            final(self).iv == old(self).iv,
            final(self).encrypted == old(self).encrypted,
            final(self).pending == old(self).pending,
            final(self).first_iv == old(self).first_iv,
            final(self).fed == old(self).fed,
    {
        if self.header_done {
            let out = copy_bytes(data);
            proof {
                lemma_delivered_extends(before, data@);
                self.written@ = self.written@ + out@;
            }
            return out;
        }
        let room: usize = HEADER_PROBE - self.prefix.len();
        let count: usize = if data.len() < room {
            data.len()
        } else {
            room
        };
        let head = slice_subrange(data, 0, count);
        let rest = slice_subrange(data, count, data.len());
        push_bytes(&mut self.prefix, head);
        let ghost seen = before + head@;
        assert(seen + rest@ =~= before + data@);
        if self.prefix.len() == HEADER_PROBE || (self.prefix.len() > 0 && self.prefix[0] == SYNC) {
            let mut out = self.flush_header();
            assert(self.written@ == delivered(seen));
            push_bytes(&mut out, rest);
            proof {
                lemma_delivered_extends(seen, rest@);
                self.written@ = self.written@ + rest@;
                assert(old(self).written@ + out@ =~= self.written@);
            }
            out
        } else {
            assert(rest@.len() == 0);
            let out: Vec<u8> = Vec::new();
            assert(old(self).written@ + out@ =~= self.written@);
            assert(seen =~= before + data@);
            out
        }
    }

    /// Hand out the bytes held back, without a decoy header.
    fn flush_header(&mut self) -> (r: Vec<u8>)
        requires
            !old(self).header_done,
            old(self).written@.len() == 0,
        ensures
            r@ == delivered(old(self).prefix@),
            final(self).written@ == r@,
            final(self).header_done,
            final(self).prefix@.len() == 0,
            final(self).key == old(self).key,
            final(self).iv == old(self).iv,
            final(self).encrypted == old(self).encrypted,
            final(self).pending == old(self).pending,
            final(self).first_iv == old(self).first_iv,
            final(self).fed == old(self).fed,
    {
        let stripped = strip_fake_header(self.prefix.as_slice());
        let out = if stripped.len() == 0 {
            copy_bytes(self.prefix.as_slice())
        } else {
            copy_bytes(stripped)
        };
        self.prefix = Vec::new();
        self.header_done = true;
        proof {
            self.written@ = out@;
        }
        out
    }

    /// Take bytes in as they arrive; returns the bytes to write.
    pub fn push(&mut self, data: &[u8]) -> (r: Vec<u8>)
        requires
            old(self).wf(),
        ensures
            final(self).wf(),
            final(self).cipher() == old(self).cipher(),
            final(self).fed() == old(self).fed() + data@,
            final(self).written() == old(self).written() + r@,
    {
        let ghost plain = self.plain();
        let ghost fed = self.fed@ + data@;
        if !self.encrypted {
            let out = self.write_plain(data, Ghost(plain));
            proof {
                self.fed@ = fed;
                assert(self.fed@.skip(self.fed@.len() as int) =~= self.pending@);
                assert(self.done() =~= fed);
            }
            return out;
        }
        let ghost done = self.done();
        push_bytes(&mut self.pending, data);
        assert(done + self.pending@ =~= fed);
        let n = self.pending.len();
        let count: usize = if n == 0 {
            0
        } else {
            (n - 1) / 16 * 16
        };
        if count == 0 {
            let out: Vec<u8> = Vec::new();
            proof {
                self.fed@ = fed;
                assert(self.done() =~= done);
                assert(self.fed@.skip(done.len() as int) =~= self.pending@);
                assert(self.written@ + out@ =~= old(self).written@);
            }
            return out;
        }
        let blocks = slice_subrange(self.pending.as_slice(), 0, count);
        let plain_part = decrypt_blocks(&self.key, &self.iv, blocks);
        let next_iv = to_block(slice_subrange(self.pending.as_slice(), count - 16, count));
        let rest = copy_bytes(slice_subrange(self.pending.as_slice(), count, n));
        let ghost block_text = blocks@;
        let out = self.write_plain(plain_part.as_slice(), Ghost(plain));
        self.pending = rest;
        self.iv = next_iv;
        proof {
            self.fed@ = fed;
            let more = done + block_text;
            assert(self.done() =~= more);
            assert(self.fed@.skip(more.len() as int) =~= self.pending@);
            assert(next_iv@ =~= more.skip(more.len() - 16));
            assert(aes_cbc(self.key@, self.first_iv@, done + block_text) == first_part(
                self.key@,
                self.first_iv@,
                done,
            ) + plain_part@);
        }
        out
    }

    /// The segment is complete: returns the last bytes to write. All bytes
    /// handed out together are the output of the whole segment.
    pub fn finish(self) -> (r: Result<Vec<u8>, SegmentError>)
        requires
            self.wf(),
        ensures
            match segment_output(self.cipher(), self.fed()) {
                Ok(out) => r matches Ok(last) && self.written() + last@ == out,
                Err(e) => r == Err::<Vec<u8>, SegmentError>(e),
            },
    {
        let mut w = self;
        let ghost mut plain = w.plain();
        let mut out: Vec<u8> = Vec::new();
        assert(w.written@ + out@ =~= w.written@);
        if w.encrypted {
            if w.pending.len() != 16 {
                proof {
                    assert(w.fed@.len() == w.done().len() + w.pending@.len());
                }
                return Err(SegmentError::Truncated);
            }
            assert(w.done() + w.pending@ =~= w.fed@);
            let pending = copy_bytes(w.pending.as_slice());
            let ghost before = w.plain();
            let block = decrypt_blocks(&w.key, &w.iv, pending.as_slice());
            proof {
                assert(aes_cbc(w.key@, w.first_iv@, w.done() + pending@) == before + block@);
                lemma_unpadded_tail(before, block@);
            }
            match unpad(block.as_slice()) {
                Some(last) => {
                    out = w.write_plain(last.as_slice(), Ghost(before));
                    proof {
                        plain = before + last@;
                    }
                },
                None => {
                    return Err(SegmentError::Padding);
                },
            }
        }
        if !w.header_done && w.prefix.len() == 0 {
            return Err(SegmentError::Empty);
        }
        if !w.header_done {
            let rest = w.flush_header();
            assert(self.written@ + out@ == Seq::<u8>::empty());
            push_bytes(&mut out, rest.as_slice());
            assert(self.written@ + out@ =~= rest@);
        }
        Ok(out)
    }
}

/// Padding is taken off again: what is padded to whole blocks, each added byte saying
/// how many there are, comes back as it was, and nothing of it is lost.
pub proof fn law_padding_comes_off(text: Seq<u8>)
    ensures
        ({
            let n = 16 - text.len() % 16;
            unpadded(text + Seq::new(n as nat, |i: int| n as u8)) == Some(text)
        }),
{
    let n = 16 - text.len() % 16;
    let padded = text + Seq::new(n as nat, |i: int| n as u8);
    assert(padded.last() == n as u8);
    assert(padded.len() >= 16);
    assert(padded.take(padded.len() - n) =~= text);
}

/// A segment in the clear is written as it came, but for a decoy in front of its
/// packets; one that is encrypted must be whole blocks and is written once decrypted,
/// without its padding; and an empty one is an error.
pub proof fn law_segments_are_written_in_the_clear(
    key: Seq<u8>,
    iv: Seq<u8>,
    input: Seq<u8>,
    plain: Seq<u8>,
)
    ensures
        input.len() == 0 ==> segment_output(None, input) == Err::<Seq<u8>, SegmentError>(
            SegmentError::Empty,
        ),
        input.len() > 0 && payload(input).len() == 0 ==> segment_output(None, input) == Ok::<
            Seq<u8>,
            SegmentError,
        >(input),
        input.len() > 0 && payload(input).len() > 0 ==> segment_output(None, input) == Ok::<
            Seq<u8>,
            SegmentError,
        >(payload(input)),
        input.len() == 0 || input.len() % 16 != 0 ==> segment_output(Some((key, iv)), input)
            == Err::<Seq<u8>, SegmentError>(SegmentError::Truncated),
        input.len() > 0 && input.len() % 16 == 0 && plain.len() > 0 && aes_cbc(key, iv, input)
            == plain + Seq::new(
            (16 - plain.len() % 16) as nat,
            |i: int| (16 - plain.len() % 16) as u8,
        ) ==> segment_output(Some((key, iv)), input) == segment_output(None, plain),
{
    law_padding_comes_off(plain);
    let n = 16 - plain.len() % 16;
    assert(Seq::new(n as nat, |i: int| n as u8) =~= Seq::new(
        (16 - plain.len() % 16) as nat,
        |i: int| (16 - plain.len() % 16) as u8,
    ));
}

} // verus!
