//! Incremental frame decoding: the read path of the framed channel.
//!
//! A decoder accumulates stream bytes one at a time and recognises each
//! message at the very byte that completes it. Its invariant keeps the
//! buffer a proper prefix of one message, so it never holds `MAX_MSG_SIZE`
//! bytes or more: a malformed or oversized frame can never pull unbounded
//! memory in.

use vstd::prelude::*;

use crate::codec::{
    decode_in, decode_out, lemma_decode_done, lemma_decode_in_prefix, lemma_decode_out_prefix,
    lemma_incomplete_bounded, spec_decode_in, spec_decode_out, Decoded, SpecDecoded,
};
use crate::msg::{InMsg, OutMsg, MAX_MSG_SIZE};

verus! {

/// Incremental decoder for the inbound vocabulary.
pub struct InFrameDecoder {
    buf: Vec<u8>,
}

/// Incremental decoder for the outbound vocabulary.
pub struct OutFrameDecoder {
    buf: Vec<u8>,
}

impl InFrameDecoder {
    /// The bytes accumulated so far are always a proper prefix of one
    /// message.
    pub closed spec fn wf(&self) -> bool {
        spec_decode_in(self.buf@) is Incomplete
    }

    /// The bytes accumulated and not yet consumed.
    pub closed spec fn buffered(&self) -> Seq<u8> {
        self.buf@
    }

    pub fn new() -> (d: Self)
        ensures
            d.wf(),
            d.buffered() == Seq::<u8>::empty(),
    {
        let d = InFrameDecoder { buf: Vec::new() };
        proof {
            assert(d.buf@ =~= Seq::<u8>::empty());
        }
        d
    }

    /// Feed one stream byte. Returns the message completed by exactly this
    /// byte, `Incomplete` while more bytes are needed, or `Malformed` when
    /// the accumulated bytes can no longer be a prefix of any encoding (the
    /// buffer is then discarded; the connection is beyond recovery). The
    /// buffer never reaches `MAX_MSG_SIZE` bytes.
    pub fn feed_byte(&mut self, b: u8) -> (r: Decoded<InMsg>)
        requires
            old(self).wf(),
        ensures
            final(self).wf(),
            final(self).buffered().len() < MAX_MSG_SIZE,
            match r {
                Decoded::Done(m, n) => spec_decode_in(old(self).buffered().push(b))
                    == SpecDecoded::Done(m@, n as int) && n == old(self).buffered().len() + 1
                    && final(self).buffered() == Seq::<u8>::empty(),
                Decoded::Incomplete => spec_decode_in(old(self).buffered().push(b)) is Incomplete
                    && final(self).buffered() == old(self).buffered().push(b),
                Decoded::Malformed => spec_decode_in(old(self).buffered().push(b)) is Malformed
                    && final(self).buffered() == Seq::<u8>::empty(),
            },
    {
        self.buf.push(b);
        let r = decode_in(self.buf.as_slice());
        proof {
            lemma_incomplete_bounded(self.buf@);
        }
        match r {
            Decoded::Done(m, n) => {
                proof {
                    let s = self.buf@;
                    lemma_decode_done(s);
                    let sn = spec_decode_in(s)->Done_1;
                    if sn < s.len() {
                        assert(s.subrange(0, s.len() - 1) =~= old(self).buf@);
                        lemma_decode_in_prefix(s, s.len() - 1, spec_decode_in(s)->Done_0, sn);
                        assert(false);
                    }
                }
                self.buf.clear();
                proof {
                    assert(self.buf@ =~= Seq::<u8>::empty());
                }
                Decoded::Done(m, n)
            },
            Decoded::Incomplete => Decoded::Incomplete,
            Decoded::Malformed => {
                self.buf.clear();
                proof {
                    assert(self.buf@ =~= Seq::<u8>::empty());
                }
                Decoded::Malformed
            },
        }
    }
}

impl OutFrameDecoder {
    /// The bytes accumulated so far are always a proper prefix of one
    /// message.
    pub closed spec fn wf(&self) -> bool {
        spec_decode_out(self.buf@) is Incomplete
    }

    /// The bytes accumulated and not yet consumed.
    pub closed spec fn buffered(&self) -> Seq<u8> {
        self.buf@
    }

    pub fn new() -> (d: Self)
        ensures
            d.wf(),
            d.buffered() == Seq::<u8>::empty(),
    {
        let d = OutFrameDecoder { buf: Vec::new() };
        proof {
            assert(d.buf@ =~= Seq::<u8>::empty());
        }
        d
    }

    /// Feed one stream byte, as for [`InFrameDecoder::feed_byte`].
    pub fn feed_byte(&mut self, b: u8) -> (r: Decoded<OutMsg>)
        requires
            old(self).wf(),
        ensures
            final(self).wf(),
            final(self).buffered().len() < MAX_MSG_SIZE,
            match r {
                Decoded::Done(m, n) => spec_decode_out(old(self).buffered().push(b))
                    == SpecDecoded::Done(m@, n as int) && n == old(self).buffered().len() + 1
                    && final(self).buffered() == Seq::<u8>::empty(),
                Decoded::Incomplete => spec_decode_out(old(self).buffered().push(b)) is Incomplete
                    && final(self).buffered() == old(self).buffered().push(b),
                Decoded::Malformed => spec_decode_out(old(self).buffered().push(b)) is Malformed
                    && final(self).buffered() == Seq::<u8>::empty(),
            },
    {
        self.buf.push(b);
        let r = decode_out(self.buf.as_slice());
        proof {
            lemma_incomplete_bounded(self.buf@);
        }
        match r {
            Decoded::Done(m, n) => {
                proof {
                    let s = self.buf@;
                    lemma_decode_done(s);
                    let sn = spec_decode_out(s)->Done_1;
                    if sn < s.len() {
                        assert(s.subrange(0, s.len() - 1) =~= old(self).buf@);
                        lemma_decode_out_prefix(s, s.len() - 1, spec_decode_out(s)->Done_0, sn);
                        assert(false);
                    }
                }
                self.buf.clear();
                proof {
                    assert(self.buf@ =~= Seq::<u8>::empty());
                }
                Decoded::Done(m, n)
            },
            Decoded::Incomplete => Decoded::Incomplete,
            Decoded::Malformed => {
                self.buf.clear();
                proof {
                    assert(self.buf@ =~= Seq::<u8>::empty());
                }
                Decoded::Malformed
            },
        }
    }
}

} // verus!
