use vstd::prelude::*;
use vstd::utf8::*;

verus! {

/// True when `s` holds a `\r\n` that starts at index `i`.
pub open spec fn crlf_at(s: Seq<u8>, i: int) -> bool {
    0 <= i && i + 1 < s.len() && s[i] == 13u8 && s[i + 1] == 10u8
}

/// True when the first `\r\n` of `s` starts at index `i`.
pub open spec fn first_crlf_at(s: Seq<u8>, i: int) -> bool {
    crlf_at(s, i) && forall|j: int| 0 <= j < i ==> !crlf_at(s, j)
}

/// True when `s` holds a complete line, that is a `\r\n` somewhere.
pub open spec fn has_line(s: Seq<u8>) -> bool {
    exists|i: int| crlf_at(s, i)
}

/// `tail` is what is left of `whole` once the suffix `b` is cut off, when `b` is a suffix of it.
pub open spec fn is_suffix(b: Seq<u8>, whole: Seq<u8>) -> bool {
    b.len() <= whole.len() && whole.subrange(whole.len() - b.len(), whole.len() as int) == b
}

/// Outcome of asking for one line of the buffered bytes.
pub enum LineRead {
    /// No `\r\n` is buffered yet: more bytes are needed.
    Incomplete,
    /// The bytes before the first `\r\n`, decoded as UTF-8.
    Line(String),
    /// The bytes before the first `\r\n` are not UTF-8.
    InvalidUtf8,
}

/// Relies on `String::from_utf8`: it succeeds exactly on valid UTF-8 and then holds the decoded
/// characters.
#[verifier::external_body]
pub(crate) fn utf8_to_string(bytes: &[u8]) -> (r: Option<String>)
    ensures
        r is Some <==> valid_utf8(bytes@),
        r matches Some(s) ==> s@ == decode_utf8(bytes@),
{
    String::from_utf8(bytes.to_vec()).ok()
}

/// A copy of `v[from..to]`.
pub(crate) fn copy_range(v: &[u8], from: usize, to: usize) -> (r: Vec<u8>)
    requires
        from <= to <= v@.len(),
    ensures
        r@ == v@.subrange(from as int, to as int),
{
    let mut r: Vec<u8> = Vec::new();
    let mut i: usize = from;
    while i < to
        invariant
            from <= i <= to,
            to <= v@.len(),
            r@ == v@.subrange(from as int, i as int),
        decreases to - i,
    {
        r.push(v[i]);
        i = i + 1;
        assert(r@ == v@.subrange(from as int, i as int));
    }
    r
}

/// A byte queue in front of a stream: bytes that arrived and were not consumed yet, with pushback,
/// and the bytes waiting to be written out.
///
/// The stream itself stays with the caller: it hands every chunk it reads to `receive` and writes
/// out what `take_outgoing` returns. The ghost history records every byte received and every byte
/// handed out, so that nothing is lost or reordered in between.
pub struct BufferedConnection {
    read_buffer: Vec<u8>,
    write_buffer: Vec<u8>,
    buffer_size: usize,
    received: Ghost<Seq<u8>>,
    delivered: Ghost<Seq<u8>>,
    faithful: Ghost<bool>,
}

impl BufferedConnection {
    /// Bytes received and not consumed yet, oldest first.
    pub closed spec fn pending(&self) -> Seq<u8> {
        self.read_buffer@
    }

    /// Bytes queued for writing, oldest first.
    pub closed spec fn outgoing(&self) -> Seq<u8> {
        self.write_buffer@
    }

    /// Every byte handed to `receive`, in order.
    pub closed spec fn received(&self) -> Seq<u8> {
        self.received@
    }

    /// The bytes handed out by consuming reads, less those that `unread` gave back.
    pub closed spec fn delivered(&self) -> Seq<u8> {
        self.delivered@
    }

    /// True while every `unread` so far gave back the last bytes that had been handed out.
    pub closed spec fn faithful(&self) -> bool {
        self.faithful@
    }

    /// The size of each read from the stream.
    pub closed spec fn spec_buffer_size(&self) -> usize {
        self.buffer_size
    }

    /// While pushback only restores what was read, the bytes handed out followed by the bytes
    /// still buffered are exactly the bytes received.
    pub closed spec fn wf(&self) -> bool {
        self.faithful@ ==> self.delivered@ + self.read_buffer@ == self.received@
    }

    pub fn new(buffer_size: usize) -> (r: Self)
        ensures
            r.wf(),
            r.pending() == Seq::<u8>::empty(),
            r.outgoing() == Seq::<u8>::empty(),
            r.received() == Seq::<u8>::empty(),
            r.delivered() == Seq::<u8>::empty(),
            r.faithful(),
            r.spec_buffer_size() == buffer_size,
    {
        BufferedConnection {
            read_buffer: Vec::new(),
            write_buffer: Vec::new(),
            buffer_size,
            received: Ghost(Seq::empty()),
            delivered: Ghost(Seq::empty()),
            faithful: Ghost(true),
        }
    }

    /// Appends a chunk that was read from the stream to the buffered bytes.
    pub fn receive(&mut self, data: &[u8])
        requires
            old(self).wf(),
        ensures
            final(self).wf(),
            final(self).pending() == old(self).pending() + data@,
            final(self).received() == old(self).received() + data@,
            final(self).delivered() == old(self).delivered(),
            final(self).faithful() == old(self).faithful(),
            final(self).outgoing() == old(self).outgoing(),
            final(self).spec_buffer_size() == old(self).spec_buffer_size(),
    {
        let ghost old_buf = self.read_buffer@;
        let mut buf: Vec<u8> = Vec::new();
        std::mem::swap(&mut buf, &mut self.read_buffer);
        let mut i: usize = 0;
        while i < data.len()
            invariant
                i <= data@.len(),
                buf@ == old_buf + data@.subrange(0, i as int),
            decreases data@.len() - i,
        {
            buf.push(data[i]);
            i = i + 1;
            assert(buf@ == old_buf + data@.subrange(0, i as int));
        }
        assert(data@.subrange(0, data@.len() as int) == data@);
        self.read_buffer = buf;
        proof {
            assert(self.delivered@ + (old_buf + data@) =~= (self.delivered@ + old_buf) + data@);
            self.received@ = self.received@ + data@;
        }
    }

    /// Removes and returns the first `len` buffered bytes, or `None` while fewer are buffered.
    pub fn read_from_buffer(&mut self, len: usize) -> (r: Option<Vec<u8>>)
        requires
            old(self).wf(),
        ensures
            final(self).wf(),
            final(self).received() == old(self).received(),
            final(self).faithful() == old(self).faithful(),
            final(self).outgoing() == old(self).outgoing(),
            final(self).spec_buffer_size() == old(self).spec_buffer_size(),
            len <= old(self).pending().len() ==> {
                &&& r matches Some(data)
                &&& data@ == old(self).pending().take(len as int)
                &&& final(self).pending() == old(self).pending().skip(len as int)
                &&& final(self).delivered() == old(self).delivered() + data@
            },
            len > old(self).pending().len() ==> {
                &&& r is None
                &&& final(self).pending() == old(self).pending()
                &&& final(self).delivered() == old(self).delivered()
            },
    {
        if self.read_buffer.len() < len {
            return None;
        }
        let ghost old_buf = self.read_buffer@;
        let mut head = self.read_buffer.split_off(len);
        std::mem::swap(&mut self.read_buffer, &mut head);
        proof {
            assert(head@ + self.read_buffer@ =~= old_buf);
            assert(self.delivered@ + head@ + self.read_buffer@ =~= self.delivered@ + (head@
                + self.read_buffer@));
            self.delivered@ = self.delivered@ + head@;
        }
        Some(head)
    }

    /// Removes and returns up to `max` buffered bytes: the read a splice makes before it asks the
    /// stream for more.
    pub fn drain_buffered(&mut self, max: usize) -> (r: Vec<u8>)
        requires
            old(self).wf(),
        ensures
            final(self).wf(),
            r@ == old(self).pending().take(
                if max <= old(self).pending().len() { max as int } else { old(self).pending().len() as int }
            ),
            final(self).pending() == old(self).pending().skip(r@.len() as int),
            final(self).delivered() == old(self).delivered() + r@,
            final(self).received() == old(self).received(),
            final(self).faithful() == old(self).faithful(),
            final(self).outgoing() == old(self).outgoing(),
            final(self).spec_buffer_size() == old(self).spec_buffer_size(),
    {
        let n = if max <= self.read_buffer.len() { max } else { self.read_buffer.len() };
        match self.read_from_buffer(n) {
            Some(data) => data,
            None => Vec::new(),
        }
    }

    /// Puts `bytes` back in front of the buffered bytes: the next consuming read of as many bytes
    /// returns them, in the same order.
    pub fn unread(&mut self, bytes: &[u8])
        requires
            old(self).wf(),
        ensures
            final(self).wf(),
            final(self).pending() == bytes@ + old(self).pending(),
            final(self).received() == old(self).received(),
            is_suffix(bytes@, old(self).delivered()) ==> {
                &&& final(self).faithful() == old(self).faithful()
                &&& final(self).delivered() == old(self).delivered().take(
                    old(self).delivered().len() - bytes@.len(),
                )
            },
            !is_suffix(bytes@, old(self).delivered()) ==> !final(self).faithful(),
            final(self).outgoing() == old(self).outgoing(),
            final(self).spec_buffer_size() == old(self).spec_buffer_size(),
    {
        let mut front: Vec<u8> = Vec::new();
        let mut i: usize = 0;
        while i < bytes.len()
            invariant
                i <= bytes@.len(),
                front@ == bytes@.subrange(0, i as int),
            decreases bytes@.len() - i,
        {
            front.push(bytes[i]);
            i = i + 1;
        }
        let ghost old_buf = self.read_buffer@;
        front.append(&mut self.read_buffer);
        self.read_buffer = front;
        proof {
            assert(bytes@.subrange(0, bytes@.len() as int) == bytes@);
            let d = self.delivered@;
            if is_suffix(bytes@, d) {
                let kept = d.take(d.len() - bytes@.len());
                assert(d == kept + bytes@);
                self.delivered@ = kept;
                if self.faithful@ {
                    assert(kept + (bytes@ + old_buf) == (kept + bytes@) + old_buf);
                }
            } else {
                self.faithful@ = false;
            }
        }
    }

    /// Removes the first buffered line with its `\r\n` and returns it without the terminator;
    /// `None` while no `\r\n` is buffered.
    pub fn take_line(&mut self) -> (r: Option<Vec<u8>>)
        requires
            old(self).wf(),
        ensures
            final(self).wf(),
            final(self).received() == old(self).received(),
            final(self).faithful() == old(self).faithful(),
            final(self).outgoing() == old(self).outgoing(),
            final(self).spec_buffer_size() == old(self).spec_buffer_size(),
            r is None <==> !has_line(old(self).pending()),
            r is None ==> final(self).pending() == old(self).pending() && final(self).delivered()
                == old(self).delivered(),
            forall|i: int|
                first_crlf_at(old(self).pending(), i) ==> {
                    &&& r matches Some(line)
                    &&& line@ == old(self).pending().take(i)
                    &&& final(self).pending() == old(self).pending().skip(i + 2)
                    &&& final(self).delivered() == old(self).delivered() + old(self).pending().take(i + 2)
                },
            has_line(old(self).pending()) ==> exists|i: int| first_crlf_at(old(self).pending(), i),
    {
        let n = self.read_buffer.len();
        let mut i: usize = 0;
        let mut found = false;
        while i < n
            invariant
                n == self.read_buffer@.len(),
                *old(self) == *self,
                i <= n,
                forall|j: int| 0 <= j < i ==> !crlf_at(self.read_buffer@, j),
                found ==> crlf_at(self.read_buffer@, i as int),
            ensures
                found ==> crlf_at(self.read_buffer@, i as int),
                forall|j: int| 0 <= j < i ==> !crlf_at(self.read_buffer@, j),
                !found ==> i == n,
            decreases n - i,
        {
            if i + 1 < n && self.read_buffer[i] == 13u8 && self.read_buffer[i + 1] == 10u8 {
                found = true;
                break;
            }
            i = i + 1;
        }
        let ghost pend = self.read_buffer@;
        if !found {
            proof {
                assert forall|j: int| !crlf_at(pend, j) by {
                    if 0 <= j < i {
                    }
                }
            }
            return None;
        }
        assert(first_crlf_at(pend, i as int));
        proof {
            assert forall|k: int| first_crlf_at(pend, k) implies k == i by {
                if k < i {
                } else if k > i {
                    assert(crlf_at(pend, i as int));
                }
            }
        }
        match self.read_from_buffer(i + 2) {
            Some(data) => {
                let line = copy_range(data.as_slice(), 0, i);
                assert(line@ == pend.take(i as int));
                Some(line)
            },
            None => None,
        }
    }

    /// Removes the first buffered line with its `\r\n` and returns it without the terminator,
    /// decoded as UTF-8.
    pub fn read_line(&mut self) -> (r: LineRead)
        requires
            old(self).wf(),
        ensures
            final(self).wf(),
            final(self).received() == old(self).received(),
            final(self).faithful() == old(self).faithful(),
            final(self).outgoing() == old(self).outgoing(),
            final(self).spec_buffer_size() == old(self).spec_buffer_size(),
            !has_line(old(self).pending()) ==> {
                &&& r is Incomplete
                &&& final(self).pending() == old(self).pending()
                &&& final(self).delivered() == old(self).delivered()
            },
            forall|i: int|
                first_crlf_at(old(self).pending(), i) ==> {
                    let line = old(self).pending().take(i);
                    &&& final(self).pending() == old(self).pending().skip(i + 2)
                    &&& final(self).delivered() == old(self).delivered() + old(self).pending().take(i + 2)
                    &&& valid_utf8(line) ==> (r matches LineRead::Line(s) && s@ == decode_utf8(line))
                    &&& !valid_utf8(line) ==> r is InvalidUtf8
                },
    {
        match self.take_line() {
            None => LineRead::Incomplete,
            Some(line) => match utf8_to_string(line.as_slice()) {
                Some(s) => LineRead::Line(s),
                None => LineRead::InvalidUtf8,
            },
        }
    }

    /// Queues `data` for writing.
    pub fn write_to_buffer(&mut self, data: &[u8])
        requires
            old(self).wf(),
        ensures
            final(self).wf(),
            final(self).outgoing() == old(self).outgoing() + data@,
            final(self).pending() == old(self).pending(),
            final(self).received() == old(self).received(),
            final(self).delivered() == old(self).delivered(),
            final(self).faithful() == old(self).faithful(),
            final(self).spec_buffer_size() == old(self).spec_buffer_size(),
    {
        let ghost old_out = self.write_buffer@;
        let mut buf: Vec<u8> = Vec::new();
        std::mem::swap(&mut buf, &mut self.write_buffer);
        let mut i: usize = 0;
        while i < data.len()
            invariant
                i <= data@.len(),
                buf@ == old_out + data@.subrange(0, i as int),
            decreases data@.len() - i,
        {
            buf.push(data[i]);
            i = i + 1;
            assert(buf@ == old_out + data@.subrange(0, i as int));
        }
        assert(data@.subrange(0, data@.len() as int) == data@);
        self.write_buffer = buf;
    }

    /// Removes and returns every byte queued for writing, for the caller to write to the stream.
    pub fn take_outgoing(&mut self) -> (r: Vec<u8>)
        requires
            old(self).wf(),
        ensures
            final(self).wf(),
            r@ == old(self).outgoing(),
            final(self).outgoing() == Seq::<u8>::empty(),
            final(self).pending() == old(self).pending(),
            final(self).received() == old(self).received(),
            final(self).delivered() == old(self).delivered(),
            final(self).faithful() == old(self).faithful(),
            final(self).spec_buffer_size() == old(self).spec_buffer_size(),
    {
        let mut out: Vec<u8> = Vec::new();
        std::mem::swap(&mut self.write_buffer, &mut out);
        out
    }

    /// The buffered bytes, without consuming them.
    pub fn buffered(&self) -> (r: &[u8])
        ensures
            r@ == self.pending(),
    {
        self.read_buffer.as_slice()
    }

    /// True when some received byte has not been consumed yet.
    pub fn has_data(&self) -> (r: bool)
        ensures
            r == (self.pending().len() > 0),
    {
        self.read_buffer.len() > 0
    }

    pub fn buffer_size(&self) -> (r: usize)
        ensures
            r == self.spec_buffer_size(),
    {
        self.buffer_size
    }

    /// The number of received bytes not consumed yet.
    pub fn available_bytes(&self) -> (r: usize)
        ensures
            r == self.pending().len(),
    {
        self.read_buffer.len()
    }
}

/// The connection consumed the first `k` pending bytes and queued `w` for writing, nothing else.
pub open spec fn stepped(c0: BufferedConnection, c1: BufferedConnection, k: int, w: Seq<u8>) -> bool {
    &&& c1.wf()
    &&& c1.pending() == c0.pending().skip(k)
    &&& c1.delivered() == c0.delivered() + c0.pending().take(k)
    &&& c1.outgoing() == c0.outgoing() + w
    &&& c1.received() == c0.received()
    &&& c1.faithful() == c0.faithful()
    &&& c1.spec_buffer_size() == c0.spec_buffer_size()
}

/// A connection that neither consumed nor queued anything: `stepped` with no bytes.
pub proof fn lemma_no_step(c: BufferedConnection)
    ensures
        c.pending().skip(0) == c.pending(),
        c.delivered() + c.pending().take(0) == c.delivered(),
        c.outgoing() + Seq::<u8>::empty() == c.outgoing(),
        c.wf() ==> stepped(c, c, 0, Seq::empty()),
{
    assert(c.pending().skip(0) =~= c.pending());
    assert(c.delivered() + c.pending().take(0) =~= c.delivered());
    assert(c.outgoing() + Seq::<u8>::empty() =~= c.outgoing());
}

/// Buffer integrity: as long as every pushback restored bytes that had been read, the bytes handed
/// out by consuming reads are a prefix of the bytes received, and the bytes still buffered are the
/// rest of them.
pub proof fn lemma_buffer_integrity(c: BufferedConnection)
    requires
        c.wf(),
        c.faithful(),
    ensures
        c.delivered().len() <= c.received().len(),
        c.received().take(c.delivered().len() as int) == c.delivered(),
        c.received().skip(c.delivered().len() as int) == c.pending(),
{
    assert(c.received().take(c.delivered().len() as int) =~= c.delivered());
    assert(c.received().skip(c.delivered().len() as int) =~= c.pending());
}

/// Splice losslessness: once negotiation has consumed the first `k` bytes of a stream, the bytes
/// that later consuming reads hand out (those a splice forwards) are exactly the stream's bytes
/// from position `k` on, in order; none of the first `k` is handed out again.
pub proof fn lemma_splice_lossless(before: BufferedConnection, after: BufferedConnection, k: nat)
    requires
        before.wf(),
        before.faithful(),
        after.wf(),
        after.faithful(),
        before.delivered().len() == k,
        after.received().take(before.received().len() as int) == before.received(),
        after.delivered().take(k as int) == before.delivered(),
        k <= after.delivered().len(),
    ensures
        after.delivered().skip(k as int) == after.received().subrange(
            k as int,
            after.delivered().len() as int,
        ),
        after.delivered().take(k as int) == after.received().take(k as int),
{
    lemma_buffer_integrity(before);
    lemma_buffer_integrity(after);
    let d = after.delivered();
    let r = after.received();
    assert(r.take(d.len() as int) == d);
    assert(d.skip(k as int) =~= r.subrange(k as int, d.len() as int)) by {
        assert forall|i: int| 0 <= i < d.len() - k implies d.skip(k as int)[i] == r.subrange(
            k as int,
            d.len() as int,
        )[i] by {
            assert(d[k + i] == r.take(d.len() as int)[k + i]);
        }
    }
    assert(d.take(k as int) =~= r.take(k as int)) by {
        assert forall|i: int| 0 <= i < k implies d.take(k as int)[i] == r.take(k as int)[i] by {
            assert(d[i] == r.take(d.len() as int)[i]);
        }
    }
}

/// Which leg of a proxied connection a stream belongs to.
pub enum ConnectionDirection {
    /// Between the client and the proxy.
    ClientToProxy,
    /// Between the proxy and the target server.
    ProxyToServer,
}

} // verus!
