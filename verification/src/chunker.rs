//! Content-defined chunking of a file as it is read. The file is cut where
//! FastCDC finds a boundary in the next window of at most `CDC_MAX` bytes,
//! so equal content gives equal chunks wherever it sits in a file, and the
//! chunks always join back into the file.

use vstd::prelude::*;

verus! {

/// Smallest chunk FastCDC cuts unless the data ends sooner.
pub const CDC_MIN: u32 = 262144;

/// Chunk size FastCDC aims for.
pub const CDC_AVG: u32 = 1048576;

/// Largest chunk; also the window a cut is looked for in.
pub const CDC_MAX: u32 = 4194304;

/// Where FastCDC (v2020, these sizes, normalisation level 1) ends the first
/// chunk of `window`.
pub uninterp spec fn cdc_cut_point(window: Seq<u8>) -> nat;

/// `fastcdc::v2020::FastCDC::cut` over the whole window. From the crate's
/// source: a window no longer than the minimum is one chunk; otherwise the
/// cut lies between the minimum and the end of the window.
#[verifier::external_body]
fn cdc_cut(window: &[u8]) -> (r: usize)
    requires
        0 < window@.len() <= CDC_MAX,
    ensures
        r == cdc_cut_point(window@),
        window@.len() <= CDC_MIN ==> r == window@.len(),
        window@.len() > CDC_MIN ==> CDC_MIN <= r <= window@.len(),
{
    fastcdc::v2020::FastCDC::new(window, CDC_MIN, CDC_AVG, CDC_MAX).cut(0, window.len()).1
}

/// The bytes a cut leaves in the first chunk of `d`: FastCDC's cut in the
/// window at the start of `d` (any answer outside the window takes the
/// whole window).
pub open spec fn first_chunk_len(d: Seq<u8>) -> int {
    let w = d.take(if d.len() < CDC_MAX { d.len() as int } else { CDC_MAX as int });
    let c = cdc_cut_point(w);
    if 1 <= c && c <= w.len() {
        c as int
    } else {
        w.len() as int
    }
}

/// The chunks of a whole file, in order.
pub open spec fn spec_chunks(d: Seq<u8>) -> Seq<Seq<u8>>
    decreases d.len(),
{
    if d.len() == 0 {
        Seq::empty()
    } else {
        let n = first_chunk_len(d);
        seq![d.take(n)] + spec_chunks(d.skip(n))
    }
}

/// Chunks laid end to end.
pub open spec fn join(chunks: Seq<Seq<u8>>) -> Seq<u8>
    decreases chunks.len(),
{
    if chunks.len() == 0 {
        Seq::empty()
    } else {
        chunks[0] + join(chunks.drop_first())
    }
}

proof fn lemma_join_push(chunks: Seq<Seq<u8>>, c: Seq<u8>)
    ensures
        join(chunks.push(c)) == join(chunks) + c,
    decreases chunks.len(),
{
    if chunks.len() == 0 {
        let s = chunks.push(c);
        assert(s.drop_first() =~= Seq::<Seq<u8>>::empty());
        assert(join(s.drop_first()) == Seq::<u8>::empty());
        assert(s[0] == c);
        assert(join(s) =~= c);
        assert(join(chunks) == Seq::<u8>::empty());
        assert(join(chunks) + c =~= c);
    } else {
        assert(chunks.push(c).drop_first() =~= chunks.drop_first().push(c));
        lemma_join_push(chunks.drop_first(), c);
        assert(join(chunks.push(c)) =~= join(chunks) + c);
    }
}

proof fn lemma_first_chunk(d: Seq<u8>)
    requires
        d.len() > 0,
    ensures
        1 <= first_chunk_len(d) <= d.len(),
        first_chunk_len(d) <= CDC_MAX,
{
}

/// The chunks of a file join back into the file; none is empty and none is
/// longer than `CDC_MAX`.
pub proof fn law_chunks_join_to_the_file(d: Seq<u8>)
    ensures
        join(spec_chunks(d)) == d,
        forall|i: int|
            0 <= i < spec_chunks(d).len() ==> 0 < #[trigger] spec_chunks(d)[i].len() <= CDC_MAX,
    decreases d.len(),
{
    if d.len() > 0 {
        let n = first_chunk_len(d);
        lemma_first_chunk(d);
        law_chunks_join_to_the_file(d.skip(n));
        let s = spec_chunks(d);
        assert(s.drop_first() =~= spec_chunks(d.skip(n)));
        assert(join(s) =~= d.take(n) + join(spec_chunks(d.skip(n))));
        assert(d =~= d.take(n) + d.skip(n));
        assert forall|i: int| 0 <= i < s.len() implies 0 < #[trigger] s[i].len() <= CDC_MAX by {
            if i > 0 {
                assert(s[i] == spec_chunks(d.skip(n))[i - 1]);
            }
        }
    }
}

/// Reads a file in pieces and hands out its chunks as soon as they are
/// known: a cut is made once a full window is buffered or the input ended.
pub struct Chunker {
    buffer: Vec<u8>,
    ended: bool,
    fed: Ghost<Seq<u8>>,
    emitted: Ghost<Seq<Seq<u8>>>,
}

impl Chunker {
    /// All bytes fed so far.
    pub closed spec fn input(&self) -> Seq<u8> {
        self.fed@
    }

    /// The chunks handed out so far.
    pub closed spec fn chunks_out(&self) -> Seq<Seq<u8>> {
        self.emitted@
    }

    /// The input has ended.
    pub closed spec fn input_ended(&self) -> bool {
        self.ended
    }

    /// Bytes fed but not yet handed out.
    pub closed spec fn held(&self) -> Seq<u8> {
        self.buffer@
    }

    /// What was handed out and what is held make up the input, and the
    /// chunks handed out are the first chunks of the whole file, whatever
    /// bytes are still to come.
    pub closed spec fn wf(&self) -> bool {
        &&& join(self.emitted@) + self.buffer@ == self.fed@
        &&& self.ended ==> spec_chunks(self.fed@) == self.emitted@ + spec_chunks(self.buffer@)
        &&& !self.ended ==> forall|rest: Seq<u8>|
            #[trigger] spec_chunks(self.fed@ + rest) == self.emitted@ + spec_chunks(self.buffer@ + rest)
    }

    pub fn new() -> (r: Self)
        ensures
            r.wf(),
            r.input() == Seq::<u8>::empty(),
            r.chunks_out() == Seq::<Seq<u8>>::empty(),
            !r.input_ended(),
    {
        let r = Chunker {
            buffer: Vec::new(),
            ended: false,
            fed: Ghost(Seq::empty()),
            emitted: Ghost(Seq::empty()),
        };
        assert(join(r.emitted@) + r.buffer@ =~= r.fed@);
        assert forall|rest: Seq<u8>| #[trigger]
            spec_chunks(r.fed@ + rest) == r.emitted@ + spec_chunks(r.buffer@ + rest) by {
            assert(r.fed@ + rest =~= rest);
            assert(r.buffer@ + rest =~= rest);
            assert(r.emitted@ + spec_chunks(rest) =~= spec_chunks(rest));
        }
        r
    }

    /// Should more of the file be read before the next chunk is asked for?
    pub fn wants_input(&self) -> (r: bool)
        ensures
            r == (!self.input_ended() && self.held().len() < CDC_MAX),
    {
        !self.ended && self.buffer.len() < CDC_MAX as usize
    }

    /// Everything was read and handed out.
    pub fn finished(&self) -> (r: bool)
        ensures
            r == (self.input_ended() && self.held().len() == 0),
    {
        self.ended && self.buffer.len() == 0
    }

    /// The next piece of the file.
    pub fn feed(&mut self, bytes: &[u8])
        requires
            old(self).wf(),
            !old(self).input_ended(),
        ensures
            final(self).wf(),
            final(self).input() == old(self).input() + bytes@,
            final(self).chunks_out() == old(self).chunks_out(),
            final(self).held() == old(self).held() + bytes@,
            !final(self).input_ended(),
    {
        let ghost old_buffer = self.buffer@;
        let ghost old_fed = self.fed@;
        let mut i: usize = 0;
        while i < bytes.len()
            invariant
                i <= bytes@.len(),
                self.buffer@ == old_buffer + bytes@.take(i as int),
                old_buffer == old(self).buffer@,
                old_fed == old(self).fed@,
                self.fed == old(self).fed,
                self.emitted == old(self).emitted,
                self.ended == old(self).ended,
            decreases bytes@.len() - i,
        {
            self.buffer.push(bytes[i]);
            assert(bytes@.take(i + 1) =~= bytes@.take(i as int).push(bytes@[i as int]));
            i = i + 1;
        }
        assert(bytes@.take(bytes@.len() as int) =~= bytes@);
        self.fed = Ghost(old_fed + bytes@);
        proof {
            assert(join(self.emitted@) + self.buffer@ =~= self.fed@);
            assert forall|rest: Seq<u8>| #[trigger]
                spec_chunks(self.fed@ + rest) == self.emitted@ + spec_chunks(self.buffer@ + rest) by {
                assert(self.fed@ + rest =~= old_fed + (bytes@ + rest));
                assert(self.buffer@ + rest =~= old_buffer + (bytes@ + rest));
                assert(spec_chunks(old_fed + (bytes@ + rest)) == self.emitted@ + spec_chunks(
                    old_buffer + (bytes@ + rest),
                ));
            }
        }
    }

    /// The file has no more bytes.
    pub fn end_input(&mut self)
        requires
            old(self).wf(),
        ensures
            final(self).wf(),
            final(self).input() == old(self).input(),
            final(self).chunks_out() == old(self).chunks_out(),
            final(self).held() == old(self).held(),
            final(self).input_ended(),
    {
        if !self.ended {
            proof {
                let e = Seq::<u8>::empty();
                assert(spec_chunks(self.fed@ + e) == self.emitted@ + spec_chunks(self.buffer@ + e));
                assert(self.fed@ + e =~= self.fed@);
                assert(self.buffer@ + e =~= self.buffer@);
            }
            self.ended = true;
        }
    }

    /// The next chunk, once it is known: a full window is held or the input
    /// ended. `None` while more input is needed, and after the last chunk.
    /// When the input ended and no chunk is left, the chunks handed out are
    /// exactly the chunks of the whole file.
    pub fn next_chunk(&mut self) -> (r: Option<Vec<u8>>)
        requires
            old(self).wf(),
        ensures
            final(self).wf(),
            final(self).input() == old(self).input(),
            final(self).input_ended() == old(self).input_ended(),
            match r {
                Some(c) => {
                    &&& final(self).chunks_out() == old(self).chunks_out().push(c@)
                    &&& old(self).held() == c@ + final(self).held()
                    &&& 0 < c@.len() <= CDC_MAX
                },
                None => {
                    &&& final(self).chunks_out() == old(self).chunks_out()
                    &&& final(self).held() == old(self).held()
                    &&& (old(self).input_ended() ==> old(self).held().len() == 0)
                    &&& (!old(self).input_ended() ==> old(self).held().len() < CDC_MAX)
                },
            },
            r is None && final(self).input_ended() ==> final(self).chunks_out() == spec_chunks(
                final(self).input(),
            ),
    {
        let len = self.buffer.len();
        if len == 0 || (!self.ended && len < CDC_MAX as usize) {
            proof {
                if self.ended {
                    assert(self.buffer@ =~= Seq::<u8>::empty());
                    assert(self.emitted@ + spec_chunks(self.buffer@) =~= self.emitted@);
                }
            }
            return None;
        }
        let wlen: usize = if len < CDC_MAX as usize {
            len
        } else {
            CDC_MAX as usize
        };
        let n = cdc_cut(vstd::slice::slice_subrange(self.buffer.as_slice(), 0, wlen));
        let ghost buf = self.buffer@;
        proof {
            assert(buf.take(wlen as int) =~= buf.subrange(0, wlen as int));
            assert(first_chunk_len(buf) == n);
        }
        let mut chunk = self.buffer.split_off(n);
        std::mem::swap(&mut chunk, &mut self.buffer);
        let ghost old_emitted = self.emitted@;
        self.emitted = Ghost(old_emitted.push(chunk@));
        proof {
            assert(chunk@ =~= buf.take(n as int));
            assert(self.buffer@ =~= buf.skip(n as int));
            lemma_join_push(old_emitted, chunk@);
            assert(buf =~= chunk@ + self.buffer@);
            assert(join(self.emitted@) + self.buffer@ =~= self.fed@);
            if self.ended {
                assert(spec_chunks(buf) == seq![buf.take(n as int)] + spec_chunks(buf.skip(n as int)));
                assert(self.emitted@ + spec_chunks(self.buffer@) =~= old_emitted + spec_chunks(buf));
            } else {
                assert forall|more: Seq<u8>| #[trigger]
                    spec_chunks(self.fed@ + more) == self.emitted@ + spec_chunks(self.buffer@ + more) by {
                    let d = buf + more;
                    assert(d.take(CDC_MAX as int) =~= buf.take(CDC_MAX as int));
                    assert(first_chunk_len(d) == n);
                    assert(d.take(n as int) =~= chunk@);
                    assert(d.skip(n as int) =~= self.buffer@ + more);
                    assert(spec_chunks(d) == seq![d.take(n as int)] + spec_chunks(d.skip(n as int)));
                    assert(spec_chunks(self.fed@ + more) == old_emitted + spec_chunks(d));
                    assert(self.emitted@ + spec_chunks(self.buffer@ + more) =~= old_emitted + spec_chunks(d));
                }
            }
        }
        Some(chunk)
    }
}

} // verus!
