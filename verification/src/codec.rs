//! Framing of lines on a raw byte stream.
//!
//! A line is written as its bytes followed by one delimiter; reading splits
//! an incoming byte stream at each delimiter, stripping it.  [`split_from`]
//! is the specification of that split, [`LineReader`] the incremental
//! executable decoder, and the lemmas at the bottom state the laws: a split
//! loses no byte, and an encoded line decodes back to exactly itself.

use vstd::prelude::*;

use crate::line::{line_wf, Line, DELIM};

verus! {

/// A line body followed by the delimiter: how one line goes on the wire.
pub open spec fn encoded(s: Seq<u8>) -> Seq<u8> {
    s.push(DELIM)
}

/// Splitting a byte stream into lines, starting from a partial line `part`
/// already read: feeds `s` byte by byte, emitting the partial line at each
/// delimiter.  Returns the complete lines (delimiter stripped, in order) and
/// the unterminated remainder.
pub open spec fn split_from(part: Seq<u8>, s: Seq<u8>) -> (Seq<Seq<u8>>, Seq<u8>)
    decreases s.len(),
{
    if s.len() == 0 {
        (Seq::empty(), part)
    } else {
        let prev = split_from(part, s.drop_last());
        if s.last() == DELIM {
            (prev.0.push(prev.1), Seq::empty())
        } else {
            (prev.0, prev.1.push(s.last()))
        }
    }
}

/// The wire image of a sequence of lines: each encoded, in order.
pub open spec fn join(lines: Seq<Seq<u8>>) -> Seq<u8>
    decreases lines.len(),
{
    if lines.len() == 0 {
        Seq::empty()
    } else {
        join(lines.drop_last()) + encoded(lines.last())
    }
}

/// Writes one line on the wire: its bytes, then the delimiter.
pub fn encode_line(line: &Line) -> (out: Vec<u8>)
    ensures
        out@ == encoded(line@),
{
    let mut out = line.clone_line().into_bytes();
    out.push(DELIM);
    out
}

/// Incremental line decoder: buffers the bytes of the line in progress and
/// emits a line at each delimiter.
pub struct LineReader {
    buf: Vec<u8>,
}

impl View for LineReader {
    type V = Seq<u8>;

    closed spec fn view(&self) -> Seq<u8> {
        self.buf@
    }
}

impl LineReader {
    /// The buffered partial line never holds a delimiter.
    pub open spec fn wf(&self) -> bool {
        line_wf(self@)
    }

    pub fn new() -> (r: LineReader)
        ensures
            r@ == Seq::<u8>::empty(),
            r.wf(),
    {
        LineReader { buf: Vec::new() }
    }

    /// Feeds one chunk read from the stream; returns every line completed by
    /// it.  The lines and the bytes left buffered are exactly what
    /// [`split_from`] says: no byte is lost, reordered, or invented.
    pub fn push_bytes(&mut self, chunk: &[u8]) -> (out: Vec<Line>)
        requires
            old(self).wf(),
        ensures
            final(self).wf(),
            out@.map_values(|l: Line| l@) == split_from(old(self)@, chunk@).0,
            final(self)@ == split_from(old(self)@, chunk@).1,
            forall|i: int| 0 <= i < out@.len() ==> (#[trigger] out@[i]).wf(),
    {
        let mut out: Vec<Line> = Vec::new();
        let mut i: usize = 0;
        while i < chunk.len()
            invariant
                i <= chunk@.len(),
                self.wf(),
                out@.map_values(|l: Line| l@) == split_from(old(self)@, chunk@.take(i as int)).0,
                self@ == split_from(old(self)@, chunk@.take(i as int)).1,
                forall|k: int| 0 <= k < out@.len() ==> (#[trigger] out@[k]).wf(),
            decreases chunk@.len() - i,
        {
            proof {
                assert(chunk@.take(i + 1).drop_last() =~= chunk@.take(i as int));
                assert(chunk@.take(i + 1).last() == chunk@[i as int]);
            }
            let b = chunk[i];
            if b == DELIM {
                let mut done: Vec<u8> = Vec::new();
                core::mem::swap(&mut self.buf, &mut done);
                let ghost prev_out = out@.map_values(|l: Line| l@);
                let line = Line::from_raw(done);
                out.push(line);
                proof {
                    assert(out@.map_values(|l: Line| l@) =~= prev_out.push(line@));
                }
            } else {
                self.buf.push(b);
            }
            i += 1;
        }
        proof {
            assert(chunk@.take(chunk@.len() as int) =~= chunk@);
        }
        out
    }

    /// How many bytes of an unterminated line are buffered.  The decoder
    /// itself imposes no bound; a caller that wants one (to cap the memory a
    /// peer can pin with a single endless line) checks this after each push
    /// and treats an overrun as a stream failure.
    pub fn buffered_len(&self) -> (n: usize)
        ensures
            n == self@.len(),
    {
        self.buf.len()
    }
}

/// Conservation: splitting loses nothing.  Re-encoding the lines a split
/// produced and appending the remainder rebuilds the input bytes exactly.
pub proof fn lemma_split_reconstruct(part: Seq<u8>, s: Seq<u8>)
    ensures
        join(split_from(part, s).0) + split_from(part, s).1 == part + s,
    decreases s.len(),
{
    if s.len() == 0 {
        assert(join(split_from(part, s).0) + split_from(part, s).1 =~= part + s);
    } else {
        lemma_split_reconstruct(part, s.drop_last());
        let prev = split_from(part, s.drop_last());
        if s.last() == DELIM {
            assert(split_from(part, s).0.drop_last() =~= prev.0);
            assert(join(split_from(part, s).0) + split_from(part, s).1 =~= (join(prev.0) + prev.1)
                + seq![s.last()]);
            assert(part + s =~= (part + s.drop_last()) + seq![s.last()]);
        } else {
            assert(join(split_from(part, s).0) + split_from(part, s).1 =~= (join(prev.0) + prev.1)
                + seq![s.last()]);
            assert(part + s =~= (part + s.drop_last()) + seq![s.last()]);
        }
    }
}

/// A delimiter-free chunk completes no line: it only extends the partial one.
pub proof fn lemma_split_no_delim(part: Seq<u8>, s: Seq<u8>)
    requires
        line_wf(s),
    ensures
        split_from(part, s) == (Seq::<Seq<u8>>::empty(), part + s),
    decreases s.len(),
{
    if s.len() == 0 {
        assert(part + s =~= part);
        assert(split_from(part, s) == (Seq::<Seq<u8>>::empty(), part + s));
    } else {
        assert(line_wf(s.drop_last()));
        lemma_split_no_delim(part, s.drop_last());
        assert(s.last() != DELIM);
        assert((part + s.drop_last()).push(s.last()) =~= part + s);
        assert(split_from(part, s) == (Seq::<Seq<u8>>::empty(), part + s));
    }
}

/// Round trip: a well-formed line, encoded and then split (after any
/// delimiter-free partial read `part`), comes back as exactly one line,
/// `part` followed by the line's own bytes, with nothing left over.
pub proof fn lemma_split_encoded(part: Seq<u8>, l: Seq<u8>)
    requires
        line_wf(l),
    ensures
        split_from(part, encoded(l)) == (seq![part + l], Seq::<u8>::empty()),
{
    assert(encoded(l).drop_last() =~= l);
    lemma_split_no_delim(part, l);
    assert(split_from(part, encoded(l)).0 =~= seq![part + l]);
    assert(split_from(part, encoded(l)) == (seq![part + l], Seq::<u8>::empty()));
}

/// Round trip from a clean reader: encoding a well-formed line and decoding
/// the result yields that one line back, unchanged, and leaves nothing
/// buffered.
pub proof fn lemma_round_trip(l: Seq<u8>)
    requires
        line_wf(l),
    ensures
        split_from(Seq::empty(), encoded(l)) == (seq![l], Seq::<u8>::empty()),
{
    lemma_split_encoded(Seq::empty(), l);
    assert(Seq::<u8>::empty() + l =~= l);
    assert(seq![Seq::<u8>::empty() + l] =~= seq![l]);
}

} // verus!
