//! The unit of transfer: a byte sequence with no embedded delimiter.

use vstd::prelude::*;

verus! {

/// The byte that terminates every line on both channels.
pub const DELIM: u8 = 10;

/// A byte sequence is a well-formed line body when it contains no delimiter.
pub open spec fn line_wf(s: Seq<u8>) -> bool {
    forall|i: int| 0 <= i < s.len() ==> s[i] != DELIM
}

/// One line: an immutable byte sequence with no embedded delimiter.
/// Text is carried opaquely; no decoding happens at this layer.
pub struct Line {
    bytes: Vec<u8>,
}

impl View for Line {
    type V = Seq<u8>;

    closed spec fn view(&self) -> Seq<u8> {
        self.bytes@
    }
}

impl Line {
    /// A line is well formed when its bytes hold no delimiter.
    pub open spec fn wf(&self) -> bool {
        line_wf(self@)
    }

    /// Accepts the bytes as a line exactly when they hold no delimiter.
    pub fn new(bytes: Vec<u8>) -> (r: Option<Line>)
        ensures
            match r {
                Some(l) => l@ == bytes@ && l.wf(),
                None => !line_wf(bytes@),
            },
    {
        let mut i: usize = 0;
        while i < bytes.len()
            invariant
                i <= bytes@.len(),
                forall|j: int| 0 <= j < i ==> bytes@[j] != DELIM,
            decreases bytes@.len() - i,
        {
            if bytes[i] == DELIM {
                return None;
            }
            i += 1;
        }
        Some(Line { bytes })
    }

    /// The empty line.
    pub fn empty() -> (r: Line)
        ensures
            r@ == Seq::<u8>::empty(),
            r.wf(),
    {
        Line { bytes: Vec::new() }
    }

    /// Builds a line from bytes already known to hold no delimiter.
    pub(crate) fn from_raw(bytes: Vec<u8>) -> (r: Line)
        requires
            line_wf(bytes@),
        ensures
            r@ == bytes@,
            r.wf(),
    {
        Line { bytes }
    }

    pub fn len(&self) -> (n: usize)
        ensures
            n == self@.len(),
    {
        self.bytes.len()
    }

    pub fn is_empty(&self) -> (b: bool)
        ensures
            b == (self@.len() == 0),
    {
        self.bytes.len() == 0
    }

    /// The line's bytes, without any delimiter.
    pub fn as_bytes(&self) -> (s: &[u8])
        ensures
            s@ == self@,
    {
        self.bytes.as_slice()
    }

    /// Gives the bytes up, consuming the line.
    pub fn into_bytes(self) -> (v: Vec<u8>)
        ensures
            v@ == self@,
    {
        self.bytes
    }

    /// An exact copy of the line.
    pub fn clone_line(&self) -> (r: Line)
        ensures
            r@ == self@,
    {
        let mut v: Vec<u8> = Vec::new();
        let mut i: usize = 0;
        while i < self.bytes.len()
            invariant
                i <= self.bytes@.len(),
                v@ == self.bytes@.take(i as int),
            decreases self.bytes@.len() - i,
        {
            v.push(self.bytes[i]);
            proof {
                assert(self.bytes@.take(i as int).push(self.bytes@[i as int]) =~= self.bytes@.take(
                    i + 1,
                ));
            }
            i += 1;
        }
        proof {
            assert(v@ =~= self.bytes@);
        }
        Line { bytes: v }
    }
}

} // verus!
