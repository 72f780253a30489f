//! Gathering the bytes of a stream into whole lines.

use vstd::prelude::*;

verus! {

/// The line feed that ends a line.
pub const LINE_FEED: u8 = 10;

/// The bytes of a line that has not ended yet.
#[derive(Debug)]
pub struct LineGatherer {
    pending: Vec<u8>,
}

impl LineGatherer {
    /// The bytes read since the last line feed.
    pub closed spec fn held(&self) -> Seq<u8> {
        self.pending@
    }

    /// A gatherer that holds no bytes.
    pub fn new() -> (gatherer: LineGatherer)
        ensures
            gatherer.held() == Seq::<u8>::empty(),
    {
        LineGatherer { pending: Vec::new() }
    }

    /// Takes the next byte of the stream. A line feed ends the line: the
    /// whole line, line feed included, is handed out and nothing is held
    /// back. Any other byte is held.
    pub fn feed(&mut self, byte: u8) -> (line: Option<Vec<u8>>)
        ensures
            byte == LINE_FEED ==> line is Some && line->Some_0@ == old(self).held().push(byte)
                && final(self).held() == Seq::<u8>::empty(),
            byte != LINE_FEED ==> line is None && final(self).held() == old(self).held().push(
                byte,
            ),
    {
        self.pending.push(byte);
        if byte == LINE_FEED {
            let mut line: Vec<u8> = Vec::new();
            std::mem::swap(&mut line, &mut self.pending);
            Some(line)
        } else {
            None
        }
    }
}

} // verus!
