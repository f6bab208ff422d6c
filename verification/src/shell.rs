//! The interactive command line: a fixed-size buffer of printable ASCII.
use vstd::prelude::*;
use vstd::string::StringSliceAdditionalSpecFns;
use crate::text::ascii_text;

verus! {

/// Capacity of the command line in bytes.
pub const LINE_CAPACITY: usize = 80;

/// What the terminal should do after one byte was fed to the shell.
#[derive(PartialEq, Eq, Structural, Debug, Clone, Copy)]
pub enum FeedResult {
    /// The byte was appended and should be echoed.
    Echo(u8),
    /// The last byte was removed.
    Backspace,
    /// A complete command line is ready.
    Ready,
    /// The byte had no effect.
    Ignored,
}

pub struct Shell {
    buffer: [u8; 80],
    length: usize,
}

/// Printable ASCII, the only bytes the shell stores.
pub open spec fn is_printable(byte: u8) -> bool {
    0x20 <= byte <= 0x7e
}

/// Bytes that terminate a command line.
pub open spec fn is_line_end(byte: u8) -> bool {
    byte == 0x0d || byte == 0x0a
}

/// Bytes that erase the previous character (backspace and delete).
pub open spec fn is_erase(byte: u8) -> bool {
    byte == 8 || byte == 127
}

/// The line after feeding `byte` to a shell holding `line`.
pub open spec fn spec_feed_line(line: Seq<u8>, byte: u8) -> Seq<u8> {
    if is_line_end(byte) {
        line
    } else if is_erase(byte) {
        if line.len() > 0 { line.drop_last() } else { line }
    } else if is_printable(byte) && line.len() < LINE_CAPACITY {
        line.push(byte)
    } else {
        line
    }
}

/// What feeding `byte` to a shell holding `line` reports.
pub open spec fn spec_feed_result(line: Seq<u8>, byte: u8) -> FeedResult {
    if is_line_end(byte) {
        FeedResult::Ready
    } else if is_erase(byte) {
        if line.len() > 0 { FeedResult::Backspace } else { FeedResult::Ignored }
    } else if is_printable(byte) && line.len() < LINE_CAPACITY {
        FeedResult::Echo(byte)
    } else {
        FeedResult::Ignored
    }
}

/// A printable byte typed on a line that is not full is taken back by a
/// backspace; a line end leaves the line as it is.
pub proof fn lemma_backspace_undoes_echo(line: Seq<u8>, byte: u8)
    requires
        is_printable(byte),
        line.len() < LINE_CAPACITY,
    ensures
        spec_feed_result(line, byte) == FeedResult::Echo(byte),
        spec_feed_result(spec_feed_line(line, byte), 8) == FeedResult::Backspace,
        spec_feed_line(spec_feed_line(line, byte), 8) == line,
        spec_feed_line(line, 0x0d) == line && spec_feed_line(line, 0x0a) == line,
{
    assert(line.push(byte).drop_last() =~= line);
}

/// What one typed byte does: bytes 0x20..=0x7e are appended while the
/// line holds fewer than 80 bytes; carriage return and line feed complete
/// the line; backspace and delete remove the last byte; anything else is
/// ignored. The line never grows past 80 bytes.
pub proof fn lemma_typed_byte(line: Seq<u8>, byte: u8)
    requires
        line.len() <= 80,
    ensures
        spec_feed_line(line, byte).len() <= 80,
        0x20 <= byte <= 0x7e && line.len() < 80 ==> spec_feed_line(line, byte) == line.push(byte)
            && spec_feed_result(line, byte) == FeedResult::Echo(byte),
        0x20 <= byte <= 0x7e && line.len() == 80 ==> spec_feed_line(line, byte) == line
            && spec_feed_result(line, byte) == FeedResult::Ignored,
        byte == 0x0d || byte == 0x0a ==> spec_feed_line(line, byte) == line && spec_feed_result(line, byte)
            == FeedResult::Ready,
        (byte == 8 || byte == 127) && line.len() > 0 ==> spec_feed_line(line, byte) == line.subrange(
            0,
            line.len() - 1,
        ) && spec_feed_result(line, byte) == FeedResult::Backspace,
        (byte == 8 || byte == 127) && line.len() == 0 ==> spec_feed_line(line, byte) == line
            && spec_feed_result(line, byte) == FeedResult::Ignored,
        (byte < 0x20 || byte > 0x7f) && byte != 8 && byte != 0x0d && byte != 0x0a ==> spec_feed_line(line, byte)
            == line && spec_feed_result(line, byte) == FeedResult::Ignored,
{
}

impl Shell {
    /// The current command line.
    pub closed spec fn view(&self) -> Seq<u8> {
        self.buffer@.subrange(0, self.length as int)
    }

    #[verifier::type_invariant]
    closed spec fn wf(self) -> bool {
        &&& self.length <= LINE_CAPACITY
        &&& forall|i: int| 0 <= i < self.length ==> is_printable(#[trigger] self.buffer@[i])
    }

    /// An empty command line.
    pub fn new() -> (shell: Self)
        ensures
            shell@ == Seq::<u8>::empty(),
    {
        let shell = Self { buffer: [0u8; 80], length: 0 };
        assert(shell@ =~= Seq::<u8>::empty());
        shell
    }

    /// Feeds one byte typed by the user.
    pub fn feed(&mut self, byte: u8) -> (result: FeedResult)
        ensures
            final(self)@ == spec_feed_line(old(self)@, byte),
            result == spec_feed_result(old(self)@, byte),
    {
        proof {
            use_type_invariant(&*self);
        }
        if byte == 0x0d || byte == 0x0a {
            FeedResult::Ready
        } else if byte == 8 || byte == 127 {
            if self.length > 0 {
                self.length = self.length - 1;
                assert(self@ =~= old(self)@.drop_last());
                FeedResult::Backspace
            } else {
                FeedResult::Ignored
            }
        } else if 0x20 <= byte && byte <= 0x7e && self.length < LINE_CAPACITY {
            let index = self.length;
            self.buffer[index] = byte;
            self.length = index + 1;
            assert(self@ =~= old(self)@.push(byte));
            FeedResult::Echo(byte)
        } else {
            FeedResult::Ignored
        }
    }

    /// The current command line as text.
    pub fn line(&self) -> (line: &str)
        ensures
            line.spec_bytes() == self@,
    {
        proof {
            use_type_invariant(self);
        }
        let bytes = &self.buffer.as_slice()[0..self.length];
        ascii_text(bytes)
    }

    /// The current command line's bytes, all printable ASCII.
    pub fn line_bytes(&self) -> (bytes: &[u8])
        ensures
            bytes@ == self@,
            bytes@.len() <= LINE_CAPACITY,
            forall|i: int| 0 <= i < bytes@.len() ==> is_printable(#[trigger] bytes@[i]),
    {
        proof {
            use_type_invariant(self);
        }
        &self.buffer.as_slice()[0..self.length]
    }

    /// Empties the command line.
    pub fn reset(&mut self)
        ensures
            final(self)@ == Seq::<u8>::empty(),
    {
        self.length = 0;
        assert(self@ =~= Seq::<u8>::empty());
    }
}

} // verus!
