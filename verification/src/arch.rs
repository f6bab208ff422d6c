//! The decisions of the platform code: what goes out of the serial ports,
//! how input devices' bytes become keys and pointer movements, and which
//! devices and modes the drivers accept. The port and memory-mapped I/O
//! itself stays with the platform's start-up code.


pub mod riscv64;
pub mod uefi;
pub mod x86_64;

use vstd::prelude::*;

verus! {

/// What a serial console receives for `text`: each line feed preceded by
/// a carriage return.
pub open spec fn serial_text(text: Seq<u8>) -> Seq<u8>
    decreases text.len(),
{
    if text.len() == 0 {
        Seq::empty()
    } else {
        let last = text.last();
        serial_text(text.drop_last()) + if last == 0x0a {
            seq![0x0du8, 0x0a]
        } else {
            seq![last]
        }
    }
}

/// Text without line feeds goes to the serial console as it is, and a
/// line feed goes as a carriage return and a line feed.
pub proof fn lemma_serial_plain(text: Seq<u8>)
    ensures
        (forall|i: int| 0 <= i < text.len() ==> #[trigger] text[i] != 0x0a) ==> serial_text(text) == text,
        serial_text(seq![0x0au8]) == seq![0x0du8, 0x0a],
    decreases text.len(),
{
    if text.len() > 0 {
        lemma_serial_plain(text.drop_last());
        if forall|i: int| 0 <= i < text.len() ==> #[trigger] text[i] != 0x0a {
            assert(forall|i: int| 0 <= i < text.drop_last().len() ==> #[trigger] text.drop_last()[i] == text[i]);
            assert(text.drop_last() + seq![text.last()] =~= text);
        }
    }
    assert(seq![0x0au8].drop_last() =~= Seq::<u8>::empty());
    assert(serial_text(Seq::<u8>::empty()) == Seq::<u8>::empty());
    assert(serial_text(seq![0x0au8]) == serial_text(seq![0x0au8].drop_last()) + seq![0x0du8, 0x0a]);
    assert(Seq::<u8>::empty() + seq![0x0du8, 0x0a] =~= seq![0x0du8, 0x0a]);
}

/// The bytes a serial console receives for `text`.
pub fn serial_bytes(text: &[u8]) -> (bytes: Vec<u8>)
    ensures
        bytes@ == serial_text(text@),
{
    let mut bytes: Vec<u8> = Vec::new();
    let mut index: usize = 0;
    while index < text.len()
        invariant
            index <= text@.len(),
            bytes@ == serial_text(text@.subrange(0, index as int)),
        decreases text@.len() - index,
    {
        assert(text@.subrange(0, index + 1).drop_last() =~= text@.subrange(0, index as int));
        if text[index] == 0x0a {
            bytes.push(0x0d);
        }
        bytes.push(text[index]);
        index = index + 1;
    }
    assert(text@.subrange(0, text@.len() as int) =~= text@);
    bytes
}

/// `position` moved by `delta` and kept within `0..limit` (at 0 when
/// `limit` is 0).
pub open spec fn pointer_step(position: usize, delta: int, limit: usize) -> usize {
    let moved = if position + delta < 0 {
        0
    } else {
        position + delta
    };
    let last = if limit == 0 {
        0
    } else {
        limit - 1
    };
    (if moved < last {
        moved
    } else {
        last
    }) as usize
}

/// A pointer moved by any amount stays on the screen: below `limit`, or
/// at 0 when there is no screen. A move that stays on the screen is made
/// exactly; one past an edge stops at that edge.
pub proof fn lemma_pointer_on_screen(position: usize, delta: int, limit: usize)
    ensures
        limit > 0 ==> pointer_step(position, delta, limit) < limit,
        limit == 0 ==> pointer_step(position, delta, limit) == 0,
        0 <= position + delta < limit ==> pointer_step(position, delta, limit) == position + delta,
        limit > 0 && position + delta < 0 ==> pointer_step(position, delta, limit) == 0,
        limit > 0 && position + delta >= limit ==> pointer_step(position, delta, limit) == limit - 1,
{
}

/// Writing two texts one after the other gives the serial console what
/// writing them as one text does.
pub proof fn lemma_serial_text_concat(a: Seq<u8>, b: Seq<u8>)
    ensures
        serial_text(a + b) == serial_text(a) + serial_text(b),
    decreases b.len(),
{
    if b.len() == 0 {
        assert(a + b =~= a);
        assert(serial_text(a) + serial_text(b) =~= serial_text(a));
    } else {
        lemma_serial_text_concat(a, b.drop_last());
        assert((a + b).drop_last() =~= a + b.drop_last());
        assert((a + b).last() == b.last());
        let tail = if b.last() == 0x0a {
            seq![0x0du8, 0x0a]
        } else {
            seq![b.last()]
        };
        assert(serial_text(a) + serial_text(b.drop_last()) + tail =~= serial_text(a) + (
        serial_text(b.drop_last()) + tail));
    }
}

/// Moves a pointer coordinate by `delta`, within `0..limit`.
pub fn move_pointer(position: usize, delta: i32, limit: usize) -> (moved: usize)
    ensures
        moved == pointer_step(position, delta as int, limit),
{
    let last = limit.saturating_sub(1);
    if delta < 0 {
        let back = (0 - (delta as i64)) as usize;
        if back > position {
            0
        } else if position - back < last {
            position - back
        } else {
            last
        }
    } else {
        let forward = delta as usize;
        if position >= last || forward >= last - position {
            last
        } else {
            position + forward
        }
    }
}

} // verus!
