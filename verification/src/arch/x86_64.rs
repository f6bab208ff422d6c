//! The x86_64 BIOS platform: the boot record, the serial log, the PS/2
//! keyboard and mouse, the real-time clock, PCI configuration addresses and
//! the e1000 network card's register and ring decisions.
use vstd::prelude::*;
use vstd::string::StringSliceAdditionalSpecFns;
use crate::arch::{move_pointer, pointer_step, serial_bytes, serial_text};
use crate::framebuffer::{FbView, Framebuffer, UiAction};

verus! {

/// The value the stage-2 loader stores in `BootInfo::magic`.
pub const BOOT_MAGIC: u64 = 0x4555_4c42_534f_554c;

/// What the stage-2 loader hands to the kernel.
pub struct BootInfo {
    pub magic: u64,
    pub framebuffer: u64,
    pub width: u32,
    pub height: u32,
    pub pitch: u32,
    pub bits_per_pixel: u32,
    pub boot_drive: u8,
    pub padding: [u8; 7],
}

/// The loader found a linear framebuffer of 24 or 32 bits per pixel.
pub open spec fn boot_framebuffer_valid(info: BootInfo) -> bool {
    &&& info.magic == BOOT_MAGIC
    &&& info.framebuffer != 0
    &&& (info.bits_per_pixel == 24 || info.bits_per_pixel == 32)
}

/// The framebuffer the loader describes, or none.
pub fn boot_framebuffer(info: &BootInfo) -> (framebuffer: Framebuffer)
    ensures
        framebuffer@ == if boot_framebuffer_valid(*info) {
            FbView {
                address: info.framebuffer as usize,
                width: info.width as usize,
                height: info.height as usize,
                pitch: info.pitch as usize,
                bpp: info.bits_per_pixel as usize,
                draws: Seq::empty(),
            }
        } else {
            FbView { address: 0, width: 0, height: 0, pitch: 0, bpp: 0, draws: Seq::empty() }
        },
{
    if info.magic == BOOT_MAGIC && info.framebuffer != 0 && (info.bits_per_pixel == 24
        || info.bits_per_pixel == 32) {
        Framebuffer::new(
            info.framebuffer as usize,
            info.width as usize,
            info.height as usize,
            info.pitch as usize,
            info.bits_per_pixel as usize,
        )
    } else {
        Framebuffer::unavailable()
    }
}

/// The bytes the COM1 serial port is given for `text`.
pub fn debug_write(text: &str) -> (bytes: Vec<u8>)
    ensures
        bytes@ == serial_text(text.spec_bytes()),
{
    serial_bytes(text.as_bytes())
}

/// The bytes the COM1 serial port is given for a last message.
pub fn emergency_write(text: &str) -> (bytes: Vec<u8>)
    ensures
        bytes@ == serial_text(text.spec_bytes()),
{
    debug_write(text)
}

/// The keys of a scan-code row, in order.
pub open spec fn digit_keys() -> Seq<u8> {
    seq![0x31u8, 0x32, 0x33, 0x34, 0x35, 0x36, 0x37, 0x38, 0x39, 0x30]
}

pub open spec fn upper_letter_keys() -> Seq<u8> {
    seq![0x71u8, 0x77, 0x65, 0x72, 0x74, 0x79, 0x75, 0x69, 0x6f, 0x70]
}

pub open spec fn middle_letter_keys() -> Seq<u8> {
    seq![0x61u8, 0x73, 0x64, 0x66, 0x67, 0x68, 0x6a, 0x6b, 0x6c]
}

pub open spec fn lower_letter_keys() -> Seq<u8> {
    seq![0x7au8, 0x78, 0x63, 0x76, 0x62, 0x6e, 0x6d]
}

/// The byte of a set-1 make code without shift: F1-F4 and F8 become
/// 0xf1-0xf4 and 0xf8, Enter a line feed, Backspace 8.
pub open spec fn key_byte(code: u8) -> Option<u8> {
    if code == 0x3b {
        Some(0xf1u8)
    } else if code == 0x3c {
        Some(0xf2u8)
    } else if code == 0x3d {
        Some(0xf3u8)
    } else if code == 0x3e {
        Some(0xf4u8)
    } else if code == 0x42 {
        Some(0xf8u8)
    } else if 0x02 <= code <= 0x0b {
        Some(digit_keys()[code - 0x02])
    } else if 0x10 <= code <= 0x19 {
        Some(upper_letter_keys()[code - 0x10])
    } else if 0x1e <= code <= 0x26 {
        Some(middle_letter_keys()[code - 0x1e])
    } else if 0x2c <= code <= 0x32 {
        Some(lower_letter_keys()[code - 0x2c])
    } else if code == 0x0c {
        Some(0x2du8)
    } else if code == 0x0d {
        Some(0x3du8)
    } else if code == 0x1a {
        Some(0x5bu8)
    } else if code == 0x1b {
        Some(0x5du8)
    } else if code == 0x27 {
        Some(0x3bu8)
    } else if code == 0x28 {
        Some(0x27u8)
    } else if code == 0x29 {
        Some(0x60u8)
    } else if code == 0x2b {
        Some(0x5cu8)
    } else if code == 0x33 {
        Some(0x2cu8)
    } else if code == 0x34 {
        Some(0x2eu8)
    } else if code == 0x35 {
        Some(0x2fu8)
    } else if code == 0x39 {
        Some(0x20u8)
    } else if code == 0x1c {
        Some(0x0au8)
    } else if code == 0x0e {
        Some(8u8)
    } else {
        None
    }
}

/// The byte of a key with shift held on a US layout.
pub open spec fn shifted_byte(byte: u8) -> u8 {
    if 0x61 <= byte <= 0x7a {
        (byte - 32) as u8
    } else if byte == 0x31 {
        0x21
    } else if byte == 0x32 {
        0x40
    } else if byte == 0x33 {
        0x23
    } else if byte == 0x34 {
        0x24
    } else if byte == 0x35 {
        0x25
    } else if byte == 0x36 {
        0x5e
    } else if byte == 0x37 {
        0x26
    } else if byte == 0x38 {
        0x2a
    } else if byte == 0x39 {
        0x28
    } else if byte == 0x30 {
        0x29
    } else if byte == 0x2d {
        0x5f
    } else if byte == 0x3d {
        0x2b
    } else if byte == 0x5b {
        0x7b
    } else if byte == 0x5d {
        0x7d
    } else if byte == 0x3b {
        0x3a
    } else if byte == 0x27 {
        0x22
    } else if byte == 0x2c {
        0x3c
    } else if byte == 0x2e {
        0x3e
    } else if byte == 0x2f {
        0x3f
    } else if byte == 0x5c {
        0x7c
    } else {
        byte
    }
}

/// The byte a make code types, with or without shift.
pub open spec fn spec_scan_code(code: u8, shift: bool) -> Option<u8> {
    match key_byte(code) {
        Some(byte) => Some(
            if shift {
                shifted_byte(byte)
            } else {
                byte
            },
        ),
        None => None,
    }
}

/// The keys follow the US QWERTY layout: make codes 0x02..=0x0b type
/// "1234567890" (with shift "!@#$%^&*()"), 0x10..=0x19 "qwertyuiop",
/// 0x1e..=0x26 "asdfghjkl" and 0x2c..=0x32 "zxcvbnm", each letter in
/// capitals with shift.
pub proof fn lemma_us_layout()
    ensures
        forall|i: int| 0 <= i < 10 ==> #[trigger] spec_scan_code((0x02 + i) as u8, false) == Some(
            seq![0x31u8, 0x32, 0x33, 0x34, 0x35, 0x36, 0x37, 0x38, 0x39, 0x30][i],
        ),
        forall|i: int| 0 <= i < 10 ==> #[trigger] spec_scan_code((0x02 + i) as u8, true) == Some(
            seq![0x21u8, 0x40, 0x23, 0x24, 0x25, 0x5e, 0x26, 0x2a, 0x28, 0x29][i],
        ),
        forall|i: int| 0 <= i < 10 ==> #[trigger] spec_scan_code((0x10 + i) as u8, false) == Some(
            seq![0x71u8, 0x77, 0x65, 0x72, 0x74, 0x79, 0x75, 0x69, 0x6f, 0x70][i],
        ),
        forall|i: int| 0 <= i < 10 ==> #[trigger] spec_scan_code((0x10 + i) as u8, true) == Some(
            seq![0x51u8, 0x57, 0x45, 0x52, 0x54, 0x59, 0x55, 0x49, 0x4f, 0x50][i],
        ),
        forall|i: int| 0 <= i < 9 ==> #[trigger] spec_scan_code((0x1e + i) as u8, false) == Some(
            seq![0x61u8, 0x73, 0x64, 0x66, 0x67, 0x68, 0x6a, 0x6b, 0x6c][i],
        ),
        forall|i: int| 0 <= i < 9 ==> #[trigger] spec_scan_code((0x1e + i) as u8, true) == Some(
            seq![0x41u8, 0x53, 0x44, 0x46, 0x47, 0x48, 0x4a, 0x4b, 0x4c][i],
        ),
        forall|i: int| 0 <= i < 7 ==> #[trigger] spec_scan_code((0x2c + i) as u8, false) == Some(
            seq![0x7au8, 0x78, 0x63, 0x76, 0x62, 0x6e, 0x6d][i],
        ),
        forall|i: int| 0 <= i < 7 ==> #[trigger] spec_scan_code((0x2c + i) as u8, true) == Some(
            seq![0x5au8, 0x58, 0x43, 0x56, 0x42, 0x4e, 0x4d][i],
        ),
{
    assert(digit_keys() =~= seq![0x31u8, 0x32, 0x33, 0x34, 0x35, 0x36, 0x37, 0x38, 0x39, 0x30]);
    assert(upper_letter_keys() =~= seq![0x71u8, 0x77, 0x65, 0x72, 0x74, 0x79, 0x75, 0x69, 0x6f, 0x70]);
    assert(middle_letter_keys() =~= seq![0x61u8, 0x73, 0x64, 0x66, 0x67, 0x68, 0x6a, 0x6b, 0x6c]);
    assert(lower_letter_keys() =~= seq![0x7au8, 0x78, 0x63, 0x76, 0x62, 0x6e, 0x6d]);
}

fn row_key(row: &[u8], index: u8) -> (byte: u8)
    requires
        index < row@.len(),
    ensures
        byte == row@[index as int],
{
    row[index as usize]
}

fn unshifted_key(code: u8) -> (byte: Option<u8>)
    ensures
        byte == key_byte(code),
{
    if code == 0x3b {
        Some(0xf1)
    } else if code == 0x3c {
        Some(0xf2)
    } else if code == 0x3d {
        Some(0xf3)
    } else if code == 0x3e {
        Some(0xf4)
    } else if code == 0x42 {
        Some(0xf8)
    } else if 0x02 <= code && code <= 0x0b {
        let row = [0x31u8, 0x32, 0x33, 0x34, 0x35, 0x36, 0x37, 0x38, 0x39, 0x30];
        assert(row@ =~= digit_keys());
        Some(row_key(&row, code - 0x02))
    } else if 0x10 <= code && code <= 0x19 {
        let row = [0x71u8, 0x77, 0x65, 0x72, 0x74, 0x79, 0x75, 0x69, 0x6f, 0x70];
        assert(row@ =~= upper_letter_keys());
        Some(row_key(&row, code - 0x10))
    } else if 0x1e <= code && code <= 0x26 {
        let row = [0x61u8, 0x73, 0x64, 0x66, 0x67, 0x68, 0x6a, 0x6b, 0x6c];
        assert(row@ =~= middle_letter_keys());
        Some(row_key(&row, code - 0x1e))
    } else if 0x2c <= code && code <= 0x32 {
        let row = [0x7au8, 0x78, 0x63, 0x76, 0x62, 0x6e, 0x6d];
        assert(row@ =~= lower_letter_keys());
        Some(row_key(&row, code - 0x2c))
    } else if code == 0x0c {
        Some(0x2d)
    } else if code == 0x0d {
        Some(0x3d)
    } else if code == 0x1a {
        Some(0x5b)
    } else if code == 0x1b {
        Some(0x5d)
    } else if code == 0x27 {
        Some(0x3b)
    } else if code == 0x28 {
        Some(0x27)
    } else if code == 0x29 {
        Some(0x60)
    } else if code == 0x2b {
        Some(0x5c)
    } else if code == 0x33 {
        Some(0x2c)
    } else if code == 0x34 {
        Some(0x2e)
    } else if code == 0x35 {
        Some(0x2f)
    } else if code == 0x39 {
        Some(0x20)
    } else if code == 0x1c {
        Some(0x0a)
    } else if code == 0x0e {
        Some(8)
    } else {
        None
    }
}

fn shift_key(byte: u8) -> (shifted: u8)
    ensures
        shifted == shifted_byte(byte),
{
    if 0x61 <= byte && byte <= 0x7a {
        byte - 32
    } else if byte == 0x31 {
        0x21
    } else if byte == 0x32 {
        0x40
    } else if byte == 0x33 {
        0x23
    } else if byte == 0x34 {
        0x24
    } else if byte == 0x35 {
        0x25
    } else if byte == 0x36 {
        0x5e
    } else if byte == 0x37 {
        0x26
    } else if byte == 0x38 {
        0x2a
    } else if byte == 0x39 {
        0x28
    } else if byte == 0x30 {
        0x29
    } else if byte == 0x2d {
        0x5f
    } else if byte == 0x3d {
        0x2b
    } else if byte == 0x5b {
        0x7b
    } else if byte == 0x5d {
        0x7d
    } else if byte == 0x3b {
        0x3a
    } else if byte == 0x27 {
        0x22
    } else if byte == 0x2c {
        0x3c
    } else if byte == 0x2e {
        0x3e
    } else if byte == 0x2f {
        0x3f
    } else if byte == 0x5c {
        0x7c
    } else {
        byte
    }
}

/// Translates a set-1 make code into the byte it types.
pub fn scan_code(code: u8, shift: bool) -> (byte: Option<u8>)
    ensures
        byte == spec_scan_code(code, shift),
{
    match unshifted_key(code) {
        Some(normal) => {
            if shift {
                Some(shift_key(normal))
            } else {
                Some(normal)
            }
        },
        None => None,
    }
}

/// The controller holds a keyboard byte (output buffer full, not from the
/// auxiliary device).
pub open spec fn keyboard_byte_waiting(status: u8) -> bool {
    status & 1 != 0 && status & 0x20 == 0
}

/// Whether the PS/2 controller's status says a keyboard byte is waiting.
pub fn keyboard_ready(status: u8) -> (ready: bool)
    ensures
        ready == keyboard_byte_waiting(status),
{
    status & 1 != 0 && status & 0x20 == 0
}

/// The PS/2 keyboard: whether a shift key is held.
pub struct Keyboard {
    pub shift: bool,
}

/// The shift state after scan code `scan`.
pub open spec fn shift_after(shift: bool, scan: u8) -> bool {
    if scan == 0x2a || scan == 0x36 {
        true
    } else if scan == 0xaa || scan == 0xb6 {
        false
    } else {
        shift
    }
}

/// The byte that scan code `scan` types with shift state `shift`: none for
/// the shift keys themselves and for key releases.
pub open spec fn typed_byte(shift: bool, scan: u8) -> Option<u8> {
    if scan == 0x2a || scan == 0x36 || scan == 0xaa || scan == 0xb6 || scan >= 0x80 {
        None
    } else {
        spec_scan_code(scan, shift)
    }
}

/// Pressing either shift key (0x2a, 0x36) holds shift and releasing it
/// (0xaa, 0xb6) lets go; these and every other key release (0x80 and up)
/// type nothing, and other keys leave shift as it was. While shift is
/// held, a key types what `spec_scan_code` gives with shift.
pub proof fn lemma_shift_keys(shift: bool, scan: u8)
    ensures
        shift_after(shift, 0x2a) && shift_after(shift, 0x36),
        !shift_after(shift, 0xaa) && !shift_after(shift, 0xb6),
        scan != 0x2a && scan != 0x36 && scan != 0xaa && scan != 0xb6 ==> shift_after(shift, scan) == shift,
        scan >= 0x80 || scan == 0x2a || scan == 0x36 ==> typed_byte(shift, scan) is None,
        scan < 0x80 && scan != 0x2a && scan != 0x36 ==> typed_byte(shift_after(shift, 0x2a), scan)
            == spec_scan_code(scan, true) && typed_byte(shift_after(shift, 0xaa), scan)
            == spec_scan_code(scan, false),
{
}

impl Keyboard {
    pub fn new() -> (keyboard: Self)
        ensures
            !keyboard.shift,
    {
        Self { shift: false }
    }

    /// Takes one scan code from the keyboard and returns the byte it types.
    pub fn translate(&mut self, scan: u8) -> (byte: Option<u8>)
        ensures
            final(self).shift == shift_after(old(self).shift, scan),
            byte == typed_byte(old(self).shift, scan),
    {
        if scan == 0x2a || scan == 0x36 {
            self.shift = true;
            None
        } else if scan == 0xaa || scan == 0xb6 {
            self.shift = false;
            None
        } else if scan & 0x80 != 0 {
            assert(scan & 0x80 != 0 ==> scan >= 0x80) by (bit_vector);
            None
        } else {
            assert(scan & 0x80 == 0 ==> scan < 0x80) by (bit_vector);
            scan_code(scan, self.shift)
        }
    }
}

/// The desktop action of a typed byte.
pub open spec fn spec_shortcut(byte: u8) -> UiAction {
    if byte == 0xf1 {
        UiAction::Launcher
    } else if byte == 0xf2 {
        UiAction::Terminal
    } else if byte == 0xf3 {
        UiAction::Files
    } else if byte == 0xf4 {
        UiAction::Settings
    } else if byte == 0xf8 {
        UiAction::Installer
    } else {
        UiAction::NoAction
    }
}

/// The desktop action of a typed byte.
pub fn shortcut(byte: u8) -> (action: UiAction)
    ensures
        action == spec_shortcut(byte),
{
    if byte == 0xf1 {
        UiAction::Launcher
    } else if byte == 0xf2 {
        UiAction::Terminal
    } else if byte == 0xf3 {
        UiAction::Files
    } else if byte == 0xf4 {
        UiAction::Settings
    } else if byte == 0xf8 {
        UiAction::Installer
    } else {
        UiAction::NoAction
    }
}

/// A completed mouse packet, after the pointer moved.
#[derive(PartialEq, Eq, Structural, Debug, Clone, Copy)]
pub struct MouseEvent {
    pub x: usize,
    pub y: usize,
    pub dx: i32,
    pub dy: i32,
    pub left: bool,
    pub was_left: bool,
}

/// The PS/2 mouse: the packet being collected and the pointer it moves.
pub struct Mouse {
    packet: [u8; 3],
    packet_index: usize,
    pub x: usize,
    pub y: usize,
    pub width: usize,
    pub height: usize,
    pub left: bool,
    pub enabled: bool,
}

/// The mouse's state: the bytes of the packet collected so far.
pub struct MouseView {
    pub pending: Seq<u8>,
    pub x: usize,
    pub y: usize,
    pub width: usize,
    pub height: usize,
    pub left: bool,
    pub enabled: bool,
}

/// A byte as a two's-complement signed byte.
pub open spec fn signed_byte(byte: u8) -> int {
    if byte < 128 {
        byte as int
    } else {
        byte - 256
    }
}

/// The mouse after it took `byte`: bytes are collected into three-byte
/// packets whose first byte has bit 3 set; a complete packet without
/// overflow bits moves the pointer, kept on the screen, and sets the
/// button.
pub open spec fn mouse_after(m: MouseView, byte: u8) -> MouseView {
    if !m.enabled || (m.pending.len() == 0 && byte & 0x08 == 0) {
        m
    } else if m.pending.len() < 2 {
        MouseView { pending: m.pending.push(byte), ..m }
    } else {
        let p = m.pending.push(byte);
        if p[0] & 0xc0 != 0 {
            MouseView { pending: Seq::empty(), ..m }
        } else {
            MouseView {
                pending: Seq::empty(),
                x: pointer_step(m.x, signed_byte(p[1]), m.width),
                y: pointer_step(m.y, -signed_byte(p[2]), m.height),
                left: p[0] & 1 != 0,
                ..m
            }
        }
    }
}

/// The event the mouse reports when it takes `byte`.
pub open spec fn mouse_event(m: MouseView, byte: u8) -> Option<MouseEvent> {
    let n = mouse_after(m, byte);
    if m.enabled && m.pending.len() == 2 && m.pending[0] & 0xc0 == 0 {
        Some(
            MouseEvent {
                x: n.x,
                y: n.y,
                dx: signed_byte(m.pending[1]) as i32,
                dy: (-signed_byte(byte)) as i32,
                left: n.left,
                was_left: m.left,
            },
        )
    } else {
        None
    }
}

/// A PS/2 packet: a first byte with bit 3 set and no overflow bits
/// (0xc0), then the x and y movements as signed bytes. Fed to an enabled
/// mouse with nothing pending, it moves the pointer right by x and up by y
/// (screen y grows downward), kept on the screen, sets the left button
/// from bit 0 of the first byte, and is reported when its last byte
/// arrives. A first byte without bit 3 is dropped.
pub proof fn lemma_mouse_packet(m: MouseView, first: u8, dx: u8, dy: u8)
    requires
        m.enabled,
        m.pending.len() == 0,
    ensures
        first & 0x08 == 0 ==> mouse_after(m, first) == m && mouse_event(m, first) is None,
        first & 0x08 != 0 && first & 0xc0 == 0 ==> ({
            let m1 = mouse_after(m, first);
            let m2 = mouse_after(m1, dx);
            let m3 = mouse_after(m2, dy);
            let x = m.x + if dx < 128 {
                dx as int
            } else {
                dx - 256
            };
            let y = m.y - if dy < 128 {
                dy as int
            } else {
                dy - 256
            };
            &&& mouse_event(m, first) is None
            &&& mouse_event(m1, dx) is None
            &&& m3.pending.len() == 0
            &&& 0 <= x < m.width ==> m3.x == x
            &&& 0 <= y < m.height ==> m3.y == y
            &&& m3.left == (first & 1 == 1)
            &&& mouse_event(m2, dy) matches Some(e) && e.x == m3.x && e.y == m3.y && e.left == m3.left
                && e.was_left == m.left
        }),
{
    assert(first & 1 != 0 <==> first & 1 == 1) by (bit_vector);
}

/// Whether the PS/2 controller's status says a mouse byte is waiting.
pub fn mouse_ready(status: u8) -> (ready: bool)
    ensures
        ready == (status & 0x21 == 0x21),
{
    status & 0x21 == 0x21
}

fn signed(byte: u8) -> (value: i32)
    ensures
        value == signed_byte(byte),
{
    if byte < 128 {
        byte as i32
    } else {
        byte as i32 - 256
    }
}

impl Mouse {
    pub closed spec fn view(&self) -> MouseView {
        MouseView {
            pending: self.packet@.subrange(0, self.packet_index as int),
            x: self.x,
            y: self.y,
            width: self.width,
            height: self.height,
            left: self.left,
            enabled: self.enabled,
        }
    }

    #[verifier::type_invariant]
    closed spec fn wf(self) -> bool {
        self.packet_index < 3
    }

    /// A mouse on a `width` x `height` screen, its pointer in the middle;
    /// `enabled` says whether the controller accepted the mouse.
    pub fn new(width: usize, height: usize, enabled: bool) -> (mouse: Self)
        ensures
            mouse@ == (MouseView {
                pending: Seq::empty(),
                x: width / 2,
                y: height / 2,
                width,
                height,
                left: false,
                enabled,
            }),
    {
        let mouse = Self {
            packet: [0; 3],
            packet_index: 0,
            x: width / 2,
            y: height / 2,
            width,
            height,
            left: false,
            enabled,
        };
        assert(mouse@.pending =~= Seq::<u8>::empty());
        mouse
    }

    /// Takes one byte from the mouse.
    pub fn feed(&mut self, byte: u8) -> (event: Option<MouseEvent>)
        ensures
            final(self)@ == mouse_after(old(self)@, byte),
            event == mouse_event(old(self)@, byte),
    {
        proof { use_type_invariant(&*self); }
        let ghost m = self@;
        if !self.enabled {
            return None;
        }
        if self.packet_index == 0 && byte & 0x08 == 0 {
            return None;
        }
        let index = self.packet_index;
        self.packet[index] = byte;
        assert(self.packet@.subrange(0, index + 1) =~= m.pending.push(byte));
        if index < 2 {
            self.packet_index = index + 1;
            return None;
        }
        self.packet_index = 0;
        assert(self@.pending =~= Seq::<u8>::empty());
        let first = self.packet[0];
        if first & 0xc0 != 0 {
            return None;
        }
        let dx = signed(self.packet[1]);
        let dy = 0 - signed(self.packet[2]);
        self.x = move_pointer(self.x, dx, self.width);
        self.y = move_pointer(self.y, dy, self.height);
        let was_left = self.left;
        self.left = first & 1 != 0;
        Some(MouseEvent { x: self.x, y: self.y, dx, dy, left: self.left, was_left })
    }
}

/// A binary-coded decimal byte as a number.
pub open spec fn bcd(value: u8) -> u8 {
    ((value % 16) + (value / 16) * 10) as u8
}

/// The clock's reading: the hour, minute and second registers decoded
/// from BCD unless status register B says binary (bit 2), and a 12-hour
/// reading (bit 1 clear) turned into 0-23 by its PM bit.
pub open spec fn rtc_reading(second: u8, minute: u8, raw_hour: u8, mode: u8) -> (u8, u8, u8) {
    let decode = |value: u8|
        if mode & 0x04 != 0 {
            value
        } else {
            bcd(value)
        };
    let hour = decode(raw_hour % 128);
    let hour = if mode & 0x02 == 0 {
        if raw_hour >= 128 {
            (hour % 12 + 12) as u8
        } else {
            hour % 12
        }
    } else {
        hour
    };
    (hour, decode(minute), decode(second))
}

/// A reading in 12-hour mode always gives an hour of the day, 0 to 23.
pub proof fn lemma_twelve_hour_clock(second: u8, minute: u8, raw_hour: u8, mode: u8)
    requires
        mode & 0x02 == 0,
    ensures
        rtc_reading(second, minute, raw_hour, mode).0 < 24,
{
}

/// In BCD mode each register holds two decimal digits, tens in the high
/// nibble: the reading is their value. In 12-hour BCD mode the hours 1 to
/// 12 with the PM bit (0x80) clear or set become 0 to 23: 12 AM is 0 and
/// 12 PM is 12.
pub proof fn lemma_bcd_clock(second: u8, minute: u8, tens: u8, ones: u8, pm: bool, mode: u8)
    requires
        mode & 0x04 == 0,
        tens < 10,
        ones < 10,
    ensures
        rtc_reading(second, (tens * 16 + ones) as u8, 0, mode).1 == tens * 10 + ones,
        rtc_reading((tens * 16 + ones) as u8, minute, 0, mode).2 == tens * 10 + ones,
        mode & 0x02 != 0 && tens < 3 ==> rtc_reading(second, minute, (tens * 16 + ones) as u8, mode).0
            == tens * 10 + ones,
        mode & 0x02 == 0 && 1 <= tens * 10 + ones <= 12 ==> rtc_reading(
            second,
            minute,
            ((if pm { 0x80int } else { 0 }) + tens * 16 + ones) as u8,
            mode,
        ).0 == (tens * 10 + ones) % 12 + if pm {
            12int
        } else {
            0
        },
{
    let v = tens * 16 + ones;
    assert(v % 16 == ones && v / 16 == tens);
    if tens < 3 {
        let h = (if pm { 0x80int } else { 0 }) + v;
        assert(h % 128 == v);
        assert(v % 128 == v);
    }
}

fn decode_clock(value: u8, binary: bool) -> (decoded: u8)
    ensures
        decoded == if binary {
            value
        } else {
            bcd(value)
        },
{
    if binary {
        value
    } else {
        assert((value & 0x0f) == value % 16 && (value >> 4) == value / 16) by (bit_vector);
        (value & 0x0f) + ((value >> 4) * 10)
    }
}

/// The time of day from the clock's registers: none while an update is in
/// progress (status register A bit 7) or when the seconds changed between
/// the two readings.
pub fn rtc_time(status_a: u8, second: u8, minute: u8, raw_hour: u8, mode: u8, second_again: u8) -> (time: Option<(u8, u8, u8)>)
    ensures
        time == if status_a >= 0x80 || second != second_again {
            None
        } else {
            Some(rtc_reading(second, minute, raw_hour, mode))
        },
{
    if status_a & 0x80 != 0 {
        assert(status_a & 0x80 != 0 ==> status_a >= 0x80) by (bit_vector);
        return None;
    }
    assert(status_a & 0x80 == 0 ==> status_a < 0x80) by (bit_vector);
    if second != second_again {
        return None;
    }
    let binary = mode & 0x04 != 0;
    let second = decode_clock(second, binary);
    let minute = decode_clock(minute, binary);
    assert(raw_hour & 0x7f == raw_hour % 128) by (bit_vector);
    let mut hour = decode_clock(raw_hour & 0x7f, binary);
    if mode & 0x02 == 0 {
        assert(raw_hour & 0x80 != 0 <==> raw_hour >= 128) by (bit_vector);
        let afternoon = raw_hour & 0x80 != 0;
        hour = hour % 12;
        if afternoon {
            hour = hour + 12;
        }
    }
    Some((hour, minute, second))
}

/// The configuration-space address of a PCI register.
pub open spec fn pci_config_address(bus: u8, device: u8, function: u8, offset: u8) -> u32 {
    0x8000_0000u32 | ((bus as u32) << 16u32) | ((device as u32) << 11u32) | ((function as u32)
        << 8u32) | ((offset as u32) & 0xfcu32)
}

/// The value written to port 0xcf8 to reach a PCI register; for a device
/// below 32 and a function below 8 it is 0x8000_0000 plus the bus, device,
/// function and dword-aligned offset in their fields.
pub fn pci_address(bus: u8, device: u8, function: u8, offset: u8) -> (address: u32)
    ensures
        address == pci_config_address(bus, device, function, offset),
        device < 32 && function < 8 ==> address == 0x8000_0000 + bus * 0x10000 + device * 0x800
            + function * 0x100 + offset / 4 * 4,
{
    let address = 0x8000_0000u32 | ((bus as u32) << 16u32) | ((device as u32) << 11u32) | ((
    function as u32) << 8u32) | ((offset as u32) & 0xfcu32);
    let b = bus as u32;
    let d = device as u32;
    let f = function as u32;
    let o = offset as u32;
    assert(d < 32 && f < 8 && b < 256 && o < 256 ==> (0x8000_0000u32 | (b << 16u32) | (d << 11u32) | (
    f << 8u32) | (o & 0xfcu32)) == 0x8000_0000u32 + b * 0x10000u32 + d * 0x800u32 + f * 0x100u32 + o
        / 4u32 * 4u32) by (bit_vector);
    address
}

/// An Intel network controller (vendor 0x8086, class 2) whose BAR 0
/// maps memory: the register window's address.
pub open spec fn e1000_window(id: u32, class_register: u32, bar: u32) -> Option<u32> {
    if id != 0xffff_ffff && id % 0x10000 == 0x8086 && class_register / 0x100_0000 == 2 && bar
        % 2 == 0 {
        Some((bar / 16 * 16) as u32)
    } else {
        None
    }
}

/// Whether a PCI function is an e1000 with memory-mapped registers, and
/// where they are.
pub fn e1000_mmio(id: u32, class_register: u32, bar: u32) -> (window: Option<u32>)
    ensures
        window == e1000_window(id, class_register, bar),
{
    if id == 0xffff_ffff {
        return None;
    }
    let vendor = (id & 0xffff) as u16;
    let class = class_register >> 24u32;
    assert((id & 0xffff) == id % 0x10000 && (class_register >> 24u32) == class_register
        / 0x100_0000) by (bit_vector);
    if vendor == 0x8086 && class == 0x02 {
        if bar & 1 != 0 {
            assert(bar & 1 != 0 ==> bar % 2 == 1) by (bit_vector);
            return None;
        }
        assert(bar & 1 == 0 ==> bar % 2 == 0) by (bit_vector);
        assert((bar & 0xffff_fff0) == bar / 16 * 16) by (bit_vector);
        Some(bar & 0xffff_fff0)
    } else {
        None
    }
}

/// The PCI command register with memory-space and bus-master enabled.
pub fn enable_bus_master(command: u32) -> (enabled: u32)
    ensures
        enabled == command | 6u32,
{
    assert(((1u32 << 1u32) | (1u32 << 2u32)) == 6u32) by (bit_vector);
    command | ((1u32 << 1u32) | (1u32 << 2u32))
}

/// The station address from the receive-address registers, low byte first.
pub open spec fn mac_from_registers(ral: u32, rah: u32) -> Seq<u8> {
    seq![
        (ral % 0x100) as u8,
        (ral / 0x100 % 0x100) as u8,
        (ral / 0x1_0000 % 0x100) as u8,
        (ral / 0x100_0000) as u8,
        (rah % 0x100) as u8,
        (rah / 0x100 % 0x100) as u8,
    ]
}

/// The receive-address registers hold the station address low byte first:
/// the low register its first four bytes, the high register's low half the
/// last two (its upper half holds flags).
pub proof fn lemma_mac_byte_order(b0: u8, b1: u8, b2: u8, b3: u8, b4: u8, b5: u8, flags: u16)
    ensures
        mac_from_registers(
            (b0 + 0x100 * b1 + 0x1_0000 * b2 + 0x100_0000 * b3) as u32,
            (b4 + 0x100 * b5 + 0x1_0000 * flags) as u32,
        ) == seq![b0, b1, b2, b3, b4, b5],
{
    let ral = b0 + 0x100 * b1 + 0x1_0000 * b2 + 0x100_0000 * b3;
    let rah = b4 + 0x100 * b5 + 0x1_0000 * flags;
    assert(ral % 0x100 == b0 && ral / 0x100 % 0x100 == b1 && ral / 0x1_0000 % 0x100 == b2 && ral
        / 0x100_0000 == b3) by (nonlinear_arith)
        requires
            ral == b0 + 0x100 * b1 + 0x1_0000 * b2 + 0x100_0000 * b3,
            0 <= b0 < 256,
            0 <= b1 < 256,
            0 <= b2 < 256,
            0 <= b3 < 256,
    ;
    assert(rah % 0x100 == b4 && rah / 0x100 % 0x100 == b5) by (nonlinear_arith)
        requires
            rah == b4 + 0x100 * b5 + 0x1_0000 * flags,
            0 <= b4 < 256,
            0 <= b5 < 256,
            0 <= flags,
    ;
    assert(mac_from_registers(ral as u32, rah as u32) =~= seq![b0, b1, b2, b3, b4, b5]);
}

fn low_byte(word: u32, shift: u32) -> (byte: u8)
    requires
        shift == 0 || shift == 8 || shift == 16 || shift == 24,
    ensures
        shift == 0 ==> byte == word % 0x100,
        shift == 8 ==> byte == word / 0x100 % 0x100,
        shift == 16 ==> byte == word / 0x1_0000 % 0x100,
        shift == 24 ==> byte == word / 0x100_0000,
{
    assert((word >> 0u32) & 0xff == word % 0x100) by (bit_vector);
    assert((word >> 8u32) & 0xff == word / 0x100 % 0x100) by (bit_vector);
    assert((word >> 16u32) & 0xff == word / 0x1_0000 % 0x100) by (bit_vector);
    assert((word >> 24u32) & 0xff == word / 0x100_0000) by (bit_vector);
    ((word >> shift) & 0xff) as u8
}

/// The e1000's station address, or none when the registers hold zeros.
pub fn e1000_mac(ral: u32, rah: u32) -> (mac: Option<[u8; 6]>)
    ensures
        mac is None <==> mac_from_registers(ral, rah) == seq![0u8, 0, 0, 0, 0, 0],
        mac matches Some(m) ==> m@ == mac_from_registers(ral, rah),
{
    let mac = [
        low_byte(ral, 0),
        low_byte(ral, 8),
        low_byte(ral, 16),
        low_byte(ral, 24),
        low_byte(rah, 0),
        low_byte(rah, 8),
    ];
    if mac[0] == 0 && mac[1] == 0 && mac[2] == 0 && mac[3] == 0 && mac[4] == 0 && mac[5] == 0 {
        assert(mac_from_registers(ral, rah) =~= seq![0u8, 0, 0, 0, 0, 0]);
        None
    } else {
        assert(mac@ =~= mac_from_registers(ral, rah));
        Some(mac)
    }
}

/// Receive descriptors in the e1000's ring.
pub const RX_COUNT: usize = 16;

/// Transmit descriptors in the e1000's ring.
pub const TX_COUNT: usize = 8;

/// Bytes in each of the e1000's packet buffers.
pub const BUFFER_SIZE: usize = 2048;

/// The e1000's driver state: its address and the next descriptors of the
/// two rings.
pub struct E1000 {
    mac: [u8; 6],
    receive_index: usize,
    transmit_index: usize,
}

impl E1000 {
    #[verifier::type_invariant]
    closed spec fn wf(self) -> bool {
        self.receive_index < RX_COUNT && self.transmit_index < TX_COUNT
    }

    pub closed spec fn station(&self) -> [u8; 6] {
        self.mac
    }

    pub closed spec fn receive_slot(&self) -> usize {
        self.receive_index
    }

    pub closed spec fn transmit_slot(&self) -> usize {
        self.transmit_index
    }

    /// A freshly initialised card: both rings start at descriptor 0.
    pub fn new(mac: [u8; 6]) -> (card: Self)
        ensures
            card.station() == mac,
            card.receive_slot() == 0,
            card.transmit_slot() == 0,
    {
        Self { mac, receive_index: 0, transmit_index: 0 }
    }

    /// The card's station address.
    pub fn mac_address(&self) -> (mac: [u8; 6])
        ensures
            mac == self.station(),
    {
        self.mac
    }

    /// The receive descriptor to look at next.
    pub fn receive_index(&self) -> (index: usize)
        ensures
            index == self.receive_slot(),
            index < RX_COUNT,
    {
        proof { use_type_invariant(self); }
        self.receive_index
    }

    /// The transmit descriptor to use next.
    pub fn transmit_index(&self) -> (index: usize)
        ensures
            index == self.transmit_slot(),
            index < TX_COUNT,
    {
        proof { use_type_invariant(self); }
        self.transmit_index
    }

    /// Takes the frame of the current receive descriptor, `length` bytes
    /// long, into a buffer of `capacity` bytes: how many bytes to copy; the
    /// ring moves to the next descriptor.
    pub fn received(&mut self, length: u16, capacity: usize) -> (copied: usize)
        ensures
            copied == vstd::math::min(vstd::math::min(length as int, capacity as int), BUFFER_SIZE as int),
            final(self).station() == old(self).station(),
            final(self).receive_slot() == (old(self).receive_slot() + 1) % (RX_COUNT as int),
            final(self).transmit_slot() == old(self).transmit_slot(),
    {
        proof { use_type_invariant(&*self); }
        let mut copied = length as usize;
        if capacity < copied {
            copied = capacity;
        }
        if BUFFER_SIZE < copied {
            copied = BUFFER_SIZE;
        }
        self.receive_index = (self.receive_index + 1) % RX_COUNT;
        copied
    }

    /// Whether a frame of `length` bytes fits a transmit buffer.
    pub fn fits(length: usize) -> (fits: bool)
        ensures
            fits == (length <= BUFFER_SIZE),
    {
        length <= BUFFER_SIZE
    }

    /// Moves the transmit ring on after a frame was placed in the current
    /// descriptor; returns the new tail.
    pub fn transmitted(&mut self) -> (tail: usize)
        ensures
            tail == final(self).transmit_slot(),
            final(self).station() == old(self).station(),
            final(self).transmit_slot() == (old(self).transmit_slot() + 1) % (TX_COUNT as int),
            final(self).receive_slot() == old(self).receive_slot(),
    {
        proof { use_type_invariant(&*self); }
        self.transmit_index = (self.transmit_index + 1) % TX_COUNT;
        self.transmit_index
    }
}

} // verus!
