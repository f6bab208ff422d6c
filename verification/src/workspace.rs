//! The UEFI live workspace: pointer and key input from the firmware, the
//! firmware network card's checks and buffers, and the disk installer.
pub mod installer;

use vstd::prelude::*;
use vstd::string::StringSliceAdditionalSpecFns;
use crate::framebuffer::{decimal_digits, UiAction};
use crate::shell::Shell;
use crate::uefi::{InputKey, SimpleNetworkMode, Status, SUCCESS};

verus! {

/// `value / 8` rounded toward zero, as Rust's integer division does.
pub open spec fn eighth(value: int) -> int {
    if value >= 0 {
        value / 8
    } else {
        -((-value) / 8)
    }
}

/// The pointer movement for a firmware reading: an eighth of it, at least
/// one step in its direction and at most 48.
pub open spec fn spec_pointer_delta(value: int) -> int {
    if value == 0 {
        0
    } else if eighth(value) == 0 {
        if value > 0 {
            1
        } else {
            -1
        }
    } else if eighth(value) < -48 {
        -48
    } else if eighth(value) > 48 {
        48
    } else {
        eighth(value)
    }
}

/// A firmware pointer movement becomes a step in the same direction of 1
/// to 48 pixels: an eighth of the movement, rounded toward zero, when that
/// is between 1 and 48 pixels. A larger movement never gives a smaller
/// step.
pub proof fn lemma_pointer_scale(value: int, other: int)
    ensures
        value == 0 ==> spec_pointer_delta(value) == 0,
        value > 0 ==> 1 <= spec_pointer_delta(value) <= 48,
        value < 0 ==> -48 <= spec_pointer_delta(value) <= -1,
        8 <= value < 392 ==> spec_pointer_delta(value) == value / 8,
        -392 < value <= -8 ==> spec_pointer_delta(value) == -((-value) / 8),
        value <= other ==> spec_pointer_delta(value) <= spec_pointer_delta(other),
{
    if value <= other {
        if value >= 0 {
            assert(value / 8 <= other / 8) by (nonlinear_arith)
                requires
                    0 <= value <= other,
            ;
        } else if other <= 0 {
            assert((-other) / 8 <= (-value) / 8) by (nonlinear_arith)
                requires
                    0 <= -other <= -value,
            ;
        }
    }
    assert(value > 0 ==> value / 8 >= 0) by (nonlinear_arith);
    assert(value < 0 ==> (-value) / 8 >= 0) by (nonlinear_arith);
    assert(8 <= value ==> value / 8 >= 1) by (nonlinear_arith);
    assert(value <= -8 ==> (-value) / 8 >= 1) by (nonlinear_arith);
    assert(value < 392 ==> value / 8 <= 48) by (nonlinear_arith);
    assert(-392 < value ==> (-value) / 8 <= 48) by (nonlinear_arith);
}

/// Scales a firmware pointer movement to screen pixels.
pub fn pointer_delta(value: i32) -> (delta: i32)
    ensures
        delta == spec_pointer_delta(value as int),
{
    if value == 0 {
        return 0;
    }
    let wide = value as i64;
    let scaled: i64 = if wide >= 0 {
        wide / 8
    } else {
        0 - ((0 - wide) / 8)
    };
    if scaled == 0 {
        if value > 0 {
            1
        } else {
            -1
        }
    } else if scaled < -48 {
        -48
    } else if scaled > 48 {
        48
    } else {
        scaled as i32
    }
}

/// The byte a firmware key stroke types: its character when ASCII, 0
/// (nothing) otherwise.
pub fn key_byte(key: InputKey) -> (byte: u8)
    ensures
        byte == if key.unicode_char <= 0x7f {
            key.unicode_char as u8
        } else {
            0
        },
{
    if key.unicode_char <= 0x7f {
        key.unicode_char as u8
    } else {
        0
    }
}

/// The desktop action of a firmware scan code: F1-F4 and F8.
pub open spec fn spec_firmware_shortcut(scan_code: u16) -> UiAction {
    if scan_code == 0x0b {
        UiAction::Launcher
    } else if scan_code == 0x0c {
        UiAction::Terminal
    } else if scan_code == 0x0d {
        UiAction::Files
    } else if scan_code == 0x0e {
        UiAction::Settings
    } else if scan_code == 0x12 {
        UiAction::Installer
    } else {
        UiAction::NoAction
    }
}

/// The desktop action of a firmware key stroke.
pub fn firmware_shortcut(key: InputKey) -> (action: UiAction)
    ensures
        action == spec_firmware_shortcut(key.scan_code),
{
    if key.scan_code == 0x0b {
        UiAction::Launcher
    } else if key.scan_code == 0x0c {
        UiAction::Terminal
    } else if key.scan_code == 0x0d {
        UiAction::Files
    } else if key.scan_code == 0x0e {
        UiAction::Settings
    } else if key.scan_code == 0x12 {
        UiAction::Installer
    } else {
        UiAction::NoAction
    }
}

/// The Simple Network Protocol's state after `start`: it must still be
/// initialised.
pub const SNP_STARTED: u32 = 1;

/// The Simple Network Protocol's state once it can send and receive.
pub const SNP_INITIALIZED: u32 = 2;

/// A network mode the workspace can use: initialised, with a six-byte
/// address that is not all zeros, and with a link when the card reports
/// one.
pub open spec fn snp_usable(mode: SimpleNetworkMode) -> bool {
    &&& mode.state == SNP_INITIALIZED
    &&& mode.hardware_address_size >= 6
    &&& !(mode.media_present_supported != 0 && mode.media_present == 0)
    &&& mode.current_address.address@.subrange(0, 6) != seq![0u8, 0, 0, 0, 0, 0]
}

/// The card's address when its mode is usable.
pub fn snp_address(mode: &SimpleNetworkMode) -> (mac: Option<[u8; 6]>)
    ensures
        mac is Some <==> snp_usable(*mode),
        mac matches Some(m) ==> m@ == mode.current_address.address@.subrange(0, 6),
{
    if mode.state != SNP_INITIALIZED || mode.hardware_address_size < 6 || (
    mode.media_present_supported != 0 && mode.media_present == 0) {
        return None;
    }
    let a = &mode.current_address.address;
    let mac = [a[0], a[1], a[2], a[3], a[4], a[5]];
    assert(mac@ =~= mode.current_address.address@.subrange(0, 6));
    if mac[0] == 0 && mac[1] == 0 && mac[2] == 0 && mac[3] == 0 && mac[4] == 0 && mac[5] == 0 {
        assert(mac@ =~= seq![0u8, 0, 0, 0, 0, 0]);
        None
    } else {
        Some(mac)
    }
}

/// How many bytes of a received frame the stack gets: what the firmware
/// reported, at most the buffer's size; nothing unless the call succeeded.
pub fn received_length(status: Status, reported: usize, capacity: usize) -> (length: Option<usize>)
    ensures
        length == if status == SUCCESS {
            Some(vstd::math::min(reported as int, capacity as int) as usize)
        } else {
            None::<usize>
        },
{
    if status == SUCCESS {
        Some(if reported < capacity {
            reported
        } else {
            capacity
        })
    } else {
        None
    }
}

/// Transmit buffers handed to the firmware at a time.
pub const SNP_TX_COUNT: usize = 4;

/// Bytes in each transmit buffer.
pub const SNP_BUFFER_SIZE: usize = 1_600;

/// Which transmit buffers the firmware still holds.
pub struct TransmitBuffers {
    busy: [bool; 4],
}

impl TransmitBuffers {
    pub closed spec fn view(&self) -> Seq<bool> {
        self.busy@
    }

    /// All buffers free.
    pub fn new() -> (buffers: Self)
        ensures
            buffers@ == seq![false, false, false, false],
    {
        let buffers = Self { busy: [false; 4] };
        assert(buffers@ =~= seq![false, false, false, false]);
        buffers
    }

    /// The first free buffer, if any.
    pub fn free_slot(&self) -> (slot: Option<usize>)
        ensures
            slot matches Some(i) ==> i < SNP_TX_COUNT && !self@[i as int] && forall|j: int|
                0 <= j < i ==> self@[j],
            slot is None ==> forall|j: int| 0 <= j < SNP_TX_COUNT ==> self@[j],
    {
        let mut index: usize = 0;
        while index < SNP_TX_COUNT
            invariant
                index <= SNP_TX_COUNT,
                self@.len() == SNP_TX_COUNT,
                forall|j: int| 0 <= j < index ==> self@[j],
            decreases SNP_TX_COUNT - index,
        {
            if !self.busy[index] {
                return Some(index);
            }
            index = index + 1;
        }
        None
    }

    /// The firmware took buffer `slot`.
    pub fn hand_over(&mut self, slot: usize)
        requires
            slot < SNP_TX_COUNT,
        ensures
            final(self)@ == old(self)@.update(slot as int, true),
    {
        self.busy[slot] = true;
    }

    /// The firmware gave buffer `slot` back.
    pub fn give_back(&mut self, slot: usize)
        requires
            slot < SNP_TX_COUNT,
        ensures
            final(self)@ == old(self)@.update(slot as int, false),
    {
        self.busy[slot] = false;
    }

    /// Whether a frame of `length` bytes fits a buffer.
    pub fn fits(length: usize) -> (fits: bool)
        ensures
            fits == (length <= SNP_BUFFER_SIZE),
    {
        length <= SNP_BUFFER_SIZE
    }
}

/// A line typed in the workspace that the installer answers.
#[derive(PartialEq, Eq, Structural, Debug, Clone, Copy)]
pub enum WorkspaceCommand {
    /// `INSTALL`: show the installer.
    Install,
    /// `INSTALL SELECT n`: select target `n`.
    Select(usize),
    /// `INSTALL SELECT` followed by something that is not a number.
    SelectUsage,
    /// `INSTALL ERASE`: write the image to the selected target.
    Erase,
    /// Any other line, for the console's commands.
    Other,
}

/// An ASCII byte in lower case.
pub open spec fn ascii_lower(byte: u8) -> u8 {
    if 0x41 <= byte <= 0x5a {
        (byte + 32) as u8
    } else {
        byte
    }
}

/// `text` equals the lower-case `word` when ASCII case is ignored.
pub open spec fn matches_word(text: Seq<u8>, word: Seq<u8>) -> bool {
    &&& text.len() == word.len()
    &&& forall|i: int| 0 <= i < text.len() ==> ascii_lower(#[trigger] text[i]) == word[i]
}

/// "install"
pub open spec fn word_install() -> Seq<u8> {
    seq![0x69u8, 0x6e, 0x73, 0x74, 0x61, 0x6c, 0x6c]
}

/// "install select "
pub open spec fn word_install_select() -> Seq<u8> {
    seq![0x69u8, 0x6e, 0x73, 0x74, 0x61, 0x6c, 0x6c, 0x20, 0x73, 0x65, 0x6c, 0x65, 0x63, 0x74, 0x20]
}

/// "install erase"
pub open spec fn word_install_erase() -> Seq<u8> {
    seq![0x69u8, 0x6e, 0x73, 0x74, 0x61, 0x6c, 0x6c, 0x20, 0x65, 0x72, 0x61, 0x73, 0x65]
}

/// The ASCII bytes that `str::trim` removes.
pub open spec fn is_ascii_white_space(byte: u8) -> bool {
    (0x09 <= byte <= 0x0d) || byte == 0x20
}

/// `s` without the white space at its start.
pub open spec fn trim_start(s: Seq<u8>) -> Seq<u8>
    decreases s.len(),
{
    if s.len() > 0 && is_ascii_white_space(s[0]) {
        trim_start(s.drop_first())
    } else {
        s
    }
}

/// `s` without the white space at its end.
pub open spec fn trim_end(s: Seq<u8>) -> Seq<u8>
    decreases s.len(),
{
    if s.len() > 0 && is_ascii_white_space(s.last()) {
        trim_end(s.drop_last())
    } else {
        s
    }
}

pub open spec fn is_digit(byte: u8) -> bool {
    0x30 <= byte <= 0x39
}

/// The number that the decimal digits `digits` spell.
pub open spec fn decimal_value(digits: Seq<u8>) -> nat
    decreases digits.len(),
{
    if digits.len() == 0 {
        0
    } else {
        decimal_value(digits.drop_last()) * 10 + (digits.last() - 0x30) as nat
    }
}

/// Every byte of `s` is a decimal digit.
pub open spec fn all_digits(s: Seq<u8>) -> bool {
    forall|i: int| 0 <= i < s.len() ==> is_digit(#[trigger] s[i])
}

/// `text` without a leading `+`.
pub open spec fn number_digits(text: Seq<u8>) -> Seq<u8> {
    if text.len() > 0 && text[0] == 0x2b {
        text.drop_first()
    } else {
        text
    }
}

/// What `usize::from_str` gives for `text`: an optional `+`, then at least
/// one decimal digit, and a value that fits.
pub open spec fn parsed_usize(text: Seq<u8>) -> Option<usize> {
    let digits = number_digits(text);
    if digits.len() > 0 && all_digits(digits) && decimal_value(digits) <= usize::MAX {
        Some(decimal_value(digits) as usize)
    } else {
        None
    }
}

/// The digits the console writes for `n` are digits, and spell `n`.
proof fn lemma_decimal_digits_value(n: nat)
    ensures
        decimal_digits(n).len() > 0,
        all_digits(decimal_digits(n)),
        decimal_value(decimal_digits(n)) == n,
    decreases n,
{
    let d = decimal_digits(n);
    if n >= 10 {
        lemma_decimal_digits_value(n / 10);
        assert(d.drop_last() =~= decimal_digits(n / 10));
        assert(d.last() == (0x30 + n % 10) as u8);
        assert(((0x30 + n % 10) as u8) as int == 0x30 + n % 10);
        assert(n == (n / 10) * 10 + n % 10);
        assert(decimal_value(d) == decimal_value(d.drop_last()) * 10 + (d.last() - 0x30) as nat);
    } else {
        assert(d.drop_last() =~= Seq::<u8>::empty());
        assert(decimal_value(d) == decimal_value(d.drop_last()) * 10 + (d.last() - 0x30) as nat);
    }
}

/// A number as the console writes it in decimal reads back as itself:
/// `INSTALL SELECT` takes the disk numbers the installer lists.
pub proof fn lemma_decimal_round_trip(n: usize)
    ensures
        parsed_usize(decimal_digits(n as nat)) == Some(n),
{
    lemma_decimal_digits_value(n as nat);
    let d = decimal_digits(n as nat);
    assert(is_digit(d[0]));
    assert(number_digits(d) == d);
}

/// What the workspace makes of a typed line.
pub open spec fn spec_workspace_command(line: Seq<u8>) -> WorkspaceCommand {
    if matches_word(line, word_install()) {
        WorkspaceCommand::Install
    } else if line.len() > 15 && matches_word(line.take(15), word_install_select()) {
        match parsed_usize(trim_end(trim_start(line.skip(15)))) {
            Some(number) => WorkspaceCommand::Select(number),
            None => WorkspaceCommand::SelectUsage,
        }
    } else if matches_word(line, word_install_erase()) {
        WorkspaceCommand::Erase
    } else {
        WorkspaceCommand::Other
    }
}

/// The workspace's commands, in any mix of upper and lower case: `install`
/// shows the installer, `install erase` writes the image, and `install
/// select ` followed by the decimal text of a number selects that target.
pub proof fn lemma_workspace_words(prefix: Seq<u8>, n: usize)
    ensures
        prefix.len() == 7 && (forall|i: int| 0 <= i < 7 ==> ascii_lower(#[trigger] prefix[i]) == seq![0x69u8, 0x6e, 0x73, 0x74, 0x61, 0x6c, 0x6c][i])
            ==> spec_workspace_command(prefix) == WorkspaceCommand::Install,
        prefix.len() == 13 && (forall|i: int| 0 <= i < 13 ==> ascii_lower(#[trigger] prefix[i]) == seq![0x69u8, 0x6e, 0x73, 0x74, 0x61, 0x6c, 0x6c, 0x20, 0x65, 0x72, 0x61, 0x73, 0x65][i])
            ==> spec_workspace_command(prefix) == WorkspaceCommand::Erase,
        prefix.len() == 15 && (forall|i: int| 0 <= i < 15 ==> ascii_lower(#[trigger] prefix[i]) == seq![0x69u8, 0x6e, 0x73, 0x74, 0x61, 0x6c, 0x6c, 0x20, 0x73, 0x65, 0x6c, 0x65, 0x63, 0x74, 0x20][i])
            ==> spec_workspace_command(prefix + decimal_digits(n as nat)) == WorkspaceCommand::Select(n),
{
    assert(word_install() =~= seq![0x69u8, 0x6e, 0x73, 0x74, 0x61, 0x6c, 0x6c]);
    assert(word_install_erase() =~= seq![0x69u8, 0x6e, 0x73, 0x74, 0x61, 0x6c, 0x6c, 0x20, 0x65, 0x72, 0x61, 0x73, 0x65]);
    assert(word_install_select() =~= seq![0x69u8, 0x6e, 0x73, 0x74, 0x61, 0x6c, 0x6c, 0x20, 0x73, 0x65, 0x6c, 0x65, 0x63, 0x74, 0x20]);
    let d = decimal_digits(n as nat);
    let line = prefix + d;
    lemma_decimal_round_trip(n);
    lemma_decimal_digits_value(n as nat);
    if prefix.len() == 15 {
        assert(line.take(15) =~= prefix);
        assert(line.skip(15) =~= d);
        assert(!matches_word(line, word_install()));
        assert(is_digit(d[0]));
        assert(is_digit(d.last()));
        assert(trim_start(d) == d);
        assert(trim_end(d) == d);
    }
}

/// Whether `text[start..start + word.len()]` is `word`, ignoring ASCII case.
fn matches_at(text: &[u8], start: usize, word: &[u8]) -> (same: bool)
    requires
        start + word@.len() <= text@.len(),
    ensures
        same == matches_word(text@.subrange(start as int, start + word@.len()), word@),
{
    let ghost part = text@.subrange(start as int, start + word@.len());
    let length = text.len();
    let mut index: usize = 0;
    while index < word.len()
        invariant
            length == text@.len(),
            start + word@.len() <= text@.len(),
            part == text@.subrange(start as int, start + word@.len()),
            index <= word@.len(),
            forall|i: int| 0 <= i < index ==> ascii_lower(#[trigger] part[i]) == word@[i],
        decreases word@.len() - index,
    {
        assert(start + index < length);
        let original = text[start + index];
        assert(part[index as int] == original);
        let mut byte = original;
        if 0x41 <= byte && byte <= 0x5a {
            byte = byte + 32;
        }
        assert(byte == ascii_lower(original));
        if byte != word[index] {
            assert(ascii_lower(part[index as int]) != word@[index as int]);
            return false;
        }
        index = index + 1;
    }
    true
}

/// The value of the digits `digits`, which only grows as digits follow.
proof fn lemma_decimal_prefix(digits: Seq<u8>, k: int)
    requires
        0 <= k <= digits.len(),
        forall|i: int| 0 <= i < digits.len() ==> is_digit(#[trigger] digits[i]),
    ensures
        decimal_value(digits.take(k)) <= decimal_value(digits),
    decreases digits.len() - k,
{
    if k < digits.len() {
        lemma_decimal_prefix(digits, k + 1);
        assert(digits.take(k + 1).drop_last() =~= digits.take(k));
        assert(digits.take(k + 1).last() == digits[k]);
        assert(is_digit(digits[k]));
    } else {
        assert(digits.take(k) =~= digits);
    }
}

/// Parses `text[start..end]` as `usize::from_str` does.
fn parse_usize(text: &[u8], start: usize, end: usize) -> (number: Option<usize>)
    requires
        start <= end <= text@.len(),
    ensures
        number == parsed_usize(text@.subrange(start as int, end as int)),
{
    let ghost whole = text@.subrange(start as int, end as int);
    let mut first = start;
    if start < end && text[start] == 0x2b {
        first = start + 1;
    }
    let ghost digits = text@.subrange(first as int, end as int);
    assert(digits =~= number_digits(whole));
    if first == end {
        assert(digits.len() == 0);
        assert(parsed_usize(whole) == None::<usize>);
        return None;
    }
    let mut value: usize = 0;
    let mut index: usize = first;
    while index < end
        invariant
            start <= first < end <= text@.len(),
            first <= index <= end,
            digits == text@.subrange(first as int, end as int),
            whole == text@.subrange(start as int, end as int),
            digits == number_digits(whole),
            forall|i: int| 0 <= i < index - first ==> is_digit(#[trigger] digits[i]),
            value == decimal_value(digits.take(index - first)),
        decreases end - index,
    {
        let byte = text[index];
        assert(digits[index - first] == byte);
        if byte < 0x30 || byte > 0x39 {
            assert(!is_digit(digits[index - first]));
            assert(!all_digits(digits));
            assert(parsed_usize(whole) == None::<usize>);
            return None;
        }
        assert(digits.take(index - first + 1).drop_last() =~= digits.take(index - first));
        let digit = (byte - 0x30) as usize;
        let next = match value.checked_mul(10) {
            Some(tens) => tens.checked_add(digit),
            None => None,
        };
        match next {
            Some(n) => {
                value = n;
            },
            None => {
                proof {
                    let k = index - first + 1;
                    assert(digits.take(k).last() == byte);
                    assert(decimal_value(digits.take(k)) == value * 10 + digit);
                    assert(decimal_value(digits.take(k)) > usize::MAX);
                    if all_digits(digits) {
                        lemma_decimal_prefix(digits, k);
                    }
                    assert(parsed_usize(whole) == None::<usize>);
                }
                return None;
            },
        }
        index = index + 1;
    }
    assert(digits.take(end - first) =~= digits);
    Some(value)
}

/// What the workspace makes of the shell's line.
pub fn workspace_command(shell: &Shell) -> (command: WorkspaceCommand)
    ensures
        command == spec_workspace_command(shell@),
{
    let line = shell.line_bytes();
    let ghost l = line@;
    let install = [0x69u8, 0x6e, 0x73, 0x74, 0x61, 0x6c, 0x6c];
    let select = [0x69u8, 0x6e, 0x73, 0x74, 0x61, 0x6c, 0x6c, 0x20, 0x73, 0x65, 0x6c, 0x65, 0x63, 0x74, 0x20];
    let erase = [0x69u8, 0x6e, 0x73, 0x74, 0x61, 0x6c, 0x6c, 0x20, 0x65, 0x72, 0x61, 0x73, 0x65];
    proof {
        assert(install@ =~= word_install());
        assert(select@ =~= word_install_select());
        assert(erase@ =~= word_install_erase());
    }
    if line.len() == 7 && matches_at(line, 0, &install) {
        proof {
            assert(line@.subrange(0, 7) =~= l);
        }
        return WorkspaceCommand::Install;
    }
    assert(!matches_word(l, word_install())) by {
        if l.len() == 7 {
            assert(l.subrange(0, 7) =~= l);
        }
    }
    if line.len() > 15 && matches_at(line, 0, &select) {
        proof {
            assert(l.subrange(0, 15) =~= l.take(15));
        }
        let mut start: usize = 15;
        while start < line.len() && (0x09 <= line[start] && line[start] <= 0x0d || line[start] == 0x20)
            invariant
                15 <= start <= l.len(),
                line@ == l,
                trim_start(l.skip(15)) == trim_start(l.subrange(start as int, l.len() as int)),
            decreases l.len() - start,
        {
            assert(l.subrange(start as int, l.len() as int).drop_first() =~= l.subrange(start + 1, l.len() as int));
            start = start + 1;
        }
        let ghost rest = l.subrange(start as int, l.len() as int);
        assert(trim_start(rest) == rest);
        let mut end: usize = line.len();
        while end > start && (0x09 <= line[end - 1] && line[end - 1] <= 0x0d || line[end - 1] == 0x20)
            invariant
                start <= end <= l.len(),
                line@ == l,
                trim_end(rest) == trim_end(l.subrange(start as int, end as int)),
            decreases end - start,
        {
            assert(l.subrange(start as int, end as int).drop_last() =~= l.subrange(start as int, end - 1));
            end = end - 1;
        }
        assert(trim_end(l.subrange(start as int, end as int)) == l.subrange(start as int, end as int));
        return match parse_usize(line, start, end) {
            Some(number) => WorkspaceCommand::Select(number),
            None => WorkspaceCommand::SelectUsage,
        };
    }
    assert(!(l.len() > 15 && matches_word(l.take(15), word_install_select()))) by {
        if l.len() > 15 {
            assert(l.subrange(0, 15) =~= l.take(15));
        }
    }
    if line.len() == 13 && matches_at(line, 0, &erase) {
        proof {
            assert(l.subrange(0, 13) =~= l);
        }
        return WorkspaceCommand::Erase;
    }
    assert(!matches_word(l, word_install_erase())) by {
        if l.len() == 13 {
            assert(l.subrange(0, 13) =~= l);
        }
    }
    WorkspaceCommand::Other
}

} // verus!
