//! A 32-bit framebuffer and the terminal drawn on it.
//!
//! The library decides what to draw; the drawing itself (writing pixels to
//! the device memory and rasterising glyphs with the font) is done by the
//! platform code, which takes the recorded drawing commands with
//! [`Framebuffer::take_draws`]. Text written to the terminal is also kept
//! for the serial log, taken with [`Ui::take_serial`].
use vstd::prelude::*;
use crate::workspace::decimal_value;
use vstd::string::StringSliceAdditionalSpecFns;

verus! {

pub const BG: u32 = 0x0010_172a;
pub const PANEL: u32 = 0x0018_2238;
pub const TERMINAL: u32 = 0x0008_0d18;
pub const BLUE: u32 = 0x002f_81f7;
pub const CYAN: u32 = 0x0038_bdf8;
pub const WHITE: u32 = 0x00e6_edff;
pub const MUTED: u32 = 0x008a_9ab8;
pub const GREEN: u32 = 0x0034_d399;

/// One drawing command.
#[derive(PartialEq, Eq, Structural, Debug, Clone, Copy)]
pub enum Draw {
    /// Fill the rectangle, which lies within the framebuffer.
    Fill { x: usize, y: usize, width: usize, height: usize, color: u32 },
    /// Draw the glyph of `byte` (5 columns wide) with its top-left corner at
    /// (`x`, `y`), each font pixel a `scale` x `scale` square, clipped to the
    /// framebuffer.
    Glyph { x: usize, y: usize, byte: u8, color: u32, scale: usize },
}

/// What a shortcut key or a click asks of the desktop: open one of its
/// windows, or nothing.
#[derive(PartialEq, Eq, Structural, Debug, Clone, Copy)]
pub enum UiAction {
    NoAction,
    Launcher,
    Terminal,
    Files,
    Settings,
    Installer,
}

pub struct Framebuffer {
    address: usize,
    pub width: usize,
    pub height: usize,
    pitch: usize,
    bpp: usize,
    draws: Vec<Draw>,
}

/// A framebuffer: its geometry and the drawing commands not yet taken.
pub struct FbView {
    pub address: usize,
    pub width: usize,
    pub height: usize,
    pub pitch: usize,
    pub bpp: usize,
    pub draws: Seq<Draw>,
}

/// Drawing is possible: a mapped 32-bit framebuffer larger than 160x120.
pub open spec fn fb_available(f: FbView) -> bool {
    f.address != 0 && f.bpp == 32 && f.width > 160 && f.height > 120
}

pub open spec fn min(a: int, b: int) -> int {
    if a < b {
        a
    } else {
        b
    }
}

/// `f` after filling the rectangle clipped to the framebuffer.
pub open spec fn fb_rect(f: FbView, x: usize, y: usize, width: usize, height: usize, color: u32) -> FbView {
    let max_x = min(x.saturating_add(width) as int, f.width as int);
    let max_y = min(y.saturating_add(height) as int, f.height as int);
    if fb_available(f) && x < max_x && y < max_y {
        FbView {
            draws: f.draws.push(
                Draw::Fill {
                    x,
                    y,
                    width: (max_x - x) as usize,
                    height: (max_y - y) as usize,
                    color,
                },
            ),
            ..f
        }
    } else {
        f
    }
}

/// A rectangle is recorded as one fill, cut at the right and bottom edges
/// of the framebuffer: one that lies inside is recorded as it is, one that
/// starts past an edge or is empty records nothing, and nothing is
/// recorded when drawing is not possible.
pub proof fn lemma_rect_clipped(f: FbView, x: usize, y: usize, width: usize, height: usize, color: u32)
    ensures
        !fb_available(f) ==> fb_rect(f, x, y, width, height, color) == f,
        fb_available(f) && width > 0 && height > 0 && x + width <= f.width && y + height <= f.height
            ==> fb_rect(f, x, y, width, height, color) == (FbView {
            draws: f.draws.push(Draw::Fill { x, y, width, height, color }),
            ..f
        }),
        fb_available(f) && x < f.width && y < f.height && width > 0 && height > 0 && x + width > f.width
            && y + height <= f.height ==> fb_rect(f, x, y, width, height, color) == (FbView {
            draws: f.draws.push(Draw::Fill { x, y, width: (f.width - x) as usize, height, color }),
            ..f
        }),
        fb_available(f) && x < f.width && y < f.height && width > 0 && height > 0 && x + width <= f.width
            && y + height > f.height ==> fb_rect(f, x, y, width, height, color) == (FbView {
            draws: f.draws.push(Draw::Fill { x, y, width, height: (f.height - y) as usize, color }),
            ..f
        }),
        x >= f.width || y >= f.height || width == 0 || height == 0 ==> fb_rect(f, x, y, width, height, color)
            == f,
{
}

/// `f` after drawing one character.
pub open spec fn fb_character(f: FbView, x: usize, y: usize, byte: u8, color: u32, scale: usize) -> FbView {
    if fb_available(f) {
        FbView { draws: f.draws.push(Draw::Glyph { x, y, byte, color, scale }), ..f }
    } else {
        f
    }
}

/// `f` after drawing `text` from left to right, 6 * `scale` pixels apart.
pub open spec fn fb_label(f: FbView, x: int, y: usize, text: Seq<u8>, color: u32, scale: usize) -> FbView
    decreases text.len(),
{
    if text.len() == 0 {
        f
    } else {
        fb_label(
            fb_character(f, x as usize, y, text[0], color, scale),
            x + 6 * scale,
            y,
            text.drop_first(),
            color,
            scale,
        )
    }
}

/// Drawing `a + b` is drawing `a`, then `b` from where `a` ended.
pub proof fn lemma_label_concat(f: FbView, x: int, y: usize, a: Seq<u8>, b: Seq<u8>, color: u32, scale: usize)
    ensures
        fb_label(f, x, y, a + b, color, scale) == fb_label(
            fb_label(f, x, y, a, color, scale),
            x + 6 * scale * a.len(),
            y,
            b,
            color,
            scale,
        ),
    decreases a.len(),
{
    if a.len() == 0 {
        assert(a + b =~= b);
    } else {
        assert((a + b).drop_first() =~= a.drop_first() + b);
        assert((a + b)[0] == a[0]);
        let g = fb_character(f, x as usize, y, a[0], color, scale);
        lemma_label_concat(g, x + 6 * scale, y, a.drop_first(), b, color, scale);
        assert(x + 6 * scale + 6 * scale * a.drop_first().len() == x + 6 * scale * a.len()) by (nonlinear_arith)
            requires
                a.drop_first().len() + 1 == a.len(),
        ;
    }
}

/// Every fill recorded on `f` lies within it.
pub open spec fn fills_inside(f: FbView) -> bool {
    forall|i: int|
        0 <= i < f.draws.len() ==> (#[trigger] f.draws[i] matches Draw::Fill {
            x,
            y,
            width,
            height,
            ..
        } ==> x + width <= f.width && y + height <= f.height)
}

/// A character adds no fill.
proof fn lemma_character_fills_inside(f: FbView, x: usize, y: usize, byte: u8, color: u32, scale: usize)
    requires
        fills_inside(f),
    ensures
        fills_inside(fb_character(f, x, y, byte, color, scale)),
{
    let c = fb_character(f, x, y, byte, color, scale);
    assert forall|i: int| 0 <= i < c.draws.len() implies (#[trigger] c.draws[i] matches Draw::Fill {
        x,
        y,
        width,
        height,
        ..
    } ==> x + width <= c.width && y + height <= c.height) by {
        if i < f.draws.len() {
            assert(c.draws[i] == f.draws[i]);
        }
    }
}

/// A label adds no fill.
proof fn lemma_label_fills_inside(f: FbView, x: int, y: usize, text: Seq<u8>, color: u32, scale: usize)
    requires
        fills_inside(f),
    ensures
        fills_inside(fb_label(f, x, y, text, color, scale)),
    decreases text.len(),
{
    if text.len() > 0 {
        lemma_character_fills_inside(f, x as usize, y, text[0], color, scale);
        lemma_label_fills_inside(
            fb_character(f, x as usize, y, text[0], color, scale),
            x + 6 * scale,
            y,
            text.drop_first(),
            color,
            scale,
        );
    }
}

/// Drawing keeps every fill within the framebuffer: rectangles are
/// clipped to it, and characters and labels add no fills.
pub proof fn lemma_fills_inside(
    f: FbView,
    x: usize,
    y: usize,
    width: usize,
    height: usize,
    byte: u8,
    color: u32,
    scale: usize,
    text: Seq<u8>,
)
    requires
        fills_inside(f),
    ensures
        fills_inside(fb_rect(f, x, y, width, height, color)),
        fills_inside(fb_character(f, x, y, byte, color, scale)),
        fills_inside(fb_label(f, x as int, y, text, color, scale)),
{
    let r = fb_rect(f, x, y, width, height, color);
    assert forall|i: int| 0 <= i < r.draws.len() implies (#[trigger] r.draws[i] matches Draw::Fill {
        x,
        y,
        width,
        height,
        ..
    } ==> x + width <= r.width && y + height <= r.height) by {
        if i < f.draws.len() {
            assert(r.draws[i] == f.draws[i]);
        }
    }
    lemma_character_fills_inside(f, x, y, byte, color, scale);
    lemma_label_fills_inside(f, x as int, y, text, color, scale);
}

impl Framebuffer {
    pub closed spec fn view(&self) -> FbView {
        FbView {
            address: self.address,
            width: self.width,
            height: self.height,
            pitch: self.pitch,
            bpp: self.bpp,
            draws: self.draws@,
        }
    }

    /// A framebuffer at `address`, `width` x `height` pixels, `pitch` bytes
    /// per row, `bpp` bits per pixel.
    pub fn new(address: usize, width: usize, height: usize, pitch: usize, bpp: usize) -> (fb: Self)
        ensures
            fb@ == (FbView { address, width, height, pitch, bpp, draws: Seq::empty() }),
    {
        Self { address, width, height, pitch, bpp, draws: Vec::new() }
    }

    /// No framebuffer: nothing is ever drawn.
    pub fn unavailable() -> (fb: Self)
        ensures
            fb@ == (FbView {
                address: 0,
                width: 0,
                height: 0,
                pitch: 0,
                bpp: 0,
                draws: Seq::empty(),
            }),
            !fb_available(fb@),
    {
        Self { address: 0, width: 0, height: 0, pitch: 0, bpp: 0, draws: Vec::new() }
    }

    pub fn available(&self) -> (available: bool)
        ensures
            available == fb_available(self@),
    {
        self.address != 0 && self.bpp == 32 && self.width > 160 && self.height > 120
    }

    /// The framebuffer's address.
    pub fn address(&self) -> (address: usize)
        ensures
            address == self@.address,
    {
        self.address
    }

    /// Bytes per row of pixels.
    pub fn pitch(&self) -> (pitch: usize)
        ensures
            pitch == self@.pitch,
    {
        self.pitch
    }

    /// Sets one pixel, when it lies within the framebuffer.
    pub fn pixel(&mut self, x: usize, y: usize, color: u32)
        ensures
            final(self)@ == fb_rect(old(self)@, x, y, 1, 1, color),
    {
        if !self.available() || x >= self.width || y >= self.height {
            return ;
        }
        self.draws.push(Draw::Fill { x, y, width: 1, height: 1, color });
    }

    /// Fills a rectangle, clipped to the framebuffer.
    pub fn rect(&mut self, x: usize, y: usize, width: usize, height: usize, color: u32)
        ensures
            final(self)@ == fb_rect(old(self)@, x, y, width, height, color),
    {
        let mut max_x = x.saturating_add(width);
        if self.width < max_x {
            max_x = self.width;
        }
        let mut max_y = y.saturating_add(height);
        if self.height < max_y {
            max_y = self.height;
        }
        if self.available() && x < max_x && y < max_y {
            self.draws.push(Draw::Fill { x, y, width: max_x - x, height: max_y - y, color });
        }
    }

    /// Draws one character.
    pub fn character(&mut self, x: usize, y: usize, byte: u8, color: u32, scale: usize)
        ensures
            final(self)@ == fb_character(old(self)@, x, y, byte, color, scale),
    {
        if self.available() {
            self.draws.push(Draw::Glyph { x, y, byte, color, scale });
        }
    }

    /// Draws `text` from left to right.
    pub fn label(&mut self, x: usize, y: usize, text: &str, color: u32, scale: usize)
        requires
            x + 6 * scale * text.spec_bytes().len() <= usize::MAX,
        ensures
            final(self)@ == fb_label(old(self)@, x as int, y, text.spec_bytes(), color, scale),
    {
        self.label_bytes(x, y, text.as_bytes(), color, scale);
    }

    /// Draws the ASCII `text` from left to right.
    pub fn label_bytes(&mut self, x: usize, y: usize, text: &[u8], color: u32, scale: usize)
        requires
            x + 6 * scale * text@.len() <= usize::MAX,
        ensures
            final(self)@ == fb_label(old(self)@, x as int, y, text@, color, scale),
    {
        let mut index: usize = 0;
        let mut x = x;
        let ghost x0 = x as int;
        assert(text@.subrange(0, text@.len() as int) =~= text@);
        while index < text.len()
            invariant
                index <= text@.len(),
                x == x0 + 6 * scale * index,
                x0 + 6 * scale * text@.len() <= usize::MAX,
                fb_label(old(self)@, x0, y, text@, color, scale) == fb_label(
                    self@,
                    x as int,
                    y,
                    text@.subrange(index as int, text@.len() as int),
                    color,
                    scale,
                ),
            decreases text@.len() - index,
        {
            proof {
                let rest = text@.subrange(index as int, text@.len() as int);
                assert(rest.drop_first() =~= text@.subrange(index + 1, text@.len() as int));
                assert(6 * scale * (index + 1) <= 6 * scale * text@.len()) by (nonlinear_arith)
                    requires
                        index + 1 <= text@.len(),
                ;
                assert(6 * scale * (index + 1) == 6 * scale * index + 6 * scale) by (nonlinear_arith);
            }
            self.character(x, y, text[index], color, scale);
            x = x + 6 * scale;
            index = index + 1;
        }
    }

    /// Takes the drawing commands recorded so far, oldest first.
    pub fn take_draws(&mut self) -> (draws: Vec<Draw>)
        ensures
            draws@ == old(self)@.draws,
            final(self)@ == (FbView { draws: Seq::empty(), ..old(self)@ }),
    {
        let mut draws: Vec<Draw> = Vec::new();
        std::mem::swap(&mut draws, &mut self.draws);
        draws
    }
}

/// The decimal digits of `n`, most significant first.
pub open spec fn decimal_digits(n: nat) -> Seq<u8>
    decreases n,
{
    if n < 10 {
        seq![(0x30 + n) as u8]
    } else {
        decimal_digits(n / 10).push((0x30 + n % 10) as u8)
    }
}

/// The decimal text of `n`, with a leading `-` when negative.
pub open spec fn signed_decimal(n: int) -> Seq<u8> {
    if n < 0 {
        seq![0x2du8] + decimal_digits((-n) as nat)
    } else {
        decimal_digits(n as nat)
    }
}

/// The decimal text of `n` is one or more digits '0'..='9', with no
/// leading zero, whose value read most significant first is `n`; a
/// negative number's text is '-' and the text of its magnitude.
pub proof fn lemma_decimal_text(n: nat, m: int)
    ensures
        decimal_digits(n).len() >= 1,
        forall|i: int| 0 <= i < decimal_digits(n).len() ==> 0x30 <= #[trigger] decimal_digits(n)[i] <= 0x39,
        n > 0 ==> decimal_digits(n)[0] != 0x30,
        n == 0 ==> decimal_digits(n) == seq![0x30u8],
        decimal_value(decimal_digits(n)) == n,
        m < 0 ==> signed_decimal(m) == seq![0x2du8] + decimal_digits((-m) as nat),
        m >= 0 ==> signed_decimal(m) == decimal_digits(m as nat),
    decreases n,
{
    let d = decimal_digits(n);
    if n >= 10 {
        lemma_decimal_text(n / 10, 0);
        let e = decimal_digits(n / 10);
        assert(d.drop_last() =~= e);
        assert forall|i: int| 0 <= i < d.len() implies 0x30 <= #[trigger] d[i] <= 0x39 by {
            if i < d.len() - 1 {
                assert(d[i] == e[i]);
            }
        }
        assert(d[0] == e[0]);
        assert(d.last() == (0x30 + n % 10) as u8);
        assert(((0x30 + n % 10) as u8) as int == 0x30 + n % 10);
        assert(n == (n / 10) * 10 + n % 10);
        assert(decimal_value(d) == decimal_value(d.drop_last()) * 10 + (d.last() - 0x30) as nat);
    } else {
        assert(d.drop_last() =~= Seq::<u8>::empty());
        assert(decimal_value(d) == decimal_value(d.drop_last()) * 10 + (d.last() - 0x30) as nat);
    }
}

/// The dotted-decimal text of an IPv4 address.
pub open spec fn ipv4_text(address: Seq<u8>) -> Seq<u8> {
    decimal_digits(address[0] as nat) + seq![0x2eu8] + decimal_digits(address[1] as nat) + seq![
        0x2eu8,
    ] + decimal_digits(address[2] as nat) + seq![0x2eu8] + decimal_digits(address[3] as nat)
}

/// The decimal digits of `number`.
pub fn format_u64(number: u64) -> (digits: Vec<u8>)
    ensures
        digits@ == decimal_digits(number as nat),
    decreases number,
{
    if number < 10 {
        let mut digits = Vec::new();
        digits.push(0x30 + number as u8);
        assert(digits@ =~= decimal_digits(number as nat));
        digits
    } else {
        let mut digits = format_u64(number / 10);
        digits.push(0x30 + (number % 10) as u8);
        digits
    }
}

/// The decimal text of `number`.
pub fn format_i64(number: i64) -> (text: Vec<u8>)
    ensures
        text@ == signed_decimal(number as int),
{
    if number < 0 {
        let magnitude = if number == i64::MIN {
            0x8000_0000_0000_0000u64
        } else {
            (-number) as u64
        };
        let mut text = Vec::new();
        text.push(0x2d);
        let digits = format_u64(magnitude);
        let mut index: usize = 0;
        while index < digits.len()
            invariant
                index <= digits@.len(),
                text@ == seq![0x2du8] + digits@.subrange(0, index as int),
            decreases digits@.len() - index,
        {
            text.push(digits[index]);
            index = index + 1;
            assert(text@ =~= seq![0x2du8] + digits@.subrange(0, index as int));
        }
        assert(digits@.subrange(0, digits@.len() as int) =~= digits@);
        text
    } else {
        format_u64(number as u64)
    }
}

/// The framebuffer terminal: a grid of 12 x 18 pixel cells below the desktop.
pub struct Ui {
    pub framebuffer: Framebuffer,
    cursor_column: usize,
    cursor_row: usize,
    terminal_x: usize,
    terminal_y: usize,
    columns: usize,
    rows: usize,
    dirty: bool,
    serial: Vec<u8>,
}

/// The terminal: framebuffer, cursor, grid, whether the screen changed since
/// last asked, and the text written and not yet taken for the serial log.
pub struct UiView {
    pub fb: FbView,
    pub column: usize,
    pub row: usize,
    pub terminal_x: usize,
    pub terminal_y: usize,
    pub columns: usize,
    pub rows: usize,
    pub dirty: bool,
    pub serial: Seq<u8>,
}

/// Every cell of the grid has addressable pixels.
pub open spec fn ui_geometry(u: UiView) -> bool {
    &&& 1 <= u.columns
    &&& 1 <= u.rows
    &&& u.terminal_x + 12 * u.columns <= usize::MAX
    &&& u.terminal_y + 18 * u.rows <= usize::MAX
    &&& u.terminal_x <= 30
    &&& u.terminal_y <= 142
}

/// The cursor lies in the grid and every cell's pixels are addressable.
pub open spec fn ui_wf(u: UiView) -> bool {
    &&& 1 <= u.columns
    &&& 1 <= u.rows
    &&& u.column <= u.columns
    &&& u.row < u.rows
    &&& u.terminal_x + 12 * u.columns <= usize::MAX
    &&& u.terminal_y + 18 * u.rows <= usize::MAX
    &&& u.terminal_x <= 30
    &&& u.terminal_y <= 142
}

/// `u` with the terminal area cleared and the cursor home.
pub open spec fn ui_clear_area(u: UiView) -> UiView {
    let fb = if fb_available(u.fb) {
        fb_rect(
            u.fb,
            u.terminal_x.saturating_sub(12),
            u.terminal_y.saturating_sub(10),
            u.fb.width.saturating_sub((u.terminal_x * 2) as usize).saturating_add(24),
            u.fb.height.saturating_sub(u.terminal_y).saturating_sub(18),
            TERMINAL,
        )
    } else {
        u.fb
    };
    UiView { fb, column: 0, row: 0, dirty: true, ..u }
}

/// `u` after moving to the next line; past the last row the area is cleared.
pub open spec fn ui_newline(u: UiView) -> UiView {
    if u.row + 1 >= u.rows {
        ui_clear_area(UiView { column: 0, row: (u.row + 1) as usize, ..u })
    } else {
        UiView { column: 0, row: (u.row + 1) as usize, ..u }
    }
}

/// The pixel position of the cell at (`column`, `row`).
pub open spec fn cell_x(u: UiView, column: int) -> usize {
    (u.terminal_x + column * 12) as usize
}

pub open spec fn cell_y(u: UiView, row: int) -> usize {
    (u.terminal_y + row * 18) as usize
}

/// `u` after the terminal receives `byte`: a newline moves to the next
/// line, a carriage return to the first column, backspace or delete erases
/// the previous cell, and any other byte is drawn at the cursor, wrapping
/// to the next line at the right edge.
pub open spec fn ui_put(u: UiView, byte: u8) -> UiView {
    if byte == 0x0a {
        ui_newline(u)
    } else if byte == 0x0d {
        UiView { column: 0, ..u }
    } else if byte == 8 || byte == 127 {
        if u.column > 0 {
            let column = (u.column - 1) as usize;
            UiView {
                column,
                fb: fb_rect(u.fb, cell_x(u, column as int), cell_y(u, u.row as int), 12, 16, TERMINAL),
                dirty: true,
                ..u
            }
        } else {
            u
        }
    } else {
        let v = if u.column >= u.columns {
            ui_newline(u)
        } else {
            u
        };
        let fb = if fb_available(v.fb) {
            fb_character(v.fb, cell_x(v, v.column as int), cell_y(v, v.row as int), byte, WHITE, 2)
        } else {
            v.fb
        };
        UiView { fb, column: (v.column + 1) as usize, dirty: true, ..v }
    }
}

/// `u` after the terminal receives each byte of `text` in turn.
pub open spec fn ui_put_all(u: UiView, text: Seq<u8>) -> UiView
    decreases text.len(),
{
    if text.len() == 0 {
        u
    } else {
        ui_put_all(ui_put(u, text[0]), text.drop_first())
    }
}

/// `u` after writing `text`: it goes to the serial log and to the screen.
pub open spec fn ui_write(u: UiView, text: Seq<u8>) -> UiView {
    ui_put_all(UiView { serial: u.serial + text, ..u }, text)
}

/// The serial log plays no part in what the screen shows.
pub proof fn lemma_put_all_serial(u: UiView, text: Seq<u8>, serial: Seq<u8>)
    ensures
        ui_put_all(UiView { serial, ..u }, text) == (UiView { serial, ..ui_put_all(u, text) }),
    decreases text.len(),
{
    if text.len() > 0 {
        let v = UiView { serial, ..u };
        assert(ui_put(v, text[0]) == UiView { serial, ..ui_put(u, text[0]) });
        lemma_put_all_serial(ui_put(u, text[0]), text.drop_first(), serial);
    }
}

/// The row after the cursor's, or the first when the cursor is on the
/// last (the terminal area is then cleared).
pub open spec fn next_row(u: UiView) -> usize {
    if u.row + 1 >= u.rows {
        0
    } else {
        (u.row + 1) as usize
    }
}

/// Receiving a byte keeps the cursor within the grid and leaves the grid
/// and the serial log as they were. A newline moves to the start of the
/// next row; a carriage return to the start of the row; backspace or
/// delete in the first column changes nothing; a byte that draws a glyph
/// moves one cell right, first wrapping to the next row when the cursor
/// stands past the last column.
pub proof fn lemma_ui_put(u: UiView, byte: u8)
    requires
        ui_wf(u),
    ensures
        ui_wf(ui_put(u, byte)),
        ui_put(u, byte).serial == u.serial,
        ui_put(u, byte).columns == u.columns,
        ui_put(u, byte).rows == u.rows,
        ui_put(u, byte).terminal_x == u.terminal_x,
        ui_put(u, byte).terminal_y == u.terminal_y,
        byte == 0x0a ==> ui_put(u, byte).column == 0 && ui_put(u, byte).row == next_row(u),
        byte == 0x0d ==> ui_put(u, byte) == (UiView { column: 0, ..u }),
        (byte == 8 || byte == 127) && u.column == 0 ==> ui_put(u, byte) == u,
        (byte == 8 || byte == 127) && u.column > 0 ==> ui_put(u, byte).column == u.column - 1
            && ui_put(u, byte).row == u.row,
        draws_glyph(byte) && u.column < u.columns ==> ui_put(u, byte).column == u.column + 1
            && ui_put(u, byte).row == u.row,
        draws_glyph(byte) && u.column == u.columns ==> ui_put(u, byte).column == 1
            && ui_put(u, byte).row == next_row(u),
{
}

/// Where the terminal draws: the cell in column `c` and row `r` has its
/// top-left corner at (terminal_x + 12 * c, terminal_y + 18 * r), so cells
/// never overlap. A byte that draws a glyph draws it, white at scale 2, in
/// the cursor's cell, or at the start of the next row when the cursor
/// stands past the last column; backspace or delete blanks the cell left
/// of the cursor.
pub proof fn lemma_cell_placement(u: UiView, byte: u8)
    requires
        ui_wf(u),
        fb_available(u.fb),
    ensures
        draws_glyph(byte) && u.column < u.columns ==> ui_put(u, byte).fb.draws == u.fb.draws.push(
            Draw::Glyph {
                x: (u.terminal_x + 12 * u.column) as usize,
                y: (u.terminal_y + 18 * u.row) as usize,
                byte,
                color: WHITE,
                scale: 2,
            },
        ),
        draws_glyph(byte) && u.column == u.columns && u.row + 1 < u.rows ==> ui_put(u, byte).fb.draws
            == u.fb.draws.push(
            Draw::Glyph {
                x: u.terminal_x,
                y: (u.terminal_y + 18 * (u.row + 1)) as usize,
                byte,
                color: WHITE,
                scale: 2,
            },
        ),
        (byte == 8 || byte == 127) && u.column > 0 ==> ui_put(u, byte).fb == fb_rect(
            u.fb,
            (u.terminal_x + 12 * (u.column - 1)) as usize,
            (u.terminal_y + 18 * u.row) as usize,
            12,
            16,
            TERMINAL,
        ),
{
}

pub proof fn lemma_ui_put_all(u: UiView, a: Seq<u8>, b: Seq<u8>)
    requires
        ui_wf(u),
    ensures
        ui_wf(ui_put_all(u, a)),
        ui_put_all(u, a).serial == u.serial,
        ui_put_all(u, a + b) == ui_put_all(ui_put_all(u, a), b),
    decreases a.len(),
{
    if a.len() > 0 {
        lemma_ui_put(u, a[0]);
        assert((a + b).drop_first() =~= a.drop_first() + b);
        lemma_ui_put_all(ui_put(u, a[0]), a.drop_first(), b);
    } else {
        assert(a + b =~= b);
    }
}

/// Writing `a` and then `b` is writing `a + b`.
pub proof fn lemma_ui_write_concat(u: UiView, a: Seq<u8>, b: Seq<u8>)
    requires
        ui_wf(u),
    ensures
        ui_wf(ui_write(u, a)),
        ui_write(ui_write(u, a), b) == ui_write(u, a + b),
{
    let s = UiView { serial: u.serial + a + b, ..u };
    lemma_ui_put_all(s, a, b);
    lemma_ui_put_all(UiView { serial: u.serial + a, ..u }, a, b);
    let w = ui_put_all(UiView { serial: u.serial + a, ..u }, a);
    assert(u.serial + a + b =~= u.serial + (a + b));
    lemma_put_all_serial(UiView { serial: u.serial + a, ..u }, a, u.serial + a + b);
    assert(UiView { serial: u.serial + a + b, ..UiView { serial: u.serial + a, ..u } } == s);
    assert(ui_put_all(s, a) == UiView { serial: w.serial + b, ..w });
}

/// A byte that puts a glyph on the screen: anything but a newline, a
/// carriage return, backspace or delete.
pub open spec fn draws_glyph(byte: u8) -> bool {
    byte != 0x0a && byte != 0x0d && byte != 8 && byte != 127
}

proof fn lemma_put_all_dirty(u: UiView, text: Seq<u8>)
    ensures
        u.dirty ==> ui_put_all(u, text).dirty,
        (exists|i: int| 0 <= i < text.len() && draws_glyph(#[trigger] text[i])) ==> ui_put_all(u, text).dirty,
    decreases text.len(),
{
    if text.len() > 0 {
        let v = ui_put(u, text[0]);
        lemma_put_all_dirty(v, text.drop_first());
        if exists|i: int| 0 <= i < text.len() && draws_glyph(#[trigger] text[i]) {
            let i = choose|i: int| 0 <= i < text.len() && draws_glyph(#[trigger] text[i]);
            if i > 0 {
                assert(text.drop_first()[i - 1] == text[i]);
            }
        }
    }
}

/// A new terminal has something to show: its dirty flag is set.
pub proof fn lemma_new_ui_dirty(fb: FbView, architecture: Seq<u8>)
    ensures
        ui_desktop(ui_blank(fb), architecture).dirty,
{
}

/// Writing never clears the dirty flag, and writing any byte that draws a
/// glyph sets it.
pub proof fn lemma_write_dirty(u: UiView, text: Seq<u8>)
    ensures
        u.dirty ==> ui_write(u, text).dirty,
        (exists|i: int| 0 <= i < text.len() && draws_glyph(#[trigger] text[i])) ==> ui_write(u, text).dirty,
{
    lemma_put_all_dirty(UiView { serial: u.serial + text, ..u }, text);
}

/// The labels and panels of the desktop, then the cleared terminal area.
pub open spec fn ui_desktop(u: UiView, architecture: Seq<u8>) -> UiView {
    if !fb_available(u.fb) {
        u
    } else {
        let width = u.fb.width;
        let height = u.fb.height;
        let f = fb_rect(u.fb, 0, 0, width, height, BG);
        let f = fb_rect(f, 0, 0, width, 64, PANEL);
        let f = fb_rect(f, 0, 63, width, 2, BLUE);
        let f = fb_rect(f, 26, 18, 30, 30, BLUE);
        let f = fb_rect(f, 32, 12, 18, 42, CYAN);
        let f = fb_label(f, 74, 21, label_blueos(), WHITE, 3);
        let f = fb_label(f, width.saturating_sub(176) as int, 25, architecture, MUTED, 2);
        let f = fb_rect(f, 24, 82, 212, 42, PANEL);
        let f = fb_label(f, 38, 94, label_graphics(), MUTED, 1);
        let f = fb_label(f, 124, 91, label_online(), GREEN, 2);
        let f = fb_rect(f, 248, 82, 212, 42, PANEL);
        let f = fb_label(f, 262, 94, label_lua_vm(), MUTED, 1);
        let f = fb_label(f, 332, 91, label_ready(), GREEN, 2);
        let f = fb_rect(f, 472, 82, 212, 42, PANEL);
        let f = fb_label(f, 486, 94, label_network(), MUTED, 1);
        let f = fb_label(f, 568, 91, label_probe(), CYAN, 2);
        ui_clear_area(UiView { fb: f, ..u })
    }
}

/// "BLUEOS"
pub open spec fn label_blueos() -> Seq<u8> {
    seq![0x42u8, 0x4c, 0x55, 0x45, 0x4f, 0x53]
}

/// "GRAPHICS"
pub open spec fn label_graphics() -> Seq<u8> {
    seq![0x47u8, 0x52, 0x41, 0x50, 0x48, 0x49, 0x43, 0x53]
}

/// "ONLINE"
pub open spec fn label_online() -> Seq<u8> {
    seq![0x4fu8, 0x4e, 0x4c, 0x49, 0x4e, 0x45]
}

/// "LUA VM"
pub open spec fn label_lua_vm() -> Seq<u8> {
    seq![0x4cu8, 0x55, 0x41, 0x20, 0x56, 0x4d]
}

/// "READY"
pub open spec fn label_ready() -> Seq<u8> {
    seq![0x52u8, 0x45, 0x41, 0x44, 0x59]
}

/// "NETWORK"
pub open spec fn label_network() -> Seq<u8> {
    seq![0x4eu8, 0x45, 0x54, 0x57, 0x4f, 0x52, 0x4b]
}

/// "PROBE"
pub open spec fn label_probe() -> Seq<u8> {
    seq![0x50u8, 0x52, 0x4f, 0x42, 0x45]
}

/// The terminal of a new UI on `fb`, before the desktop is drawn.
pub open spec fn ui_blank(fb: FbView) -> UiView {
    let available = fb_available(fb);
    let columns = fb.width.saturating_sub(60) / 12;
    let rows = fb.height.saturating_sub(174) / 18;
    UiView {
        fb,
        column: 0,
        row: 0,
        terminal_x: if available {
            30
        } else {
            0
        },
        terminal_y: if available {
            142
        } else {
            0
        },
        columns: if columns < 1 {
            1
        } else {
            columns
        },
        rows: if rows < 1 {
            1
        } else {
            rows
        },
        dirty: true,
        serial: Seq::empty(),
    }
}

impl Ui {
    pub closed spec fn view(&self) -> UiView {
        UiView {
            fb: self.framebuffer@,
            column: self.cursor_column,
            row: self.cursor_row,
            terminal_x: self.terminal_x,
            terminal_y: self.terminal_y,
            columns: self.columns,
            rows: self.rows,
            dirty: self.dirty,
            serial: self.serial@,
        }
    }

    /// A terminal on `framebuffer`, with the desktop drawn.
    pub fn new(framebuffer: Framebuffer, architecture: &str) -> (ui: Self)
        requires
            framebuffer@.width.saturating_sub(176) + 12 * architecture.spec_bytes().len()
                <= usize::MAX,
        ensures
            ui@ == ui_desktop(ui_blank(framebuffer@), architecture.spec_bytes()),
            ui_wf(ui@),
    {
        let available = framebuffer.available();
        let width = framebuffer.width;
        let height = framebuffer.height;
        let terminal_x = if available {
            30
        } else {
            0
        };
        let terminal_y = if available {
            142
        } else {
            0
        };
        let mut columns = width.saturating_sub(60) / 12;
        if columns < 1 {
            columns = 1;
        }
        let mut rows = height.saturating_sub(174) / 18;
        if rows < 1 {
            rows = 1;
        }
        let mut ui = Self {
            framebuffer,
            cursor_column: 0,
            cursor_row: 0,
            terminal_x,
            terminal_y,
            columns,
            rows,
            dirty: true,
            serial: Vec::new(),
        };
        assert(ui@ == ui_blank(framebuffer@));
        ui.draw_desktop(architecture);
        ui
    }

    fn draw_desktop(&mut self, architecture: &str)
        requires
            ui_wf(old(self)@),
            old(self)@.fb.width.saturating_sub(176) + 12 * architecture.spec_bytes().len()
                <= usize::MAX,
        ensures
            final(self)@ == ui_desktop(old(self)@, architecture.spec_bytes()),
            ui_wf(final(self)@),
    {
        if !self.framebuffer.available() {
            return ;
        }
        let width = self.framebuffer.width;
        let height = self.framebuffer.height;
        self.framebuffer.rect(0, 0, width, height, BG);
        self.framebuffer.rect(0, 0, width, 64, PANEL);
        self.framebuffer.rect(0, 63, width, 2, BLUE);
        self.framebuffer.rect(26, 18, 30, 30, BLUE);
        self.framebuffer.rect(32, 12, 18, 42, CYAN);
        self.framebuffer.label_bytes(74, 21, &[0x42u8, 0x4c, 0x55, 0x45, 0x4f, 0x53], WHITE, 3);
        self.framebuffer.label(width.saturating_sub(176), 25, architecture, MUTED, 2);
        self.framebuffer.rect(24, 82, 212, 42, PANEL);
        self.framebuffer.label_bytes(
            38,
            94,
            &[0x47u8, 0x52, 0x41, 0x50, 0x48, 0x49, 0x43, 0x53],
            MUTED,
            1,
        );
        self.framebuffer.label_bytes(124, 91, &[0x4fu8, 0x4e, 0x4c, 0x49, 0x4e, 0x45], GREEN, 2);
        self.framebuffer.rect(248, 82, 212, 42, PANEL);
        self.framebuffer.label_bytes(262, 94, &[0x4cu8, 0x55, 0x41, 0x20, 0x56, 0x4d], MUTED, 1);
        self.framebuffer.label_bytes(332, 91, &[0x52u8, 0x45, 0x41, 0x44, 0x59], GREEN, 2);
        self.framebuffer.rect(472, 82, 212, 42, PANEL);
        self.framebuffer.label_bytes(
            486,
            94,
            &[0x4eu8, 0x45, 0x54, 0x57, 0x4f, 0x52, 0x4b],
            MUTED,
            1,
        );
        self.framebuffer.label_bytes(568, 91, &[0x50u8, 0x52, 0x4f, 0x42, 0x45], CYAN, 2);
        self.clear_terminal_area();
    }

    fn clear_terminal_area(&mut self)
        requires
            ui_geometry(old(self)@),
        ensures
            final(self)@ == ui_clear_area(old(self)@),
            ui_wf(final(self)@),
    {
        if self.framebuffer.available() {
            let x = self.terminal_x.saturating_sub(12);
            let y = self.terminal_y.saturating_sub(10);
            let width = self.framebuffer.width.saturating_sub(self.terminal_x * 2).saturating_add(
                24,
            );
            let height = self.framebuffer.height.saturating_sub(self.terminal_y).saturating_sub(
                18,
            );
            self.framebuffer.rect(x, y, width, height, TERMINAL);
        }
        self.cursor_column = 0;
        self.cursor_row = 0;
        self.dirty = true;
    }

    /// Clears the terminal and shows a prompt.
    pub fn clear(&mut self)
        requires
            ui_wf(old(self)@),
        ensures
            final(self)@ == ui_write(ui_clear_area(old(self)@), "BlueOS console cleared\n> ".spec_bytes()),
            ui_wf(final(self)@),
    {
        self.clear_terminal_area();
        self.write("BlueOS console cleared\n> ");
    }

    /// Writes `text` to the serial log and the screen.
    pub fn write(&mut self, text: &str)
        requires
            ui_wf(old(self)@),
        ensures
            final(self)@ == ui_write(old(self)@, text.spec_bytes()),
            ui_wf(final(self)@),
    {
        self.write_bytes(text.as_bytes());
    }

    /// Writes the bytes of `text` to the serial log and the screen.
    pub fn write_bytes(&mut self, text: &[u8])
        requires
            ui_wf(old(self)@),
        ensures
            final(self)@ == ui_write(old(self)@, text@),
            ui_wf(final(self)@),
    {
        let mut index: usize = 0;
        while index < text.len()
            invariant
                index <= text@.len(),
                self@ == (UiView {
                    serial: old(self)@.serial + text@.subrange(0, index as int),
                    ..old(self)@
                }),
            decreases text@.len() - index,
        {
            self.serial.push(text[index]);
            index = index + 1;
            assert(self.serial@ =~= old(self)@.serial + text@.subrange(0, index as int));
        }
        assert(text@.subrange(0, text@.len() as int) =~= text@);
        let ghost start = self@;
        assert(start == UiView { serial: old(self)@.serial + text@, ..old(self)@ });
        let mut index: usize = 0;
        assert(text@.subrange(0, text@.len() as int) =~= text@);
        while index < text.len()
            invariant
                index <= text@.len(),
                ui_wf(self@),
                ui_wf(start),
                ui_put_all(start, text@) == ui_put_all(
                    self@,
                    text@.subrange(index as int, text@.len() as int),
                ),
            decreases text@.len() - index,
        {
            proof {
                let rest = text@.subrange(index as int, text@.len() as int);
                assert(rest.drop_first() =~= text@.subrange(index + 1, text@.len() as int));
                lemma_ui_put(self@, text@[index as int]);
            }
            self.put_byte(text[index]);
            index = index + 1;
        }
        assert(text@.subrange(text@.len() as int, text@.len() as int) =~= Seq::<u8>::empty());
    }

    /// Writes `number` in decimal.
    pub fn write_number(&mut self, number: i64)
        requires
            ui_wf(old(self)@),
        ensures
            final(self)@ == ui_write(old(self)@, signed_decimal(number as int)),
            ui_wf(final(self)@),
    {
        let text = format_i64(number);
        self.write_bytes(text.as_slice());
    }

    /// Writes an IPv4 address in dotted decimal.
    pub fn write_ipv4(&mut self, address: [u8; 4])
        requires
            ui_wf(old(self)@),
        ensures
            final(self)@ == ui_write(old(self)@, ipv4_text(address@)),
            ui_wf(final(self)@),
    {
        let ghost u = old(self)@;
        let d0 = format_u64(address[0] as u64);
        let d1 = format_u64(address[1] as u64);
        let d2 = format_u64(address[2] as u64);
        let d3 = format_u64(address[3] as u64);
        let dot = [0x2eu8];
        assert(dot@ =~= seq![0x2eu8]);
        self.write_bytes(d0.as_slice());
        self.write_bytes(&dot);
        proof {
            lemma_ui_write_concat(u, d0@, dot@);
        }
        self.write_bytes(d1.as_slice());
        proof {
            lemma_ui_write_concat(u, d0@ + dot@, d1@);
        }
        self.write_bytes(&dot);
        proof {
            lemma_ui_write_concat(u, d0@ + dot@ + d1@, dot@);
        }
        self.write_bytes(d2.as_slice());
        proof {
            lemma_ui_write_concat(u, d0@ + dot@ + d1@ + dot@, d2@);
        }
        self.write_bytes(&dot);
        proof {
            lemma_ui_write_concat(u, d0@ + dot@ + d1@ + dot@ + d2@, dot@);
        }
        self.write_bytes(d3.as_slice());
        proof {
            lemma_ui_write_concat(u, d0@ + dot@ + d1@ + dot@ + d2@ + dot@, d3@);
        }
    }

    fn put_byte(&mut self, byte: u8)
        requires
            ui_wf(old(self)@),
        ensures
            final(self)@ == ui_put(old(self)@, byte),
    {
        if byte == 0x0a {
            self.newline();
            return ;
        }
        if byte == 0x0d {
            self.cursor_column = 0;
            return ;
        }
        if byte == 8 || byte == 127 {
            if self.cursor_column > 0 {
                self.cursor_column = self.cursor_column - 1;
                let x = self.terminal_x + self.cursor_column * 12;
                let y = self.terminal_y + self.cursor_row * 18;
                self.framebuffer.rect(x, y, 12, 16, TERMINAL);
                self.dirty = true;
            }
            return ;
        }
        if self.cursor_column >= self.columns {
            self.newline();
        }
        if self.framebuffer.available() {
            let x = self.terminal_x + self.cursor_column * 12;
            let y = self.terminal_y + self.cursor_row * 18;
            self.framebuffer.character(x, y, byte, WHITE, 2);
        }
        self.cursor_column = self.cursor_column + 1;
        self.dirty = true;
    }

    fn newline(&mut self)
        requires
            ui_wf(old(self)@),
        ensures
            final(self)@ == ui_newline(old(self)@),
            ui_wf(final(self)@),
    {
        self.cursor_column = 0;
        self.cursor_row = self.cursor_row + 1;
        if self.cursor_row >= self.rows {
            self.clear_terminal_area();
        }
    }

    /// Whether the screen changed since the last call.
    pub fn take_dirty(&mut self) -> (was_dirty: bool)
        ensures
            was_dirty == old(self)@.dirty,
            final(self)@ == (UiView { dirty: false, ..old(self)@ }),
    {
        let was_dirty = self.dirty;
        self.dirty = false;
        was_dirty
    }

    /// Takes the text written since the last call, for the serial log.
    pub fn take_serial(&mut self) -> (text: Vec<u8>)
        ensures
            text@ == old(self)@.serial,
            final(self)@ == (UiView { serial: Seq::empty(), ..old(self)@ }),
    {
        let mut text: Vec<u8> = Vec::new();
        std::mem::swap(&mut text, &mut self.serial);
        text
    }
}

/// Writes `text` after `written`, all of it counted from `start`.
pub(crate) fn write_more(ui: &mut Ui, text: &str, start: Ghost<UiView>, written: Ghost<Seq<u8>>)
    requires
        ui_wf(start@),
        old(ui)@ == ui_write(start@, written@),
    ensures
        final(ui)@ == ui_write(start@, written@ + text.spec_bytes()),
        ui_wf(final(ui)@),
{
    proof {
        lemma_ui_write_concat(start@, written@, text.spec_bytes());
    }
    ui.write(text);
}

} // verus!
