//! The text console's geometry and cursor rules. Drawing the glyphs into
//! the frame buffer is left to the console's implementor.

use vstd::prelude::*;

verus! {

/// The weight of the font a character is drawn in.
#[derive(Debug, Clone, Copy, Hash, PartialEq, Eq, Structural)]
pub enum FontType {
    /// Regular weight.
    Text,
    /// Bold weight.
    Bold,
}

impl Default for FontType {
    fn default() -> (r: Self)
        ensures
            r == FontType::Text,
    {
        FontType::Text
    }
}

/// A text console over a frame buffer.
pub trait Console {
    /// Draws one character at the cursor and advances the cursor; a line
    /// feed starts a new line and a carriage return goes back to the start of
    /// the line.
    fn put_char(&mut self, character: char, font_type: FontType, red_green_blue: [u8; 3]);

    /// Moves to the next line, back at its start.
    fn new_line(&mut self);

    /// Moves back to the start of the line.
    fn carriage_return(&mut self);

    /// Clears the screen and puts the cursor back where it starts.
    fn reset(&mut self);
}

/// How many characters fit on the screen: per line and lines.
pub struct TextBufferInfo {
    width: usize,
    height: usize,
}

impl TextBufferInfo {
    /// Characters per line.
    pub closed spec fn spec_width(&self) -> usize {
        self.width
    }

    /// Lines on the screen.
    pub closed spec fn spec_height(&self) -> usize {
        self.height
    }

    /// The text grid of a screen `stride` pixels wide and `height` pixels
    /// high, for glyphs `scale` pixels high and half as wide.
    pub fn new(stride: usize, height: usize, scale: usize) -> (r: Self)
        requires
            scale >= 2,
        ensures
            r.spec_width() == stride / (scale / 2),
            r.spec_height() == height / scale,
    {
        TextBufferInfo { width: stride / (scale / 2), height: height / scale }
    }

    /// The most characters that fit on one line.
    pub fn width(&self) -> (r: usize)
        ensures
            r == self.spec_width(),
    {
        self.width
    }

    /// The most lines that fit on the screen.
    pub fn height(&self) -> (r: usize)
        ensures
            r == self.spec_height(),
    {
        self.height
    }
}

/// Cells a character takes on a line: one for ASCII and half-width katakana,
/// two for anything else.
pub open spec fn spec_char_advance(c: char) -> usize {
    if ('\u{0}' <= c && c <= '\u{7f}') || ('\u{ff61}' <= c && c <= '\u{ff9f}') {
        1
    } else {
        2
    }
}

/// Cells that `c` takes on a line.
pub fn char_advance(c: char) -> (r: usize)
    ensures
        r == spec_char_advance(c),
{
    if ('\u{0}' <= c && c <= '\u{7f}') || ('\u{ff61}' <= c && c <= '\u{ff9f}') {
        1
    } else {
        2
    }
}

/// Where the next character goes: cell `x` of line `y`.
#[derive(Debug, Clone, Copy, PartialEq, Eq, Structural)]
pub struct Cursor {
    pub x: usize,
    pub y: usize,
}

impl Cursor {
    /// The position a fresh or reset console starts at.
    pub fn home() -> (r: Cursor)
        ensures
            r == (Cursor { x: 0, y: 1 }),
    {
        Cursor { x: 0, y: 1 }
    }

    /// Back to the start of the line.
    pub fn carriage_return(&mut self)
        ensures
            *final(self) == (Cursor { x: 0, y: old(self).y }),
    {
        self.x = 0;
    }

    /// To the start of the next line, on a screen of `height` lines; there
    /// is no scrolling past the last one.
    pub fn new_line(&mut self, height: usize)
        requires
            old(self).y < height,
        ensures
            *final(self) == (Cursor { x: 0, y: (old(self).y + 1) as usize }),
    {
        if self.x > 0 {
            self.carriage_return();
        }
        self.y = self.y + 1;
    }

    /// Past a drawn character `c`, on a screen of `width` cells per line and
    /// `height` lines: a line that is full continues on the next one.
    pub fn advance(&mut self, c: char, width: usize, height: usize)
        requires
            old(self).x + spec_char_advance(c) <= usize::MAX,
            old(self).x + spec_char_advance(c) >= width ==> old(self).y < height,
        ensures
            old(self).x + spec_char_advance(c) < width ==> *final(self) == (Cursor {
                x: (old(self).x + spec_char_advance(c)) as usize,
                y: old(self).y,
            }),
            old(self).x + spec_char_advance(c) >= width ==> *final(self) == (Cursor {
                x: 0,
                y: (old(self).y + 1) as usize,
            }),
    {
        self.x = self.x + char_advance(c);
        if self.x >= width {
            self.new_line(height);
        }
    }
}

/// How a frame buffer lays out the color of one pixel.
#[derive(Debug, Clone, Copy, PartialEq, Eq, Structural)]
pub enum PixelFormat {
    /// Red, green, blue, one byte each.
    Rgb,
    /// Blue, green, red, one byte each.
    Bgr,
    /// One gray byte.
    U8,
    /// Bytes at the given positions.
    Unknown { red_position: u8, green_position: u8, blue_position: u8 },
}

/// The bytes of a pixel of color `red_green_blue` in `pixel_format`.
pub open spec fn spec_encode(red_green_blue: [u8; 3], pixel_format: PixelFormat) -> [u8; 3] {
    let red = red_green_blue[0];
    let green = red_green_blue[1];
    let blue = red_green_blue[2];
    match pixel_format {
        PixelFormat::Rgb => red_green_blue,
        PixelFormat::Bgr => [blue, green, red],
        PixelFormat::U8 => [((red + green + blue) / 3) as u8, 0, 0],
        PixelFormat::Unknown { red_position, green_position, blue_position } => [
            red_position,
            green_position,
            blue_position,
        ],
    }
}

/// Encodes the color `red_green_blue` as the bytes of one pixel in
/// `pixel_format`; a gray pixel is the mean of the three components, whose
/// sum must fit in a byte.
pub fn encode(red_green_blue: [u8; 3], pixel_format: PixelFormat) -> (r: [u8; 3])
    requires
        pixel_format == PixelFormat::U8 ==> red_green_blue[0] + red_green_blue[1]
            + red_green_blue[2] <= u8::MAX,
    ensures
        r == spec_encode(red_green_blue, pixel_format),
{
    let red = red_green_blue[0];
    let green = red_green_blue[1];
    let blue = red_green_blue[2];
    match pixel_format {
        PixelFormat::Rgb => red_green_blue,
        PixelFormat::Bgr => [blue, green, red],
        PixelFormat::U8 => [(red + green + blue) / 3, 0, 0],
        PixelFormat::Unknown { red_position, green_position, blue_position } => [
            red_position,
            green_position,
            blue_position,
        ],
    }
}

} // verus!
