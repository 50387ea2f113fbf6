//! Alignment, font style and the full text style of subtitles.

use vstd::prelude::*;
use crate::utility::text::{
    decimal, digit_char, push_decimal, push_str, string_from_chars, text_is_empty, text_of,
};

verus! {

/// Horizontal alignment of subtitle text.
#[derive(Debug, Clone, Copy, PartialEq, Eq, Structural)]
pub enum HorizontalAlign {
    /// Left-aligned.
    Left,
    /// Centred (the default).
    Center,
    /// Right-aligned.
    Right,
}

/// The name of a horizontal alignment.
pub open spec fn horizontal_name(a: HorizontalAlign) -> Seq<char> {
    match a {
        HorizontalAlign::Left => "left"@,
        HorizontalAlign::Center => "center"@,
        HorizontalAlign::Right => "right"@,
    }
}

impl Default for HorizontalAlign {
    fn default() -> (a: Self)
        ensures
            a == HorizontalAlign::Center,
    {
        HorizontalAlign::Center
    }
}

impl HorizontalAlign {
    /// The name of the alignment.
    pub fn as_str(&self) -> (s: &'static str)
        ensures
            s@ == horizontal_name(*self),
    {
        match self {
            HorizontalAlign::Left => "left",
            HorizontalAlign::Center => "center",
            HorizontalAlign::Right => "right",
        }
    }
}

/// Vertical alignment of subtitle text.
#[derive(Debug, Clone, Copy, PartialEq, Eq, Structural)]
pub enum VerticalAlign {
    /// At the top.
    Top,
    /// In the middle.
    Middle,
    /// At the bottom (the default).
    Bottom,
}

/// The name of a vertical alignment.
pub open spec fn vertical_name(a: VerticalAlign) -> Seq<char> {
    match a {
        VerticalAlign::Top => "top"@,
        VerticalAlign::Middle => "middle"@,
        VerticalAlign::Bottom => "bottom"@,
    }
}

impl Default for VerticalAlign {
    fn default() -> (a: Self)
        ensures
            a == VerticalAlign::Bottom,
    {
        VerticalAlign::Bottom
    }
}

impl VerticalAlign {
    /// The name of the alignment.
    pub fn as_str(&self) -> (s: &'static str)
        ensures
            s@ == vertical_name(*self),
    {
        match self {
            VerticalAlign::Top => "top",
            VerticalAlign::Middle => "middle",
            VerticalAlign::Bottom => "bottom",
        }
    }
}

/// Font styles.
#[derive(Debug, Clone, Copy, PartialEq, Eq, Structural)]
pub enum FontStyle {
    /// Normal (the default).
    Normal,
    /// Italic.
    Italic,
    /// Bold.
    Bold,
    /// Bold and italic.
    BoldItalic,
}

/// The CSS notation of a font style.
pub open spec fn font_style_css(f: FontStyle) -> Seq<char> {
    match f {
        FontStyle::Normal => "normal"@,
        FontStyle::Italic => "italic"@,
        FontStyle::Bold => "bold"@,
        FontStyle::BoldItalic => "bold italic"@,
    }
}

impl Default for FontStyle {
    fn default() -> (f: Self)
        ensures
            f == FontStyle::Normal,
    {
        FontStyle::Normal
    }
}

impl FontStyle {
    /// The CSS notation of the font style.
    pub fn as_css(&self) -> (s: &'static str)
        ensures
            s@ == font_style_css(*self),
    {
        match self {
            FontStyle::Normal => "normal",
            FontStyle::Italic => "italic",
            FontStyle::Bold => "bold",
            FontStyle::BoldItalic => "bold italic",
        }
    }
}

/// The style of subtitle text. The outline width is in thousandths of a pixel;
/// the position, where there is one, is in percent of the frame's width and
/// height, each at most 100.
#[derive(Debug, Clone)]
pub struct TextStyle {
    pub font_family: String,
    pub font_size: u32,
    pub color: String,
    /// The background colour; empty for a transparent background.
    pub background: String,
    pub font_style: FontStyle,
    pub horizontal_align: HorizontalAlign,
    pub vertical_align: VerticalAlign,
    pub outline_color: String,
    pub outline_width: u32,
    pub position: Option<(u32, u32)>,
}

/// The digits after the decimal point of `f` thousandths (`f` below 1000, not 0),
/// without trailing zeros.
pub open spec fn fraction_digits(f: nat) -> Seq<char> {
    if f % 100 == 0 {
        seq![digit_char(f / 100)]
    } else if f % 10 == 0 {
        seq![digit_char(f / 100), digit_char((f / 10) % 10)]
    } else {
        seq![digit_char(f / 100), digit_char((f / 10) % 10), digit_char(f % 10)]
    }
}

/// A length of `n` thousandths written in decimal, with no trailing zeros after
/// the point and no point for a whole number.
pub open spec fn thousandths_text(n: nat) -> Seq<char> {
    if n % 1000 == 0 {
        decimal(n / 1000)
    } else {
        decimal(n / 1000) + "."@ + fraction_digits(n % 1000)
    }
}

/// The WebVTT cue settings of a style: its position where it has one, otherwise
/// its alignment and the line of its vertical alignment.
pub open spec fn vtt_settings(s: TextStyle) -> Seq<char> {
    match s.position {
        Some((x, y)) => "position:"@ + decimal(x as nat) + "% line:"@ + decimal(y as nat) + "%"@,
        None => "align:"@ + horizontal_name(s.horizontal_align) + match s.vertical_align {
            VerticalAlign::Top => " line:0%"@,
            VerticalAlign::Middle => " line:50%"@,
            VerticalAlign::Bottom => " line:100%"@,
        },
    }
}

/// The CSS declarations of a style, separated by `; `: font family, size and
/// style, colour, the background where there is one, an outline shadow where the
/// width is positive and there is an outline colour, and the alignment.
pub open spec fn css_text(s: TextStyle) -> Seq<char> {
    let fonts = "font-family: "@ + s.font_family@ + "; font-size: "@ + decimal(s.font_size as nat) + "px; font-style: "@
        + font_style_css(s.font_style) + "; color: "@ + s.color@;
    let back = if s.background@.len() > 0 { "; background-color: "@ + s.background@ } else { Seq::empty() };
    let outline = if s.outline_width > 0 && s.outline_color@.len() > 0 {
        "; text-shadow: 0 0 "@ + thousandths_text(s.outline_width as nat) + "px "@ + s.outline_color@
    } else {
        Seq::empty()
    };
    fonts + back + outline + "; text-align: "@ + horizontal_name(s.horizontal_align)
}

/// The default style: white 24 pixel sans-serif on a transparent background,
/// centred at the bottom, with a black outline one pixel wide.
pub open spec fn default_style(s: TextStyle) -> bool {
    &&& s.font_family@ == "sans-serif"@
    &&& s.font_size == 24
    &&& s.color@ == "#FFFFFF"@
    &&& s.background@ == Seq::<char>::empty()
    &&& s.font_style == FontStyle::Normal
    &&& s.horizontal_align == HorizontalAlign::Center
    &&& s.vertical_align == VerticalAlign::Bottom
    &&& s.outline_color@ == "#000000"@
    &&& s.outline_width == 1000
    &&& s.position is None
}

fn push_digit(out: &mut Vec<char>, d: u32)
    requires
        d < 10,
    ensures
        final(out)@ == old(out)@.push(digit_char(d as nat)),
{
    let mut v: Vec<char> = Vec::new();
    push_decimal(&mut v, d as u64);
    assert(v@ == seq![digit_char(d as nat)]);
    out.push(v[0]);
}

/// Appends `n` thousandths written as `thousandths_text` does.
fn push_thousandths(out: &mut Vec<char>, n: u32)
    ensures
        final(out)@ == old(out)@ + thousandths_text(n as nat),
{
    push_decimal(out, (n / 1000) as u64);
    let f = n % 1000;
    if f != 0 {
        out.push('.');
        push_digit(out, f / 100);
        if f % 100 != 0 {
            push_digit(out, (f / 10) % 10);
            if f % 10 != 0 {
                push_digit(out, f % 10);
            }
        }
        proof {
            reveal_strlit(".");
        }
        assert(final(out)@ =~= old(out)@ + thousandths_text(n as nat)) by {
            reveal_strlit(".");
        }
    }
}

impl Default for TextStyle {
    fn default() -> (s: Self)
        ensures
            default_style(s),
    {
        TextStyle {
            font_family: text_of("sans-serif"),
            font_size: 24,
            color: text_of("#FFFFFF"),
            background: String::new(),
            font_style: FontStyle::Normal,
            horizontal_align: HorizontalAlign::Center,
            vertical_align: VerticalAlign::Bottom,
            outline_color: text_of("#000000"),
            outline_width: 1000,
            position: None,
        }
    }
}

impl TextStyle {
    /// The default style (see `default_style`).
    pub fn new() -> (s: Self)
        ensures
            default_style(s),
    {
        Self::default()
    }

    /// A copy of the style.
    pub fn copy_of(&self) -> (s: Self)
        ensures
            s == *self,
    {
        TextStyle {
            font_family: self.font_family.clone(),
            font_size: self.font_size,
            color: self.color.clone(),
            background: self.background.clone(),
            font_style: self.font_style,
            horizontal_align: self.horizontal_align,
            vertical_align: self.vertical_align,
            outline_color: self.outline_color.clone(),
            outline_width: self.outline_width,
            position: self.position,
        }
    }

    /// The style with the font family `font`.
    pub fn font_family(self, font: &str) -> (s: Self)
        ensures
            s == (TextStyle { font_family: s.font_family, ..self }),
            s.font_family@ == font@,
    {
        TextStyle { font_family: text_of(font), ..self }
    }

    /// The style with the font size `size`.
    pub fn font_size(self, size: u32) -> (s: Self)
        ensures
            s == (TextStyle { font_size: size, ..self }),
    {
        TextStyle { font_size: size, ..self }
    }

    /// The style with the text colour `color`.
    pub fn color(self, color: &str) -> (s: Self)
        ensures
            s == (TextStyle { color: s.color, ..self }),
            s.color@ == color@,
    {
        TextStyle { color: text_of(color), ..self }
    }

    /// The style with the background colour `color`.
    pub fn background(self, color: &str) -> (s: Self)
        ensures
            s == (TextStyle { background: s.background, ..self }),
            s.background@ == color@,
    {
        TextStyle { background: text_of(color), ..self }
    }

    /// The style with the font style `style`.
    pub fn font_style(self, style: FontStyle) -> (s: Self)
        ensures
            s == (TextStyle { font_style: style, ..self }),
    {
        TextStyle { font_style: style, ..self }
    }

    /// The style with the horizontal alignment `align`.
    pub fn horizontal_align(self, align: HorizontalAlign) -> (s: Self)
        ensures
            s == (TextStyle { horizontal_align: align, ..self }),
    {
        TextStyle { horizontal_align: align, ..self }
    }

    /// The style with the vertical alignment `align`.
    pub fn vertical_align(self, align: VerticalAlign) -> (s: Self)
        ensures
            s == (TextStyle { vertical_align: align, ..self }),
    {
        TextStyle { vertical_align: align, ..self }
    }

    /// The style with the outline colour `color`.
    pub fn outline_color(self, color: &str) -> (s: Self)
        ensures
            s == (TextStyle { outline_color: s.outline_color, ..self }),
            s.outline_color@ == color@,
    {
        TextStyle { outline_color: text_of(color), ..self }
    }

    /// The style with an outline `width` thousandths of a pixel wide.
    pub fn outline_width(self, width: u32) -> (s: Self)
        ensures
            s == (TextStyle { outline_width: width, ..self }),
    {
        TextStyle { outline_width: width, ..self }
    }

    /// The style placed at `x` and `y` percent of the frame, each taken as at most
    /// 100.
    pub fn position(self, x: u32, y: u32) -> (s: Self)
        ensures
            s == (TextStyle {
                position: Some((if x <= 100 { x } else { 100 }, if y <= 100 { y } else { 100 })),
                ..self
            }),
    {
        let x = if x <= 100 { x } else { 100 };
        let y = if y <= 100 { y } else { 100 };
        TextStyle { position: Some((x, y)), ..self }
    }

    /// The style without a position.
    pub fn clear_position(self) -> (s: Self)
        ensures
            s == (TextStyle { position: None, ..self }),
    {
        TextStyle { position: None, ..self }
    }

    /// The WebVTT cue settings of the style (see `vtt_settings`).
    pub fn to_vtt_string(&self) -> (r: String)
        ensures
            r@ == vtt_settings(*self),
    {
        let mut out: Vec<char> = Vec::new();
        match self.position {
            Some((x, y)) => {
                push_str(&mut out, "position:");
                push_decimal(&mut out, x as u64);
                push_str(&mut out, "% line:");
                push_decimal(&mut out, y as u64);
                push_str(&mut out, "%");
            },
            None => {
                push_str(&mut out, "align:");
                push_str(&mut out, self.horizontal_align.as_str());
                match self.vertical_align {
                    VerticalAlign::Top => push_str(&mut out, " line:0%"),
                    VerticalAlign::Middle => push_str(&mut out, " line:50%"),
                    VerticalAlign::Bottom => push_str(&mut out, " line:100%"),
                }
            },
        }
        string_from_chars(&out)
    }

    /// The CSS declarations of the style (see `css_text`).
    pub fn to_css_string(&self) -> (r: String)
        ensures
            r@ == css_text(*self),
    {
        let mut out: Vec<char> = Vec::new();
        push_str(&mut out, "font-family: ");
        push_str(&mut out, self.font_family.as_str());
        push_str(&mut out, "; font-size: ");
        push_decimal(&mut out, self.font_size as u64);
        push_str(&mut out, "px; font-style: ");
        push_str(&mut out, self.font_style.as_css());
        push_str(&mut out, "; color: ");
        push_str(&mut out, self.color.as_str());
        if !text_is_empty(self.background.as_str()) {
            push_str(&mut out, "; background-color: ");
            push_str(&mut out, self.background.as_str());
        }
        if self.outline_width > 0 && !text_is_empty(self.outline_color.as_str()) {
            push_str(&mut out, "; text-shadow: 0 0 ");
            push_thousandths(&mut out, self.outline_width);
            push_str(&mut out, "px ");
            push_str(&mut out, self.outline_color.as_str());
        }
        push_str(&mut out, "; text-align: ");
        push_str(&mut out, self.horizontal_align.as_str());
        string_from_chars(&out)
    }
}

/// Whether two styles hold the same values.
pub open spec fn styles_match(x: TextStyle, y: TextStyle) -> bool {
    &&& x.font_family@ == y.font_family@
    &&& x.font_size == y.font_size
    &&& x.color@ == y.color@
    &&& x.background@ == y.background@
    &&& x.font_style == y.font_style
    &&& x.horizontal_align == y.horizontal_align
    &&& x.vertical_align == y.vertical_align
    &&& x.outline_color@ == y.outline_color@
    &&& x.outline_width == y.outline_width
    &&& x.position == y.position
}

/// Whether two optional styles are both absent or hold the same values.
pub open spec fn optional_styles_match(a: Option<TextStyle>, b: Option<TextStyle>) -> bool {
    match (a, b) {
        (None, None) => true,
        (Some(x), Some(y)) => styles_match(x, y),
        _ => false,
    }
}

/// Whether two optional styles are the same (see `optional_styles_match`).
pub fn same_style(a: &Option<TextStyle>, b: &Option<TextStyle>) -> (r: bool)
    ensures
        r == optional_styles_match(*a, *b),
{
    match (a, b) {
        (None, None) => true,
        (Some(x), Some(y)) => {
            let same = x.font_family == y.font_family && x.font_size == y.font_size && x.color == y.color
                && x.background == y.background && x.font_style == y.font_style
                && x.horizontal_align == y.horizontal_align && x.vertical_align == y.vertical_align
                && x.outline_color == y.outline_color && x.outline_width == y.outline_width
                && x.position == y.position;
            same
        },
        _ => false,
    }
}

} // verus!
