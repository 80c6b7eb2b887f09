//! What the markup of a layout needs from the core: colors in hex notation,
//! and the widgets that the markup gave an id.

use crate::drawing::{Color, GradientMode};
use crate::layout::WidgetID;
use crate::renderers::text::{FontWeight, HorizontalAlign};
use vstd::prelude::*;
use vstd::string::StringSliceAdditionalSpecFns;

verus! {

/// The value of a hex digit, in either case.
pub open spec fn hex_value(digit: u8) -> Option<u8> {
    if 0x30 <= digit <= 0x39 {
        Some((digit - 0x30) as u8)
    } else if 0x61 <= digit <= 0x66 {
        Some((digit - 0x61 + 10) as u8)
    } else if 0x41 <= digit <= 0x46 {
        Some((digit - 0x41 + 10) as u8)
    } else {
        None
    }
}

/// The value of a field of two characters: two hex digits, or a plus sign
/// and one hex digit.
pub open spec fn hex_field(high: u8, low: u8) -> Option<u8> {
    if high == 0x2b {
        hex_value(low)
    } else {
        match (hex_value(high), hex_value(low)) {
            (Some(h), Some(l)) => Some((h * 16 + l) as u8),
            _ => None,
        }
    }
}

/// The color that a text of seven or nine bytes stands for: a first byte
/// that is not looked at, then one field each for red, green and blue and,
/// with nine bytes, for alpha. Without an alpha field the color is opaque.
pub open spec fn color_of(text: Seq<u8>) -> Option<Color> {
    if text.len() == 7 {
        match (hex_field(text[1], text[2]), hex_field(text[3], text[4]), hex_field(text[5], text[6])) {
            (Some(r), Some(g), Some(b)) => Some(Color { r, g, b, a: 255 }),
            _ => None,
        }
    } else if text.len() == 9 {
        match (
            hex_field(text[1], text[2]),
            hex_field(text[3], text[4]),
            hex_field(text[5], text[6]),
            hex_field(text[7], text[8]),
        ) {
            (Some(r), Some(g), Some(b), Some(a)) => Some(Color { r, g, b, a }),
            _ => None,
        }
    } else {
        None
    }
}

fn parse_hex_digit(digit: u8) -> (value: Option<u8>)
    ensures
        value == hex_value(digit),
        value is Some ==> value->0 < 16,
{
    if 0x30 <= digit && digit <= 0x39 {
        Some(digit - 0x30)
    } else if 0x61 <= digit && digit <= 0x66 {
        Some(digit - 0x61 + 10)
    } else if 0x41 <= digit && digit <= 0x46 {
        Some(digit - 0x41 + 10)
    } else {
        None
    }
}

fn parse_hex_field(high: u8, low: u8) -> (value: Option<u8>)
    ensures
        value == hex_field(high, low),
{
    if high == 0x2b {
        return parse_hex_digit(low);
    }
    match (parse_hex_digit(high), parse_hex_digit(low)) {
        (Some(h), Some(l)) => Some(h * 16 + l),
        _ => None,
    }
}

/// Parses a color from an HTML hex string, such as `#ff8000` or
/// `#ff800080`.
pub fn parse_color(html_hex: &str) -> (color: Option<Color>)
    ensures
        color == color_of(html_hex.spec_bytes()),
{
    let text = html_hex.as_bytes();
    if text.len() == 7 {
        match (
            parse_hex_field(text[1], text[2]),
            parse_hex_field(text[3], text[4]),
            parse_hex_field(text[5], text[6]),
        ) {
            (Some(r), Some(g), Some(b)) => Some(Color::new(r, g, b, 255)),
            _ => None,
        }
    } else if text.len() == 9 {
        match (
            parse_hex_field(text[1], text[2]),
            parse_hex_field(text[3], text[4]),
            parse_hex_field(text[5], text[6]),
            parse_hex_field(text[7], text[8]),
        ) {
            (Some(r), Some(g), Some(b), Some(a)) => Some(Color::new(r, g, b, a)),
            _ => None,
        }
    } else {
        None
    }
}

/// Why a lookup in a [`ParserResult`] failed.
#[derive(Debug)]
pub enum ParserError {
    /// No widget was given this id.
    UnknownId(String),
}

/// The widgets that the markup gave an id, by that id.
#[derive(Debug)]
pub struct ParserResult {
    pub ids: Vec<(String, WidgetID)>,
}

/// The widget that `ids` holds under `id`: the last entry of that id.
pub open spec fn lookup(ids: Seq<(String, WidgetID)>, id: Seq<char>) -> Option<WidgetID>
    decreases ids.len(),
{
    if ids.len() == 0 {
        None
    } else if ids.last().0@ == id {
        Some(ids.last().1)
    } else {
        lookup(ids.drop_last(), id)
    }
}

impl Default for ParserResult {
    fn default() -> (result: Self)
        ensures
            result.ids@.len() == 0,
    {
        ParserResult { ids: Vec::new() }
    }
}

impl ParserResult {
    /// Gives `widget_id` the id `id`; an earlier widget of that id loses it.
    /// Returns whether there was one.
    pub fn insert(&mut self, id: &str, widget_id: WidgetID) -> (replaced: bool)
        ensures
            final(self).ids@.len() == old(self).ids@.len() + 1,
            replaced == (lookup(old(self).ids@, id@) is Some),
            lookup(final(self).ids@, id@) == Some(widget_id),
            forall|other: Seq<char>|
                other != id@ ==> lookup(final(self).ids@, other) == lookup(old(self).ids@, other),
    {
        let replaced = self.get(id).is_some();
        let ghost before = self.ids@;
        let key = id.to_owned();
        self.ids.push((key, widget_id));
        proof {
            assert(self.ids@.drop_last() =~= before);
        }
        replaced
    }

    /// The widget of the id `id`, if there is one.
    pub fn get(&self, id: &str) -> (found: Option<WidgetID>)
        ensures
            found == lookup(self.ids@, id@),
    {
        let key = id.to_owned();
        let mut i: usize = self.ids.len();
        proof {
            assert(self.ids@.subrange(0, i as int) =~= self.ids@);
        }
        while i > 0
            invariant
                i <= self.ids@.len(),
                key@ == id@,
                lookup(self.ids@, id@) == lookup(self.ids@.subrange(0, i as int), id@),
            decreases i,
        {
            let ghost prefix = self.ids@.subrange(0, i as int);
            proof {
                assert(prefix.drop_last() =~= self.ids@.subrange(0, i as int - 1));
            }
            i -= 1;
            if self.ids[i].0 == key {
                return Some(self.ids[i].1);
            }
        }
        None
    }

    /// The widget of the id `id`, or the error that names the id.
    pub fn require_by_id(&self, id: &str) -> (found: Result<WidgetID, ParserError>)
        ensures
            match found {
                Ok(widget_id) => lookup(self.ids@, id@) == Some(widget_id),
                Err(ParserError::UnknownId(name)) => lookup(self.ids@, id@) is None && name@
                    == id@,
            },
    {
        match self.get(id) {
            Some(widget_id) => Ok(widget_id),
            None => Err(ParserError::UnknownId(id.to_owned())),
        }
    }
}


fn is_word(value: &str, word: &str) -> (same: bool)
    ensures
        same == (value@ == word@),
{
    value.to_owned() == word.to_owned()
}

/// The gradient that a word of the markup names.
pub open spec fn gradient_of(word: Seq<char>) -> Option<GradientMode> {
    if word == "horizontal"@ {
        Some(GradientMode::Horizontal)
    } else if word == "vertical"@ {
        Some(GradientMode::Vertical)
    } else if word == "radial"@ {
        Some(GradientMode::Radial)
    } else if word == "none"@ {
        Some(GradientMode::Solid)
    } else {
        None
    }
}

pub fn parse_gradient(value: &str) -> (gradient: Option<GradientMode>)
    ensures
        gradient == gradient_of(value@),
{
    if is_word(value, "horizontal") {
        Some(GradientMode::Horizontal)
    } else if is_word(value, "vertical") {
        Some(GradientMode::Vertical)
    } else if is_word(value, "radial") {
        Some(GradientMode::Radial)
    } else if is_word(value, "none") {
        Some(GradientMode::Solid)
    } else {
        None
    }
}

/// The alignment that a word of the markup names.
pub open spec fn align_of(word: Seq<char>) -> Option<HorizontalAlign> {
    if word == "left"@ {
        Some(HorizontalAlign::Left)
    } else if word == "right"@ {
        Some(HorizontalAlign::Right)
    } else if word == "center"@ {
        Some(HorizontalAlign::Center)
    } else if word == "justified"@ {
        Some(HorizontalAlign::Justified)
    } else if word == "end"@ {
        Some(HorizontalAlign::End)
    } else {
        None
    }
}

pub fn parse_align(value: &str) -> (align: Option<HorizontalAlign>)
    ensures
        align == align_of(value@),
{
    if is_word(value, "left") {
        Some(HorizontalAlign::Left)
    } else if is_word(value, "right") {
        Some(HorizontalAlign::Right)
    } else if is_word(value, "center") {
        Some(HorizontalAlign::Center)
    } else if is_word(value, "justified") {
        Some(HorizontalAlign::Justified)
    } else if is_word(value, "end") {
        Some(HorizontalAlign::End)
    } else {
        None
    }
}

/// The font weight that a word of the markup names.
pub open spec fn weight_of(word: Seq<char>) -> Option<FontWeight> {
    if word == "normal"@ {
        Some(FontWeight::Normal)
    } else if word == "bold"@ {
        Some(FontWeight::Bold)
    } else {
        None
    }
}

pub fn parse_weight(value: &str) -> (weight: Option<FontWeight>)
    ensures
        weight == weight_of(value@),
{
    if is_word(value, "normal") {
        Some(FontWeight::Normal)
    } else if is_word(value, "bold") {
        Some(FontWeight::Bold)
    } else {
        None
    }
}

/// The widgets that the markup can name.
#[derive(Clone, Copy, PartialEq, Eq, Structural, Debug)]
pub enum WidgetTag {
    Div,
    Rectangle,
    Label,
}

/// The widget that a tag of the markup names.
pub open spec fn tag_of(name: Seq<char>) -> Option<WidgetTag> {
    if name == "div"@ {
        Some(WidgetTag::Div)
    } else if name == "rectangle"@ {
        Some(WidgetTag::Rectangle)
    } else if name == "label"@ {
        Some(WidgetTag::Label)
    } else {
        None
    }
}

pub fn parse_tag(name: &str) -> (tag: Option<WidgetTag>)
    ensures
        tag == tag_of(name@),
{
    if is_word(name, "div") {
        Some(WidgetTag::Div)
    } else if is_word(name, "rectangle") {
        Some(WidgetTag::Rectangle)
    } else if is_word(name, "label") {
        Some(WidgetTag::Label)
    } else {
        None
    }
}

} // verus!
