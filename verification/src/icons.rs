//! Button icons the browser and toolbars draw, the colours they are drawn
//! in, and the palette the JSON viewer highlights with.

use vstd::prelude::*;

use crate::order::chars_eq;
use crate::text::{char_from_ascii, chars_of, string_of};

verus! {

/// An RGBA colour, eight bits per channel.
#[derive(Clone, Copy, Debug, PartialEq, Eq, Structural)]
pub struct Color32 {
    pub r: u8,
    pub g: u8,
    pub b: u8,
    pub a: u8,
}

impl Color32 {
    /// An opaque colour.
    pub fn from_rgb(r: u8, g: u8, b: u8) -> (out: Color32)
        ensures
            out == (Color32 { r, g, b, a: 255 }),
    {
        Color32 { r, g, b, a: 255 }
    }
}

#[derive(Clone, Copy, Debug, Eq, PartialEq, Structural)]
pub enum ButtonIcon {
    Open,
    Import,
    Export,
    Clear,
    Search,
    Function,
    Group,
    FolderClosed,
    FolderOpen,
    Rename,
    Move,
    FileExplorer,
    Favourite,
    CopyPath,
    Find,
    Json,
}

pub open spec fn foundation_icon(label: Seq<char>) -> Option<ButtonIcon> {
    if label == "Open"@ {
        Some(ButtonIcon::Open)
    } else if label == "Import"@ {
        Some(ButtonIcon::Import)
    } else if label == "Clear"@ {
        Some(ButtonIcon::Clear)
    } else if label == "f()"@ {
        Some(ButtonIcon::Function)
    } else {
        None
    }
}

fn is(label: &Vec<char>, text: &str) -> (out: bool)
    ensures
        out == (label@ == text@),
{
    chars_eq(label, &chars_of(text))
}

/// The icon a foundation toolbar button carries, by its label.
pub fn icon_for_foundation_button(label: &str) -> (out: Option<ButtonIcon>)
    ensures
        out == foundation_icon(label@),
{
    let l = chars_of(label);
    if is(&l, "Open") {
        Some(ButtonIcon::Open)
    } else if is(&l, "Import") {
        Some(ButtonIcon::Import)
    } else if is(&l, "Clear") {
        Some(ButtonIcon::Clear)
    } else if is(&l, "f()") {
        Some(ButtonIcon::Function)
    } else {
        None
    }
}

pub open spec fn menu_icon(label: Seq<char>) -> Option<ButtonIcon> {
    if label == "Rename"@ {
        Some(ButtonIcon::Rename)
    } else if label == "Move"@ {
        Some(ButtonIcon::Move)
    } else if label == "Open with File Explorer"@ {
        Some(ButtonIcon::FileExplorer)
    } else if label == "Add to Favorites"@ || label == "Remove from Favorites"@ {
        Some(ButtonIcon::Favourite)
    } else if label == "Copy Tag Path"@ {
        Some(ButtonIcon::CopyPath)
    } else if label == "Find Tag References..."@ {
        Some(ButtonIcon::Find)
    } else if label == "Dump Tag to JSON..."@ {
        Some(ButtonIcon::Json)
    } else {
        None
    }
}

/// The icon a tag context-menu entry carries, by its label.
pub fn context_menu_icon(label: &str) -> (out: Option<ButtonIcon>)
    ensures
        out == menu_icon(label@),
{
    let l = chars_of(label);
    if is(&l, "Rename") {
        Some(ButtonIcon::Rename)
    } else if is(&l, "Move") {
        Some(ButtonIcon::Move)
    } else if is(&l, "Open with File Explorer") {
        Some(ButtonIcon::FileExplorer)
    } else if is(&l, "Add to Favorites") || is(&l, "Remove from Favorites") {
        Some(ButtonIcon::Favourite)
    } else if is(&l, "Copy Tag Path") {
        Some(ButtonIcon::CopyPath)
    } else if is(&l, "Find Tag References...") {
        Some(ButtonIcon::Find)
    } else if is(&l, "Dump Tag to JSON...") {
        Some(ButtonIcon::Json)
    } else {
        None
    }
}

/// The lowercase hexadecimal digit for `n < 16`.
pub open spec fn hex_digit(n: nat) -> char {
    if n < 10 {
        (('0' as u32) + n) as char
    } else {
        (('a' as u32) + (n - 10)) as char
    }
}

/// A byte as two lowercase hexadecimal digits.
pub open spec fn hex2(b: u8) -> Seq<char> {
    seq![hex_digit((b / 16) as nat), hex_digit((b % 16) as nat)]
}

/// `#rrggbb`: how an SVG spells a colour (alpha is not part of it).
pub open spec fn svg_spelling(color: Color32) -> Seq<char> {
    seq!['#'] + hex2(color.r) + hex2(color.g) + hex2(color.b)
}

fn hex_digit_exec(n: u8) -> (out: char)
    requires
        n < 16,
    ensures
        out == hex_digit(n as nat),
{
    let code: u32 = if n < 10 { 48 + n as u32 } else { 97 + (n as u32 - 10) };
    char_from_ascii(code)
}

fn push_hex2(out: &mut Vec<char>, b: u8)
    ensures
        final(out)@ == old(out)@ + hex2(b),
{
    out.push(hex_digit_exec(b / 16));
    out.push(hex_digit_exec(b % 16));
    assert(final(out)@ =~= old(out)@ + hex2(b));
}

/// A colour as SVG writes it: `#rrggbb`.
pub fn svg_color(color: Color32) -> (out: String)
    ensures
        out@ == svg_spelling(color),
{
    let mut chars: Vec<char> = Vec::new();
    chars.push('#');
    push_hex2(&mut chars, color.r);
    push_hex2(&mut chars, color.g);
    push_hex2(&mut chars, color.b);
    assert(chars@ =~= svg_spelling(color));
    string_of(&chars)
}

/// `s` with every occurrence of `pattern` replaced by `with`, scanning left
/// to right and never inside a replacement: `str::replace`.
pub open spec fn replace_all(s: Seq<char>, pattern: Seq<char>, with: Seq<char>) -> Seq<char>
    decreases s.len(),
{
    if s.len() == 0 {
        Seq::empty()
    } else if pattern.len() > 0 && pattern.len() <= s.len() && s.take(pattern.len() as int) == pattern {
        with + replace_all(s.skip(pattern.len() as int), pattern, with)
    } else {
        seq![s[0]] + replace_all(s.drop_first(), pattern, with)
    }
}

fn matches_at(s: &Vec<char>, i: usize, pattern: &Vec<char>) -> (out: bool)
    requires
        i <= s.len(),
    ensures
        out == (pattern.len() <= s.len() - i && s@.skip(i as int).take(pattern.len() as int) == pattern@),
{
    if pattern.len() > s.len() - i {
        return false;
    }
    let mut j: usize = 0;
    while j < pattern.len()
        invariant
            j <= pattern.len() <= s.len() - i,
            forall|k: int| 0 <= k < j ==> s@[i + k] == pattern@[k],
        decreases pattern.len() - j,
    {
        if s[i + j] != pattern[j] {
            assert(s@.skip(i as int).take(pattern.len() as int)[j as int] != pattern@[j as int]);
            return false;
        }
        j += 1;
    }
    assert(s@.skip(i as int).take(pattern.len() as int) =~= pattern@);
    true
}

/// An icon's SVG text drawn in `color`: every `currentColor` in it replaced
/// by the colour's `#rrggbb` spelling.
pub fn colorized_icon_svg(svg: &str, color: Color32) -> (out: String)
    ensures
        out@ == replace_all(svg@, "currentColor"@, svg_spelling(color)),
{
    let s = chars_of(svg);
    let pattern = chars_of("currentColor");
    proof {
        reveal_strlit("currentColor");
    }
    assert(pattern@.len() > 0);
    let with = chars_of(svg_color(color).as_str());
    let mut out: Vec<char> = Vec::new();
    let mut i: usize = 0;
    assert(s@.skip(0) =~= s@);
    while i < s.len()
        invariant
            i <= s.len(),
            s@ == svg@,
            pattern@ == "currentColor"@,
            pattern@.len() > 0,
            with@ == svg_spelling(color),
            out@ + replace_all(s@.skip(i as int), pattern@, with@) == replace_all(svg@, pattern@, with@),
        decreases s.len() - i,
    {
        let ghost rest = s@.skip(i as int);
        if matches_at(&s, i, &pattern) {
            let ghost before = out@;
            let mut j: usize = 0;
            while j < with.len()
                invariant
                    j <= with.len(),
                    out@ == before + with@.take(j as int),
                decreases with.len() - j,
            {
                out.push(with[j]);
                assert(with@.take(j + 1) =~= with@.take(j as int).push(with@[j as int]));
                j += 1;
            }
            assert(with@.take(with.len() as int) =~= with@);
            assert(rest.skip(pattern@.len() as int) =~= s@.skip(i + pattern.len()));
            assert(before + (with@ + replace_all(s@.skip(i + pattern.len()), pattern@, with@)) =~= out@
                + replace_all(s@.skip(i + pattern.len()), pattern@, with@));
            i = i + pattern.len();
        } else {
            let ghost before = out@;
            out.push(s[i]);
            assert(rest[0] == s@[i as int]);
            assert(rest.drop_first() =~= s@.skip(i + 1));
            assert(before + (seq![s@[i as int]] + replace_all(s@.skip(i + 1), pattern@, with@)) =~= out@
                + replace_all(s@.skip(i + 1), pattern@, with@));
            i = i + 1;
        }
    }
    proof {
        assert(s@.skip(i as int) =~= Seq::<char>::empty());
        assert(out@ + Seq::<char>::empty() =~= out@);
    }
    string_of(&out)
}

/// The colours the JSON viewer paints each kind of token in.
#[derive(Clone, Copy, Debug, PartialEq, Eq, Structural)]
pub struct ChimpJsonPalette {
    pub plain: Color32,
    pub key: Color32,
    pub string: Color32,
    pub path: Color32,
    pub number: Color32,
    pub literal: Color32,
    pub punctuation: Color32,
}

pub open spec fn rgb(r: u8, g: u8, b: u8) -> Color32 {
    Color32 { r, g, b, a: 255 }
}

pub open spec fn json_palette(dark_mode: bool) -> ChimpJsonPalette {
    if dark_mode {
        ChimpJsonPalette {
            plain: rgb(210, 214, 222),
            key: rgb(244, 191, 92),
            string: rgb(190, 235, 125),
            path: rgb(232, 157, 222),
            number: rgb(242, 139, 130),
            literal: rgb(105, 190, 255),
            punctuation: rgb(105, 210, 225),
        }
    } else {
        ChimpJsonPalette {
            plain: rgb(45, 50, 58),
            key: rgb(145, 91, 0),
            string: rgb(55, 112, 15),
            path: rgb(154, 52, 136),
            number: rgb(185, 62, 48),
            literal: rgb(0, 104, 178),
            punctuation: rgb(0, 112, 128),
        }
    }
}

impl ChimpJsonPalette {
    /// The palette for a dark or a light theme.
    pub fn for_dark_mode(dark_mode: bool) -> (out: Self)
        ensures
            out == json_palette(dark_mode),
    {
        if dark_mode {
            ChimpJsonPalette {
                plain: Color32::from_rgb(210, 214, 222),
                key: Color32::from_rgb(244, 191, 92),
                string: Color32::from_rgb(190, 235, 125),
                path: Color32::from_rgb(232, 157, 222),
                number: Color32::from_rgb(242, 139, 130),
                literal: Color32::from_rgb(105, 190, 255),
                punctuation: Color32::from_rgb(105, 210, 225),
            }
        } else {
            ChimpJsonPalette {
                plain: Color32::from_rgb(45, 50, 58),
                key: Color32::from_rgb(145, 91, 0),
                string: Color32::from_rgb(55, 112, 15),
                path: Color32::from_rgb(154, 52, 136),
                number: Color32::from_rgb(185, 62, 48),
                literal: Color32::from_rgb(0, 104, 178),
                punctuation: Color32::from_rgb(0, 112, 128),
            }
        }
    }
}

} // verus!
