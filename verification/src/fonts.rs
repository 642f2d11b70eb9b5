//! The fonts that text is drawn in, read from the bytes of font files.

use vstd::prelude::*;

verus! {

/// A parsed font of `fontdue`.
#[verifier::external_type_specification]
#[verifier::external_body]
pub struct ExFont(fontdue::Font);

/// The number under which a face keeps its full name.
pub const FULL_NAME: u16 = 4;

/// An entry of a face's table of names.
pub struct FontName {
    pub id: u16,
    /// Whether the platform that the entry is for writes Unicode text.
    pub unicode: bool,
    pub text: Vec<u8>,
}

/// The number, the kind and the bytes of a name.
pub open spec fn name_view(n: FontName) -> (u16, bool, Seq<u8>) {
    (n.id, n.unicode, n.text@)
}

/// The names that `ttf_parser` finds in the first face of a font file, in their order; none where it
/// finds no face.
pub uninterp spec fn face_names(file: Seq<u8>) -> Option<Seq<(u16, bool, Seq<u8>)>>;

/// Whether `fontdue` takes a file for a font.
pub uninterp spec fn is_font(file: Seq<u8>) -> bool;

/// Reads the names of a file's first face: `ttf_parser::Face::parse` with the index zero, and what
/// `Face::names` walks over. The contract claims that the names depend on the bytes alone.
#[verifier::external_body]
fn read_names(file: &[u8]) -> (r: Option<Vec<FontName>>)
    ensures
        r is Some == face_names(file@) is Some,
        r matches Some(v) ==> v@.map_values(|n: FontName| name_view(n)) == face_names(file@)->0,
{
    let face = ttf_parser::Face::parse(file, 0).ok()?;
    Some(
        face.names()
            .into_iter()
            .map(|n| FontName { id: n.name_id, unicode: n.is_unicode(), text: n.name.to_vec() })
            .collect(),
    )
}

/// Parses a font: `fontdue::Font::from_bytes` with the default settings, its error dropped. It decodes
/// the full name of the first face without looking whether it is UTF-16 text, and panics on one that
/// ends inside a character: such files are left out. The contract claims that it depends on the bytes
/// alone whether there is a font; what the glyphs of the font look like is left unsaid.
#[verifier::external_body]
fn parse_font(file: Vec<u8>) -> (r: Option<fontdue::Font>)
    requires
        is_legible(face_names(file@)),
    ensures
        r is Some == is_font(file@),
{
    fontdue::Font::from_bytes(file, fontdue::FontSettings::default()).ok()
}

/// Bytes that are UTF-16 text, the high byte of each unit first.
pub open spec fn is_utf16(b: Seq<u8>) -> bool
    decreases b.len(),
{
    if b.len() == 0 {
        true
    } else if b.len() == 1 {
        false
    } else if 0xD8 <= b[0] <= 0xDB {
        b.len() >= 4 && 0xDC <= b[2] <= 0xDF && is_utf16(b.skip(4))
    } else {
        !(0xDC <= b[0] <= 0xDF) && is_utf16(b.skip(2))
    }
}

/// Whether bytes are UTF-16 text, the high byte of each unit first.
pub fn reads_as_utf16(b: &[u8]) -> (r: bool)
    ensures
        r == is_utf16(b@),
{
    let mut i: usize = 0;
    proof {
        assert(b@.skip(0) == b@);
    }
    while i < b.len()
        invariant
            i <= b@.len(),
            is_utf16(b@) == is_utf16(b@.skip(i as int)),
        decreases b.len() - i,
    {
        let ghost rest = b@.skip(i as int);
        if b.len() - i == 1 {
            return false;
        }
        let high: u8 = b[i];
        if 0xD8 <= high && high <= 0xDB {
            if b.len() - i < 4 || b[i + 2] < 0xDC || b[i + 2] > 0xDF {
                return false;
            }
            proof {
                assert(rest.skip(4) == b@.skip(i + 4));
            }
            i = i + 4;
        } else {
            if 0xDC <= high && high <= 0xDF {
                return false;
            }
            proof {
                assert(rest.skip(2) == b@.skip(i + 2));
            }
            i = i + 2;
        }
    }
    true
}

/// The first name that is a full name in Unicode.
pub open spec fn full_name(names: Seq<(u16, bool, Seq<u8>)>) -> Option<Seq<u8>>
    decreases names.len(),
{
    if names.len() == 0 {
        None
    } else if names[0].0 == FULL_NAME && names[0].1 {
        Some(names[0].2)
    } else {
        full_name(names.skip(1))
    }
}

/// Whether the full name among a face's names, where there is one, can be read.
pub open spec fn is_legible(names: Option<Seq<(u16, bool, Seq<u8>)>>) -> bool {
    names matches Some(n) ==> (full_name(n) matches Some(text) ==> is_utf16(text))
}

/// Whether the full name among a face's names, where there is one, can be read.
pub fn legible(names: &Vec<FontName>) -> (r: bool)
    ensures
        r == is_legible(Some(names@.map_values(|n: FontName| name_view(n)))),
{
    let ghost all = names@.map_values(|n: FontName| name_view(n));
    let mut i: usize = 0;
    proof {
        assert(all.skip(0) == all);
    }
    while i < names.len()
        invariant
            all == names@.map_values(|n: FontName| name_view(n)),
            i <= names@.len(),
            full_name(all) == full_name(all.skip(i as int)),
        decreases names.len() - i,
    {
        let ghost rest = all.skip(i as int);
        proof {
            assert(rest[0] == name_view(names@[i as int]));
            assert(rest.skip(1) == all.skip(i + 1));
        }
        if names[i].id == FULL_NAME && names[i].unicode {
            return reads_as_utf16(names[i].text.as_slice());
        }
        i = i + 1;
    }
    true
}

/// Whether a file is a font that text can be drawn in.
pub open spec fn is_usable(file: Seq<u8>) -> bool {
    is_legible(face_names(file)) && is_font(file)
}

/// A font, and the file that it was read from.
pub struct LoadedFont {
    font: fontdue::Font,
    file: Ghost<Seq<u8>>,
}

impl LoadedFont {
    /// The bytes of the file that the font was read from.
    pub closed spec fn file(&self) -> Seq<u8> {
        self.file@
    }

    /// The font as it was parsed.
    pub closed spec fn parsed(&self) -> fontdue::Font {
        self.font
    }

    /// The font, to draw with.
    pub fn font(&self) -> (r: &fontdue::Font)
        ensures
            *r == self.parsed(),
    {
        &self.font
    }
}

/// Reads a font; none where the file is not a usable one.
pub fn load_font(file: Vec<u8>) -> (r: Option<LoadedFont>)
    ensures
        r is Some == is_usable(file@),
        r matches Some(f) ==> f.file() == file@,
{
    let readable: bool = match read_names(file.as_slice()) {
        Some(names) => legible(&names),
        None => true,
    };
    if !readable {
        return None;
    }
    let ghost bytes = file@;
    match parse_font(file) {
        Some(font) => Some(LoadedFont { font, file: Ghost(bytes) }),
        None => None,
    }
}

/// The font that text is drawn in, and the one for the glyphs that it lacks. The outer option is none
/// as long as no font was looked for, the inner one where none was found.
pub struct Fonts {
    pub main: Option<Option<LoadedFont>>,
    pub fallback: Option<Option<LoadedFont>>,
}

impl Fonts {
    /// No font was looked for yet.
    pub fn new() -> (r: Fonts)
        ensures
            r.main is None,
            r.fallback is None,
    {
        Fonts { main: None, fallback: None }
    }
}

/// Law: units of UTF-16 come in two bytes; those from 0xD800 up to 0xDBFF need one from 0xDC00 up to 0xDFFF
/// behind them, and those stand nowhere else.
pub proof fn law_utf16(a: u8, b: u8, c: u8, d: u8, s: Seq<u8>)
    ensures
        a < 0xD8 || a > 0xDF ==> is_utf16(seq![a, b] + s) == is_utf16(s),
        0xD8 <= a <= 0xDB && 0xDC <= c <= 0xDF ==> is_utf16(seq![a, b, c, d] + s) == is_utf16(s),
        0xD8 <= a <= 0xDB && !(0xDC <= c <= 0xDF) ==> !is_utf16(seq![a, b, c, d] + s),
        0xDC <= a <= 0xDF ==> !is_utf16(seq![a, b] + s),
        0xD8 <= a <= 0xDB ==> !is_utf16(seq![a, b]),
        !is_utf16(seq![a]),
        is_utf16(Seq::empty()),
{
    assert((seq![a, b] + s).skip(2) =~= s);
    assert((seq![a, b, c, d] + s).skip(4) =~= s);
}

/// Law: the full name of a face is its first name of number 4 in Unicode.
pub proof fn law_full_name(
    before: Seq<(u16, bool, Seq<u8>)>,
    text: Seq<u8>,
    behind: Seq<(u16, bool, Seq<u8>)>,
)
    requires
        forall|i: int| 0 <= i < before.len() ==> (#[trigger] before[i]).0 != 4 || !before[i].1,
    ensures
        full_name(before.push((4u16, true, text)) + behind) == Some(text),
        full_name(before) is None,
    decreases before.len(),
{
    let all = before.push((4u16, true, text)) + behind;
    if before.len() > 0 {
        let rest = before.skip(1);
        assert(before[0].0 != 4 || !before[0].1);
        assert forall|i: int| 0 <= i < rest.len() implies (#[trigger] rest[i]).0 != 4 || !rest[i].1 by {
            assert(rest[i] == before[i + 1]);
        }
        law_full_name(rest, text, behind);
        assert(all[0] == before[0]);
        assert(all.skip(1) =~= rest.push((4u16, true, text)) + behind);
    } else {
        assert(all[0] == (4u16, true, text));
    }
}

/// Law: a face whose full name cannot be read is not used, and one without a full name is read.
pub proof fn law_legible(names: Seq<(u16, bool, Seq<u8>)>)
    ensures
        full_name(names) is None ==> is_legible(Some(names)),
        full_name(names) is Some ==> (is_legible(Some(names)) <==> is_utf16(full_name(names)->0)),
        is_legible(None),
{
}

} // verus!
