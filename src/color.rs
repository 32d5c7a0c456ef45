use vstd::prelude::*;
use vstd::string::StringExecFns;
use vstd::string::StrSliceExecFns;
use crate::text::{chars_eq, chars_of, push_char};
use crate::value::ThemeValue;

verus! {

/// A color: one of the named terminal colors, or an explicit RGB triple.
#[derive(Debug, Clone, Copy, PartialEq, Eq, Structural)]
pub enum Color {
    Reset,
    Black,
    Red,
    Green,
    Yellow,
    Blue,
    Magenta,
    Cyan,
    Gray,
    LightRed,
    LightGreen,
    LightYellow,
    LightBlue,
    LightMagenta,
    LightCyan,
    LightGray,
    White,
    Rgb(u8, u8, u8),
}

/// The lowercase hexadecimal digit of a value below 16.
pub open spec fn hex_digit(v: int) -> char {
    if v < 10 {
        ((v + 48) as u8) as char
    } else {
        ((v + 87) as u8) as char
    }
}

/// Two lowercase hexadecimal digits of a byte.
pub open spec fn hex_byte(b: u8) -> Seq<char> {
    seq![hex_digit(b as int / 16), hex_digit(b as int % 16)]
}

/// `#rrggbb` for an RGB color; `#000000` for a named one.
pub open spec fn hex_code(c: Color) -> Seq<char> {
    match c {
        Color::Rgb(r, g, b) => seq!['#'] + hex_byte(r) + hex_byte(g) + hex_byte(b),
        _ => seq!['#', '0', '0', '0', '0', '0', '0'],
    }
}

fn hex_digit_char(v: u8) -> (c: char)
    requires
        v < 16,
    ensures
        c == hex_digit(v as int),
{
    if v < 10 {
        (v + 48) as char
    } else {
        (v + 87) as char
    }
}

fn push_hex_byte(s: &mut String, b: u8)
    ensures
        final(s)@ == old(s)@ + hex_byte(b),
{
    push_char(s, hex_digit_char(b / 16));
    push_char(s, hex_digit_char(b % 16));
    assert(final(s)@ =~= old(s)@ + hex_byte(b));
}

impl Color {
    /// The color as a `#rrggbb` string; named colors give `#000000`.
    pub fn to_hex(&self) -> (r: String)
        ensures
            r@ == hex_code(*self),
    {
        let mut s = String::new();
        push_char(&mut s, '#');
        match *self {
            Color::Rgb(r, g, b) => {
                push_hex_byte(&mut s, r);
                push_hex_byte(&mut s, g);
                push_hex_byte(&mut s, b);
            },
            _ => {
                let mut i: usize = 0;
                while i < 6
                    invariant
                        i <= 6,
                        s@ == seq!['#'] + Seq::new(i as nat, |_j: int| '0'),
                    decreases 6 - i,
                {
                    push_char(&mut s, '0');
                    i = i + 1;
                    assert(s@ =~= seq!['#'] + Seq::new(i as nat, |_j: int| '0'));
                }
            },
        }
        assert(s@ =~= hex_code(*self));
        s
    }
}

/// A table from color names to colors; a later entry overrides an earlier one of the same name.
pub struct Palette {
    palette: Vec<(String, Color)>,
}

/// The named colors that every palette starts from.
pub open spec fn default_entries() -> Seq<(Seq<char>, Color)> {
    seq![
        ("default"@, Color::Reset),
        ("black"@, Color::Black),
        ("red"@, Color::Red),
        ("green"@, Color::Green),
        ("yellow"@, Color::Yellow),
        ("blue"@, Color::Blue),
        ("magenta"@, Color::Magenta),
        ("cyan"@, Color::Cyan),
        ("gray"@, Color::Gray),
        ("light-red"@, Color::LightRed),
        ("light-green"@, Color::LightGreen),
        ("light-yellow"@, Color::LightYellow),
        ("light-blue"@, Color::LightBlue),
        ("light-magenta"@, Color::LightMagenta),
        ("light-cyan"@, Color::LightCyan),
        ("light-gray"@, Color::LightGray),
        ("white"@, Color::White),
    ]
}

/// The entries of a list of named colors, with names as character sequences.
pub open spec fn entry_views(v: Seq<(String, Color)>) -> Seq<(Seq<char>, Color)> {
    v.map_values(|e: (String, Color)| (e.0@, e.1))
}

/// The color of the last entry named `name`, if any.
pub open spec fn lookup(e: Seq<(Seq<char>, Color)>, name: Seq<char>) -> Option<Color>
    decreases e.len(),
{
    if e.len() == 0 {
        None
    } else if e.last().0 == name {
        Some(e.last().1)
    } else {
        lookup(e.drop_last(), name)
    }
}

/// A later list of entries overrides an earlier one; a name that it lacks is looked up in the earlier one.
pub proof fn lemma_lookup_append(a: Seq<(Seq<char>, Color)>, b: Seq<(Seq<char>, Color)>, name: Seq<char>)
    ensures
        lookup(a + b, name) == match lookup(b, name) {
            Some(c) => Some(c),
            None => lookup(a, name),
        },
    decreases b.len(),
{
    if b.len() == 0 {
        assert(a + b =~= a);
    } else {
        assert((a + b).drop_last() =~= a + b.drop_last());
        assert((a + b).last() == b.last());
        lemma_lookup_append(a, b.drop_last(), name);
    }
}

/// A color that a palette table declares takes precedence over a built-in color of the
/// same name: a style that names it resolves to the declared color.
pub proof fn law_palette_precedence(t: Vec<(String, ThemeValue)>, name: String, c: Color)
    requires
        custom_colors(t@) matches Ok(a) && lookup(a, name@) == Some(c),
    ensures
        palette_of(ThemeValue::Table(t)) matches Ok(p) && resolve_color(p, ThemeValue::Str(name))
            == Some(c),
{
    let a = custom_colors(t@)->Ok_0;
    lemma_lookup_append(default_entries(), a, name@);
}

impl View for Palette {
    type V = Seq<(Seq<char>, Color)>;

    closed spec fn view(&self) -> Seq<(Seq<char>, Color)> {
        entry_views(self.palette@)
    }
}

/// The color that a theme value names: a string that the palette holds, else a `#rrggbb` string.
pub open spec fn resolve_color(p: Seq<(Seq<char>, Color)>, v: ThemeValue) -> Option<Color> {
    match v {
        ThemeValue::Str(s) => match lookup(p, s@) {
            Some(c) => Some(c),
            None => rgb_of(s@),
        },
        _ => None,
    }
}

/// The message of a value that is not a string.
pub open spec fn unrecognized_message(v: ThemeValue) -> Seq<char> {
    match v {
        ThemeValue::Str(s) => "Theme: unrecognized value: "@ + s@,
        ThemeValue::Table(_) => "Theme: unrecognized value: "@ + "table"@,
        ThemeValue::Other(s) => "Theme: unrecognized value: "@ + s@,
    }
}

/// The message of a value that does not name a color.
pub open spec fn value_message(v: ThemeValue) -> Seq<char> {
    match v {
        ThemeValue::Str(s) => malformed_message(s@),
        _ => unrecognized_message(v),
    }
}

/// The color of a palette entry's value, which must be a `#rrggbb` string, or its message.
pub open spec fn rgb_result(v: ThemeValue) -> Result<Color, Seq<char>> {
    match v {
        ThemeValue::Str(s) => match rgb_of(s@) {
            Some(c) => Ok(c),
            None => Err(malformed_message(s@)),
        },
        _ => Err(unrecognized_message(v)),
    }
}

/// The custom colors of a palette table, or the message of its first entry that is not a
/// `#rrggbb` string.
pub open spec fn custom_colors(t: Seq<(String, ThemeValue)>) -> Result<Seq<(Seq<char>, Color)>, Seq<char>>
    decreases t.len(),
{
    if t.len() == 0 {
        Ok(Seq::empty())
    } else {
        match custom_colors(t.drop_last()) {
            Ok(a) => match rgb_result(t.last().1) {
                Ok(c) => Ok(a.push((t.last().0@, c))),
                Err(m) => Err(m),
            },
            Err(m) => Err(m),
        }
    }
}

/// The entries of the palette that a theme value describes: the defaults, then a table's own
/// colors. A value that is not a table gives the defaults alone.
pub open spec fn palette_of(v: ThemeValue) -> Result<Seq<(Seq<char>, Color)>, Seq<char>> {
    match v {
        ThemeValue::Table(t) => match custom_colors(t@) {
            Ok(a) => Ok(default_entries() + a),
            Err(m) => Err(m),
        },
        _ => Ok(default_entries()),
    }
}

impl Default for Palette {
    fn default() -> (r: Self)
        ensures
            r@ == default_entries(),
    {
        let mut v: Vec<(String, Color)> = Vec::new();
        v.push(("default".to_owned(), Color::Reset));
        v.push(("black".to_owned(), Color::Black));
        v.push(("red".to_owned(), Color::Red));
        v.push(("green".to_owned(), Color::Green));
        v.push(("yellow".to_owned(), Color::Yellow));
        v.push(("blue".to_owned(), Color::Blue));
        v.push(("magenta".to_owned(), Color::Magenta));
        v.push(("cyan".to_owned(), Color::Cyan));
        v.push(("gray".to_owned(), Color::Gray));
        v.push(("light-red".to_owned(), Color::LightRed));
        v.push(("light-green".to_owned(), Color::LightGreen));
        v.push(("light-yellow".to_owned(), Color::LightYellow));
        v.push(("light-blue".to_owned(), Color::LightBlue));
        v.push(("light-magenta".to_owned(), Color::LightMagenta));
        v.push(("light-cyan".to_owned(), Color::LightCyan));
        v.push(("light-gray".to_owned(), Color::LightGray));
        v.push(("white".to_owned(), Color::White));
        let r = Palette { palette: v };
        assert(r@ =~= default_entries());
        r
    }
}

impl Palette {
    /// The default palette overlaid with `palette`: its entries take precedence.
    pub fn new(palette: Vec<(String, Color)>) -> (r: Self)
        ensures
            r@ == default_entries() + entry_views(palette@),
    {
        let mut d = Palette::default();
        let mut extra = palette;
        let ghost e0 = entry_views(extra@);
        d.palette.append(&mut extra);
        assert(d@ =~= default_entries() + e0);
        d
    }

    /// The color that the palette gives `name`.
    pub fn lookup(&self, name: &str) -> (r: Option<Color>)
        ensures
            r == lookup(self@, name@),
    {
        let n = chars_of(name);
        find_entry(&self.palette, n.as_slice())
    }

    /// Resolves a theme value to a color: a name of the palette, else a `#rrggbb` string.
    pub fn parse_color(&self, value: &ThemeValue) -> (r: Result<Color, String>)
        ensures
            match r {
                Ok(c) => resolve_color(self@, *value) == Some(c),
                Err(m) => resolve_color(self@, *value) is None && m@ == value_message(*value),
            },
    {
        let s = Self::parse_value_as_str(value)?;
        match self.lookup(s.as_str()) {
            Some(c) => Ok(c),
            None => Self::string_to_rgb(s.as_str()),
        }
    }

    fn parse_value_as_str(value: &ThemeValue) -> (r: Result<String, String>)
        ensures
            match r {
                Ok(s) => *value == ThemeValue::Str(s),
                Err(m) => !(value is Str) && m@ == unrecognized_message(*value),
            },
    {
        let mut m = String::new();
        m.append("Theme: unrecognized value: ");
        match value {
            ThemeValue::Str(s) => Ok(s.clone()),
            ThemeValue::Table(_) => {
                m.append("table");
                Err(m)
            },
            ThemeValue::Other(s) => {
                m.append(s.as_str());
                Err(m)
            },
        }
    }

    /// The palette that a theme value describes. A table must hold `#rrggbb` strings only,
    /// else the message of its first other entry comes back; any value that is not a table
    /// gives the default palette.
    pub fn from_value(value: &ThemeValue) -> (r: Result<Palette, String>)
        ensures
            match r {
                Ok(p) => palette_of(*value) == Ok::<_, Seq<char>>(p@),
                Err(m) => palette_of(*value) == Err::<Seq<(Seq<char>, Color)>, _>(m@),
            },
    {
        let t = match value {
            ThemeValue::Table(t) => t,
            _ => return Ok(Self::default()),
        };
        let mut custom: Vec<(String, Color)> = Vec::new();
        let mut i: usize = 0;
        assert(t@.subrange(0, 0) =~= Seq::<(String, ThemeValue)>::empty());
        assert(entry_views(custom@) =~= Seq::<(Seq<char>, Color)>::empty());
        while i < t.len()
            invariant
                i <= t@.len(),
                *value == ThemeValue::Table(*t),
                custom_colors(t@.subrange(0, i as int)) == Ok::<_, Seq<char>>(entry_views(custom@)),
            decreases t.len() - i,
        {
            assert(t@.subrange(0, i + 1).drop_last() =~= t@.subrange(0, i as int));
            assert(t@.subrange(0, i + 1).last() == t@[i as int]);
            let s = match Self::parse_value_as_str(&t[i].1) {
                Ok(s) => s,
                Err(m) => {
                    assert(custom_colors(t@.subrange(0, i + 1)) == Err::<Seq<(Seq<char>, Color)>, _>(m@));
                    proof { lemma_custom_prefix(t@, i + 1, m@); }
                    return Err(m);
                },
            };
            let c = match Self::string_to_rgb(s.as_str()) {
                Ok(c) => c,
                Err(m) => {
                    assert(custom_colors(t@.subrange(0, i + 1)) == Err::<Seq<(Seq<char>, Color)>, _>(m@));
                    proof { lemma_custom_prefix(t@, i + 1, m@); }
                    return Err(m);
                },
            };
            assert(rgb_result(t@[i as int].1) == Ok::<Color, Seq<char>>(c));
            let ghost old_custom = entry_views(custom@);
            custom.push((t[i].0.clone(), c));
            assert(entry_views(custom@) =~= old_custom.push((t@[i as int].0@, c)));
            i = i + 1;
        }
        assert(t@.subrange(0, i as int) =~= t@);
        Ok(Self::new(custom))
    }
}

/// The color of the last entry of `v` named `name`, if any.
pub(crate) fn find_entry(v: &Vec<(String, Color)>, name: &[char]) -> (r: Option<Color>)
    ensures
        r == lookup(entry_views(v@), name@),
{
    let ghost e = entry_views(v@);
    let mut i: usize = v.len();
    assert(e.subrange(0, i as int) =~= e);
    while i > 0
        invariant
            i <= v@.len(),
            e == entry_views(v@),
            lookup(e, name@) == lookup(e.subrange(0, i as int), name@),
        decreases i,
    {
        let k = chars_of(v[i - 1].0.as_str());
        assert(e.subrange(0, i as int).drop_last() =~= e.subrange(0, i - 1));
        assert(e[i - 1] == (v@[i - 1].0@, v@[i - 1].1));
        if chars_eq(k.as_slice(), name) {
            return Some(v[i - 1].1);
        }
        i = i - 1;
    }
    None
}

/// A palette table with a bad prefix fails as a whole, with the prefix's message.
proof fn lemma_custom_prefix(t: Seq<(String, ThemeValue)>, n: int, m: Seq<char>)
    requires
        0 <= n <= t.len(),
        custom_colors(t.subrange(0, n)) == Err::<Seq<(Seq<char>, Color)>, _>(m),
    ensures
        custom_colors(t) == Err::<Seq<(Seq<char>, Color)>, _>(m),
    decreases t.len() - n,
{
    if n < t.len() {
        assert(t.subrange(0, n + 1).drop_last() =~= t.subrange(0, n));
        lemma_custom_prefix(t, n + 1, m);
    } else {
        assert(t.subrange(0, n) =~= t);
    }
}

/// The value of a hexadecimal digit of either case.
pub open spec fn hex_value(c: char) -> Option<int> {
    if '0' <= c && c <= '9' {
        Some(c as int - 48)
    } else if 'a' <= c && c <= 'f' {
        Some(c as int - 87)
    } else if 'A' <= c && c <= 'F' {
        Some(c as int - 55)
    } else {
        None
    }
}

/// The byte written by the two hexadecimal digits `s[i]`, `s[i + 1]`.
pub open spec fn hex_pair(s: Seq<char>, i: int) -> Option<u8> {
    match (hex_value(s[i]), hex_value(s[i + 1])) {
        (Some(h), Some(l)) => Some((h * 16 + l) as u8),
        _ => None,
    }
}

/// The RGB color written `#rrggbb`: seven characters, `#` and six hexadecimal digits.
pub open spec fn rgb_of(s: Seq<char>) -> Option<Color> {
    if s.len() == 7 && s[0] == '#' {
        match (hex_pair(s, 1), hex_pair(s, 3), hex_pair(s, 5)) {
            (Some(r), Some(g), Some(b)) => Some(Color::Rgb(r, g, b)),
            _ => None,
        }
    } else {
        None
    }
}

fn hex_value_of(c: char) -> (r: Option<u8>)
    ensures
        match hex_value(c) {
            Some(v) => r == Some(v as u8) && v < 16,
            None => r is None,
        },
{
    if '0' <= c && c <= '9' {
        Some(((c as u32) - 48) as u8)
    } else if 'a' <= c && c <= 'f' {
        Some(((c as u32) - 87) as u8)
    } else if 'A' <= c && c <= 'F' {
        Some(((c as u32) - 55) as u8)
    } else {
        None
    }
}

fn hex_pair_of(s: &str, i: usize) -> (r: Option<u8>)
    requires
        i <= 5,
        s@.len() == 7,
    ensures
        r == hex_pair(s@, i as int),
{
    let h = hex_value_of(s.get_char(i));
    let l = hex_value_of(s.get_char(i + 1));
    match (h, l) {
        (Some(h), Some(l)) => Some(h * 16 + l),
        _ => None,
    }
}

/// The message of a color that cannot be read.
pub open spec fn malformed_message(s: Seq<char>) -> Seq<char> {
    "Theme: malformed hexcode: "@ + s
}

impl Palette {
    /// Reads a `#rrggbb` color; any other text is an error.
    pub fn string_to_rgb(s: &str) -> (r: Result<Color, String>)
        ensures
            match r {
                Ok(c) => rgb_of(s@) == Some(c),
                Err(m) => rgb_of(s@) is None && m@ == malformed_message(s@),
            },
    {
        if s.unicode_len() == 7 && s.get_char(0) == '#' {
            let r = hex_pair_of(s, 1);
            let g = hex_pair_of(s, 3);
            let b = hex_pair_of(s, 5);
            if let (Some(r), Some(g), Some(b)) = (r, g, b) {
                return Ok(Color::Rgb(r, g, b));
            }
        }
        let mut m = String::new();
        m.append("Theme: malformed hexcode: ");
        m.append(s);
        Err(m)
    }
}

} // verus!
