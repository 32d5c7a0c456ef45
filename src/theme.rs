use vstd::prelude::*;
use vstd::slice::slice_subrange;

use crate::color::{
    default_entries, entry_views, find_entry, lookup, palette_of, resolve_color, value_message, Color,
    Palette,
};
use crate::text::{chars_eq, chars_of};
use crate::value::ThemeValue;

verus! {

/// Named styles: each scope name has a color.
#[derive(Clone, Debug)]
pub struct Theme {
    name: String,
    styles: Vec<(String, Color)>,
}

/// The color for a scope name, trying the name's prefix of length `n` and then shorter ones
/// that end before a `.`.
pub open spec fn scope_scan(styles: Seq<(Seq<char>, Color)>, s: Seq<char>, n: int) -> Option<Color>
    decreases n, 1int,
{
    if n < 0 || n > s.len() {
        None
    } else {
        match lookup(styles, s.subrange(0, n)) {
            Some(c) => Some(c),
            None => dot_scan(styles, s, n),
        }
    }
}

/// The color for the longest prefix of `s` that ends before a `.` at an index below `k`.
pub open spec fn dot_scan(styles: Seq<(Seq<char>, Color)>, s: Seq<char>, k: int) -> Option<Color>
    decreases k, 0int,
{
    if k <= 0 || k > s.len() {
        None
    } else if s[k - 1] == '.' {
        scope_scan(styles, s, k - 1)
    } else {
        dot_scan(styles, s, k - 1)
    }
}

/// The color of a scope name: the full name first, then each shorter name obtained by
/// dropping the last `.`-separated segment.
pub open spec fn scope_color(styles: Seq<(Seq<char>, Color)>, s: Seq<char>) -> Option<Color> {
    scope_scan(styles, s, s.len() as int)
}

/// The palette of a theme table: its first `palette` entry when that reads as a palette,
/// else the default palette.
pub open spec fn theme_palette(values: Seq<(String, ThemeValue)>) -> Seq<(Seq<char>, Color)>
    decreases values.len(),
{
    if values.len() == 0 {
        default_entries()
    } else if values[0].0@ == "palette"@ {
        match palette_of(values[0].1) {
            Ok(p) => p,
            Err(_) => default_entries(),
        }
    } else {
        theme_palette(values.drop_first())
    }
}

/// The color that a theme value names, or the message of why it names none.
pub open spec fn color_result(p: Seq<(Seq<char>, Color)>, v: ThemeValue) -> Result<Color, Seq<char>> {
    match resolve_color(p, v) {
        Some(c) => Ok(c),
        None => Err(value_message(v)),
    }
}

/// The styles of the `fg` entries of a style table for scope `name`, or the message of the
/// first one whose color cannot be read.
pub open spec fn fg_styles(
    p: Seq<(Seq<char>, Color)>,
    name: Seq<char>,
    t: Seq<(String, ThemeValue)>,
) -> Result<Seq<(Seq<char>, Color)>, Seq<char>>
    decreases t.len(),
{
    if t.len() == 0 {
        Ok(Seq::empty())
    } else {
        match fg_styles(p, name, t.drop_last()) {
            Ok(a) => if t.last().0@ == "fg"@ {
                match color_result(p, t.last().1) {
                    Ok(c) => Ok(a.push((name, c))),
                    Err(m) => Err(m),
                }
            } else {
                Ok(a)
            },
            Err(m) => Err(m),
        }
    }
}

/// The styles that one entry of a theme table contributes.
pub open spec fn entry_styles(p: Seq<(Seq<char>, Color)>, e: (String, ThemeValue)) -> Result<Seq<(Seq<char>, Color)>, Seq<char>> {
    if e.0@ == "palette"@ || e.0@ == "inherits"@ {
        Ok(Seq::empty())
    } else {
        match e.1 {
            ThemeValue::Table(t) => fg_styles(p, e.0@, t@),
            v => match color_result(p, v) {
                Ok(c) => Ok(seq![(e.0@, c)]),
                Err(m) => Err(m),
            },
        }
    }
}

/// The styles of the entries of a theme table, in order, or the message of the first color
/// that cannot be read.
pub open spec fn table_styles(p: Seq<(Seq<char>, Color)>, values: Seq<(String, ThemeValue)>) -> Result<Seq<(Seq<char>, Color)>, Seq<char>>
    decreases values.len(),
{
    if values.len() == 0 {
        Ok(Seq::empty())
    } else {
        match table_styles(p, values.drop_last()) {
            Ok(a) => match entry_styles(p, values.last()) {
                Ok(b) => Ok(a + b),
                Err(m) => Err(m),
            },
            Err(m) => Err(m),
        }
    }
}

/// The styles of a whole theme table.
pub open spec fn theme_styles(values: Seq<(String, ThemeValue)>) -> Result<Seq<(Seq<char>, Color)>, Seq<char>> {
    table_styles(theme_palette(values), values)
}

impl View for Theme {
    type V = Seq<(Seq<char>, Color)>;

    closed spec fn view(&self) -> Seq<(Seq<char>, Color)> {
        entry_views(self.styles@)
    }
}

fn is_word(s: &String, w: &str) -> (r: bool)
    ensures
        r == (s@ == w@),
{
    let a = chars_of(s.as_str());
    let b = chars_of(w);
    chars_eq(a.as_slice(), b.as_slice())
}

impl Theme {
    /// The theme's name.
    pub closed spec fn spec_name(&self) -> Seq<char> {
        self.name@
    }

    /// The color of a scope name, falling back to ever shorter `.`-separated prefixes.
    pub fn get(&self, name: &str) -> (r: Option<Color>)
        ensures
            r == scope_color(self@, name@),
    {
        let n = chars_of(name);
        let mut k: usize = n.len();
        loop
            invariant
                k <= n@.len(),
                n@ == name@,
                scope_color(self@, name@) == scope_scan(self@, n@, k as int),
            decreases k,
        {
            let prefix = slice_subrange(n.as_slice(), 0, k);
            let found = find_entry(&self.styles, prefix);
            if found.is_some() {
                return found;
            }
            let mut j: usize = k;
            while j > 0 && n[j - 1] != '.'
                invariant
                    j <= k,
                    k <= n@.len(),
                    dot_scan(self@, n@, k as int) == dot_scan(self@, n@, j as int),
                decreases j,
            {
                j = j - 1;
            }
            if j == 0 {
                return None;
            }
            k = j - 1;
        }
    }

    /// A theme with no styles.
    pub fn empty(name: &str) -> (r: Theme)
        ensures
            r@ == Seq::<(Seq<char>, Color)>::empty(),
            r.spec_name() == name@,
    {
        let r = Theme { name: name.to_owned(), styles: Vec::new() };
        assert(r@ =~= Seq::<(Seq<char>, Color)>::empty());
        r
    }

    /// The theme that a definition tree describes. A root that is not a table gives a theme
    /// without styles; a style whose color cannot be read fails the whole theme, with the
    /// message of the first such color.
    pub fn from_value(name: &str, value: &ThemeValue) -> (r: Result<Theme, String>)
        ensures
            match *value {
                ThemeValue::Table(t) => match r {
                    Ok(th) => theme_styles(t@) == Ok::<Seq<(Seq<char>, Color)>, Seq<char>>(th@) && th.spec_name() == name@,
                    Err(m) => theme_styles(t@) == Err::<Seq<(Seq<char>, Color)>, Seq<char>>(m@),
                },
                _ => r matches Ok(th) && th@.len() == 0 && th.spec_name() == name@,
            },
    {
        match value {
            ThemeValue::Table(t) => {
                let styles = build_theme_values(t)?;
                Ok(Theme { name: name.to_owned(), styles })
            },
            _ => Ok(Self::empty(name)),
        }
    }
}

/// The palette of a theme table.
fn theme_palette_of(values: &Vec<(String, ThemeValue)>) -> (r: Palette)
    ensures
        r@ == theme_palette(values@),
{
    let mut i: usize = 0;
    assert(values@.subrange(0, values@.len() as int) =~= values@);
    while i < values.len()
        invariant
            i <= values@.len(),
            theme_palette(values@) == theme_palette(values@.subrange(i as int, values@.len() as int)),
        decreases values.len() - i,
    {
        let ghost rest = values@.subrange(i as int, values@.len() as int);
        assert(rest.drop_first() =~= values@.subrange(i + 1, values@.len() as int));
        assert(rest[0] == values@[i as int]);
        if is_word(&values[i].0, "palette") {
            return match Palette::from_value(&values[i].1) {
                Ok(p) => p,
                Err(_) => Palette::default(),
            };
        }
        i = i + 1;
    }
    Palette::default()
}

/// The styles of the entries of a theme table: a table style gives the colors of its `fg`
/// entries, any other value is a color itself; `palette` and `inherits` give none.
pub fn build_theme_values(values: &Vec<(String, ThemeValue)>) -> (r: Result<Vec<(String, Color)>, String>)
    ensures
        match r {
            Ok(s) => theme_styles(values@) == Ok::<Seq<(Seq<char>, Color)>, Seq<char>>(entry_views(s@)),
            Err(m) => theme_styles(values@) == Err::<Seq<(Seq<char>, Color)>, Seq<char>>(m@),
        },
{
    let palette = theme_palette_of(values);
    let ghost p = palette@;
    let mut styles: Vec<(String, Color)> = Vec::new();
    let mut i: usize = 0;
    assert(values@.subrange(0, 0) =~= Seq::<(String, ThemeValue)>::empty());
    assert(entry_views(styles@) =~= Seq::<(Seq<char>, Color)>::empty());
    while i < values.len()
        invariant
            i <= values@.len(),
            p == palette@,
            p == theme_palette(values@),
            table_styles(p, values@.subrange(0, i as int)) == Ok::<Seq<(Seq<char>, Color)>, Seq<char>>(entry_views(styles@)),
        decreases values.len() - i,
    {
        assert(values@.subrange(0, i + 1).drop_last() =~= values@.subrange(0, i as int));
        let name = &values[i].0;
        let ghost before = entry_views(styles@);
        assert(values@.subrange(0, i + 1).last() == values@[i as int]);
        if is_word(name, "palette") || is_word(name, "inherits") {
            assert(before + Seq::empty() =~= before);
        } else {
            match &values[i].1 {
                ThemeValue::Table(t) => {
                    let mut j: usize = 0;
                    let ghost mut acc: Seq<(Seq<char>, Color)> = Seq::empty();
                    assert(before + acc =~= before);
                    while j < t.len()
                        invariant
                            j <= t@.len(),
                            i < values@.len(),
                            p == palette@,
                            p == theme_palette(values@),
                            table_styles(p, values@.subrange(0, i as int)) == Ok::<Seq<(Seq<char>, Color)>, Seq<char>>(before),
                            !(name@ == "palette"@ || name@ == "inherits"@),
                            values@[i as int].1 == ThemeValue::Table(*t),
                            *name == values@[i as int].0,
                            fg_styles(p, name@, t@.subrange(0, j as int)) == Ok::<Seq<(Seq<char>, Color)>, Seq<char>>(acc),
                            entry_views(styles@) == before + acc,
                        decreases t.len() - j,
                    {
                        assert(t@.subrange(0, j + 1).drop_last() =~= t@.subrange(0, j as int));
                        if is_word(&t[j].0, "fg") {
                            match palette.parse_color(&t[j].1) {
                                Ok(c) => {
                                    let ghost old_s = entry_views(styles@);
                                    styles.push((name.clone(), c));
                                    assert(entry_views(styles@) =~= old_s.push((name@, c)));
                                    proof { acc = acc.push((name@, c)); }
                                    assert(entry_views(styles@) =~= before + acc);
                                },
                                Err(m) => {
                                    assert(t@.subrange(0, j + 1).last() == t@[j as int]);
                                    assert(fg_styles(p, name@, t@.subrange(0, j + 1)) == Err::<Seq<(Seq<char>, Color)>, Seq<char>>(m@));
                                    proof {
                                        lemma_fg_prefix(p, name@, t@, j + 1, m@);
                                        assert(entry_styles(p, values@[i as int]) == Err::<Seq<(Seq<char>, Color)>, Seq<char>>(m@));
                                        assert(values@.subrange(0, i + 1).drop_last() =~= values@.subrange(0, i as int));
                                        assert(values@.subrange(0, i + 1).last() == values@[i as int]);
                                        assert(table_styles(p, values@.subrange(0, i + 1)) == Err::<Seq<(Seq<char>, Color)>, Seq<char>>(m@));
                                        lemma_table_prefix(p, values@, i + 1, m@);
                                    }
                                    return Err(m);
                                },
                            }
                        }
                        j = j + 1;
                    }
                    assert(t@.subrange(0, j as int) =~= t@);
                },
                v => match palette.parse_color(v) {
                    Ok(c) => {
                        styles.push((name.clone(), c));
                        assert(entry_views(styles@) =~= before + seq![(name@, c)]);
                    },
                    Err(m) => {
                        proof { lemma_table_prefix(p, values@, i + 1, m@); }
                        return Err(m);
                    },
                },
            }
        }
        i = i + 1;
    }
    assert(values@.subrange(0, i as int) =~= values@);
    Ok(styles)
}

proof fn lemma_fg_prefix(
    p: Seq<(Seq<char>, Color)>,
    name: Seq<char>,
    t: Seq<(String, ThemeValue)>,
    n: int,
    m: Seq<char>,
)
    requires
        0 <= n <= t.len(),
        fg_styles(p, name, t.subrange(0, n)) == Err::<Seq<(Seq<char>, Color)>, Seq<char>>(m),
    ensures
        fg_styles(p, name, t) == Err::<Seq<(Seq<char>, Color)>, Seq<char>>(m),
    decreases t.len() - n,
{
    if n < t.len() {
        assert(t.subrange(0, n + 1).drop_last() =~= t.subrange(0, n));
        lemma_fg_prefix(p, name, t, n + 1, m);
    } else {
        assert(t.subrange(0, n) =~= t);
    }
}

proof fn lemma_table_prefix(
    p: Seq<(Seq<char>, Color)>,
    values: Seq<(String, ThemeValue)>,
    n: int,
    m: Seq<char>,
)
    requires
        0 <= n <= values.len(),
        table_styles(p, values.subrange(0, n)) == Err::<Seq<(Seq<char>, Color)>, Seq<char>>(m),
    ensures
        table_styles(p, values) == Err::<Seq<(Seq<char>, Color)>, Seq<char>>(m),
    decreases values.len() - n,
{
    if n < values.len() {
        assert(values.subrange(0, n + 1).drop_last() =~= values.subrange(0, n));
        lemma_table_prefix(p, values, n + 1, m);
    } else {
        assert(values.subrange(0, n) =~= values);
    }
}

} // verus!
