use vstd::prelude::*;
use vstd::string::StringExecFns;

use crate::color::{hex_code, hex_digit, Color};
use crate::text::{chars_eq, chars_of, push_char};
use crate::theme::{scope_color, Theme};

verus! {

/// An event of a highlighted source: a span opens for a capture, the innermost open span
/// closes, or a range of the source (in characters) is emitted as text.
#[derive(Clone, Copy, Debug, PartialEq, Eq, Structural)]
pub enum HighlightEvent {
    Source { start: usize, end: usize },
    HighlightStart(usize),
    HighlightEnd,
}

/// The CSS class of a capture name: each `.` becomes `-`.
pub open spec fn css_class(n: Seq<char>) -> Seq<char> {
    n.map_values(|c: char| if c == '.' { '-' } else { c })
}

/// Maps a capture name to its CSS class: `function.method` becomes `function-method`.
pub fn to_css_class(name: &str) -> (r: String)
    ensures
        r@ == css_class(name@),
{
    let n = chars_of(name);
    let mut r = String::new();
    let mut i: usize = 0;
    while i < n.len()
        invariant
            i <= n@.len(),
            n@ == name@,
            r@ == css_class(n@.subrange(0, i as int)),
        decreases n.len() - i,
    {
        let c = n[i];
        push_char(&mut r, if c == '.' { '-' } else { c });
        assert(css_class(n@.subrange(0, i + 1)) =~= css_class(n@.subrange(0, i as int)).push(
            if c == '.' { '-' } else { c },
        ));
        i = i + 1;
    }
    assert(n@.subrange(0, i as int) =~= n@);
    r
}

/// A class holds no `.`, so mapping it again changes nothing.
pub proof fn law_css_class_idempotent(n: Seq<char>)
    ensures
        !css_class(n).contains('.'),
        css_class(css_class(n)) == css_class(n),
{
    assert(css_class(css_class(n)) =~= css_class(n));
}

/// The names of `s` in order of first occurrence, each once.
pub open spec fn first_seen(s: Seq<Seq<char>>) -> Seq<Seq<char>>
    decreases s.len(),
{
    if s.len() == 0 {
        Seq::empty()
    } else {
        let r = first_seen(s.drop_last());
        if r.contains(s.last()) {
            r
        } else {
            r.push(s.last())
        }
    }
}

/// The views of a list of strings.
pub open spec fn string_views(v: Seq<String>) -> Seq<Seq<char>> {
    v.map_values(|s: String| s@)
}

fn contains_name(v: &Vec<String>, name: &String) -> (r: bool)
    ensures
        r == string_views(v@).contains(name@),
{
    let n = chars_of(name.as_str());
    let mut i: usize = 0;
    while i < v.len()
        invariant
            i <= v@.len(),
            n@ == name@,
            forall|j: int| 0 <= j < i ==> v@[j]@ != name@,
        decreases v.len() - i,
    {
        let k = chars_of(v[i].as_str());
        if chars_eq(k.as_slice(), n.as_slice()) {
            assert(string_views(v@)[i as int] == name@);
            return true;
        }
        i = i + 1;
    }
    assert(forall|j: int| 0 <= j < v@.len() ==> string_views(v@)[j] != name@);
    false
}

/// The capture names of a query in order of first occurrence, without repeats.
pub fn capture_list(names: &Vec<String>) -> (r: Vec<String>)
    ensures
        string_views(r@) == first_seen(string_views(names@)),
{
    let mut r: Vec<String> = Vec::new();
    let mut i: usize = 0;
    while i < names.len()
        invariant
            i <= names@.len(),
            string_views(r@) == first_seen(string_views(names@).subrange(0, i as int)),
        decreases names.len() - i,
    {
        let ghost s = string_views(names@).subrange(0, i + 1);
        assert(s.drop_last() =~= string_views(names@).subrange(0, i as int));
        assert(s.last() == names@[i as int]@);
        if !contains_name(&r, &names[i]) {
            r.push(names[i].clone());
            assert(string_views(r@) =~= first_seen(s.drop_last()).push(s.last()));
        }
        i = i + 1;
    }
    assert(string_views(names@).subrange(0, i as int) =~= string_views(names@));
    r
}

/// The attributes of a span for capture `name`: its class, and its color when the theme has one.
pub open spec fn span_attrs(styles: Seq<(Seq<char>, Color)>, name: Seq<char>) -> Seq<char> {
    "class=\""@ + css_class(name) + "\""@ + color_attr(styles, name)
}

/// The inline color of a span for capture `name`, when the theme has one.
pub open spec fn color_attr(styles: Seq<(Seq<char>, Color)>, name: Seq<char>) -> Seq<char> {
    match scope_color(styles, name) {
        Some(c) => " style=\"color: "@ + hex_code(c) + "\""@,
        None => Seq::empty(),
    }
}

/// The span attributes of one capture name under a theme.
pub fn capture_attrs(name: &String, theme: &Theme) -> (r: String)
    ensures
        r@ == span_attrs(theme@, name@),
{
    let mut r = String::new();
    r.append("class=\"");
    let class = to_css_class(name.as_str());
    r.append(class.as_str());
    r.append("\"");
    match theme.get(name.as_str()) {
        Some(c) => {
            r.append(" style=\"color: ");
            let hex = c.to_hex();
            r.append(hex.as_str());
            r.append("\"");
        },
        None => {},
    }
    assert(r@ =~= span_attrs(theme@, name@));
    r
}

/// The span attributes of each capture name, by index.
pub fn html_attrs(names: &Vec<String>, theme: &Theme) -> (r: Vec<String>)
    ensures
        r@.len() == names@.len(),
        forall|i: int| 0 <= i < names@.len() ==> #[trigger] r@[i]@ == span_attrs(theme@, names@[i]@),
{
    let mut r: Vec<String> = Vec::new();
    let mut i: usize = 0;
    while i < names.len()
        invariant
            i <= names@.len(),
            r@.len() == i,
            forall|j: int| 0 <= j < i ==> #[trigger] r@[j]@ == span_attrs(theme@, names@[j]@),
        decreases names.len() - i,
    {
        r.push(capture_attrs(&names[i], theme));
        i = i + 1;
    }
    r
}

/// The HTML text of one source character.
pub open spec fn escape_char(c: char) -> Seq<char> {
    if c == '&' {
        "&amp;"@
    } else if c == '<' {
        "&lt;"@
    } else if c == '>' {
        "&gt;"@
    } else if c == '"' {
        "&quot;"@
    } else if c == '\'' {
        "&#39;"@
    } else {
        seq![c]
    }
}

/// The HTML text of a source text.
pub open spec fn escape(s: Seq<char>) -> Seq<char>
    decreases s.len(),
{
    if s.len() == 0 {
        Seq::empty()
    } else {
        escape(s.drop_last()) + escape_char(s.last())
    }
}

/// Escaped text holds no `<`, `>` or quote, whatever the source held.
pub proof fn law_escape_no_markup(s: Seq<char>)
    ensures
        forall|i: int|
            0 <= i < escape(s).len() ==> escape(s)[i] != '<' && escape(s)[i] != '>' && escape(s)[i]
                != '"' && escape(s)[i] != '\'',
    decreases s.len(),
{
    reveal_strlit("&amp;");
    reveal_strlit("&lt;");
    reveal_strlit("&gt;");
    reveal_strlit("&quot;");
    reveal_strlit("&#39;");
    if s.len() > 0 {
        law_escape_no_markup(s.drop_last());
        let a = escape(s.drop_last());
        let b = escape_char(s.last());
        assert forall|i: int| 0 <= i < b.len() implies b[i] != '<' && b[i] != '>' && b[i] != '"'
            && b[i] != '\'' by {}
        assert forall|i: int| 0 <= i < escape(s).len() implies escape(s)[i] != '<' && escape(s)[i]
            != '>' && escape(s)[i] != '"' && escape(s)[i] != '\'' by {
            if i < a.len() {
                assert(escape(s)[i] == a[i]);
            } else {
                assert(escape(s)[i] == b[i - a.len()]);
            }
        }
    }
}

proof fn lemma_escape_concat(a: Seq<char>, b: Seq<char>)
    ensures
        escape(a + b) == escape(a) + escape(b),
    decreases b.len(),
{
    if b.len() == 0 {
        assert(a + b =~= a);
        assert(escape(a) + escape(b) =~= escape(a));
    } else {
        assert((a + b).drop_last() =~= a + b.drop_last());
        assert((a + b).last() == b.last());
        lemma_escape_concat(a, b.drop_last());
        assert(escape(a) + escape(b.drop_last()) + escape_char(b.last()) =~= escape(a) + (escape(
            b.drop_last(),
        ) + escape_char(b.last())));
    }
}

/// The HTML of the source events alone: the rendered HTML with the span tags removed.
pub open spec fn source_html(events: Seq<HighlightEvent>, src: Seq<char>) -> Seq<char>
    decreases events.len(),
{
    if events.len() == 0 {
        Seq::empty()
    } else {
        source_html(events.drop_last(), src) + match events.last() {
            HighlightEvent::Source { start, end } => escape(src.subrange(start as int, end as int)),
            _ => Seq::empty(),
        }
    }
}

/// Where the source events, taken in order, stop when each starts where the one before it
/// ended, the first at 0; `None` when they do not follow each other so.
pub open spec fn covered(events: Seq<HighlightEvent>) -> Option<int>
    decreases events.len(),
{
    if events.len() == 0 {
        Some(0)
    } else {
        match covered(events.drop_last()) {
            Some(p) => match events.last() {
                HighlightEvent::Source { start, end } => if start == p && start <= end {
                    Some(end as int)
                } else {
                    None
                },
                _ => Some(p),
            },
            None => None,
        }
    }
}

/// When the source events cover the source in order, the rendered HTML with its span tags
/// removed is the escaped source: every `&`, `<`, `>` and quote of the source is escaped,
/// inside spans or not.
pub proof fn law_escaped_source(events: Seq<HighlightEvent>, src: Seq<char>)
    requires
        covered(events) matches Some(n) && n <= src.len(),
    ensures
        source_html(events, src) == escape(src.subrange(0, covered(events)->Some_0)),
    decreases events.len(),
{
    if events.len() > 0 {
        let p = covered(events.drop_last())->Some_0;
        law_escaped_source(events.drop_last(), src);
        match events.last() {
            HighlightEvent::Source { start, end } => {
                lemma_escape_concat(src.subrange(0, p), src.subrange(p, end as int));
                assert(src.subrange(0, p) + src.subrange(p, end as int) =~= src.subrange(0, end as int));
            },
            _ => {
                assert(source_html(events, src) =~= source_html(events.drop_last(), src));
            },
        }
    } else {
        assert(src.subrange(0, 0) =~= Seq::<char>::empty());
    }
}

/// Appends the HTML text of `s[from..to]` to `out`.
fn push_escaped(out: &mut String, s: &[char], from: usize, to: usize)
    requires
        from <= to <= s@.len(),
    ensures
        final(out)@ == old(out)@ + escape(s@.subrange(from as int, to as int)),
{
    let mut i: usize = from;
    assert(s@.subrange(from as int, from as int) =~= Seq::<char>::empty());
    assert(old(out)@ + Seq::<char>::empty() =~= old(out)@);
    while i < to
        invariant
            from <= i <= to <= s@.len(),
            out@ == old(out)@ + escape(s@.subrange(from as int, i as int)),
        decreases to - i,
    {
        let c = s[i];
        let ghost before = out@;
        if c == '&' {
            out.append("&amp;");
        } else if c == '<' {
            out.append("&lt;");
        } else if c == '>' {
            out.append("&gt;");
        } else if c == '"' {
            out.append("&quot;");
        } else if c == '\'' {
            out.append("&#39;");
        } else {
            push_char(out, c);
            assert(out@ == before + seq![c]);
        }
        let ghost t = s@.subrange(from as int, i + 1);
        assert(t.drop_last() =~= s@.subrange(from as int, i as int));
        assert(out@ =~= old(out)@ + escape(t));
        i = i + 1;
    }
}

/// The HTML of one event, when it is valid: a capture index below `attrs.len()`, a range
/// within the source.
pub open spec fn event_html(e: HighlightEvent, src: Seq<char>, attrs: Seq<Seq<char>>) -> Option<
    Seq<char>,
> {
    match e {
        HighlightEvent::HighlightStart(h) => if h < attrs.len() {
            Some("<span "@ + attrs[h as int] + ">"@)
        } else {
            None
        },
        HighlightEvent::HighlightEnd => Some("</span>"@),
        HighlightEvent::Source { start, end } => if start <= end && end <= src.len() {
            Some(escape(src.subrange(start as int, end as int)))
        } else {
            None
        },
    }
}

/// The HTML of a sequence of events: each event's HTML in order; `None` when one is invalid.
pub open spec fn events_html(events: Seq<HighlightEvent>, src: Seq<char>, attrs: Seq<Seq<char>>) -> Option<
    Seq<char>,
>
    decreases events.len(),
{
    if events.len() == 0 {
        Some(Seq::empty())
    } else {
        match (events_html(events.drop_last(), src, attrs), event_html(events.last(), src, attrs)) {
            (Some(a), Some(b)) => Some(a + b),
            _ => None,
        }
    }
}

proof fn lemma_events_prefix(events: Seq<HighlightEvent>, src: Seq<char>, attrs: Seq<Seq<char>>, n: int)
    requires
        0 <= n <= events.len(),
        events_html(events.subrange(0, n), src, attrs) is None,
    ensures
        events_html(events, src, attrs) is None,
    decreases events.len() - n,
{
    if n < events.len() {
        assert(events.subrange(0, n + 1).drop_last() =~= events.subrange(0, n));
        lemma_events_prefix(events, src, attrs, n + 1);
    } else {
        assert(events.subrange(0, n) =~= events);
    }
}

proof fn lemma_each_event_valid(events: Seq<HighlightEvent>, src: Seq<char>, attrs: Seq<Seq<char>>, k: int)
    requires
        events_html(events, src, attrs) is Some,
        0 <= k < events.len(),
    ensures
        event_html(events[k], src, attrs) is Some,
    decreases events.len(),
{
    if k < events.len() - 1 {
        assert(events.drop_last()[k] == events[k]);
        lemma_each_event_valid(events.drop_last(), src, attrs, k);
    }
}

/// In rendered HTML, the span that opens for capture index `h` has as class the capture's
/// name with each `.` replaced by `-` and no other character changed, followed by the
/// capture's color when the theme has one.
pub proof fn law_span_class(
    styles: Seq<(Seq<char>, Color)>,
    names: Seq<Seq<char>>,
    events: Seq<HighlightEvent>,
    src: Seq<char>,
    k: int,
    h: usize,
)
    requires
        events_html(events, src, attrs_of(styles, names)) is Some,
        0 <= k < events.len(),
        events[k] == HighlightEvent::HighlightStart(h),
    ensures
        h < names.len(),
        event_html(events[k], src, attrs_of(styles, names)) == Some(
            "<span "@ + "class=\""@ + css_class(names[h as int]) + "\""@ + color_attr(
                styles,
                names[h as int],
            ) + ">"@,
        ),
        css_class(names[h as int]).len() == names[h as int].len(),
        forall|i: int|
            0 <= i < names[h as int].len() ==> css_class(names[h as int])[i] == (if names[h as int][i]
                == '.' {
                '-'
            } else {
                names[h as int][i]
            }),
{
    lemma_each_event_valid(events, src, attrs_of(styles, names), k);
    let n = names[h as int];
    assert("<span "@ + span_attrs(styles, n) + ">"@ =~= "<span "@ + "class=\""@ + css_class(n) + "\""@
        + color_attr(styles, n) + ">"@);
}

/// Renders highlight events over `code` with the span attributes of each capture index.
/// Each event gives exactly its own HTML: unlike the engine's own HTML renderer, open spans
/// are not closed and reopened at line breaks, carriage returns are kept, and no final line
/// break is added.
pub fn render_events(events: &Vec<HighlightEvent>, code: &str, attrs: &Vec<String>) -> (r: Option<String>)
    ensures
        match r {
            Some(h) => events_html(events@, code@, string_views(attrs@)) == Some(h@),
            None => events_html(events@, code@, string_views(attrs@)) is None,
        },
{
    let src = chars_of(code);
    let ghost av = string_views(attrs@);
    let mut out = String::new();
    let mut i: usize = 0;
    while i < events.len()
        invariant
            i <= events@.len(),
            src@ == code@,
            av == string_views(attrs@),
            events_html(events@.subrange(0, i as int), code@, av) == Some(out@),
        decreases events.len() - i,
    {
        let ghost t = events@.subrange(0, i + 1);
        assert(t.drop_last() =~= events@.subrange(0, i as int));
        assert(t.last() == events@[i as int]);
        let ghost before = out@;
        match events[i] {
            HighlightEvent::HighlightStart(h) => {
                if h >= attrs.len() {
                    proof { lemma_events_prefix(events@, code@, av, i + 1); }
                    return None;
                }
                out.append("<span ");
                out.append(attrs[h].as_str());
                out.append(">");
                assert(av[h as int] == attrs@[h as int]@);
                assert(out@ =~= before + ("<span "@ + av[h as int] + ">"@));
            },
            HighlightEvent::HighlightEnd => {
                out.append("</span>");
            },
            HighlightEvent::Source { start, end } => {
                if !(start <= end && end <= src.len()) {
                    proof { lemma_events_prefix(events@, code@, av, i + 1); }
                    return None;
                }
                push_escaped(&mut out, src.as_slice(), start, end);
            },
        }
        i = i + 1;
    }
    assert(events@.subrange(0, i as int) =~= events@);
    Some(out)
}

/// A highlighted source: the capture names of its language's configuration, by index, and
/// the events that the highlighting engine produced for it.
pub struct Highlighting {
    pub capture_names: Vec<String>,
    pub events: Vec<HighlightEvent>,
}

/// The span attributes of each capture name.
pub open spec fn attrs_of(styles: Seq<(Seq<char>, Color)>, names: Seq<Seq<char>>) -> Seq<Seq<char>> {
    names.map_values(|n: Seq<char>| span_attrs(styles, n))
}

/// The color of a scope, or `d` when the theme has none.
pub open spec fn color_or(styles: Seq<(Seq<char>, Color)>, scope: Seq<char>, d: Color) -> Color {
    match scope_color(styles, scope) {
        Some(c) => c,
        None => d,
    }
}

/// The page of a source that is not highlighted: the escaped source in the theme's colors.
pub open spec fn plain_page(styles: Seq<(Seq<char>, Color)>, code: Seq<char>) -> Seq<char> {
    "<pre class=\"treelight\" style=\"background-color: "@ + hex_code(
        color_or(styles, "ui.background"@, Color::White),
    ) + "; color: "@ + hex_code(color_or(styles, "ui.foreground"@, Color::Black))
        + "\"><code>"@ + escape(code) + "</code></pre>"@
}

/// The page around highlighted HTML.
pub open spec fn highlighted_page(
    theme_name: Seq<char>,
    styles: Seq<(Seq<char>, Color)>,
    html: Seq<char>,
) -> Seq<char> {
    "<pre class=\"treelight "@ + theme_name + "\" style=\"background-color: "@ + hex_code(
        color_or(styles, "ui.background"@, Color::White),
    ) + "\"><code>"@ + html + "</code></pre>"@
}

/// Every `<` of `s` is followed, within `s`, by a character other than `s`.
pub open spec fn opens_no_span(s: Seq<char>) -> bool {
    forall|i: int| 0 <= i < s.len() && #[trigger] s[i] == '<' ==> i + 1 < s.len() && s[i + 1] != 's'
}

proof fn lemma_opens_no_span_concat(a: Seq<char>, b: Seq<char>)
    requires
        opens_no_span(a),
        opens_no_span(b),
    ensures
        opens_no_span(a + b),
{
    assert forall|i: int| 0 <= i < (a + b).len() && #[trigger] (a + b)[i] == '<' implies i + 1 < (a + b).len()
        && (a + b)[i + 1] != 's' by {
        if i < a.len() {
            assert(a[i] == '<');
            assert((a + b)[i + 1] == a[i + 1]);
        } else {
            assert(b[i - a.len()] == '<');
            assert((a + b)[i + 1] == b[i + 1 - a.len()]);
        }
    }
}

proof fn lemma_hex_opens_no_span(c: Color)
    ensures
        opens_no_span(hex_code(c)),
{
    let h = hex_code(c);
    assert forall|i: int| 0 <= i < h.len() implies h[i] != '<' by {
        match c {
            Color::Rgb(r, g, b) => {
                assert(h =~= seq!['#', hex_digit(r as int / 16), hex_digit(r as int % 16), hex_digit(
                    g as int / 16,
                ), hex_digit(g as int % 16), hex_digit(b as int / 16), hex_digit(b as int % 16)]);
            },
            _ => {},
        }
    }
}

/// The page of a source in a language without a configuration holds no span: the wrapper
/// opens none, and the escaped source holds no `<`.
pub proof fn law_plain_page_has_no_span(styles: Seq<(Seq<char>, Color)>, code: Seq<char>)
    ensures
        forall|i: int| !has_span_at(#[trigger] plain_page(styles, code), i),
{
    let page = plain_page(styles, code);
    reveal_strlit("<pre class=\"treelight\" style=\"background-color: ");
    reveal_strlit("; color: ");
    reveal_strlit("\"><code>");
    reveal_strlit("</code></pre>");
    reveal_strlit("<span");
    law_escape_no_markup(code);
    let a = "<pre class=\"treelight\" style=\"background-color: "@;
    let b = "; color: "@;
    let c = "\"><code>"@;
    let d = "</code></pre>"@;
    let bg = hex_code(color_or(styles, "ui.background"@, Color::White));
    let fg = hex_code(color_or(styles, "ui.foreground"@, Color::Black));
    let e = escape(code);
    assert(opens_no_span(a));
    assert(opens_no_span(b));
    assert(opens_no_span(c));
    assert(opens_no_span(d));
    assert(opens_no_span(e));
    lemma_hex_opens_no_span(color_or(styles, "ui.background"@, Color::White));
    lemma_hex_opens_no_span(color_or(styles, "ui.foreground"@, Color::Black));
    lemma_opens_no_span_concat(a, bg);
    lemma_opens_no_span_concat(a + bg, b);
    lemma_opens_no_span_concat(a + bg + b, fg);
    lemma_opens_no_span_concat(a + bg + b + fg, c);
    lemma_opens_no_span_concat(a + bg + b + fg + c, e);
    lemma_opens_no_span_concat(a + bg + b + fg + c + e, d);
    assert(page == a + bg + b + fg + c + e + d);
    assert forall|i: int| !has_span_at(page, i) by {
        if has_span_at(page, i) {
            assert(page[i] == "<span"@[0]);
            assert(page[i + 1] == "<span"@[1]);
        }
    }
}

/// Whether a span opens at index `i` of `s`.
pub open spec fn has_span_at(s: Seq<char>, i: int) -> bool {
    0 <= i && i + 5 <= s.len() && s.subrange(i, i + 5) == "<span"@
}

fn theme_color_or(theme: &Theme, scope: &str, d: Color) -> (r: Color)
    ensures
        r == color_or(theme@, scope@, d),
{
    match theme.get(scope) {
        Some(c) => c,
        None => d,
    }
}

/// Renders `code` under a theme. Without a highlighting (a language that has no
/// configuration) the escaped source stands alone in the page; with one, its events are
/// rendered with the span attributes of its capture names, and `None` comes back only when
/// an event is invalid.
pub fn highlight(code: &str, theme_name: &str, theme: &Theme, highlighting: Option<&Highlighting>) -> (r:
    Option<String>)
    ensures
        match highlighting {
            None => r matches Some(p) && p@ == plain_page(theme@, code@),
            Some(h) => match events_html(
                h.events@,
                code@,
                attrs_of(theme@, string_views(h.capture_names@)),
            ) {
                Some(html) => r matches Some(p) && p@ == highlighted_page(theme_name@, theme@, html),
                None => r is None,
            },
        },
{
    let bg = theme_color_or(theme, "ui.background", Color::White);
    let mut page = String::new();
    match highlighting {
        None => {
            let fg = theme_color_or(theme, "ui.foreground", Color::Black);
            page.append("<pre class=\"treelight\" style=\"background-color: ");
            page.append(bg.to_hex().as_str());
            page.append("; color: ");
            page.append(fg.to_hex().as_str());
            page.append("\"><code>");
            let src = chars_of(code);
            push_escaped(&mut page, src.as_slice(), 0, src.len());
            page.append("</code></pre>");
            assert(src@.subrange(0, src@.len() as int) =~= code@);
            assert(page@ =~= plain_page(theme@, code@));
            Some(page)
        },
        Some(h) => {
            let attrs = html_attrs(&h.capture_names, theme);
            assert(string_views(attrs@) =~= attrs_of(theme@, string_views(h.capture_names@)));
            let html = render_events(&h.events, code, &attrs)?;
            page.append("<pre class=\"treelight ");
            page.append(theme_name);
            page.append("\" style=\"background-color: ");
            page.append(bg.to_hex().as_str());
            page.append("\"><code>");
            page.append(html.as_str());
            page.append("</code></pre>");
            assert(page@ =~= highlighted_page(theme_name@, theme@, html@));
            Some(page)
        },
    }
}

} // verus!
