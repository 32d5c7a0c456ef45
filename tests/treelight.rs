use treelight::color::{Color, Palette};
use treelight::language::Language;
use treelight::query::{compose_query, find_directive, QueryCache, QueryError};
use treelight::render::{
    capture_attrs, capture_list, highlight, html_attrs, render_events, to_css_class, HighlightEvent,
    Highlighting,
};
use treelight::theme::{build_theme_values, Theme};
use treelight::value::ThemeValue;
use treelight::Options;

fn s(x: &str) -> String {
    x.to_string()
}

fn string(x: &str) -> ThemeValue {
    ThemeValue::Str(s(x))
}

fn table(entries: Vec<(&str, ThemeValue)>) -> ThemeValue {
    ThemeValue::Table(entries.into_iter().map(|(k, v)| (s(k), v)).collect())
}

fn theme_of(value: ThemeValue) -> Theme {
    Theme::from_value("test", &value).unwrap()
}

fn assets(list: &[(&str, &str)]) -> Vec<(String, String)> {
    list.iter().map(|(l, t)| (s(l), s(t))).collect()
}

#[test]
fn scope_fallback_to_parent() {
    let theme = theme_of(table(vec![("keyword", string("#ff0000"))]));
    assert_eq!(theme.get("keyword.control"), Some(Color::Rgb(255, 0, 0)));
    assert_eq!(theme.get("keyword"), Some(Color::Rgb(255, 0, 0)));
    assert_eq!(theme.get("unrelated"), None);
}

#[test]
fn scope_longest_prefix_wins() {
    let theme = theme_of(table(vec![
        ("function", string("#010101")),
        ("function.method", string("#020202")),
    ]));
    assert_eq!(theme.get("function.method.builtin"), Some(Color::Rgb(2, 2, 2)));
    assert_eq!(theme.get("function.call"), Some(Color::Rgb(1, 1, 1)));
    assert_eq!(theme.get("functional"), None);
    assert_eq!(theme.get(""), None);
}

#[test]
fn palette_declared_color_wins() {
    let theme = theme_of(table(vec![
        ("palette", table(vec![("red", string("#123456"))])),
        ("keyword", string("red")),
        ("string", string("green")),
    ]));
    assert_eq!(theme.get("keyword"), Some(Color::Rgb(0x12, 0x34, 0x56)));
    assert_eq!(theme.get("string"), Some(Color::Green));
}

#[test]
fn bad_palette_falls_back_to_defaults() {
    let theme = theme_of(table(vec![
        ("palette", table(vec![("red", ThemeValue::Other(s("3")))])),
        ("keyword", string("red")),
    ]));
    assert_eq!(theme.get("keyword"), Some(Color::Red));
}

#[test]
fn palette_from_value_cases() {
    let p = Palette::from_value(&ThemeValue::Other(s("1"))).unwrap();
    assert_eq!(p.lookup("light-blue"), Some(Color::LightBlue));
    let err = Palette::from_value(&table(vec![("x", ThemeValue::Other(s("true")))]));
    assert_eq!(err.err(), Some(s("Theme: unrecognized value: true")));
    let err = Palette::from_value(&table(vec![("x", string("blue"))]));
    assert_eq!(err.err(), Some(s("Theme: malformed hexcode: blue")));
    let p = Palette::from_value(&table(vec![("accent", string("#00ff00"))])).unwrap();
    assert_eq!(p.lookup("accent"), Some(Color::Rgb(0, 255, 0)));
    assert_eq!(p.lookup("white"), Some(Color::White));
}

#[test]
fn palette_new_overrides_defaults() {
    let p = Palette::new(vec![(s("white"), Color::Rgb(1, 1, 1)), (s("extra"), Color::Cyan)]);
    assert_eq!(p.lookup("white"), Some(Color::Rgb(1, 1, 1)));
    assert_eq!(p.lookup("extra"), Some(Color::Cyan));
    assert_eq!(p.lookup("black"), Some(Color::Black));
    assert_eq!(p.lookup("nothing"), None);
    let d = Palette::default();
    assert_eq!(d.lookup("default"), Some(Color::Reset));
    assert_eq!(d.lookup("white"), Some(Color::White));
}

#[test]
fn parse_color_paths() {
    let p = Palette::default();
    assert_eq!(p.parse_color(&string("magenta")), Ok(Color::Magenta));
    assert_eq!(p.parse_color(&string("#0a0B0c")), Ok(Color::Rgb(10, 11, 12)));
    assert_eq!(
        p.parse_color(&string("#zz0000")),
        Err(s("Theme: malformed hexcode: #zz0000"))
    );
    assert_eq!(
        p.parse_color(&ThemeValue::Other(s("[1, 2]"))),
        Err(s("Theme: unrecognized value: [1, 2]"))
    );
    assert_eq!(
        p.parse_color(&table(vec![])),
        Err(s("Theme: unrecognized value: table"))
    );
}

#[test]
fn string_to_rgb_cases() {
    assert_eq!(Palette::string_to_rgb("#ff0000"), Ok(Color::Rgb(255, 0, 0)));
    assert_eq!(Palette::string_to_rgb("#FFa501"), Ok(Color::Rgb(255, 165, 1)));
    assert!(Palette::string_to_rgb("ff0000").is_err());
    assert!(Palette::string_to_rgb("#ff00").is_err());
    assert!(Palette::string_to_rgb("#ff00000").is_err());
    assert!(Palette::string_to_rgb("#+f0000").is_err());
    assert_eq!(
        Palette::string_to_rgb("nope"),
        Err(s("Theme: malformed hexcode: nope"))
    );
}

#[test]
fn color_hex_codes() {
    assert_eq!(Color::Rgb(1, 2, 255).to_hex(), "#0102ff");
    assert_eq!(Color::Rgb(0xab, 0xcd, 0xef).to_hex(), "#abcdef");
    assert_eq!(Color::Red.to_hex(), "#000000");
    assert_eq!(Color::White.to_hex(), "#000000");
}

#[test]
fn theme_table_styles_use_fg_only() {
    let theme = theme_of(table(vec![
        ("inherits", string("base")),
        ("comment", table(vec![("bg", string("#ffffff")), ("fg", string("blue"))])),
        ("type", table(vec![("modifiers", ThemeValue::Other(s("[\"bold\"]")))])),
    ]));
    assert_eq!(theme.get("comment"), Some(Color::Blue));
    assert_eq!(theme.get("type"), None);
    assert_eq!(theme.get("inherits"), None);
}

#[test]
fn theme_malformed_color_fails() {
    let r = Theme::from_value("bad", &table(vec![("keyword", string("#nothex"))]));
    assert_eq!(r.err(), Some(s("Theme: malformed hexcode: #nothex")));
    let r = build_theme_values(&vec![(s("k"), table(vec![("fg", ThemeValue::Other(s("1")))]))]);
    assert_eq!(r.err(), Some(s("Theme: unrecognized value: 1")));
}

#[test]
fn theme_non_table_root_is_empty() {
    let theme = Theme::from_value("x", &string("oops")).unwrap();
    assert_eq!(theme.get("keyword"), None);
    assert_eq!(Theme::empty("y").get("ui.background"), None);
}

#[test]
fn css_class_replaces_dots() {
    assert_eq!(to_css_class("function.method.builtin"), "function-method-builtin");
    assert_eq!(to_css_class("keyword"), "keyword");
    let once = to_css_class("a.b.c");
    assert!(!once.contains('.'));
    assert_eq!(to_css_class(&once), once);
}

#[test]
fn capture_list_keeps_first_occurrences() {
    let names = vec![s("keyword"), s("string"), s("keyword"), s("comment"), s("string")];
    assert_eq!(capture_list(&names), vec![s("keyword"), s("string"), s("comment")]);
    assert_eq!(capture_list(&vec![]), Vec::<String>::new());
}

#[test]
fn span_attributes_with_and_without_color() {
    let theme = theme_of(table(vec![("keyword", string("#ff0000"))]));
    assert_eq!(
        capture_attrs(&s("keyword.control"), &theme),
        "class=\"keyword-control\" style=\"color: #ff0000\""
    );
    assert_eq!(capture_attrs(&s("string.special"), &theme), "class=\"string-special\"");
    let attrs = html_attrs(&vec![s("keyword"), s("variable")], &theme);
    assert_eq!(attrs.len(), 2);
    assert_eq!(attrs[1], "class=\"variable\"");
}

#[test]
fn inherits_two_parents_in_order() {
    let a = assets(&[
        ("c", "(c_rule)"),
        ("d", "(d_rule)"),
        ("x", "; inherits: c,d\n(x_rule)"),
    ]);
    let expected = "\n(c_rule)\n\n(d_rule)\n(x_rule)";
    assert_eq!(compose_query(&a, "x").unwrap(), expected);
    assert_eq!(compose_query(&a, "x").unwrap(), expected);
}

#[test]
fn inherits_nested_and_missing() {
    let a = assets(&[
        ("base", "(base)"),
        ("mid", ";; inherits base\n(mid)\n"),
        ("top", "(top)\n  ; inherits :mid,none  \n(end)"),
    ]);
    assert_eq!(
        compose_query(&a, "top").unwrap(),
        "(top)\n  \n\n(base)\n(mid)\n\n\n\n(end)"
    );
    assert_eq!(compose_query(&a, "unknown").unwrap(), "");
    assert_eq!(compose_query(&a, "base").unwrap(), "(base)");
}

#[test]
fn incomplete_directives_stay() {
    let a = assets(&[("x", "; inherits\n; inheritsC\n(a)")]);
    assert_eq!(compose_query(&a, "x").unwrap(), "; inherits\n; inheritsC\n(a)");
}

#[test]
fn directive_inside_a_line_is_spliced() {
    let a = assets(&[
        ("x", "q;inherits a"),
        ("y", "(a) ; inherits b\n"),
        ("z", "; inherits p (x)"),
        ("p", "(p)"),
    ]);
    assert_eq!(compose_query(&a, "x").unwrap(), "q\n\n");
    assert_eq!(compose_query(&a, "y").unwrap(), "(a) \n\n");
    assert_eq!(compose_query(&a, "z").unwrap(), "\n(p)\n(x)");
}

#[test]
fn directive_white_space_spans_lines() {
    let a = assets(&[("x", ";\ninherits\n:\np\n\nrest"), ("p", "(p)")]);
    assert_eq!(compose_query(&a, "x").unwrap(), "\n(p)\nrest");
}

#[test]
fn directive_positions() {
    let line: Vec<char> = "; inherits: ecma,jsx".chars().collect();
    assert_eq!(find_directive(&line, 0), Some((12, 20, 20)));
    let line: Vec<char> = "(call)".chars().collect();
    assert_eq!(find_directive(&line, 0), None);
    let text: Vec<char> = "x ;inherits a\nb".chars().collect();
    assert_eq!(find_directive(&text, 2), Some((12, 13, 14)));
    assert_eq!(find_directive(&text, 0), None);
}

#[test]
fn self_inheritance_fails() {
    let a = assets(&[("a", "; inherits a")]);
    match compose_query(&a, "a") {
        Err(QueryError::CyclicInheritance(l)) => assert_eq!(l, "a"),
        other => panic!("unexpected {:?}", other),
    }
}

#[test]
fn transitive_cycle_fails() {
    let a = assets(&[("a", "; inherits b"), ("b", "(b)\n; inherits c"), ("c", "; inherits a")]);
    match compose_query(&a, "a") {
        Err(QueryError::CyclicInheritance(l)) => assert_eq!(l, "a"),
        other => panic!("unexpected {:?}", other),
    }
    match compose_query(&a, "b") {
        Err(QueryError::CyclicInheritance(l)) => assert_eq!(l, "b"),
        other => panic!("unexpected {:?}", other),
    }
}

#[test]
fn unknown_language_passthrough() {
    let theme = Theme::empty("default");
    let page = highlight("let x = 1;", "default", &theme, None).unwrap();
    assert_eq!(
        page,
        "<pre class=\"treelight\" style=\"background-color: #000000; color: #000000\"><code>let x = 1;</code></pre>"
    );
    assert!(!page.contains("<span"));
}

#[test]
fn passthrough_uses_ui_colors_and_escapes() {
    let theme = theme_of(table(vec![
        ("ui.background", string("#101010")),
        ("ui.foreground", string("#efefef")),
    ]));
    let page = highlight("a<b && c>d", "default", &theme, None).unwrap();
    assert_eq!(
        page,
        "<pre class=\"treelight\" style=\"background-color: #101010; color: #efefef\"><code>a&lt;b &amp;&amp; c&gt;d</code></pre>"
    );
}

#[test]
fn escaping_inside_span() {
    let theme = theme_of(table(vec![("string", string("#00ff00"))]));
    let events = vec![
        HighlightEvent::HighlightStart(0),
        HighlightEvent::Source { start: 0, end: 9 },
        HighlightEvent::HighlightEnd,
    ];
    let attrs = html_attrs(&vec![s("string")], &theme);
    let html = render_events(&events, "\"<a>&'\"!", &attrs);
    assert_eq!(html, None);
    let events = vec![
        HighlightEvent::HighlightStart(0),
        HighlightEvent::Source { start: 0, end: 8 },
        HighlightEvent::HighlightEnd,
    ];
    let html = render_events(&events, "\"<a>&'\"!", &attrs).unwrap();
    assert_eq!(
        html,
        "<span class=\"string\" style=\"color: #00ff00\">&quot;&lt;a&gt;&amp;&#39;&quot;!</span>"
    );
}

#[test]
fn invalid_capture_index_is_rejected() {
    let events = vec![HighlightEvent::HighlightStart(3), HighlightEvent::HighlightEnd];
    assert_eq!(render_events(&events, "x", &vec![s("class=\"a\"")]), None);
}

#[test]
fn end_to_end_one_token() {
    let theme = theme_of(table(vec![("keyword", string("#ff0000"))]));
    let h = Highlighting {
        capture_names: vec![s("keyword")],
        events: vec![
            HighlightEvent::HighlightStart(0),
            HighlightEvent::Source { start: 0, end: 2 },
            HighlightEvent::HighlightEnd,
        ],
    };
    let attrs = html_attrs(&h.capture_names, &theme);
    assert_eq!(
        render_events(&h.events, "if", &attrs).unwrap(),
        "<span class=\"keyword\" style=\"color: #ff0000\">if</span>"
    );
    assert_eq!(
        highlight("if", "github-dark", &theme, Some(&h)).unwrap(),
        "<pre class=\"treelight github-dark\" style=\"background-color: #000000\"><code><span class=\"keyword\" style=\"color: #ff0000\">if</span></code></pre>"
    );
}

#[test]
fn options_theme_default() {
    assert_eq!(Options { theme: None }.theme_name(), "default");
    assert_eq!(Options { theme: Some(s("github-light")) }.theme_name(), "github-light");
}

#[test]
fn language_identifiers() {
    assert_eq!(Language::from_id("py"), Some(Language::Python));
    assert_eq!(Language::from_id("tsx"), Some(Language::Tsx));
    assert_eq!(Language::from_id("python"), None);
    assert_eq!(Language::from_id(""), None);
    assert_eq!(Language::JavaScript.query_dir(), "javascript");
    assert_eq!(Language::Ruby.query_dir(), "ruby");
}

#[test]
fn cache_returns_fresh_composition() {
    let a = assets(&[("c", "(c)"), ("x", "; inherits c\n(x)")]);
    let mut cache = QueryCache::new(a.clone());
    let first = cache.get("x").unwrap();
    assert_eq!(first, compose_query(&a, "x").unwrap());
    assert_eq!(cache.get("x").unwrap(), first);
    assert_eq!(cache.get("c").unwrap(), "(c)");
    let mut looped = QueryCache::new(assets(&[("a", "; inherits a")]));
    assert!(matches!(looped.get("a"), Err(QueryError::CyclicInheritance(_))));
    assert!(matches!(looped.get("a"), Err(QueryError::CyclicInheritance(_))));
}

#[test]
fn first_failing_entry_gives_the_message() {
    let err = Palette::from_value(&table(vec![
        ("ok", string("#000000")),
        ("bad", string("nothex")),
        ("worse", ThemeValue::Other(s("7"))),
    ]));
    assert_eq!(err.err(), Some(s("Theme: malformed hexcode: nothex")));
    let r = Theme::from_value(
        "t",
        &table(vec![
            ("keyword", string("red")),
            ("string", table(vec![("fg", ThemeValue::Other(s("false")))])),
            ("comment", string("#zzzzzz")),
        ]),
    );
    assert_eq!(r.err(), Some(s("Theme: unrecognized value: false")));
}
