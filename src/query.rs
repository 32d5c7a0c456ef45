use vstd::prelude::*;
use vstd::slice::{slice_subrange, slice_to_vec};

use crate::text::{chars_eq, chars_of, string_of};

verus! {

/// Why a query could not be composed.
#[derive(Debug)]
pub enum QueryError {
    /// The named language reappears among its own ancestors.
    CyclicInheritance(String),
}

/// The kinds of characters that the inheritance directive is made of.
pub enum CharClass {
    Space,
    Semicolon,
    Name,
}

/// Whether `c` belongs to the class `k`.
pub open spec fn in_class(c: char, k: CharClass) -> bool {
    match k {
        CharClass::Space => c == ' ' || ('\t' <= c && c <= '\r') || c == '\u{85}' || c == '\u{a0}'
            || c == '\u{1680}' || ('\u{2000}' <= c && c <= '\u{200a}') || c == '\u{2028}' || c
            == '\u{2029}' || c == '\u{202f}' || c == '\u{205f}' || c == '\u{3000}',
        CharClass::Semicolon => c == ';',
        CharClass::Name => ('a' <= c && c <= 'z') || c == '_' || c == ',' || c == '(' || c == ')'
            || c == '-',
    }
}

/// How many characters of class `k` stand in a row from index `i` on.
pub open spec fn run(s: Seq<char>, i: int, k: CharClass) -> nat
    decreases s.len() - i,
{
    if 0 <= i < s.len() && in_class(s[i], k) {
        1 + run(s, i + 1, k)
    } else {
        0
    }
}

/// Whether `w` is written in `s` at index `i`.
pub open spec fn has_word(s: Seq<char>, i: int, w: Seq<char>) -> bool {
    0 <= i && i + w.len() <= s.len() && s.subrange(i, i + w.len()) == w
}

/// The inheritance directive that starts at index `i` of `t`, if one does: one or more `;`,
/// white space, `inherits`, white space, an optional `:`, white space, the list of parents
/// (lowercase letters, `_`, `,`, `(`, `)`, `-`) and the white space after it. White space
/// includes line breaks. The result gives where the list starts and ends and where the
/// directive ends.
pub open spec fn directive_at(t: Seq<char>, i: int) -> Option<(int, int, int)> {
    if 0 <= i < t.len() && t[i] == ';' {
        let a = i + run(t, i, CharClass::Semicolon);
        let c = a + run(t, a, CharClass::Space);
        if has_word(t, c, "inherits"@) {
            let d = c + 8 + run(t, c + 8, CharClass::Space);
            let e = if d < t.len() && t[d] == ':' {
                d + 1
            } else {
                d
            };
            let f = e + run(t, e, CharClass::Space);
            let g = f + run(t, f, CharClass::Name);
            if g > f {
                Some((f, g, g + run(t, g, CharClass::Space)))
            } else {
                None
            }
        } else {
            None
        }
    } else {
        None
    }
}

/// The assets as character sequences: a language and its query text.
pub open spec fn asset_views(v: Seq<(String, String)>) -> Seq<(Seq<char>, Seq<char>)> {
    v.map_values(|e: (String, String)| (e.0@, e.1@))
}

/// The index of the first asset of language `lang`, if any.
pub open spec fn find_asset(assets: Seq<(Seq<char>, Seq<char>)>, lang: Seq<char>) -> Option<int> {
    if exists|i: int| 0 <= i < assets.len() && assets[i].0 == lang {
        Some(choose|i: int|
            0 <= i < assets.len() && assets[i].0 == lang && forall|j: int|
                0 <= j < i ==> assets[j].0 != lang)
    } else {
        None
    }
}

/// `p` followed by what `r` holds, or the error of `r`.
pub open spec fn prepend(p: Seq<char>, r: Result<Seq<char>, Seq<char>>) -> Result<Seq<char>, Seq<char>> {
    match r {
        Ok(x) => Ok(p + x),
        Err(l) => Err(l),
    }
}

/// What `a` holds followed by what `b` holds; the first error otherwise.
pub open spec fn join(a: Result<Seq<char>, Seq<char>>, b: Result<Seq<char>, Seq<char>>) -> Result<
    Seq<char>,
    Seq<char>,
> {
    match a {
        Ok(x) => prepend(x, b),
        Err(l) => Err(l),
    }
}

/// A composed parent, on lines of its own.
pub open spec fn framed(r: Result<Seq<char>, Seq<char>>) -> Result<Seq<char>, Seq<char>> {
    match r {
        Ok(x) => Ok(seq!['\n'] + x + seq!['\n']),
        Err(l) => Err(l),
    }
}

/// The query of language `lang` with its inheritance directives expanded, while the assets
/// at the indices of `stack` are being expanded. A language without an asset has an empty
/// query; one whose asset is on the stack is an error. A stack as long as the asset list
/// already holds every asset.
pub open spec fn compose_lang(
    assets: Seq<(Seq<char>, Seq<char>)>,
    lang: Seq<char>,
    stack: Seq<usize>,
) -> Result<Seq<char>, Seq<char>>
    decreases assets.len() - stack.len(), 0int, 0int,
{
    match find_asset(assets, lang) {
        None => Ok(Seq::empty()),
        Some(k) => if stack.contains(k as usize) || stack.len() >= assets.len() {
            Err(lang)
        } else {
            expand_text(assets, assets[k].1, 0, stack.push(k as usize))
        },
    }
}

/// The expansion of text `t` from index `i` on: each directive, scanning from the left, is
/// replaced by its parents' queries; all other text stays as it is.
pub open spec fn expand_text(
    assets: Seq<(Seq<char>, Seq<char>)>,
    t: Seq<char>,
    i: int,
    stack: Seq<usize>,
) -> Result<Seq<char>, Seq<char>>
    decreases assets.len() - stack.len(), 2int, t.len() - i
        via expand_text_decreases
{
    if i < 0 || i >= t.len() {
        Ok(Seq::empty())
    } else {
        match directive_at(t, i) {
            Some((f, g, e)) => join(
                expand_names(assets, t.subrange(f, g), 0, 0, stack),
                expand_text(assets, t, e, stack),
            ),
            None => prepend(seq![t[i]], expand_text(assets, t, i + 1, stack)),
        }
    }
}

proof fn lemma_run_bound(s: Seq<char>, i: int, k: CharClass)
    requires
        0 <= i <= s.len(),
    ensures
        i + run(s, i, k) <= s.len(),
    decreases s.len() - i,
{
    if i < s.len() {
        lemma_run_bound(s, i + 1, k);
    }
}

/// A directive ends within the text, after the index where it starts.
proof fn lemma_directive_bounds(t: Seq<char>, i: int)
    requires
        directive_at(t, i) is Some,
    ensures
        directive_at(t, i) matches Some((f, g, e)) && i < f < g <= e <= t.len(),
{
    let a = i + run(t, i, CharClass::Semicolon);
    lemma_run_bound(t, i, CharClass::Semicolon);
    let c = a + run(t, a, CharClass::Space);
    lemma_run_bound(t, a, CharClass::Space);
    lemma_run_bound(t, c + 8, CharClass::Space);
    let d = c + 8 + run(t, c + 8, CharClass::Space);
    let e = if d < t.len() && t[d] == ':' {
        d + 1
    } else {
        d
    };
    lemma_run_bound(t, e, CharClass::Space);
    let f = e + run(t, e, CharClass::Space);
    lemma_run_bound(t, f, CharClass::Name);
    let g = f + run(t, f, CharClass::Name);
    lemma_run_bound(t, g, CharClass::Space);
}

#[via_fn]
proof fn expand_text_decreases(
    assets: Seq<(Seq<char>, Seq<char>)>,
    t: Seq<char>,
    i: int,
    stack: Seq<usize>,
) {
    if 0 <= i < t.len() && directive_at(t, i) is Some {
        lemma_directive_bounds(t, i);
    }
}

/// The queries of the comma-separated languages of `n`, from the name that starts at
/// `start`, scanning at `i`.
pub open spec fn expand_names(
    assets: Seq<(Seq<char>, Seq<char>)>,
    n: Seq<char>,
    start: int,
    i: int,
    stack: Seq<usize>,
) -> Result<Seq<char>, Seq<char>>
    decreases assets.len() - stack.len(), 1int, n.len() - i,
{
    if i < start || start < 0 || i > n.len() {
        Ok(Seq::empty())
    } else if i == n.len() {
        framed(compose_lang(assets, n.subrange(start, i), stack))
    } else if n[i] == ',' {
        join(
            framed(compose_lang(assets, n.subrange(start, i), stack)),
            expand_names(assets, n, i + 1, i + 1, stack),
        )
    } else {
        expand_names(assets, n, start, i + 1, stack)
    }
}

/// The query of language `lang` composed from the assets.
pub open spec fn composed(assets: Seq<(Seq<char>, Seq<char>)>, lang: Seq<char>) -> Result<
    Seq<char>,
    Seq<char>,
> {
    compose_lang(assets, lang, Seq::empty())
}

proof fn lemma_names_scan(
    assets: Seq<(Seq<char>, Seq<char>)>,
    n: Seq<char>,
    start: int,
    i: int,
    j: int,
    stack: Seq<usize>,
)
    requires
        0 <= start <= i <= j <= n.len(),
        forall|k: int| i <= k < j ==> n[k] != ',',
    ensures
        expand_names(assets, n, start, i, stack) == expand_names(assets, n, start, j, stack),
    decreases j - i,
{
    if i < j {
        lemma_names_scan(assets, n, start, i + 1, j, stack);
    }
}

/// A directive that lists two languages becomes the first language's composed query, then
/// the second's, each on lines of its own.
pub proof fn law_two_parents_in_order(
    assets: Seq<(Seq<char>, Seq<char>)>,
    a: Seq<char>,
    b: Seq<char>,
    stack: Seq<usize>,
)
    requires
        !a.contains(','),
        !b.contains(','),
    ensures
        expand_names(assets, a + seq![','] + b, 0, 0, stack) == join(
            framed(compose_lang(assets, a, stack)),
            framed(compose_lang(assets, b, stack)),
        ),
{
    let n = a + seq![','] + b;
    let m = a.len() as int;
    assert forall|k: int| 0 <= k < m implies n[k] != ',' by {
        assert(n[k] == a[k]);
    }
    lemma_names_scan(assets, n, 0, 0, m, stack);
    assert(n.subrange(0, m) =~= a);
    assert forall|k: int| m + 1 <= k < n.len() implies n[k] != ',' by {
        assert(n[k] == b[k - m - 1]);
    }
    lemma_names_scan(assets, n, m + 1, m + 1, n.len() as int, stack);
    assert(n.subrange(m + 1, n.len() as int) =~= b);
}

proof fn lemma_first_asset(assets: Seq<(Seq<char>, Seq<char>)>, lang: Seq<char>, i: int)
    requires
        0 <= i < assets.len(),
        assets[i].0 == lang,
    ensures
        exists|k: int|
            0 <= k < assets.len() && assets[k].0 == lang && forall|j: int|
                0 <= j < k ==> assets[j].0 != lang,
    decreases i,
{
    if exists|j: int| 0 <= j < i && assets[j].0 == lang {
        let j = choose|j: int| 0 <= j < i && assets[j].0 == lang;
        lemma_first_asset(assets, lang, j);
    } else {
        assert(forall|j: int| 0 <= j < i ==> assets[j].0 != lang);
    }
}

proof fn lemma_text_scan(
    assets: Seq<(Seq<char>, Seq<char>)>,
    t: Seq<char>,
    i: int,
    j: int,
    stack: Seq<usize>,
)
    requires
        0 <= i <= j <= t.len(),
        forall|k: int| i <= k < j ==> directive_at(t, k) is None,
    ensures
        expand_text(assets, t, i, stack) == prepend(t.subrange(i, j), expand_text(assets, t, j, stack)),
    decreases j - i,
{
    if i < j {
        lemma_text_scan(assets, t, i + 1, j, stack);
        assert(seq![t[i]] + t.subrange(i + 1, j) =~= t.subrange(i, j));
        match expand_text(assets, t, j, stack) {
            Ok(x) => {
                assert(seq![t[i]] + (t.subrange(i + 1, j) + x) =~= t.subrange(i, j) + x);
            },
            Err(_) => {},
        }
    } else {
        assert(t.subrange(i, j) =~= Seq::<char>::empty());
        match expand_text(assets, t, j, stack) {
            Ok(x) => {
                assert(Seq::<char>::empty() + x =~= x);
            },
            Err(_) => {},
        }
    }
}

/// The first directive of a text is replaced by its parents' composed queries: the text
/// before it stays, and the text after it is expanded in turn.
pub proof fn law_directive_splice(
    assets: Seq<(Seq<char>, Seq<char>)>,
    t: Seq<char>,
    i: int,
    stack: Seq<usize>,
)
    requires
        0 <= i,
        forall|k: int| 0 <= k < i ==> directive_at(t, k) is None,
        directive_at(t, i) is Some,
    ensures
        ({
            let (f, g, e) = directive_at(t, i)->Some_0;
            expand_text(assets, t, 0, stack) == prepend(
                t.subrange(0, i),
                join(expand_names(assets, t.subrange(f, g), 0, 0, stack), expand_text(assets, t, e, stack)),
            )
        }),
{
    lemma_text_scan(assets, t, 0, i, stack);
}

/// A language whose asset starts with a directive that lists the language itself fails to
/// compose, with its own name.
pub proof fn law_self_inheritance_fails(assets: Seq<(Seq<char>, Seq<char>)>, lang: Seq<char>)
    requires
        find_asset(assets, lang) matches Some(k) && ({
            let t = assets[k].1;
            directive_at(t, 0) matches Some((f, g, e)) && t.subrange(f, g) == lang
        }),
        !lang.contains(','),
    ensures
        composed(assets, lang) == Err::<Seq<char>, Seq<char>>(lang),
{
    let k = find_asset(assets, lang)->Some_0;
    let w = choose|i: int| 0 <= i < assets.len() && assets[i].0 == lang;
    lemma_first_asset(assets, lang, w);
    assert(0 <= k < assets.len());
    let t = assets[k].1;
    let (f, g, e) = directive_at(t, 0)->Some_0;
    let stack = Seq::<usize>::empty().push(k as usize);
    assert(!Seq::<usize>::empty().contains(k as usize));
    assert(composed(assets, lang) == expand_text(assets, t, 0, stack));
    lemma_names_scan(assets, lang, 0, 0, lang.len() as int, stack);
    assert(lang.subrange(0, lang.len() as int) =~= lang);
    assert(stack.contains(k as usize)) by {
        assert(stack[0] == k as usize);
    }
    assert(compose_lang(assets, lang, stack) == Err::<Seq<char>, Seq<char>>(lang));
}

/// A language whose asset is already being expanded fails with its own name, and so does
/// composition as a whole: it never recurses without end.
pub proof fn law_reappearing_language_fails(
    assets: Seq<(Seq<char>, Seq<char>)>,
    lang: Seq<char>,
    stack: Seq<usize>,
)
    requires
        find_asset(assets, lang) matches Some(k) && stack.contains(k as usize),
    ensures
        compose_lang(assets, lang, stack) == Err::<Seq<char>, Seq<char>>(lang),
{
}

proof fn lemma_join_prepend(a: Seq<char>, b: Result<Seq<char>, Seq<char>>, c: Result<Seq<char>, Seq<char>>)
    ensures
        prepend(a, join(b, c)) == join(prepend(a, b), c),
{
    match (b, c) {
        (Ok(x), Ok(y)) => {
            assert(a + (x + y) =~= (a + x) + y);
        },
        _ => {},
    }
}

fn run_end(s: &[char], i: usize, k: CharClass) -> (r: usize)
    requires
        i <= s@.len(),
    ensures
        r == i + run(s@, i as int, k),
        r <= s@.len(),
{
    let mut j: usize = i;
    while j < s.len() && class_of(s[j], &k)
        invariant
            i <= j <= s@.len(),
            i + run(s@, i as int, k) == j + run(s@, j as int, k),
        decreases s@.len() - j,
    {
        j = j + 1;
    }
    j
}

fn class_of(c: char, k: &CharClass) -> (r: bool)
    ensures
        r == in_class(c, *k),
{
    match k {
        CharClass::Space => c == ' ' || ('\t' <= c && c <= '\r') || c == '\u{85}' || c == '\u{a0}'
            || c == '\u{1680}' || ('\u{2000}' <= c && c <= '\u{200a}') || c == '\u{2028}' || c
            == '\u{2029}' || c == '\u{202f}' || c == '\u{205f}' || c == '\u{3000}',
        CharClass::Semicolon => c == ';',
        CharClass::Name => ('a' <= c && c <= 'z') || c == '_' || c == ',' || c == '(' || c == ')'
            || c == '-',
    }
}

/// The inheritance directive that starts at index `i` of `t`: where its list of parents
/// starts and ends, and where the directive ends.
pub fn find_directive(t: &[char], i: usize) -> (r: Option<(usize, usize, usize)>)
    requires
        i <= t@.len(),
    ensures
        match directive_at(t@, i as int) {
            Some((f, g, e)) => r == Some((f as usize, g as usize, e as usize)) && i < f < g <= e
                <= t@.len(),
            None => r is None,
        },
{
    if !(i < t.len() && t[i] == ';') {
        return None;
    }
    let a = run_end(t, i, CharClass::Semicolon);
    let c = run_end(t, a, CharClass::Space);
    let word = chars_of("inherits");
    proof {
        reveal_strlit("inherits");
    }
    if !(t.len() - c >= 8) {
        return None;
    }
    if !chars_eq(slice_subrange(t, c, c + 8), word.as_slice()) {
        return None;
    }
    let d = run_end(t, c + 8, CharClass::Space);
    let e = if d < t.len() && t[d] == ':' {
        d + 1
    } else {
        d
    };
    let f = run_end(t, e, CharClass::Space);
    let g = run_end(t, f, CharClass::Name);
    if g > f {
        Some((f, g, run_end(t, g, CharClass::Space)))
    } else {
        None
    }
}

/// The view of a composition result.
pub open spec fn result_view(r: Result<Vec<char>, Vec<char>>) -> Result<Seq<char>, Seq<char>> {
    match r {
        Ok(v) => Ok(v@),
        Err(l) => Err(l@),
    }
}

fn find_asset_index(assets: &Vec<(String, String)>, lang: &[char]) -> (r: Option<usize>)
    ensures
        match find_asset(asset_views(assets@), lang@) {
            Some(k) => r == Some(k as usize) && 0 <= k < assets@.len(),
            None => r is None,
        },
{
    let ghost v = asset_views(assets@);
    let mut i: usize = 0;
    while i < assets.len()
        invariant
            i <= assets@.len(),
            v == asset_views(assets@),
            forall|j: int| 0 <= j < i ==> v[j].0 != lang@,
        decreases assets.len() - i,
    {
        let key = chars_of(assets[i].0.as_str());
        assert(v[i as int].0 == assets@[i as int].0@);
        if chars_eq(key.as_slice(), lang) {
            assert(v[i as int].0 == lang@);
            let ghost k = find_asset(v, lang@)->Some_0;
            assert(0 <= k < v.len() && v[k].0 == lang@ && forall|j: int| 0 <= j < k ==> v[j].0 != lang@);
            assert(k == i as int) by {
                if k < i as int {
                    assert(v[k].0 != lang@);
                }
                if k > i as int {
                    assert(v[i as int].0 != lang@);
                }
            }
            return Some(i);
        }
        i = i + 1;
    }
    assert(!exists|i: int| 0 <= i < v.len() && v[i].0 == lang@);
    None
}

fn stack_has(stack: &Vec<usize>, k: usize) -> (r: bool)
    ensures
        r == stack@.contains(k),
{
    let mut i: usize = 0;
    while i < stack.len()
        invariant
            i <= stack@.len(),
            forall|j: int| 0 <= j < i ==> stack@[j] != k,
        decreases stack.len() - i,
    {
        if stack[i] == k {
            assert(stack@[i as int] == k);
            return true;
        }
        i = i + 1;
    }
    false
}

fn pushed(stack: &Vec<usize>, k: usize) -> (r: Vec<usize>)
    ensures
        r@ == stack@.push(k),
{
    let mut r: Vec<usize> = Vec::new();
    let mut i: usize = 0;
    while i < stack.len()
        invariant
            i <= stack@.len(),
            r@ == stack@.subrange(0, i as int),
        decreases stack.len() - i,
    {
        r.push(stack[i]);
        assert(r@ =~= stack@.subrange(0, i + 1));
        i = i + 1;
    }
    assert(stack@.subrange(0, i as int) =~= stack@);
    r.push(k);
    r
}

fn compose_at(assets: &Vec<(String, String)>, lang: &[char], stack: &Vec<usize>) -> (r: Result<
    Vec<char>,
    Vec<char>,
>)
    requires
        stack@.len() <= assets@.len(),
    ensures
        result_view(r) == compose_lang(asset_views(assets@), lang@, stack@),
    decreases assets@.len() - stack@.len(), 0int, 0int,
{
    match find_asset_index(assets, lang) {
        None => Ok(Vec::new()),
        Some(k) => {
            if stack_has(stack, k) || stack.len() >= assets.len() {
                Err(slice_to_vec(lang))
            } else {
                let inner = pushed(stack, k);
                let t = chars_of(assets[k].1.as_str());
                assert(asset_views(assets@)[k as int].1 == t@);
                expand_text_at(assets, t.as_slice(), &inner)
            }
        },
    }
}

fn expand_text_at(assets: &Vec<(String, String)>, t: &[char], stack: &Vec<usize>) -> (r: Result<
    Vec<char>,
    Vec<char>,
>)
    requires
        stack@.len() <= assets@.len(),
    ensures
        result_view(r) == expand_text(asset_views(assets@), t@, 0, stack@),
    decreases assets@.len() - stack@.len(), 2int, t@.len(),
{
    let ghost v = asset_views(assets@);
    let mut out: Vec<char> = Vec::new();
    let mut i: usize = 0;
    assert(out@ + Seq::empty() =~= Seq::<char>::empty());
    while i < t.len()
        invariant
            i <= t@.len(),
            stack@.len() <= assets@.len(),
            v == asset_views(assets@),
            expand_text(v, t@, 0, stack@) == prepend(out@, expand_text(v, t@, i as int, stack@)),
        decreases t@.len() - i,
    {
        match find_directive(t, i) {
            Some((f, g, e)) => {
                let names = expand_names_at(assets, slice_subrange(t, f, g), stack);
                let ghost rest = expand_text(v, t@, e as int, stack@);
                proof {
                    lemma_join_prepend(out@, result_view(names), rest);
                }
                match names {
                    Ok(mut p) => {
                        let ghost old_out = out@;
                        let ghost pv = p@;
                        out.append(&mut p);
                        assert(out@ == old_out + pv);
                        i = e;
                    },
                    Err(l) => {
                        return Err(l);
                    },
                }
            },
            None => {
                let ghost old_out = out@;
                let c = t[i];
                out.push(c);
                proof {
                    match expand_text(v, t@, i + 1, stack@) {
                        Ok(x) => {
                            assert(old_out + (seq![c] + x) =~= out@ + x);
                        },
                        Err(_) => {},
                    }
                }
                i = i + 1;
            },
        }
    }
    assert(out@ + Seq::empty() =~= out@);
    Ok(out)
}

fn expand_names_at(assets: &Vec<(String, String)>, n: &[char], stack: &Vec<usize>) -> (r: Result<
    Vec<char>,
    Vec<char>,
>)
    requires
        stack@.len() <= assets@.len(),
    ensures
        result_view(r) == expand_names(asset_views(assets@), n@, 0, 0, stack@),
    decreases assets@.len() - stack@.len(), 1int, n@.len(),
{
    let ghost v = asset_views(assets@);
    let mut out: Vec<char> = Vec::new();
    let mut start: usize = 0;
    let mut i: usize = 0;
    assert(out@ + Seq::empty() =~= Seq::<char>::empty());
    loop
        invariant
            0 <= start <= i <= n@.len(),
            stack@.len() <= assets@.len(),
            v == asset_views(assets@),
            expand_names(v, n@, 0, 0, stack@) == prepend(out@, expand_names(v, n@, start as int, i as int, stack@)),
        decreases n@.len() - i,
    {
        if i == n.len() || n[i] == ',' {
            let name = slice_subrange(n, start, i);
            let c = compose_at(assets, name, stack);
            let ghost cv = framed(result_view(c));
            let ghost rest = expand_names(v, n@, i + 1, i + 1, stack@);
            proof {
                lemma_join_prepend(out@, cv, rest);
            }
            match c {
                Ok(mut x) => {
                    let ghost old_out = out@;
                    out.push('\n');
                    out.append(&mut x);
                    out.push('\n');
                    assert(out@ =~= old_out + cv->Ok_0);
                    if i == n.len() {
                        return Ok(out);
                    }
                    start = i + 1;
                    i = i + 1;
                },
                Err(l) => {
                    return Err(l);
                },
            }
        } else {
            i = i + 1;
        }
    }
}

/// Composes the query of `language` from the assets, a list of languages and their query
/// texts: each inheritance directive, wherever it stands, becomes the composed queries of
/// the listed languages, each on lines of its own, in the order listed, and the text around
/// it stays. A language without an
/// asset has an empty query. A language that reappears among its own ancestors is an error.
pub fn compose_query(assets: &Vec<(String, String)>, language: &str) -> (r: Result<String, QueryError>)
    ensures
        match r {
            Ok(s) => composed(asset_views(assets@), language@) == Ok::<Seq<char>, Seq<char>>(s@),
            Err(QueryError::CyclicInheritance(l)) => composed(asset_views(assets@), language@)
                == Err::<Seq<char>, Seq<char>>(l@),
        },
{
    let lang = chars_of(language);
    let stack: Vec<usize> = Vec::new();
    match compose_at(assets, lang.as_slice(), &stack) {
        Ok(v) => Ok(string_of(v.as_slice())),
        Err(l) => Err(QueryError::CyclicInheritance(string_of(l.as_slice()))),
    }
}

/// The composed queries of one list of assets, each language composed at most once and then
/// served from the cache.
pub struct QueryCache {
    assets: Vec<(String, String)>,
    done: Vec<(String, String)>,
}

impl QueryCache {
    /// The assets that the cache composes from.
    pub closed spec fn assets_view(&self) -> Seq<(Seq<char>, Seq<char>)> {
        asset_views(self.assets@)
    }

    /// Every cached query is the composition of its language from the assets.
    pub closed spec fn wf(&self) -> bool {
        forall|i: int|
            0 <= i < self.done@.len() ==> composed(asset_views(self.assets@), #[trigger] self.done@[i].0@)
                == Ok::<Seq<char>, Seq<char>>(self.done@[i].1@)
    }

    /// An empty cache over `assets`.
    pub fn new(assets: Vec<(String, String)>) -> (r: QueryCache)
        ensures
            r.wf(),
            r.assets_view() == asset_views(assets@),
    {
        QueryCache { assets, done: Vec::new() }
    }

    /// The composed query of `language`: the same as composing it afresh, whether it was
    /// cached or not.
    pub fn get(&mut self, language: &str) -> (r: Result<String, QueryError>)
        requires
            old(self).wf(),
        ensures
            final(self).wf(),
            final(self).assets_view() == old(self).assets_view(),
            match r {
                Ok(s) => composed(old(self).assets_view(), language@) == Ok::<Seq<char>, Seq<char>>(s@),
                Err(QueryError::CyclicInheritance(l)) => composed(old(self).assets_view(), language@)
                    == Err::<Seq<char>, Seq<char>>(l@),
            },
    {
        let n = chars_of(language);
        let mut i: usize = 0;
        while i < self.done.len()
            invariant
                i <= self.done@.len(),
                n@ == language@,
                *self == *old(self),
                self.wf(),
            decreases self.done@.len() - i,
        {
            let k = chars_of(self.done[i].0.as_str());
            if chars_eq(k.as_slice(), n.as_slice()) {
                assert(composed(asset_views(self.assets@), self.done@[i as int].0@) == Ok::<Seq<char>, Seq<char>>(self.done@[i as int].1@));
                return Ok(self.done[i].1.clone());
            }
            i = i + 1;
        }
        let r = compose_query(&self.assets, language);
        if let Ok(s) = &r {
            let ghost old_done = self.done@;
            self.done.push((language.to_owned(), s.clone()));
            assert forall|j: int| 0 <= j < self.done@.len() implies composed(
                asset_views(self.assets@),
                #[trigger] self.done@[j].0@,
            ) == Ok::<Seq<char>, Seq<char>>(self.done@[j].1@) by {
                if j < old_done.len() {
                    assert(self.done@[j] == old_done[j]);
                }
            }
        }
        r
    }
}

} // verus!
