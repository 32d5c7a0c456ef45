use vstd::prelude::*;

use crate::text::{chars_eq, chars_of};

verus! {

/// A supported language.
#[derive(Clone, Copy, Debug, PartialEq, Eq, Structural)]
pub enum Language {
    Go,
    C,
    JavaScript,
    TypeScript,
    Jsx,
    Tsx,
    Python,
    Ruby,
}

/// The identifier by which callers name a language.
pub open spec fn language_id(l: Language) -> Seq<char> {
    match l {
        Language::Go => "go"@,
        Language::C => "c"@,
        Language::JavaScript => "js"@,
        Language::TypeScript => "ts"@,
        Language::Jsx => "jsx"@,
        Language::Tsx => "tsx"@,
        Language::Python => "py"@,
        Language::Ruby => "rb"@,
    }
}

/// The name of the directory that holds a language's queries.
pub open spec fn query_dir(l: Language) -> Seq<char> {
    match l {
        Language::Go => "go"@,
        Language::C => "c"@,
        Language::JavaScript => "javascript"@,
        Language::TypeScript => "typescript"@,
        Language::Jsx => "jsx"@,
        Language::Tsx => "tsx"@,
        Language::Python => "python"@,
        Language::Ruby => "ruby"@,
    }
}

fn is_id(id: &Vec<char>, w: &str) -> (r: bool)
    ensures
        r == (id@ == w@),
{
    let v = chars_of(w);
    chars_eq(id.as_slice(), v.as_slice())
}

impl Language {
    /// The language of an identifier, if it names one.
    pub fn from_id(id: &str) -> (r: Option<Language>)
        ensures
            match r {
                Some(l) => language_id(l) == id@,
                None => forall|l: Language| language_id(l) != id@,
            },
    {
        let v = chars_of(id);
        if is_id(&v, "go") {
            Some(Language::Go)
        } else if is_id(&v, "c") {
            Some(Language::C)
        } else if is_id(&v, "js") {
            Some(Language::JavaScript)
        } else if is_id(&v, "ts") {
            Some(Language::TypeScript)
        } else if is_id(&v, "jsx") {
            Some(Language::Jsx)
        } else if is_id(&v, "tsx") {
            Some(Language::Tsx)
        } else if is_id(&v, "py") {
            Some(Language::Python)
        } else if is_id(&v, "rb") {
            Some(Language::Ruby)
        } else {
            None
        }
    }

    /// The name of the directory that holds the language's queries.
    pub fn query_dir(&self) -> (r: &'static str)
        ensures
            r@ == query_dir(*self),
    {
        match self {
            Language::Go => "go",
            Language::C => "c",
            Language::JavaScript => "javascript",
            Language::TypeScript => "typescript",
            Language::Jsx => "jsx",
            Language::Tsx => "tsx",
            Language::Python => "python",
            Language::Ruby => "ruby",
        }
    }
}

} // verus!
