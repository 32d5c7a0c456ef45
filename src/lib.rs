use vstd::prelude::*;

pub mod color;
pub mod language;
pub mod query;
pub mod render;
mod text;
pub mod theme;
pub mod value;

verus! {

/// Options of a highlight call.
#[derive(Debug)]
pub struct Options {
    /// The name of the theme; `default` when absent.
    pub theme: Option<String>,
}

impl Options {
    /// The name of the theme to use.
    pub fn theme_name(&self) -> (r: String)
        ensures
            r@ == match self.theme {
                Some(t) => t@,
                None => "default"@,
            },
    {
        match &self.theme {
            Some(t) => t.clone(),
            None => "default".to_owned(),
        }
    }
}

} // verus!
