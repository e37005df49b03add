//! Counts blank, comment, and code lines across source files, attributing
//! each file to a language by its extension and aggregating per-run totals.

pub mod classify;
pub mod config;
pub mod detail;
pub mod engine;
pub mod error;
pub mod paths;
pub mod text;

use vstd::prelude::*;
use vstd::string::StrSliceExecFns;

verus! {

/// A language the default configuration knows how to classify.
#[derive(Clone, Copy, Debug, PartialEq, Eq, Hash)]
pub enum Language {
    Go,
    Rust,
}

impl Language {
    /// The display name of this language, as a sequence of characters.
    pub open spec fn spec_name(self) -> Seq<char> {
        match self {
            Language::Go => seq!['G', 'o'],
            Language::Rust => seq!['R', 'u', 's', 't'],
        }
    }

    /// The language a display name or file extension denotes, if any.
    pub open spec fn spec_from(s: Seq<char>) -> Option<Language> {
        if s == seq!['G', 'o'] || s == seq!['g', 'o'] {
            Some(Language::Go)
        } else if s == seq!['R', 'u', 's', 't'] || s == seq!['r', 's'] {
            Some(Language::Rust)
        } else {
            None
        }
    }

    /// The display name of this language.
    pub fn as_str(&self) -> (r: &'static str)
        ensures
            r@ == self.spec_name(),
    {
        match self {
            Language::Go => {
                let r = "Go";
                proof {
                    reveal_strlit("Go");
                    assert(r@ =~= seq!['G', 'o']);
                }
                r
            },
            Language::Rust => {
                let r = "Rust";
                proof {
                    reveal_strlit("Rust");
                    assert(r@ =~= seq!['R', 'u', 's', 't']);
                }
                r
            },
        }
    }

    /// Recognises a language from its display name or file extension.
    pub fn from(token: &str) -> (r: Option<Language>)
        ensures
            r == Language::spec_from(token@),
    {
        let n = token.unicode_len();
        if n == 2 {
            let c0 = token.get_char(0);
            let c1 = token.get_char(1);
            if c0 == 'G' && c1 == 'o' {
                proof {
                    assert(token@ =~= seq!['G', 'o']);
                }
                Some(Language::Go)
            } else if c0 == 'g' && c1 == 'o' {
                proof {
                    assert(token@ =~= seq!['g', 'o']);
                }
                Some(Language::Go)
            } else if c0 == 'r' && c1 == 's' {
                proof {
                    assert(token@ =~= seq!['r', 's']);
                }
                Some(Language::Rust)
            } else {
                None
            }
        } else if n == 4 {
            let c0 = token.get_char(0);
            let c1 = token.get_char(1);
            let c2 = token.get_char(2);
            let c3 = token.get_char(3);
            if c0 == 'R' && c1 == 'u' && c2 == 's' && c3 == 't' {
                proof {
                    assert(token@ =~= seq!['R', 'u', 's', 't']);
                }
                Some(Language::Rust)
            } else {
                None
            }
        } else {
            None
        }
    }
}

} // verus!
