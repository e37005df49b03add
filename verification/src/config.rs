//! The language registry: comment-syntax descriptors and the lookup table
//! mapping file extensions to them.

use vstd::prelude::*;
use crate::Language;

verus! {

/// A language's comment syntax: an ordered list of single-line comment
/// prefixes and an ordered list of (start, end) multi-line delimiter pairs,
/// all as byte strings.
pub struct LanguageInfo {
    pub language: Language,
    pub single: Vec<Vec<u8>>,
    pub multi: Vec<(Vec<u8>, Vec<u8>)>,
}

/// The mathematical shape of a [`LanguageInfo`].
#[verifier::ext_equal]
pub struct LanguageInfoV {
    pub language: Language,
    pub single: Seq<Seq<u8>>,
    pub multi: Seq<(Seq<u8>, Seq<u8>)>,
}

impl View for LanguageInfo {
    type V = LanguageInfoV;

    open spec fn view(&self) -> LanguageInfoV {
        LanguageInfoV {
            language: self.language,
            single: self.single@.map_values(|b: Vec<u8>| b@),
            multi: self.multi@.map_values(|p: (Vec<u8>, Vec<u8>)| (p.0@, p.1@)),
        }
    }
}

/// The lookup table from file extension to language syntax, read-only for
/// the duration of a run.
pub struct Config {
    pub entries: Vec<(Vec<u8>, LanguageInfo)>,
}

impl View for Config {
    type V = Seq<(Seq<u8>, LanguageInfoV)>;

    open spec fn view(&self) -> Seq<(Seq<u8>, LanguageInfoV)> {
        self.entries@.map_values(|e: (Vec<u8>, LanguageInfo)| (e.0@, e.1@))
    }
}

/// First entry registered under extension `ext`, if any; a missing extension
/// finds nothing.
pub open spec fn spec_lookup(
    entries: Seq<(Seq<u8>, LanguageInfoV)>,
    ext: Option<Seq<u8>>,
) -> Option<LanguageInfoV>
    decreases entries.len(),
{
    match ext {
        None => None,
        Some(e) => if entries.len() == 0 {
            None
        } else if entries[0].0 == e {
            Some(entries[0].1)
        } else {
            spec_lookup(entries.drop_first(), ext)
        },
    }
}

/// The built-in table: Go and Rust, both with `//` line comments and
/// `/*`..`*/` block comments.
pub open spec fn spec_default_config() -> Seq<(Seq<u8>, LanguageInfoV)> {
    seq![
        (
            seq![0x67u8, 0x6fu8],
            LanguageInfoV {
                language: Language::Go,
                single: seq![seq![0x2fu8, 0x2fu8]],
                multi: seq![(seq![0x2fu8, 0x2au8], seq![0x2au8, 0x2fu8])],
            },
        ),
        (
            seq![0x72u8, 0x73u8],
            LanguageInfoV {
                language: Language::Rust,
                single: seq![seq![0x2fu8, 0x2fu8]],
                multi: seq![(seq![0x2fu8, 0x2au8], seq![0x2au8, 0x2fu8])],
            },
        ),
    ]
}

impl Config {
    /// Looks a file extension up in registration order; the first entry with
    /// that extension wins.
    pub fn get_by_extension(&self, ext: &Option<Vec<u8>>) -> (r: Option<&LanguageInfo>)
        ensures
            match r {
                Some(info) => spec_lookup(self@, ext_view(*ext)) == Some(info@),
                None => spec_lookup(self@, ext_view(*ext)) is None,
            },
    {
        match ext {
            None => None,
            Some(e) => {
                proof {
                    assert(self@.skip(0) =~= self@);
                }
                let mut k: usize = 0;
                while k < self.entries.len()
                    invariant
                        k <= self.entries@.len(),
                        self@.len() == self.entries@.len(),
                        ext_view(*ext) == Some(e@),
                        spec_lookup(self@, Some(e@)) == spec_lookup(
                            self@.skip(k as int),
                            Some(e@),
                        ),
                    decreases self.entries@.len() - k,
                {
                    proof {
                        assert(self@[k as int] == (self.entries@[k as int].0@, self.entries@[
                            k as int
                        ].1@));
                        assert(self@.skip(k as int)[0] == self@[k as int]);
                        assert(self@.skip(k as int).drop_first() =~= self@.skip(k as int + 1));
                    }
                    if crate::text::bytes_eq(e.as_slice(), self.entries[k].0.as_slice()) {
                        proof {
                            assert(ext_view(*ext) == Some(e@));
                            assert(self@.skip(k as int)[0].0 == e@);
                            assert(spec_lookup(self@.skip(k as int), Some(e@)) == Some(
                                self@.skip(k as int)[0].1,
                            ));
                        }
                        return Some(&self.entries[k].1);
                    }
                    k += 1;
                }
                proof {
                    assert(self@.skip(k as int) =~= Seq::<(Seq<u8>, LanguageInfoV)>::empty());
                }
                None
            },
        }
    }
}

/// The extension as specifications see it.
pub open spec fn ext_view(ext: Option<Vec<u8>>) -> Option<Seq<u8>> {
    match ext {
        None => None,
        Some(e) => Some(e@),
    }
}

impl Default for Config {
    /// The built-in table with the languages of [`spec_default_config`].
    fn default() -> (c: Config)
        ensures
            c@ == spec_default_config(),
    {
        let go = LanguageInfo {
            language: Language::Go,
            single: vec![vec![0x2fu8, 0x2fu8]],
            multi: vec![(vec![0x2fu8, 0x2au8], vec![0x2au8, 0x2fu8])],
        };
        let rust = LanguageInfo {
            language: Language::Rust,
            single: vec![vec![0x2fu8, 0x2fu8]],
            multi: vec![(vec![0x2fu8, 0x2au8], vec![0x2au8, 0x2fu8])],
        };
        let c = Config { entries: vec![(vec![0x67u8, 0x6fu8], go), (vec![0x72u8, 0x73u8], rust)] };
        proof {
            assert(c@[0] =~~= spec_default_config()[0]);
            assert(c@[1] =~~= spec_default_config()[1]);
            assert(c@ =~~= spec_default_config());
        }
        c
    }
}

} // verus!
