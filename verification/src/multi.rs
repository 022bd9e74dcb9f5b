//! Compiling Solidity and Vyper sources together: the languages, how a source
//! file's language is told from its extension, and combined restrictions.

use crate::buildinfo::{Language, SolcLanguage};
use crate::paths::{file_extension, path_extension};
use crate::profiles::CompilerSettingsRestrictions;
use crate::text::owned;
use vstd::prelude::*;

verus! {

/// The language of Vyper sources.
#[derive(Clone, Copy, Debug, Default, PartialEq, Eq, Hash, Structural)]
pub struct VyperLanguage;

impl Language for VyperLanguage {
    fn file_extensions() -> (r: Vec<String>)
        ensures
            r@.map_values(|e: String| e@) == seq!["vy"@, "vyi"@],
    {
        let mut v = Vec::new();
        v.push(owned("vy"));
        v.push(owned("vyi"));
        assert(v@.map_values(|e: String| e@) =~= seq!["vy"@, "vyi"@]);
        v
    }
}

/// Languages supported by the compiler of Solidity and Vyper sources.
#[derive(Clone, Copy, Debug, PartialEq, Eq, Hash, Structural)]
pub enum MultiCompilerLanguage {
    Solc(SolcLanguage),
    Vyper(VyperLanguage),
}

impl MultiCompilerLanguage {
    /// Whether this is Vyper.
    pub fn is_vyper(&self) -> (r: bool)
        ensures
            r == (*self is Vyper),
    {
        match self {
            MultiCompilerLanguage::Vyper(_) => true,
            _ => false,
        }
    }

    /// Whether this is a language of solc.
    pub fn is_solc(&self) -> (r: bool)
        ensures
            r == (*self is Solc),
    {
        match self {
            MultiCompilerLanguage::Solc(_) => true,
            _ => false,
        }
    }

    /// The name of the language: `Solidity`, `Yul` or `Vyper`.
    pub fn name(&self) -> (r: String)
        ensures
            r@ == multi_language_name(*self),
    {
        match self {
            MultiCompilerLanguage::Solc(SolcLanguage::Solidity) => owned("Solidity"),
            MultiCompilerLanguage::Solc(SolcLanguage::Yul) => owned("Yul"),
            MultiCompilerLanguage::Vyper(_) => owned("Vyper"),
        }
    }
}

/// The name of a language.
pub open spec fn multi_language_name(l: MultiCompilerLanguage) -> Seq<char> {
    match l {
        MultiCompilerLanguage::Solc(SolcLanguage::Solidity) => "Solidity"@,
        MultiCompilerLanguage::Solc(SolcLanguage::Yul) => "Yul"@,
        MultiCompilerLanguage::Vyper(_) => "Vyper"@,
    }
}

impl Language for MultiCompilerLanguage {
    fn file_extensions() -> (r: Vec<String>)
        ensures
            r@.map_values(|e: String| e@) == seq!["sol"@, "vy"@, "vyi"@, "yul"@],
    {
        let mut v = Vec::new();
        v.push(owned("sol"));
        v.push(owned("vy"));
        v.push(owned("vyi"));
        v.push(owned("yul"));
        assert(v@.map_values(|e: String| e@) =~= seq!["sol"@, "vy"@, "vyi"@, "yul"@]);
        v
    }
}

impl From<SolcLanguage> for MultiCompilerLanguage {
    fn from(language: SolcLanguage) -> (r: Self) {
        MultiCompilerLanguage::Solc(language)
    }
}

impl vstd::std_specs::convert::FromSpecImpl<SolcLanguage> for MultiCompilerLanguage {
    open spec fn obeys_from_spec() -> bool {
        true
    }

    open spec fn from_spec(language: SolcLanguage) -> Self {
        MultiCompilerLanguage::Solc(language)
    }
}

impl From<VyperLanguage> for MultiCompilerLanguage {
    fn from(language: VyperLanguage) -> (r: Self) {
        MultiCompilerLanguage::Vyper(language)
    }
}

impl vstd::std_specs::convert::FromSpecImpl<VyperLanguage> for MultiCompilerLanguage {
    open spec fn obeys_from_spec() -> bool {
        true
    }

    open spec fn from_spec(language: VyperLanguage) -> Self {
        MultiCompilerLanguage::Vyper(language)
    }
}

/// The language of a source file with the given extension: `sol` and `yul`
/// are solc's, `vy` and `vyi` Vyper's.
pub open spec fn language_of_extension(ext: Seq<char>) -> Option<MultiCompilerLanguage> {
    if ext == "sol"@ {
        Some(MultiCompilerLanguage::Solc(SolcLanguage::Solidity))
    } else if ext == "yul"@ {
        Some(MultiCompilerLanguage::Solc(SolcLanguage::Yul))
    } else if ext == "vy"@ || ext == "vyi"@ {
        Some(MultiCompilerLanguage::Vyper(VyperLanguage))
    } else {
        None
    }
}

/// Why the language of a file could not be told.
#[derive(Clone, Copy, Debug, PartialEq, Eq, Structural)]
pub enum GuessLanguageError {
    /// The path has no file extension.
    NoExtension,
    /// The extension is not one of a supported language.
    UnexpectedExtension,
}

impl GuessLanguageError {
    /// The message of the error.
    pub fn message(&self) -> (r: String)
        ensures
            r@ == match *self {
                GuessLanguageError::NoExtension => "failed to resolve file extension"@,
                GuessLanguageError::UnexpectedExtension => "unexpected file extension"@,
            },
    {
        match self {
            GuessLanguageError::NoExtension => owned("failed to resolve file extension"),
            GuessLanguageError::UnexpectedExtension => owned("unexpected file extension"),
        }
    }
}

/// The language of a source file, told from its extension.
pub fn guess_lang(path: &str) -> (r: Result<MultiCompilerLanguage, GuessLanguageError>)
    ensures
        match file_extension(path@) {
            None => r == Err::<MultiCompilerLanguage, GuessLanguageError>(GuessLanguageError::NoExtension),
            Some(ext) => match language_of_extension(ext) {
                Some(l) => r == Ok::<MultiCompilerLanguage, GuessLanguageError>(l),
                None => r == Err::<MultiCompilerLanguage, GuessLanguageError>(GuessLanguageError::UnexpectedExtension),
            },
        },
{
    let ext = match path_extension(path) {
        Some(e) => e,
        None => {
            return Err(GuessLanguageError::NoExtension);
        },
    };
    if crate::order::same_str(ext.as_str(), "sol") {
        Ok(MultiCompilerLanguage::Solc(SolcLanguage::Solidity))
    } else if crate::order::same_str(ext.as_str(), "yul") {
        Ok(MultiCompilerLanguage::Solc(SolcLanguage::Yul))
    } else if crate::order::same_str(ext.as_str(), "vy") || crate::order::same_str(ext.as_str(), "vyi") {
        Ok(MultiCompilerLanguage::Vyper(VyperLanguage))
    } else {
        Err(GuessLanguageError::UnexpectedExtension)
    }
}

/// Restrictions on the settings of both compilers.
#[derive(Clone, Copy, Debug, Default)]
pub struct MultiCompilerRestrictions<S, V> {
    pub solc: S,
    pub vyper: V,
}

/// The combined restrictions, given the merges of each compiler's: there are
/// some only where both merges gave some.
pub fn merged_restrictions<S, V>(solc: Option<S>, vyper: Option<V>) -> (r: Option<MultiCompilerRestrictions<S, V>>)
    ensures
        match (solc, vyper) {
            (Some(s), Some(v)) => r == Some(MultiCompilerRestrictions { solc: s, vyper: v }),
            _ => r is None,
        },
{
    match (solc, vyper) {
        (Some(s), Some(v)) => Some(MultiCompilerRestrictions { solc: s, vyper: v }),
        _ => None,
    }
}

impl<S: CompilerSettingsRestrictions, V: CompilerSettingsRestrictions> CompilerSettingsRestrictions for MultiCompilerRestrictions<S, V> {
    /// Both compilers' restrictions merged; none where either cannot be.
    fn merge(self, other: Self) -> Option<Self> {
        match self.solc.merge(other.solc) {
            Some(s) => merged_restrictions(Some(s), self.vyper.merge(other.vyper)),
            None => None,
        }
    }

    /// Some where both compilers' restrictions merge, of both merges.
    open spec fn merged(self, other: Self) -> Option<Self> {
        match (self.solc.merged(other.solc), self.vyper.merged(other.vyper)) {
            (Some(s), Some(v)) => Some(MultiCompilerRestrictions { solc: s, vyper: v }),
            _ => None,
        }
    }
}

} // verus!
