use foundry_compilers::buildinfo::{Language, SolcLanguage};
use foundry_compilers::multi::{
    guess_lang, merged_restrictions, GuessLanguageError, MultiCompilerLanguage,
    MultiCompilerRestrictions, VyperLanguage,
};
use foundry_compilers::paths::path_extension;
use foundry_compilers::profiles::CompilerSettingsRestrictions;

#[test]
fn languages_are_told_from_extensions() {
    assert_eq!(guess_lang("src/A.sol"), Ok(MultiCompilerLanguage::Solc(SolcLanguage::Solidity)));
    assert_eq!(guess_lang("src/A.yul"), Ok(MultiCompilerLanguage::Solc(SolcLanguage::Yul)));
    assert_eq!(guess_lang("src/A.vy"), Ok(MultiCompilerLanguage::Vyper(VyperLanguage)));
    assert_eq!(guess_lang("src/A.vyi"), Ok(MultiCompilerLanguage::Vyper(VyperLanguage)));
    assert_eq!(guess_lang("src/A.txt"), Err(GuessLanguageError::UnexpectedExtension));
    assert_eq!(guess_lang("src/Makefile"), Err(GuessLanguageError::NoExtension));
    assert_eq!(guess_lang("src/.sol"), Err(GuessLanguageError::NoExtension));
    assert_eq!(guess_lang(".."), Err(GuessLanguageError::NoExtension));
    assert_eq!(GuessLanguageError::NoExtension.message(), "failed to resolve file extension");
    assert_eq!(GuessLanguageError::UnexpectedExtension.message(), "unexpected file extension");
}

#[test]
fn extensions_follow_the_last_dot() {
    assert_eq!(path_extension("a/b.t.sol"), Some("sol".to_string()));
    assert_eq!(path_extension("a/b."), Some(String::new()));
    assert_eq!(path_extension("a/.hidden"), None);
    assert_eq!(path_extension("a/b.sol/"), Some("sol".to_string()));
    assert_eq!(path_extension("/"), None);
}

#[test]
fn language_kinds_and_names() {
    let sol: MultiCompilerLanguage = SolcLanguage::Solidity.into();
    let vy: MultiCompilerLanguage = VyperLanguage.into();
    assert!(sol.is_solc() && !sol.is_vyper());
    assert!(vy.is_vyper() && !vy.is_solc());
    assert_eq!(sol.name(), "Solidity");
    assert_eq!(MultiCompilerLanguage::Solc(SolcLanguage::Yul).name(), "Yul");
    assert_eq!(vy.name(), "Vyper");
    assert_eq!(MultiCompilerLanguage::file_extensions(), vec!["sol", "vy", "vyi", "yul"]);
    assert_eq!(VyperLanguage::file_extensions(), vec!["vy", "vyi"]);
}

#[derive(Clone, Copy, Debug, PartialEq)]
struct AtMost(u32);

impl CompilerSettingsRestrictions for AtMost {
    fn merged(self, other: Self) -> Option<Self> {
        self.merge(other)
    }
    fn merge(self, other: Self) -> Option<Self> {
        if self.0 == other.0 { Some(self) } else { None }
    }
}

#[test]
fn restrictions_merge_only_where_both_do() {
    let a = MultiCompilerRestrictions { solc: AtMost(1), vyper: AtMost(2) };
    let b = MultiCompilerRestrictions { solc: AtMost(1), vyper: AtMost(2) };
    let m = a.merge(b).unwrap();
    assert_eq!((m.solc, m.vyper), (AtMost(1), AtMost(2)));
    let c = MultiCompilerRestrictions { solc: AtMost(1), vyper: AtMost(3) };
    assert!(a.merge(c).is_none());
    let d = MultiCompilerRestrictions { solc: AtMost(5), vyper: AtMost(2) };
    assert!(a.merge(d).is_none());
    assert!(merged_restrictions(Some(1u8), None::<u8>).is_none());
    assert_eq!(merged_restrictions(Some(1u8), Some(2u8)).map(|r| (r.solc, r.vyper)), Some((1, 2)));
}
