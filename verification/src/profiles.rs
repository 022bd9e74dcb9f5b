//! Compilation profiles: the distinct compiler settings a project compiles
//! with, each identified by the hash of its serialized settings.

use crate::hashing::{hex_lower, md5_hex, spec_md5};
use crate::version::{req_view, VersionReq};
use vstd::prelude::*;
use vstd::utf8::encode_utf8;

verus! {

/// Settings of a compiler, as the profiles use them.
pub trait CompilerSettings: Sized {
    /// Restrictions that a source places on the settings.
    type Restrictions;

    /// Whether the settings meet the restrictions, as
    /// [`CompilerSettings::satisfies_restrictions`] tells.
    spec fn meets(&self, restrictions: &Self::Restrictions) -> bool;

    /// The settings changed to meet the restrictions, as
    /// [`CompilerSettings::apply_restrictions`] gives them.
    spec fn restricted(&self, restrictions: &Self::Restrictions) -> Self;

    /// Whether the settings meet the restrictions.
    fn satisfies_restrictions(&self, restrictions: &Self::Restrictions) -> (r: bool)
        ensures
            r == self.meets(restrictions),
    ;

    /// The settings changed to meet the restrictions.
    fn apply_restrictions(&self, restrictions: &Self::Restrictions) -> (r: Self)
        ensures
            r == self.restricted(restrictions),
    ;

    /// The JSON text of the settings, as [`CompilerSettings::to_json`] gives it.
    spec fn json_text(&self) -> String;

    /// The settings serialized as JSON.
    fn to_json(&self) -> (r: String)
        ensures
            r@ == self.json_text()@,
    ;
}

/// The id of a profile with the given settings: the hex MD5 of their JSON text.
pub open spec fn profile_id<S: CompilerSettings>(settings: S) -> Seq<char> {
    hex_lower(spec_md5(encode_utf8(settings.json_text()@)))
}

/// Restrictions on compiler settings that can be combined.
pub trait CompilerSettingsRestrictions: Copy {
    /// The restrictions of both, if they can hold together, as
    /// [`CompilerSettingsRestrictions::merge`] gives them.
    spec fn merged(self, other: Self) -> Option<Self>;

    /// The restrictions of both, if they can hold together.
    fn merge(self, other: Self) -> (r: Option<Self>)
        ensures
            r == self.merged(other),
    ;
}

/// Restrictions together with a requirement on the compiler version.
#[derive(Clone, Debug)]
pub struct RestrictionsWithVersion<T> {
    pub version: Option<VersionReq>,
    pub restrictions: T,
}

impl<T: CompilerSettingsRestrictions> RestrictionsWithVersion<T> {
    /// Adds the version requirement of `other` to this one (its comparators
    /// appended, or taken where this one has none); the restrictions are
    /// merged and the merge is discarded, leaving them as they were. Nothing
    /// documents or tests whether the restrictions should take the merge; they
    /// are kept as the merge call leaves them, unchanged.
    pub fn merge(&mut self, other: Self)
        ensures
            final(self).restrictions == old(self).restrictions,
            match (old(self).version, other.version) {
                (Some(a), Some(b)) => final(self).version matches Some(x) && req_view(x) == req_view(a) + req_view(b),
                (None, Some(b)) => final(self).version matches Some(x) && req_view(x) == req_view(b),
                (_, None) => final(self).version == old(self).version,
            },
    {
        let RestrictionsWithVersion { version, restrictions } = other;
        if let Some(v) = version {
            match self.version.take() {
                Some(mut mine) => {
                    let ghost a = req_view(mine);
                    let ghost b = req_view(v);
                    let mut extra = v.comparators;
                    mine.comparators.append(&mut extra);
                    assert(req_view(mine) =~= a + b);
                    self.version = Some(mine);
                },
                None => {
                    self.version = Some(v);
                },
            }
        }
        let _ = self.restrictions.merge(restrictions);
    }
}

/// A set of settings a project compiles with, and its id.
#[derive(Clone, Debug, PartialEq, Eq)]
pub struct CompilationProfile<S> {
    pub settings: S,
    pub id: String,
}

impl<S: CompilerSettings> CompilationProfile<S> {
    /// The profile of settings whose JSON serialization is `json`: its id is
    /// the hex MD5 of that text.
    pub fn with_json(settings: S, json: &str) -> (r: Self)
        ensures
            r.settings == settings,
            r.id@ == hex_lower(spec_md5(encode_utf8(json@))),
    {
        CompilationProfile { settings, id: md5_hex(json) }
    }

    /// The profile of the given settings, identified by the hash of their
    /// serialization.
    pub fn new(settings: S) -> (r: Self)
        ensures
            r.settings == settings,
            r.id@ == profile_id(settings),
    {
        let json = settings.to_json();
        Self::with_json(settings, json.as_str())
    }
}

/// The position of the first `true`.
pub fn first_match(flags: &[bool]) -> (r: Option<usize>)
    ensures
        match r {
            Some(i) => i < flags@.len() && flags@[i as int] && forall|j: int| 0 <= j < i ==> !flags@[j],
            None => forall|i: int| 0 <= i < flags@.len() ==> !flags@[i],
        },
{
    let mut i: usize = 0;
    while i < flags.len()
        invariant
            i <= flags@.len(),
            forall|j: int| 0 <= j < i ==> !flags@[j],
        decreases flags@.len() - i,
    {
        if flags[i] {
            return Some(i);
        }
        i = i + 1;
    }
    None
}

/// The profiles of a project, in the order they were added.
#[derive(Debug)]
pub struct CompilationProfiles<S> {
    profiles: Vec<CompilationProfile<S>>,
}

impl<S: CompilerSettings> CompilationProfiles<S> {
    /// The profiles.
    pub closed spec fn list(&self) -> Seq<CompilationProfile<S>> {
        self.profiles@
    }

    /// No profiles yet.
    pub fn empty() -> (r: Self)
        ensures
            r.list().len() == 0,
    {
        CompilationProfiles { profiles: Vec::new() }
    }

    /// The profiles of a project: one, for its settings.
    pub fn new(settings: S) -> (r: Self)
        ensures
            r.list().len() == 1,
            r.list()[0].settings == settings,
            r.list()[0].id@ == profile_id(settings),
    {
        let mut p = Self::empty();
        p.add(settings);
        p
    }

    /// Adds a profile for the settings, returning its index.
    pub fn add(&mut self, settings: S) -> (r: usize)
        requires
            old(self).list().len() < usize::MAX,
        ensures
            final(self).list().len() == old(self).list().len() + 1,
            final(self).list().drop_last() == old(self).list(),
            final(self).list().last().settings == settings,
            final(self).list().last().id@ == profile_id(settings),
            r == old(self).list().len(),
    {
        self.profiles.push(CompilationProfile::new(settings));
        assert(self.profiles@.drop_last() =~= old(self).profiles@);
        self.profiles.len() - 1
    }

    /// The index of the first profile whose settings meet the restrictions;
    /// where none does, a profile is added with the first profile's settings
    /// changed to meet them.
    pub fn find_or_create(&mut self, restrictions: &S::Restrictions) -> (r: usize)
        requires
            old(self).list().len() > 0,
            old(self).list().len() < usize::MAX,
        ensures
            (exists|i: int| 0 <= i < old(self).list().len() && #[trigger] old(self).list()[i].settings.meets(restrictions)) ==> {
                &&& final(self).list() == old(self).list()
                &&& r < old(self).list().len()
                &&& old(self).list()[r as int].settings.meets(restrictions)
                &&& forall|j: int| 0 <= j < r ==> !(#[trigger] old(self).list()[j].settings.meets(restrictions))
            },
            !(exists|i: int| 0 <= i < old(self).list().len() && #[trigger] old(self).list()[i].settings.meets(restrictions)) ==> {
                &&& r == old(self).list().len()
                &&& final(self).list().len() == old(self).list().len() + 1
                &&& final(self).list().drop_last() == old(self).list()
                &&& final(self).list().last().settings == old(self).list()[0].settings.restricted(restrictions)
                &&& final(self).list().last().id@ == profile_id(old(self).list()[0].settings.restricted(restrictions))
            },
    {
        let mut flags: Vec<bool> = Vec::new();
        let mut i: usize = 0;
        while i < self.profiles.len()
            invariant
                i <= self.profiles@.len(),
                flags@.len() == i,
                forall|k: int| 0 <= k < i ==> #[trigger] flags@[k] == self.profiles@[k].settings.meets(restrictions),
            decreases self.profiles@.len() - i,
        {
            flags.push(self.profiles[i].settings.satisfies_restrictions(restrictions));
            i = i + 1;
        }
        match first_match(flags.as_slice()) {
            Some(idx) => {
                assert(flags@[idx as int]);
                assert forall|j: int| 0 <= j < idx implies !(#[trigger] self.list()[j].settings.meets(restrictions)) by {
                    assert(!flags@[j]);
                }
                idx
            },
            None => {
                assert forall|k: int| 0 <= k < self.profiles@.len() implies !(#[trigger] self.list()[k].settings.meets(restrictions)) by {
                    assert(!flags@[k]);
                }
                let s = self.profiles[0].settings.apply_restrictions(restrictions);
                self.add(s)
            },
        }
    }

    /// The profile at an index.
    pub fn get(&self, idx: usize) -> (r: &CompilationProfile<S>)
        requires
            idx < self.list().len(),
        ensures
            *r == self.list()[idx as int],
    {
        &self.profiles[idx]
    }
}

} // verus!
