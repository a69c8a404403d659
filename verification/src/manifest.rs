//! The manifest: the aggregate index of everything the installed extensions
//! provide, one name-keyed category per kind of content.
use crate::nmap::{Dup, NamedMap, Rec};
use crate::text::{opt_string_eq, vec_string_eq, dup_string_vec};
use vstd::prelude::*;

verus! {

/// One installed extension: its id and version.
pub struct ExtensionEntry {
    pub id: String,
    pub version: String,
}

/// Abstract value of an extension entry.
#[verifier::ext_equal]
pub struct ExtensionEntryV {
    pub id: Seq<char>,
    pub version: Seq<char>,
}

impl View for ExtensionEntry {
    type V = ExtensionEntryV;

    open spec fn view(&self) -> ExtensionEntryV {
        ExtensionEntryV { id: self.id@, version: self.version@ }
    }
}

impl Dup for ExtensionEntry {
    fn dup(&self) -> (r: Self)
        ensures
            r@ == self@,
    {
        ExtensionEntry { id: self.id.clone(), version: self.version.clone() }
    }
}

impl Rec for ExtensionEntry {
    open spec fn vowner(v: ExtensionEntryV) -> Seq<char> {
        v.id
    }

    fn owner(&self) -> (r: &String)
        ensures
            r@ == Self::vowner(self@),
    {
        &self.id
    }

    fn data_eq(&self, other: &Self) -> (r: bool)
        ensures
            r == (self@ == other@),
    {
        let r = String::eq(&self.id, &other.id) && String::eq(&self.version, &other.version);
        proof {
            if self.id@ == other.id@ && self.version@ == other.version@ {
                assert(self@ =~= other@);
            }
        }
        r
    }
}

/// A compiled grammar an extension provides, by path under its root.
pub struct GrammarManifestEntry {
    pub extension: String,
    pub path: String,
}

/// Abstract value of a grammar entry.
#[verifier::ext_equal]
pub struct GrammarEntryV {
    pub extension: Seq<char>,
    pub path: Seq<char>,
}

impl View for GrammarManifestEntry {
    type V = GrammarEntryV;

    open spec fn view(&self) -> GrammarEntryV {
        GrammarEntryV { extension: self.extension@, path: self.path@ }
    }
}

impl Dup for GrammarManifestEntry {
    fn dup(&self) -> (r: Self)
        ensures
            r@ == self@,
    {
        GrammarManifestEntry { extension: self.extension.clone(), path: self.path.clone() }
    }
}

impl Rec for GrammarManifestEntry {
    open spec fn vowner(v: GrammarEntryV) -> Seq<char> {
        v.extension
    }

    fn owner(&self) -> (r: &String)
        ensures
            r@ == Self::vowner(self@),
    {
        &self.extension
    }

    fn data_eq(&self, other: &Self) -> (r: bool)
        ensures
            r == (self@ == other@),
    {
        let r = String::eq(&self.extension, &other.extension) && String::eq(
            &self.path,
            &other.path,
        );
        proof {
            if self.extension@ == other.extension@ && self.path@ == other.path@ {
                assert(self@ =~= other@);
            }
        }
        r
    }
}

/// The rule that associates a file with a language.
pub struct LanguageMatcher {
    pub path_suffixes: Vec<String>,
    pub first_line_pattern: Option<String>,
}

/// Abstract value of a matcher.
#[verifier::ext_equal]
pub struct LanguageMatcherV {
    pub path_suffixes: Seq<Seq<char>>,
    pub first_line_pattern: Option<Seq<char>>,
}

impl View for LanguageMatcher {
    type V = LanguageMatcherV;

    open spec fn view(&self) -> LanguageMatcherV {
        LanguageMatcherV {
            path_suffixes: self.path_suffixes.deep_view(),
            first_line_pattern: match self.first_line_pattern {
                Some(p) => Some(p@),
                None => None,
            },
        }
    }
}

/// A language an extension provides.
pub struct LanguageManifestEntry {
    pub extension: String,
    pub path: String,
    pub grammar: Option<String>,
    pub matcher: LanguageMatcher,
}

/// Abstract value of a language entry.
#[verifier::ext_equal]
pub struct LanguageEntryV {
    pub extension: Seq<char>,
    pub path: Seq<char>,
    pub grammar: Option<Seq<char>>,
    pub matcher: LanguageMatcherV,
}

impl View for LanguageManifestEntry {
    type V = LanguageEntryV;

    open spec fn view(&self) -> LanguageEntryV {
        LanguageEntryV {
            extension: self.extension@,
            path: self.path@,
            grammar: match self.grammar {
                Some(g) => Some(g@),
                None => None,
            },
            matcher: self.matcher@,
        }
    }
}

/// A copy of an optional string with the same view.
pub fn dup_opt_string(v: &Option<String>) -> (r: Option<String>)
    ensures
        match (v, &r) {
            (Some(x), Some(y)) => x@ == y@,
            (None, None) => true,
            _ => false,
        },
{
    match v {
        Some(x) => Some(x.clone()),
        None => None,
    }
}

impl Dup for LanguageManifestEntry {
    fn dup(&self) -> (r: Self)
        ensures
            r@ == self@,
    {
        let r = LanguageManifestEntry {
            extension: self.extension.clone(),
            path: self.path.clone(),
            grammar: dup_opt_string(&self.grammar),
            matcher: LanguageMatcher {
                path_suffixes: dup_string_vec(&self.matcher.path_suffixes),
                first_line_pattern: dup_opt_string(&self.matcher.first_line_pattern),
            },
        };
        proof {
            assert(r@ =~= self@);
        }
        r
    }
}

impl Rec for LanguageManifestEntry {
    open spec fn vowner(v: LanguageEntryV) -> Seq<char> {
        v.extension
    }

    fn owner(&self) -> (r: &String)
        ensures
            r@ == Self::vowner(self@),
    {
        &self.extension
    }

    fn data_eq(&self, other: &Self) -> (r: bool)
        ensures
            r == (self@ == other@),
    {
        let r = String::eq(&self.extension, &other.extension) && String::eq(
            &self.path,
            &other.path,
        ) && opt_string_eq(&self.grammar, &other.grammar) && vec_string_eq(
            &self.matcher.path_suffixes,
            &other.matcher.path_suffixes,
        ) && opt_string_eq(&self.matcher.first_line_pattern, &other.matcher.first_line_pattern);
        proof {
            if r {
                assert(self@ =~= other@);
            } else {
                assert(self@ != other@);
            }
        }
        r
    }
}

/// A theme variant an extension provides, by the path of its family file.
pub struct ThemeManifestEntry {
    pub extension: String,
    pub path: String,
}

/// Abstract value of a theme entry.
#[verifier::ext_equal]
pub struct ThemeEntryV {
    pub extension: Seq<char>,
    pub path: Seq<char>,
}

impl View for ThemeManifestEntry {
    type V = ThemeEntryV;

    open spec fn view(&self) -> ThemeEntryV {
        ThemeEntryV { extension: self.extension@, path: self.path@ }
    }
}

impl Dup for ThemeManifestEntry {
    fn dup(&self) -> (r: Self)
        ensures
            r@ == self@,
    {
        ThemeManifestEntry { extension: self.extension.clone(), path: self.path.clone() }
    }
}

impl Rec for ThemeManifestEntry {
    open spec fn vowner(v: ThemeEntryV) -> Seq<char> {
        v.extension
    }

    fn owner(&self) -> (r: &String)
        ensures
            r@ == Self::vowner(self@),
    {
        &self.extension
    }

    fn data_eq(&self, other: &Self) -> (r: bool)
        ensures
            r == (self@ == other@),
    {
        let r = String::eq(&self.extension, &other.extension) && String::eq(
            &self.path,
            &other.path,
        );
        proof {
            if self.extension@ == other.extension@ && self.path@ == other.path@ {
                assert(self@ =~= other@);
            }
        }
        r
    }
}

/// A language server an extension provides: its directory and target language.
pub struct LanguageServerManifestEntry {
    pub extension: String,
    pub path: String,
    pub language: String,
}

/// Abstract value of a language-server entry.
#[verifier::ext_equal]
pub struct LanguageServerEntryV {
    pub extension: Seq<char>,
    pub path: Seq<char>,
    pub language: Seq<char>,
}

impl View for LanguageServerManifestEntry {
    type V = LanguageServerEntryV;

    open spec fn view(&self) -> LanguageServerEntryV {
        LanguageServerEntryV {
            extension: self.extension@,
            path: self.path@,
            language: self.language@,
        }
    }
}

impl Dup for LanguageServerManifestEntry {
    fn dup(&self) -> (r: Self)
        ensures
            r@ == self@,
    {
        LanguageServerManifestEntry {
            extension: self.extension.clone(),
            path: self.path.clone(),
            language: self.language.clone(),
        }
    }
}

impl Rec for LanguageServerManifestEntry {
    open spec fn vowner(v: LanguageServerEntryV) -> Seq<char> {
        v.extension
    }

    fn owner(&self) -> (r: &String)
        ensures
            r@ == Self::vowner(self@),
    {
        &self.extension
    }

    fn data_eq(&self, other: &Self) -> (r: bool)
        ensures
            r == (self@ == other@),
    {
        let r = String::eq(&self.extension, &other.extension) && String::eq(
            &self.path,
            &other.path,
        ) && String::eq(&self.language, &other.language);
        proof {
            if r {
                assert(self@ =~= other@);
            }
        }
        r
    }
}

/// The aggregate index of installed extension content.
pub struct Manifest {
    pub extensions: NamedMap<ExtensionEntry>,
    pub grammars: NamedMap<GrammarManifestEntry>,
    pub languages: NamedMap<LanguageManifestEntry>,
    pub themes: NamedMap<ThemeManifestEntry>,
    pub language_servers: NamedMap<LanguageServerManifestEntry>,
}

/// Abstract value of a manifest: one map per category.
#[verifier::ext_equal]
pub struct ManifestV {
    pub extensions: Map<Seq<char>, ExtensionEntryV>,
    pub grammars: Map<Seq<char>, GrammarEntryV>,
    pub languages: Map<Seq<char>, LanguageEntryV>,
    pub themes: Map<Seq<char>, ThemeEntryV>,
    pub language_servers: Map<Seq<char>, LanguageServerEntryV>,
}

impl View for Manifest {
    type V = ManifestV;

    open spec fn view(&self) -> ManifestV {
        ManifestV {
            extensions: self.extensions@,
            grammars: self.grammars@,
            languages: self.languages@,
            themes: self.themes@,
            language_servers: self.language_servers@,
        }
    }
}

impl Manifest {
    /// All five categories are well-formed.
    pub open spec fn wf(&self) -> bool {
        &&& self.extensions.wf()
        &&& self.grammars.wf()
        &&& self.languages.wf()
        &&& self.themes.wf()
        &&& self.language_servers.wf()
    }

    /// An empty manifest.
    pub fn new() -> (r: Self)
        ensures
            r.wf(),
            r@.extensions == Map::<Seq<char>, ExtensionEntryV>::empty(),
            r@.grammars == Map::<Seq<char>, GrammarEntryV>::empty(),
            r@.languages == Map::<Seq<char>, LanguageEntryV>::empty(),
            r@.themes == Map::<Seq<char>, ThemeEntryV>::empty(),
            r@.language_servers == Map::<Seq<char>, LanguageServerEntryV>::empty(),
    {
        Manifest {
            extensions: NamedMap::new(),
            grammars: NamedMap::new(),
            languages: NamedMap::new(),
            themes: NamedMap::new(),
            language_servers: NamedMap::new(),
        }
    }

    /// A copy with the same contents.
    pub fn dup(&self) -> (r: Self)
        requires
            self.wf(),
        ensures
            r.wf(),
            r@ == self@,
    {
        let r = Manifest {
            extensions: self.extensions.dup(),
            grammars: self.grammars.dup(),
            languages: self.languages.dup(),
            themes: self.themes.dup(),
            language_servers: self.language_servers.dup(),
        };
        proof {
            assert(r@ =~= self@);
        }
        r
    }

    /// Takes every entry a given extension owns out of every category.
    pub fn remove_extension(&mut self, id: &String)
        requires
            old(self).wf(),
        ensures
            final(self).wf(),
            final(self)@ == removed_extension(old(self)@, id@),
    {
        self.extensions.remove_by_owner(id);
        self.grammars.remove_by_owner(id);
        self.languages.remove_by_owner(id);
        self.themes.remove_by_owner(id);
        self.language_servers.remove_by_owner(id);
        proof {
            assert(self@ =~= removed_extension(old(self)@, id@));
        }
    }
}

/// The data-model invariant: every content entry's owning id names an
/// installed extension, and each extension entry carries its own key as id.
pub open spec fn owners_ok(m: ManifestV) -> bool {
    &&& forall|k: Seq<char>| #[trigger] m.extensions.contains_key(k) ==> m.extensions[k].id == k
    &&& forall|k: Seq<char>|
        #[trigger] m.grammars.contains_key(k) ==> m.extensions.contains_key(
            m.grammars[k].extension,
        )
    &&& forall|k: Seq<char>|
        #[trigger] m.languages.contains_key(k) ==> m.extensions.contains_key(
            m.languages[k].extension,
        )
    &&& forall|k: Seq<char>|
        #[trigger] m.themes.contains_key(k) ==> m.extensions.contains_key(m.themes[k].extension)
    &&& forall|k: Seq<char>|
        #[trigger] m.language_servers.contains_key(k) ==> m.extensions.contains_key(
            m.language_servers[k].extension,
        )
}

/// Uninstalling keeps the data-model invariant: entries of other owners stay,
/// and their owners' extension entries stay too, since the only extension key
/// an owner `id` holds is `id` itself.
pub proof fn lemma_removed_extension_owners_ok(m: ManifestV, id: Seq<char>)
    requires
        owners_ok(m),
    ensures
        owners_ok(removed_extension(m, id)),
{
    let r = removed_extension(m, id);
    assert forall|k: Seq<char>| #[trigger] r.grammars.contains_key(k) implies r
        .extensions.contains_key(r.grammars[k].extension) by {
        let o = m.grammars[k].extension;
        assert(o != id);
        assert(m.extensions[o].id == o);
    }
    assert forall|k: Seq<char>| #[trigger] r.languages.contains_key(k) implies r
        .extensions.contains_key(r.languages[k].extension) by {
        let o = m.languages[k].extension;
        assert(o != id);
        assert(m.extensions[o].id == o);
    }
    assert forall|k: Seq<char>| #[trigger] r.themes.contains_key(k) implies r
        .extensions.contains_key(r.themes[k].extension) by {
        let o = m.themes[k].extension;
        assert(o != id);
        assert(m.extensions[o].id == o);
    }
    assert forall|k: Seq<char>| #[trigger] r.language_servers.contains_key(k) implies r
        .extensions.contains_key(r.language_servers[k].extension) by {
        let o = m.language_servers[k].extension;
        assert(o != id);
        assert(m.extensions[o].id == o);
    }
}

/// The manifest with every entry a given extension owns taken out.
pub open spec fn removed_extension(m: ManifestV, id: Seq<char>) -> ManifestV {
    ManifestV {
        extensions: m.extensions.remove_keys(
            crate::nmap::owned_keys::<ExtensionEntry>(m.extensions, id),
        ),
        grammars: m.grammars.remove_keys(
            crate::nmap::owned_keys::<GrammarManifestEntry>(m.grammars, id),
        ),
        languages: m.languages.remove_keys(
            crate::nmap::owned_keys::<LanguageManifestEntry>(m.languages, id),
        ),
        themes: m.themes.remove_keys(
            crate::nmap::owned_keys::<ThemeManifestEntry>(m.themes, id),
        ),
        language_servers: m.language_servers.remove_keys(
            crate::nmap::owned_keys::<LanguageServerManifestEntry>(m.language_servers, id),
        ),
    }
}

} // verus!
