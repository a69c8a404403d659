//! The extension store: scan, build, diff, persist and sync, as one
//! synchronous core.
//!
//! The store owns the tree model, the manifest and both registries. Every
//! operation leaves the registries equal to the manifest's categories and the
//! cache file holding the manifest under the tree's current mtime, so a
//! following construction or reload adopts it without a scan.
use crate::diff::{apply_additions, apply_removals, diff_category, lemma_diff_apply_syncs,
    spec_added, spec_removed};
use crate::manifest::{lemma_removed_extension_owners_ok, owners_ok, removed_extension, Manifest,
    ManifestV};
use crate::order::lemma_chars_lt_irreflexive;
use crate::registry::{LanguageRegistry, ThemeRegistry};
use crate::scan::{apply_bundle, build_manifest, lemma_add_ext_owners_ok,
    lemma_manifest_of_owners_ok, scan_extension, spec_add_ext, spec_manifest_of};
use crate::vfs::{CacheRecord, CacheSlotV, ExtDirData, FsContentV, MemFs, tick};
use vstd::prelude::*;

verus! {

/// Why an operation was refused: a malformed extension, or a directory that
/// is not there. The refused operation changes nothing.
#[derive(Debug)]
pub enum StoreError {
    ParseError,
    IoError,
}

/// Whether the cache file was written against the tree as it now stands.
pub open spec fn cache_valid(c: FsContentV) -> bool {
    match c.cache {
        CacheSlotV::Data(m, _) => m == c.mtime,
        _ => false,
    }
}

/// The manifest the cache file holds.
pub open spec fn cached_manifest(c: FsContentV) -> ManifestV {
    match c.cache {
        CacheSlotV::Data(_, man) => man,
        _ => crate::scan::spec_empty_manifest(),
    }
}

/// Loads the manifest: one metadata probe of the installed directory, one of
/// the cache file; a cache written against this very mtime is adopted with no
/// directory listing, anything else (absent, corrupt, stale) degrades to a
/// full scan, after which the cache is rewritten.
fn load_manifest(fs: &mut MemFs) -> (r: Manifest)
    requires
        old(fs).wf(),
    ensures
        final(fs).wf(),
        final(fs).content().installed == old(fs).content().installed,
        final(fs).content().installed_map == old(fs).content().installed_map,
        final(fs).content().mtime == old(fs).content().mtime,
        r.wf(),
        owners_ok(r@),
        final(fs).content().cache == CacheSlotV::Data(final(fs).content().mtime, r@),
        final(fs).metadata_calls_spec() == tick(tick(old(fs).metadata_calls_spec())),
        cache_valid(old(fs).content()) ==> r@ == cached_manifest(old(fs).content()),
        cache_valid(old(fs).content()) ==> final(fs).content() == old(fs).content(),
        cache_valid(old(fs).content()) ==> final(fs).read_dir_calls_spec() == old(fs).read_dir_calls_spec(),
        !cache_valid(old(fs).content()) ==> r@ == spec_manifest_of(old(fs).content().installed),
{
    let mtime = fs.installed_mtime();
    let cached = fs.read_cache();
    let mut adopted: Option<Manifest> = None;
    match cached {
        Some(rec) => {
            if rec.scanned_mtime == mtime {
                adopted = Some(rec.manifest);
            }
        },
        None => {},
    }
    match adopted {
        Some(m) => m,
        None => {
            let m = build_manifest(fs);
            proof {
                lemma_manifest_of_owners_ok(old(fs).content().installed);
            }
            fs.write_cache(CacheRecord { scanned_mtime: mtime, manifest: m.dup() });
            m
        },
    }
}

/// One registry operation of a sync pass, by the name it touches.
pub enum SyncOp {
    RemoveLanguage(Seq<char>),
    RemoveGrammar(Seq<char>),
    AddGrammar(Seq<char>),
    AddLanguage(Seq<char>),
    RemoveTheme(Seq<char>),
    AddTheme(Seq<char>),
}

/// The operations one sync pass performs, in their order: one removal per
/// removed-or-changed key, one registration per added-or-changed key, and
/// none for an unchanged payload (see `spec_removed` and `spec_added`).
/// Removals come before additions per category; languages are unregistered
/// before their grammars, and grammars are registered before the languages
/// that reference them.
pub open spec fn spec_sync_trace(p: Manifest, n: Manifest) -> Seq<SyncOp> {
    spec_removed(p@.languages, n@.languages, p.languages.keys_seq()).map(
        |i: int, k: Seq<char>| SyncOp::RemoveLanguage(k),
    ) + spec_removed(p@.grammars, n@.grammars, p.grammars.keys_seq()).map(
        |i: int, k: Seq<char>| SyncOp::RemoveGrammar(k),
    ) + spec_added(p@.grammars, n@.grammars, n.grammars.keys_seq()).map(
        |i: int, pr: (Seq<char>, crate::manifest::GrammarEntryV)| SyncOp::AddGrammar(pr.0),
    ) + spec_added(p@.languages, n@.languages, n.languages.keys_seq()).map(
        |i: int, pr: (Seq<char>, crate::manifest::LanguageEntryV)| SyncOp::AddLanguage(pr.0),
    ) + spec_removed(p@.themes, n@.themes, p.themes.keys_seq()).map(
        |i: int, k: Seq<char>| SyncOp::RemoveTheme(k),
    ) + spec_added(p@.themes, n@.themes, n.themes.keys_seq()).map(
        |i: int, pr: (Seq<char>, crate::manifest::ThemeEntryV)| SyncOp::AddTheme(pr.0),
    )
}

/// The trace keeps the dependency-safe order: per category every removal
/// precedes every addition; every language removal precedes every grammar
/// removal; every grammar registration precedes every language registration.
pub proof fn lemma_sync_trace_order(p: Manifest, n: Manifest)
    ensures
        forall|i: int, j: int|
            0 <= i < j < spec_sync_trace(p, n).len() && (#[trigger] spec_sync_trace(p, n)[j])
                is RemoveLanguage ==> !((#[trigger] spec_sync_trace(p, n)[i]) is AddLanguage),
        forall|i: int, j: int|
            0 <= i < j < spec_sync_trace(p, n).len() && (#[trigger] spec_sync_trace(p, n)[j])
                is RemoveGrammar ==> !((#[trigger] spec_sync_trace(p, n)[i]) is AddGrammar),
        forall|i: int, j: int|
            0 <= i < j < spec_sync_trace(p, n).len() && (#[trigger] spec_sync_trace(p, n)[j])
                is RemoveTheme ==> !((#[trigger] spec_sync_trace(p, n)[i]) is AddTheme),
        forall|i: int, j: int|
            0 <= i < j < spec_sync_trace(p, n).len() && (#[trigger] spec_sync_trace(p, n)[j])
                is RemoveGrammar ==> !((#[trigger] spec_sync_trace(p, n)[i]) is RemoveTheme
                || spec_sync_trace(p, n)[i] is AddGrammar || spec_sync_trace(p, n)[i]
                is AddLanguage || spec_sync_trace(p, n)[i] is AddTheme),
        forall|i: int, j: int|
            0 <= i < j < spec_sync_trace(p, n).len() && (#[trigger] spec_sync_trace(p, n)[j])
                is AddGrammar ==> !((#[trigger] spec_sync_trace(p, n)[i]) is AddLanguage),
{
}

/// Applies the diff between two manifests to the registries. The operations
/// performed are exactly `spec_sync_trace(p, n)`, in that order: removals
/// before additions per category; languages are unregistered before their
/// grammars, and grammars are registered before the languages that reference
/// them (`lemma_sync_trace_order`).
fn sync_registries(
    lr: &mut LanguageRegistry,
    tr: &mut ThemeRegistry,
    p: &Manifest,
    n: &Manifest,
) -> (trace: Ghost<Seq<SyncOp>>)
    requires
        p.wf(),
        n.wf(),
        old(lr).wf(),
        old(tr).wf(),
        old(lr).languages@ == p@.languages,
        old(lr).grammars@ == p@.grammars,
        old(tr).themes@ == p@.themes,
    ensures
        final(lr).wf(),
        final(tr).wf(),
        final(lr).languages@ == n@.languages,
        final(lr).grammars@ == n@.grammars,
        final(tr).themes@ == n@.themes,
        trace@ == spec_sync_trace(*p, *n),
{
    let (lang_removed, lang_added) = diff_category(&p.languages, &n.languages);
    let (gram_removed, gram_added) = diff_category(&p.grammars, &n.grammars);
    let (theme_removed, theme_added) = diff_category(&p.themes, &n.themes);
    apply_removals(&mut lr.languages, &lang_removed);
    apply_removals(&mut lr.grammars, &gram_removed);
    apply_additions(&mut lr.grammars, &gram_added);
    apply_additions(&mut lr.languages, &lang_added);
    apply_removals(&mut tr.themes, &theme_removed);
    apply_additions(&mut tr.themes, &theme_added);
    proof {
        lemma_category_syncs(p.languages, n.languages);
        lemma_category_syncs(p.grammars, n.grammars);
        lemma_category_syncs(p.themes, n.themes);
    }
    Ghost(spec_sync_trace(*p, *n))
}

/// One category's diff, applied to a map holding the old snapshot, yields the
/// new snapshot: the key runs of a well-formed `NamedMap` cover its domain
/// with each key once, which is what the sync theorem asks.
proof fn lemma_category_syncs<T: crate::nmap::Rec>(p: crate::nmap::NamedMap<T>, n: crate::nmap::NamedMap<T>)
    requires
        p.wf(),
        n.wf(),
    ensures
        crate::scan::insert_pairs(
            p@.remove_keys(crate::diff::names_set(spec_removed(p@, n@, p.keys_seq()))),
            spec_added(p@, n@, n.keys_seq()),
        ) == n@,
{
    p.lemma_view_props();
    n.lemma_view_props();
    assert forall|k: Seq<char>| p@.contains_key(k) implies #[trigger] p.keys_seq().contains(k) by {
        let i = choose|i: int| 0 <= i < p.keys_seq().len() && p.keys_seq()[i] == k;
    }
    assert forall|k: Seq<char>| n@.contains_key(k) implies #[trigger] n.keys_seq().contains(k) by {
        let i = choose|i: int| 0 <= i < n.keys_seq().len() && n.keys_seq()[i] == k;
    }
    assert forall|i: int, j: int| 0 <= i < j < n.keys_seq().len() implies (
    #[trigger] n.keys_seq()[i]) != (#[trigger] n.keys_seq()[j]) by {
        if n.keys_seq()[i] == n.keys_seq()[j] {
            lemma_chars_lt_irreflexive(n.keys_seq()[i]);
        }
    }
    lemma_diff_apply_syncs::<T::V>(p@, n@, p.keys_seq(), n.keys_seq());
}

/// The extension store: the tree, the manifest, and the registries it keeps
/// in step with it.
pub struct ExtensionStore {
    pub fs: MemFs,
    pub manifest: Manifest,
    pub language_registry: LanguageRegistry,
    pub theme_registry: ThemeRegistry,
}

impl ExtensionStore {
    /// The registries hold exactly the manifest's categories.
    pub open spec fn synced(&self) -> bool {
        &&& self.language_registry.languages@ == self.manifest@.languages
        &&& self.language_registry.grammars@ == self.manifest@.grammars
        &&& self.theme_registry.themes@ == self.manifest@.themes
    }

    /// The cache file holds this very manifest under the tree's current
    /// mtime, so the next construction adopts it without a scan.
    pub open spec fn cache_synced(&self) -> bool {
        self.fs.content().cache == CacheSlotV::Data(self.fs.content().mtime, self.manifest@)
    }

    /// Every part well-formed, registries synced, cache in step, and the
    /// manifest's owners all installed.
    pub open spec fn wf(&self) -> bool {
        &&& self.fs.wf()
        &&& self.manifest.wf()
        &&& owners_ok(self.manifest@)
        &&& self.language_registry.wf()
        &&& self.theme_registry.wf()
        &&& self.synced()
        &&& self.cache_synced()
    }

    /// Builds a store over a tree: cache-checked load, then registry sync
    /// from empty. With a cache written against the tree as it stands, the
    /// manifest is adopted with two metadata probes and no directory
    /// listing; otherwise it is rebuilt by a full scan and persisted.
    pub fn construct(fs: MemFs) -> (s: ExtensionStore)
        requires
            fs.wf(),
        ensures
            s.wf(),
            s.fs.content().installed == fs.content().installed,
            s.fs.content().installed_map == fs.content().installed_map,
            s.fs.content().mtime == fs.content().mtime,
            s.fs.metadata_calls_spec() == tick(tick(fs.metadata_calls_spec())),
            cache_valid(fs.content()) ==> (s.manifest@ == cached_manifest(fs.content())
                && s.fs.read_dir_calls_spec() == fs.read_dir_calls_spec()),
            !cache_valid(fs.content()) ==> s.manifest@ == spec_manifest_of(fs.content().installed),
    {
        let mut fs = fs;
        let manifest = load_manifest(&mut fs);
        let mut language_registry = LanguageRegistry::new();
        let mut theme_registry = ThemeRegistry::new();
        let empty = Manifest::new();
        let _trace = sync_registries(&mut language_registry, &mut theme_registry, &empty, &manifest);
        ExtensionStore { fs, manifest, language_registry, theme_registry }
    }

    /// The manifest as it now stands.
    pub fn manifest(&self) -> (r: &Manifest)
        ensures
            r@ == self.manifest@,
    {
        &self.manifest
    }

    /// A full pipeline pass: cache-checked load, diff against the previous
    /// manifest, registry sync, persist. Over an unchanged tree the cache is
    /// still in step (see `lemma_reload_idempotent`), so the pass adopts the
    /// same manifest with two metadata probes and no directory listing.
    pub fn reload(&mut self)
        requires
            old(self).wf(),
        ensures
            final(self).wf(),
            final(self).fs.content().installed == old(self).fs.content().installed,
            final(self).fs.content().installed_map == old(self).fs.content().installed_map,
            final(self).fs.content().mtime == old(self).fs.content().mtime,
            final(self).fs.metadata_calls_spec() == tick(
                tick(old(self).fs.metadata_calls_spec()),
            ),
            cache_valid(old(self).fs.content()) ==> (final(self).manifest@ == cached_manifest(
                old(self).fs.content(),
            ) && final(self).fs.read_dir_calls_spec() == old(self).fs.read_dir_calls_spec()),
            !cache_valid(old(self).fs.content()) ==> final(self).manifest@ == spec_manifest_of(
                old(self).fs.content().installed,
            ),
    {
        let next = load_manifest(&mut self.fs);
        let _trace = sync_registries(
            &mut self.language_registry,
            &mut self.theme_registry,
            &self.manifest,
            &next,
        );
        self.manifest = next;
    }

    /// Installs an extension: validate the source first — a malformed one is
    /// refused and nothing changes — then write its directory, merge its
    /// content into the manifest in place of anything it owned before, sync
    /// the registries, and persist. No other extension is rescanned: the
    /// pass makes no directory listing at all.
    pub fn install_extension(&mut self, id: String, source: ExtDirData) -> (r: Result<
        (),
        StoreError,
    >)
        requires
            old(self).wf(),
        ensures
            final(self).wf(),
            final(self).fs.read_dir_calls_spec() == old(self).fs.read_dir_calls_spec(),
            match r {
                Ok(()) => crate::scan::spec_scan_ext(id@, source@) is Some && final(self).manifest@ == spec_add_ext(removed_extension(old(self).manifest@, id@), id@, source@)
                    && final(self).fs.content().installed_map == old(self).fs.content().installed_map.insert(id@, source@),
                Err(e) => e is ParseError && crate::scan::spec_scan_ext(id@, source@) is None && *final(self) == *old(self),
            },
    {
        let bundle = match scan_extension(&id, &source) {
            Some(b) => b,
            None => {
                return Err(StoreError::ParseError);
            },
        };
        self.fs.install_dir(id.clone(), source);
        let mut next = self.manifest.dup();
        next.remove_extension(&id);
        apply_bundle(&mut next, &bundle);
        proof {
            lemma_removed_extension_owners_ok(old(self).manifest@, id@);
            lemma_add_ext_owners_ok(removed_extension(old(self).manifest@, id@), id@, source@);
        }
        let _trace = sync_registries(
            &mut self.language_registry,
            &mut self.theme_registry,
            &self.manifest,
            &next,
        );
        let mtime = self.fs.installed_mtime();
        self.fs.write_cache(CacheRecord { scanned_mtime: mtime, manifest: next.dup() });
        self.manifest = next;
        Ok(())
    }

    /// Uninstalls an extension: remove its directory, take exactly its
    /// entries out of every category, sync the registries, persist. A name
    /// with no directory is refused and nothing changes.
    pub fn uninstall_extension(&mut self, id: &String) -> (r: Result<(), StoreError>)
        requires
            old(self).wf(),
        ensures
            final(self).wf(),
            final(self).fs.read_dir_calls_spec() == old(self).fs.read_dir_calls_spec(),
            match r {
                Ok(()) => old(self).fs.content().installed_map.contains_key(id@) && final(self).manifest@ == removed_extension(old(self).manifest@, id@) && final(self).fs.content().installed_map == old(self).fs.content().installed_map.remove(id@),
                Err(e) => e is IoError && !old(self).fs.content().installed_map.contains_key(id@)
                    && *final(self) == *old(self),
            },
    {
        if !self.fs.has_dir(id) {
            return Err(StoreError::IoError);
        }
        self.fs.remove_dir(id);
        let mut next = self.manifest.dup();
        next.remove_extension(id);
        proof {
            lemma_removed_extension_owners_ok(old(self).manifest@, id@);
        }
        let _trace = sync_registries(
            &mut self.language_registry,
            &mut self.theme_registry,
            &self.manifest,
            &next,
        );
        let mtime = self.fs.installed_mtime();
        self.fs.write_cache(CacheRecord { scanned_mtime: mtime, manifest: next.dup() });
        self.manifest = next;
        Ok(())
    }
}

/// Reload is idempotent. Every operation leaves the cache in step with the
/// manifest, so on a store at rest the cache is valid and holds exactly its
/// manifest: a further `reload` over the unchanged tree adopts that same
/// manifest, with two metadata probes and no directory listing, by `reload`'s
/// contract.
pub proof fn lemma_reload_idempotent(s: ExtensionStore)
    requires
        s.wf(),
    ensures
        cache_valid(s.fs.content()),
        cached_manifest(s.fs.content()) == s.manifest@,
{
}

/// Restart reproduces the store. A new store constructed over an unchanged
/// tree adopts the cached manifest — the previous store's own, by
/// `cache_synced` — and two stores in step with equal manifests hold equal
/// registry contents.
pub proof fn lemma_restart_reproduces(s1: ExtensionStore, s2: ExtensionStore)
    requires
        s1.wf(),
        s2.wf(),
        s1.manifest@ == s2.manifest@,
    ensures
        s1.language_registry.languages@ == s2.language_registry.languages@,
        s1.language_registry.grammars@ == s2.language_registry.grammars@,
        s1.theme_registry.themes@ == s2.theme_registry.themes@,
{
}

} // verus!
