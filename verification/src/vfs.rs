//! An in-memory model of the installed-extensions directory tree.
//!
//! The tree holds, per extension directory, the descriptor file and the four
//! content subtrees, plus the persisted manifest cache beside them. Metadata
//! probes and directory listings are counted, so that the cache's performance
//! contract — a warm start issues a bounded number of metadata calls and no
//! directory listing — is stated and checked, not assumed.
use crate::manifest::{owners_ok, Manifest, ManifestV};
use crate::nmap::{Dup, NEntry, NamedMap};
use vstd::prelude::*;

verus! {

/// A theme variant as it stands in a theme family file.
pub struct ThemeVariantSrc {
    pub name: String,
    pub appearance: String,
}

/// A theme family file: a name, an author, and the declared variants.
pub struct ThemeFamilySrc {
    pub name: String,
    pub author: String,
    pub variants: Vec<ThemeVariantSrc>,
}

/// Abstract value of a theme family file: name, author, and per variant its
/// name and appearance.
#[verifier::ext_equal]
pub struct ThemeFamilyV {
    pub name: Seq<char>,
    pub author: Seq<char>,
    pub variants: Seq<(Seq<char>, Seq<char>)>,
}

impl View for ThemeFamilySrc {
    type V = ThemeFamilyV;

    open spec fn view(&self) -> ThemeFamilyV {
        ThemeFamilyV {
            name: self.name@,
            author: self.author@,
            variants: self.variants@.map(|i: int, v: ThemeVariantSrc| (v.name@, v.appearance@)),
        }
    }
}

/// What a file parses to: a key-value record, a theme family, an opaque
/// binary, or content that cannot be read.
pub enum FileData {
    Record(Vec<(String, String)>),
    ThemeFamily(ThemeFamilySrc),
    Blob,
    Corrupt,
}

/// The key-value pairs of a record file, by their views.
pub open spec fn record_pairs(r: Seq<(String, String)>) -> Seq<(Seq<char>, Seq<char>)> {
    r.map(|i: int, p: (String, String)| (p.0@, p.1@))
}

/// Abstract value of a file.
#[verifier::ext_equal]
pub enum FileDataV {
    Record(Seq<(Seq<char>, Seq<char>)>),
    ThemeFamily(ThemeFamilyV),
    Blob,
    Corrupt,
}

impl View for FileData {
    type V = FileDataV;

    open spec fn view(&self) -> FileDataV {
        match self {
            FileData::Record(r) => FileDataV::Record(record_pairs(r@)),
            FileData::ThemeFamily(t) => FileDataV::ThemeFamily(t@),
            FileData::Blob => FileDataV::Blob,
            FileData::Corrupt => FileDataV::Corrupt,
        }
    }
}

impl Dup for FileData {
    fn dup(&self) -> (r: Self)
        ensures
            r@ == self@,
    {
        match self {
            FileData::Record(rec) => {
                let n = rec.len();
                let mut out: Vec<(String, String)> = Vec::new();
                let mut i: usize = 0;
                while i < n
                    invariant
                        i <= n,
                        n == rec@.len(),
                        out@.len() == i,
                        forall|j: int|
                            0 <= j < i ==> (#[trigger] out@[j]).0@ == rec@[j].0@ && out@[j].1@
                                == rec@[j].1@,
                    decreases n - i,
                {
                    out.push((rec[i].0.clone(), rec[i].1.clone()));
                    i = i + 1;
                }
                let r = FileData::Record(out);
                proof {
                    assert(r@ =~= self@);
                }
                r
            },
            FileData::ThemeFamily(t) => {
                let n = t.variants.len();
                let mut vs: Vec<ThemeVariantSrc> = Vec::new();
                let mut i: usize = 0;
                while i < n
                    invariant
                        i <= n,
                        n == t.variants@.len(),
                        vs@.len() == i,
                        forall|j: int|
                            0 <= j < i ==> (#[trigger] vs@[j]).name@ == t.variants@[j].name@
                                && vs@[j].appearance@ == t.variants@[j].appearance@,
                    decreases n - i,
                {
                    vs.push(
                        ThemeVariantSrc {
                            name: t.variants[i].name.clone(),
                            appearance: t.variants[i].appearance.clone(),
                        },
                    );
                    i = i + 1;
                }
                let r = FileData::ThemeFamily(
                    ThemeFamilySrc { name: t.name.clone(), author: t.author.clone(), variants: vs },
                );
                proof {
                    assert(r@ =~= self@);
                }
                r
            },
            FileData::Blob => FileData::Blob,
            FileData::Corrupt => FileData::Corrupt,
        }
    }
}

/// One extension's directory: its descriptor file and content subtrees.
/// A grammar binary stands under its file stem: listing the grammar files
/// and stripping their suffix is the boundary's concern, so only the stems
/// reach this model, and the binaries themselves are opaque here.
pub struct ExtDirData {
    pub descriptor: FileData,
    pub themes: Vec<NEntry<FileData>>,
    pub languages: Vec<NEntry<FileData>>,
    pub grammars: Vec<NEntry<FileData>>,
    pub language_servers: Vec<NEntry<FileData>>,
}

/// Abstract value of an extension directory.
#[verifier::ext_equal]
pub struct ExtDirDataV {
    pub descriptor: FileDataV,
    pub themes: Seq<(Seq<char>, FileDataV)>,
    pub languages: Seq<(Seq<char>, FileDataV)>,
    pub grammars: Seq<(Seq<char>, FileDataV)>,
    pub language_servers: Seq<(Seq<char>, FileDataV)>,
}

impl View for ExtDirData {
    type V = ExtDirDataV;

    open spec fn view(&self) -> ExtDirDataV {
        ExtDirDataV {
            descriptor: self.descriptor@,
            themes: crate::nmap::entries_view(self.themes@),
            languages: crate::nmap::entries_view(self.languages@),
            grammars: crate::nmap::entries_view(self.grammars@),
            language_servers: crate::nmap::entries_view(self.language_servers@),
        }
    }
}

/// A copy of a content subtree with the same views.
fn dup_files(v: &Vec<NEntry<FileData>>) -> (r: Vec<NEntry<FileData>>)
    ensures
        crate::nmap::entries_view(r@) == crate::nmap::entries_view(v@),
{
    let n = v.len();
    let mut out: Vec<NEntry<FileData>> = Vec::new();
    let mut i: usize = 0;
    while i < n
        invariant
            i <= n,
            n == v@.len(),
            out@.len() == i,
            forall|j: int|
                0 <= j < i ==> (#[trigger] out@[j]).name@ == v@[j].name@ && out@[j].value@
                    == v@[j].value@,
        decreases n - i,
    {
        out.push(NEntry { name: v[i].name.clone(), value: v[i].value.dup() });
        i = i + 1;
    }
    proof {
        assert(crate::nmap::entries_view(out@) =~= crate::nmap::entries_view(v@));
    }
    out
}

impl Dup for ExtDirData {
    fn dup(&self) -> (r: Self)
        ensures
            r@ == self@,
    {
        let r = ExtDirData {
            descriptor: self.descriptor.dup(),
            themes: dup_files(&self.themes),
            languages: dup_files(&self.languages),
            grammars: dup_files(&self.grammars),
            language_servers: dup_files(&self.language_servers),
        };
        proof {
            assert(r@ =~= self@);
        }
        r
    }
}

/// The persisted manifest cache: the manifest, keyed by the mtime of the
/// installed directory at the time of the scan it came from.
pub struct CacheRecord {
    pub scanned_mtime: u64,
    pub manifest: Manifest,
}

/// The cache file slot: absent on a first run, readable, or corrupt.
pub enum CacheSlot {
    Absent,
    Data(CacheRecord),
    Corrupt,
}

/// Abstract value of the cache file slot.
#[verifier::ext_equal]
pub enum CacheSlotV {
    Absent,
    Data(u64, ManifestV),
    Corrupt,
}

/// The logical content of the tree: everything but the call counters.
#[verifier::ext_equal]
pub struct FsContentV {
    pub installed: Seq<(Seq<char>, ExtDirDataV)>,
    pub installed_map: Map<Seq<char>, ExtDirDataV>,
    pub mtime: u64,
    pub cache: CacheSlotV,
}

/// A counter that sticks at its maximum instead of wrapping.
pub open spec fn tick(c: u64) -> u64 {
    if c < u64::MAX {
        (c + 1) as u64
    } else {
        c
    }
}

fn tick_exec(c: u64) -> (r: u64)
    ensures
        r == tick(c),
{
    if c < u64::MAX {
        c + 1
    } else {
        c
    }
}

/// The installed-extensions tree with its cache file and counted accesses.
pub struct MemFs {
    installed: NamedMap<ExtDirData>,
    installed_mtime: u64,
    cache: CacheSlot,
    clock: u64,
    metadata_calls: u64,
    read_dir_calls: u64,
}

impl MemFs {
    /// The installed tree is well-formed, as is a cached manifest, which also
    /// keeps the data-model invariant on owners.
    pub closed spec fn wf(&self) -> bool {
        &&& self.installed.wf()
        &&& match self.cache {
            CacheSlot::Data(rec) => rec.manifest.wf() && owners_ok(rec.manifest@),
            _ => true,
        }
    }

    /// The logical content of the tree.
    pub closed spec fn content(&self) -> FsContentV {
        FsContentV {
            installed: self.installed.pairs_seq(),
            installed_map: self.installed@,
            mtime: self.installed_mtime,
            cache: match self.cache {
                CacheSlot::Absent => CacheSlotV::Absent,
                CacheSlot::Data(rec) => CacheSlotV::Data(rec.scanned_mtime, rec.manifest@),
                CacheSlot::Corrupt => CacheSlotV::Corrupt,
            },
        }
    }

    pub closed spec fn metadata_calls_spec(&self) -> u64 {
        self.metadata_calls
    }

    pub closed spec fn read_dir_calls_spec(&self) -> u64 {
        self.read_dir_calls
    }

    /// The ordered names and the map agree; usable without exposing entries.
    pub proof fn lemma_content_props(&self)
        requires
            self.wf(),
        ensures
            forall|i: int|
                0 <= i < self.content().installed.len()
                    ==> self.content().installed_map.contains_key(
                    (#[trigger] self.content().installed[i]).0,
                ) && self.content().installed_map[self.content().installed[i].0]
                    == self.content().installed[i].1,
            forall|k: Seq<char>|
                self.content().installed_map.contains_key(k) ==> exists|i: int|
                    0 <= i < self.content().installed.len() && (
                    #[trigger] self.content().installed[i]).0 == k,
            forall|i: int, j: int|
                0 <= i < j < self.content().installed.len() ==> (
                #[trigger] self.content().installed[i]).0 != (
                #[trigger] self.content().installed[j]).0,
    {
        self.installed.lemma_pairs_props();
        self.installed.lemma_view_props();
        assert forall|k: Seq<char>| self.content().installed_map.contains_key(k) implies exists|
            i: int,
        |
            0 <= i < self.content().installed.len() && (#[trigger] self.content().installed[i]).0
                == k by {
            let i = choose|i: int|
                0 <= i < self.installed.keys_seq().len() && self.installed.keys_seq()[i] == k;
            assert(self.content().installed[i].0 == k);
        }
        assert forall|i: int, j: int| 0 <= i < j < self.content().installed.len() implies (
        #[trigger] self.content().installed[i]).0 != (#[trigger] self.content().installed[j]).0 by {
            assert(crate::order::chars_lt(
                self.installed.keys_seq()[i],
                self.installed.keys_seq()[j],
            ));
            crate::order::lemma_chars_lt_irreflexive(self.installed.keys_seq()[i]);
        }
    }

    /// An empty tree: no extensions, no cache file, counters at zero.
    pub fn new() -> (r: Self)
        ensures
            r.wf(),
            r.content().installed == Seq::<(Seq<char>, ExtDirDataV)>::empty(),
            r.content().installed_map == Map::<Seq<char>, ExtDirDataV>::empty(),
            r.content().cache == CacheSlotV::Absent,
            r.metadata_calls_spec() == 0,
            r.read_dir_calls_spec() == 0,
    {
        let r = MemFs {
            installed: NamedMap::new(),
            installed_mtime: 0,
            cache: CacheSlot::Absent,
            clock: 1,
            metadata_calls: 0,
            read_dir_calls: 0,
        };
        proof {
            assert(r.content().installed =~= Seq::<(Seq<char>, ExtDirDataV)>::empty());
        }
        r
    }

    /// Writes one extension's directory, replacing any under the same name,
    /// and freshens the installed directory's mtime.
    pub fn install_dir(&mut self, name: String, d: ExtDirData)
        requires
            old(self).wf(),
        ensures
            final(self).wf(),
            final(self).content().installed_map == old(self).content().installed_map.insert(
                name@,
                d@,
            ),
            final(self).content().cache == old(self).content().cache,
            final(self).content().mtime != old(self).content().mtime,
            final(self).metadata_calls_spec() == old(self).metadata_calls_spec(),
            final(self).read_dir_calls_spec() == old(self).read_dir_calls_spec(),
    {
        self.installed.insert(NEntry { name, value: d });
        if self.clock == self.installed_mtime {
            self.clock = tick_exec(self.clock);
            if self.clock == self.installed_mtime {
                self.clock = 0;
            }
        }
        self.installed_mtime = self.clock;
        self.clock = tick_exec(self.clock);
    }

    /// Removes one extension's directory, if present, and freshens the mtime.
    pub fn remove_dir(&mut self, name: &String)
        requires
            old(self).wf(),
        ensures
            final(self).wf(),
            final(self).content().installed_map == old(self).content().installed_map.remove(name@),
            final(self).content().cache == old(self).content().cache,
            final(self).content().mtime != old(self).content().mtime,
            final(self).metadata_calls_spec() == old(self).metadata_calls_spec(),
            final(self).read_dir_calls_spec() == old(self).read_dir_calls_spec(),
    {
        self.installed.remove(name);
        if self.clock == self.installed_mtime {
            self.clock = tick_exec(self.clock);
            if self.clock == self.installed_mtime {
                self.clock = 0;
            }
        }
        self.installed_mtime = self.clock;
        self.clock = tick_exec(self.clock);
    }

    /// Whether an extension's directory is present.
    pub fn has_dir(&self, name: &String) -> (r: bool)
        requires
            self.wf(),
        ensures
            r == self.content().installed_map.contains_key(name@),
    {
        self.installed.get(name).is_some()
    }

    /// One metadata probe: the installed directory's mtime.
    pub fn installed_mtime(&mut self) -> (r: u64)
        requires
            old(self).wf(),
        ensures
            final(self).wf(),
            final(self).content() == old(self).content(),
            r == old(self).content().mtime,
            final(self).metadata_calls_spec() == tick(old(self).metadata_calls_spec()),
            final(self).read_dir_calls_spec() == old(self).read_dir_calls_spec(),
    {
        self.metadata_calls = tick_exec(self.metadata_calls);
        self.installed_mtime
    }

    /// One directory listing: the installed extensions' names, in order.
    pub fn list_extensions(&mut self) -> (r: Vec<String>)
        requires
            old(self).wf(),
        ensures
            final(self).wf(),
            final(self).content() == old(self).content(),
            r@.len() == old(self).content().installed.len(),
            forall|i: int|
                0 <= i < r@.len() ==> (#[trigger] r@[i])@ == old(self).content().installed[i].0,
            final(self).metadata_calls_spec() == old(self).metadata_calls_spec(),
            final(self).read_dir_calls_spec() == tick(old(self).read_dir_calls_spec()),
    {
        self.read_dir_calls = tick_exec(self.read_dir_calls);
        let n = self.installed.len();
        let mut r: Vec<String> = Vec::new();
        let mut i: usize = 0;
        proof {
            self.installed.lemma_pairs_props();
        }
        while i < n
            invariant
                i <= n,
                n == self.installed.keys_seq().len(),
                r@.len() == i,
                forall|j: int| 0 <= j < i ==> (#[trigger] r@[j])@ == self.installed.keys_seq()[j],
            decreases n - i,
        {
            r.push(self.installed.name_at(i).clone());
            i = i + 1;
        }
        proof {
            self.installed.lemma_pairs_props();
        }
        r
    }

    /// One directory listing of an extension's subtree: its files, copied out.
    pub fn read_dir_data(&mut self, name: &String) -> (r: Option<ExtDirData>)
        requires
            old(self).wf(),
        ensures
            final(self).wf(),
            final(self).content() == old(self).content(),
            match r {
                Some(d) => old(self).content().installed_map.contains_key(name@) && d@ == old(
                    self,
                ).content().installed_map[name@],
                None => !old(self).content().installed_map.contains_key(name@),
            },
            final(self).metadata_calls_spec() == old(self).metadata_calls_spec(),
            final(self).read_dir_calls_spec() == tick(old(self).read_dir_calls_spec()),
    {
        self.read_dir_calls = tick_exec(self.read_dir_calls);
        match self.installed.get(name) {
            Some(d) => Some(d.dup()),
            None => None,
        }
    }

    /// One metadata probe of the cache file, and its content if readable.
    pub fn read_cache(&mut self) -> (r: Option<CacheRecord>)
        requires
            old(self).wf(),
        ensures
            final(self).wf(),
            final(self).content() == old(self).content(),
            match r {
                Some(rec) => old(self).content().cache == CacheSlotV::Data(
                    rec.scanned_mtime,
                    rec.manifest@,
                ) && rec.manifest.wf() && owners_ok(rec.manifest@),
                None => !(old(self).content().cache is Data),
            },
            final(self).metadata_calls_spec() == tick(old(self).metadata_calls_spec()),
            final(self).read_dir_calls_spec() == old(self).read_dir_calls_spec(),
    {
        self.metadata_calls = tick_exec(self.metadata_calls);
        match &self.cache {
            CacheSlot::Data(rec) => Some(
                CacheRecord { scanned_mtime: rec.scanned_mtime, manifest: rec.manifest.dup() },
            ),
            CacheSlot::Absent => None,
            CacheSlot::Corrupt => None,
        }
    }

    /// Writes the cache file whole; the installed tree keeps its mtime.
    pub fn write_cache(&mut self, rec: CacheRecord)
        requires
            old(self).wf(),
            rec.manifest.wf(),
            owners_ok(rec.manifest@),
        ensures
            final(self).wf(),
            final(self).content().installed == old(self).content().installed,
            final(self).content().installed_map == old(self).content().installed_map,
            final(self).content().mtime == old(self).content().mtime,
            final(self).content().cache == CacheSlotV::Data(rec.scanned_mtime, rec.manifest@),
            final(self).metadata_calls_spec() == old(self).metadata_calls_spec(),
            final(self).read_dir_calls_spec() == old(self).read_dir_calls_spec(),
    {
        self.cache = CacheSlot::Data(rec);
    }

    /// Makes the cache file unreadable, as corruption on disk would.
    pub fn corrupt_cache(&mut self)
        requires
            old(self).wf(),
        ensures
            final(self).wf(),
            final(self).content().installed == old(self).content().installed,
            final(self).content().installed_map == old(self).content().installed_map,
            final(self).content().mtime == old(self).content().mtime,
            final(self).content().cache == CacheSlotV::Corrupt,
            final(self).metadata_calls_spec() == old(self).metadata_calls_spec(),
            final(self).read_dir_calls_spec() == old(self).read_dir_calls_spec(),
    {
        self.cache = CacheSlot::Corrupt;
    }

    /// How many metadata probes were made.
    pub fn metadata_call_count(&self) -> (r: u64)
        ensures
            r == self.metadata_calls_spec(),
    {
        self.metadata_calls
    }

    /// How many directory listings were made.
    pub fn read_dir_call_count(&self) -> (r: u64)
        ensures
            r == self.read_dir_calls_spec(),
    {
        self.read_dir_calls
    }
}

} // verus!
