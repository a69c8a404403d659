//! The directory scanner and manifest builder.
//!
//! The scanner parses one extension directory into a bundle of manifest
//! entries; a malformed descriptor or config skips that one extension and
//! never the scan. The builder folds the bundles, in the scanner's
//! deterministic (name-sorted) order, into the aggregate manifest; on a
//! repeated display name the extension processed later wins.
use crate::manifest::{ExtensionEntry, ExtensionEntryV, GrammarEntryV, GrammarManifestEntry,
    LanguageEntryV, LanguageManifestEntry, LanguageMatcher, LanguageMatcherV,
    LanguageServerEntryV, LanguageServerManifestEntry, Manifest, ManifestV, ThemeEntryV,
    ThemeManifestEntry};
use crate::nmap::{entries_view, Dup, NEntry};
use crate::text::{concat2, concat3, str_eq};
use crate::vfs::{ExtDirData, ExtDirDataV, FileData, FileDataV, MemFs, record_pairs};
use vstd::prelude::*;

verus! {

/// The first value under a key in a record file.
pub open spec fn rec_first(r: Seq<(Seq<char>, Seq<char>)>, k: Seq<char>) -> Option<Seq<char>>
    decreases r.len(),
{
    if r.len() == 0 {
        None
    } else if r[0].0 == k {
        Some(r[0].1)
    } else {
        rec_first(r.drop_first(), k)
    }
}

/// Every value under a key in a record file, in order.
pub open spec fn rec_all(r: Seq<(Seq<char>, Seq<char>)>, k: Seq<char>) -> Seq<Seq<char>>
    decreases r.len(),
{
    if r.len() == 0 {
        Seq::empty()
    } else if r[0].0 == k {
        seq![r[0].1] + rec_all(r.drop_first(), k)
    } else {
        rec_all(r.drop_first(), k)
    }
}

/// The first value under a key, copied out.
fn record_first(rec: &Vec<(String, String)>, key: &str) -> (r: Option<String>)
    ensures
        match r {
            Some(v) => rec_first(record_pairs(rec@), key@) == Some(v@),
            None => rec_first(record_pairs(rec@), key@) is None,
        },
{
    let n = rec.len();
    let ghost full = record_pairs(rec@);
    let mut i: usize = 0;
    proof {
        assert(full.skip(0) =~= full);
    }
    while i < n
        invariant
            i <= n,
            n == rec@.len(),
            full == record_pairs(rec@),
            full.len() == n,
            rec_first(full, key@) == rec_first(full.skip(i as int), key@),
        decreases n - i,
    {
        proof {
            assert(full.skip(i as int)[0] == full[i as int]);
            assert(full[i as int] == (rec@[i as int].0@, rec@[i as int].1@));
            assert(full.skip(i as int).drop_first() =~= full.skip(i as int + 1));
        }
        if str_eq(rec[i].0.as_str(), key) {
            return Some(rec[i].1.clone());
        }
        i = i + 1;
    }
    proof {
        assert(full.skip(n as int) =~= Seq::empty());
    }
    None
}

/// Every value under a key, copied out in order.
fn record_all(rec: &Vec<(String, String)>, key: &str) -> (r: Vec<String>)
    ensures
        r.deep_view() == rec_all(record_pairs(rec@), key@),
{
    let n = rec.len();
    let ghost full = record_pairs(rec@);
    let mut out: Vec<String> = Vec::new();
    let mut i: usize = 0;
    proof {
        assert(full.skip(0) =~= full);
        assert(out.deep_view() =~= Seq::<Seq<char>>::empty());
    }
    while i < n
        invariant
            i <= n,
            n == rec@.len(),
            full == record_pairs(rec@),
            full.len() == n,
            rec_all(full, key@) =~= out.deep_view() + rec_all(full.skip(i as int), key@),
        decreases n - i,
    {
        proof {
            assert(full.skip(i as int)[0] == full[i as int]);
            assert(full[i as int] == (rec@[i as int].0@, rec@[i as int].1@));
            assert(full.skip(i as int).drop_first() =~= full.skip(i as int + 1));
        }
        let ghost prev = out.deep_view();
        if str_eq(rec[i].0.as_str(), key) {
            out.push(rec[i].1.clone());
            proof {
                assert(out.deep_view() =~= prev.push(rec@[i as int].1@));
                assert(rec_all(full.skip(i as int), key@) =~= seq![full[i as int].1] + rec_all(
                    full.skip(i as int + 1),
                    key@,
                ));
                assert(prev + rec_all(full.skip(i as int), key@) =~= out.deep_view() + rec_all(
                    full.skip(i as int + 1),
                    key@,
                ));
            }
        }
        i = i + 1;
    }
    proof {
        assert(full.skip(n as int) =~= Seq::empty());
        assert(out.deep_view() + Seq::<Seq<char>>::empty() =~= out.deep_view());
    }
    out
}

/// The version in a well-formed descriptor: the record must carry an id, a
/// display name, and a version. The id must equal the directory's name: the
/// directory is how install and uninstall address the extension on disk, so a
/// descriptor that disagrees with it is treated as malformed and skipped.
pub open spec fn spec_parse_descriptor(d: FileDataV, dir: Seq<char>) -> Option<Seq<char>> {
    match d {
        FileDataV::Record(r) => {
            if rec_first(r, "id"@) == Some(dir) && rec_first(r, "name"@) is Some {
                rec_first(r, "version"@)
            } else {
                None
            }
        },
        _ => None,
    }
}

/// Parses a descriptor file against its directory's name.
pub fn parse_descriptor(d: &FileData, dir: &String) -> (r: Option<String>)
    ensures
        match r {
            Some(v) => spec_parse_descriptor(d@, dir@) == Some(v@),
            None => spec_parse_descriptor(d@, dir@) is None,
        },
{
    match d {
        FileData::Record(rec) => {
            let id = record_first(rec, "id");
            let name = record_first(rec, "name");
            let version = record_first(rec, "version");
            match (id, name, version) {
                (Some(id), Some(_name), Some(version)) => {
                    if String::eq(&id, dir) {
                        Some(version)
                    } else {
                        None
                    }
                },
                _ => None,
            }
        },
        _ => None,
    }
}

/// The language entry a config file declares, keyed by its display name.
pub open spec fn spec_parse_language(id: Seq<char>, dirname: Seq<char>, d: FileDataV) -> Option<
    (Seq<char>, LanguageEntryV),
> {
    match d {
        FileDataV::Record(r) => match rec_first(r, "name"@) {
            Some(name) => Some(
                (
                    name,
                    LanguageEntryV {
                        extension: id,
                        path: "languages/"@ + dirname,
                        grammar: rec_first(r, "grammar"@),
                        matcher: LanguageMatcherV {
                            path_suffixes: rec_all(r, "path_suffix"@),
                            first_line_pattern: rec_first(r, "first_line_pattern"@),
                        },
                    },
                ),
            ),
            None => None,
        },
        _ => None,
    }
}

/// Parses one language directory's config file.
fn parse_language(id: &String, dirname: &String, d: &FileData) -> (r: Option<
    NEntry<LanguageManifestEntry>,
>)
    ensures
        match r {
            Some(e) => spec_parse_language(id@, dirname@, d@) == Some((e.name@, e.value@)),
            None => spec_parse_language(id@, dirname@, d@) is None,
        },
{
    match d {
        FileData::Record(rec) => {
            match record_first(rec, "name") {
                Some(name) => {
                    let entry = LanguageManifestEntry {
                        extension: id.clone(),
                        path: concat2("languages/", dirname.as_str()),
                        grammar: record_first(rec, "grammar"),
                        matcher: LanguageMatcher {
                            path_suffixes: record_all(rec, "path_suffix"),
                            first_line_pattern: record_first(rec, "first_line_pattern"),
                        },
                    };
                    proof {
                        let (sn, sv) = spec_parse_language(id@, dirname@, d@)->Some_0;
                        assert(entry@ =~= sv);
                    }
                    Some(NEntry { name, value: entry })
                },
                None => None,
            }
        },
        _ => None,
    }
}

/// The language-server entry a config file declares, keyed by its directory.
pub open spec fn spec_parse_server(id: Seq<char>, dirname: Seq<char>, d: FileDataV) -> Option<
    (Seq<char>, LanguageServerEntryV),
> {
    match d {
        FileDataV::Record(r) => match (rec_first(r, "language"@), rec_first(r, "name"@)) {
            (Some(language), Some(_)) => Some(
                (
                    dirname,
                    LanguageServerEntryV {
                        extension: id,
                        path: "language_servers/"@ + dirname,
                        language: language,
                    },
                ),
            ),
            _ => None,
        },
        _ => None,
    }
}

/// Parses one language-server directory's config file.
fn parse_server(id: &String, dirname: &String, d: &FileData) -> (r: Option<
    NEntry<LanguageServerManifestEntry>,
>)
    ensures
        match r {
            Some(e) => spec_parse_server(id@, dirname@, d@) == Some((e.name@, e.value@)),
            None => spec_parse_server(id@, dirname@, d@) is None,
        },
{
    match d {
        FileData::Record(rec) => {
            match (record_first(rec, "language"), record_first(rec, "name")) {
                (Some(language), Some(_name)) => {
                    let entry = LanguageServerManifestEntry {
                        extension: id.clone(),
                        path: concat2("language_servers/", dirname.as_str()),
                        language,
                    };
                    proof {
                        let (sn, sv) = spec_parse_server(id@, dirname@, d@)->Some_0;
                        assert(entry@ =~= sv);
                    }
                    Some(NEntry { name: dirname.clone(), value: entry })
                },
                _ => None,
            }
        },
        _ => None,
    }
}

/// The grammar entries of an extension: one per listed file stem.
pub open spec fn spec_grammar_entries(id: Seq<char>, files: Seq<(Seq<char>, FileDataV)>) -> Seq<
    (Seq<char>, GrammarEntryV),
> {
    files.map(
        |i: int, f: (Seq<char>, FileDataV)|
            (f.0, GrammarEntryV { extension: id, path: "grammars/"@ + f.0 + ".wasm"@ }),
    )
}

/// The theme entries one family file declares: one per variant, all sharing
/// the file's path and the owning extension.
pub open spec fn spec_theme_entries(id: Seq<char>, fname: Seq<char>, t: crate::vfs::ThemeFamilyV)
    -> Seq<(Seq<char>, ThemeEntryV)> {
    t.variants.map(
        |i: int, v: (Seq<char>, Seq<char>)|
            (v.0, ThemeEntryV { extension: id, path: "themes/"@ + fname }),
    )
}

/// The language entries of an extension, or nothing if any config is bad.
pub open spec fn spec_scan_languages(id: Seq<char>, files: Seq<(Seq<char>, FileDataV)>) -> Option<
    Seq<(Seq<char>, LanguageEntryV)>,
>
    decreases files.len(),
{
    if files.len() == 0 {
        Some(Seq::empty())
    } else {
        match spec_scan_languages(id, files.drop_last()) {
            None => None,
            Some(rest) => match spec_parse_language(id, files.last().0, files.last().1) {
                None => None,
                Some(p) => Some(rest.push(p)),
            },
        }
    }
}

/// The language-server entries of an extension, or nothing on a bad config.
pub open spec fn spec_scan_servers(id: Seq<char>, files: Seq<(Seq<char>, FileDataV)>) -> Option<
    Seq<(Seq<char>, LanguageServerEntryV)>,
>
    decreases files.len(),
{
    if files.len() == 0 {
        Some(Seq::empty())
    } else {
        match spec_scan_servers(id, files.drop_last()) {
            None => None,
            Some(rest) => match spec_parse_server(id, files.last().0, files.last().1) {
                None => None,
                Some(p) => Some(rest.push(p)),
            },
        }
    }
}

/// The theme entries of an extension, or nothing on a bad theme file.
pub open spec fn spec_scan_themes(id: Seq<char>, files: Seq<(Seq<char>, FileDataV)>) -> Option<
    Seq<(Seq<char>, ThemeEntryV)>,
>
    decreases files.len(),
{
    if files.len() == 0 {
        Some(Seq::empty())
    } else {
        match spec_scan_themes(id, files.drop_last()) {
            None => None,
            Some(rest) => match files.last().1 {
                FileDataV::ThemeFamily(t) => Some(rest + spec_theme_entries(id, files.last().0, t)),
                _ => None,
            },
        }
    }
}

/// Everything one extension directory provides, or nothing if it is
/// malformed: the descriptor must parse and every config must parse.
pub open spec fn spec_scan_ext(id: Seq<char>, d: ExtDirDataV) -> Option<BundleV> {
    match spec_parse_descriptor(d.descriptor, id) {
        None => None,
        Some(version) => match (
            spec_scan_languages(id, d.languages),
            spec_scan_themes(id, d.themes),
            spec_scan_servers(id, d.language_servers),
        ) {
            (Some(ls), Some(ts), Some(ss)) => Some(
                BundleV {
                    id: id,
                    version: version,
                    grammars: spec_grammar_entries(id, d.grammars),
                    languages: ls,
                    themes: ts,
                    language_servers: ss,
                },
            ),
            _ => None,
        },
    }
}

/// One scanned extension's contribution to the manifest.
pub struct ExtensionBundle {
    pub id: String,
    pub version: String,
    pub grammars: Vec<NEntry<GrammarManifestEntry>>,
    pub languages: Vec<NEntry<LanguageManifestEntry>>,
    pub themes: Vec<NEntry<ThemeManifestEntry>>,
    pub language_servers: Vec<NEntry<LanguageServerManifestEntry>>,
}

/// Abstract value of a bundle.
#[verifier::ext_equal]
pub struct BundleV {
    pub id: Seq<char>,
    pub version: Seq<char>,
    pub grammars: Seq<(Seq<char>, GrammarEntryV)>,
    pub languages: Seq<(Seq<char>, LanguageEntryV)>,
    pub themes: Seq<(Seq<char>, ThemeEntryV)>,
    pub language_servers: Seq<(Seq<char>, LanguageServerEntryV)>,
}

impl View for ExtensionBundle {
    type V = BundleV;

    open spec fn view(&self) -> BundleV {
        BundleV {
            id: self.id@,
            version: self.version@,
            grammars: entries_view(self.grammars@),
            languages: entries_view(self.languages@),
            themes: entries_view(self.themes@),
            language_servers: entries_view(self.language_servers@),
        }
    }
}

/// A failed prefix fails the whole fold over language configs.
proof fn lemma_scan_languages_none(id: Seq<char>, files: Seq<(Seq<char>, FileDataV)>, i: int)
    requires
        0 <= i <= files.len(),
        spec_scan_languages(id, files.take(i)) is None,
    ensures
        spec_scan_languages(id, files) is None,
    decreases files.len() - i,
{
    if i < files.len() {
        assert(files.take(i + 1).drop_last() =~= files.take(i));
        lemma_scan_languages_none(id, files, i + 1);
    } else {
        assert(files.take(i) =~= files);
    }
}

/// A failed prefix fails the whole fold over theme files.
proof fn lemma_scan_themes_none(id: Seq<char>, files: Seq<(Seq<char>, FileDataV)>, i: int)
    requires
        0 <= i <= files.len(),
        spec_scan_themes(id, files.take(i)) is None,
    ensures
        spec_scan_themes(id, files) is None,
    decreases files.len() - i,
{
    if i < files.len() {
        assert(files.take(i + 1).drop_last() =~= files.take(i));
        lemma_scan_themes_none(id, files, i + 1);
    } else {
        assert(files.take(i) =~= files);
    }
}

/// A failed prefix fails the whole fold over server configs.
proof fn lemma_scan_servers_none(id: Seq<char>, files: Seq<(Seq<char>, FileDataV)>, i: int)
    requires
        0 <= i <= files.len(),
        spec_scan_servers(id, files.take(i)) is None,
    ensures
        spec_scan_servers(id, files) is None,
    decreases files.len() - i,
{
    if i < files.len() {
        assert(files.take(i + 1).drop_last() =~= files.take(i));
        lemma_scan_servers_none(id, files, i + 1);
    } else {
        assert(files.take(i) =~= files);
    }
}

/// Scans one extension directory into a bundle; a malformed directory
/// yields nothing and is skipped by the callers.
pub fn scan_extension(id: &String, d: &ExtDirData) -> (r: Option<ExtensionBundle>)
    ensures
        match r {
            Some(b) => spec_scan_ext(id@, d@) == Some(b@),
            None => spec_scan_ext(id@, d@) is None,
        },
{
    let version = match parse_descriptor(&d.descriptor, id) {
        Some(v) => v,
        None => {
            return None;
        },
    };
    // Grammars: one entry per file stem; the binary itself is opaque here.
    let mut grammars: Vec<NEntry<GrammarManifestEntry>> = Vec::new();
    let gn = d.grammars.len();
    let mut i: usize = 0;
    while i < gn
        invariant
            i <= gn,
            gn == d.grammars@.len(),
            grammars@.len() == i,
            forall|j: int|
                0 <= j < i ==> (#[trigger] entries_view(grammars@)[j]) == spec_grammar_entries(
                    id@,
                    entries_view(d.grammars@),
                )[j],
        decreases gn - i,
    {
        let stem = &d.grammars[i].name;
        let ghost prev = grammars@;
        grammars.push(
            NEntry {
                name: stem.clone(),
                value: GrammarManifestEntry {
                    extension: id.clone(),
                    path: concat3("grammars/", stem.as_str(), ".wasm"),
                },
            },
        );
        proof {
            let gv = entries_view(grammars@);
            let sv = spec_grammar_entries(id@, entries_view(d.grammars@));
            assert forall|j: int| 0 <= j < i implies #[trigger] gv[j] == sv[j] by {
                assert(grammars@[j] == prev[j]);
                assert(entries_view(prev)[j] == sv[j]);
            }
            assert(entries_view(d.grammars@)[i as int].0 == d.grammars@[i as int].name@);
            assert(sv[i as int].0 == d.grammars@[i as int].name@);
            assert(gv[i as int].0 == sv[i as int].0);
            assert(gv[i as int].1 =~= sv[i as int].1);
            assert(gv[i as int] == sv[i as int]);
        }
        i = i + 1;
    }
    proof {
        assert(entries_view(grammars@) =~= spec_grammar_entries(id@, entries_view(d.grammars@)));
    }
    // Languages: each directory's config must parse.
    let mut languages: Vec<NEntry<LanguageManifestEntry>> = Vec::new();
    let ln = d.languages.len();
    let ghost lfiles = entries_view(d.languages@);
    let mut i: usize = 0;
    proof {
        assert(lfiles.take(0) =~= Seq::empty());
        assert(entries_view(languages@) =~= Seq::<(Seq<char>, LanguageEntryV)>::empty());
    }
    while i < ln
        invariant
            i <= ln,
            ln == d.languages@.len(),
            lfiles == entries_view(d.languages@),
            lfiles.len() == ln,
            spec_scan_languages(id@, lfiles.take(i as int)) == Some(entries_view(languages@)),
        decreases ln - i,
    {
        proof {
            assert(lfiles.take(i as int + 1).drop_last() =~= lfiles.take(i as int));
            assert(lfiles[i as int] == (d.languages@[i as int].name@, d.languages@[i as int].value@));
        }
        match parse_language(id, &d.languages[i].name, &d.languages[i].value) {
            Some(e) => {
                let ghost prev = entries_view(languages@);
                languages.push(e);
                proof {
                    assert(entries_view(languages@) =~= prev.push((e.name@, e.value@)));
                }
            },
            None => {
                proof {
                    lemma_scan_languages_none(id@, lfiles, i as int + 1);
                }
                return None;
            },
        }
        i = i + 1;
    }
    proof {
        assert(lfiles.take(ln as int) =~= lfiles);
    }
    // Themes: each family file fans out into one entry per variant.
    let mut themes: Vec<NEntry<ThemeManifestEntry>> = Vec::new();
    let tn = d.themes.len();
    let ghost tfiles = entries_view(d.themes@);
    let mut i: usize = 0;
    proof {
        assert(tfiles.take(0) =~= Seq::empty());
        assert(entries_view(themes@) =~= Seq::<(Seq<char>, ThemeEntryV)>::empty());
    }
    while i < tn
        invariant
            i <= tn,
            tn == d.themes@.len(),
            tfiles == entries_view(d.themes@),
            tfiles.len() == tn,
            spec_scan_themes(id@, tfiles.take(i as int)) == Some(entries_view(themes@)),
        decreases tn - i,
    {
        proof {
            assert(tfiles.take(i as int + 1).drop_last() =~= tfiles.take(i as int));
            assert(tfiles[i as int] == (d.themes@[i as int].name@, d.themes@[i as int].value@));
        }
        let fname = &d.themes[i].name;
        match &d.themes[i].value {
            FileData::ThemeFamily(fam) => {
                let ghost prev = entries_view(themes@);
                let vn = fam.variants.len();
                let mut k: usize = 0;
                while k < vn
                    invariant
                        k <= vn,
                        vn == fam.variants@.len(),
                        fname@ == d.themes@[i as int].name@,
                        entries_view(themes@) =~= prev + spec_theme_entries(
                            id@,
                            fname@,
                            fam@,
                        ).take(k as int),
                    decreases vn - k,
                {
                    let ghost prev2 = entries_view(themes@);
                    themes.push(
                        NEntry {
                            name: fam.variants[k].name.clone(),
                            value: ThemeManifestEntry {
                                extension: id.clone(),
                                path: concat2("themes/", fname.as_str()),
                            },
                        },
                    );
                    proof {
                        assert(spec_theme_entries(id@, fname@, fam@)[k as int] == (
                        fam.variants@[k as int].name@,
                        ThemeEntryV { extension: id@, path: "themes/"@ + fname@ },
                        ));
                        assert(entries_view(themes@) =~= prev2.push(
                            spec_theme_entries(id@, fname@, fam@)[k as int],
                        ));
                        assert(spec_theme_entries(id@, fname@, fam@).take(k as int + 1)
                            =~= spec_theme_entries(id@, fname@, fam@).take(k as int).push(
                            spec_theme_entries(id@, fname@, fam@)[k as int],
                        ));
                    }
                    k = k + 1;
                }
                proof {
                    assert(spec_theme_entries(id@, fname@, fam@).take(vn as int)
                        =~= spec_theme_entries(id@, fname@, fam@));
                    assert(tfiles[i as int].1 == FileDataV::ThemeFamily(fam@));
                }
            },
            _ => {
                proof {
                    lemma_scan_themes_none(id@, tfiles, i as int + 1);
                }
                return None;
            },
        }
        i = i + 1;
    }
    proof {
        assert(tfiles.take(tn as int) =~= tfiles);
    }
    // Language servers: each directory's config must parse.
    let mut language_servers: Vec<NEntry<LanguageServerManifestEntry>> = Vec::new();
    let sn = d.language_servers.len();
    let ghost sfiles = entries_view(d.language_servers@);
    let mut i: usize = 0;
    proof {
        assert(sfiles.take(0) =~= Seq::empty());
        assert(entries_view(language_servers@) =~= Seq::<
            (Seq<char>, LanguageServerEntryV),
        >::empty());
    }
    while i < sn
        invariant
            i <= sn,
            sn == d.language_servers@.len(),
            sfiles == entries_view(d.language_servers@),
            sfiles.len() == sn,
            spec_scan_servers(id@, sfiles.take(i as int)) == Some(entries_view(language_servers@)),
        decreases sn - i,
    {
        proof {
            assert(sfiles.take(i as int + 1).drop_last() =~= sfiles.take(i as int));
            assert(sfiles[i as int] == (
            d.language_servers@[i as int].name@,
            d.language_servers@[i as int].value@,
            ));
        }
        match parse_server(id, &d.language_servers[i].name, &d.language_servers[i].value) {
            Some(e) => {
                let ghost prev = entries_view(language_servers@);
                language_servers.push(e);
                proof {
                    assert(entries_view(language_servers@) =~= prev.push((e.name@, e.value@)));
                }
            },
            None => {
                proof {
                    lemma_scan_servers_none(id@, sfiles, i as int + 1);
                }
                return None;
            },
        }
        i = i + 1;
    }
    proof {
        assert(sfiles.take(sn as int) =~= sfiles);
    }
    let b = ExtensionBundle {
        id: id.clone(),
        version,
        grammars,
        languages,
        themes,
        language_servers,
    };
    proof {
        assert(spec_scan_ext(id@, d@) == Some(b@));
    }
    Some(b)
}

/// A run of pairs folded into a map, first to last; a later pair wins.
pub open spec fn insert_pairs<V>(m: Map<Seq<char>, V>, s: Seq<(Seq<char>, V)>) -> Map<
    Seq<char>,
    V,
>
    decreases s.len(),
{
    if s.len() == 0 {
        m
    } else {
        insert_pairs(m, s.drop_last()).insert(s.last().0, s.last().1)
    }
}

/// A manifest with one bundle's entries put in, the extension entry included.
pub open spec fn spec_apply_bundle(m: ManifestV, b: BundleV) -> ManifestV {
    ManifestV {
        extensions: m.extensions.insert(b.id, ExtensionEntryV { id: b.id, version: b.version }),
        grammars: insert_pairs(m.grammars, b.grammars),
        languages: insert_pairs(m.languages, b.languages),
        themes: insert_pairs(m.themes, b.themes),
        language_servers: insert_pairs(m.language_servers, b.language_servers),
    }
}

/// A manifest with one extension directory folded in; a malformed directory
/// changes nothing.
pub open spec fn spec_add_ext(m: ManifestV, id: Seq<char>, d: ExtDirDataV) -> ManifestV {
    match spec_scan_ext(id, d) {
        None => m,
        Some(b) => spec_apply_bundle(m, b),
    }
}

/// The empty manifest value.
pub open spec fn spec_empty_manifest() -> ManifestV {
    ManifestV {
        extensions: Map::empty(),
        grammars: Map::empty(),
        languages: Map::empty(),
        themes: Map::empty(),
        language_servers: Map::empty(),
    }
}

/// The manifest that a run of extension directories denotes, folded in the
/// scanner's (name-sorted) order.
pub open spec fn spec_manifest_of(pairs: Seq<(Seq<char>, ExtDirDataV)>) -> ManifestV
    decreases pairs.len(),
{
    if pairs.len() == 0 {
        spec_empty_manifest()
    } else {
        spec_add_ext(spec_manifest_of(pairs.drop_last()), pairs.last().0, pairs.last().1)
    }
}

/// Puts a bundle's entries into a manifest, category by category.
pub fn apply_bundle(m: &mut Manifest, b: &ExtensionBundle)
    requires
        old(m).wf(),
    ensures
        final(m).wf(),
        final(m)@ == spec_apply_bundle(old(m)@, b@),
{
    m.extensions.insert(
        NEntry {
            name: b.id.clone(),
            value: ExtensionEntry { id: b.id.clone(), version: b.version.clone() },
        },
    );
    proof {
        assert(m@.extensions =~= old(m)@.extensions.insert(
            b@.id,
            ExtensionEntryV { id: b@.id, version: b@.version },
        ));
    }
    let gn = b.grammars.len();
    let mut i: usize = 0;
    proof {
        assert(b@.grammars.take(0) =~= Seq::empty());
    }
    while i < gn
        invariant
            i <= gn,
            gn == b.grammars@.len(),
            m.grammars.wf(),
            m.grammars@ == insert_pairs(old(m)@.grammars, b@.grammars.take(i as int)),
            m.languages == old(m).languages,
            m.themes == old(m).themes,
            m.language_servers == old(m).language_servers,
            m.extensions.wf(),
            m.extensions@ == old(m)@.extensions.insert(
                b@.id,
                ExtensionEntryV { id: b@.id, version: b@.version },
            ),
        decreases gn - i,
    {
        proof {
            assert(b@.grammars.take(i as int + 1).drop_last() =~= b@.grammars.take(i as int));
            assert(b@.grammars[i as int] == (b.grammars@[i as int].name@, b.grammars@[i as int].value@));
        }
        m.grammars.insert(
            NEntry { name: b.grammars[i].name.clone(), value: b.grammars[i].value.dup() },
        );
        i = i + 1;
    }
    proof {
        assert(b@.grammars.take(gn as int) =~= b@.grammars);
    }
    let ln = b.languages.len();
    let mut i: usize = 0;
    proof {
        assert(b@.languages.take(0) =~= Seq::empty());
    }
    while i < ln
        invariant
            i <= ln,
            ln == b.languages@.len(),
            m.languages.wf(),
            m.languages@ == insert_pairs(old(m)@.languages, b@.languages.take(i as int)),
            m.grammars.wf(),
            m.grammars@ == insert_pairs(old(m)@.grammars, b@.grammars),
            m.themes == old(m).themes,
            m.language_servers == old(m).language_servers,
            m.extensions.wf(),
            m.extensions@ == old(m)@.extensions.insert(
                b@.id,
                ExtensionEntryV { id: b@.id, version: b@.version },
            ),
        decreases ln - i,
    {
        proof {
            assert(b@.languages.take(i as int + 1).drop_last() =~= b@.languages.take(i as int));
            assert(b@.languages[i as int] == (
            b.languages@[i as int].name@,
            b.languages@[i as int].value@,
            ));
        }
        m.languages.insert(
            NEntry { name: b.languages[i].name.clone(), value: b.languages[i].value.dup() },
        );
        i = i + 1;
    }
    proof {
        assert(b@.languages.take(ln as int) =~= b@.languages);
    }
    let tn = b.themes.len();
    let mut i: usize = 0;
    proof {
        assert(b@.themes.take(0) =~= Seq::empty());
    }
    while i < tn
        invariant
            i <= tn,
            tn == b.themes@.len(),
            m.themes.wf(),
            m.themes@ == insert_pairs(old(m)@.themes, b@.themes.take(i as int)),
            m.grammars.wf(),
            m.grammars@ == insert_pairs(old(m)@.grammars, b@.grammars),
            m.languages.wf(),
            m.languages@ == insert_pairs(old(m)@.languages, b@.languages),
            m.language_servers == old(m).language_servers,
            m.extensions.wf(),
            m.extensions@ == old(m)@.extensions.insert(
                b@.id,
                ExtensionEntryV { id: b@.id, version: b@.version },
            ),
        decreases tn - i,
    {
        proof {
            assert(b@.themes.take(i as int + 1).drop_last() =~= b@.themes.take(i as int));
            assert(b@.themes[i as int] == (b.themes@[i as int].name@, b.themes@[i as int].value@));
        }
        m.themes.insert(NEntry { name: b.themes[i].name.clone(), value: b.themes[i].value.dup() });
        i = i + 1;
    }
    proof {
        assert(b@.themes.take(tn as int) =~= b@.themes);
    }
    let sn = b.language_servers.len();
    let mut i: usize = 0;
    proof {
        assert(b@.language_servers.take(0) =~= Seq::empty());
    }
    while i < sn
        invariant
            i <= sn,
            sn == b.language_servers@.len(),
            m.language_servers.wf(),
            m.language_servers@ == insert_pairs(
                old(m)@.language_servers,
                b@.language_servers.take(i as int),
            ),
            m.grammars.wf(),
            m.grammars@ == insert_pairs(old(m)@.grammars, b@.grammars),
            m.languages.wf(),
            m.languages@ == insert_pairs(old(m)@.languages, b@.languages),
            m.themes.wf(),
            m.themes@ == insert_pairs(old(m)@.themes, b@.themes),
            m.extensions.wf(),
            m.extensions@ == old(m)@.extensions.insert(
                b@.id,
                ExtensionEntryV { id: b@.id, version: b@.version },
            ),
        decreases sn - i,
    {
        proof {
            assert(b@.language_servers.take(i as int + 1).drop_last() =~= b@.language_servers.take(
                i as int,
            ));
            assert(b@.language_servers[i as int] == (
            b.language_servers@[i as int].name@,
            b.language_servers@[i as int].value@,
            ));
        }
        m.language_servers.insert(
            NEntry {
                name: b.language_servers[i].name.clone(),
                value: b.language_servers[i].value.dup(),
            },
        );
        i = i + 1;
    }
    proof {
        assert(b@.language_servers.take(sn as int) =~= b@.language_servers);
        assert(m@ =~= spec_apply_bundle(old(m)@, b@));
    }
}

/// Scans the whole installed tree and builds the manifest it denotes.
/// A directory that fails to parse is skipped; the scan never fails.
pub fn build_manifest(fs: &mut MemFs) -> (r: Manifest)
    requires
        old(fs).wf(),
    ensures
        final(fs).wf(),
        final(fs).content() == old(fs).content(),
        final(fs).metadata_calls_spec() == old(fs).metadata_calls_spec(),
        r.wf(),
        r@ == spec_manifest_of(old(fs).content().installed),
{
    let ghost pairs = old(fs).content().installed;
    proof {
        fs.lemma_content_props();
    }
    let names = fs.list_extensions();
    let n = names.len();
    let mut m = Manifest::new();
    proof {
        assert(pairs.take(0) =~= Seq::empty());
        assert(m@ =~= spec_manifest_of(pairs.take(0)));
    }
    let mut i: usize = 0;
    while i < n
        invariant
            i <= n,
            n == pairs.len(),
            fs.wf(),
            fs.content() == old(fs).content(),
            fs.metadata_calls_spec() == old(fs).metadata_calls_spec(),
            pairs == old(fs).content().installed,
            names@.len() == n,
            forall|j: int| 0 <= j < n ==> (#[trigger] names@[j])@ == pairs[j].0,
            m.wf(),
            m@ == spec_manifest_of(pairs.take(i as int)),
        decreases n - i,
    {
        proof {
            fs.lemma_content_props();
            assert(pairs.take(i as int + 1).drop_last() =~= pairs.take(i as int));
        }
        let d = fs.read_dir_data(&names[i]);
        match d {
            Some(d) => {
                proof {
                    assert(fs.content().installed_map[names@[i as int]@] == pairs[i as int].1);
                }
                match scan_extension(&names[i], &d) {
                    Some(b) => {
                        apply_bundle(&mut m, &b);
                        proof {
                            assert(m@ == spec_manifest_of(pairs.take(i as int + 1)));
                        }
                    },
                    None => {
                        proof {
                            assert(m@ == spec_manifest_of(pairs.take(i as int + 1)));
                        }
                    },
                }
            },
            None => {
                proof {
                    assert(false);
                }
            },
        }
        i = i + 1;
    }
    proof {
        assert(pairs.take(n as int) =~= pairs);
    }
    m
}

/// Every language entry a fold yields is owned by the scanned extension.
proof fn lemma_scan_languages_owned(id: Seq<char>, files: Seq<(Seq<char>, FileDataV)>)
    ensures
        spec_scan_languages(id, files) matches Some(ls) ==> forall|j: int|
            0 <= j < ls.len() ==> (#[trigger] ls[j]).1.extension == id,
    decreases files.len(),
{
    if files.len() > 0 {
        lemma_scan_languages_owned(id, files.drop_last());
    }
}

/// Every language-server entry a fold yields is owned by the extension.
proof fn lemma_scan_servers_owned(id: Seq<char>, files: Seq<(Seq<char>, FileDataV)>)
    ensures
        spec_scan_servers(id, files) matches Some(ss) ==> forall|j: int|
            0 <= j < ss.len() ==> (#[trigger] ss[j]).1.extension == id,
    decreases files.len(),
{
    if files.len() > 0 {
        lemma_scan_servers_owned(id, files.drop_last());
    }
}

/// Every theme entry a fold yields is owned by the extension.
proof fn lemma_scan_themes_owned(id: Seq<char>, files: Seq<(Seq<char>, FileDataV)>)
    ensures
        spec_scan_themes(id, files) matches Some(ts) ==> forall|j: int|
            0 <= j < ts.len() ==> (#[trigger] ts[j]).1.extension == id,
    decreases files.len(),
{
    if files.len() > 0 {
        lemma_scan_themes_owned(id, files.drop_last());
    }
}

/// Folding in pairs all owned by one installed extension keeps every owner
/// installed.
proof fn lemma_insert_pairs_owned<V>(
    m: Map<Seq<char>, V>,
    s: Seq<(Seq<char>, V)>,
    owner_of: spec_fn(V) -> Seq<char>,
    exts: Map<Seq<char>, ExtensionEntryV>,
    id: Seq<char>,
)
    requires
        forall|k: Seq<char>| #[trigger] m.contains_key(k) ==> exts.contains_key(owner_of(m[k])),
        forall|j: int| 0 <= j < s.len() ==> owner_of((#[trigger] s[j]).1) == id,
        exts.contains_key(id),
    ensures
        forall|k: Seq<char>|
            #[trigger] insert_pairs(m, s).contains_key(k) ==> exts.contains_key(
                owner_of(insert_pairs(m, s)[k]),
            ),
    decreases s.len(),
{
    if s.len() > 0 {
        let t = s.drop_last();
        lemma_insert_pairs_owned(m, t, owner_of, exts, id);
        assert forall|k: Seq<char>| #[trigger] insert_pairs(m, s).contains_key(k) implies exts
            .contains_key(owner_of(insert_pairs(m, s)[k])) by {
            if k == s.last().0 {
                assert(owner_of(s[s.len() - 1].1) == id);
            } else {
                assert(insert_pairs(m, t).contains_key(k));
            }
        }
    }
}

/// Folding one extension directory in keeps the data-model invariant: the
/// extension entry carries its key as id, and every content entry it brings
/// is owned by that very extension, which now stands in `extensions`.
pub proof fn lemma_add_ext_owners_ok(m: ManifestV, id: Seq<char>, d: ExtDirDataV)
    requires
        crate::manifest::owners_ok(m),
    ensures
        crate::manifest::owners_ok(spec_add_ext(m, id, d)),
{
    match spec_scan_ext(id, d) {
        None => {},
        Some(b) => {
            let r = spec_apply_bundle(m, b);
            let exts = r.extensions;
            assert(exts.contains_key(id));
            assert forall|k: Seq<char>| #[trigger] m.grammars.contains_key(k) implies exts
                .contains_key(m.grammars[k].extension) by {}
            assert forall|k: Seq<char>| #[trigger] m.languages.contains_key(k) implies exts
                .contains_key(m.languages[k].extension) by {}
            assert forall|k: Seq<char>| #[trigger] m.themes.contains_key(k) implies exts
                .contains_key(m.themes[k].extension) by {}
            assert forall|k: Seq<char>| #[trigger] m.language_servers.contains_key(k) implies exts
                .contains_key(m.language_servers[k].extension) by {}
            assert forall|j: int| 0 <= j < b.grammars.len() implies (
            #[trigger] b.grammars[j]).1.extension == id by {
                assert(b.grammars[j] == spec_grammar_entries(id, d.grammars)[j]);
            }
            lemma_scan_languages_owned(id, d.languages);
            lemma_scan_themes_owned(id, d.themes);
            lemma_scan_servers_owned(id, d.language_servers);
            lemma_insert_pairs_owned(
                m.grammars,
                b.grammars,
                |v: GrammarEntryV| v.extension,
                exts,
                id,
            );
            lemma_insert_pairs_owned(
                m.languages,
                b.languages,
                |v: LanguageEntryV| v.extension,
                exts,
                id,
            );
            lemma_insert_pairs_owned(m.themes, b.themes, |v: ThemeEntryV| v.extension, exts, id);
            lemma_insert_pairs_owned(
                m.language_servers,
                b.language_servers,
                |v: LanguageServerEntryV| v.extension,
                exts,
                id,
            );
        },
    }
}

/// Every manifest a scan builds satisfies the data-model invariant: each
/// content entry's owner is an installed extension, and each extension entry
/// carries its own key as id.
pub proof fn lemma_manifest_of_owners_ok(pairs: Seq<(Seq<char>, ExtDirDataV)>)
    ensures
        crate::manifest::owners_ok(spec_manifest_of(pairs)),
    decreases pairs.len(),
{
    if pairs.len() > 0 {
        lemma_manifest_of_owners_ok(pairs.drop_last());
        lemma_add_ext_owners_ok(spec_manifest_of(pairs.drop_last()), pairs.last().0, pairs.last().1);
    }
}

} // verus!
