use extension_store::manifest::Manifest;
use extension_store::nmap::NEntry;
use extension_store::scan::{build_manifest, scan_extension, parse_descriptor};
use extension_store::vfs::{ExtDirData, FileData, MemFs, ThemeFamilySrc, ThemeVariantSrc};

fn record(pairs: &[(&str, &str)]) -> FileData {
    FileData::Record(
        pairs
            .iter()
            .map(|(k, v)| (k.to_string(), v.to_string()))
            .collect(),
    )
}

fn descriptor(id: &str, name: &str, version: &str) -> FileData {
    record(&[("id", id), ("name", name), ("version", version)])
}

fn file(name: &str, data: FileData) -> NEntry<FileData> {
    NEntry {
        name: name.to_string(),
        value: data,
    }
}

fn zed_ruby() -> ExtDirData {
    ExtDirData {
        descriptor: descriptor("zed-ruby", "Zed Ruby", "1.0.0"),
        themes: vec![],
        languages: vec![
            file(
                "erb",
                record(&[
                    ("name", "ERB"),
                    ("grammar", "embedded_template"),
                    ("path_suffix", "erb"),
                ]),
            ),
            file(
                "ruby",
                record(&[("name", "Ruby"), ("grammar", "ruby"), ("path_suffix", "rb")]),
            ),
        ],
        grammars: vec![file("embedded_template", FileData::Blob), file("ruby", FileData::Blob)],
        language_servers: vec![],
    }
}

fn zed_monokai() -> ExtDirData {
    ExtDirData {
        descriptor: descriptor("zed-monokai", "Zed Monokai", "2.0.0"),
        themes: vec![
            file(
                "monokai.json",
                FileData::ThemeFamily(ThemeFamilySrc {
                    name: "Monokai".to_string(),
                    author: "Someone".to_string(),
                    variants: vec![
                        ThemeVariantSrc {
                            name: "Monokai Dark".to_string(),
                            appearance: "dark".to_string(),
                        },
                        ThemeVariantSrc {
                            name: "Monokai Light".to_string(),
                            appearance: "light".to_string(),
                        },
                    ],
                }),
            ),
            file(
                "monokai-pro.json",
                FileData::ThemeFamily(ThemeFamilySrc {
                    name: "Monokai Pro".to_string(),
                    author: "Someone".to_string(),
                    variants: vec![
                        ThemeVariantSrc {
                            name: "Monokai Pro Dark".to_string(),
                            appearance: "dark".to_string(),
                        },
                        ThemeVariantSrc {
                            name: "Monokai Pro Light".to_string(),
                            appearance: "light".to_string(),
                        },
                    ],
                }),
            ),
        ],
        languages: vec![],
        grammars: vec![],
        language_servers: vec![],
    }
}

fn names(v: &Vec<String>) -> Vec<&str> {
    v.iter().map(|s| s.as_str()).collect()
}

#[test]
fn scan_builds_expected_manifest() {
    let mut fs = MemFs::new();
    fs.install_dir("zed-ruby".to_string(), zed_ruby());
    fs.install_dir("zed-monokai".to_string(), zed_monokai());

    let m: Manifest = build_manifest(&mut fs);

    assert_eq!(names(&m.extensions.names()), ["zed-monokai", "zed-ruby"]);
    let v = m.extensions.get(&"zed-ruby".to_string()).unwrap();
    assert_eq!(v.version, "1.0.0");
    let v = m.extensions.get(&"zed-monokai".to_string()).unwrap();
    assert_eq!(v.version, "2.0.0");

    assert_eq!(names(&m.grammars.names()), ["embedded_template", "ruby"]);
    let g = m.grammars.get(&"ruby".to_string()).unwrap();
    assert_eq!(g.extension, "zed-ruby");
    assert_eq!(g.path, "grammars/ruby.wasm");
    let g = m.grammars.get(&"embedded_template".to_string()).unwrap();
    assert_eq!(g.path, "grammars/embedded_template.wasm");

    assert_eq!(names(&m.languages.names()), ["ERB", "Ruby"]);
    let l = m.languages.get(&"Ruby".to_string()).unwrap();
    assert_eq!(l.extension, "zed-ruby");
    assert_eq!(l.path, "languages/ruby");
    assert_eq!(l.grammar.as_deref(), Some("ruby"));
    assert_eq!(l.matcher.path_suffixes, ["rb"]);
    assert!(l.matcher.first_line_pattern.is_none());
    let l = m.languages.get(&"ERB".to_string()).unwrap();
    assert_eq!(l.path, "languages/erb");
    assert_eq!(l.grammar.as_deref(), Some("embedded_template"));
    assert_eq!(l.matcher.path_suffixes, ["erb"]);

    assert_eq!(
        names(&m.themes.names()),
        ["Monokai Dark", "Monokai Light", "Monokai Pro Dark", "Monokai Pro Light"]
    );
    let t = m.themes.get(&"Monokai Dark".to_string()).unwrap();
    assert_eq!(t.extension, "zed-monokai");
    assert_eq!(t.path, "themes/monokai.json");
    let t = m.themes.get(&"Monokai Pro Light".to_string()).unwrap();
    assert_eq!(t.path, "themes/monokai-pro.json");

    assert_eq!(m.language_servers.len(), 0);
}

#[test]
fn malformed_extension_is_skipped() {
    let mut fs = MemFs::new();
    fs.install_dir("zed-ruby".to_string(), zed_ruby());
    fs.install_dir(
        "broken".to_string(),
        ExtDirData {
            descriptor: FileData::Corrupt,
            themes: vec![],
            languages: vec![],
            grammars: vec![],
            language_servers: vec![],
        },
    );
    let m = build_manifest(&mut fs);
    assert_eq!(names(&m.extensions.names()), ["zed-ruby"]);
}

#[test]
fn descriptor_must_match_directory() {
    let d = descriptor("other-id", "Other", "1.0.0");
    assert!(parse_descriptor(&d, &"zed-ruby".to_string()).is_none());
    let d = descriptor("zed-ruby", "Zed Ruby", "1.0.0");
    assert_eq!(parse_descriptor(&d, &"zed-ruby".to_string()).as_deref(), Some("1.0.0"));
}

#[test]
fn theme_file_fans_out_per_variant() {
    let b = scan_extension(&"zed-monokai".to_string(), &zed_monokai()).unwrap();
    assert_eq!(b.themes.len(), 4);
    assert!(b.themes.iter().all(|e| e.value.extension == "zed-monokai"));
    assert!(b
        .themes
        .iter()
        .take(2)
        .all(|e| e.value.path == "themes/monokai.json"));
}

#[test]
fn language_server_entries_are_tracked() {
    let mut fs = MemFs::new();
    fs.install_dir(
        "the-lsp-extension".to_string(),
        ExtDirData {
            descriptor: descriptor("the-lsp-extension", "The LSP Extension", "1.0.0"),
            themes: vec![],
            languages: vec![],
            grammars: vec![],
            language_servers: vec![file(
                "the-server",
                record(&[("language", "TypeScript"), ("name", "")]),
            )],
        },
    );
    let m = build_manifest(&mut fs);
    let s = m.language_servers.get(&"the-server".to_string()).unwrap();
    assert_eq!(s.extension, "the-lsp-extension");
    assert_eq!(s.language, "TypeScript");
    assert_eq!(s.path, "language_servers/the-server");
}

#[test]
fn rescan_of_unchanged_tree_is_identical() {
    let mut fs = MemFs::new();
    fs.install_dir("zed-ruby".to_string(), zed_ruby());
    fs.install_dir("zed-monokai".to_string(), zed_monokai());
    let m1 = build_manifest(&mut fs);
    let m2 = build_manifest(&mut fs);
    assert_eq!(names(&m1.extensions.names()), names(&m2.extensions.names()));
    assert_eq!(names(&m1.themes.names()), names(&m2.themes.names()));
    assert_eq!(names(&m1.languages.names()), names(&m2.languages.names()));
    assert_eq!(names(&m1.grammars.names()), names(&m2.grammars.names()));
}

#[test]
fn later_extension_wins_name_collisions() {
    let mut fs = MemFs::new();
    let mut a = zed_monokai();
    a.descriptor = descriptor("a-theme", "A", "1.0.0");
    let mut b = zed_monokai();
    b.descriptor = descriptor("b-theme", "B", "1.0.0");
    fs.install_dir("a-theme".to_string(), a);
    fs.install_dir("b-theme".to_string(), b);
    let m = build_manifest(&mut fs);
    // Both declare "Monokai Dark"; the extension later in sorted order wins.
    let t = m.themes.get(&"Monokai Dark".to_string()).unwrap();
    assert_eq!(t.extension, "b-theme");
}

#[test]
fn read_counts_are_tracked() {
    let mut fs = MemFs::new();
    fs.install_dir("zed-ruby".to_string(), zed_ruby());
    let before = fs.read_dir_call_count();
    let _ = build_manifest(&mut fs);
    assert!(fs.read_dir_call_count() > before);
    assert_eq!(fs.metadata_call_count(), 0);
}

use extension_store::sched::{step, StoreAction, StoreEvent, StoreState};
use extension_store::store::{ExtensionStore, StoreError};

fn zed_gruvbox() -> ExtDirData {
    ExtDirData {
        descriptor: descriptor("zed-gruvbox", "Zed Gruvbox", "1.0.0"),
        themes: vec![file(
            "gruvbox.json",
            FileData::ThemeFamily(ThemeFamilySrc {
                name: "Gruvbox".to_string(),
                author: "Someone Else".to_string(),
                variants: vec![ThemeVariantSrc {
                    name: "Gruvbox".to_string(),
                    appearance: "dark".to_string(),
                }],
            }),
        )],
        languages: vec![],
        grammars: vec![],
        language_servers: vec![],
    }
}

fn fixture_fs() -> MemFs {
    let mut fs = MemFs::new();
    fs.install_dir("zed-monokai".to_string(), zed_monokai());
    fs.install_dir("zed-ruby".to_string(), zed_ruby());
    fs
}

#[test]
fn construct_builds_manifest_and_syncs_registries() {
    let store = ExtensionStore::construct(fixture_fs());
    let m = store.manifest();
    assert_eq!(names(&m.extensions.names()), ["zed-monokai", "zed-ruby"]);
    assert_eq!(names(&m.grammars.names()), ["embedded_template", "ruby"]);
    assert_eq!(names(&m.themes.names()), [
        "Monokai Dark",
        "Monokai Light",
        "Monokai Pro Dark",
        "Monokai Pro Light"
    ]);
    // The registries list the extension-provided content plus the built-in
    // plain-text language and default theme.
    assert_eq!(
        names(&store.language_registry.language_names()),
        ["ERB", "Plain Text", "Ruby"]
    );
    assert_eq!(
        names(&store.language_registry.grammar_names()),
        ["embedded_template", "ruby"]
    );
    assert_eq!(names(&store.theme_registry.list_names()), [
        "Monokai Dark",
        "Monokai Light",
        "Monokai Pro Dark",
        "Monokai Pro Light",
        "One Dark"
    ]);
}

#[test]
fn reload_picks_up_a_new_extension() {
    let mut store = ExtensionStore::construct(fixture_fs());
    store.fs.install_dir("zed-gruvbox".to_string(), zed_gruvbox());
    store.reload();
    assert_eq!(names(&store.theme_registry.list_names()), [
        "Gruvbox",
        "Monokai Dark",
        "Monokai Light",
        "Monokai Pro Dark",
        "Monokai Pro Light",
        "One Dark"
    ]);
    let t = store.manifest().themes.get(&"Gruvbox".to_string()).unwrap();
    assert_eq!(t.extension, "zed-gruvbox");
    assert_eq!(t.path, "themes/gruvbox.json");
}

#[test]
fn reload_without_change_uses_the_cache() {
    let mut store = ExtensionStore::construct(fixture_fs());
    let before = names(&store.manifest().themes.names())
        .iter()
        .map(|s| s.to_string())
        .collect::<Vec<_>>();
    let prev_meta = store.fs.metadata_call_count();
    let prev_read_dir = store.fs.read_dir_call_count();
    store.reload();
    assert_eq!(names(&store.manifest().themes.names()), before);
    assert_eq!(store.fs.read_dir_call_count(), prev_read_dir);
    assert_eq!(store.fs.metadata_call_count(), prev_meta + 2);
}

#[test]
fn restart_reproduces_the_store_from_the_cache() {
    let store = ExtensionStore::construct(fixture_fs());
    let langs_before = store.language_registry.language_names();
    let grams_before = store.language_registry.grammar_names();
    let themes_before = store.theme_registry.list_names();
    // Tear the store down and build a new one over the unchanged tree.
    let fs = store.fs;
    let prev_meta = fs.metadata_call_count();
    let prev_read_dir = fs.read_dir_call_count();
    let store = ExtensionStore::construct(fs);
    assert_eq!(store.fs.read_dir_call_count(), prev_read_dir);
    assert_eq!(store.fs.metadata_call_count(), prev_meta + 2);
    assert_eq!(
        names(&store.language_registry.language_names()),
        names(&langs_before)
    );
    assert_eq!(
        names(&store.language_registry.grammar_names()),
        names(&grams_before)
    );
    assert_eq!(names(&store.theme_registry.list_names()), names(&themes_before));
}

#[test]
fn corrupt_cache_degrades_to_a_full_scan() {
    let mut store = ExtensionStore::construct(fixture_fs());
    store.fs.corrupt_cache();
    let prev_read_dir = store.fs.read_dir_call_count();
    store.reload();
    assert!(store.fs.read_dir_call_count() > prev_read_dir);
    assert_eq!(names(&store.manifest().extensions.names()), ["zed-monokai", "zed-ruby"]);
}

#[test]
fn uninstall_removes_exactly_the_owned_entries() {
    let mut store = ExtensionStore::construct(fixture_fs());
    store.uninstall_extension(&"zed-ruby".to_string()).unwrap();
    let m = store.manifest();
    assert_eq!(names(&m.extensions.names()), ["zed-monokai"]);
    assert_eq!(m.grammars.len(), 0);
    assert_eq!(m.languages.len(), 0);
    assert_eq!(names(&m.themes.names()), [
        "Monokai Dark",
        "Monokai Light",
        "Monokai Pro Dark",
        "Monokai Pro Light"
    ]);
    assert_eq!(names(&store.language_registry.language_names()), ["Plain Text"]);
    assert_eq!(names(&store.language_registry.grammar_names()), Vec::<&str>::new());
}

#[test]
fn uninstall_of_a_missing_extension_changes_nothing() {
    let mut store = ExtensionStore::construct(fixture_fs());
    let r = store.uninstall_extension(&"absent".to_string());
    assert!(matches!(r, Err(StoreError::IoError)));
    assert_eq!(names(&store.manifest().extensions.names()), ["zed-monokai", "zed-ruby"]);
}

#[test]
fn install_while_ready_adds_without_disturbing_others() {
    let mut store = ExtensionStore::construct(fixture_fs());
    store
        .install_extension("zed-gruvbox".to_string(), zed_gruvbox())
        .unwrap();
    let m = store.manifest();
    assert_eq!(names(&m.extensions.names()), ["zed-gruvbox", "zed-monokai", "zed-ruby"]);
    assert_eq!(names(&m.themes.names()), [
        "Gruvbox",
        "Monokai Dark",
        "Monokai Light",
        "Monokai Pro Dark",
        "Monokai Pro Light"
    ]);
    // Entries of the already-installed extensions are untouched.
    assert_eq!(names(&m.grammars.names()), ["embedded_template", "ruby"]);
    assert_eq!(
        names(&store.language_registry.language_names()),
        ["ERB", "Plain Text", "Ruby"]
    );
}

#[test]
fn install_of_a_malformed_extension_is_refused() {
    let mut store = ExtensionStore::construct(fixture_fs());
    let broken = ExtDirData {
        descriptor: FileData::Corrupt,
        themes: vec![],
        languages: vec![],
        grammars: vec![],
        language_servers: vec![],
    };
    let r = store.install_extension("broken".to_string(), broken);
    assert!(matches!(r, Err(StoreError::ParseError)));
    assert_eq!(names(&store.manifest().extensions.names()), ["zed-monokai", "zed-ruby"]);
    assert!(!store.fs.has_dir(&"broken".to_string()));
}

#[test]
fn reinstall_replaces_the_owned_entries() {
    let mut store = ExtensionStore::construct(fixture_fs());
    let mut updated = zed_ruby();
    updated.descriptor = descriptor("zed-ruby", "Zed Ruby", "2.0.0");
    updated.languages.remove(0); // drop ERB
    store
        .install_extension("zed-ruby".to_string(), updated)
        .unwrap();
    let m = store.manifest();
    assert_eq!(m.extensions.get(&"zed-ruby".to_string()).unwrap().version, "2.0.0");
    assert_eq!(names(&m.languages.names()), ["Ruby"]);
    assert_eq!(
        names(&store.language_registry.language_names()),
        ["Plain Text", "Ruby"]
    );
}

#[test]
fn a_reload_during_a_reload_is_coalesced() {
    let (s, a) = step(StoreState::Uninitialized, StoreEvent::ReloadRequested);
    assert!(matches!(a, StoreAction::StartCycle));
    assert!(matches!(s, StoreState::Loading));
    let (s, a) = step(s, StoreEvent::CycleCompleted);
    assert!(matches!(a, StoreAction::Idle));
    let (s, a) = step(s, StoreEvent::ReloadRequested);
    assert!(matches!(a, StoreAction::StartCycle));
    let (s, a) = step(s, StoreEvent::ReloadRequested);
    assert!(matches!(a, StoreAction::Coalesce));
    assert!(matches!(s, StoreState::Reloading { pending: true }));
    let (s, a) = step(s, StoreEvent::CycleCompleted);
    assert!(matches!(a, StoreAction::Idle));
    assert!(matches!(s, StoreState::Ready));
}
