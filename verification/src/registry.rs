//! The language and theme registries this core keeps in step with the
//! manifest.
//!
//! They track the extension-provided entries; the sync only registers and
//! removes extension content. Each registry also carries one built-in name —
//! the plain-text language, the default theme — which the name listings
//! always include and which no removal ever touches.
use crate::manifest::{GrammarManifestEntry, LanguageManifestEntry, ThemeManifestEntry};
use crate::nmap::NamedMap;
use crate::order::{chars_lt, lemma_chars_lt_total, string_lt};
use crate::text::str_eq;
use vstd::prelude::*;

verus! {

/// A run of names with one more put in at its place in the order; a name
/// already present is not doubled.
pub open spec fn spec_insert_name(s: Seq<Seq<char>>, x: Seq<char>) -> Seq<Seq<char>>
    decreases s.len(),
{
    if s.len() == 0 {
        seq![x]
    } else if chars_lt(s[0], x) {
        seq![s[0]] + spec_insert_name(s.drop_first(), x)
    } else if s[0] == x {
        s
    } else {
        seq![x] + s
    }
}

/// Puts one name into a run of names at its place in the order.
fn insert_name_sorted(v: &Vec<String>, b: &str) -> (r: Vec<String>)
    ensures
        r.deep_view() == spec_insert_name(v.deep_view(), b@),
{
    let bs = b.to_owned();
    let n = v.len();
    let ghost full = v.deep_view();
    let mut out: Vec<String> = Vec::new();
    let mut i: usize = 0;
    proof {
        assert(full.skip(0) =~= full);
        assert(out.deep_view() =~= Seq::<Seq<char>>::empty());
        assert(Seq::<Seq<char>>::empty() + spec_insert_name(full, b@) =~= spec_insert_name(
            full,
            b@,
        ));
    }
    loop
        invariant
            i <= n,
            n == full.len(),
            full == v.deep_view(),
            bs@ == b@,
            out.deep_view().len() == i,
            spec_insert_name(full, b@) =~= out.deep_view() + spec_insert_name(
                full.skip(i as int),
                b@,
            ),
        ensures
            i <= n,
            out.deep_view().len() == i,
            spec_insert_name(full, b@) =~= out.deep_view() + spec_insert_name(
                full.skip(i as int),
                b@,
            ),
            i == n || !chars_lt(full[i as int], b@),
        decreases n - i,
    {
        if i == n {
            break ;
        }
        proof {
            assert(full[i as int] == v@[i as int]@);
        }
        if !string_lt(&v[i], &bs) {
            break ;
        }
        proof {
            assert(full.skip(i as int)[0] == full[i as int]);
            assert(full[i as int] == v@[i as int]@);
            assert(full.skip(i as int).drop_first() =~= full.skip(i as int + 1));
        }
        let ghost prev = out.deep_view();
        out.push(v[i].clone());
        proof {
            assert(out.deep_view() =~= prev.push(full[i as int]));
            assert(spec_insert_name(full.skip(i as int), b@) =~= seq![full[i as int]]
                + spec_insert_name(full.skip(i as int + 1), b@));
            assert(prev + spec_insert_name(full.skip(i as int), b@) =~= out.deep_view()
                + spec_insert_name(full.skip(i as int + 1), b@));
        }
        i = i + 1;
    }
    let ghost base = out.deep_view();
    if i == n {
        proof {
            assert(full.skip(i as int) =~= Seq::<Seq<char>>::empty());
        }
        out.push(bs);
        proof {
            assert(out.deep_view() =~= base.push(b@));
            assert(base + seq![b@] =~= out.deep_view());
        }
        return out;
    }
    proof {
        assert(full.skip(i as int)[0] == full[i as int]);
        assert(full[i as int] == v@[i as int]@);
    }
    if !str_eq(v[i].as_str(), b) {
        proof {
            lemma_chars_lt_total(full[i as int], b@);
            assert(chars_lt(b@, full[i as int]));
            assert(spec_insert_name(full.skip(i as int), b@) =~= seq![b@] + full.skip(i as int));
        }
        out.push(bs);
        proof {
            assert(out.deep_view() =~= base.push(b@));
            assert(base.push(b@) + full.skip(i as int) =~= base + (seq![b@] + full.skip(i as int)));
            assert(out.deep_view() + full.skip(i as int) =~= base + spec_insert_name(
                full.skip(i as int),
                b@,
            ));
        }
    } else {
        proof {
            assert(spec_insert_name(full.skip(i as int), b@) =~= full.skip(i as int));
            assert(out.deep_view() + full.skip(i as int) =~= base + spec_insert_name(
                full.skip(i as int),
                b@,
            ));
        }
    }
    let ghost mid = out.deep_view();
    let ghost j0 = i as int;
    let mut j: usize = i;
    proof {
        assert(full.subrange(j0, j0) =~= Seq::<Seq<char>>::empty());
        assert(mid + full.subrange(j0, j0) =~= mid);
    }
    while j < n
        invariant
            0 <= j0 <= j as int <= n,
            n == full.len(),
            full == v.deep_view(),
            out.deep_view() =~= mid + full.subrange(j0, j as int),
        decreases n - j,
    {
        let ghost prev = out.deep_view();
        out.push(v[j].clone());
        proof {
            assert(out.deep_view() =~= prev.push(full[j as int]));
            assert(full.subrange(j0, j as int + 1) =~= full.subrange(j0, j as int).push(
                full[j as int],
            ));
            assert(mid + full.subrange(j0, j as int + 1) =~= prev.push(full[j as int]));
        }
        j = j + 1;
    }
    proof {
        assert(full.subrange(j0, n as int) =~= full.skip(j0));
        assert(out.deep_view() =~= mid + full.skip(j0));
        assert(mid + full.skip(j0) =~= base + spec_insert_name(full.skip(j0), b@));
        assert(spec_insert_name(full, b@) =~= base + spec_insert_name(full.skip(j0), b@));
    }
    out
}

/// The language registry: registered languages and grammars, by name.
pub struct LanguageRegistry {
    pub languages: NamedMap<LanguageManifestEntry>,
    pub grammars: NamedMap<GrammarManifestEntry>,
}

impl LanguageRegistry {
    pub open spec fn wf(&self) -> bool {
        self.languages.wf() && self.grammars.wf()
    }

    /// An empty registry.
    pub fn new() -> (r: Self)
        ensures
            r.wf(),
            r.languages@ == Map::<Seq<char>, crate::manifest::LanguageEntryV>::empty(),
            r.grammars@ == Map::<Seq<char>, crate::manifest::GrammarEntryV>::empty(),
    {
        LanguageRegistry { languages: NamedMap::new(), grammars: NamedMap::new() }
    }

    /// The language names, in sorted order: the registered ones and the
    /// built-in plain-text language, which is always present.
    pub fn language_names(&self) -> (r: Vec<String>)
        ensures
            r.deep_view() == spec_insert_name(self.languages.keys_seq(), "Plain Text"@),
    {
        let names = self.languages.names();
        proof {
            assert(names.deep_view() =~= self.languages.keys_seq());
        }
        insert_name_sorted(&names, "Plain Text")
    }

    /// The registered grammar names, in sorted order.
    pub fn grammar_names(&self) -> (r: Vec<String>)
        ensures
            r@.len() == self.grammars.keys_seq().len(),
            forall|i: int|
                0 <= i < r@.len() ==> (#[trigger] r@[i])@ == self.grammars.keys_seq()[i],
    {
        self.grammars.names()
    }
}

/// The theme registry: registered theme variants, by display name.
pub struct ThemeRegistry {
    pub themes: NamedMap<ThemeManifestEntry>,
}

impl ThemeRegistry {
    pub open spec fn wf(&self) -> bool {
        self.themes.wf()
    }

    /// An empty registry.
    pub fn new() -> (r: Self)
        ensures
            r.wf(),
            r.themes@ == Map::<Seq<char>, crate::manifest::ThemeEntryV>::empty(),
    {
        ThemeRegistry { themes: NamedMap::new() }
    }

    /// The theme variant names, in sorted order: the registered ones and the
    /// built-in default theme, which is always present.
    pub fn list_names(&self) -> (r: Vec<String>)
        ensures
            r.deep_view() == spec_insert_name(self.themes.keys_seq(), "One Dark"@),
    {
        let names = self.themes.names();
        proof {
            assert(names.deep_view() =~= self.themes.keys_seq());
        }
        insert_name_sorted(&names, "One Dark")
    }
}

} // verus!
