//! A map from display names to entries, kept as a vector sorted by name.
//!
//! Every name-keyed category of the manifest and of the registries is one of
//! these. The sorted order makes enumeration deterministic; the abstract view
//! is a `Map` from the name's characters to the entry's view.
use crate::order::{chars_lt, lemma_chars_lt_irreflexive, lemma_chars_lt_total,
    lemma_chars_lt_transitive, string_eq, string_lt};
use vstd::prelude::*;

verus! {

/// A value that can be copied with the same view.
pub trait Dup: View + Sized {
    /// A copy with the same view.
    fn dup(&self) -> (r: Self)
        ensures
            r@ == self@,
    ;
}

/// An entry of the manifest or of a registry: a value owned by an extension.
pub trait Rec: Dup {
    /// The id of the extension that owns this value, read from its view.
    spec fn vowner(v: Self::V) -> Seq<char>;

    /// The id of the extension that owns this value.
    fn owner(&self) -> (r: &String)
        ensures
            r@ == Self::vowner(self@),
    ;

    /// Decides view equality.
    fn data_eq(&self, other: &Self) -> (r: bool)
        ensures
            r == (self@ == other@),
    ;
}

/// One named entry.
pub struct NEntry<T> {
    pub name: String,
    pub value: T,
}

/// The names and entry views of a run of entries, in order.
pub open spec fn entries_view<T: View>(s: Seq<NEntry<T>>) -> Seq<(Seq<char>, T::V)> {
    s.map(|i: int, e: NEntry<T>| (e.name@, e.value@))
}

/// A name-keyed map, sorted by name.
pub struct NamedMap<T> {
    entries: Vec<NEntry<T>>,
}

/// The keys of a run of entries are strictly ascending.
pub open spec fn sorted_keys<T: View>(s: Seq<NEntry<T>>) -> bool {
    forall|i: int, j: int| 0 <= i < j < s.len() ==> chars_lt(s[i].name@, s[j].name@)
}

/// The keys of a run of entries are pairwise distinct.
pub open spec fn distinct_keys<T: View>(s: Seq<NEntry<T>>) -> bool {
    forall|i: int, j: int| 0 <= i < j < s.len() ==> s[i].name@ != s[j].name@
}

/// The map that a run of entries denotes; a later entry wins on a repeated key.
pub open spec fn nm_map<T: View>(s: Seq<NEntry<T>>) -> Map<Seq<char>, T::V>
    decreases s.len(),
{
    if s.len() == 0 {
        Map::empty()
    } else {
        nm_map(s.drop_last()).insert(s.last().name@, s.last().value@)
    }
}

/// Strictly ascending keys are pairwise distinct.
pub proof fn lemma_sorted_distinct<T: View>(s: Seq<NEntry<T>>)
    requires
        sorted_keys(s),
    ensures
        distinct_keys(s),
{
    assert forall|i: int, j: int| 0 <= i < j < s.len() implies s[i].name@ != s[j].name@ by {
        if s[i].name@ == s[j].name@ {
            lemma_chars_lt_irreflexive(s[i].name@);
        }
    }
}

/// What `nm_map` holds, entry by entry, when the keys are distinct.
pub proof fn lemma_nm_map_props<T: View>(s: Seq<NEntry<T>>)
    requires
        distinct_keys(s),
    ensures
        forall|k: Seq<char>|
            nm_map(s).contains_key(k) <==> exists|i: int| 0 <= i < s.len() && s[i].name@ == k,
        forall|i: int|
            0 <= i < s.len() ==> nm_map(s).contains_key(#[trigger] s[i].name@) && nm_map(
                s,
            )[s[i].name@] == s[i].value@,
        nm_map(s).dom().finite(),
        nm_map(s).dom().len() == s.len(),
    decreases s.len(),
{
    if s.len() > 0 {
        let t = s.drop_last();
        assert(distinct_keys(t));
        lemma_nm_map_props(t);
        assert forall|i: int| 0 <= i < t.len() implies t[i].name@ != s.last().name@ by {
            assert(t[i] == s[i]);
        }
        assert(!nm_map(t).contains_key(s.last().name@));
        assert forall|k: Seq<char>| nm_map(s).contains_key(k) implies exists|i: int|
            0 <= i < s.len() && s[i].name@ == k by {
            if k == s.last().name@ {
                assert(s[s.len() - 1].name@ == k);
            } else {
                let i = choose|i: int| 0 <= i < t.len() && t[i].name@ == k;
                assert(s[i].name@ == k);
            }
        }
        assert forall|k: Seq<char>| (exists|i: int| 0 <= i < s.len() && s[i].name@ == k) implies
            nm_map(s).contains_key(k) by {
            let i = choose|i: int| 0 <= i < s.len() && s[i].name@ == k;
            if i < s.len() - 1 {
                assert(t[i].name@ == k);
            }
        }
        assert forall|i: int| 0 <= i < s.len() implies nm_map(s).contains_key(
            #[trigger] s[i].name@,
        ) && nm_map(s)[s[i].name@] == s[i].value@ by {
            if i < s.len() - 1 {
                assert(t[i] == s[i]);
                assert(s[i].name@ != s.last().name@);
            }
        }
        assert(nm_map(s).dom() =~= nm_map(t).dom().insert(s.last().name@));
    }
}

/// Appending a fresh entry extends the denoted map by that entry.
pub proof fn lemma_nm_map_push<T: View>(s: Seq<NEntry<T>>, e: NEntry<T>)
    ensures
        nm_map(s.push(e)) == nm_map(s).insert(e.name@, e.value@),
{
    assert(s.push(e).drop_last() =~= s);
    assert(s.push(e).last() == e);
}

impl<T: View> View for NamedMap<T> {
    type V = Map<Seq<char>, T::V>;

    closed spec fn view(&self) -> Map<Seq<char>, T::V> {
        nm_map(self.entries@)
    }
}

impl<T: View> NamedMap<T> {
    /// The entries stand in strictly ascending name order.
    pub closed spec fn wf(&self) -> bool {
        sorted_keys(self.entries@)
    }

    /// The names, in the stored (ascending) order.
    pub closed spec fn keys_seq(&self) -> Seq<Seq<char>> {
        self.entries@.map(|i: int, e: NEntry<T>| e.name@)
    }

    /// The names and entry views, in the stored (ascending) order.
    pub closed spec fn pairs_seq(&self) -> Seq<(Seq<char>, T::V)> {
        self.entries@.map(|i: int, e: NEntry<T>| (e.name@, e.value@))
    }

    /// How the ordered pairs relate to the names and to the view.
    pub proof fn lemma_pairs_props(&self)
        requires
            self.wf(),
        ensures
            self.pairs_seq().len() == self.keys_seq().len(),
            forall|i: int|
                0 <= i < self.pairs_seq().len() ==> (#[trigger] self.pairs_seq()[i]).0
                    == self.keys_seq()[i] && self@.contains_key(self.pairs_seq()[i].0)
                    && self@[self.pairs_seq()[i].0] == self.pairs_seq()[i].1,
    {
        lemma_sorted_distinct(self.entries@);
        lemma_nm_map_props(self.entries@);
    }

    /// The keys of the view are exactly the stored names, one each.
    pub proof fn lemma_view_props(&self)
        requires
            self.wf(),
        ensures
            forall|k: Seq<char>|
                self@.contains_key(k) <==> exists|i: int|
                    0 <= i < self.keys_seq().len() && self.keys_seq()[i] == k,
            forall|i: int|
                0 <= i < self.keys_seq().len() ==> self@.contains_key(
                    #[trigger] self.keys_seq()[i],
                ),
            forall|i: int, j: int|
                0 <= i < j < self.keys_seq().len() ==> chars_lt(
                    self.keys_seq()[i],
                    self.keys_seq()[j],
                ),
            self@.dom().finite(),
            self@.dom().len() == self.keys_seq().len(),
    {
        lemma_sorted_distinct(self.entries@);
        lemma_nm_map_props(self.entries@);
        assert forall|k: Seq<char>| self@.contains_key(k) implies exists|i: int|
            0 <= i < self.keys_seq().len() && self.keys_seq()[i] == k by {
            let i = choose|i: int| 0 <= i < self.entries@.len() && self.entries@[i].name@ == k;
            assert(self.keys_seq()[i] == k);
        }
        assert forall|k: Seq<char>| (exists|i: int|
            0 <= i < self.keys_seq().len() && self.keys_seq()[i] == k) implies self@.contains_key(
            k,
        ) by {
            let i = choose|i: int| 0 <= i < self.keys_seq().len() && self.keys_seq()[i] == k;
            assert(self.entries@[i].name@ == k);
        }
    }

    /// An empty map.
    pub fn new() -> (r: Self)
        ensures
            r.wf(),
            r@ == Map::<Seq<char>, T::V>::empty(),
            r.keys_seq() == Seq::<Seq<char>>::empty(),
            r.pairs_seq() == Seq::<(Seq<char>, T::V)>::empty(),
    {
        let r = NamedMap { entries: Vec::new() };
        proof {
            assert(r.keys_seq() =~= Seq::<Seq<char>>::empty());
            assert(r.pairs_seq() =~= Seq::<(Seq<char>, T::V)>::empty());
        }
        r
    }

    /// How many entries the map holds.
    pub fn len(&self) -> (r: usize)
        ensures
            r == self.keys_seq().len(),
    {
        self.entries.len()
    }

    /// The names, copied out in their stored (ascending) order.
    pub fn names(&self) -> (r: Vec<String>)
        ensures
            r@.len() == self.keys_seq().len(),
            forall|i: int| 0 <= i < r@.len() ==> (#[trigger] r@[i])@ == self.keys_seq()[i],
    {
        let n = self.entries.len();
        let mut r: Vec<String> = Vec::new();
        let mut i: usize = 0;
        while i < n
            invariant
                i <= n,
                n == self.keys_seq().len(),
                n == self.entries@.len(),
                r@.len() == i,
                forall|j: int| 0 <= j < i ==> (#[trigger] r@[j])@ == self.keys_seq()[j],
            decreases n - i,
        {
            r.push(self.entries[i].name.clone());
            i = i + 1;
        }
        r
    }

    /// The name of the entry at a position.
    pub fn name_at(&self, i: usize) -> (r: &String)
        requires
            i < self.keys_seq().len(),
        ensures
            r@ == self.keys_seq()[i as int],
    {
        &self.entries[i].name
    }

    /// The value of the entry at a position.
    pub fn value_at(&self, i: usize) -> (r: &T)
        requires
            self.wf(),
            i < self.keys_seq().len(),
        ensures
            self@.contains_key(self.keys_seq()[i as int]),
            r@ == self@[self.keys_seq()[i as int]],
    {
        proof {
            lemma_sorted_distinct(self.entries@);
            lemma_nm_map_props(self.entries@);
        }
        &self.entries[i].value
    }

    /// Where `name` stands, or where it would be inserted.
    fn find_pos(&self, name: &String) -> (r: (usize, bool))
        requires
            self.wf(),
        ensures
            r.0 <= self.keys_seq().len(),
            forall|j: int| 0 <= j < r.0 ==> chars_lt(#[trigger] self.keys_seq()[j], name@),
            r.1 ==> r.0 < self.keys_seq().len() && self.keys_seq()[r.0 as int] == name@,
            !r.1 ==> (r.0 == self.keys_seq().len() || chars_lt(
                name@,
                self.keys_seq()[r.0 as int],
            )),
            !r.1 ==> !self@.contains_key(name@),
    {
        let n = self.entries.len();
        let mut i: usize = 0;
        loop
            invariant
                self.wf(),
                i <= n,
                n == self.keys_seq().len(),
                forall|j: int| 0 <= j < i ==> chars_lt(#[trigger] self.keys_seq()[j], name@),
            decreases n - i,
        {
            if i == n {
                proof {
                    self.lemma_no_key(name@, i as int);
                }
                return (i, false);
            }
            if string_eq(&self.entries[i].name, name) {
                return (i, true);
            }
            if !string_lt(&self.entries[i].name, name) {
                proof {
                    lemma_chars_lt_total(self.entries@[i as int].name@, name@);
                    self.lemma_no_key(name@, i as int);
                }
                return (i, false);
            }
            i = i + 1;
        }
    }

    /// A name below every key from some position on, and above all before it,
    /// is no key at all.
    proof fn lemma_no_key(&self, name: Seq<char>, pos: int)
        requires
            self.wf(),
            0 <= pos <= self.keys_seq().len(),
            forall|j: int| 0 <= j < pos ==> chars_lt(#[trigger] self.keys_seq()[j], name),
            pos < self.keys_seq().len() ==> chars_lt(name, self.keys_seq()[pos]),
        ensures
            !self@.contains_key(name),
    {
        lemma_sorted_distinct(self.entries@);
        lemma_nm_map_props(self.entries@);
        assert forall|j: int| 0 <= j < self.entries@.len() implies self.entries@[j].name@
            != name by {
            assert(self.keys_seq()[j] == self.entries@[j].name@);
            if j < pos {
                lemma_chars_lt_irreflexive(name);
            } else {
                if j > pos {
                    assert(chars_lt(self.keys_seq()[pos as int], self.keys_seq()[j]));
                    lemma_chars_lt_transitive(name, self.keys_seq()[pos], self.keys_seq()[j]);
                }
                lemma_chars_lt_irreflexive(name);
            }
        }
    }

    /// The entry under a name, if any.
    pub fn get(&self, name: &String) -> (r: Option<&T>)
        requires
            self.wf(),
        ensures
            match r {
                Some(v) => self@.contains_key(name@) && v@ == self@[name@],
                None => !self@.contains_key(name@),
            },
    {
        let (pos, found) = self.find_pos(name);
        if found {
            proof {
                lemma_sorted_distinct(self.entries@);
                lemma_nm_map_props(self.entries@);
            }
            Some(&self.entries[pos].value)
        } else {
            None
        }
    }

    /// Puts an entry in; an entry already under that name is replaced.
    pub fn insert(&mut self, e: NEntry<T>)
        requires
            old(self).wf(),
        ensures
            final(self).wf(),
            final(self)@ == old(self)@.insert(e.name@, e.value@),
    {
        let (pos, found) = self.find_pos(&e.name);
        let ghost olds = self.entries@;
        proof {
            assert forall|q: int| 0 <= q < olds.len() implies (#[trigger] olds[q].name@)
                == old(self).keys_seq()[q] by {
                assert(old(self).keys_seq()[q] == olds[q].name@);
            }
        }
        if found {
            self.entries.remove(pos);
            self.entries.insert(pos, e);
            proof {
                let news = self.entries@;
                assert(olds[pos as int].name@ == e.name@);
                assert(news =~= olds.update(pos as int, e));
                assert forall|i: int, j: int| 0 <= i < j < news.len() implies chars_lt(
                    news[i].name@,
                    news[j].name@,
                ) by {
                    assert(chars_lt(olds[i].name@, olds[j].name@));
                }
                lemma_sorted_distinct(olds);
                lemma_sorted_distinct(news);
                lemma_nm_map_props(olds);
                lemma_nm_map_props(news);
                assert forall|i: int| 0 <= i < news.len() implies nm_map(news)[news[i].name@]
                    == nm_map(olds).insert(e.name@, e.value@)[news[i].name@] by {
                    if i != pos {
                        assert(news[i] == olds[i]);
                        assert(olds[i].name@ != olds[pos as int].name@);
                    }
                }
                assert forall|k: Seq<char>| nm_map(news).contains_key(k) implies nm_map(
                    olds,
                ).insert(e.name@, e.value@).contains_key(k) by {
                    let i = choose|i: int| 0 <= i < news.len() && news[i].name@ == k;
                    if i != pos {
                        assert(olds[i].name@ == k);
                    }
                }
                assert forall|k: Seq<char>| nm_map(olds).insert(e.name@, e.value@).contains_key(
                    k,
                ) implies nm_map(news).contains_key(k) by {
                    if k == e.name@ {
                        assert(news[pos as int].name@ == k);
                    } else {
                        let i = choose|i: int| 0 <= i < olds.len() && olds[i].name@ == k;
                        assert(i != pos);
                        assert(news[i] == olds[i]);
                    }
                }
                assert(nm_map(news) =~= nm_map(olds).insert(e.name@, e.value@));
            }
        } else {
            self.entries.insert(pos, e);
            proof {
                let news = self.entries@;
                assert forall|i: int, j: int| 0 <= i < j < news.len() implies chars_lt(
                    news[i].name@,
                    news[j].name@,
                ) by {
                    if j < pos {
                        assert(news[i] == olds[i] && news[j] == olds[j]);
                    } else if j == pos {
                        assert(news[i] == olds[i]);
                        assert(chars_lt(olds[i].name@, e.name@));
                    } else if i < pos {
                        assert(news[i] == olds[i] && news[j] == olds[j - 1]);
                        if pos < olds.len() {
                            if i < pos && j - 1 >= pos {
                                if j - 1 == pos {
                                    assert(chars_lt(e.name@, olds[pos as int].name@));
                                    lemma_chars_lt_transitive(
                                        olds[i].name@,
                                        e.name@,
                                        olds[pos as int].name@,
                                    );
                                } else {
                                    assert(chars_lt(olds[i].name@, olds[j - 1].name@));
                                }
                            }
                        }
                    } else if i == pos {
                        assert(news[j] == olds[j - 1]);
                        assert(chars_lt(e.name@, olds[pos as int].name@));
                        if j - 1 == pos {
                        } else {
                            assert(chars_lt(olds[pos as int].name@, olds[j - 1].name@));
                            lemma_chars_lt_transitive(
                                e.name@,
                                olds[pos as int].name@,
                                olds[j - 1].name@,
                            );
                        }
                    } else {
                        assert(news[i] == olds[i - 1] && news[j] == olds[j - 1]);
                    }
                }
                lemma_sorted_distinct(olds);
                lemma_sorted_distinct(news);
                lemma_nm_map_props(olds);
                lemma_nm_map_props(news);
                assert forall|i: int| 0 <= i < news.len() implies nm_map(news)[news[i].name@]
                    == nm_map(olds).insert(e.name@, e.value@)[news[i].name@] by {
                    if i < pos {
                        assert(news[i] == olds[i]);
                        assert(olds[i].name@ != e.name@);
                    } else if i > pos {
                        assert(news[i] == olds[i - 1]);
                        assert(olds[i - 1].name@ != e.name@);
                    }
                }
                assert forall|k: Seq<char>| nm_map(olds).insert(e.name@, e.value@).contains_key(
                    k,
                ) implies nm_map(news).contains_key(k) by {
                    if k == e.name@ {
                        assert(news[pos as int].name@ == k);
                    } else {
                        let i = choose|i: int| 0 <= i < olds.len() && olds[i].name@ == k;
                        if i < pos {
                            assert(news[i].name@ == k);
                        } else {
                            assert(news[i + 1].name@ == k);
                        }
                    }
                }
                assert forall|k: Seq<char>| nm_map(news).contains_key(k) implies nm_map(
                    olds,
                ).insert(e.name@, e.value@).contains_key(k) by {
                    let i = choose|i: int| 0 <= i < news.len() && news[i].name@ == k;
                    if i < pos {
                        assert(olds[i].name@ == k);
                    } else if i > pos {
                        assert(olds[i - 1].name@ == k);
                    }
                }
                assert(nm_map(news) =~= nm_map(olds).insert(e.name@, e.value@));
            }
        }
    }

    /// Takes the entry under a name out, if it is there.
    pub fn remove(&mut self, name: &String)
        requires
            old(self).wf(),
        ensures
            final(self).wf(),
            final(self)@ == old(self)@.remove(name@),
    {
        let (pos, found) = self.find_pos(name);
        let ghost olds = self.entries@;
        proof {
            assert forall|q: int| 0 <= q < olds.len() implies (#[trigger] olds[q].name@)
                == old(self).keys_seq()[q] by {
                assert(old(self).keys_seq()[q] == olds[q].name@);
            }
        }
        if found {
            self.entries.remove(pos);
            proof {
                let news = self.entries@;
                assert forall|i: int, j: int| 0 <= i < j < news.len() implies chars_lt(
                    news[i].name@,
                    news[j].name@,
                ) by {
                    let i0: int = if i < pos { i } else { i + 1 };
                    let j0: int = if j < pos { j } else { j + 1 };
                    assert(news[i] == olds[i0] && news[j] == olds[j0]);
                    assert(chars_lt(olds[i0].name@, olds[j0].name@));
                }
                lemma_sorted_distinct(olds);
                lemma_sorted_distinct(news);
                lemma_nm_map_props(olds);
                lemma_nm_map_props(news);
                assert forall|k: Seq<char>| nm_map(news).contains_key(k) implies nm_map(
                    olds,
                ).remove(name@).contains_key(k) by {
                    let i = choose|i: int| 0 <= i < news.len() && news[i].name@ == k;
                    let i0: int = if i < pos { i } else { i + 1 };
                    assert(olds[i0].name@ == k);
                    assert(olds[i0].name@ != olds[pos as int].name@);
                }
                assert forall|k: Seq<char>| nm_map(olds).remove(name@).contains_key(k) implies
                    nm_map(news).contains_key(k) by {
                    let i = choose|i: int| 0 <= i < olds.len() && olds[i].name@ == k;
                    if i < pos {
                        assert(news[i].name@ == k);
                    } else {
                        assert(i != pos);
                        assert(news[i - 1].name@ == k);
                    }
                }
                assert forall|i: int| 0 <= i < news.len() implies nm_map(news)[news[i].name@]
                    == nm_map(olds).remove(name@)[news[i].name@] by {
                    let i0: int = if i < pos { i } else { i + 1 };
                    assert(news[i] == olds[i0]);
                    assert(olds[i0].name@ != olds[pos as int].name@);
                }
                assert(nm_map(news) =~= nm_map(olds).remove(name@));
            }
        } else {
            proof {
                assert(nm_map(self.entries@) =~= nm_map(self.entries@).remove(name@));
            }
        }
    }
}

/// The keys of a map whose entries a given extension owns.
pub open spec fn owned_keys<T: Rec>(m: Map<Seq<char>, T::V>, owner: Seq<char>) -> Set<Seq<char>> {
    Set::new(|k: Seq<char>| m.contains_key(k) && T::vowner(m[k]) == owner)
}

/// The entries that a given extension does not own, in order.
pub open spec fn filter_owned<T: Rec>(s: Seq<NEntry<T>>, owner: Seq<char>) -> Seq<NEntry<T>>
    decreases s.len(),
{
    if s.len() == 0 {
        Seq::empty()
    } else if T::vowner(s.last().value@) == owner {
        filter_owned(s.drop_last(), owner)
    } else {
        filter_owned(s.drop_last(), owner).push(s.last())
    }
}

/// Dropping one extension's entries takes its keys out of the denoted map and
/// no others.
pub proof fn lemma_nm_map_filter_owned<T: Rec>(s: Seq<NEntry<T>>, owner: Seq<char>)
    requires
        sorted_keys(s),
    ensures
        sorted_keys(filter_owned(s, owner)),
        forall|j: int|
            0 <= j < filter_owned(s, owner).len() ==> exists|i: int|
                0 <= i < s.len() && #[trigger] filter_owned(s, owner)[j] == s[i],
        nm_map(filter_owned(s, owner)) == nm_map(s).remove_keys(owned_keys::<T>(nm_map(s), owner)),
    decreases s.len(),
{
    let f = filter_owned(s, owner);
    if s.len() == 0 {
        assert(nm_map(f) =~= nm_map(s).remove_keys(owned_keys::<T>(nm_map(s), owner)));
    } else {
        let t = s.drop_last();
        let last = s.last();
        let k = last.name@;
        assert(sorted_keys(t));
        lemma_nm_map_filter_owned(t, owner);
        lemma_sorted_distinct(s);
        lemma_nm_map_props(s);
        lemma_nm_map_props(t);
        assert forall|i: int| 0 <= i < t.len() implies t[i].name@ != k by {
            assert(t[i] == s[i]);
            assert(s[i].name@ != s[s.len() - 1].name@);
        }
        assert(!nm_map(t).contains_key(k));
        if T::vowner(last.value@) == owner {
            assert(f == filter_owned(t, owner));
            assert forall|j: int| 0 <= j < f.len() implies exists|i: int|
                0 <= i < s.len() && #[trigger] f[j] == s[i] by {
                let i = choose|i: int| 0 <= i < t.len() && f[j] == t[i];
                assert(f[j] == s[i]);
            }
            assert(nm_map(f) =~= nm_map(s).remove_keys(owned_keys::<T>(nm_map(s), owner)));
        } else {
            assert(f == filter_owned(t, owner).push(last));
            let ft = filter_owned(t, owner);
            assert forall|j: int| 0 <= j < f.len() implies exists|i: int|
                0 <= i < s.len() && #[trigger] f[j] == s[i] by {
                if j < ft.len() {
                    let i = choose|i: int| 0 <= i < t.len() && ft[j] == t[i];
                    assert(f[j] == s[i]);
                } else {
                    assert(f[j] == s[s.len() - 1]);
                }
            }
            assert forall|j1: int, j2: int| 0 <= j1 < j2 < f.len() implies chars_lt(
                f[j1].name@,
                f[j2].name@,
            ) by {
                if j2 < ft.len() {
                    assert(chars_lt(ft[j1].name@, ft[j2].name@));
                } else {
                    let i = choose|i: int| 0 <= i < t.len() && #[trigger] ft[j1] == t[i];
                    assert(chars_lt(s[i].name@, s[s.len() - 1].name@));
                }
            }
            lemma_nm_map_push(ft, last);
            assert(nm_map(f) =~= nm_map(s).remove_keys(owned_keys::<T>(nm_map(s), owner)));
        }
    }
}

impl<T: Dup> NamedMap<T> {
    /// A copy with the same contents.
    pub fn dup(&self) -> (r: Self)
        requires
            self.wf(),
        ensures
            r.wf(),
            r@ == self@,
            r.keys_seq() == self.keys_seq(),
            r.pairs_seq() == self.pairs_seq(),
    {
        let mut entries: Vec<NEntry<T>> = Vec::new();
        let n = self.entries.len();
        let mut i: usize = 0;
        while i < n
            invariant
                i <= n,
                n == self.entries@.len(),
                entries@.len() == i,
                forall|j: int|
                    0 <= j < i ==> (#[trigger] entries@[j]).name@ == self.entries@[j].name@
                        && entries@[j].value@ == self.entries@[j].value@,
            decreases n - i,
        {
            let e = &self.entries[i];
            entries.push(NEntry { name: e.name.clone(), value: e.value.dup() });
            i = i + 1;
        }
        let r = NamedMap { entries };
        proof {
            assert(r.keys_seq() =~= self.keys_seq());
            assert forall|a: int, b: int| 0 <= a < b < r.entries@.len() implies chars_lt(
                r.entries@[a].name@,
                r.entries@[b].name@,
            ) by {
                assert(r.entries@[a].name@ == self.entries@[a].name@);
                assert(r.entries@[b].name@ == self.entries@[b].name@);
            }
            assert(r.pairs_seq() =~= self.pairs_seq());
            lemma_nm_map_copies(r.entries@, self.entries@);
        }
        r
    }
}

impl<T: Rec> NamedMap<T> {
    /// Takes out every entry that a given extension owns.
    #[verifier::rlimit(50)]
    pub fn remove_by_owner(&mut self, owner: &String)
        requires
            old(self).wf(),
        ensures
            final(self).wf(),
            final(self)@ == old(self)@.remove_keys(owned_keys::<T>(old(self)@, owner@)),
    {
        let ghost olds = self.entries@;
        let ghost n = olds.len();
        let ghost mut j: int = 0;
        let mut i: usize = 0;
        while i < self.entries.len()
            invariant
                0 <= i as int <= j <= n,
                n == olds.len(),
                sorted_keys(olds),
                i as int == filter_owned(olds.take(j), owner@).len(),
                self.entries@ == filter_owned(olds.take(j), owner@) + olds.skip(j),
            decreases n - j,
        {
            proof {
                assert(self.entries@.len() == i as int + (n - j));
                assert(j < n);
                assert(self.entries@[i as int] == olds.skip(j)[0]);
                assert(olds.skip(j)[0] == olds[j]);
            }
            let owned = string_eq(self.entries[i].value.owner(), owner);
            proof {
                assert(olds.take(j + 1).drop_last() =~= olds.take(j));
                assert(olds.take(j + 1).last() == olds[j]);
            }
            if owned {
                self.entries.remove(i);
                proof {
                    assert(filter_owned(olds.take(j + 1), owner@) == filter_owned(
                        olds.take(j),
                        owner@,
                    ));
                    assert(self.entries@ =~= filter_owned(olds.take(j + 1), owner@) + olds.skip(
                        j + 1,
                    ));
                    j = j + 1;
                }
            } else {
                proof {
                    assert(filter_owned(olds.take(j + 1), owner@) == filter_owned(
                        olds.take(j),
                        owner@,
                    ).push(olds[j]));
                    assert(self.entries@ =~= filter_owned(olds.take(j + 1), owner@) + olds.skip(
                        j + 1,
                    ));
                    j = j + 1;
                }
                i = i + 1;
            }
        }
        proof {
            assert(self.entries@.len() == i as int + (n - j));
            assert(j == n);
            assert(olds.take(n as int) =~= olds);
            assert(olds.skip(n as int) =~= Seq::empty());
            assert(self.entries@ =~= filter_owned(olds, owner@));
            lemma_nm_map_filter_owned(olds, owner@);
        }
    }
}

/// Two runs of entries equal in names and views denote the same map.
pub proof fn lemma_nm_map_copies<T: View>(a: Seq<NEntry<T>>, b: Seq<NEntry<T>>)
    requires
        a.len() == b.len(),
        forall|i: int|
            0 <= i < a.len() ==> (#[trigger] a[i]).name@ == b[i].name@ && a[i].value@
                == b[i].value@,
    ensures
        nm_map(a) == nm_map(b),
    decreases a.len(),
{
    if a.len() > 0 {
        assert(a.drop_last().len() == b.drop_last().len());
        assert forall|i: int| 0 <= i < a.drop_last().len() implies (
        #[trigger] a.drop_last()[i]).name@ == b.drop_last()[i].name@ && a.drop_last()[i].value@
            == b.drop_last()[i].value@ by {
            assert(a[i].name@ == b[i].name@ && a[i].value@ == b[i].value@);
        }
        lemma_nm_map_copies(a.drop_last(), b.drop_last());
        assert(a.last().name@ == b.last().name@ && a.last().value@ == b.last().value@);
    }
}

} // verus!
