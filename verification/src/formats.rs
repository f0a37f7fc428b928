//! Insertion-ordered string maps, and the INI documents made of them.
use crate::text::same;
use vstd::prelude::*;

verus! {

/// A map from strings that remembers the order in which its names came in. No name occurs twice.
pub struct StrMap<V> {
    pub(crate) entries: Vec<(String, V)>,
}

/// `entries` with `content` under `name`: in place of what was there, or behind all others.
pub open spec fn placed<A>(
    entries: Seq<(Seq<char>, A)>,
    name: Seq<char>,
    content: A,
) -> Seq<(Seq<char>, A)> {
    let kept = Seq::new(
        entries.len(),
        |i: int|
            if entries[i].0 == name {
                (name, content)
            } else {
                entries[i]
            },
    );
    if exists|i: int| 0 <= i < entries.len() && (#[trigger] entries[i]).0 == name {
        kept
    } else {
        kept.push((name, content))
    }
}

/// The names of a list of entries, in order.
pub open spec fn entry_names<V>(entries: Seq<(String, V)>) -> Seq<Seq<char>> {
    entries.map_values(|e: (String, V)| e.0@)
}

/// Where `name` stands among `entries`.
pub open spec fn entry_index<V>(entries: Seq<(String, V)>, name: Seq<char>) -> int {
    choose|i: int| 0 <= i < entries.len() && entries[i].0@ == name
}

/// The map that a list of entries stands for.
pub open spec fn entry_map<V: View>(entries: Seq<(String, V)>) -> Map<Seq<char>, V::V> {
    Map::new(
        |name: Seq<char>| entry_names(entries).contains(name),
        |name: Seq<char>| entries[entry_index(entries, name)].1@,
    )
}

proof fn lemma_entry_index<V>(entries: Seq<(String, V)>, i: int)
    requires
        entry_names(entries).no_duplicates(),
        0 <= i < entries.len(),
    ensures
        entry_index(entries, entries[i].0@) == i,
        entry_names(entries).contains(entries[i].0@),
{
    let names = entry_names(entries);
    assert(names[i] == entries[i].0@);
    let j = entry_index(entries, entries[i].0@);
    assert(0 <= j < entries.len() && entries[j].0@ == entries[i].0@);
    assert(names[j] == names[i]);
}

/// A list of entries with what each of them says.
pub open spec fn entry_listing<V: View>(entries: Seq<(String, V)>) -> Seq<(Seq<char>, V::V)> {
    let names = entry_names(entries);
    Seq::new(names.len(), |i: int| (names[i], entry_map(entries)[names[i]]))
}

proof fn lemma_placed<V: View>(
    before: Seq<(String, V)>,
    after: Seq<(String, V)>,
    name: Seq<char>,
    content: V::V,
)
    requires
        entry_names(after) == (if entry_names(before).contains(name) {
            entry_names(before)
        } else {
            entry_names(before).push(name)
        }),
        entry_map(after) == entry_map(before).insert(name, content),
    ensures
        entry_listing(after) == placed(entry_listing(before), name, content),
{
    let names = entry_names(before);
    let old_list = entry_listing(before);
    if names.contains(name) {
        let i = names.index_of(name);
        assert(old_list[i].0 == name);
    }
    assert forall|i: int| 0 <= i < names.len() && names[i] != name implies #[trigger] entry_map(
        after,
    )[names[i]] == entry_map(before)[names[i]] by {}
    assert(entry_listing(after) =~= placed(old_list, name, content));
}

impl<V> StrMap<V> {
    #[verifier::type_invariant]
    spec fn distinct(self) -> bool {
        entry_names(self.entries@).no_duplicates()
    }

    /// The names in the order in which they came in.
    pub closed spec fn names(self) -> Seq<Seq<char>> {
        entry_names(self.entries@)
    }

    /// The value at a position.
    pub closed spec fn item(self, i: int) -> V {
        self.entries@[i].1
    }
}

impl<V: View> View for StrMap<V> {
    type V = Map<Seq<char>, V::V>;

    closed spec fn view(&self) -> Map<Seq<char>, V::V> {
        entry_map(self.entries@)
    }
}

impl<V: View> StrMap<V> {
    /// The names are the keys of the map, each of them once.
    pub open spec fn is_whole(self) -> bool {
        &&& self.names().no_duplicates()
        &&& forall|name: Seq<char>|
            #![trigger self@.contains_key(name)]
            #![trigger self.names().contains(name)]
            self@.contains_key(name) <==> self.names().contains(name)
    }

    /// The entries in order.
    pub open spec fn listing(self) -> Seq<(Seq<char>, V::V)> {
        Seq::new(self.names().len(), |i: int| (self.names()[i], self@[self.names()[i]]))
    }

    /// The empty map.
    pub fn new() -> (r: Self)
        ensures
            r@ == Map::<Seq<char>, V::V>::empty(),
            r.names().len() == 0,
            r.is_whole(),
    {
        let r = StrMap { entries: Vec::new() };
        assert(r@ =~= Map::<Seq<char>, V::V>::empty());
        r
    }

    /// The number of entries.
    pub fn len(&self) -> (n: usize)
        ensures
            n == self.names().len(),
            self.is_whole(),
    {
        proof {
            use_type_invariant(self);
        }
        self.entries.len()
    }

    /// The name at a position.
    pub fn name_at(&self, i: usize) -> (r: &String)
        requires
            i < self.names().len(),
        ensures
            r@ == self.names()[i as int],
            self@.contains_key(r@),
    {
        proof {
            use_type_invariant(self);
            lemma_entry_index(self.entries@, i as int);
        }
        &self.entries[i].0
    }

    /// The value at a position.
    pub fn value_at(&self, i: usize) -> (r: &V)
        requires
            i < self.names().len(),
        ensures
            *r == self.item(i as int),
            r@ == self@[self.names()[i as int]],
            self@.contains_key(self.names()[i as int]),
    {
        proof {
            use_type_invariant(self);
            lemma_entry_index(self.entries@, i as int);
        }
        &self.entries[i].1
    }

    /// Where `name` stands, if it does.
    fn position(&self, name: &str) -> (r: Option<usize>)
        ensures
            match r {
                Some(i) => i < self.entries@.len() && self.entries@[i as int].0@ == name@,
                None => !self.names().contains(name@),
            },
    {
        let mut i: usize = 0;
        while i < self.entries.len()
            invariant
                i <= self.entries@.len(),
                forall|j: int| 0 <= j < i ==> (#[trigger] self.entries@[j]).0@ != name@,
            decreases self.entries@.len() - i,
        {
            if same(self.entries[i].0.as_str(), name) {
                return Some(i);
            }
            i += 1;
        }
        assert forall|j: int| 0 <= j < self.names().len() implies self.names()[j] != name@ by {
            assert(self.names()[j] == self.entries@[j].0@);
        }
        None
    }

    /// The value under `name`.
    pub fn get(&self, name: &str) -> (r: Option<&V>)
        ensures
            match r {
                Some(v) => self@.contains_key(name@) && v@ == self@[name@],
                None => !self@.contains_key(name@),
            },
    {
        match self.position(name) {
            Some(i) => {
                proof {
                    use_type_invariant(self);
                    lemma_entry_index(self.entries@, i as int);
                }
                Some(&self.entries[i].1)
            },
            None => None,
        }
    }

    /// Whether there is an entry under `name`.
    pub fn contains_key(&self, name: &str) -> (r: bool)
        ensures
            r == self@.contains_key(name@),
    {
        self.get(name).is_some()
    }

    /// Puts `value` under `name`: in place of what was there, or behind all others.
    pub fn insert(&mut self, name: String, value: V)
        ensures
            final(self)@ == old(self)@.insert(name@, value@),
            final(self).names() == (if old(self)@.contains_key(name@) {
                old(self).names()
            } else {
                old(self).names().push(name@)
            }),
            final(self).is_whole(),
            final(self).listing() == placed(old(self).listing(), name@, value@),
            forall|i: int|
                0 <= i < final(self).names().len() ==> #[trigger] final(self).item(i) == (
                if final(self).names()[i] == name@ {
                    value
                } else {
                    old(self).item(i)
                }),
    {
        proof {
            use_type_invariant(&*self);
        }
        let found = self.position(name.as_str());
        let ghost before = self.entries@;
        let ghost key = name@;
        let ghost content = value@;
        let ghost given = value;
        let mut entries: Vec<(String, V)> = Vec::new();
        core::mem::swap(&mut entries, &mut self.entries);
        match found {
            Some(i) => {
                proof {
                    lemma_entry_index(before, i as int);
                }
                entries.set(i, (name, value));
                assert(entry_names(entries@) =~= entry_names(before));
            },
            None => {
                entries.push((name, value));
                assert(entry_names(entries@) =~= entry_names(before).push(key));
            },
        }
        proof {
            let after = entries@;
            assert(entry_names(after).no_duplicates());
            let spot = match found {
                Some(i) => i as int,
                None => before.len() as int,
            };
            assert(after[spot].0@ == key && after[spot].1@ == content);
            lemma_entry_index(after, spot);
            let names = entry_names(after);
            assert forall|i: int| 0 <= i < after.len() implies (#[trigger] after[i]).1 == (
            if names[i] == key {
                given
            } else {
                before[i].1
            }) by {
                assert(names[spot] == key);
            }
            assert forall|k: Seq<char>| entry_names(after).contains(k) implies entry_map(after)[k]
                == entry_map(before).insert(key, content)[k] by {
                let i = entry_names(after).index_of(k);
                assert(after[i].0@ == k);
                lemma_entry_index(after, i);
                if k != key {
                    assert(before[i] == after[i]);
                    lemma_entry_index(before, i);
                }
            }
            assert forall|k: Seq<char>| #[trigger]
                entry_map(before).insert(key, content).contains_key(k)
                    == entry_names(after).contains(k) by {
                let names = entry_names(before);
                if found is None {
                    if names.contains(k) {
                        let i = names.index_of(k);
                        assert(names.push(key)[i] == k);
                    }
                    assert(names.push(key)[names.len() as int] == key);
                }
            }
            assert(entry_map(after) =~= entry_map(before).insert(key, content));
        }
        self.entries = entries;
        proof {
            lemma_placed(before, self.entries@, key, content);
            assert(forall|i: int|
                0 <= i < self.names().len() ==> #[trigger] self.item(i) == self.entries@[i].1);
        }
    }

    /// Takes the entry under `name` out.
    pub fn remove(&mut self, name: &str) -> (r: Option<V>)
        ensures
            match r {
                Some(v) => old(self)@.contains_key(name@) && v@ == old(self)@[name@],
                None => !old(self)@.contains_key(name@),
            },
            final(self)@ == old(self)@.remove(name@),
            final(self).names() == without(old(self).names(), name@),
            final(self).is_whole(),
    {
        proof {
            use_type_invariant(&*self);
        }
        let ghost before = self.entries@;
        let ghost keep = other_than(name@);
        match self.position(name) {
            Some(i) => {
                let mut entries: Vec<(String, V)> = Vec::new();
                core::mem::swap(&mut entries, &mut self.entries);
                let (_, value) = entries.remove(i);
                proof {
                    lemma_entry_index(before, i as int);
                    lemma_remove(before, i as int, entries@);
                }
                self.entries = entries;
                Some(value)
            },
            None => {
                proof {
                    let names = entry_names(before);
                    assert forall|j: int| 0 <= j < names.len() implies keep(#[trigger] names[j]) by {
                        assert(names.contains(names[j]));
                    }
                    lemma_filter_all(names, keep);
                    assert(entry_map(before).remove(name@) =~= entry_map(before));
                }
                None
            },
        }
    }
}

/// Tells `name` from all others.
pub open spec fn other_than(name: Seq<char>) -> spec_fn(Seq<char>) -> bool {
    |n: Seq<char>| n != name
}

/// `names` with `name` left out.
pub open spec fn without(names: Seq<Seq<char>>, name: Seq<char>) -> Seq<Seq<char>> {
    names.filter(other_than(name))
}

/// Filtering keeps a sequence whose elements all pass.
proof fn lemma_filter_all<A>(s: Seq<A>, keep: spec_fn(A) -> bool)
    requires
        forall|j: int| 0 <= j < s.len() ==> keep(#[trigger] s[j]),
    ensures
        s.filter(keep) == s,
    decreases s.len(),
{
    reveal(Seq::filter);
    if s.len() > 0 {
        let init = s.drop_last();
        assert forall|j: int| 0 <= j < init.len() implies keep(#[trigger] init[j]) by {
            assert(init[j] == s[j]);
        }
        lemma_filter_all(init, keep);
        assert(keep(s[s.len() - 1]));
        assert(init.push(s.last()) =~= s);
    }
}

/// Taking out the one entry with a name.
proof fn lemma_remove<V: View>(before: Seq<(String, V)>, i: int, after: Seq<(String, V)>)
    requires
        entry_names(before).no_duplicates(),
        0 <= i < before.len(),
        after == before.remove(i),
    ensures
        entry_names(after) == without(entry_names(before), before[i].0@),
        entry_names(after).no_duplicates(),
        entry_map(after) == entry_map(before).remove(before[i].0@),
{
    let name = before[i].0@;
    let names = entry_names(before);
    assert(names[i] == name);
    lemma_without(names, i);
    assert(entry_names(after) =~= names.remove(i));
    assert forall|a: int, b: int|
        0 <= a < b < after.len() implies #[trigger] entry_names(after)[a] != #[trigger] entry_names(
        after,
    )[b] by {
        let a0 = if a < i { a } else { a + 1 };
        let b0 = if b < i { b } else { b + 1 };
        assert(names[a0] == entry_names(after)[a]);
        assert(names[b0] == entry_names(after)[b]);
    }
    assert forall|k: Seq<char>| entry_names(after).contains(k) implies names.contains(k) && k != name
        && entry_map(after)[k] == entry_map(before)[k] by {
        let j = entry_names(after).index_of(k);
        let j0 = if j < i { j } else { j + 1 };
        assert(after[j] == before[j0]);
        assert(names[j0] == k);
        lemma_entry_index(after, j);
        lemma_entry_index(before, j0);
    }
    assert forall|k: Seq<char>| names.contains(k) && k != name implies entry_names(after).contains(
        k,
    ) by {
        let j0 = names.index_of(k);
        let j = if j0 < i { j0 } else { j0 - 1 };
        assert(entry_names(after)[j] == k);
    }
    assert(entry_map(after) =~= entry_map(before).remove(name));
}

/// Leaving a name out of distinct names takes out the one place where it stands.
proof fn lemma_without(names: Seq<Seq<char>>, i: int)
    requires
        names.no_duplicates(),
        0 <= i < names.len(),
    ensures
        without(names, names[i]) == names.remove(i),
{
    let name = names[i];
    let keep = other_than(name);
    let head = names.take(i);
    let tail = names.skip(i + 1);
    assert forall|j: int| 0 <= j < head.len() implies keep(#[trigger] head[j]) by {
        assert(head[j] == names[j]);
    }
    assert forall|j: int| 0 <= j < tail.len() implies keep(#[trigger] tail[j]) by {
        assert(tail[j] == names[i + 1 + j]);
    }
    lemma_filter_all(head, keep);
    lemma_filter_all(tail, keep);
    Seq::filter_distributes_over_add(head, seq![name] + tail, keep);
    Seq::filter_distributes_over_add(seq![name], tail, keep);
    assert(seq![name].filter(keep) =~= Seq::empty()) by {
        reveal(Seq::filter);
        assert(seq![name].drop_last() =~= Seq::empty());
        assert(!keep(name));
    }
    assert(names =~= head + (seq![name] + tail));
    assert(head + (Seq::<Seq<char>>::empty() + tail) =~= names.remove(i));
}

/// Entries with the same names and values in the same order stand for the same map.
proof fn lemma_same_map<V: View>(a: Seq<(String, V)>, b: Seq<(String, V)>)
    requires
        entry_names(a).no_duplicates(),
        a.len() == b.len(),
        forall|i: int|
            0 <= i < a.len() ==> (#[trigger] a[i]).0@ == (#[trigger] b[i]).0@ && a[i].1@ == b[i].1@,
    ensures
        entry_names(a) == entry_names(b),
        entry_map(a) == entry_map(b),
{
    assert(entry_names(a) =~= entry_names(b));
    assert forall|k: Seq<char>| entry_names(a).contains(k) implies entry_map(a)[k] == entry_map(
        b,
    )[k] by {
        let i = entry_names(a).index_of(k);
        assert(a[i].0@ == k && b[i].0@ == k);
        lemma_entry_index(a, i);
        lemma_entry_index(b, i);
    }
    assert(entry_map(a) =~= entry_map(b));
}

/// What can be copied with all that it says.
pub trait Duplicate: View + Sized {
    /// A copy that says the same.
    fn copy(&self) -> (r: Self)
        ensures
            r@ == self@,
    ;
}

impl Duplicate for String {
    fn copy(&self) -> (r: Self) {
        self.clone()
    }
}

impl<V: Duplicate> Duplicate for StrMap<V> {
    /// A copy of the map, its names in the same order.
    fn copy(&self) -> (r: Self)
        ensures
            r.names() == self.names(),
    {
        proof {
            use_type_invariant(self);
        }
        let mut entries: Vec<(String, V)> = Vec::new();
        let mut i: usize = 0;
        while i < self.entries.len()
            invariant
                i <= self.entries@.len(),
                entries@.len() == i,
                forall|j: int|
                    0 <= j < i ==> (#[trigger] entries@[j]).0@ == self.entries@[j].0@ && entries@[j].1@
                        == self.entries@[j].1@,
            decreases self.entries@.len() - i,
        {
            entries.push((self.entries[i].0.clone(), self.entries[i].1.copy()));
            i += 1;
        }
        proof {
            lemma_same_map(self.entries@, entries@);
        }
        StrMap { entries }
    }
}

/// One section of an INI document.
pub type Section = StrMap<String>;

/// What a section says: a value for each of its keys.
pub type SectionView = Map<Seq<char>, Seq<char>>;

/// What an INI document says: the content of each of its sections.
pub type IniView = Map<Seq<char>, SectionView>;

/// What a set of INI files says: the content of each file.
pub type FilesView = Map<Seq<char>, IniView>;

/// The section `name`, empty where the document has none.
pub open spec fn section_of(ini: IniView, name: Seq<char>) -> SectionView {
    if ini.contains_key(name) {
        ini[name]
    } else {
        Map::empty()
    }
}

/// The document with a section `name`, which is empty if it was not there.
pub open spec fn with_section(ini: IniView, name: Seq<char>) -> IniView {
    ini.insert(name, section_of(ini, name))
}

/// The document with `key=value` in the section `name`.
pub open spec fn with_entry(
    ini: IniView,
    name: Seq<char>,
    key: Seq<char>,
    value: Seq<char>,
) -> IniView {
    ini.insert(name, section_of(ini, name).insert(key, value))
}

/// The entries of a section, in order.
pub type Listing = Seq<(Seq<char>, Seq<char>)>;

/// The lines `key=value` of a section.
pub open spec fn lines_text(entries: Listing) -> Seq<char>
    decreases entries.len(),
{
    if entries.len() == 0 {
        Seq::empty()
    } else {
        lines_text(entries.drop_last()) + entries.last().0 + "="@ + entries.last().1 + "\r\n"@
    }
}

/// The text of a document: each section under its header, lines ended by CR LF.
pub open spec fn ini_text(sections: Seq<(Seq<char>, Listing)>) -> Seq<char>
    decreases sections.len(),
{
    if sections.len() == 0 {
        Seq::empty()
    } else {
        ini_text(sections.drop_last()) + "["@ + sections.last().0 + "]\r\n"@ + lines_text(
            sections.last().1,
        )
    }
}

impl StrMap<String> {
    /// Puts `value` under `key`.
    pub fn put(&mut self, key: &str, value: &str)
        ensures
            final(self)@ == old(self)@.insert(key@, value@),
            final(self).names() == (if old(self)@.contains_key(key@) {
                old(self).names()
            } else {
                old(self).names().push(key@)
            }),
            final(self).listing() == placed(old(self).listing(), key@, value@),
    {
        self.insert(key.to_owned(), value.to_owned());
    }
}

/// An INI document: sections by name.
pub struct Ini(pub StrMap<Section>);

impl View for Ini {
    type V = IniView;

    open spec fn view(&self) -> IniView {
        self.0@
    }
}

impl Ini {
    /// The sections and their entries, in order.
    pub open spec fn ordered(self) -> Seq<(Seq<char>, Listing)> {
        Seq::new(
            self.0.names().len(),
            |i: int| (self.0.names()[i], self.0.item(i).listing()),
        )
    }

    /// The empty document.
    pub fn new() -> (r: Self)
        ensures
            r@ == IniView::empty(),
            r.0.names().len() == 0,
            r.ordered().len() == 0,
    {
        Ini(StrMap::new())
    }

    /// The text of the document.
    pub fn to_text(&self) -> (r: String)
        ensures
            r@ == ini_text(self.ordered()),
    {
        match crate::outside::ini_to_string(self) {
            Ok(text) => text,
            Err(_) => String::new(),
        }
    }

    /// Puts a section under `name`.
    pub fn insert(&mut self, name: String, section: Section)
        ensures
            final(self)@ == old(self)@.insert(name@, section@),
            final(self).0.names() == (if old(self)@.contains_key(name@) {
                old(self).0.names()
            } else {
                old(self).0.names().push(name@)
            }),
            final(self).ordered() == placed(old(self).ordered(), name@, section.listing()),
    {
        let ghost before = *self;
        let ghost given = section;
        let ghost key = name@;
        proof {
            use_type_invariant(&self.0);
        }
        self.0.insert(name, section);
        proof {
            let was = before.ordered();
            if before.0.names().contains(key) {
                let i = before.0.names().index_of(key);
                assert(was[i].0 == key);
            }
            assert(self.ordered() =~= placed(was, key, given.listing()));
        }
    }

    /// The section under `name`.
    pub fn get(&self, name: &str) -> (r: Option<&Section>)
        ensures
            match r {
                Some(s) => self@.contains_key(name@) && s@ == self@[name@],
                None => !self@.contains_key(name@),
            },
    {
        self.0.get(name)
    }

    /// A copy of the section under `name`, empty where there is none.
    pub fn section(&self, name: &str) -> (r: Section)
        ensures
            r@ == section_of(self@, name@),
    {
        match self.0.get(name) {
            Some(s) => s.copy(),
            None => Section::new(),
        }
    }

    /// Makes sure that there is a section `name`.
    pub fn ensure_section(&mut self, name: &str)
        ensures
            final(self)@ == with_section(old(self)@, name@),
    {
        let section = self.section(name);
        self.0.insert(name.to_owned(), section);
    }

    /// Puts `key=value` into the section `name`.
    pub fn put(&mut self, name: &str, key: &str, value: &str)
        ensures
            final(self)@ == with_entry(old(self)@, name@, key@, value@),
    {
        let mut section = self.section(name);
        section.put(key, value);
        self.0.insert(name.to_owned(), section);
    }
}

impl Duplicate for Ini {
    /// A copy of the document, its sections in the same order.
    fn copy(&self) -> (r: Self)
        ensures
            r.0.names() == self.0.names(),
    {
        Ini(self.0.copy())
    }
}

/// A set of INI files by file name.
pub struct IniFiles(pub StrMap<Ini>);

impl View for IniFiles {
    type V = FilesView;

    open spec fn view(&self) -> FilesView {
        self.0@
    }
}

impl IniFiles {
    /// No files.
    pub fn new() -> (r: Self)
        ensures
            r@ == FilesView::empty(),
            r.0.names().len() == 0,
    {
        IniFiles(StrMap::new())
    }

    /// Puts a file under `name`.
    pub fn insert(&mut self, name: String, ini: Ini)
        ensures
            final(self)@ == old(self)@.insert(name@, ini@),
            final(self).0.names() == (if old(self)@.contains_key(name@) {
                old(self).0.names()
            } else {
                old(self).0.names().push(name@)
            }),
    {
        self.0.insert(name, ini);
    }

    /// The file under `name`.
    pub fn get(&self, name: &str) -> (r: Option<&Ini>)
        ensures
            match r {
                Some(ini) => self@.contains_key(name@) && ini@ == self@[name@],
                None => !self@.contains_key(name@),
            },
    {
        self.0.get(name)
    }
}

/// A section is what the document holds under its name; one that is not there is empty.
pub proof fn law_sections_are_found(ini: IniView, name: Seq<char>, key: Seq<char>)
    ensures
        ini.contains_key(name) ==> section_of(ini, name) == ini[name],
        !ini.contains_key(name) ==> !section_of(ini, name).contains_key(key),
{
}

/// Putting an entry into a section sets this entry alone: other keys, other sections and the set of
/// other sections stay. Making sure of a section sets none.
pub proof fn law_entry_is_put_in_place(
    ini: IniView,
    name: Seq<char>,
    key: Seq<char>,
    value: Seq<char>,
    other: Seq<char>,
    k: Seq<char>,
)
    ensures
        with_entry(ini, name, key, value).contains_key(other) <==> other == name
            || ini.contains_key(other),
        with_section(ini, name).contains_key(other) <==> other == name || ini.contains_key(other),
        with_entry(ini, name, key, value)[name].contains_pair(key, value),
        k != key ==> with_entry(ini, name, key, value)[name].contains_key(k) == (ini.contains_key(
            name,
        ) && ini[name].contains_key(k)),
        ini.contains_key(name) && ini[name].contains_key(k) && k != key ==> with_entry(
            ini,
            name,
            key,
            value,
        )[name][k] == ini[name][k],
        with_section(ini, name)[name].contains_key(k) == (ini.contains_key(name)
            && ini[name].contains_key(k)),
        ini.contains_key(name) ==> with_section(ini, name)[name] == ini[name],
        ini.contains_key(other) && other != name ==> with_entry(ini, name, key, value)[other]
            == ini[other] && with_section(ini, name)[other] == ini[other],
{
}

/// A line of a section is `key=value` with CR LF behind it, and lines follow each other.
pub proof fn law_lines_follow_each_other(a: Listing, b: Listing, key: Seq<char>, value: Seq<char>)
    ensures
        lines_text(seq![(key, value)]) == key + "="@ + value + "\r\n"@,
        lines_text(a + b) == lines_text(a) + lines_text(b),
    decreases b.len(),
{
    let one = seq![(key, value)];
    assert(one.drop_last() =~= Seq::empty());
    assert(lines_text(Seq::empty()) =~= Seq::empty());
    assert(lines_text(one) =~= key + "="@ + value + "\r\n"@);
    if b.len() == 0 {
        assert(a + b =~= a);
        assert(lines_text(a) + lines_text(b) =~= lines_text(a));
    } else {
        law_lines_follow_each_other(a, b.drop_last(), key, value);
        assert((a + b).drop_last() =~= a + b.drop_last());
        assert((a + b).last() == b.last());
        assert(lines_text(a + b) =~= lines_text(a) + lines_text(b));
    }
}

/// A section is its name in brackets and its lines, and sections follow each other.
pub proof fn law_sections_follow_each_other(
    a: Seq<(Seq<char>, Listing)>,
    b: Seq<(Seq<char>, Listing)>,
    name: Seq<char>,
    entries: Listing,
)
    ensures
        ini_text(seq![(name, entries)]) == "["@ + name + "]\r\n"@ + lines_text(entries),
        ini_text(a + b) == ini_text(a) + ini_text(b),
    decreases b.len(),
{
    let one = seq![(name, entries)];
    assert(one.drop_last() =~= Seq::empty());
    assert(ini_text(Seq::empty()) =~= Seq::empty());
    assert(ini_text(one) =~= "["@ + name + "]\r\n"@ + lines_text(entries));
    if b.len() == 0 {
        assert(a + b =~= a);
        assert(ini_text(a) + ini_text(b) =~= ini_text(a));
    } else {
        law_sections_follow_each_other(a, b.drop_last(), name, entries);
        assert((a + b).drop_last() =~= a + b.drop_last());
        assert((a + b).last() == b.last());
        assert(ini_text(a + b) =~= ini_text(a) + ini_text(b));
    }
}

/// Putting an entry in place keeps the order of all others: it takes the place of the one with its
/// name, or comes last.
pub proof fn law_order_is_kept<A>(
    before: Seq<(Seq<char>, A)>,
    name: Seq<char>,
    content: A,
    after: Seq<(Seq<char>, A)>,
)
    requires
        forall|i: int| 0 <= i < before.len() ==> (#[trigger] before[i]).0 != name,
        forall|i: int| 0 <= i < after.len() ==> (#[trigger] after[i]).0 != name,
    ensures
        placed(before, name, content) == before + seq![(name, content)],
        forall|old_content: A| #[trigger]
            placed(before + seq![(name, old_content)] + after, name, content) == before + seq![
                (name, content),
            ] + after,
{
    assert(placed(before, name, content) =~= before + seq![(name, content)]);
    assert forall|old_content: A| #[trigger]
        placed(before + seq![(name, old_content)] + after, name, content) == before + seq![
            (name, content),
        ] + after by {
        let all = before + seq![(name, old_content)] + after;
        let n = before.len() as int;
        assert(all[n].0 == name);
        assert forall|i: int| 0 <= i < all.len() && i != n implies (#[trigger] all[i]).0 != name by {
            if i < n {
                assert(all[i] == before[i]);
            } else {
                assert(all[i] == after[i - n - 1]);
            }
        }
        assert(placed(all, name, content) =~= before + seq![(name, content)] + after);
    }
}

/// A name is left out, and every other one stays.
pub proof fn law_without_leaves_out_one(names: Seq<Seq<char>>, i: int)
    requires
        names.no_duplicates(),
        0 <= i < names.len(),
    ensures
        without(names, names[i]) == names.subrange(0, i) + names.subrange(
            i + 1,
            names.len() as int,
        ),
{
    lemma_without(names, i);
    assert(names.remove(i) =~= names.subrange(0, i) + names.subrange(i + 1, names.len() as int));
}

} // verus!
