//! The bookmark store: a mapping from bookmark names to canonical directory
//! paths, tied to the location of its backing file.

use vstd::prelude::*;

use crate::codec;
use crate::codec::json_of;
use crate::codec::json_parsed;
use crate::pairs::lemma_map_of_contains;
use crate::pairs::lemma_map_of_index;
use crate::pairs::lemma_map_of_push;
use crate::pairs::lemma_map_of_update;
use crate::pairs::lemma_unique_push;
use crate::pairs::map_of;
use crate::pairs::pair_view;
use crate::pairs::unique_keys;
use crate::pairs::view_pairs;
use crate::table::dir_width;
use crate::table::name_width;
use crate::table::push_row;
use crate::table::row;
use crate::table::rows_of;
use crate::table::table_of;
use crate::StoreError;

verus! {

/// Exact equality of two texts, character by character.
pub(crate) fn str_eq(a: &str, b: &str) -> (r: bool)
    ensures
        r == (a@ == b@),
{
    let alen = a.unicode_len();
    let blen = b.unicode_len();
    if alen != blen {
        return false;
    }
    let mut i: usize = 0;
    while i < alen
        invariant
            alen == a@.len(),
            blen == b@.len(),
            alen == blen,
            i <= alen,
            forall|j: int| 0 <= j < i ==> a@[j] == b@[j],
        decreases alen - i,
    {
        let ca = a.get_char(i);
        let cb = b.get_char(i);
        if ca != cb {
            assert(a@[i as int] != b@[i as int]);
            return false;
        }
        i += 1;
    }
    proof {
        assert(a@ =~= b@);
    }
    true
}

/// An in-memory mapping from bookmark names to canonical directory paths,
/// loaded from and persisted to a single backing file.
pub struct DirectoryCollection {
    location: String,
    entries: Vec<(String, String)>,
}

impl DirectoryCollection {
    /// The location of the backing file, fixed at construction.
    pub closed spec fn location_view(&self) -> Seq<char> {
        self.location@
    }

    /// The stored entries, in storage order.
    pub closed spec fn entries_seq(&self) -> Seq<(Seq<char>, Seq<char>)> {
        view_pairs(self.entries@)
    }

    /// The mapping the store holds.
    pub open spec fn entries_map(&self) -> Map<Seq<char>, Seq<char>> {
        map_of(self.entries_seq())
    }

    /// Well-formed: no bookmark name occurs twice among the entries.
    pub closed spec fn wf(&self) -> bool {
        unique_keys(self.entries_seq())
    }

    /// Builds the store from the backing file's content: `None` where no file
    /// exists, which gives an empty store, or `Some` text, which must decode
    /// as a mapping from names to paths. The caller reads the file and hands
    /// the text over.
    pub fn try_load(location: String, content: Option<String>) -> (r: Result<
        DirectoryCollection,
        StoreError,
    >)
        ensures
            r is Ok <==> (content is None || json_parsed(content.unwrap()@) is Some),
            r matches Err(e) ==> e == StoreError::Load,
            r is Ok ==> r.unwrap().wf() && r.unwrap().location_view() == location@,
            content is None && r is Ok ==> r.unwrap().entries_map() == Map::<
                Seq<char>,
                Seq<char>,
            >::empty(),
            content is Some && r is Ok ==> Some(r.unwrap().entries_map()) == json_parsed(
                content.unwrap()@,
            ),
    {
        match content {
            None => {
                let entries: Vec<(String, String)> = Vec::new();
                proof {
                    assert(view_pairs(entries@) =~= Seq::<(Seq<char>, Seq<char>)>::empty());
                }
                Ok(DirectoryCollection { location, entries })
            },
            Some(text) => match codec::decode_entries(text.as_str()) {
                Ok(entries) => Ok(DirectoryCollection { location, entries }),
                Err(_) => Err(StoreError::Load),
            },
        }
    }

    /// The location of the backing file.
    pub fn location(&self) -> (r: &String)
        ensures
            r@ == self.location_view(),
    {
        &self.location
    }

    /// Inserts a bookmark. `resolved` is the outcome of resolving the raw
    /// path on the filesystem: the canonical path, or `None` where the path
    /// did not resolve, in which case the store is left unchanged and the
    /// insertion fails.
    #[verifier::loop_isolation(false)]
    pub fn insert(&mut self, name: String, resolved: Option<String>) -> (r: Result<
        (),
        StoreError,
    >)
        requires
            old(self).wf(),
        ensures
            final(self).wf(),
            final(self).location_view() == old(self).location_view(),
            match resolved {
                Some(path) => r is Ok && final(self).entries_map() == old(
                    self,
                ).entries_map().insert(name@, path@),
                None => r == Err::<(), StoreError>(StoreError::PathResolution) && *final(self)
                    == *old(self),
            },
    {
        let path = match resolved {
            Some(p) => p,
            None => {
                return Err(StoreError::PathResolution);
            },
        };
        let ghost orig = *self;
        let ghost nv = name@;
        let ghost pv = path@;
        let n = self.entries.len();
        let mut i: usize = 0;
        while i < n
            invariant
                *self == orig,
                i <= n,
                forall|j: int| 0 <= j < i ==> self.entries_seq()[j].0 != nv,
            decreases n - i,
        {
            proof {
                assert(self.entries_seq()[i as int] == pair_view(self.entries@[i as int]));
            }
            if str_eq(self.entries[i].0.as_str(), name.as_str()) {
                self.entries.set(i, (name, path));
                proof {
                    assert(self.entries_seq() =~= orig.entries_seq().update(i as int, (nv, pv)));
                    lemma_map_of_update(orig.entries_seq(), i as int, nv, pv);
                }
                return Ok(());
            }
            i += 1;
        }
        self.entries.push((name, path));
        proof {
            assert(self.entries_seq() =~= orig.entries_seq().push((nv, pv)));
            lemma_unique_push(orig.entries_seq(), nv, pv);
            lemma_map_of_push(orig.entries_seq(), nv, pv);
        }
        Ok(())
    }

    /// Looks up a bookmark by exact name: the stored canonical path, or
    /// `None` where no entry carries that name.
    #[verifier::loop_isolation(false)]
    pub fn get(&self, name: &str) -> (r: Option<&String>)
        requires
            self.wf(),
        ensures
            match r {
                Some(path) => self.entries_map().contains_key(name@) && path@
                    == self.entries_map()[name@],
                None => !self.entries_map().contains_key(name@),
            },
    {
        let n = self.entries.len();
        let mut i: usize = 0;
        while i < n
            invariant
                self.wf(),
                n == self.entries@.len(),
                i <= n,
                forall|j: int| 0 <= j < i ==> self.entries_seq()[j].0 != name@,
            decreases n - i,
        {
            proof {
                assert(self.entries_seq()[i as int] == pair_view(self.entries@[i as int]));
            }
            if str_eq(self.entries[i].0.as_str(), name) {
                proof {
                    lemma_map_of_index(self.entries_seq(), i as int);
                }
                return Some(&self.entries[i].1);
            }
            i += 1;
        }
        proof {
            lemma_map_of_contains(self.entries_seq(), name@);
        }
        None
    }

    /// Empties the store unconditionally.
    pub fn clear(&mut self)
        ensures
            final(self).wf(),
            final(self).location_view() == old(self).location_view(),
            final(self).entries_seq() == Seq::<(Seq<char>, Seq<char>)>::empty(),
            final(self).entries_map() == Map::<Seq<char>, Seq<char>>::empty(),
    {
        self.entries.clear();
        proof {
            assert(self.entries_seq() =~= Seq::<(Seq<char>, Seq<char>)>::empty());
        }
    }

    /// Renders the entries as a two-column table: a header row naming the
    /// columns, then one row per entry in storage order, each column as wide
    /// as its widest cell and at least 15 characters.
    #[verifier::loop_isolation(false)]
    pub fn render_table(&self) -> (r: String)
        ensures
            r@ == table_of(self.entries_seq()),
    {
        let (name_w, dir_w) = self.column_widths();
        let ghost kw = name_width(self.entries_seq());
        let ghost vw = dir_width(self.entries_seq());
        let mut out = String::new();
        push_row(&mut out, "Name", "Dir", name_w, dir_w);
        let n = self.entries.len();
        let mut i: usize = 0;
        while i < n
            invariant
                i <= n,
                out@ == row("Name"@, "Dir"@, kw, vw) + rows_of(
                    self.entries_seq().take(i as int),
                    kw,
                    vw,
                ),
            decreases n - i,
        {
            let ghost prefix = self.entries_seq().take(i as int);
            push_row(
                &mut out,
                self.entries[i].0.as_str(),
                self.entries[i].1.as_str(),
                name_w,
                dir_w,
            );
            proof {
                let longer = self.entries_seq().take(i + 1 as int);
                assert(longer.drop_last() =~= prefix);
                assert(longer.last() == self.entries_seq()[i as int]);
                assert(self.entries_seq()[i as int] == pair_view(self.entries@[i as int]));
            }
            i += 1;
        }
        proof {
            assert(self.entries_seq().take(n as int) =~= self.entries_seq());
        }
        out
    }

    /// The widths of the two columns: each column's widest cell, floored
    /// at 15.
    #[verifier::loop_isolation(false)]
    fn column_widths(&self) -> (r: (usize, usize))
        ensures
            r.0 == name_width(self.entries_seq()),
            r.1 == dir_width(self.entries_seq()),
    {
        let mut name_w: usize = 15;
        let mut dir_w: usize = 15;
        let n = self.entries.len();
        let mut i: usize = 0;
        proof {
            assert(self.entries_seq().take(0) =~= Seq::<(Seq<char>, Seq<char>)>::empty());
        }
        while i < n
            invariant
                i <= n,
                name_w == name_width(self.entries_seq().take(i as int)),
                dir_w == dir_width(self.entries_seq().take(i as int)),
            decreases n - i,
        {
            proof {
                let longer = self.entries_seq().take(i + 1 as int);
                assert(longer.drop_last() =~= self.entries_seq().take(i as int));
                assert(longer.last() == self.entries_seq()[i as int]);
                assert(self.entries_seq()[i as int] == pair_view(self.entries@[i as int]));
            }
            let name_len = self.entries[i].0.as_str().unicode_len();
            if name_len > name_w {
                name_w = name_len;
            }
            let dir_len = self.entries[i].1.as_str().unicode_len();
            if dir_len > dir_w {
                dir_w = dir_len;
            }
            i += 1;
        }
        proof {
            assert(self.entries_seq().take(n as int) =~= self.entries_seq());
        }
        (name_w, dir_w)
    }

    /// Serializes the entries to the backing file's text form. The caller
    /// writes the result to the store's location. The document parses back
    /// to the mapping the store holds, and an empty store gives `"{}"`.
    pub fn try_save(&self) -> (r: String)
        requires
            self.wf(),
        ensures
            r@ == json_of(self.entries_map()),
            json_parsed(r@) == Some(self.entries_map()),
            self.entries_seq().len() == 0 ==> r@ == "{}"@,
    {
        codec::encode_entries(&self.entries)
    }
}

/// Law: saving a store and loading the written document back yields a store
/// with an equal mapping, whatever the store holds.
pub fn save_and_reload(store: &DirectoryCollection, location: String) -> (r: DirectoryCollection)
    requires
        store.wf(),
    ensures
        r.wf(),
        r.entries_map() == store.entries_map(),
{
    let text = store.try_save();
    match DirectoryCollection::try_load(location, Some(text)) {
        Ok(loaded) => loaded,
        Err(_) => vstd::pervasive::unreached(),
    }
}

/// Law: inserting a name with the canonical path it already maps to leaves
/// the mapping unchanged: one entry for the name, holding that path.
pub proof fn lemma_insert_same_path_idempotent(
    m: Map<Seq<char>, Seq<char>>,
    name: Seq<char>,
    path: Seq<char>,
)
    ensures
        m.insert(name, path).insert(name, path) == m.insert(name, path),
        m.insert(name, path)[name] == path,
{
    assert(m.insert(name, path).insert(name, path) =~= m.insert(name, path));
}

/// Law: inserting the same name twice keeps one entry for it, holding the
/// second path; no other name is touched.
pub proof fn lemma_insert_overwrites(
    m: Map<Seq<char>, Seq<char>>,
    name: Seq<char>,
    first: Seq<char>,
    second: Seq<char>,
)
    ensures
        m.insert(name, first).insert(name, second) == m.insert(name, second),
        m.insert(name, second)[name] == second,
        m.insert(name, second).dom() == m.dom().insert(name),
{
    assert(m.insert(name, first).insert(name, second) =~= m.insert(name, second));
    assert(m.insert(name, second).dom() =~= m.dom().insert(name));
}

/// Law: a name misses in the empty mapping, and inserting a different name
/// leaves it missing.
pub proof fn lemma_lookup_miss(
    m: Map<Seq<char>, Seq<char>>,
    name: Seq<char>,
    other: Seq<char>,
    path: Seq<char>,
)
    requires
        other != name,
        !m.contains_key(name),
    ensures
        !Map::<Seq<char>, Seq<char>>::empty().contains_key(name),
        !m.insert(other, path).contains_key(name),
{
}

} // verus!
