//! Per-folder metadata: custom display names and order of the entries,
//! kept in a hidden file inside each folder.
use vstd::prelude::*;
use crate::winpath::{join, join_str};

verus! {

/// Name of the hidden metadata file kept in each folder.
pub open spec fn meta_file_name() -> Seq<char> {
    ".launchpad.json"@
}

/// Custom settings of one entry; `None` means "not set".
#[derive(Debug, Clone, PartialEq, Eq, Default)]
pub struct ItemMeta {
    pub order: Option<i32>,
    pub name: Option<String>,
    pub color: Option<String>,
    pub icon: Option<String>,
}

/// An entry with nothing set.
pub open spec fn empty_item() -> ItemMeta {
    ItemMeta { order: None, name: None, color: None, icon: None }
}

fn copy_opt_string(o: &Option<String>) -> (r: Option<String>)
    ensures
        r == *o,
{
    match o {
        Some(s) => Some(s.clone()),
        None => None,
    }
}

impl ItemMeta {
    /// A copy of these settings.
    pub fn copy(&self) -> (r: ItemMeta)
        ensures
            r == *self,
    {
        ItemMeta {
            order: self.order,
            name: copy_opt_string(&self.name),
            color: copy_opt_string(&self.color),
            icon: copy_opt_string(&self.icon),
        }
    }

    pub fn empty() -> (r: ItemMeta)
        ensures
            r == empty_item(),
    {
        ItemMeta { order: None, name: None, color: None, icon: None }
    }
}

/// Metadata of one folder: settings per entry, keyed by the entry's file
/// name (not its display name), held as a list of (file name, settings)
/// pairs in which no file name occurs twice. Its view is the map from file
/// names to settings.
#[derive(Debug, Clone)]
pub struct FolderMeta {
    items: Vec<(String, ItemMeta)>,
}

/// The map that a list of (file name, settings) pairs describes; a later pair
/// for the same name wins.
pub open spec fn pairs_map(s: Seq<(String, ItemMeta)>) -> Map<Seq<char>, ItemMeta>
    decreases s.len(),
{
    if s.len() == 0 {
        Map::empty()
    } else {
        pairs_map(s.drop_last()).insert(s.last().0@, s.last().1)
    }
}

pub open spec fn keys_unique(s: Seq<(String, ItemMeta)>) -> bool {
    forall|i: int, j: int| 0 <= i < j < s.len() ==> (#[trigger] s[i]).0@ != (#[trigger] s[j]).0@
}

pub proof fn lemma_pairs_map_index(s: Seq<(String, ItemMeta)>, i: int)
    requires
        keys_unique(s),
        0 <= i < s.len(),
    ensures
        pairs_map(s).contains_key(s[i].0@),
        pairs_map(s)[s[i].0@] == s[i].1,
    decreases s.len(),
{
    if i < s.len() - 1 {
        let t = s.drop_last();
        assert(t[i] == s[i]);
        assert(keys_unique(t));
        lemma_pairs_map_index(t, i);
        assert(s[i].0@ != s[s.len() - 1].0@);
    }
}

pub proof fn lemma_pairs_map_absent(s: Seq<(String, ItemMeta)>, k: Seq<char>)
    requires
        forall|i: int| 0 <= i < s.len() ==> (#[trigger] s[i]).0@ != k,
    ensures
        !pairs_map(s).contains_key(k),
    decreases s.len(),
{
    if s.len() > 0 {
        let t = s.drop_last();
        assert forall|i: int| 0 <= i < t.len() implies (#[trigger] t[i]).0@ != k by {
            assert(t[i] == s[i]);
        }
        lemma_pairs_map_absent(t, k);
        assert(s.last() == s[s.len() - 1]);
    }
}

pub proof fn lemma_pairs_map_update(s: Seq<(String, ItemMeta)>, i: int, v: ItemMeta)
    requires
        keys_unique(s),
        0 <= i < s.len(),
    ensures
        keys_unique(s.update(i, (s[i].0, v))),
        pairs_map(s.update(i, (s[i].0, v))) == pairs_map(s).insert(s[i].0@, v),
    decreases s.len(),
{
    let u = s.update(i, (s[i].0, v));
    assert forall|a: int, b: int| 0 <= a < b < u.len() implies (#[trigger] u[a]).0@ != (
    #[trigger] u[b]).0@ by {
        assert(s[a].0@ != s[b].0@);
    }
    if i == s.len() - 1 {
        assert(u.drop_last() =~= s.drop_last());
        assert(pairs_map(u) =~= pairs_map(s).insert(s[i].0@, v));
    } else {
        let t = s.drop_last();
        assert(keys_unique(t));
        lemma_pairs_map_update(t, i, v);
        assert(u.drop_last() =~= t.update(i, (t[i].0, v)));
        assert(s[i].0@ != s.last().0@);
        assert(pairs_map(u) =~= pairs_map(s).insert(s[i].0@, v));
    }
}

impl View for FolderMeta {
    type V = Map<Seq<char>, ItemMeta>;

    closed spec fn view(&self) -> Map<Seq<char>, ItemMeta> {
        pairs_map(self.items@)
    }
}

impl FolderMeta {
    /// No file name occurs twice.
    pub closed spec fn wf(&self) -> bool {
        keys_unique(self.items@)
    }

    /// The (file name, settings) pairs, each name once.
    pub closed spec fn pairs(&self) -> Seq<(String, ItemMeta)> {
        self.items@
    }

    /// Metadata with no entries.
    pub fn new() -> (r: FolderMeta)
        ensures
            r.wf(),
            r@ == Map::<Seq<char>, ItemMeta>::empty(),
    {
        FolderMeta { items: Vec::new() }
    }

    fn position(&self, file_name: &String) -> (r: Option<usize>)
        requires
            self.wf(),
        ensures
            match r {
                Some(i) => i < self.items@.len() && self.items@[i as int].0@ == file_name@,
                None => forall|i: int|
                    0 <= i < self.items@.len() ==> (#[trigger] self.items@[i]).0@ != file_name@,
            },
    {
        let mut i: usize = 0;
        while i < self.items.len()
            invariant
                0 <= i <= self.items@.len(),
                forall|j: int| 0 <= j < i ==> (#[trigger] self.items@[j]).0@ != file_name@,
            decreases self.items@.len() - i,
        {
            if self.items[i].0 == *file_name {
                return Some(i);
            }
            i = i + 1;
        }
        None
    }

    /// The settings stored for `file_name`, if any.
    pub fn get(&self, file_name: &String) -> (r: Option<&ItemMeta>)
        requires
            self.wf(),
        ensures
            match r {
                Some(m) => self@.contains_key(file_name@) && self@[file_name@] == *m,
                None => !self@.contains_key(file_name@),
            },
    {
        match self.position(file_name) {
            Some(i) => {
                proof {
                    lemma_pairs_map_index(self.items@, i as int);
                }
                Some(&self.items[i].1)
            },
            None => {
                proof {
                    lemma_pairs_map_absent(self.items@, file_name@);
                }
                None
            },
        }
    }

    /// Stores `meta` for `file_name`, replacing what was there.
    pub fn insert(&mut self, file_name: String, meta: ItemMeta)
        requires
            old(self).wf(),
        ensures
            final(self).wf(),
            final(self)@ == old(self)@.insert(file_name@, meta),
    {
        match self.position(&file_name) {
            Some(i) => {
                let ghost s = self.items@;
                let key = self.items[i].0.clone();
                self.items.set(i, (key, meta));
                proof {
                    assert(self.items@ == s.update(i as int, (s[i as int].0, meta)));
                    lemma_pairs_map_update(s, i as int, meta);
                }
            },
            None => {
                let ghost s = self.items@;
                self.items.push((file_name, meta));
                proof {
                    assert(self.items@.drop_last() =~= s);
                    assert forall|a: int, b: int|
                        0 <= a < b < self.items@.len() implies (#[trigger] self.items@[a]).0@ != (
                        #[trigger] self.items@[b]).0@ by {
                        if b == s.len() {
                            assert(self.items@[a] == s[a]);
                        } else {
                            assert(s[a].0@ != s[b].0@);
                        }
                    }
                }
            },
        }
    }

    /// The stored (file name, settings) pairs.
    pub fn entries(&self) -> (r: &Vec<(String, ItemMeta)>)
        ensures
            r@ == self.pairs(),
    {
        &self.items
    }
}

/// An entry's settings after a custom name and/or order is recorded: the
/// given values replace the stored ones, everything else is kept.
pub open spec fn with_name_order(m: ItemMeta, name: Option<String>, order: Option<i32>) -> ItemMeta {
    ItemMeta {
        order: match order {
            Some(o) => Some(o),
            None => m.order,
        },
        name: match name {
            Some(n) => Some(n),
            None => m.name,
        },
        color: m.color,
        icon: m.icon,
    }
}

/// The metadata map after recording a custom name and/or order for
/// `file_name`.
pub open spec fn set_item_spec(
    m: Map<Seq<char>, ItemMeta>,
    file_name: Seq<char>,
    name: Option<String>,
    order: Option<i32>,
) -> Map<Seq<char>, ItemMeta> {
    m.insert(
        file_name,
        with_name_order(
            if m.contains_key(file_name) {
                m[file_name]
            } else {
                empty_item()
            },
            name,
            order,
        ),
    )
}

/// After a custom name and/or order is recorded for an entry, that entry
/// exists and reads back the given values (and its old values where none
/// was given, its colour and icon unchanged), while every other entry is
/// untouched.
pub proof fn law_set_item_read_back(
    m: Map<Seq<char>, ItemMeta>,
    file_name: Seq<char>,
    name: Option<String>,
    order: Option<i32>,
    other: Seq<char>,
)
    requires
        other != file_name,
    ensures
        ({
            let after = set_item_spec(m, file_name, name, order);
            let before = if m.contains_key(file_name) {
                m[file_name]
            } else {
                empty_item()
            };
            &&& after.contains_key(file_name)
            &&& after[file_name].name == (if name is Some {
                name
            } else {
                before.name
            })
            &&& after[file_name].order == (if order is Some {
                order
            } else {
                before.order
            })
            &&& after[file_name].color == before.color
            &&& after[file_name].icon == before.icon
            &&& after.contains_key(other) == m.contains_key(other)
            &&& m.contains_key(other) ==> after[other] == m[other]
        }),
{
}

impl FolderMeta {
    /// Records a custom display name and/or order for `file_name`, creating
    /// the entry when it is missing; values not given stay as they were.
    pub fn set_item(&mut self, file_name: String, name: Option<String>, order: Option<i32>)
        requires
            old(self).wf(),
        ensures
            final(self).wf(),
            final(self)@ == set_item_spec(old(self)@, file_name@, name, order),
    {
        let mut item = match self.get(&file_name) {
            Some(m) => m.copy(),
            None => ItemMeta::empty(),
        };
        assert(item == (if self@.contains_key(file_name@) {
            self@[file_name@]
        } else {
            empty_item()
        }));
        if let Some(n) = name {
            item.name = Some(n);
        }
        if let Some(o) = order {
            item.order = Some(o);
        }
        self.insert(file_name, item);
    }
}

/// Path of the metadata file of folder `dir`.
pub fn meta_file_path(dir: &str) -> (r: String)
    ensures
        r@ == join(dir@, meta_file_name()),
{
    join_str(dir, ".launchpad.json")
}

} // verus!
