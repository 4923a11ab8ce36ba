//! The entries of one launcher level (files are items, folders are groups):
//! which files are listed, what each is called and in what order they appear.
use vstd::prelude::*;
use crate::metadata::{FolderMeta, ItemMeta};
use crate::order::{Key, is_permutation, is_stable_sorted, keys_view, sort_order};
use crate::text::{chars_eq_str, chars_of, lower_seq, string_from_chars};
use crate::winpath::{ext_lower, extension, file_stem, file_stem_of, join, join_str};

verus! {

/// One entry of a launcher level: a file to launch or a folder (a group).
#[derive(Debug, Clone, PartialEq, Eq)]
pub struct Entry {
    /// Name shown to the user.
    pub name: String,
    /// Name of the file or folder on disk.
    pub file_name: String,
    pub path: String,
    /// `file` or `folder`.
    pub kind: String,
    /// Cached icon image, when one could be made.
    pub icon: Option<String>,
    pub is_lnk: bool,
    pub is_url: bool,
}

impl Entry {
    /// A copy of this entry.
    pub fn copy(&self) -> (r: Entry)
        ensures
            r == *self,
    {
        Entry {
            name: self.name.clone(),
            file_name: self.file_name.clone(),
            path: self.path.clone(),
            kind: self.kind.clone(),
            icon: match &self.icon {
                Some(s) => Some(s.clone()),
                None => None,
            },
            is_lnk: self.is_lnk,
            is_url: self.is_url,
        }
    }
}

/// Files that are not shown: the metadata file and every other name that
/// starts with a dot.
pub open spec fn is_listed_spec(file_name: Seq<char>) -> bool {
    file_name != ".launchpad.json"@ && !(file_name.len() > 0 && file_name[0] == '.')
}

/// Whether a file of the folder is shown as an entry.
pub fn is_listed(file_name: &str) -> (r: bool)
    ensures
        r == is_listed_spec(file_name@),
{
    let f = chars_of(file_name);
    !chars_eq_str(&f, ".launchpad.json") && !(f.len() > 0 && f[0] == '.')
}

/// The custom settings map entry for a file name, if any.
pub open spec fn meta_of(meta: Map<Seq<char>, ItemMeta>, file_name: Seq<char>) -> Option<ItemMeta> {
    if meta.contains_key(file_name) {
        Some(meta[file_name])
    } else {
        None
    }
}

/// Name shown for an entry: its custom name when one is set; otherwise the
/// file name for a folder, and the file's stem for a file.
pub open spec fn display_name_spec(
    meta: Map<Seq<char>, ItemMeta>,
    file_name: Seq<char>,
    file_path: Seq<char>,
    is_dir: bool,
) -> Seq<char> {
    match meta_of(meta, file_name) {
        Some(m) if m.name is Some => m.name.unwrap()@,
        _ => if is_dir {
            file_name
        } else {
            match file_stem(file_path) {
                Some(s) => s,
                None => file_name,
            }
        },
    }
}

/// The name shown for a file or folder of the level.
pub fn display_name(meta: &FolderMeta, file_name: &String, file_path: &str, is_dir: bool) -> (r: String)
    requires
        meta.wf(),
    ensures
        r@ == display_name_spec(meta@, file_name@, file_path@, is_dir),
{
    if let Some(m) = meta.get(file_name) {
        if let Some(n) = &m.name {
            return n.clone();
        }
    }
    if is_dir {
        return file_name.clone();
    }
    let p = chars_of(file_path);
    match file_stem_of(&p) {
        Some(s) => string_from_chars(s.as_slice()),
        None => file_name.clone(),
    }
}

/// The lower-cased extension of a path (empty when it has none).
pub open spec fn ext_lower_spec(path: Seq<char>) -> Seq<char> {
    match extension(path) {
        Some(e) => lower_seq(e),
        None => Seq::<char>::empty(),
    }
}

/// The entry for one file or folder of the level.
pub open spec fn entry_spec(
    meta: Map<Seq<char>, ItemMeta>,
    file_name: Seq<char>,
    is_dir: bool,
    file_path: Seq<char>,
    icon: Option<String>,
    e: Entry,
) -> bool {
    &&& e.name@ == display_name_spec(meta, file_name, file_path, is_dir)
    &&& e.file_name@ == file_name
    &&& e.path@ == file_path
    &&& e.kind@ == (if is_dir { "folder"@ } else { "file"@ })
    &&& e.icon == icon
    &&& e.is_lnk == (ext_lower_spec(file_path) == "lnk"@)
    &&& e.is_url == (ext_lower_spec(file_path) == "url"@)
}

/// Builds the entry of a file or folder from its name on disk, whether it is
/// a folder, its full path and its cached icon.
pub fn make_entry(
    meta: &FolderMeta,
    file_name: String,
    is_dir: bool,
    file_path: String,
    icon: Option<String>,
) -> (e: Entry)
    requires
        meta.wf(),
    ensures
        entry_spec(meta@, file_name@, is_dir, file_path@, icon, e),
{
    let name = display_name(meta, &file_name, file_path.as_str(), is_dir);
    let el = ext_lower(file_path.as_str());
    let elc = chars_of(el.as_str());
    let is_lnk = chars_eq_str(&elc, "lnk");
    let is_url = chars_eq_str(&elc, "url");
    let kind = if is_dir {
        String::from_str("folder")
    } else {
        String::from_str("file")
    };
    Entry { name, file_name, path: file_path, kind, icon, is_lnk, is_url }
}

/// Sort key of an entry: the custom order stored for its file name, and the
/// file name.
pub open spec fn entry_key(meta: Map<Seq<char>, ItemMeta>, e: Entry) -> Key {
    (
        match meta_of(meta, e.file_name@) {
            Some(m) => m.order,
            None => None,
        },
        e.file_name@,
    )
}

pub open spec fn entry_keys(meta: Map<Seq<char>, ItemMeta>, es: Seq<Entry>) -> Seq<Key> {
    es.map_values(|e: Entry| entry_key(meta, e))
}

/// Puts a level's entries in display order: those with a custom order first,
/// ascending by it; the rest after them by file name; entries that tie keep
/// their listed order.
pub fn sort_entries(entries: Vec<Entry>, meta: &FolderMeta) -> (r: Vec<Entry>)
    requires
        meta.wf(),
    ensures
        exists|perm: Seq<usize>|
            {
                &&& is_permutation(perm, entries@.len() as int)
                &&& is_stable_sorted(entry_keys(meta@, entries@), perm)
                &&& r@.len() == entries@.len()
                &&& forall|i: int| 0 <= i < r@.len() ==> r@[i] == entries@[#[trigger] perm[i] as int]
            },
{
    let n = entries.len();
    let mut keys: Vec<(Option<i32>, Vec<char>)> = Vec::new();
    let mut i: usize = 0;
    while i < n
        invariant
            n == entries@.len(),
            meta.wf(),
            0 <= i <= n,
            keys@.len() == i,
            forall|j: int| 0 <= j < i ==> (#[trigger] keys_view(keys@)[j]) == entry_key(meta@, entries@[j]),
        decreases n - i,
    {
        let order = match meta.get(&entries[i].file_name) {
            Some(m) => m.order,
            None => None,
        };
        let name = chars_of(entries[i].file_name.as_str());
        let ghost before = keys@;
        keys.push((order, name));
        proof {
            assert forall|j: int| 0 <= j < i + 1 implies (#[trigger] keys_view(keys@)[j]) == entry_key(meta@, entries@[j]) by {
                if j < i {
                    assert(keys@[j] == before[j]);
                    assert(keys_view(before)[j] == entry_key(meta@, entries@[j]));
                }
            }
        }
        i = i + 1;
    }
    assert(keys_view(keys@) =~= entry_keys(meta@, entries@));
    let perm = sort_order(&keys);
    let mut out: Vec<Entry> = Vec::new();
    let mut k: usize = 0;
    while k < n
        invariant
            n == entries@.len(),
            is_permutation(perm@, n as int),
            0 <= k <= n,
            out@.len() == k,
            forall|j: int| 0 <= j < k ==> out@[j] == entries@[#[trigger] perm@[j] as int],
        decreases n - k,
    {
        let e = entries[perm[k]].copy();
        out.push(e);
        k = k + 1;
    }
    out
}

/// Refusal text for deleting anything but a shortcut.
pub open spec fn only_shortcuts_message() -> Seq<char> {
    "只允许删除快捷方式(.lnk)"@
}

/// Only shortcut files (`.lnk`, any case) may be deleted.
pub fn check_deletable(path: &str) -> (r: Result<(), String>)
    ensures
        r is Ok <==> ext_lower_spec(path@) == "lnk"@,
        r matches Err(m) ==> m@ == only_shortcuts_message(),
{
    let el = ext_lower(path);
    let elc = chars_of(el.as_str());
    if !chars_eq_str(&elc, "lnk") {
        return Err(String::from_str("只允许删除快捷方式(.lnk)"));
    }
    Ok(())
}

/// Base name of a new shortcut: the given name, else the target's stem, else
/// `shortcut`.
pub fn shortcut_base_name(target: &str, name: Option<String>) -> (r: String)
    ensures
        r@ == match name {
            Some(n) => n@,
            None => match file_stem(target@) {
                Some(s) => s,
                None => "shortcut"@,
            },
        },
{
    match name {
        Some(n) => n,
        None => {
            let t = chars_of(target);
            match file_stem_of(&t) {
                Some(s) => string_from_chars(s.as_slice()),
                None => String::from_str("shortcut"),
            }
        },
    }
}


/// Decimal digits of `n`.
pub open spec fn decimal(n: nat) -> Seq<char>
    decreases n,
{
    if n < 10 {
        seq![((48 + n) as u32) as char]
    } else {
        decimal(n / 10) + seq![((48 + n % 10) as u32) as char]
    }
}

/// Appends the decimal digits of `n` to `out`.
pub fn push_decimal(out: &mut Vec<char>, n: u32)
    ensures
        final(out)@ == old(out)@ + decimal(n as nat),
    decreases n,
{
    if n >= 10 {
        push_decimal(out, n / 10);
    }
    let d = n % 10;
    match crate::text::char_from_u32(48 + d) {
        Some(c) => out.push(c),
        None => out.push('0'),
    }
}

/// File name of the `i`-th candidate for a new shortcut named `base`:
/// `base.lnk`, then `base (1).lnk`, `base (2).lnk`, and so on.
pub open spec fn lnk_candidate_name(base: Seq<char>, i: nat) -> Seq<char> {
    if i == 0 {
        base + ".lnk"@
    } else {
        base + " ("@ + decimal(i) + ").lnk"@
    }
}

/// Path of the `i`-th candidate for a new shortcut in `dest_dir`.
pub open spec fn lnk_candidate(dest_dir: Seq<char>, base: Seq<char>, i: nat) -> Seq<char> {
    join(dest_dir, lnk_candidate_name(base, i))
}

fn candidate_path(dest_dir: &str, base: &str, i: u32) -> (r: String)
    ensures
        r@ == lnk_candidate(dest_dir@, base@, i as nat),
{
    let mut name = chars_of(base);
    if i > 0 {
        let open = chars_of(" (");
        let mut k: usize = 0;
        let ghost start = name@;
        while k < open.len()
            invariant
                0 <= k <= open@.len(),
                open@ == " ("@,
                name@ == start + open@.take(k as int),
            decreases open@.len() - k,
        {
            name.push(open[k]);
            assert(open@.take(k + 1) =~= open@.take(k as int).push(open@[k as int]));
            k = k + 1;
        }
        assert(open@.take(open@.len() as int) =~= open@);
        push_decimal(&mut name, i);
        let close = chars_of(").lnk");
        let ghost mid = name@;
        let mut k: usize = 0;
        while k < close.len()
            invariant
                0 <= k <= close@.len(),
                close@ == ").lnk"@,
                name@ == mid + close@.take(k as int),
            decreases close@.len() - k,
        {
            name.push(close[k]);
            assert(close@.take(k + 1) =~= close@.take(k as int).push(close@[k as int]));
            k = k + 1;
        }
        assert(close@.take(close@.len() as int) =~= close@);
    } else {
        let ext = chars_of(".lnk");
        let ghost start = name@;
        let mut k: usize = 0;
        while k < ext.len()
            invariant
                0 <= k <= ext@.len(),
                ext@ == ".lnk"@,
                name@ == start + ext@.take(k as int),
            decreases ext@.len() - k,
        {
            name.push(ext[k]);
            assert(ext@.take(k + 1) =~= ext@.take(k as int).push(ext@[k as int]));
            k = k + 1;
        }
        assert(ext@.take(ext@.len() as int) =~= ext@);
    }
    let name_str = string_from_chars(name.as_slice());
    join_str(dest_dir, name_str.as_str())
}

/// Holds of a path and an answer that `std::path::Path::exists` gives for
/// it. The answer depends on what is on disk at the moment of the call: this
/// relation holds of every pair some call can give and says nothing of which
/// answer a given call gives. It records which path an answer is about.
pub uninterp spec fn exists_reply(path: Seq<char>, answer: bool) -> bool;

/// `std::path::Path::exists`: whether the path names something on disk now.
/// Only that the answer is one about the path asked is stated.
#[verifier::external_body]
fn path_exists(p: &str) -> (r: bool)
    ensures
        exists_reply(p@, r),
{
    std::path::Path::new(p).exists()
}

/// What to do after asking whether a shortcut candidate is taken.
#[derive(Debug, Clone, Copy, PartialEq, Eq, Structural)]
pub enum LnkStep {
    /// Use the candidate with this index.
    Use(u32),
    /// Ask about the candidate with this index next.
    Try(u32),
}

/// After learning whether candidate `i` is `taken`: use it when free; else
/// ask about the next one; after the last (999) use `base.lnk` (index 0).
pub open spec fn lnk_step_spec(i: u32, taken: bool) -> LnkStep {
    if !taken {
        LnkStep::Use(i)
    } else if i + 1 < 1000 {
        LnkStep::Try((i + 1) as u32)
    } else {
        LnkStep::Use(0)
    }
}

/// The next step of the search for a free shortcut name, given whether
/// candidate `i` is taken.
pub fn next_lnk_step(i: u32, taken: bool) -> (r: LnkStep)
    requires
        i < 1000,
    ensures
        r == lnk_step_spec(i, taken),
{
    if !taken {
        LnkStep::Use(i)
    } else if i + 1 < 1000 {
        LnkStep::Try(i + 1)
    } else {
        LnkStep::Use(0)
    }
}

/// Answers to "is candidate i taken?" asked in order from candidate 0,
/// stopping at the first free one or after the last candidate.
pub open spec fn asked_in_order(answers: Seq<bool>) -> bool {
    &&& 1 <= answers.len() <= 1000
    &&& forall|i: int| 0 <= i < answers.len() - 1 ==> #[trigger] answers[i]
    &&& (answers.len() == 1000 || !answers.last())
}

/// The candidate chosen from such answers: the free one found, or index 0
/// when every candidate was taken.
pub open spec fn chosen_candidate(answers: Seq<bool>) -> nat {
    if !answers.last() {
        (answers.len() - 1) as nat
    } else {
        0
    }
}

/// A path for a new shortcut named `base` in `dest_dir`: the first of
/// `base.lnk`, `base (1).lnk`, ..., `base (999).lnk` that is free on disk,
/// or `base.lnk` when all are taken. The disk is asked about the candidates
/// in that order, stopping at the first free one.
pub fn unique_lnk_path(dest_dir: &str, base: &str) -> (r: String)
    ensures
        exists|answers: Seq<bool>|
            #[trigger] asked_in_order(answers)
                && (forall|i: int| 0 <= i < answers.len() ==>
                    exists_reply(lnk_candidate(dest_dir@, base@, i as nat), #[trigger] answers[i]))
                && r@ == lnk_candidate(dest_dir@, base@, chosen_candidate(answers)),
{
    let mut i: u32 = 0;
    let ghost mut answers: Seq<bool> = Seq::empty();
    loop
        invariant
            i < 1000,
            answers.len() == i,
            forall|k: int| 0 <= k < answers.len() ==> #[trigger] answers[k],
            forall|k: int| 0 <= k < answers.len() ==>
                exists_reply(lnk_candidate(dest_dir@, base@, k as nat), #[trigger] answers[k]),
        decreases 1000 - i,
    {
        let p = candidate_path(dest_dir, base, i);
        let taken = path_exists(p.as_str());
        proof {
            answers = answers.push(taken);
            assert(answers[i as int] == taken);
        }
        match next_lnk_step(i, taken) {
            LnkStep::Use(j) => {
                proof {
                    assert(asked_in_order(answers));
                }
                if j == i {
                    assert(p@ == lnk_candidate(dest_dir@, base@, chosen_candidate(answers)));
                    return p;
                } else {
                    let d = candidate_path(dest_dir, base, 0);
                    assert(d@ == lnk_candidate(dest_dir@, base@, chosen_candidate(answers)));
                    return d;
                }
            },
            LnkStep::Try(j) => {
                i = j;
            },
        }
    }
}

/// A custom name recorded for a file name is the name its entry is shown
/// under, for folders and files alike; without one, a folder is shown under
/// its file name and a file under its stem (its file name when it has none).
pub proof fn law_entry_name(
    meta: Map<Seq<char>, ItemMeta>,
    file_name: Seq<char>,
    is_dir: bool,
    file_path: Seq<char>,
    icon: Option<String>,
    e: Entry,
)
    requires
        entry_spec(meta, file_name, is_dir, file_path, icon, e),
    ensures
        meta.contains_key(file_name) && meta[file_name].name is Some ==> e.name@
            == meta[file_name].name.unwrap()@,
        !(meta.contains_key(file_name) && meta[file_name].name is Some) && is_dir ==> e.name@
            == file_name,
        !(meta.contains_key(file_name) && meta[file_name].name is Some) && !is_dir ==> e.name@
            == (match file_stem(file_path) {
            Some(st) => st,
            None => file_name,
        }),
{
}

/// Decimal text of a number: digits only, no leading zero, and its value is
/// the number.
pub proof fn lemma_decimal(n: nat)
    ensures
        decimal(n).len() > 0,
        crate::hotkey::all_digits(decimal(n)),
        crate::hotkey::digits_value(decimal(n)) == n,
        n > 0 ==> decimal(n)[0] != '0',
    decreases n,
{
    if n < 10 {
        let c = ((48 + n) as u32) as char;
        assert(decimal(n) == seq![c]);
        assert(seq![c].drop_last() =~= Seq::<char>::empty());
        assert(crate::hotkey::digits_value(Seq::<char>::empty()) == 0);
        assert(crate::hotkey::digit_val(c) == n);
        assert(crate::hotkey::digits_value(seq![c]) == crate::hotkey::digits_value(Seq::<char>::empty()) * 10
            + crate::hotkey::digit_val(c));
    } else {
        lemma_decimal(n / 10);
        let d = decimal(n / 10);
        let c = ((48 + n % 10) as u32) as char;
        let t = d + seq![c];
        assert(decimal(n) == t);
        assert(t.drop_last() =~= d);
        assert(t.last() == c);
        assert(crate::hotkey::digit_val(c) == n % 10);
        assert(n / 10 * 10 + n % 10 == n) by (nonlinear_arith);
        assert(crate::hotkey::digits_value(t) == crate::hotkey::digits_value(d) * 10 + crate::hotkey::digit_val(c));
        assert forall|j: int| 0 <= j < t.len() implies crate::hotkey::is_digit(#[trigger] t[j]) by {
            if j < d.len() {
                assert(t[j] == d[j]);
            }
        }
        assert(t[0] == d[0]);
    }
}

/// Every candidate name for a new shortcut keeps the base name: the first is
/// `base.lnk`, the `i`-th after it is `base (i).lnk` with `i` written in
/// decimal digits without leading zeros.
pub proof fn law_candidate_names(base: Seq<char>, i: nat)
    ensures
        i == 0 ==> lnk_candidate_name(base, i) == base + ".lnk"@,
        i > 0 ==> exists|d: Seq<char>|
            d.len() > 0 && crate::hotkey::all_digits(d) && d[0] != '0' && crate::hotkey::digits_value(d) == i
                && lnk_candidate_name(base, i) == base + " ("@ + d + ").lnk"@,
        lnk_candidate_name(base, i).subrange(0, base.len() as int) == base,
{
    lemma_decimal(i);
    let n = lnk_candidate_name(base, i);
    if i > 0 {
        let d = decimal(i);
        assert(n == base + " ("@ + d + ").lnk"@);
        assert(n.subrange(0, base.len() as int) =~= base);
    } else {
        assert(n.subrange(0, base.len() as int) =~= base);
    }
}

/// Every candidate name for a new shortcut ends in `.lnk`.
pub proof fn law_candidates_are_shortcuts(base: Seq<char>, i: nat)
    ensures
        ({
            let n = lnk_candidate_name(base, i);
            &&& n.len() >= 4
            &&& n.subrange(n.len() - 4, n.len() as int) == ".lnk"@
        }),
{
    let n = lnk_candidate_name(base, i);
    reveal_strlit(".lnk");
    reveal_strlit(").lnk");
    if i == 0 {
        assert(n.subrange(n.len() - 4, n.len() as int) =~= ".lnk"@);
    } else {
        assert(n.subrange(n.len() - 4, n.len() as int) =~= ".lnk"@);
    }
}

} // verus!
