//! Windows path text: prefixes, components, file names, extensions, parents
//! and joining, following the rules of `std::path` on Windows for drive
//! (`C:`), network (`\\server\share`), device (`\\.\name`) and verbatim
//! (`\\?\...`) prefixes.
use vstd::prelude::*;

verus! {

pub open spec fn is_sep(c: char) -> bool {
    c == '\\' || c == '/'
}

pub open spec fn is_ascii_alpha(c: char) -> bool {
    ('A' <= c <= 'Z') || ('a' <= c <= 'z')
}

/// The path starts with `\\?\`: a verbatim path, in which only `\`
/// separates components.
pub open spec fn verbatim(p: Seq<char>) -> bool {
    p.len() >= 4 && p[0] == '\\' && p[1] == '\\' && p[2] == '?' && p[3] == '\\'
}

/// The character at `i` separates components of `p`.
pub open spec fn sep_at(p: Seq<char>, i: int) -> bool {
    p[i] == '\\' || (p[i] == '/' && !verbatim(p))
}

/// The path starts with a drive prefix such as `C:`.
pub open spec fn has_drive(p: Seq<char>) -> bool {
    p.len() >= 2 && is_ascii_alpha(p[0]) && p[1] == ':'
}

/// End of the non-separator run that starts at `i`.
pub open spec fn run_end(p: Seq<char>, i: int) -> int
    decreases p.len() - i,
{
    if i < 0 || i >= p.len() || sep_at(p, i) {
        i
    } else {
        run_end(p, i + 1)
    }
}

/// The path starts with two separators followed by a non-empty server name,
/// a separator and a non-empty share name (`\\server\share`).
pub open spec fn has_unc(p: Seq<char>) -> bool {
    &&& p.len() >= 2
    &&& is_sep(p[0])
    &&& is_sep(p[1])
    &&& run_end(p, 2) > 2
    &&& run_end(p, 2) < p.len()
    &&& run_end(p, run_end(p, 2) + 1) > run_end(p, 2) + 1
}

/// The path starts with a device prefix (`\\.\name`).
pub open spec fn has_device(p: Seq<char>) -> bool {
    p.len() >= 4 && is_sep(p[0]) && is_sep(p[1]) && p[2] == '.' && is_sep(p[3])
}

/// A verbatim network prefix (`\\?\UNC\server\share`).
pub open spec fn verbatim_unc(p: Seq<char>) -> bool {
    verbatim(p) && p.len() >= 8 && p[4] == 'U' && p[5] == 'N' && p[6] == 'C' && is_sep(p[7])
}

/// A verbatim drive prefix (`\\?\C:`), followed by a separator or nothing.
pub open spec fn verbatim_disk(p: Seq<char>) -> bool {
    verbatim(p) && p.len() >= 6 && is_ascii_alpha(p[4]) && p[5] == ':' && (p.len() == 6 || is_sep(p[6]))
}

/// Length of a verbatim network prefix: the server name, and the share name
/// when there is one.
pub open spec fn verbatim_unc_len(p: Seq<char>) -> int {
    let s = run_end(p, 8);
    if s < p.len() && run_end(p, s + 1) > s + 1 {
        run_end(p, s + 1)
    } else {
        s
    }
}

/// Length of the path's prefix.
pub open spec fn prefix_len(p: Seq<char>) -> int {
    if has_drive(p) {
        2
    } else if verbatim_unc(p) {
        verbatim_unc_len(p)
    } else if verbatim_disk(p) {
        6
    } else if verbatim(p) {
        run_end(p, 4)
    } else if has_device(p) {
        run_end(p, 4)
    } else if has_unc(p) {
        run_end(p, run_end(p, 2) + 1)
    } else {
        0
    }
}

/// The prefix is one that carries a root of its own (any but a drive).
pub open spec fn implicit_root(p: Seq<char>) -> bool {
    verbatim(p) || has_device(p) || has_unc(p)
}

/// A separator follows the prefix.
pub open spec fn has_root(p: Seq<char>) -> bool {
    p.len() > prefix_len(p) && sep_at(p, prefix_len(p))
}

/// The path is absolute: a drive prefix followed by a separator, or any
/// other prefix.
pub open spec fn is_absolute(p: Seq<char>) -> bool {
    (has_drive(p) && has_root(p)) || implicit_root(p)
}

/// A relative path that starts with the `.` component.
pub open spec fn leading_cur_dir(p: Seq<char>) -> bool {
    let pl = prefix_len(p);
    &&& !has_root(p)
    &&& !implicit_root(p)
    &&& p.len() > pl
    &&& p[pl] == '.'
    &&& (p.len() == pl + 1 || sep_at(p, pl + 1))
}

/// Where the path's ordinary components begin: after the prefix, the root
/// separator and a leading `.` component.
pub open spec fn body_start(p: Seq<char>) -> int {
    prefix_len(p) + (if has_root(p) { 1int } else { 0int }) + (if leading_cur_dir(p) {
        1int
    } else {
        0int
    })
}

/// Start of the component that ends at `i` (not before `lo`).
pub open spec fn piece_start(p: Seq<char>, lo: int, i: int) -> int
    decreases i - lo,
{
    if i <= lo {
        lo
    } else if sep_at(p, i - 1) {
        i
    } else {
        piece_start(p, lo, i - 1)
    }
}

pub open spec fn is_dot(p: Seq<char>, j: int, i: int) -> bool {
    i == j + 1 && p[j] == '.'
}

pub open spec fn is_dot_dot(p: Seq<char>, j: int, i: int) -> bool {
    i == j + 2 && p[j] == '.' && p[j + 1] == '.'
}

/// Bounds of the last component in `p[lo..i]`, skipping separators and
/// (outside verbatim paths) `.` components; `None` when there is none.
pub open spec fn last_piece(p: Seq<char>, lo: int, i: int) -> Option<(int, int)>
    decreases i - lo,
{
    if i <= lo {
        None
    } else if sep_at(p, i - 1) {
        last_piece(p, lo, i - 1)
    } else {
        let j = piece_start(p, lo, i);
        if is_dot(p, j, i) && j < i && !verbatim(p) {
            last_piece(p, lo, j)
        } else {
            Some((j, i))
        }
    }
}

/// End of `p[lo..j]` once trailing separators and (outside verbatim paths)
/// `.` components are dropped.
pub open spec fn trim_back(p: Seq<char>, lo: int, j: int) -> int
    decreases j - lo,
{
    if j <= lo {
        lo
    } else if sep_at(p, j - 1) {
        trim_back(p, lo, j - 1)
    } else {
        let k = piece_start(p, lo, j);
        if is_dot(p, k, j) && k < j && !verbatim(p) {
            trim_back(p, lo, k)
        } else {
            j
        }
    }
}

/// The final component when it is a name (`Path::file_name`).
pub open spec fn file_name(p: Seq<char>) -> Option<Seq<char>> {
    match last_piece(p, body_start(p), p.len() as int) {
        Some((j, i)) => if is_dot_dot(p, j, i) || (verbatim(p) && is_dot(p, j, i)) {
            None
        } else {
            Some(p.subrange(j, i))
        },
        None => None,
    }
}

/// The path without its final component (`Path::parent`).
pub open spec fn parent(p: Seq<char>) -> Option<Seq<char>> {
    let bs = body_start(p);
    match last_piece(p, bs, p.len() as int) {
        Some((j, i)) => Some(p.subrange(0, trim_back(p, bs, j))),
        None => if leading_cur_dir(p) {
            Some(p.subrange(0, bs - 1))
        } else {
            None
        },
    }
}

/// Index of the last `.` in `f`, if any.
pub open spec fn last_dot(f: Seq<char>) -> Option<int>
    decreases f.len(),
{
    if f.len() == 0 {
        None
    } else if f.last() == '.' {
        Some(f.len() - 1)
    } else {
        last_dot(f.drop_last())
    }
}

/// Extension of a file name: the text after its last `.`, unless there is no
/// dot or the only dot starts the name.
pub open spec fn name_extension(f: Seq<char>) -> Option<Seq<char>> {
    match last_dot(f) {
        Some(k) => if k == 0 {
            None
        } else {
            Some(f.subrange(k + 1, f.len() as int))
        },
        None => None,
    }
}

/// Stem of a file name: the text before its last `.` (the whole name when
/// there is no dot or the dot starts it).
pub open spec fn name_stem(f: Seq<char>) -> Seq<char> {
    match last_dot(f) {
        Some(k) => if k == 0 {
            f
        } else {
            f.subrange(0, k)
        },
        None => f,
    }
}

/// `Path::extension`.
pub open spec fn extension(p: Seq<char>) -> Option<Seq<char>> {
    match file_name(p) {
        Some(f) => name_extension(f),
        None => None,
    }
}

/// `Path::file_stem`.
pub open spec fn file_stem(p: Seq<char>) -> Option<Seq<char>> {
    match file_name(p) {
        Some(f) => Some(name_stem(f)),
        None => None,
    }
}

/// The non-empty components of `p` from `lo` on, in order.
pub open spec fn pieces(p: Seq<char>, lo: int) -> Seq<Seq<char>>
    decreases p.len() - lo,
{
    if lo < 0 || lo >= p.len() {
        seq![]
    } else if sep_at(p, lo) {
        pieces(p, lo + 1)
    } else {
        proof {
            lemma_run_end_bounds(p, lo + 1);
        }
        seq![p.subrange(lo, run_end(p, lo))] + pieces(p, run_end(p, lo))
    }
}

pub open spec fn is_dot_piece(q: Seq<char>) -> bool {
    q.len() == 1 && q[0] == '.'
}

pub open spec fn is_dot_dot_piece(q: Seq<char>) -> bool {
    q.len() == 2 && q[0] == '.' && q[1] == '.'
}

/// One component of a relative path added to a verbatim path's components:
/// `.` is dropped, `..` removes a preceding ordinary name, anything else is
/// added.
pub open spec fn rel_step(st: Seq<Seq<char>>, q: Seq<char>) -> Seq<Seq<char>> {
    if is_dot_piece(q) {
        st
    } else if is_dot_dot_piece(q) {
        if st.len() > 0 && !is_dot_piece(st.last()) && !is_dot_dot_piece(st.last()) {
            st.drop_last()
        } else {
            st
        }
    } else {
        st.push(q)
    }
}

pub open spec fn rel_steps(st: Seq<Seq<char>>, qs: Seq<Seq<char>>) -> Seq<Seq<char>>
    decreases qs.len(),
{
    if qs.len() == 0 {
        st
    } else {
        rel_step(rel_steps(st, qs.drop_last()), qs.last())
    }
}

/// Components written one after another with `\` between them.
pub open spec fn with_seps(st: Seq<Seq<char>>) -> Seq<char>
    decreases st.len(),
{
    if st.len() == 0 {
        seq![]
    } else if st.len() == 1 {
        st[0]
    } else {
        with_seps(st.drop_last()) + seq!['\\'] + st.last()
    }
}

/// A relative `rel` joined to a verbatim `dir`: the path is rebuilt from
/// `dir`'s prefix, root and components, then `rel`'s (a rooted `rel` keeps
/// only the prefix), written with `\` between them.
pub open spec fn verbatim_join(dir: Seq<char>, rel: Seq<char>) -> Seq<char> {
    let rooted = rel.len() > 0 && is_sep(rel[0]);
    let start = if rooted {
        Seq::<Seq<char>>::empty()
    } else {
        pieces(dir, body_start(dir))
    };
    let st = rel_steps(start, pieces(rel, 0));
    dir.subrange(0, prefix_len(dir)) + (if has_root(dir) || rooted || st.len() > 0 {
        seq!['\\']
    } else {
        Seq::<char>::empty()
    }) + with_seps(st)
}

/// `PathBuf::push` / `Path::join`: an absolute or prefixed `rel` replaces
/// `dir`; a non-empty `rel` on a verbatim `dir` rebuilds the path from the
/// components of both; a `rel` that starts with a separator keeps only
/// `dir`'s prefix; otherwise `rel` is appended, with a `\` in between unless
/// `dir` is empty, ends with a separator or is a bare drive prefix.
pub open spec fn join(dir: Seq<char>, rel: Seq<char>) -> Seq<char> {
    if is_absolute(rel) || prefix_len(rel) > 0 {
        rel
    } else if verbatim(dir) && rel.len() > 0 {
        verbatim_join(dir, rel)
    } else if rel.len() > 0 && is_sep(rel[0]) {
        dir.subrange(0, prefix_len(dir)) + rel
    } else if dir.len() > 0 && !is_sep(dir.last()) && !(has_drive(dir) && dir.len() == 2) {
        dir + seq!['\\'] + rel
    } else {
        dir + rel
    }
}

pub fn is_separator(c: char) -> (r: bool)
    ensures
        r == is_sep(c),
{
    c == '\\' || c == '/'
}

fn is_verbatim(p: &Vec<char>) -> (r: bool)
    ensures
        r == verbatim(p@),
{
    p.len() >= 4 && p[0] == '\\' && p[1] == '\\' && p[2] == '?' && p[3] == '\\'
}

fn sep_at_exec(p: &Vec<char>, v: bool, i: usize) -> (r: bool)
    requires
        v == verbatim(p@),
        i < p@.len(),
    ensures
        r == sep_at(p@, i as int),
{
    p[i] == '\\' || (p[i] == '/' && !v)
}

fn run_end_exec(p: &Vec<char>, v: bool, i: usize) -> (r: usize)
    requires
        v == verbatim(p@),
        i <= p@.len(),
    ensures
        r == run_end(p@, i as int),
        i <= r <= p@.len(),
{
    let mut k = i;
    while k < p.len() && !sep_at_exec(p, v, k)
        invariant
            v == verbatim(p@),
            i <= k <= p@.len(),
            run_end(p@, k as int) == run_end(p@, i as int),
        decreases p@.len() - k,
    {
        k = k + 1;
    }
    k
}

pub proof fn lemma_run_end_bounds(p: Seq<char>, i: int)
    requires
        0 <= i <= p.len(),
    ensures
        i <= run_end(p, i) <= p.len(),
    decreases p.len() - i,
{
    if i < p.len() && !sep_at(p, i) {
        lemma_run_end_bounds(p, i + 1);
    }
}

fn has_drive_exec(p: &Vec<char>) -> (r: bool)
    ensures
        r == has_drive(p@),
{
    p.len() >= 2 && (('A' <= p[0] && p[0] <= 'Z') || ('a' <= p[0] && p[0] <= 'z')) && p[1] == ':'
}

fn has_unc_exec(p: &Vec<char>, v: bool) -> (r: bool)
    requires
        v == verbatim(p@),
    ensures
        r == has_unc(p@),
        r ==> 2 < run_end(p@, 2) < p@.len(),
{
    if p.len() < 2 || !is_separator(p[0]) || !is_separator(p[1]) {
        return false;
    }
    let server_end = run_end_exec(p, v, 2);
    if server_end <= 2 || server_end >= p.len() {
        return false;
    }
    let share_end = run_end_exec(p, v, server_end + 1);
    share_end > server_end + 1
}

fn has_device_exec(p: &Vec<char>) -> (r: bool)
    ensures
        r == has_device(p@),
{
    p.len() >= 4 && is_separator(p[0]) && is_separator(p[1]) && p[2] == '.' && is_separator(p[3])
}

fn implicit_root_exec(p: &Vec<char>, v: bool) -> (r: bool)
    requires
        v == verbatim(p@),
    ensures
        r == implicit_root(p@),
{
    v || has_device_exec(p) || has_unc_exec(p, v)
}

/// Length of the prefix (`C:`, `\\server\share`, `\\.\device` or a
/// verbatim `\\?\` prefix) of `p`.
pub fn prefix_length(p: &Vec<char>) -> (r: usize)
    ensures
        r == prefix_len(p@),
        r <= p@.len(),
{
    let v = is_verbatim(p);
    if has_drive_exec(p) {
        2
    } else if v && p.len() >= 8 && p[4] == 'U' && p[5] == 'N' && p[6] == 'C' && is_separator(p[7]) {
        let s = run_end_exec(p, v, 8);
        if s < p.len() {
            let t = run_end_exec(p, v, s + 1);
            if t > s + 1 {
                t
            } else {
                s
            }
        } else {
            s
        }
    } else if v && p.len() >= 6 && (('A' <= p[4] && p[4] <= 'Z') || ('a' <= p[4] && p[4] <= 'z'))
        && p[5] == ':' && (p.len() == 6 || is_separator(p[6])) {
        6
    } else if v {
        run_end_exec(p, v, 4)
    } else if has_device_exec(p) {
        run_end_exec(p, v, 4)
    } else if has_unc_exec(p, v) {
        let n = p.len();
        let server_end = run_end_exec(p, v, 2);
        assert(server_end < n);
        run_end_exec(p, v, server_end + 1)
    } else {
        0
    }
}

fn has_root_exec(p: &Vec<char>, v: bool) -> (r: bool)
    requires
        v == verbatim(p@),
    ensures
        r == has_root(p@),
{
    let pl = prefix_length(p);
    p.len() > pl && sep_at_exec(p, v, pl)
}

/// Whether `p` is an absolute path (`Path::is_absolute` on Windows).
pub fn is_absolute_path(p: &Vec<char>) -> (r: bool)
    ensures
        r == is_absolute(p@),
{
    let v = is_verbatim(p);
    (has_drive_exec(p) && has_root_exec(p, v)) || implicit_root_exec(p, v)
}

fn leading_cur_dir_exec(p: &Vec<char>, v: bool) -> (r: bool)
    requires
        v == verbatim(p@),
    ensures
        r == leading_cur_dir(p@),
{
    let pl = prefix_length(p);
    !has_root_exec(p, v) && !implicit_root_exec(p, v) && p.len() > pl && p[pl] == '.' && (p.len()
        == pl + 1 || sep_at_exec(p, v, pl + 1))
}

fn body_start_exec(p: &Vec<char>, v: bool) -> (r: usize)
    requires
        v == verbatim(p@),
    ensures
        r == body_start(p@),
        r <= p@.len(),
        leading_cur_dir(p@) ==> r >= 1,
{
    let pl = prefix_length(p);
    let root = has_root_exec(p, v);
    let cur = leading_cur_dir_exec(p, v);
    let n = p.len();
    assert(root ==> has_root(p@));
    assert(has_root(p@) ==> p@.len() > prefix_len(p@));
    if root {
        assert(pl < n);
        pl + 1
    } else if cur {
        assert(pl < n);
        pl + 1
    } else {
        pl
    }
}

fn piece_start_exec(p: &Vec<char>, v: bool, lo: usize, i: usize) -> (r: usize)
    requires
        v == verbatim(p@),
        lo <= i <= p@.len(),
    ensures
        r == piece_start(p@, lo as int, i as int),
        lo <= r <= i,
{
    let mut k = i;
    while k > lo && !sep_at_exec(p, v, k - 1)
        invariant
            v == verbatim(p@),
            lo <= k <= i <= p@.len(),
            piece_start(p@, lo as int, k as int) == piece_start(p@, lo as int, i as int),
        decreases k - lo,
    {
        k = k - 1;
    }
    k
}

fn last_piece_exec(p: &Vec<char>, v: bool, lo: usize, i: usize) -> (r: Option<(usize, usize)>)
    requires
        v == verbatim(p@),
        lo <= i <= p@.len(),
    ensures
        match r {
            Some((a, b)) => last_piece(p@, lo as int, i as int) == Some((a as int, b as int)) && lo
                <= a < b <= i,
            None => last_piece(p@, lo as int, i as int) is None,
        },
{
    let mut k = i;
    while k > lo
        invariant
            v == verbatim(p@),
            lo <= k <= i <= p@.len(),
            last_piece(p@, lo as int, k as int) == last_piece(p@, lo as int, i as int),
        decreases k - lo,
    {
        if sep_at_exec(p, v, k - 1) {
            k = k - 1;
        } else {
            let j = piece_start_exec(p, v, lo, k);
            if k - j == 1 && p[j] == '.' && !v {
                k = j;
            } else {
                proof {
                    lemma_piece_start_lt(p@, lo as int, k as int);
                }
                return Some((j, k));
            }
        }
    }
    None
}

pub proof fn lemma_piece_start_le(p: Seq<char>, lo: int, i: int)
    requires
        lo <= i <= p.len(),
    ensures
        lo <= piece_start(p, lo, i) <= i,
    decreases i - lo,
{
    if i > lo && !sep_at(p, i - 1) {
        lemma_piece_start_le(p, lo, i - 1);
    }
}

pub proof fn lemma_piece_start_lt(p: Seq<char>, lo: int, i: int)
    requires
        lo < i <= p.len(),
        !sep_at(p, i - 1),
    ensures
        piece_start(p, lo, i) < i,
{
    lemma_piece_start_le(p, lo, i - 1);
}

fn trim_back_exec(p: &Vec<char>, v: bool, lo: usize, j: usize) -> (r: usize)
    requires
        v == verbatim(p@),
        lo <= j <= p@.len(),
    ensures
        r == trim_back(p@, lo as int, j as int),
        lo <= r <= j,
{
    let mut k = j;
    while k > lo
        invariant
            v == verbatim(p@),
            lo <= k <= j <= p@.len(),
            trim_back(p@, lo as int, k as int) == trim_back(p@, lo as int, j as int),
        decreases k - lo,
    {
        if sep_at_exec(p, v, k - 1) {
            k = k - 1;
        } else {
            let m = piece_start_exec(p, v, lo, k);
            if k - m == 1 && p[m] == '.' && !v {
                k = m;
            } else {
                return k;
            }
        }
    }
    lo
}


/// The final component of `p` when it is a name (`Path::file_name`).
pub fn file_name_of(p: &Vec<char>) -> (r: Option<Vec<char>>)
    ensures
        match r {
            Some(f) => file_name(p@) == Some(f@),
            None => file_name(p@) is None,
        },
{
    let v = is_verbatim(p);
    let bs = body_start_exec(p, v);
    match last_piece_exec(p, v, bs, p.len()) {
        Some((j, i)) => {
            if (i - j == 2 && p[j] == '.' && p[j + 1] == '.') || (v && i - j == 1 && p[j] == '.') {
                None
            } else {
                Some(crate::text::sub_chars(p, j, i))
            }
        },
        None => None,
    }
}

/// `p` without its final component (`Path::parent`).
pub fn parent_of(p: &Vec<char>) -> (r: Option<Vec<char>>)
    ensures
        match r {
            Some(q) => parent(p@) == Some(q@),
            None => parent(p@) is None,
        },
{
    let v = is_verbatim(p);
    let bs = body_start_exec(p, v);
    match last_piece_exec(p, v, bs, p.len()) {
        Some((j, _i)) => {
            let k = trim_back_exec(p, v, bs, j);
            Some(crate::text::sub_chars(p, 0, k))
        },
        None => {
            if leading_cur_dir_exec(p, v) {
                Some(crate::text::sub_chars(p, 0, bs - 1))
            } else {
                None
            }
        },
    }
}

fn last_dot_exec(f: &Vec<char>) -> (r: Option<usize>)
    ensures
        match r {
            Some(k) => last_dot(f@) == Some(k as int) && k < f@.len(),
            None => last_dot(f@) is None,
        },
{
    let mut n = f.len();
    proof {
        lemma_take_full(f@);
    }
    while n > 0
        invariant
            n <= f@.len(),
            last_dot(f@.take(n as int)) == last_dot(f@),
        decreases n,
    {
        assert(f@.take(n as int).last() == f@[n - 1]);
        if f[n - 1] == '.' {
            return Some(n - 1);
        }
        assert(f@.take(n as int).drop_last() =~= f@.take(n - 1));
        n = n - 1;
    }
    None
}

pub proof fn lemma_take_full<T>(s: Seq<T>)
    ensures
        s.take(s.len() as int) == s,
{
    assert(s.take(s.len() as int) =~= s);
}

/// Extension of `p` (`Path::extension`).
pub fn extension_of(p: &Vec<char>) -> (r: Option<Vec<char>>)
    ensures
        match r {
            Some(e) => extension(p@) == Some(e@),
            None => extension(p@) is None,
        },
{
    match file_name_of(p) {
        Some(f) => {
            proof {
                lemma_take_full(f@);
            }
            match last_dot_exec(&f) {
                Some(k) => if k == 0 {
                    None
                } else {
                    let n = f.len();
                    Some(crate::text::sub_chars(&f, k + 1, n))
                },
                None => None,
            }
        },
        None => None,
    }
}

/// Stem of `p` (`Path::file_stem`).
pub fn file_stem_of(p: &Vec<char>) -> (r: Option<Vec<char>>)
    ensures
        match r {
            Some(e) => file_stem(p@) == Some(e@),
            None => file_stem(p@) is None,
        },
{
    match file_name_of(p) {
        Some(f) => {
            proof {
                lemma_take_full(f@);
            }
            match last_dot_exec(&f) {
                Some(k) => if k == 0 {
                    Some(f)
                } else {
                    Some(crate::text::sub_chars(&f, 0, k))
                },
                None => Some(f),
            }
        },
        None => None,
    }
}

fn append_chars(out: &mut Vec<char>, s: &Vec<char>)
    ensures
        final(out)@ == old(out)@ + s@,
{
    let ghost start = old(out)@;
    let mut i: usize = 0;
    while i < s.len()
        invariant
            0 <= i <= s@.len(),
            out@ == start + s@.take(i as int),
        decreases s@.len() - i,
    {
        out.push(s[i]);
        assert(s@.take(i + 1) =~= s@.take(i as int).push(s@[i as int]));
        i = i + 1;
    }
    assert(s@.take(s@.len() as int) =~= s@);
}

pub open spec fn pieces_view(v: Seq<Vec<char>>) -> Seq<Seq<char>> {
    v.map_values(|x: Vec<char>| x@)
}

fn pieces_exec(p: &Vec<char>, v: bool, lo: usize) -> (r: Vec<Vec<char>>)
    requires
        v == verbatim(p@),
        lo <= p@.len(),
    ensures
        pieces_view(r@) == pieces(p@, lo as int),
{
    let mut out: Vec<Vec<char>> = Vec::new();
    let mut k = lo;
    proof {
        assert(pieces_view(out@) + pieces(p@, k as int) =~= pieces(p@, lo as int));
    }
    while k < p.len()
        invariant
            v == verbatim(p@),
            lo <= k <= p@.len(),
            pieces_view(out@) + pieces(p@, k as int) == pieces(p@, lo as int),
        decreases p@.len() - k,
    {
        if sep_at_exec(p, v, k) {
            k = k + 1;
        } else {
            let e = run_end_exec(p, v, k);
            proof {
                lemma_run_end_bounds(p@, k + 1);
            }
            let piece = crate::text::sub_chars(p, k, e);
            let ghost before = pieces_view(out@);
            out.push(piece);
            proof {
                assert(pieces_view(out@) =~= before.push(piece@));
                assert(pieces(p@, k as int) == seq![p@.subrange(k as int, e as int)] + pieces(p@, e as int));
                assert(before.push(piece@) + pieces(p@, e as int) =~= before + (seq![piece@] + pieces(p@, e as int)));
            }
            k = e;
        }
    }
    proof {
        assert(pieces(p@, k as int) =~= Seq::<Seq<char>>::empty());
        assert(pieces_view(out@) + pieces(p@, k as int) =~= pieces_view(out@));
    }
    out
}

fn is_dot_piece_exec(q: &Vec<char>) -> (r: bool)
    ensures
        r == is_dot_piece(q@),
{
    q.len() == 1 && q[0] == '.'
}

fn is_dot_dot_piece_exec(q: &Vec<char>) -> (r: bool)
    ensures
        r == is_dot_dot_piece(q@),
{
    q.len() == 2 && q[0] == '.' && q[1] == '.'
}

fn rel_steps_exec(start: Vec<Vec<char>>, qs: &Vec<Vec<char>>) -> (r: Vec<Vec<char>>)
    ensures
        pieces_view(r@) == rel_steps(pieces_view(start@), pieces_view(qs@)),
{
    let mut st = start;
    let ghost st0 = pieces_view(st@);
    let ghost qv = pieces_view(qs@);
    let mut i: usize = 0;
    proof {
        assert(qv.take(0) =~= Seq::<Seq<char>>::empty());
    }
    while i < qs.len()
        invariant
            qv == pieces_view(qs@),
            0 <= i <= qs@.len(),
            pieces_view(st@) == rel_steps(st0, qv.take(i as int)),
        decreases qs@.len() - i,
    {
        let q = &qs[i];
        proof {
            assert(qv.take(i + 1).drop_last() =~= qv.take(i as int));
            assert(qv.take(i + 1).last() == q@);
        }
        let ghost before = pieces_view(st@);
        if is_dot_piece_exec(q) {
        } else if is_dot_dot_piece_exec(q) {
            let n = st.len();
            if n > 0 && !is_dot_piece_exec(&st[n - 1]) && !is_dot_dot_piece_exec(&st[n - 1]) {
                assert(before.last() == st@[n - 1]@);
                st.pop();
                proof {
                    assert(pieces_view(st@) =~= before.drop_last());
                }
            }
        } else {
            let n = q.len();
            let c = crate::text::sub_chars(q, 0, n);
            proof {
                assert(q@.subrange(0, n as int) =~= q@);
            }
            st.push(c);
            proof {
                assert(pieces_view(st@) =~= before.push(q@));
            }
        }
        i = i + 1;
    }
    proof {
        assert(qv.take(qs@.len() as int) =~= qv);
    }
    st
}

fn with_seps_exec(st: &Vec<Vec<char>>) -> (r: Vec<char>)
    ensures
        r@ == with_seps(pieces_view(st@)),
{
    let ghost sv = pieces_view(st@);
    let mut out: Vec<char> = Vec::new();
    let mut k: usize = 0;
    proof {
        assert(sv.take(0) =~= Seq::<Seq<char>>::empty());
    }
    while k < st.len()
        invariant
            sv == pieces_view(st@),
            0 <= k <= st@.len(),
            out@ == with_seps(sv.take(k as int)),
        decreases st@.len() - k,
    {
        let ghost before = out@;
        proof {
            assert(sv.take(k + 1).drop_last() =~= sv.take(k as int));
            assert(sv.take(k + 1).last() == st@[k as int]@);
        }
        if k > 0 {
            out.push('\\');
        }
        append_chars(&mut out, &st[k]);
        proof {
            if k == 0 {
                assert(sv.take(1).len() == 1);
                assert(sv.take(1)[0] == st@[0]@);
                assert(out@ =~= st@[0]@);
            } else {
                assert(out@ =~= before + seq!['\\'] + st@[k as int]@);
            }
        }
        k = k + 1;
    }
    proof {
        assert(sv.take(st@.len() as int) =~= sv);
    }
    out
}

/// `dir` joined with `rel` (`Path::join` on Windows).
pub fn join_chars(dir: &Vec<char>, rel: &Vec<char>) -> (r: Vec<char>)
    ensures
        r@ == join(dir@, rel@),
{
    if is_absolute_path(rel) || prefix_length(rel) > 0 {
        let mut out: Vec<char> = Vec::new();
        append_chars(&mut out, rel);
        assert(Seq::<char>::empty() + rel@ =~= rel@);
        out
    } else if is_verbatim(dir) && rel.len() > 0 {
        let v = true;
        let rooted = is_separator(rel[0]);
        let start: Vec<Vec<char>> = if rooted {
            let e: Vec<Vec<char>> = Vec::new();
            proof {
                assert(pieces_view(e@) =~= Seq::<Seq<char>>::empty());
            }
            e
        } else {
            let bs = body_start_exec(dir, v);
            pieces_exec(dir, v, bs)
        };
        let vr = is_verbatim(rel);
        let qs = pieces_exec(rel, vr, 0);
        let st = rel_steps_exec(start, &qs);
        let pl = prefix_length(dir);
        let mut out = crate::text::sub_chars(dir, 0, pl);
        let ghost head = out@;
        let sep = has_root_exec(dir, v) || rooted || st.len() > 0;
        if sep {
            out.push('\\');
        }
        let ghost mid = out@;
        let tail = with_seps_exec(&st);
        append_chars(&mut out, &tail);
        proof {
            if sep {
                assert(mid =~= head + seq!['\\']);
            } else {
                assert(mid =~= head + Seq::<char>::empty());
            }
            assert(out@ == verbatim_join(dir@, rel@));
        }
        out
    } else if rel.len() > 0 && is_separator(rel[0]) {
        let pl = prefix_length(dir);
        let mut out = crate::text::sub_chars(dir, 0, pl);
        append_chars(&mut out, rel);
        out
    } else {
        let mut out: Vec<char> = Vec::new();
        append_chars(&mut out, dir);
        assert(Seq::<char>::empty() + dir@ =~= dir@);
        if dir.len() > 0 && !is_separator(dir[dir.len() - 1]) && !(has_drive_exec(dir) && dir.len()
            == 2) {
            out.push('\\');
        }
        append_chars(&mut out, rel);
        out
    }
}

/// Joins `dir` and `rel` (`Path::join` on Windows) as text.
pub fn join_str(dir: &str, rel: &str) -> (r: String)
    ensures
        r@ == join(dir@, rel@),
{
    let d = crate::text::chars_of(dir);
    let e = crate::text::chars_of(rel);
    let j = join_chars(&d, &e);
    crate::text::string_from_chars(j.as_slice())
}

/// The extension of `path` in ASCII lower case, or an empty string when it
/// has none.
pub fn ext_lower(path: &str) -> (r: String)
    ensures
        r@ == match extension(path@) {
            Some(e) => crate::text::lower_seq(e),
            None => Seq::<char>::empty(),
        },
{
    let p = crate::text::chars_of(path);
    match extension_of(&p) {
        Some(e) => {
            let l = crate::text::lower_chars(&e);
            crate::text::string_from_chars(l.as_slice())
        },
        None => crate::text::string_from_chars(Vec::new().as_slice()),
    }
}

} // verus!
