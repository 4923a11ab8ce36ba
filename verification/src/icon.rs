//! Icons: where an item's icon is cached, and which file its icon is taken
//! from (a shortcut's target or icon, an internet shortcut's icon file).
use vstd::prelude::*;
use vstd::utf8::encode_utf8;
use crate::lnk::LnkInfo;
use crate::text::{chars_eq_str, chars_of, lower_chars, lower_seq, string_from_chars, sub_chars, trim};
use crate::winpath::{extension, extension_of, is_absolute, is_absolute_path, join, join_str, parent, parent_of};

verus! {

/// The BLAKE3 digest of the input, as computed by the `blake3` crate.
pub uninterp spec fn blake3_digest(input: Seq<u8>) -> Seq<u8>;

/// `blake3::hash` followed by `Hash::as_bytes`: the 32-byte BLAKE3 digest of
/// the input, named `blake3_digest`.
#[verifier::external_body]
fn blake3_hash(input: &[u8]) -> (r: Vec<u8>)
    ensures
        r@ == blake3_digest(input@),
        r@.len() == 32,
{
    blake3::hash(input).as_bytes().to_vec()
}

/// Lower-case hexadecimal digit of a value below 16.
pub open spec fn hex_digit(n: int) -> char {
    if n < 10 {
        ((48 + n) as u32) as char
    } else {
        ((87 + n) as u32) as char
    }
}

/// Lower-case hexadecimal text of bytes, two digits per byte, high half first
/// (`Hash::to_hex`).
pub open spec fn hex_lower(b: Seq<u8>) -> Seq<char>
    decreases b.len(),
{
    if b.len() == 0 {
        seq![]
    } else {
        hex_lower(b.drop_last()) + seq![hex_digit((b.last() / 16) as int), hex_digit((b.last() % 16) as int)]
    }
}

fn hex_digit_exec(n: u8) -> (c: char)
    requires
        n < 16,
    ensures
        c == hex_digit(n as int),
{
    let v: u32 = if n < 10 {
        48 + n as u32
    } else {
        87 + n as u32
    };
    match crate::text::char_from_u32(v) {
        Some(c) => c,
        None => '0',
    }
}

/// Lower-case hexadecimal text of `b`.
pub fn to_hex_lower(b: &Vec<u8>) -> (r: Vec<char>)
    ensures
        r@ == hex_lower(b@),
{
    let mut out: Vec<char> = Vec::new();
    let mut i: usize = 0;
    while i < b.len()
        invariant
            0 <= i <= b@.len(),
            out@ == hex_lower(b@.take(i as int)),
        decreases b@.len() - i,
    {
        let x = b[i];
        out.push(hex_digit_exec(x / 16));
        out.push(hex_digit_exec(x % 16));
        proof {
            assert(b@.take(i + 1).drop_last() =~= b@.take(i as int));
        }
        i = i + 1;
    }
    proof {
        assert(b@.take(b@.len() as int) =~= b@);
    }
    out
}

/// Where the icon of `path` is cached: `launchpad_icons` inside the cache
/// directory, named by the hexadecimal BLAKE3 digest of the path's UTF-8
/// bytes, with `.png` appended.
pub open spec fn icon_cache_path_spec(path: Seq<char>, cache_dir: Seq<char>) -> Seq<char> {
    join(
        join(cache_dir, "launchpad_icons"@),
        hex_lower(blake3_digest(encode_utf8(path))) + ".png"@,
    )
}

/// The cache file of the icon of `path` under `cache_dir`.
pub fn icon_cache_path(path: &str, cache_dir: &str) -> (r: String)
    ensures
        r@ == icon_cache_path_spec(path@, cache_dir@),
{
    let digest = blake3_hash(path.as_bytes());
    let mut name = to_hex_lower(&digest);
    let ghost hex = name@;
    name.push('.');
    name.push('p');
    name.push('n');
    name.push('g');
    proof {
        reveal_strlit(".png");
        assert(name@ =~= hex + ".png"@);
    }
    let dir = join_str(cache_dir, "launchpad_icons");
    let name_str = string_from_chars(name.as_slice());
    join_str(dir.as_str(), name_str.as_str())
}

/// Directory that holds the cached icons.
pub fn icons_dir(cache_dir: &str) -> (r: String)
    ensures
        r@ == join(cache_dir@, "launchpad_icons"@),
{
    join_str(cache_dir, "launchpad_icons")
}

/// Whether `path` names an executable: its extension is `exe` in any ASCII case.
pub fn is_exe_path(path: &str) -> (r: bool)
    ensures
        r == (match extension(path@) {
            Some(e) => lower_seq(e) == "exe"@,
            None => false,
        }),
{
    let p = chars_of(path);
    match extension_of(&p) {
        Some(e) => {
            let l = lower_chars(&e);
            chars_eq_str(&l, "exe")
        },
        None => false,
    }
}

/// `s` ends with `suffix`.
pub open spec fn ends_with(s: Seq<char>, suffix: Seq<char>) -> bool {
    s.len() >= suffix.len() && s.subrange(s.len() - suffix.len(), s.len() as int) == suffix
}

fn ends_with_lower(path: &str, suffix: &str) -> (r: bool)
    ensures
        r == ends_with(lower_seq(path@), suffix@),
{
    let p = chars_of(path);
    let l = lower_chars(&p);
    let s = chars_of(suffix);
    if l.len() < s.len() {
        return false;
    }
    let start = l.len() - s.len();
    let n = l.len();
    let tail = sub_chars(&l, start, n);
    crate::text::chars_eq(&tail, &s)
}

/// Whether `path` ends in `.lnk`, ignoring ASCII case.
pub fn is_lnk_path(path: &str) -> (r: bool)
    ensures
        r == ends_with(lower_seq(path@), ".lnk"@),
{
    ends_with_lower(path, ".lnk")
}

/// Whether `path` ends in `.url`, ignoring ASCII case.
pub fn is_url_path(path: &str) -> (r: bool)
    ensures
        r == ends_with(lower_seq(path@), ".url"@),
{
    ends_with_lower(path, ".url")
}


/// Index of the last `,` in `s`, if any.
pub open spec fn last_comma(s: Seq<char>) -> Option<int>
    decreases s.len(),
{
    if s.len() == 0 {
        None
    } else if s.last() == ',' {
        Some(s.len() - 1)
    } else {
        last_comma(s.drop_last())
    }
}

/// `s` without a trailing `,index` part: the text before the last comma, or
/// all of `s` when there is no comma.
pub open spec fn before_last_comma(s: Seq<char>) -> Seq<char> {
    match last_comma(s) {
        Some(k) => s.subrange(0, k),
        None => s,
    }
}

fn before_last_comma_exec(s: &Vec<char>) -> (r: Vec<char>)
    ensures
        r@ == before_last_comma(s@),
{
    let mut n = s.len();
    proof {
        assert(s@.take(n as int) =~= s@);
    }
    while n > 0
        invariant
            n <= s@.len(),
            last_comma(s@.take(n as int)) == last_comma(s@),
        decreases n,
    {
        assert(s@.take(n as int).last() == s@[n - 1]);
        if s[n - 1] == ',' {
            return sub_chars(s, 0, n - 1);
        }
        assert(s@.take(n as int).drop_last() =~= s@.take(n - 1));
        n = n - 1;
    }
    let len = s.len();
    sub_chars(s, 0, len)
}

/// What normalizing an icon location resolves to before any lookup on disk.
/// A trailing `,index` (as in `C:\x.ico,0`) is dropped first; what is left
/// is taken as it is when absolute or when there is no parent folder to
/// resolve it against; else it is joined to the parent folder, and that path
/// is then to be canonicalized (the `bool`).
pub open spec fn normalize_plan(icon: Seq<char>, parent: Option<Seq<char>>) -> (Seq<char>, bool) {
    let base = before_last_comma(icon);
    if is_absolute(base) {
        (base, false)
    } else {
        match parent {
            Some(p) => (join(p, base), true),
            None => (base, false),
        }
    }
}

/// The path that normalizing an icon location hands to canonicalization,
/// if any.
pub open spec fn normalize_target(icon: Seq<char>, parent: Option<Seq<char>>) -> Option<Seq<char>> {
    let (v, need) = normalize_plan(icon, parent);
    if need {
        Some(v)
    } else {
        None
    }
}

/// The normalized icon location, given what canonicalizing the joined path
/// gave (`None` when it failed): the canonical path, else the joined one.
pub open spec fn normalized(icon: Seq<char>, parent: Option<Seq<char>>, canon: Option<Seq<char>>) -> Seq<char> {
    let (v, need) = normalize_plan(icon, parent);
    if need {
        match canon {
            Some(c) => c,
            None => v,
        }
    } else {
        v
    }
}

/// Holds of a path and a reply that `dunce::canonicalize` can give for it:
/// its canonical form as text, or `None` for a failure. Which reply a call
/// gives depends on the disk at that moment: this relation holds of every
/// pair some call can give and says nothing of which of them a given call
/// gives. It records which path a reply is about.
pub uninterp spec fn canonical_reply(path: Seq<char>, reply: Option<Seq<char>>) -> bool;

/// `dunce::canonicalize` (made text by `to_string_lossy`): the absolute,
/// symlink-free form of a path as the disk has it; a failure gives `None`.
/// Only that the reply, whatever it is, is one about the path asked is
/// stated.
#[verifier::external_body]
fn canonicalize(p: &str) -> (r: Option<String>)
    ensures
        canonical_reply(p@, crate::lnk::text_view(r)),
{
    match dunce::canonicalize(p) {
        Ok(pb) => Some(pb.to_string_lossy().into_owned()),
        Err(_) => None,
    }
}

pub open spec fn opt_view(o: Option<&str>) -> Option<Seq<char>> {
    match o {
        Some(s) => Some(s@),
        None => None,
    }
}

/// `canon` is a reply that canonicalizing the path normalization asks about
/// can give; when normalization asks the disk nothing, `canon` is `None`.
pub open spec fn canon_for(icon: Seq<char>, parent: Option<Seq<char>>, canon: Option<Seq<char>>) -> bool {
    match normalize_target(icon, parent) {
        Some(t) => canonical_reply(t, canon),
        None => canon is None,
    }
}

/// The path that normalizing `icon` against `parent` asks the disk to
/// canonicalize: the location without its `,index`, joined to the parent
/// folder, when it is relative and there is a parent; `None` otherwise.
pub fn normalize_join(icon: &str, parent: Option<&str>) -> (r: Option<String>)
    ensures
        crate::lnk::text_view(r) == normalize_target(icon@, opt_view(parent)),
{
    let ic = chars_of(icon);
    let base = before_last_comma_exec(&ic);
    if is_absolute_path(&base) {
        return None;
    }
    match parent {
        Some(p) => {
            let base_str = string_from_chars(base.as_slice());
            Some(join_str(p, base_str.as_str()))
        },
        None => None,
    }
}

/// The normalized icon location, given what canonicalizing the joined path
/// gave (`canon`, `None` when it failed or was not asked).
pub fn normalize_with(icon: &str, parent: Option<&str>, canon: Option<String>) -> (r: String)
    ensures
        r@ == normalized(icon@, opt_view(parent), crate::lnk::text_view(canon)),
{
    let ic = chars_of(icon);
    let base = before_last_comma_exec(&ic);
    if is_absolute_path(&base) {
        return string_from_chars(base.as_slice());
    }
    match parent {
        Some(p) => {
            match canon {
                Some(c) => c,
                None => {
                    let base_str = string_from_chars(base.as_slice());
                    join_str(p, base_str.as_str())
                },
            }
        },
        None => string_from_chars(base.as_slice()),
    }
}

/// Resolves an icon location that may be relative (and may carry a
/// `,index`) against the folder of the file that named it. The part that
/// depends on the disk is the canonical form of the joined path, which is
/// asked for that path and no other.
pub fn normalize(icon: &str, parent: Option<&str>) -> (r: String)
    ensures
        exists|canon: Option<Seq<char>>|
            canon_for(icon@, opt_view(parent), canon) && r@ == normalized(icon@, opt_view(parent), canon),
{
    let canon = match normalize_join(icon, parent) {
        Some(j) => canonicalize(j.as_str()),
        None => None,
    };
    let r = normalize_with(icon, parent, canon);
    proof {
        assert(canon_for(icon@, opt_view(parent), crate::lnk::text_view(canon)));
    }
    r
}

/// The file whose icon stands for `path`, given what was read from it: for
/// a shortcut (`.lnk`), its target, else its icon location (resolved against
/// the shortcut's folder), else the shortcut itself; for an internet
/// shortcut (`.url`), its icon file (resolved likewise), else itself; any
/// other file stands for itself. `canon` is what canonicalizing a resolved
/// relative location gave.
pub open spec fn icon_source(
    path: Seq<char>,
    lnk: Option<LnkInfo>,
    url_icon_file: Option<String>,
    canon: Option<Seq<char>>,
) -> Seq<char> {
    if ends_with(lower_seq(path), ".lnk"@) {
        match lnk {
            Some(info) => if info.target is Some && info.target.unwrap()@.len() > 0 {
                info.target.unwrap()@
            } else if info.icon_location is Some && info.icon_location.unwrap()@.len() > 0 {
                normalized(info.icon_location.unwrap()@, parent(path), canon)
            } else {
                path
            },
            None => path,
        }
    } else if ends_with(lower_seq(path), ".url"@) {
        match url_icon_file {
            Some(f) => normalized(f@, parent(path), canon),
            None => path,
        }
    } else {
        path
    }
}

/// The icon location of `path` that goes through normalization, if its icon
/// source is one: a shortcut's icon location when it has no target, an
/// internet shortcut's icon file.
pub open spec fn icon_source_location(path: Seq<char>, lnk: Option<LnkInfo>, url_icon_file: Option<String>) -> Option<Seq<char>> {
    if ends_with(lower_seq(path), ".lnk"@) {
        match lnk {
            Some(info) => if info.target is Some && info.target.unwrap()@.len() > 0 {
                None
            } else if info.icon_location is Some && info.icon_location.unwrap()@.len() > 0 {
                Some(info.icon_location.unwrap()@)
            } else {
                None
            },
            None => None,
        }
    } else if ends_with(lower_seq(path), ".url"@) {
        match url_icon_file {
            Some(f) => Some(f@),
            None => None,
        }
    } else {
        None
    }
}

/// `canon` is a reply that canonicalizing, while finding the icon source of
/// `path`, can give: one about the path that normalizing its icon location
/// asks about; `None` when no location is normalized.
pub open spec fn source_canon_for(path: Seq<char>, lnk: Option<LnkInfo>, url_icon_file: Option<String>, canon: Option<Seq<char>>) -> bool {
    match icon_source_location(path, lnk, url_icon_file) {
        Some(loc) => canon_for(loc, parent(path), canon),
        None => canon is None,
    }
}

/// The file whose icon is shown for `path`. `lnk` is what the shortcut at
/// `path` holds when it could be read, `url_icon_file` the icon file that an
/// internet shortcut at `path` names, if any.
pub fn resolve_target_path(path: &str, lnk: Option<LnkInfo>, url_icon_file: Option<String>) -> (r: String)
    ensures
        exists|canon: Option<Seq<char>>|
            source_canon_for(path@, lnk, url_icon_file, canon) && r@ == icon_source(path@, lnk, url_icon_file, canon),
{
    let pc = chars_of(path);
    let par = parent_of(&pc);
    let par_str: Option<String> = match &par {
        Some(q) => Some(string_from_chars(q.as_slice())),
        None => None,
    };
    let parent_ref: Option<&str> = match &par_str {
        Some(q) => Some(q.as_str()),
        None => None,
    };
    assert(opt_view(parent_ref) == parent(path@));
    if is_lnk_path(path) {
        match &lnk {
            Some(info) => {
                if let Some(t) = &info.target {
                    if t.as_str().unicode_len() > 0 {
                        proof {
                            assert(t@ == icon_source(path@, lnk, url_icon_file, None));
                        }
                        return t.clone();
                    }
                }
                if let Some(i) = &info.icon_location {
                    if i.as_str().unicode_len() > 0 {
                        let r = normalize(i.as_str(), parent_ref);
                        proof {
                            let canon = choose|canon: Option<Seq<char>>|
                                canon_for(i@, parent(path@), canon) && r@ == normalized(i@, parent(path@), canon);
                            assert(source_canon_for(path@, lnk, url_icon_file, canon));
                            assert(r@ == icon_source(path@, lnk, url_icon_file, canon));
                        }
                        return r;
                    }
                }
                proof {
                    assert(path@ == icon_source(path@, lnk, url_icon_file, None));
                }
                string_from_chars(pc.as_slice())
            },
            None => {
                proof {
                    assert(path@ == icon_source(path@, lnk, url_icon_file, None));
                }
                string_from_chars(pc.as_slice())
            },
        }
    } else if is_url_path(path) {
        match &url_icon_file {
            Some(f) => {
                let r = normalize(f.as_str(), parent_ref);
                proof {
                    let canon = choose|canon: Option<Seq<char>>|
                        canon_for(f@, parent(path@), canon) && r@ == normalized(f@, parent(path@), canon);
                    assert(source_canon_for(path@, lnk, url_icon_file, canon));
                    assert(r@ == icon_source(path@, lnk, url_icon_file, canon));
                }
                r
            },
            None => {
                proof {
                    assert(path@ == icon_source(path@, lnk, url_icon_file, None));
                }
                string_from_chars(pc.as_slice())
            },
        }
    } else {
        proof {
            assert(path@ == icon_source(path@, lnk, url_icon_file, None));
        }
        string_from_chars(pc.as_slice())
    }
}

/// `ini::Ini`, a loaded INI document, carried opaquely.
#[verifier::external_type_specification]
#[verifier::external_body]
pub struct ExIni(ini::Ini);

/// `ini::ParseError`, the error of a failed INI load, carried opaquely.
#[verifier::external_type_specification]
#[verifier::external_body]
pub struct ExIniParseError(ini::ParseError);

/// Whether the `ini` crate accepts the text as an INI document.
pub uninterp spec fn ini_loads(content: Seq<char>) -> bool;

/// The value stored under `key` in `section` of a loaded INI document, as
/// the `ini` crate looks it up (first value of the key, if any).
pub uninterp spec fn ini_value(doc: ini::Ini, section: Seq<char>, key: Seq<char>) -> Option<Seq<char>>;

/// What the INI document that the `ini` crate parses from `content` holds
/// under `key` in `section` (first value of the key, if any).
pub uninterp spec fn ini_text_value(content: Seq<char>, section: Seq<char>, key: Seq<char>) -> Option<Seq<char>>;

/// `ini::Ini::load_from_str`: parses the text; whether it succeeds is named
/// `ini_loads`, and what the loaded document holds is named by the text:
/// every lookup in it gives `ini_text_value` of the text.
#[verifier::external_body]
fn load_ini(content: &str) -> (r: Result<ini::Ini, ini::ParseError>)
    ensures
        r is Ok <==> ini_loads(content@),
        r matches Ok(d) ==> forall|section: Seq<char>, key: Seq<char>|
            #[trigger] ini_value(d, section, key) == ini_text_value(content@, section, key),
{
    ini::Ini::load_from_str(content)
}

/// `ini::Ini::get_from`: the value of `key` in `section`, named `ini_value`.
#[verifier::external_body]
fn ini_get_from(doc: &ini::Ini, section: &str, key: &str) -> (r: Option<String>)
    ensures
        crate::lnk::text_view(r) == ini_value(*doc, section@, key@),
{
    doc.get_from(Some(section), key).map(|v| v.to_string())
}

/// An internet shortcut's icon file from its `IconFile` value: trimmed;
/// `None` when missing or blank.
pub open spec fn icon_file_spec(value: Option<Seq<char>>) -> Option<Seq<char>> {
    match value {
        Some(v) => if trim(v).len() == 0 {
            None
        } else {
            Some(trim(v))
        },
        None => None,
    }
}

/// The icon file of an internet shortcut from its raw `IconFile` value.
pub fn icon_file_value(value: Option<String>) -> (r: Option<String>)
    ensures
        crate::lnk::text_view(r) == icon_file_spec(crate::lnk::text_view(value)),
{
    match value {
        Some(v) => {
            let t = crate::text::trim_str(v.as_str());
            if t.len() == 0 {
                None
            } else {
                Some(string_from_chars(t.as_slice()))
            }
        },
        None => None,
    }
}

/// The icon file named in an internet shortcut's text: the trimmed
/// `IconFile` value of its `[InternetShortcut]` section; `None` when the text
/// is not INI, or the value is missing or blank.
pub fn url_icon_file(content: &str) -> (r: Option<String>)
    ensures
        !ini_loads(content@) ==> r is None,
        ini_loads(content@) ==> crate::lnk::text_view(r) == icon_file_spec(
            ini_text_value(content@, "InternetShortcut"@, "IconFile"@),
        ),
{
    match load_ini(content) {
        Ok(doc) => {
            let v = ini_get_from(&doc, "InternetShortcut", "IconFile");
            icon_file_value(v)
        },
        Err(_) => None,
    }
}


/// Size of an icon bitmap from what the system reported about it: the
/// number of bytes it filled in, the width and the height. Usable only when
/// it filled something in and both sides are positive.
pub fn icon_bitmap_size(filled: i32, width: i32, height: i32) -> (r: Option<(u32, u32)>)
    ensures
        r is Some <==> (filled != 0 && width > 0 && height > 0),
        r matches Some((w, h)) ==> w == width && h == height,
{
    if filled == 0 || width <= 0 || height <= 0 {
        None
    } else {
        Some((width as u32, height as u32))
    }
}

/// Bytes per row of a 1-bit-per-pixel bitmap `width` pixels wide, rows
/// padded to whole 32-bit words.
pub fn mask_row_bytes(width: i32) -> (r: usize)
    requires
        width > 0,
    ensures
        r == (width + 31) / 32 * 4,
{
    (((width as u32) + 31) / 32 * 4) as usize
}

/// Ways of getting an icon handle for a file, tried in order.
#[derive(Debug, Clone, Copy, PartialEq, Eq, Structural)]
pub enum IconMethod {
    /// 256-pixel icon from the system image list.
    Jumbo,
    /// 48-pixel icon from the system image list.
    ExtraLarge,
    /// 32-pixel icon of the file's type.
    LargeIcon,
    /// Largest icon stored in an executable, tried at 256, 128, 64, 48 and 32 pixels.
    PrivateExtract,
}

pub open spec fn is_exe_spec(path: Seq<char>) -> bool {
    match extension(path) {
        Some(e) => lower_seq(e) == "exe"@,
        None => false,
    }
}

/// The order in which icon handles are tried for a file: the jumbo image
/// list, then the extra-large image list, then the file type's large icon,
/// and last, for executables only, the largest embedded icon.
pub fn icon_methods(path: &str) -> (r: Vec<IconMethod>)
    ensures
        r@ == (if is_exe_spec(path@) {
            seq![IconMethod::Jumbo, IconMethod::ExtraLarge, IconMethod::LargeIcon, IconMethod::PrivateExtract]
        } else {
            seq![IconMethod::Jumbo, IconMethod::ExtraLarge, IconMethod::LargeIcon]
        }),
{
    let mut v: Vec<IconMethod> = Vec::new();
    v.push(IconMethod::Jumbo);
    v.push(IconMethod::ExtraLarge);
    v.push(IconMethod::LargeIcon);
    if is_exe_path(path) {
        v.push(IconMethod::PrivateExtract);
    }
    proof {
        if is_exe_spec(path@) {
            assert(v@ =~= seq![IconMethod::Jumbo, IconMethod::ExtraLarge, IconMethod::LargeIcon, IconMethod::PrivateExtract]);
        } else {
            assert(v@ =~= seq![IconMethod::Jumbo, IconMethod::ExtraLarge, IconMethod::LargeIcon]);
        }
    }
    v
}

/// Icon sizes asked of an executable, largest first.
pub fn private_extract_sizes() -> (r: Vec<i32>)
    ensures
        r@ == seq![256i32, 128, 64, 48, 32],
{
    let mut v: Vec<i32> = Vec::new();
    v.push(256);
    v.push(128);
    v.push(64);
    v.push(48);
    v.push(32);
    assert(v@ =~= seq![256i32, 128, 64, 48, 32]);
    v
}

/// What to do after asking an executable for its icon at one size.
#[derive(Debug, Clone, Copy, PartialEq, Eq, Structural)]
pub enum ExtractOutcome {
    /// Use the handle returned.
    Found,
    /// The call failed: release the handle, if one was written, and try the next size.
    Failed { release: bool },
    /// Nothing usable: try the next size.
    Next,
}

/// Reads the count returned by the embedded-icon extraction (`u32::MAX`
/// on failure) and whether the returned handle is valid.
pub fn private_extract_outcome(got: u32, handle_valid: bool) -> (r: ExtractOutcome)
    ensures
        r == (if got != 0 && got != u32::MAX {
            if handle_valid {
                ExtractOutcome::Found
            } else {
                ExtractOutcome::Next
            }
        } else if got == u32::MAX {
            ExtractOutcome::Failed { release: handle_valid }
        } else {
            ExtractOutcome::Next
        }),
{
    if got != 0 && got != u32::MAX {
        if handle_valid {
            ExtractOutcome::Found
        } else {
            ExtractOutcome::Next
        }
    } else if got == u32::MAX {
        ExtractOutcome::Failed { release: handle_valid }
    } else {
        ExtractOutcome::Next
    }
}

/// Where an icon handle is looked for, in order.
#[derive(Debug, Clone, PartialEq, Eq)]
pub enum IconFetch {
    /// The extraction methods of `icon_methods`, on this file.
    Extract(String),
    /// The icon the shell associates with this file as it is on disk.
    Associated(String),
    /// The generic application icon.
    DefaultApplication,
}

/// Order of the icon lookups for `path` whose icon source is `resolved`:
/// extraction from the source, then from the file itself, then the
/// associated icons of both, then the generic application icon.
pub fn icon_fetch_plan(path: &str, resolved: &str) -> (r: Vec<IconFetch>)
    ensures
        r@.len() == 5,
        r@[0] matches IconFetch::Extract(s) && s@ == resolved@,
        r@[1] matches IconFetch::Extract(s) && s@ == path@,
        r@[2] matches IconFetch::Associated(s) && s@ == resolved@,
        r@[3] matches IconFetch::Associated(s) && s@ == path@,
        r@[4] is DefaultApplication,
{
    let mut v: Vec<IconFetch> = Vec::new();
    v.push(IconFetch::Extract(String::from_str(resolved)));
    v.push(IconFetch::Extract(String::from_str(path)));
    v.push(IconFetch::Associated(String::from_str(resolved)));
    v.push(IconFetch::Associated(String::from_str(path)));
    v.push(IconFetch::DefaultApplication);
    v
}

/// Which icon handle is turned into a PNG, in order.
#[derive(Debug, Clone, Copy, PartialEq, Eq, Structural)]
pub enum IconConvert {
    /// The handle that the lookups of `icon_fetch_plan` found.
    Found,
    /// The generic application icon, when the found one cannot be converted.
    DefaultApplication,
}

/// The order in which icon handles are converted to a PNG: the one found,
/// then, if that conversion fails, the generic application icon; no icon
/// when both fail.
pub fn icon_convert_order() -> (r: Vec<IconConvert>)
    ensures
        r@ == seq![IconConvert::Found, IconConvert::DefaultApplication],
{
    let mut v: Vec<IconConvert> = Vec::new();
    v.push(IconConvert::Found);
    v.push(IconConvert::DefaultApplication);
    assert(v@ =~= seq![IconConvert::Found, IconConvert::DefaultApplication]);
    v
}

} // verus!
