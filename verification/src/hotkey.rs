//! Global shortcut text such as `Ctrl+Alt+Space` or `Shift+F5`: modifier
//! names and one key, separated by `+`.
use vstd::prelude::*;
use crate::text::{ascii_lower, lemma_lower_char, lemma_lower_idempotent, lemma_trim_lower, chars_eq_str, chars_of, lower_chars, lower_seq, sub_chars, trim, trim_chars, upper_chars, upper_seq};

verus! {

/// The keys a shortcut can end in.
#[derive(Debug, Clone, Copy, PartialEq, Eq, Structural)]
pub enum KeyCode {
    KeyA,
    KeyB,
    KeyC,
    KeyD,
    KeyE,
    KeyF,
    KeyG,
    KeyH,
    KeyI,
    KeyJ,
    KeyK,
    KeyL,
    KeyM,
    KeyN,
    KeyO,
    KeyP,
    KeyQ,
    KeyR,
    KeyS,
    KeyT,
    KeyU,
    KeyV,
    KeyW,
    KeyX,
    KeyY,
    KeyZ,
    Digit0,
    Digit1,
    Digit2,
    Digit3,
    Digit4,
    Digit5,
    Digit6,
    Digit7,
    Digit8,
    Digit9,
    F1,
    F2,
    F3,
    F4,
    F5,
    F6,
    F7,
    F8,
    F9,
    F10,
    F11,
    F12,
    F13,
    F14,
    F15,
    F16,
    F17,
    F18,
    F19,
    F20,
    F21,
    F22,
    F23,
    F24,
    Space,
    Enter,
    Escape,
    Tab,
    Backspace,
    ArrowUp,
    ArrowDown,
    ArrowLeft,
    ArrowRight,
}

/// Modifier keys held with the key.
#[derive(Debug, Clone, Copy, PartialEq, Eq, Structural)]
pub struct Modifiers {
    pub ctrl: bool,
    pub alt: bool,
    pub shift: bool,
    /// The Windows (or Command) key.
    pub super_key: bool,
}

/// A global shortcut: modifiers and a key.
#[derive(Debug, Clone, Copy, PartialEq, Eq, Structural)]
pub struct Hotkey {
    pub modifiers: Modifiers,
    pub code: KeyCode,
}

/// No modifier held.
pub open spec fn no_modifiers() -> Modifiers {
    Modifiers { ctrl: false, alt: false, shift: false, super_key: false }
}

/// Key of an upper-case ASCII letter; `Space` for anything else.
pub open spec fn letter_code_spec(c: char) -> KeyCode {
    if c == 'A' {
        KeyCode::KeyA
    }     else if c == 'B' {
        KeyCode::KeyB
    }     else if c == 'C' {
        KeyCode::KeyC
    }     else if c == 'D' {
        KeyCode::KeyD
    }     else if c == 'E' {
        KeyCode::KeyE
    }     else if c == 'F' {
        KeyCode::KeyF
    }     else if c == 'G' {
        KeyCode::KeyG
    }     else if c == 'H' {
        KeyCode::KeyH
    }     else if c == 'I' {
        KeyCode::KeyI
    }     else if c == 'J' {
        KeyCode::KeyJ
    }     else if c == 'K' {
        KeyCode::KeyK
    }     else if c == 'L' {
        KeyCode::KeyL
    }     else if c == 'M' {
        KeyCode::KeyM
    }     else if c == 'N' {
        KeyCode::KeyN
    }     else if c == 'O' {
        KeyCode::KeyO
    }     else if c == 'P' {
        KeyCode::KeyP
    }     else if c == 'Q' {
        KeyCode::KeyQ
    }     else if c == 'R' {
        KeyCode::KeyR
    }     else if c == 'S' {
        KeyCode::KeyS
    }     else if c == 'T' {
        KeyCode::KeyT
    }     else if c == 'U' {
        KeyCode::KeyU
    }     else if c == 'V' {
        KeyCode::KeyV
    }     else if c == 'W' {
        KeyCode::KeyW
    }     else if c == 'X' {
        KeyCode::KeyX
    }     else if c == 'Y' {
        KeyCode::KeyY
    }     else if c == 'Z' {
        KeyCode::KeyZ
    } else {
        KeyCode::Space
    }
}

/// Key of an ASCII digit; `Digit0` for anything else.
pub open spec fn digit_code_spec(c: char) -> KeyCode {
    if c == '0' {
        KeyCode::Digit0
    }     else if c == '1' {
        KeyCode::Digit1
    }     else if c == '2' {
        KeyCode::Digit2
    }     else if c == '3' {
        KeyCode::Digit3
    }     else if c == '4' {
        KeyCode::Digit4
    }     else if c == '5' {
        KeyCode::Digit5
    }     else if c == '6' {
        KeyCode::Digit6
    }     else if c == '7' {
        KeyCode::Digit7
    }     else if c == '8' {
        KeyCode::Digit8
    }     else if c == '9' {
        KeyCode::Digit9
    } else {
        KeyCode::Digit0
    }
}

/// Function key `F1` to `F24`; `None` for any other number.
pub open spec fn f_key_spec(n: u32) -> Option<KeyCode> {
    if n == 1 {
        Some(KeyCode::F1)
    }     else if n == 2 {
        Some(KeyCode::F2)
    }     else if n == 3 {
        Some(KeyCode::F3)
    }     else if n == 4 {
        Some(KeyCode::F4)
    }     else if n == 5 {
        Some(KeyCode::F5)
    }     else if n == 6 {
        Some(KeyCode::F6)
    }     else if n == 7 {
        Some(KeyCode::F7)
    }     else if n == 8 {
        Some(KeyCode::F8)
    }     else if n == 9 {
        Some(KeyCode::F9)
    }     else if n == 10 {
        Some(KeyCode::F10)
    }     else if n == 11 {
        Some(KeyCode::F11)
    }     else if n == 12 {
        Some(KeyCode::F12)
    }     else if n == 13 {
        Some(KeyCode::F13)
    }     else if n == 14 {
        Some(KeyCode::F14)
    }     else if n == 15 {
        Some(KeyCode::F15)
    }     else if n == 16 {
        Some(KeyCode::F16)
    }     else if n == 17 {
        Some(KeyCode::F17)
    }     else if n == 18 {
        Some(KeyCode::F18)
    }     else if n == 19 {
        Some(KeyCode::F19)
    }     else if n == 20 {
        Some(KeyCode::F20)
    }     else if n == 21 {
        Some(KeyCode::F21)
    }     else if n == 22 {
        Some(KeyCode::F22)
    }     else if n == 23 {
        Some(KeyCode::F23)
    }     else if n == 24 {
        Some(KeyCode::F24)
    } else {
        None
    }
}

/// Key of an upper-case ASCII letter (`Space` for any other character).
pub fn letter_code(c: char) -> (r: KeyCode)
    ensures
        r == letter_code_spec(c),
{
    match c {
        'A' => KeyCode::KeyA,
        'B' => KeyCode::KeyB,
        'C' => KeyCode::KeyC,
        'D' => KeyCode::KeyD,
        'E' => KeyCode::KeyE,
        'F' => KeyCode::KeyF,
        'G' => KeyCode::KeyG,
        'H' => KeyCode::KeyH,
        'I' => KeyCode::KeyI,
        'J' => KeyCode::KeyJ,
        'K' => KeyCode::KeyK,
        'L' => KeyCode::KeyL,
        'M' => KeyCode::KeyM,
        'N' => KeyCode::KeyN,
        'O' => KeyCode::KeyO,
        'P' => KeyCode::KeyP,
        'Q' => KeyCode::KeyQ,
        'R' => KeyCode::KeyR,
        'S' => KeyCode::KeyS,
        'T' => KeyCode::KeyT,
        'U' => KeyCode::KeyU,
        'V' => KeyCode::KeyV,
        'W' => KeyCode::KeyW,
        'X' => KeyCode::KeyX,
        'Y' => KeyCode::KeyY,
        'Z' => KeyCode::KeyZ,
        _ => KeyCode::Space,
    }
}

/// Key of an ASCII digit (`Digit0` for any other character).
pub fn digit_code(c: char) -> (r: KeyCode)
    ensures
        r == digit_code_spec(c),
{
    match c {
        '0' => KeyCode::Digit0,
        '1' => KeyCode::Digit1,
        '2' => KeyCode::Digit2,
        '3' => KeyCode::Digit3,
        '4' => KeyCode::Digit4,
        '5' => KeyCode::Digit5,
        '6' => KeyCode::Digit6,
        '7' => KeyCode::Digit7,
        '8' => KeyCode::Digit8,
        '9' => KeyCode::Digit9,
        _ => KeyCode::Digit0,
    }
}

/// Function key with the given number, `F1` to `F24`.
pub fn f_key(n: u32) -> (r: Option<KeyCode>)
    ensures
        r == f_key_spec(n),
{
    match n {
        1 => Some(KeyCode::F1),
        2 => Some(KeyCode::F2),
        3 => Some(KeyCode::F3),
        4 => Some(KeyCode::F4),
        5 => Some(KeyCode::F5),
        6 => Some(KeyCode::F6),
        7 => Some(KeyCode::F7),
        8 => Some(KeyCode::F8),
        9 => Some(KeyCode::F9),
        10 => Some(KeyCode::F10),
        11 => Some(KeyCode::F11),
        12 => Some(KeyCode::F12),
        13 => Some(KeyCode::F13),
        14 => Some(KeyCode::F14),
        15 => Some(KeyCode::F15),
        16 => Some(KeyCode::F16),
        17 => Some(KeyCode::F17),
        18 => Some(KeyCode::F18),
        19 => Some(KeyCode::F19),
        20 => Some(KeyCode::F20),
        21 => Some(KeyCode::F21),
        22 => Some(KeyCode::F22),
        23 => Some(KeyCode::F23),
        24 => Some(KeyCode::F24),
        _ => None,
    }
}


pub open spec fn is_digit(c: char) -> bool {
    '0' <= c <= '9'
}

/// Value of an ASCII digit.
pub open spec fn digit_val(c: char) -> int {
    if c == '0' {
        0
    }     else if c == '1' {
        1
    }     else if c == '2' {
        2
    }     else if c == '3' {
        3
    }     else if c == '4' {
        4
    }     else if c == '5' {
        5
    }     else if c == '6' {
        6
    }     else if c == '7' {
        7
    }     else if c == '8' {
        8
    }     else if c == '9' {
        9
    } else {
        0
    }
}

/// Value of a string of decimal digits.
pub open spec fn digits_value(d: Seq<char>) -> int
    decreases d.len(),
{
    if d.len() == 0 {
        0
    } else {
        digits_value(d.drop_last()) * 10 + digit_val(d.last())
    }
}

pub open spec fn all_digits(d: Seq<char>) -> bool {
    forall|i: int| 0 <= i < d.len() ==> is_digit(#[trigger] d[i])
}

/// `u32`'s `FromStr`: an optional `+` then one or more decimal digits whose
/// value fits in a `u32`.
pub open spec fn parse_u32_spec(s: Seq<char>) -> Option<u32> {
    let d = if s.len() > 0 && s[0] == '+' {
        s.drop_first()
    } else {
        s
    };
    if d.len() > 0 && all_digits(d) && digits_value(d) <= u32::MAX {
        Some(digits_value(d) as u32)
    } else {
        None
    }
}

pub proof fn lemma_digits_value_nonneg(d: Seq<char>)
    ensures
        digits_value(d) >= 0,
    decreases d.len(),
{
    if d.len() > 0 {
        lemma_digits_value_nonneg(d.drop_last());
    }
}

pub proof fn lemma_digits_value_prefix(d: Seq<char>, k: int)
    requires
        0 <= k <= d.len(),
    ensures
        digits_value(d) >= digits_value(d.take(k)),
    decreases d.len() - k,
{
    if k < d.len() {
        lemma_digits_value_prefix(d, k + 1);
        let t = d.take(k + 1);
        assert(t.drop_last() =~= d.take(k));
        lemma_digits_value_nonneg(d.take(k));
    } else {
        assert(d.take(k) =~= d);
    }
}

fn digit_value(c: char) -> (r: u32)
    ensures
        r == digit_val(c),
{
    match c {
        '0' => 0,
        '1' => 1,
        '2' => 2,
        '3' => 3,
        '4' => 4,
        '5' => 5,
        '6' => 6,
        '7' => 7,
        '8' => 8,
        '9' => 9,
        _ => 0,
    }
}

/// Parses a number the way `str::parse::<u32>` does: an optional `+`, then
/// one or more decimal digits, no larger than `u32::MAX`.
pub fn parse_u32(s: &Vec<char>) -> (r: Option<u32>)
    ensures
        r == parse_u32_spec(s@),
{
    let start: usize = if s.len() > 0 && s[0] == '+' {
        1
    } else {
        0
    };
    let ghost d = s@.subrange(start as int, s@.len() as int);
    proof {
        if start == 1 {
            assert(d =~= s@.drop_first());
        } else {
            assert(d =~= s@);
        }
    }
    if start == s.len() {
        return None;
    }
    let mut acc: u32 = 0;
    let mut i: usize = start;
    while i < s.len()
        invariant
            start <= i <= s@.len(),
            d == s@.subrange(start as int, s@.len() as int),
            d == (if s@.len() > 0 && s@[0] == '+' {
                s@.drop_first()
            } else {
                s@
            }),
            all_digits(d.take(i - start)),
            acc == digits_value(d.take(i - start)),
        decreases s@.len() - i,
    {
        let c = s[i];
        assert(d[i - start] == c);
        if !('0' <= c && c <= '9') {
            assert(!all_digits(d));
            return None;
        }
        let v = digit_value(c);
        proof {
            let t = d.take(i - start + 1);
            assert(t.drop_last() =~= d.take(i - start));
            assert(t.last() == c);
        }
        if acc > 429496729 || (acc == 429496729 && v > 5) {
            proof {
                lemma_digits_value_prefix(d, i - start + 1);
            }
            return None;
        }
        acc = acc * 10 + v;
        proof {
            let t = d.take(i - start + 1);
            assert forall|j: int| 0 <= j < t.len() implies is_digit(#[trigger] t[j]) by {
                if j < i - start {
                    assert(t[j] == d.take(i - start)[j]);
                }
            }
        }
        i = i + 1;
    }
    proof {
        assert(d.take(i - start) =~= d);
    }
    Some(acc)
}


/// Key named by a lower-case part of a shortcut: a single ASCII letter or
/// digit, a key name (`space`, `enter`/`return`, `esc`/`escape`, `tab`,
/// `backspace`, `up`, `down`, `left`, `right`) or `f` and a function-key
/// number.
pub open spec fn parse_code_spec(s: Seq<char>) -> Option<KeyCode> {
    let u = upper_seq(s);
    if s.len() == 1 && '\u{80}' > s[0] {
        if 'A' <= u[0] <= 'Z' {
            Some(letter_code_spec(u[0]))
        } else if '0' <= u[0] <= '9' {
            Some(digit_code_spec(u[0]))
        } else {
            None
        }
    } else if s == "space"@ {
        Some(KeyCode::Space)
    } else if s == "enter"@ || s == "return"@ {
        Some(KeyCode::Enter)
    } else if s == "esc"@ || s == "escape"@ {
        Some(KeyCode::Escape)
    } else if s == "tab"@ {
        Some(KeyCode::Tab)
    } else if s == "backspace"@ {
        Some(KeyCode::Backspace)
    } else if s == "up"@ {
        Some(KeyCode::ArrowUp)
    } else if s == "down"@ {
        Some(KeyCode::ArrowDown)
    } else if s == "left"@ {
        Some(KeyCode::ArrowLeft)
    } else if s == "right"@ {
        Some(KeyCode::ArrowRight)
    } else if u.len() >= 1 && u[0] == 'F' {
        match parse_u32_spec(u.drop_first()) {
            Some(n) => f_key_spec(n),
            None => None,
        }
    } else {
        None
    }
}

/// The key named by a lower-case part of a shortcut.
pub fn parse_code(s: &Vec<char>) -> (r: Option<KeyCode>)
    ensures
        r == parse_code_spec(s@),
{
    let u = upper_chars(s);
    if s.len() == 1 && '\u{80}' > s[0] {
        let c = u[0];
        if 'A' <= c && c <= 'Z' {
            return Some(letter_code(c));
        } else if '0' <= c && c <= '9' {
            return Some(digit_code(c));
        } else {
            return None;
        }
    }
    if chars_eq_str(s, "space") {
        Some(KeyCode::Space)
    } else if chars_eq_str(s, "enter") || chars_eq_str(s, "return") {
        Some(KeyCode::Enter)
    } else if chars_eq_str(s, "esc") || chars_eq_str(s, "escape") {
        Some(KeyCode::Escape)
    } else if chars_eq_str(s, "tab") {
        Some(KeyCode::Tab)
    } else if chars_eq_str(s, "backspace") {
        Some(KeyCode::Backspace)
    } else if chars_eq_str(s, "up") {
        Some(KeyCode::ArrowUp)
    } else if chars_eq_str(s, "down") {
        Some(KeyCode::ArrowDown)
    } else if chars_eq_str(s, "left") {
        Some(KeyCode::ArrowLeft)
    } else if chars_eq_str(s, "right") {
        Some(KeyCode::ArrowRight)
    } else if u.len() >= 1 && u[0] == 'F' {
        let n = u.len();
        let rest = sub_chars(&u, 1, n);
        assert(rest@ =~= u@.drop_first());
        match parse_u32(&rest) {
            Some(v) => f_key(v),
            None => None,
        }
    } else {
        None
    }
}

/// The parts of `s` between `+` signs (`str::split('+')`): one more part than
/// there are `+` signs, empty parts included.
pub open spec fn split_plus(s: Seq<char>) -> Seq<Seq<char>>
    decreases s.len(),
{
    if s.len() == 0 {
        seq![Seq::<char>::empty()]
    } else if s.last() == '+' {
        split_plus(s.drop_last()).push(Seq::<char>::empty())
    } else {
        let p = split_plus(s.drop_last());
        p.update(p.len() - 1, p.last().push(s.last()))
    }
}

pub proof fn lemma_split_plus_nonempty(s: Seq<char>)
    ensures
        split_plus(s).len() >= 1,
    decreases s.len(),
{
    if s.len() > 0 {
        lemma_split_plus_nonempty(s.drop_last());
    }
}

pub open spec fn parts_view(v: Seq<Vec<char>>) -> Seq<Seq<char>> {
    v.map_values(|p: Vec<char>| p@)
}

/// Splits `s` at every `+`.
pub fn split_plus_exec(s: &Vec<char>) -> (r: Vec<Vec<char>>)
    ensures
        parts_view(r@) == split_plus(s@),
{
    let mut parts: Vec<Vec<char>> = Vec::new();
    let mut cur: Vec<char> = Vec::new();
    let mut i: usize = 0;
    proof {
        assert(s@.take(0) =~= Seq::<char>::empty());
        assert(parts_view(parts@).push(cur@) =~= split_plus(s@.take(0)));
    }
    while i < s.len()
        invariant
            0 <= i <= s@.len(),
            parts_view(parts@).push(cur@) == split_plus(s@.take(i as int)),
        decreases s@.len() - i,
    {
        let c = s[i];
        let ghost t = s@.take(i + 1);
        proof {
            assert(t.drop_last() =~= s@.take(i as int));
            assert(t.last() == c);
            lemma_split_plus_nonempty(s@.take(i as int));
        }
        let ghost pv = parts_view(parts@);
        let ghost cv = cur@;
        if c == '+' {
            let done = cur;
            parts.push(done);
            cur = Vec::new();
            proof {
                assert(parts_view(parts@) =~= pv.push(cv));
                assert(parts_view(parts@).push(cur@) =~= pv.push(cv).push(Seq::<char>::empty()));
            }
        } else {
            cur.push(c);
            proof {
                assert(parts_view(parts@).push(cur@) =~= pv.push(cv).update(
                    pv.len() as int,
                    cv.push(c),
                ));
            }
        }
        i = i + 1;
    }
    proof {
        assert(s@.take(s@.len() as int) =~= s@);
    }
    let ghost pv = parts_view(parts@);
    let ghost cv = cur@;
    parts.push(cur);
    proof {
        assert(parts_view(parts@) =~= pv.push(cv));
    }
    parts
}


/// Reading state while going through a shortcut's parts: the modifiers and
/// key seen so far, or `None` once a part named no key.
pub type ParseState = Option<(Modifiers, Option<KeyCode>)>;

/// One part of a shortcut, taken after trimming and lower-casing: empty parts
/// are skipped; `ctrl`/`control`, `alt`/`option`, `shift` and
/// `super`/`win`/`meta`/`cmd`/`command` add a modifier; anything else must
/// name a key, which replaces any key named before.
pub open spec fn apply_part(st: ParseState, part: Seq<char>) -> ParseState {
    match st {
        None => None,
        Some((m, code)) => {
            let p = lower_seq(trim(part));
            if p.len() == 0 {
                Some((m, code))
            } else if p == "ctrl"@ || p == "control"@ {
                Some((Modifiers { ctrl: true, alt: m.alt, shift: m.shift, super_key: m.super_key }, code))
            } else if p == "alt"@ || p == "option"@ {
                Some((Modifiers { ctrl: m.ctrl, alt: true, shift: m.shift, super_key: m.super_key }, code))
            } else if p == "shift"@ {
                Some((Modifiers { ctrl: m.ctrl, alt: m.alt, shift: true, super_key: m.super_key }, code))
            } else if p == "super"@ || p == "win"@ || p == "meta"@ || p == "cmd"@ || p == "command"@ {
                Some((Modifiers { ctrl: m.ctrl, alt: m.alt, shift: m.shift, super_key: true }, code))
            } else {
                match parse_code_spec(p) {
                    Some(c) => Some((m, Some(c))),
                    None => None,
                }
            }
        },
    }
}

pub open spec fn fold_parts(parts: Seq<Seq<char>>) -> ParseState
    decreases parts.len(),
{
    if parts.len() == 0 {
        Some((no_modifiers(), None))
    } else {
        apply_part(fold_parts(parts.drop_last()), parts.last())
    }
}

/// The shortcut that `s` describes: its `+`-separated parts read in order;
/// `None` when a part names no key or no key is named at all.
pub open spec fn parse_hotkey_spec(s: Seq<char>) -> Option<Hotkey> {
    match fold_parts(split_plus(s)) {
        Some((m, Some(c))) => Some(Hotkey { modifiers: m, code: c }),
        _ => None,
    }
}

fn apply_part_exec(m: Modifiers, code: Option<KeyCode>, part: &Vec<char>) -> (r: ParseState)
    ensures
        r == apply_part(Some((m, code)), part@),
{
    let t = trim_chars(part);
    let p = lower_chars(&t);
    let mut m = m;
    if p.len() == 0 {
        Some((m, code))
    } else if chars_eq_str(&p, "ctrl") || chars_eq_str(&p, "control") {
        m.ctrl = true;
        Some((m, code))
    } else if chars_eq_str(&p, "alt") || chars_eq_str(&p, "option") {
        m.alt = true;
        Some((m, code))
    } else if chars_eq_str(&p, "shift") {
        m.shift = true;
        Some((m, code))
    } else if chars_eq_str(&p, "super") || chars_eq_str(&p, "win") || chars_eq_str(&p, "meta")
        || chars_eq_str(&p, "cmd") || chars_eq_str(&p, "command") {
        m.super_key = true;
        Some((m, code))
    } else {
        match parse_code(&p) {
            Some(c) => Some((m, Some(c))),
            None => None,
        }
    }
}

pub proof fn lemma_fold_none(parts: Seq<Seq<char>>, k: int)
    requires
        0 <= k <= parts.len(),
        fold_parts(parts.take(k)) is None,
    ensures
        fold_parts(parts) is None,
    decreases parts.len() - k,
{
    if k < parts.len() {
        assert(parts.take(k + 1).drop_last() =~= parts.take(k));
        lemma_fold_none(parts, k + 1);
    } else {
        assert(parts.take(k) =~= parts);
    }
}

/// Reads a shortcut such as `Ctrl+Alt+Space`: `+`-separated parts, each
/// trimmed and compared without regard to ASCII case; modifier names add
/// modifiers, any other non-empty part must name the key. `None` when a part
/// names no key or no key is named.
pub fn parse_hotkey(s: &str) -> (r: Option<Hotkey>)
    ensures
        r == parse_hotkey_spec(s@),
{
    let chars = chars_of(s);
    let parts = split_plus_exec(&chars);
    let ghost pv = parts_view(parts@);
    let mut m = Modifiers { ctrl: false, alt: false, shift: false, super_key: false };
    let mut code: Option<KeyCode> = None;
    let mut i: usize = 0;
    proof {
        assert(pv.take(0) =~= Seq::<Seq<char>>::empty());
    }
    while i < parts.len()
        invariant
            pv == parts_view(parts@),
            pv == split_plus(s@),
            0 <= i <= parts@.len(),
            fold_parts(pv.take(i as int)) == Some((m, code)),
        decreases parts@.len() - i,
    {
        proof {
            assert(pv.take(i + 1).drop_last() =~= pv.take(i as int));
            assert(pv.take(i + 1).last() == parts@[i as int]@);
        }
        match apply_part_exec(m, code, &parts[i]) {
            Some((m2, c2)) => {
                m = m2;
                code = c2;
            },
            None => {
                proof {
                    lemma_fold_none(pv, i + 1);
                }
                return None;
            },
        }
        i = i + 1;
    }
    proof {
        assert(pv.take(parts@.len() as int) =~= pv);
    }
    match code {
        Some(c) => Some(Hotkey { modifiers: m, code: c }),
        None => None,
    }
}


pub proof fn lemma_split_lower(s: Seq<char>)
    ensures
        split_plus(lower_seq(s)) == split_plus(s).map_values(|p: Seq<char>| lower_seq(p)),
    decreases s.len(),
{
    if s.len() == 0 {
        assert(lower_seq(s) =~= Seq::<char>::empty());
        assert(split_plus(s).map_values(|p: Seq<char>| lower_seq(p)) =~= seq![Seq::<char>::empty()]) by {
            assert(lower_seq(Seq::<char>::empty()) =~= Seq::<char>::empty());
        }
    } else {
        let l = lower_seq(s);
        assert(l.drop_last() =~= lower_seq(s.drop_last()));
        lemma_split_lower(s.drop_last());
        lemma_split_plus_nonempty(s.drop_last());
        lemma_lower_char(s.last());
        let prev = split_plus(s.drop_last());
        let f = |p: Seq<char>| lower_seq(p);
        if s.last() == '+' {
            assert(lower_seq(Seq::<char>::empty()) =~= Seq::<char>::empty());
            assert(prev.push(Seq::<char>::empty()).map_values(f) =~= prev.map_values(f).push(
                Seq::<char>::empty(),
            ));
        } else {
            let q = prev.update(prev.len() - 1, prev.last().push(s.last()));
            assert(lower_seq(prev.last().push(s.last())) =~= lower_seq(prev.last()).push(
                ascii_lower(s.last()),
            ));
            assert(q.map_values(f) =~= prev.map_values(f).update(
                prev.len() - 1,
                prev.map_values(f).last().push(l.last()),
            ));
        }
    }
}

pub proof fn lemma_apply_part_lower(st: ParseState, part: Seq<char>)
    ensures
        apply_part(st, lower_seq(part)) == apply_part(st, part),
{
    lemma_trim_lower(part);
    lemma_lower_idempotent(trim(part));
}

pub proof fn lemma_fold_lower(parts: Seq<Seq<char>>)
    ensures
        fold_parts(parts.map_values(|p: Seq<char>| lower_seq(p))) == fold_parts(parts),
    decreases parts.len(),
{
    if parts.len() > 0 {
        let f = |p: Seq<char>| lower_seq(p);
        let lp = parts.map_values(f);
        assert(lp.drop_last() =~= parts.drop_last().map_values(f));
        lemma_fold_lower(parts.drop_last());
        lemma_apply_part_lower(fold_parts(parts.drop_last()), parts.last());
    }
}

/// Shortcut text is read without regard to ASCII case: lower-casing it
/// changes nothing about the shortcut it describes.
pub proof fn law_hotkey_case_insensitive(s: Seq<char>)
    ensures
        parse_hotkey_spec(lower_seq(s)) == parse_hotkey_spec(s),
{
    lemma_split_lower(s);
    lemma_fold_lower(split_plus(s));
}

/// A part of a shortcut as it is compared: trimmed and lower-cased.
pub open spec fn part_norm(p: Seq<char>) -> Seq<char> {
    lower_seq(trim(p))
}

pub open spec fn is_ctrl_name(q: Seq<char>) -> bool {
    q == "ctrl"@ || q == "control"@
}

pub open spec fn is_alt_name(q: Seq<char>) -> bool {
    q == "alt"@ || q == "option"@
}

pub open spec fn is_shift_name(q: Seq<char>) -> bool {
    q == "shift"@
}

pub open spec fn is_super_name(q: Seq<char>) -> bool {
    q == "super"@ || q == "win"@ || q == "meta"@ || q == "cmd"@ || q == "command"@
}

/// A part that must name the key: not empty and not a modifier name.
pub open spec fn is_key_part(p: Seq<char>) -> bool {
    let q = part_norm(p);
    q.len() > 0 && !is_ctrl_name(q) && !is_alt_name(q) && !is_shift_name(q) && !is_super_name(q)
}

/// At most one part of `parts` names the key.
pub open spec fn one_key_at_most(parts: Seq<Seq<char>>) -> bool {
    forall|i: int, j: int|
        0 <= i < parts.len() && 0 <= j < parts.len() && #[trigger] is_key_part(parts[i])
            && #[trigger] is_key_part(parts[j]) ==> i == j
}

/// The modifiers that some part of `parts` names.
pub open spec fn mods_of(parts: Seq<Seq<char>>) -> Modifiers {
    Modifiers {
        ctrl: exists|i: int| 0 <= i < parts.len() && is_ctrl_name(#[trigger] part_norm(parts[i])),
        alt: exists|i: int| 0 <= i < parts.len() && is_alt_name(#[trigger] part_norm(parts[i])),
        shift: exists|i: int| 0 <= i < parts.len() && is_shift_name(#[trigger] part_norm(parts[i])),
        super_key: exists|i: int| 0 <= i < parts.len() && is_super_name(#[trigger] part_norm(parts[i])),
    }
}

/// The key named by a key part of `parts`, if there is one.
pub open spec fn key_of(parts: Seq<Seq<char>>) -> Option<KeyCode> {
    if exists|i: int| 0 <= i < parts.len() && #[trigger] is_key_part(parts[i]) {
        let i = choose|i: int| 0 <= i < parts.len() && #[trigger] is_key_part(parts[i]);
        parse_code_spec(part_norm(parts[i]))
    } else {
        None
    }
}

/// What reading `parts` gives when at most one of them names the key,
/// written without regard to their order.
pub open spec fn unordered_reading(parts: Seq<Seq<char>>) -> ParseState {
    if exists|i: int|
        0 <= i < parts.len() && #[trigger] is_key_part(parts[i]) && parse_code_spec(part_norm(parts[i])) is None {
        None
    } else {
        Some((mods_of(parts), key_of(parts)))
    }
}

/// Each modifier name names one modifier, and none is empty.
pub proof fn lemma_names_exclusive(q: Seq<char>)
    ensures
        is_ctrl_name(q) ==> !is_alt_name(q) && !is_shift_name(q) && !is_super_name(q),
        is_alt_name(q) ==> !is_shift_name(q) && !is_super_name(q),
        is_shift_name(q) ==> !is_super_name(q),
        (is_ctrl_name(q) || is_alt_name(q) || is_shift_name(q) || is_super_name(q)) ==> q.len() > 0,
{
    reveal_strlit("ctrl");
    reveal_strlit("control");
    reveal_strlit("alt");
    reveal_strlit("option");
    reveal_strlit("shift");
    reveal_strlit("super");
    reveal_strlit("win");
    reveal_strlit("meta");
    reveal_strlit("cmd");
    reveal_strlit("command");
    if q == "ctrl"@ {
        assert(q.len() == 4 && q[0] == 'c' && q[1] == 't');
    }
    if q == "control"@ {
        assert(q.len() == 7 && q[0] == 'c' && q[2] == 'n');
    }
    if q == "alt"@ {
        assert(q.len() == 3 && q[0] == 'a');
    }
    if q == "option"@ {
        assert(q.len() == 6 && q[0] == 'o');
    }
    if q == "shift"@ {
        assert(q.len() == 5 && q[0] == 's' && q[1] == 'h');
    }
    if q == "super"@ {
        assert(q.len() == 5 && q[0] == 's' && q[1] == 'u');
    }
    if q == "win"@ {
        assert(q.len() == 3 && q[0] == 'w');
    }
    if q == "meta"@ {
        assert(q.len() == 4 && q[0] == 'm');
    }
    if q == "cmd"@ {
        assert(q.len() == 3 && q[0] == 'c');
    }
    if q == "command"@ {
        assert(q.len() == 7 && q[0] == 'c' && q[2] == 'm');
    }
}

#[verifier::spinoff_prover]
pub proof fn lemma_fold_unordered(parts: Seq<Seq<char>>)
    requires
        one_key_at_most(parts),
    ensures
        fold_parts(parts) == unordered_reading(parts),
    decreases parts.len(),
{
    if parts.len() == 0 {
        assert(mods_of(parts) == no_modifiers());
    } else {
        let init = parts.drop_last();
        let last = parts.last();
        let n = parts.len() - 1;
        assert forall|i: int, j: int|
            0 <= i < init.len() && 0 <= j < init.len() && #[trigger] is_key_part(init[i])
                && #[trigger] is_key_part(init[j]) implies i == j by {
            assert(init[i] == parts[i] && init[j] == parts[j]);
        }
        lemma_fold_unordered(init);
        assert(parts[n] == last);
        assert forall|i: int| 0 <= i < init.len() implies #[trigger] init[i] == parts[i] by {}
        let q = part_norm(last);
        lemma_names_exclusive(q);
        let mi = mods_of(init);
        let mp = mods_of(parts);
        // the modifiers seen through `init` are seen through `parts`
        assert(mi.ctrl ==> mp.ctrl) by {
            if mi.ctrl {
                let i = choose|i: int| 0 <= i < init.len() && is_ctrl_name(#[trigger] part_norm(init[i]));
                assert(part_norm(parts[i]) == part_norm(init[i]));
            }
        }
        assert(mi.alt ==> mp.alt) by {
            if mi.alt {
                let i = choose|i: int| 0 <= i < init.len() && is_alt_name(#[trigger] part_norm(init[i]));
                assert(part_norm(parts[i]) == part_norm(init[i]));
            }
        }
        assert(mi.shift ==> mp.shift) by {
            if mi.shift {
                let i = choose|i: int| 0 <= i < init.len() && is_shift_name(#[trigger] part_norm(init[i]));
                assert(part_norm(parts[i]) == part_norm(init[i]));
            }
        }
        assert(mi.super_key ==> mp.super_key) by {
            if mi.super_key {
                let i = choose|i: int| 0 <= i < init.len() && is_super_name(#[trigger] part_norm(init[i]));
                assert(part_norm(parts[i]) == part_norm(init[i]));
            }
        }
        // and a modifier seen through `parts` is seen through `init` or is `last`
        assert(mp.ctrl ==> mi.ctrl || is_ctrl_name(q)) by {
            if mp.ctrl {
                let i = choose|i: int| 0 <= i < parts.len() && is_ctrl_name(#[trigger] part_norm(parts[i]));
                if i < n {
                    assert(part_norm(init[i]) == part_norm(parts[i]));
                }
            }
        }
        assert(mp.alt ==> mi.alt || is_alt_name(q)) by {
            if mp.alt {
                let i = choose|i: int| 0 <= i < parts.len() && is_alt_name(#[trigger] part_norm(parts[i]));
                if i < n {
                    assert(part_norm(init[i]) == part_norm(parts[i]));
                }
            }
        }
        assert(mp.shift ==> mi.shift || is_shift_name(q)) by {
            if mp.shift {
                let i = choose|i: int| 0 <= i < parts.len() && is_shift_name(#[trigger] part_norm(parts[i]));
                if i < n {
                    assert(part_norm(init[i]) == part_norm(parts[i]));
                }
            }
        }
        assert(mp.super_key ==> mi.super_key || is_super_name(q)) by {
            if mp.super_key {
                let i = choose|i: int| 0 <= i < parts.len() && is_super_name(#[trigger] part_norm(parts[i]));
                if i < n {
                    assert(part_norm(init[i]) == part_norm(parts[i]));
                }
            }
        }
        assert(is_ctrl_name(q) ==> mp.ctrl) by {
            if is_ctrl_name(q) {
                assert(is_ctrl_name(part_norm(parts[n])));
            }
        }
        assert(is_alt_name(q) ==> mp.alt) by {
            if is_alt_name(q) {
                assert(is_alt_name(part_norm(parts[n])));
            }
        }
        assert(is_shift_name(q) ==> mp.shift) by {
            if is_shift_name(q) {
                assert(is_shift_name(part_norm(parts[n])));
            }
        }
        assert(is_super_name(q) ==> mp.super_key) by {
            if is_super_name(q) {
                assert(is_super_name(part_norm(parts[n])));
            }
        }
        // key parts of `parts` are those of `init`, and `last` when it is one
        let bad_init = exists|i: int|
            0 <= i < init.len() && #[trigger] is_key_part(init[i]) && parse_code_spec(part_norm(init[i])) is None;
        let bad_parts = exists|i: int|
            0 <= i < parts.len() && #[trigger] is_key_part(parts[i]) && parse_code_spec(part_norm(parts[i])) is None;
        let key_init = exists|i: int| 0 <= i < init.len() && #[trigger] is_key_part(init[i]);
        let key_parts = exists|i: int| 0 <= i < parts.len() && #[trigger] is_key_part(parts[i]);
        assert(bad_init ==> bad_parts) by {
            if bad_init {
                let i = choose|i: int|
                    0 <= i < init.len() && #[trigger] is_key_part(init[i]) && parse_code_spec(part_norm(init[i])) is None;
                assert(is_key_part(parts[i]));
            }
        }
        assert(key_init ==> key_parts) by {
            if key_init {
                let i = choose|i: int| 0 <= i < init.len() && #[trigger] is_key_part(init[i]);
                assert(is_key_part(parts[i]));
            }
        }
        if is_key_part(last) {
            assert(is_key_part(parts[n]));
            assert(!key_init) by {
                if key_init {
                    let i = choose|i: int| 0 <= i < init.len() && #[trigger] is_key_part(init[i]);
                    assert(is_key_part(parts[i]));
                }
            }
            assert(key_parts);
            let k = choose|i: int| 0 <= i < parts.len() && #[trigger] is_key_part(parts[i]);
            assert(k == n);
            assert(!bad_init);
            assert(bad_parts <==> parse_code_spec(q) is None) by {
                if bad_parts {
                    let i = choose|i: int|
                        0 <= i < parts.len() && #[trigger] is_key_part(parts[i]) && parse_code_spec(part_norm(parts[i])) is None;
                    assert(i == n);
                }
                if parse_code_spec(q) is None {
                    assert(is_key_part(parts[n]) && parse_code_spec(part_norm(parts[n])) is None);
                }
            }
            assert(mp == mi);
        } else {
            assert(bad_parts ==> bad_init) by {
                if bad_parts {
                    let i = choose|i: int|
                        0 <= i < parts.len() && #[trigger] is_key_part(parts[i]) && parse_code_spec(part_norm(parts[i])) is None;
                    assert(i != n);
                    assert(is_key_part(init[i]));
                }
            }
            assert(key_parts ==> key_init) by {
                if key_parts {
                    let i = choose|i: int| 0 <= i < parts.len() && #[trigger] is_key_part(parts[i]);
                    assert(i != n);
                    assert(is_key_part(init[i]));
                }
            }
            if key_init {
                let a = choose|i: int| 0 <= i < init.len() && #[trigger] is_key_part(init[i]);
                let b = choose|i: int| 0 <= i < parts.len() && #[trigger] is_key_part(parts[i]);
                assert(is_key_part(parts[a]));
                assert(a == b);
                assert(key_of(init) == key_of(parts));
            }
            if q.len() == 0 {
                assert(!is_ctrl_name(q) && !is_alt_name(q) && !is_shift_name(q) && !is_super_name(q));
                assert(mp == mi);
            }
        }
        assert(fold_parts(parts) == apply_part(fold_parts(init), last));
        if bad_init {
            assert(fold_parts(init) is None);
            assert(bad_parts);
        } else {
            assert(fold_parts(init) == Some((mi, key_of(init))));
            if is_key_part(last) {
                assert(key_of(init) is None);
                assert(unordered_reading(parts) == apply_part(fold_parts(init), last));
            } else if q.len() == 0 {
                assert(unordered_reading(parts) == apply_part(fold_parts(init), last));
            } else if is_ctrl_name(q) {
                assert(!is_alt_name(q));
                assert(!is_shift_name(q));
                assert(!is_super_name(q));
                assert(mp.ctrl);
                assert(mp == Modifiers { ctrl: true, alt: mi.alt, shift: mi.shift, super_key: mi.super_key });
            } else if is_alt_name(q) {
                assert(mp == Modifiers { ctrl: mi.ctrl, alt: true, shift: mi.shift, super_key: mi.super_key });
            } else if is_shift_name(q) {
                assert(mp == Modifiers { ctrl: mi.ctrl, alt: mi.alt, shift: true, super_key: mi.super_key });
            } else {
                assert(is_super_name(q));
                assert(mp == Modifiers { ctrl: mi.ctrl, alt: mi.alt, shift: mi.shift, super_key: true });
            }
        }
    }
}

/// The order of a shortcut's parts, their case and the spaces around them do
/// not matter as long as at most one part names the key: a shortcut whose
/// parts are those of another, taken in another order (`perm`, with inverse
/// `inv`) and written with other case or spacing, reads the same.
#[verifier::spinoff_prover]
pub proof fn law_hotkey_order_free(s1: Seq<char>, s2: Seq<char>, perm: Seq<int>, inv: Seq<int>)
    requires
        split_plus(s2).len() == split_plus(s1).len(),
        perm.len() == split_plus(s1).len(),
        inv.len() == split_plus(s1).len(),
        forall|i: int| 0 <= i < perm.len() ==> 0 <= #[trigger] perm[i] < perm.len() && inv[perm[i]] == i,
        forall|i: int| 0 <= i < inv.len() ==> 0 <= #[trigger] inv[i] < inv.len() && perm[inv[i]] == i,
        forall|i: int|
            0 <= i < perm.len() ==> part_norm(#[trigger] split_plus(s2)[i]) == part_norm(split_plus(s1)[perm[i]]),
        one_key_at_most(split_plus(s1)),
    ensures
        parse_hotkey_spec(s2) == parse_hotkey_spec(s1),
{
    let p1 = split_plus(s1);
    let p2 = split_plus(s2);
    let n = p1.len();
    assert forall|i: int| 0 <= i < n implies #[trigger] is_key_part(p2[i]) == is_key_part(p1[perm[i]]) by {
        assert(part_norm(p2[i]) == part_norm(p1[perm[i]]));
    }
    assert forall|j: int| 0 <= j < n implies part_norm(#[trigger] p1[j]) == part_norm(p2[inv[j]]) by {
        assert(part_norm(p2[inv[j]]) == part_norm(p1[perm[inv[j]]]));
    }
    assert(one_key_at_most(p2)) by {
        assert forall|i: int, j: int|
            0 <= i < n && 0 <= j < n && #[trigger] is_key_part(p2[i]) && #[trigger] is_key_part(p2[j]) implies i == j by {
            assert(is_key_part(p1[perm[i]]) && is_key_part(p1[perm[j]]));
            assert(perm[i] == perm[j]);
            assert(inv[perm[i]] == i && inv[perm[j]] == j);
        }
    }
    lemma_fold_unordered(p1);
    lemma_fold_unordered(p2);
    let m1 = mods_of(p1);
    let m2 = mods_of(p2);
    assert(m1.ctrl == m2.ctrl) by {
        if m1.ctrl {
            let j = choose|i: int| 0 <= i < n && is_ctrl_name(#[trigger] part_norm(p1[i]));
            assert(part_norm(p1[j]) == part_norm(p2[inv[j]]));
        }
        if m2.ctrl {
            let j = choose|i: int| 0 <= i < n && is_ctrl_name(#[trigger] part_norm(p2[i]));
            assert(part_norm(p2[j]) == part_norm(p1[perm[j]]));
        }
    }
    assert(m1.alt == m2.alt) by {
        if m1.alt {
            let j = choose|i: int| 0 <= i < n && is_alt_name(#[trigger] part_norm(p1[i]));
            assert(part_norm(p1[j]) == part_norm(p2[inv[j]]));
        }
        if m2.alt {
            let j = choose|i: int| 0 <= i < n && is_alt_name(#[trigger] part_norm(p2[i]));
            assert(part_norm(p2[j]) == part_norm(p1[perm[j]]));
        }
    }
    assert(m1.shift == m2.shift) by {
        if m1.shift {
            let j = choose|i: int| 0 <= i < n && is_shift_name(#[trigger] part_norm(p1[i]));
            assert(part_norm(p1[j]) == part_norm(p2[inv[j]]));
        }
        if m2.shift {
            let j = choose|i: int| 0 <= i < n && is_shift_name(#[trigger] part_norm(p2[i]));
            assert(part_norm(p2[j]) == part_norm(p1[perm[j]]));
        }
    }
    assert(m1.super_key == m2.super_key) by {
        if m1.super_key {
            let j = choose|i: int| 0 <= i < n && is_super_name(#[trigger] part_norm(p1[i]));
            assert(part_norm(p1[j]) == part_norm(p2[inv[j]]));
        }
        if m2.super_key {
            let j = choose|i: int| 0 <= i < n && is_super_name(#[trigger] part_norm(p2[i]));
            assert(part_norm(p2[j]) == part_norm(p1[perm[j]]));
        }
    }
    assert(m1 == m2);
    let k1 = exists|i: int| 0 <= i < n && #[trigger] is_key_part(p1[i]);
    let k2 = exists|i: int| 0 <= i < n && #[trigger] is_key_part(p2[i]);
    assert(k1 == k2) by {
        if k1 {
            let j = choose|i: int| 0 <= i < n && #[trigger] is_key_part(p1[i]);
            assert(is_key_part(p2[inv[j]]) == is_key_part(p1[perm[inv[j]]]));
        }
        if k2 {
            let j = choose|i: int| 0 <= i < n && #[trigger] is_key_part(p2[i]);
            assert(is_key_part(p1[perm[j]]));
        }
    }
    if k2 {
        let j = choose|i: int| 0 <= i < n && #[trigger] is_key_part(p2[i]);
        let i1 = choose|i: int| 0 <= i < n && #[trigger] is_key_part(p1[i]);
        assert(is_key_part(p1[perm[j]]));
        assert(i1 == perm[j]);
        assert(part_norm(p2[j]) == part_norm(p1[perm[j]]));
        assert(key_of(p1) == key_of(p2));
    }
    let b1 = exists|i: int| 0 <= i < n && #[trigger] is_key_part(p1[i]) && parse_code_spec(part_norm(p1[i])) is None;
    let b2 = exists|i: int| 0 <= i < n && #[trigger] is_key_part(p2[i]) && parse_code_spec(part_norm(p2[i])) is None;
    assert(b1 == b2) by {
        if b1 {
            let j = choose|i: int| 0 <= i < n && #[trigger] is_key_part(p1[i]) && parse_code_spec(part_norm(p1[i])) is None;
            assert(is_key_part(p2[inv[j]]) == is_key_part(p1[perm[inv[j]]]));
            assert(part_norm(p1[j]) == part_norm(p2[inv[j]]));
        }
        if b2 {
            let j = choose|i: int| 0 <= i < n && #[trigger] is_key_part(p2[i]) && parse_code_spec(part_norm(p2[i])) is None;
            assert(is_key_part(p1[perm[j]]));
            assert(part_norm(p2[j]) == part_norm(p1[perm[j]]));
        }
    }
    assert(unordered_reading(p1) == unordered_reading(p2));
}

/// The letter on a letter key (`KeyA` is `A`).
pub open spec fn key_letter(k: KeyCode) -> Option<char> {
    match k {
        KeyCode::KeyA => Some('A'),
        KeyCode::KeyB => Some('B'),
        KeyCode::KeyC => Some('C'),
        KeyCode::KeyD => Some('D'),
        KeyCode::KeyE => Some('E'),
        KeyCode::KeyF => Some('F'),
        KeyCode::KeyG => Some('G'),
        KeyCode::KeyH => Some('H'),
        KeyCode::KeyI => Some('I'),
        KeyCode::KeyJ => Some('J'),
        KeyCode::KeyK => Some('K'),
        KeyCode::KeyL => Some('L'),
        KeyCode::KeyM => Some('M'),
        KeyCode::KeyN => Some('N'),
        KeyCode::KeyO => Some('O'),
        KeyCode::KeyP => Some('P'),
        KeyCode::KeyQ => Some('Q'),
        KeyCode::KeyR => Some('R'),
        KeyCode::KeyS => Some('S'),
        KeyCode::KeyT => Some('T'),
        KeyCode::KeyU => Some('U'),
        KeyCode::KeyV => Some('V'),
        KeyCode::KeyW => Some('W'),
        KeyCode::KeyX => Some('X'),
        KeyCode::KeyY => Some('Y'),
        KeyCode::KeyZ => Some('Z'),
        _ => None,
    }
}

/// The digit on a digit key (`Digit7` is 7).
pub open spec fn key_digit(k: KeyCode) -> Option<int> {
    match k {
        KeyCode::Digit0 => Some(0int),
        KeyCode::Digit1 => Some(1int),
        KeyCode::Digit2 => Some(2int),
        KeyCode::Digit3 => Some(3int),
        KeyCode::Digit4 => Some(4int),
        KeyCode::Digit5 => Some(5int),
        KeyCode::Digit6 => Some(6int),
        KeyCode::Digit7 => Some(7int),
        KeyCode::Digit8 => Some(8int),
        KeyCode::Digit9 => Some(9int),
        _ => None,
    }
}

/// The number of a function key (`F12` is 12).
pub open spec fn key_f_number(k: KeyCode) -> Option<int> {
    match k {
        KeyCode::F1 => Some(1int),
        KeyCode::F2 => Some(2int),
        KeyCode::F3 => Some(3int),
        KeyCode::F4 => Some(4int),
        KeyCode::F5 => Some(5int),
        KeyCode::F6 => Some(6int),
        KeyCode::F7 => Some(7int),
        KeyCode::F8 => Some(8int),
        KeyCode::F9 => Some(9int),
        KeyCode::F10 => Some(10int),
        KeyCode::F11 => Some(11int),
        KeyCode::F12 => Some(12int),
        KeyCode::F13 => Some(13int),
        KeyCode::F14 => Some(14int),
        KeyCode::F15 => Some(15int),
        KeyCode::F16 => Some(16int),
        KeyCode::F17 => Some(17int),
        KeyCode::F18 => Some(18int),
        KeyCode::F19 => Some(19int),
        KeyCode::F20 => Some(20int),
        KeyCode::F21 => Some(21int),
        KeyCode::F22 => Some(22int),
        KeyCode::F23 => Some(23int),
        KeyCode::F24 => Some(24int),
        _ => None,
    }
}

/// The key of an upper-case letter is the key with that letter on it.
pub proof fn lemma_letter_code_names(c: char)
    requires
        'A' <= c <= 'Z',
    ensures
        key_letter(letter_code_spec(c)) == Some(c),
{
    assert(c == 'A' || c == 'B' || c == 'C' || c == 'D' || c == 'E' || c == 'F' || c == 'G' || c == 'H' || c == 'I' || c == 'J' || c == 'K' || c == 'L' || c == 'M' || c == 'N' || c == 'O' || c == 'P' || c == 'Q' || c == 'R' || c == 'S' || c == 'T' || c == 'U' || c == 'V' || c == 'W' || c == 'X' || c == 'Y' || c == 'Z');
}

/// The key of a digit is the key with that digit on it.
pub proof fn lemma_digit_code_names(c: char)
    requires
        '0' <= c <= '9',
    ensures
        key_digit(digit_code_spec(c)) == Some((c as u32) - 48),
{
    assert(c == '0' || c == '1' || c == '2' || c == '3' || c == '4' || c == '5' || c == '6' || c == '7' || c == '8' || c == '9');
}

/// Function key `n` is the key numbered `n`.
pub proof fn lemma_f_key_names(n: u32)
    requires
        1 <= n <= 24,
    ensures
        f_key_spec(n) matches Some(k) && key_f_number(k) == Some(n as int),
{
}

/// Parts shorter than three characters, or starting with `f`, name no
/// modifier.
pub proof fn lemma_not_modifier(q: Seq<char>)
    requires
        q.len() < 3 || (q.len() > 0 && q[0] == 'f'),
    ensures
        !is_ctrl_name(q) && !is_alt_name(q) && !is_shift_name(q) && !is_super_name(q),
{
    reveal_strlit("ctrl");
    reveal_strlit("control");
    reveal_strlit("alt");
    reveal_strlit("option");
    reveal_strlit("shift");
    reveal_strlit("super");
    reveal_strlit("win");
    reveal_strlit("meta");
    reveal_strlit("cmd");
    reveal_strlit("command");
}

/// When the only key part of a shortcut names a key, the shortcut is that
/// key with the modifiers its other parts name.
pub proof fn lemma_key_part_reading(s: Seq<char>, i: int)
    requires
        one_key_at_most(split_plus(s)),
        0 <= i < split_plus(s).len(),
        is_key_part(split_plus(s)[i]),
        parse_code_spec(part_norm(split_plus(s)[i])) is Some,
    ensures
        parse_hotkey_spec(s) == Some(Hotkey {
            modifiers: mods_of(split_plus(s)),
            code: parse_code_spec(part_norm(split_plus(s)[i])).unwrap(),
        }),
{
    let parts = split_plus(s);
    lemma_fold_unordered(parts);
    let bad = exists|j: int|
        0 <= j < parts.len() && #[trigger] is_key_part(parts[j]) && parse_code_spec(part_norm(parts[j])) is None;
    assert(!bad) by {
        if bad {
            let j = choose|j: int|
                0 <= j < parts.len() && #[trigger] is_key_part(parts[j]) && parse_code_spec(part_norm(parts[j])) is None;
            assert(j == i);
        }
    }
    assert(exists|j: int| 0 <= j < parts.len() && #[trigger] is_key_part(parts[j]));
    let k = choose|j: int| 0 <= j < parts.len() && #[trigger] is_key_part(parts[j]);
    assert(k == i);
}

/// A single-letter key part names the key of that letter: in a shortcut
/// whose only key part reads `c` (any case, any spacing), the key is the one
/// with `c` upper-cased on it, held with the modifiers the other parts name.
pub proof fn law_letter_key(s: Seq<char>, i: int, c: char)
    requires
        one_key_at_most(split_plus(s)),
        0 <= i < split_plus(s).len(),
        part_norm(split_plus(s)[i]) == seq![c],
        'a' <= c <= 'z',
    ensures
        parse_hotkey_spec(s) matches Some(h) && h.modifiers == mods_of(split_plus(s))
            && key_letter(h.code) == Some(crate::text::ascii_upper(c)),
{
    let q = seq![c];
    lemma_not_modifier(q);
    let u = upper_seq(q);
    assert(u[0] == crate::text::ascii_upper(c));
    lemma_letter_code_names(u[0]);
    lemma_key_part_reading(s, i);
}

/// A single-digit key part names the key of that digit.
pub proof fn law_digit_key(s: Seq<char>, i: int, c: char)
    requires
        one_key_at_most(split_plus(s)),
        0 <= i < split_plus(s).len(),
        part_norm(split_plus(s)[i]) == seq![c],
        '0' <= c <= '9',
    ensures
        parse_hotkey_spec(s) matches Some(h) && h.modifiers == mods_of(split_plus(s))
            && key_digit(h.code) == Some((c as u32) - 48),
{
    let q = seq![c];
    lemma_not_modifier(q);
    let u = upper_seq(q);
    assert(u[0] == c);
    lemma_digit_code_names(c);
    lemma_key_part_reading(s, i);
}

/// A key part `F` followed by decimal digits of a number from 1 to 24 names
/// the function key of that number.
pub proof fn law_f_key(s: Seq<char>, i: int, d: Seq<char>)
    requires
        one_key_at_most(split_plus(s)),
        0 <= i < split_plus(s).len(),
        part_norm(split_plus(s)[i]) == seq!['f'] + d,
        d.len() > 0,
        all_digits(d),
        1 <= digits_value(d) <= 24,
    ensures
        parse_hotkey_spec(s) matches Some(h) && h.modifiers == mods_of(split_plus(s))
            && key_f_number(h.code) == Some(digits_value(d)),
{
    let q = seq!['f'] + d;
    assert(q[0] == 'f');
    lemma_not_modifier(q);
    reveal_strlit("space");
    reveal_strlit("enter");
    reveal_strlit("return");
    reveal_strlit("esc");
    reveal_strlit("escape");
    reveal_strlit("tab");
    reveal_strlit("backspace");
    reveal_strlit("up");
    reveal_strlit("down");
    reveal_strlit("left");
    reveal_strlit("right");
    let u = upper_seq(q);
    assert(u[0] == 'F');
    assert forall|j: int| 0 <= j < d.len() implies crate::text::ascii_upper(#[trigger] d[j]) == d[j] by {
        assert(is_digit(d[j]));
    }
    assert(u.drop_first() =~= d) by {
        assert forall|j: int| 0 <= j < d.len() implies u.drop_first()[j] == d[j] by {
            assert(u.drop_first()[j] == u[j + 1]);
            assert(q[j + 1] == d[j]);
        }
    }
    assert(is_digit(d[0]));
    assert(parse_u32_spec(d) == Some(digits_value(d) as u32));
    lemma_f_key_names(digits_value(d) as u32);
    lemma_key_part_reading(s, i);
}

} // verus!
