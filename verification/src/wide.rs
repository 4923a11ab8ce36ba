use vstd::prelude::*;
use crate::text::{chars_of, char_from_u32, string_from_chars, trim, trim_chars};

verus! {

pub open spec fn is_high_surrogate(u: u16) -> bool {
    0xD800 <= u <= 0xDBFF
}

pub open spec fn is_low_surrogate(u: u16) -> bool {
    0xDC00 <= u <= 0xDFFF
}

/// The UTF-16 code units of one character: one unit below U+10000, a
/// surrogate pair above.
pub open spec fn utf16_units(c: char) -> Seq<u16> {
    let v = c as u32;
    if v < 0x10000 {
        seq![v as u16]
    } else {
        seq![(0xD800 + (v - 0x10000) / 0x400) as u16, (0xDC00 + (v - 0x10000) % 0x400) as u16]
    }
}

/// UTF-16 encoding of a character sequence.
pub open spec fn utf16_encode(s: Seq<char>) -> Seq<u16>
    decreases s.len(),
{
    if s.len() == 0 {
        seq![]
    } else {
        utf16_encode(s.drop_last()) + utf16_units(s.last())
    }
}

/// Scalar value of a surrogate pair.
pub open spec fn pair_value(hi: u16, lo: u16) -> u32 {
    (0x10000 + (hi - 0xD800) * 0x400 + (lo - 0xDC00)) as u32
}

/// Lossy UTF-16 decoding, as `String::from_utf16_lossy` does it: a high
/// surrogate followed by a low one makes one character; any other surrogate
/// becomes U+FFFD and decoding resumes at the next unit.
pub open spec fn utf16_decode(u: Seq<u16>) -> Seq<char>
    decreases u.len(),
{
    if u.len() == 0 {
        seq![]
    } else if is_high_surrogate(u[0]) && u.len() >= 2 && is_low_surrogate(u[1]) {
        seq![pair_value(u[0], u[1]) as char] + utf16_decode(u.subrange(2, u.len() as int))
    } else if is_high_surrogate(u[0]) || is_low_surrogate(u[0]) {
        seq!['\u{FFFD}'] + utf16_decode(u.drop_first())
    } else {
        seq![(u[0] as u32) as char] + utf16_decode(u.drop_first())
    }
}

/// Units before the first NUL (all of them when there is none).
pub open spec fn before_nul(u: Seq<u16>) -> Seq<u16>
    decreases u.len(),
{
    if u.len() == 0 {
        u
    } else if u[0] == 0 {
        seq![]
    } else {
        seq![u[0]] + before_nul(u.drop_first())
    }
}

/// What a fixed-size wide-character buffer holds as text: the units up to the
/// first NUL, decoded, with surrounding whitespace removed; `None` when that
/// is empty.
pub open spec fn wide_text(u: Seq<u16>) -> Option<Seq<char>> {
    let t = trim(utf16_decode(before_nul(u)));
    if t.len() == 0 {
        None
    } else {
        Some(t)
    }
}

/// Appends the UTF-16 units of `s` to `out`.
fn push_utf16(out: &mut Vec<u16>, s: &Vec<char>)
    ensures
        final(out)@ == old(out)@ + utf16_encode(s@),
{
    let ghost start = old(out)@;
    let mut i: usize = 0;
    while i < s.len()
        invariant
            0 <= i <= s@.len(),
            out@ == start + utf16_encode(s@.take(i as int)),
        decreases s@.len() - i,
    {
        let c = s[i];
        let v = c as u32;
        if v < 0x10000 {
            out.push(v as u16);
        } else {
            let w = v - 0x10000;
            out.push((0xD800 + w / 0x400) as u16);
            out.push((0xDC00 + w % 0x400) as u16);
        }
        proof {
            assert(s@.take(i + 1).drop_last() =~= s@.take(i as int));
            assert(out@ =~= start + utf16_encode(s@.take(i + 1)));
        }
        i = i + 1;
    }
    assert(s@.take(s@.len() as int) =~= s@);
}

/// `s` as a NUL-terminated UTF-16 string, the form wide-character system
/// calls take.
pub fn to_wide(s: &str) -> (r: Vec<u16>)
    ensures
        r@ == utf16_encode(s@).push(0),
{
    let chars = chars_of(s);
    let mut out: Vec<u16> = Vec::new();
    push_utf16(&mut out, &chars);
    out.push(0);
    proof {
        assert(Seq::<u16>::empty() + utf16_encode(s@) =~= utf16_encode(s@));
    }
    out
}

/// `s` in a fixed 260-unit (MAX_PATH) buffer, padded with NULs; `None` when its
/// UTF-16 form is longer than 259 units, leaving no room for the terminator.
pub fn to_wide_260(s: &str) -> (r: Option<[u16; 260]>)
    ensures
        r is None <==> utf16_encode(s@).len() > 259,
        r matches Some(buf) ==> forall|i: int|
            0 <= i < 260 ==> buf@[i] == if i < utf16_encode(s@).len() {
                utf16_encode(s@)[i]
            } else {
                0u16
            },
{
    let chars = chars_of(s);
    let mut enc: Vec<u16> = Vec::new();
    push_utf16(&mut enc, &chars);
    proof {
        assert(Seq::<u16>::empty() + utf16_encode(s@) =~= utf16_encode(s@));
    }
    if enc.len() > 259 {
        return None;
    }
    let mut buf = [0u16; 260];
    let mut i: usize = 0;
    while i < enc.len()
        invariant
            enc@ == utf16_encode(s@),
            enc@.len() <= 259,
            0 <= i <= enc@.len(),
            forall|j: int| 0 <= j < i ==> buf@[j] == enc@[j],
            forall|j: int| i <= j < 260 ==> buf@[j] == 0u16,
        decreases enc@.len() - i,
    {
        buf[i] = enc[i];
        i = i + 1;
    }
    Some(buf)
}


pub proof fn lemma_before_nul(u: Seq<u16>, end: int)
    requires
        0 <= end <= u.len(),
        forall|j: int| 0 <= j < end ==> #[trigger] u[j] != 0,
        end == u.len() || u[end] == 0,
    ensures
        before_nul(u) == u.subrange(0, end),
    decreases end,
{
    if end == 0 {
        if u.len() == 0 {
            assert(u =~= u.subrange(0, 0));
        } else {
            assert(before_nul(u) =~= u.subrange(0, 0));
        }
    } else {
        let t = u.drop_first();
        assert forall|j: int| 0 <= j < end - 1 implies #[trigger] t[j] != 0 by {
            assert(t[j] == u[j + 1]);
        }
        lemma_before_nul(t, end - 1);
        assert(before_nul(u) =~= u.subrange(0, end));
    }
}

/// Index of the first NUL unit, or the length when there is none.
fn nul_position(buf: &[u16]) -> (end: usize)
    ensures
        end <= buf@.len(),
        before_nul(buf@) == buf@.subrange(0, end as int),
{
    let mut i: usize = 0;
    while i < buf.len() && buf[i] != 0
        invariant
            0 <= i <= buf@.len(),
            forall|j: int| 0 <= j < i ==> #[trigger] buf@[j] != 0,
        decreases buf@.len() - i,
    {
        i = i + 1;
    }
    proof {
        lemma_before_nul(buf@, i as int);
    }
    i
}

/// Lossy decoding of `buf[0..end]` (`String::from_utf16_lossy`), as characters.
pub fn decode_utf16_lossy(buf: &[u16], end: usize) -> (r: Vec<char>)
    requires
        end <= buf@.len(),
    ensures
        r@ == utf16_decode(buf@.subrange(0, end as int)),
{
    let ghost u = buf@.subrange(0, end as int);
    let mut out: Vec<char> = Vec::new();
    let mut i: usize = 0;
    proof {
        assert(u.subrange(0, end as int) =~= u);
    }
    while i < end
        invariant
            end <= buf@.len(),
            u == buf@.subrange(0, end as int),
            0 <= i <= end,
            out@ + utf16_decode(u.subrange(i as int, end as int)) == utf16_decode(u),
        decreases end - i,
    {
        let ghost rest = u.subrange(i as int, end as int);
        let a = buf[i];
        assert(rest[0] == a);
        if 0xD800 <= a && a <= 0xDBFF && i + 1 < end && 0xDC00 <= buf[i + 1] && buf[i + 1] <= 0xDFFF {
            let b = buf[i + 1];
            assert(rest[1] == b);
            let v: u32 = 0x10000 + ((a - 0xD800) as u32) * 0x400 + ((b - 0xDC00) as u32);
            assert(v == pair_value(a, b));
            let c = match char_from_u32(v) {
                Some(c) => c,
                None => '\u{FFFD}',
            };
            out.push(c);
            proof {
                assert(rest.subrange(2, rest.len() as int) =~= u.subrange(i + 2, end as int));
            }
            i = i + 2;
        } else if 0xD800 <= a && a <= 0xDFFF {
            out.push('\u{FFFD}');
            proof {
                assert(rest.drop_first() =~= u.subrange(i + 1, end as int));
            }
            i = i + 1;
        } else {
            let c = match char_from_u32(a as u32) {
                Some(c) => c,
                None => '\u{FFFD}',
            };
            out.push(c);
            proof {
                assert(rest.drop_first() =~= u.subrange(i + 1, end as int));
            }
            i = i + 1;
        }
    }
    proof {
        assert(u.subrange(end as int, end as int) =~= Seq::<u16>::empty());
        assert(out@ + Seq::<char>::empty() =~= out@);
    }
    out
}

/// Reads the text of a fixed-size wide-character buffer filled by a system
/// call: the units up to the first NUL, decoded lossily, with surrounding
/// whitespace removed; `None` when nothing is left.
pub fn from_wide(buf: &[u16]) -> (r: Option<String>)
    ensures
        match r {
            Some(s) => wide_text(buf@) == Some(s@),
            None => wide_text(buf@) is None,
        },
{
    let end = nul_position(buf);
    if end == 0 {
        proof {
            assert(utf16_decode(buf@.subrange(0, 0)) =~= Seq::<char>::empty());
            assert(trim(Seq::<char>::empty()) =~= Seq::<char>::empty());
        }
        return None;
    }
    let decoded = decode_utf16_lossy(buf, end);
    let trimmed = trim_chars(&decoded);
    if trimmed.len() == 0 {
        None
    } else {
        Some(string_from_chars(trimmed.as_slice()))
    }
}


pub proof fn lemma_encode_first(s: Seq<char>)
    requires
        s.len() > 0,
    ensures
        utf16_encode(s) == utf16_units(s[0]) + utf16_encode(s.drop_first()),
    decreases s.len(),
{
    if s.len() == 1 {
        assert(s.drop_last() =~= Seq::<char>::empty());
        assert(s.drop_first() =~= Seq::<char>::empty());
        assert(utf16_encode(s) =~= utf16_units(s[0]) + utf16_encode(s.drop_first()));
    } else {
        lemma_encode_first(s.drop_last());
        assert(s.drop_last().drop_first() =~= s.drop_first().drop_last());
        assert(s.drop_first().last() == s.last());
        assert(utf16_encode(s) =~= utf16_units(s[0]) + utf16_encode(s.drop_first()));
    }
}

pub proof fn lemma_decode_units(c: char, rest: Seq<u16>)
    ensures
        utf16_decode(utf16_units(c) + rest) == seq![c] + utf16_decode(rest),
{
    let v = c as u32;
    let u = utf16_units(c) + rest;
    if v < 0x10000 {
        assert(u[0] == v as u16);
        assert(!is_high_surrogate(u[0]) && !is_low_surrogate(u[0]));
        assert(u.drop_first() =~= rest);
        assert(((u[0] as u32) as char) == c);
    } else {
        let w = v - 0x10000;
        vstd::arithmetic::div_mod::lemma_fundamental_div_mod(w as int, 0x400);
        vstd::arithmetic::div_mod::lemma_mod_pos_bound(w as int, 0x400);
        let q = w / 0x400;
        let r = w % 0x400;
        assert(q <= 0x3FF);
        assert(u[0] == (0xD800 + q) as u16);
        assert(u[1] == (0xDC00 + r) as u16);
        assert(is_high_surrogate(u[0]) && is_low_surrogate(u[1]));
        assert(pair_value(u[0], u[1]) == v);
        assert(u.subrange(2, u.len() as int) =~= rest);
    }
}

/// Decoding the UTF-16 form of a character sequence gives the sequence back.
pub proof fn lemma_utf16_roundtrip(s: Seq<char>)
    ensures
        utf16_decode(utf16_encode(s)) == s,
    decreases s.len(),
{
    if s.len() > 0 {
        lemma_encode_first(s);
        lemma_decode_units(s[0], utf16_encode(s.drop_first()));
        lemma_utf16_roundtrip(s.drop_first());
        assert(seq![s[0]] + s.drop_first() =~= s);
    }
}

pub proof fn lemma_units_nonzero(c: char)
    requires
        c != '\0',
    ensures
        forall|k: int| 0 <= k < utf16_units(c).len() ==> #[trigger] utf16_units(c)[k] != 0,
{
    let v = c as u32;
    assert(v != 0) by {
        if v == 0 {
            assert(v as char == c);
        }
    }
    if v >= 0x10000 {
        vstd::arithmetic::div_mod::lemma_mod_pos_bound((v - 0x10000) as int, 0x400);
    }
}

pub proof fn lemma_encode_no_nul(s: Seq<char>)
    requires
        forall|i: int| 0 <= i < s.len() ==> #[trigger] s[i] != '\0',
    ensures
        forall|j: int| 0 <= j < utf16_encode(s).len() ==> #[trigger] utf16_encode(s)[j] != 0,
    decreases s.len(),
{
    if s.len() > 0 {
        let t = s.drop_last();
        assert forall|i: int| 0 <= i < t.len() implies #[trigger] t[i] != '\0' by {
            assert(t[i] == s[i]);
        }
        lemma_encode_no_nul(t);
        let c = s.last();
        assert(c != '\0');
        lemma_units_nonzero(c);
        assert forall|j: int| 0 <= j < utf16_encode(s).len() implies #[trigger] utf16_encode(s)[j]
            != 0 by {
            if j >= utf16_encode(t).len() {
                let k = j - utf16_encode(t).len();
                assert(utf16_encode(s)[j] == utf16_units(c)[k]);
            } else {
                assert(utf16_encode(s)[j] == utf16_encode(t)[j]);
            }
        }
    }
}

/// Reading back the wide form of a string without NUL characters gives the
/// string with surrounding whitespace removed (`None` when nothing is left).
pub proof fn lemma_wide_text_of_to_wide(s: Seq<char>)
    requires
        forall|i: int| 0 <= i < s.len() ==> #[trigger] s[i] != '\0',
    ensures
        wide_text(utf16_encode(s).push(0)) == (if trim(s).len() == 0 {
            None
        } else {
            Some(trim(s))
        }),
{
    let e = utf16_encode(s);
    lemma_encode_no_nul(s);
    let u = e.push(0);
    assert forall|j: int| 0 <= j < e.len() implies #[trigger] u[j] != 0 by {
        assert(u[j] == e[j]);
    }
    lemma_before_nul(u, e.len() as int);
    assert(u.subrange(0, e.len() as int) =~= e);
    lemma_utf16_roundtrip(s);
}

} // verus!
