//! The order in which a folder's entries are shown: entries with a custom
//! order first, by that order; then the others by file name. Ties keep the
//! order in which the entries were listed.
use vstd::prelude::*;
use crate::text::{chars_lt, lex_lt, lemma_lex_irreflexive, lemma_lex_transitive, lemma_lex_total};

verus! {

/// Sort key of an entry: its custom order, if any, and its file name.
pub type Key = (Option<i32>, Seq<char>);

/// `a` sorts strictly before `b`.
pub open spec fn key_before(a: Key, b: Key) -> bool {
    match (a.0, b.0) {
        (Some(x), Some(y)) => x < y,
        (Some(_), None) => true,
        (None, Some(_)) => false,
        (None, None) => lex_lt(a.1, b.1),
    }
}

/// Neither key sorts before the other.
pub open spec fn key_tied(a: Key, b: Key) -> bool {
    !key_before(a, b) && !key_before(b, a)
}

pub proof fn lemma_key_irreflexive(a: Key)
    ensures
        !key_before(a, a),
{
    lemma_lex_irreflexive(a.1);
}

pub proof fn lemma_key_asymmetric(a: Key, b: Key)
    ensures
        key_before(a, b) ==> !key_before(b, a),
{
    if key_before(a, b) && key_before(b, a) {
        if a.0 is None && b.0 is None {
            lemma_lex_transitive(a.1, b.1, a.1);
            lemma_lex_irreflexive(a.1);
        }
    }
}

/// Not sorting before is transitive.
pub proof fn lemma_key_not_before_transitive(a: Key, b: Key, c: Key)
    requires
        !key_before(a, b),
        !key_before(b, c),
    ensures
        !key_before(a, c),
{
    if a.0 is None && b.0 is None && c.0 is None {
        lemma_lex_total(a.1, b.1);
        lemma_lex_total(b.1, c.1);
        if lex_lt(a.1, c.1) {
            if lex_lt(b.1, a.1) {
                lemma_lex_transitive(b.1, a.1, c.1);
                if lex_lt(c.1, b.1) {
                    lemma_lex_transitive(b.1, c.1, b.1);
                    lemma_lex_irreflexive(b.1);
                } else {
                    assert(c.1 == b.1);
                    lemma_lex_irreflexive(b.1);
                }
            } else {
                assert(a.1 == b.1);
                if lex_lt(c.1, b.1) {
                    lemma_lex_transitive(a.1, c.1, b.1);
                    lemma_lex_irreflexive(a.1);
                } else {
                    assert(c.1 == b.1);
                    lemma_lex_irreflexive(a.1);
                }
            }
        }
    }
}

/// `perm` lists every index below `n` exactly once.
pub open spec fn is_permutation(perm: Seq<usize>, n: int) -> bool {
    &&& perm.len() == n
    &&& forall|i: int| 0 <= i < n ==> (#[trigger] perm[i]) < n
    &&& forall|i: int, j: int| 0 <= i < j < n ==> #[trigger] perm[i] != #[trigger] perm[j]
}

/// Taking the keys in the order `perm` gives them sorted, and tied keys keep
/// their relative order from the input.
pub open spec fn is_stable_sorted(keys: Seq<Key>, perm: Seq<usize>) -> bool {
    &&& forall|a: int, b: int|
        0 <= a < b < perm.len() ==> !key_before(
            keys[#[trigger] perm[b] as int],
            keys[#[trigger] perm[a] as int],
        )
    &&& forall|a: int, b: int|
        0 <= a < b < perm.len() && key_tied(keys[perm[a] as int], keys[perm[b] as int]) ==> (
        #[trigger] perm[a]) < (#[trigger] perm[b])
}

pub open spec fn keys_view(keys: Seq<(Option<i32>, Vec<char>)>) -> Seq<Key> {
    keys.map_values(|k: (Option<i32>, Vec<char>)| (k.0, k.1@))
}

fn before_exec(a: &(Option<i32>, Vec<char>), b: &(Option<i32>, Vec<char>)) -> (r: bool)
    ensures
        r == key_before((a.0, a.1@), (b.0, b.1@)),
{
    match (a.0, b.0) {
        (Some(x), Some(y)) => x < y,
        (Some(_), None) => true,
        (None, Some(_)) => false,
        (None, None) => chars_lt(&a.1, &b.1),
    }
}

/// The stable sorting permutation of `keys`: the positions of the keys in
/// display order.
pub fn sort_order(keys: &Vec<(Option<i32>, Vec<char>)>) -> (perm: Vec<usize>)
    ensures
        is_permutation(perm@, keys@.len() as int),
        is_stable_sorted(keys_view(keys@), perm@),
{
    let ghost kv = keys_view(keys@);
    let n = keys.len();
    let mut perm: Vec<usize> = Vec::new();
    let mut i: usize = 0;
    while i < n
        invariant
            n == keys@.len(),
            kv == keys_view(keys@),
            0 <= i <= n,
            is_permutation(perm@, i as int),
            is_stable_sorted(kv, perm@),
        decreases n - i,
    {
        let mut pos = perm.len();
        while pos > 0 && before_exec(&keys[i], &keys[perm[pos - 1]])
            invariant
                n == keys@.len(),
                kv == keys_view(keys@),
                0 <= i < n,
                perm@.len() == i,
                is_permutation(perm@, i as int),
                0 <= pos <= perm@.len(),
                forall|p: int|
                    pos <= p < perm@.len() ==> key_before(kv[i as int], kv[#[trigger] perm@[p] as int]),
            decreases pos,
        {
            pos = pos - 1;
        }
        let ghost old_perm = perm@;
        perm.insert(pos, i);
        proof {
            let np = perm@;
            assert(np == old_perm.insert(pos as int, i));
            let ki = kv[i as int];
            assert forall|q: int| 0 <= q < pos implies !key_before(ki, kv[#[trigger] old_perm[q] as int]) by {
                if pos > 0 {
                    let last = kv[old_perm[pos - 1] as int];
                    assert(!key_before(ki, last));
                    if q < pos - 1 {
                        assert(!key_before(last, kv[old_perm[q] as int]));
                        lemma_key_not_before_transitive(ki, last, kv[old_perm[q] as int]);
                    }
                }
            }
            assert forall|x: int| 0 <= x < i + 1 implies (#[trigger] np[x]) < i + 1 by {
                if x < pos {
                    assert(np[x] == old_perm[x]);
                } else if x > pos {
                    assert(np[x] == old_perm[x - 1]);
                }
            }
            assert forall|x: int, y: int| 0 <= x < y < i + 1 implies #[trigger] np[x]
                != #[trigger] np[y] by {
                if y < pos {
                    assert(np[x] == old_perm[x] && np[y] == old_perm[y]);
                } else if y == pos {
                    assert(np[x] == old_perm[x]);
                } else if x < pos {
                    assert(np[x] == old_perm[x] && np[y] == old_perm[y - 1]);
                } else if x == pos {
                    assert(np[y] == old_perm[y - 1]);
                } else {
                    assert(np[x] == old_perm[x - 1] && np[y] == old_perm[y - 1]);
                }
            }
            assert forall|a: int, b: int| 0 <= a < b < np.len() implies !key_before(
                kv[#[trigger] np[b] as int],
                kv[#[trigger] np[a] as int],
            ) by {
                if b < pos {
                    assert(np[a] == old_perm[a] && np[b] == old_perm[b]);
                } else if b == pos {
                    assert(np[a] == old_perm[a]);
                } else if a < pos {
                    assert(np[a] == old_perm[a] && np[b] == old_perm[b - 1]);
                    assert(!key_before(ki, kv[old_perm[a] as int]));
                    lemma_key_asymmetric(ki, kv[old_perm[b - 1] as int]);
                    lemma_key_not_before_transitive(kv[old_perm[b - 1] as int], ki, kv[old_perm[a] as int]);
                } else if a == pos {
                    assert(np[b] == old_perm[b - 1]);
                    lemma_key_asymmetric(ki, kv[old_perm[b - 1] as int]);
                } else {
                    assert(np[a] == old_perm[a - 1] && np[b] == old_perm[b - 1]);
                }
            }
            assert forall|a: int, b: int|
                0 <= a < b < np.len() && key_tied(kv[np[a] as int], kv[np[b] as int]) implies (
            #[trigger] np[a]) < (#[trigger] np[b]) by {
                if b < pos {
                    assert(np[a] == old_perm[a] && np[b] == old_perm[b]);
                } else if b == pos {
                    assert(np[a] == old_perm[a]);
                } else if a < pos {
                    assert(np[a] == old_perm[a] && np[b] == old_perm[b - 1]);
                } else if a == pos {
                    assert(np[b] == old_perm[b - 1]);
                } else {
                    assert(np[a] == old_perm[a - 1] && np[b] == old_perm[b - 1]);
                }
            }
        }
        i = i + 1;
    }
    perm
}


/// In display order, every entry with a custom order comes before every
/// entry without one; among entries with an order, smaller orders come
/// first; among entries without, file names ascend.
pub proof fn law_display_order(keys: Seq<Key>, perm: Seq<usize>, a: int, b: int)
    requires
        is_permutation(perm, keys.len() as int),
        is_stable_sorted(keys, perm),
        0 <= a < b < perm.len(),
    ensures
        keys[perm[b] as int].0 is Some ==> keys[perm[a] as int].0 is Some,
        (keys[perm[a] as int].0 is Some && keys[perm[b] as int].0 is Some) ==> keys[perm[a] as int].0.unwrap()
            <= keys[perm[b] as int].0.unwrap(),
        (keys[perm[a] as int].0 is None && keys[perm[b] as int].0 is None) ==> !lex_lt(
            keys[perm[b] as int].1,
            keys[perm[a] as int].1,
        ),
{
    assert(!key_before(keys[perm[b] as int], keys[perm[a] as int]));
}

} // verus!
