use vstd::prelude::*;

use crate::util::text::chars_of;

verus! {

/// Whether the title `a` stands before the title `b` or equals it. Titles are
/// ordered character by character, each character by its code point, and a
/// title stands before every longer title that begins with it.
pub open spec fn title_le(a: Seq<char>, b: Seq<char>) -> bool
    decreases a.len(),
{
    if a.len() == 0 {
        true
    } else if b.len() == 0 {
        false
    } else if a[0] != b[0] {
        (a[0] as u32) < (b[0] as u32)
    } else {
        title_le(a.drop_first(), b.drop_first())
    }
}

/// Whether `a` stands before `b` or equals it.
pub fn precedes(a: &Vec<char>, b: &Vec<char>) -> (r: bool)
    ensures
        r == title_le(a@, b@),
{
    let mut i: usize = 0;
    assert(a@.skip(0) =~= a@);
    assert(b@.skip(0) =~= b@);
    while i < a.len() && i < b.len()
        invariant
            i <= a.len(),
            i <= b.len(),
            title_le(a@, b@) == title_le(a@.skip(i as int), b@.skip(i as int)),
        decreases a.len() - i,
    {
        assert(a@.skip(i as int).drop_first() =~= a@.skip(i + 1));
        assert(b@.skip(i as int).drop_first() =~= b@.skip(i + 1));
        if a[i] != b[i] {
            return (a[i] as u32) < (b[i] as u32);
        }
        i += 1;
    }
    i == a.len()
}

/// `order` with the position `k` put in: behind the last position whose title
/// does not stand after that of `k`.
pub open spec fn placed(keys: Seq<Seq<char>>, order: Seq<usize>, k: usize) -> Seq<usize>
    decreases order.len(),
{
    if order.len() == 0 {
        seq![k]
    } else if title_le(keys[order.last() as int], keys[k as int]) {
        order.push(k)
    } else {
        placed(keys, order.drop_last(), k).push(order.last())
    }
}

/// The positions of `keys` in the order of their titles. Positions with the
/// same title keep their order.
pub open spec fn title_order(keys: Seq<Seq<char>>) -> Seq<usize>
    decreases keys.len(),
{
    if keys.len() == 0 {
        Seq::empty()
    } else {
        placed(keys, title_order(keys.drop_last()), (keys.len() - 1) as usize)
    }
}

/// `items` taken in the order of the positions `order`.
pub open spec fn arranged<T>(items: Seq<T>, order: Seq<usize>) -> Seq<T> {
    order.map_values(|i: usize| items[i as int])
}

/// Putting a position in adds one position and keeps all within the keys.
proof fn lemma_placed_bounds(keys: Seq<Seq<char>>, order: Seq<usize>, k: usize)
    requires
        k < keys.len(),
        forall|i: int| 0 <= i < order.len() ==> (#[trigger] order[i]) < keys.len(),
    ensures
        placed(keys, order, k).len() == order.len() + 1,
        forall|i: int|
            0 <= i < placed(keys, order, k).len() ==> (#[trigger] placed(keys, order, k)[i])
                < keys.len(),
    decreases order.len(),
{
    if order.len() > 0 && !title_le(keys[order.last() as int], keys[k as int]) {
        lemma_placed_bounds(keys, order.drop_last(), k);
    }
}

/// The positions of `keys` in the order of their titles.
pub fn order_by_title(keys: &Vec<Vec<char>>) -> (order: Vec<usize>)
    ensures
        order@ == title_order(keys@.map_values(|k: Vec<char>| k@)),
        order.len() == keys.len(),
        forall|i: int| 0 <= i < order.len() ==> (#[trigger] order@[i]) < keys.len(),
{
    let ghost all = keys@.map_values(|k: Vec<char>| k@);
    let mut order: Vec<usize> = Vec::new();
    let mut k: usize = 0;
    assert(all.take(0) =~= Seq::<Seq<char>>::empty());
    while k < keys.len()
        invariant
            k <= keys.len(),
            all == keys@.map_values(|k: Vec<char>| k@),
            order@ == title_order(all.take(k as int)),
            order.len() == k,
            forall|i: int| 0 <= i < order.len() ==> (#[trigger] order@[i]) < k,
        decreases keys.len() - k,
    {
        let ghost before = order@;
        let ghost now = all.take(k + 1);
        assert(now.drop_last() =~= all.take(k as int));
        let mut p: usize = order.len();
        assert(before.take(p as int) =~= before);
        assert(before.skip(p as int) =~= Seq::<usize>::empty());
        assert(placed(now, before, k) + Seq::<usize>::empty() =~= placed(now, before, k));
        while p > 0 && !precedes(&keys[order[p - 1]], &keys[k])
            invariant
                p <= order.len(),
                k < keys.len(),
                order@ == before,
                all == keys@.map_values(|k: Vec<char>| k@),
                now == all.take(k + 1),
                forall|i: int| 0 <= i < order.len() ==> (#[trigger] order@[i]) < k,
                placed(now, before, k) == placed(now, before.take(p as int), k) + before.skip(
                    p as int,
                ),
            decreases p,
        {
            assert(before.take(p as int).drop_last() =~= before.take(p - 1));
            assert(before.take(p as int).last() == before[p - 1]);
            assert(placed(now, before.take(p - 1), k).push(before[p - 1]) + before.skip(p as int)
                =~= placed(now, before.take(p - 1), k) + before.skip(p - 1));
            p -= 1;
        }
        proof {
            if p > 0 {
                assert(before.take(p as int).last() == before[p - 1]);
            }
            assert(placed(now, before.take(p as int), k) == before.take(p as int).push(k));
            assert(before.take(p as int).push(k) + before.skip(p as int) =~= before.insert(
                p as int,
                k,
            ));
        }
        order.insert(p, k);
        k += 1;
    }
    assert(all.take(keys.len() as int) =~= all);
    order
}

/// The characters of each title.
pub fn title_keys(titles: &Vec<String>) -> (keys: Vec<Vec<char>>)
    ensures
        keys@.map_values(|k: Vec<char>| k@) == titles@.map_values(|t: String| t@),
{
    let mut keys: Vec<Vec<char>> = Vec::new();
    let mut i: usize = 0;
    while i < titles.len()
        invariant
            i <= titles.len(),
            keys.len() == i,
            forall|j: int| 0 <= j < i ==> keys@[j]@ == titles@[j]@,
        decreases titles.len() - i,
    {
        keys.push(chars_of(titles[i].as_str()));
        i += 1;
    }
    assert(keys@.map_values(|k: Vec<char>| k@) =~= titles@.map_values(|t: String| t@));
    keys
}

/// Every title stands before itself or equals it.
pub proof fn law_title_le_reflexive(a: Seq<char>)
    ensures
        title_le(a, a),
    decreases a.len(),
{
    if a.len() > 0 {
        law_title_le_reflexive(a.drop_first());
    }
}

/// Of two titles one stands before the other, or they are equal.
pub proof fn law_title_le_total(a: Seq<char>, b: Seq<char>)
    ensures
        title_le(a, b) || title_le(b, a),
    decreases a.len(),
{
    if a.len() > 0 && b.len() > 0 {
        if a[0] == b[0] {
            law_title_le_total(a.drop_first(), b.drop_first());
        } else {
            let x: char = a[0];
            let y: char = b[0];
            vstd::utf8::char_u32_cast(x, x as u32);
            vstd::utf8::char_u32_cast(y, y as u32);
        }
    }
}

/// The order of titles is transitive.
pub proof fn law_title_le_transitive(a: Seq<char>, b: Seq<char>, c: Seq<char>)
    requires
        title_le(a, b),
        title_le(b, c),
    ensures
        title_le(a, c),
    decreases a.len(),
{
    if a.len() > 0 && b.len() > 0 && c.len() > 0 && a[0] == b[0] && b[0] == c[0] {
        law_title_le_transitive(a.drop_first(), b.drop_first(), c.drop_first());
    }
}

/// Two titles of which each stands before the other or equals it are equal.
pub proof fn law_title_le_antisymmetric(a: Seq<char>, b: Seq<char>)
    requires
        title_le(a, b),
        title_le(b, a),
    ensures
        a == b,
    decreases a.len(),
{
    if a.len() > 0 && b.len() > 0 {
        law_title_le_antisymmetric(a.drop_first(), b.drop_first());
        assert(a =~= seq![a[0]] + a.drop_first());
        assert(b =~= seq![b[0]] + b.drop_first());
    } else {
        assert(a =~= b);
    }
}

/// Whether the positions `order` run by title: no title stands after one that
/// follows it.
pub open spec fn runs_by_title(keys: Seq<Seq<char>>, order: Seq<usize>) -> bool {
    forall|i: int, j: int|
        0 <= i < j < order.len() ==> title_le(
            keys[(#[trigger] order[i]) as int],
            keys[(#[trigger] order[j]) as int],
        )
}

/// Whether positions with the same title keep their order in `order`.
pub open spec fn keeps_ties(keys: Seq<Seq<char>>, order: Seq<usize>) -> bool {
    forall|i: int, j: int|
        0 <= i < j < order.len() && title_le(
            keys[(#[trigger] order[j]) as int],
            keys[(#[trigger] order[i]) as int],
        ) ==> order[i] < order[j]
}

/// Putting the greatest position into an order that runs by title, keeps ties
/// and repeats nothing gives such an order again, made of the same positions
/// and the new one.
proof fn lemma_placed(keys: Seq<Seq<char>>, order: Seq<usize>, k: usize)
    requires
        k < keys.len(),
        forall|i: int| 0 <= i < order.len() ==> (#[trigger] order[i]) < k,
        runs_by_title(keys, order),
        keeps_ties(keys, order),
        order.no_duplicates(),
    ensures
        placed(keys, order, k).len() == order.len() + 1,
        forall|i: int|
            0 <= i < placed(keys, order, k).len() ==> (#[trigger] placed(keys, order, k)[i]) == k
                || exists|m: int| 0 <= m < order.len() && order[m] == placed(keys, order, k)[i],
        runs_by_title(keys, placed(keys, order, k)),
        keeps_ties(keys, placed(keys, order, k)),
        placed(keys, order, k).no_duplicates(),
    decreases order.len(),
{
    let out = placed(keys, order, k);
    if order.len() == 0 {
    } else if title_le(keys[order.last() as int], keys[k as int]) {
        assert forall|i: int, j: int| 0 <= i < j < out.len() implies title_le(
            keys[(#[trigger] out[i]) as int],
            keys[(#[trigger] out[j]) as int],
        ) by {
            if j == order.len() {
                if i < order.len() - 1 {
                    assert(title_le(keys[order[i] as int], keys[order[order.len() - 1] as int]));
                    law_title_le_transitive(
                        keys[order[i] as int],
                        keys[order.last() as int],
                        keys[k as int],
                    );
                }
            } else {
                assert(out[i] == order[i] && out[j] == order[j]);
            }
        }
        assert forall|i: int| 0 <= i < out.len() implies (#[trigger] out[i]) == k || exists|
            m: int,
        |
            0 <= m < order.len() && order[m] == out[i] by {
            if i < order.len() {
                assert(order[i] == out[i]);
            }
        }
        assert(keeps_ties(keys, out)) by {
            assert forall|i: int, j: int|
                0 <= i < j < out.len() && title_le(
                    keys[(#[trigger] out[j]) as int],
                    keys[(#[trigger] out[i]) as int],
                ) implies out[i] < out[j] by {
                if j == order.len() {
                    assert(out[i] == order[i]);
                } else {
                    assert(out[i] == order[i] && out[j] == order[j]);
                }
            }
        }
        assert(out.no_duplicates()) by {
            assert forall|i: int, j: int| 0 <= i < out.len() && 0 <= j < out.len() && i != j implies out[i]
                != out[j] by {
                if i < order.len() {
                    assert(out[i] == order[i]);
                }
                if j < order.len() {
                    assert(out[j] == order[j]);
                }
            }
        }
    } else {
        let shorter = order.drop_last();
        let last = order.last();
        assert forall|i: int| 0 <= i < shorter.len() implies (#[trigger] shorter[i]) < k by {
            assert(shorter[i] == order[i]);
        }
        assert(runs_by_title(keys, shorter)) by {
            assert forall|i: int, j: int| 0 <= i < j < shorter.len() implies title_le(
                keys[(#[trigger] shorter[i]) as int],
                keys[(#[trigger] shorter[j]) as int],
            ) by {
                assert(shorter[i] == order[i] && shorter[j] == order[j]);
            }
        }
        assert(keeps_ties(keys, shorter)) by {
            assert forall|i: int, j: int|
                0 <= i < j < shorter.len() && title_le(
                    keys[(#[trigger] shorter[j]) as int],
                    keys[(#[trigger] shorter[i]) as int],
                ) implies shorter[i] < shorter[j] by {
                assert(shorter[i] == order[i] && shorter[j] == order[j]);
            }
        }
        assert(shorter.no_duplicates()) by {
            assert forall|i: int, j: int|
                0 <= i < shorter.len() && 0 <= j < shorter.len() && i != j implies shorter[i]
                != shorter[j] by {
                assert(shorter[i] == order[i] && shorter[j] == order[j]);
            }
        }
        lemma_placed(keys, shorter, k);
        let inner = placed(keys, shorter, k);
        assert(out == inner.push(last));
        law_title_le_total(keys[last as int], keys[k as int]);
        assert(order[order.len() - 1] == last);
        assert forall|i: int| 0 <= i < out.len() implies (#[trigger] out[i]) == k || exists|
            m: int,
        |
            0 <= m < order.len() && order[m] == out[i] by {
            if i < inner.len() {
                assert(out[i] == inner[i]);
                if inner[i] != k {
                    let m = choose|m: int| 0 <= m < shorter.len() && shorter[m] == inner[i];
                    assert(order[m] == shorter[m]);
                }
            } else {
                assert(order[order.len() - 1] == out[i]);
            }
        }
        assert forall|i: int, j: int| 0 <= i < j < out.len() implies title_le(
            keys[(#[trigger] out[i]) as int],
            keys[(#[trigger] out[j]) as int],
        ) by {
            if j == inner.len() {
                assert(out[i] == inner[i]);
                if inner[i] != k {
                    let m = choose|m: int| 0 <= m < shorter.len() && shorter[m] == inner[i];
                    assert(order[m] == shorter[m]);
                    assert(title_le(keys[order[m] as int], keys[order[order.len() - 1] as int]));
                }
            } else {
                assert(out[i] == inner[i] && out[j] == inner[j]);
            }
        }
        assert(keeps_ties(keys, out)) by {
            assert forall|i: int, j: int|
                0 <= i < j < out.len() && title_le(
                    keys[(#[trigger] out[j]) as int],
                    keys[(#[trigger] out[i]) as int],
                ) implies out[i] < out[j] by {
                if j == inner.len() {
                    assert(out[i] == inner[i]);
                    if inner[i] != k {
                        let m = choose|m: int| 0 <= m < shorter.len() && shorter[m] == inner[i];
                        assert(order[m] == shorter[m]);
                        assert(order[order.len() - 1] == last);
                    }
                } else {
                    assert(out[i] == inner[i] && out[j] == inner[j]);
                }
            }
        }
        assert(out.no_duplicates()) by {
            assert forall|i: int, j: int| 0 <= i < out.len() && 0 <= j < out.len() && i != j implies out[i]
                != out[j] by {
                if i < inner.len() && j < inner.len() {
                    assert(out[i] == inner[i] && out[j] == inner[j]);
                } else {
                    let other = if i < inner.len() {
                        i
                    } else {
                        j
                    };
                    assert(out[other] == inner[other]);
                    if inner[other] != k {
                        let m = choose|m: int| 0 <= m < shorter.len() && shorter[m] == inner[other];
                        assert(order[m] == shorter[m]);
                    }
                }
            }
        }
    }
}

/// The order of titles is a sorting: `title_order` holds every position of
/// `keys` once, the titles at its positions run from the first to the last
/// (no title stands after one that follows it), and positions with the same
/// title keep their order.
pub proof fn law_title_order_sorts(keys: Seq<Seq<char>>)
    requires
        keys.len() <= usize::MAX,
    ensures
        title_order(keys).len() == keys.len(),
        forall|i: int| 0 <= i < keys.len() ==> (#[trigger] title_order(keys)[i]) < keys.len(),
        title_order(keys).no_duplicates(),
        runs_by_title(keys, title_order(keys)),
        keeps_ties(keys, title_order(keys)),
    decreases keys.len(),
{
    if keys.len() > 0 {
        let shorter = keys.drop_last();
        let order = title_order(shorter);
        let k = (keys.len() - 1) as usize;
        law_title_order_sorts(shorter);
        assert(runs_by_title(keys, order)) by {
            assert forall|i: int, j: int| 0 <= i < j < order.len() implies title_le(
                keys[(#[trigger] order[i]) as int],
                keys[(#[trigger] order[j]) as int],
            ) by {
                assert(shorter[order[i] as int] == keys[order[i] as int]);
                assert(shorter[order[j] as int] == keys[order[j] as int]);
            }
        }
        assert(keeps_ties(keys, order)) by {
            assert forall|i: int, j: int|
                0 <= i < j < order.len() && title_le(
                    keys[(#[trigger] order[j]) as int],
                    keys[(#[trigger] order[i]) as int],
                ) implies order[i] < order[j] by {
                assert(shorter[order[i] as int] == keys[order[i] as int]);
                assert(shorter[order[j] as int] == keys[order[j] as int]);
            }
        }
        lemma_placed(keys, order, k);
        lemma_placed_bounds(keys, order, k);
    }
}

} // verus!
