//! Stable sorting by a text.

use vstd::prelude::*;

use crate::text::{not_after, text_le, texts};

verus! {

/// Whether `order` lists the positions of `keys`, each once, such that the
/// keys ascend and equal keys stay in the order they had.
pub open spec fn is_order(order: Seq<int>, keys: Seq<Seq<char>>) -> bool {
    &&& order.len() == keys.len()
    &&& forall|i: int| 0 <= i < order.len() ==> 0 <= #[trigger] order[i] < keys.len()
    &&& forall|i: int, j: int|
        0 <= i < j < order.len() ==> comes_first(keys, #[trigger] order[i], #[trigger] order[j])
}

/// Whether the key at `a` goes before the key at `b`: it is smaller, or equal
/// and earlier.
pub open spec fn comes_first(keys: Seq<Seq<char>>, a: int, b: int) -> bool {
    text_le(keys[a], keys[b]) && (text_le(keys[b], keys[a]) ==> a < b)
}

/// Whether `output` is `input` sorted by `keys`, equal keys in the order they
/// had.
pub open spec fn is_sorted_by<T>(input: Seq<T>, keys: Seq<Seq<char>>, output: Seq<T>) -> bool {
    exists|order: Seq<int>| #[trigger]
        is_order(order, keys) && output == Seq::new(order.len(), |i: int| input[order[i]])
}

proof fn lemma_not_after_itself(a: Seq<char>)
    ensures
        text_le(a, a),
    decreases a.len(),
{
    if a.len() > 0 {
        lemma_not_after_itself(a.drop_first());
    }
}

/// Texts are ordered in one way only: any two can be compared, the order is
/// transitive, and two texts that are not after each other are the same.
pub proof fn law_text_order(a: Seq<char>, b: Seq<char>, c: Seq<char>)
    ensures
        text_le(a, a),
        text_le(a, b) || text_le(b, a),
        text_le(a, b) && text_le(b, c) ==> text_le(a, c),
        text_le(a, b) && text_le(b, a) ==> a == b,
    decreases a.len() + b.len() + c.len(),
{
    lemma_not_after_itself(a);
    if a.len() > 0 && b.len() > 0 && c.len() > 0 {
        law_text_order(a.drop_first(), b.drop_first(), c.drop_first());
    } else if a.len() > 0 && b.len() > 0 {
        law_text_order(a.drop_first(), b.drop_first(), c);
    }
    if text_le(a, b) && text_le(b, a) {
        if a.len() > 0 && b.len() > 0 {
            assert(a =~= seq![a.first()] + a.drop_first());
            assert(b =~= seq![b.first()] + b.drop_first());
        } else {
            assert(a =~= b);
        }
    }
}

/// Sorts items by the texts in `keys`, one for each item; items with equal
/// texts stay in the order they had.
pub fn sort_by_keys<T>(items: Vec<T>, keys: Vec<String>) -> (r: Vec<T>)
    requires
        items@.len() == keys@.len(),
    ensures
        is_sorted_by(items@, texts(keys@), r@),
{
    let ghost input = items@;
    let ghost words = texts(keys@);
    let mut out: Vec<T> = Vec::new();
    let mut sorted: Vec<String> = Vec::new();
    let ghost mut order: Seq<int> = seq![];
    let mut n: usize = 0;
    let total: usize = keys.len();
    for item in it: items
        invariant
            it.seq() == input,
            n == it.index(),
            input.len() == keys@.len() == total,
            words == texts(keys@),
            is_order(order, words.take(n as int)),
            out@ == Seq::new(order.len(), |i: int| input[order[i]]),
            texts(sorted@) == Seq::new(order.len(), |i: int| words[order[i]]),
    {
        let key: String = keys[n].clone();
        let mut at: usize = sorted.len();
        proof {
            assert(sorted@.len() == texts(sorted@).len());
        }
        while at > 0 && !not_after(sorted[at - 1].as_str(), key.as_str())
            invariant
                at <= sorted@.len(),
                sorted@.len() == n,
                forall|j: int|
                    at <= j < sorted@.len() ==> !text_le((#[trigger] sorted@[j])@, key@),
            decreases at,
        {
            at = at - 1;
        }
        proof {
            let before = order;
            let old_words = words.take(n as int);
            let new_words = words.take(n + 1);
            assert forall|j: int| 0 <= j < n implies (#[trigger] sorted@[j])@ == words[before[j]] by {
                assert(texts(sorted@)[j] == sorted@[j]@);
            }
            order = order.insert(at as int, n as int);
            assert forall|i: int, j: int| 0 <= i < j < order.len() implies comes_first(
                new_words,
                #[trigger] order[i],
                #[trigger] order[j],
            ) by {
                let a = if i < at { i } else { i - 1 };
                let b = if j < at { j } else { j - 1 };
                if i != at && j != at {
                    assert(comes_first(old_words, before[a], before[b]));
                } else if j == at {
                    // items before the place are not after the new one
                    assert(sorted@[i]@ == words[before[i]]);
                    if i < at - 1 {
                        assert(comes_first(old_words, before[i], before[at - 1]));
                        law_text_order(words[before[i]], words[before[at - 1]], key@);
                    }
                    assert(sorted@[at - 1]@ == words[before[at - 1]]);
                } else {
                    assert(!text_le(sorted@[b]@, key@));
                    law_text_order(key@, sorted@[b]@, key@);
                }
            }
            assert forall|i: int| 0 <= i < order.len() implies 0 <= #[trigger] order[i]
                < new_words.len() by {
                let a = if i < at { i } else { i - 1 };
                if i != at {
                    assert(0 <= before[a] < old_words.len());
                }
            }
            assert(is_order(order, new_words));
        }
        let ghost out_before = out@;
        let ghost sorted_before = sorted@;
        out.insert(at, item);
        sorted.insert(at, key);
        n = n + 1;
        proof {
            assert(out@ =~= Seq::new(order.len(), |i: int| input[order[i]]));
            assert(texts(sorted@) =~= Seq::new(order.len(), |i: int| words[order[i]])) by {
                assert forall|i: int| 0 <= i < order.len() implies #[trigger] texts(sorted@)[i]
                    == words[order[i]] by {
                    let a = if i < at { i } else { i - 1 };
                    if i != at {
                        assert(texts(sorted_before)[a] == sorted_before[a]@);
                    }
                }
            }
        }
    }
    assert(words.take(n as int) =~= words);
    out
}

/// A sorted list holds the same items as before, each as often.
pub proof fn law_sorting_keeps_the_items<T>(
    input: Seq<T>,
    keys: Seq<Seq<char>>,
    output: Seq<T>,
)
    requires
        input.len() == keys.len(),
        is_sorted_by(input, keys, output),
    ensures
        output.to_multiset() == input.to_multiset(),
{
    let order = choose|order: Seq<int>| #[trigger]
        is_order(order, keys) && output == Seq::new(order.len(), |i: int| input[order[i]]);
    assert forall|i: int, j: int| 0 <= i < order.len() && 0 <= j < order.len() && i != j implies
        order[i] != order[j] by {
        law_text_order(keys[order[i]], keys[order[j]], keys[order[i]]);
        if i < j {
            assert(comes_first(keys, order[i], order[j]));
        } else {
            assert(comes_first(keys, order[j], order[i]));
        }
    }
    lemma_permuted(input, order);
    assert(output =~= Seq::new(order.len(), |i: int| input[order[i]]));
}

proof fn lemma_permuted<T>(input: Seq<T>, order: Seq<int>)
    requires
        order.len() == input.len(),
        forall|i: int| 0 <= i < order.len() ==> 0 <= #[trigger] order[i] < input.len(),
        forall|i: int, j: int|
            0 <= i < order.len() && 0 <= j < order.len() && i != j ==> order[i] != order[j],
    ensures
        Seq::new(order.len(), |i: int| input[order[i]]).to_multiset() == input.to_multiset(),
    decreases input.len(),
{
    broadcast use vstd::seq_lib::group_to_multiset_ensures;

    let output = Seq::new(order.len(), |i: int| input[order[i]]);
    if input.len() == 0 {
        assert(output =~= input);
    } else {
        let last = input.len() - 1;
        let gone = order.last();
        // the item that goes last is taken out, and the positions after it
        // move up by one
        let rest = input.remove(gone);
        let moved = Seq::new(
            last as nat,
            |i: int| if order[i] > gone { order[i] - 1 } else { order[i] },
        );
        assert forall|i: int| 0 <= i < moved.len() implies 0 <= #[trigger] moved[i]
            < rest.len() by {
            assert(order[i] != order[last]);
        }
        assert forall|i: int, j: int|
            0 <= i < moved.len() && 0 <= j < moved.len() && i != j implies moved[i]
            != moved[j] by {
            assert(order[i] != order[j]);
            assert(order[i] != order[last]);
            assert(order[j] != order[last]);
        }
        lemma_permuted(rest, moved);
        let shorter = Seq::new(moved.len(), |i: int| rest[moved[i]]);
        assert(output =~= shorter.push(input[gone])) by {
            assert forall|i: int| 0 <= i < output.len() implies output[i] == shorter.push(
                input[gone],
            )[i] by {
                if i < last {
                    assert(order[i] != order[last]);
                }
            }
        }
        assert(input =~= rest.insert(gone, input[gone]));
        assert(input.to_multiset() =~= rest.to_multiset().insert(input[gone]));
    }
}

/// In a sorted list the keys ascend: `keys` of the input are found again in
/// `sorted_keys`, each beside its item, and none comes before a smaller one.
/// Items with the same key stay in the order they had.
pub proof fn law_sorted_keys_ascend<T>(input: Seq<T>, keys: Seq<Seq<char>>, output: Seq<T>) -> (from:
    Seq<int>)
    requires
        input.len() == keys.len(),
        is_sorted_by(input, keys, output),
    ensures
        from.len() == output.len(),
        output.len() == input.len(),
        forall|i: int|
            0 <= i < output.len() ==> 0 <= #[trigger] from[i] < input.len() && output[i]
                == input[from[i]],
        forall|i: int, j: int|
            0 <= i < j < output.len() ==> text_le(keys[#[trigger] from[i]], keys[#[trigger] from[j]]),
        forall|i: int, j: int|
            0 <= i < j < output.len() && keys[#[trigger] from[i]] == keys[#[trigger] from[j]]
                ==> from[i] < from[j],
{
    let order = choose|order: Seq<int>| #[trigger]
        is_order(order, keys) && output == Seq::new(order.len(), |i: int| input[order[i]]);
    assert forall|i: int, j: int|
        0 <= i < j < output.len() && keys[#[trigger] order[i]] == keys[#[trigger] order[j]] implies
        order[i] < order[j] by {
        assert(comes_first(keys, order[i], order[j]));
        lemma_not_after_itself(keys[order[i]]);
    }
    assert forall|i: int, j: int| 0 <= i < j < output.len() implies text_le(
        keys[#[trigger] order[i]],
        keys[#[trigger] order[j]],
    ) by {
        assert(comes_first(keys, order[i], order[j]));
    }
    order
}

/// The first character in which two texts differ decides which comes first, and
/// a text comes before any that goes on after it.
pub proof fn law_first_difference_decides(same: Seq<char>, a: Seq<char>, b: Seq<char>)
    ensures
        text_le(same, same + b),
        b.len() > 0 ==> !text_le(same + b, same),
        a.len() > 0 && b.len() > 0 && a[0] < b[0] ==> text_le(same + a, same + b) && !text_le(
            same + b,
            same + a,
        ),
    decreases same.len(),
{
    if same.len() == 0 {
        assert(same + a =~= a);
        assert(same + b =~= b);
    } else {
        let less = same.drop_first();
        law_first_difference_decides(less, a, b);
        assert((same + a).drop_first() =~= less + a);
        assert((same + b).drop_first() =~= less + b);
    }
}

}
