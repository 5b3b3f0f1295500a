//! Maps from text to values, kept in the order of their keys.

use crate::text::{self, chars_of, same_text};
use vstd::prelude::*;

verus! {

/// The order of texts: by the first character that differs, a prefix first.
pub open spec fn precedes(a: Seq<char>, b: Seq<char>) -> bool
    decreases a.len(),
{
    if b.len() == 0 {
        false
    } else if a.len() == 0 {
        true
    } else if a[0] != b[0] {
        a[0] < b[0]
    } else {
        precedes(a.drop_first(), b.drop_first())
    }
}

/// No text precedes itself.
pub proof fn lemma_precedes_irreflexive(a: Seq<char>)
    ensures
        !precedes(a, a),
    decreases a.len(),
{
    if a.len() > 0 {
        lemma_precedes_irreflexive(a.drop_first());
    }
}

/// Of two different texts one precedes the other.
pub proof fn lemma_precedes_total(a: Seq<char>, b: Seq<char>)
    ensures
        a == b || precedes(a, b) || precedes(b, a),
    decreases a.len(),
{
    if a.len() > 0 && b.len() > 0 && a[0] == b[0] {
        lemma_precedes_total(a.drop_first(), b.drop_first());
        if a.drop_first() == b.drop_first() {
            assert(a =~= seq![a[0]] + a.drop_first());
            assert(b =~= seq![b[0]] + b.drop_first());
        }
    } else if a.len() == 0 && b.len() == 0 {
        assert(a =~= b);
    }
}

/// The order is transitive.
pub proof fn lemma_precedes_transitive(a: Seq<char>, b: Seq<char>, c: Seq<char>)
    requires
        precedes(a, b),
        precedes(b, c),
    ensures
        precedes(a, c),
    decreases a.len(),
{
    if a.len() > 0 && a[0] == b[0] && b[0] == c[0] {
        lemma_precedes_transitive(a.drop_first(), b.drop_first(), c.drop_first());
    }
}

pub fn text_precedes(a: &str, b: &str) -> (yes: bool)
    ensures
        yes == precedes(a@, b@),
{
    let x = chars_of(a);
    let y = chars_of(b);
    let mut i: usize = 0;
    proof {
        assert(x@.skip(0) =~= x@);
        assert(y@.skip(0) =~= y@);
    }
    while i < x.len() && i < y.len()
        invariant
            i <= x@.len(),
            i <= y@.len(),
            x@ == a@,
            y@ == b@,
            precedes(a@, b@) == precedes(x@.skip(i as int), y@.skip(i as int)),
        decreases x.len() - i,
    {
        proof {
            assert(x@.skip(i as int)[0] == x@[i as int]);
            assert(y@.skip(i as int)[0] == y@[i as int]);
            assert(x@.skip(i as int).drop_first() =~= x@.skip(i + 1));
            assert(y@.skip(i as int).drop_first() =~= y@.skip(i + 1));
        }
        if x[i] != y[i] {
            return x[i] < y[i];
        }
        i = i + 1;
    }
    i == x.len() && i < y.len()
}

/// A text put among texts in order, behind all it does not precede.
pub open spec fn put_text(list: Seq<Seq<char>>, text: Seq<char>) -> Seq<Seq<char>>
    decreases list.len(),
{
    if list.len() > 0 && precedes(text, list.last()) {
        put_text(list.drop_last(), text).push(list.last())
    } else {
        list.push(text)
    }
}

/// Texts in their order.
pub open spec fn sorted(list: Seq<Seq<char>>) -> Seq<Seq<char>>
    decreases list.len(),
{
    if list.len() == 0 {
        Seq::empty()
    } else {
        put_text(sorted(list.drop_last()), list.last())
    }
}

proof fn lemma_put_text(list: Seq<Seq<char>>, text: Seq<char>, at: int)
    requires
        0 <= at <= list.len(),
        forall|i: int| at <= i < list.len() ==> precedes(text, #[trigger] list[i]),
        at > 0 ==> !precedes(text, list[at - 1]),
    ensures
        put_text(list, text) == list.insert(at, text),
    decreases list.len() - at,
{
    if at < list.len() {
        assert(precedes(text, list[list.len() - 1]));
        lemma_put_text(list.drop_last(), text, at);
        assert(list.drop_last().insert(at, text).push(list.last()) =~= list.insert(at, text));
    } else {
        assert(list.insert(at, text) =~= list.push(text));
    }
}

pub fn sort_texts(list: &Vec<String>) -> (result: Vec<String>)
    ensures
        text::texts(result@) == sorted(text::texts(list@)),
{
    let ghost all = text::texts(list@);
    let mut result: Vec<String> = Vec::new();
    let mut i: usize = 0;
    proof {
        assert(text::texts(result@) =~= Seq::empty());
        assert(all.take(0) =~= Seq::empty());
    }
    while i < list.len()
        invariant
            i <= list@.len(),
            all == text::texts(list@),
            text::texts(result@) == sorted(all.take(i as int)),
        decreases list.len() - i,
    {
        let ghost before = text::texts(result@);
        let mut at: usize = result.len();
        while at > 0 && text_precedes(list[i].as_str(), result[at - 1].as_str())
            invariant
                i < list@.len(),
                at <= result@.len(),
                before == text::texts(result@),
                forall|j: int| at <= j < before.len() ==> precedes(list@[i as int]@, #[trigger] before[j]),
            decreases at,
        {
            at = at - 1;
        }
        result.insert(at, list[i].as_str().to_owned());
        proof {
            assert(all.take(i + 1).drop_last() =~= all.take(i as int));
            assert(all.take(i + 1).last() == list@[i as int]@);
            lemma_put_text(before, list@[i as int]@, at as int);
            assert(text::texts(result@) =~= before.insert(at as int, list@[i as int]@));
        }
        i = i + 1;
    }
    proof {
        assert(all.take(i as int) =~= all);
    }
    result
}

/// Whether no text comes after one it precedes.
pub open spec fn in_order(list: Seq<Seq<char>>) -> bool {
    forall|i: int, j: int|
        0 <= i < j < list.len() ==> !precedes(#[trigger] list[j], #[trigger] list[i])
}

proof fn lemma_put_text_in_order(list: Seq<Seq<char>>, text: Seq<char>)
    requires
        in_order(list),
    ensures
        in_order(put_text(list, text)),
        forall|t: Seq<char>| #[trigger]
            put_text(list, text).contains(t) <==> list.contains(t) || t == text,
    decreases list.len(),
{
    let result = put_text(list, text);
    if list.len() > 0 && precedes(text, list.last()) {
        let init = list.drop_last();
        let inner = put_text(init, text);
        assert forall|i: int, j: int| 0 <= i < j < init.len() implies !precedes(
            #[trigger] init[j],
            #[trigger] init[i],
        ) by {
            assert(init[i] == list[i] && init[j] == list[j]);
        }
        lemma_put_text_in_order(init, text);
        assert forall|t: Seq<char>| #[trigger] result.contains(t) <==> list.contains(t) || t
            == text by {
            if result.contains(t) {
                let k = choose|k: int| 0 <= k < result.len() && result[k] == t;
                if k < inner.len() {
                    assert(inner[k] == t);
                    assert(inner.contains(t));
                    if init.contains(t) {
                        let m = choose|m: int| 0 <= m < init.len() && init[m] == t;
                        assert(list[m] == t);
                    }
                } else {
                    assert(list[list.len() - 1] == t);
                }
            }
            if list.contains(t) {
                let m = choose|m: int| 0 <= m < list.len() && list[m] == t;
                if m < init.len() {
                    assert(init[m] == t);
                    assert(inner.contains(t));
                    let k = choose|k: int| 0 <= k < inner.len() && inner[k] == t;
                    assert(result[k] == t);
                } else {
                    assert(result[inner.len() as int] == t);
                }
            }
            if t == text {
                assert(inner.contains(t));
                let k = choose|k: int| 0 <= k < inner.len() && inner[k] == t;
                assert(result[k] == t);
            }
        }
        assert forall|i: int, j: int| 0 <= i < j < result.len() implies !precedes(
            #[trigger] result[j],
            #[trigger] result[i],
        ) by {
            assert(result[i] == inner[i]);
            if j < inner.len() {
                assert(result[j] == inner[j]);
            } else {
                assert(inner.contains(inner[i]));
                if init.contains(inner[i]) {
                    let m = choose|m: int| 0 <= m < init.len() && init[m] == inner[i];
                    assert(list[m] == inner[i] && list[list.len() - 1] == list.last());
                } else {
                    lemma_precedes_asymmetric(text, list.last());
                }
            }
        }
    } else {
        assert forall|i: int, j: int| 0 <= i < j < result.len() implies !precedes(
            #[trigger] result[j],
            #[trigger] result[i],
        ) by {
            assert(result[i] == list[i]);
            if j < list.len() {
                assert(result[j] == list[j]);
            } else if precedes(text, list[i]) {
                let last = list[list.len() - 1];
                if i < list.len() - 1 {
                    assert(!precedes(last, list[i]));
                    lemma_precedes_total(last, list[i]);
                    if list[i] != last {
                        lemma_precedes_transitive(text, list[i], last);
                    }
                }
            }
        }
        assert forall|t: Seq<char>| #[trigger] result.contains(t) <==> list.contains(t) || t
            == text by {
            if result.contains(t) {
                let k = choose|k: int| 0 <= k < result.len() && result[k] == t;
                if k < list.len() {
                    assert(list[k] == t);
                }
            }
            if list.contains(t) {
                let m = choose|m: int| 0 <= m < list.len() && list[m] == t;
                assert(result[m] == t);
            }
            if t == text {
                assert(result[list.len() as int] == t);
            }
        }
    }
}

/// Of two texts at most one precedes the other.
pub proof fn lemma_precedes_asymmetric(a: Seq<char>, b: Seq<char>)
    requires
        precedes(a, b),
    ensures
        !precedes(b, a),
{
    if precedes(b, a) {
        lemma_precedes_transitive(a, b, a);
        lemma_precedes_irreflexive(a);
    }
}

/// Sorting puts texts in order, and keeps every one of them and no other.
pub proof fn lemma_sorted(list: Seq<Seq<char>>)
    ensures
        in_order(sorted(list)),
        forall|t: Seq<char>| #[trigger] sorted(list).contains(t) <==> list.contains(t),
    decreases list.len(),
{
    if list.len() > 0 {
        let init = list.drop_last();
        lemma_sorted(init);
        lemma_put_text_in_order(sorted(init), list.last());
        assert forall|t: Seq<char>| #[trigger] sorted(list).contains(t) <==> list.contains(t) by {
            if list.contains(t) {
                let m = choose|m: int| 0 <= m < list.len() && list[m] == t;
                if m < init.len() {
                    assert(init[m] == t);
                    assert(sorted(init).contains(t));
                }
            }
            if sorted(init).contains(t) {
                let m = choose|m: int| 0 <= m < init.len() && init[m] == t;
                assert(list[m] == t);
            }
            assert(list[list.len() - 1] == list.last());
        }
    }
}

/// Sorting texts that are all different leaves them all different.
pub proof fn lemma_sorted_once(list: Seq<Seq<char>>)
    requires
        list.no_duplicates(),
    ensures
        sorted(list).no_duplicates(),
    decreases list.len(),
{
    if list.len() > 0 {
        let init = list.drop_last();
        lemma_sorted_once(init);
        lemma_sorted(init);
        assert(!init.contains(list.last())) by {
            if init.contains(list.last()) {
                let k = choose|k: int| 0 <= k < init.len() && init[k] == list.last();
                assert(list[k] == list[list.len() - 1]);
            }
        }
        lemma_put_text_once(sorted(init), list.last());
    }
}

proof fn lemma_put_text_once(list: Seq<Seq<char>>, text: Seq<char>)
    requires
        list.no_duplicates(),
        !list.contains(text),
    ensures
        put_text(list, text).no_duplicates(),
        forall|t: Seq<char>| #[trigger] put_text(list, text).contains(t) ==> list.contains(t) || t
            == text,
    decreases list.len(),
{
    let put = put_text(list, text);
    if list.len() > 0 && precedes(text, list.last()) {
        let init = list.drop_last();
        let before = put_text(init, text);
        assert forall|t: Seq<char>| #[trigger] init.contains(t) implies list.contains(t) && t
            != list.last() by {
            let k = choose|k: int| 0 <= k < init.len() && init[k] == t;
            assert(list[k] == t);
        }
        lemma_put_text_once(init, text);
        assert(list.contains(list[list.len() - 1]));
        assert(!before.contains(list.last()));
        assert forall|i: int, j: int| 0 <= i < put.len() && 0 <= j < put.len() && i != j implies put[i]
            != put[j] by {
            if i == before.len() {
                assert(before.contains(before[j]));
            } else if j == before.len() {
                assert(before.contains(before[i]));
            }
        }
        assert forall|t: Seq<char>| #[trigger] put.contains(t) implies list.contains(t) || t
            == text by {
            let k = choose|k: int| 0 <= k < put.len() && put[k] == t;
            if k < before.len() {
                assert(before.contains(before[k]));
            }
        }
    } else {
        assert forall|i: int, j: int| 0 <= i < put.len() && 0 <= j < put.len() && i != j implies put[i]
            != put[j] by {
            if i == list.len() {
                assert(list.contains(list[j]));
            } else if j == list.len() {
                assert(list.contains(list[i]));
            }
        }
        assert forall|t: Seq<char>| #[trigger] put.contains(t) implies list.contains(t) || t
            == text by {
            let k = choose|k: int| 0 <= k < put.len() && put[k] == t;
            if k < list.len() {
                assert(list.contains(list[k]));
            }
        }
    }
}

/// A list without the texts that repeat the one before them.
pub open spec fn deduped(list: Seq<Seq<char>>) -> Seq<Seq<char>>
    decreases list.len(),
{
    if list.len() == 0 {
        Seq::empty()
    } else {
        let before = deduped(list.drop_last());
        if before.len() > 0 && before.last() == list.last() {
            before
        } else {
            before.push(list.last())
        }
    }
}

pub fn dedup_texts(list: &Vec<String>) -> (result: Vec<String>)
    ensures
        text::texts(result@) == deduped(text::texts(list@)),
{
    let ghost all = text::texts(list@);
    let mut result: Vec<String> = Vec::new();
    let mut i: usize = 0;
    proof {
        assert(text::texts(result@) =~= Seq::empty());
        assert(all.take(0) =~= Seq::empty());
    }
    while i < list.len()
        invariant
            i <= list@.len(),
            all == text::texts(list@),
            text::texts(result@) == deduped(all.take(i as int)),
        decreases list.len() - i,
    {
        let ghost before = result@;
        let n: usize = result.len();
        proof {
            assert(all.take(i + 1).drop_last() =~= all.take(i as int));
            assert(all.take(i + 1).last() == list@[i as int]@);
            assert(text::texts(result@).len() == n);
            if n > 0 {
                assert(text::texts(result@).last() == result@[n - 1]@);
            }
        }
        if n == 0 || !same_text(result[n - 1].as_str(), list[i].as_str()) {
            result.push(list[i].as_str().to_owned());
            proof {
                crate::text::lemma_texts_push(before, result@.last());
            }
        }
        i = i + 1;
    }
    proof {
        assert(all.take(i as int) =~= all);
    }
    result
}

/// Without repetitions, texts in order come strictly one after the other, and
/// none of them is lost.
pub proof fn lemma_deduped(list: Seq<Seq<char>>)
    requires
        in_order(list),
    ensures
        forall|i: int, j: int|
            0 <= i < j < deduped(list).len() ==> precedes(
                #[trigger] deduped(list)[i],
                #[trigger] deduped(list)[j],
            ),
        forall|t: Seq<char>| #[trigger] deduped(list).contains(t) <==> list.contains(t),
        list.len() > 0 ==> deduped(list).len() > 0 && deduped(list).last() == list.last(),
    decreases list.len(),
{
    if list.len() > 0 {
        let init = list.drop_last();
        let last = list.last();
        assert forall|i: int, j: int| 0 <= i < j < init.len() implies !precedes(
            #[trigger] init[j],
            #[trigger] init[i],
        ) by {
            assert(init[i] == list[i] && init[j] == list[j]);
        }
        lemma_deduped(init);
        let before = deduped(init);
        let result = deduped(list);
        assert forall|t: Seq<char>| #[trigger] result.contains(t) <==> list.contains(t) by {
            if result.contains(t) {
                let k = choose|k: int| 0 <= k < result.len() && result[k] == t;
                if k < before.len() {
                    assert(before[k] == t);
                    assert(before.contains(t));
                    assert(init.contains(t));
                    let m = choose|m: int| 0 <= m < init.len() && init[m] == t;
                    assert(list[m] == t);
                } else {
                    assert(list[list.len() - 1] == t);
                }
            }
            if list.contains(t) {
                let m = choose|m: int| 0 <= m < list.len() && list[m] == t;
                if m < init.len() {
                    assert(init[m] == t);
                    assert(before.contains(t));
                    let k = choose|k: int| 0 <= k < before.len() && before[k] == t;
                    assert(result[k] == t);
                } else {
                    assert(result[result.len() - 1] == t);
                }
            }
        }
        if before.len() > 0 && before.last() != last {
            let previous = before.last();
            assert(init.last() == previous);
            assert(init.len() > 0);
            assert(list[init.len() - 1] == previous);
            assert(list[init.len() as int] == last);
            assert(!precedes(last, previous));
            lemma_precedes_total(previous, last);
            assert forall|i: int, j: int| 0 <= i < j < result.len() implies precedes(
                #[trigger] result[i],
                #[trigger] result[j],
            ) by {
                assert(result[i] == before[i]);
                if j < before.len() {
                    assert(result[j] == before[j]);
                } else if i < before.len() - 1 {
                    assert(before[before.len() - 1] == previous);
                    lemma_precedes_transitive(before[i], previous, last);
                }
            }
        }
    }
}

/// Whether the keys come in order, none of them twice.
pub open spec fn keys_in_order<T>(entries: Seq<(Seq<char>, T)>) -> bool {
    forall|i: int, j: int|
        0 <= i < j < entries.len() ==> precedes(#[trigger] entries[i].0, #[trigger] entries[j].0)
}

/// The value under a key.
pub open spec fn lookup<T>(entries: Seq<(Seq<char>, T)>, key: Seq<char>) -> Option<T>
    decreases entries.len(),
{
    if entries.len() == 0 {
        None
    } else if entries.last().0 == key {
        Some(entries.last().1)
    } else {
        lookup(entries.drop_last(), key)
    }
}

/// Whether there is a value under a key.
pub open spec fn has_key<T>(entries: Seq<(Seq<char>, T)>, key: Seq<char>) -> bool {
    lookup(entries, key) is Some
}

/// A key is found exactly where an entry stands under it.
pub proof fn lemma_lookup<T>(entries: Seq<(Seq<char>, T)>, key: Seq<char>)
    ensures
        match lookup(entries, key) {
            Some(value) => exists|i: int|
                0 <= i < entries.len() && #[trigger] entries[i] == (key, value),
            None => forall|i: int| 0 <= i < entries.len() ==> (#[trigger] entries[i]).0 != key,
        },
    decreases entries.len(),
{
    if entries.len() > 0 && entries.last().0 != key {
        lemma_lookup(entries.drop_last(), key);
        match lookup(entries.drop_last(), key) {
            Some(value) => {
                let i = choose|i: int|
                    0 <= i < entries.drop_last().len() && #[trigger] entries.drop_last()[i] == (
                        key,
                        value,
                    );
                assert(entries[i] == (key, value));
            },
            None => {
                assert forall|i: int| 0 <= i < entries.len() implies (#[trigger] entries[i]).0
                    != key by {
                    if i < entries.len() - 1 {
                        assert(entries.drop_last()[i] == entries[i]);
                    }
                }
            },
        }
    } else if entries.len() > 0 {
        assert(entries[entries.len() - 1] == (key, entries.last().1));
    }
}

/// With keys in order, an entry is what its key finds.
pub proof fn lemma_lookup_at<T>(entries: Seq<(Seq<char>, T)>, i: int)
    requires
        keys_in_order(entries),
        0 <= i < entries.len(),
    ensures
        lookup(entries, entries[i].0) == Some(entries[i].1),
    decreases entries.len(),
{
    if i < entries.len() - 1 {
        lemma_precedes_irreflexive(entries[i].0);
        assert(precedes(entries[i].0, entries[entries.len() - 1].0));
        assert(entries.drop_last()[i] == entries[i]);
        assert(keys_in_order(entries.drop_last())) by {
            assert forall|a: int, b: int| 0 <= a < b < entries.drop_last().len() implies precedes(
                #[trigger] entries.drop_last()[a].0,
                #[trigger] entries.drop_last()[b].0,
            ) by {
                assert(entries.drop_last()[a] == entries[a]);
                assert(entries.drop_last()[b] == entries[b]);
            }
        }
        lemma_lookup_at(entries.drop_last(), i);
    }
}

/// The entries with one more, or with a new value under a key they had.
pub open spec fn with_entry<T>(
    entries: Seq<(Seq<char>, T)>,
    key: Seq<char>,
    value: T,
) -> Seq<(Seq<char>, T)>
    decreases entries.len(),
{
    if entries.len() == 0 {
        seq![(key, value)]
    } else if entries[0].0 == key {
        seq![(key, value)] + entries.drop_first()
    } else if precedes(key, entries[0].0) {
        seq![(key, value)] + entries
    } else {
        seq![entries[0]] + with_entry(entries.drop_first(), key, value)
    }
}

/// Where a key belongs among entries in order: everything before precedes it.
pub open spec fn belongs_at<T>(entries: Seq<(Seq<char>, T)>, key: Seq<char>, at: int) -> bool {
    &&& 0 <= at <= entries.len()
    &&& forall|i: int| 0 <= i < at ==> precedes((#[trigger] entries[i]).0, key)
    &&& at < entries.len() ==> !precedes(entries[at].0, key)
}

proof fn lemma_with_entry<T>(entries: Seq<(Seq<char>, T)>, key: Seq<char>, value: T, at: int)
    requires
        belongs_at(entries, key, at),
    ensures
        with_entry(entries, key, value) == (if at < entries.len() && entries[at].0 == key {
            entries.update(at, (key, value))
        } else {
            entries.insert(at, (key, value))
        }),
    decreases at,
{
    if at > 0 {
        let rest = entries.drop_first();
        lemma_precedes_irreflexive(key);
        assert(precedes(entries[0].0, key));
        if precedes(key, entries[0].0) {
            lemma_precedes_transitive(key, entries[0].0, key);
        }
        assert forall|i: int| 0 <= i < at - 1 implies precedes((#[trigger] rest[i]).0, key) by {
            assert(rest[i] == entries[i + 1]);
        }
        lemma_with_entry(rest, key, value, at - 1);
        let result = if at < entries.len() && entries[at].0 == key {
            entries.update(at, (key, value))
        } else {
            entries.insert(at, (key, value))
        };
        assert(seq![entries[0]] + with_entry(rest, key, value) =~= result);
    } else if entries.len() == 0 {
        assert(entries.insert(0, (key, value)) =~= seq![(key, value)]);
    } else if entries[0].0 == key {
        assert(entries.update(0, (key, value)) =~= seq![(key, value)] + entries.drop_first());
    } else {
        lemma_precedes_total(entries[0].0, key);
        assert(entries.insert(0, (key, value)) =~= seq![(key, value)] + entries);
    }
}

/// An entry more leaves the keys in order.
pub proof fn lemma_with_entry_in_order<T>(
    entries: Seq<(Seq<char>, T)>,
    key: Seq<char>,
    value: T,
    at: int,
)
    requires
        keys_in_order(entries),
        belongs_at(entries, key, at),
    ensures
        keys_in_order(with_entry(entries, key, value)),
{
    lemma_with_entry(entries, key, value, at);
    let result = with_entry(entries, key, value);
    if at < entries.len() && entries[at].0 == key {
        assert forall|i: int, j: int| 0 <= i < j < result.len() implies precedes(
            #[trigger] result[i].0,
            #[trigger] result[j].0,
        ) by {
            assert(result[i].0 == entries[i].0);
            assert(result[j].0 == entries[j].0);
        }
    } else {
        assert forall|i: int, j: int| 0 <= i < j < result.len() implies precedes(
            #[trigger] result[i].0,
            #[trigger] result[j].0,
        ) by {
            let a = if i < at { i } else { i - 1 };
            let b = if j < at { j } else { j - 1 };
            if i == at {
                assert(result[j] == entries[b]);
                lemma_precedes_total(key, entries[at].0);
                if b > at {
                    lemma_precedes_transitive(key, entries[at].0, entries[b].0);
                }
            } else if j == at {
                assert(result[i] == entries[i]);
            } else {
                assert(result[i] == entries[a]);
                assert(result[j] == entries[b]);
            }
        }
    }
}

proof fn lemma_place_for<T>(entries: Seq<(Seq<char>, T)>, key: Seq<char>) -> (at: int)
    requires
        keys_in_order(entries),
    ensures
        belongs_at(entries, key, at),
    decreases entries.len(),
{
    if entries.len() == 0 || !precedes(entries[0].0, key) {
        0
    } else {
        let rest = entries.drop_first();
        assert forall|a: int, b: int| 0 <= a < b < rest.len() implies precedes(
            #[trigger] rest[a].0,
            #[trigger] rest[b].0,
        ) by {
            assert(rest[a] == entries[a + 1]);
            assert(rest[b] == entries[b + 1]);
        }
        let at = lemma_place_for(rest, key) + 1;
        assert forall|i: int| 0 <= i < at implies precedes((#[trigger] entries[i]).0, key) by {
            if i > 0 {
                assert(rest[i - 1] == entries[i]);
            }
        }
        if at < entries.len() {
            assert(rest[at - 1] == entries[at]);
        }
        at
    }
}

/// Putting a value under a key leaves the keys in order; the key then finds
/// that value, and every other key what it found before.
pub proof fn lemma_lookup_with_entry<T>(
    entries: Seq<(Seq<char>, T)>,
    key: Seq<char>,
    value: T,
    other: Seq<char>,
)
    requires
        keys_in_order(entries),
    ensures
        keys_in_order(with_entry(entries, key, value)),
        lookup(with_entry(entries, key, value), other) == (if other == key {
            Some(value)
        } else {
            lookup(entries, other)
        }),
{
    let at = lemma_place_for(entries, key);
    let result = with_entry(entries, key, value);
    lemma_with_entry(entries, key, value, at);
    lemma_with_entry_in_order(entries, key, value, at);
    assert(result[at] == (key, value));
    lemma_lookup_at(result, at);
    let grows = !(at < entries.len() && entries[at].0 == key);
    if other != key {
        lemma_lookup(entries, other);
        match lookup(entries, other) {
            Some(found) => {
                let i = choose|i: int| 0 <= i < entries.len() && #[trigger] entries[i] == (other, found);
                let j = if grows && i >= at { i + 1 } else { i };
                assert(result[j] == entries[i]);
                lemma_lookup_at(result, j);
            },
            None => {
                lemma_lookup(result, other);
                if lookup(result, other) is Some {
                    let found = lookup(result, other)->0;
                    let j = choose|j: int| 0 <= j < result.len() && #[trigger] result[j] == (other, found);
                    let i = if grows && j > at { j - 1 } else { j };
                    assert(entries[i] == result[j]);
                }
            },
        }
    }
}

/// The last value put under a key is the one that stays.
pub proof fn lemma_with_entry_twice<T>(entries: Seq<(Seq<char>, T)>, key: Seq<char>, a: T, b: T)
    ensures
        with_entry(with_entry(entries, key, a), key, b) == with_entry(entries, key, b),
    decreases entries.len(),
{
    let once = with_entry(entries, key, a);
    if entries.len() == 0 {
        assert(once.drop_first() =~= Seq::empty());
        assert(seq![(key, b)] + once.drop_first() =~= seq![(key, b)]);
    } else if entries[0].0 == key {
        assert(once.drop_first() =~= entries.drop_first());
    } else if precedes(key, entries[0].0) {
        assert(once.drop_first() =~= entries);
    } else {
        lemma_with_entry_twice(entries.drop_first(), key, a, b);
        assert(once[0] == entries[0]);
        assert(once.drop_first() =~= with_entry(entries.drop_first(), key, a));
    }
}

/// A map whose entries come out in the order of their keys.
#[derive(Debug)]
pub struct TextMap<T: View> {
    entries: Vec<(String, T)>,
}

impl<T: View> TextMap<T> {
    #[verifier::type_invariant]
    spec fn wf(self) -> bool {
        keys_in_order(self.view())
    }
}

impl<T: View> View for TextMap<T> {
    type V = Seq<(Seq<char>, T::V)>;

    closed spec fn view(&self) -> Seq<(Seq<char>, T::V)> {
        Seq::new(self.entries@.len(), |i: int| (self.entries@[i].0@, self.entries@[i].1@))
    }
}

impl<T: View> TextMap<T> {
    pub fn new() -> (map: Self)
        ensures
            map@ == Seq::<(Seq<char>, T::V)>::empty(),
    {
        let map = TextMap { entries: Vec::new() };
        proof {
            assert(map@ =~= Seq::<(Seq<char>, T::V)>::empty());
        }
        map
    }

    /// How many entries there are; their keys always stand in order.
    pub fn len(&self) -> (n: usize)
        ensures
            n == self@.len(),
            keys_in_order(self@),
    {
        proof {
            use_type_invariant(self);
        }
        self.entries.len()
    }

    pub fn key_at(&self, i: usize) -> (key: &str)
        requires
            i < self@.len(),
        ensures
            key@ == self@[i as int].0,
    {
        self.entries[i].0.as_str()
    }

    pub fn value_at(&self, i: usize) -> (value: &T)
        requires
            i < self@.len(),
        ensures
            value@ == self@[i as int].1,
    {
        &self.entries[i].1
    }

    pub fn get(&self, key: &str) -> (value: Option<&T>)
        ensures
            match value {
                Some(v) => lookup(self@, key@) == Some(v@),
                None => lookup(self@, key@) is None,
            },
    {
        let mut i: usize = self.entries.len();
        proof {
            assert(self@.take(i as int) =~= self@);
        }
        while i > 0
            invariant
                i <= self.entries@.len(),
                self@.len() == self.entries@.len(),
                lookup(self@, key@) == lookup(self@.take(i as int), key@),
            decreases i,
        {
            proof {
                assert(self@.take(i as int).drop_last() =~= self@.take(i - 1));
            }
            i = i - 1;
            if same_text(self.entries[i].0.as_str(), key) {
                return Some(&self.entries[i].1);
            }
        }
        None
    }

    /// Puts a value under a key and returns the one it replaces.
    pub fn insert(&mut self, key: String, value: T) -> (previous: Option<T>)
        ensures
            final(self)@ == with_entry(old(self)@, key@, value@),
            match previous {
                Some(v) => lookup(old(self)@, key@) == Some(v@),
                None => lookup(old(self)@, key@) is None,
            },
    {
        proof {
            use_type_invariant(&*self);
        }
        let ghost before = self@;
        let mut entries: Vec<(String, T)> = Vec::new();
        std::mem::swap(&mut entries, &mut self.entries);
        let mut at: usize = 0;
        while at < entries.len() && text_precedes(entries[at].0.as_str(), key.as_str())
            invariant
                at <= entries@.len(),
                before.len() == entries@.len(),
                forall|i: int|
                    0 <= i < before.len() ==> #[trigger] before[i] == (
                        entries@[i].0@,
                        entries@[i].1@,
                    ),
                forall|i: int| 0 <= i < at ==> precedes((#[trigger] before[i]).0, key@),
            decreases entries.len() - at,
        {
            proof {
                assert(before[at as int].0 == entries@[at as int].0@);
            }
            at = at + 1;
        }
        proof {
            if at < entries@.len() {
                assert(before[at as int].0 == entries@[at as int].0@);
            }
            lemma_with_entry(before, key@, value@, at as int);
            lemma_with_entry_in_order(before, key@, value@, at as int);
        }
        let ghost key_text = key@;
        let ghost value_view = value@;
        let previous;
        if at < entries.len() && same_text(entries[at].0.as_str(), key.as_str()) {
            proof {
                lemma_lookup_at(before, at as int);
            }
            let replaced = entries.remove(at);
            entries.insert(at, (key, value));
            previous = Some(replaced.1);
        } else {
            proof {
                lemma_lookup(before, key@);
                if lookup(before, key@) is Some {
                    let i = choose|i: int|
                        0 <= i < before.len() && #[trigger] before[i] == (
                            key@,
                            lookup(before, key@)->0,
                        );
                    lemma_precedes_irreflexive(key@);
                    if i > at {
                        assert(precedes(before[at as int].0, before[i].0));
                    }
                }
            }
            entries.insert(at, (key, value));
            previous = None;
        }
        let ghost after = with_entry(before, key_text, value_view);
        proof {
            assert(after.len() == entries@.len());
            assert forall|i: int| 0 <= i < after.len() implies #[trigger] after[i] == (
                entries@[i].0@,
                entries@[i].1@,
            ) by {
                if i < at {
                    assert(after[i] == before[i]);
                } else if i > at && after.len() > before.len() {
                    assert(after[i] == before[i - 1]);
                } else if i > at {
                    assert(after[i] == before[i]);
                }
            }
            assert(Seq::new(entries@.len(), |i: int| (entries@[i].0@, entries@[i].1@)) =~= after);
        }
        self.entries = entries;
        previous
    }

    pub fn contains_key(&self, key: &str) -> (found: bool)
        ensures
            found == has_key(self@, key@),
    {
        self.get(key).is_some()
    }
}

/// The same keys with one value under each of them.
pub open spec fn with_every_value<S, T>(entries: Seq<(Seq<char>, S)>, value: T) -> Seq<
    (Seq<char>, T),
> {
    Seq::new(entries.len(), |i: int| (entries[i].0, value))
}

impl TextMap<String> {
    pub fn set_every_value(&self, value: &str) -> (map: TextMap<String>)
        ensures
            map@ == with_every_value(self@, value@),
    {
        proof {
            use_type_invariant(self);
        }
        let mut entries: Vec<(String, String)> = Vec::new();
        let mut i: usize = 0;
        while i < self.entries.len()
            invariant
                i <= self.entries@.len(),
                entries@.len() == i,
                forall|j: int|
                    0 <= j < i ==> (#[trigger] entries@[j]).0@ == self.entries@[j].0@
                        && entries@[j].1@ == value@,
            decreases self.entries.len() - i,
        {
            entries.push((self.entries[i].0.as_str().to_owned(), value.to_owned()));
            i = i + 1;
        }
        let ghost shown = with_every_value(self@, value@);
        proof {
            assert(Seq::new(entries@.len(), |i: int| (entries@[i].0@, entries@[i].1@)) =~= shown);
            assert forall|a: int, b: int| 0 <= a < b < shown.len() implies precedes(
                #[trigger] shown[a].0,
                #[trigger] shown[b].0,
            ) by {
                assert(precedes(self@[a].0, self@[b].0));
            }
        }
        TextMap { entries }
    }

    /// A map of the same entries.
    pub fn copy(&self) -> (map: TextMap<String>)
        ensures
            map@ == self@,
    {
        proof {
            use_type_invariant(self);
        }
        let mut entries: Vec<(String, String)> = Vec::new();
        let mut i: usize = 0;
        while i < self.entries.len()
            invariant
                i <= self.entries@.len(),
                entries@.len() == i,
                forall|j: int|
                    0 <= j < i ==> (#[trigger] entries@[j]).0@ == self.entries@[j].0@
                        && entries@[j].1@ == self.entries@[j].1@,
            decreases self.entries.len() - i,
        {
            entries.push(
                (self.entries[i].0.as_str().to_owned(), self.entries[i].1.as_str().to_owned()),
            );
            i = i + 1;
        }
        proof {
            assert(Seq::new(entries@.len(), |i: int| (entries@[i].0@, entries@[i].1@)) =~= self@);
        }
        TextMap { entries }
    }
}

} // verus!
