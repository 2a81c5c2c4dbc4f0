//! Keys, sorting and name-indexed tables.
//!
//! Everything that the laboratory sorts is sorted by a key: a sequence of
//! integers under the lexicographic order.

use crate::error::{BrainResult, ErrorView};
#[allow(unused_imports)]
use vstd::std_specs::iter::IteratorSpec;
use vstd::prelude::*;

verus! {

/// The views of the items of a sequence.
pub open spec fn views<T: View>(items: Seq<T>) -> Seq<T::V> {
    Seq::new(items.len(), |i: int| items[i]@)
}

/// Appending an item appends its view.
pub broadcast proof fn views_push<T: View>(items: Seq<T>, item: T)
    ensures
        #[trigger] views(items.push(item)) == views(items).push(item@),
{
    assert(views(items.push(item)) =~= views(items).push(item@));
}

/// One item more of a prefix.
pub proof fn take_one_more<A>(items: Seq<A>, n: int)
    requires
        0 <= n < items.len(),
    ensures
        items.take(n + 1) == items.take(n).push(items[n]),
{
    assert(items.take(n + 1) =~= items.take(n).push(items[n]));
}

/// What contracts say about a result that may be an error.
pub open spec fn outcome<T: View>(result: BrainResult<T>) -> Result<T::V, ErrorView> {
    match result {
        Ok(value) => Ok(value@),
        Err(error) => Err(error@),
    }
}

/// What contracts say of a result that holds a plain value.
pub open spec fn plain<T>(result: BrainResult<T>) -> Result<T, ErrorView> {
    match result {
        Ok(value) => Ok(value),
        Err(error) => Err(error@),
    }
}

/// What contracts say of an outcome that may not be there yet.
pub open spec fn awaited<T: View>(result: Option<BrainResult<T>>) -> Option<
    Result<T::V, ErrorView>,
> {
    match result {
        Some(result) => Some(outcome(result)),
        None => None,
    }
}

/// What contracts say of a check that may not have been made yet.
pub open spec fn awaited_check(check: Option<BrainResult<()>>) -> Option<Result<(), ErrorView>> {
    match check {
        Some(result) => Some(plain(result)),
        None => None,
    }
}

/// What contracts say about a sequence of results.
pub open spec fn outcomes<T: View>(results: Seq<BrainResult<T>>) -> Seq<Result<T::V, ErrorView>> {
    Seq::new(results.len(), |i: int| outcome(results[i]))
}

/// The lexicographic order on keys.
pub open spec fn key_less(a: Seq<int>, b: Seq<int>) -> bool
    decreases a.len(),
{
    if b.len() == 0 {
        false
    } else if a.len() == 0 {
        true
    } else if a[0] != b[0] {
        a[0] < b[0]
    } else {
        key_less(a.skip(1), b.skip(1))
    }
}

/// Of two keys, one is less or both are the same.
pub proof fn keys_are_totally_ordered(a: Seq<int>, b: Seq<int>)
    ensures
        key_less(a, b) || key_less(b, a) || a == b,
        !(key_less(a, b) && key_less(b, a)),
        key_less(a, b) ==> a != b,
    decreases a.len(),
{
    if a.len() > 0 && b.len() > 0 && a[0] == b[0] {
        keys_are_totally_ordered(a.skip(1), b.skip(1));
        if a.skip(1) == b.skip(1) {
            assert(a =~= seq![a[0]] + a.skip(1));
            assert(b =~= seq![b[0]] + b.skip(1));
        }
    } else if a.len() == 0 && b.len() == 0 {
        assert(a =~= b);
    }
}

/// The order of keys is transitive.
pub proof fn keys_order_transitively(a: Seq<int>, b: Seq<int>, c: Seq<int>)
    requires
        key_less(a, b),
        key_less(b, c),
    ensures
        key_less(a, c),
    decreases a.len(),
{
    if a.len() > 0 && b.len() > 0 && c.len() > 0 && a[0] == b[0] && b[0] == c[0] {
        keys_order_transitively(a.skip(1), b.skip(1), c.skip(1));
    }
}

/// How one key stands to another.
#[derive(Debug, Clone, Copy, PartialEq, Eq, Structural)]
pub enum Standing {
    Before,
    Same,
    After,
}

/// The standing of key `a` to key `b`.
pub open spec fn standing(a: Seq<int>, b: Seq<int>) -> Standing {
    if key_less(a, b) {
        Standing::Before
    } else if a == b {
        Standing::Same
    } else {
        Standing::After
    }
}

/// A model with a sorting key.
pub trait KeyModel: Sized {
    spec fn key(self) -> Seq<int>;
}

/// A value that can be compared by the key of its model.
pub trait Keyed: View where <Self as View>::V: KeyModel {
    fn stand(&self, other: &Self) -> (standing: Standing)
        ensures
            standing == crate::order::standing(self@.key(), other@.key()),
    ;
}

/// `x` put into a sorted sequence, after everything that is not greater.
pub open spec fn placed<V: KeyModel>(sorted: Seq<V>, x: V) -> Seq<V>
    decreases sorted.len(),
{
    if sorted.len() == 0 || !key_less(x.key(), sorted.last().key()) {
        sorted.push(x)
    } else {
        placed(sorted.drop_last(), x).push(sorted.last())
    }
}

/// The items in ascending order of their keys; equal keys keep their order.
pub open spec fn sorted<V: KeyModel>(items: Seq<V>) -> Seq<V>
    decreases items.len(),
{
    if items.len() == 0 {
        items
    } else {
        placed(sorted(items.drop_last()), items.last())
    }
}

/// No key is greater than a later one.
pub open spec fn ascending<V: KeyModel>(items: Seq<V>) -> bool {
    forall|i: int, j: int|
        0 <= i < j < items.len() ==> !key_less(
            (#[trigger] items[j]).key(),
            (#[trigger] items[i]).key(),
        )
}

/// Every key is less than every later one.
pub open spec fn strictly_ascending<V: KeyModel>(items: Seq<V>) -> bool {
    forall|i: int, j: int|
        0 <= i < j < items.len() ==> key_less(
            (#[trigger] items[i]).key(),
            (#[trigger] items[j]).key(),
        )
}

/// No two items share a key.
pub open spec fn distinct_keys<V: KeyModel>(items: Seq<V>) -> bool {
    forall|i: int, j: int|
        0 <= i < j < items.len() ==> (#[trigger] items[i]).key() != (#[trigger] items[j]).key()
}

proof fn lemma_placed_ascends<V: KeyModel>(s: Seq<V>, x: V)
    requires
        ascending(s),
    ensures
        ascending(placed(s, x)),
        placed(s, x).len() == s.len() + 1,
        placed(s, x).to_multiset() == s.to_multiset().insert(x),
        s.len() > 0 ==> placed(s, x).last() == (if key_less(x.key(), s.last().key()) {
            s.last()
        } else {
            x
        }),
        forall|i: int|
            0 <= i < placed(s, x).len() ==> #[trigger] placed(s, x)[i] == x || s.contains(
                placed(s, x)[i],
            ),
    decreases s.len(),
{
    broadcast use vstd::seq_lib::group_to_multiset_ensures;

    let out = placed(s, x);
    if s.len() == 0 {
    } else if !key_less(x.key(), s.last().key()) {
        assert forall|i: int, j: int| 0 <= i < j < out.len() implies !key_less(
            (#[trigger] out[j]).key(),
            (#[trigger] out[i]).key(),
        ) by {
            if j == out.len() - 1 {
                if i < s.len() - 1 {
                    let last = s.last();
                    assert(!key_less(s[s.len() - 1].key(), s[i].key()));
                    keys_are_totally_ordered(x.key(), s[i].key());
                    keys_are_totally_ordered(x.key(), last.key());
                    keys_are_totally_ordered(last.key(), s[i].key());
                    if key_less(x.key(), s[i].key()) {
                        if key_less(s[i].key(), last.key()) {
                            keys_order_transitively(x.key(), s[i].key(), last.key());
                        }
                    }
                }
            } else {
                assert(out[i] == s[i] && out[j] == s[j]);
            }
        }
        assert forall|i: int| 0 <= i < out.len() implies #[trigger] out[i] == x || s.contains(
            out[i],
        ) by {
            if i < s.len() {
                assert(out[i] == s[i]);
            }
        }
    } else {
        let front = s.drop_last();
        assert(ascending(front)) by {
            assert forall|i: int, j: int| 0 <= i < j < front.len() implies !key_less(
                (#[trigger] front[j]).key(),
                (#[trigger] front[i]).key(),
            ) by {
                assert(front[i] == s[i] && front[j] == s[j]);
            }
        }
        lemma_placed_ascends(front, x);
        let inner = placed(front, x);
        assert forall|i: int, j: int| 0 <= i < j < out.len() implies !key_less(
            (#[trigger] out[j]).key(),
            (#[trigger] out[i]).key(),
        ) by {
            if j == out.len() - 1 {
                assert(out[i] == inner[i]);
                if inner[i] == x {
                    keys_are_totally_ordered(x.key(), s.last().key());
                } else {
                    let k = choose|k: int| 0 <= k < front.len() && front[k] == inner[i];
                    assert(s[k] == inner[i]);
                    assert(!key_less(s[s.len() - 1].key(), s[k].key()));
                }
            } else {
                assert(out[i] == inner[i] && out[j] == inner[j]);
            }
        }
        assert forall|i: int| 0 <= i < out.len() implies #[trigger] out[i] == x || s.contains(
            out[i],
        ) by {
            if i < inner.len() {
                assert(out[i] == inner[i]);
                if inner[i] != x {
                    let k = choose|k: int| 0 <= k < front.len() && front[k] == inner[i];
                    assert(s[k] == out[i]);
                }
            } else {
                assert(out[i] == s[s.len() - 1]);
            }
        }
        assert(front.push(s.last()) == s);
        assert(out.to_multiset() =~= s.to_multiset().insert(x));
    }
}

/// Sorting gives the same items in ascending order.
pub proof fn sorting_permutes_and_ascends<V: KeyModel>(items: Seq<V>)
    ensures
        ascending(sorted(items)),
        sorted(items).to_multiset() == items.to_multiset(),
        sorted(items).len() == items.len(),
    decreases items.len(),
{
    broadcast use vstd::seq_lib::group_to_multiset_ensures;

    if items.len() > 0 {
        sorting_permutes_and_ascends(items.drop_last());
        lemma_placed_ascends(sorted(items.drop_last()), items.last());
        assert(items.drop_last().push(items.last()) == items);
    }
}

proof fn lemma_placed_at<V: KeyModel>(s: Seq<V>, x: V, at: int)
    requires
        0 <= at <= s.len(),
        forall|i: int| at <= i < s.len() ==> key_less(x.key(), (#[trigger] s[i]).key()),
        at == 0 || !key_less(x.key(), s[at - 1].key()),
    ensures
        placed(s, x) == s.insert(at, x),
    decreases s.len(),
{
    if at == s.len() {
        assert(s.insert(at, x) =~= s.push(x));
    } else {
        assert(key_less(x.key(), s[s.len() - 1].key()));
        assert forall|i: int| at <= i < s.drop_last().len() implies key_less(
            x.key(),
            (#[trigger] s.drop_last()[i]).key(),
        ) by {
            assert(s.drop_last()[i] == s[i]);
        }
        lemma_placed_at(s.drop_last(), x, at);
        assert(s.drop_last().insert(at, x).push(s.last()) =~= s.insert(at, x));
    }
}

/// Sorts the items by key.
pub fn sort<T: Keyed>(items: Vec<T>) -> (out: Vec<T>) where <T as View>::V: KeyModel
    ensures
        views(out@) == sorted(views(items@)),
{
    let ghost whole = items@;
    let mut rest = items;
    let mut reversed: Vec<T> = Vec::new();
    while rest.len() > 0
        invariant
            rest@ == whole.take(rest@.len() as int),
            rest@.len() + reversed@.len() == whole.len(),
            forall|i: int| 0 <= i < reversed@.len() ==> #[trigger] reversed@[i] == whole[whole.len() - 1 - i],
        decreases rest@.len(),
    {
        let ghost before = rest@;
        if let Some(item) = rest.pop() {
            assert(item == whole[before.len() - 1]);
            reversed.push(item);
            assert(rest@ == whole.take(rest@.len() as int));
        }
    }
    let mut out: Vec<T> = Vec::new();
    let ghost mut taken: int = 0;
    assert(views(out@) =~= sorted(views(whole.take(0))));
    while reversed.len() > 0
        invariant
            0 <= taken <= whole.len(),
            taken + reversed@.len() == whole.len(),
            forall|i: int| 0 <= i < reversed@.len() ==> #[trigger] reversed@[i] == whole[whole.len() - 1 - i],
            views(out@) == sorted(views(whole.take(taken))),
        decreases reversed@.len(),
    {
        let ghost pending = reversed@;
        if let Some(item) = reversed.pop() {
            assert(item == whole[taken]);
            assert(forall|i: int| 0 <= i < reversed@.len() ==> reversed@[i] == pending[i]);
            let mut at: usize = out.len();
            while at > 0 && item.stand(&out[at - 1]) == Standing::Before
                invariant
                    at <= out.len(),
                    forall|i: int| at <= i < out.len() ==> key_less(item@.key(), (#[trigger] out@[i])@.key()),
                decreases at,
            {
                at = at - 1;
            }
            let ghost placed_before = views(out@);
            proof {
                assert forall|i: int| at <= i < placed_before.len() implies key_less(
                    item@.key(),
                    (#[trigger] placed_before[i]).key(),
                ) by {
                    assert(placed_before[i] == out@[i]@);
                }
                if at > 0 {
                    assert(placed_before[at - 1] == out@[at - 1]@);
                }
                lemma_placed_at(placed_before, item@, at as int);
                assert(views(whole.take(taken + 1)).drop_last() =~= views(whole.take(taken)));
                assert(views(whole.take(taken + 1)).last() == item@);
                assert(views(out@.insert(at as int, item)) =~= placed_before.insert(
                    at as int,
                    item@,
                ));
                taken = taken + 1;
            }
            out.insert(at, item);
        }
    }
    assert(whole.take(taken) == whole);
    out
}

/// Whether every key of a sorted sequence is less than its successor's.
pub fn strictly_sorted<T: Keyed>(items: &Vec<T>) -> (strict: bool) where <T as View>::V: KeyModel
    requires
        ascending(views(items@)),
    ensures
        strict == distinct_keys(views(items@)),
        strict == strictly_ascending(views(items@)),
{
    let ghost models = views(items@);
    let mut i: usize = 1;
    while i < items.len()
        invariant
            1 <= i,
            i <= items.len() || items.len() == 0,
            models == views(items@),
            ascending(models),
            forall|a: int, b: int|
                0 <= a < b < i && b < models.len() ==> key_less(
                    (#[trigger] models[a]).key(),
                    (#[trigger] models[b]).key(),
                ),
        decreases items.len() - i,
    {
        assert(models[i as int] == items@[i as int]@);
        assert(models[i - 1] == items@[i - 1]@);
        if items[i - 1].stand(&items[i]) != Standing::Before {
            proof {
                keys_are_totally_ordered(models[i - 1].key(), models[i as int].key());
                assert(!key_less(models[i as int].key(), models[i - 1].key()));
                assert(models[i - 1].key() == models[i as int].key());
            }
            return false;
        }
        proof {
            assert forall|a: int, b: int| 0 <= a < b < i + 1 && b < models.len() implies key_less(
                (#[trigger] models[a]).key(),
                (#[trigger] models[b]).key(),
            ) by {
                if b == i && a < i - 1 {
                    assert(key_less(models[a].key(), models[i - 1].key()));
                    keys_order_transitively(
                        models[a].key(),
                        models[i - 1].key(),
                        models[i as int].key(),
                    );
                }
            }
        }
        i = i + 1;
    }
    proof {
        assert forall|a: int, b: int| 0 <= a < b < models.len() implies (#[trigger] models[a]).key()
            != (#[trigger] models[b]).key() by {
            keys_are_totally_ordered(models[a].key(), models[b].key());
        }
    }
    true
}

/// Placing an item is inserting it somewhere.
pub proof fn placing_is_insertion<V: KeyModel>(s: Seq<V>, x: V) -> (at: int)
    ensures
        0 <= at <= s.len(),
        placed(s, x) == s.insert(at, x),
    decreases s.len(),
{
    if s.len() == 0 || !key_less(x.key(), s.last().key()) {
        assert(s.insert(s.len() as int, x) =~= s.push(x));
        s.len() as int
    } else {
        let at = placing_is_insertion(s.drop_last(), x);
        assert(s.drop_last().insert(at, x).push(s.last()) =~= s.insert(at, x));
        at
    }
}

proof fn lemma_insertion_keeps_distinct<V: KeyModel>(s: Seq<V>, x: V, at: int)
    requires
        0 <= at <= s.len(),
    ensures
        distinct_keys(s.insert(at, x)) <==> distinct_keys(s) && forall|i: int|
            0 <= i < s.len() ==> (#[trigger] s[i]).key() != x.key(),
{
    let t = s.insert(at, x);
    if distinct_keys(t) {
        assert forall|i: int| 0 <= i < s.len() implies (#[trigger] s[i]).key() != x.key() by {
            if i < at {
                assert(t[i] == s[i] && t[at] == x);
            } else {
                assert(t[i + 1] == s[i] && t[at] == x);
            }
        }
        assert forall|i: int, j: int| 0 <= i < j < s.len() implies (#[trigger] s[i]).key() != (
        #[trigger] s[j]).key() by {
            let a = if i < at { i } else { i + 1 };
            let b = if j < at { j } else { j + 1 };
            assert(t[a] == s[i] && t[b] == s[j]);
        }
    }
    if distinct_keys(s) && forall|i: int| 0 <= i < s.len() ==> (#[trigger] s[i]).key() != x.key() {
        assert forall|i: int, j: int| 0 <= i < j < t.len() implies (#[trigger] t[i]).key() != (
        #[trigger] t[j]).key() by {
            let a = if i < at { i } else { i - 1 };
            let b = if j < at { j } else { j - 1 };
            if i != at {
                assert(t[i] == s[a]);
            }
            if j != at {
                assert(t[j] == s[b]);
            }
        }
    }
}

/// Sorting neither makes nor removes repeated keys.
pub proof fn sorting_keeps_distinctness<V: KeyModel>(items: Seq<V>)
    ensures
        distinct_keys(sorted(items)) <==> distinct_keys(items),
    decreases items.len(),
{
    broadcast use vstd::seq_lib::group_to_multiset_ensures;

    if items.len() > 0 {
        let front = items.drop_last();
        let x = items.last();
        sorting_keeps_distinctness(front);
        sorting_permutes_and_ascends(front);
        let at = placing_is_insertion(sorted(front), x);
        lemma_insertion_keeps_distinct(sorted(front), x, at);
        assert(front.insert(front.len() as int, x) =~= items);
        lemma_insertion_keeps_distinct(front, x, front.len() as int);
        assert forall|i: int| 0 <= i < sorted(front).len() implies front.contains(
            #[trigger] sorted(front)[i],
        ) by {
            assert(sorted(front).contains(sorted(front)[i]));
            assert(sorted(front).to_multiset().count(sorted(front)[i]) > 0);
        }
        assert forall|i: int| 0 <= i < front.len() implies sorted(front).contains(
            #[trigger] front[i],
        ) by {
            assert(front.contains(front[i]));
            assert(front.to_multiset().count(front[i]) > 0);
        }
        if forall|i: int| 0 <= i < front.len() ==> (#[trigger] front[i]).key() != x.key() {
            assert forall|i: int| 0 <= i < sorted(front).len() implies (#[trigger] sorted(front)[i]).key()
                != x.key() by {
                let k = choose|k: int| 0 <= k < front.len() && front[k] == sorted(front)[i];
                assert(front[k].key() != x.key());
            }
        }
        if forall|i: int| 0 <= i < sorted(front).len() ==> (#[trigger] sorted(front)[i]).key() != x.key() {
            assert forall|i: int| 0 <= i < front.len() implies (#[trigger] front[i]).key()
                != x.key() by {
                let k = choose|k: int| 0 <= k < sorted(front).len() && sorted(front)[k] == front[i];
                assert(sorted(front)[k].key() != x.key());
            }
        }
    }
}

/// The key of a text: its code points.
pub open spec fn text_key(text: Seq<char>) -> Seq<int> {
    Seq::new(text.len(), |i: int| text[i] as int)
}

/// Texts with the same key are the same.
pub proof fn text_keys_are_faithful(a: Seq<char>, b: Seq<char>)
    ensures
        text_key(a) == text_key(b) <==> a == b,
{
    if text_key(a) == text_key(b) {
        assert(a.len() == text_key(a).len() && b.len() == text_key(b).len());
        assert forall|i: int| 0 <= i < a.len() implies a[i] == b[i] by {
            assert(text_key(a)[i] == text_key(b)[i]);
        }
        assert(a =~= b);
    }
}

/// Compares two texts by their code points.
pub fn text_standing(a: &str, b: &str) -> (result: Standing)
    ensures
        result == standing(text_key(a@), text_key(b@)),
{
    let mut right = b.chars();
    assert(a@.skip(0) == a@);
    for c in it: a.chars()
        invariant
            it.seq() == a@,
            standing(text_key(a@), text_key(b@)) == standing(
                text_key(a@.skip(it.index())),
                text_key(right.remaining()),
            ),
    {
        let ghost l = a@.skip(it.index());
        let ghost r = right.remaining();
        assert(text_key(l)[0] == c as int);
        match right.next() {
            None => {
                assert(text_key(l).len() != text_key(r).len());
                return Standing::After;
            },
            Some(d) => {
                assert(text_key(r)[0] == d as int);
                if c < d {
                    return Standing::Before;
                }
                if d < c {
                    return Standing::After;
                }
                assert(l.skip(1) == a@.skip(it.index() + 1));
                assert(text_key(l).skip(1) =~= text_key(l.skip(1)));
                assert(text_key(r).skip(1) =~= text_key(r.drop_first()));
                assert(text_key(l) == text_key(r) <==> text_key(l).skip(1) == text_key(r).skip(1))
                    by {
                    assert(text_key(l) =~= seq![text_key(l)[0]] + text_key(l).skip(1));
                    assert(text_key(r) =~= seq![text_key(r)[0]] + text_key(r).skip(1));
                }
            },
        }
    }
    let ghost r = right.remaining();
    assert(a@.skip(a@.len() as int) == Seq::<char>::empty());
    match right.next() {
        None => {
            assert(text_key(Seq::<char>::empty()) =~= text_key(r));
            Standing::Same
        },
        Some(_) => Standing::Before,
    }
}


/// A value under a name.
#[derive(Debug)]
pub struct Named<T> {
    pub name: String,
    pub value: T,
}

/// The model of a [`Named`] value.
pub struct NamedModel<V> {
    pub name: Seq<char>,
    pub value: V,
}

impl<T: View> View for Named<T> {
    type V = NamedModel<T::V>;

    open spec fn view(&self) -> NamedModel<T::V> {
        NamedModel { name: self.name@, value: self.value@ }
    }
}

impl<V> KeyModel for NamedModel<V> {
    open spec fn key(self) -> Seq<int> {
        text_key(self.name)
    }
}

impl<T: View> Keyed for Named<T> {
    fn stand(&self, other: &Self) -> (standing: Standing) {
        text_standing(self.name.as_str(), other.name.as_str())
    }
}

/// Whether some entry of a table has the given name.
pub open spec fn has_name<V>(table: Seq<NamedModel<V>>, name: Seq<char>) -> bool {
    exists|i: int| 0 <= i < table.len() && (#[trigger] table[i]).name == name
}

/// Placing an entry adds its name and no other.
pub proof fn placing_adds_one_name<V>(
    table: Seq<NamedModel<V>>,
    entry: NamedModel<V>,
    name: Seq<char>,
)
    ensures
        has_name(placed(table, entry), name) <==> has_name(table, name) || name == entry.name,
{
    let at = placing_is_insertion(table, entry);
    let after = table.insert(at, entry);
    assert(after[at] == entry);
    if has_name(table, name) {
        let i = choose|i: int| 0 <= i < table.len() && (#[trigger] table[i]).name == name;
        let j = if i < at { i } else { i + 1 };
        assert(after[j].name == name);
    }
    if has_name(after, name) {
        let j = choose|j: int| 0 <= j < after.len() && (#[trigger] after[j]).name == name;
        if j != at {
            let i = if j < at { j } else { j - 1 };
            assert(table[i].name == name);
        }
    }
}

/// The position of the first entry that is not before `name`, and whether it is
/// the entry of that name.
fn locate<T: View>(table: &Vec<Named<T>>, name: &str) -> (place: (usize, bool))
    requires
        strictly_ascending(views(table@)),
    ensures
        place.0 <= table@.len(),
        forall|i: int|
            0 <= i < place.0 ==> key_less(
                text_key((#[trigger] views(table@)[i]).name),
                text_key(name@),
            ),
        forall|i: int|
            place.0 <= i < table@.len() && !(place.1 && i == place.0) ==> key_less(
                text_key(name@),
                text_key((#[trigger] views(table@)[i]).name),
            ),
        place.1 ==> place.0 < table@.len() && views(table@)[place.0 as int].name == name@,
        place.1 == has_name(views(table@), name@),
{
    let ghost models = views(table@);
    let mut low: usize = 0;
    let mut high: usize = table.len();
    while low < high
        invariant
            models == views(table@),
            strictly_ascending(models),
            low <= high <= table@.len(),
            forall|i: int| 0 <= i < low ==> key_less(text_key((#[trigger] models[i]).name), text_key(name@)),
            forall|i: int|
                high <= i < models.len() ==> key_less(text_key(name@), text_key((#[trigger] models[i]).name)),
        decreases high - low,
    {
        let middle: usize = low + (high - low) / 2;
        assert(models[middle as int] == table@[middle as int]@);
        match text_standing(table[middle].name.as_str(), name) {
            Standing::Before => {
                proof {
                    assert forall|i: int| 0 <= i < middle + 1 implies key_less(
                        text_key((#[trigger] models[i]).name),
                        text_key(name@),
                    ) by {
                        if i < middle {
                            assert(key_less(models[i].key(), models[middle as int].key()));
                            keys_order_transitively(
                                models[i].key(),
                                models[middle as int].key(),
                                text_key(name@),
                            );
                        }
                    }
                }
                low = middle + 1;
            },
            Standing::Same => {
                proof {
                    text_keys_are_faithful(models[middle as int].name, name@);
                    assert forall|i: int| 0 <= i < middle implies key_less(
                        text_key((#[trigger] models[i]).name),
                        text_key(name@),
                    ) by {
                        assert(key_less(models[i].key(), models[middle as int].key()));
                    }
                    assert forall|i: int| middle < i < models.len() implies key_less(
                        text_key(name@),
                        text_key((#[trigger] models[i]).name),
                    ) by {
                        assert(key_less(models[middle as int].key(), models[i].key()));
                    }
                }
                return (middle, true);
            },
            Standing::After => {
                proof {
                    keys_are_totally_ordered(models[middle as int].key(), text_key(name@));
                    assert forall|i: int| middle <= i < models.len() implies key_less(
                        text_key(name@),
                        text_key((#[trigger] models[i]).name),
                    ) by {
                        if i > middle {
                            assert(key_less(models[middle as int].key(), models[i].key()));
                            keys_order_transitively(
                                text_key(name@),
                                models[middle as int].key(),
                                models[i].key(),
                            );
                        }
                    }
                }
                high = middle;
            },
        }
    }
    proof {
        assert forall|i: int| 0 <= i < models.len() implies (#[trigger] models[i]).name
            != name@ by {
            keys_are_totally_ordered(text_key(models[i].name), text_key(name@));
        }
    }
    (low, false)
}

/// Puts an entry into a table sorted by name, unless the name is taken.
pub fn insert_named<T: View>(table: &mut Vec<Named<T>>, entry: Named<T>) -> (inserted: bool)
    requires
        strictly_ascending(views(old(table)@)),
    ensures
        strictly_ascending(views(final(table)@)),
        inserted == !has_name(views(old(table)@), entry@.name),
        inserted ==> views(final(table)@) == placed(views(old(table)@), entry@),
        !inserted ==> final(table)@ == old(table)@,
{
    let ghost before = views(table@);
    let (at, taken) = locate(table, entry.name.as_str());
    if taken {
        return false;
    }
    proof {
        if at > 0 {
            assert(key_less(before[at - 1].key(), entry@.key()));
        }
        assert forall|i: int| at <= i < before.len() implies key_less(
            entry@.key(),
            (#[trigger] before[i]).key(),
        ) by {}
        lemma_insertion_ascends(before, entry@, at as int);
        assert(views(table@.insert(at as int, entry)) =~= before.insert(at as int, entry@));
    }
    table.insert(at, entry);
    true
}

/// The entry of the given name, if the table has one.
pub fn find_named<'a, T: View>(table: &'a Vec<Named<T>>, name: &str) -> (found: Option<&'a Named<T>>)
    requires
        strictly_ascending(views(table@)),
    ensures
        found is Some <==> has_name(views(table@), name@),
        found matches Some(entry) ==> table@.contains(*entry) && entry@.name == name@,
{
    let (at, present) = locate(table, name);
    if present {
        assert(table@[at as int]@ == views(table@)[at as int]);
        Some(&table[at])
    } else {
        None
    }
}

/// Whether some item has the given key.
pub open spec fn has_key<V: KeyModel>(items: Seq<V>, key: Seq<int>) -> bool {
    exists|i: int| 0 <= i < items.len() && (#[trigger] items[i]).key() == key
}

/// The items as a set: in ascending order of their keys, and of those with one key
/// only the first.
pub open spec fn ordered_set<V: KeyModel>(items: Seq<V>) -> Seq<V>
    decreases items.len(),
{
    if items.len() == 0 {
        items
    } else {
        let front = ordered_set(items.drop_last());
        if has_key(front, items.last().key()) {
            front
        } else {
            placed(front, items.last())
        }
    }
}

proof fn lemma_insertion_ascends<V: KeyModel>(s: Seq<V>, x: V, at: int)
    requires
        strictly_ascending(s),
        0 <= at <= s.len(),
        forall|i: int| at <= i < s.len() ==> key_less(x.key(), (#[trigger] s[i]).key()),
        at == 0 || key_less(s[at - 1].key(), x.key()),
    ensures
        strictly_ascending(s.insert(at, x)),
        placed(s, x) == s.insert(at, x),
        !has_key(s, x.key()),
{
    let t = s.insert(at, x);
    assert forall|i: int| 0 <= i < at implies key_less((#[trigger] s[i]).key(), x.key()) by {
        if i < at - 1 {
            assert(key_less(s[i].key(), s[at - 1].key()));
            keys_order_transitively(s[i].key(), s[at - 1].key(), x.key());
        }
    }
    if at > 0 {
        keys_are_totally_ordered(s[at - 1].key(), x.key());
    }
    lemma_placed_at(s, x, at);
    assert forall|i: int, j: int| 0 <= i < j < t.len() implies key_less(
        (#[trigger] t[i]).key(),
        (#[trigger] t[j]).key(),
    ) by {
        let a = if i < at { i } else { i - 1 };
        let b = if j < at { j } else { j - 1 };
        if i == at {
            assert(t[j] == s[b]);
        } else if j == at {
            assert(t[i] == s[a]);
        } else {
            assert(t[i] == s[a] && t[j] == s[b]);
        }
    }
    assert forall|i: int| 0 <= i < s.len() implies (#[trigger] s[i]).key() != x.key() by {
        keys_are_totally_ordered(s[i].key(), x.key());
    }
}

/// A set of items is in strictly ascending order, and it has every key of the
/// items and no other.
pub proof fn sets_ascend_and_keep_every_key<V: KeyModel>(items: Seq<V>, key: Seq<int>)
    ensures
        strictly_ascending(ordered_set(items)),
        has_key(ordered_set(items), key) <==> has_key(items, key),
        ordered_set(items).len() == 0 <==> items.len() == 0,
    decreases items.len(),
{
    if items.len() > 0 {
        let rest = items.drop_last();
        let x = items.last();
        let front = ordered_set(rest);
        sets_ascend_and_keep_every_key(rest, key);
        if has_key(items, key) && x.key() != key {
            let i = choose|i: int| 0 <= i < items.len() && (#[trigger] items[i]).key() == key;
            assert(rest[i].key() == key);
        }
        if has_key(rest, key) {
            let i = choose|i: int| 0 <= i < rest.len() && (#[trigger] rest[i]).key() == key;
            assert(items[i].key() == key);
        }
        if x.key() == key {
            assert(items[items.len() - 1].key() == key);
        }
        if has_key(front, x.key()) {
            let i = choose|i: int| 0 <= i < front.len() && (#[trigger] front[i]).key() == x.key();
            assert(front.len() > 0);
        } else {
            let at = lemma_place_of(front, x, front.len() as int);
            lemma_insertion_ascends(front, x, at);
            let after = front.insert(at, x);
            assert(after[at] == x);
            if has_key(front, key) {
                let i = choose|i: int| 0 <= i < front.len() && (#[trigger] front[i]).key() == key;
                let j = if i < at { i } else { i + 1 };
                assert(after[j].key() == key);
            }
            if has_key(after, key) {
                let j = choose|j: int| 0 <= j < after.len() && (#[trigger] after[j]).key() == key;
                if j != at {
                    let i = if j < at { j } else { j - 1 };
                    assert(front[i].key() == key);
                }
            }
        }
    }
}

proof fn lemma_place_of<V: KeyModel>(s: Seq<V>, x: V, n: int) -> (at: int)
    requires
        0 <= n <= s.len(),
        strictly_ascending(s),
        !has_key(s, x.key()),
        forall|i: int| n <= i < s.len() ==> key_less(x.key(), (#[trigger] s[i]).key()),
    ensures
        0 <= at <= n,
        forall|i: int| at <= i < s.len() ==> key_less(x.key(), (#[trigger] s[i]).key()),
        at == 0 || key_less(s[at - 1].key(), x.key()),
    decreases n,
{
    if n == 0 {
        0
    } else {
        keys_are_totally_ordered(s[n - 1].key(), x.key());
        assert(s[n - 1].key() != x.key());
        if key_less(s[n - 1].key(), x.key()) {
            n
        } else {
            lemma_place_of(s, x, n - 1)
        }
    }
}

/// Makes a set of the items.
pub fn to_set<T: Keyed>(items: Vec<T>) -> (out: Vec<T>) where <T as View>::V: KeyModel
    ensures
        views(out@) == ordered_set(views(items@)),
        strictly_ascending(views(out@)),
{
    let ghost whole = items@;
    let ghost models = views(whole);
    let mut out: Vec<T> = Vec::new();
    assert(models.take(0) =~= views(out@));
    for item in it: items
        invariant
            it.seq() == whole,
            models == views(whole),
            views(out@) == ordered_set(models.take(it.index())),
            strictly_ascending(views(out@)),
    {
        let ghost before = views(out@);
        assert(models.take(it.index() + 1).drop_last() == models.take(it.index()));
        assert(models.take(it.index() + 1).last() == item@);
        let mut at: usize = out.len();
        while at > 0 && item.stand(&out[at - 1]) == Standing::Before
            invariant
                at <= out.len(),
                before == views(out@),
                forall|i: int| at <= i < before.len() ==> key_less(item@.key(), (#[trigger] before[i]).key()),
            decreases at,
        {
            at = at - 1;
            assert(before[at as int] == out@[at as int]@);
        }
        let taken = at > 0 && item.stand(&out[at - 1]) == Standing::Same;
        if taken {
            assert(before[at - 1] == out@[at - 1]@);
            assert(has_key(before, item@.key()));
        } else {
            proof {
                if at > 0 {
                    assert(before[at - 1] == out@[at - 1]@);
                    keys_are_totally_ordered(before[at - 1].key(), item@.key());
                }
                lemma_insertion_ascends(before, item@, at as int);
                assert(views(out@.insert(at as int, item)) =~= before.insert(at as int, item@));
            }
            out.insert(at, item);
        }
    }
    assert(models.take(models.len() as int) == models);
    out
}

impl KeyModel for Seq<char> {
    open spec fn key(self) -> Seq<int> {
        text_key(self)
    }
}

proof fn lemma_one_ascending_order<V: KeyModel>(a: Seq<V>, b: Seq<V>)
    requires
        ascending(a),
        ascending(b),
        distinct_keys(a),
        distinct_keys(b),
        a.to_multiset() == b.to_multiset(),
    ensures
        a == b,
    decreases a.len(),
{
    broadcast use vstd::seq_lib::group_to_multiset_ensures;

    assert(a.len() == a.to_multiset().len());
    assert(b.len() == b.to_multiset().len());
    if a.len() > 0 {
        let n = a.len() - 1;
        assert(a.contains(a[n]) && b.contains(b[n]));
        assert(b.to_multiset().count(a[n]) > 0);
        assert(a.to_multiset().count(b[n]) > 0);
        let i = choose|i: int| 0 <= i < b.len() && b[i] == a[n];
        let j = choose|j: int| 0 <= j < a.len() && a[j] == b[n];
        if i != n {
            assert(!key_less(b[n].key(), b[i].key()));
            assert(b[i].key() != b[n].key());
            keys_are_totally_ordered(b[i].key(), b[n].key());
            if j != n {
                assert(!key_less(a[n].key(), a[j].key()));
            }
        }
        let (front, back) = (a.drop_last(), b.drop_last());
        assert(front.push(a[n]) == a && back.push(b[n]) == b);
        assert(front.to_multiset() =~= back.to_multiset()) by {
            assert(front.to_multiset().insert(a[n]) == a.to_multiset());
            assert(back.to_multiset().insert(b[n]) == b.to_multiset());
            assert forall|x: V| front.to_multiset().count(x) == back.to_multiset().count(x) by {
                assert(front.to_multiset().insert(a[n]).count(x) == back.to_multiset().insert(
                    b[n],
                ).count(x));
            }
        }
        assert(ascending(front)) by {
            assert forall|i: int, j: int| 0 <= i < j < front.len() implies !key_less(
                (#[trigger] front[j]).key(),
                (#[trigger] front[i]).key(),
            ) by {
                assert(front[i] == a[i] && front[j] == a[j]);
            }
        }
        assert(ascending(back)) by {
            assert forall|i: int, j: int| 0 <= i < j < back.len() implies !key_less(
                (#[trigger] back[j]).key(),
                (#[trigger] back[i]).key(),
            ) by {
                assert(back[i] == b[i] && back[j] == b[j]);
            }
        }
        assert(distinct_keys(front)) by {
            assert forall|i: int, j: int| 0 <= i < j < front.len() implies (
            #[trigger] front[i]).key() != (#[trigger] front[j]).key() by {
                assert(front[i] == a[i] && front[j] == a[j]);
            }
        }
        assert(distinct_keys(back)) by {
            assert forall|i: int, j: int| 0 <= i < j < back.len() implies (
            #[trigger] back[i]).key() != (#[trigger] back[j]).key() by {
                assert(back[i] == b[i] && back[j] == b[j]);
            }
        }
        lemma_one_ascending_order(front, back);
    } else {
        assert(a =~= b);
    }
}

/// Sorting forgets the order that the items came in: the same items with different
/// keys are sorted into the same list, however they were given.
pub proof fn sorting_forgets_the_order<V: KeyModel>(a: Seq<V>, b: Seq<V>)
    requires
        distinct_keys(a),
        distinct_keys(b),
        a.to_multiset() == b.to_multiset(),
    ensures
        sorted(a) == sorted(b),
{
    sorting_permutes_and_ascends(a);
    sorting_permutes_and_ascends(b);
    sorting_keeps_distinctness(a);
    sorting_keeps_distinctness(b);
    lemma_one_ascending_order(sorted(a), sorted(b));
}

} // verus!
