//! Sorting names into the order a reader expects.

use crate::sorter::natural::{
    lemma_natural_order_turns, natural_order, std_order, to_std_order, tokens_of, HumanString,
    Order, Token,
};
use std::cmp::Ordering;
use vstd::prelude::*;

verus! {

/// `<[T]>::swap` of std: the elements at `a` and `b` change places, and no
/// other element moves. Both places must lie in the slice.
pub assume_specification<T>[ <[T]>::swap ](slice: &mut [T], a: usize, b: usize)
    requires
        a < old(slice)@.len(),
        b < old(slice)@.len(),
    ensures
        final(slice)@ == old(slice)@.update(a as int, old(slice)@[b as int]).update(
            b as int,
            old(slice)@[a as int],
        ),
;

/// How the name `a` stands to the name `b`. Names of which one cannot be
/// cut into runs do not compare.
pub open spec fn text_order(a: Seq<char>, b: Seq<char>) -> Option<Order> {
    match (tokens_of(a), tokens_of(b)) {
        (Some(x), Some(y)) => natural_order(x, y),
        _ => None,
    }
}

/// Whether `a` has to stand after `b`. Names that do not compare stay as
/// they are.
pub open spec fn follows(a: Seq<char>, b: Seq<char>) -> bool {
    text_order(a, b) == Some(Order::Greater)
}

/// `sorted` with `name` put in from the right end: `name` passes every name
/// that has to stand after it, and stops at the first that has not.
pub open spec fn placed(sorted: Seq<Seq<char>>, name: Seq<char>) -> Seq<Seq<char>>
    decreases sorted.len(),
{
    if sorted.len() == 0 || !follows(sorted.last(), name) {
        sorted.push(name)
    } else {
        placed(sorted.drop_last(), name).push(sorted.last())
    }
}

/// `names` in natural order: each name in turn is put in among those before
/// it. Names that do not have to change places keep their order.
pub open spec fn natural_sorted(names: Seq<Seq<char>>) -> Seq<Seq<char>>
    decreases names.len(),
{
    if names.len() == 0 {
        names
    } else {
        placed(natural_sorted(names.drop_last()), names.last())
    }
}

/// Where `name` comes to stand in `sorted`, given the place `at` at which it
/// stops.
proof fn lemma_placed_at(sorted: Seq<Seq<char>>, name: Seq<char>, at: int)
    requires
        0 <= at <= sorted.len(),
        forall|k: int| at <= k < sorted.len() ==> follows(#[trigger] sorted[k], name),
        at == 0 || !follows(sorted[at - 1], name),
    ensures
        placed(sorted, name) == sorted.subrange(0, at).push(name) + sorted.subrange(
            at,
            sorted.len() as int,
        ),
    decreases sorted.len() - at,
{
    let n = sorted.len() as int;
    if at == n {
        assert(sorted.subrange(0, at).push(name) + sorted.subrange(at, n) =~= sorted.push(name));
    } else {
        let front = sorted.drop_last();
        lemma_placed_at(front, name, at);
        assert(front.subrange(0, at) =~= sorted.subrange(0, at));
        assert((front.subrange(0, at).push(name) + front.subrange(at, n - 1)).push(sorted.last())
            =~= sorted.subrange(0, at).push(name) + sorted.subrange(at, n));
    }
}

/// Whether no name of `names` has to stand before its left neighbour.
pub open spec fn in_natural_order(names: Seq<Seq<char>>) -> bool {
    forall|i: int, j: int|
        0 <= i && j == i + 1 && j < names.len() ==> !follows(
            #[trigger] names[i],
            #[trigger] names[j],
        )
}

/// Of two names, at most one has to stand after the other.
pub proof fn lemma_follows_one_way(a: Seq<char>, b: Seq<char>)
    ensures
        follows(a, b) ==> !follows(b, a),
{
    match (tokens_of(a), tokens_of(b)) {
        (Some(x), Some(y)) => {
            lemma_natural_order_turns(x, y);
        },
        _ => {},
    }
}

/// Putting a name in adds that name and takes none away.
pub proof fn lemma_placed_holds_the_same(sorted: Seq<Seq<char>>, name: Seq<char>)
    ensures
        placed(sorted, name).len() == sorted.len() + 1,
        placed(sorted, name).to_multiset() == sorted.to_multiset().insert(name),
        placed(sorted, name).last() == name || (sorted.len() > 0 && placed(sorted, name).last()
            == sorted.last()),
    decreases sorted.len(),
{
    broadcast use vstd::seq_lib::to_multiset_build;

    if !(sorted.len() == 0 || !follows(sorted.last(), name)) {
        let front = sorted.drop_last();
        lemma_placed_holds_the_same(front, name);
        assert(front.push(sorted.last()) =~= sorted);
    }
}

/// Sorting keeps every name, as often as it was there.
pub proof fn lemma_sorted_holds_the_same(names: Seq<Seq<char>>)
    ensures
        natural_sorted(names).len() == names.len(),
        natural_sorted(names).to_multiset() == names.to_multiset(),
    decreases names.len(),
{
    broadcast use vstd::seq_lib::to_multiset_build;

    if names.len() > 0 {
        let front = names.drop_last();
        lemma_sorted_holds_the_same(front);
        lemma_placed_holds_the_same(natural_sorted(front), names.last());
        assert(front.push(names.last()) =~= names);
    }
}

/// Putting a name in among names that are in order leaves them in order.
pub proof fn lemma_placed_in_order(sorted: Seq<Seq<char>>, name: Seq<char>)
    requires
        in_natural_order(sorted),
    ensures
        in_natural_order(placed(sorted, name)),
    decreases sorted.len(),
{
    if sorted.len() > 0 && follows(sorted.last(), name) {
        let front = sorted.drop_last();
        assert(in_natural_order(front)) by {
            assert forall|i: int, j: int| 0 <= i && j == i + 1 && j < front.len() implies !follows(
                #[trigger] front[i],
                #[trigger] front[j],
            ) by {
                assert(!follows(sorted[i], sorted[j]));
            }
        }
        lemma_placed_in_order(front, name);
        lemma_placed_holds_the_same(front, name);
        lemma_follows_one_way(sorted.last(), name);
        let inner = placed(front, name);
        let now = inner.push(sorted.last());
        assert forall|i: int, j: int| 0 <= i && j == i + 1 && j < now.len() implies !follows(
            #[trigger] now[i],
            #[trigger] now[j],
        ) by {
            if j < inner.len() {
                assert(!follows(inner[i], inner[j]));
            } else if inner.last() != name {
                assert(!follows(sorted[sorted.len() - 2], sorted[sorted.len() - 1]));
            }
        }
    } else {
        let now = sorted.push(name);
        assert forall|i: int, j: int| 0 <= i && j == i + 1 && j < now.len() implies !follows(
            #[trigger] now[i],
            #[trigger] now[j],
        ) by {
            if j < sorted.len() {
                assert(!follows(sorted[i], sorted[j]));
            }
        }
    }
}

/// Sorted names are in order: none has to stand before its left neighbour.
pub proof fn lemma_sorted_in_order(names: Seq<Seq<char>>)
    ensures
        in_natural_order(natural_sorted(names)),
    decreases names.len(),
{
    if names.len() > 0 {
        lemma_sorted_in_order(names.drop_last());
        lemma_placed_in_order(natural_sorted(names.drop_last()), names.last());
    }
}

/// Names that are in order stay as they are.
pub proof fn lemma_sorted_names_stay(names: Seq<Seq<char>>)
    requires
        in_natural_order(names),
    ensures
        natural_sorted(names) == names,
    decreases names.len(),
{
    if names.len() > 0 {
        let front = names.drop_last();
        assert(in_natural_order(front)) by {
            assert forall|i: int, j: int| 0 <= i && j == i + 1 && j < front.len() implies !follows(
                #[trigger] front[i],
                #[trigger] front[j],
            ) by {
                assert(!follows(names[i], names[j]));
            }
        }
        lemma_sorted_names_stay(front);
        if front.len() > 0 {
            assert(!follows(names[names.len() - 2], names[names.len() - 1]));
        }
        assert(front.push(names.last()) =~= names);
    }
}

/// The runs of a name that has been cut, or nothing for one that could not be.
pub open spec fn key_tokens(key: Option<HumanString<'_>>) -> Option<Seq<Token>> {
    match key {
        Some(cut) => Some(cut@),
        None => None,
    }
}

/// The natural order of two names: runs of letters compare byte by byte,
/// runs of digits by the number they stand for, and of two names that agree
/// as far as the shorter one goes the shorter comes first. Gives nothing
/// where a name cannot be cut into runs, or where a run of letters meets a
/// run of digits.
pub fn sorter(a: &str, b: &str) -> (order: Option<Ordering>)
    ensures
        order == std_order(text_order(a@, b@)),
{
    let a = match HumanString::new(a) {
        Some(cut) => cut,
        None => {
            return None;
        },
    };
    let b = match HumanString::new(b) {
        Some(cut) => cut,
        None => {
            return None;
        },
    };
    to_std_order(a.compare(&b))
}

/// Whether the name with the key `a` has to stand after the one with the key `b`.
fn is_after(a: &Option<HumanString<'_>>, b: &Option<HumanString<'_>>) -> (after: bool)
    ensures
        after == match (key_tokens(*a), key_tokens(*b)) {
            (Some(x), Some(y)) => natural_order(x, y) == Some(Order::Greater),
            _ => false,
        },
{
    match (a, b) {
        (Some(x), Some(y)) => match x.compare(y) {
            Some(Order::Greater) => true,
            _ => false,
        },
        _ => false,
    }
}

/// Sorts `items` by their names, of which `keys` holds the runs.
fn sort_by_keys<Item>(
    items: &mut [Item],
    keys: &mut Vec<Option<HumanString<'_>>>,
    Ghost(name): Ghost<spec_fn(Item) -> Seq<char>>,
)
    requires
        old(keys)@.len() == old(items)@.len(),
        forall|k: int|
            0 <= k < old(items)@.len() ==> key_tokens(#[trigger] old(keys)@[k]) == tokens_of(
                name(old(items)@[k]),
            ),
    ensures
        final(items)@.map_values(name) == natural_sorted(old(items)@.map_values(name)),
{
    let n = items.len();
    let ghost given = items@.map_values(name);
    let mut i: usize = 0;
    while i < n
        invariant
            i <= n,
            n == items@.len(),
            n == keys@.len(),
            given.len() == n,
            items@.map_values(name).subrange(0, i as int) == natural_sorted(
                given.subrange(0, i as int),
            ),
            items@.map_values(name).subrange(i as int, n as int) == given.subrange(
                i as int,
                n as int,
            ),
            forall|k: int|
                0 <= k < n ==> key_tokens(#[trigger] keys@[k]) == tokens_of(name(items@[k])),
        decreases n - i,
    {
        let ghost sorted = natural_sorted(given.subrange(0, i as int));
        let ghost moving = given[i as int];
        let mut j: usize = i;
        proof {
            let names = items@.map_values(name);
            assert(names[i as int] == names.subrange(i as int, n as int)[0]);
            assert(given.subrange(i + 1, n as int) =~= given.subrange(i as int, n as int).subrange(
                1,
                n - i,
            ));
        }
        while j > 0 && is_after(&keys[j - 1], &keys[j])
            invariant
                j <= i < n,
                n == items@.len(),
                n == keys@.len(),
                given.len() == n,
                sorted.len() == i,
                items@.map_values(name).subrange(0, i + 1) == sorted.subrange(0, j as int).push(
                    moving,
                ) + sorted.subrange(j as int, i as int),
                items@.map_values(name).subrange(i + 1, n as int) == given.subrange(
                    i + 1,
                    n as int,
                ),
                forall|k: int| j <= k < i ==> follows(#[trigger] sorted[k], moving),
                forall|k: int|
                    0 <= k < n ==> key_tokens(#[trigger] keys@[k]) == tokens_of(name(items@[k])),
            decreases j,
        {
            let ghost before = items@.map_values(name);
            proof {
                assert(before[j - 1] == before.subrange(0, i + 1)[j - 1]);
                assert(before[j as int] == before.subrange(0, i + 1)[j as int]);
            }
            items.swap(j - 1, j);
            keys.as_mut_slice().swap(j - 1, j);
            proof {
                let now = items@.map_values(name);
                assert(now.subrange(0, i + 1) =~= sorted.subrange(0, j - 1).push(moving)
                    + sorted.subrange(j - 1, i as int)) by {
                    let left = now.subrange(0, i + 1);
                    let right = sorted.subrange(0, j - 1).push(moving) + sorted.subrange(
                        j - 1,
                        i as int,
                    );
                    assert forall|k: int| 0 <= k < i + 1 implies left[k] == right[k] by {
                        if k != j - 1 && k != j {
                            assert(before[k] == before.subrange(0, i + 1)[k]);
                        }
                    }
                }
            }
            j -= 1;
        }
        proof {
            let names = items@.map_values(name);
            if j > 0 {
                assert(names[j - 1] == names.subrange(0, i + 1)[j - 1]);
                assert(names[j as int] == names.subrange(0, i + 1)[j as int]);
            }
            lemma_placed_at(sorted, moving, j as int);
            assert(given.subrange(0, i + 1).drop_last() =~= given.subrange(0, i as int));
        }
        i += 1;
    }
    assert(given.subrange(0, n as int) =~= given);
}

/// Things that can be put into the order of their names.
pub trait NaturalSort {
    /// The names, in their order.
    spec fn names(&self) -> Seq<Seq<char>>;

    /// Puts the names into natural order.
    fn natural_sort(&mut self)
        ensures
            final(self).names() == natural_sorted(old(self).names()),
    ;
}

impl<'a> NaturalSort for [&'a str] {
    open spec fn names(&self) -> Seq<Seq<char>> {
        self@.map_values(|text: &'a str| text@)
    }

    fn natural_sort(&mut self) {
        let mut keys: Vec<Option<HumanString<'a>>> = Vec::new();
        let mut i: usize = 0;
        while i < self.len()
            invariant
                i <= self@.len(),
                self@ == old(self)@,
                keys@.len() == i,
                forall|k: int|
                    0 <= k < i ==> key_tokens(#[trigger] keys@[k]) == tokens_of(self@[k]@),
            decreases self@.len() - i,
        {
            let text: &'a str = self[i];
            keys.push(HumanString::new(text));
            i += 1;
        }
        sort_by_keys(self, &mut keys, Ghost(|text: &'a str| text@));
    }
}

impl NaturalSort for [String] {
    open spec fn names(&self) -> Seq<Seq<char>> {
        self@.map_values(|text: String| text@)
    }

    fn natural_sort(&mut self) {
        let mut copies: Vec<String> = Vec::new();
        let mut i: usize = 0;
        while i < self.len()
            invariant
                i <= self@.len(),
                self@ == old(self)@,
                copies@.len() == i,
                forall|k: int| 0 <= k < i ==> (#[trigger] copies@[k])@ == self@[k]@,
            decreases self@.len() - i,
        {
            copies.push(self[i].clone());
            i += 1;
        }
        let mut keys: Vec<Option<HumanString<'_>>> = Vec::new();
        let mut i: usize = 0;
        while i < copies.len()
            invariant
                i <= copies@.len(),
                copies@.len() == self@.len(),
                self@ == old(self)@,
                keys@.len() == i,
                forall|k: int|
                    0 <= k < copies@.len() ==> (#[trigger] copies@[k])@ == self@[k]@,
                forall|k: int|
                    0 <= k < i ==> key_tokens(#[trigger] keys@[k]) == tokens_of(self@[k]@),
            decreases copies@.len() - i,
        {
            keys.push(HumanString::new(copies[i].as_str()));
            i += 1;
        }
        sort_by_keys(self, &mut keys, Ghost(|text: String| text@));
    }
}

} // verus!
