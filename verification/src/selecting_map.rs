//! An ordered keyed collection with a single movable selection and a dirty
//! flag. Keys are the numeric identifiers handed out by the audio server;
//! iteration always yields ascending key order. The selection is tracked by
//! key, not by position, so that insertions and removals elsewhere never
//! relocate it; only removing the selected key itself triggers reassignment.

use vstd::prelude::*;

verus! {

/// A sequence of keys in strictly ascending order.
pub open spec fn strictly_sorted(keys: Seq<u32>) -> bool {
    forall|i: int, j: int| 0 <= i < j < keys.len() ==> keys[i] < keys[j]
}

/// The keys of a sequence of key/value pairs, in the same order.
pub open spec fn entry_keys<V>(s: Seq<(u32, V)>) -> Seq<u32> {
    s.map_values(|p: (u32, V)| p.0)
}

/// No key occurs twice in the pair sequence.
pub open spec fn distinct_keys<V>(s: Seq<(u32, V)>) -> bool {
    forall|p: int, q: int| 0 <= p < q < s.len() ==> s[p].0 != s[q].0
}

pub proof fn lemma_sorted_keys_distinct<V>(s: Seq<(u32, V)>)
    requires
        strictly_sorted(entry_keys(s)),
    ensures
        distinct_keys(s),
{
    assert forall|p: int, q: int| 0 <= p < q < s.len() implies s[p].0 != s[q].0 by {
        assert(entry_keys(s)[p] == s[p].0);
        assert(entry_keys(s)[q] == s[q].0);
    }
}

/// A key is in the domain of the derived map exactly when some pair holds it.
pub proof fn lemma_seq_to_map_dom<V>(s: Seq<(u32, V)>)
    ensures
        forall|k: u32| #[trigger] seq_to_map(s).dom().contains(k) <==> entry_keys(s).contains(k),
    decreases s.len(),
{
    if s.len() == 0 {
        assert forall|k: u32| !(#[trigger] entry_keys(s).contains(k)) by {
            assert(entry_keys(s).len() == 0);
        }
    } else {
        lemma_seq_to_map_dom(s.drop_first());
        assert(seq_to_map(s) == seq_to_map(s.drop_first()).insert(s.first().0, s.first().1));
        assert forall|k: u32| #[trigger] seq_to_map(s).dom().contains(k) <==> entry_keys(s).contains(
            k,
        ) by {
            if seq_to_map(s).dom().contains(k) {
                if k == s.first().0 {
                    assert(entry_keys(s)[0] == k);
                } else {
                    assert(seq_to_map(s.drop_first()).dom().contains(k));
                    assert(entry_keys(s.drop_first()).contains(k));
                    let i = choose|i: int|
                        0 <= i < entry_keys(s.drop_first()).len() && entry_keys(s.drop_first())[i]
                            == k;
                    assert(entry_keys(s)[i + 1] == k);
                }
            }
            if entry_keys(s).contains(k) {
                let i = choose|i: int| 0 <= i < entry_keys(s).len() && entry_keys(s)[i] == k;
                if i == 0 {
                    assert(k == s.first().0);
                } else {
                    assert(entry_keys(s.drop_first())[i - 1] == k);
                    assert(entry_keys(s.drop_first()).contains(k));
                    assert(seq_to_map(s.drop_first()).dom().contains(k));
                }
            }
        }
    }
}

/// With distinct keys, looking a stored key up in the derived map yields the
/// value paired with it.
pub proof fn lemma_seq_to_map_index<V>(s: Seq<(u32, V)>, i: int)
    requires
        distinct_keys(s),
        0 <= i < s.len(),
    ensures
        seq_to_map(s).dom().contains(s[i].0),
        seq_to_map(s)[s[i].0] == s[i].1,
    decreases s.len(),
{
    if i == 0 {
    } else {
        assert forall|p: int, q: int|
            0 <= p < q < s.drop_first().len() implies s.drop_first()[p].0 != s.drop_first()[q].0 by {
            assert(s.drop_first()[p] == s[p + 1]);
            assert(s.drop_first()[q] == s[q + 1]);
        }
        lemma_seq_to_map_index(s.drop_first(), i - 1);
        assert(s.drop_first()[i - 1] == s[i]);
        assert(s[0].0 != s[i].0);
    }
}

/// The mapping described by a sequence of key/value pairs; earlier pairs win
/// when a key repeats (which a well-formed registry never allows).
pub open spec fn seq_to_map<V>(s: Seq<(u32, V)>) -> Map<u32, V>
    decreases s.len(),
{
    if s.len() == 0 {
        Map::empty()
    } else {
        seq_to_map(s.drop_first()).insert(s.first().0, s.first().1)
    }
}

/// A test over entries, used to skip hidden ones during navigation and
/// counting without removing them from the registry.
pub trait EntryFilter<V> {
    /// The test as a mathematical predicate.
    spec fn spec_accepts(&self, v: V) -> bool;

    /// The executable form of the same test.
    fn accepts(&self, v: &V) -> (r: bool)
        ensures
            r == self.spec_accepts(*v),
    ;
}

/// The predicate that accepts every entry: plain navigation is filtered
/// navigation under this predicate.
pub open spec fn accept_all<V>() -> spec_fn(V) -> bool {
    |v: V| true
}

/// The predicate tested by an [`EntryFilter`].
pub open spec fn filter_pred<V, F: EntryFilter<V>>(f: F) -> spec_fn(V) -> bool {
    |v: V| f.spec_accepts(v)
}

/// The values of the entries accepted by `p`, in sequence order.
pub open spec fn matching_values<V>(s: Seq<(u32, V)>, p: spec_fn(V) -> bool) -> Seq<V>
    decreases s.len(),
{
    if s.len() == 0 {
        Seq::empty()
    } else if p(s.last().1) {
        matching_values(s.drop_last(), p).push(s.last().1)
    } else {
        matching_values(s.drop_last(), p)
    }
}

/// Replacing the value at one position changes the derived map at that
/// position's key alone.
pub proof fn lemma_seq_to_map_update_value<V>(s: Seq<(u32, V)>, i: int, v: V)
    requires
        distinct_keys(s),
        0 <= i < s.len(),
    ensures
        seq_to_map(s.update(i, (s[i].0, v))) == seq_to_map(s).insert(s[i].0, v),
{
    let s2 = s.update(i, (s[i].0, v));
    assert(entry_keys(s2) =~= entry_keys(s));
    lemma_seq_to_map_dom(s);
    lemma_seq_to_map_dom(s2);
    assert(seq_to_map(s2) =~= seq_to_map(s).insert(s[i].0, v)) by {
        assert forall|k: u32|
            seq_to_map(s2).dom().contains(k) implies seq_to_map(s).insert(
            s[i].0,
            v,
        ).dom().contains(k) && seq_to_map(s2)[k] == seq_to_map(s).insert(s[i].0, v)[k] by {
            let j = choose|j: int| 0 <= j < s2.len() && entry_keys(s2)[j] == k;
            lemma_seq_to_map_index(s2, j);
            if j == i {
                assert(k == s[i].0);
            } else {
                assert(s2[j] == s[j]);
                assert(s[j].0 != s[i].0);
                lemma_seq_to_map_index(s, j);
            }
        }
        assert forall|k: u32|
            seq_to_map(s).insert(s[i].0, v).dom().contains(k) implies seq_to_map(
            s2,
        ).dom().contains(k) by {
            assert(entry_keys(s2)[i] == s[i].0);
        }
    }
}

/// The key of the first entry whose key lies strictly above `key` and whose
/// value satisfies `p`.
pub open spec fn first_match_above<V>(
    s: Seq<(u32, V)>,
    key: u32,
    p: spec_fn(V) -> bool,
) -> Option<u32>
    decreases s.len(),
{
    if s.len() == 0 {
        Option::None
    } else if s.first().0 > key && p(s.first().1) {
        Option::Some(s.first().0)
    } else {
        first_match_above(s.drop_first(), key, p)
    }
}

/// The key of the last entry whose key lies strictly below `key` and whose
/// value satisfies `p`.
pub open spec fn last_match_below<V>(
    s: Seq<(u32, V)>,
    key: u32,
    p: spec_fn(V) -> bool,
) -> Option<u32>
    decreases s.len(),
{
    if s.len() == 0 {
        Option::None
    } else if s.last().0 < key && p(s.last().1) {
        Option::Some(s.last().0)
    } else {
        last_match_below(s.drop_last(), key, p)
    }
}

/// Where [`SelectingMap::filtered_select_next_else_prev`] leaves the
/// selection: the next accepted key, else the previous accepted key, else
/// wherever it was.
pub open spec fn reanchored<V>(
    s: Seq<(u32, V)>,
    sel: Option<u32>,
    p: spec_fn(V) -> bool,
) -> Option<u32> {
    match sel {
        Option::None => Option::None,
        Option::Some(c) => match first_match_above(s, c, p) {
            Option::Some(n) => Option::Some(n),
            Option::None => match last_match_below(s, c, p) {
                Option::Some(pk) => Option::Some(pk),
                Option::None => Option::Some(c),
            },
        },
    }
}

/// On a sorted sequence, `first_match_above` yields the smallest stored key
/// above `key` whose value passes the predicate, or nothing when no stored
/// key above `key` passes it.
pub proof fn lemma_first_match_above<V>(s: Seq<(u32, V)>, key: u32, p: spec_fn(V) -> bool)
    requires
        strictly_sorted(entry_keys(s)),
    ensures
        match first_match_above(s, key, p) {
            Option::Some(k2) => {
                &&& entry_keys(s).contains(k2)
                &&& k2 > key
                &&& p(seq_to_map(s)[k2])
                &&& forall|k3: u32|
                    #[trigger] entry_keys(s).contains(k3) && k3 > key && p(seq_to_map(s)[k3])
                        ==> k2 <= k3
            },
            Option::None => forall|k3: u32|
                #[trigger] entry_keys(s).contains(k3) && k3 > key ==> !p(seq_to_map(s)[k3]),
        },
    decreases s.len(),
{
    lemma_sorted_keys_distinct(s);
    if s.len() == 0 {
        assert forall|k3: u32| !(#[trigger] entry_keys(s).contains(k3)) by {
            assert(entry_keys(s).len() == 0);
        }
    } else {
        let rest = s.drop_first();
        assert(entry_keys(rest) =~= entry_keys(s).drop_first());
        assert(seq_to_map(s) == seq_to_map(rest).insert(s.first().0, s.first().1));
        lemma_seq_to_map_dom(s);
        lemma_seq_to_map_dom(rest);
        lemma_seq_to_map_index(s, 0);
        // Values stored behind keys other than the first agree between `s`
        // and its tail.
        assert forall|k3: u32|
            entry_keys(rest).contains(k3) implies entry_keys(s).contains(k3) && k3 != s.first().0
            && seq_to_map(s)[k3] == seq_to_map(rest)[k3] by {
            let j = choose|j: int| 0 <= j < rest.len() && entry_keys(rest)[j] == k3;
            assert(entry_keys(s)[j + 1] == k3);
            assert(entry_keys(s)[0] != entry_keys(s)[j + 1]);
        }
        assert forall|k3: u32|
            entry_keys(s).contains(k3) && k3 != s.first().0 implies entry_keys(rest).contains(
            k3,
        ) by {
            let j = choose|j: int| 0 <= j < s.len() && entry_keys(s)[j] == k3;
            assert(j != 0);
            assert(entry_keys(rest)[j - 1] == k3);
        }
        if s.first().0 > key && p(s.first().1) {
            let k2 = s.first().0;
            assert(entry_keys(s)[0] == k2);
            assert forall|k3: u32|
                #[trigger] entry_keys(s).contains(k3) && k3 > key && p(seq_to_map(s)[k3]) implies k2
                <= k3 by {
                let j = choose|j: int| 0 <= j < s.len() && entry_keys(s)[j] == k3;
                if j > 0 {
                    assert(entry_keys(s)[0] < entry_keys(s)[j]);
                }
            }
        } else {
            lemma_first_match_above(rest, key, p);
            match first_match_above(rest, key, p) {
                Option::Some(k2) => {
                    assert forall|k3: u32|
                        #[trigger] entry_keys(s).contains(k3) && k3 > key && p(
                            seq_to_map(s)[k3],
                        ) implies k2 <= k3 by {
                        if k3 == s.first().0 {
                            // The first entry was skipped because its key is
                            // not above `key` or its value fails `p`.
                            assert(false);
                        } else {
                            assert(entry_keys(rest).contains(k3));
                        }
                    }
                },
                Option::None => {
                    assert forall|k3: u32|
                        #[trigger] entry_keys(s).contains(k3) && k3 > key implies !p(
                        seq_to_map(s)[k3],
                    ) by {
                        if k3 != s.first().0 {
                            assert(entry_keys(rest).contains(k3));
                        }
                    }
                },
            }
        }
    }
}

/// The mirror image of [`lemma_first_match_above`]: `last_match_below` yields
/// the largest stored key below `key` whose value passes the predicate.
pub proof fn lemma_last_match_below<V>(s: Seq<(u32, V)>, key: u32, p: spec_fn(V) -> bool)
    requires
        strictly_sorted(entry_keys(s)),
    ensures
        match last_match_below(s, key, p) {
            Option::Some(k2) => {
                &&& entry_keys(s).contains(k2)
                &&& k2 < key
                &&& p(seq_to_map(s)[k2])
                &&& forall|k3: u32|
                    #[trigger] entry_keys(s).contains(k3) && k3 < key && p(seq_to_map(s)[k3])
                        ==> k3 <= k2
            },
            Option::None => forall|k3: u32|
                #[trigger] entry_keys(s).contains(k3) && k3 < key ==> !p(seq_to_map(s)[k3]),
        },
    decreases s.len(),
{
    lemma_sorted_keys_distinct(s);
    if s.len() == 0 {
        assert forall|k3: u32| !(#[trigger] entry_keys(s).contains(k3)) by {
            assert(entry_keys(s).len() == 0);
        }
    } else {
        let head = s.drop_last();
        let n = s.len() - 1;
        assert(entry_keys(head) =~= entry_keys(s).drop_last());
        lemma_seq_to_map_dom(s);
        lemma_seq_to_map_dom(head);
        lemma_seq_to_map_index(s, n);
        assert forall|k3: u32|
            entry_keys(head).contains(k3) implies entry_keys(s).contains(k3) && k3 != s.last().0
            && seq_to_map(s)[k3] == seq_to_map(head)[k3] by {
            let j = choose|j: int| 0 <= j < head.len() && entry_keys(head)[j] == k3;
            assert(entry_keys(s)[j] == k3);
            assert(entry_keys(s)[j] != entry_keys(s)[n]);
            let i3 = choose|i3: int| 0 <= i3 < s.len() && entry_keys(s)[i3] == k3;
            assert(i3 != n);
            lemma_seq_to_map_index(s, i3);
            assert forall|a: int, b: int|
                0 <= a < b < head.len() implies head[a].0 != head[b].0 by {
                assert(entry_keys(head)[a] == entry_keys(s)[a]);
            }
            lemma_seq_to_map_index(head, i3);
        }
        assert forall|k3: u32|
            entry_keys(s).contains(k3) && k3 != s.last().0 implies entry_keys(head).contains(
            k3,
        ) by {
            let j = choose|j: int| 0 <= j < s.len() && entry_keys(s)[j] == k3;
            assert(j != n);
            assert(entry_keys(head)[j] == k3);
        }
        if s.last().0 < key && p(s.last().1) {
            let k2 = s.last().0;
            assert(entry_keys(s)[n] == k2);
            assert forall|k3: u32|
                #[trigger] entry_keys(s).contains(k3) && k3 < key && p(seq_to_map(s)[k3]) implies k3
                <= k2 by {
                let j = choose|j: int| 0 <= j < s.len() && entry_keys(s)[j] == k3;
                if j < n {
                    assert(entry_keys(s)[j] < entry_keys(s)[n]);
                }
            }
        } else {
            lemma_last_match_below(head, key, p);
            match last_match_below(head, key, p) {
                Option::Some(k2) => {
                    assert forall|k3: u32|
                        #[trigger] entry_keys(s).contains(k3) && k3 < key && p(
                            seq_to_map(s)[k3],
                        ) implies k3 <= k2 by {
                        if k3 == s.last().0 {
                            assert(false);
                        } else {
                            assert(entry_keys(head).contains(k3));
                        }
                    }
                },
                Option::None => {
                    assert forall|k3: u32|
                        #[trigger] entry_keys(s).contains(k3) && k3 < key implies !p(
                        seq_to_map(s)[k3],
                    ) by {
                        if k3 != s.last().0 {
                            assert(entry_keys(head).contains(k3));
                        }
                    }
                },
            }
        }
    }
}

/// The ordered selection registry: a keyed collection held in ascending key
/// order, one selected key, and a dirty flag consumed by the render loop.
pub struct SelectingMap<V> {
    contents: Vec<(u32, V)>,
    selected_index: Option<u32>,
    changed: bool,
}

impl<V> SelectingMap<V> {
    /// The stored entries in iteration order.
    pub closed spec fn entries(self) -> Seq<(u32, V)> {
        self.contents@
    }

    /// The keys in iteration order.
    pub open spec fn key_seq(self) -> Seq<u32> {
        entry_keys(self.entries())
    }

    pub open spec fn contains_key(self, k: u32) -> bool {
        self.key_seq().contains(k)
    }

    pub closed spec fn selected_key(self) -> Option<u32> {
        self.selected_index
    }

    pub closed spec fn is_changed(self) -> bool {
        self.changed
    }

    /// The registry invariant: iteration order is strictly ascending, the
    /// selection is absent exactly when the registry is empty, and a present
    /// selection always names a stored key.
    pub open spec fn inv(self) -> bool {
        &&& strictly_sorted(self.key_seq())
        &&& match self.selected_key() {
            Option::None => self.key_seq().len() == 0,
            Option::Some(k) => self.contains_key(k),
        }
    }

    pub fn new() -> (r: SelectingMap<V>)
        ensures
            r.inv(),
            r@ == Map::<u32, V>::empty(),
            r.key_seq() == Seq::<u32>::empty(),
            r.selected_key() is None,
            !r.is_changed(),
    {
        let r = SelectingMap { contents: Vec::new(), selected_index: None, changed: false };
        proof {
            assert(r.key_seq() =~= Seq::<u32>::empty());
            assert(r@ =~= Map::<u32, V>::empty());
        }
        r
    }

    /// The position of the first entry whose key is not below `key`.
    fn lower_bound(&self, key: u32) -> (i: usize)
        requires
            strictly_sorted(self.key_seq()),
        ensures
            i <= self.entries().len(),
            forall|j: int| 0 <= j < i ==> self.entries()[j].0 < key,
            i < self.entries().len() ==> self.entries()[i as int].0 >= key,
    {
        let mut i: usize = 0;
        while i < self.contents.len() && self.contents[i].0 < key
            invariant
                i <= self.contents.len(),
                forall|j: int| 0 <= j < i ==> self.contents@[j].0 < key,
            decreases self.contents.len() - i,
        {
            i = i + 1;
        }
        i
    }

    /// Inserts or replaces the entry for `index`. A registry that was empty
    /// selects the new key; an existing selection is kept. Always marks the
    /// registry changed.
    pub fn update(&mut self, index: u32, info: V)
        requires
            old(self).inv(),
        ensures
            final(self).inv(),
            final(self)@ == old(self)@.insert(index, info),
            forall|k: u32|
                final(self).contains_key(k) <==> (k == index || old(self).contains_key(k)),
            old(self).contains_key(index) ==> final(self).key_seq() == old(self).key_seq(),
            !old(self).contains_key(index) ==> final(self).key_seq().len() == old(
                self,
            ).key_seq().len() + 1,
            final(self).selected_key() == if old(self).selected_key() is Some {
                old(self).selected_key()
            } else {
                Option::Some(index)
            },
            final(self).is_changed(),
    {
        let ghost old_entries = self.contents@;
        let i = self.lower_bound(index);
        let replacing = i < self.contents.len() && self.contents[i].0 == index;
        if replacing {
            self.contents.remove(i);
        }
        self.contents.insert(i, (index, info));
        proof {
            lemma_sorted_keys_distinct(old_entries);
            if replacing {
                assert(self.contents@ =~= old_entries.update(i as int, (index, info)));
                assert(entry_keys(self.contents@) =~= entry_keys(old_entries));
            } else {
                // `index` is absent: everything left of `i` is below it and
                // everything from `i` on is above it.
                assert forall|j: int|
                    0 <= j < old_entries.len() implies old_entries[j].0 != index by {
                    if j >= i {
                        assert(entry_keys(old_entries)[i as int] < entry_keys(old_entries)[j]
                            || i == j);
                    }
                }
                assert(!entry_keys(old_entries).contains(index));
                assert forall|j: int|
                    0 <= j < entry_keys(self.contents@).len() implies entry_keys(self.contents@)[j]
                    == entry_keys(old_entries).insert(i as int, index)[j] by {
                    if j < i {
                        assert(self.contents@[j] == old_entries[j]);
                    } else if j == i {
                    } else {
                        assert(self.contents@[j] == old_entries[j - 1]);
                    }
                }
                assert(entry_keys(self.contents@) =~= entry_keys(old_entries).insert(
                    i as int,
                    index,
                ));
                assert(strictly_sorted(entry_keys(self.contents@)));
            }
            lemma_sorted_keys_distinct(self.contents@);
            lemma_seq_to_map_dom(old_entries);
            lemma_seq_to_map_dom(self.contents@);
            assert forall|k: u32|
                entry_keys(self.contents@).contains(k) <==> (k == index || entry_keys(
                    old_entries,
                ).contains(k)) by {
                if entry_keys(self.contents@).contains(k) {
                    let j = choose|j: int|
                        0 <= j < self.contents@.len() && entry_keys(self.contents@)[j] == k;
                    if k != index {
                        if j < i {
                            assert(entry_keys(old_entries)[j] == k);
                        } else if replacing {
                            assert(entry_keys(old_entries)[j] == k);
                        } else {
                            assert(entry_keys(old_entries)[j - 1] == k);
                        }
                    }
                } else {
                }
                if k == index {
                    assert(entry_keys(self.contents@)[i as int] == index);
                } else if entry_keys(old_entries).contains(k) {
                    let j = choose|j: int|
                        0 <= j < old_entries.len() && entry_keys(old_entries)[j] == k;
                    if j < i {
                        assert(entry_keys(self.contents@)[j] == k);
                    } else if replacing {
                        assert(entry_keys(self.contents@)[j] == k);
                    } else {
                        assert(entry_keys(self.contents@)[j + 1] == k);
                    }
                }
            }
            assert(seq_to_map(self.contents@) =~= seq_to_map(old_entries).insert(index, info)) by {
                assert forall|k: u32|
                    seq_to_map(self.contents@).dom().contains(k) implies seq_to_map(
                    old_entries,
                ).insert(index, info).dom().contains(k) && seq_to_map(self.contents@)[k]
                    == seq_to_map(old_entries).insert(index, info)[k] by {
                    let j = choose|j: int|
                        0 <= j < self.contents@.len() && entry_keys(self.contents@)[j] == k;
                    lemma_seq_to_map_index(self.contents@, j);
                    if k == index {
                        assert(j == i) by {
                            if j != i {
                                assert(entry_keys(self.contents@)[i as int] == index);
                            }
                        }
                    } else {
                        if j < i {
                            assert(old_entries[j] == self.contents@[j]);
                            lemma_seq_to_map_index(old_entries, j);
                        } else if replacing {
                            assert(old_entries[j] == self.contents@[j]);
                            lemma_seq_to_map_index(old_entries, j);
                        } else {
                            assert(old_entries[j - 1] == self.contents@[j]);
                            lemma_seq_to_map_index(old_entries, j - 1);
                        }
                    }
                }
                assert forall|k: u32|
                    seq_to_map(old_entries).insert(index, info).dom().contains(
                        k,
                    ) implies seq_to_map(self.contents@).dom().contains(k) by {}
            }
        }
        if self.selected_index.is_none() {
            assert(self.contents@.len() == 1);
            assert(self.contents@[0].0 == index);
            self.selected_index = Some(self.contents[0].0);
        }
        self.changed = true;
        proof {
            if old(self).selected_key() is Some {
                let k = old(self).selected_key()->0;
                assert(entry_keys(old_entries).contains(k));
            }
        }
    }

    /// The smallest stored key strictly above `key`.
    pub open spec fn spec_next_key(self, key: u32) -> Option<u32> {
        first_match_above(self.entries(), key, accept_all::<V>())
    }

    /// The largest stored key strictly below `key`.
    pub open spec fn spec_prev_key(self, key: u32) -> Option<u32> {
        last_match_below(self.entries(), key, accept_all::<V>())
    }

    /// The smallest stored key strictly above `key` whose entry the filter
    /// accepts.
    pub open spec fn spec_filtered_next_key<F: EntryFilter<V>>(self, key: u32, f: F) -> Option<
        u32,
    > {
        first_match_above(self.entries(), key, filter_pred(f))
    }

    /// The largest stored key strictly below `key` whose entry the filter
    /// accepts.
    pub open spec fn spec_filtered_prev_key<F: EntryFilter<V>>(self, key: u32, f: F) -> Option<
        u32,
    > {
        last_match_below(self.entries(), key, filter_pred(f))
    }

    pub fn next_key(&self, key: u32) -> (r: Option<u32>)
        requires
            self.inv(),
        ensures
            r == self.spec_next_key(key),
    {
        let ghost p = accept_all::<V>();
        let mut i: usize = 0;
        proof {
            assert(self.contents@.skip(0) =~= self.contents@);
        }
        while i < self.contents.len()
            invariant
                p == accept_all::<V>(),
                i <= self.contents.len(),
                first_match_above(self.contents@, key, p) == first_match_above(
                    self.contents@.skip(i as int),
                    key,
                    p,
                ),
            decreases self.contents.len() - i,
        {
            proof {
                assert(self.contents@.skip(i as int).first() == self.contents@[i as int]);
                assert(self.contents@.skip(i as int).drop_first() =~= self.contents@.skip(
                    i as int + 1,
                ));
            }
            if self.contents[i].0 > key {
                return Some(self.contents[i].0);
            }
            i = i + 1;
        }
        None
    }

    pub fn prev_key(&self, key: u32) -> (r: Option<u32>)
        requires
            self.inv(),
        ensures
            r == self.spec_prev_key(key),
    {
        let ghost p = accept_all::<V>();
        let mut i: usize = self.contents.len();
        proof {
            assert(self.contents@.take(self.contents@.len() as int) =~= self.contents@);
        }
        while i > 0
            invariant
                p == accept_all::<V>(),
                i <= self.contents.len(),
                last_match_below(self.contents@, key, p) == last_match_below(
                    self.contents@.take(i as int),
                    key,
                    p,
                ),
            decreases i,
        {
            proof {
                assert(self.contents@.take(i as int).last() == self.contents@[i as int - 1]);
                assert(self.contents@.take(i as int).drop_last() =~= self.contents@.take(
                    i as int - 1,
                ));
            }
            if self.contents[i - 1].0 < key {
                return Some(self.contents[i - 1].0);
            }
            i = i - 1;
        }
        None
    }

    pub fn filtered_next_key<F: EntryFilter<V>>(&self, key: u32, filter: &F) -> (r: Option<u32>)
        requires
            self.inv(),
        ensures
            r == self.spec_filtered_next_key(key, *filter),
    {
        let ghost p = filter_pred(*filter);
        let mut i: usize = 0;
        proof {
            assert(self.contents@.skip(0) =~= self.contents@);
        }
        while i < self.contents.len()
            invariant
                p == filter_pred(*filter),
                i <= self.contents.len(),
                first_match_above(self.contents@, key, p) == first_match_above(
                    self.contents@.skip(i as int),
                    key,
                    p,
                ),
            decreases self.contents.len() - i,
        {
            proof {
                assert(self.contents@.skip(i as int).first() == self.contents@[i as int]);
                assert(self.contents@.skip(i as int).drop_first() =~= self.contents@.skip(
                    i as int + 1,
                ));
            }
            if self.contents[i].0 > key && filter.accepts(&self.contents[i].1) {
                return Some(self.contents[i].0);
            }
            i = i + 1;
        }
        None
    }

    pub fn filtered_prev_key<F: EntryFilter<V>>(&self, key: u32, filter: &F) -> (r: Option<u32>)
        requires
            self.inv(),
        ensures
            r == self.spec_filtered_prev_key(key, *filter),
    {
        let ghost p = filter_pred(*filter);
        let mut i: usize = self.contents.len();
        proof {
            assert(self.contents@.take(self.contents@.len() as int) =~= self.contents@);
        }
        while i > 0
            invariant
                p == filter_pred(*filter),
                i <= self.contents.len(),
                last_match_below(self.contents@, key, p) == last_match_below(
                    self.contents@.take(i as int),
                    key,
                    p,
                ),
            decreases i,
        {
            proof {
                assert(self.contents@.take(i as int).last() == self.contents@[i as int - 1]);
                assert(self.contents@.take(i as int).drop_last() =~= self.contents@.take(
                    i as int - 1,
                ));
            }
            if self.contents[i - 1].0 < key && filter.accepts(&self.contents[i - 1].1) {
                return Some(self.contents[i - 1].0);
            }
            i = i - 1;
        }
        None
    }

    /// Moves the selection to the next larger key, marking the registry
    /// changed; at the largest key (and with no selection) nothing changes,
    /// not even the dirty flag.
    pub fn select_next(&mut self)
        requires
            old(self).inv(),
        ensures
            final(self).inv(),
            final(self).entries() == old(self).entries(),
            final(self)@ == old(self)@,
            match old(self).selected_key() {
                Option::None => *final(self) == *old(self),
                Option::Some(c) => match old(self).spec_next_key(c) {
                    Option::Some(n) => final(self).selected_key() == Option::Some(n)
                        && final(self).is_changed(),
                    Option::None => *final(self) == *old(self),
                },
            },
    {
        if let Some(current) = self.selected_index {
            let nk = self.next_key(current);
            if let Some(n) = nk {
                proof {
                    lemma_first_match_above(self.contents@, current, accept_all::<V>());
                }
                self.selected_index = Some(n);
                self.changed = true;
            }
        }
    }

    /// Moves the selection to the next smaller key, marking the registry
    /// changed; at the smallest key (and with no selection) nothing changes.
    pub fn select_prev(&mut self)
        requires
            old(self).inv(),
        ensures
            final(self).inv(),
            final(self).entries() == old(self).entries(),
            final(self)@ == old(self)@,
            match old(self).selected_key() {
                Option::None => *final(self) == *old(self),
                Option::Some(c) => match old(self).spec_prev_key(c) {
                    Option::Some(n) => final(self).selected_key() == Option::Some(n)
                        && final(self).is_changed(),
                    Option::None => *final(self) == *old(self),
                },
            },
    {
        if let Some(current) = self.selected_index {
            let pk = self.prev_key(current);
            if let Some(n) = pk {
                proof {
                    lemma_last_match_below(self.contents@, current, accept_all::<V>());
                }
                self.selected_index = Some(n);
                self.changed = true;
            }
        }
    }

    /// Like [`Self::select_next`], but skips entries the filter rejects. The
    /// current selection may itself fail the filter; navigation simply jumps
    /// over hidden entries.
    pub fn filtered_select_next<F: EntryFilter<V>>(&mut self, filter: &F)
        requires
            old(self).inv(),
        ensures
            final(self).inv(),
            final(self).entries() == old(self).entries(),
            final(self)@ == old(self)@,
            match old(self).selected_key() {
                Option::None => *final(self) == *old(self),
                Option::Some(c) => match old(self).spec_filtered_next_key(c, *filter) {
                    Option::Some(n) => final(self).selected_key() == Option::Some(n)
                        && final(self).is_changed(),
                    Option::None => *final(self) == *old(self),
                },
            },
    {
        if let Some(current) = self.selected_index {
            let nk = self.filtered_next_key(current, filter);
            if let Some(n) = nk {
                proof {
                    lemma_first_match_above(self.contents@, current, filter_pred(*filter));
                }
                self.selected_index = Some(n);
                self.changed = true;
            }
        }
    }

    /// Like [`Self::select_prev`], but skips entries the filter rejects.
    pub fn filtered_select_prev<F: EntryFilter<V>>(&mut self, filter: &F)
        requires
            old(self).inv(),
        ensures
            final(self).inv(),
            final(self).entries() == old(self).entries(),
            final(self)@ == old(self)@,
            match old(self).selected_key() {
                Option::None => *final(self) == *old(self),
                Option::Some(c) => match old(self).spec_filtered_prev_key(c, *filter) {
                    Option::Some(n) => final(self).selected_key() == Option::Some(n)
                        && final(self).is_changed(),
                    Option::None => *final(self) == *old(self),
                },
            },
    {
        if let Some(current) = self.selected_index {
            let pk = self.filtered_prev_key(current, filter);
            if let Some(n) = pk {
                proof {
                    lemma_last_match_below(self.contents@, current, filter_pred(*filter));
                }
                self.selected_index = Some(n);
                self.changed = true;
            }
        }
    }

    /// Re-anchors the selection after a visibility filter changes: prefers
    /// the next accepted key, then the previous one, and stays put when no
    /// entry is accepted at all. The dirty flag is left alone; callers that
    /// toggle a filter request their own redraw.
    pub fn filtered_select_next_else_prev<F: EntryFilter<V>>(&mut self, filter: &F)
        requires
            old(self).inv(),
        ensures
            final(self).inv(),
            final(self).entries() == old(self).entries(),
            final(self)@ == old(self)@,
            final(self).is_changed() == old(self).is_changed(),
            final(self).selected_key() == reanchored(
                old(self).entries(),
                old(self).selected_key(),
                filter_pred(*filter),
            ),
    {
        if let Some(current) = self.selected_index {
            let nk = self.filtered_next_key(current, filter);
            if let Some(n) = nk {
                proof {
                    lemma_first_match_above(self.contents@, current, filter_pred(*filter));
                }
                self.selected_index = Some(n);
            } else {
                let pk = self.filtered_prev_key(current, filter);
                if let Some(n) = pk {
                    proof {
                        lemma_last_match_below(self.contents@, current, filter_pred(*filter));
                    }
                    self.selected_index = Some(n);
                }
            }
        }
    }

    /// Removes the entry for `index`, which must be present. When the
    /// selected key itself is removed, the selection moves to the next larger
    /// key still present, else to the next smaller one, else away entirely.
    pub fn remove(&mut self, index: u32)
        requires
            old(self).inv(),
            old(self).contains_key(index),
        ensures
            final(self).inv(),
            final(self)@ == old(self)@.remove(index),
            forall|k: u32|
                final(self).contains_key(k) <==> (old(self).contains_key(k) && k != index),
            final(self).key_seq().len() == old(self).key_seq().len() - 1,
            final(self).is_changed(),
            final(self).selected_key() == if old(self).selected_key() == Option::Some(index) {
                match old(self).spec_next_key(index) {
                    Option::Some(n) => Option::Some(n),
                    Option::None => old(self).spec_prev_key(index),
                }
            } else {
                old(self).selected_key()
            },
    {
        let ghost old_entries = self.contents@;
        proof {
            assert(self.key_seq().len() > 0);
            lemma_sorted_keys_distinct(old_entries);
        }
        let i = self.index_of_key(index);
        // The registry is non-empty, so a selection exists.
        let sel = self.selected_index.unwrap();
        if index == sel {
            let nk = self.next_key(index);
            proof {
                lemma_first_match_above(old_entries, index, accept_all::<V>());
            }
            match nk {
                Some(n) => {
                    self.selected_index = Some(n);
                },
                None => {
                    let pk = self.prev_key(index);
                    proof {
                        lemma_last_match_below(old_entries, index, accept_all::<V>());
                    }
                    match pk {
                        Some(p2) => {
                            self.selected_index = Some(p2);
                        },
                        None => {
                            self.selected_index = None;
                        },
                    }
                },
            }
        }
        self.contents.remove(i);
        self.changed = true;
        proof {
            assert(self.contents@ =~= old_entries.remove(i as int));
            assert forall|j: int|
                0 <= j < entry_keys(self.contents@).len() implies entry_keys(self.contents@)[j]
                == entry_keys(old_entries).remove(i as int)[j] by {
                if j < i {
                    assert(self.contents@[j] == old_entries[j]);
                } else {
                    assert(self.contents@[j] == old_entries[j + 1]);
                }
            }
            assert(entry_keys(self.contents@) =~= entry_keys(old_entries).remove(i as int));
            assert(strictly_sorted(entry_keys(self.contents@)));
            lemma_sorted_keys_distinct(self.contents@);
            lemma_seq_to_map_dom(old_entries);
            lemma_seq_to_map_dom(self.contents@);
            // Key membership after the removal: everything but `index`.
            assert forall|k: u32|
                entry_keys(self.contents@).contains(k) <==> (entry_keys(old_entries).contains(k)
                    && k != index) by {
                if entry_keys(self.contents@).contains(k) {
                    let j = choose|j: int|
                        0 <= j < self.contents@.len() && entry_keys(self.contents@)[j] == k;
                    if j < i {
                        assert(entry_keys(old_entries)[j] == k);
                        assert(old_entries[j].0 != old_entries[i as int].0);
                    } else {
                        assert(entry_keys(old_entries)[j + 1] == k);
                        assert(old_entries[j + 1].0 != old_entries[i as int].0);
                    }
                }
                if entry_keys(old_entries).contains(k) && k != index {
                    let j = choose|j: int|
                        0 <= j < old_entries.len() && entry_keys(old_entries)[j] == k;
                    if j < i {
                        assert(entry_keys(self.contents@)[j] == k);
                    } else {
                        assert(j != i);
                        assert(entry_keys(self.contents@)[j - 1] == k);
                    }
                }
            }
            assert(seq_to_map(self.contents@) =~= seq_to_map(old_entries).remove(index)) by {
                assert forall|k: u32|
                    seq_to_map(self.contents@).dom().contains(k) implies seq_to_map(
                    old_entries,
                ).remove(index).dom().contains(k) && seq_to_map(self.contents@)[k] == seq_to_map(
                    old_entries,
                ).remove(index)[k] by {
                    let j = choose|j: int|
                        0 <= j < self.contents@.len() && entry_keys(self.contents@)[j] == k;
                    lemma_seq_to_map_index(self.contents@, j);
                    if j < i {
                        assert(old_entries[j] == self.contents@[j]);
                        lemma_seq_to_map_index(old_entries, j);
                    } else {
                        assert(old_entries[j + 1] == self.contents@[j]);
                        lemma_seq_to_map_index(old_entries, j + 1);
                    }
                }
            }
            // The reassigned selection still names a stored key, or the
            // registry became empty.
            if old(self).selected_key() == Option::Some(index) {
                match old(self).spec_next_key(index) {
                    Option::Some(n) => {
                        assert(entry_keys(self.contents@).contains(n));
                    },
                    Option::None => {
                        match old(self).spec_prev_key(index) {
                            Option::Some(p2) => {
                                assert(entry_keys(self.contents@).contains(p2));
                            },
                            Option::None => {
                                // No key above and none below: `index` was
                                // alone, so the registry is now empty.
                                assert forall|j: int|
                                    0 <= j < entry_keys(old_entries).len() implies entry_keys(
                                    old_entries,
                                )[j] == index by {
                                    let k3 = entry_keys(old_entries)[j];
                                    assert(entry_keys(old_entries).contains(k3));
                                    assert(!(k3 > index) && !(k3 < index));
                                }
                                assert(entry_keys(self.contents@).len() == 0) by {
                                    if entry_keys(old_entries).len() > 1 {
                                        assert(entry_keys(old_entries)[0] == index);
                                        assert(entry_keys(old_entries)[1] == index);
                                    }
                                }
                            },
                        }
                    },
                }
            } else {
                let k = old(self).selected_key()->0;
                assert(entry_keys(old_entries).contains(k));
                assert(entry_keys(self.contents@).contains(k));
            }
        }
    }

    /// The position of `key` in iteration order, where it is present.
    pub open spec fn spec_index_of(self, key: u32) -> int {
        choose|i: int| 0 <= i < self.entries().len() && self.entries()[i].0 == key
    }

    /// The position of `key`, which must be present.
    fn index_of_key(&self, key: u32) -> (i: usize)
        requires
            self.inv(),
            self.contains_key(key),
        ensures
            i < self.entries().len(),
            self.entries()[i as int].0 == key,
    {
        let i = self.lower_bound(key);
        proof {
            let j = choose|j: int|
                0 <= j < self.contents@.len() && entry_keys(self.contents@)[j] == key;
            assert(self.contents@[j].0 == key);
            if i < self.contents@.len() && self.contents@[i as int].0 != key {
                if j > i {
                    assert(entry_keys(self.contents@)[i as int] < entry_keys(self.contents@)[j]);
                }
                assert(false);
            }
            if i == self.contents@.len() {
                assert(false);
            }
        }
        i
    }

    pub fn len(&self) -> (n: usize)
        ensures
            n == self.key_seq().len(),
    {
        self.contents.len()
    }

    pub fn get(&self, index: u32) -> (r: Option<&V>)
        requires
            self.inv(),
        ensures
            match r {
                Option::Some(v) => self.contains_key(index) && self@.dom().contains(index) && *v
                    == self@[index],
                Option::None => !self.contains_key(index) && !self@.dom().contains(index),
            },
    {
        let i = self.lower_bound(index);
        if i < self.contents.len() && self.contents[i].0 == index {
            proof {
                lemma_sorted_keys_distinct(self.contents@);
                lemma_seq_to_map_index(self.contents@, i as int);
                assert(entry_keys(self.contents@)[i as int] == index);
            }
            Some(&self.contents[i].1)
        } else {
            proof {
                lemma_seq_to_map_dom(self.contents@);
                assert forall|j: int|
                    0 <= j < self.contents@.len() implies entry_keys(self.contents@)[j]
                    != index by {
                    if j >= i {
                        assert(i < self.contents@.len());
                        if j > i {
                            assert(entry_keys(self.contents@)[i as int] < entry_keys(
                                self.contents@,
                            )[j]);
                        }
                    }
                }
            }
            None
        }
    }

    /// The entry under the selection, or nothing when the registry is empty.
    pub fn get_selected(&self) -> (r: Option<&V>)
        requires
            self.inv(),
        ensures
            r is Some <==> self.selected_key() is Some,
            match (r, self.selected_key()) {
                (Option::Some(v), Option::Some(k)) => *v == self@[k],
                _ => true,
            },
    {
        match self.selected_index {
            None => None,
            Some(k) => self.get(k),
        }
    }

    /// Mutable access to the entry under the selection, for transient
    /// display-local edits; the registry is marked changed unconditionally.
    /// Callers check for emptiness first: with no selection there is nothing
    /// to hand out.
    pub fn get_selected_mut(&mut self) -> (r: &mut V)
        requires
            old(self).inv(),
            old(self).selected_key() is Some,
        ensures
            *r == old(self)@[old(self).selected_key()->0],
            final(self)@ == old(self)@.insert(old(self).selected_key()->0, *final(r)),
            final(self).entries() == old(self).entries().update(
                old(self).spec_index_of(old(self).selected_key()->0),
                (old(self).selected_key()->0, *final(r)),
            ),
            0 <= old(self).spec_index_of(old(self).selected_key()->0) < old(
                self,
            ).entries().len(),
            old(self).entries()[old(self).spec_index_of(old(self).selected_key()->0)].0 == old(
                self,
            ).selected_key()->0,
            final(self).key_seq() == old(self).key_seq(),
            final(self).selected_key() == old(self).selected_key(),
            final(self).is_changed(),
            final(self).inv(),
    {
        self.changed = true;
        let k = self.selected_index.unwrap();
        let i = self.index_of_key(k);
        let ghost old_entries = self.contents@;
        proof {
            lemma_sorted_keys_distinct(old_entries);
            lemma_seq_to_map_index(old_entries, i as int);
            assert(old(self).spec_index_of(k) == i as int) by {
                assert((i as int) < old_entries.len() && old_entries[i as int].0 == k);
                let j = old(self).spec_index_of(k);
                assert(0 <= j < old_entries.len() && old_entries[j].0 == k);
            }
        }
        let e = &mut self.contents[i];
        let r = &mut e.1;
        proof {
            lemma_seq_to_map_update_value(old_entries, i as int, *final(r));
            assert(entry_keys(old_entries.update(i as int, (old_entries[i as int].0, *final(r))))
                =~= entry_keys(old_entries));
        }
        r
    }

    /// The entries in ascending key order.
    pub fn values(&self) -> (r: Vec<&V>)
        ensures
            r@.len() == self.entries().len(),
            forall|i: int| 0 <= i < r@.len() ==> *r@[i] == self.entries()[i].1,
    {
        let mut r: Vec<&V> = Vec::new();
        let mut i: usize = 0;
        while i < self.contents.len()
            invariant
                i <= self.contents.len(),
                r@.len() == i,
                forall|j: int| 0 <= j < i ==> *r@[j] == self.contents@[j].1,
            decreases self.contents.len() - i,
        {
            r.push(&self.contents[i].1);
            i = i + 1;
        }
        r
    }

    /// How many entries the filter accepts.
    pub fn filtered_len<F: EntryFilter<V>>(&self, filter: &F) -> (n: usize)
        ensures
            n == matching_values(self.entries(), filter_pred(*filter)).len(),
    {
        let ghost p = filter_pred(*filter);
        let mut n: usize = 0;
        let mut i: usize = 0;
        proof {
            assert(self.contents@.take(0) =~= Seq::<(u32, V)>::empty());
        }
        while i < self.contents.len()
            invariant
                p == filter_pred(*filter),
                i <= self.contents.len(),
                n <= i,
                n == matching_values(self.contents@.take(i as int), p).len(),
            decreases self.contents.len() - i,
        {
            proof {
                assert(self.contents@.take(i as int + 1).drop_last() =~= self.contents@.take(
                    i as int,
                ));
                assert(self.contents@.take(i as int + 1).last() == self.contents@[i as int]);
            }
            if filter.accepts(&self.contents[i].1) {
                n = n + 1;
            }
            i = i + 1;
        }
        proof {
            assert(self.contents@.take(self.contents@.len() as int) =~= self.contents@);
        }
        n
    }

    /// The accepted entries, in ascending key order.
    pub fn filtered_values<F: EntryFilter<V>>(&self, filter: &F) -> (r: Vec<&V>)
        ensures
            r@.len() == matching_values(self.entries(), filter_pred(*filter)).len(),
            forall|i: int|
                0 <= i < r@.len() ==> *r@[i] == matching_values(
                    self.entries(),
                    filter_pred(*filter),
                )[i],
    {
        let ghost p = filter_pred(*filter);
        let mut r: Vec<&V> = Vec::new();
        let mut i: usize = 0;
        proof {
            assert(self.contents@.take(0) =~= Seq::<(u32, V)>::empty());
        }
        while i < self.contents.len()
            invariant
                p == filter_pred(*filter),
                i <= self.contents.len(),
                r@.len() == matching_values(self.contents@.take(i as int), p).len(),
                forall|j: int|
                    0 <= j < r@.len() ==> *r@[j] == matching_values(
                        self.contents@.take(i as int),
                        p,
                    )[j],
            decreases self.contents.len() - i,
        {
            proof {
                assert(self.contents@.take(i as int + 1).drop_last() =~= self.contents@.take(
                    i as int,
                ));
                assert(self.contents@.take(i as int + 1).last() == self.contents@[i as int]);
            }
            if filter.accepts(&self.contents[i].1) {
                r.push(&self.contents[i].1);
            }
            i = i + 1;
        }
        proof {
            assert(self.contents@.take(self.contents@.len() as int) =~= self.contents@);
        }
        r
    }

    pub fn get_changed(&self) -> (c: bool)
        ensures
            c == self.is_changed(),
    {
        self.changed
    }

    /// Reads and clears the dirty flag in one step: the sole observation
    /// point for "did anything change since last asked."
    pub fn reset_changed(&mut self) -> (was: bool)
        ensures
            was == old(self).is_changed(),
            !final(self).is_changed(),
            final(self).entries() == old(self).entries(),
            final(self).selected_key() == old(self).selected_key(),
            old(self).inv() ==> final(self).inv(),
    {
        let t = self.changed;
        self.changed = false;
        t
    }
}

/// Navigation has no key to move to at the top: with `c` at or above every
/// stored key there is no next key, so by its contract
/// [`SelectingMap::select_next`] leaves the registry untouched, dirty flag
/// included.
pub proof fn lemma_no_next_at_largest<V>(m: SelectingMap<V>, c: u32)
    requires
        m.inv(),
        forall|k: u32| m.contains_key(k) ==> k <= c,
    ensures
        m.spec_next_key(c) is None,
{
    lemma_first_match_above(m.entries(), c, accept_all::<V>());
    match m.spec_next_key(c) {
        Option::Some(k2) => {
            assert(m.contains_key(k2) && k2 > c);
            assert(false);
        },
        Option::None => {},
    }
}

/// The mirror image at the bottom: with `c` at or below every stored key
/// there is no previous key, and [`SelectingMap::select_prev`] is a no-op.
pub proof fn lemma_no_prev_at_smallest<V>(m: SelectingMap<V>, c: u32)
    requires
        m.inv(),
        forall|k: u32| m.contains_key(k) ==> k >= c,
    ensures
        m.spec_prev_key(c) is None,
{
    lemma_last_match_below(m.entries(), c, accept_all::<V>());
    match m.spec_prev_key(c) {
        Option::Some(k2) => {
            assert(m.contains_key(k2) && k2 < c);
            assert(false);
        },
        Option::None => {},
    }
}

/// The selection invariant in plain form: a well-formed registry has no
/// selection exactly when it is empty, and a present selection always names a
/// stored key.
pub proof fn lemma_selection_invariant<V>(m: SelectingMap<V>)
    requires
        m.inv(),
    ensures
        m.selected_key() is None <==> m.key_seq().len() == 0,
        m.selected_key() is Some ==> m.contains_key(m.selected_key()->0),
{
    if m.selected_key() is Some {
        let k = m.selected_key()->0;
        assert(m.key_seq().contains(k));
        let j = choose|j: int| 0 <= j < m.key_seq().len() && m.key_seq()[j] == k;
    }
}

/// Two strictly sorted sequences holding the same elements are identical.
pub proof fn lemma_sorted_determined_by_content(s1: Seq<u32>, s2: Seq<u32>)
    requires
        strictly_sorted(s1),
        strictly_sorted(s2),
        forall|k: u32| s1.contains(k) <==> s2.contains(k),
    ensures
        s1 == s2,
    decreases s1.len(),
{
    if s1.len() == 0 {
        if s2.len() > 0 {
            assert(s2.contains(s2[0]));
            assert(false);
        }
        assert(s1 =~= s2);
    } else {
        if s2.len() == 0 {
            assert(s1.contains(s1[0]));
            assert(false);
        }
        // Each first element is the minimum of the (shared) content set, so
        // they coincide.
        assert(s1.contains(s1[0]));
        assert(s2.contains(s2[0]));
        let j1 = choose|j: int| 0 <= j < s2.len() && s2[j] == s1[0];
        if j1 > 0 {
            assert(s2[0] < s2[j1]);
        }
        let j2 = choose|j: int| 0 <= j < s1.len() && s1[j] == s2[0];
        if j2 > 0 {
            assert(s1[0] < s1[j2]);
        }
        assert(s1[0] == s2[0]);
        // The tails hold the same elements: everything but the shared first.
        assert forall|k: u32| s1.drop_first().contains(k) <==> s2.drop_first().contains(k) by {
            if s1.drop_first().contains(k) {
                let j = choose|j: int| 0 <= j < s1.drop_first().len() && s1.drop_first()[j] == k;
                assert(s1[j + 1] == k);
                assert(s1[0] < s1[j + 1]);
                assert(s2.contains(k));
                let j3 = choose|j3: int| 0 <= j3 < s2.len() && s2[j3] == k;
                assert(j3 != 0);
                assert(s2.drop_first()[j3 - 1] == k);
            }
            if s2.drop_first().contains(k) {
                let j = choose|j: int| 0 <= j < s2.drop_first().len() && s2.drop_first()[j] == k;
                assert(s2[j + 1] == k);
                assert(s2[0] < s2[j + 1]);
                assert(s1.contains(k));
                let j3 = choose|j3: int| 0 <= j3 < s1.len() && s1[j3] == k;
                assert(j3 != 0);
                assert(s1.drop_first()[j3 - 1] == k);
            }
        }
        lemma_sorted_determined_by_content(s1.drop_first(), s2.drop_first());
        assert(s1.len() == s2.len());
        assert forall|j: int| 0 <= j < s1.len() implies s1[j] == s2[j] by {
            if j > 0 {
                assert(s1.drop_first()[j - 1] == s2.drop_first()[j - 1]);
            }
        }
        assert(s1 =~= s2);
    }
}

/// Iteration order does not depend on insertion order: two well-formed
/// registries holding the same keys list them identically, in ascending
/// order.
pub proof fn lemma_insertion_order_independent<V>(m1: SelectingMap<V>, m2: SelectingMap<V>)
    requires
        m1.inv(),
        m2.inv(),
        forall|k: u32| m1.contains_key(k) <==> m2.contains_key(k),
    ensures
        m1.key_seq() == m2.key_seq(),
{
    assert forall|k: u32| m1.key_seq().contains(k) <==> m2.key_seq().contains(k) by {
        assert(m1.contains_key(k) <==> m2.contains_key(k));
    }
    lemma_sorted_determined_by_content(m1.key_seq(), m2.key_seq());
}

/// Upserting one key twice is idempotent: starting from `m0` and applying
/// the contract of [`SelectingMap::update`] for `(k, v1)` and then `(k, v2)`
/// leaves exactly one entry for `k`, holding `v2`, and the second upsert does
/// not change the entry count.
pub proof fn lemma_upsert_idempotent<V>(
    m0: SelectingMap<V>,
    m1: SelectingMap<V>,
    m2: SelectingMap<V>,
    k: u32,
    v1: V,
    v2: V,
)
    requires
        m0.inv(),
        m1.inv(),
        m2.inv(),
        m1@ == m0@.insert(k, v1),
        forall|k2: u32| m1.contains_key(k2) <==> (k2 == k || m0.contains_key(k2)),
        m2@ == m1@.insert(k, v2),
        forall|k2: u32| m2.contains_key(k2) <==> (k2 == k || m1.contains_key(k2)),
    ensures
        m2@ == m0@.insert(k, v2),
        m2@[k] == v2,
        m2.contains_key(k),
        m2.key_seq() == m1.key_seq(),
{
    assert(m2@ =~= m0@.insert(k, v2));
    assert forall|k2: u32| m2.key_seq().contains(k2) <==> m1.key_seq().contains(k2) by {
        assert(m2.contains_key(k2) <==> (k2 == k || m1.contains_key(k2)));
        assert(m1.contains_key(k2) <==> (k2 == k || m0.contains_key(k2)));
    }
    lemma_sorted_determined_by_content(m2.key_seq(), m1.key_seq());
}

impl<V> View for SelectingMap<V> {
    type V = Map<u32, V>;

    open spec fn view(&self) -> Map<u32, V> {
        seq_to_map(self.entries())
    }
}

} // verus!

