//! The address histogram: how many times each distinct address has been
//! generated. Keys are unique, every stored count is at least one, and the
//! counts sum to the number of recorded addresses.

use vstd::prelude::*;

verus! {

/// Sum of the counts of an entry sequence.
pub open spec fn sum_counts(s: Seq<(Seq<char>, nat)>) -> nat
    decreases s.len(),
{
    if s.len() == 0 {
        0
    } else {
        sum_counts(s.drop_last()) + s.last().1
    }
}

/// Total count attributed to `key` in an entry sequence (the sum over all
/// entries whose key is `key`; with unique keys, the single entry's count).
pub open spec fn count_for(s: Seq<(Seq<char>, nat)>, key: Seq<char>) -> nat
    decreases s.len(),
{
    if s.len() == 0 {
        0
    } else {
        count_for(s.drop_last(), key) + if s.last().0 == key {
            s.last().1
        } else {
            0nat
        }
    }
}

/// Frequency histogram of generated addresses. Viewed as a sequence of
/// (address, count) pairs with pairwise-distinct addresses.
#[derive(Debug)]
pub struct AddressHistogram {
    entries: Vec<(String, u64)>,
}

impl View for AddressHistogram {
    type V = Seq<(Seq<char>, nat)>;

    closed spec fn view(&self) -> Seq<(Seq<char>, nat)> {
        self.entries@.map_values(|e: (String, u64)| (e.0@, e.1 as nat))
    }
}

impl AddressHistogram {
    /// Keys pairwise distinct, every count at least one, and the total small
    /// enough that one more recording cannot overflow a machine counter.
    #[verifier::type_invariant]
    spec fn wf(self) -> bool {
        &&& forall|i: int, j: int|
            0 <= i < j < self@.len() ==> self@[i].0 != self@[j].0
        &&& forall|i: int| 0 <= i < self@.len() ==> #[trigger] self@[i].1 >= 1
        &&& sum_counts(self@) <= u64::MAX
    }

    /// Number of distinct addresses observed so far.
    pub open spec fn spec_len(self) -> nat {
        self@.len()
    }

    /// Total number of recordings (the sum of all counts).
    pub open spec fn total(self) -> nat {
        sum_counts(self@)
    }

    /// Count recorded for one address.
    pub open spec fn count_of(self, key: Seq<char>) -> nat {
        count_for(self@, key)
    }

    /// The bare counts, in the histogram's storage order.
    pub open spec fn counts(self) -> Seq<nat> {
        self@.map_values(|e: (Seq<char>, nat)| e.1)
    }

    /// An empty histogram.
    pub fn new() -> (h: AddressHistogram)
        ensures
            h@ =~= Seq::<(Seq<char>, nat)>::empty(),
            h.total() == 0,
            forall|k: Seq<char>| #[trigger] h.count_of(k) == 0,
    {
        let h = AddressHistogram { entries: Vec::new() };
        proof {
            assert(h@ =~= Seq::<(Seq<char>, nat)>::empty());
            assert(forall|k: Seq<char>| #[trigger] count_for(h@, k) == 0);
        }
        h
    }

    /// Number of distinct addresses observed.
    pub fn len(&self) -> (n: usize)
        ensures
            n == self.spec_len(),
    {
        self.entries.len()
    }

    /// The count stored at position `i` of the histogram.
    pub fn count_at(&self, i: usize) -> (c: u64)
        requires
            i < self.spec_len(),
        ensures
            c as nat == self@[i as int].1,
            c >= 1,
    {
        proof {
            use_type_invariant(self);
        }
        self.entries[i].1
    }

    /// The total number of recordings, as a machine integer.
    pub fn total_count(&self) -> (t: u64)
        ensures
            t as nat == self.total(),
    {
        proof {
            use_type_invariant(self);
        }
        let n: usize = self.entries.len();
        let mut t: u64 = 0;
        let mut i: usize = 0;
        proof {
            assert(self@.take(0) =~= Seq::<(Seq<char>, nat)>::empty());
        }
        while i < n
            invariant
                self.wf(),
                n == self@.len(),
                i <= n,
                t as nat == sum_counts(self@.take(i as int)),
            decreases n - i,
        {
            proof {
                lemma_sum_take_succ(self@, i as int);
                lemma_sum_take_le(self@, i + 1);
            }
            t = t + self.entries[i].1;
            i += 1;
        }
        proof {
            assert(self@.take(n as int) =~= self@);
        }
        t
    }

    /// The count recorded for `address` (zero if it has never been seen).
    pub fn get(&self, address: &String) -> (c: u64)
        ensures
            c as nat == self.count_of(address@),
    {
        proof {
            use_type_invariant(self);
        }
        let n: usize = self.entries.len();
        let mut i: usize = 0;
        while i < n
            invariant
                self.wf(),
                n == self@.len(),
                i <= n,
                forall|j: int| 0 <= j < i ==> self@[j].0 != address@,
            decreases n - i,
        {
            if self.entries[i].0 == *address {
                proof {
                    lemma_count_unique(self@, address@, i as int);
                }
                return self.entries[i].1;
            }
            i += 1;
        }
        proof {
            lemma_count_absent(self@, address@);
        }
        0
    }

    /// Record one occurrence of `address`: its count rises by one, every
    /// other address keeps its count, and the total rises by one.
    pub fn record(&mut self, address: &String)
        requires
            old(self).total() < u64::MAX,
        ensures
            final(self).count_of(address@) == old(self).count_of(address@) + 1,
            forall|k: Seq<char>|
                k != address@ ==> #[trigger] final(self).count_of(k) == old(self).count_of(k),
            final(self).total() == old(self).total() + 1,
            final(self).spec_len() == if old(self).count_of(address@) == 0 {
                old(self).spec_len() + 1
            } else {
                old(self).spec_len()
            },
    {
        self.add_count(address, 1);
    }

    /// Attribute `extra` further occurrences to `address` at once, as when
    /// one worker's histogram is folded into another's.
    pub fn add_count(&mut self, address: &String, extra: u64)
        requires
            extra >= 1,
            old(self).total() + extra <= u64::MAX,
        ensures
            final(self).count_of(address@) == old(self).count_of(address@) + extra,
            forall|k: Seq<char>|
                k != address@ ==> #[trigger] final(self).count_of(k) == old(self).count_of(k),
            final(self).total() == old(self).total() + extra,
            final(self).spec_len() == if old(self).count_of(address@) == 0 {
                old(self).spec_len() + 1
            } else {
                old(self).spec_len()
            },
    {
        proof {
            use_type_invariant(&*self);
        }
        let ghost gold: Seq<(Seq<char>, nat)> = self@;
        let mut entries: Vec<(String, u64)> = Vec::new();
        std::mem::swap(&mut entries, &mut self.entries);
        let n: usize = entries.len();
        let mut i: usize = 0;
        while i < n
            invariant
                n == entries@.len(),
                i <= n,
                gold == old(self)@,
                gold == entries@.map_values(|e: (String, u64)| (e.0@, e.1 as nat)),
                forall|j: int| 0 <= j < i ==> gold[j].0 != address@,
                forall|ii: int, jj: int| 0 <= ii < jj < gold.len() ==> gold[ii].0 != gold[jj].0,
                forall|ii: int| 0 <= ii < gold.len() ==> #[trigger] gold[ii].1 >= 1,
                extra >= 1,
                sum_counts(gold) + extra <= u64::MAX,
            decreases n - i,
        {
            if entries[i].0 == *address {
                proof {
                    assert(gold[i as int].0 == address@);
                    assert forall|j: int|
                        0 <= j < gold.len() && j != i as int implies gold[j].0 != address@ by {
                        if j < i as int {
                            assert(gold[j].0 != gold[i as int].0);
                        } else {
                            assert(gold[i as int].0 != gold[j].0);
                        }
                    }
                    lemma_count_unique(gold, address@, i as int);
                    lemma_sum_element_le(gold, i as int);
                }
                let key: String = entries[i].0.clone();
                let c: u64 = entries[i].1;
                entries.set(i, (key, c + extra));
                proof {
                    let gnew = entries@.map_values(|e: (String, u64)| (e.0@, e.1 as nat));
                    assert(gnew =~= gold.update(i as int, (address@, gold[i as int].1 + extra as nat)));
                    lemma_sum_update_add(gold, i as int, extra as nat);
                    lemma_count_update_add(gold, address@, i as int, extra as nat);
                    assert forall|ii: int, jj: int|
                        0 <= ii < jj < gnew.len() implies gnew[ii].0 != gnew[jj].0 by {
                        assert(gnew[ii].0 == gold[ii].0);
                        assert(gnew[jj].0 == gold[jj].0);
                    }
                }
                self.entries = entries;
                proof {
                    assert(self@ =~= gold.update(i as int, (address@, gold[i as int].1 + extra as nat)));
                }
                return ;
            }
            i += 1;
        }
        proof {
            lemma_count_absent(gold, address@);
        }
        entries.push((address.clone(), extra));
        proof {
            let gnew = entries@.map_values(|e: (String, u64)| (e.0@, e.1 as nat));
            assert(gnew =~= gold.push((address@, extra as nat)));
            lemma_push_facts(gold, (address@, extra as nat));
        }
        self.entries = entries;
        proof {
            assert(self@ =~= gold.push((address@, extra as nat)));
        }
    }

    /// Fold another histogram into this one: every address's count grows by
    /// its count over there, so the totals add up.
    pub fn merge(&mut self, other: &AddressHistogram)
        requires
            old(self).total() + other.total() <= u64::MAX,
        ensures
            forall|k: Seq<char>|
                #[trigger] final(self).count_of(k) == old(self).count_of(k) + other.count_of(k),
            final(self).total() == old(self).total() + other.total(),
    {
        proof {
            use_type_invariant(other);
        }
        let n: usize = other.entries.len();
        let mut i: usize = 0;
        proof {
            assert(other@.take(0) =~= Seq::<(Seq<char>, nat)>::empty());
            assert(forall|k: Seq<char>| #[trigger] count_for(other@.take(0), k) == 0);
        }
        while i < n
            invariant
                other.wf(),
                n == other@.len(),
                i <= n,
                old(self).total() + sum_counts(other@) <= u64::MAX,
                self.total() == old(self).total() + sum_counts(other@.take(i as int)),
                forall|k: Seq<char>|
                    #[trigger] self.count_of(k) == old(self).count_of(k) + count_for(
                        other@.take(i as int),
                        k,
                    ),
            decreases n - i,
        {
            proof {
                lemma_sum_take_succ(other@, i as int);
                lemma_sum_take_le(other@, i as int + 1);
                assert(other@[i as int] == (other.entries@[i as int].0@, other.entries@[
                    i as int].1 as nat));
            }
            let extra: u64 = other.entries[i].1;
            self.add_count(&other.entries[i].0, extra);
            proof {
                assert forall|k: Seq<char>| #[trigger] count_for(other@.take(i as int + 1), k)
                    == count_for(other@.take(i as int), k) + if other@[i as int].0 == k {
                    other@[i as int].1
                } else {
                    0nat
                } by {
                    assert(other@.take(i as int + 1).drop_last() =~= other@.take(i as int));
                    assert(other@.take(i as int + 1).last() == other@[i as int]);
                }
            }
            i += 1;
        }
        proof {
            assert(other@.take(n as int) =~= other@);
        }
    }
}

/// Taking one more element adds exactly that element's count to the sum.
proof fn lemma_sum_take_succ(s: Seq<(Seq<char>, nat)>, i: int)
    requires
        0 <= i < s.len(),
    ensures
        sum_counts(s.take(i + 1)) == sum_counts(s.take(i)) + s[i].1,
{
    assert(s.take(i + 1).drop_last() =~= s.take(i));
    assert(s.take(i + 1).last() == s[i]);
}

/// A prefix of the entries never sums to more than the whole sequence.
proof fn lemma_sum_take_le(s: Seq<(Seq<char>, nat)>, i: int)
    requires
        0 <= i <= s.len(),
    ensures
        sum_counts(s.take(i)) <= sum_counts(s),
    decreases s.len() - i,
{
    if i == s.len() {
        assert(s.take(i) =~= s);
    } else {
        lemma_sum_take_succ(s, i);
        lemma_sum_take_le(s, i + 1);
    }
}

/// One element's count never exceeds the sum of all counts.
proof fn lemma_sum_element_le(s: Seq<(Seq<char>, nat)>, i: int)
    requires
        0 <= i < s.len(),
    ensures
        s[i].1 <= sum_counts(s),
    decreases s.len(),
{
    if i == s.len() - 1 {
    } else {
        assert(s.drop_last()[i] == s[i]);
        lemma_sum_element_le(s.drop_last(), i);
    }
}

/// If `key` occurs only at position `i`, its total count is that entry's count.
proof fn lemma_count_unique(s: Seq<(Seq<char>, nat)>, key: Seq<char>, i: int)
    requires
        0 <= i < s.len(),
        s[i].0 == key,
        forall|j: int| 0 <= j < s.len() && j != i ==> s[j].0 != key,
    ensures
        count_for(s, key) == s[i].1,
    decreases s.len(),
{
    if i == s.len() - 1 {
        lemma_count_absent(s.drop_last(), key);
    } else {
        assert(s.drop_last()[i] == s[i]);
        lemma_count_unique(s.drop_last(), key, i);
    }
}

/// If no entry carries `key`, its count is zero.
proof fn lemma_count_absent(s: Seq<(Seq<char>, nat)>, key: Seq<char>)
    requires
        forall|j: int| 0 <= j < s.len() ==> s[j].0 != key,
    ensures
        count_for(s, key) == 0,
    decreases s.len(),
{
    if s.len() > 0 {
        assert(forall|j: int| 0 <= j < s.drop_last().len() ==> s.drop_last()[j] == s[j]);
        lemma_count_absent(s.drop_last(), key);
    }
}

/// Raising one entry's count raises the sum by the same amount.
proof fn lemma_sum_update_add(s: Seq<(Seq<char>, nat)>, i: int, c: nat)
    requires
        0 <= i < s.len(),
    ensures
        sum_counts(s.update(i, (s[i].0, s[i].1 + c))) == sum_counts(s) + c,
    decreases s.len(),
{
    let t = s.update(i, (s[i].0, s[i].1 + c));
    if i == s.len() - 1 {
        assert(t.drop_last() =~= s.drop_last());
    } else {
        assert(t.drop_last() =~= s.drop_last().update(i, (s[i].0, s[i].1 + c)));
        assert(s.drop_last()[i] == s[i]);
        lemma_sum_update_add(s.drop_last(), i, c);
        assert(t.last() == s.last());
    }
}

/// Raising the count of the entry holding `key` leaves every other key's
/// count unchanged (and raises `key`'s by the same amount).
proof fn lemma_count_update_add(s: Seq<(Seq<char>, nat)>, key: Seq<char>, i: int, c: nat)
    requires
        0 <= i < s.len(),
        s[i].0 == key,
    ensures
        count_for(s.update(i, (key, s[i].1 + c)), key) == count_for(s, key) + c,
        forall|k: Seq<char>|
            k != key ==> #[trigger] count_for(s.update(i, (key, s[i].1 + c)), k) == count_for(
                s,
                k,
            ),
    decreases s.len(),
{
    let t = s.update(i, (key, s[i].1 + c));
    if i == s.len() - 1 {
        assert(t.drop_last() =~= s.drop_last());
        assert(t.last() == (key, s[i].1 + c));
        assert(s.last() == s[i]);
        assert forall|k: Seq<char>| k != key implies #[trigger] count_for(t, k) == count_for(
            s,
            k,
        ) by {
            assert(count_for(t, k) == count_for(t.drop_last(), k) + if t.last().0 == k {
                t.last().1
            } else {
                0nat
            });
            assert(count_for(s, k) == count_for(s.drop_last(), k) + if s.last().0 == k {
                s.last().1
            } else {
                0nat
            });
        }
    } else {
        assert(t.drop_last() =~= s.drop_last().update(i, (key, s[i].1 + c)));
        assert(s.drop_last()[i] == s[i]);
        lemma_count_update_add(s.drop_last(), key, i, c);
        assert(t.last() == s.last());
        assert(count_for(t, key) == count_for(t.drop_last(), key) + if t.last().0 == key {
            t.last().1
        } else {
            0nat
        });
        assert(count_for(s, key) == count_for(s.drop_last(), key) + if s.last().0 == key {
            s.last().1
        } else {
            0nat
        });
        assert forall|k: Seq<char>| k != key implies #[trigger] count_for(t, k) == count_for(
            s,
            k,
        ) by {
            assert(count_for(t.drop_last(), k) == count_for(s.drop_last(), k));
            assert(count_for(t, k) == count_for(t.drop_last(), k) + if t.last().0 == k {
                t.last().1
            } else {
                0nat
            });
            assert(count_for(s, k) == count_for(s.drop_last(), k) + if s.last().0 == k {
                s.last().1
            } else {
                0nat
            });
        }
    }
}

/// Appending an entry adds its count to the sum, to its own key's count, and
/// to no other key's count.
proof fn lemma_push_facts(s: Seq<(Seq<char>, nat)>, e: (Seq<char>, nat))
    ensures
        sum_counts(s.push(e)) == sum_counts(s) + e.1,
        count_for(s.push(e), e.0) == count_for(s, e.0) + e.1,
        forall|k: Seq<char>|
            k != e.0 ==> #[trigger] count_for(s.push(e), k) == count_for(s, k),
{
    assert(s.push(e).drop_last() =~= s);
    assert(s.push(e).last() == e);
}

} // verus!
