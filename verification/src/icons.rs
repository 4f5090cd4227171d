//! The favicon cache: one icon URL per host.

use crate::text::text_eq;
use vstd::hash_set::StringHashSet;
use vstd::prelude::*;

verus! {

/// A small map from host to icon URL, kept in the order in which the hosts
/// came.
pub struct IconMap {
    pub entries: Vec<(String, String)>,
}

/// Index of the entry for `host`.
pub open spec fn entry_of(entries: Seq<(String, String)>, host: Seq<char>) -> Option<int>
    decreases entries.len(),
{
    if entries.len() == 0 {
        None
    } else if entries.last().0@ == host {
        Some(entries.len() - 1)
    } else {
        entry_of(entries.drop_last(), host)
    }
}

/// No host has two entries.
pub open spec fn distinct_hosts(entries: Seq<(String, String)>) -> bool {
    forall|i: int, j: int|
        0 <= i < j < entries.len() ==> (#[trigger] entries[i]).0@ != (#[trigger] entries[j]).0@
}

/// The map that the entries stand for.
pub open spec fn icon_map(entries: Seq<(String, String)>) -> Map<Seq<char>, Seq<char>>
    decreases entries.len(),
{
    if entries.len() == 0 {
        Map::empty()
    } else {
        icon_map(entries.drop_last()).insert(entries.last().0@, entries.last().1@)
    }
}

impl View for IconMap {
    type V = Map<Seq<char>, Seq<char>>;

    open spec fn view(&self) -> Map<Seq<char>, Seq<char>> {
        icon_map(self.entries@)
    }
}

proof fn lemma_entry(entries: Seq<(String, String)>, host: Seq<char>)
    ensures
        match entry_of(entries, host) {
            Some(i) => 0 <= i < entries.len() && entries[i].0@ == host && icon_map(
                entries,
            ).contains_key(host) && icon_map(entries)[host] == entries[i].1@,
            None => !icon_map(entries).contains_key(host) && forall|i: int|
                0 <= i < entries.len() ==> (#[trigger] entries[i]).0@ != host,
        },
    decreases entries.len(),
{
    if entries.len() > 0 {
        lemma_entry(entries.drop_last(), host);
        if entries.last().0@ != host {
            assert forall|i: int|
                0 <= i < entries.len() && entry_of(entries, host) is None implies (
            #[trigger] entries[i]).0@ != host by {
                if i < entries.len() - 1 {
                    assert(entries.drop_last()[i] == entries[i]);
                }
            }
        }
    }
}

proof fn lemma_size(entries: Seq<(String, String)>)
    requires
        distinct_hosts(entries),
    ensures
        icon_map(entries).dom().finite(),
        icon_map(entries).dom().len() == entries.len(),
    decreases entries.len(),
{
    if entries.len() > 0 {
        let init = entries.drop_last();
        assert(distinct_hosts(init)) by {
            assert forall|i: int, j: int| 0 <= i < j < init.len() implies (
            #[trigger] init[i]).0@ != (#[trigger] init[j]).0@ by {
                assert(init[i] == entries[i] && init[j] == entries[j]);
            }
        }
        lemma_size(init);
        lemma_entry(init, entries.last().0@);
        if let Some(i) = entry_of(init, entries.last().0@) {
            assert(entries[i] == init[i]);
        }
        assert(icon_map(entries).dom() =~= icon_map(init).dom().insert(entries.last().0@));
    }
}

/// A host found at some place is found there, whichever way it is looked for.
proof fn lemma_at(entries: Seq<(String, String)>, i: int)
    requires
        distinct_hosts(entries),
        0 <= i < entries.len(),
    ensures
        icon_map(entries).contains_key(entries[i].0@),
        icon_map(entries)[entries[i].0@] == entries[i].1@,
{
    lemma_entry(entries, entries[i].0@);
    let k = entry_of(entries, entries[i].0@)->Some_0;
    if k < i {
        assert(entries[k].0@ != entries[i].0@);
    } else if i < k {
        assert(entries[i].0@ != entries[k].0@);
    }
}

impl IconMap {
    pub open spec fn wf(&self) -> bool {
        distinct_hosts(self.entries@)
    }

    pub fn new() -> (r: Self)
        ensures
            r.wf(),
            r@ == Map::<Seq<char>, Seq<char>>::empty(),
    {
        IconMap { entries: Vec::new() }
    }

    /// The map of some pairs; of two for one host, the later counts.
    pub fn from_pairs(pairs: Vec<(String, String)>) -> (r: Self)
        ensures
            r.wf(),
            r@ == icon_map(pairs@),
    {
        let mut map = IconMap::new();
        let mut i: usize = 0;
        assert(icon_map(pairs@.take(0)) =~= map@);
        while i < pairs.len()
            invariant
                i <= pairs@.len(),
                map.wf(),
                map@ == icon_map(pairs@.take(i as int)),
            decreases pairs@.len() - i,
        {
            assert(pairs@.take(i + 1).drop_last() == pairs@.take(i as int));
            map.insert(pairs[i].0.clone(), pairs[i].1.clone());
            i += 1;
        }
        assert(pairs@.take(pairs@.len() as int) == pairs@);
        map
    }

    /// How many hosts have an icon.
    pub fn len(&self) -> (r: usize)
        requires
            self.wf(),
        ensures
            r == self@.dom().len(),
            self@.dom().finite(),
    {
        proof {
            lemma_size(self.entries@);
        }
        self.entries.len()
    }

    fn position(&self, host: &str) -> (r: Option<usize>)
        ensures
            match r {
                Some(i) => i < self.entries@.len() && entry_of(self.entries@, host@) == Some(
                    i as int,
                ),
                None => entry_of(self.entries@, host@) is None,
            },
    {
        let mut n = self.entries.len();
        assert(self.entries@.take(n as int) == self.entries@);
        while n > 0
            invariant
                n <= self.entries@.len(),
                entry_of(self.entries@, host@) == entry_of(self.entries@.take(n as int), host@),
            decreases n,
        {
            let ghost upto = self.entries@.take(n as int);
            if text_eq(self.entries[n - 1].0.as_str(), host) {
                return Some(n - 1);
            }
            assert(upto.drop_last() == self.entries@.take(n - 1));
            n -= 1;
        }
        None
    }

    /// The icon of a host.
    pub fn get(&self, host: &str) -> (r: Option<String>)
        ensures
            match r {
                Some(icon) => self@.contains_key(host@) && self@[host@] == icon@,
                None => !self@.contains_key(host@),
            },
    {
        proof {
            lemma_entry(self.entries@, host@);
        }
        match self.position(host) {
            Some(i) => Some(self.entries[i].1.clone()),
            None => None,
        }
    }

    /// Set the icon of a host.
    pub fn insert(&mut self, host: String, icon: String)
        requires
            old(self).wf(),
        ensures
            final(self).wf(),
            final(self)@ == old(self)@.insert(host@, icon@),
    {
        let ghost before = self.entries@;
        let ghost key = host@;
        proof {
            lemma_entry(before, key);
        }
        match self.position(host.as_str()) {
            Some(i) => {
                let ghost value = icon@;
                self.entries.set(i, (host, icon));
                let ghost after = self.entries@;
                proof {
                    assert(distinct_hosts(after)) by {
                        assert forall|a: int, b: int| 0 <= a < b < after.len() implies (
                        #[trigger] after[a]).0@ != (#[trigger] after[b]).0@ by {
                            assert(after[a].0@ == before[a].0@ && after[b].0@ == before[b].0@);
                        }
                    }
                    assert(icon_map(after) =~= icon_map(before).insert(key, value)) by {
                        assert forall|h: Seq<char>| #[trigger]
                            icon_map(after).contains_key(h) == icon_map(before).insert(
                                key,
                                value,
                            ).contains_key(h) && (icon_map(after).contains_key(h) ==> icon_map(
                                after,
                            )[h] == icon_map(before).insert(key, value)[h]) by {
                            lemma_entry(after, h);
                            lemma_entry(before, h);
                            if let Some(k) = entry_of(after, h) {
                                assert(before[k].0@ == h);
                                lemma_at(before, k);
                                lemma_at(after, k);
                            }
                            if let Some(k) = entry_of(before, h) {
                                assert(after[k].0@ == h);
                            }
                        }
                    }
                }
            },
            None => {
                self.entries.push((host, icon));
                assert(self.entries@.drop_last() == before);
                assert(distinct_hosts(self.entries@)) by {
                    let after = self.entries@;
                    assert forall|a: int, b: int| 0 <= a < b < after.len() implies (
                    #[trigger] after[a]).0@ != (#[trigger] after[b]).0@ by {
                        assert(after[a] == before[a]);
                        if b < before.len() {
                            assert(after[b] == before[b]);
                        }
                    }
                }
            },
        }
    }

    /// Keep the icons of the hosts in `keep` only.
    pub fn keep_only(&mut self, keep: &StringHashSet)
        requires
            old(self).wf(),
        ensures
            final(self).wf(),
            final(self)@ == old(self)@.restrict(keep@),
    {
        let mut kept: Vec<(String, String)> = Vec::new();
        let mut i: usize = 0;
        assert(icon_map(self.entries@.take(0)) =~= Map::empty());
        assert(icon_map(kept@) =~= icon_map(self.entries@.take(0)).restrict(keep@));
        while i < self.entries.len()
            invariant
                i <= self.entries@.len(),
                distinct_hosts(self.entries@),
                distinct_hosts(kept@),
                forall|k: int| 0 <= k < kept@.len() ==> exists|j: int|
                    0 <= j < i && (#[trigger] kept@[k]).0@ == self.entries@[j].0@,
                icon_map(kept@) == icon_map(self.entries@.take(i as int)).restrict(keep@),
            decreases self.entries@.len() - i,
        {
            let ghost e = self.entries@[i as int];
            let ghost before = kept@;
            proof {
                assert(self.entries@.take(i + 1).drop_last() == self.entries@.take(i as int));
            }
            let host = self.entries[i].0.clone();
            let icon = self.entries[i].1.clone();
            if keep.contains(host.as_str()) {
                kept.push((host, icon));
                proof {
                    let after = kept@;
                    assert(after.drop_last() == before);
                    assert forall|a: int, b: int| 0 <= a < b < after.len() implies (
                    #[trigger] after[a]).0@ != (#[trigger] after[b]).0@ by {
                        assert(after[a] == before[a]);
                        let j = choose|j: int|
                            0 <= j < i && before[a].0@ == self.entries@[j].0@;
                        if b == before.len() {
                            assert(self.entries@[j].0@ != e.0@);
                        } else {
                            assert(after[b] == before[b]);
                        }
                    }
                    assert forall|k: int| 0 <= k < after.len() implies exists|j: int|
                        0 <= j < i + 1 && (#[trigger] after[k]).0@ == self.entries@[j].0@ by {
                        if k < before.len() {
                            assert(after[k] == before[k]);
                        } else {
                            assert(after[k].0@ == self.entries@[i as int].0@);
                        }
                    }
                }
            }
            assert(icon_map(kept@) =~= icon_map(self.entries@.take(i + 1)).restrict(keep@));
            i += 1;
        }
        assert(self.entries@.take(self.entries@.len() as int) == self.entries@);
        self.entries = kept;
    }
}

} // verus!
