//! The shortcut store: an ordered collection of key-combination records
//! ranked by how often each one has been looked up.

use vstd::prelude::*;

verus! {

/// One key-combination record: the combination itself, a free-form
/// description, and how many times the user has looked it up.
pub struct Shortcut {
    lookup_count: u32,
    key_combo: String,
    description: String,
}

/// The mathematical value of a [`Shortcut`]: its three fields as plain values.
pub ghost struct ShortcutView {
    pub lookup_count: u32,
    pub key_combo: Seq<char>,
    pub description: Seq<char>,
}

impl View for Shortcut {
    type V = ShortcutView;

    closed spec fn view(&self) -> ShortcutView {
        ShortcutView {
            lookup_count: self.lookup_count,
            key_combo: self.key_combo@,
            description: self.description@,
        }
    }
}

impl Shortcut {
    /// Builds a record for a combination that has never been looked up.
    pub fn from(key_combo: String, description: String) -> (s: Shortcut)
        ensures
            s@.lookup_count == 0,
            s@.key_combo == key_combo@,
            s@.description == description@,
    {
        Shortcut { lookup_count: 0, key_combo, description }
    }

    pub fn get_lookup_count(&self) -> (n: u32)
        ensures
            n == self@.lookup_count,
    {
        self.lookup_count
    }

    pub fn get_key_combo(&self) -> (s: &str)
        ensures
            s@ == self@.key_combo,
    {
        self.key_combo.as_str()
    }

    pub fn get_description(&self) -> (s: &str)
        ensures
            s@ == self@.description,
    {
        self.description.as_str()
    }

    /// The one-line form the record is shown in: the combination, the
    /// description, and the lookup count in parentheses.
    pub fn to_display_string(&self) -> (r: String)
        ensures
            r@ == self@.key_combo + seq![' '] + self@.description + seq![' ', '(']
                + crate::num::dec_rep(self@.lookup_count as nat) + seq![')'],
    {
        let mut out = crate::utils::str_to_chars(self.key_combo.as_str());
        out.push(' ');
        let mut desc = crate::utils::str_to_chars(self.description.as_str());
        out.append(&mut desc);
        out.push(' ');
        out.push('(');
        crate::num::push_dec_u32(self.lookup_count, &mut out);
        out.push(')');
        proof {
            assert(out@ =~= self@.key_combo + seq![' '] + self@.description + seq![' ', '(']
                + crate::num::dec_rep(self@.lookup_count as nat) + seq![')']);
        }
        crate::utils::chars_to_string(&out)
    }

    /// Reassembles a record read back from the persisted document.
    pub(crate) fn with_count(lookup_count: u32, key_combo: String, description: String) -> (s:
        Shortcut)
        ensures
            s@ == (ShortcutView {
                lookup_count,
                key_combo: key_combo@,
                description: description@,
            }),
    {
        Shortcut { lookup_count, key_combo, description }
    }
}

/// The owning collection of shortcuts together with the path its contents
/// are saved to, once one has been bound.
pub struct Shortcuts {
    shortcuts: Vec<Shortcut>,
    save_path: Option<String>,
}

/// The mathematical values of a sequence of records.
pub open spec fn views_of(v: Seq<Shortcut>) -> Seq<ShortcutView> {
    v.map_values(|s: Shortcut| s@)
}

impl View for Shortcuts {
    type V = Seq<ShortcutView>;

    closed spec fn view(&self) -> Seq<ShortcutView> {
        views_of(self.shortcuts@)
    }
}

impl Default for Shortcuts {
    /// The same store [`Shortcuts::new`] constructs: empty, nothing bound.
    fn default() -> (s: Shortcuts)
        ensures
            s@ == Seq::<ShortcutView>::empty(),
            s.spec_save_path() is None,
    {
        Shortcuts::new()
    }
}

impl Shortcuts {
    /// The bound save location, as a mathematical value.
    pub closed spec fn spec_save_path(&self) -> Option<Seq<char>> {
        match self.save_path {
            Some(p) => Some(p@),
            None => None,
        }
    }

    /// Constructs an empty store with no save location bound.
    pub fn new() -> (s: Shortcuts)
        ensures
            s@ == Seq::<ShortcutView>::empty(),
            s.spec_save_path() is None,
    {
        let s = Shortcuts { shortcuts: Vec::new(), save_path: None };
        proof {
            assert(s@ =~= Seq::<ShortcutView>::empty());
        }
        s
    }

    /// Rebuilds a store from records read back from the persisted document,
    /// with no save location bound yet.
    pub(crate) fn from_vec(shortcuts: Vec<Shortcut>) -> (s: Shortcuts)
        ensures
            s@ == views_of(shortcuts@),
            s.spec_save_path() is None,
    {
        Shortcuts { shortcuts, save_path: None }
    }

    /// Binds the location that [`Shortcuts::get_save_path`] reports.
    pub fn set_save_path(&mut self, new_save_path: String)
        ensures
            final(self)@ == old(self)@,
            final(self).spec_save_path() == Some(new_save_path@),
    {
        self.save_path = Some(new_save_path);
    }

    /// The bound save location, if any; the caller performs the actual file
    /// access.
    pub fn get_save_path(&self) -> (p: &Option<String>)
        ensures
            match p {
                Some(s) => self.spec_save_path() == Some(s@),
                None => self.spec_save_path() is None,
            },
    {
        &self.save_path
    }

    /// A read-only view of the full sequence in storage order.
    pub fn get_all_shortcuts(&self) -> (all: &[Shortcut])
        ensures
            views_of(all@) == self@,
    {
        self.shortcuts.as_slice()
    }

    /// Appends a record at the end of the storage order; always succeeds.
    pub fn add_shortcut(&mut self, shortcut: Shortcut)
        ensures
            final(self)@ == old(self)@.push(shortcut@),
            final(self).spec_save_path() == old(self).spec_save_path(),
    {
        let ghost v = shortcut@;
        self.shortcuts.push(shortcut);
        proof {
            assert(self@ =~= old(self)@.push(v));
        }
    }

    /// Adds `amount` to the lookup count of the record at `index`; an
    /// out-of-range index leaves the store untouched.
    pub fn increment_lookup_count(&mut self, index: usize, amount: u32)
        requires
            index < old(self)@.len() ==> old(self)@[index as int].lookup_count + amount
                <= u32::MAX,
        ensures
            final(self)@ == incremented(old(self)@, index as int, amount),
            final(self).spec_save_path() == old(self).spec_save_path(),
    {
        if index < self.shortcuts.len() {
            let count = self.shortcuts[index].lookup_count;
            self.shortcuts[index].lookup_count = count + amount;
            proof {
                assert(self@ =~= old(self)@.update(
                    index as int,
                    ShortcutView {
                        lookup_count: (old(self)@[index as int].lookup_count + amount) as u32,
                        ..old(self)@[index as int]
                    },
                ));
            }
        }
    }

    /// Removes and returns the record at `index`, shifting the records after
    /// it down by one; an out-of-range index returns nothing and leaves the
    /// store untouched.
    pub fn remove_at(&mut self, index: usize) -> (removed: Option<Shortcut>)
        ensures
            index < old(self)@.len() ==> {
                &&& removed matches Some(s) && s@ == old(self)@[index as int]
                &&& final(self)@ == old(self)@.remove(index as int)
            },
            index >= old(self)@.len() ==> removed is None && final(self)@ == old(self)@,
            final(self).spec_save_path() == old(self).spec_save_path(),
    {
        if index < self.shortcuts.len() {
            let s = self.shortcuts.remove(index);
            proof {
                assert(self@ =~= old(self)@.remove(index as int));
            }
            Some(s)
        } else {
            None
        }
    }
}

/// The store's contents after adding `amount` to the lookup count of the
/// record at `index`; an out-of-range index changes nothing.
pub open spec fn incremented(s: Seq<ShortcutView>, index: int, amount: u32) -> Seq<ShortcutView> {
    if 0 <= index < s.len() {
        s.update(
            index,
            ShortcutView { lookup_count: (s[index].lookup_count + amount) as u32, ..s[index] },
        )
    } else {
        s
    }
}

/// Incrementing a lookup count by zero never changes observable state,
/// whatever the index.
pub proof fn lemma_increment_by_zero(s: Seq<ShortcutView>, index: int)
    ensures
        incremented(s, index, 0) == s,
{
    if 0 <= index < s.len() {
        assert(incremented(s, index, 0) =~= s);
    }
}

/// Incrementing at the store's length — the first index past the end — is
/// a no-op, for any amount; so is any farther index.
pub proof fn lemma_increment_out_of_range(s: Seq<ShortcutView>, index: int, amount: u32)
    requires
        index >= s.len(),
    ensures
        incremented(s, index, amount) == s,
{
}

/// True when the record at `i` is displayed before the record at `j`:
/// either it has been looked up more often, or the counts tie and `i`
/// keeps its earlier storage position.
pub open spec fn rank_before(s: Seq<ShortcutView>, i: int, j: int) -> bool {
    ||| s[i].lookup_count > s[j].lookup_count
    ||| (s[i].lookup_count == s[j].lookup_count && i < j)
}

/// True when `idxs` lists indices of `s` in display order: each one ranks
/// before all the later ones.
pub open spec fn ranking_sorted(s: Seq<ShortcutView>, idxs: Seq<usize>) -> bool {
    forall|k1: int, k2: int|
        0 <= k1 < k2 < idxs.len() ==> rank_before(s, idxs[k1] as int, idxs[k2] as int)
}

proof fn lemma_insert_keeps_values(before: Seq<usize>, p: int, x: usize)
    requires
        0 <= p <= before.len(),
    ensures
        forall|v: usize| before.contains(v) ==> #[trigger] before.insert(p, x).contains(v),
        before.insert(p, x).contains(x),
{
    before.insert_ensures(p, x);
    assert forall|v: usize| before.contains(v) implies #[trigger] before.insert(p, x).contains(
        v,
    ) by {
        let k = choose|k: int| 0 <= k < before.len() && before[k] == v;
        if k < p {
            assert(before.insert(p, x)[k] == v);
        } else {
            assert(before.insert(p, x)[k + 1] == v);
        }
    }
    assert(before.insert(p, x)[p] == x);
}

proof fn lemma_insert_keeps_ranking(s: Seq<ShortcutView>, before: Seq<usize>, p: int, i: usize)
    requires
        0 <= p <= before.len(),
        (i as int) < s.len(),
        forall|k: int| 0 <= k < before.len() ==> (#[trigger] before[k]) < i,
        ranking_sorted(s, before),
        forall|k: int| 0 <= k < p ==> rank_before(s, (#[trigger] before[k]) as int, i as int),
        p < before.len() ==> !rank_before(s, before[p] as int, i as int),
    ensures
        ranking_sorted(s, before.insert(p, i)),
{
    before.insert_ensures(p, i);
    let after = before.insert(p, i);
    assert forall|k1: int, k2: int| 0 <= k1 < k2 < after.len() implies rank_before(
        s,
        after[k1] as int,
        after[k2] as int,
    ) by {
        if k1 < p && k2 < p {
            assert(after[k1] == before[k1] && after[k2] == before[k2]);
            assert(rank_before(s, before[k1] as int, before[k2] as int));
        } else if k1 < p && k2 == p {
            assert(after[k1] == before[k1] && after[k2] == i);
            assert(rank_before(s, before[k1] as int, i as int));
        } else if k1 == p {
            // Everything at or after the insertion point ranks after `i`:
            // the scan stopped on a record that does not outrank `i`, and
            // the sorted tail only ranks further down.
            assert(after[k1] == i && after[k2] == before[k2 - 1]);
            assert(!rank_before(s, before[p] as int, i as int));
            assert(before[p] < i);
            assert(s[before[p] as int].lookup_count < s[i as int].lookup_count);
            if k2 - 1 > p {
                assert(rank_before(s, before[p] as int, before[k2 - 1] as int));
            }
            assert(s[before[k2 - 1] as int].lookup_count < s[i as int].lookup_count);
        } else if k1 > p {
            assert(after[k1] == before[k1 - 1] && after[k2] == before[k2 - 1]);
            assert(rank_before(s, before[k1 - 1] as int, before[k2 - 1] as int));
        } else {
            // k1 < p < k2
            assert(after[k1] == before[k1] && after[k2] == before[k2 - 1]);
            assert(rank_before(s, before[k1] as int, before[k2 - 1] as int));
        }
    }
}

/// The storage indices whose records are displayed before the record at
/// `t`: those that outrank it.
pub open spec fn outranked_by(s: Seq<ShortcutView>, t: int) -> Set<int> {
    Set::new(|j: int| 0 <= j < s.len() && rank_before(s, j, t))
}

/// In a full ranking of the store — as [`Shortcuts::get_sorted_indexes`]
/// returns it — the index at display position `k` is outranked by exactly
/// `k` records.
pub proof fn lemma_rank_position(s: Seq<ShortcutView>, idxs: Seq<usize>, k: int)
    requires
        idxs.len() == s.len(),
        forall|m: int| 0 <= m < idxs.len() ==> (#[trigger] idxs[m]) < s.len(),
        forall|v: usize| v < s.len() ==> #[trigger] idxs.contains(v),
        ranking_sorted(s, idxs),
        s.len() <= usize::MAX,
        0 <= k < idxs.len(),
    ensures
        outranked_by(s, idxs[k] as int).finite(),
        outranked_by(s, idxs[k] as int).len() == k,
{
    broadcast use vstd::seq_lib::group_seq_properties;

    let t = idxs[k] as int;
    let prefix = idxs.subrange(0, k).map_values(|u: usize| u as int);
    assert(idxs.subrange(0, k).no_duplicates()) by {
        assert forall|m1: int, m2: int|
            0 <= m1 < m2 < k implies idxs.subrange(0, k)[m1] != idxs.subrange(0, k)[m2] by {
            assert(rank_before(s, idxs[m1] as int, idxs[m2] as int));
        }
    }
    idxs.subrange(0, k).lemma_no_duplicates_injective(|u: usize| u as int);
    prefix.unique_seq_to_set();
    assert(outranked_by(s, t) =~= prefix.to_set()) by {
        assert forall|j: int| outranked_by(s, t).contains(j) implies prefix.to_set().contains(
            j,
        ) by {
            assert(0 <= j < s.len());
            assert((j as usize) as int == j);
            assert(idxs.contains(j as usize));
            let m = choose|m: int| 0 <= m < idxs.len() && idxs[m] == j as usize;
            assert(idxs[m] as int == j);
            if m == k {
                assert(!rank_before(s, t, t));
            } else if m > k {
                assert(rank_before(s, idxs[k] as int, idxs[m] as int));
            } else {
                assert(prefix[m] == j);
                assert(prefix.contains(j));
            }
        }
        assert forall|j: int| prefix.to_set().contains(j) implies outranked_by(s, t).contains(
            j,
        ) by {
            assert(prefix.contains(j));
            let m = choose|m: int| 0 <= m < prefix.len() && prefix[m] == j;
            assert(idxs.subrange(0, k)[m] == idxs[m]);
            assert(rank_before(s, idxs[m] as int, idxs[k] as int));
        }
    }
}

impl Shortcuts {
    /// Returns the storage indices permuted into descending order of lookup
    /// count; ties keep ascending storage order, so the ranking is stable.
    /// It is recomputed on every call, never cached.
    pub fn get_sorted_indexes(&self) -> (indexes: Vec<usize>)
        ensures
            indexes@.len() == self@.len(),
            forall|k: int| 0 <= k < indexes@.len() ==> (#[trigger] indexes@[k]) < self@.len(),
            forall|v: usize| v < self@.len() ==> #[trigger] indexes@.contains(v),
            ranking_sorted(self@, indexes@),
    {
        let n = self.shortcuts.len();
        let mut indexes: Vec<usize> = Vec::new();
        let mut i: usize = 0;
        while i < n
            invariant
                n == self@.len(),
                i <= n,
                indexes@.len() == i,
                forall|k: int| 0 <= k < indexes@.len() ==> (#[trigger] indexes@[k]) < i,
                forall|v: usize| v < i ==> #[trigger] indexes@.contains(v),
                ranking_sorted(self@, indexes@),
            decreases n - i,
        {
            // Scan for the first already-placed index that does not outrank
            // `i`; every index placed so far is smaller than `i`, so on a tie
            // `i` goes after the whole equal-count run.
            let count_i = self.shortcuts[i].lookup_count;
            let mut p: usize = 0;
            while p < indexes.len()
                invariant
                    n == self@.len(),
                    i < n,
                    count_i == self@[i as int].lookup_count,
                    p <= indexes@.len(),
                    forall|k: int| 0 <= k < indexes@.len() ==> (#[trigger] indexes@[k]) < i,
                    forall|k: int|
                        0 <= k < p ==> rank_before(self@, (#[trigger] indexes@[k]) as int, i as int),
                ensures
                    p <= indexes@.len(),
                    forall|k: int|
                        0 <= k < p ==> rank_before(self@, (#[trigger] indexes@[k]) as int, i as int),
                    p < indexes@.len() ==> !rank_before(self@, indexes@[p as int] as int, i as int),
                decreases indexes@.len() - p,
            {
                let j = indexes[p];
                let count_j = self.shortcuts[j].lookup_count;
                if !(count_j > count_i || (count_j == count_i && j < i)) {
                    break;
                }
                p += 1;
            }
            let ghost before = indexes@;
            indexes.insert(p, i);
            proof {
                lemma_insert_keeps_values(before, p as int, i);
                lemma_insert_keeps_ranking(self@, before, p as int, i);
                before.insert_ensures(p as int, i);
            }
            i += 1;
        }
        indexes
    }
}

} // verus!
