//! Key-value metadata carried by every trace segment.
use vstd::prelude::*;

verus! {

/// Metadata key of the crate version. Present by default; an entry of the user
/// with this key takes its place.
pub const DIAL9_VERSION_KEY: &'static str = "dial9.dial9-tokio-telemetry.version";

/// Value of the crate version entry.
pub const DIAL9_VERSION_VALUE: &'static str = "0.1.0";

/// Metadata entries as character sequences.
pub type Entries = Seq<(Seq<char>, Seq<char>)>;

/// The entries as character sequences.
pub open spec fn entries_view(entries: Seq<(String, String)>) -> Entries {
    entries.map_values(|e: (String, String)| (e.0@, e.1@))
}

/// Whether some entry has the key.
pub open spec fn has_key(entries: Entries, key: Seq<char>) -> bool {
    exists|i: int| 0 <= i < entries.len() && (#[trigger] entries[i]).0 == key
}

/// The incoming entries, followed by each existing entry whose key is not
/// taken by an incoming or an earlier existing entry.
pub open spec fn merged(existing: Entries, incoming: Entries) -> Entries
    decreases existing.len(),
{
    if existing.len() == 0 {
        incoming
    } else {
        let before = merged(existing.drop_last(), incoming);
        if has_key(before, existing.last().0) {
            before
        } else {
            before.push(existing.last())
        }
    }
}

/// The value of the first entry with the key.
pub open spec fn lookup(entries: Entries, key: Seq<char>) -> Option<Seq<char>>
    decreases entries.len(),
{
    if entries.len() == 0 {
        None
    } else if entries[0].0 == key {
        Some(entries[0].1)
    } else {
        lookup(entries.skip(1), key)
    }
}

/// The entries every segment starts out with.
pub open spec fn default_entries() -> Entries {
    seq![(DIAL9_VERSION_KEY@, DIAL9_VERSION_VALUE@)]
}

proof fn lemma_merged_prefix(existing: Entries, incoming: Entries)
    ensures
        merged(existing, incoming).len() >= incoming.len(),
        merged(existing, incoming).take(incoming.len() as int) =~= incoming,
    decreases existing.len(),
{
    if existing.len() > 0 {
        lemma_merged_prefix(existing.drop_last(), incoming);
        let before = merged(existing.drop_last(), incoming);
        assert(before.push(existing.last()).take(incoming.len() as int) =~= before.take(
            incoming.len() as int,
        ));
    }
}

proof fn lemma_has_key_push(entries: Entries, e: (Seq<char>, Seq<char>), key: Seq<char>)
    ensures
        has_key(entries.push(e), key) <==> (has_key(entries, key) || e.0 == key),
{
    let next = entries.push(e);
    if has_key(entries, key) {
        let i = choose|i: int| 0 <= i < entries.len() && (#[trigger] entries[i]).0 == key;
        assert(next[i].0 == key);
    }
    assert(next[entries.len() as int] == e);
    if has_key(next, key) {
        let i = choose|i: int| 0 <= i < next.len() && (#[trigger] next[i]).0 == key;
        if i < entries.len() {
            assert(entries[i].0 == key);
        }
    }
}

proof fn lemma_merged_keys(existing: Entries, incoming: Entries, key: Seq<char>)
    ensures
        has_key(merged(existing, incoming), key) <==> (has_key(existing, key) || has_key(
            incoming,
            key,
        )),
    decreases existing.len(),
{
    if existing.len() > 0 {
        let rest = existing.drop_last();
        lemma_merged_keys(rest, incoming, key);
        lemma_has_key_push(rest, existing.last(), key);
        assert(rest.push(existing.last()) =~= existing);
        lemma_has_key_push(merged(rest, incoming), existing.last(), key);
    }
}

/// Merging keeps every key: the result has exactly the keys of the existing
/// and of the incoming entries.
pub proof fn law_merge_keeps_all_keys(existing: Entries, incoming: Entries)
    ensures
        forall|key: Seq<char>| #[trigger]
            has_key(merged(existing, incoming), key) <==> (has_key(existing, key) || has_key(
                incoming,
                key,
            )),
{
    assert forall|key: Seq<char>| #[trigger]
        has_key(merged(existing, incoming), key) <==> (has_key(existing, key) || has_key(
            incoming,
            key,
        )) by {
        lemma_merged_keys(existing, incoming, key);
    }
}

proof fn lemma_lookup_push(entries: Entries, e: (Seq<char>, Seq<char>), key: Seq<char>)
    ensures
        lookup(entries.push(e), key) == (match lookup(entries, key) {
            Some(v) => Some(v),
            None => if e.0 == key {
                Some(e.1)
            } else {
                None
            },
        }),
    decreases entries.len(),
{
    let next = entries.push(e);
    if entries.len() == 0 {
        assert(next[0] == e);
        assert(lookup(next.skip(1), key) is None);
    } else {
        assert(next[0] == entries[0]);
        assert(next.skip(1) =~= entries.skip(1).push(e));
        lemma_lookup_push(entries.skip(1), e, key);
    }
}

proof fn lemma_lookup_has_key(entries: Entries, key: Seq<char>)
    ensures
        lookup(entries, key) is Some <==> has_key(entries, key),
    decreases entries.len(),
{
    if entries.len() > 0 {
        let rest = entries.skip(1);
        lemma_lookup_has_key(rest, key);
        if has_key(rest, key) {
            let i = choose|i: int| 0 <= i < rest.len() && (#[trigger] rest[i]).0 == key;
            assert(entries[i + 1].0 == key);
        }
        if has_key(entries, key) && entries[0].0 != key {
            let i = choose|i: int| 0 <= i < entries.len() && (#[trigger] entries[i]).0 == key;
            assert(rest[i - 1].0 == key);
        }
        if entries[0].0 == key {
            assert(has_key(entries, key));
        }
    }
}

/// On a key conflict the incoming value wins; any other key keeps its value.
pub proof fn law_merge_prefers_incoming(existing: Entries, incoming: Entries, key: Seq<char>)
    ensures
        lookup(merged(existing, incoming), key) == (match lookup(incoming, key) {
            Some(v) => Some(v),
            None => lookup(existing, key),
        }),
    decreases existing.len(),
{
    if existing.len() > 0 {
        let rest = existing.drop_last();
        let before = merged(rest, incoming);
        law_merge_prefers_incoming(rest, incoming, key);
        assert(rest.push(existing.last()) =~= existing);
        lemma_lookup_push(rest, existing.last(), key);
        lemma_lookup_push(before, existing.last(), key);
        lemma_lookup_has_key(before, key);
    }
}

proof fn lemma_remerge(existing: Entries, incoming: Entries, n: int)
    requires
        0 <= n <= merged(existing, incoming).len(),
    ensures
        n <= incoming.len() ==> merged(merged(existing, incoming).take(n), incoming) == incoming,
        n > incoming.len() ==> merged(merged(existing, incoming).take(n), incoming) == merged(
            existing,
            incoming,
        ).take(n),
    decreases n,
{
    let all = merged(existing, incoming);
    lemma_merged_prefix(existing, incoming);
    if n > 0 {
        lemma_remerge(existing, incoming, n - 1);
        assert(all.take(n).drop_last() =~= all.take(n - 1));
        let last = all.take(n).last();
        assert(last == all[n - 1]);
        if n <= incoming.len() {
            assert(all.take(incoming.len() as int)[n - 1] == incoming[n - 1]);
            assert(incoming[n - 1].0 == last.0);
            assert(has_key(incoming, last.0));
        } else {
            lemma_merged_distinct(existing, incoming, n - 1);
            if n - 1 == incoming.len() {
                assert(all.take(n - 1) =~= incoming);
            }
            assert(all.take(n) =~= all.take(n - 1).push(last));
        }
    } else {
        assert(all.take(0).len() == 0);
    }
}

/// An entry behind the incoming ones has a key that does not occur before it.
proof fn lemma_merged_distinct(existing: Entries, incoming: Entries, i: int)
    requires
        incoming.len() <= i < merged(existing, incoming).len(),
    ensures
        !has_key(merged(existing, incoming).take(i), merged(existing, incoming)[i].0),
    decreases existing.len(),
{
    let all = merged(existing, incoming);
    if existing.len() > 0 {
        let rest = existing.drop_last();
        let before = merged(rest, incoming);
        if i < before.len() {
            lemma_merged_distinct(rest, incoming, i);
            assert(all.take(i) =~= before.take(i));
            assert(all[i] == before[i]);
        } else {
            assert(all.take(i) =~= before);
        }
    }
}

/// Merging the same entries a second time changes nothing.
pub proof fn law_merge_is_idempotent(existing: Entries, incoming: Entries)
    ensures
        merged(merged(existing, incoming), incoming) == merged(existing, incoming),
{
    let all = merged(existing, incoming);
    lemma_merged_prefix(existing, incoming);
    lemma_remerge(existing, incoming, all.len() as int);
    assert(all.take(all.len() as int) =~= all);
    if all.len() <= incoming.len() {
        assert(all.take(incoming.len() as int) =~= all);
    }
}

/// Entries of one trace segment.
pub struct SegmentMetadata {
    entries: Vec<(String, String)>,
}

impl View for SegmentMetadata {
    type V = Entries;

    closed spec fn view(&self) -> Entries {
        entries_view(self.entries@)
    }
}

pub(crate) fn copy_entries(entries: &Vec<(String, String)>) -> (r: Vec<(String, String)>)
    ensures
        r@ == entries@,
{
    let mut r: Vec<(String, String)> = Vec::new();
    let mut i: usize = 0;
    while i < entries.len()
        invariant
            i <= entries.len(),
            r@ == entries@.take(i as int),
        decreases entries.len() - i,
    {
        r.push((entries[i].0.clone(), entries[i].1.clone()));
        assert(r@ =~= entries@.take(i as int + 1));
        i = i + 1;
    }
    assert(entries@.take(i as int) =~= entries@);
    r
}

fn contains_key(entries: &Vec<(String, String)>, key: &String) -> (r: bool)
    ensures
        r == has_key(entries_view(entries@), key@),
{
    let mut i: usize = 0;
    while i < entries.len()
        invariant
            i <= entries.len(),
            forall|j: int| 0 <= j < i ==> (#[trigger] entries_view(entries@)[j]).0 != key@,
        decreases entries.len() - i,
    {
        if entries[i].0 == *key {
            assert(entries_view(entries@)[i as int].0 == key@);
            return true;
        }
        i = i + 1;
    }
    false
}

fn same_entries(a: &Vec<(String, String)>, b: &Vec<(String, String)>) -> (r: bool)
    ensures
        r == (entries_view(a@) == entries_view(b@)),
{
    let ghost va = entries_view(a@);
    let ghost vb = entries_view(b@);
    if a.len() != b.len() {
        assert(va.len() != vb.len());
        return false;
    }
    let mut i: usize = 0;
    while i < a.len()
        invariant
            i <= a.len(),
            a.len() == b.len(),
            va == entries_view(a@),
            vb == entries_view(b@),
            forall|j: int| 0 <= j < i ==> #[trigger] va[j] == vb[j],
        decreases a.len() - i,
    {
        if !(a[i].0 == b[i].0) || !(a[i].1 == b[i].1) {
            assert(va[i as int] != vb[i as int]);
            return false;
        }
        i = i + 1;
    }
    assert(va =~= vb);
    true
}

impl Default for SegmentMetadata {
    fn default() -> (r: Self)
        ensures
            r@ == default_entries(),
    {
        let mut entries: Vec<(String, String)> = Vec::new();
        entries.push((DIAL9_VERSION_KEY.to_owned(), DIAL9_VERSION_VALUE.to_owned()));
        let r = SegmentMetadata { entries };
        assert(r@ =~= default_entries());
        r
    }
}

impl SegmentMetadata {
    /// Segment metadata from the user's entries on top of the default version
    /// entry. A user entry with the same key overrides the default.
    pub fn new(user_entries: Vec<(String, String)>) -> (r: Self)
        ensures
            r@ == merged(default_entries(), entries_view(user_entries@)),
    {
        let mut s = SegmentMetadata::default();
        s.merge(user_entries);
        s
    }

    /// The entries in order.
    pub fn entries(&self) -> (r: &Vec<(String, String)>)
        ensures
            entries_view(r@) == self@,
    {
        &self.entries
    }

    /// Merges incoming entries with the existing ones. Incoming entries take
    /// priority on a key conflict; existing entries with other keys are kept.
    /// Returns whether the entries changed.
    pub fn merge(&mut self, entries: Vec<(String, String)>) -> (changed: bool)
        ensures
            final(self)@ == merged(old(self)@, entries_view(entries@)),
            changed == (final(self)@ != old(self)@),
    {
        let ghost incoming = entries_view(entries@);
        let ghost existing = self@;
        let mut merged_entries: Vec<(String, String)> = entries;
        let mut i: usize = 0;
        assert(existing.take(0) =~= Seq::empty());
        while i < self.entries.len()
            invariant
                i <= self.entries.len(),
                existing == entries_view(self.entries@),
                entries_view(merged_entries@) == merged(existing.take(i as int), incoming),
            decreases self.entries.len() - i,
        {
            assert(existing.take(i as int + 1).drop_last() =~= existing.take(i as int));
            assert(existing.take(i as int + 1).last() == existing[i as int]);
            if !contains_key(&merged_entries, &self.entries[i].0) {
                let ghost before = merged_entries@;
                merged_entries.push((self.entries[i].0.clone(), self.entries[i].1.clone()));
                assert(entries_view(merged_entries@) =~= entries_view(before).push(
                    existing[i as int],
                ));
            }
            i = i + 1;
        }
        assert(existing.take(i as int) =~= existing);
        if same_entries(&merged_entries, &self.entries) {
            return false;
        }
        self.entries = merged_entries;
        true
    }
}

/// Merged entries are the incoming entries, all of them and in order, and then
/// existing entries in order: those, at the positions `at`, whose key no
/// incoming and no earlier existing entry has.
pub proof fn law_merged_entries_are_the_incoming_and_then_the_others(
    existing: Entries,
    incoming: Entries,
) -> (at: Seq<int>)
    ensures
        merged(existing, incoming).len() == incoming.len() + at.len(),
        forall|i: int|
            0 <= i < incoming.len() ==> merged(existing, incoming)[i] == #[trigger] incoming[i],
        forall|k: int|
            0 <= k < at.len() ==> 0 <= #[trigger] at[k] < existing.len() && merged(
                existing,
                incoming,
            )[incoming.len() + k] == existing[at[k]],
        forall|j: int, k: int| 0 <= j < k < at.len() ==> #[trigger] at[j] < #[trigger] at[k],
        forall|i: int|
            0 <= i < existing.len() ==> (#[trigger] at.contains(i) <==> (forall|j: int|
                0 <= j < i ==> (#[trigger] existing[j]).0 != existing[i].0) && (forall|j: int|
                0 <= j < incoming.len() ==> (#[trigger] incoming[j]).0 != existing[i].0)),
    decreases existing.len(),
{
    if existing.len() == 0 {
        Seq::empty()
    } else {
        let rest = existing.drop_last();
        let last = existing.len() - 1;
        let key = existing.last().0;
        let before = merged(rest, incoming);
        let at = law_merged_entries_are_the_incoming_and_then_the_others(rest, incoming);
        lemma_merged_keys(rest, incoming, key);
        let next = if has_key(before, key) {
            at
        } else {
            at.push(last)
        };
        assert forall|i: int| 0 <= i < existing.len() implies (#[trigger] next.contains(i) <==> (
        forall|j: int| 0 <= j < i ==> (#[trigger] existing[j]).0 != existing[i].0) && (forall|j: int|
            0 <= j < incoming.len() ==> (#[trigger] incoming[j]).0 != existing[i].0)) by {
            if i < last {
                assert(existing[i] == rest[i]);
                assert(forall|j: int| 0 <= j < i ==> existing[j] == rest[j]);
                if at.contains(i) {
                    let k = choose|k: int| 0 <= k < at.len() && at[k] == i;
                    assert(next[k] == i);
                }
                if next.contains(i) {
                    let k = choose|k: int| 0 <= k < next.len() && next[k] == i;
                    assert(at[k] == i);
                }
            } else {
                assert(forall|j: int| 0 <= j < i ==> existing[j] == rest[j]);
                if has_key(before, key) {
                    assert(!next.contains(i)) by {
                        if next.contains(i) {
                            let k = choose|k: int| 0 <= k < next.len() && next[k] == i;
                            assert(at[k] == i);
                        }
                    }
                } else {
                    assert(next[at.len() as int] == i);
                }
            }
        }
        next
    }
}

/// The first entry with a key gives the key's value.
pub proof fn law_a_lookup_finds_the_first_entry(entries: Entries, key: Seq<char>, at: int)
    requires
        0 <= at < entries.len(),
        entries[at].0 == key,
        forall|i: int| 0 <= i < at ==> (#[trigger] entries[i]).0 != key,
    ensures
        lookup(entries, key) == Some(entries[at].1),
    decreases at,
{
    if at > 0 {
        let rest = entries.skip(1);
        assert(forall|i: int| 0 <= i < rest.len() ==> rest[i] == entries[i + 1]);
        law_a_lookup_finds_the_first_entry(rest, key, at - 1);
    }
}

} // verus!
