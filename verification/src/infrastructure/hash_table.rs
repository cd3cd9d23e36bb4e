//! Chained hash table keyed by 64-bit integers: an array of buckets, each a
//! list of key-value pairs, a key hashed to its bucket by FNV-1a over its
//! decimal digits.

use vstd::prelude::*;

use crate::infrastructure::hash::{fnv1a_hash_bytes, spec_fnv1a};
use crate::text::{dec_digits, u64_to_dec};

verus! {

/// The bucket a key belongs to, among `count` buckets.
pub open spec fn bucket_of(key: u64, count: nat) -> int
    recommends
        count > 0,
{
    spec_fnv1a(dec_digits(key as nat)) as int % count as int
}

/// The first entry with the given key in a bucket, from position `i` on.
pub open spec fn find_entry<V>(chain: Seq<(u64, V)>, key: u64, i: int) -> Option<int>
    decreases chain.len() - i,
{
    if i < 0 || i >= chain.len() {
        None
    } else if chain[i].0 == key {
        Some(i)
    } else {
        find_entry(chain, key, i + 1)
    }
}

/// A chained hash table from 64-bit keys to values.
pub struct HashTable<V> {
    buckets: Vec<Vec<(u64, V)>>,
    size: usize,
}

impl<V> HashTable<V> {
    /// The buckets, each a list of key-value pairs.
    pub closed spec fn spec_buckets(self) -> Seq<Seq<(u64, V)>> {
        self.buckets@.map_values(|b: Vec<(u64, V)>| b@)
    }

    /// The total number of entries.
    pub closed spec fn spec_size(self) -> nat {
        self.size as nat
    }

    /// Table invariant: at least one bucket, each key at most once in its
    /// bucket, every key in the bucket its hash names, and the size equal to
    /// the entry count.
    pub open spec fn wf(self) -> bool {
        &&& self.spec_buckets().len() > 0
        &&& forall|b: int, i: int, j: int|
            0 <= b < self.spec_buckets().len() && 0 <= i < j < self.spec_buckets()[b].len()
                ==> (#[trigger] self.spec_buckets()[b][i]).0 != (
            #[trigger] self.spec_buckets()[b][j]).0
        &&& forall|b: int, i: int|
            0 <= b < self.spec_buckets().len() && 0 <= i < self.spec_buckets()[b].len()
                ==> bucket_of((#[trigger] self.spec_buckets()[b][i]).0, self.spec_buckets().len())
                == b
        &&& self.spec_size() == total_entries(self.spec_buckets())
    }

    /// Whether the table holds the key.
    pub open spec fn spec_has_key(self, key: u64) -> bool {
        find_entry(self.spec_buckets()[bucket_of(key, self.spec_buckets().len())], key, 0)
            is Some
    }

    /// The value stored under a key the table holds.
    pub open spec fn spec_get(self, key: u64) -> V
        recommends
            self.spec_has_key(key),
    {
        let chain = self.spec_buckets()[bucket_of(key, self.spec_buckets().len())];
        chain[find_entry(chain, key, 0).unwrap()].1
    }

    /// Creates a table with the given number of buckets; at least one
    /// bucket is always allocated.
    pub fn new(bucket_count: usize) -> (r: Self)
        ensures
            r.wf(),
            r.spec_size() == 0,
            r.spec_buckets().len() == (if bucket_count == 0 {
                1int
            } else {
                bucket_count as int
            }),
            forall|key: u64| !r.spec_has_key(key),
    {
        let count = if bucket_count == 0 {
            1
        } else {
            bucket_count
        };
        let mut buckets: Vec<Vec<(u64, V)>> = Vec::new();
        let mut i: usize = 0;
        while i < count
            invariant
                0 <= i <= count,
                buckets@.len() == i,
                forall|k: int| 0 <= k < i ==> (#[trigger] buckets@[k])@.len() == 0,
            decreases count - i,
        {
            buckets.push(Vec::new());
            i = i + 1;
        }
        let r = Self { buckets, size: 0 };
        proof {
            assert(total_entries_from(r.spec_buckets(), 0) == 0) by {
                lemma_total_entries_empty(r.spec_buckets(), 0);
            }
        }
        r
    }

    /// The number of entries.
    pub fn size(&self) -> (r: usize)
        ensures
            r == self.spec_size(),
    {
        self.size
    }

    /// Whether the table is empty.
    pub fn is_empty(&self) -> (r: bool)
        ensures
            r == (self.spec_size() == 0),
    {
        self.size == 0
    }
}

/// The number of entries in the buckets from position `b` on.
pub open spec fn total_entries_from<V>(buckets: Seq<Seq<(u64, V)>>, b: int) -> nat
    decreases buckets.len() - b,
{
    if b < 0 || b >= buckets.len() {
        0
    } else {
        buckets[b].len() + total_entries_from(buckets, b + 1)
    }
}

/// The number of entries in all buckets.
pub open spec fn total_entries<V>(buckets: Seq<Seq<(u64, V)>>) -> nat {
    total_entries_from(buckets, 0)
}

/// All-empty buckets hold no entries.
proof fn lemma_total_entries_empty<V>(buckets: Seq<Seq<(u64, V)>>, b: int)
    requires
        forall|k: int| 0 <= k < buckets.len() ==> (#[trigger] buckets[k]).len() == 0,
        0 <= b <= buckets.len(),
    ensures
        total_entries_from(buckets, b) == 0,
    decreases buckets.len() - b,
{
    if b < buckets.len() {
        lemma_total_entries_empty(buckets, b + 1);
    }
}

/// Changing one bucket changes the total by that bucket's change.
proof fn lemma_total_entries_update<V>(
    buckets: Seq<Seq<(u64, V)>>,
    b: int,
    nb: Seq<(u64, V)>,
    start: int,
)
    requires
        0 <= b < buckets.len(),
        0 <= start <= buckets.len(),
    ensures
        total_entries_from(buckets.update(b, nb), start) == (if start <= b {
            total_entries_from(buckets, start) - buckets[b].len() + nb.len()
        } else {
            total_entries_from(buckets, start) as int
        }),
    decreases buckets.len() - start,
{
    if start < buckets.len() {
        lemma_total_entries_update(buckets, b, nb, start + 1);
    }
}

impl<V: Clone> HashTable<V> {
    /// The bucket position of a key.
    fn bucket_index(&self, key: u64) -> (r: usize)
        requires
            self.spec_buckets().len() > 0,
        ensures
            r == bucket_of(key, self.spec_buckets().len()),
    {
        let digits = u64_to_dec(key);
        let h = fnv1a_hash_bytes(digits.as_slice());
        (h % self.buckets.len() as u64) as usize
    }

    /// Inserts a key-value pair, replacing the value when the key is
    /// already present.
    #[verifier::rlimit(60)]
    #[verifier::loop_isolation(false)]
    pub fn insert(&mut self, key: u64, value: V)
        requires
            old(self).wf(),
            old(self).spec_size() < usize::MAX,
        ensures
            final(self).wf(),
            final(self).spec_buckets().len() == old(self).spec_buckets().len(),
            final(self).spec_has_key(key),
            final(self).spec_get(key) == value,
            forall|other: u64|
                other != key ==> (#[trigger] final(self).spec_has_key(other) == old(
                    self,
                ).spec_has_key(other) && (old(self).spec_has_key(other) ==> final(self).spec_get(
                    other,
                ) == old(self).spec_get(other))),
            final(self).spec_size() == (if old(self).spec_has_key(key) {
                old(self).spec_size() as int
            } else {
                old(self).spec_size() + 1int
            }),
    {
        let b = self.bucket_index(key);
        let ghost pre = self.spec_buckets();
        let ghost chain0 = pre[b as int];
        let chain = &mut self.buckets[b];
        let ghost chain_start = chain@;
        let n = chain.len();
        let mut i: usize = 0;
        while i < n
            invariant
                0 <= i <= n,
                n == chain@.len(),
                chain@ == chain_start,
                pre == old(self).spec_buckets(),
                old(self).wf(),
                0 <= b < pre.len(),
                b as int == bucket_of(key, pre.len()),
                chain_start == pre[b as int],
                old(self).spec_size() < usize::MAX,
                find_entry(chain@, key, 0) == find_entry(chain@, key, i as int),
            decreases n - i,
        {
            if entry_key(&chain[i]) == key {
                proof {
                    assert(find_entry(chain@, key, i as int) == Some(i as int));
                }
                let ghost prechain = chain@;
                set_entry_value(chain, i, value);
                proof {
                    lemma_find_entry_same(prechain, chain@, key, 0);
                }
                proof {
                    let post = self.spec_buckets();
                    assert(post.len() == pre.len() && forall|k: int|
                        0 <= k < pre.len() && k != b ==> post[k] == pre[k]) by {
                        assert forall|k: int| 0 <= k < pre.len() && k != b implies #[trigger] post[k]
                            == pre[k] by {}
                    }
                    finish_insert_replace(pre, post, b as int, i as int, key, old(self).spec_size() as int, self.spec_size() as int);
                }
                return ;
            }
            i = i + 1;
        }
        proof {
            assert(find_entry(chain@, key, 0) is None);
        }
        let ghost prechain = chain@;
        chain.push((key, value));
        proof {
            lemma_find_entry_push(prechain, key, value);
        }
        self.size = self.size + 1;
        proof {
            let post = self.spec_buckets();
            assert(post.len() == pre.len() && forall|k: int|
                0 <= k < pre.len() && k != b ==> post[k] == pre[k]) by {
                assert forall|k: int| 0 <= k < pre.len() && k != b implies #[trigger] post[k]
                    == pre[k] by {}
            }
            finish_insert_new(pre, post, b as int, key, old(self).spec_size() as int, self.spec_size() as int);
        }
    }

    /// The value under a key; `None` exactly when the key is absent.
    #[verifier::loop_isolation(false)]
    pub fn get(&self, key: u64) -> (r: Option<&V>)
        requires
            self.wf(),
        ensures
            r is Some <==> self.spec_has_key(key),
            r matches Some(v) ==> *v == self.spec_get(key),
    {
        let b = self.bucket_index(key);
        let chain = &self.buckets[b];
        let n = chain.len();
        let mut i: usize = 0;
        while i < n
            invariant
                0 <= i <= n,
                n == chain@.len(),
                self.wf(),
                0 <= b < self.spec_buckets().len(),
                b as int == bucket_of(key, self.spec_buckets().len()),
                chain@ == self.spec_buckets()[b as int],
                find_entry(chain@, key, 0) == find_entry(chain@, key, i as int),
            decreases n - i,
        {
            if entry_key(&chain[i]) == key {
                proof {
                    assert(find_entry(chain@, key, i as int) == Some(i as int));
                }
                return Some(&chain[i].1);
            }
            i = i + 1;
        }
        proof {
            assert(find_entry(chain@, key, 0) is None);
        }
        None
    }

    /// Removes a key and returns its value; `None` exactly when the key is
    /// absent.
    #[verifier::rlimit(60)]
    #[verifier::loop_isolation(false)]
    pub fn remove(&mut self, key: u64) -> (r: Option<V>)
        requires
            old(self).wf(),
        ensures
            final(self).wf(),
            final(self).spec_buckets().len() == old(self).spec_buckets().len(),
            r is Some <==> old(self).spec_has_key(key),
            r matches Some(v) ==> v == old(self).spec_get(key),
            !final(self).spec_has_key(key),
            forall|other: u64|
                other != key ==> (#[trigger] final(self).spec_has_key(other) == old(
                    self,
                ).spec_has_key(other) && (old(self).spec_has_key(other) ==> final(self).spec_get(
                    other,
                ) == old(self).spec_get(other))),
            final(self).spec_size() == (if old(self).spec_has_key(key) {
                old(self).spec_size() - 1
            } else {
                old(self).spec_size() as int
            }),
    {
        let b = self.bucket_index(key);
        let ghost pre = self.spec_buckets();
        let n = self.buckets[b].len();
        let mut i: usize = 0;
        let mut found = false;
        while i < n && !found
            invariant
                0 <= i <= n,
                n == pre[b as int].len(),
                !found ==> find_entry(pre[b as int], key, 0) == find_entry(
                    pre[b as int],
                    key,
                    i as int,
                ),
                found ==> i < n && find_entry(pre[b as int], key, 0) == Some(i as int),
            decreases n + 1 - i - (if found {
                1int
            } else {
                0int
            }),
        {
            if entry_key(&self.buckets[b][i]) == key {
                proof {
                    assert(find_entry(pre[b as int], key, i as int) == Some(i as int));
                }
                found = true;
            } else {
                i = i + 1;
            }
        }
        if !found {
            proof {
                assert(find_entry(pre[b as int], key, 0) is None);
            }
            return None;
        }
        proof {
            lemma_find_entry_found(pre[b as int], key, 0);
            lemma_total_entries_bucket_le(pre, b as int);
        }
        let chain = &mut self.buckets[b];
        let ghost prechain = chain@;
        let entry = chain.remove(i);
        proof {
            lemma_find_entry_remove(prechain, i as int, key);
        }
        self.size = self.size - 1;
        proof {
            let post = self.spec_buckets();
            assert(post.len() == pre.len() && forall|k: int|
                0 <= k < pre.len() && k != b ==> post[k] == pre[k]) by {
                assert forall|k: int| 0 <= k < pre.len() && k != b implies #[trigger] post[k]
                    == pre[k] by {}
            }
            finish_remove(
                pre,
                post,
                b as int,
                i as int,
                key,
                old(self).spec_size() as int,
                self.spec_size() as int,
            );
        }
        Some(entry_value_owned(entry))
    }
}

/// A bucket's length is at most the total entry count.
proof fn lemma_total_entries_bucket_le<V>(buckets: Seq<Seq<(u64, V)>>, b: int)
    requires
        0 <= b < buckets.len(),
    ensures
        buckets[b].len() <= total_entries(buckets),
{
    lemma_total_entries_bucket_le_rec(buckets, b, 0);
}

/// Helper for `lemma_total_entries_bucket_le`.
proof fn lemma_total_entries_bucket_le_rec<V>(buckets: Seq<Seq<(u64, V)>>, b: int, j: int)
    requires
        0 <= j <= b < buckets.len(),
    ensures
        buckets[b].len() <= total_entries_from(buckets, j),
    decreases b - j,
{
    if j < b {
        lemma_total_entries_bucket_le_rec(buckets, b, j + 1);
    }
}

/// The key of an entry.
fn entry_key<V>(e: &(u64, V)) -> (r: u64)
    ensures
        r == e.0,
{
    e.0
}

/// A copy of an entry's value.
fn entry_value<V: Clone>(e: &(u64, V)) -> (r: V)
    ensures
        vstd::pervasive::cloned(e.1, r),
{
    e.1.clone()
}

/// The value of an owned entry.
fn entry_value_owned<V>(e: (u64, V)) -> (r: V)
    ensures
        r == e.1,
{
    e.1
}

/// Replaces the value of the entry at `i`, keeping its key.
fn set_entry_value<V>(chain: &mut Vec<(u64, V)>, i: usize, value: V)
    requires
        i < old(chain)@.len(),
    ensures
        final(chain)@.len() == old(chain)@.len(),
        forall|k: int|
            0 <= k < final(chain)@.len() && k != i ==> final(chain)@[k] == old(chain)@[k],
        final(chain)@[i as int].0 == old(chain)@[i as int].0,
        final(chain)@[i as int].1 == value,
{
    let key = chain[i].0;
    chain[i] = (key, value);
}

/// A found entry carries the looked-up key and lies in range.
proof fn lemma_find_entry_found<V>(chain: Seq<(u64, V)>, key: u64, j: int)
    requires
        0 <= j <= chain.len(),
    ensures
        find_entry(chain, key, j) matches Some(k) ==> j <= k < chain.len() && chain[k].0 == key,
    decreases chain.len() - j,
{
    if j < chain.len() {
        lemma_find_entry_found(chain, key, j + 1);
    }
}

/// Lookups agree on chains whose keys agree pointwise.
proof fn lemma_find_entry_same<V>(pre: Seq<(u64, V)>, post: Seq<(u64, V)>, key: u64, j: int)
    requires
        post.len() == pre.len(),
        forall|k: int| 0 <= k < pre.len() ==> (#[trigger] post[k]).0 == pre[k].0,
        0 <= j <= pre.len(),
    ensures
        find_entry(post, key, j) == find_entry(pre, key, j),
    decreases pre.len() - j,
{
    if j < pre.len() {
        lemma_find_entry_same(pre, post, key, j + 1);
    }
}

/// Replacing one entry's value leaves other keys' lookups and values alone.
proof fn lemma_key_update_others<V>(pre: Seq<(u64, V)>, post: Seq<(u64, V)>, i: int)
    requires
        0 <= i < pre.len(),
        post.len() == pre.len(),
        forall|k: int| 0 <= k < pre.len() && k != i ==> (#[trigger] post[k]) == pre[k],
        post[i].0 == pre[i].0,
    ensures
        forall|key: u64, j: int|
            0 <= j <= pre.len() && (find_entry(pre, key, j) matches Some(x) && x != i)
                ==> #[trigger] find_entry(post, key, j) == find_entry(pre, key, j) && post[
                find_entry(pre, key, j).unwrap()
            ] == pre[find_entry(pre, key, j).unwrap()],
{
    assert forall|key: u64, j: int|
        0 <= j <= pre.len() && (find_entry(pre, key, j) matches Some(x) && x != i)
        implies #[trigger] find_entry(post, key, j) == find_entry(pre, key, j) && post[
        find_entry(pre, key, j).unwrap()
    ] == pre[find_entry(pre, key, j).unwrap()] by {
        lemma_find_entry_same(pre, post, key, j);
        lemma_find_entry_found(pre, key, j);
    }
}

/// A pushed fresh key is found at the end; other lookups are unchanged.
proof fn lemma_find_entry_push<V>(pre: Seq<(u64, V)>, key: u64, value: V)
    requires
        find_entry(pre, key, 0) is None,
    ensures
        find_entry(pre.push((key, value)), key, 0) == Some(pre.len() as int),
        forall|other: u64|
            other != key ==> #[trigger] find_entry(pre.push((key, value)), other, 0)
                == find_entry(pre, other, 0),
{
    lemma_find_entry_push_rec(pre, key, value, key, 0);
    assert forall|other: u64| other != key implies #[trigger] find_entry(
        pre.push((key, value)),
        other,
        0,
    ) == find_entry(pre, other, 0) by {
        lemma_find_entry_push_rec(pre, key, value, other, 0);
    }
}

/// Helper for `lemma_find_entry_push`, one suffix at a time.
proof fn lemma_find_entry_push_rec<V>(
    pre: Seq<(u64, V)>,
    key: u64,
    value: V,
    look: u64,
    j: int,
)
    requires
        0 <= j <= pre.len(),
        find_entry(pre, key, 0) is None,
    ensures
        look == key ==> (find_entry(pre, key, j) is None ==> find_entry(
            pre.push((key, value)),
            key,
            j,
        ) == Some(pre.len() as int)),
        look != key ==> find_entry(pre.push((key, value)), look, j) == find_entry(pre, look, j),
    decreases pre.len() - j,
{
    let post = pre.push((key, value));
    if j < pre.len() {
        assert(post[j] == pre[j]);
        lemma_find_entry_push_rec(pre, key, value, look, j + 1);
        lemma_find_entry_none_suffix(pre, key, j);
    } else {
        assert(post[j].0 == key);
        if look != key {
            assert(find_entry(post, look, j + 1) is None);
            assert(find_entry(pre, look, j) is None);
        }
    }
}

/// An unfound key stays unfound in any suffix.
proof fn lemma_find_entry_none_suffix<V>(chain: Seq<(u64, V)>, key: u64, j: int)
    requires
        0 <= j < chain.len(),
        find_entry(chain, key, 0) is None,
    ensures
        find_entry(chain, key, j) is None,
    decreases j,
{
    if j > 0 {
        lemma_find_entry_none_suffix(chain, key, j - 1);
    }
}

/// Removing the unique entry of a key makes it unfound and leaves other
/// keys' lookups pointing at equal entries.
proof fn lemma_find_entry_remove<V>(pre: Seq<(u64, V)>, i: int, key: u64)
    requires
        0 <= i < pre.len(),
        pre[i].0 == key,
        forall|a: int, b: int| 0 <= a < b < pre.len() ==> (#[trigger] pre[a]).0 != (
        #[trigger] pre[b]).0,
    ensures
        find_entry(pre.remove(i), key, 0) is None,
        forall|other: u64|
            other != key ==> match (
                find_entry(pre, other, 0),
                #[trigger] find_entry(pre.remove(i), other, 0),
            ) {
                (Some(a), Some(b)) => pre[a] == pre.remove(i)[b],
                (None, None) => true,
                _ => false,
            },
{
    lemma_find_entry_remove_none(pre, i, key, 0);
    assert forall|other: u64| other != key implies match (
        find_entry(pre, other, 0),
        #[trigger] find_entry(pre.remove(i), other, 0),
    ) {
        (Some(a), Some(b)) => pre[a] == pre.remove(i)[b],
        (None, None) => true,
        _ => false,
    } by {
        lemma_find_entry_remove_other(pre, i, other, 0, 0);
    }
}

/// Helper: the removed key is not found in the shortened chain.
proof fn lemma_find_entry_remove_none<V>(pre: Seq<(u64, V)>, i: int, key: u64, j: int)
    requires
        0 <= i < pre.len(),
        pre[i].0 == key,
        forall|a: int, b: int| 0 <= a < b < pre.len() ==> (#[trigger] pre[a]).0 != (
        #[trigger] pre[b]).0,
        0 <= j <= pre.remove(i).len(),
    ensures
        find_entry(pre.remove(i), key, j) is None,
    decreases pre.remove(i).len() - j,
{
    let post = pre.remove(i);
    if j < post.len() {
        if j < i {
            assert(post[j] == pre[j]);
        } else {
            assert(post[j] == pre[j + 1]);
        }
        lemma_find_entry_remove_none(pre, i, key, j + 1);
    }
}

/// Helper: other keys' lookups before and after the removal agree.
proof fn lemma_find_entry_remove_other<V>(
    pre: Seq<(u64, V)>,
    i: int,
    other: u64,
    jpre: int,
    jpost: int,
)
    requires
        0 <= i < pre.len(),
        pre[i].0 != other,
        0 <= jpre <= pre.len(),
        0 <= jpost <= pre.remove(i).len(),
        jpost == (if jpre <= i {
            jpre
        } else {
            jpre - 1
        }),
    ensures
        match (find_entry(pre, other, jpre), find_entry(pre.remove(i), other, jpost)) {
            (Some(a), Some(b)) => pre[a] == pre.remove(i)[b],
            (None, None) => true,
            _ => false,
        },
    decreases pre.len() - jpre,
{
    let post = pre.remove(i);
    if jpre < pre.len() {
        if jpre == i {
            lemma_find_entry_remove_other(pre, i, other, jpre + 1, jpost);
        } else {
            let pj = if jpre < i {
                jpre
            } else {
                jpre - 1
            };
            assert(post[pj] == pre[jpre]);
            if pre[jpre].0 == other {
            } else {
                lemma_find_entry_remove_other(pre, i, other, jpre + 1, pj + 1);
            }
        }
    }
}

/// Closes the insert-by-replacement proof: the table stays well formed,
/// the key maps to the new value, and everything else is unchanged.
proof fn finish_insert_replace<V>(
    pre: Seq<Seq<(u64, V)>>,
    post: Seq<Seq<(u64, V)>>,
    b: int,
    i: int,
    key: u64,
    presize: int,
    postsize: int,
)
    requires
        pre.len() > 0,
        b == bucket_of(key, pre.len()),
        0 <= b < pre.len(),
        post.len() == pre.len(),
        forall|k: int| 0 <= k < pre.len() && k != b ==> (#[trigger] post[k]) == pre[k],
        0 <= i < pre[b].len(),
        pre[b][i].0 == key,
        post[b].len() == pre[b].len(),
        forall|k: int| 0 <= k < pre[b].len() && k != i ==> (#[trigger] post[b][k]) == pre[b][k],
        post[b][i].0 == key,
        find_entry(pre[b], key, 0) == Some(i),
        find_entry(post[b], key, 0) == find_entry(pre[b], key, 0),
        forall|a1: int, a2: int, a3: int|
            0 <= a1 < pre.len() && 0 <= a2 < a3 < pre[a1].len() ==> (#[trigger] pre[a1][a2]).0
                != (#[trigger] pre[a1][a3]).0,
        forall|a1: int, a2: int|
            0 <= a1 < pre.len() && 0 <= a2 < pre[a1].len() ==> bucket_of(
                (#[trigger] pre[a1][a2]).0,
                pre.len(),
            ) == a1,
        presize == total_entries(pre),
        postsize == presize,
    ensures
        forall|a1: int, a2: int, a3: int|
            0 <= a1 < post.len() && 0 <= a2 < a3 < post[a1].len() ==> (#[trigger] post[a1][a2]).0
                != (#[trigger] post[a1][a3]).0,
        forall|a1: int, a2: int|
            0 <= a1 < post.len() && 0 <= a2 < post[a1].len() ==> bucket_of(
                (#[trigger] post[a1][a2]).0,
                post.len(),
            ) == a1,
        postsize == total_entries(post),
        forall|other: u64|
            other != key && bucket_of(other, pre.len()) == b ==> #[trigger] find_entry(
                post[b],
                other,
                0,
            ) == find_entry(pre[b], other, 0) && (find_entry(pre[b], other, 0) matches Some(x)
                ==> post[b][x] == pre[b][x]),
{
    assert(post =~= pre.update(b, post[b]));
    lemma_total_entries_update(pre, b, post[b], 0);
    assert forall|a1: int, a2: int|
        0 <= a1 < post.len() && 0 <= a2 < post[a1].len() implies bucket_of(
        (#[trigger] post[a1][a2]).0,
        post.len(),
    ) == a1 by {
        if a1 == b && a2 == i {
        } else {
            assert(post[a1][a2] == pre[a1][a2]);
        }
    }
    assert forall|other: u64|
        other != key && bucket_of(other, pre.len()) == b implies #[trigger] find_entry(
        post[b],
        other,
        0,
    ) == find_entry(pre[b], other, 0) && (find_entry(pre[b], other, 0) matches Some(x) ==> post[
        b
    ][x] == pre[b][x]) by {
        lemma_find_entry_same(pre[b], post[b], other, 0);
        lemma_find_entry_found(pre[b], other, 0);
    }
}

/// Closes the insert-of-fresh-key proof.
proof fn finish_insert_new<V>(
    pre: Seq<Seq<(u64, V)>>,
    post: Seq<Seq<(u64, V)>>,
    b: int,
    key: u64,
    presize: int,
    postsize: int,
)
    requires
        pre.len() > 0,
        b == bucket_of(key, pre.len()),
        0 <= b < pre.len(),
        post.len() == pre.len(),
        forall|k: int| 0 <= k < pre.len() && k != b ==> (#[trigger] post[k]) == pre[k],
        post[b].len() == pre[b].len() + 1,
        forall|k: int| 0 <= k < pre[b].len() ==> (#[trigger] post[b][k]) == pre[b][k],
        post[b].last().0 == key,
        find_entry(pre[b], key, 0) is None,
        forall|a1: int, a2: int, a3: int|
            0 <= a1 < pre.len() && 0 <= a2 < a3 < pre[a1].len() ==> (#[trigger] pre[a1][a2]).0
                != (#[trigger] pre[a1][a3]).0,
        forall|a1: int, a2: int|
            0 <= a1 < pre.len() && 0 <= a2 < pre[a1].len() ==> bucket_of(
                (#[trigger] pre[a1][a2]).0,
                pre.len(),
            ) == a1,
        presize == total_entries(pre),
        postsize == presize + 1,
    ensures
        forall|a1: int, a2: int, a3: int|
            0 <= a1 < post.len() && 0 <= a2 < a3 < post[a1].len() ==> (#[trigger] post[a1][a2]).0
                != (#[trigger] post[a1][a3]).0,
        forall|a1: int, a2: int|
            0 <= a1 < post.len() && 0 <= a2 < post[a1].len() ==> bucket_of(
                (#[trigger] post[a1][a2]).0,
                post.len(),
            ) == a1,
        postsize == total_entries(post),
        forall|other: u64|
            other != key && bucket_of(other, pre.len()) == b ==> #[trigger] find_entry(
                post[b],
                other,
                0,
            ) == find_entry(pre[b], other, 0) && (find_entry(pre[b], other, 0) matches Some(x)
                ==> post[b][x] == pre[b][x]),
{
    assert(post =~= pre.update(b, post[b]));
    lemma_total_entries_update(pre, b, post[b], 0);
    assert forall|a1: int, a2: int, a3: int|
        0 <= a1 < post.len() && 0 <= a2 < a3 < post[a1].len() implies (#[trigger] post[a1][a2]).0
        != (#[trigger] post[a1][a3]).0 by {
        if a1 == b {
            if a3 == post[b].len() - 1 {
                assert(post[a1][a2] == pre[a1][a2]);
                lemma_find_entry_found(pre[b], pre[a1][a2].0, 0);
                if pre[a1][a2].0 == key {
                    lemma_find_entry_some(pre[b], a2);
                }
            } else {
                assert(post[a1][a2] == pre[a1][a2]);
                assert(post[a1][a3] == pre[a1][a3]);
            }
        } else {
            assert(post[a1][a2] == pre[a1][a2]);
            assert(post[a1][a3] == pre[a1][a3]);
        }
    }
    assert forall|a1: int, a2: int|
        0 <= a1 < post.len() && 0 <= a2 < post[a1].len() implies bucket_of(
        (#[trigger] post[a1][a2]).0,
        post.len(),
    ) == a1 by {
        if a1 == b && a2 == post[b].len() - 1 {
        } else {
            assert(post[a1][a2] == pre[a1][a2]);
        }
    }
    assert forall|other: u64|
        other != key && bucket_of(other, pre.len()) == b implies #[trigger] find_entry(
        post[b],
        other,
        0,
    ) == find_entry(pre[b], other, 0) && (find_entry(pre[b], other, 0) matches Some(x) ==> post[
        b
    ][x] == pre[b][x]) by {
        lemma_find_entry_push_other(pre[b], post[b], other, 0);
        lemma_find_entry_found(pre[b], other, 0);
    }
}

/// A key present at a position is found somewhere.
proof fn lemma_find_entry_some<V>(chain: Seq<(u64, V)>, at: int)
    requires
        0 <= at < chain.len(),
    ensures
        find_entry(chain, chain[at].0, 0) is Some,
{
    lemma_find_entry_some_rec(chain, at, 0);
}

/// Helper for `lemma_find_entry_some`.
proof fn lemma_find_entry_some_rec<V>(chain: Seq<(u64, V)>, at: int, j: int)
    requires
        0 <= j <= at < chain.len(),
    ensures
        find_entry(chain, chain[at].0, j) is Some,
    decreases at - j,
{
    if j < at && chain[j].0 != chain[at].0 {
        lemma_find_entry_some_rec(chain, at, j + 1);
    }
}

/// A lookup of a key other than the appended one ignores the new tail.
proof fn lemma_find_entry_push_other<V>(
    pre: Seq<(u64, V)>,
    post: Seq<(u64, V)>,
    other: u64,
    j: int,
)
    requires
        post.len() == pre.len() + 1,
        forall|k: int| 0 <= k < pre.len() ==> (#[trigger] post[k]) == pre[k],
        post.last().0 != other,
        0 <= j <= pre.len(),
    ensures
        find_entry(post, other, j) == find_entry(pre, other, j),
    decreases pre.len() - j,
{
    if j < pre.len() {
        assert(post[j] == pre[j]);
        lemma_find_entry_push_other(pre, post, other, j + 1);
    } else {
        assert(find_entry(post, other, j + 1) is None);
        assert(find_entry(pre, other, j) is None);
    }
}

/// Closes the removal proof.
proof fn finish_remove<V>(
    pre: Seq<Seq<(u64, V)>>,
    post: Seq<Seq<(u64, V)>>,
    b: int,
    i: int,
    key: u64,
    presize: int,
    postsize: int,
)
    requires
        pre.len() > 0,
        b == bucket_of(key, pre.len()),
        0 <= b < pre.len(),
        post.len() == pre.len(),
        forall|k: int| 0 <= k < pre.len() && k != b ==> (#[trigger] post[k]) == pre[k],
        0 <= i < pre[b].len(),
        pre[b][i].0 == key,
        post[b] == pre[b].remove(i),
        forall|a1: int, a2: int, a3: int|
            0 <= a1 < pre.len() && 0 <= a2 < a3 < pre[a1].len() ==> (#[trigger] pre[a1][a2]).0
                != (#[trigger] pre[a1][a3]).0,
        forall|a1: int, a2: int|
            0 <= a1 < pre.len() && 0 <= a2 < pre[a1].len() ==> bucket_of(
                (#[trigger] pre[a1][a2]).0,
                pre.len(),
            ) == a1,
        presize == total_entries(pre),
        postsize == presize - 1,
    ensures
        forall|a1: int, a2: int, a3: int|
            0 <= a1 < post.len() && 0 <= a2 < a3 < post[a1].len() ==> (#[trigger] post[a1][a2]).0
                != (#[trigger] post[a1][a3]).0,
        forall|a1: int, a2: int|
            0 <= a1 < post.len() && 0 <= a2 < post[a1].len() ==> bucket_of(
                (#[trigger] post[a1][a2]).0,
                post.len(),
            ) == a1,
        postsize == total_entries(post),
        find_entry(post[b], key, 0) is None,
        forall|other: u64|
            other != key && bucket_of(other, pre.len()) == b ==> match (
                find_entry(pre[b], other, 0),
                #[trigger] find_entry(post[b], other, 0),
            ) {
                (Some(a), Some(c)) => pre[b][a] == post[b][c],
                (None, None) => true,
                _ => false,
            },
{
    assert(post =~= pre.update(b, post[b]));
    lemma_total_entries_update(pre, b, post[b], 0);
    assert forall|a1: int, a2: int, a3: int|
        0 <= a1 < post.len() && 0 <= a2 < a3 < post[a1].len() implies (#[trigger] post[a1][a2]).0
        != (#[trigger] post[a1][a3]).0 by {
        if a1 == b {
            let p2 = if a2 < i {
                a2
            } else {
                a2 + 1
            };
            let p3 = if a3 < i {
                a3
            } else {
                a3 + 1
            };
            assert(post[a1][a2] == pre[b][p2]);
            assert(post[a1][a3] == pre[b][p3]);
        }
    }
    assert forall|a1: int, a2: int|
        0 <= a1 < post.len() && 0 <= a2 < post[a1].len() implies bucket_of(
        (#[trigger] post[a1][a2]).0,
        post.len(),
    ) == a1 by {
        if a1 == b {
            let p2 = if a2 < i {
                a2
            } else {
                a2 + 1
            };
            assert(post[a1][a2] == pre[b][p2]);
        }
    }
    lemma_find_entry_remove(pre[b], i, key);
}

} // verus!
