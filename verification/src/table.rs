//! Association tables keyed by identifier or topic strings.
//!
//! These replace hash maps in the statistics, trust and stimulus bookkeeping.
//! A table is a vector of `(key, value)` pairs; a lookup takes the first
//! entry whose key matches, and the update operations never create a second
//! entry for a key that is already present.

use vstd::prelude::*;

use crate::millis::{sat_add, spec_sat_add};
use crate::strutil::str_eq;

verus! {

/// The value of the first entry of `s` whose key reads `k`, or `d` if none does.
pub open spec fn spec_get_or(s: Seq<(String, u32)>, k: Seq<char>, d: u32) -> u32
    decreases s.len(),
{
    if s.len() == 0 {
        d
    } else if s[0].0@ == k {
        s[0].1
    } else {
        spec_get_or(s.drop_first(), k, d)
    }
}

/// `s` with `d` added (saturating) to `k`'s value; a missing key is appended
/// with value `d`.
pub open spec fn spec_bump(s: Seq<(String, u32)>, k: String, d: u32) -> Seq<(String, u32)>
    decreases s.len(),
{
    if s.len() == 0 {
        seq![(k, d)]
    } else if s[0].0@ == k@ {
        seq![(s[0].0, spec_sat_add(s[0].1, d))] + s.drop_first()
    } else {
        seq![s[0]] + spec_bump(s.drop_first(), k, d)
    }
}

/// `s` with `k`'s value replaced by `v`; a missing key is appended.
pub open spec fn spec_put(s: Seq<(String, u32)>, k: String, v: u32) -> Seq<(String, u32)>
    decreases s.len(),
{
    if s.len() == 0 {
        seq![(k, v)]
    } else if s[0].0@ == k@ {
        seq![(s[0].0, v)] + s.drop_first()
    } else {
        seq![s[0]] + spec_put(s.drop_first(), k, v)
    }
}

/// `t` with every entry of `src` bumped into it, in order.
pub open spec fn spec_merge(t: Seq<(String, u32)>, src: Seq<(String, u32)>) -> Seq<(String, u32)>
    decreases src.len(),
{
    if src.len() == 0 {
        t
    } else {
        spec_bump(spec_merge(t, src.drop_last()), src.last().0, src.last().1)
    }
}

/// Whether `k` reads like one of the strings in `keys`.
pub open spec fn spec_key_in(keys: Seq<String>, k: Seq<char>) -> bool {
    exists|i: int| 0 <= i < keys.len() && #[trigger] keys[i]@ == k
}

/// The entries of `s` whose keys are in `keys`, in their original order.
pub open spec fn spec_retain(s: Seq<(String, u32)>, keys: Seq<String>) -> Seq<(String, u32)>
    decreases s.len(),
{
    if s.len() == 0 {
        s
    } else if spec_key_in(keys, s.last().0@) {
        spec_retain(s.drop_last(), keys).push(s.last())
    } else {
        spec_retain(s.drop_last(), keys)
    }
}

/// A table of `u32` values keyed by strings: signal counts by topic, lineage
/// shift counts by lineage, and trust scores by neighbour identity.
#[derive(Debug)]
pub struct U32Table {
    pub entries: Vec<(String, u32)>,
}

impl U32Table {
    pub fn new() -> (r: U32Table)
        ensures
            r.entries@ =~= Seq::<(String, u32)>::empty(),
    {
        U32Table { entries: Vec::new() }
    }

    pub fn len(&self) -> (r: usize)
        ensures
            r == self.entries@.len(),
    {
        self.entries.len()
    }

    /// The stored value for `k`, or `d` where `k` is absent.
    pub fn get_or(&self, k: &str, d: u32) -> (r: u32)
        ensures
            r == spec_get_or(self.entries@, k@, d),
    {
        let n = self.entries.len();
        let mut i: usize = 0;
        proof {
            assert(self.entries@.skip(0) =~= self.entries@);
        }
        while i < n
            invariant
                n == self.entries@.len(),
                i <= n,
                spec_get_or(self.entries@, k@, d) == spec_get_or(
                    self.entries@.skip(i as int),
                    k@,
                    d,
                ),
            decreases n - i,
        {
            proof {
                assert(self.entries@.skip(i as int).drop_first() =~= self.entries@.skip(
                    i as int + 1,
                ));
            }
            if str_eq(self.entries[i].0.as_str(), k) {
                return self.entries[i].1;
            }
            i = i + 1;
        }
        d
    }

    /// Add `d` (saturating) to `k`'s value, appending the entry if absent.
    pub fn bump(&mut self, k: &String, d: u32)
        ensures
            final (self).entries@ == spec_bump(old(self).entries@, *k, d),
    {
        let ghost orig = self.entries@;
        let n = self.entries.len();
        let mut i: usize = 0;
        while i < n
            invariant
                n == orig.len(),
                i <= n,
                orig == old(self).entries@,
                self.entries@ == orig,
                forall|j: int| 0 <= j < i ==> #[trigger] orig[j].0@ != k@,
            decreases n - i,
        {
            if str_eq(self.entries[i].0.as_str(), k.as_str()) {
                let old_v = self.entries[i].1;
                let key = self.entries[i].0.clone();
                self.entries[i] = (key, sat_add(old_v, d));
                proof {
                    lemma_bump_at(orig, *k, d, i as int);
                    assert(self.entries@ =~= orig.update(
                        i as int,
                        (orig[i as int].0, spec_sat_add(orig[i as int].1, d)),
                    ));
                }
                return ;
            }
            i = i + 1;
        }
        self.entries.push((k.clone(), d));
        proof {
            lemma_bump_absent(orig, *k, d);
        }
    }

    /// Set `k`'s value to `v`, appending the entry if absent.
    pub fn put(&mut self, k: &String, v: u32)
        ensures
            final (self).entries@ == spec_put(old(self).entries@, *k, v),
    {
        let ghost orig = self.entries@;
        let n = self.entries.len();
        let mut i: usize = 0;
        while i < n
            invariant
                n == orig.len(),
                i <= n,
                orig == old(self).entries@,
                self.entries@ == orig,
                forall|j: int| 0 <= j < i ==> #[trigger] orig[j].0@ != k@,
            decreases n - i,
        {
            if str_eq(self.entries[i].0.as_str(), k.as_str()) {
                let key = self.entries[i].0.clone();
                self.entries[i] = (key, v);
                proof {
                    lemma_put_at(orig, *k, v, i as int);
                    assert(self.entries@ =~= orig.update(i as int, (orig[i as int].0, v)));
                }
                return ;
            }
            i = i + 1;
        }
        self.entries.push((k.clone(), v));
        proof {
            lemma_put_absent(orig, *k, v);
        }
    }

    /// Keep only the entries whose keys occur in `keys`.
    pub fn retain_keys(&mut self, keys: &Vec<String>)
        ensures
            final (self).entries@ == spec_retain(old(self).entries@, keys@),
    {
        let ghost orig = self.entries@;
        let mut kept: Vec<(String, u32)> = Vec::new();
        let n = self.entries.len();
        let mut i: usize = 0;
        while i < n
            invariant
                n == orig.len(),
                i <= n,
                self.entries@ == orig,
                kept@ == spec_retain(orig.take(i as int), keys@),
            decreases n - i,
        {
            proof {
                assert(orig.take(i as int + 1).drop_last() =~= orig.take(i as int));
                assert(orig.take(i as int + 1).last() == orig[i as int]);
            }
            if contains_str(keys, self.entries[i].0.as_str()) {
                let key = self.entries[i].0.clone();
                let v = self.entries[i].1;
                kept.push((key, v));
            }
            i = i + 1;
        }
        proof {
            assert(orig.take(n as int) =~= orig);
        }
        self.entries = kept;
    }

    pub fn clone_table(&self) -> (r: U32Table)
        ensures
            r.entries@ == self.entries@,
    {
        let mut out: Vec<(String, u32)> = Vec::new();
        let n = self.entries.len();
        let mut i: usize = 0;
        while i < n
            invariant
                n == self.entries@.len(),
                i <= n,
                out@ == self.entries@.take(i as int),
            decreases n - i,
        {
            let key = self.entries[i].0.clone();
            out.push((key, self.entries[i].1));
            proof {
                assert(self.entries@.take(i as int + 1) =~= self.entries@.take(i as int).push(
                    self.entries@[i as int],
                ));
            }
            i = i + 1;
        }
        proof {
            assert(self.entries@.take(n as int) =~= self.entries@);
        }
        U32Table { entries: out }
    }
}

/// Fold every entry of `source` into `target`, adding values (saturating) for
/// keys already present and appending the rest in `source`'s order.
pub fn merge_u32_map(target: &mut U32Table, source: &U32Table)
    ensures
        final (target).entries@ == spec_merge(old(target).entries@, source.entries@),
{
    let ghost orig = target.entries@;
    let n = source.entries.len();
    let mut i: usize = 0;
    while i < n
        invariant
            n == source.entries@.len(),
            i <= n,
            target.entries@ == spec_merge(orig, source.entries@.take(i as int)),
        decreases n - i,
    {
        proof {
            assert(source.entries@.take(i as int + 1).drop_last() =~= source.entries@.take(
                i as int,
            ));
            assert(source.entries@.take(i as int + 1).last() == source.entries@[i as int]);
        }
        let key = source.entries[i].0.clone();
        let v = source.entries[i].1;
        target.bump(&key, v);
        i = i + 1;
    }
    proof {
        assert(source.entries@.take(n as int) =~= source.entries@);
    }
}

/// The first entry with the largest value, or an empty key and zero where the
/// table is empty.
pub fn top_u32(map: &U32Table) -> (r: (String, u32))
    ensures
        map.entries@.len() == 0 ==> r.0@ == Seq::<char>::empty() && r.1 == 0,
        map.entries@.len() > 0 ==> exists|i: int|
            {
                &&& 0 <= i < map.entries@.len()
                &&& #[trigger] map.entries@[i].0@ == r.0@
                &&& map.entries@[i].1 == r.1
                &&& forall|j: int| 0 <= j < map.entries@.len() ==> map.entries@[j].1 <= r.1
                &&& forall|j: int| 0 <= j < i ==> #[trigger] map.entries@[j].1 < r.1
            },
{
    let n = map.entries.len();
    if n == 0 {
        return (String::new(), 0);
    }
    let mut best: usize = 0;
    let mut i: usize = 1;
    while i < n
        invariant
            n == map.entries@.len(),
            1 <= i <= n,
            best < i,
            forall|j: int| 0 <= j < i ==> #[trigger] map.entries@[j].1 <= map.entries@[best as int].1,
            forall|j: int| 0 <= j < best ==> #[trigger] map.entries@[j].1 < map.entries@[best as int].1,
        decreases n - i,
    {
        if map.entries[i].1 > map.entries[best].1 {
            best = i;
        }
        i = i + 1;
    }
    let key = map.entries[best].0.clone();
    proof {
        let bi = best as int;
        assert(map.entries@[bi].0@ == key@);
        assert(forall|j: int| 0 <= j < map.entries@.len() ==> map.entries@[j].1 <= map.entries@[bi].1);
    }
    (key, map.entries[best].1)
}

/// Whether `s` reads like one of the strings in `v`.
pub fn contains_str(v: &Vec<String>, s: &str) -> (r: bool)
    ensures
        r == spec_key_in(v@, s@),
{
    let n = v.len();
    let mut i: usize = 0;
    while i < n
        invariant
            n == v@.len(),
            i <= n,
            forall|j: int| 0 <= j < i ==> #[trigger] v@[j]@ != s@,
        decreases n - i,
    {
        if str_eq(v[i].as_str(), s) {
            return true;
        }
        i = i + 1;
    }
    false
}

proof fn lemma_bump_at(s: Seq<(String, u32)>, k: String, d: u32, i: int)
    requires
        0 <= i < s.len(),
        s[i].0@ == k@,
        forall|j: int| 0 <= j < i ==> #[trigger] s[j].0@ != k@,
    ensures
        spec_bump(s, k, d) == s.update(i, (s[i].0, spec_sat_add(s[i].1, d))),
    decreases s.len(),
{
    if i == 0 {
        assert(spec_bump(s, k, d) =~= s.update(0, (s[0].0, spec_sat_add(s[0].1, d))));
    } else {
        lemma_bump_at(s.drop_first(), k, d, i - 1);
        assert(spec_bump(s, k, d) =~= s.update(i, (s[i].0, spec_sat_add(s[i].1, d))));
    }
}

proof fn lemma_bump_absent(s: Seq<(String, u32)>, k: String, d: u32)
    requires
        forall|j: int| 0 <= j < s.len() ==> #[trigger] s[j].0@ != k@,
    ensures
        spec_bump(s, k, d) == s.push((k, d)),
    decreases s.len(),
{
    if s.len() == 0 {
        assert(spec_bump(s, k, d) =~= s.push((k, d)));
    } else {
        lemma_bump_absent(s.drop_first(), k, d);
        assert(spec_bump(s, k, d) =~= s.push((k, d)));
    }
}

proof fn lemma_put_at(s: Seq<(String, u32)>, k: String, v: u32, i: int)
    requires
        0 <= i < s.len(),
        s[i].0@ == k@,
        forall|j: int| 0 <= j < i ==> #[trigger] s[j].0@ != k@,
    ensures
        spec_put(s, k, v) == s.update(i, (s[i].0, v)),
    decreases s.len(),
{
    if i == 0 {
        assert(spec_put(s, k, v) =~= s.update(0, (s[0].0, v)));
    } else {
        lemma_put_at(s.drop_first(), k, v, i - 1);
        assert(spec_put(s, k, v) =~= s.update(i, (s[i].0, v)));
    }
}

proof fn lemma_put_absent(s: Seq<(String, u32)>, k: String, v: u32)
    requires
        forall|j: int| 0 <= j < s.len() ==> #[trigger] s[j].0@ != k@,
    ensures
        spec_put(s, k, v) == s.push((k, v)),
    decreases s.len(),
{
    if s.len() == 0 {
        assert(spec_put(s, k, v) =~= s.push((k, v)));
    } else {
        lemma_put_absent(s.drop_first(), k, v);
        assert(spec_put(s, k, v) =~= s.push((k, v)));
    }
}

} // verus!
