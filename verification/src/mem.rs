//! A verified in-memory reference implementation of the key-value handlers.
//!
//! It exists so that the key-value contract has one implementation whose
//! behaviour is pinned down exactly: counters and byte values live in two
//! association lists where the newest record for a key wins, so every update
//! is a prepend and every lookup takes the first match.

use vstd::prelude::*;

use crate::handler::{KeyValueAtomic, KeyValueReadWrite};

verus! {

/// First record in `s` for `(bucket, key)`, newest first.
pub open spec fn counter_find(
    s: Seq<(String, String, u64)>,
    bucket: Seq<char>,
    key: Seq<char>,
) -> Option<u64>
    decreases s.len(),
{
    if s.len() == 0 {
        None
    } else if s[0].0@ == bucket && s[0].1@ == key {
        Some(s[0].2)
    } else {
        counter_find(s.skip(1), bucket, key)
    }
}

/// First record in `s` for `(bucket, key)`, newest first; an inner `None` is
/// a deletion record.
pub open spec fn blob_find(
    s: Seq<(String, String, Option<Vec<u8>>)>,
    bucket: Seq<char>,
    key: Seq<char>,
) -> Option<Option<Vec<u8>>>
    decreases s.len(),
{
    if s.len() == 0 {
        None
    } else if s[0].0@ == bucket && s[0].1@ == key {
        Some(s[0].2)
    } else {
        blob_find(s.skip(1), bucket, key)
    }
}

/// In-memory key-value store implementing both key-value handler families.
///
/// Counters and byte values occupy separate key spaces.
pub struct MemKeyValue {
    counters: Vec<(String, String, u64)>,
    blobs: Vec<(String, String, Option<Vec<u8>>)>,
}

impl MemKeyValue {
    /// The counter currently stored under `(bucket, key)`, if any.
    pub closed spec fn counter_at(&self, bucket: Seq<char>, key: Seq<char>) -> Option<u64> {
        counter_find(self.counters@, bucket, key)
    }

    /// The bytes currently stored under `(bucket, key)`, if any.
    pub closed spec fn blob_at(&self, bucket: Seq<char>, key: Seq<char>) -> Option<Seq<u8>> {
        match blob_find(self.blobs@, bucket, key) {
            None => None,
            Some(None) => None,
            Some(Some(v)) => Some(v@),
        }
    }

    /// An empty store.
    pub fn new() -> (r: Self)
        ensures
            forall|b: Seq<char>, k: Seq<char>| #![auto] r.counter_at(b, k) is None,
            forall|b: Seq<char>, k: Seq<char>| #![auto] r.blob_at(b, k) is None,
    {
        MemKeyValue { counters: Vec::new(), blobs: Vec::new() }
    }

    /// The counter under `(bucket, key)`, executable.
    fn counter_lookup(&self, bucket: &String, key: &String) -> (r: Option<u64>)
        ensures
            r == self.counter_at(bucket@, key@),
    {
        let mut i: usize = 0;
        proof {
            assert(self.counters@.skip(0) =~= self.counters@);
        }
        while i < self.counters.len()
            invariant
                i <= self.counters.len(),
                counter_find(self.counters@, bucket@, key@) == counter_find(
                    self.counters@.skip(i as int),
                    bucket@,
                    key@,
                ),
            decreases self.counters.len() - i,
        {
            let e = &self.counters[i];
            if e.0 == *bucket && e.1 == *key {
                return Some(e.2);
            }
            proof {
                assert(self.counters@.skip(i as int).skip(1) =~= self.counters@.skip(
                    i as int + 1,
                ));
            }
            i += 1;
        }
        None
    }

    /// The stored bytes under `(bucket, key)`, executable.
    fn blob_lookup(&self, bucket: &String, key: &String) -> (r: Option<&Vec<u8>>)
        ensures
            match r {
                Some(v) => self.blob_at(bucket@, key@) == Some(v@),
                None => self.blob_at(bucket@, key@) is None,
            },
    {
        let mut i: usize = 0;
        proof {
            assert(self.blobs@.skip(0) =~= self.blobs@);
        }
        while i < self.blobs.len()
            invariant
                i <= self.blobs.len(),
                blob_find(self.blobs@, bucket@, key@) == blob_find(
                    self.blobs@.skip(i as int),
                    bucket@,
                    key@,
                ),
            decreases self.blobs.len() - i,
        {
            let e = &self.blobs[i];
            if e.0 == *bucket && e.1 == *key {
                return match &e.2 {
                    Some(v) => Some(v),
                    None => None,
                };
            }
            proof {
                assert(self.blobs@.skip(i as int).skip(1) =~= self.blobs@.skip(i as int + 1));
            }
            i += 1;
        }
        None
    }

    /// Add `delta` to the counter at `(bucket, key)`, treating an absent
    /// counter as 0; the new value is returned.  An addition that would
    /// exceed the counter range fails and changes nothing.
    pub fn increment_counter(&mut self, bucket: &String, key: String, delta: u64) -> (r: Result<
        u64,
        String,
    >)
        ensures
            ({
                let prev: u64 = match old(self).counter_at(bucket@, key@) {
                    Some(v) => v,
                    None => 0,
                };
                &&& prev + delta <= u64::MAX ==> {
                    &&& r == Ok::<u64, String>((prev + delta) as u64)
                    &&& final(self).counter_at(bucket@, key@) == Some((prev + delta) as u64)
                }
                &&& prev + delta > u64::MAX ==> r is Err && *final(self) == *old(self)
            }),
            forall|b2: Seq<char>, k2: Seq<char>| #![auto]
                !(b2 == bucket@ && k2 == key@) ==> final(self).counter_at(b2, k2) == old(
                    self,
                ).counter_at(b2, k2),
            forall|b2: Seq<char>, k2: Seq<char>| #![auto]
                final(self).blob_at(b2, k2) == old(self).blob_at(b2, k2),
    {
        let prev = match self.counter_lookup(bucket, &key) {
            Some(v) => v,
            None => 0,
        };
        match prev.checked_add(delta) {
            Some(next) => {
                let ghost before = self.counters@;
                self.counters.insert(0, (bucket.clone(), key, next));
                proof {
                    assert(self.counters@.skip(1) =~= before);
                    assert forall|b2: Seq<char>, k2: Seq<char>|
                        !(b2 == bucket@ && k2 == key@) implies counter_find(
                        self.counters@,
                        b2,
                        k2,
                    ) == counter_find(before, b2, k2) by {
                        assert(counter_find(self.counters@, b2, k2) == counter_find(
                            self.counters@.skip(1),
                            b2,
                            k2,
                        ));
                    }
                }
                Ok(next)
            },
            None => Err(String::from_str("counter increment would overflow")),
        }
    }

    /// Replace the counter at `(bucket, key)` with `new_value` only if it
    /// currently equals `old_value`; nothing changes on failure.
    pub fn swap_counter(
        &mut self,
        bucket: &String,
        key: String,
        old_value: u64,
        new_value: u64,
    ) -> (r: Result<bool, String>)
        ensures
            r == Ok::<bool, String>(old(self).counter_at(bucket@, key@) == Some(old_value)),
            old(self).counter_at(bucket@, key@) == Some(old_value) ==> final(self).counter_at(
                bucket@,
                key@,
            ) == Some(new_value),
            old(self).counter_at(bucket@, key@) != Some(old_value) ==> *final(self) == *old(self),
            forall|b2: Seq<char>, k2: Seq<char>| #![auto]
                !(b2 == bucket@ && k2 == key@) ==> final(self).counter_at(b2, k2) == old(
                    self,
                ).counter_at(b2, k2),
            forall|b2: Seq<char>, k2: Seq<char>| #![auto]
                final(self).blob_at(b2, k2) == old(self).blob_at(b2, k2),
    {
        let stored = self.counter_lookup(bucket, &key);
        let hit = match stored {
            Some(v) => v == old_value,
            None => false,
        };
        if hit {
            let ghost before = self.counters@;
            self.counters.insert(0, (bucket.clone(), key, new_value));
            proof {
                assert(self.counters@.skip(1) =~= before);
                assert forall|b2: Seq<char>, k2: Seq<char>|
                    !(b2 == bucket@ && k2 == key@) implies counter_find(self.counters@, b2, k2)
                    == counter_find(before, b2, k2) by {
                    assert(counter_find(self.counters@, b2, k2) == counter_find(
                        self.counters@.skip(1),
                        b2,
                        k2,
                    ));
                }
            }
            Ok(true)
        } else {
            Ok(false)
        }
    }

    /// The bytes stored at `(bucket, key)` with their size, or a failure if
    /// the key is absent.
    pub fn read_value(&mut self, bucket: &String, key: String) -> (r: Result<
        (Vec<u8>, u64),
        String,
    >)
        ensures
            match old(self).blob_at(bucket@, key@) {
                Some(bs) => match r {
                    Ok(p) => p.0@ == bs && p.1 == bs.len() as u64,
                    Err(_) => false,
                },
                None => r is Err,
            },
            *final(self) == *old(self),
    {
        match self.blob_lookup(bucket, &key) {
            Some(v) => {
                let data = crate::buffer::copy_bytes(v);
                let size = data.len() as u64;
                Ok((data, size))
            },
            None => Err(String::from_str("key does not exist")),
        }
    }

    /// Store `value` at `(bucket, key)`, replacing whatever was there.
    pub fn write_value(&mut self, bucket: &String, key: String, value: Vec<u8>) -> (r: Result<
        (),
        String,
    >)
        ensures
            r == Ok::<(), String>(()),
            final(self).blob_at(bucket@, key@) == Some(value@),
            forall|b2: Seq<char>, k2: Seq<char>| #![auto]
                !(b2 == bucket@ && k2 == key@) ==> final(self).blob_at(b2, k2) == old(
                    self,
                ).blob_at(b2, k2),
            forall|b2: Seq<char>, k2: Seq<char>| #![auto]
                final(self).counter_at(b2, k2) == old(self).counter_at(b2, k2),
    {
        let ghost before = self.blobs@;
        self.blobs.insert(0, (bucket.clone(), key, Some(value)));
        proof {
            assert(self.blobs@.skip(1) =~= before);
            assert forall|b2: Seq<char>, k2: Seq<char>|
                !(b2 == bucket@ && k2 == key@) implies blob_find(self.blobs@, b2, k2)
                == blob_find(before, b2, k2) by {
                assert(blob_find(self.blobs@, b2, k2) == blob_find(
                    self.blobs@.skip(1),
                    b2,
                    k2,
                ));
            }
        }
        Ok(())
    }

    /// Remove whatever is stored at `(bucket, key)`; removing an absent key
    /// succeeds and changes nothing observable.
    pub fn remove_value(&mut self, bucket: &String, key: String) -> (r: Result<(), String>)
        ensures
            r == Ok::<(), String>(()),
            final(self).blob_at(bucket@, key@) is None,
            forall|b2: Seq<char>, k2: Seq<char>| #![auto]
                !(b2 == bucket@ && k2 == key@) ==> final(self).blob_at(b2, k2) == old(
                    self,
                ).blob_at(b2, k2),
            forall|b2: Seq<char>, k2: Seq<char>| #![auto]
                final(self).counter_at(b2, k2) == old(self).counter_at(b2, k2),
    {
        let ghost before = self.blobs@;
        self.blobs.insert(0, (bucket.clone(), key, None));
        proof {
            assert(self.blobs@.skip(1) =~= before);
            assert forall|b2: Seq<char>, k2: Seq<char>|
                !(b2 == bucket@ && k2 == key@) implies blob_find(self.blobs@, b2, k2)
                == blob_find(before, b2, k2) by {
                assert(blob_find(self.blobs@, b2, k2) == blob_find(
                    self.blobs@.skip(1),
                    b2,
                    k2,
                ));
            }
        }
        Ok(())
    }

    /// Whether `(bucket, key)` currently stores bytes.
    pub fn has_value(&mut self, bucket: &String, key: String) -> (r: Result<bool, String>)
        ensures
            r == Ok::<bool, String>(old(self).blob_at(bucket@, key@) is Some),
            *final(self) == *old(self),
    {
        match self.blob_lookup(bucket, &key) {
            Some(_) => Ok(true),
            None => Ok(false),
        }
    }
}

impl KeyValueAtomic for MemKeyValue {
    fn increment(&mut self, bucket: &String, key: String, delta: u64) -> Result<u64, String> {
        self.increment_counter(bucket, key, delta)
    }

    fn compare_and_swap(
        &mut self,
        bucket: &String,
        key: String,
        old_value: u64,
        new_value: u64,
    ) -> Result<bool, String> {
        self.swap_counter(bucket, key, old_value, new_value)
    }
}

impl KeyValueReadWrite for MemKeyValue {
    fn get(&mut self, bucket: &String, key: String) -> Result<(Vec<u8>, u64), String> {
        self.read_value(bucket, key)
    }

    fn set(&mut self, bucket: &String, key: String, value: Vec<u8>) -> Result<(), String> {
        self.write_value(bucket, key, value)
    }

    fn delete(&mut self, bucket: &String, key: String) -> Result<(), String> {
        self.remove_value(bucket, key)
    }

    fn contains(&mut self, bucket: &String, key: String) -> Result<bool, String> {
        self.has_value(bucket, key)
    }
}

} // verus!
