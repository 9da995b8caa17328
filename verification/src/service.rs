//! Request/response correlation on the service side: the request-id hash
//! that keys an in-flight query, and the map from that hash to the pending
//! query handle.

use vstd::prelude::*;

use crate::attachment::spec_le_bytes;
use crate::attachment::spec_u64_of_int;
use crate::attachment::spec_u8_of_i8;

verus! {

pub const FNV_OFFSET_BASIS: u64 = 0xcbf29ce484222325;

pub const FNV_PRIME: u64 = 0x100000001b3;

/// One mixing step of the 64-bit FNV-1a hash.
pub open spec fn spec_fnv1a_step(h: u64, b: u8) -> u64 {
    ((((h ^ (b as u64)) as nat) * (FNV_PRIME as nat)) % 0x10000000000000000) as u64
}

/// The 64-bit FNV-1a hash of a byte string.
pub open spec fn spec_fnv1a(data: Seq<u8>) -> u64
    decreases data.len(),
{
    if data.len() == 0 {
        FNV_OFFSET_BASIS
    } else {
        spec_fnv1a_step(spec_fnv1a(data.drop_last()), data.last())
    }
}

/// The id a service stamps on each request it has taken: the client's
/// 16-byte GID plus the request's sequence number.
#[allow(non_camel_case_types)]
#[derive(Clone, Copy, Debug)]
pub struct rmw_request_id_t {
    pub writer_guid: [i8; 16],
    pub sequence_number: i64,
}

/// The bytes a request id hashes over: its GID bytes, then the sequence
/// number in little-endian form.
pub open spec fn spec_request_id_bytes(id: rmw_request_id_t) -> Seq<u8> {
    id.writer_guid@.map_values(|b: i8| spec_u8_of_i8(b)) + spec_le_bytes(
        spec_u64_of_int(id.sequence_number as int),
        8,
    )
}

impl rmw_request_id_t {
    /// The 64-bit key correlating this request id with its pending query:
    /// a deterministic hash of the GID and sequence number.
    pub fn get_hash(&self) -> (h: u64)
        ensures
            h == spec_fnv1a(spec_request_id_bytes(*self)),
    {
        let mut bytes: Vec<u8> = Vec::new();
        let mut i: usize = 0;
        while i < 16
            invariant
                i <= 16,
                bytes@ =~= self.writer_guid@.take(i as int).map_values(|b: i8| spec_u8_of_i8(b)),
            decreases 16 - i,
        {
            let b = self.writer_guid[i];
            if b >= 0 {
                bytes.push(b as u8);
            } else {
                let off: i8 = b - i8::MIN;
                bytes.push((off as u8) + 128);
            }
            proof {
                assert(self.writer_guid@.take(i + 1).map_values(|b: i8| spec_u8_of_i8(b))
                    =~= self.writer_guid@.take(i as int).map_values(|b: i8| spec_u8_of_i8(b)).push(
                    spec_u8_of_i8(self.writer_guid@[i as int]),
                ));
            }
            i = i + 1;
        }
        proof {
            assert(self.writer_guid@.take(16) =~= self.writer_guid@);
        }
        let seq_u64: u64 = if self.sequence_number >= 0 {
            self.sequence_number as u64
        } else {
            let off: u64 = (self.sequence_number - i64::MIN) as u64;
            off + 0x8000_0000_0000_0000u64
        };
        let ghost gid_part = bytes@;
        let mut m: u64 = seq_u64;
        let mut j: usize = 0;
        while j < 8
            invariant
                j <= 8,
                gid_part + spec_le_bytes(seq_u64 as nat, 8) =~= bytes@ + spec_le_bytes(
                    m as nat,
                    (8 - j) as nat,
                ),
            decreases 8 - j,
        {
            let ghost old_m = m as nat;
            bytes.push((m % 256) as u8);
            m = m / 256;
            j = j + 1;
            proof {
                assert(spec_le_bytes(old_m, (9 - j) as nat) =~= seq![(old_m % 256) as u8]
                    + spec_le_bytes(old_m / 256, (8 - j) as nat));
            }
        }
        proof {
            assert(spec_le_bytes(m as nat, 0) =~= Seq::<u8>::empty());
            assert(bytes@ =~= spec_request_id_bytes(*self));
        }
        let n = bytes.len();
        let mut h: u64 = FNV_OFFSET_BASIS;
        let mut k: usize = 0;
        while k < n
            invariant
                k <= n,
                n == bytes@.len(),
                h == spec_fnv1a(bytes@.take(k as int)),
            decreases n - k,
        {
            let x: u64 = h ^ (bytes[k] as u64);
            h = x.wrapping_mul(FNV_PRIME);
            proof {
                assert(bytes@.take(k + 1).drop_last() =~= bytes@.take(k as int));
            }
            k = k + 1;
        }
        proof {
            assert(bytes@.take(n as int) =~= bytes@);
        }
        h
    }
}

/// The hash-to-pending-query association of a service, with unique keys.
pub struct QueryMap<T> {
    pub entries: Vec<(u64, T)>,
}

/// The first index holding `key`, or -1 when absent.
pub open spec fn spec_find_u64<T>(entries: Seq<(u64, T)>, key: u64) -> int
    decreases entries.len(),
{
    if entries.len() == 0 {
        -1
    } else if entries[0].0 == key {
        0
    } else {
        let r = spec_find_u64(entries.drop_first(), key);
        if r < 0 {
            -1
        } else {
            r + 1
        }
    }
}

proof fn lemma_find_u64<T>(entries: Seq<(u64, T)>, key: u64)
    ensures
        -1 <= spec_find_u64(entries, key) < entries.len(),
        spec_find_u64(entries, key) == -1 ==> forall|j: int|
            0 <= j < entries.len() ==> (#[trigger] entries[j]).0 != key,
        spec_find_u64(entries, key) >= 0 ==> entries[spec_find_u64(entries, key)].0 == key,
        spec_find_u64(entries, key) >= 0 ==> forall|j: int|
            0 <= j < spec_find_u64(entries, key) ==> (#[trigger] entries[j]).0 != key,
    decreases entries.len(),
{
    if entries.len() == 0 {
    } else if entries[0].0 == key {
    } else {
        lemma_find_u64(entries.drop_first(), key);
        let r = spec_find_u64(entries.drop_first(), key);
        if r < 0 {
            assert forall|j: int| 0 <= j < entries.len() implies (#[trigger] entries[j]).0
                != key by {
                if j > 0 {
                    assert(entries.drop_first()[j - 1] == entries[j]);
                }
            }
        } else {
            assert forall|j: int| 0 <= j < r + 1 implies (#[trigger] entries[j]).0 != key by {
                if j > 0 {
                    assert(entries.drop_first()[j - 1] == entries[j]);
                }
            }
        }
    }
}

proof fn lemma_find_u64_at<T>(entries: Seq<(u64, T)>, key: u64, k: int)
    requires
        0 <= k < entries.len(),
        entries[k].0 == key,
        forall|j: int| 0 <= j < k ==> (#[trigger] entries[j]).0 != key,
    ensures
        spec_find_u64(entries, key) == k,
    decreases entries.len(),
{
    if k == 0 {
    } else {
        assert(entries.drop_first()[k - 1] == entries[k]);
        assert forall|j: int| 0 <= j < k - 1 implies (#[trigger] entries.drop_first()[j]).0
            != key by {
            assert(entries.drop_first()[j] == entries[j + 1]);
        }
        lemma_find_u64_at(entries.drop_first(), key, k - 1);
    }
}

impl<T> QueryMap<T> {
    /// Each key occurs at most once.
    pub open spec fn wf(&self) -> bool {
        forall|i: int, j: int|
            0 <= i < j < self.entries@.len() ==> (#[trigger] self.entries@[i]).0 != (
            #[trigger] self.entries@[j]).0
    }

    /// A fresh, empty map.
    pub fn new() -> (m: QueryMap<T>)
        ensures
            m.wf(),
            m.entries@.len() == 0,
    {
        QueryMap { entries: Vec::new() }
    }

    fn find_index(&self, key: u64) -> (r: Option<usize>)
        ensures
            r matches Some(i) ==> i < self.entries@.len() && spec_find_u64(self.entries@, key)
                == i,
            r is None ==> spec_find_u64(self.entries@, key) == -1,
    {
        let n = self.entries.len();
        let mut i: usize = 0;
        while i < n
            invariant
                i <= n,
                n == self.entries@.len(),
                forall|j: int| 0 <= j < i ==> (#[trigger] self.entries@[j]).0 != key,
            decreases n - i,
        {
            if self.entries[i].0 == key {
                proof {
                    lemma_find_u64_at(self.entries@, key, i as int);
                }
                return Some(i);
            }
            i = i + 1;
        }
        proof {
            lemma_find_u64(self.entries@, key);
            if spec_find_u64(self.entries@, key) >= 0 {
                assert(self.entries@[spec_find_u64(self.entries@, key)].0 == key);
            }
        }
        None
    }

    /// Stores `value` under `key`, replacing any previous entry.
    pub fn insert(&mut self, key: u64, value: T)
        requires
            old(self).wf(),
        ensures
            final(self).wf(),
            final(self).entries@ == (if spec_find_u64(old(self).entries@, key) >= 0 {
                old(self).entries@.update(spec_find_u64(old(self).entries@, key), (key, value))
            } else {
                old(self).entries@.push((key, value))
            }),
    {
        let ghost old_entries = self.entries@;
        match self.find_index(key) {
            Some(i) => {
                self.entries[i] = (key, value);
                proof {
                    lemma_find_u64(old_entries, key);
                    assert forall|a: int, b: int|
                        0 <= a < b < self.entries@.len() implies (#[trigger] self.entries@[a]).0
                        != (#[trigger] self.entries@[b]).0 by {
                        assert(old_entries[a].0 != old_entries[b].0);
                        assert(old_entries[i as int].0 == key);
                    }
                }
            },
            None => {
                self.entries.push((key, value));
                proof {
                    lemma_find_u64(old_entries, key);
                    assert forall|a: int, b: int|
                        0 <= a < b < self.entries@.len() implies (#[trigger] self.entries@[a]).0
                        != (#[trigger] self.entries@[b]).0 by {
                        if b < old_entries.len() {
                            assert(old_entries[a].0 != old_entries[b].0);
                        } else {
                            assert(old_entries[a].0 != key);
                        }
                    }
                }
            },
        }
    }

    /// Removes and returns the value under `key`, if any.
    pub fn remove(&mut self, key: u64) -> (r: Option<T>)
        requires
            old(self).wf(),
        ensures
            final(self).wf(),
            spec_find_u64(old(self).entries@, key) >= 0 ==> (r matches Some(v) && (key, v) == old(
                self,
            ).entries@[spec_find_u64(old(self).entries@, key)] && final(self).entries@ == old(
                self,
            ).entries@.remove(spec_find_u64(old(self).entries@, key))),
            spec_find_u64(old(self).entries@, key) == -1 ==> (r is None && *final(self) == *old(
                self,
            )),
    {
        let ghost old_entries = self.entries@;
        match self.find_index(key) {
            Some(i) => {
                proof {
                    lemma_find_u64(old_entries, key);
                }
                let entry = self.entries.remove(i);
                proof {
                    assert forall|a: int, b: int|
                        0 <= a < b < self.entries@.len() implies (#[trigger] self.entries@[a]).0
                        != (#[trigger] self.entries@[b]).0 by {
                        let aa = if a < i as int {
                            a
                        } else {
                            a + 1
                        };
                        let bb = if b < i as int {
                            b
                        } else {
                            b + 1
                        };
                        assert(old_entries[aa].0 != old_entries[bb].0);
                    }
                }
                Some(entry.1)
            },
            None => None,
        }
    }
}

} // verus!
