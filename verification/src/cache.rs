//! Bounded pool of line-writer states, keyed by stream identity, with strict
//! least-recently-used eviction.
//!
//! Entries are kept in recency order: the least recently accessed entry is
//! first, the most recently accessed last. The pool never holds more than its
//! construction-time capacity; inserting into a full pool evicts exactly the
//! least recently used entry (never the one just inserted) and reports its key
//! so the owner can release the underlying resource.

use vstd::prelude::*;

use crate::message::LogFrom;
use crate::message::LogFromV;
use crate::writer::LineWriter;
use crate::writer::spec_advance;
use crate::writer::spec_chunk;

verus! {

/// The abstract cache contents: key and line cursor per entry, in recency
/// order (least recently used first).
pub type CacheModel = Seq<(LogFromV, u64)>;

/// Some entry carries key `k`.
pub open spec fn has_key(m: CacheModel, k: LogFromV) -> bool {
    exists|i: int| 0 <= i < m.len() && m[i].0 == k
}

/// No two entries carry the same key.
pub open spec fn distinct_keys(m: CacheModel) -> bool {
    forall|i: int, j: int| 0 <= i < j < m.len() ==> m[i].0 != m[j].0
}

/// The position of the entry carrying key `k` (meaningful when the keys are
/// distinct and `k` is present).
pub open spec fn index_of_key(m: CacheModel, k: LogFromV) -> int {
    choose|i: int| 0 <= i < m.len() && m[i].0 == k
}

/// With distinct keys, the entry found at `i` is the one `index_of_key` names.
pub proof fn lemma_index_of_key(m: CacheModel, k: LogFromV, i: int)
    requires
        distinct_keys(m),
        0 <= i < m.len(),
        m[i].0 == k,
    ensures
        index_of_key(m, k) == i,
{
    let j = index_of_key(m, k);
    assert(0 <= j < m.len() && m[j].0 == k);
    if i < j {
        assert(m[i].0 != m[j].0);
    }
    if j < i {
        assert(m[j].0 != m[i].0);
    }
}

struct CacheEntry {
    key: LogFrom,
    writer: LineWriter,
}

/// Bounded LRU pool of writer states.
pub struct HandleCache {
    entries: Vec<CacheEntry>,
    capacity: usize,
}

impl View for HandleCache {
    type V = CacheModel;

    closed spec fn view(&self) -> CacheModel {
        Seq::new(self.entries@.len(), |i: int| (self.entries@[i].key@, self.entries@[i].writer.cursor()))
    }
}

impl HandleCache {
    /// Construction-time bound on simultaneously held entries.
    pub closed spec fn capacity(&self) -> int {
        self.capacity as int
    }

    /// The pool is within its bound and holds each key at most once.
    pub open spec fn wf(&self) -> bool {
        &&& self.capacity() >= 1
        &&& self@.len() <= self.capacity()
        &&& distinct_keys(self@)
    }

    /// An empty pool with capacity `max_open`.
    pub fn new(max_open: usize) -> (c: HandleCache)
        requires
            max_open >= 1,
        ensures
            c.wf(),
            c@ =~= Seq::<(LogFromV, u64)>::empty(),
            c.capacity() == max_open,
    {
        HandleCache { entries: Vec::new(), capacity: max_open }
    }

    pub fn len(&self) -> (n: usize)
        ensures
            n == self@.len(),
    {
        self.entries.len()
    }

    /// Recency position of `key`, if present (higher is more recent).
    pub fn position(&self, key: &LogFrom) -> (r: Option<usize>)
        ensures
            match r {
                Some(i) => i < self@.len() && self@[i as int].0 == key@,
                None => !has_key(self@, key@),
            },
    {
        let n = self.entries.len();
        let mut i: usize = 0;
        while i < n
            invariant
                i <= n == self@.len(),
                forall|j: int| 0 <= j < i ==> self@[j].0 != key@,
            decreases n - i,
        {
            let e = &self.entries[i];
            if e.key.routing_key == key.routing_key && e.key.attempt_id == key.attempt_id {
                proof {
                    assert(self@[i as int].0 =~= key@);
                }
                return Some(i);
            }
            proof {
                assert(self@[i as int].0 != key@);
            }
            i = i + 1;
        }
        None
    }

    /// Moving entry `i` to the most recent position keeps the keys distinct.
    proof fn lemma_distinct_promote(m: CacheModel, i: int, v: (LogFromV, u64))
        requires
            distinct_keys(m),
            0 <= i < m.len(),
            v.0 == m[i].0,
        ensures
            distinct_keys(m.remove(i).push(v)),
    {
        let r = m.remove(i).push(v);
        assert forall|a: int, b: int| 0 <= a < b < r.len() implies r[a].0 != r[b].0 by {
            assert(m.remove(i).len() == m.len() - 1);
            if a < i {
                assert(r[a] == m[a]);
            } else if a < m.len() - 1 {
                assert(r[a] == m[a + 1]);
            }
            if b < i {
                assert(r[b] == m[b]);
            } else if b < m.len() - 1 {
                assert(r[b] == m[b + 1]);
            } else {
                assert(r[b] == v);
            }
        }
    }

    /// Marks entry `i` as most recently used.
    pub fn promote(&mut self, i: usize)
        requires
            old(self).wf(),
            i < old(self)@.len(),
        ensures
            final(self).wf(),
            final(self).capacity() == old(self).capacity(),
            final(self)@ =~= old(self)@.remove(i as int).push(old(self)@[i as int]),
    {
        let e = self.entries.remove(i);
        self.entries.push(e);
        proof {
            assert(self@ =~= old(self)@.remove(i as int).push(old(self)@[i as int]));
            Self::lemma_distinct_promote(old(self)@, i as int, old(self)@[i as int]);
        }
    }

    /// Inserts a fresh key as the most recent entry. If the pool would exceed
    /// its capacity, the least recently used entry (never the new one) is
    /// removed and its key returned for the caller to release.
    pub fn insert_new(&mut self, key: LogFrom, writer: LineWriter) -> (evicted: Option<LogFrom>)
        requires
            old(self).wf(),
            !has_key(old(self)@, key@),
        ensures
            final(self).wf(),
            final(self).capacity() == old(self).capacity(),
            old(self)@.len() < old(self).capacity() ==> {
                &&& final(self)@ =~= old(self)@.push((key@, writer.cursor()))
                &&& evicted is None
            },
            old(self)@.len() == old(self).capacity() ==> {
                &&& final(self)@ =~= old(self)@.push((key@, writer.cursor())).remove(0)
                &&& evicted matches Some(k) && k@ == old(self)@[0].0
            },
            final(self)@.len() <= old(self)@.len() + 1,
    {
        let ghost m0 = self@;
        let ghost cur = writer.cursor();
        self.entries.push(CacheEntry { key, writer });
        proof {
            assert(self@ =~= m0.push((key@, cur)));
            assert forall|a: int, b: int| 0 <= a < b < self@.len() implies self@[a].0
                != self@[b].0 by {
                if b < m0.len() {
                } else {
                    assert(self@[b] == (key@, cur));
                    assert(self@[a] == m0[a]);
                }
            }
        }
        if self.entries.len() > self.capacity {
            let ghost m1 = self@;
            let evicted_entry = self.entries.remove(0);
            proof {
                assert(self@ =~= m1.remove(0));
                assert forall|a: int, b: int| 0 <= a < b < self@.len() implies self@[a].0
                    != self@[b].0 by {
                    assert(self@[a] == m1[a + 1]);
                    assert(self@[b] == m1[b + 1]);
                }
            }
            Some(evicted_entry.key)
        } else {
            None
        }
    }

    /// Re-initializes the cursor of entry `i` (used right after a resource is
    /// opened, once its existing line count is known).
    pub fn set_cursor(&mut self, i: usize, lines: u64)
        requires
            old(self).wf(),
            i < old(self)@.len(),
        ensures
            final(self).wf(),
            final(self).capacity() == old(self).capacity(),
            final(self)@ =~= old(self)@.update(i as int, (old(self)@[i as int].0, lines)),
    {
        let mut e = self.entries.remove(i);
        e.writer = LineWriter::new(lines);
        self.entries.insert(i, e);
        proof {
            assert(self@ =~= old(self)@.update(i as int, (old(self)@[i as int].0, lines)));
            assert forall|a: int, b: int| 0 <= a < b < self@.len() implies self@[a].0
                != self@[b].0 by {
                assert(old(self)@[a].0 != old(self)@[b].0);
            }
        }
    }

    /// Appends a line through entry `i`'s writer and marks it most recently
    /// used; returns the bytes to append to the underlying resource.
    pub fn write_line(&mut self, i: usize, line_number: u64, output: &[u8]) -> (chunk: Vec<u8>)
        requires
            old(self).wf(),
            i < old(self)@.len(),
            line_number >= 1,
        ensures
            final(self).wf(),
            final(self).capacity() == old(self).capacity(),
            chunk@ == spec_chunk(old(self)@[i as int].1 as int, line_number as int, output@),
            final(self)@ =~= old(self)@.remove(i as int).push(
                (old(self)@[i as int].0, spec_advance(old(self)@[i as int].1, line_number)),
            ),
    {
        let mut e = self.entries.remove(i);
        let chunk = e.writer.write_to_line(line_number, output);
        self.entries.push(e);
        proof {
            assert(self@ =~= old(self)@.remove(i as int).push(
                (old(self)@[i as int].0, spec_advance(old(self)@[i as int].1, line_number)),
            ));
            Self::lemma_distinct_promote(
                old(self)@,
                i as int,
                (old(self)@[i as int].0, spec_advance(old(self)@[i as int].1, line_number)),
            );
        }
        chunk
    }
}

} // verus!
