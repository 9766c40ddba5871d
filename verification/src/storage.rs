//! Append-only persistence for document updates.
//!
//! Every inbound delta is appended to a per-process log; a document is later
//! rehydrated by replaying its entries oldest-first. A snapshot is an ordinary
//! entry whose bytes start with a reserved prefix, so "latest snapshot" is a
//! backward scan for that prefix. This module is the storage contract itself:
//! the SQL backends an application plugs in must behave exactly like this
//! in-memory log, and callers never learn which backend is active.

use vstd::prelude::*;

verus! {

/// Reserved bytes (`"CADMUS_SHEET_V1:"`) that mark a log entry as a
/// full-state snapshot rather than an incremental update.
pub open spec fn snapshot_prefix() -> Seq<u8> {
    seq![
        67u8, 65u8, 68u8, 77u8, 85u8, 83u8, 95u8, 83u8, 72u8, 69u8, 69u8, 84u8, 95u8, 86u8, 49u8,
        58u8,
    ]
}

/// Whether an entry's bytes carry the snapshot marker.
pub open spec fn is_snapshot(data: Seq<u8>) -> bool {
    data.len() >= snapshot_prefix().len() && data.subrange(0, snapshot_prefix().len() as int)
        == snapshot_prefix()
}

/// One persisted row: the owning document and the raw bytes.
pub struct LogEntry {
    pub doc_id: String,
    pub data: Vec<u8>,
}

impl View for LogEntry {
    type V = (Seq<char>, Seq<u8>);

    open spec fn view(&self) -> (Seq<char>, Seq<u8>) {
        (self.doc_id@, self.data@)
    }
}

/// The whole update log, in insertion order. The position of an entry is its
/// ordering key: strictly increasing per document, never mutated or deleted.
pub struct ContentStorage {
    entries: Vec<LogEntry>,
}

impl View for ContentStorage {
    type V = Seq<(Seq<char>, Seq<u8>)>;

    closed spec fn view(&self) -> Seq<(Seq<char>, Seq<u8>)> {
        self.entries@.map_values(|e: LogEntry| e@)
    }
}

/// The bytes persisted for one document, oldest first.
pub open spec fn updates_for(log: Seq<(Seq<char>, Seq<u8>)>, id: Seq<char>) -> Seq<Seq<u8>>
    decreases log.len(),
{
    if log.len() == 0 {
        Seq::empty()
    } else {
        let rest = updates_for(log.drop_last(), id);
        if log.last().0 == id {
            rest.push(log.last().1)
        } else {
            rest
        }
    }
}

/// The most recent snapshot within a sequence of persisted bytes.
pub open spec fn latest_snapshot_in(us: Seq<Seq<u8>>) -> Option<Seq<u8>>
    decreases us.len(),
{
    if us.len() == 0 {
        None
    } else if is_snapshot(us.last()) {
        Some(us.last())
    } else {
        latest_snapshot_in(us.drop_last())
    }
}

/// Appending one row touches exactly its own document's update sequence.
pub proof fn lemma_updates_for_push(
    log: Seq<(Seq<char>, Seq<u8>)>,
    id: Seq<char>,
    entry: (Seq<char>, Seq<u8>),
)
    ensures
        updates_for(log.push(entry), id) == if entry.0 == id {
            updates_for(log, id).push(entry.1)
        } else {
            updates_for(log, id)
        },
{
    assert(log.push(entry).drop_last() =~= log);
    assert(log.push(entry).last() == entry);
}

/// String equality by contents.
pub fn str_eq(a: &str, b: &str) -> (r: bool)
    ensures
        r == (a@ == b@),
{
    let sa = a.to_owned();
    let sb = b.to_owned();
    sa == sb
}

/// A fresh copy of a byte buffer.
pub fn clone_bytes(data: &Vec<u8>) -> (r: Vec<u8>)
    ensures
        r@ == data@,
{
    let mut out: Vec<u8> = Vec::new();
    crate::codec::push_bytes(&mut out, data);
    out
}

impl ContentStorage {
    /// An empty log.
    pub fn new() -> (r: ContentStorage)
        ensures
            r@ == Seq::<(Seq<char>, Seq<u8>)>::empty(),
    {
        let r = ContentStorage { entries: Vec::new() };
        proof {
            assert(r@ =~= Seq::<(Seq<char>, Seq<u8>)>::empty());
        }
        r
    }

    /// Append one row for `doc_id`. Appending is the only mutation the log
    /// ever sees, so the per-document order is exactly insertion order.
    pub fn save_update(&mut self, doc_id: &str, update: Vec<u8>)
        ensures
            final(self)@ == old(self)@.push((doc_id@, update@)),
    {
        let ghost before = self@;
        self.entries.push(LogEntry { doc_id: doc_id.to_owned(), data: update });
        proof {
            assert(self@ =~= before.push((doc_id@, update@)));
        }
    }

    /// All rows for `doc_id`, oldest first; replayed once, at hydration.
    pub fn load_updates(&self, doc_id: &str) -> (r: Vec<Vec<u8>>)
        ensures
            r.deep_view() == updates_for(self@, doc_id@),
    {
        let mut out: Vec<Vec<u8>> = Vec::new();
        proof {
            assert(self@.subrange(0, 0) =~= Seq::<(Seq<char>, Seq<u8>)>::empty());
            assert(out.deep_view() =~~= updates_for(self@.subrange(0, 0), doc_id@));
        }
        let mut i: usize = 0;
        while i < self.entries.len()
            invariant
                i <= self.entries.len(),
                out.deep_view() == updates_for(self@.subrange(0, i as int), doc_id@),
            decreases self.entries.len() - i,
        {
            let ghost prefix = self@.subrange(0, i as int);
            let entry = &self.entries[i];
            if str_eq(entry.doc_id.as_str(), doc_id) {
                out.push(clone_bytes(&entry.data));
            }
            i = i + 1;
            proof {
                let grown = self@.subrange(0, i as int);
                assert(grown.drop_last() =~= prefix);
                assert(grown.last() == self@[i - 1]);
                assert(out.deep_view() =~~= updates_for(grown, doc_id@));
            }
        }
        proof {
            assert(self@.subrange(0, self@.len() as int) =~= self@);
        }
        out
    }

    /// The most recent row for `doc_id`, if any row exists.
    pub fn load_latest_update(&self, doc_id: &str) -> (r: Option<Vec<u8>>)
        ensures
            match r {
                Some(v) => updates_for(self@, doc_id@).len() > 0 && v@ == updates_for(
                    self@,
                    doc_id@,
                ).last(),
                None => updates_for(self@, doc_id@).len() == 0,
            },
    {
        let mut latest: Option<Vec<u8>> = None;
        let mut i: usize = 0;
        while i < self.entries.len()
            invariant
                i <= self.entries.len(),
                match latest {
                    Some(v) => updates_for(self@.subrange(0, i as int), doc_id@).len() > 0 && v@
                        == updates_for(self@.subrange(0, i as int), doc_id@).last(),
                    None => updates_for(self@.subrange(0, i as int), doc_id@).len() == 0,
                },
            decreases self.entries.len() - i,
        {
            let ghost prefix = self@.subrange(0, i as int);
            let entry = &self.entries[i];
            if str_eq(entry.doc_id.as_str(), doc_id) {
                latest = Some(clone_bytes(&entry.data));
            }
            i = i + 1;
            proof {
                let grown = self@.subrange(0, i as int);
                assert(grown.drop_last() =~= prefix);
                assert(grown.last() == self@[i - 1]);
                if grown.last().0 == doc_id@ {
                    assert(updates_for(grown, doc_id@).drop_last() =~= updates_for(
                        prefix,
                        doc_id@,
                    ));
                }
            }
        }
        proof {
            assert(self@.subrange(0, self@.len() as int) =~= self@);
        }
        latest
    }

    /// The most recent row for `doc_id` whose bytes carry the snapshot
    /// marker, skipping every plain update in between.
    pub fn load_latest_snapshot(&self, doc_id: &str) -> (r: Option<Vec<u8>>)
        ensures
            match r {
                Some(v) => latest_snapshot_in(updates_for(self@, doc_id@)) == Some(v@),
                None => latest_snapshot_in(updates_for(self@, doc_id@)) is None,
            },
    {
        let mut latest: Option<Vec<u8>> = None;
        let mut i: usize = 0;
        while i < self.entries.len()
            invariant
                i <= self.entries.len(),
                match latest {
                    Some(v) => latest_snapshot_in(
                        updates_for(self@.subrange(0, i as int), doc_id@),
                    ) == Some(v@),
                    None => latest_snapshot_in(updates_for(self@.subrange(0, i as int), doc_id@))
                        is None,
                },
            decreases self.entries.len() - i,
        {
            let ghost prefix = self@.subrange(0, i as int);
            let entry = &self.entries[i];
            if str_eq(entry.doc_id.as_str(), doc_id) && has_snapshot_prefix(&entry.data) {
                latest = Some(clone_bytes(&entry.data));
            }
            i = i + 1;
            proof {
                let grown = self@.subrange(0, i as int);
                assert(grown.drop_last() =~= prefix);
                assert(grown.last() == self@[i - 1]);
                if grown.last().0 == doc_id@ {
                    assert(updates_for(grown, doc_id@).drop_last() =~= updates_for(
                        prefix,
                        doc_id@,
                    ));
                }
            }
        }
        proof {
            assert(self@.subrange(0, self@.len() as int) =~= self@);
        }
        latest
    }
}

/// The snapshot marker as bytes.
pub fn snapshot_prefix_bytes() -> (r: Vec<u8>)
    ensures
        r@ == snapshot_prefix(),
{
    let mut v: Vec<u8> = Vec::new();
    v.push(67);
    v.push(65);
    v.push(68);
    v.push(77);
    v.push(85);
    v.push(83);
    v.push(95);
    v.push(83);
    v.push(72);
    v.push(69);
    v.push(69);
    v.push(84);
    v.push(95);
    v.push(86);
    v.push(49);
    v.push(58);
    proof {
        assert(v@ =~= snapshot_prefix());
    }
    v
}

/// Whether `data` starts with the snapshot marker.
pub fn has_snapshot_prefix(data: &Vec<u8>) -> (r: bool)
    ensures
        r == is_snapshot(data@),
{
    let prefix = snapshot_prefix_bytes();
    if data.len() < prefix.len() {
        return false;
    }
    let mut i: usize = 0;
    while i < prefix.len()
        invariant
            prefix@ == snapshot_prefix(),
            i <= prefix.len(),
            prefix.len() <= data.len(),
            forall|j: int| 0 <= j < i ==> data@[j] == prefix@[j],
        decreases prefix.len() - i,
    {
        if data[i] != prefix[i] {
            return false;
        }
        i = i + 1;
    }
    proof {
        assert(data@.subrange(0, snapshot_prefix().len() as int) =~= snapshot_prefix());
    }
    true
}

} // verus!
