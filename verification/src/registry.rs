//! Rooms and the process-wide room registry.
//!
//! A `Room` owns exactly one CRDT document for a document id plus the
//! broadcast channel that fans deltas out to its live sessions. The
//! `ContentRegistry` maps document id to room; the map is a cache, never the
//! source of truth — truth is the persisted update log. A room is created on
//! first access, hydrated once by replaying every persisted update for its
//! id oldest-first, and then lives on for the life of the registry.
//!
//! `process_update` is the single mutation entry point for every inbound
//! delta, live edit and catch-up diff alike: reject the canonical two-byte
//! no-op encoding with no side effects at all; otherwise decode and absorb
//! the delta into the in-memory document (a payload that does not decode
//! leaves the document untouched), broadcast the raw bytes to every
//! subscriber, and append the raw bytes to the log — broadcast and append
//! happen whether or not the decode succeeded. Exclusive access to the
//! document is enforced here by `&mut`; an asynchronous shell that wraps the
//! registry in a lock may degrade contended live updates to a dropped
//! in-memory application, which the protocol recovers from through a later
//! handshake.

use vstd::prelude::*;
use crate::broadcast::Broadcast;
use crate::broadcast::Subscriber;
use crate::crdt::apply_all;
use crate::crdt::apply_spec;
use crate::crdt::doc_contents;
use crate::crdt::sv_decodes;
use crate::crdt::sv_denotes;
use crate::crdt::sv_of;
use crate::crdt::update_decodes;
use crate::storage::ContentStorage;
use crate::storage::clone_bytes;
use crate::storage::str_eq;
use crate::storage::updates_for;

verus! {

/// The canonical "no changes" delta: empty, or the fixed two-byte all-zero
/// encoding. It must never be persisted or broadcast.
pub open spec fn is_noop(u: Seq<u8>) -> bool {
    u.len() == 0 || u == seq![0u8, 0u8]
}

/// Executable check for the no-op delta.
pub fn is_noop_bytes(update: &Vec<u8>) -> (r: bool)
    ensures
        r == is_noop(update@),
{
    if update.len() == 0 {
        return true;
    }
    if update.len() == 2 && update[0] == 0 && update[1] == 0 {
        proof {
            assert(update@ =~= seq![0u8, 0u8]);
        }
        return true;
    }
    proof {
        if update@ == seq![0u8, 0u8] {
            assert(update@.len() == 2);
        }
    }
    false
}

/// One live document: its id, the CRDT document holding the merged state,
/// and the broadcast channel fanning deltas out to subscribers.
pub struct Room {
    id: String,
    doc: yrs::Doc,
    chan: Broadcast,
}

impl Room {
    /// The document id this room serves.
    pub closed spec fn id_spec(&self) -> Seq<char> {
        self.id@
    }

    /// The update payloads the in-memory document has absorbed.
    pub closed spec fn contents(&self) -> Set<Seq<u8>> {
        doc_contents(self.doc)
    }

    /// Every delta ever broadcast to this room's subscribers, in order.
    pub open spec fn published(&self) -> Seq<Seq<u8>> {
        self.channel().history()
    }

    /// The broadcast channel value, for stating subscriber well-formedness.
    pub closed spec fn channel(&self) -> Broadcast {
        self.chan
    }

    /// The channel is well-formed and retains at most 100 deltas.
    pub open spec fn wf(&self) -> bool {
        &&& self.channel().wf()
        &&& self.channel().capacity_spec() == 100
    }

    /// The document id this room serves, as a string slice.
    pub fn id_str(&self) -> (r: &str)
        ensures
            r@ == self.id_spec(),
    {
        self.id.as_str()
    }

    /// The encoded state vector of this room's document: a compact summary
    /// of the history it has incorporated, sent in the opening handshake.
    pub fn state_vector(&self) -> (r: Vec<u8>)
        ensures
            sv_denotes(r@) == sv_of(self.contents()),
    {
        crate::crdt::state_vector(&self.doc)
    }

    /// The catch-up diff against a peer's state vector, or `None` when the
    /// peer's bytes do not decode as a state vector.
    pub fn diff_against(&self, sv: &Vec<u8>) -> (r: Option<Vec<u8>>)
        ensures
            r is Some <==> sv_decodes(sv@),
            match r {
                Some(d) => update_decodes(d@),
                None => true,
            },
    {
        crate::crdt::encode_diff(&self.doc, sv)
    }

    /// Open a subscription on this room's fan-out; the subscriber observes
    /// only deltas published after this call.
    pub fn subscribe(&self) -> (r: Subscriber)
        requires
            self.wf(),
        ensures
            r.wf(&self.channel()),
            r.received() == Seq::<(nat, Seq<u8>)>::empty(),
            r.cursor_spec() == self.published().len(),
    {
        self.chan.subscribe()
    }

    /// Deliver the next pending delta to a subscriber of this room.
    pub fn recv(&self, sub: &mut Subscriber) -> (r: Option<Vec<u8>>)
        requires
            self.wf(),
            old(sub).wf(&self.channel()),
        ensures
            final(sub).wf(&self.channel()),
            final(sub).cursor_spec() >= old(sub).cursor_spec(),
            match r {
                None => ({
                    &&& final(sub).received() == old(sub).received()
                    &&& self.channel().resume_point(old(sub).cursor_spec())
                        == self.published().len()
                    &&& final(sub).cursor_spec() == self.published().len()
                }),
                Some(m) => ({
                    let i = self.channel().resume_point(old(sub).cursor_spec());
                    &&& i < self.published().len()
                    &&& m@ == self.published()[i]
                    &&& final(sub).cursor_spec() == i + 1
                    &&& final(sub).received() == old(sub).received().push((i as nat, m@))
                }),
            },
    {
        self.chan.recv(sub)
    }
}

/// The contents a room must hold right after hydration: every persisted
/// update for its id, replayed oldest-first into an empty document.
pub open spec fn hydrated_contents(log: Option<Seq<(Seq<char>, Seq<u8>)>>, id: Seq<char>) -> Set<
    Seq<u8>,
> {
    match log {
        Some(l) => apply_all(Set::<Seq<u8>>::empty(), updates_for(l, id)),
        None => Set::<Seq<u8>>::empty(),
    }
}

/// The process-wide registry: the id-to-room cache and the persistence
/// adapter, if one is configured.
pub struct ContentRegistry {
    rooms: Vec<Room>,
    storage: Option<ContentStorage>,
}

impl ContentRegistry {
    /// The cached rooms, in creation order.
    pub closed spec fn rooms(&self) -> Seq<Room> {
        self.rooms@
    }

    /// The persisted update log, if storage is configured.
    pub closed spec fn log(&self) -> Option<Seq<(Seq<char>, Seq<u8>)>> {
        match self.storage {
            Some(st) => Some(st@),
            None => None,
        }
    }

    /// Every room is well-formed and no two rooms serve the same id.
    pub open spec fn wf(&self) -> bool {
        &&& forall|i: int| 0 <= i < self.rooms().len() ==> (#[trigger] self.rooms()[i]).wf()
        &&& forall|i: int, j: int|
            0 <= i < j < self.rooms().len() ==> (#[trigger] self.rooms()[i]).id_spec() != (
            #[trigger] self.rooms()[j]).id_spec()
    }

    /// Whether a room for `id` is cached.
    pub open spec fn has_room(&self, id: Seq<char>) -> bool {
        exists|i: int| 0 <= i < self.rooms().len() && (#[trigger] self.rooms()[i]).id_spec() == id
    }

    /// The index of the room for `id`; meaningful only when `has_room`.
    pub open spec fn room_index(&self, id: Seq<char>) -> int {
        choose|i: int| 0 <= i < self.rooms().len() && (#[trigger] self.rooms()[i]).id_spec() == id
    }

    /// The contents of the room for `id`; meaningful only when `has_room`.
    pub open spec fn contents_for(&self, id: Seq<char>) -> Set<Seq<u8>> {
        self.rooms()[self.room_index(id)].contents()
    }

    /// What has been broadcast for `id`: nothing, before a room exists.
    pub open spec fn published_for(&self, id: Seq<char>) -> Seq<Seq<u8>> {
        if self.has_room(id) {
            self.rooms()[self.room_index(id)].published()
        } else {
            Seq::empty()
        }
    }

    /// A registry over the given storage; no rooms yet.
    pub fn new(storage: Option<ContentStorage>) -> (r: ContentRegistry)
        ensures
            r.wf(),
            r.rooms() == Seq::<Room>::empty(),
            r.log() == match storage {
                Some(st) => Some(st@),
                None => None::<Seq<(Seq<char>, Seq<u8>)>>,
            },
    {
        ContentRegistry { rooms: Vec::new(), storage }
    }

    /// The persistence adapter handle, for direct snapshot and update
    /// retrieval outside the live sync path.
    pub fn get_storage(&self) -> (r: Option<&ContentStorage>)
        ensures
            match r {
                Some(st) => self.log() == Some(st@),
                None => self.log() is None,
            },
    {
        self.storage.as_ref()
    }

    /// Append directly to the log, as an explicit save invoked outside the
    /// live sync path (a snapshot, typically). Returns false when no storage
    /// is configured.
    pub fn save_direct(&mut self, id: &str, data: Vec<u8>) -> (r: bool)
        ensures
            final(self).rooms() == old(self).rooms(),
            r == !(old(self).log() is None),
            final(self).log() == match old(self).log() {
                Some(l) => Some(l.push((id@, data@))),
                None => None::<Seq<(Seq<char>, Seq<u8>)>>,
            },
    {
        match &mut self.storage {
            Some(st) => {
                st.save_update(id, data);
                true
            },
            None => false,
        }
    }

    /// Read-only access to a cached room.
    pub fn room_at(&self, idx: usize) -> (r: &Room)
        requires
            idx < self.rooms().len(),
        ensures
            *r == self.rooms()[idx as int],
    {
        &self.rooms[idx]
    }

    /// How many rooms are cached.
    pub fn room_count(&self) -> (r: usize)
        ensures
            r == self.rooms().len(),
    {
        self.rooms.len()
    }

    /// Return the cached room for `id`, creating and hydrating it first if
    /// this is the first access: a fresh document absorbs every persisted
    /// update for `id`, oldest first, before the room is published.
    pub fn get_room(&mut self, id: &str) -> (idx: usize)
        requires
            old(self).wf(),
        ensures
            final(self).wf(),
            ensure_room_post(*old(self), *final(self), id@),
            idx < final(self).rooms().len(),
            final(self).rooms()[idx as int].id_spec() == id@,
            final(self).room_index(id@) == idx as int,
            final(self).has_room(id@),
    {
        let mut i: usize = 0;
        while i < self.rooms.len()
            invariant
                *self == *old(self),
                self.wf(),
                i <= self.rooms@.len(),
                forall|j: int| 0 <= j < i ==> (#[trigger] self.rooms@[j]).id_spec() != id@,
            decreases self.rooms@.len() - i,
        {
            if str_eq(self.rooms[i].id.as_str(), id) {
                proof {
                    lemma_room_index_of(*self, id@, i as int);
                }
                return i;
            }
            i = i + 1;
        }
        let ghost pre = *self;
        let mut doc = crate::crdt::new_doc();
        match &self.storage {
            Some(st) => {
                let updates = st.load_updates(id);
                let ghost us = updates.deep_view();
                let mut k: usize = 0;
                proof {
                    assert(us.subrange(0, 0) =~= Seq::<Seq<u8>>::empty());
                }
                while k < updates.len()
                    invariant
                        k <= updates@.len(),
                        us == updates.deep_view(),
                        doc_contents(doc) == apply_all(
                            Set::<Seq<u8>>::empty(),
                            us.subrange(0, k as int),
                        ),
                    decreases updates@.len() - k,
                {
                    let _applied = crate::crdt::apply_update(&mut doc, &updates[k]);
                    k = k + 1;
                    proof {
                        let grown = us.subrange(0, k as int);
                        assert(grown.drop_last() =~= us.subrange(0, k - 1));
                        assert(grown.last() == us[k - 1]);
                        assert(us[k - 1] == updates@[k - 1]@);
                    }
                }
                proof {
                    assert(us.subrange(0, us.len() as int) =~= us);
                }
            },
            None => {},
        }
        let room = Room { id: id.to_owned(), doc, chan: Broadcast::new(100) };
        let idx = self.rooms.len();
        self.rooms.push(room);
        proof {
            assert(forall|j: int|
                0 <= j < pre.rooms().len() ==> (#[trigger] self.rooms@[j]) == pre.rooms()[j]);
            assert(self.wf());
            lemma_room_index_of(*self, id@, idx as int);
        }
        idx
    }

    /// The single mutation entry point for every inbound delta. The no-op
    /// delta is rejected with no side effects; any other delta reaches the
    /// room's document (when it decodes), every subscriber, and the log —
    /// the latter two unconditionally of the decode.
    pub fn process_update(&mut self, id: &str, update: Vec<u8>)
        requires
            old(self).wf(),
            old(self).has_room(id@) ==> old(self).published_for(id@).len() < usize::MAX,
        ensures
            final(self).wf(),
            process_post(*old(self), *final(self), id@, update@),
            is_noop(update@) ==> *final(self) == *old(self),
    {
        if is_noop_bytes(&update) {
            return;
        }
        let ghost pre = *self;
        let idx = self.get_room(id);
        let ghost mid = *self;
        proof {
            if pre.has_room(id@) {
                lemma_room_index_of(pre, id@, idx as int);
            }
        }
        let room = room_at_mut(&mut self.rooms, idx);
        let _applied = crate::crdt::apply_update(&mut room.doc, &update);
        room.chan.send(clone_bytes(&update));
        match &mut self.storage {
            Some(st) => {
                st.save_update(id, update);
            },
            None => {},
        }
        proof {
            assert(forall|k: int|
                0 <= k < self.rooms@.len() && k != idx as int ==> (#[trigger] self.rooms@[k])
                    == mid.rooms()[k]);
            assert(self.rooms@[idx as int].wf());
            assert(self.wf());
            lemma_room_index_of(*self, id@, idx as int);
        }
    }
}

/// What `get_room` guarantees: the registry after the call differs from the
/// one before at most by one appended, freshly hydrated room for `id`, and
/// the log is untouched.
pub open spec fn ensure_room_post(pre: ContentRegistry, post: ContentRegistry, id: Seq<char>) -> bool {
    &&& post.log() == pre.log()
    &&& post.has_room(id)
    &&& (pre.has_room(id) ==> post == pre)
    &&& (!pre.has_room(id) ==> {
        &&& post.rooms().len() == pre.rooms().len() + 1
        &&& (forall|k: int|
            0 <= k < pre.rooms().len() ==> #[trigger] post.rooms()[k] == pre.rooms()[k])
        &&& post.rooms().last().id_spec() == id
        &&& post.rooms().last().contents() == hydrated_contents(pre.log(), id)
        &&& post.rooms().last().published() == Seq::<Seq<u8>>::empty()
    })
}

/// What `process_update` guarantees. A no-op delta changes nothing at all —
/// in particular it is never appended to the log and never published. Any
/// other delta ensures the room exists (hydrating it on first access),
/// absorbs the delta into the document exactly when it decodes, publishes
/// the raw bytes as the next broadcast entry, and appends the raw bytes as
/// the next log row; every other room is left untouched.
pub open spec fn process_post(
    pre: ContentRegistry,
    post: ContentRegistry,
    id: Seq<char>,
    u: Seq<u8>,
) -> bool {
    if is_noop(u) {
        post == pre
    } else {
        let base = if pre.has_room(id) {
            pre.contents_for(id)
        } else {
            hydrated_contents(pre.log(), id)
        };
        let base_pub = pre.published_for(id);
        &&& post.has_room(id)
        &&& post.contents_for(id) == apply_spec(base, u)
        &&& post.published_for(id) == base_pub.push(u)
        &&& post.log() == match pre.log() {
            Some(l) => Some(l.push((id, u))),
            None => None::<Seq<(Seq<char>, Seq<u8>)>>,
        }
        &&& (pre.has_room(id) ==> post.rooms().len() == pre.rooms().len())
        &&& (!pre.has_room(id) ==> post.rooms().len() == pre.rooms().len() + 1 && (forall|k: int|
            0 <= k < pre.rooms().len() ==> #[trigger] post.rooms()[k] == pre.rooms()[k]))
        &&& (forall|k: int|
            0 <= k < pre.rooms().len() && (#[trigger] pre.rooms()[k]).id_spec() != id
                ==> post.rooms()[k] == pre.rooms()[k])
        &&& (forall|k: int|
            0 <= k < pre.rooms().len() ==> (#[trigger] post.rooms()[k]).id_spec()
                == pre.rooms()[k].id_spec())
    }
}

/// The room map is a cache, never the source of truth: when storage is
/// configured, every cached room holds exactly the state that replaying its
/// persisted history, oldest first, would rebuild. A registry starts this
/// way, hydration keeps it, and so does every delta routed through
/// `process_update` — the two lemmas below prove it. A direct save outside
/// the live path (a snapshot) is exempt: a room already in memory does not
/// replay it.
pub open spec fn log_is_truth(reg: ContentRegistry) -> bool {
    match reg.log() {
        Some(l) => forall|i: int|
            0 <= i < reg.rooms().len() ==> (#[trigger] reg.rooms()[i]).contents() == apply_all(
                Set::<Seq<u8>>::empty(),
                updates_for(l, reg.rooms()[i].id_spec()),
            ),
        None => true,
    }
}

/// Creating and hydrating a room keeps the log the source of truth: the new
/// room's contents are, by construction, the replay of its history.
pub proof fn lemma_ensure_room_preserves_truth(
    pre: ContentRegistry,
    post: ContentRegistry,
    id: Seq<char>,
)
    requires
        log_is_truth(pre),
        ensure_room_post(pre, post, id),
    ensures
        log_is_truth(post),
{
    if pre.has_room(id) {
    } else {
        match post.log() {
            Some(l) => {
                assert forall|i: int| 0 <= i < post.rooms().len() implies (
                #[trigger] post.rooms()[i]).contents() == apply_all(
                    Set::<Seq<u8>>::empty(),
                    updates_for(l, post.rooms()[i].id_spec()),
                ) by {
                    if i < pre.rooms().len() {
                        assert(post.rooms()[i] == pre.rooms()[i]);
                    } else {
                        assert(post.rooms()[i] == post.rooms().last());
                    }
                }
            },
            None => {},
        }
    }
}

/// The uniform mutation path keeps the log the source of truth: the delta
/// joins the document's contents exactly as it joins the document's
/// persisted history.
pub proof fn lemma_process_preserves_truth(
    pre: ContentRegistry,
    post: ContentRegistry,
    id: Seq<char>,
    u: Seq<u8>,
)
    requires
        pre.wf(),
        post.wf(),
        log_is_truth(pre),
        process_post(pre, post, id, u),
    ensures
        log_is_truth(post),
{
    if is_noop(u) {
        return ;
    }
    match pre.log() {
        Some(l) => {
            let l2 = l.push((id, u));
            assert forall|i: int| 0 <= i < post.rooms().len() implies (
            #[trigger] post.rooms()[i]).contents() == apply_all(
                Set::<Seq<u8>>::empty(),
                updates_for(l2, post.rooms()[i].id_spec()),
            ) by {
                let rid = post.rooms()[i].id_spec();
                crate::storage::lemma_updates_for_push(l, rid, (id, u));
                if rid == id {
                    lemma_room_index_of(post, id, i);
                    let us = updates_for(l, id);
                    assert(updates_for(l2, id).drop_last() =~= us);
                    if pre.has_room(id) {
                        lemma_room_index_of(pre, id, pre.room_index(id));
                        assert(pre.contents_for(id) == apply_all(Set::<Seq<u8>>::empty(), us));
                    }
                } else {
                    if i < pre.rooms().len() {
                        assert(pre.rooms()[i].id_spec() == rid);
                        assert(post.rooms()[i] == pre.rooms()[i]);
                    } else {
                        // Only the room for `id` can be the appended one.
                        assert(!pre.has_room(id));
                        let j = post.room_index(id);
                        assert(0 <= j < post.rooms().len() && post.rooms()[j].id_spec() == id);
                        if j < pre.rooms().len() {
                            assert(pre.rooms()[j].id_spec() == id);
                            assert(pre.has_room(id));
                        }
                        assert(j == i);
                        assert(false);
                    }
                }
            }
        },
        None => {},
    }
}

/// A mutable borrow of one room, with the registry's other rooms pinned.
fn room_at_mut(rooms: &mut Vec<Room>, i: usize) -> (r: &mut Room)
    requires
        i < old(rooms).len(),
    ensures
        *r == old(rooms)@[i as int],
        final(rooms)@ == old(rooms)@.update(i as int, *final(r)),
{
    &mut rooms[i]
}

/// In a well-formed registry ids are unique, so the room found at `i` is
/// the room `room_index` designates.
pub proof fn lemma_room_index_of(reg: ContentRegistry, id: Seq<char>, i: int)
    requires
        reg.wf(),
        0 <= i < reg.rooms().len(),
        reg.rooms()[i].id_spec() == id,
    ensures
        reg.has_room(id),
        reg.room_index(id) == i,
{
    assert(reg.has_room(id));
    let j = reg.room_index(id);
    if j < i {
        assert(reg.rooms()[j].id_spec() != reg.rooms()[i].id_spec());
    } else if j > i {
        assert(reg.rooms()[i].id_spec() != reg.rooms()[j].id_spec());
    }
}

} // verus!
