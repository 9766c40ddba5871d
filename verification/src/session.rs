//! The per-connection protocol state machine.
//!
//! No session state survives a connection: on connect the session ensures the
//! room, subscribes to its fan-out, and immediately sends `SyncStep1` with
//! the local state vector to initiate the handshake. Each inbound frame is
//! decoded and routed: a peer's `SyncStep1` turns into a catch-up diff that
//! goes through `process_update` exactly like a live edit; an `Update` frame
//! goes through `process_update` directly; a malformed frame or any other
//! tag is ignored and the session stays open. Outbound, the session drains
//! its room subscription and wraps every delta as an `Update` frame; an
//! asynchronous shell paces the writes to the transport so the shared
//! publisher never blocks.

use vstd::prelude::*;
use crate::broadcast::Subscriber;
use crate::codec::Frame;
use crate::codec::decode_frame;
use crate::codec::encode_sync_step1;
use crate::codec::encode_update_frame;
use crate::codec::spec_decode_frame;
use crate::codec::spec_sync_step1_frame;
use crate::codec::spec_update_frame;
use crate::crdt::sv_decodes;
use crate::crdt::sv_denotes;
use crate::crdt::sv_of;
use crate::crdt::update_decodes;
use crate::registry::ContentRegistry;
use crate::registry::ensure_room_post;
use crate::registry::is_noop;
use crate::registry::lemma_room_index_of;
use crate::registry::process_post;
use crate::storage::clone_bytes;

verus! {

/// One live connection: the document it serves and its subscription to the
/// room's fan-out.
pub struct Session {
    doc_id: String,
    room_idx: usize,
    sub: Subscriber,
}

impl Session {
    /// The document this session serves.
    pub closed spec fn doc_id_spec(&self) -> Seq<char> {
        self.doc_id@
    }

    /// The index of this session's room in the registry; rooms are never
    /// evicted, so the index stays valid for the registry's lifetime.
    pub closed spec fn room_idx_spec(&self) -> int {
        self.room_idx as int
    }

    /// This session's subscription state.
    pub closed spec fn subscriber(&self) -> Subscriber {
        self.sub
    }
}

/// A session is coherent with a registry when its room index points at the
/// room for its document and its subscription is well-formed against that
/// room's channel.
pub open spec fn session_wf(s: Session, reg: ContentRegistry) -> bool {
    &&& 0 <= s.room_idx_spec() < reg.rooms().len()
    &&& reg.rooms()[s.room_idx_spec()].id_spec() == s.doc_id_spec()
    &&& s.subscriber().wf(&reg.rooms()[s.room_idx_spec()].channel())
}

/// What a session does with one inbound frame: nothing, or route one delta
/// into the uniform mutation path.
pub enum FrameAction {
    Ignored,
    Routed(Vec<u8>),
}

/// Routing a `SyncStep1` ensures the room, then feeds the computed diff
/// through the uniform mutation path.
pub open spec fn step1_post(
    pre: ContentRegistry,
    post: ContentRegistry,
    id: Seq<char>,
    d: Seq<u8>,
) -> bool {
    exists|mid: ContentRegistry|
        #![auto]
        ensure_room_post(pre, mid, id) && process_post(mid, post, id, d)
}

/// Open a session on `id`: ensure and hydrate the room, subscribe to its
/// fan-out, and produce the handshake-initiation frame — `SyncStep1`
/// carrying the local document's state vector — to be sent to the peer
/// immediately.
pub fn open_session(reg: &mut ContentRegistry, id: &str) -> (r: (Session, Vec<u8>))
    requires
        old(reg).wf(),
    ensures
        final(reg).wf(),
        ensure_room_post(*old(reg), *final(reg), id@),
        session_wf(r.0, *final(reg)),
        r.0.doc_id_spec() == id@,
        r.0.subscriber().received() == Seq::<(nat, Seq<u8>)>::empty(),
        r.0.subscriber().cursor_spec() == final(reg).published_for(id@).len(),
        exists|sv: Seq<u8>|
            #![auto]
            r.1@ == spec_sync_step1_frame(sv) && sv_denotes(sv) == sv_of(
                final(reg).contents_for(id@),
            ),
{
    let idx = reg.get_room(id);
    let room = reg.room_at(idx);
    proof {
        assert(reg.rooms()[idx as int].wf());
    }
    let sv = room.state_vector();
    let frame = encode_sync_step1(&sv);
    let sub = room.subscribe();
    let session = Session { doc_id: id.to_owned(), room_idx: idx, sub };
    proof {
        assert(frame@ == spec_sync_step1_frame(sv@) && sv_denotes(sv@) == sv_of(
            final(reg).contents_for(id@),
        ));
    }
    (session, frame)
}

/// Route one inbound binary frame. A peer's `SyncStep1` is answered through
/// the uniform path: the diff it needs is computed and handed to
/// `process_update`, which broadcasts it back out; an `Update` frame goes to
/// `process_update` directly; anything else — malformed bytes, an unknown
/// tag, or a message this engine does not act on — is ignored and the
/// session stays open.
pub fn handle_frame(reg: &mut ContentRegistry, id: &str, frame: &Vec<u8>) -> (r: FrameAction)
    requires
        old(reg).wf(),
        old(reg).has_room(id@) ==> old(reg).published_for(id@).len() < usize::MAX,
    ensures
        final(reg).wf(),
        match spec_decode_frame(frame@) {
            Some(Frame::Update(u)) => (match r {
                FrameAction::Routed(v) => v@ == u && process_post(
                    *old(reg),
                    *final(reg),
                    id@,
                    u,
                ),
                FrameAction::Ignored => false,
            }),
            Some(Frame::SyncStep1(sv)) => if sv_decodes(sv) {
                match r {
                    FrameAction::Routed(v) => update_decodes(v@) && step1_post(
                        *old(reg),
                        *final(reg),
                        id@,
                        v@,
                    ),
                    FrameAction::Ignored => false,
                }
            } else {
                ensure_room_post(*old(reg), *final(reg), id@) && r is Ignored
            },
            _ => *final(reg) == *old(reg) && r is Ignored,
        },
{
    let decoded = match decode_frame(frame) {
        None => {
            return FrameAction::Ignored;
        },
        Some(f) => f,
    };
    match decoded {
        Frame::SyncStep1(sv) => {
            let ghost pre = *reg;
            let idx = reg.get_room(id);
            let ghost mid = *reg;
            let room = reg.room_at(idx);
            let diff = room.diff_against(&sv);
            match diff {
                Some(d) => {
                    let routed = clone_bytes(&d);
                    proof {
                        lemma_room_index_of(mid, id@, idx as int);
                    }
                    reg.process_update(id, d);
                    proof {
                        assert(step1_post(pre, *reg, id@, routed@)) by {
                            assert(ensure_room_post(pre, mid, id@) && process_post(
                                mid,
                                *reg,
                                id@,
                                routed@,
                            ));
                        }
                    }
                    FrameAction::Routed(routed)
                },
                None => FrameAction::Ignored,
            }
        },
        Frame::Update(u) => {
            let routed = clone_bytes(&u);
            reg.process_update(id, u);
            FrameAction::Routed(routed)
        },
        Frame::SyncStep2(_) => FrameAction::Ignored,
        Frame::Other => FrameAction::Ignored,
    }
}

/// Drain one pending delta from the session's subscription and wrap it as
/// an `Update` frame for the transport; `None` when nothing is pending. A
/// session that lagged past the channel's window resumes at the oldest
/// retained delta — deltas can be missed, never reordered, and a missed one
/// is recovered by a later handshake.
pub fn poll_outbound(reg: &ContentRegistry, sess: &mut Session) -> (r: Option<Vec<u8>>)
    requires
        reg.wf(),
        session_wf(*old(sess), *reg),
    ensures
        session_wf(*final(sess), *reg),
        final(sess).doc_id_spec() == old(sess).doc_id_spec(),
        final(sess).room_idx_spec() == old(sess).room_idx_spec(),
        ({
            let chan = reg.rooms()[old(sess).room_idx_spec()].channel();
            match r {
                None => ({
                    &&& final(sess).subscriber().received() == old(sess).subscriber().received()
                    &&& chan.resume_point(old(sess).subscriber().cursor_spec())
                        == chan.history().len()
                }),
                Some(f) => ({
                    let i = chan.resume_point(old(sess).subscriber().cursor_spec());
                    &&& i < chan.history().len()
                    &&& f@ == spec_update_frame(chan.history()[i])
                    &&& final(sess).subscriber().received() == old(
                        sess,
                    ).subscriber().received().push((i as nat, chan.history()[i]))
                }),
            }
        }),
{
    let room = reg.room_at(sess.room_idx);
    proof {
        assert(reg.rooms()[sess.room_idx as int].wf());
    }
    match room.recv(&mut sess.sub) {
        Some(m) => Some(encode_update_frame(&m)),
        None => None,
    }
}

/// Once a delta has gone through `process_update`, every open session on
/// the document — and on every other document — is still coherent: the
/// broadcast history only grew, so nothing a subscriber recorded is
/// invalidated.
pub proof fn lemma_session_survives_update(
    s: Session,
    pre: ContentRegistry,
    post: ContentRegistry,
    id: Seq<char>,
    u: Seq<u8>,
)
    requires
        pre.wf(),
        post.wf(),
        session_wf(s, pre),
        process_post(pre, post, id, u),
    ensures
        session_wf(s, post),
{
    if is_noop(u) {
    } else {
        let k = s.room_idx_spec();
        if pre.rooms()[k].id_spec() == id {
            lemma_room_index_of(pre, id, k);
            lemma_room_index_of(post, id, k);
            let before = pre.rooms()[k].channel();
            let after = post.rooms()[k].channel();
            assert(after.history() == pre.published_for(id).push(u));
            assert(after.history().subrange(0, before.history().len() as int) =~= before.history());
            crate::broadcast::lemma_subscriber_survives_send(s.subscriber(), before, after);
        } else {
            assert(post.rooms()[k] == pre.rooms()[k]);
        }
    }
}

} // verus!
