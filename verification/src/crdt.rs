//! The CRDT document capability.
//!
//! The merge algorithm itself is an opaque capability supplied by the `yrs`
//! crate: decode an update, apply it in place, summarize the incorporated
//! history as a state vector, and compute a catch-up diff against a peer's
//! state vector. This module wraps those calls and gives the document a
//! mathematical model: the set of update payloads it has absorbed. The CRDT
//! invariants the engine leans on — absorbing a payload twice changes
//! nothing, absorption order does not matter, and replaying a history equals
//! receiving it live — are set-algebra facts over that model, proved below.

use vstd::prelude::*;
use yrs::Transact;
use yrs::ReadTxn;
use yrs::updates::decoder::Decode;
use yrs::updates::encoder::Encode;

verus! {

/// Declares `yrs::Doc` to the verifier. A document value is opaque: the
/// only window into it is the `doc_contents` model below, maintained by the
/// wrappers' contracts.
#[verifier::external_type_specification]
#[verifier::external_body]
pub struct ExDoc(yrs::Doc);

/// The update payloads a document has absorbed. What a document answers —
/// its state vector, its diffs — is a function of this set alone, never of
/// the order of absorption.
pub uninterp spec fn doc_contents(d: yrs::Doc) -> Set<Seq<u8>>;

/// Whether `yrs::Update::decode_v1` accepts these bytes; a pure function of
/// the bytes.
pub uninterp spec fn update_decodes(update: Seq<u8>) -> bool;

/// Whether `yrs::StateVector::decode_v1` accepts these bytes; a pure
/// function of the bytes.
pub uninterp spec fn sv_decodes(sv: Seq<u8>) -> bool;

/// The version vector (client to clock) of a document that has absorbed
/// exactly the payloads in `s`.
pub uninterp spec fn sv_of(s: Set<Seq<u8>>) -> Map<nat, nat>;

/// The version vector an encoded state vector denotes; a pure function of
/// the bytes. Two encodings may order their entries differently and still
/// denote the same vector.
pub uninterp spec fn sv_denotes(sv: Seq<u8>) -> Map<nat, nat>;

/// What absorbing one payload does to a document's contents: a decodable
/// payload joins the set, anything else is dropped without a trace.
pub open spec fn apply_spec(s: Set<Seq<u8>>, update: Seq<u8>) -> Set<Seq<u8>> {
    if update_decodes(update) {
        s.insert(update)
    } else {
        s
    }
}

/// Absorbing a whole history, oldest first.
pub open spec fn apply_all(s: Set<Seq<u8>>, us: Seq<Seq<u8>>) -> Set<Seq<u8>>
    decreases us.len(),
{
    if us.len() == 0 {
        s
    } else {
        apply_spec(apply_all(s, us.drop_last()), us.last())
    }
}

/// Absorbing a history one arrival at a time, front first — the shape a live
/// session produces.
pub open spec fn apply_from(s: Set<Seq<u8>>, us: Seq<Seq<u8>>) -> Set<Seq<u8>>
    decreases us.len(),
{
    if us.len() == 0 {
        s
    } else {
        apply_from(apply_spec(s, us.first()), us.drop_first())
    }
}

/// Relies on `yrs::Doc::new`: a fresh document has absorbed nothing.
#[verifier::external_body]
pub(crate) fn new_doc() -> (r: yrs::Doc)
    ensures
        doc_contents(r) == Set::<Seq<u8>>::empty(),
{
    yrs::Doc::new()
}

/// Relies on `yrs::Update::decode_v1` to turn bytes into an update and on
/// `yrs::TransactionMut::apply_update` to absorb it: the document's contents
/// gain exactly this payload, and nothing happens on a payload that does not
/// decode.
#[verifier::external_body]
pub(crate) fn apply_update(doc: &mut yrs::Doc, update: &Vec<u8>) -> (applied: bool)
    ensures
        applied == update_decodes(update@),
        doc_contents(*final(doc)) == apply_spec(doc_contents(*old(doc)), update@),
{
    match yrs::Update::decode_v1(update.as_slice()) {
        Ok(u) => {
            let mut txn = doc.transact_mut();
            let _ = txn.apply_update(u);
            true
        },
        Err(_) => false,
    }
}

/// Relies on `yrs::ReadTxn::state_vector` and `StateVector::encode_v1`: the
/// returned bytes denote the version vector of what the document absorbed.
#[verifier::external_body]
pub(crate) fn state_vector(doc: &yrs::Doc) -> (r: Vec<u8>)
    ensures
        sv_denotes(r@) == sv_of(doc_contents(*doc)),
{
    let txn = doc.transact();
    txn.state_vector().encode_v1()
}

/// Relies on `yrs::StateVector::decode_v1` and `yrs::ReadTxn::encode_diff_v1`:
/// succeeds exactly on a decodable state vector, and the computed diff is
/// itself a decodable update.
#[verifier::external_body]
pub(crate) fn encode_diff(doc: &yrs::Doc, sv: &Vec<u8>) -> (r: Option<Vec<u8>>)
    ensures
        r is Some <==> sv_decodes(sv@),
        match r {
            Some(d) => update_decodes(d@),
            None => true,
        },
{
    match yrs::StateVector::decode_v1(sv.as_slice()) {
        Ok(peer) => {
            let txn = doc.transact();
            Some(txn.encode_diff_v1(&peer))
        },
        Err(_) => None,
    }
}

/// Idempotence: absorbing the same update twice leaves a document in exactly
/// the state absorbing it once does.
pub proof fn lemma_apply_idempotent(s: Set<Seq<u8>>, u: Seq<u8>)
    ensures
        apply_spec(apply_spec(s, u), u) == apply_spec(s, u),
{
    assert(apply_spec(apply_spec(s, u), u) =~= apply_spec(s, u));
}

/// Commutativity: absorbing two updates in either order converges to the
/// same state.
pub proof fn lemma_apply_commutes(s: Set<Seq<u8>>, u1: Seq<u8>, u2: Seq<u8>)
    ensures
        apply_spec(apply_spec(s, u1), u2) == apply_spec(apply_spec(s, u2), u1),
{
    assert(apply_spec(apply_spec(s, u1), u2) =~= apply_spec(apply_spec(s, u2), u1));
}

/// Peeling the first arrival off a batch replay.
proof fn lemma_apply_all_cons(s: Set<Seq<u8>>, us: Seq<Seq<u8>>)
    requires
        us.len() > 0,
    ensures
        apply_all(s, us) == apply_all(apply_spec(s, us.first()), us.drop_first()),
    decreases us.len(),
{
    if us.len() == 1 {
        assert(us.drop_last() =~= Seq::<Seq<u8>>::empty());
        assert(us.drop_first() =~= Seq::<Seq<u8>>::empty());
        assert(us.last() == us.first());
        assert(apply_all(s, us) == apply_spec(apply_all(s, us.drop_last()), us.last()));
        assert(apply_all(s, us.drop_last()) == s);
        assert(apply_all(apply_spec(s, us.first()), us.drop_first()) == apply_spec(
            s,
            us.first(),
        ));
    } else {
        let t = us.drop_last();
        let d = us.drop_first();
        let s1 = apply_spec(s, us.first());
        lemma_apply_all_cons(s, t);
        assert(us.first() == t.first());
        assert(d.drop_last() =~= t.drop_first());
        assert(d.last() == us.last());
        assert(apply_all(s, us) == apply_spec(apply_all(s, t), us.last()));
        assert(apply_all(s, t) == apply_all(s1, t.drop_first()));
        assert(apply_all(s1, d) == apply_spec(apply_all(s1, d.drop_last()), d.last()));
    }
}

/// Hydration equivalence: replaying a persisted history oldest-first puts a
/// document in exactly the contents — hence the state vector — of a document
/// that absorbed the same updates live, one arrival at a time, in the same
/// order.
pub proof fn lemma_hydration_equivalence(us: Seq<Seq<u8>>)
    ensures
        apply_all(Set::<Seq<u8>>::empty(), us) == apply_from(Set::<Seq<u8>>::empty(), us),
        sv_of(apply_all(Set::<Seq<u8>>::empty(), us)) == sv_of(
            apply_from(Set::<Seq<u8>>::empty(), us),
        ),
{
    lemma_apply_all_from(Set::<Seq<u8>>::empty(), us);
}

/// Batch replay and arrival-at-a-time absorption are the same fold.
proof fn lemma_apply_all_from(s: Set<Seq<u8>>, us: Seq<Seq<u8>>)
    ensures
        apply_all(s, us) == apply_from(s, us),
    decreases us.len(),
{
    if us.len() > 0 {
        lemma_apply_all_cons(s, us);
        lemma_apply_all_from(apply_spec(s, us.first()), us.drop_first());
    }
}

} // verus!
