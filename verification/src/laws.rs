//! The catalog's laws, stated over the mathematical model the store's
//! contracts use: the map from key bytes to record bytes, the record
//! encoding, and the key derivation. Together with [`DataActor::handle`]'s
//! contract they pin down what any sequence of catalog commands does.
use vstd::prelude::*;

use crate::codec::{spec_encode_model, spec_decode_model, lemma_model_round_trip, model_fits};
use crate::model::TraceModelV;
use crate::store::name_key;

verus! {

broadcast use vstd::set::axiom_set_insert_len, vstd::set::axiom_set_remove_len;

/// Law: adding a definition under a fresh name and reading that name back
/// yields the very definition — the store writes `spec_encode_model(m)` under
/// `name_key(m.name)`, and that record decodes to `m`.
pub proof fn lemma_add_then_get(cat: Map<Seq<u8>, Seq<u8>>, m: TraceModelV)
    requires
        model_fits(m),
        !cat.dom().contains(name_key(m.name)),
    ensures
        ({
            let cat2 = cat.insert(name_key(m.name), spec_encode_model(m));
            &&& cat2.dom().contains(name_key(m.name))
            &&& spec_decode_model(cat2[name_key(m.name)]) == Some(m)
        }),
{
    lemma_model_round_trip(m);
}

/// Law: after one successful add, the name is taken — a second add of any
/// definition under the same name is a conflict by the store's contract —
/// and the catalog holds exactly one more record, still equal to the first
/// definition.
pub proof fn lemma_add_is_exclusive(cat: Map<Seq<u8>, Seq<u8>>, m: TraceModelV, m2: TraceModelV)
    requires
        model_fits(m),
        !cat.dom().contains(name_key(m.name)),
        m2.name == m.name,
    ensures
        ({
            let cat2 = cat.insert(name_key(m.name), spec_encode_model(m));
            &&& cat2.dom().contains(name_key(m2.name))
            &&& cat2[name_key(m.name)] == spec_encode_model(m)
            &&& spec_decode_model(cat2[name_key(m.name)]) == Some(m)
            &&& cat.dom().finite() ==> cat2.dom().len() == cat.dom().len() + 1
        }),
{
    lemma_model_round_trip(m);
}

/// Law: removing a present name deletes exactly that record: the name is
/// gone afterwards (so a following read fails with the not-found error by
/// the store's contract), every other record stays, and the count drops by
/// one.
pub proof fn lemma_remove_then_get(cat: Map<Seq<u8>, Seq<u8>>, name: Seq<char>)
    requires
        cat.dom().contains(name_key(name)),
    ensures
        !cat.remove(name_key(name)).dom().contains(name_key(name)),
        forall|k: Seq<u8>|
            k != name_key(name) && cat.dom().contains(k) ==> (#[trigger] cat.remove(
                name_key(name),
            ).dom().contains(k)) && cat.remove(name_key(name))[k] == cat[k],
        cat.dom().finite() ==> cat.remove(name_key(name)).dom().len() == cat.dom().len() - 1,
{
}

/// One catalog command, at the level of the model.
pub enum CatalogOp {
    AddOp(TraceModelV),
    RemoveOp(Seq<char>),
}

/// The key a command addresses.
pub open spec fn op_key(op: CatalogOp) -> Seq<u8> {
    match op {
        CatalogOp::AddOp(m) => name_key(m.name),
        CatalogOp::RemoveOp(n) => name_key(n),
    }
}

/// Whether the command succeeds on this catalog: an add needs a fresh name,
/// a remove needs a present one.
pub open spec fn op_succeeds(cat: Map<Seq<u8>, Seq<u8>>, op: CatalogOp) -> bool {
    match op {
        CatalogOp::AddOp(_) => !cat.dom().contains(op_key(op)),
        CatalogOp::RemoveOp(_) => cat.dom().contains(op_key(op)),
    }
}

/// The catalog after one command, exactly as the store's contract has it
/// for commands the admission rules decide: a refused command leaves the
/// catalog as it was.
pub open spec fn cat_step(cat: Map<Seq<u8>, Seq<u8>>, op: CatalogOp) -> Map<Seq<u8>, Seq<u8>> {
    match op {
        CatalogOp::AddOp(m) => if op_succeeds(cat, op) {
            cat.insert(name_key(m.name), spec_encode_model(m))
        } else {
            cat
        },
        CatalogOp::RemoveOp(n) => if op_succeeds(cat, op) {
            cat.remove(name_key(n))
        } else {
            cat
        },
    }
}

/// The catalog after a whole sequence of commands.
pub open spec fn cat_run(cat: Map<Seq<u8>, Seq<u8>>, ops: Seq<CatalogOp>) -> Map<Seq<u8>, Seq<u8>>
    decreases ops.len(),
{
    if ops.len() == 0 {
        cat
    } else {
        cat_run(cat_step(cat, ops[0]), ops.drop_first())
    }
}

/// Successful adds minus successful removes over a command sequence.
pub open spec fn net_adds(cat: Map<Seq<u8>, Seq<u8>>, ops: Seq<CatalogOp>) -> int
    decreases ops.len(),
{
    if ops.len() == 0 {
        0int
    } else {
        (if op_succeeds(cat, ops[0]) {
            match ops[0] {
                CatalogOp::AddOp(_) => 1int,
                CatalogOp::RemoveOp(_) => -1int,
            }
        } else {
            0int
        }) + net_adds(cat_step(cat, ops[0]), ops.drop_first())
    }
}

/// Law: after any sequence of adds and removes, the catalog holds exactly
/// its starting count plus the successful adds minus the successful removes
/// — so a full listing reports that count, by the store's listing contract.
pub proof fn lemma_catalog_count(cat: Map<Seq<u8>, Seq<u8>>, ops: Seq<CatalogOp>)
    requires
        cat.dom().finite(),
    ensures
        cat_run(cat, ops).dom().finite(),
        cat_run(cat, ops).dom().len() == cat.dom().len() + net_adds(cat, ops),
    decreases ops.len(),
{
    if ops.len() == 0 {
    } else {
        let cat1 = cat_step(cat, ops[0]);
        match ops[0] {
            CatalogOp::AddOp(m) => {
                if op_succeeds(cat, ops[0]) {
                    assert(cat1.dom() == cat.dom().insert(name_key(m.name)));
                    assert(cat1.dom().len() == cat.dom().len() + 1);
                }
            },
            CatalogOp::RemoveOp(n) => {
                if op_succeeds(cat, ops[0]) {
                    assert(cat1.dom() == cat.dom().remove(name_key(n)));
                    assert(cat1.dom().len() == cat.dom().len() - 1);
                }
            },
        }
        lemma_catalog_count(cat1, ops.drop_first());
    }
}

} // verus!
