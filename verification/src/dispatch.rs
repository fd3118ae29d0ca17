//! The Command Dispatcher: decodes one logical request at a time, routes it
//! to the Model Store or the Trace Supervisor, and produces exactly one reply
//! per request. Completion notices for started executions arrive later on the
//! same connection's Outbound Notifier.
use vstd::prelude::*;

use crate::execution::{ExecPhase, TraceExec};
use crate::store::{DataActor, DbMsg, DbReply, TraceError, all_decoded, name_key};
use crate::codec::spec_decode_model;
use crate::supervisor::HouseKeeper;
use crate::notifier::{Frame, OutboundNotifier};

verus! {

/// One decoded client request.
pub enum Request {
    QueryAll,
    Get(String),
    Add(crate::model::TraceModel),
    Remove(String),
    Start { name: String, round: usize, pattern: String },
    Kill,
}

/// Route one request and return its single reply. `Start` admits at most one
/// execution per name: it reads the definition from the catalog, then
/// registers a fresh execution with the supervisor.
pub fn dispatch(req: Request, store: &mut DataActor, keeper: &mut HouseKeeper) -> (r: Result<
    DbReply,
    TraceError,
>)
    requires
        old(store).is_accepting(),
        old(keeper).wf(),
    ensures
        final(keeper).wf(),
        final(store).is_accepting() == !(req is Kill),
        match req {
            Request::QueryAll => {
                &&& final(store).catalog() == old(store).catalog()
                &&& final(keeper).entries() == old(keeper).entries()
                &&& r matches Ok(rep) ==> (rep matches DbReply::AllList(ms) && all_decoded(
                    old(store).catalog(),
                    ms@,
                ))
                &&& r matches Err(e) ==> match e {
                    TraceError::Serialization => exists|k: Seq<u8>|
                        #[trigger] old(store).catalog().dom().contains(k) && spec_decode_model(
                            old(store).catalog()[k],
                        ) is None,
                    TraceError::StorageIO => true,
                    _ => false,
                }
            },
            Request::Get(name) => {
                &&& final(store).catalog() == old(store).catalog()
                &&& final(keeper).entries() == old(keeper).entries()
                &&& r matches Ok(rep) ==> (rep matches DbReply::GetResult(m) && old(store).catalog().dom().contains(name_key(name@)) && spec_decode_model(
                    old(store).catalog()[name_key(name@)],
                ) == Some(m@))
                &&& r matches Err(e) ==> match e {
                    TraceError::NotFound(n) => n@ == name@ && !old(
                        store,
                    ).catalog().dom().contains(name_key(name@)),
                    TraceError::Serialization => old(store).catalog().dom().contains(
                        name_key(name@),
                    ) && spec_decode_model(old(store).catalog()[name_key(name@)]) is None,
                    TraceError::StorageIO => true,
                    _ => false,
                }
            },
            Request::Add(model) => {
                &&& final(keeper).entries() == old(keeper).entries()
                &&& r is Ok ==> !old(store).catalog().dom().contains(name_key(model.name@))
                    && final(store).catalog() == old(store).catalog().insert(
                    name_key(model.name@),
                    crate::codec::spec_encode_model(model@),
                )
                &&& r matches Err(e) ==> match e {
                    TraceError::Conflict(n) => n@ == model.name@ && old(
                        store,
                    ).catalog().dom().contains(name_key(model.name@)) && final(store).catalog()
                        == old(store).catalog(),
                    TraceError::StorageIO => old(store).catalog().dom().contains(
                        name_key(model.name@),
                    ) ==> final(store).catalog() == old(store).catalog(),
                    _ => false,
                }
            },
            Request::Remove(name) => {
                &&& final(keeper).entries() == old(keeper).entries()
                &&& r is Ok ==> old(store).catalog().dom().contains(name_key(name@)) && final(store).catalog() == old(store).catalog().remove(name_key(name@))
                &&& r matches Err(e) ==> match e {
                    TraceError::NotFound(n) => n@ == name@ && !old(
                        store,
                    ).catalog().dom().contains(name_key(name@)) && final(store).catalog() == old(
                        store,
                    ).catalog(),
                    TraceError::StorageIO => true,
                    _ => false,
                }
            },
            Request::Start { name, round, pattern } => {
                &&& final(store).catalog() == old(store).catalog()
                &&& r is Ok ==> {
                    &&& old(store).catalog().dom().contains(name_key(name@))
                    &&& !old(keeper).has_name(name@)
                    &&& final(keeper).has_name(name@)
                    &&& final(keeper).entries().len() == old(keeper).entries().len() + 1
                    &&& final(keeper).entries().last().name@ == name@
                    &&& final(keeper).entries().last().phase == ExecPhase::Starting
                    &&& final(keeper).entries().last().remaining == round
                    &&& final(keeper).entries().last().pattern@ == pattern@
                }
                &&& r is Err ==> final(keeper).entries() == old(keeper).entries()
                &&& r matches Err(e) ==> match e {
                    TraceError::Conflict(n) => n@ == name@ && old(keeper).has_name(name@) && old(
                        store,
                    ).catalog().dom().contains(name_key(name@)),
                    TraceError::NotFound(n) => n@ == name@ && !old(
                        store,
                    ).catalog().dom().contains(name_key(name@)),
                    TraceError::Serialization => old(store).catalog().dom().contains(
                        name_key(name@),
                    ) && spec_decode_model(old(store).catalog()[name_key(name@)]) is None,
                    TraceError::StorageIO => true,
                    _ => false,
                }
            },
            Request::Kill => {
                &&& final(store).catalog() == old(store).catalog()
                &&& final(keeper).entries().len() == old(keeper).entries().len()
                &&& forall|i: int|
                    0 <= i < old(keeper).entries().len() ==> (#[trigger] final(keeper).entries()[i])
                        == (TraceExec {
                        phase: if old(keeper).entries()[i].phase == ExecPhase::Starting || old(
                            keeper,
                        ).entries()[i].phase == ExecPhase::Running {
                            ExecPhase::Stopping
                        } else {
                            old(keeper).entries()[i].phase
                        },
                        ..old(keeper).entries()[i]
                    })
                &&& match r {
                    Ok(rep) => rep is Success,
                    Err(e) => e is StorageIO,
                }
            },
        },
{
    match req {
        Request::QueryAll => store.handle(DbMsg::QueryAll),
        Request::Get(name) => store.handle(DbMsg::Get(name)),
        Request::Add(model) => store.handle(DbMsg::Add(model)),
        Request::Remove(name) => store.handle(DbMsg::Remove(name)),
        Request::Start { name, round, pattern } => {
            match store.handle(DbMsg::Get(name.clone())) {
                Err(e) => Err(e),
                Ok(DbReply::GetResult(model)) => {
                    match keeper.start(&name, round, model.interval, true, pattern) {
                        Ok(()) => Ok(DbReply::Success),
                        Err(e) => Err(e),
                    }
                },
                // Unreachable: the store's contract pins a Get reply to
                // GetResult, so this arm carries no obligation.
                Ok(_) => Err(TraceError::Transport),
            }
        },
        Request::Kill => {
            keeper.shutdown_all();
            store.handle(DbMsg::Kill)
        },
    }
}

/// Wire one dispatch outcome to the connection's writer: the reply frame is
/// enqueued behind whatever the connection already owes.
pub fn reply_to_connection(out: &mut OutboundNotifier, r: Result<DbReply, TraceError>)
    requires
        old(out).wf(),
    ensures
        final(out).wf(),
        final(out).enqueued() == old(out).enqueued().push(Frame::Reply(r)),
        final(out).pending() == old(out).pending().push(Frame::Reply(r)),
{
    out.enqueue(Frame::Reply(r));
}

/// Wire a completion notice from a finished execution to the originating
/// connection's writer.
pub fn notify_completion(out: &mut OutboundNotifier, name: String, success: bool)
    requires
        old(out).wf(),
    ensures
        final(out).wf(),
        final(out).enqueued() == old(out).enqueued().push(
            (Frame::Notice { name: name, success: success }),
        ),
        final(out).pending() == old(out).pending().push(
            (Frame::Notice { name: name, success: success }),
        ),
{
    out.enqueue(Frame::Notice { name, success });
}

} // verus!
