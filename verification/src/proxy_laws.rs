//! Laws of the proxy: over a session, each side gets what the other sends.
use crate::error::Error;
use crate::proxy::{proxy_next, ProxyAction, ProxyEvent};
use vstd::prelude::*;

verus! {

/// The action that is pending after a sequence of events: at first, to wait
/// for bytes.
pub open spec fn pending(events: Seq<ProxyEvent>) -> ProxyAction {
    if events.len() == 0 {
        ProxyAction::Listen
    } else {
        proxy_next(events.last())
    }
}

/// Whether each event answers the action that is pending when it comes.
pub open spec fn possible_session(events: Seq<ProxyEvent>) -> bool
    decreases events.len(),
{
    events.len() == 0 || {
        &&& possible_session(events.drop_last())
        &&& match pending(events.drop_last()) {
            ProxyAction::Listen => !(events.last() is Written),
            ProxyAction::ToSerial(_) | ProxyAction::ToClient(_) => events.last() is Written,
            ProxyAction::Finish(_) => false,
        }
    }
}

/// The bytes that came from the client, joined.
pub open spec fn from_client(events: Seq<ProxyEvent>) -> Seq<u8>
    decreases events.len(),
{
    if events.len() == 0 {
        seq![]
    } else {
        from_client(events.drop_last()) + (match events.last() {
            ProxyEvent::FromClient(Ok(bytes)) => bytes@,
            _ => seq![],
        })
    }
}

/// The bytes that came from the serial channel, joined.
pub open spec fn from_serial(events: Seq<ProxyEvent>) -> Seq<u8>
    decreases events.len(),
{
    if events.len() == 0 {
        seq![]
    } else {
        from_serial(events.drop_last()) + (match events.last() {
            ProxyEvent::FromSerial(Ok(bytes)) => bytes@,
            _ => seq![],
        })
    }
}

/// The bytes that an action hands to the serial channel.
pub open spec fn bytes_to_serial(action: ProxyAction) -> Seq<u8> {
    match action {
        ProxyAction::ToSerial(bytes) => bytes@,
        _ => seq![],
    }
}

/// The bytes that an action hands to the client.
pub open spec fn bytes_to_client(action: ProxyAction) -> Seq<u8> {
    match action {
        ProxyAction::ToClient(bytes) => bytes@,
        _ => seq![],
    }
}

/// The bytes handed to the serial channel, joined, the pending action included.
pub open spec fn to_serial(events: Seq<ProxyEvent>) -> Seq<u8>
    decreases events.len(),
{
    if events.len() == 0 {
        seq![]
    } else {
        to_serial(events.drop_last()) + bytes_to_serial(pending(events))
    }
}

/// The bytes handed to the client, joined, the pending action included.
pub open spec fn to_client(events: Seq<ProxyEvent>) -> Seq<u8>
    decreases events.len(),
{
    if events.len() == 0 {
        seq![]
    } else {
        to_client(events.drop_last()) + bytes_to_client(pending(events))
    }
}

/// Each side is handed what came from the other, byte for byte and in order.
pub proof fn each_side_is_handed_what_the_other_sends(events: Seq<ProxyEvent>)
    ensures
        to_serial(events) == from_client(events),
        to_client(events) == from_serial(events),
    decreases events.len(),
{
    if events.len() > 0 {
        each_side_is_handed_what_the_other_sends(events.drop_last());
        if let ProxyEvent::FromClient(Ok(bytes)) = events.last() {
            if bytes@.len() == 0 {
                assert(bytes@ =~= seq![]);
            }
        }
    }
}

/// The bytes that were written to the serial channel, joined.
pub open spec fn written_to_serial(events: Seq<ProxyEvent>) -> Seq<u8>
    decreases events.len(),
{
    if events.len() == 0 {
        seq![]
    } else {
        written_to_serial(events.drop_last()) + (match events.last() {
            ProxyEvent::Written(Ok(_)) => bytes_to_serial(pending(events.drop_last())),
            _ => seq![],
        })
    }
}

/// The bytes that were written to the client, joined.
pub open spec fn written_to_client(events: Seq<ProxyEvent>) -> Seq<u8>
    decreases events.len(),
{
    if events.len() == 0 {
        seq![]
    } else {
        written_to_client(events.drop_last()) + (match events.last() {
            ProxyEvent::Written(Ok(_)) => bytes_to_client(pending(events.drop_last())),
            _ => seq![],
        })
    }
}

/// Unless a write failed, all that came from either side has been written to
/// the other, but for the bytes that are being written; so when the proxy
/// waits for bytes, and when the client has hung up, nothing is missing.
pub proof fn all_that_came_is_written(events: Seq<ProxyEvent>)
    requires
        possible_session(events),
        events.len() > 0 ==> !(events.last() matches ProxyEvent::Written(Err(_))),
    ensures
        from_client(events) == written_to_serial(events) + bytes_to_serial(pending(events)),
        from_serial(events) == written_to_client(events) + bytes_to_client(pending(events)),
        pending(events) is Listen || pending(events) is Finish ==> {
            &&& from_client(events) == written_to_serial(events)
            &&& from_serial(events) == written_to_client(events)
        },
    decreases events.len(),
{
    if events.len() > 0 {
        let earlier = events.drop_last();
        all_that_came_is_written(earlier);
        if let ProxyEvent::FromClient(Ok(bytes)) = events.last() {
            if bytes@.len() == 0 {
                assert(bytes@ =~= seq![]);
            }
        }
        assert(from_client(events) =~= written_to_serial(events) + bytes_to_serial(
            pending(events),
        ));
        assert(from_serial(events) =~= written_to_client(events) + bytes_to_client(
            pending(events),
        ));
    }
    assert(written_to_serial(events) + Seq::<u8>::empty() =~= written_to_serial(events));
    assert(written_to_client(events) + Seq::<u8>::empty() =~= written_to_client(events));
}

/// Whether an event says that something failed, or that the client hung up.
pub open spec fn ends_session(event: ProxyEvent) -> bool {
    match event {
        ProxyEvent::FromClient(Ok(bytes)) => bytes@.len() == 0,
        ProxyEvent::FromSerial(Ok(_)) | ProxyEvent::Written(Ok(_)) => false,
        _ => true,
    }
}

/// A session ends exactly when the client hangs up or something fails, with
/// success in the first case and with the error in the others.
pub proof fn session_ends_with_the_client_or_a_failure(events: Seq<ProxyEvent>)
    requires
        events.len() > 0,
    ensures
        pending(events) is Finish <==> ends_session(events.last()),
        events.last() is FromClient && events.last()->FromClient_0 is Ok && ends_session(
            events.last(),
        ) ==> pending(events)->Finish_0 is Ok,
        events.last() matches ProxyEvent::FromClient(Err(error)) ==> pending(events)->Finish_0
            == Err::<(), Error>(error),
        events.last() matches ProxyEvent::FromSerial(Err(error)) ==> pending(events)->Finish_0
            == Err::<(), Error>(error),
        events.last() matches ProxyEvent::Written(Err(error)) ==> pending(events)->Finish_0
            == Err::<(), Error>(error),
{
}

} // verus!
