//! Event dispatch: what each inbound event makes the client do.
//!
//! A welcome re-subscribes to every desired id (the remote channel state
//! does not survive a reconnect); ping, confirm and disconnect queue
//! nothing; an update asks for its artifact to be fetched, if it carries a
//! URL. Fetching itself is the caller's I/O; the dispatcher only hands the
//! URL out.

use vstd::prelude::*;

use crate::codec::{EventV, Incoming};
use crate::decode::{decode, spec_decode, ProtocolError};
use crate::reconcile::{addition_msgs, lemma_addition_msgs_app, lemma_addition_msgs_one,
    subscribe_to, DesiredState};

verus! {

/// The frames an event makes the client queue, given the desired ids.
pub open spec fn dispatch_msgs(ev: EventV, ids: Seq<usize>) -> Seq<Seq<char>> {
    match ev {
        EventV::Welcome => addition_msgs(ids),
        _ => Seq::empty(),
    }
}

/// The artifact URL an event asks the client to fetch, if any.
pub open spec fn dispatch_fetch(ev: EventV) -> Option<Seq<char>> {
    match ev {
        EventV::Message { identifier: _, message } => message.post_url,
        _ => Option::None,
    }
}

/// Routes one decoded event: queues the frames it calls for and returns the
/// URL to fetch, if it is an update that carries one.
pub fn dispatch(event: &Incoming, desired: &DesiredState, out: &mut Vec<String>) -> (fetch: Option<
    String,
>)
    ensures
        final(out).deep_view() == old(out).deep_view() + dispatch_msgs(event@, desired.ids@),
        fetch is Some <==> dispatch_fetch(event@) is Some,
        fetch matches Some(u) ==> dispatch_fetch(event@) == Option::Some(u@),
{
    match event {
        Incoming::Welcome => {
            let ghost base = out.deep_view();
            let mut i: usize = 0;
            while i < desired.ids.len()
                invariant
                    i <= desired.ids@.len(),
                    out.deep_view() == base + addition_msgs(desired.ids@.take(i as int)),
                decreases desired.ids@.len() - i,
            {
                let id = desired.ids[i];
                proof {
                    assert(desired.ids@.take(i + 1) =~= desired.ids@.take(i as int) + seq![id]);
                    lemma_addition_msgs_app(desired.ids@.take(i as int), seq![id]);
                    lemma_addition_msgs_one(id);
                }
                subscribe_to(out, id);
                proof {
                    assert(out.deep_view() =~= base + addition_msgs(desired.ids@.take(i + 1)));
                }
                i = i + 1;
            }
            proof {
                assert(desired.ids@.take(desired.ids@.len() as int) =~= desired.ids@);
            }
            Option::None
        },
        Incoming::Ping { .. } => {
            proof {
                assert(out.deep_view() + Seq::<Seq<char>>::empty() =~= out.deep_view());
            }
            Option::None
        },
        Incoming::ConfirmSubscription { .. } => {
            proof {
                assert(out.deep_view() + Seq::<Seq<char>>::empty() =~= out.deep_view());
            }
            Option::None
        },
        Incoming::Disconnect { .. } => {
            proof {
                assert(out.deep_view() + Seq::<Seq<char>>::empty() =~= out.deep_view());
            }
            Option::None
        },
        Incoming::Message { identifier: _, message } => {
            proof {
                assert(out.deep_view() + Seq::<Seq<char>>::empty() =~= out.deep_view());
            }
            match &message.post_url {
                Option::Some(url) => Option::Some(url.clone()),
                Option::None => Option::None,
            }
        },
    }
}

/// Processes one inbound text frame end to end: decodes it, queues whatever
/// commands it calls for, and reports the artifact URL to fetch if it is an
/// update carrying one. A malformed frame queues nothing.
pub fn handle_message(text: &str, desired: &DesiredState, out: &mut Vec<String>) -> (r: Result<
    Option<String>,
    ProtocolError,
>)
    ensures
        r is Ok <==> spec_decode(text@) is Some,
        r matches Ok(fetch) ==> {
            &&& final(out).deep_view() == old(out).deep_view() + dispatch_msgs(
                spec_decode(text@)->Some_0,
                desired.ids@,
            )
            &&& (fetch is Some <==> dispatch_fetch(spec_decode(text@)->Some_0) is Some)
            &&& (fetch matches Some(u) ==> dispatch_fetch(spec_decode(text@)->Some_0)
                == Option::Some(u@))
        },
        r matches Err(e) ==> *final(out) == *old(out) && e == ProtocolError::MalformedEvent,
{
    match decode(text) {
        Result::Ok(ev) => Result::Ok(dispatch(&ev, desired, out)),
        Result::Err(e) => Result::Err(e),
    }
}

} // verus!
