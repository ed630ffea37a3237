//! The library's laws: the command codec's round trip, minimality and
//! ordering of reconciliation, and what a welcome or a URL-less update
//! does and does not make the client do.

use vstd::prelude::*;

use crate::codec::{announce_wire, encoded, escape, subscribe_wire, unsubscribe_wire, CommandV,
    EventV, UpdateV};
use crate::decode::{classify, event_fields, lemma_expect_differs, lemma_expect_prefix,
    lemma_parse_escaped, spec_decode_command};
use crate::json::{field_of, leaf_of};
use crate::dispatch::{dispatch_fetch, dispatch_msgs};
use crate::reconcile::{addition_msgs, lemma_addition_msgs_props, lemma_missing_from_props,
    lemma_removal_msgs_props, missing_from, reconcile_msgs, removal_msgs};

verus! {

/// Round trip for the subscribe shape.
proof fn lemma_round_trip_subscribe(identifier: Seq<char>)
    ensures
        spec_decode_command(encoded(CommandV::Subscribe { identifier })) == Option::Some(
            CommandV::Subscribe { identifier },
        ),
{
    let quote_brace = "\"}"@;
    let brace = "}"@;
    let pre_sub = "{\"command\":\"subscribe\",\"identifier\":\""@;
    reveal_strlit("\"}");
    reveal_strlit("}");
    reveal_strlit("{\"command\":\"subscribe\",\"identifier\":\"");
    assert(quote_brace =~= seq!['"'] + brace);
    let s = encoded(CommandV::Subscribe { identifier });
    let rem = escape(identifier) + quote_brace;
    assert(s =~= pre_sub + rem);
    lemma_expect_prefix(pre_sub, rem);
    assert(rem =~= escape(identifier) + seq!['"'] + brace);
    lemma_parse_escaped(identifier, brace);
    assert(brace =~= brace + Seq::<char>::empty());
    lemma_expect_prefix(brace, Seq::<char>::empty());
}

/// Round trip for the unsubscribe shape.
proof fn lemma_round_trip_unsubscribe(identifier: Seq<char>)
    ensures
        spec_decode_command(encoded(CommandV::Unsubscribe { identifier })) == Option::Some(
            CommandV::Unsubscribe { identifier },
        ),
{
    let quote_brace = "\"}"@;
    let brace = "}"@;
    let pre_sub = "{\"command\":\"subscribe\",\"identifier\":\""@;
    let pre_un = "{\"command\":\"unsubscribe\",\"identifier\":\""@;
    reveal_strlit("\"}");
    reveal_strlit("}");
    reveal_strlit("{\"command\":\"subscribe\",\"identifier\":\"");
    reveal_strlit("{\"command\":\"unsubscribe\",\"identifier\":\"");
    assert(quote_brace =~= seq!['"'] + brace);
    let s = encoded(CommandV::Unsubscribe { identifier });
    let rem = escape(identifier) + quote_brace;
    assert(s =~= pre_un + rem);
    assert(s[12] == pre_un[12]);
    assert(pre_un[12] == 'u');
    assert(pre_sub[12] == 's');
    lemma_expect_differs(s, pre_sub, 12);
    lemma_expect_prefix(pre_un, rem);
    assert(rem =~= escape(identifier) + seq!['"'] + brace);
    lemma_parse_escaped(identifier, brace);
    assert(brace =~= brace + Seq::<char>::empty());
    lemma_expect_prefix(brace, Seq::<char>::empty());
}

/// Round trip for the announce shape.
proof fn lemma_round_trip_announce(data: Seq<char>, identifier: Seq<char>)
    ensures
        spec_decode_command(encoded(CommandV::Announce { data, identifier })) == Option::Some(
            CommandV::Announce { data, identifier },
        ),
{
    let quote_brace = "\"}"@;
    let brace = "}"@;
    let pre_sub = "{\"command\":\"subscribe\",\"identifier\":\""@;
    let pre_un = "{\"command\":\"unsubscribe\",\"identifier\":\""@;
    let pre_ann = "{\"command\":\"message\",\"data\":\""@;
    let mid = "\",\"identifier\":\""@;
    let mid_tail = ",\"identifier\":\""@;
    reveal_strlit("\"}");
    reveal_strlit("}");
    reveal_strlit("{\"command\":\"subscribe\",\"identifier\":\"");
    reveal_strlit("{\"command\":\"unsubscribe\",\"identifier\":\"");
    reveal_strlit("{\"command\":\"message\",\"data\":\"");
    reveal_strlit("\",\"identifier\":\"");
    reveal_strlit(",\"identifier\":\"");
    assert(quote_brace =~= seq!['"'] + brace);
    assert(mid =~= seq!['"'] + mid_tail);
    let s = encoded(CommandV::Announce { data, identifier });
    assert(s[12] == pre_ann[12]);
    assert(pre_ann[12] == 'm');
    assert(pre_sub[12] == 's');
    assert(pre_un[12] == 'u');
    lemma_expect_differs(s, pre_sub, 12);
    lemma_expect_differs(s, pre_un, 12);
    let rem = escape(data) + mid + escape(identifier) + quote_brace;
    assert(s =~= pre_ann + rem);
    lemma_expect_prefix(pre_ann, rem);
    let suf1 = mid_tail + escape(identifier) + quote_brace;
    assert(rem =~= escape(data) + seq!['"'] + suf1);
    lemma_parse_escaped(data, suf1);
    let rem2 = escape(identifier) + quote_brace;
    assert(suf1 =~= mid_tail + rem2);
    lemma_expect_prefix(mid_tail, rem2);
    assert(rem2 =~= escape(identifier) + seq!['"'] + brace);
    lemma_parse_escaped(identifier, brace);
    assert(brace =~= brace + Seq::<char>::empty());
    lemma_expect_prefix(brace, Seq::<char>::empty());
}

/// Round trip for the check shape.
#[verifier::rlimit(100)]
proof fn lemma_round_trip_check(data: Seq<char>, identifier: Seq<char>, command: Seq<char>)
    ensures
        spec_decode_command(encoded(CommandV::Check { data, identifier, command }))
            == Option::Some(CommandV::Check { data, identifier, command }),
{
    let quote_brace = "\"}"@;
    let brace = "}"@;
    let pre_sub = "{\"command\":\"subscribe\",\"identifier\":\""@;
    let pre_un = "{\"command\":\"unsubscribe\",\"identifier\":\""@;
    let pre_ann = "{\"command\":\"message\",\"data\":\""@;
    let pre_chk = "{\"data\":\""@;
    let mid = "\",\"identifier\":\""@;
    let mid_tail = ",\"identifier\":\""@;
    let mid2 = "\",\"command\":\""@;
    let mid2_tail = ",\"command\":\""@;
    reveal_strlit("\"}");
    reveal_strlit("}");
    reveal_strlit("{\"command\":\"subscribe\",\"identifier\":\"");
    reveal_strlit("{\"command\":\"unsubscribe\",\"identifier\":\"");
    reveal_strlit("{\"command\":\"message\",\"data\":\"");
    reveal_strlit("{\"data\":\"");
    reveal_strlit("\",\"identifier\":\"");
    reveal_strlit(",\"identifier\":\"");
    reveal_strlit("\",\"command\":\"");
    reveal_strlit(",\"command\":\"");
    assert(quote_brace =~= seq!['"'] + brace);
    assert(mid =~= seq!['"'] + mid_tail);
    assert(mid2 =~= seq!['"'] + mid2_tail);
    let s = encoded(CommandV::Check { data, identifier, command });
    assert(s[2] == pre_chk[2]);
    assert(pre_chk[2] == 'd');
    assert(pre_sub[2] == 'c');
    assert(pre_un[2] == 'c');
    assert(pre_ann[2] == 'c');
    lemma_expect_differs(s, pre_sub, 2);
    lemma_expect_differs(s, pre_un, 2);
    lemma_expect_differs(s, pre_ann, 2);
    let rem = escape(data) + mid + escape(identifier) + mid2 + escape(command) + quote_brace;
    assert(s =~= pre_chk + rem);
    lemma_expect_prefix(pre_chk, rem);
    let suf1 = mid_tail + escape(identifier) + mid2 + escape(command) + quote_brace;
    assert(rem =~= escape(data) + seq!['"'] + suf1);
    lemma_parse_escaped(data, suf1);
    let rem2 = escape(identifier) + mid2 + escape(command) + quote_brace;
    assert(suf1 =~= mid_tail + rem2);
    lemma_expect_prefix(mid_tail, rem2);
    let suf2 = mid2_tail + escape(command) + quote_brace;
    assert(rem2 =~= escape(identifier) + seq!['"'] + suf2);
    lemma_parse_escaped(identifier, suf2);
    let rem3 = escape(command) + quote_brace;
    assert(suf2 =~= mid2_tail + rem3);
    lemma_expect_prefix(mid2_tail, rem3);
    assert(rem3 =~= escape(command) + seq!['"'] + brace);
    lemma_parse_escaped(command, brace);
    assert(brace =~= brace + Seq::<char>::empty());
    lemma_expect_prefix(brace, Seq::<char>::empty());
}

/// Round trip: reading an encoded command back recovers every logical field
/// of the command, for each of the four variants and for all field values.
pub proof fn lemma_command_round_trip(c: CommandV)
    ensures
        spec_decode_command(encoded(c)) == Option::Some(c),
{
    match c {
        CommandV::Subscribe { identifier } => lemma_round_trip_subscribe(identifier),
        CommandV::Unsubscribe { identifier } => lemma_round_trip_unsubscribe(identifier),
        CommandV::Announce { data, identifier } => lemma_round_trip_announce(data, identifier),
        CommandV::Check { data, identifier, command } => lemma_round_trip_check(
            data,
            identifier,
            command,
        ),
    }
}

/// Round trip through the envelope classifier: the canonical field list of
/// any incoming event classifies back to exactly that event, whatever its
/// field values.
#[verifier::rlimit(60)]
pub proof fn lemma_event_round_trip(ev: EventV)
    ensures
        classify(event_fields(ev)) == Option::Some(ev),
{
    reveal_strlit("type");
    reveal_strlit("message");
    reveal_strlit("identifier");
    reveal_strlit("reason");
    reveal_strlit("reconnect");
    reveal_strlit("id");
    reveal_strlit("post_url");
    reveal_strlit("set_by");
    reveal_strlit("welcome");
    reveal_strlit("ping");
    reveal_strlit("confirm_subscription");
    reveal_strlit("disconnect");
    let fields = event_fields(ev);
    match ev {
        EventV::Welcome => {
            assert(field_of(fields, "type"@) == Option::Some(
                crate::json::FieldV::Leaf(crate::json::LeafV::Str("welcome"@)),
            ));
            assert(classify(fields) == Option::Some(EventV::Welcome));
            assert(ev == EventV::Welcome);
            assert(classify(event_fields(ev)) == Option::Some(ev));
        },
        EventV::Ping { message } => {
            assert(fields.skip(1) =~= seq![fields[1]]);
            assert(fields.skip(1).skip(1) =~= Seq::<(Seq<char>, crate::json::FieldV)>::empty());
            assert("type"@ != "message"@) by {
                assert("type"@.len() != "message"@.len());
            }
            assert(field_of(fields, "message"@) == field_of(fields.skip(1), "message"@));
            assert("ping"@ != "welcome"@) by {
                assert("ping"@.len() != "welcome"@.len());
            }
            assert(classify(fields) == Option::Some(EventV::Ping { message }));
            assert(ev == EventV::Ping { message });
            assert(classify(event_fields(ev)) == Option::Some(ev));
        },
        EventV::ConfirmSubscription { identifier } => {
            assert(fields.skip(1) =~= seq![fields[1]]);
            assert("type"@ != "identifier"@) by {
                assert("type"@.len() != "identifier"@.len());
            }
            assert(field_of(fields, "identifier"@) == field_of(fields.skip(1), "identifier"@));
            assert("confirm_subscription"@ != "welcome"@) by {
                assert("confirm_subscription"@.len() != "welcome"@.len());
            }
            assert("confirm_subscription"@ != "ping"@) by {
                assert("confirm_subscription"@.len() != "ping"@.len());
            }
            assert(classify(fields) == Option::Some(EventV::ConfirmSubscription { identifier }));
            assert(ev == EventV::ConfirmSubscription { identifier });
            assert(classify(event_fields(ev)) == Option::Some(ev));
        },
        EventV::Disconnect { reason, reconnect } => {
            assert(fields.skip(1) =~= seq![fields[1], fields[2]]);
            assert(fields.skip(1).skip(1) =~= seq![fields[2]]);
            assert("type"@ != "reason"@) by {
                assert("type"@.len() != "reason"@.len());
            }
            assert("type"@ != "reconnect"@) by {
                assert("type"@.len() != "reconnect"@.len());
            }
            assert("reason"@ != "reconnect"@) by {
                assert("reason"@.len() != "reconnect"@.len());
            }
            assert(field_of(fields, "reason"@) == field_of(fields.skip(1), "reason"@));
            assert(field_of(fields, "reconnect"@) == field_of(fields.skip(1), "reconnect"@));
            assert(field_of(fields.skip(1), "reconnect"@) == field_of(fields.skip(1).skip(1),
                "reconnect"@));
            assert("disconnect"@ != "welcome"@) by {
                assert("disconnect"@.len() != "welcome"@.len());
            }
            assert("disconnect"@ != "ping"@) by {
                assert("disconnect"@.len() != "ping"@.len());
            }
            assert("disconnect"@ != "confirm_subscription"@) by {
                assert("disconnect"@.len() != "confirm_subscription"@.len());
            }
            assert(classify(fields) == Option::Some(EventV::Disconnect { reason, reconnect }));
            assert(ev == EventV::Disconnect { reason, reconnect });
            assert(classify(event_fields(ev)) == Option::Some(ev));
        },
        EventV::Message { identifier, message } => {
            assert(fields.skip(1) =~= seq![fields[1]]);
            assert("identifier"@ != "type"@) by {
                assert("identifier"@.len() != "type"@.len());
            }
            assert("message"@ != "type"@) by {
                assert("message"@.len() != "type"@.len());
            }
            assert("identifier"@ != "message"@) by {
                assert("identifier"@.len() != "message"@.len());
            }
            assert(fields.skip(1).skip(1) =~= Seq::<(Seq<char>, crate::json::FieldV)>::empty());
            assert(field_of(fields, "type"@) == field_of(fields.skip(1), "type"@));
            assert(field_of(fields.skip(1), "type"@) == field_of(fields.skip(1).skip(1), "type"@));
            assert(field_of(Seq::<(Seq<char>, crate::json::FieldV)>::empty(), "type"@) is None);
            assert(field_of(fields, "message"@) == field_of(fields.skip(1), "message"@));
            let inner = seq![
                ("id"@, crate::json::LeafV::Int(message.id as u64)),
                ("post_url"@, crate::decode::opt_leaf(message.post_url)),
                ("set_by"@, crate::decode::opt_leaf(message.set_by)),
            ];
            assert(inner.skip(1) =~= seq![inner[1], inner[2]]);
            assert(inner.skip(1).skip(1) =~= seq![inner[2]]);
            assert("id"@ != "post_url"@) by {
                assert("id"@.len() != "post_url"@.len());
            }
            assert("id"@ != "set_by"@) by {
                assert("id"@.len() != "set_by"@.len());
            }
            assert("post_url"@ != "set_by"@) by {
                assert("post_url"@.len() != "set_by"@.len());
            }
            assert(leaf_of(inner, "id"@) == Option::Some(inner[0].1));
            assert(leaf_of(inner, "post_url"@) == leaf_of(inner.skip(1), "post_url"@));
            assert(leaf_of(inner, "set_by"@) == leaf_of(inner.skip(1), "set_by"@));
            assert(leaf_of(inner.skip(1), "set_by"@) == leaf_of(inner.skip(1).skip(1), "set_by"@));
            assert(message.id as u64 <= usize::MAX);
            assert((message.id as u64) as usize == message.id);
            assert(classify(fields) == Option::Some(EventV::Message { identifier, message }));
            assert(ev == EventV::Message { identifier, message });
            assert(classify(event_fields(ev)) == Option::Some(ev));
        },
    }
}

/// Reconciliation minimality: over duplicate-free id sequences, a
/// reconciliation emits exactly one unsubscribe per id in `old - new` and
/// exactly one subscribe/announce pair per id in `new - old` -- and nothing
/// at all when the two sets are equal.
pub proof fn lemma_reconcile_minimal(old_ids: Seq<usize>, new_ids: Seq<usize>)
    requires
        old_ids.no_duplicates(),
        new_ids.no_duplicates(),
    ensures
        removal_msgs(missing_from(old_ids, new_ids)).len() == old_ids.to_set().difference(
            new_ids.to_set(),
        ).len(),
        addition_msgs(missing_from(new_ids, old_ids)).len() == 2 * new_ids.to_set().difference(
            old_ids.to_set(),
        ).len(),
        reconcile_msgs(old_ids, new_ids).len() == old_ids.to_set().difference(
            new_ids.to_set(),
        ).len() + 2 * new_ids.to_set().difference(old_ids.to_set()).len(),
        old_ids.to_set() == new_ids.to_set() ==> reconcile_msgs(old_ids, new_ids)
            == Seq::<Seq<char>>::empty(),
{
    lemma_missing_from_props(old_ids, new_ids);
    lemma_missing_from_props(new_ids, old_ids);
    lemma_removal_msgs_props(missing_from(old_ids, new_ids));
    lemma_addition_msgs_props(missing_from(new_ids, old_ids));
    if old_ids.to_set() == new_ids.to_set() {
        assert(old_ids.to_set().difference(new_ids.to_set()) =~= Set::<usize>::empty());
        assert(new_ids.to_set().difference(old_ids.to_set()) =~= Set::<usize>::empty());
        assert(reconcile_msgs(old_ids, new_ids) =~= Seq::<Seq<char>>::empty());
    }
}

/// Reconciliation ordering: within one reconciliation, every unsubscribe
/// frame precedes every subscribe frame, and each subscribe is directly
/// followed by its announce.
pub proof fn lemma_reconcile_ordering(old_ids: Seq<usize>, new_ids: Seq<usize>)
    ensures
        reconcile_msgs(old_ids, new_ids).len() == missing_from(old_ids, new_ids).len() + 2
            * missing_from(new_ids, old_ids).len(),
        forall|k: int|
            0 <= k < missing_from(old_ids, new_ids).len() ==> reconcile_msgs(old_ids, new_ids)[k]
                == unsubscribe_wire(missing_from(old_ids, new_ids)[k]),
        forall|k: int|
            0 <= k < missing_from(new_ids, old_ids).len() ==> reconcile_msgs(old_ids, new_ids)[
                missing_from(old_ids, new_ids).len() + 2 * k
            ] == subscribe_wire(missing_from(new_ids, old_ids)[k]) && reconcile_msgs(
                old_ids,
                new_ids,
            )[missing_from(old_ids, new_ids).len() + 2 * k + 1] == announce_wire(
                missing_from(new_ids, old_ids)[k],
            ),
{
    let rm = missing_from(old_ids, new_ids);
    let ad = missing_from(new_ids, old_ids);
    let msgs = reconcile_msgs(old_ids, new_ids);
    lemma_removal_msgs_props(rm);
    lemma_addition_msgs_props(ad);
    assert(msgs == removal_msgs(rm) + addition_msgs(ad));
    assert forall|k: int| 0 <= k < rm.len() implies msgs[k] == unsubscribe_wire(rm[k]) by {
        assert(msgs[k] == removal_msgs(rm)[k]);
    }
    assert forall|k: int| 0 <= k < ad.len() implies msgs[rm.len() + 2 * k] == subscribe_wire(
        ad[k],
    ) && msgs[rm.len() + 2 * k + 1] == announce_wire(ad[k]) by {
        assert(msgs[rm.len() + 2 * k] == addition_msgs(ad)[2 * k]);
        assert(msgs[rm.len() + 2 * k + 1] == addition_msgs(ad)[2 * k + 1]);
    }
}

/// Welcome idempotence: the frames a welcome queues are a function of the
/// desired ids alone -- always the full subscribe/announce sequence -- so
/// two welcomes in a row with an unchanged desired set queue the identical
/// sequence both times; no deduplication state persists across welcomes.
pub proof fn lemma_welcome_idempotent(ids: Seq<usize>)
    ensures
        dispatch_msgs(EventV::Welcome, ids) == addition_msgs(ids),
{
}

/// An update without a URL is inert: it queues no frame and asks for no
/// fetch, so nothing is downloaded and nothing is applied.
pub proof fn lemma_update_without_url_inert(
    identifier: Seq<char>,
    id: usize,
    set_by: Option<Seq<char>>,
    ids: Seq<usize>,
)
    ensures
        dispatch_msgs(
            EventV::Message {
                identifier,
                message: UpdateV { id, post_url: Option::None, set_by },
            },
            ids,
        ) == Seq::<Seq<char>>::empty(),
        dispatch_fetch(
            EventV::Message {
                identifier,
                message: UpdateV { id, post_url: Option::None, set_by },
            },
        ) is None,
{
}

} // verus!
