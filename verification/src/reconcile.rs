//! Subscription reconciliation: the minimal commands that move the remote
//! side from one desired set of link ids to another.
//!
//! Commands are not sent here; they are appended to an outbound queue of
//! wire frames that the caller drains onto the socket, in order.

use vstd::prelude::*;

use crate::codec::{announce_message, announce_wire, check_message, check_wire, subscribe_message,
    subscribe_wire, unsubscribe_message, unsubscribe_wire};

verus! {

/// The user-declared desired subscription state: which link ids should be
/// active, and whether the program starts on boot. Each id appears at most
/// once, as in a set.
pub struct DesiredState {
    pub ids: Vec<usize>,
    pub run_on_boot: bool,
}

impl DesiredState {
    /// Well-formed: the ids form a set (no id twice).
    pub open spec fn wf(&self) -> bool {
        self.ids@.no_duplicates()
    }

    /// An empty desired state: no links, no start on boot.
    pub fn new() -> (r: DesiredState)
        ensures
            r.wf(),
            r.ids@ == Seq::<usize>::empty(),
            !r.run_on_boot,
    {
        DesiredState { ids: Vec::new(), run_on_boot: false }
    }

    /// Adds a link id; no change if it is already present.
    pub fn add_id(&mut self, id: usize)
        ensures
            old(self).wf() ==> final(self).wf(),
            final(self).run_on_boot == old(self).run_on_boot,
            old(self).ids@.contains(id) ==> final(self).ids@ == old(self).ids@,
            !old(self).ids@.contains(id) ==> final(self).ids@ == old(self).ids@.push(id),
    {
        if !contains_id(&self.ids, id) {
            self.ids.push(id);
        }
    }
}

/// Whether `ids` holds `id`.
pub fn contains_id(ids: &Vec<usize>, id: usize) -> (r: bool)
    ensures
        r == ids@.contains(id),
{
    let mut i: usize = 0;
    while i < ids.len()
        invariant
            i <= ids@.len(),
            forall|k: int| 0 <= k < i ==> ids@[k] != id,
        decreases ids@.len() - i,
    {
        if ids[i] == id {
            return true;
        }
        i = i + 1;
    }
    false
}

/// The elements of `from` that are not in `other`, in `from`'s order.
pub open spec fn missing_from(from: Seq<usize>, other: Seq<usize>) -> Seq<usize>
    decreases from.len(),
{
    if from.len() == 0 {
        Seq::empty()
    } else if !other.contains(from[0]) {
        seq![from[0]] + missing_from(from.skip(1), other)
    } else {
        missing_from(from.skip(1), other)
    }
}

/// The pair of frames that activates one link: subscribe, then announce.
/// The announce declares client identity and must follow the subscribe.
pub open spec fn sub_pair(id: usize) -> Seq<Seq<char>> {
    seq![subscribe_wire(id), announce_wire(id)]
}

/// The frames that drop each id in `removed`, in order.
pub open spec fn removal_msgs(removed: Seq<usize>) -> Seq<Seq<char>>
    decreases removed.len(),
{
    if removed.len() == 0 {
        Seq::empty()
    } else {
        seq![unsubscribe_wire(removed[0])] + removal_msgs(removed.skip(1))
    }
}

/// The frames that activate each id in `added`, in order: a subscribe and
/// announce pair per id.
pub open spec fn addition_msgs(added: Seq<usize>) -> Seq<Seq<char>>
    decreases added.len(),
{
    if added.len() == 0 {
        Seq::empty()
    } else {
        sub_pair(added[0]) + addition_msgs(added.skip(1))
    }
}

/// Everything a reconciliation emits: all removals first, then all
/// additions, so the remote side's transient subscription count stays
/// bounded.
pub open spec fn reconcile_msgs(old_ids: Seq<usize>, new_ids: Seq<usize>) -> Seq<Seq<char>> {
    removal_msgs(missing_from(old_ids, new_ids)) + addition_msgs(missing_from(new_ids, old_ids))
}

/// Queues the subscribe and announce frames for link `id`.
pub fn subscribe_to(out: &mut Vec<String>, id: usize)
    ensures
        final(out).deep_view() == old(out).deep_view() + sub_pair(id),
{
    let msg = subscribe_message(id);
    out.push(msg);
    let msg = announce_message(id);
    out.push(msg);
    proof {
        assert(out.deep_view() =~= old(out).deep_view() + sub_pair(id));
    }
}

/// Queues the unsubscribe frame for link `id`.
pub fn unsubscribe_from(out: &mut Vec<String>, id: usize)
    ensures
        final(out).deep_view() == old(out).deep_view() + seq![unsubscribe_wire(id)],
{
    let msg = unsubscribe_message(id);
    out.push(msg);
    proof {
        assert(out.deep_view() =~= old(out).deep_view() + seq![unsubscribe_wire(id)]);
    }
}

/// Queues the check frame for link `id`.
pub fn check(out: &mut Vec<String>, id: usize)
    ensures
        final(out).deep_view() == old(out).deep_view() + seq![check_wire(id)],
{
    let msg = check_message(id);
    out.push(msg);
    proof {
        assert(out.deep_view() =~= old(out).deep_view() + seq![check_wire(id)]);
    }
}

/// `missing_from` distributes over concatenation of the searched sequence.
pub proof fn lemma_missing_from_app(a: Seq<usize>, b: Seq<usize>, other: Seq<usize>)
    ensures
        missing_from(a + b, other) == missing_from(a, other) + missing_from(b, other),
    decreases a.len(),
{
    if a.len() == 0 {
        assert(a + b =~= b);
        assert(missing_from(a, other) + missing_from(b, other) =~= missing_from(b, other));
    } else {
        assert((a + b).len() > 0);
        assert((a + b)[0] == a[0]);
        assert((a + b).skip(1) =~= a.skip(1) + b);
        lemma_missing_from_app(a.skip(1), b, other);
        if !other.contains(a[0]) {
            assert(seq![a[0]] + (missing_from(a.skip(1), other) + missing_from(b, other)) =~= (
            seq![a[0]] + missing_from(a.skip(1), other)) + missing_from(b, other));
        }
    }
}

/// `removal_msgs` distributes over concatenation.
pub proof fn lemma_removal_msgs_app(a: Seq<usize>, b: Seq<usize>)
    ensures
        removal_msgs(a + b) == removal_msgs(a) + removal_msgs(b),
    decreases a.len(),
{
    if a.len() == 0 {
        assert(a + b =~= b);
        assert(removal_msgs(a) + removal_msgs(b) =~= removal_msgs(b));
    } else {
        assert((a + b).len() > 0);
        assert((a + b)[0] == a[0]);
        assert((a + b).skip(1) =~= a.skip(1) + b);
        lemma_removal_msgs_app(a.skip(1), b);
        assert(seq![unsubscribe_wire(a[0])] + (removal_msgs(a.skip(1)) + removal_msgs(b)) =~= (
        seq![unsubscribe_wire(a[0])] + removal_msgs(a.skip(1))) + removal_msgs(b));
    }
}

/// `addition_msgs` distributes over concatenation.
pub proof fn lemma_addition_msgs_app(a: Seq<usize>, b: Seq<usize>)
    ensures
        addition_msgs(a + b) == addition_msgs(a) + addition_msgs(b),
    decreases a.len(),
{
    if a.len() == 0 {
        assert(a + b =~= b);
        assert(addition_msgs(a) + addition_msgs(b) =~= addition_msgs(b));
    } else {
        assert((a + b).len() > 0);
        assert((a + b)[0] == a[0]);
        assert((a + b).skip(1) =~= a.skip(1) + b);
        lemma_addition_msgs_app(a.skip(1), b);
        assert(sub_pair(a[0]) + (addition_msgs(a.skip(1)) + addition_msgs(b)) =~= (sub_pair(a[0])
            + addition_msgs(a.skip(1))) + addition_msgs(b));
    }
}

/// `missing_from` of a single id.
proof fn lemma_missing_from_one(id: usize, other: Seq<usize>)
    ensures
        !other.contains(id) ==> missing_from(seq![id], other) == seq![id],
        other.contains(id) ==> missing_from(seq![id], other) == Seq::<usize>::empty(),
{
    let s = seq![id];
    assert(s.skip(1) =~= Seq::<usize>::empty());
    assert(missing_from(Seq::<usize>::empty(), other) == Seq::<usize>::empty());
    if !other.contains(id) {
        assert(missing_from(s, other) == seq![id] + missing_from(Seq::empty(), other));
        assert(seq![id] + Seq::<usize>::empty() =~= seq![id]);
    } else {
        assert(missing_from(s, other) == missing_from(s.skip(1), other));
    }
}

/// `removal_msgs` of a single id.
proof fn lemma_removal_msgs_one(id: usize)
    ensures
        removal_msgs(seq![id]) == seq![unsubscribe_wire(id)],
{
    let s = seq![id];
    assert(s.skip(1) =~= Seq::<usize>::empty());
    assert(removal_msgs(Seq::<usize>::empty()) == Seq::<Seq<char>>::empty());
    assert(removal_msgs(s) == seq![unsubscribe_wire(id)] + removal_msgs(s.skip(1)));
    assert(seq![unsubscribe_wire(id)] + Seq::<Seq<char>>::empty() =~= seq![unsubscribe_wire(id)]);
}

/// `addition_msgs` of a single id.
pub proof fn lemma_addition_msgs_one(id: usize)
    ensures
        addition_msgs(seq![id]) == sub_pair(id),
{
    let s = seq![id];
    assert(s.skip(1) =~= Seq::<usize>::empty());
    assert(addition_msgs(Seq::<usize>::empty()) == Seq::<Seq<char>>::empty());
    assert(addition_msgs(s) == sub_pair(id) + addition_msgs(s.skip(1)));
    assert(sub_pair(id) + Seq::<Seq<char>>::empty() =~= sub_pair(id));
}

/// Removal frames line up one to one with the removed ids, in order.
pub proof fn lemma_removal_msgs_props(removed: Seq<usize>)
    ensures
        removal_msgs(removed).len() == removed.len(),
        forall|k: int|
            0 <= k < removed.len() ==> removal_msgs(removed)[k] == unsubscribe_wire(removed[k]),
    decreases removed.len(),
{
    if removed.len() > 0 {
        lemma_removal_msgs_props(removed.skip(1));
        let m = removal_msgs(removed);
        let rest = removal_msgs(removed.skip(1));
        assert(m == seq![unsubscribe_wire(removed[0])] + rest);
        assert forall|k: int| 0 <= k < removed.len() implies m[k] == unsubscribe_wire(
            removed[k],
        ) by {
            if k > 0 {
                assert(m[k] == rest[k - 1]);
                assert(removed.skip(1)[k - 1] == removed[k]);
            }
        }
    }
}

/// Addition frames come in subscribe/announce pairs, one pair per added id,
/// in order, the subscribe directly before its announce.
pub proof fn lemma_addition_msgs_props(added: Seq<usize>)
    ensures
        addition_msgs(added).len() == 2 * added.len(),
        forall|k: int|
            0 <= k < added.len() ==> addition_msgs(added)[2 * k] == subscribe_wire(added[k])
                && addition_msgs(added)[2 * k + 1] == announce_wire(added[k]),
    decreases added.len(),
{
    if added.len() > 0 {
        lemma_addition_msgs_props(added.skip(1));
        let m = addition_msgs(added);
        let rest = addition_msgs(added.skip(1));
        assert(m == sub_pair(added[0]) + rest);
        assert forall|k: int| 0 <= k < added.len() implies m[2 * k] == subscribe_wire(added[k])
            && m[2 * k + 1] == announce_wire(added[k]) by {
            if k == 0 {
                assert(m[0] == sub_pair(added[0])[0]);
                assert(m[1] == sub_pair(added[0])[1]);
            } else {
                assert(m[2 * k] == rest[2 * (k - 1)]);
                assert(m[2 * k + 1] == rest[2 * (k - 1) + 1]);
                assert(added.skip(1)[k - 1] == added[k]);
            }
        }
    }
}

/// The removed-ids sequence is itself a set, and is exactly the set
/// difference of the two id sets.
pub proof fn lemma_missing_from_props(from: Seq<usize>, other: Seq<usize>)
    requires
        from.no_duplicates(),
    ensures
        missing_from(from, other).no_duplicates(),
        forall|x: usize|
            #[trigger] missing_from(from, other).contains(x) <==> (from.contains(x)
                && !other.contains(x)),
        missing_from(from, other).len() == from.to_set().difference(other.to_set()).len(),
    decreases from.len(),
{
    broadcast use vstd::seq_lib::group_seq_properties;

    let m = missing_from(from, other);
    if from.len() == 0 {
        assert(forall|x: usize| !m.contains(x));
    } else {
        let rest = from.skip(1);
        assert(rest.no_duplicates());
        lemma_missing_from_props(rest, other);
        let mr = missing_from(rest, other);
        assert(!rest.contains(from[0]));
        assert forall|x: usize| #[trigger] from.contains(x) implies (x == from[0]
            || rest.contains(x)) by {
            let i = from.lemma_contains_to_index(x);
            if i > 0 {
                assert(rest[i - 1] == x);
            }
        }
        if !other.contains(from[0]) {
            assert(m == seq![from[0]] + mr);
            assert(!mr.contains(from[0]));
            assert forall|x: usize| #[trigger] m.contains(x) implies (from.contains(x)
                && !other.contains(x)) by {
                let i = m.lemma_contains_to_index(x);
                if i > 0 {
                    assert(mr[i - 1] == x);
                }
            }
            assert(m.no_duplicates()) by {
                assert forall|i: int, j: int| 0 <= i < j < m.len() implies m[i] != m[j] by {
                    if i == 0 {
                        assert(m[j] == mr[j - 1]);
                        assert(mr.contains(mr[j - 1]));
                    } else {
                        assert(m[i] == mr[i - 1]);
                        assert(m[j] == mr[j - 1]);
                    }
                }
            }
        } else {
            assert(m == mr);
            assert(!m.contains(from[0]));
        }
        assert(m.to_set() =~= from.to_set().difference(other.to_set()));
        m.unique_seq_to_set();
    }
    if from.len() == 0 {
        assert(m.to_set() =~= from.to_set().difference(other.to_set()));
        m.unique_seq_to_set();
    }
}

/// Emits the minimal command sequence that moves the remote side from
/// `old_ids` to `new_ids`: one unsubscribe per id that goes away, then one
/// subscribe/announce pair per id that appears; ids in both sets are left
/// untouched.
pub fn reconcile(old_ids: &Vec<usize>, new_ids: &Vec<usize>, out: &mut Vec<String>)
    ensures
        final(out).deep_view() == old(out).deep_view() + reconcile_msgs(old_ids@, new_ids@),
{
    let ghost base = out.deep_view();
    let mut i: usize = 0;
    while i < old_ids.len()
        invariant
            i <= old_ids@.len(),
            out.deep_view() == base + removal_msgs(
                missing_from(old_ids@.take(i as int), new_ids@),
            ),
        decreases old_ids@.len() - i,
    {
        let id = old_ids[i];
        let ghost pre = old_ids@.take(i as int);
        proof {
            assert(old_ids@.take(i + 1) =~= pre + seq![id]);
            lemma_missing_from_app(pre, seq![id], new_ids@);
            lemma_missing_from_one(id, new_ids@);
            lemma_removal_msgs_app(missing_from(pre, new_ids@), missing_from(seq![id], new_ids@));
            lemma_removal_msgs_one(id);
        }
        if !contains_id(new_ids, id) {
            unsubscribe_from(out, id);
            proof {
                assert(out.deep_view() =~= base + removal_msgs(
                    missing_from(old_ids@.take(i + 1), new_ids@),
                ));
            }
        } else {
            proof {
                assert(missing_from(seq![id], new_ids@) =~= Seq::<usize>::empty());
                assert(missing_from(pre, new_ids@) + Seq::<usize>::empty() =~= missing_from(
                    pre,
                    new_ids@,
                ));
            }
        }
        i = i + 1;
    }
    proof {
        assert(old_ids@.take(old_ids@.len() as int) =~= old_ids@);
    }
    let ghost removals = removal_msgs(missing_from(old_ids@, new_ids@));
    let mut j: usize = 0;
    while j < new_ids.len()
        invariant
            j <= new_ids@.len(),
            out.deep_view() == base + removals + addition_msgs(
                missing_from(new_ids@.take(j as int), old_ids@),
            ),
            removals == removal_msgs(missing_from(old_ids@, new_ids@)),
        decreases new_ids@.len() - j,
    {
        let id = new_ids[j];
        let ghost pre = new_ids@.take(j as int);
        proof {
            assert(new_ids@.take(j + 1) =~= pre + seq![id]);
            lemma_missing_from_app(pre, seq![id], old_ids@);
            lemma_missing_from_one(id, old_ids@);
            lemma_addition_msgs_app(missing_from(pre, old_ids@), missing_from(seq![id], old_ids@));
            lemma_addition_msgs_one(id);
        }
        if !contains_id(old_ids, id) {
            subscribe_to(out, id);
            proof {
                assert(out.deep_view() =~= base + removals + addition_msgs(
                    missing_from(new_ids@.take(j + 1), old_ids@),
                ));
            }
        } else {
            proof {
                assert(missing_from(seq![id], old_ids@) =~= Seq::<usize>::empty());
                assert(missing_from(pre, old_ids@) + Seq::<usize>::empty() =~= missing_from(
                    pre,
                    old_ids@,
                ));
            }
        }
        j = j + 1;
    }
    proof {
        assert(new_ids@.take(new_ids@.len() as int) =~= new_ids@);
        assert(base + removals + addition_msgs(missing_from(new_ids@, old_ids@)) =~= base
            + reconcile_msgs(old_ids@, new_ids@));
    }
}

} // verus!
