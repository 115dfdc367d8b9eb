//! What the ledger of promises keeps, and how packets are graded on them.

use crate::bgp::{
    class_of, covering, covers, envelope_error, envelope_of, kept_promise, paths_error,
    AsConformanceSummary, AsInfoView, BgpValidationError, BgpView, EntryView, EnvelopeView,
    LedgerView, MessageView, MonitorView, Prefix, PromiseStatus, PromiseView, RegistryView,
    RouteWithdraw, TrafficClass,
};
use crate::codec::Wire;
use crate::laws::vm::{agree, prefixes_hold_what_agrees, word};
use crate::packet::IpAddr;
use crate::types::{AsId, PromiseId, SimTime, SwitchId};
use crate::wire_bgp::{BgpEnvelopeV, BgpEnvelopeW, TrafficClassW};
use vstd::prelude::*;

verus! {

/// Whether an entry is a promise in force of one AS to another for an address.
pub open spec fn promising(e: EntryView, by: AsId, to: AsId, ip: u32) -> bool {
    e.status is Active && e.sender_as == by && e.receiver_as == to && agree(
        e.prefix.addr,
        ip,
        e.prefix.len,
    )
}

/// Whether an entry has a path among its promises.
pub open spec fn lists_path(e: EntryView, path: Seq<AsId>) -> bool {
    exists|j: int| 0 <= j < e.promised_paths.len() && #[trigger] e.promised_paths[j] == path
}

/// Whether some promise in force covers the address.
pub open spec fn covered(entries: Seq<EntryView>, by: AsId, to: AsId, ip: u32) -> bool {
    exists|k: int| 0 <= k < entries.len() && promising(#[trigger] entries[k], by, to, ip)
}

/// Whether some promise in force covers the address and has the path.
pub open spec fn honoured(
    entries: Seq<EntryView>,
    by: AsId,
    to: AsId,
    ip: u32,
    path: Seq<AsId>,
) -> bool {
    exists|k: int|
        0 <= k < entries.len() && promising(#[trigger] entries[k], by, to, ip) && lists_path(
            entries[k],
            path,
        )
}

proof fn lemma_promising(e: EntryView, by: AsId, to: AsId, ip: u32)
    ensures
        covers(e, by, to, ip) <==> promising(e, by, to, ip),
{
    prefixes_hold_what_agrees(e.prefix.addr, e.prefix.len, ip);
}

proof fn lemma_filter_members(s: Seq<EntryView>, f: spec_fn(EntryView) -> bool, e: EntryView)
    ensures
        s.filter(f).contains(e) <==> s.contains(e) && f(e),
    decreases s.len(),
{
    reveal(Seq::filter);
    if s.len() > 0 {
        let r = s.drop_last();
        lemma_filter_members(r, f, e);
        let a = s.filter(f);
        let b = r.filter(f);
        assert(s[s.len() - 1] == s.last());
        if s.contains(e) {
            let k = choose|k: int| 0 <= k < s.len() && s[k] == e;
            if k < r.len() {
                assert(r[k] == e);
            }
        }
        if r.contains(e) {
            let k = choose|k: int| 0 <= k < r.len() && r[k] == e;
            assert(s[k] == e);
        }
        if f(s.last()) {
            assert(a[b.len() as int] == s.last());
            if b.contains(e) {
                let k = choose|k: int| 0 <= k < b.len() && b[k] == e;
                assert(a[k] == e);
            }
            if a.contains(e) {
                let k = choose|k: int| 0 <= k < a.len() && a[k] == e;
                if k < b.len() {
                    assert(b[k] == e);
                }
            }
        }
    }
}

/// The promises that cover an address for no class in particular are exactly those
/// in force; for a class they are those of the class, or else those of none.
pub proof fn covering_promises_are_in_force(
    entries: Seq<EntryView>,
    by: AsId,
    to: AsId,
    ip: u32,
    class: TrafficClass,
    e: EntryView,
)
    ensures
        covering(entries, by, to, ip, None).contains(e) <==> entries.contains(e) && promising(
            e,
            by,
            to,
            ip,
        ),
        ({
            let asked = exists|k: int|
                0 <= k < entries.len() && promising(#[trigger] entries[k], by, to, ip)
                    && entries[k].traffic_class == Some(class);
            covering(entries, by, to, ip, Some(class)).contains(e) <==> entries.contains(e)
                && promising(e, by, to, ip) && e.traffic_class == (if asked {
                Some(class)
            } else {
                None
            })
        }),
{
    let any = |x: EntryView|
        covers(x, by, to, ip) && (x.traffic_class is None || None::<TrafficClass> is None);
    let same = |x: EntryView| covers(x, by, to, ip) && x.traffic_class == Some(class);
    let none = |x: EntryView|
        covers(x, by, to, ip) && (x.traffic_class is None || Some(class) is None);
    lemma_promising(e, by, to, ip);
    lemma_filter_members(entries, any, e);
    lemma_filter_members(entries, same, e);
    lemma_filter_members(entries, none, e);
    let m = entries.filter(same);
    if m.len() > 0 {
        lemma_filter_members(entries, same, m[0]);
        assert(m.contains(m[0]));
        let k = choose|k: int| 0 <= k < entries.len() && entries[k] == m[0];
        lemma_promising(entries[k], by, to, ip);
    }
    if exists|k: int|
        0 <= k < entries.len() && promising(#[trigger] entries[k], by, to, ip)
            && entries[k].traffic_class == Some(class) {
        let k = choose|k: int|
            0 <= k < entries.len() && promising(#[trigger] entries[k], by, to, ip)
                && entries[k].traffic_class == Some(class);
        lemma_promising(entries[k], by, to, ip);
        lemma_filter_members(entries, same, entries[k]);
        assert(m.contains(entries[k]));
    }
}

proof fn lemma_kept(ps: Seq<EntryView>, path: Seq<AsId>, i: int)
    requires
        0 <= i <= ps.len(),
    ensures
        match kept_promise(ps, path, i) {
            Some(id) => exists|k: int|
                i <= k < ps.len() && lists_path(#[trigger] ps[k], path) && ps[k].promise_id == id,
            None => forall|k: int| i <= k < ps.len() ==> !lists_path(#[trigger] ps[k], path),
        },
    decreases ps.len() - i,
{
    if i < ps.len() {
        assert(ps[i].promised_paths.contains(path) <==> lists_path(ps[i], path));
        if !ps[i].promised_paths.contains(path) {
            lemma_kept(ps, path, i + 1);
        }
    }
}

/// How often a promise is among some.
pub open spec fn times(ps: Seq<EntryView>, id: PromiseId) -> nat {
    ps.filter(|e: EntryView| e.promise_id == id).len()
}

proof fn lemma_broken(m: MonitorView, ps: Seq<EntryView>, size: u64, id: PromiseId)
    ensures
        m.all_broken(ps, size).per_as == m.per_as,
        m.all_broken(ps, size).promise(id).packets_violated == (m.promise(id).packets_violated
            + times(ps, id)) % word(),
        m.all_broken(ps, size).promise(id).packets_honored == m.promise(id).packets_honored,
        m.all_broken(ps, size).promise(id).bytes_honored == m.promise(id).bytes_honored,
        times(ps, id) == 0 ==> m.all_broken(ps, size).promise(id) == m.promise(id),
    decreases ps.len(),
{
    reveal(Seq::filter);
    if ps.len() > 0 {
        lemma_broken(m, ps.drop_last(), size, id);
        let a = m.all_broken(ps.drop_last(), size).promise(id).packets_violated;
        assert(a.wrapping_add(1) == (a + 1) % word());
    }
}

/// Whether the counts of an AS grew by one packet that it honoured.
pub open spec fn one_more_honoured(
    a: AsConformanceSummary,
    b: AsConformanceSummary,
    size: u64,
) -> bool {
    &&& b.packets_honored == (a.packets_honored + 1) % word()
    &&& b.bytes_honored == (a.bytes_honored + size) % word()
    &&& b == (AsConformanceSummary {
        packets_honored: b.packets_honored,
        bytes_honored: b.bytes_honored,
        ..a
    })
}

/// Whether the counts of an AS grew by one packet on which it broke its word.
pub open spec fn one_more_violated(
    a: AsConformanceSummary,
    b: AsConformanceSummary,
    size: u64,
) -> bool {
    &&& b.packets_violated == (a.packets_violated + 1) % word()
    &&& b.bytes_violated == (a.bytes_violated + size) % word()
    &&& b == (AsConformanceSummary {
        packets_violated: b.packets_violated,
        bytes_violated: b.bytes_violated,
        ..a
    })
}

/// A hop into an AS counts as honoured if and only if some promise of that AS to
/// the one before, in force for the destination, has the rest of the path among its
/// paths; and as violated if and only if there are such promises and none has it.
/// Nobody else's counts change.
pub proof fn hops_are_graded_on_the_rest_of_the_path(
    m: MonitorView,
    size: u64,
    ip: u32,
    path: Seq<AsId>,
    i: int,
    entries: Seq<EntryView>,
    other: AsId,
)
    requires
        1 <= i < path.len(),
    ensures
        ({
            let by = path[i];
            let to = path[i - 1];
            let n = m.graded_hop(size, ip, path, i, entries);
            &&& by == to ==> n == m
            &&& by != to && honoured(entries, by, to, ip, path.skip(i)) ==> one_more_honoured(
                m.summary(by),
                n.summary(by),
                size,
            )
            &&& by != to && covered(entries, by, to, ip) && !honoured(
                entries,
                by,
                to,
                ip,
                path.skip(i),
            ) ==> one_more_violated(m.summary(by), n.summary(by), size)
            &&& by != to && !covered(entries, by, to, ip) ==> n.summary(by) == m.summary(by)
                && n.per_promise == m.per_promise
            &&& other != by ==> n.summary(other) == m.summary(other)
        }),
{
    let by = path[i];
    let to = path[i - 1];
    let rest = path.skip(i);
    let ps = covering(entries, by, to, ip, None);
    if by != to {
        lemma_kept(ps, rest, 0);
        assert forall|k: int| 0 <= k < ps.len() implies entries.contains(#[trigger] ps[k])
            && promising(ps[k], by, to, ip) by {
            assert(ps.contains(ps[k]));
            covering_promises_are_in_force(
                entries,
                by,
                to,
                ip,
                TrafficClass::BestEffort,
                ps[k],
            );
        }
        if ps.len() > 0 {
            assert(entries.contains(ps[0]));
            let k = choose|k: int| 0 <= k < entries.len() && entries[k] == ps[0];
            assert(promising(entries[k], by, to, ip));
        }
        if covered(entries, by, to, ip) {
            let k = choose|k: int|
                0 <= k < entries.len() && promising(#[trigger] entries[k], by, to, ip);
            covering_promises_are_in_force(
                entries,
                by,
                to,
                ip,
                TrafficClass::BestEffort,
                entries[k],
            );
            assert(ps.contains(entries[k]));
        }
        if honoured(entries, by, to, ip, rest) {
            let k = choose|k: int|
                0 <= k < entries.len() && promising(#[trigger] entries[k], by, to, ip)
                    && lists_path(entries[k], rest);
            covering_promises_are_in_force(
                entries,
                by,
                to,
                ip,
                TrafficClass::BestEffort,
                entries[k],
            );
            assert(ps.contains(entries[k]));
            let j = choose|j: int| 0 <= j < ps.len() && ps[j] == entries[k];
            assert(lists_path(ps[j], rest));
        }
        if let Some(id) = kept_promise(ps, rest, 0) {
            let j = choose|j: int|
                0 <= j < ps.len() && lists_path(#[trigger] ps[j], rest) && ps[j].promise_id == id;
            let k = choose|k: int| 0 <= k < entries.len() && entries[k] == ps[j];
            assert(promising(entries[k], by, to, ip) && lists_path(entries[k], rest));
            lemma_wraps(m.summary(by), size);
        } else {
            lemma_broken(m, ps, size, PromiseId(0));
            lemma_wraps(m.summary(by), size);
        }
    }
}

proof fn lemma_wraps(a: AsConformanceSummary, size: u64)
    ensures
        a.packets_honored.wrapping_add(1) == (a.packets_honored + 1) % word(),
        a.bytes_honored.wrapping_add(size) == (a.bytes_honored + size) % word(),
        a.packets_violated.wrapping_add(1) == (a.packets_violated + 1) % word(),
        a.bytes_violated.wrapping_add(size) == (a.bytes_violated + size) % word(),
{
}

/// The same hop, promise by promise: where the path was promised, one promise that
/// lists it is counted as honoured, and no other promise changes; where it was not,
/// every promise in force is counted as violated, as often as it stands there.
pub proof fn hops_are_graded_promise_by_promise(
    m: MonitorView,
    size: u64,
    ip: u32,
    path: Seq<AsId>,
    i: int,
    entries: Seq<EntryView>,
    id: PromiseId,
)
    requires
        1 <= i < path.len(),
        path[i] != path[i - 1],
    ensures
        ({
            let n = m.graded_hop(size, ip, path, i, entries);
            let ps = covering(entries, path[i], path[i - 1], ip, None);
            match kept_promise(ps, path.skip(i), 0) {
                Some(kept) => {
                    &&& exists|k: int|
                        0 <= k < ps.len() && lists_path(#[trigger] ps[k], path.skip(i))
                            && ps[k].promise_id == kept
                    &&& n.promise(kept).packets_honored == (m.promise(kept).packets_honored + 1)
                        % word()
                    &&& n.promise(kept).packets_violated == m.promise(kept).packets_violated
                    &&& id != kept ==> n.promise(id) == m.promise(id)
                },
                None => ps.len() > 0 ==> n.promise(id).packets_violated == (m.promise(
                    id,
                ).packets_violated + times(ps, id)) % word() && n.promise(id).packets_honored
                    == m.promise(id).packets_honored,
            }
        }),
{
    let ps = covering(entries, path[i], path[i - 1], ip, None);
    lemma_kept(ps, path.skip(i), 0);
    lemma_broken(m, ps, size, id);
    if let Some(kept) = kept_promise(ps, path.skip(i), 0) {
        let a = m.promise(kept).packets_honored;
        assert(a.wrapping_add(1) == (a + 1) % word());
    }
}

/// A path is graded hop by hop, from its second AS on.
pub proof fn paths_are_graded_hop_by_hop(
    m: MonitorView,
    size: u64,
    ip: u32,
    path: Seq<AsId>,
    n: int,
    entries: Seq<EntryView>,
)
    ensures
        n <= 1 ==> m.graded(size, ip, path, n, entries) == m,
        n > 1 ==> m.graded(size, ip, path, n, entries) == m.graded(
            size,
            ip,
            path,
            n - 1,
            entries,
        ).graded_hop(size, ip, path, n - 1, entries),
{
}

/// Whether an entry is the one for a promise between two ASes.
pub open spec fn is_for(e: EntryView, sender: AsId, receiver: AsId, id: PromiseId) -> bool {
    e.sender_as == sender && e.receiver_as == receiver && e.promise_id == id
}

proof fn lemma_entry_place(
    s: Seq<EntryView>,
    sender: AsId,
    receiver: AsId,
    id: PromiseId,
    i: int,
)
    requires
        0 <= i <= s.len(),
    ensures
        ({
            let k = crate::bgp::entry_place(s, sender, receiver, id, i);
            &&& i <= k <= s.len()
            &&& k < s.len() ==> is_for(s[k], sender, receiver, id)
            &&& forall|j: int| i <= j < k ==> !is_for(#[trigger] s[j], sender, receiver, id)
        }),
    decreases s.len() - i,
{
    if i < s.len() && !is_for(s[i], sender, receiver, id) {
        lemma_entry_place(s, sender, receiver, id, i + 1);
    }
}

/// A promise that arrives is in the ledger afterwards, in force, as it was made; a
/// promise with its number between the same ASes makes way for it, and every other
/// entry stays.
pub proof fn promises_enter_the_ledger(
    l: LedgerView,
    sender: AsId,
    receiver: AsId,
    p: PromiseView,
    now: SimTime,
)
    ensures
        ({
            let n = l.promised(sender, receiver, p, now);
            &&& exists|k: int| #[trigger]
                entered(n.entries, k, sender, receiver, p, now) && forall|j: int|
                    0 <= j < l.entries.len() && j != k ==> #[trigger] n.entries[j] == l.entries[j]
            &&& n.entries.len() == l.entries.len() + (if exists|j: int|
                0 <= j < l.entries.len() && is_for(
                    #[trigger] l.entries[j],
                    sender,
                    receiver,
                    p.promise_id,
                ) {
                0int
            } else {
                1
            })
        }),
{
    let n = l.promised(sender, receiver, p, now);
    lemma_entry_place(l.entries, sender, receiver, p.promise_id, 0);
    let k = crate::bgp::entry_place(l.entries, sender, receiver, p.promise_id, 0);
    assert(entered(n.entries, k, sender, receiver, p, now));
}

/// Whether an entry holds a promise that arrived at a time.
pub open spec fn entered(
    s: Seq<EntryView>,
    k: int,
    sender: AsId,
    receiver: AsId,
    p: PromiseView,
    now: SimTime,
) -> bool {
    0 <= k < s.len() && is_for(s[k], sender, receiver, p.promise_id) && s[k].status is Active
        && s[k].prefix == p.prefix && s[k].traffic_class == p.traffic_class && s[k].promised_paths
        == p.promised_paths && s[k].tags == p.tags && s[k].valid_until == p.valid_until
        && s[k].received_at == now
}

/// A withdrawal ends the promises in force between the two ASes that agree with
/// whatever it names, and no others; the clock ends those in force whose time has
/// passed, and no others.
pub proof fn promises_end_by_withdrawal_or_time(
    l: LedgerView,
    sender: AsId,
    receiver: AsId,
    w: RouteWithdraw,
    now: SimTime,
    i: int,
)
    requires
        0 <= i < l.entries.len(),
    ensures
        ({
            let e = l.entries[i];
            let a = l.withdrawn(sender, receiver, w, now).entries;
            let b = l.expired(now).entries;
            let named = e.sender_as == sender && e.receiver_as == receiver && (
            w.withdrawn_promise_id is None || w.withdrawn_promise_id == Some(e.promise_id)) && (
            w.prefix is None || w.prefix == Some(e.prefix)) && (w.traffic_class is None
                || w.traffic_class == e.traffic_class);
            &&& a.len() == l.entries.len() && b.len() == l.entries.len()
            &&& e.status is Active && named ==> a[i] == (EntryView { status: a[i].status, ..e })
                && a[i].status == (PromiseStatus::Withdrawn { withdrawn_at: now })
            &&& !(e.status is Active && named) ==> a[i] == e
            &&& e.status is Active && (e.valid_until matches Some(t) && t.nanos < now.nanos)
                ==> b[i] == (EntryView { status: b[i].status, ..e }) && b[i].status == (
            PromiseStatus::Expired { expired_at: now })
            &&& !(e.status is Active && (e.valid_until matches Some(t) && t.nanos < now.nanos))
                ==> b[i] == e
        }),
{
}

/// Whether an AS is the first of its id in a registry.
pub open spec fn registered(r: RegistryView, k: int, id: AsId) -> bool {
    0 <= k < r.ases.len() && r.ases[k].as_id == id && forall|j: int|
        0 <= j < k ==> (#[trigger] r.ases[j]).as_id != id
}

proof fn lemma_registered(s: Seq<AsInfoView>, k: int, id: AsId, i: int)
    requires
        0 <= i <= k < s.len(),
        s[k].as_id == id,
        forall|j: int| 0 <= j < k ==> (#[trigger] s[j]).as_id != id,
    ensures
        crate::bgp::as_place(s, id, i) == k,
    decreases k - i,
{
    if i < k {
        assert(s[i].as_id != id);
        lemma_registered(s, k, id, i + 1);
    }
}

/// An envelope between two registered ASes is accepted if and only if it comes from
/// the sender's speaker, is addressed to the receiver's, has reached the receiver's
/// border switch, and, if it promises something, promises at least one path, each
/// of which starts with the sender and ends with an AS that owns the prefix.
pub proof fn envelopes_are_accepted_from_their_speakers(
    e: EnvelopeView,
    r: RegistryView,
    at: SwitchId,
    s: int,
    t: int,
)
    requires
        registered(r, s, e.sender_as),
        registered(r, t, e.receiver_as),
    ensures
        envelope_error(e, r, at) is None <==> {
            &&& r.ases[s].bgp_speaker_ip == e.sender_bgp_ip
            &&& r.ases[t].bgp_speaker_ip == e.receiver_bgp_ip
            &&& r.ases[t].border_switch == at
            &&& e.message matches MessageView::Promise(p) ==> p.promised_paths.len() > 0 && forall|
                j: int,
            |
                0 <= j < p.promised_paths.len() ==> sound_path(
                    r,
                    e.sender_as,
                    p.prefix,
                    #[trigger] p.promised_paths[j],
                )
        },
        r.ases[s].bgp_speaker_ip != e.sender_bgp_ip || r.ases[t].bgp_speaker_ip
            != e.receiver_bgp_ip ==> envelope_error(e, r, at) == Some(
            BgpValidationError::UnknownBgpSpeaker,
        ),
        r.ases[s].bgp_speaker_ip == e.sender_bgp_ip && r.ases[t].bgp_speaker_ip
            == e.receiver_bgp_ip && r.ases[t].border_switch != at ==> envelope_error(e, r, at)
            == Some(BgpValidationError::WrongReceiver),
{
    lemma_registered(r.ases, s, e.sender_as, 0);
    lemma_registered(r.ases, t, e.receiver_as, 0);
    if let MessageView::Promise(p) = e.message {
        lemma_paths(r, e.sender_as, p.prefix, p.promised_paths, 0);
    }
}

/// Whether a path starts with the sender and ends with an owner of the prefix.
pub open spec fn sound_path(r: RegistryView, sender: AsId, prefix: Prefix, path: Seq<AsId>) -> bool {
    path.len() > 0 && path[0] == sender && r.owns(path[path.len() - 1], prefix)
}

proof fn lemma_paths(
    r: RegistryView,
    sender: AsId,
    prefix: Prefix,
    paths: Seq<Seq<AsId>>,
    i: int,
)
    requires
        0 <= i <= paths.len(),
    ensures
        paths_error(r, sender, prefix, paths, i) is None <==> forall|j: int|
            i <= j < paths.len() ==> sound_path(r, sender, prefix, #[trigger] paths[j]),
    decreases paths.len() - i,
{
    if i < paths.len() {
        lemma_paths(r, sender, prefix, paths, i + 1);
    }
}

/// An AS owns a prefix if its entry lists exactly that prefix.
pub proof fn owners_list_their_prefixes(r: RegistryView, k: int, id: AsId, prefix: Prefix)
    requires
        registered(r, k, id),
    ensures
        r.owns(id, prefix) <==> r.ases[k].owned_prefixes.contains(prefix),
        r.info(id) == Some(r.ases[k]),
{
    lemma_registered(r.ases, k, id, 0);
}

/// What arrives is counted for its sender: a refused envelope is set aside and
/// changes nothing else; an accepted promise or withdrawal enters the ledger and
/// adds one to the sender's count of them.
pub proof fn accepted_messages_are_counted(b: BgpView, e: EnvelopeView, at: SwitchId, now: SimTime)
    ensures
        ({
            let n = b.took_in(e, at, now);
            let s = b.monitor.summary(e.sender_as);
            let t = n.monitor.summary(e.sender_as);
            match envelope_error(e, b.registry, at) {
                Some(err) => n.ledger == b.ledger && n.monitor == b.monitor && n.rejected
                    == b.rejected.push((e, err)),
                None => {
                    &&& n.rejected == b.rejected && n.registry == b.registry
                    &&& e.message matches MessageView::Promise(p) ==> n.ledger == b.ledger.promised(
                        e.sender_as,
                        e.receiver_as,
                        p,
                        now,
                    ) && t.promises_sent == (s.promises_sent + 1) % word() && t.promises_withdrawn
                        == s.promises_withdrawn
                    &&& e.message matches MessageView::Withdraw(w) ==> n.ledger
                        == b.ledger.withdrawn(e.sender_as, e.receiver_as, w, now)
                        && t.promises_withdrawn == (s.promises_withdrawn + 1) % word()
                        && t.promises_sent == s.promises_sent
                    &&& !(e.message is Promise || e.message is Withdraw) ==> n.ledger.entries
                        == b.ledger.entries && n.monitor == b.monitor
                },
            }
        }),
{
    let s = b.monitor.summary(e.sender_as);
    assert(s.promises_sent.wrapping_add(1) == (s.promises_sent + 1) % word());
    assert(s.promises_withdrawn.wrapping_add(1) == (s.promises_withdrawn + 1) % word());
}

/// An AS that is registered is found by its number, in place of one with the same
/// number, and its switches belong to it, the border switch and those inside. Other
/// ASes and switches are left alone.
pub proof fn ases_are_registered_with_their_switches(
    r: RegistryView,
    a: AsInfoView,
    interior: Seq<SwitchId>,
    s: SwitchId,
    k: int,
)
    requires
        0 <= k <= r.ases.len(),
        k < r.ases.len() ==> r.ases[k].as_id == a.as_id,
        forall|j: int| 0 <= j < k ==> (#[trigger] r.ases[j]).as_id != a.as_id,
    ensures
        ({
            let t = r.with_as(a, interior);
            &&& t.info(a.as_id) == Some(a)
            &&& k < r.ases.len() ==> t.ases == r.ases.update(k, a)
            &&& k == r.ases.len() ==> t.ases == r.ases.push(a)
            &&& s == a.border_switch || interior.contains(s) ==> t.as_of_switch(s) == Some(a.as_id)
            &&& s != a.border_switch && !interior.contains(s) ==> t.as_of_switch(s)
                == r.as_of_switch(s)
        }),
{
    lemma_found(r.ases, a.as_id, 0, k);
    let t = r.with_as(a, interior);
    assert(t.ases[k] == a);
    assert forall|j: int| 0 <= j < k implies (#[trigger] t.ases[j]).as_id != a.as_id by {
        assert(t.ases[j] == r.ases[j]);
    }
    lemma_found(t.ases, a.as_id, 0, k);
    lemma_members(r.switch_to_as.insert(a.border_switch.0, a.as_id), interior, a.as_id, s);
}

proof fn lemma_found(s: Seq<AsInfoView>, id: AsId, i: int, k: int)
    requires
        0 <= i <= k <= s.len(),
        k < s.len() ==> s[k].as_id == id,
        forall|j: int| i <= j < k ==> (#[trigger] s[j]).as_id != id,
    ensures
        crate::bgp::as_place(s, id, i) == k,
    decreases k - i,
{
    if i < k {
        assert(s[i].as_id != id);
        lemma_found(s, id, i + 1, k);
    }
}

proof fn lemma_members(m: Map<u32, AsId>, w: Seq<SwitchId>, id: AsId, s: SwitchId)
    ensures
        w.contains(s) ==> crate::bgp::with_members(m, w, id).contains_key(s.0)
            && crate::bgp::with_members(m, w, id)[s.0] == id,
        !w.contains(s) ==> (crate::bgp::with_members(m, w, id).contains_key(s.0)
            <==> m.contains_key(s.0)) && crate::bgp::with_members(m, w, id)[s.0] == m[s.0],
    decreases w.len(),
{
    if w.len() > 0 {
        let v = w.drop_last();
        lemma_members(m, v, id, s);
        if v.contains(s) {
            let j = choose|j: int| 0 <= j < v.len() && v[j] == s;
            assert(w[j] == s);
        }
        assert(w[w.len() - 1] == w.last());
        if w.contains(s) && s != w.last() {
            let j = choose|j: int| 0 <= j < w.len() && w[j] == s;
            assert(v[j] == s);
        }
    }
}

/// A speaker is found by its address: the first AS whose speaker has it.
pub proof fn speakers_are_found_by_their_address(r: RegistryView, ip: IpAddr, k: int)
    requires
        0 <= k <= r.ases.len(),
        k < r.ases.len() ==> r.ases[k].bgp_speaker_ip == ip,
        forall|j: int| 0 <= j < k ==> (#[trigger] r.ases[j]).bgp_speaker_ip != ip,
    ensures
        k < r.ases.len() ==> r.as_of_ip(ip) == Some(r.ases[k].as_id),
        k == r.ases.len() ==> r.as_of_ip(ip) is None,
{
    lemma_speaker(r.ases, ip, 0, k);
}

proof fn lemma_speaker(s: Seq<AsInfoView>, ip: IpAddr, i: int, k: int)
    requires
        0 <= i <= k <= s.len(),
        k < s.len() ==> s[k].bgp_speaker_ip == ip,
        forall|j: int| i <= j < k ==> (#[trigger] s[j]).bgp_speaker_ip != ip,
    ensures
        crate::bgp::speaker_from(s, ip, i) == (if k < s.len() {
            Some(s[k].as_id)
        } else {
            None
        }),
    decreases k - i,
{
    if i < k {
        assert(s[i].bgp_speaker_ip != ip);
        lemma_speaker(s, ip, i + 1, k);
    }
}

/// A packet is graded on the promises that are still good when it ends: those whose
/// time has passed are over first.
pub proof fn packets_are_graded_on_live_promises(
    b: BgpView,
    p: crate::packet::PacketView,
    now: SimTime,
    i: int,
)
    requires
        0 <= i < b.ledger.entries.len(),
    ensures
        ({
            let g = b.graded(p, now);
            let e = b.ledger.entries[i];
            let path = crate::trace::as_sequence(p.trail.hops);
            &&& g.ledger.entries.len() == b.ledger.entries.len()
            &&& e.status is Active && (e.valid_until matches Some(t) && t.nanos < now.nanos)
                ==> g.ledger.entries[i].status == (PromiseStatus::Expired { expired_at: now })
            &&& !(e.status is Active && (e.valid_until matches Some(t) && t.nanos < now.nanos))
                ==> g.ledger.entries[i] == e
            &&& g.monitor == b.monitor.graded(
                p.size_bytes,
                p.ip_dst.0,
                path,
                path.len() as int,
                g.ledger.entries,
            )
            &&& g.registry == b.registry && g.rejected == b.rejected
        }),
{
}

/// An envelope means what it says on the wire: who sends, who receives, from and to
/// which address, and which message.
pub proof fn envelopes_mean_what_they_say(e: BgpEnvelopeV)
    ensures
        ({
            let v = envelope_of(e);
            &&& v.msg_id.0 == e.msg_id
            &&& v.sender_as.0 == e.sender_as.0 && v.receiver_as.0 == e.receiver_as.0
            &&& v.sender_bgp_ip.0 == e.sender_bgp_ip && v.receiver_bgp_ip.0 == e.receiver_bgp_ip
            &&& e.message is Promise <==> v.message is Promise
            &&& e.message is Withdraw <==> v.message is Withdraw
            &&& e.message is KeepAlive <==> v.message is KeepAlive
            &&& e.message is Ack <==> v.message is Ack
        }),
{
}

/// A promise means what it says on the wire: its number, prefix, class, time, and every
/// AS of every path, in order.
pub proof fn promises_mean_what_they_say(e: BgpEnvelopeV, i: int, j: int)
    requires
        e.message is Promise,
    ensures
        ({
            let p = e.message->Promise_0;
            let q = envelope_of(e).message->Promise_0;
            &&& q.promise_id.0 == p.promise_id
            &&& q.prefix.addr == p.prefix.addr && q.prefix.len == p.prefix.len
            &&& p.traffic_class is None <==> q.traffic_class is None
            &&& p.traffic_class matches Some(c) ==> q.traffic_class == Some(class_of(c))
            &&& p.valid_until_ns is None <==> q.valid_until is None
            &&& p.valid_until_ns matches Some(n) ==> (q.valid_until matches Some(t) && t.nanos == n)
            &&& q.promised_paths.len() == p.promised_paths.len()
            &&& 0 <= i < p.promised_paths.len() ==> q.promised_paths[i].len()
                == p.promised_paths[i].ases.len() && (0 <= j < p.promised_paths[i].ases.len()
                ==> q.promised_paths[i][j].0 == p.promised_paths[i].ases[j].0)
            &&& q.tags.len() == p.tags.len()
        }),
{
}

/// A withdrawal means what it says on the wire: what it names, and nothing else.
pub proof fn withdrawals_mean_what_they_say(e: BgpEnvelopeV)
    requires
        e.message is Withdraw,
    ensures
        ({
            let w = e.message->Withdraw_0;
            let v = envelope_of(e).message->Withdraw_0;
            &&& w.withdrawn_promise_id is None <==> v.withdrawn_promise_id is None
            &&& w.withdrawn_promise_id matches Some(n) ==> (v.withdrawn_promise_id matches Some(m)
                && m.0 == n)
            &&& w.prefix is None <==> v.prefix is None
            &&& w.prefix matches Some(p) ==> (v.prefix matches Some(q) && q.addr == p.addr && q.len
                == p.len)
            &&& w.traffic_class is None <==> v.traffic_class is None
            &&& w.traffic_class matches Some(c) ==> v.traffic_class == Some(class_of(c))
        }),
{
}

/// Classes keep their names on the wire.
pub proof fn classes_keep_their_names(c: TrafficClassW)
    ensures
        c is BestEffort <==> class_of(c) is BestEffort,
        c is LowLatency <==> class_of(c) is LowLatency,
        c is Throughput <==> class_of(c) is Throughput,
        c is UptimeSensitive <==> class_of(c) is UptimeSensitive,
        c is LowLatencyThroughput <==> class_of(c) is LowLatencyThroughput,
        c is Vod <==> class_of(c) is Vod,
        c is Gaming <==> class_of(c) is Gaming,
        c is Enterprise <==> class_of(c) is Enterprise,
        c is Backup <==> class_of(c) is Backup,
        c is Hft <==> class_of(c) is Hft,
{
}

/// What is no envelope changes nothing.
pub proof fn noise_changes_nothing(b: BgpView, at: SwitchId, payload: Seq<u8>, now: SimTime)
    ensures
        BgpEnvelopeW::parse(payload) is None ==> b.received(at, payload, now) == b,
        BgpEnvelopeW::parse(payload) matches Some((e, _)) ==> b.received(at, payload, now)
            == b.took_in(envelope_of(e), at, now),
{
}

} // verus!
