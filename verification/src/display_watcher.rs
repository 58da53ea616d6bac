use vstd::prelude::*;

use crate::domain::{
    contains_id, lists_screen, names, screen_listed, DisplayFingerprint, ScreenDescriptor, ScreenId, ScreenMatchQuality,
};

verus! {

/// A change in the display topology between two snapshots.
#[derive(Debug, Clone, PartialEq, Eq)]
pub enum DisplayChangeEvent {
    ScreenAdded(ScreenId),
    ScreenRemoved(ScreenId),
    ScreenReidentified { from: ScreenId, to: ScreenId },
    ScreenAmbiguous(ScreenId),
}

/// A source of display change events.
pub trait DisplayWatcher {
    fn poll_changes(&mut self) -> Vec<DisplayChangeEvent>;
}

/// `i` is the first position of `screens` whose fingerprint is `fp`.
pub open spec fn first_with_fingerprint(
    screens: Seq<ScreenDescriptor>,
    fp: DisplayFingerprint,
    i: int,
) -> bool {
    &&& 0 <= i < screens.len()
    &&& screens[i].fingerprint == fp
    &&& forall|j: int| 0 <= j < i ==> (#[trigger] screens[j]).fingerprint != fp
}

/// Position of the first screen of `screens` with fingerprint `fp`, or -1.
pub open spec fn fingerprint_position(screens: Seq<ScreenDescriptor>, fp: DisplayFingerprint) -> int {
    if exists|i: int| first_with_fingerprint(screens, fp, i) {
        choose|i: int| first_with_fingerprint(screens, fp, i)
    } else {
        -1
    }
}

/// The event for one screen of the current snapshot that is ambiguous, if it is.
pub open spec fn ambiguity_of(screen: ScreenDescriptor) -> Seq<DisplayChangeEvent> {
    if screen.match_quality == ScreenMatchQuality::Ambiguous {
        seq![DisplayChangeEvent::ScreenAmbiguous(screen.screen_id)]
    } else {
        seq![]
    }
}

/// Ambiguity events of the first `n` current screens, in order.
pub open spec fn ambiguities(current: Seq<ScreenDescriptor>, n: nat) -> Seq<DisplayChangeEvent>
    decreases n,
{
    if n == 0 {
        seq![]
    } else {
        ambiguities(current, (n - 1) as nat) + ambiguity_of(current[n - 1])
    }
}

/// The event for a current screen: nothing if its identifier was known,
/// a re-identification from the first previous screen with the same
/// fingerprint, or else an addition.
pub open spec fn arrival_of(previous: Seq<ScreenDescriptor>, screen: ScreenDescriptor) -> Seq<
    DisplayChangeEvent,
> {
    if lists_screen(previous, screen.screen_id@) {
        seq![]
    } else if fingerprint_position(previous, screen.fingerprint) >= 0 {
        seq![
            DisplayChangeEvent::ScreenReidentified {
                from: previous[fingerprint_position(previous, screen.fingerprint)].screen_id,
                to: screen.screen_id,
            },
        ]
    } else {
        seq![DisplayChangeEvent::ScreenAdded(screen.screen_id)]
    }
}

/// Arrival events of the first `n` current screens, in order.
pub open spec fn arrivals(
    previous: Seq<ScreenDescriptor>,
    current: Seq<ScreenDescriptor>,
    n: nat,
) -> Seq<DisplayChangeEvent>
    decreases n,
{
    if n == 0 {
        seq![]
    } else {
        arrivals(previous, current, (n - 1) as nat) + arrival_of(previous, current[n - 1])
    }
}

/// Among the first `n` current screens, one with identifier `id` is new and
/// was re-identified from a previous screen.
pub open spec fn reidentified_among(
    previous: Seq<ScreenDescriptor>,
    current: Seq<ScreenDescriptor>,
    n: int,
    id: Seq<char>,
) -> bool {
    exists|j: int|
        0 <= j < n && j < current.len() && (#[trigger] current[j]).screen_id@ == id
            && !lists_screen(previous, id) && fingerprint_position(previous, current[j].fingerprint)
            >= 0
}

/// A current screen with identifier `id` was re-identified from a previous one.
pub open spec fn reidentified(
    previous: Seq<ScreenDescriptor>,
    current: Seq<ScreenDescriptor>,
    id: Seq<char>,
) -> bool {
    reidentified_among(previous, current, current.len() as int, id)
}

/// A previous screen's hardware reappears under a re-identified current screen.
pub open spec fn taken_over(
    previous: Seq<ScreenDescriptor>,
    current: Seq<ScreenDescriptor>,
    screen: ScreenDescriptor,
) -> bool {
    exists|k: int|
        0 <= k < current.len() && reidentified(previous, current, (#[trigger] current[k]).screen_id@)
            && current[k].fingerprint == screen.fingerprint
}

/// The event for a previous screen: a removal when its identifier is gone and
/// its hardware was not taken over by a re-identified screen.
pub open spec fn departure_of(
    previous: Seq<ScreenDescriptor>,
    current: Seq<ScreenDescriptor>,
    screen: ScreenDescriptor,
) -> Seq<DisplayChangeEvent> {
    if lists_screen(current, screen.screen_id@) || taken_over(previous, current, screen) {
        seq![]
    } else {
        seq![DisplayChangeEvent::ScreenRemoved(screen.screen_id)]
    }
}

/// Departure events of the first `n` previous screens, in order.
pub open spec fn departures(
    previous: Seq<ScreenDescriptor>,
    current: Seq<ScreenDescriptor>,
    n: nat,
) -> Seq<DisplayChangeEvent>
    decreases n,
{
    if n == 0 {
        seq![]
    } else {
        departures(previous, current, (n - 1) as nat) + departure_of(
            previous,
            current,
            previous[n - 1],
        )
    }
}

/// The changes from `previous` to `current`: ambiguous current screens, then
/// arrivals in current order, then departures in previous order.
pub open spec fn topology_diff(
    previous: Seq<ScreenDescriptor>,
    current: Seq<ScreenDescriptor>,
) -> Seq<DisplayChangeEvent> {
    ambiguities(current, current.len()) + arrivals(previous, current, current.len()) + departures(
        previous,
        current,
        previous.len(),
    )
}

/// The events of `screens`, each screen contributing `event(screen)`, in order.
pub open spec fn events_of(
    screens: Seq<ScreenDescriptor>,
    event: spec_fn(ScreenDescriptor) -> Seq<DisplayChangeEvent>,
) -> Seq<DisplayChangeEvent>
    decreases screens.len(),
{
    if screens.len() == 0 {
        seq![]
    } else {
        events_of(screens.drop_last(), event) + event(screens.last())
    }
}

proof fn lemma_events_concat(
    a: Seq<ScreenDescriptor>,
    b: Seq<ScreenDescriptor>,
    event: spec_fn(ScreenDescriptor) -> Seq<DisplayChangeEvent>,
)
    ensures
        events_of(a + b, event) == events_of(a, event) + events_of(b, event),
    decreases b.len(),
{
    if b.len() == 0 {
        assert(a + b =~= a);
        assert(events_of(a, event) + events_of(b, event) =~= events_of(a, event));
    } else {
        lemma_events_concat(a, b.drop_last(), event);
        assert((a + b).drop_last() =~= a + b.drop_last());
        assert((a + b).last() == b.last());
        assert(events_of(a + b, event) =~= events_of(a, event) + events_of(b, event));
    }
}

/// Taking one screen out takes exactly its events out.
proof fn lemma_events_remove(
    screens: Seq<ScreenDescriptor>,
    k: int,
    event: spec_fn(ScreenDescriptor) -> Seq<DisplayChangeEvent>,
)
    requires
        0 <= k < screens.len(),
    ensures
        events_of(screens, event).to_multiset() == events_of(screens.remove(k), event).to_multiset().add(
            event(screens[k]).to_multiset(),
        ),
{
    broadcast use vstd::seq_lib::lemma_multiset_commutative;

    let a = screens.take(k);
    let one = seq![screens[k]];
    let b = screens.skip(k + 1);
    assert(screens =~= a + one + b);
    assert(screens.remove(k) =~= a + b);
    lemma_events_concat(a + one, b, event);
    lemma_events_concat(a, one, event);
    lemma_events_concat(a, b, event);
    assert(one.drop_last() =~= Seq::<ScreenDescriptor>::empty());
    assert(events_of(one.drop_last(), event) == Seq::<DisplayChangeEvent>::empty());
    assert(events_of(one, event) == events_of(one.drop_last(), event) + event(one.last()));
    assert(one.last() == screens[k]);
    assert(events_of(one, event) =~= event(screens[k]));
    let ea = events_of(a, event);
    let eb = events_of(b, event);
    let ek = event(screens[k]);
    assert((ea + ek + eb).to_multiset() =~= (ea + eb).to_multiset().add(ek.to_multiset()));
}

/// Listing the same screens in another order gives the same events, in another order.
proof fn lemma_events_reordered(
    screens: Seq<ScreenDescriptor>,
    reordered: Seq<ScreenDescriptor>,
    event: spec_fn(ScreenDescriptor) -> Seq<DisplayChangeEvent>,
)
    requires
        screens.to_multiset() == reordered.to_multiset(),
    ensures
        events_of(screens, event).to_multiset() == events_of(reordered, event).to_multiset(),
    decreases screens.len(),
{
    broadcast use vstd::seq_lib::to_multiset_build;
    broadcast use vstd::seq_lib::to_multiset_remove;
    broadcast use vstd::seq_lib::to_multiset_contains;
    broadcast use vstd::seq_lib::to_multiset_len;
    broadcast use vstd::seq_lib::lemma_multiset_commutative;
    broadcast use vstd::multiset::group_multiset_axioms;

    if screens.len() == 0 {
        assert(reordered.to_multiset().len() == 0);
        assert(reordered.len() == 0);
        assert(events_of(screens, event) =~= events_of(reordered, event));
    } else {
        let rest = screens.drop_last();
        let x = screens.last();
        assert(screens =~= rest.push(x));
        assert(screens.to_multiset() == rest.to_multiset().insert(x));
        assert(reordered.to_multiset().count(x) > 0);
        assert(reordered.contains(x));
        let k = choose|k: int| 0 <= k < reordered.len() && reordered[k] == x;
        let others = reordered.remove(k);
        assert(others.to_multiset() == reordered.to_multiset().remove(x));
        assert(rest.to_multiset() =~= others.to_multiset());
        lemma_events_reordered(rest, others, event);
        lemma_events_remove(reordered, k, event);
        assert(events_of(screens, event) == events_of(rest, event) + event(x));
    }
}

proof fn lemma_ambiguities_are_events(
    current: Seq<ScreenDescriptor>,
    n: nat,
    event: spec_fn(ScreenDescriptor) -> Seq<DisplayChangeEvent>,
)
    requires
        n <= current.len(),
        forall|s: ScreenDescriptor| #[trigger] event(s) == ambiguity_of(s),
    ensures
        ambiguities(current, n) == events_of(current.take(n as int), event),
    decreases n,
{
    if n > 0 {
        lemma_ambiguities_are_events(current, (n - 1) as nat, event);
        assert(current.take(n as int).drop_last() =~= current.take(n - 1));
        assert(current.take(n as int).last() == current[n - 1]);
    }
}

proof fn lemma_arrivals_are_events(
    previous: Seq<ScreenDescriptor>,
    current: Seq<ScreenDescriptor>,
    n: nat,
    event: spec_fn(ScreenDescriptor) -> Seq<DisplayChangeEvent>,
)
    requires
        n <= current.len(),
        forall|s: ScreenDescriptor| #[trigger] event(s) == arrival_of(previous, s),
    ensures
        arrivals(previous, current, n) == events_of(current.take(n as int), event),
    decreases n,
{
    if n > 0 {
        lemma_arrivals_are_events(previous, current, (n - 1) as nat, event);
        assert(current.take(n as int).drop_last() =~= current.take(n - 1));
        assert(current.take(n as int).last() == current[n - 1]);
    }
}

/// Two listings of the same screens have the same members.
proof fn lemma_same_members(current: Seq<ScreenDescriptor>, reordered: Seq<ScreenDescriptor>, x: ScreenDescriptor)
    requires
        current.to_multiset() == reordered.to_multiset(),
    ensures
        current.contains(x) <==> reordered.contains(x),
{
    vstd::seq_lib::to_multiset_contains(current, x);
    vstd::seq_lib::to_multiset_contains(reordered, x);
}

proof fn lemma_lists_same(current: Seq<ScreenDescriptor>, reordered: Seq<ScreenDescriptor>, id: Seq<char>)
    requires
        current.to_multiset() == reordered.to_multiset(),
    ensures
        lists_screen(current, id) <==> lists_screen(reordered, id),
{
    if lists_screen(current, id) {
        let i = choose|i: int| 0 <= i < current.len() && (#[trigger] current[i]).screen_id@ == id;
        lemma_same_members(current, reordered, current[i]);
        assert(current.contains(current[i]));
        let j = choose|j: int| 0 <= j < reordered.len() && reordered[j] == current[i];
        assert(reordered[j].screen_id@ == id);
    }
    if lists_screen(reordered, id) {
        let i = choose|i: int| 0 <= i < reordered.len() && (#[trigger] reordered[i]).screen_id@ == id;
        lemma_same_members(current, reordered, reordered[i]);
        assert(reordered.contains(reordered[i]));
        let j = choose|j: int| 0 <= j < current.len() && current[j] == reordered[i];
        assert(current[j].screen_id@ == id);
    }
}

proof fn lemma_reidentified_same(
    previous: Seq<ScreenDescriptor>,
    current: Seq<ScreenDescriptor>,
    reordered: Seq<ScreenDescriptor>,
    id: Seq<char>,
)
    requires
        current.to_multiset() == reordered.to_multiset(),
    ensures
        reidentified(previous, current, id) <==> reidentified(previous, reordered, id),
{
    if reidentified(previous, current, id) {
        let j = choose|j: int|
            0 <= j < current.len() as int && j < current.len() && (#[trigger] current[j]).screen_id@
                == id && !lists_screen(previous, id) && fingerprint_position(
                previous,
                current[j].fingerprint,
            ) >= 0;
        lemma_same_members(current, reordered, current[j]);
        assert(current.contains(current[j]));
        let k = choose|k: int| 0 <= k < reordered.len() && reordered[k] == current[j];
        assert(reidentified_among(previous, reordered, reordered.len() as int, id));
    }
    if reidentified(previous, reordered, id) {
        let j = choose|j: int|
            0 <= j < reordered.len() as int && j < reordered.len() && (
            #[trigger] reordered[j]).screen_id@ == id && !lists_screen(previous, id)
                && fingerprint_position(previous, reordered[j].fingerprint) >= 0;
        lemma_same_members(current, reordered, reordered[j]);
        assert(reordered.contains(reordered[j]));
        let k = choose|k: int| 0 <= k < current.len() && current[k] == reordered[j];
        assert(reidentified_among(previous, current, current.len() as int, id));
    }
}

proof fn lemma_departures_same(
    previous: Seq<ScreenDescriptor>,
    current: Seq<ScreenDescriptor>,
    reordered: Seq<ScreenDescriptor>,
    n: nat,
)
    requires
        n <= previous.len(),
        current.to_multiset() == reordered.to_multiset(),
    ensures
        departures(previous, current, n) == departures(previous, reordered, n),
    decreases n,
{
    if n > 0 {
        lemma_departures_same(previous, current, reordered, (n - 1) as nat);
        let screen = previous[n - 1];
        lemma_lists_same(current, reordered, screen.screen_id@);
        if taken_over(previous, current, screen) {
            let k = choose|k: int|
                0 <= k < current.len() && reidentified(
                    previous,
                    current,
                    (#[trigger] current[k]).screen_id@,
                ) && current[k].fingerprint == screen.fingerprint;
            lemma_reidentified_same(previous, current, reordered, current[k].screen_id@);
            lemma_same_members(current, reordered, current[k]);
            assert(current.contains(current[k]));
            let m = choose|m: int| 0 <= m < reordered.len() && reordered[m] == current[k];
            assert(taken_over(previous, reordered, screen));
        }
        if taken_over(previous, reordered, screen) {
            let k = choose|k: int|
                0 <= k < reordered.len() && reidentified(
                    previous,
                    reordered,
                    (#[trigger] reordered[k]).screen_id@,
                ) && reordered[k].fingerprint == screen.fingerprint;
            lemma_reidentified_same(previous, current, reordered, reordered[k].screen_id@);
            lemma_same_members(current, reordered, reordered[k]);
            assert(reordered.contains(reordered[k]));
            let m = choose|m: int| 0 <= m < current.len() && current[m] == reordered[k];
            assert(taken_over(previous, current, screen));
        }
        assert(departure_of(previous, current, screen) == departure_of(previous, reordered, screen));
    }
}

/// The changes do not depend on the order in which the current screens are
/// listed: listing the same screens in another order gives the same events,
/// possibly in another order.
pub proof fn lemma_diff_ignores_current_order(
    previous: Seq<ScreenDescriptor>,
    current: Seq<ScreenDescriptor>,
    reordered: Seq<ScreenDescriptor>,
)
    requires
        current.to_multiset() == reordered.to_multiset(),
    ensures
        topology_diff(previous, current).to_multiset() == topology_diff(
            previous,
            reordered,
        ).to_multiset(),
{
    broadcast use vstd::seq_lib::lemma_multiset_commutative;

    let ambiguous = |s: ScreenDescriptor| ambiguity_of(s);
    let arriving = |s: ScreenDescriptor| arrival_of(previous, s);
    vstd::seq_lib::to_multiset_len(current);
    vstd::seq_lib::to_multiset_len(reordered);
    lemma_ambiguities_are_events(current, current.len() as nat, ambiguous);
    lemma_ambiguities_are_events(reordered, reordered.len() as nat, ambiguous);
    lemma_arrivals_are_events(previous, current, current.len() as nat, arriving);
    lemma_arrivals_are_events(previous, reordered, reordered.len() as nat, arriving);
    assert(current.take(current.len() as int) =~= current);
    assert(reordered.take(reordered.len() as int) =~= reordered);
    lemma_events_reordered(current, reordered, ambiguous);
    lemma_events_reordered(current, reordered, arriving);
    lemma_departures_same(previous, current, reordered, previous.len() as nat);
    let a1 = ambiguities(current, current.len());
    let r1 = arrivals(previous, current, current.len());
    let d = departures(previous, current, previous.len());
    let a2 = ambiguities(reordered, reordered.len());
    let r2 = arrivals(previous, reordered, reordered.len());
    assert((a1 + r1 + d).to_multiset() =~= (a2 + r2 + d).to_multiset());
}

/// An unchanged topology reports nothing but its ambiguous screens.
pub proof fn lemma_unchanged_topology(screens: Seq<ScreenDescriptor>)
    ensures
        topology_diff(screens, screens) == ambiguities(screens, screens.len()),
{
    lemma_no_arrivals(screens, screens.len() as nat);
    lemma_no_departures(screens, screens.len() as nat);
    assert(topology_diff(screens, screens) =~= ambiguities(screens, screens.len()));
}

proof fn lemma_no_arrivals(screens: Seq<ScreenDescriptor>, n: nat)
    requires
        n <= screens.len(),
    ensures
        arrivals(screens, screens, n) == Seq::<DisplayChangeEvent>::empty(),
    decreases n,
{
    if n > 0 {
        lemma_no_arrivals(screens, (n - 1) as nat);
        assert(lists_screen(screens, screens[n - 1].screen_id@));
        assert(arrivals(screens, screens, n) =~= Seq::<DisplayChangeEvent>::empty());
    }
}

proof fn lemma_no_departures(screens: Seq<ScreenDescriptor>, n: nat)
    requires
        n <= screens.len(),
    ensures
        departures(screens, screens, n) == Seq::<DisplayChangeEvent>::empty(),
    decreases n,
{
    if n > 0 {
        lemma_no_departures(screens, (n - 1) as nat);
        assert(lists_screen(screens, screens[n - 1].screen_id@));
        assert(departures(screens, screens, n) =~= Seq::<DisplayChangeEvent>::empty());
    }
}

/// An event is consistent with the two snapshots: added and re-identified
/// screens are new identifiers of the current snapshot (a re-identified one
/// coming from a previous screen of the same hardware), removed screens are
/// identifiers of the previous snapshot that are gone, and ambiguous screens
/// belong to the current snapshot.
pub open spec fn event_fits(
    previous: Seq<ScreenDescriptor>,
    current: Seq<ScreenDescriptor>,
    event: DisplayChangeEvent,
) -> bool {
    match event {
        DisplayChangeEvent::ScreenAdded(id) => lists_screen(current, id@) && !lists_screen(
            previous,
            id@,
        ),
        DisplayChangeEvent::ScreenRemoved(id) => lists_screen(previous, id@) && !lists_screen(
            current,
            id@,
        ),
        DisplayChangeEvent::ScreenReidentified { from, to } => lists_screen(previous, from@)
            && lists_screen(current, to@) && !lists_screen(previous, to@),
        DisplayChangeEvent::ScreenAmbiguous(id) => lists_screen(current, id@),
    }
}

/// Every reported change is consistent with the two snapshots.
pub proof fn lemma_changes_fit(
    previous: Seq<ScreenDescriptor>,
    current: Seq<ScreenDescriptor>,
    k: int,
)
    requires
        0 <= k < topology_diff(previous, current).len(),
    ensures
        event_fits(previous, current, topology_diff(previous, current)[k]),
{
    let a = ambiguities(current, current.len());
    let r = arrivals(previous, current, current.len());
    let d = departures(previous, current, previous.len());
    lemma_ambiguities_fit(previous, current, current.len() as nat);
    lemma_arrivals_fit(previous, current, current.len() as nat);
    lemma_departures_fit(previous, current, previous.len() as nat);
    if k < a.len() {
        assert(topology_diff(previous, current)[k] == a[k]);
    } else if k < a.len() + r.len() {
        assert(topology_diff(previous, current)[k] == r[k - a.len()]);
    } else {
        assert(topology_diff(previous, current)[k] == d[k - a.len() - r.len()]);
    }
}

proof fn lemma_ambiguities_fit(
    previous: Seq<ScreenDescriptor>,
    current: Seq<ScreenDescriptor>,
    n: nat,
)
    requires
        n <= current.len(),
    ensures
        forall|k: int|
            0 <= k < ambiguities(current, n).len() ==> event_fits(
                previous,
                current,
                #[trigger] ambiguities(current, n)[k],
            ),
    decreases n,
{
    if n > 0 {
        lemma_ambiguities_fit(previous, current, (n - 1) as nat);
        let rest = ambiguities(current, (n - 1) as nat);
        assert forall|k: int| 0 <= k < ambiguities(current, n).len() implies event_fits(
            previous,
            current,
            #[trigger] ambiguities(current, n)[k],
        ) by {
            if k < rest.len() {
                assert(ambiguities(current, n)[k] == rest[k]);
            } else {
                assert(current[n - 1].screen_id@ == current[n - 1].screen_id@);
                assert(lists_screen(current, current[n - 1].screen_id@));
            }
        }
    }
}

proof fn lemma_arrivals_fit(previous: Seq<ScreenDescriptor>, current: Seq<ScreenDescriptor>, n: nat)
    requires
        n <= current.len(),
    ensures
        forall|k: int|
            0 <= k < arrivals(previous, current, n).len() ==> event_fits(
                previous,
                current,
                #[trigger] arrivals(previous, current, n)[k],
            ),
    decreases n,
{
    if n > 0 {
        lemma_arrivals_fit(previous, current, (n - 1) as nat);
        let rest = arrivals(previous, current, (n - 1) as nat);
        let screen = current[n - 1];
        assert(lists_screen(current, screen.screen_id@));
        let p = fingerprint_position(previous, screen.fingerprint);
        if p >= 0 {
            assert(first_with_fingerprint(previous, screen.fingerprint, p)) by {
                let w = choose|i: int| first_with_fingerprint(previous, screen.fingerprint, i);
            }
            assert(lists_screen(previous, previous[p].screen_id@));
        }
        assert forall|k: int| 0 <= k < arrivals(previous, current, n).len() implies event_fits(
            previous,
            current,
            #[trigger] arrivals(previous, current, n)[k],
        ) by {
            if k < rest.len() {
                assert(arrivals(previous, current, n)[k] == rest[k]);
            }
        }
    }
}

proof fn lemma_departures_fit(
    previous: Seq<ScreenDescriptor>,
    current: Seq<ScreenDescriptor>,
    n: nat,
)
    requires
        n <= previous.len(),
    ensures
        forall|k: int|
            0 <= k < departures(previous, current, n).len() ==> event_fits(
                previous,
                current,
                #[trigger] departures(previous, current, n)[k],
            ),
    decreases n,
{
    if n > 0 {
        lemma_departures_fit(previous, current, (n - 1) as nat);
        let rest = departures(previous, current, (n - 1) as nat);
        assert(lists_screen(previous, previous[n - 1].screen_id@));
        assert forall|k: int| 0 <= k < departures(previous, current, n).len() implies event_fits(
            previous,
            current,
            #[trigger] departures(previous, current, n)[k],
        ) by {
            if k < rest.len() {
                assert(departures(previous, current, n)[k] == rest[k]);
            }
        }
    }
}

/// The first screen with a fingerprint is the one the position names.
proof fn lemma_fingerprint_first(screens: Seq<ScreenDescriptor>, fp: DisplayFingerprint, f: int)
    requires
        first_with_fingerprint(screens, fp, f),
    ensures
        fingerprint_position(screens, fp) == f,
{
    let w = choose|i: int| first_with_fingerprint(screens, fp, i);
    if w < f {
        assert(screens[w].fingerprint != fp);
    } else if w > f {
        assert(screens[f].fingerprint != fp);
    }
}

/// Some screen with a fingerprint makes a first one exist.
proof fn lemma_fingerprint_found(screens: Seq<ScreenDescriptor>, fp: DisplayFingerprint, i: int)
    requires
        0 <= i < screens.len(),
        screens[i].fingerprint == fp,
    ensures
        fingerprint_position(screens, fp) >= 0,
        first_with_fingerprint(screens, fp, fingerprint_position(screens, fp)),
    decreases i,
{
    if exists|j: int| 0 <= j < i && (#[trigger] screens[j]).fingerprint == fp {
        let j = choose|j: int| 0 <= j < i && (#[trigger] screens[j]).fingerprint == fp;
        lemma_fingerprint_found(screens, fp, j);
    } else {
        assert(first_with_fingerprint(screens, fp, i));
        lemma_fingerprint_first(screens, fp, i);
    }
}

/// Each ambiguity event comes from an ambiguous screen, and each ambiguous
/// screen gives one.
proof fn lemma_ambiguities_members(current: Seq<ScreenDescriptor>, n: nat)
    requires
        n <= current.len(),
    ensures
        forall|k: int|
            0 <= k < ambiguities(current, n).len() ==> exists|j: int|
                0 <= j < n && (#[trigger] current[j]).match_quality == ScreenMatchQuality::Ambiguous
                    && #[trigger] ambiguities(current, n)[k] == DisplayChangeEvent::ScreenAmbiguous(
                    current[j].screen_id,
                ),
        forall|j: int|
            0 <= j < n && (#[trigger] current[j]).match_quality == ScreenMatchQuality::Ambiguous
                ==> ambiguities(current, n).contains(
                DisplayChangeEvent::ScreenAmbiguous(current[j].screen_id),
            ),
    decreases n,
{
    if n > 0 {
        lemma_ambiguities_members(current, (n - 1) as nat);
        let rest = ambiguities(current, (n - 1) as nat);
        let all = ambiguities(current, n);
        assert forall|k: int| 0 <= k < all.len() implies exists|j: int|
            0 <= j < n && (#[trigger] current[j]).match_quality == ScreenMatchQuality::Ambiguous
                && #[trigger] all[k] == DisplayChangeEvent::ScreenAmbiguous(current[j].screen_id) by {
            if k < rest.len() {
                assert(all[k] == rest[k]);
            } else {
                assert(current[n - 1].match_quality == ScreenMatchQuality::Ambiguous);
            }
        }
        assert forall|j: int|
            0 <= j < n && (#[trigger] current[j]).match_quality == ScreenMatchQuality::Ambiguous
                implies all.contains(DisplayChangeEvent::ScreenAmbiguous(current[j].screen_id)) by {
            let e = DisplayChangeEvent::ScreenAmbiguous(current[j].screen_id);
            if j < n - 1 {
                let k = choose|k: int| 0 <= k < rest.len() && rest[k] == e;
                assert(all[k] == rest[k]);
            } else {
                assert(all[rest.len() as int] == e);
            }
        }
    }
}

/// Each arrival event is the event of one current screen, and each current
/// screen's event is among them.
proof fn lemma_arrivals_members(previous: Seq<ScreenDescriptor>, current: Seq<ScreenDescriptor>, n: nat)
    requires
        n <= current.len(),
    ensures
        forall|k: int|
            0 <= k < arrivals(previous, current, n).len() ==> exists|j: int|
                0 <= j < n && #[trigger] arrival_of(previous, current[j]) == seq![
                    #[trigger] arrivals(previous, current, n)[k],
                ],
        forall|j: int|
            0 <= j < n && (#[trigger] arrival_of(previous, current[j])).len() > 0 ==> arrivals(
                previous,
                current,
                n,
            ).contains(arrival_of(previous, current[j])[0]),
    decreases n,
{
    if n > 0 {
        lemma_arrivals_members(previous, current, (n - 1) as nat);
        let rest = arrivals(previous, current, (n - 1) as nat);
        let all = arrivals(previous, current, n);
        let last = arrival_of(previous, current[n - 1]);
        assert(last.len() <= 1);
        assert forall|k: int| 0 <= k < all.len() implies exists|j: int|
            0 <= j < n && #[trigger] arrival_of(previous, current[j]) == seq![#[trigger] all[k]] by {
            if k < rest.len() {
                assert(all[k] == rest[k]);
            } else {
                assert(all[k] == last[0]);
                assert(last =~= seq![all[k]]);
            }
        }
        assert forall|j: int|
            0 <= j < n && (#[trigger] arrival_of(previous, current[j])).len() > 0 implies all.contains(
            arrival_of(previous, current[j])[0],
        ) by {
            let e = arrival_of(previous, current[j])[0];
            if j < n - 1 {
                let k = choose|k: int| 0 <= k < rest.len() && rest[k] == e;
                assert(all[k] == rest[k]);
            } else {
                assert(all[rest.len() as int] == e);
            }
        }
    }
}

/// Departures are removals only.
proof fn lemma_departures_removals(previous: Seq<ScreenDescriptor>, current: Seq<ScreenDescriptor>, n: nat)
    requires
        n <= previous.len(),
    ensures
        forall|k: int|
            0 <= k < departures(previous, current, n).len() ==> (#[trigger] departures(
                previous,
                current,
                n,
            )[k]) is ScreenRemoved,
    decreases n,
{
    if n > 0 {
        lemma_departures_removals(previous, current, (n - 1) as nat);
        let rest = departures(previous, current, (n - 1) as nat);
        assert forall|k: int| 0 <= k < departures(previous, current, n).len() implies (
        #[trigger] departures(previous, current, n)[k]) is ScreenRemoved by {
            if k < rest.len() {
                assert(departures(previous, current, n)[k] == rest[k]);
            }
        }
    }
}

/// An event of the changes is an ambiguity, an arrival or a departure, and
/// each of those is an event of the changes.
proof fn lemma_diff_parts(
    previous: Seq<ScreenDescriptor>,
    current: Seq<ScreenDescriptor>,
    e: DisplayChangeEvent,
)
    ensures
        topology_diff(previous, current).contains(e) <==> (ambiguities(current, current.len()).contains(e)
            || arrivals(previous, current, current.len()).contains(e) || departures(
            previous,
            current,
            previous.len(),
        ).contains(e)),
{
    let a = ambiguities(current, current.len());
    let r = arrivals(previous, current, current.len());
    let d = departures(previous, current, previous.len());
    let all = topology_diff(previous, current);
    assert(all == a + r + d);
    if all.contains(e) {
        let k = choose|k: int| 0 <= k < all.len() && all[k] == e;
        if k < a.len() {
            assert(a[k] == e);
        } else if k < a.len() + r.len() {
            assert(r[k - a.len()] == e);
        } else {
            assert(d[k - a.len() - r.len()] == e);
        }
    }
    if a.contains(e) {
        let k = choose|k: int| 0 <= k < a.len() && a[k] == e;
        assert(all[k] == e);
    }
    if r.contains(e) {
        let k = choose|k: int| 0 <= k < r.len() && r[k] == e;
        assert(all[a.len() + k] == e);
    }
    if d.contains(e) {
        let k = choose|k: int| 0 <= k < d.len() && d[k] == e;
        assert(all[a.len() + r.len() + k] == e);
    }
}

/// Exactly the ambiguous current screens are reported as ambiguous: a screen
/// matched exactly or fuzzily never is.
pub proof fn lemma_ambiguous_exactly(
    previous: Seq<ScreenDescriptor>,
    current: Seq<ScreenDescriptor>,
    id: ScreenId,
)
    ensures
        topology_diff(previous, current).contains(DisplayChangeEvent::ScreenAmbiguous(id))
            <==> exists|j: int|
            0 <= j < current.len() && (#[trigger] current[j]).screen_id == id
                && current[j].match_quality == ScreenMatchQuality::Ambiguous,
{
    let e = DisplayChangeEvent::ScreenAmbiguous(id);
    let a = ambiguities(current, current.len());
    let r = arrivals(previous, current, current.len());
    let d = departures(previous, current, previous.len());
    lemma_diff_parts(previous, current, e);
    lemma_ambiguities_members(current, current.len() as nat);
    lemma_arrivals_members(previous, current, current.len() as nat);
    lemma_departures_removals(previous, current, previous.len() as nat);
    if a.contains(e) {
        let k = choose|k: int| 0 <= k < a.len() && a[k] == e;
        let j = choose|j: int|
            0 <= j < current.len() && (#[trigger] current[j]).match_quality
                == ScreenMatchQuality::Ambiguous && a[k] == DisplayChangeEvent::ScreenAmbiguous(
                current[j].screen_id,
            );
    }
    if r.contains(e) {
        let k = choose|k: int| 0 <= k < r.len() && r[k] == e;
        let j = choose|j: int|
            0 <= j < current.len() && #[trigger] arrival_of(previous, current[j]) == seq![r[k]];
        assert(arrival_of(previous, current[j])[0] == e);
    }
    if d.contains(e) {
        let k = choose|k: int| 0 <= k < d.len() && d[k] == e;
        assert(d[k] is ScreenRemoved);
    }
}

/// A current screen with a new identifier whose fingerprint some previous
/// screen has is reported as re-identified from the first such previous
/// screen; one whose fingerprint no previous screen has is reported as added.
pub proof fn lemma_arrivals_reported(
    previous: Seq<ScreenDescriptor>,
    current: Seq<ScreenDescriptor>,
    j: int,
)
    requires
        0 <= j < current.len(),
        !lists_screen(previous, current[j].screen_id@),
    ensures
        forall|f: int|
            0 <= f < previous.len() && (#[trigger] previous[f]).fingerprint == current[j].fingerprint
                && (forall|i: int| 0 <= i < f ==> (#[trigger] previous[i]).fingerprint
                != current[j].fingerprint) ==> topology_diff(previous, current).contains(
                DisplayChangeEvent::ScreenReidentified {
                    from: previous[f].screen_id,
                    to: current[j].screen_id,
                },
            ),
        (forall|i: int| 0 <= i < previous.len() ==> (#[trigger] previous[i]).fingerprint
            != current[j].fingerprint) ==> topology_diff(previous, current).contains(
            DisplayChangeEvent::ScreenAdded(current[j].screen_id),
        ),
{
    let screen = current[j];
    lemma_arrivals_members(previous, current, current.len() as nat);
    let arrival = arrival_of(previous, screen);
    assert forall|f: int|
        0 <= f < previous.len() && (#[trigger] previous[f]).fingerprint == screen.fingerprint
            && (forall|i: int| 0 <= i < f ==> (#[trigger] previous[i]).fingerprint
            != screen.fingerprint) implies topology_diff(previous, current).contains(
        DisplayChangeEvent::ScreenReidentified { from: previous[f].screen_id, to: screen.screen_id },
    ) by {
        assert(first_with_fingerprint(previous, screen.fingerprint, f));
        lemma_fingerprint_first(previous, screen.fingerprint, f);
        assert(arrival.len() > 0);
        lemma_diff_parts(previous, current, arrival[0]);
    }
    if forall|i: int| 0 <= i < previous.len() ==> (#[trigger] previous[i]).fingerprint
        != screen.fingerprint {
        if fingerprint_position(previous, screen.fingerprint) >= 0 {
            let w = choose|i: int| first_with_fingerprint(previous, screen.fingerprint, i);
            assert(previous[w].fingerprint == screen.fingerprint);
        }
        assert(arrival.len() > 0);
        lemma_diff_parts(previous, current, arrival[0]);
    }
}

/// The arrival at position `k` is the event of one current screen.
proof fn lemma_arrival_at(previous: Seq<ScreenDescriptor>, current: Seq<ScreenDescriptor>, n: nat, k: int) -> (j: int)
    requires
        n <= current.len(),
        0 <= k < arrivals(previous, current, n).len(),
    ensures
        0 <= j < n,
        arrival_of(previous, current[j]).len() > 0,
        arrival_of(previous, current[j])[0] == arrivals(previous, current, n)[k],
    decreases n,
{
    let rest = arrivals(previous, current, (n - 1) as nat);
    if k < rest.len() {
        let j = lemma_arrival_at(previous, current, (n - 1) as nat, k);
        assert(arrivals(previous, current, n)[k] == rest[k]);
        j
    } else {
        (n - 1) as int
    }
}

/// The ambiguity at position `k` is an ambiguity event.
proof fn lemma_ambiguity_at(current: Seq<ScreenDescriptor>, n: nat, k: int)
    requires
        n <= current.len(),
        0 <= k < ambiguities(current, n).len(),
    ensures
        ambiguities(current, n)[k] is ScreenAmbiguous,
    decreases n,
{
    let rest = ambiguities(current, (n - 1) as nat);
    if k < rest.len() {
        lemma_ambiguity_at(current, (n - 1) as nat, k);
        assert(ambiguities(current, n)[k] == rest[k]);
    }
}

/// An added screen is a current screen with a new identifier whose
/// fingerprint no previous screen has; a re-identified one is a current
/// screen with a new identifier, coming from the first previous screen with
/// its fingerprint.
pub proof fn lemma_arrivals_justified(
    previous: Seq<ScreenDescriptor>,
    current: Seq<ScreenDescriptor>,
    e: DisplayChangeEvent,
)
    requires
        topology_diff(previous, current).contains(e),
    ensures
        e matches DisplayChangeEvent::ScreenAdded(id) ==> exists|j: int|
            0 <= j < current.len() && (#[trigger] current[j]).screen_id == id && !lists_screen(
                previous,
                id@,
            ) && forall|i: int| 0 <= i < previous.len() ==> (#[trigger] previous[i]).fingerprint
                != current[j].fingerprint,
        e matches DisplayChangeEvent::ScreenReidentified { from, to } ==> exists|j: int, f: int|
            0 <= j < current.len() && 0 <= f < previous.len() && (#[trigger] current[j]).screen_id
                == to && !lists_screen(previous, to@) && (#[trigger] previous[f]).screen_id == from
                && previous[f].fingerprint == current[j].fingerprint && forall|i: int|
                0 <= i < f ==> (#[trigger] previous[i]).fingerprint != current[j].fingerprint,
{
    let a = ambiguities(current, current.len());
    let r = arrivals(previous, current, current.len());
    let d = departures(previous, current, previous.len());
    let all = topology_diff(previous, current);
    assert(all == a + r + d);
    let k = choose|k: int| 0 <= k < all.len() && all[k] == e;
    if k < a.len() {
        lemma_ambiguity_at(current, current.len() as nat, k);
        assert(all[k] == a[k]);
    } else if k < a.len() + r.len() {
        assert(all[k] == r[k - a.len()]);
        let j = lemma_arrival_at(previous, current, current.len() as nat, k - a.len());
        lemma_arrival_justified(previous, current[j], e);
        match e {
            DisplayChangeEvent::ScreenReidentified { from, to } => {
                let f = fingerprint_position(previous, current[j].fingerprint);
                assert(previous[f].screen_id == from);
                assert(current[j].screen_id == to);
            },
            DisplayChangeEvent::ScreenAdded(id) => {
                assert(current[j].screen_id == id);
            },
            _ => {},
        }
    } else {
        lemma_departures_removals(previous, current, previous.len() as nat);
        assert(all[k] == d[k - a.len() - r.len()]);
    }
}

/// What one current screen's arrival event says of that screen.
#[verifier::rlimit(20)]
proof fn lemma_arrival_justified(previous: Seq<ScreenDescriptor>, screen: ScreenDescriptor, e: DisplayChangeEvent)
    requires
        arrival_of(previous, screen).len() > 0,
        arrival_of(previous, screen)[0] == e,
    ensures
        !lists_screen(previous, screen.screen_id@),
        e matches DisplayChangeEvent::ScreenAdded(id) ==> id == screen.screen_id && forall|i: int|
            0 <= i < previous.len() ==> (#[trigger] previous[i]).fingerprint != screen.fingerprint,
        e matches DisplayChangeEvent::ScreenReidentified { from, to } ==> to == screen.screen_id
            && first_with_fingerprint(previous, screen.fingerprint, fingerprint_position(previous, screen.fingerprint))
            && previous[fingerprint_position(previous, screen.fingerprint)].screen_id == from,
{
    let p = fingerprint_position(previous, screen.fingerprint);
    if p >= 0 {
        let w = choose|i: int| first_with_fingerprint(previous, screen.fingerprint, i);
        assert(first_with_fingerprint(previous, screen.fingerprint, p));
    } else {
        assert forall|i: int| 0 <= i < previous.len() implies (#[trigger] previous[i]).fingerprint
            != screen.fingerprint by {
            if previous[i].fingerprint == screen.fingerprint {
                lemma_fingerprint_found(previous, screen.fingerprint, i);
            }
        }
    }
}

/// The departure at position `k` is the event of one previous screen.
proof fn lemma_departure_at(previous: Seq<ScreenDescriptor>, current: Seq<ScreenDescriptor>, n: nat, k: int) -> (i: int)
    requires
        n <= previous.len(),
        0 <= k < departures(previous, current, n).len(),
    ensures
        0 <= i < n,
        departure_of(previous, current, previous[i]).len() > 0,
        departure_of(previous, current, previous[i])[0] == departures(previous, current, n)[k],
    decreases n,
{
    let rest = departures(previous, current, (n - 1) as nat);
    if k < rest.len() {
        let i = lemma_departure_at(previous, current, (n - 1) as nat, k);
        assert(departures(previous, current, n)[k] == rest[k]);
        i
    } else {
        (n - 1) as int
    }
}

/// A previous screen's departure event is among the departures.
proof fn lemma_departure_in(previous: Seq<ScreenDescriptor>, current: Seq<ScreenDescriptor>, n: nat, i: int)
    requires
        n <= previous.len(),
        0 <= i < n,
        departure_of(previous, current, previous[i]).len() > 0,
    ensures
        departures(previous, current, n).contains(departure_of(previous, current, previous[i])[0]),
    decreases n,
{
    let rest = departures(previous, current, (n - 1) as nat);
    let e = departure_of(previous, current, previous[i])[0];
    if i < n - 1 {
        lemma_departure_in(previous, current, (n - 1) as nat, i);
        let k = choose|k: int| 0 <= k < rest.len() && rest[k] == e;
        assert(departures(previous, current, n)[k] == rest[k]);
    } else {
        assert(departures(previous, current, n)[rest.len() as int] == e);
    }
}

/// A previous screen's hardware was taken over exactly when a current screen
/// with a new identifier has its fingerprint.
proof fn lemma_taken_over_exactly(previous: Seq<ScreenDescriptor>, current: Seq<ScreenDescriptor>, i: int)
    requires
        0 <= i < previous.len(),
    ensures
        taken_over(previous, current, previous[i]) <==> exists|k: int|
            0 <= k < current.len() && !lists_screen(previous, (#[trigger] current[k]).screen_id@)
                && current[k].fingerprint == previous[i].fingerprint,
{
    let screen = previous[i];
    if taken_over(previous, current, screen) {
        let k = choose|k: int|
            0 <= k < current.len() && reidentified(previous, current, (#[trigger] current[k]).screen_id@)
                && current[k].fingerprint == screen.fingerprint;
        assert(!lists_screen(previous, current[k].screen_id@));
    }
    if exists|k: int|
        0 <= k < current.len() && !lists_screen(previous, (#[trigger] current[k]).screen_id@)
            && current[k].fingerprint == screen.fingerprint {
        let k = choose|k: int|
            0 <= k < current.len() && !lists_screen(previous, (#[trigger] current[k]).screen_id@)
                && current[k].fingerprint == screen.fingerprint;
        lemma_fingerprint_found(previous, screen.fingerprint, i);
        assert(reidentified_among(previous, current, current.len() as int, current[k].screen_id@));
        assert(taken_over(previous, current, screen));
    }
}

/// A previous screen whose identifier is gone is reported as removed unless
/// a current screen with a new identifier has its fingerprint.
pub proof fn lemma_removals_reported(previous: Seq<ScreenDescriptor>, current: Seq<ScreenDescriptor>, i: int)
    requires
        0 <= i < previous.len(),
        !lists_screen(current, previous[i].screen_id@),
        forall|k: int|
            0 <= k < current.len() && !lists_screen(previous, (#[trigger] current[k]).screen_id@)
                ==> current[k].fingerprint != previous[i].fingerprint,
    ensures
        topology_diff(previous, current).contains(DisplayChangeEvent::ScreenRemoved(previous[i].screen_id)),
{
    lemma_taken_over_exactly(previous, current, i);
    lemma_departure_in(previous, current, previous.len() as nat, i);
    lemma_diff_parts(previous, current, DisplayChangeEvent::ScreenRemoved(previous[i].screen_id));
}

/// A removed screen is a previous screen whose identifier is gone and whose
/// fingerprint no current screen with a new identifier has.
pub proof fn lemma_removals_justified(previous: Seq<ScreenDescriptor>, current: Seq<ScreenDescriptor>, id: ScreenId)
    requires
        topology_diff(previous, current).contains(DisplayChangeEvent::ScreenRemoved(id)),
    ensures
        exists|i: int|
            0 <= i < previous.len() && (#[trigger] previous[i]).screen_id == id && !lists_screen(
                current,
                id@,
            ) && forall|k: int|
                0 <= k < current.len() && !lists_screen(previous, (#[trigger] current[k]).screen_id@)
                    ==> current[k].fingerprint != previous[i].fingerprint,
{
    let e = DisplayChangeEvent::ScreenRemoved(id);
    let a = ambiguities(current, current.len());
    let r = arrivals(previous, current, current.len());
    let d = departures(previous, current, previous.len());
    let all = topology_diff(previous, current);
    assert(all == a + r + d);
    let k = choose|k: int| 0 <= k < all.len() && all[k] == e;
    if k < a.len() {
        lemma_ambiguity_at(current, current.len() as nat, k);
        assert(all[k] == a[k]);
    } else if k < a.len() + r.len() {
        assert(all[k] == r[k - a.len()]);
        let j = lemma_arrival_at(previous, current, current.len() as nat, k - a.len());
        lemma_arrival_justified(previous, current[j], e);
        assert(false);
    } else {
        assert(all[k] == d[k - a.len() - r.len()]);
        let i = lemma_departure_at(previous, current, previous.len() as nat, k - a.len() - r.len());
        lemma_taken_over_exactly(previous, current, i);
        assert(previous[i].screen_id == id);
    }
}

/// Keeps the last snapshot of the topology and the changes that the latest
/// snapshot brought, until they are polled.
#[derive(Debug, Clone)]
pub struct SnapshotDisplayWatcher {
    previous: Vec<ScreenDescriptor>,
    pending: Vec<DisplayChangeEvent>,
}

impl SnapshotDisplayWatcher {
    /// The last snapshot pushed.
    pub closed spec fn last_snapshot(&self) -> Seq<ScreenDescriptor> {
        self.previous@
    }

    /// The changes not yet polled.
    pub closed spec fn pending_changes(&self) -> Seq<DisplayChangeEvent> {
        self.pending@
    }

    pub fn new() -> (watcher: Self)
        ensures
            watcher.last_snapshot().len() == 0,
            watcher.pending_changes().len() == 0,
    {
        SnapshotDisplayWatcher { previous: Vec::new(), pending: Vec::new() }
    }

    /// Records a new snapshot; the pending changes become those from the
    /// previous snapshot to this one (none for the first snapshot).
    pub fn push_snapshot(&mut self, current: Vec<ScreenDescriptor>)
        ensures
            final(self).last_snapshot() == current@,
            final(self).pending_changes() == (if old(self).last_snapshot().len() == 0 {
                Seq::<DisplayChangeEvent>::empty()
            } else {
                topology_diff(old(self).last_snapshot(), current@)
            }),
    {
        self.pending = if self.previous.len() == 0 {
            Vec::new()
        } else {
            diff_screens(&self.previous, &current)
        };
        self.previous = current;
    }
}

impl Default for SnapshotDisplayWatcher {
    fn default() -> (watcher: Self)
        ensures
            watcher.last_snapshot().len() == 0,
            watcher.pending_changes().len() == 0,
    {
        SnapshotDisplayWatcher::new()
    }
}

impl DisplayWatcher for SnapshotDisplayWatcher {
    /// Hands out the pending changes and forgets them.
    fn poll_changes(&mut self) -> (events: Vec<DisplayChangeEvent>)
        ensures
            events@ == old(self).pending_changes(),
            final(self).pending_changes().len() == 0,
            final(self).last_snapshot() == old(self).last_snapshot(),
    {
        let mut events = Vec::new();
        std::mem::swap(&mut events, &mut self.pending);
        events
    }
}

fn fingerprints_match(left: &DisplayFingerprint, right: &DisplayFingerprint) -> (same: bool)
    ensures
        same == (*left == *right),
{
    *left == *right
}

fn position_of_fingerprint(screens: &Vec<ScreenDescriptor>, fp: &DisplayFingerprint) -> (pos:
    Option<usize>)
    ensures
        match pos {
            Some(i) => fingerprint_position(screens@, *fp) == i as int,
            None => fingerprint_position(screens@, *fp) == -1,
        },
{
    let mut i: usize = 0;
    while i < screens.len()
        invariant
            i <= screens@.len(),
            forall|j: int| 0 <= j < i ==> (#[trigger] screens@[j]).fingerprint != *fp,
        decreases screens@.len() - i,
    {
        if fingerprints_match(&screens[i].fingerprint, fp) {
            proof {
                assert(first_with_fingerprint(screens@, *fp, i as int));
                let k = choose|k: int| first_with_fingerprint(screens@, *fp, k);
                if k < i {
                    assert(screens@[k].fingerprint != *fp);
                } else if k > i {
                    assert(screens@[i as int].fingerprint != *fp);
                }
            }
            return Some(i);
        }
        i = i + 1;
    }
    proof {
        assert(!exists|k: int| first_with_fingerprint(screens@, *fp, k));
    }
    None
}

/// The changes from `previous` to `current`.
pub fn diff_screens(previous: &Vec<ScreenDescriptor>, current: &Vec<ScreenDescriptor>) -> (events: Vec<
    DisplayChangeEvent,
>)
    ensures
        events@ == topology_diff(previous@, current@),
{
    let mut events: Vec<DisplayChangeEvent> = Vec::new();
    let mut reidentified_current: Vec<ScreenId> = Vec::new();

    let mut i: usize = 0;
    while i < current.len()
        invariant
            i <= current@.len(),
            events@ == ambiguities(current@, i as nat),
        decreases current@.len() - i,
    {
        if matches!(current[i].match_quality, ScreenMatchQuality::Ambiguous) {
            events.push(DisplayChangeEvent::ScreenAmbiguous(current[i].screen_id.clone()));
        }
        i = i + 1;
    }

    let ghost after_ambiguities = events@;
    let mut i: usize = 0;
    while i < current.len()
        invariant
            i <= current@.len(),
            after_ambiguities == ambiguities(current@, current@.len()),
            events@ == after_ambiguities + arrivals(previous@, current@, i as nat),
            forall|id: Seq<char>|
                #[trigger] names(reidentified_current@, id) == reidentified_among(
                    previous@,
                    current@,
                    i as int,
                    id,
                ),
        decreases current@.len() - i,
    {
        let screen = &current[i];
        let ghost before = events@;
        let ghost reid_before = reidentified_current@;
        if screen_listed(previous, &screen.screen_id) {
        } else {
            match position_of_fingerprint(previous, &screen.fingerprint) {
                Some(p) => {
                    events.push(
                        DisplayChangeEvent::ScreenReidentified {
                            from: previous[p].screen_id.clone(),
                            to: screen.screen_id.clone(),
                        },
                    );
                    reidentified_current.push(screen.screen_id.clone());
                },
                None => {
                    events.push(DisplayChangeEvent::ScreenAdded(screen.screen_id.clone()));
                },
            }
        }
        proof {
            assert(events@ == after_ambiguities + arrivals(previous@, current@, (i + 1) as nat));
            assert forall|id: Seq<char>|
                #[trigger] names(reidentified_current@, id) == reidentified_among(
                    previous@,
                    current@,
                    i + 1,
                    id,
                ) by {
                if names(reidentified_current@, id) {
                    let t = choose|t: int|
                        0 <= t < reidentified_current@.len() && (#[trigger] reidentified_current@[t])@
                            == id;
                    if t < reid_before.len() {
                        assert(reid_before[t] == reidentified_current@[t]);
                        assert(names(reid_before, id));
                    } else {
                        assert(current@[i as int].screen_id@ == id);
                    }
                }
                if reidentified_among(previous@, current@, i + 1, id) {
                    let j = choose|j: int|
                        0 <= j < i + 1 && j < current@.len() && (#[trigger] current@[j]).screen_id@
                            == id && !lists_screen(previous@, id) && fingerprint_position(
                            previous@,
                            current@[j].fingerprint,
                        ) >= 0;
                    if j < i {
                        assert(reidentified_among(previous@, current@, i as int, id));
                        assert(names(reid_before, id));
                        let t = choose|t: int|
                            0 <= t < reid_before.len() && (#[trigger] reid_before[t])@ == id;
                        assert(reidentified_current@[t] == reid_before[t]);
                    } else {
                        let t = reid_before.len() as int;
                        assert(reidentified_current@[t]@ == id);
                    }
                }
            }
        }
        i = i + 1;
    }

    let ghost after_arrivals = events@;
    let mut i: usize = 0;
    while i < previous.len()
        invariant
            i <= previous@.len(),
            after_arrivals == ambiguities(current@, current@.len()) + arrivals(
                previous@,
                current@,
                current@.len(),
            ),
            events@ == after_arrivals + departures(previous@, current@, i as nat),
            forall|id: Seq<char>|
                #[trigger] names(reidentified_current@, id) == reidentified(previous@, current@, id),
        decreases previous@.len() - i,
    {
        let screen = &previous[i];
        if !screen_listed(current, &screen.screen_id) {
            let mut was_reidentified = false;
            let mut k: usize = 0;
            while k < current.len()
                invariant
                    k <= current@.len(),
                    i < previous@.len(),
                    *screen == previous@[i as int],
                    forall|id: Seq<char>|
                        #[trigger] names(reidentified_current@, id) == reidentified(
                            previous@,
                            current@,
                            id,
                        ),
                    was_reidentified == exists|m: int|
                        0 <= m < k && reidentified(previous@, current@, (#[trigger] current@[m]).screen_id@)
                            && current@[m].fingerprint == screen.fingerprint,
                decreases current@.len() - k,
            {
                if !was_reidentified {
                    let candidate = &current[k];
                    if contains_id(&reidentified_current, &candidate.screen_id) && fingerprints_match(
                        &candidate.fingerprint,
                        &screen.fingerprint,
                    ) {
                        was_reidentified = true;
                    }
                }
                k = k + 1;
            }
            if !was_reidentified {
                events.push(DisplayChangeEvent::ScreenRemoved(screen.screen_id.clone()));
            }
        }
        proof {
            assert(events@ == after_arrivals + departures(previous@, current@, (i + 1) as nat));
        }
        i = i + 1;
    }
    events
}

} // verus!
