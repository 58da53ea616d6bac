use vstd::prelude::*;

use crate::domain::{lists_screen, screen_listed, ScreenDescriptor, ScreenId, WallpaperState};

verus! {

/// The last topology and wallpapers read from the system.
#[derive(Debug, Clone)]
pub struct WallpaperSnapshot {
    pub screens: Vec<ScreenDescriptor>,
    pub wallpapers: Vec<WallpaperState>,
}

impl Default for WallpaperSnapshot {
    fn default() -> (snapshot: Self)
        ensures
            snapshot.screens@.len() == 0,
            snapshot.wallpapers@.len() == 0,
    {
        WallpaperSnapshot { screens: Vec::new(), wallpapers: Vec::new() }
    }
}

/// Wallpaper states keyed by screen, as collecting `states` into a map does:
/// a later state of a screen replaces an earlier one.
pub open spec fn keyed_states(states: Seq<WallpaperState>) -> Map<Seq<char>, WallpaperState>
    decreases states.len(),
{
    if states.len() == 0 {
        Map::empty()
    } else {
        keyed_states(states.drop_last()).insert(states.last().screen_id@, states.last())
    }
}

/// Screens keyed by identifier, a later screen replacing an earlier one.
pub open spec fn keyed_screens(screens: Seq<ScreenDescriptor>) -> Map<Seq<char>, ScreenDescriptor>
    decreases screens.len(),
{
    if screens.len() == 0 {
        Map::empty()
    } else {
        keyed_screens(screens.drop_last()).insert(screens.last().screen_id@, screens.last())
    }
}

/// `i` is the first position of `states` that belongs to screen `id`.
pub open spec fn first_state_of(states: Seq<WallpaperState>, id: Seq<char>, i: int) -> bool {
    &&& 0 <= i < states.len()
    &&& states[i].screen_id@ == id
    &&& forall|j: int| 0 <= j < i ==> (#[trigger] states[j]).screen_id@ != id
}

/// Position of the first state of screen `id` in `states`, or -1.
pub open spec fn state_position(states: Seq<WallpaperState>, id: Seq<char>) -> int {
    if exists|i: int| first_state_of(states, id, i) {
        choose|i: int| first_state_of(states, id, i)
    } else {
        -1
    }
}

/// `states` with the first state of the same screen as `state` replaced by
/// it, or with `state` appended when the screen has none.
pub open spec fn upserted_states(states: Seq<WallpaperState>, state: WallpaperState) -> Seq<
    WallpaperState,
> {
    let i = state_position(states, state.screen_id@);
    if i >= 0 {
        states.update(i, state)
    } else {
        states.push(state)
    }
}

/// What a wallpaper state store holds.
pub struct StoreView {
    /// The screens of the last full read, in system order.
    pub screens: Seq<ScreenDescriptor>,
    /// The wallpaper list of the snapshot.
    pub wallpapers: Seq<WallpaperState>,
    /// The current state of each screen, by screen identifier.
    pub states: Map<Seq<char>, WallpaperState>,
    /// The screens of the last full read, by identifier.
    pub screen_index: Map<Seq<char>, ScreenDescriptor>,
}

impl StoreView {
    /// A store that has read nothing yet.
    pub open spec fn empty() -> StoreView {
        StoreView {
            screens: Seq::empty(),
            wallpapers: Seq::empty(),
            states: Map::empty(),
            screen_index: Map::empty(),
        }
    }

    /// The store after a full read of `screens` and `wallpapers`.
    pub open spec fn replaced(
        screens: Seq<ScreenDescriptor>,
        wallpapers: Seq<WallpaperState>,
    ) -> StoreView {
        StoreView {
            screens,
            wallpapers,
            states: keyed_states(wallpapers),
            screen_index: keyed_screens(screens),
        }
    }

    /// The store after its wallpapers alone were read again.
    pub open spec fn with_states(self, wallpapers: Seq<WallpaperState>) -> StoreView {
        StoreView { wallpapers, states: keyed_states(wallpapers), ..self }
    }

    /// The store after one screen's state was read again.
    pub open spec fn upserted(self, state: WallpaperState) -> StoreView {
        StoreView {
            wallpapers: upserted_states(self.wallpapers, state),
            states: self.states.insert(state.screen_id@, state),
            ..self
        }
    }

    /// The answers of the store come from its snapshot: it knows a screen's
    /// state exactly when the snapshot lists a wallpaper for that screen, the
    /// state it gives is one of the snapshot's wallpapers and belongs to that
    /// screen, and it knows exactly the screens of the last full read.
    pub open spec fn consistent(self) -> bool {
        &&& forall|k: Seq<char>|
            #[trigger] self.states.contains_key(k) <==> exists|i: int|
                0 <= i < self.wallpapers.len() && (#[trigger] self.wallpapers[i]).screen_id@ == k
        &&& forall|k: Seq<char>|
            #[trigger] self.states.contains_key(k) ==> self.states[k].screen_id@ == k
                && self.wallpapers.contains(self.states[k])
        &&& forall|k: Seq<char>|
            #[trigger] self.screen_index.contains_key(k) <==> lists_screen(self.screens, k)
    }
}

/// The keyed states know exactly the screens that some state belongs to.
proof fn lemma_keyed_states_dom(states: Seq<WallpaperState>, k: Seq<char>)
    ensures
        keyed_states(states).contains_key(k) <==> exists|i: int|
            0 <= i < states.len() && (#[trigger] states[i]).screen_id@ == k,
    decreases states.len(),
{
    if states.len() > 0 {
        let rest = states.drop_last();
        lemma_keyed_states_dom(rest, k);
        if exists|i: int| 0 <= i < rest.len() && (#[trigger] rest[i]).screen_id@ == k {
            let i = choose|i: int| 0 <= i < rest.len() && (#[trigger] rest[i]).screen_id@ == k;
            assert(states[i] == rest[i]);
        }
        if exists|i: int| 0 <= i < states.len() && (#[trigger] states[i]).screen_id@ == k {
            let i = choose|i: int| 0 <= i < states.len() && (#[trigger] states[i]).screen_id@ == k;
            if i < states.len() - 1 {
                assert(rest[i] == states[i]);
            }
        }
    }
}

/// The keyed states give, for a screen, its last state.
proof fn lemma_keyed_states_at(states: Seq<WallpaperState>, i: int)
    requires
        0 <= i < states.len(),
        forall|j: int| i < j < states.len() ==> (#[trigger] states[j]).screen_id@ != states[i].screen_id@,
    ensures
        keyed_states(states).contains_key(states[i].screen_id@),
        keyed_states(states)[states[i].screen_id@] == states[i],
    decreases states.len(),
{
    let rest = states.drop_last();
    if i < states.len() - 1 {
        assert(states[states.len() - 1].screen_id@ != states[i].screen_id@);
        assert(rest[i] == states[i]);
        assert forall|j: int| i < j < rest.len() implies (#[trigger] rest[j]).screen_id@
            != rest[i].screen_id@ by {
            assert(rest[j] == states[j]);
        }
        lemma_keyed_states_at(rest, i);
    }
}

/// Replacing the last state of a screen in a sequence is inserting into its keyed form.
proof fn lemma_keyed_states_update(states: Seq<WallpaperState>, i: int, state: WallpaperState)
    requires
        0 <= i < states.len(),
        states[i].screen_id@ == state.screen_id@,
        forall|j: int| i < j < states.len() ==> (#[trigger] states[j]).screen_id@ != state.screen_id@,
    ensures
        keyed_states(states.update(i, state)) == keyed_states(states).insert(
            state.screen_id@,
            state,
        ),
    decreases states.len(),
{
    let updated = states.update(i, state);
    let rest = states.drop_last();
    if i == states.len() - 1 {
        assert(updated.drop_last() =~= rest);
        assert(keyed_states(updated) =~= keyed_states(states).insert(state.screen_id@, state));
    } else {
        assert(updated.drop_last() =~= rest.update(i, state));
        assert forall|j: int| i < j < rest.len() implies (#[trigger] rest[j]).screen_id@
            != state.screen_id@ by {
            assert(rest[j] == states[j]);
        }
        lemma_keyed_states_update(rest, i, state);
        assert(states.last().screen_id@ != state.screen_id@);
        assert(keyed_states(updated) =~= keyed_states(states).insert(state.screen_id@, state));
    }
}

/// The keyed screens know exactly the listed screens.
proof fn lemma_keyed_screens_dom(screens: Seq<ScreenDescriptor>, k: Seq<char>)
    ensures
        keyed_screens(screens).contains_key(k) <==> lists_screen(screens, k),
    decreases screens.len(),
{
    if screens.len() > 0 {
        let rest = screens.drop_last();
        lemma_keyed_screens_dom(rest, k);
        if lists_screen(rest, k) {
            let i = choose|i: int| 0 <= i < rest.len() && (#[trigger] rest[i]).screen_id@ == k;
            assert(screens[i] == rest[i]);
        }
        if lists_screen(screens, k) {
            let i = choose|i: int| 0 <= i < screens.len() && (#[trigger] screens[i]).screen_id@ == k;
            if i < screens.len() - 1 {
                assert(rest[i] == screens[i]);
            }
        }
    }
}

/// The keyed screens give, for an identifier, the last screen listed with it.
proof fn lemma_keyed_screens_at(screens: Seq<ScreenDescriptor>, i: int)
    requires
        0 <= i < screens.len(),
        forall|j: int|
            i < j < screens.len() ==> (#[trigger] screens[j]).screen_id@ != screens[i].screen_id@,
    ensures
        keyed_screens(screens).contains_key(screens[i].screen_id@),
        keyed_screens(screens)[screens[i].screen_id@] == screens[i],
    decreases screens.len(),
{
    let rest = screens.drop_last();
    if i < screens.len() - 1 {
        assert(screens[screens.len() - 1].screen_id@ != screens[i].screen_id@);
        assert(rest[i] == screens[i]);
        assert forall|j: int| i < j < rest.len() implies (#[trigger] rest[j]).screen_id@
            != rest[i].screen_id@ by {
            assert(rest[j] == screens[j]);
        }
        lemma_keyed_screens_at(rest, i);
    }
}

/// A freshly read store is consistent.
proof fn lemma_replaced_consistent(screens: Seq<ScreenDescriptor>, wallpapers: Seq<WallpaperState>)
    ensures
        StoreView::replaced(screens, wallpapers).consistent(),
{
    let v = StoreView::replaced(screens, wallpapers);
    assert forall|k: Seq<char>| #[trigger] v.states.contains_key(k) implies v.states[k].screen_id@
        == k && v.wallpapers.contains(v.states[k]) by {
        lemma_keyed_states_dom(wallpapers, k);
        let i = choose|i: int| 0 <= i < wallpapers.len() && (#[trigger] wallpapers[i]).screen_id@ == k;
        lemma_last_state_of(wallpapers, k, i);
    }
    assert forall|k: Seq<char>| #[trigger] v.states.contains_key(k) <==> exists|i: int|
        0 <= i < v.wallpapers.len() && (#[trigger] v.wallpapers[i]).screen_id@ == k by {
        lemma_keyed_states_dom(wallpapers, k);
    }
    assert forall|k: Seq<char>| #[trigger] v.screen_index.contains_key(k) <==> lists_screen(
        v.screens,
        k,
    ) by {
        lemma_keyed_screens_dom(screens, k);
    }
}

/// When some state of `states` belongs to `k`, the last one does, and the
/// keyed form gives it.
proof fn lemma_last_state_of(states: Seq<WallpaperState>, k: Seq<char>, i: int)
    requires
        0 <= i < states.len(),
        states[i].screen_id@ == k,
    ensures
        keyed_states(states).contains_key(k),
        keyed_states(states)[k].screen_id@ == k,
        states.contains(keyed_states(states)[k]),
    decreases states.len() - i,
{
    if exists|j: int| i < j < states.len() && (#[trigger] states[j]).screen_id@ == k {
        let j = choose|j: int| i < j < states.len() && (#[trigger] states[j]).screen_id@ == k;
        lemma_last_state_of(states, k, j);
    } else {
        lemma_keyed_states_at(states, i);
    }
}

/// After a full read, the store answers for a screen the last state read for
/// it, and knows exactly the screens read.
pub proof fn lemma_replace_then_lookup(
    screens: Seq<ScreenDescriptor>,
    wallpapers: Seq<WallpaperState>,
    i: int,
    id: Seq<char>,
)
    requires
        0 <= i < wallpapers.len(),
        forall|j: int|
            i < j < wallpapers.len() ==> (#[trigger] wallpapers[j]).screen_id@
                != wallpapers[i].screen_id@,
    ensures
        StoreView::replaced(screens, wallpapers).states.contains_key(wallpapers[i].screen_id@),
        StoreView::replaced(screens, wallpapers).states[wallpapers[i].screen_id@] == wallpapers[i],
        StoreView::replaced(screens, wallpapers).screen_index.contains_key(id) <==> lists_screen(
            screens,
            id,
        ),
{
    lemma_keyed_states_at(wallpapers, i);
    lemma_keyed_screens_dom(screens, id);
}

/// Reading one screen's state: the store then answers that state for the
/// screen, keeps its answers for every other screen, and keeps its screens.
pub proof fn lemma_upsert_then_lookup(store: StoreView, state: WallpaperState, other: Seq<char>)
    ensures
        store.upserted(state).states.contains_key(state.screen_id@),
        store.upserted(state).states[state.screen_id@] == state,
        other != state.screen_id@ ==> (store.upserted(state).states.contains_key(other)
            == store.states.contains_key(other)),
        other != state.screen_id@ && store.states.contains_key(other) ==> store.upserted(
            state,
        ).states[other] == store.states[other],
        store.upserted(state).screens == store.screens,
        store.upserted(state).screen_index == store.screen_index,
{
}

/// Two reads of the same screen leave the store as the later read alone does.
pub proof fn lemma_latest_read_wins(store: StoreView, first: WallpaperState, second: WallpaperState)
    requires
        first.screen_id@ == second.screen_id@,
    ensures
        store.upserted(first).upserted(second) == store.upserted(second),
{
    let key = first.screen_id@;
    let ws = store.wallpapers;
    let once = upserted_states(ws, first);
    let p = state_position(ws, key);
    if p >= 0 {
        assert(first_state_of(ws, key, p)) by {
            let w = choose|i: int| first_state_of(ws, key, i);
        }
        assert(first_state_of(once, key, p)) by {
            assert forall|j: int| 0 <= j < p implies (#[trigger] once[j]).screen_id@ != key by {
                assert(once[j] == ws[j]);
            }
        }
        let q = state_position(once, key);
        assert(q == p) by {
            let w = choose|i: int| first_state_of(once, key, i);
            if w < p {
                assert(once[w].screen_id@ != key);
            } else if w > p {
                assert(once[p].screen_id@ != key);
            }
        }
        assert(upserted_states(once, second) =~= upserted_states(ws, second));
    } else {
        assert forall|j: int| 0 <= j < ws.len() implies (#[trigger] ws[j]).screen_id@ != key by {
            if ws[j].screen_id@ == key {
                lemma_first_exists(ws, key, j);
            }
        }
        let n = ws.len() as int;
        assert(first_state_of(once, key, n)) by {
            assert forall|j: int| 0 <= j < n implies (#[trigger] once[j]).screen_id@ != key by {
                assert(once[j] == ws[j]);
            }
        }
        assert(state_position(once, key) == n) by {
            let w = choose|i: int| first_state_of(once, key, i);
            if w < n {
                assert(once[w].screen_id@ != key);
            }
        }
        assert(state_position(ws, second.screen_id@) == -1);
        assert(upserted_states(once, second) =~= upserted_states(ws, second));
    }
    assert(store.upserted(first).upserted(second).states =~= store.upserted(second).states);
}

/// A read of states that leaves the screens alone: one screen's state, or
/// all wallpapers again.
pub enum StateRead {
    One(WallpaperState),
    All(Seq<WallpaperState>),
}

impl StoreView {
    /// The store after the state reads `reads`, in order.
    pub open spec fn after_reads(self, reads: Seq<StateRead>) -> StoreView
        decreases reads.len(),
    {
        if reads.len() == 0 {
            self
        } else {
            let v = self.after_reads(reads.drop_last());
            match reads.last() {
                StateRead::One(state) => v.upserted(state),
                StateRead::All(wallpapers) => v.with_states(wallpapers),
            }
        }
    }

    /// Every wallpaper of the snapshot belongs to a screen of its own, and the
    /// store answers for each screen the snapshot's wallpaper of that screen.
    pub open spec fn keyed_by_snapshot(self) -> bool {
        &&& self.consistent()
        &&& distinct_screens_of(self.wallpapers)
        &&& forall|i: int|
            0 <= i < self.wallpapers.len() ==> self.states[(#[trigger] self.wallpapers[i]).screen_id@]
                == self.wallpapers[i]
    }
}

/// No two states of `states` belong to the same screen.
pub open spec fn distinct_screens_of(states: Seq<WallpaperState>) -> bool {
    forall|i: int, j: int|
        0 <= i < states.len() && 0 <= j < states.len() && i != j ==> (#[trigger] states[i]).screen_id@
            != (#[trigger] states[j]).screen_id@
}

/// `i` is the last position of `screens` listed under `id`.
pub open spec fn last_listed(screens: Seq<ScreenDescriptor>, id: Seq<char>, i: int) -> bool {
    &&& 0 <= i < screens.len()
    &&& screens[i].screen_id@ == id
    &&& forall|j: int| i < j < screens.len() ==> (#[trigger] screens[j]).screen_id@ != id
}

/// Reads of states keep the screens and their index.
proof fn lemma_reads_keep_screens(v: StoreView, reads: Seq<StateRead>)
    ensures
        v.after_reads(reads).screens == v.screens,
        v.after_reads(reads).screen_index == v.screen_index,
    decreases reads.len(),
{
    if reads.len() > 0 {
        lemma_reads_keep_screens(v, reads.drop_last());
    }
}

/// When some screen is listed under `id`, a last one is.
proof fn lemma_last_listed_exists(screens: Seq<ScreenDescriptor>, id: Seq<char>, i: int)
    requires
        0 <= i < screens.len(),
        screens[i].screen_id@ == id,
    ensures
        exists|m: int| last_listed(screens, id, m),
    decreases screens.len() - i,
{
    if exists|j: int| i < j < screens.len() && (#[trigger] screens[j]).screen_id@ == id {
        let j = choose|j: int| i < j < screens.len() && (#[trigger] screens[j]).screen_id@ == id;
        lemma_last_listed_exists(screens, id, j);
    } else {
        assert(last_listed(screens, id, i));
    }
}

/// After a full read, whatever state reads follow, the store knows exactly
/// the screens of that read, and gives for an identifier the last screen
/// listed under it.
pub proof fn lemma_screens_survive_state_reads(
    screens: Seq<ScreenDescriptor>,
    wallpapers: Seq<WallpaperState>,
    reads: Seq<StateRead>,
    id: Seq<char>,
)
    ensures
        StoreView::replaced(screens, wallpapers).after_reads(reads).screens == screens,
        StoreView::replaced(screens, wallpapers).after_reads(reads).screen_index.contains_key(id)
            <==> lists_screen(screens, id),
        forall|i: int|
            #[trigger] last_listed(screens, id, i) ==> StoreView::replaced(screens, wallpapers).after_reads(
                reads,
            ).screen_index[id] == screens[i],
{
    let v = StoreView::replaced(screens, wallpapers);
    lemma_reads_keep_screens(v, reads);
    lemma_keyed_screens_dom(screens, id);
    assert forall|i: int| #[trigger] last_listed(screens, id, i) implies v.after_reads(
        reads,
    ).screen_index[id] == screens[i] by {
        lemma_keyed_screens_at(screens, i);
    }
    if lists_screen(screens, id) {
        let i = choose|i: int| 0 <= i < screens.len() && (#[trigger] screens[i]).screen_id@ == id;
        lemma_last_listed_exists(screens, id, i);
    }
}

/// A full read of wallpapers of distinct screens is keyed by its snapshot.
pub proof fn lemma_replaced_keyed(screens: Seq<ScreenDescriptor>, wallpapers: Seq<WallpaperState>)
    requires
        distinct_screens_of(wallpapers),
    ensures
        StoreView::replaced(screens, wallpapers).keyed_by_snapshot(),
{
    lemma_replaced_consistent(screens, wallpapers);
    assert forall|i: int| 0 <= i < wallpapers.len() implies keyed_states(wallpapers)[(
    #[trigger] wallpapers[i]).screen_id@] == wallpapers[i] by {
        assert forall|j: int| i < j < wallpapers.len() implies (#[trigger] wallpapers[j]).screen_id@
            != wallpapers[i].screen_id@ by {
            assert(wallpapers[i].screen_id@ != wallpapers[j].screen_id@);
        }
        lemma_keyed_states_at(wallpapers, i);
    }
}

/// Reading one screen's state again keeps the wallpapers of distinct
/// screens, and the store's answer for each screen its snapshot wallpaper.
pub proof fn lemma_upsert_keeps_keyed(store: StoreView, state: WallpaperState)
    requires
        store.keyed_by_snapshot(),
    ensures
        store.upserted(state).keyed_by_snapshot(),
{
    let u = store.upserted(state);
    let ws = store.wallpapers;
    let key = state.screen_id@;
    let p = state_position(ws, key);
    lemma_upserted_consistent(store, state);
    if p >= 0 {
        assert(first_state_of(ws, key, p)) by {
            let w = choose|i: int| first_state_of(ws, key, i);
        }
        assert(u.wallpapers == ws.update(p, state));
        assert forall|i: int, j: int|
            0 <= i < u.wallpapers.len() && 0 <= j < u.wallpapers.len() && i != j implies (
            #[trigger] u.wallpapers[i]).screen_id@ != (#[trigger] u.wallpapers[j]).screen_id@ by {
            assert(ws[i].screen_id@ != ws[j].screen_id@);
        }
        assert forall|i: int| 0 <= i < u.wallpapers.len() implies u.states[(
        #[trigger] u.wallpapers[i]).screen_id@] == u.wallpapers[i] by {
            if i != p {
                assert(ws[i].screen_id@ != ws[p].screen_id@);
            }
        }
    } else {
        assert forall|i: int| 0 <= i < ws.len() implies (#[trigger] ws[i]).screen_id@ != key by {
            if ws[i].screen_id@ == key {
                lemma_first_exists(ws, key, i);
            }
        }
        assert(u.wallpapers == ws.push(state));
        assert forall|i: int, j: int|
            0 <= i < u.wallpapers.len() && 0 <= j < u.wallpapers.len() && i != j implies (
            #[trigger] u.wallpapers[i]).screen_id@ != (#[trigger] u.wallpapers[j]).screen_id@ by {
            if i < ws.len() && j < ws.len() {
                assert(ws[i].screen_id@ != ws[j].screen_id@);
            } else if i < ws.len() {
                assert(ws[i].screen_id@ != key);
            } else {
                assert(ws[j].screen_id@ != key);
            }
        }
        assert forall|i: int| 0 <= i < u.wallpapers.len() implies u.states[(
        #[trigger] u.wallpapers[i]).screen_id@] == u.wallpapers[i] by {
            if i < ws.len() {
                assert(ws[i].screen_id@ != key);
            }
        }
    }
}

/// The system's screens and wallpapers as last read, with lookups by screen.
#[derive(Debug)]
pub struct WallpaperStateStore {
    snapshot: WallpaperSnapshot,
    /// The states by screen: the last entry of a screen is its state.
    states_by_screen: Vec<WallpaperState>,
}

impl View for WallpaperStateStore {
    type V = StoreView;

    closed spec fn view(&self) -> StoreView {
        StoreView {
            screens: self.snapshot.screens@,
            wallpapers: self.snapshot.wallpapers@,
            states: keyed_states(self.states_by_screen@),
            screen_index: keyed_screens(self.snapshot.screens@),
        }
    }
}

pub(crate) fn clone_states(states: &Vec<WallpaperState>) -> (copy: Vec<WallpaperState>)
    ensures
        copy@ == states@,
{
    let mut copy: Vec<WallpaperState> = Vec::new();
    let mut i: usize = 0;
    while i < states.len()
        invariant
            i <= states@.len(),
            copy@ == states@.take(i as int),
        decreases states@.len() - i,
    {
        copy.push(states[i].clone());
        assert(copy@ =~= states@.take(i + 1));
        i = i + 1;
    }
    assert(copy@ =~= states@);
    copy
}

impl WallpaperStateStore {
    #[verifier::type_invariant]
    closed spec fn answers_from_snapshot(self) -> bool {
        self@.consistent()
    }

    pub fn new() -> (store: Self)
        ensures
            store@ == StoreView::empty(),
            store@.consistent(),
    {
        let store = WallpaperStateStore {
            snapshot: WallpaperSnapshot::default(),
            states_by_screen: Vec::new(),
        };
        proof {
            assert(store.snapshot.screens@ =~= Seq::<ScreenDescriptor>::empty());
            assert(store.snapshot.wallpapers@ =~= Seq::<WallpaperState>::empty());
            assert(store@.states =~= Map::empty());
            assert(store@.screen_index =~= Map::empty());
            assert(store.states_by_screen@ =~= store.snapshot.wallpapers@);
            lemma_replaced_consistent(store.snapshot.screens@, store.snapshot.wallpapers@);
        }
        store
    }

    pub fn snapshot(&self) -> (snapshot: &WallpaperSnapshot)
        ensures
            snapshot.screens@ == self@.screens,
            snapshot.wallpapers@ == self@.wallpapers,
    {
        &self.snapshot
    }

    /// Takes a full read: the screens and the wallpapers replace everything held.
    pub fn replace(&mut self, screens: Vec<ScreenDescriptor>, wallpapers: Vec<WallpaperState>)
        ensures
            final(self)@ == StoreView::replaced(screens@, wallpapers@),
            final(self)@.consistent(),
    {
        let states = clone_states(&wallpapers);
        proof {
            lemma_replaced_consistent(screens@, wallpapers@);
        }
        *self = WallpaperStateStore {
            snapshot: WallpaperSnapshot { screens, wallpapers },
            states_by_screen: states,
        };
    }

    /// Takes a new read of the wallpapers; the screens stay.
    pub fn replace_states(&mut self, wallpapers: Vec<WallpaperState>)
        ensures
            final(self)@ == old(self)@.with_states(wallpapers@),
            final(self)@.consistent(),
    {
        let states = clone_states(&wallpapers);
        let screens = clone_screens(&self.snapshot.screens);
        proof {
            lemma_replaced_consistent(screens@, wallpapers@);
        }
        *self = WallpaperStateStore {
            snapshot: WallpaperSnapshot { screens, wallpapers },
            states_by_screen: states,
        };
    }

    /// Takes a new read of one screen's state: the store answers it for that
    /// screen, and the snapshot's first wallpaper of that screen is replaced
    /// by it (or it is appended).
    pub fn upsert_state(&mut self, state: WallpaperState)
        ensures
            final(self)@ == old(self)@.upserted(state),
            final(self)@.consistent(),
    {
        proof {
            use_type_invariant(&*self);
        }
        let ghost before = self@;
        let mut taken = WallpaperStateStore::new();
        std::mem::swap(self, &mut taken);
        let WallpaperStateStore { snapshot, states_by_screen } = taken;
        let WallpaperSnapshot { screens, wallpapers } = snapshot;
        let mut states_by_screen = states_by_screen;
        let mut wallpapers = wallpapers;
        let ghost old_states = states_by_screen@;
        let ghost old_wallpapers = wallpapers@;
        assert(before.states == keyed_states(old_states));
        assert(before.wallpapers == old_wallpapers);
        match last_state_position(&states_by_screen, &state.screen_id) {
            Some(i) => {
                states_by_screen.set(i, state.clone());
                proof {
                    lemma_keyed_states_update(old_states, i as int, state);
                }
            },
            None => {
                states_by_screen.push(state.clone());
                proof {
                    assert(states_by_screen@.drop_last() =~= old_states);
                }
            },
        }
        match first_state_position(&wallpapers, &state.screen_id) {
            Some(j) => {
                wallpapers.set(j, state);
            },
            None => {
                wallpapers.push(state);
            },
        }
        proof {
            lemma_upserted_consistent(before, state);
        }
        *self = WallpaperStateStore {
            snapshot: WallpaperSnapshot { screens, wallpapers },
            states_by_screen,
        };
    }

    /// The current state of a screen, if the store has read one.
    pub fn get_state(&self, screen_id: &ScreenId) -> (state: Option<&WallpaperState>)
        ensures
            match state {
                Some(s) => self@.states.contains_key(screen_id@) && *s == self@.states[screen_id@],
                None => !self@.states.contains_key(screen_id@),
            },
    {
        proof {
            lemma_keyed_states_dom(self.states_by_screen@, screen_id@);
        }
        match last_state_position(&self.states_by_screen, screen_id) {
            Some(i) => {
                proof {
                    lemma_keyed_states_at(self.states_by_screen@, i as int);
                }
                Some(&self.states_by_screen[i])
            },
            None => None,
        }
    }

    /// A screen of the last full read, if it is one.
    pub fn get_screen(&self, screen_id: &ScreenId) -> (screen: Option<&ScreenDescriptor>)
        ensures
            match screen {
                Some(s) => self@.screen_index.contains_key(screen_id@) && *s
                    == self@.screen_index[screen_id@],
                None => !self@.screen_index.contains_key(screen_id@),
            },
    {
        proof {
            lemma_keyed_screens_dom(self.snapshot.screens@, screen_id@);
        }
        let screens = &self.snapshot.screens;
        let mut i: usize = screens.len();
        while i > 0
            invariant
                screens@ == self.snapshot.screens@,
                i <= screens@.len(),
                forall|j: int| i <= j < screens@.len() ==> (#[trigger] screens@[j]).screen_id@
                    != screen_id@,
            decreases i,
        {
            if screens[i - 1].screen_id == *screen_id {
                proof {
                    lemma_keyed_screens_at(screens@, i - 1);
                }
                return Some(&screens[i - 1]);
            }
            i = i - 1;
        }
        None
    }

    /// The screens of the last full read, in system order.
    pub fn screens(&self) -> (screens: &[ScreenDescriptor])
        ensures
            screens@ == self@.screens,
    {
        self.snapshot.screens.as_slice()
    }

    /// Whether the last full read listed the screen.
    pub fn contains_screen(&self, screen_id: &ScreenId) -> (found: bool)
        ensures
            found == self@.screen_index.contains_key(screen_id@),
    {
        proof {
            lemma_keyed_screens_dom(self.snapshot.screens@, screen_id@);
        }
        screen_listed(&self.snapshot.screens, screen_id)
    }
}

impl Default for WallpaperStateStore {
    fn default() -> (store: Self)
        ensures
            store@ == StoreView::empty(),
    {
        WallpaperStateStore::new()
    }
}

impl Clone for WallpaperStateStore {
    fn clone(&self) -> (copy: Self)
        ensures
            copy@ == self@,
    {
        proof {
            use_type_invariant(self);
        }
        WallpaperStateStore {
            snapshot: WallpaperSnapshot {
                screens: clone_screens(&self.snapshot.screens),
                wallpapers: clone_states(&self.snapshot.wallpapers),
            },
            states_by_screen: clone_states(&self.states_by_screen),
        }
    }
}

fn clone_screens(screens: &Vec<ScreenDescriptor>) -> (copy: Vec<ScreenDescriptor>)
    ensures
        copy@ == screens@,
{
    let mut copy: Vec<ScreenDescriptor> = Vec::new();
    let mut i: usize = 0;
    while i < screens.len()
        invariant
            i <= screens@.len(),
            copy@ == screens@.take(i as int),
        decreases screens@.len() - i,
    {
        copy.push(screens[i].clone());
        assert(copy@ =~= screens@.take(i + 1));
        i = i + 1;
    }
    assert(copy@ =~= screens@);
    copy
}

/// The last position of a state of screen `id`.
fn last_state_position(states: &Vec<WallpaperState>, id: &ScreenId) -> (pos: Option<usize>)
    ensures
        match pos {
            Some(i) => i < states@.len() && states@[i as int].screen_id@ == id@ && forall|j: int|
                i < j < states@.len() ==> (#[trigger] states@[j]).screen_id@ != id@,
            None => forall|j: int| 0 <= j < states@.len() ==> (#[trigger] states@[j]).screen_id@
                != id@,
        },
{
    let mut i: usize = states.len();
    while i > 0
        invariant
            i <= states@.len(),
            forall|j: int| i <= j < states@.len() ==> (#[trigger] states@[j]).screen_id@ != id@,
        decreases i,
    {
        if states[i - 1].screen_id == *id {
            return Some(i - 1);
        }
        i = i - 1;
    }
    None
}

/// The first position of a state of screen `id`.
fn first_state_position(states: &Vec<WallpaperState>, id: &ScreenId) -> (pos: Option<usize>)
    ensures
        match pos {
            Some(i) => state_position(states@, id@) == i as int,
            None => state_position(states@, id@) == -1,
        },
{
    let mut i: usize = 0;
    while i < states.len()
        invariant
            i <= states@.len(),
            forall|j: int| 0 <= j < i ==> (#[trigger] states@[j]).screen_id@ != id@,
        decreases states@.len() - i,
    {
        if states[i].screen_id == *id {
            proof {
                assert(first_state_of(states@, id@, i as int));
                let k = choose|k: int| first_state_of(states@, id@, k);
                if k < i {
                    assert(states@[k].screen_id@ != id@);
                } else if k > i {
                    assert(states@[i as int].screen_id@ != id@);
                }
            }
            return Some(i);
        }
        i = i + 1;
    }
    proof {
        assert(!exists|k: int| first_state_of(states@, id@, k));
    }
    None
}

/// Reading one screen's state again keeps the store consistent.
proof fn lemma_upserted_consistent(v: StoreView, state: WallpaperState)
    requires
        v.consistent(),
    ensures
        v.upserted(state).consistent(),
{
    let u = v.upserted(state);
    let key = state.screen_id@;
    let p = state_position(v.wallpapers, key);
    if p >= 0 {
        assert(first_state_of(v.wallpapers, key, p)) by {
            let w = choose|i: int| first_state_of(v.wallpapers, key, i);
        }
    } else {
        assert forall|i: int| 0 <= i < v.wallpapers.len() implies (#[trigger] v.wallpapers[i]).screen_id@
            != key by {
            if v.wallpapers[i].screen_id@ == key {
                let mut m = i;
                assert(exists|m: int| first_state_of(v.wallpapers, key, m)) by {
                    lemma_first_exists(v.wallpapers, key, i);
                }
            }
        }
    }
    assert forall|k: Seq<char>| #[trigger] u.states.contains_key(k) <==> exists|i: int|
        0 <= i < u.wallpapers.len() && (#[trigger] u.wallpapers[i]).screen_id@ == k by {
        if k == key {
            if p >= 0 {
                assert(u.wallpapers[p].screen_id@ == k);
            } else {
                assert(u.wallpapers[v.wallpapers.len() as int].screen_id@ == k);
            }
        } else {
            if v.states.contains_key(k) {
                let i = choose|i: int|
                    0 <= i < v.wallpapers.len() && (#[trigger] v.wallpapers[i]).screen_id@ == k;
                assert(u.wallpapers[i] == v.wallpapers[i]);
            }
            if exists|i: int| 0 <= i < u.wallpapers.len() && (#[trigger] u.wallpapers[i]).screen_id@ == k {
                let i = choose|i: int|
                    0 <= i < u.wallpapers.len() && (#[trigger] u.wallpapers[i]).screen_id@ == k;
                assert(v.wallpapers[i] == u.wallpapers[i]);
            }
        }
    }
    assert forall|k: Seq<char>| #[trigger] u.states.contains_key(k) implies u.states[k].screen_id@
        == k && u.wallpapers.contains(u.states[k]) by {
        if k == key {
            if p >= 0 {
                assert(u.wallpapers[p] == state);
            } else {
                assert(u.wallpapers[v.wallpapers.len() as int] == state);
            }
        } else {
            let i = choose|i: int| 0 <= i < v.wallpapers.len() && v.wallpapers[i] == v.states[k];
            if p >= 0 {
                assert(i != p);
            }
            assert(u.wallpapers[i] == v.wallpapers[i]);
        }
    }
}

/// Some state of screen `key` makes a first one exist.
proof fn lemma_first_exists(states: Seq<WallpaperState>, key: Seq<char>, i: int)
    requires
        0 <= i < states.len(),
        states[i].screen_id@ == key,
    ensures
        exists|m: int| first_state_of(states, key, m),
    decreases i,
{
    if exists|j: int| 0 <= j < i && (#[trigger] states[j]).screen_id@ == key {
        let j = choose|j: int| 0 <= j < i && (#[trigger] states[j]).screen_id@ == key;
        lemma_first_exists(states, key, j);
    } else {
        assert(first_state_of(states, key, i));
    }
}

} // verus!
