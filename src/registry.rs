//! The table from device identity to the mixing session that plays on it.
//!
//! The table holds a non-owning handle `W` per device (a weak reference in
//! practice). A caller that plays on a device looks its entry up, tries to
//! revive the handle, and creates a new session only when there was no entry
//! or the session behind it is gone. Stale entries are replaced on use, never
//! swept.

use vstd::prelude::*;

verus! {

/// One device and the handle of its session.
struct RegistryEntry<W> {
    device: String,
    handle: W,
}

/// Maps each device identity to the handle of the session that plays on it.
pub struct SessionRegistry<W> {
    entries: Vec<RegistryEntry<W>>,
}

/// The map that a list of entries describes; a later entry for a device
/// shadows an earlier one.
spec fn entries_map<W>(entries: Seq<RegistryEntry<W>>) -> Map<Seq<char>, W>
    decreases entries.len(),
{
    if entries.len() == 0 {
        Map::empty()
    } else {
        entries_map(entries.drop_last()).insert(entries.last().device@, entries.last().handle)
    }
}

/// No device has two entries.
spec fn devices_unique<W>(entries: Seq<RegistryEntry<W>>) -> bool {
    forall|i: int, j: int|
        0 <= i < j < entries.len() ==> entries[i].device@ != entries[j].device@
}

/// Whether a call that plays on a device creates a new session: unless the
/// device had an entry and its session was still alive.
pub open spec fn play_creates(had_entry: bool, alive: bool) -> bool {
    !(had_entry && alive)
}

/// What one play call on `device` does to the table, where `alive` says
/// whether it found the session of the device's entry still alive and
/// `created` whether it made a new session: it creates exactly when
/// `play_creates` says so, leaves the table alone when it reuses, and
/// otherwise points the device at the new session's handle. Either way the
/// device has an entry afterwards.
pub open spec fn play_step<W>(
    before: Map<Seq<char>, W>,
    after: Map<Seq<char>, W>,
    device: Seq<char>,
    alive: bool,
    created: bool,
) -> bool {
    &&& created == play_creates(before.contains_key(device), alive)
    &&& after.contains_key(device)
    &&& !created ==> after == before
    &&& created ==> after == before.insert(device, after[device])
}

/// A run of play calls on one device: call `k` takes the table from
/// `tables[k]` to `tables[k + 1]`.
pub open spec fn play_run<W>(
    device: Seq<char>,
    tables: Seq<Map<Seq<char>, W>>,
    alive: Seq<bool>,
    created: Seq<bool>,
) -> bool {
    &&& tables.len() == alive.len() + 1
    &&& created.len() == alive.len()
    &&& forall|k: int|
        0 <= k < alive.len() ==> #[trigger] play_step(
            tables[k],
            tables[k + 1],
            device,
            alive[k],
            created[k],
        )
}

proof fn lemma_run_after_first<W>(
    device: Seq<char>,
    tables: Seq<Map<Seq<char>, W>>,
    alive: Seq<bool>,
    created: Seq<bool>,
)
    requires
        play_run(device, tables, alive, created),
        forall|k: int| 1 <= k < alive.len() ==> alive[k],
    ensures
        forall|k: int| 1 <= k < created.len() ==> !created[k],
{
    assert forall|k: int| 1 <= k < created.len() implies !created[k] by {
        assert(play_step(tables[k - 1], tables[k - 1 + 1], device, alive[k - 1], created[k - 1]));
        assert(play_step(tables[k], tables[k + 1], device, alive[k], created[k]));
    }
}

/// However many play calls target a device that has no entry yet, exactly
/// one session is made for it (by the first call), as long as every later
/// call finds the session made before still alive.
pub proof fn lemma_one_session_per_device<W>(
    device: Seq<char>,
    tables: Seq<Map<Seq<char>, W>>,
    alive: Seq<bool>,
    created: Seq<bool>,
)
    requires
        play_run(device, tables, alive, created),
        alive.len() >= 1,
        !tables[0].contains_key(device),
        forall|k: int| 1 <= k < alive.len() ==> alive[k],
    ensures
        created[0],
        forall|k: int| 1 <= k < created.len() ==> !created[k],
{
    assert(play_step(tables[0], tables[0int + 1], device, alive[0], created[0]));
    lemma_run_after_first(device, tables, alive, created);
}

/// Once every holder of a device's session has let it go, the next play
/// call on that device makes a new session and points the device's entry at
/// it, and the later calls that find the new session alive make none: a
/// stale entry never blocks the device.
pub proof fn lemma_stale_entry_replaced<W>(
    device: Seq<char>,
    tables: Seq<Map<Seq<char>, W>>,
    alive: Seq<bool>,
    created: Seq<bool>,
)
    requires
        play_run(device, tables, alive, created),
        alive.len() >= 1,
        tables[0].contains_key(device),
        !alive[0],
        forall|k: int| 1 <= k < alive.len() ==> alive[k],
    ensures
        created[0],
        tables[1] == tables[0].insert(device, tables[1][device]),
        forall|k: int| 1 <= k < created.len() ==> !created[k],
{
    assert(play_step(tables[0], tables[0int + 1], device, alive[0], created[0]));
    lemma_run_after_first(device, tables, alive, created);
}

proof fn lemma_entries_map<W>(entries: Seq<RegistryEntry<W>>)
    requires
        devices_unique(entries),
    ensures
        forall|i: int|
            0 <= i < entries.len() ==> #[trigger] entries_map(entries).contains_key(
                entries[i].device@,
            ) && entries_map(entries)[entries[i].device@] == entries[i].handle,
        forall|k: Seq<char>|
            #[trigger] entries_map(entries).contains_key(k) ==> exists|i: int|
                0 <= i < entries.len() && entries[i].device@ == k,
    decreases entries.len(),
{
    if entries.len() > 0 {
        let init = entries.drop_last();
        assert(devices_unique(init));
        lemma_entries_map(init);
        assert(entries_map(entries) == entries_map(init).insert(
            entries.last().device@,
            entries.last().handle,
        ));
        assert forall|k: Seq<char>| #[trigger] entries_map(entries).contains_key(k) implies exists|
            i: int,
        |
            0 <= i < entries.len() && entries[i].device@ == k by {
            if k != entries.last().device@ {
                assert(entries_map(init).contains_key(k));
                let i = choose|i: int| 0 <= i < init.len() && init[i].device@ == k;
                assert(entries[i] == init[i]);
            } else {
                assert(entries[entries.len() - 1].device@ == k);
            }
        }
        assert forall|i: int| 0 <= i < entries.len() implies #[trigger] entries_map(
            entries,
        ).contains_key(entries[i].device@) && entries_map(entries)[entries[i].device@]
            == entries[i].handle by {
            if i < entries.len() - 1 {
                assert(entries[i] == init[i]);
            }
        }
    }
}

impl<W> View for SessionRegistry<W> {
    type V = Map<Seq<char>, W>;

    closed spec fn view(&self) -> Map<Seq<char>, W> {
        entries_map(self.entries@)
    }
}

impl<W> SessionRegistry<W> {
    /// No device has two entries.
    #[verifier::type_invariant]
    spec fn wf(&self) -> bool {
        devices_unique(self.entries@)
    }

    /// An empty registry.
    pub fn new() -> (r: Self)
        ensures
            r@ == Map::<Seq<char>, W>::empty(),
    {
        SessionRegistry { entries: Vec::new() }
    }

    /// The number of devices with an entry, live or stale.
    pub fn len(&self) -> (r: usize)
        ensures
            r == self@.len(),
    {
        proof {
            use_type_invariant(self);
            lemma_map_len(self.entries@);
        }
        self.entries.len()
    }

    /// The position of the device's entry, if it has one.
    fn find(&self, device: &String) -> (r: Option<usize>)
        ensures
            match r {
                Some(i) => i < self.entries@.len() && self.entries@[i as int].device@ == device@,
                None => !self@.contains_key(device@),
            },
    {
        proof {
            use_type_invariant(self);
            lemma_entries_map(self.entries@);
        }
        let mut i: usize = 0;
        while i < self.entries.len()
            invariant
                i <= self.entries@.len(),
                forall|j: int| 0 <= j < i ==> self.entries@[j].device@ != device@,
            decreases self.entries@.len() - i,
        {
            if self.entries[i].device == *device {
                return Some(i);
            }
            i = i + 1;
        }
        None
    }

    /// The handle stored for a device, if it has an entry.
    pub fn get(&self, device: &String) -> (r: Option<&W>)
        ensures
            match r {
                Some(h) => self@.contains_key(device@) && *h == self@[device@],
                None => !self@.contains_key(device@),
            },
    {
        proof {
            use_type_invariant(self);
            lemma_entries_map(self.entries@);
        }
        match self.find(device) {
            Some(i) => {
                assert(entries_map(self.entries@).contains_key(self.entries@[i as int].device@));
                Some(&self.entries[i].handle)
            },
            None => None,
        }
    }

    /// Points the device's entry at `handle`, adding the entry or replacing
    /// a stale one.
    pub fn install(&mut self, device: String, handle: W)
        ensures
            final(self)@ == old(self)@.insert(device@, handle),
    {
        proof {
            use_type_invariant(&*self);
        }
        let found = self.find(&device);
        let mut entries: Vec<RegistryEntry<W>> = Vec::new();
        std::mem::swap(&mut entries, &mut self.entries);
        let e = RegistryEntry { device, handle };
        match found {
            Some(i) => {
                proof {
                    lemma_entries_map_update(entries@, i as int, e);
                }
                entries.set(i, e);
            },
            None => {
                proof {
                    lemma_entries_map(entries@);
                    assert(entries@.push(e).drop_last() == entries@);
                    assert forall|j: int| 0 <= j < entries@.len() implies entries@[j].device@
                        != e.device@ by {
                        assert(entries_map(entries@).contains_key(entries@[j].device@));
                    }
                }
                entries.push(e);
            },
        }
        self.entries = entries;
    }

    /// Tries to revive the session of the device's entry with `upgrade`.
    /// `None` when the device has no entry or its session is gone.
    pub fn lookup<S, U: Fn(&W) -> Option<S>>(&self, device: &String, upgrade: U) -> (r: Option<S>)
        requires
            forall|w: &W| #[trigger] upgrade.requires((w,)),
        ensures
            !self@.contains_key(device@) ==> r is None,
            self@.contains_key(device@) ==> upgrade.ensures((&self@[device@],), r),
    {
        match self.get(device) {
            Some(h) => upgrade(h),
            None => None,
        }
    }

    /// Decides a play call on `device` from what `lookup` found: reuses a
    /// live session; otherwise makes one with `create` (which also hands back
    /// its not yet started feeder), stores `downgrade` of it for the device,
    /// and returns the feeder to be started.
    pub fn settle<S, V, C: FnOnce() -> (S, V), D: FnOnce(&S) -> W>(
        &mut self,
        device: String,
        found: Option<S>,
        create: C,
        downgrade: D,
    ) -> (r: (S, Option<V>))
        requires
            found is Some ==> old(self)@.contains_key(device@),
            create.requires(()),
            forall|s: &S| #[trigger] downgrade.requires((s,)),
        ensures
            play_step(old(self)@, final(self)@, device@, found is Some, r.1 is Some),
            match found {
                Some(s) => r.0 == s && final(self)@ == old(self)@,
                None => {
                    &&& create.ensures((), (r.0, r.1->0))
                    &&& downgrade.ensures((&r.0,), final(self)@[device@])
                    &&& final(self)@ == old(self)@.insert(device@, final(self)@[device@])
                },
            },
    {
        match found {
            Some(s) => (s, None),
            None => {
                let (s, v) = create();
                let h = downgrade(&s);
                self.install(device, h);
                (s, Some(v))
            },
        }
    }

    /// A play call on `device`: the session to add a source to, and the
    /// feeder to start when the session is new. A session is made exactly
    /// when the device has no entry or `upgrade` finds its session gone.
    pub fn obtain_or_create<S, V, U: Fn(&W) -> Option<S>, C: FnOnce() -> (S, V), D: FnOnce(&S) -> W>(
        &mut self,
        device: String,
        upgrade: U,
        create: C,
        downgrade: D,
    ) -> (r: (S, Option<V>))
        requires
            forall|w: &W| #[trigger] upgrade.requires((w,)),
            create.requires(()),
            forall|s: &S| #[trigger] downgrade.requires((s,)),
        ensures
            exists|alive: bool|
                {
                    &&& #[trigger] play_step(old(self)@, final(self)@, device@, alive, r.1 is Some)
                    &&& alive ==> upgrade.ensures((&old(self)@[device@],), Some(r.0))
                    &&& !alive && old(self)@.contains_key(device@) ==> upgrade.ensures(
                        (&old(self)@[device@],),
                        None,
                    )
                },
            r.1 is None ==> {
                &&& old(self)@.contains_key(device@)
                &&& upgrade.ensures((&old(self)@[device@],), Some(r.0))
                &&& final(self)@ == old(self)@
            },
            r.1 is Some ==> {
                &&& old(self)@.contains_key(device@) ==> upgrade.ensures(
                    (&old(self)@[device@],),
                    None,
                )
                &&& create.ensures((), (r.0, r.1->0))
                &&& downgrade.ensures((&r.0,), final(self)@[device@])
                &&& final(self)@ == old(self)@.insert(device@, final(self)@[device@])
            },
    {
        let found = self.lookup(&device, upgrade);
        let ghost alive = found is Some;
        let r = self.settle(device, found, create, downgrade);
        assert(play_step(old(self)@, self@, device@, alive, r.1 is Some));
        r
    }
}

proof fn lemma_entries_map_update<W>(entries: Seq<RegistryEntry<W>>, i: int, e: RegistryEntry<W>)
    requires
        devices_unique(entries),
        0 <= i < entries.len(),
        e.device@ == entries[i].device@,
    ensures
        devices_unique(entries.update(i, e)),
        entries_map(entries.update(i, e)) == entries_map(entries).insert(e.device@, e.handle),
{
    let new = entries.update(i, e);
    assert(devices_unique(new));
    lemma_entries_map(entries);
    lemma_entries_map(new);
    let m = entries_map(entries).insert(e.device@, e.handle);
    assert forall|k: Seq<char>| #[trigger] entries_map(new).contains_key(k) implies m.contains_key(k)
        && entries_map(new)[k] == m[k] by {
        let j = choose|j: int| 0 <= j < new.len() && new[j].device@ == k;
        assert(new[j] == new[j]);
        if j != i {
            assert(entries[j] == new[j]);
        }
    }
    assert forall|k: Seq<char>| #[trigger] m.contains_key(k) implies entries_map(new).contains_key(
        k,
    ) by {
        if k != e.device@ {
            let j = choose|j: int| 0 <= j < entries.len() && entries[j].device@ == k;
            assert(entries[j] == new[j]);
        } else {
            assert(new[i] == e);
        }
    }
    assert(entries_map(new) =~= m);
}

proof fn lemma_map_len<W>(entries: Seq<RegistryEntry<W>>)
    requires
        devices_unique(entries),
    ensures
        entries_map(entries).len() == entries.len(),
        entries_map(entries).dom().finite(),
    decreases entries.len(),
{
    if entries.len() > 0 {
        let init = entries.drop_last();
        lemma_map_len(init);
        lemma_entries_map(init);
        if entries_map(init).contains_key(entries.last().device@) {
            let i = choose|i: int| 0 <= i < init.len() && init[i].device@ == entries.last().device@;
            assert(entries[i] == init[i]);
        }
    }
}

} // verus!
