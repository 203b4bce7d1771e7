//! Registration of input contexts per schedule.
//!
//! Each schedule in which contexts are evaluated gets one entry that lists,
//! in registration order, the component identifiers of the registered
//! contexts' action lists and activities. The entries themselves are kept in
//! the order in which their schedules were first used.

use vstd::prelude::*;

verus! {

/// The abstract content of one schedule's registrations.
pub struct ScheduleEntry {
    /// Identifier of the schedule.
    pub schedule_id: usize,
    /// Identifiers of the registered contexts' action lists.
    pub actions_ids: Seq<usize>,
    /// Identifiers of the registered contexts' activities.
    pub activity_ids: Seq<usize>,
}

/// Input contexts registered for one schedule.
pub struct ScheduleContexts {
    schedule_id: usize,
    actions_ids: Vec<usize>,
    activity_ids: Vec<usize>,
}

impl View for ScheduleContexts {
    type V = ScheduleEntry;

    closed spec fn view(&self) -> ScheduleEntry {
        ScheduleEntry {
            schedule_id: self.schedule_id,
            actions_ids: self.actions_ids@,
            activity_ids: self.activity_ids@,
        }
    }
}

impl ScheduleContexts {
    /// Creates an entry for the given schedule without any context.
    pub fn new(schedule_id: usize) -> (r: Self)
        ensures
            r@ == (ScheduleEntry {
                schedule_id,
                actions_ids: Seq::empty(),
                activity_ids: Seq::empty(),
            }),
    {
        ScheduleContexts { schedule_id, actions_ids: Vec::new(), activity_ids: Vec::new() }
    }

    /// Identifier of the schedule.
    pub fn schedule_id(&self) -> (r: usize)
        ensures
            r == self@.schedule_id,
    {
        self.schedule_id
    }

    /// Identifiers of the registered contexts' action lists.
    pub fn actions_ids(&self) -> (r: &Vec<usize>)
        ensures
            r@ == self@.actions_ids,
    {
        &self.actions_ids
    }

    /// Identifiers of the registered contexts' activities.
    pub fn activity_ids(&self) -> (r: &Vec<usize>)
        ensures
            r@ == self@.activity_ids,
    {
        &self.activity_ids
    }
}

/// Each schedule occurs at most once, and every entry pairs each action-list
/// identifier with an activity identifier.
pub open spec fn registry_wf(s: Seq<ScheduleEntry>) -> bool {
    &&& forall|i: int, j: int|
        0 <= i < s.len() && 0 <= j < s.len() && i != j ==> s[i].schedule_id != s[j].schedule_id
    &&& forall|i: int| 0 <= i < s.len() ==> s[i].actions_ids.len() == s[i].activity_ids.len()
}

/// Whether schedule `schedule_id` has an entry.
pub open spec fn has_schedule(s: Seq<ScheduleEntry>, schedule_id: usize) -> bool {
    exists|i: int| 0 <= i < s.len() && s[i].schedule_id == schedule_id
}

/// Whether the context with action-list identifier `actions_id` is registered
/// for schedule `schedule_id`.
pub open spec fn is_registered_in(
    s: Seq<ScheduleEntry>,
    schedule_id: usize,
    actions_id: usize,
) -> bool {
    exists|i: int|
        0 <= i < s.len() && s[i].schedule_id == schedule_id && s[i].actions_ids.contains(actions_id)
}

/// The registrations after registering a context for a schedule: the
/// schedule's entry gets both identifiers appended, or, where the schedule has
/// no entry yet, a new entry holding them is appended.
pub open spec fn registered(
    s: Seq<ScheduleEntry>,
    schedule_id: usize,
    actions_id: usize,
    activity_id: usize,
) -> Seq<ScheduleEntry> {
    if has_schedule(s, schedule_id) {
        let i = choose|i: int| 0 <= i < s.len() && s[i].schedule_id == schedule_id;
        s.update(
            i,
            ScheduleEntry {
                schedule_id,
                actions_ids: s[i].actions_ids.push(actions_id),
                activity_ids: s[i].activity_ids.push(activity_id),
            },
        )
    } else {
        s.push(
            ScheduleEntry {
                schedule_id,
                actions_ids: seq![actions_id],
                activity_ids: seq![activity_id],
            },
        )
    }
}

/// After registration the context is registered for its schedule, and the
/// registrations still pair every action-list identifier with an activity
/// identifier and list each schedule once.
pub proof fn law_register_registers(
    s: Seq<ScheduleEntry>,
    schedule_id: usize,
    actions_id: usize,
    activity_id: usize,
)
    requires
        registry_wf(s),
    ensures
        registry_wf(registered(s, schedule_id, actions_id, activity_id)),
        is_registered_in(registered(s, schedule_id, actions_id, activity_id), schedule_id, actions_id),
{
    let t = registered(s, schedule_id, actions_id, activity_id);
    if has_schedule(s, schedule_id) {
        let i = choose|i: int| 0 <= i < s.len() && s[i].schedule_id == schedule_id;
        assert(t[i].actions_ids.last() == actions_id);
        assert(t[i].actions_ids.contains(actions_id));
    } else {
        let i = s.len() as int;
        assert(t[i].actions_ids[0] == actions_id);
        assert(t[i].actions_ids.contains(actions_id));
    }
}

/// Registering a context for one schedule changes no other schedule's entry
/// and moves no entry: schedules are set up in the order of their first use.
pub proof fn law_register_keeps_other_schedules(
    s: Seq<ScheduleEntry>,
    schedule_id: usize,
    actions_id: usize,
    activity_id: usize,
)
    requires
        registry_wf(s),
    ensures
        registered(s, schedule_id, actions_id, activity_id).len() >= s.len(),
        forall|i: int|
            0 <= i < s.len() ==> registered(s, schedule_id, actions_id, activity_id)[i].schedule_id
                == s[i].schedule_id,
        forall|i: int|
            0 <= i < s.len() && s[i].schedule_id != schedule_id ==> registered(
                s,
                schedule_id,
                actions_id,
                activity_id,
            )[i] == s[i],
{
}

/// A registered context stays registered when further contexts are
/// registered.
pub proof fn law_registration_is_kept(
    s: Seq<ScheduleEntry>,
    schedule_id: usize,
    actions_id: usize,
    activity_id: usize,
    other_schedule: usize,
    other_actions: usize,
)
    requires
        registry_wf(s),
        is_registered_in(s, other_schedule, other_actions),
    ensures
        is_registered_in(registered(s, schedule_id, actions_id, activity_id), other_schedule, other_actions),
{
    let t = registered(s, schedule_id, actions_id, activity_id);
    let i = choose|i: int|
        0 <= i < s.len() && s[i].schedule_id == other_schedule && s[i].actions_ids.contains(other_actions);
    let j = choose|j: int| 0 <= j < s[i].actions_ids.len() && s[i].actions_ids[j] == other_actions;
    if s[i].schedule_id == schedule_id {
        assert(t[i].actions_ids[j] == other_actions);
    } else {
        assert(t[i] == s[i]);
    }
    assert(t[i].actions_ids.contains(other_actions));
}

/// Registering a context appends its action-list identifier and its
/// activity identifier, side by side, to its schedule's entry, or creates
/// an entry holding just the two at the end; every other entry is unchanged.
pub proof fn law_register_appends_both_ids(
    s: Seq<ScheduleEntry>,
    schedule_id: usize,
    actions_id: usize,
    activity_id: usize,
)
    requires
        registry_wf(s),
    ensures
        registered(s, schedule_id, actions_id, activity_id).len() == s.len() + if has_schedule(
            s,
            schedule_id,
        ) {
            0int
        } else {
            1int
        },
        forall|i: int|
            0 <= i < s.len() && s[i].schedule_id == schedule_id ==> {
                &&& registered(s, schedule_id, actions_id, activity_id)[i].actions_ids
                    == s[i].actions_ids.push(actions_id)
                &&& registered(s, schedule_id, actions_id, activity_id)[i].activity_ids
                    == s[i].activity_ids.push(activity_id)
            },
        forall|i: int|
            0 <= i < s.len() && s[i].schedule_id != schedule_id ==> #[trigger] registered(
                s,
                schedule_id,
                actions_id,
                activity_id,
            )[i] == s[i],
        !has_schedule(s, schedule_id) ==> registered(s, schedule_id, actions_id, activity_id)[s.len() as int]
            == (ScheduleEntry {
            schedule_id,
            actions_ids: seq![actions_id],
            activity_ids: seq![activity_id],
        }),
{
}

/// Tracks registered input contexts for each schedule.
pub struct ContextRegistry {
    schedules: Vec<ScheduleContexts>,
}

impl View for ContextRegistry {
    type V = Seq<ScheduleEntry>;

    closed spec fn view(&self) -> Seq<ScheduleEntry> {
        self.schedules@.map_values(|e: ScheduleContexts| e@)
    }
}

impl ContextRegistry {
    /// Whether the registry satisfies its invariant.
    pub open spec fn wf(&self) -> bool {
        registry_wf(self@)
    }

    /// Creates an empty registry.
    pub fn new() -> (r: Self)
        ensures
            r@ == Seq::<ScheduleEntry>::empty(),
            r.wf(),
    {
        ContextRegistry { schedules: Vec::new() }
    }

    /// Number of schedules with registered contexts.
    pub fn len(&self) -> (r: usize)
        ensures
            r == self@.len(),
    {
        self.schedules.len()
    }

    /// The entry at position `index`, in order of the schedules' first use.
    pub fn get(&self, index: usize) -> (r: &ScheduleContexts)
        requires
            index < self@.len(),
        ensures
            r@ == self@[index as int],
    {
        &self.schedules[index]
    }

    /// Position of the entry of schedule `schedule_id`, if it has one.
    pub fn find(&self, schedule_id: usize) -> (r: Option<usize>)
        ensures
            r is None <==> !has_schedule(self@, schedule_id),
            r matches Some(i) ==> i < self@.len() && self@[i as int].schedule_id == schedule_id,
    {
        let mut i: usize = 0;
        while i < self.schedules.len()
            invariant
                i <= self.schedules@.len(),
                self@.len() == self.schedules@.len(),
                forall|j: int| 0 <= j < i ==> self@[j].schedule_id != schedule_id,
            decreases self.schedules@.len() - i,
        {
            if self.schedules[i].schedule_id == schedule_id {
                assert(self@[i as int].schedule_id == schedule_id);
                return Some(i);
            }
            i = i + 1;
        }
        None
    }

    /// Whether the context with action-list identifier `actions_id` is
    /// registered for schedule `schedule_id`.
    pub fn is_registered(&self, schedule_id: usize, actions_id: usize) -> (r: bool)
        requires
            self.wf(),
        ensures
            r == is_registered_in(self@, schedule_id, actions_id),
    {
        match self.find(schedule_id) {
            None => false,
            Some(i) => {
                let ids = &self.schedules[i].actions_ids;
                let mut j: usize = 0;
                while j < ids.len()
                    invariant
                        j <= ids@.len(),
                        i < self@.len(),
                        ids@ == self@[i as int].actions_ids,
                        self@[i as int].schedule_id == schedule_id,
                        forall|k: int| 0 <= k < j ==> ids@[k] != actions_id,
                    decreases ids@.len() - j,
                {
                    if ids[j] == actions_id {
                        assert(self@[i as int].actions_ids[j as int] == actions_id);
                        assert(self@[i as int].actions_ids.contains(actions_id));
                        return true;
                    }
                    j = j + 1;
                }
                assert(!self@[i as int].actions_ids.contains(actions_id));
                false
            },
        }
    }

    /// Registers a context, given by the identifiers of its action list and
    /// its activity, for schedule `schedule_id`.
    ///
    /// Returns `true` when the schedule had no entry and one was appended.
    pub fn register(&mut self, schedule_id: usize, actions_id: usize, activity_id: usize) -> (created: bool)
        requires
            old(self).wf(),
        ensures
            final(self).wf(),
            created == !has_schedule(old(self)@, schedule_id),
            final(self)@ == registered(old(self)@, schedule_id, actions_id, activity_id),
            final(self)@.len() == old(self)@.len() + if created { 1int } else { 0int },
            forall|i: int|
                0 <= i < old(self)@.len() && old(self)@[i].schedule_id == schedule_id ==> {
                    &&& final(self)@[i].actions_ids == old(self)@[i].actions_ids.push(actions_id)
                    &&& final(self)@[i].activity_ids == old(self)@[i].activity_ids.push(activity_id)
                },
            forall|i: int|
                0 <= i < old(self)@.len() && old(self)@[i].schedule_id != schedule_id
                    ==> #[trigger] final(self)@[i] == old(self)@[i],
            created ==> final(self)@[old(self)@.len() as int] == (ScheduleEntry {
                schedule_id,
                actions_ids: seq![actions_id],
                activity_ids: seq![activity_id],
            }),
    {
        proof {
            law_register_appends_both_ids(old(self)@, schedule_id, actions_id, activity_id);
        }
        match self.find(schedule_id) {
            Some(i) => {
                let ghost s = self@;
                let mut entry = self.schedules.remove(i);
                entry.actions_ids.push(actions_id);
                entry.activity_ids.push(activity_id);
                self.schedules.insert(i, entry);
                proof {
                    let k = choose|k: int| 0 <= k < s.len() && s[k].schedule_id == schedule_id;
                    assert(k == i as int);
                    assert(self@ =~= registered(s, schedule_id, actions_id, activity_id));
                }
                false
            },
            None => {
                let mut entry = ScheduleContexts::new(schedule_id);
                entry.actions_ids.push(actions_id);
                entry.activity_ids.push(activity_id);
                self.schedules.push(entry);
                proof {
                    assert(self@ =~= registered(old(self)@, schedule_id, actions_id, activity_id));
                }
                true
            },
        }
    }
}

} // verus!
