//! The instances of input contexts in one schedule, kept in evaluation order.
//!
//! Contexts with a higher priority are evaluated first; among contexts of
//! equal priority the most recently added one is evaluated first.

use vstd::prelude::*;

verus! {

/// One context on one entity.
#[derive(Clone, Copy, Debug, PartialEq, Eq, Structural)]
pub struct ContextInstance {
    /// The entity that holds the context (its identifier bits).
    pub entity: u64,
    /// Identifier of the context type.
    pub context_id: usize,
    /// Priority of the context on this entity.
    pub priority: usize,
}

/// The instances are ordered by non-increasing priority.
pub open spec fn by_priority(s: Seq<ContextInstance>) -> bool {
    forall|i: int, j: int| 0 <= i < j < s.len() ==> s[i].priority >= s[j].priority
}

/// Where an instance of priority `priority` goes: after every instance of a
/// higher priority and before all the others.
pub open spec fn is_insertion_point(s: Seq<ContextInstance>, priority: usize, k: int) -> bool {
    &&& 0 <= k <= s.len()
    &&& forall|j: int| 0 <= j < k ==> s[j].priority > priority
    &&& forall|j: int| k <= j < s.len() ==> s[j].priority <= priority
}

/// The insertion point of priority `priority` in `s`.
pub open spec fn insertion_point(s: Seq<ContextInstance>, priority: usize) -> int {
    choose|k: int| is_insertion_point(s, priority, k)
}

/// The instances after adding `instance`.
pub open spec fn added(s: Seq<ContextInstance>, instance: ContextInstance) -> Seq<ContextInstance> {
    s.insert(insertion_point(s, instance.priority), instance)
}

/// Whether `s[k]` is the context `context_id` on entity `entity`.
pub open spec fn is_instance_of(
    s: Seq<ContextInstance>,
    k: int,
    entity: u64,
    context_id: usize,
) -> bool {
    0 <= k < s.len() && s[k].entity == entity && s[k].context_id == context_id
}

/// Whether `s` holds context `context_id` on entity `entity`.
pub open spec fn holds(s: Seq<ContextInstance>, entity: u64, context_id: usize) -> bool {
    exists|k: int| is_instance_of(s, k, entity, context_id)
}

/// Position of the first instance of context `context_id` on entity `entity`.
pub open spec fn first_instance(s: Seq<ContextInstance>, entity: u64, context_id: usize) -> int {
    choose|k: int|
        is_instance_of(s, k, entity, context_id) && forall|j: int|
            0 <= j < k ==> !is_instance_of(s, j, entity, context_id)
}

/// The instances after removing context `context_id` from entity `entity`:
/// its first instance goes, or nothing changes where there is none.
pub open spec fn removed(s: Seq<ContextInstance>, entity: u64, context_id: usize) -> Seq<
    ContextInstance,
> {
    if holds(s, entity, context_id) {
        s.remove(first_instance(s, entity, context_id))
    } else {
        s
    }
}

/// Every sequence ordered by priority has an insertion point for each
/// priority.
proof fn lemma_insertion_point_exists(s: Seq<ContextInstance>, priority: usize)
    requires
        by_priority(s),
    ensures
        exists|k: int| is_insertion_point(s, priority, k),
    decreases s.len(),
{
    if s.len() == 0 || s[0].priority <= priority {
        assert(is_insertion_point(s, priority, 0));
    } else {
        let t = s.drop_first();
        lemma_insertion_point_exists(t, priority);
        let k = choose|k: int| is_insertion_point(t, priority, k);
        assert forall|j: int| 0 <= j < k + 1 implies s[j].priority > priority by {
            if j > 0 {
                assert(s[j] == t[j - 1]);
            }
        }
        assert forall|j: int| k + 1 <= j < s.len() implies s[j].priority <= priority by {
            assert(s[j] == t[j - 1]);
        }
        assert(is_insertion_point(s, priority, k + 1));
    }
}

/// Every sequence ordered by priority has exactly one insertion point for
/// each priority.
pub proof fn lemma_insertion_point(s: Seq<ContextInstance>, priority: usize)
    requires
        by_priority(s),
    ensures
        is_insertion_point(s, priority, insertion_point(s, priority)),
        forall|k: int| is_insertion_point(s, priority, k) ==> k == insertion_point(s, priority),
{
    lemma_insertion_point_exists(s, priority);
    let k = insertion_point(s, priority);
    assert forall|k2: int| is_insertion_point(s, priority, k2) implies k2 == k by {
        if k2 < k {
            assert(s[k2].priority > priority);
        } else if k2 > k {
            assert(s[k].priority > priority);
        }
    }
}

/// A context that holds an instance has a first one.
pub proof fn lemma_first_instance(s: Seq<ContextInstance>, entity: u64, context_id: usize)
    requires
        holds(s, entity, context_id),
    ensures
        is_instance_of(s, first_instance(s, entity, context_id), entity, context_id),
        forall|j: int|
            0 <= j < first_instance(s, entity, context_id) ==> !is_instance_of(
                s,
                j,
                entity,
                context_id,
            ),
    decreases s.len(),
{
    if is_instance_of(s, 0, entity, context_id) {
        assert(forall|j: int| 0 <= j < 0 ==> !is_instance_of(s, j, entity, context_id));
    } else {
        let t = s.drop_first();
        let k0 = choose|k: int| is_instance_of(s, k, entity, context_id);
        assert(is_instance_of(t, k0 - 1, entity, context_id));
        lemma_first_instance(t, entity, context_id);
        let k = first_instance(t, entity, context_id);
        assert(is_instance_of(s, k + 1, entity, context_id));
        assert forall|j: int| 0 <= j < k + 1 implies !is_instance_of(s, j, entity, context_id) by {
            if j > 0 {
                assert(!is_instance_of(t, j - 1, entity, context_id));
            }
        }
    }
}

/// Adding an instance keeps the instances in evaluation order: higher
/// priorities first.
pub proof fn law_add_keeps_priority_order(s: Seq<ContextInstance>, instance: ContextInstance)
    requires
        by_priority(s),
    ensures
        by_priority(added(s, instance)),
{
    lemma_insertion_point(s, instance.priority);
    let k = insertion_point(s, instance.priority);
    let t = added(s, instance);
    assert forall|i: int, j: int| 0 <= i < j < t.len() implies t[i].priority >= t[j].priority by {
        if i < k && j > k {
            assert(t[i] == s[i]);
            assert(t[j] == s[j - 1]);
        } else if i < k {
            assert(t[i] == s[i]);
        } else if i == k {
            assert(t[j] == s[j - 1]);
        } else {
            assert(t[i] == s[i - 1]);
            assert(t[j] == s[j - 1]);
        }
    }
}

/// An added instance is evaluated after every instance of a higher priority
/// and before every other instance, so among instances of equal priority the
/// most recently added one comes first.
pub proof fn law_added_goes_before_equal_priority(
    s: Seq<ContextInstance>,
    instance: ContextInstance,
)
    requires
        by_priority(s),
    ensures
        0 <= insertion_point(s, instance.priority) <= s.len(),
        added(s, instance)[insertion_point(s, instance.priority)] == instance,
        forall|j: int|
            0 <= j < insertion_point(s, instance.priority) ==> added(s, instance)[j].priority
                > instance.priority,
        forall|j: int|
            insertion_point(s, instance.priority) < j < s.len() + 1 ==> added(s, instance)[j]
                == s[j - 1] && s[j - 1].priority <= instance.priority,
{
    lemma_insertion_point(s, instance.priority);
}

/// Adding an instance keeps the relative order of the others.
pub proof fn law_add_keeps_others_in_order(s: Seq<ContextInstance>, instance: ContextInstance)
    requires
        by_priority(s),
    ensures
        added(s, instance).remove(insertion_point(s, instance.priority)) == s,
{
    lemma_insertion_point(s, instance.priority);
    assert(added(s, instance).remove(insertion_point(s, instance.priority)) =~= s);
}

/// Removing an instance keeps the instances in evaluation order.
pub proof fn law_remove_keeps_priority_order(s: Seq<ContextInstance>, entity: u64, context_id: usize)
    requires
        by_priority(s),
    ensures
        by_priority(removed(s, entity, context_id)),
{
    if holds(s, entity, context_id) {
        lemma_first_instance(s, entity, context_id);
        let k = first_instance(s, entity, context_id);
        let t = removed(s, entity, context_id);
        assert forall|i: int, j: int| 0 <= i < j < t.len() implies t[i].priority
            >= t[j].priority by {
            if i >= k {
                assert(t[i] == s[i + 1]);
            } else {
                assert(t[i] == s[i]);
            }
            if j >= k {
                assert(t[j] == s[j + 1]);
            } else {
                assert(t[j] == s[j]);
            }
        }
    }
}

/// Removing a context that was just added to an entity that did not hold it
/// gives back the instances as they were.
pub proof fn law_remove_undoes_add(
    s: Seq<ContextInstance>,
    entity: u64,
    context_id: usize,
    priority: usize,
)
    requires
        by_priority(s),
        !holds(s, entity, context_id),
    ensures
        removed(added(s, ContextInstance { entity, context_id, priority }), entity, context_id)
            == s,
{
    let instance = ContextInstance { entity, context_id, priority };
    lemma_insertion_point(s, priority);
    let k = insertion_point(s, priority);
    let t = added(s, instance);
    assert(is_instance_of(t, k, entity, context_id));
    lemma_first_instance(t, entity, context_id);
    let f = first_instance(t, entity, context_id);
    if f < k {
        assert(t[f] == s[f]);
        assert(is_instance_of(s, f, entity, context_id));
    }
    assert(f == k);
    assert(t.remove(k) =~= s);
}

/// The context instances of one schedule, in evaluation order.
pub struct ContextInstances {
    instances: Vec<ContextInstance>,
}

impl View for ContextInstances {
    type V = Seq<ContextInstance>;

    closed spec fn view(&self) -> Seq<ContextInstance> {
        self.instances@
    }
}

impl ContextInstances {
    /// Whether the instances are in evaluation order.
    pub open spec fn wf(&self) -> bool {
        by_priority(self@)
    }

    /// Creates an empty list.
    pub fn new() -> (r: Self)
        ensures
            r@ == Seq::<ContextInstance>::empty(),
            r.wf(),
    {
        ContextInstances { instances: Vec::new() }
    }

    /// Number of instances.
    pub fn len(&self) -> (r: usize)
        ensures
            r == self@.len(),
    {
        self.instances.len()
    }

    /// The instance evaluated at position `index`.
    pub fn get(&self, index: usize) -> (r: ContextInstance)
        requires
            index < self@.len(),
        ensures
            r == self@[index as int],
    {
        self.instances[index]
    }

    /// Adds context `context_id` of entity `entity` with the given priority.
    pub fn add(&mut self, entity: u64, context_id: usize, priority: usize)
        requires
            old(self).wf(),
        ensures
            final(self).wf(),
            final(self)@ == added(old(self)@, ContextInstance { entity, context_id, priority }),
    {
        let ghost s = self@;
        let mut k: usize = 0;
        while k < self.instances.len() && self.instances[k].priority > priority
            invariant
                self@ == s,
                by_priority(s),
                k <= s.len(),
                forall|j: int| 0 <= j < k ==> s[j].priority > priority,
            decreases s.len() - k,
        {
            k = k + 1;
        }
        let instance = ContextInstance { entity, context_id, priority };
        proof {
            assert(is_insertion_point(s, priority, k as int));
            lemma_insertion_point(s, priority);
        }
        self.instances.insert(k, instance);
        proof {
            law_add_keeps_priority_order(s, instance);
        }
    }

    /// Removes the first instance of context `context_id` on entity `entity`.
    ///
    /// Returns whether there was one.
    pub fn remove(&mut self, entity: u64, context_id: usize) -> (r: bool)
        requires
            old(self).wf(),
        ensures
            final(self).wf(),
            r == holds(old(self)@, entity, context_id),
            final(self)@ == removed(old(self)@, entity, context_id),
    {
        let ghost s = self@;
        let mut k: usize = 0;
        while k < self.instances.len()
            invariant
                self@ == s,
                s == old(self)@,
                by_priority(s),
                k <= s.len(),
                forall|j: int| 0 <= j < k ==> !is_instance_of(s, j, entity, context_id),
            decreases s.len() - k,
        {
            if self.instances[k].entity == entity && self.instances[k].context_id == context_id {
                proof {
                    assert(is_instance_of(s, k as int, entity, context_id));
                    lemma_first_instance(s, entity, context_id);
                    let f = first_instance(s, entity, context_id);
                    if f < k {
                        assert(!is_instance_of(s, f, entity, context_id));
                    }
                    assert(f == k);
                    assert(holds(s, entity, context_id));
                }
                self.instances.remove(k);
                proof {
                    law_remove_keeps_priority_order(s, entity, context_id);
                }
                return true;
            }
            k = k + 1;
        }
        false
    }
}

} // verus!
