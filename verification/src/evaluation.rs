//! The decisions taken while evaluating the actions of a context in one
//! update: the order in which actions are evaluated, where an action's new
//! state comes from, how the states evaluated from its bindings are combined,
//! which inputs are consumed, how a mock runs out, and which bindings must be
//! released before other contexts see them.

use vstd::prelude::*;

verus! {

/// Trigger state of an action, ordered by significance.
#[derive(Clone, Copy, Debug, PartialEq, Eq, Structural)]
pub enum TriggerState {
    /// The action is not triggered.
    Idle,
    /// The action is being triggered but has not fired yet.
    Ongoing,
    /// The action has fired.
    Fired,
}

/// Significance of a trigger state: `Idle < Ongoing < Fired`.
pub open spec fn significance(state: TriggerState) -> int {
    match state {
        TriggerState::Idle => 0,
        TriggerState::Ongoing => 1,
        TriggerState::Fired => 2,
    }
}

impl TriggerState {
    /// Significance of the state: `Idle < Ongoing < Fired`.
    pub fn significance(&self) -> (r: u8)
        ensures
            r == significance(*self),
    {
        match self {
            TriggerState::Idle => 0,
            TriggerState::Ongoing => 1,
            TriggerState::Fired => 2,
        }
    }
}

impl Default for TriggerState {
    fn default() -> (r: Self)
        ensures
            r == TriggerState::Idle,
    {
        TriggerState::Idle
    }
}

/// An action to evaluate, with the largest number of modifier keys among its
/// bindings.
pub type KeyedAction = (u64, usize);

/// Actions are ordered by non-increasing number of modifier keys.
pub open spec fn by_mod_keys(s: Seq<KeyedAction>) -> bool {
    forall|i: int, j: int| 0 <= i < j < s.len() ==> s[i].1 >= s[j].1
}

/// The actions of `s` whose number of modifier keys is `count`, in order.
pub open spec fn with_mod_keys(s: Seq<KeyedAction>, count: usize) -> Seq<KeyedAction>
    decreases s.len(),
{
    if s.len() == 0 {
        Seq::empty()
    } else if s.last().1 == count {
        with_mod_keys(s.drop_last(), count).push(s.last())
    } else {
        with_mod_keys(s.drop_last(), count)
    }
}

/// The largest element of `s`, or zero where `s` is empty.
pub open spec fn max_or_zero(s: Seq<usize>) -> usize
    decreases s.len(),
{
    if s.len() == 0 {
        0
    } else {
        let m = max_or_zero(s.drop_last());
        if s.last() > m {
            s.last()
        } else {
            m
        }
    }
}

proof fn lemma_with_mod_keys_concat(a: Seq<KeyedAction>, b: Seq<KeyedAction>, count: usize)
    ensures
        with_mod_keys(a + b, count) == with_mod_keys(a, count) + with_mod_keys(b, count),
    decreases b.len(),
{
    if b.len() == 0 {
        assert(a + b =~= a);
        assert(with_mod_keys(b, count) =~= Seq::<KeyedAction>::empty());
        assert(with_mod_keys(a, count) + with_mod_keys(b, count) =~= with_mod_keys(a, count));
    } else {
        lemma_with_mod_keys_concat(a, b.drop_last(), count);
        assert((a + b).drop_last() =~= a + b.drop_last());
        assert((a + b).last() == b.last());
        if b.last().1 == count {
            assert(with_mod_keys(a, count) + with_mod_keys(b, count) =~= (with_mod_keys(a, count)
                + with_mod_keys(b.drop_last(), count)).push(b.last()));
        }
    }
}

/// Exchanging two neighbours whose numbers of modifier keys differ keeps the
/// order within every number of modifier keys.
proof fn lemma_swap_keeps_groups(s: Seq<KeyedAction>, j: int, count: usize)
    requires
        0 <= j,
        j + 1 < s.len(),
        s[j].1 != s[j + 1].1,
    ensures
        with_mod_keys(s.update(j, s[j + 1]).update(j + 1, s[j]), count) == with_mod_keys(s, count),
        s.update(j, s[j + 1]).update(j + 1, s[j]).to_multiset() == s.to_multiset(),
{
    let x = s[j];
    let y = s[j + 1];
    let p = s.take(j);
    let q = s.skip(j + 2);
    let t = s.update(j, y).update(j + 1, x);
    assert(s =~= p + seq![x, y] + q);
    assert(t =~= p + seq![y, x] + q);
    lemma_with_mod_keys_concat(p + seq![x, y], q, count);
    lemma_with_mod_keys_concat(p, seq![x, y], count);
    lemma_with_mod_keys_concat(p + seq![y, x], q, count);
    lemma_with_mod_keys_concat(p, seq![y, x], count);
    assert(seq![x, y].drop_last() =~= seq![x]);
    assert(seq![y, x].drop_last() =~= seq![y]);
    assert(seq![x].drop_last() =~= Seq::<KeyedAction>::empty());
    assert(seq![y].drop_last() =~= Seq::<KeyedAction>::empty());
    assert(t.to_multiset() =~= s.to_multiset()) by {
        vstd::seq_lib::lemma_multiset_commutative(p + seq![x, y], q);
        vstd::seq_lib::lemma_multiset_commutative(p + seq![y, x], q);
        vstd::seq_lib::lemma_multiset_commutative(p, seq![x, y]);
        vstd::seq_lib::lemma_multiset_commutative(p, seq![y, x]);
        assert(seq![x] + seq![y] =~= seq![x, y]);
        assert(seq![y] + seq![x] =~= seq![y, x]);
        vstd::seq_lib::lemma_multiset_commutative(seq![x], seq![y]);
        vstd::seq_lib::lemma_multiset_commutative(seq![y], seq![x]);
    }
    assert(with_mod_keys(seq![x, y], count) =~= with_mod_keys(seq![y, x], count)) by {
        reveal_with_fuel(with_mod_keys, 3);
        if x.1 == count {
            assert(with_mod_keys(seq![x, y], count) =~= seq![x]);
            assert(with_mod_keys(seq![y, x], count) =~= seq![x]);
        } else if y.1 == count {
            assert(with_mod_keys(seq![x, y], count) =~= seq![y]);
            assert(with_mod_keys(seq![y, x], count) =~= seq![y]);
        }
    }
}

/// The largest number of modifier keys is at least that of every binding,
/// is the number of one of them where there is any, and is zero where there
/// is none.
pub proof fn law_max_mod_keys_is_largest(s: Seq<usize>)
    ensures
        forall|i: int| 0 <= i < s.len() ==> max_or_zero(s) >= #[trigger] s[i],
        s.len() > 0 ==> exists|i: int| 0 <= i < s.len() && max_or_zero(s) == s[i],
        s.len() == 0 ==> max_or_zero(s) == 0,
    decreases s.len(),
{
    if s.len() > 0 {
        let t = s.drop_last();
        law_max_mod_keys_is_largest(t);
        assert forall|i: int| 0 <= i < s.len() implies max_or_zero(s) >= #[trigger] s[i] by {
            if i < s.len() - 1 {
                assert(s[i] == t[i]);
            }
        }
        if s.last() > max_or_zero(t) || t.len() == 0 {
            assert(max_or_zero(s) == s[s.len() - 1]);
        } else {
            let j = choose|j: int| 0 <= j < t.len() && max_or_zero(t) == t[j];
            assert(max_or_zero(s) == s[j]);
        }
    }
}

/// The largest number of modifier keys among the bindings of an action, or
/// zero for an action without bindings.
pub fn max_mod_keys(counts: &Vec<usize>) -> (r: usize)
    ensures
        r == max_or_zero(counts@),
        forall|i: int| 0 <= i < counts@.len() ==> r >= #[trigger] counts@[i],
        counts@.len() > 0 ==> exists|i: int| 0 <= i < counts@.len() && r == counts@[i],
        counts@.len() == 0 ==> r == 0,
{
    proof {
        law_max_mod_keys_is_largest(counts@);
    }
    let mut m: usize = 0;
    let mut i: usize = 0;
    while i < counts.len()
        invariant
            i <= counts@.len(),
            m == max_or_zero(counts@.take(i as int)),
        decreases counts@.len() - i,
    {
        assert(counts@.take(i + 1).drop_last() =~= counts@.take(i as int));
        if counts[i] > m {
            m = counts[i];
        }
        i = i + 1;
    }
    assert(counts@.take(counts@.len() as int) =~= counts@);
    m
}

/// Orders the actions of a context for evaluation: actions whose bindings
/// have more modifier keys come first, so that a chord such as `Ctrl + C`
/// wins over `C`; actions with equal numbers keep their relative order.
pub fn order_actions(actions: &mut Vec<KeyedAction>)
    ensures
        final(actions)@.len() == old(actions)@.len(),
        by_mod_keys(final(actions)@),
        final(actions)@.to_multiset() == old(actions)@.to_multiset(),
        forall|count: usize|
            with_mod_keys(#[trigger] final(actions)@, count) == with_mod_keys(old(actions)@, count),
{
    let n = actions.len();
    if n < 2 {
        return;
    }
    let mut i: usize = 1;
    while i < n
        invariant
            1 <= i <= n,
            n == actions@.len(),
            n == old(actions)@.len(),
            forall|a: int, b: int| 0 <= a < b < i ==> actions@[a].1 >= actions@[b].1,
            actions@.to_multiset() == old(actions)@.to_multiset(),
            forall|count: usize|
                with_mod_keys(#[trigger] actions@, count) == with_mod_keys(old(actions)@, count),
        decreases n - i,
    {
        let mut j: usize = i;
        while j > 0 && actions[j - 1].1 < actions[j].1
            invariant
                0 <= j <= i < n,
                n == actions@.len(),
                n == old(actions)@.len(),
                forall|a: int, b: int|
                    0 <= a < b <= i && a != j && b != j ==> actions@[a].1 >= actions@[b].1,
                forall|b: int| j < b <= i ==> actions@[j as int].1 > actions@[b].1,
                actions@.to_multiset() == old(actions)@.to_multiset(),
                forall|count: usize|
                    with_mod_keys(#[trigger] actions@, count) == with_mod_keys(old(actions)@, count),
            decreases j,
        {
            let ghost before = actions@;
            let x = actions[j - 1];
            let y = actions[j];
            actions.set(j - 1, y);
            actions.set(j, x);
            proof {
                assert(actions@ == before.update(j - 1, before[j as int]).update(
                    j as int,
                    before[j - 1],
                ));
                assert forall|count: usize|
                    with_mod_keys(#[trigger] actions@, count) == with_mod_keys(
                        old(actions)@,
                        count,
                    ) by {
                    lemma_swap_keeps_groups(before, j - 1, count);
                }
                lemma_swap_keeps_groups(before, j - 1, 0);
            }
            j = j - 1;
        }
        i = i + 1;
    }
}

/// Where the new state of an action comes from in an update.
#[derive(Clone, Copy, Debug, PartialEq, Eq, Structural)]
pub enum ActionSource {
    /// The context is inactive: the action goes back to `Idle` with a zero value.
    Inactive,
    /// A mock drives the action's state and value.
    Mock,
    /// The state is evaluated from the action's bindings.
    Bindings,
}

/// Where the new state of an action comes from: an inactive context wins over
/// a mock, and a mock over the bindings.
pub fn action_source(context_active: bool, mock_enabled: bool) -> (r: ActionSource)
    ensures
        r == (if !context_active {
            ActionSource::Inactive
        } else if mock_enabled {
            ActionSource::Mock
        } else {
            ActionSource::Bindings
        }),
{
    if !context_active {
        ActionSource::Inactive
    } else if mock_enabled {
        ActionSource::Mock
    } else {
        ActionSource::Bindings
    }
}

/// How long a mock drives its action.
#[derive(Clone, Copy, Debug, PartialEq, Eq, Structural)]
pub enum MockSpan {
    /// For the given number of updates.
    Updates(u32),
    /// For the given duration, in nanoseconds.
    Duration(u128),
    /// Until it is disabled by hand.
    Manual,
}

/// A mock span after one update that took `delta` nanoseconds, and whether
/// the mock has run out.
pub open spec fn ticked(span: MockSpan, delta: u128) -> (MockSpan, bool) {
    match span {
        MockSpan::Updates(n) => {
            let left: u32 = if n == 0 { 0 } else { (n - 1) as u32 };
            (MockSpan::Updates(left), left == 0)
        },
        MockSpan::Duration(d) => {
            let left: u128 = if d <= delta { 0 } else { (d - delta) as u128 };
            (MockSpan::Duration(left), left == 0)
        },
        MockSpan::Manual => (MockSpan::Manual, false),
    }
}

impl MockSpan {
    /// Counts down the span for one update that took `delta` nanoseconds and
    /// returns whether the mock has run out.
    pub fn tick(&mut self, delta: u128) -> (expired: bool)
        ensures
            (*final(self), expired) == ticked(*old(self), delta),
    {
        match self {
            MockSpan::Updates(n) => {
                let left = n.saturating_sub(1);
                *self = MockSpan::Updates(left);
                left == 0
            },
            MockSpan::Duration(d) => {
                let left = d.saturating_sub(delta);
                *self = MockSpan::Duration(left);
                left == 0
            },
            MockSpan::Manual => false,
        }
    }
}

/// What the tracker of an action does with the state evaluated from one
/// binding.
#[derive(Clone, Copy, Debug, PartialEq, Eq, Structural)]
pub enum BindingStep {
    /// The binding does not contribute.
    Ignore,
    /// The binding's value is accumulated into the tracker.
    Combine,
    /// The binding replaces what the tracker held.
    Overwrite,
}

/// Whether a binding of an action that requires a reset is evaluated: while
/// its first activation is pending, an active input is consumed and skipped,
/// and the first inactive input ends the wait.
///
/// Returns `false` when the binding's input is to be consumed and the binding
/// skipped.
pub fn pass_reset_gate(require_reset: bool, first_activation: &mut bool, input_active: bool) -> (evaluate: bool)
    ensures
        evaluate == !(require_reset && *old(first_activation) && input_active),
        *final(first_activation) == (*old(first_activation) && !(require_reset && !input_active)),
{
    if require_reset && *first_activation {
        if input_active {
            return false;
        } else {
            *first_activation = false;
        }
    }
    true
}

/// The abstract state of a [`BindingAccumulator`].
pub struct AccumulatorView {
    /// State of the action's tracker.
    pub tracker_state: TriggerState,
    /// Whether the action consumes the inputs that trigger it.
    pub consume_input: bool,
    /// Bindings whose inputs are consumed if the action ends up triggered.
    pub consume_buffer: Seq<u64>,
}

/// What the accumulator does with one binding evaluated to `current`.
pub open spec fn step_for(tracker_state: TriggerState, current: TriggerState) -> BindingStep {
    if current == TriggerState::Idle || significance(current) < significance(tracker_state) {
        BindingStep::Ignore
    } else if significance(current) == significance(tracker_state) {
        BindingStep::Combine
    } else {
        BindingStep::Overwrite
    }
}

/// The bindings to consume after `binding` is evaluated to `current`.
pub open spec fn buffer_after(v: AccumulatorView, binding: u64, current: TriggerState) -> Seq<u64> {
    if !v.consume_input {
        v.consume_buffer
    } else {
        match step_for(v.tracker_state, current) {
            BindingStep::Ignore => v.consume_buffer,
            BindingStep::Combine => v.consume_buffer.push(binding),
            BindingStep::Overwrite => seq![binding],
        }
    }
}

/// Combines the states evaluated from the bindings of one action, in the
/// order of its bindings, and tracks whose inputs the action consumes.
///
/// Only bindings that reach the most significant state seen so far count:
/// a binding that raises it replaces what came before, one that equals it is
/// combined with it, and `Idle` or less significant ones are ignored.
pub struct BindingAccumulator {
    tracker_state: TriggerState,
    consume_input: bool,
    consume_buffer: Vec<u64>,
}

impl View for BindingAccumulator {
    type V = AccumulatorView;

    closed spec fn view(&self) -> AccumulatorView {
        AccumulatorView {
            tracker_state: self.tracker_state,
            consume_input: self.consume_input,
            consume_buffer: self.consume_buffer@,
        }
    }
}

impl BindingAccumulator {
    /// Starts an action whose tracker begins in `tracker_state`.
    pub fn new(tracker_state: TriggerState, consume_input: bool) -> (r: Self)
        ensures
            r@ == (AccumulatorView { tracker_state, consume_input, consume_buffer: Seq::empty() }),
    {
        BindingAccumulator { tracker_state, consume_input, consume_buffer: Vec::new() }
    }

    /// State of the action's tracker.
    pub fn tracker_state(&self) -> (r: TriggerState)
        ensures
            r == self@.tracker_state,
    {
        self.tracker_state
    }

    /// Bindings whose inputs are consumed if the action ends up triggered.
    pub fn consume_buffer(&self) -> (r: &Vec<u64>)
        ensures
            r@ == self@.consume_buffer,
    {
        &self.consume_buffer
    }

    /// Decides what the tracker does with `binding`, evaluated to `current`.
    pub fn step(&mut self, binding: u64, current: TriggerState) -> (r: BindingStep)
        ensures
            r == step_for(old(self)@.tracker_state, current),
            final(self)@ == (AccumulatorView {
                consume_buffer: buffer_after(old(self)@, binding, current),
                ..old(self)@
            }),
    {
        if current == TriggerState::Idle {
            return BindingStep::Ignore;
        }
        let c = current.significance();
        let t = self.tracker_state.significance();
        if c < t {
            BindingStep::Ignore
        } else if c == t {
            if self.consume_input {
                self.consume_buffer.push(binding);
            }
            BindingStep::Combine
        } else {
            if self.consume_input {
                self.consume_buffer.clear();
                self.consume_buffer.push(binding);
                assert(self.consume_buffer@ =~= seq![binding]);
            }
            BindingStep::Overwrite
        }
    }

    /// Records the state of the tracker after it combined or replaced a
    /// binding's value, or after action-level modifiers and conditions.
    pub fn sync(&mut self, tracker_state: TriggerState)
        ensures
            final(self)@ == (AccumulatorView { tracker_state, ..old(self)@ }),
    {
        self.tracker_state = tracker_state;
    }

    /// Ends the action with its final state and returns the bindings whose
    /// inputs are consumed: those buffered, if the action consumes input and
    /// ended up triggered, and none otherwise.
    pub fn finish(self, final_state: TriggerState) -> (r: Vec<u64>)
        ensures
            r@ == (if self@.consume_input && final_state != TriggerState::Idle {
                self@.consume_buffer
            } else {
                Seq::empty()
            }),
    {
        if self.consume_input && final_state != TriggerState::Idle {
            self.consume_buffer
        } else {
            Vec::new()
        }
    }
}

/// The bindings of the actions that require a reset, in order.
pub open spec fn reset_bindings(actions: Seq<(bool, Seq<u64>)>) -> Seq<u64>
    decreases actions.len(),
{
    if actions.len() == 0 {
        Seq::empty()
    } else {
        let rest = reset_bindings(actions.drop_last());
        if actions.last().0 {
            rest + actions.last().1
        } else {
            rest
        }
    }
}

/// Whether `binding` is a binding of an action that requires a reset.
pub open spec fn requires_reset_of(actions: Seq<(bool, Seq<u64>)>, binding: u64) -> bool {
    exists|i: int| 0 <= i < actions.len() && actions[i].0 && actions[i].1.contains(binding)
}

/// Exactly the bindings of the actions that require a reset are released:
/// each released binding belongs to such an action, and every binding of
/// such an action is released; where no action requires a reset, nothing is.
pub proof fn law_only_reset_bindings_are_blocked(actions: Seq<(bool, Seq<u64>)>)
    ensures
        forall|k: int|
            0 <= k < reset_bindings(actions).len() ==> requires_reset_of(
                actions,
                #[trigger] reset_bindings(actions)[k],
            ),
        forall|i: int, j: int|
            0 <= i < actions.len() && actions[i].0 && 0 <= j < actions[i].1.len()
                ==> reset_bindings(actions).contains(#[trigger] actions[i].1[j]),
    decreases actions.len(),
{
    if actions.len() > 0 {
        let rest = actions.drop_last();
        law_only_reset_bindings_are_blocked(rest);
        let r = reset_bindings(actions);
        let rr = reset_bindings(rest);
        let n = actions.len() - 1;
        let last = actions[n];
        assert forall|k: int| 0 <= k < r.len() implies requires_reset_of(actions, #[trigger] r[k]) by {
            if k < rr.len() {
                assert(r[k] == rr[k]);
                let i = choose|i: int|
                    0 <= i < rest.len() && rest[i].0 && rest[i].1.contains(#[trigger] rr[k]);
                assert(actions[i] == rest[i]);
                assert(actions[i].0 && actions[i].1.contains(r[k]));
            } else {
                assert(last.0);
                assert(r == rr + last.1);
                assert(r[k] == last.1[k - rr.len()]);
                assert(actions[n].1.contains(r[k]));
                assert(actions[n].0);
            }
        }
        assert forall|i: int, j: int|
            0 <= i < actions.len() && actions[i].0 && 0 <= j < actions[i].1.len() implies r.contains(
            #[trigger] actions[i].1[j]) by {
            if i < n {
                assert(actions[i] == rest[i]);
                assert(rest[i].1[j] == actions[i].1[j]);
                assert(rr.contains(rest[i].1[j]));
                let k = choose|k: int| 0 <= k < rr.len() && rr[k] == rest[i].1[j];
                assert(r[k] == rr[k]);
            } else {
                assert(r == rr + last.1);
                assert(r[rr.len() + j] == actions[i].1[j]);
            }
        }
    }
}

/// Whether `binding` is among the bindings of an action that requires a
/// reset, each action given as whether it requires a reset and its bindings.
pub open spec fn owned_by_reset_action(actions: Seq<(bool, Vec<u64>)>, binding: u64) -> bool {
    exists|i: int| 0 <= i < actions.len() && actions[i].0 && actions[i].1@.contains(binding)
}

/// The bindings whose inputs must be released before other contexts see them
/// once a context's activity becomes `active`: none while it stays active,
/// and otherwise the bindings of its actions that require a reset.
///
/// Each action is given as whether it requires a reset and its bindings.
pub fn bindings_to_block(active: bool, actions: &Vec<(bool, Vec<u64>)>) -> (r: Vec<u64>)
    ensures
        r@ == (if active {
            Seq::empty()
        } else {
            reset_bindings(actions@.map_values(|a: (bool, Vec<u64>)| (a.0, a.1@)))
        }),
        active ==> r@.len() == 0,
        forall|k: int| 0 <= k < r@.len() ==> owned_by_reset_action(actions@, #[trigger] r@[k]),
        !active ==> forall|i: int, j: int|
            0 <= i < actions@.len() && actions@[i].0 && 0 <= j < actions@[i].1@.len()
                ==> r@.contains(#[trigger] actions@[i].1@[j]),
{
    let mut r: Vec<u64> = Vec::new();
    if active {
        return r;
    }
    let ghost view = actions@.map_values(|a: (bool, Vec<u64>)| (a.0, a.1@));
    let mut i: usize = 0;
    while i < actions.len()
        invariant
            i <= actions@.len(),
            view == actions@.map_values(|a: (bool, Vec<u64>)| (a.0, a.1@)),
            r@ == reset_bindings(view.take(i as int)),
        decreases actions@.len() - i,
    {
        assert(view.take(i + 1).drop_last() =~= view.take(i as int));
        if actions[i].0 {
            let bindings = &actions[i].1;
            let mut j: usize = 0;
            let ghost start = r@;
            while j < bindings.len()
                invariant
                    j <= bindings@.len(),
                    r@ == start + bindings@.take(j as int),
                decreases bindings@.len() - j,
            {
                r.push(bindings[j]);
                assert(start + bindings@.take(j + 1) =~= (start + bindings@.take(j as int)).push(
                    bindings@[j as int],
                ));
                j = j + 1;
            }
            assert(bindings@.take(bindings@.len() as int) =~= bindings@);
        }
        i = i + 1;
    }
    assert(view.take(actions@.len() as int) =~= view);
    proof {
        law_only_reset_bindings_are_blocked(view);
        assert forall|k: int| 0 <= k < r@.len() implies owned_by_reset_action(
            actions@,
            #[trigger] r@[k],
        ) by {
            assert(r@[k] == reset_bindings(view)[k]);
            assert(requires_reset_of(view, reset_bindings(view)[k]));
            let i = choose|i: int|
                0 <= i < view.len() && view[i].0 && view[i].1.contains(reset_bindings(view)[k]);
            assert(view[i] == (actions@[i].0, actions@[i].1@));
            assert(actions@[i].0 && actions@[i].1@.contains(r@[k]));
        }
        assert forall|i: int, j: int|
            0 <= i < actions@.len() && actions@[i].0 && 0 <= j < actions@[i].1@.len() implies r@.contains(
            #[trigger] actions@[i].1@[j]) by {
            assert(view[i] == (actions@[i].0, actions@[i].1@));
            assert(reset_bindings(view).contains(view[i].1[j]));
        }
    }
    r
}

/// A mock span after `k` updates of `delta` nanoseconds each.
pub open spec fn after_ticks(span: MockSpan, delta: u128, k: nat) -> MockSpan
    decreases k,
{
    if k == 0 {
        span
    } else {
        after_ticks(ticked(span, delta).0, delta, (k - 1) as nat)
    }
}

proof fn lemma_updates_count_down(n: u32, delta: u128, k: nat)
    requires
        k <= n,
    ensures
        after_ticks(MockSpan::Updates(n), delta, k) == MockSpan::Updates((n - k) as u32),
    decreases k,
{
    if k > 0 {
        lemma_updates_count_down((n - 1) as u32, delta, (k - 1) as nat);
    }
}

/// A mock that lasts `n` updates runs out in its `n`-th update and not
/// before, whatever the updates take.
pub proof fn law_updates_span_runs_out_after_n(n: u32, delta: u128, k: nat)
    requires
        1 <= n,
        k < n,
    ensures
        ticked(after_ticks(MockSpan::Updates(n), delta, k), delta).1 == (k + 1 == n),
{
    lemma_updates_count_down(n, delta, k);
}

/// A manual mock never runs out.
pub proof fn law_manual_span_never_runs_out(delta: u128, k: nat)
    ensures
        after_ticks(MockSpan::Manual, delta, k) == MockSpan::Manual,
        !ticked(after_ticks(MockSpan::Manual, delta, k), delta).1,
    decreases k,
{
    if k > 0 {
        law_manual_span_never_runs_out(delta, (k - 1) as nat);
    }
}

proof fn lemma_group_elements(s: Seq<KeyedAction>, count: usize)
    ensures
        with_mod_keys(s, count).len() <= s.len(),
        forall|m: int|
            0 <= m < with_mod_keys(s, count).len() ==> (#[trigger] with_mod_keys(s, count)[m]).1
                == count && s.contains(with_mod_keys(s, count)[m]),
    decreases s.len(),
{
    if s.len() > 0 {
        lemma_group_elements(s.drop_last(), count);
        let g = with_mod_keys(s, count);
        let h = with_mod_keys(s.drop_last(), count);
        assert forall|m: int| 0 <= m < g.len() implies (#[trigger] g[m]).1 == count && s.contains(
            g[m],
        ) by {
            if m < h.len() {
                assert(g[m] == h[m]);
                let i = choose|i: int| 0 <= i < s.drop_last().len() && s.drop_last()[i] == h[m];
                assert(s[i] == g[m]);
            } else {
                assert(g[m] == s.last());
                assert(s[s.len() - 1] == g[m]);
            }
        }
    }
}

/// The evaluation order of a context's actions is fully determined: two
/// orders by non-increasing number of modifier keys that keep the same
/// relative order within every number of modifier keys are the same order.
/// In particular ordering already ordered actions changes nothing.
pub proof fn law_order_is_unique(s: Seq<KeyedAction>, t: Seq<KeyedAction>)
    requires
        s.len() == t.len(),
        by_mod_keys(s),
        by_mod_keys(t),
        forall|count: usize| with_mod_keys(s, count) == with_mod_keys(t, count),
    ensures
        s == t,
    decreases s.len(),
{
    if s.len() > 0 {
        let a = s.last();
        let b = t.last();
        let n = s.len() as int;
        assert(with_mod_keys(s, a.1).last() == a);
        assert(with_mod_keys(t, b.1).last() == b);
        if a.1 < b.1 {
            lemma_group_elements(t, a.1);
            let g = with_mod_keys(t, a.1);
            assert(g.len() > 0);
            assert(g[g.len() - 1].1 == a.1);
            let i = choose|i: int| 0 <= i < t.len() && t[i] == g[g.len() - 1];
            assert(t[i].1 >= t[n - 1].1);
        } else if a.1 > b.1 {
            lemma_group_elements(s, b.1);
            let g = with_mod_keys(s, b.1);
            assert(with_mod_keys(t, b.1) == g);
            assert(g.len() > 0);
            assert(g[g.len() - 1].1 == b.1);
            let i = choose|i: int| 0 <= i < s.len() && s[i] == g[g.len() - 1];
            assert(s[i].1 >= s[n - 1].1);
        }
        assert(a.1 == b.1);
        assert(with_mod_keys(s, a.1) == with_mod_keys(t, a.1));
        assert(a == b);
        assert forall|count: usize|
            with_mod_keys(s.drop_last(), count) == with_mod_keys(t.drop_last(), count) by {
            if count == a.1 {
                assert(with_mod_keys(s.drop_last(), count) =~= with_mod_keys(s, count).drop_last());
                assert(with_mod_keys(t.drop_last(), count) =~= with_mod_keys(t, count).drop_last());
            } else {
                assert(with_mod_keys(s, count) == with_mod_keys(s.drop_last(), count));
                assert(with_mod_keys(t, count) == with_mod_keys(t.drop_last(), count));
            }
        }
        law_order_is_unique(s.drop_last(), t.drop_last());
        assert(s =~= s.drop_last().push(a));
        assert(t =~= t.drop_last().push(b));
    }
}

/// The most significant of the states in `events`, or `Idle` where there is
/// none.
pub open spec fn most_significant(events: Seq<(u64, TriggerState)>) -> TriggerState
    decreases events.len(),
{
    if events.len() == 0 {
        TriggerState::Idle
    } else {
        let m = most_significant(events.drop_last());
        if significance(events.last().1) > significance(m) {
            events.last().1
        } else {
            m
        }
    }
}

/// The bindings of `events` evaluated to `state`, in order.
pub open spec fn bindings_in_state(events: Seq<(u64, TriggerState)>, state: TriggerState) -> Seq<u64>
    decreases events.len(),
{
    if events.len() == 0 {
        Seq::empty()
    } else if events.last().1 == state {
        bindings_in_state(events.drop_last(), state).push(events.last().0)
    } else {
        bindings_in_state(events.drop_last(), state)
    }
}

/// The accumulator after the bindings of `events` were evaluated in order,
/// for a tracker that takes the state of a binding that replaces its content
/// and keeps its state when it combines an equal one.
pub open spec fn accumulate(v: AccumulatorView, events: Seq<(u64, TriggerState)>) -> AccumulatorView
    decreases events.len(),
{
    if events.len() == 0 {
        v
    } else {
        let prev = accumulate(v, events.drop_last());
        let (binding, state) = events.last();
        AccumulatorView {
            tracker_state: if step_for(prev.tracker_state, state) == BindingStep::Overwrite {
                state
            } else {
                prev.tracker_state
            },
            consume_input: prev.consume_input,
            consume_buffer: buffer_after(prev, binding, state),
        }
    }
}

proof fn lemma_most_significant_bounds(events: Seq<(u64, TriggerState)>)
    ensures
        forall|i: int|
            0 <= i < events.len() ==> significance(#[trigger] events[i].1) <= significance(
                most_significant(events),
            ),
    decreases events.len(),
{
    if events.len() > 0 {
        lemma_most_significant_bounds(events.drop_last());
        assert forall|i: int| 0 <= i < events.len() implies significance(#[trigger] events[i].1)
            <= significance(most_significant(events)) by {
            if i < events.len() - 1 {
                assert(events[i] == events.drop_last()[i]);
            }
        }
    }
}

proof fn lemma_no_bindings_above(events: Seq<(u64, TriggerState)>, state: TriggerState)
    requires
        forall|i: int| 0 <= i < events.len() ==> significance(#[trigger] events[i].1) < significance(state),
    ensures
        bindings_in_state(events, state) == Seq::<u64>::empty(),
    decreases events.len(),
{
    if events.len() > 0 {
        assert forall|i: int| 0 <= i < events.drop_last().len() implies significance(
            #[trigger] events.drop_last()[i].1,
        ) < significance(state) by {
            assert(events.drop_last()[i] == events[i]);
        }
        lemma_no_bindings_above(events.drop_last(), state);
        assert(significance(events[events.len() - 1].1) < significance(state));
    }
}

/// Evaluating the bindings of an action that consumes its inputs ends with
/// the tracker in the most significant state among them, and with exactly
/// the bindings that reached that state queued for consumption, in order;
/// where every binding stayed `Idle`, nothing is queued.
pub proof fn law_most_significant_bindings_win(events: Seq<(u64, TriggerState)>)
    ensures
        accumulate(
            AccumulatorView {
                tracker_state: TriggerState::Idle,
                consume_input: true,
                consume_buffer: Seq::empty(),
            },
            events,
        ) == (AccumulatorView {
            tracker_state: most_significant(events),
            consume_input: true,
            consume_buffer: if most_significant(events) == TriggerState::Idle {
                Seq::empty()
            } else {
                bindings_in_state(events, most_significant(events))
            },
        }),
    decreases events.len(),
{
    let start = AccumulatorView {
        tracker_state: TriggerState::Idle,
        consume_input: true,
        consume_buffer: Seq::empty(),
    };
    if events.len() > 0 {
        let rest = events.drop_last();
        law_most_significant_bindings_win(rest);
        let prev = accumulate(start, rest);
        let top = most_significant(rest);
        let (binding, state) = events.last();
        if state != TriggerState::Idle && significance(state) > significance(top) {
            lemma_most_significant_bounds(rest);
            lemma_no_bindings_above(rest, state);
            assert(bindings_in_state(events, state) =~= seq![binding]);
        } else if state != TriggerState::Idle && significance(state) == significance(top) {
            assert(state == top);
        }
    }
}

/// Nothing is queued for consumption by an action that does not consume its
/// inputs, whatever its bindings evaluate to.
pub proof fn law_no_consumption_without_consume_input(
    v: AccumulatorView,
    events: Seq<(u64, TriggerState)>,
)
    requires
        !v.consume_input,
        v.consume_buffer == Seq::<u64>::empty(),
    ensures
        accumulate(v, events).consume_buffer == Seq::<u64>::empty(),
        !accumulate(v, events).consume_input,
    decreases events.len(),
{
    if events.len() > 0 {
        law_no_consumption_without_consume_input(v, events.drop_last());
    }
}

proof fn lemma_duration_runs_down(total: u128, delta: u128, k: nat)
    ensures
        after_ticks(MockSpan::Duration(total), delta, k) == MockSpan::Duration(
            if k * delta >= total {
                0
            } else {
                (total - k * delta) as u128
            },
        ),
    decreases k,
{
    if k > 0 {
        let left: u128 = if total <= delta { 0 } else { (total - delta) as u128 };
        let m: nat = (k - 1) as nat;
        lemma_duration_runs_down(left, delta, m);
        assert(k * delta == m * delta + delta) by (nonlinear_arith)
            requires
                m == k - 1,
        ;
        assert(m * delta >= 0) by (nonlinear_arith);
        assert(ticked(MockSpan::Duration(total), delta).0 == MockSpan::Duration(left));
        assert(after_ticks(MockSpan::Duration(total), delta, k) == after_ticks(
            MockSpan::Duration(left),
            delta,
            m,
        ));
        if total <= delta {
            assert(k * delta >= total);
        } else {
            assert((m * delta >= left) == (k * delta >= total));
            assert(left - m * delta == total - k * delta);
        }
    } else {
        assert(k * delta == 0) by (nonlinear_arith)
            requires
                k == 0,
        ;
    }
}

/// A mock that lasts `total` nanoseconds, updated every `delta` nanoseconds,
/// is still running while less than `total` nanoseconds have elapsed, and
/// runs out on the update that brings the elapsed time to `total` or beyond.
pub proof fn law_duration_span_runs_out_when_elapsed(total: u128, delta: u128, k: nat)
    requires
        k * delta < total,
    ensures
        ticked(after_ticks(MockSpan::Duration(total), delta, k), delta).1 == ((k + 1) * delta
            >= total),
{
    lemma_duration_runs_down(total, delta, k);
    assert((k + 1) * delta == k * delta + delta) by (nonlinear_arith);
}

} // verus!
