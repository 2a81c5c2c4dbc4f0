//! The comparative controls of a shadow evaluation.

use crate::text::text_eq;
use vstd::prelude::*;

verus! {

/// A control that a capability was compared against.
#[derive(Debug, Clone, Copy, PartialEq, Eq, PartialOrd, Ord, Hash, Structural)]
pub enum ComparativeControl {
    UnmodifiedReceiver,
    WrongCapabilityIr,
    RandomDelta,
    MeanCapability,
    NearestCapability,
    AlternativeBackend,
    NonTargetPreservation,
    DenseDelta,
    ConventionalLowRank,
    SparseDelta,
    ActivationSteering,
}

impl ComparativeControl {
    /// The position of a control in the order of the controls.
    pub open spec fn rank(self) -> int {
        match self {
            ComparativeControl::UnmodifiedReceiver => 0,
            ComparativeControl::WrongCapabilityIr => 1,
            ComparativeControl::RandomDelta => 2,
            ComparativeControl::MeanCapability => 3,
            ComparativeControl::NearestCapability => 4,
            ComparativeControl::AlternativeBackend => 5,
            ComparativeControl::NonTargetPreservation => 6,
            ComparativeControl::DenseDelta => 7,
            ComparativeControl::ConventionalLowRank => 8,
            ComparativeControl::SparseDelta => 9,
            ComparativeControl::ActivationSteering => 10,
        }
    }

    /// The position of a control in the order of the controls.
    pub fn position(self) -> (position: u8)
        ensures
            position == self.rank(),
    {
        match self {
            ComparativeControl::UnmodifiedReceiver => 0,
            ComparativeControl::WrongCapabilityIr => 1,
            ComparativeControl::RandomDelta => 2,
            ComparativeControl::MeanCapability => 3,
            ComparativeControl::NearestCapability => 4,
            ComparativeControl::AlternativeBackend => 5,
            ComparativeControl::NonTargetPreservation => 6,
            ComparativeControl::DenseDelta => 7,
            ComparativeControl::ConventionalLowRank => 8,
            ComparativeControl::SparseDelta => 9,
            ComparativeControl::ActivationSteering => 10,
        }
    }

    /// The name of a control in documents.
    pub open spec fn wire_name(self) -> Seq<char> {
        match self {
            ComparativeControl::UnmodifiedReceiver => "unmodified_receiver"@,
            ComparativeControl::WrongCapabilityIr => "wrong_capability_ir"@,
            ComparativeControl::RandomDelta => "random_delta"@,
            ComparativeControl::MeanCapability => "mean_capability"@,
            ComparativeControl::NearestCapability => "nearest_capability"@,
            ComparativeControl::AlternativeBackend => "alternative_backend"@,
            ComparativeControl::NonTargetPreservation => "non_target_preservation"@,
            ComparativeControl::DenseDelta => "dense_delta"@,
            ComparativeControl::ConventionalLowRank => "conventional_low_rank"@,
            ComparativeControl::SparseDelta => "sparse_delta"@,
            ComparativeControl::ActivationSteering => "activation_steering"@,
        }
    }

    /// The name of a control in documents.
    pub fn name(self) -> (name: &'static str)
        ensures
            name@ == self.wire_name(),
    {
        match self {
            ComparativeControl::UnmodifiedReceiver => "unmodified_receiver",
            ComparativeControl::WrongCapabilityIr => "wrong_capability_ir",
            ComparativeControl::RandomDelta => "random_delta",
            ComparativeControl::MeanCapability => "mean_capability",
            ComparativeControl::NearestCapability => "nearest_capability",
            ComparativeControl::AlternativeBackend => "alternative_backend",
            ComparativeControl::NonTargetPreservation => "non_target_preservation",
            ComparativeControl::DenseDelta => "dense_delta",
            ComparativeControl::ConventionalLowRank => "conventional_low_rank",
            ComparativeControl::SparseDelta => "sparse_delta",
            ComparativeControl::ActivationSteering => "activation_steering",
        }
    }
}

/// How many controls there are.
pub const CONTROL_COUNT: u8 = 11;

/// The control at a position of the order.
pub open spec fn control_at(rank: int) -> ComparativeControl {
    if rank == 0 {
        ComparativeControl::UnmodifiedReceiver
    } else if rank == 1 {
        ComparativeControl::WrongCapabilityIr
    } else if rank == 2 {
        ComparativeControl::RandomDelta
    } else if rank == 3 {
        ComparativeControl::MeanCapability
    } else if rank == 4 {
        ComparativeControl::NearestCapability
    } else if rank == 5 {
        ComparativeControl::AlternativeBackend
    } else if rank == 6 {
        ComparativeControl::NonTargetPreservation
    } else if rank == 7 {
        ComparativeControl::DenseDelta
    } else if rank == 8 {
        ComparativeControl::ConventionalLowRank
    } else if rank == 9 {
        ComparativeControl::SparseDelta
    } else {
        ComparativeControl::ActivationSteering
    }
}

/// The control at a position of the order.
fn control_in_order(position: u8) -> (control: ComparativeControl)
    requires
        position < CONTROL_COUNT,
    ensures
        control == control_at(position as int),
{
    match position {
        0 => ComparativeControl::UnmodifiedReceiver,
        1 => ComparativeControl::WrongCapabilityIr,
        2 => ComparativeControl::RandomDelta,
        3 => ComparativeControl::MeanCapability,
        4 => ComparativeControl::NearestCapability,
        5 => ComparativeControl::AlternativeBackend,
        6 => ComparativeControl::NonTargetPreservation,
        7 => ComparativeControl::DenseDelta,
        8 => ComparativeControl::ConventionalLowRank,
        9 => ComparativeControl::SparseDelta,
        _ => ComparativeControl::ActivationSteering,
    }
}

/// The members of a set among the first controls of the order, in that order.
pub open spec fn ordered_below(set: Set<ComparativeControl>, rank: int) -> Seq<ComparativeControl>
    decreases rank,
{
    if rank <= 0 {
        Seq::empty()
    } else {
        let below = ordered_below(set, rank - 1);
        if set.contains(control_at(rank - 1)) {
            below.push(control_at(rank - 1))
        } else {
            below
        }
    }
}

/// The members of a set in the order of the controls.
pub open spec fn ordered(set: Set<ComparativeControl>) -> Seq<ComparativeControl> {
    ordered_below(set, CONTROL_COUNT as int)
}

proof fn lemma_ordered_below(set: Set<ComparativeControl>, rank: int)
    requires
        0 <= rank <= CONTROL_COUNT,
    ensures
        ordered_below(set, rank).len() <= rank,
        ranks_ascend(ordered_below(set, rank)),
        forall|c: ComparativeControl|
            ordered_below(set, rank).contains(c) <==> set.contains(c) && #[trigger] c.rank() < rank,
    decreases rank,
{
    if rank > 0 {
        lemma_ordered_below(set, rank - 1);
        let below = ordered_below(set, rank - 1);
        let last = control_at(rank - 1);
        let all = ordered_below(set, rank);
        assert(last.rank() == rank - 1);
        assert forall|i: int, j: int| 0 <= i < j < all.len() implies (
        #[trigger] all[i]).rank() < (#[trigger] all[j]).rank() by {
            assert(below.contains(all[i]));
            assert(all[i].rank() < rank - 1);
        }
        assert forall|c: ComparativeControl|
            all.contains(c) <==> set.contains(c) && #[trigger] c.rank() < rank by {
            lemma_rank_faithful(c, last);
            if below.contains(c) {
                let k = choose|k: int| 0 <= k < below.len() && below[k] == c;
                assert(all[k] == c);
            }
            if all.contains(c) && !below.contains(c) {
                let k = choose|k: int| 0 <= k < all.len() && all[k] == c;
                if k < below.len() {
                    assert(below[k] == c);
                }
            }
            if set.contains(last) {
                assert(all[below.len() as int] == last);
            }
        }
    }
}

/// Listing the members of a set in order lists each of them once and nothing else.
pub proof fn ordered_lists_hold_each_member_once(set: Set<ComparativeControl>)
    ensures
        ordered(set).to_set() == set,
        ordered(set).no_duplicates(),
        ordered(set).len() <= CONTROL_COUNT,
        ranks_ascend(ordered(set)),
{
    lemma_ordered_below(set, CONTROL_COUNT as int);
    let all = ordered(set);
    assert forall|c: ComparativeControl| all.to_set().contains(c) <==> set.contains(c) by {
        assert(c.rank() < CONTROL_COUNT);
    }
    assert(all.to_set() =~= set);
    assert forall|i: int, j: int| 0 <= i < all.len() && 0 <= j < all.len() && i != j implies all[i]
        != all[j] by {
        if i < j {
            assert(all[i].rank() < all[j].rank());
        } else {
            assert(all[j].rank() < all[i].rank());
        }
    }
}

proof fn lemma_wire_names()
    ensures
        forall|a: ComparativeControl, b: ComparativeControl| #[trigger]
            a.wire_name() == #[trigger] b.wire_name() ==> a == b,
{
    reveal_strlit("unmodified_receiver");
    reveal_strlit("wrong_capability_ir");
    reveal_strlit("random_delta");
    reveal_strlit("mean_capability");
    reveal_strlit("nearest_capability");
    reveal_strlit("alternative_backend");
    reveal_strlit("non_target_preservation");
    reveal_strlit("dense_delta");
    reveal_strlit("conventional_low_rank");
    reveal_strlit("sparse_delta");
    reveal_strlit("activation_steering");
    assert forall|a: ComparativeControl, b: ComparativeControl| #[trigger]
        a.wire_name() == #[trigger] b.wire_name() implies a == b by {
        assert(a.wire_name().len() == b.wire_name().len());
        assert(a.wire_name()[0] == b.wire_name()[0]);
        assert(a.wire_name()[1] == b.wire_name()[1]);
    }
}

/// No two controls share a name.
pub proof fn control_names_are_unambiguous(a: ComparativeControl, b: ComparativeControl)
    ensures
        a.wire_name() == b.wire_name() ==> a == b,
{
    lemma_wire_names();
}

/// The control of the given name.
pub fn parse_control_name(value: &str) -> (control: Option<ComparativeControl>)
    ensures
        match control {
            Some(c) => c.wire_name() == value@,
            None => forall|c: ComparativeControl| #[trigger] c.wire_name() != value@,
        },
{
    if text_eq(value, "unmodified_receiver") {
        Some(ComparativeControl::UnmodifiedReceiver)
    } else if text_eq(value, "wrong_capability_ir") {
        Some(ComparativeControl::WrongCapabilityIr)
    } else if text_eq(value, "random_delta") {
        Some(ComparativeControl::RandomDelta)
    } else if text_eq(value, "mean_capability") {
        Some(ComparativeControl::MeanCapability)
    } else if text_eq(value, "nearest_capability") {
        Some(ComparativeControl::NearestCapability)
    } else if text_eq(value, "alternative_backend") {
        Some(ComparativeControl::AlternativeBackend)
    } else if text_eq(value, "non_target_preservation") {
        Some(ComparativeControl::NonTargetPreservation)
    } else if text_eq(value, "dense_delta") {
        Some(ComparativeControl::DenseDelta)
    } else if text_eq(value, "conventional_low_rank") {
        Some(ComparativeControl::ConventionalLowRank)
    } else if text_eq(value, "sparse_delta") {
        Some(ComparativeControl::SparseDelta)
    } else if text_eq(value, "activation_steering") {
        Some(ComparativeControl::ActivationSteering)
    } else {
        None
    }
}

/// A set of controls, kept in the order of the controls.
#[derive(Debug)]
pub struct ControlSet {
    items: Vec<ComparativeControl>,
}

/// Every control comes before every later one.
pub open spec fn ranks_ascend(items: Seq<ComparativeControl>) -> bool {
    forall|i: int, j: int|
        0 <= i < j < items.len() ==> (#[trigger] items[i]).rank() < (#[trigger] items[j]).rank()
}

impl View for ControlSet {
    type V = Set<ComparativeControl>;

    closed spec fn view(&self) -> Set<ComparativeControl> {
        self.items@.to_set()
    }
}

impl ControlSet {
    #[verifier::type_invariant]
    spec fn in_order(&self) -> bool {
        ranks_ascend(self.items@)
    }

    /// The set without members.
    pub fn new() -> (set: ControlSet)
        ensures
            set@ == Set::<ComparativeControl>::empty(),
    {
        let set = ControlSet { items: Vec::new() };
        assert(set@ =~= Set::<ComparativeControl>::empty());
        set
    }

    /// The members in their order.
    pub fn to_vec(&self) -> (items: Vec<ComparativeControl>)
        ensures
            items@ == ordered(self@),
    {
        let mut items: Vec<ComparativeControl> = Vec::new();
        for position in 0..CONTROL_COUNT
            invariant
                items@ == ordered_below(self@, position as int),
        {
            let control = control_in_order(position);
            if self.contains(&control) {
                items.push(control);
            }
        }
        items
    }

    /// Whether the set has no members.
    pub fn is_empty(&self) -> (empty: bool)
        ensures
            empty == (self@ == Set::<ComparativeControl>::empty()),
    {
        proof {
            if self.items@.len() == 0 {
                assert(self@ =~= Set::<ComparativeControl>::empty());
            } else {
                assert(self@.contains(self.items@[0]));
            }
        }
        self.items.len() == 0
    }

    /// Whether a control is a member.
    pub fn contains(&self, control: &ComparativeControl) -> (found: bool)
        ensures
            found == self@.contains(*control),
    {
        for i in 0..self.items.len()
            invariant
                forall|j: int| 0 <= j < i ==> self.items@[j] != *control,
        {
            if self.items[i] == *control {
                assert(self.items@.contains(*control));
                return true;
            }
        }
        false
    }

    /// The set with one more member.
    pub fn with(&self, control: ComparativeControl) -> (set: ControlSet)
        ensures
            set@ == self@.insert(control),
    {
        proof {
            use_type_invariant(self);
        }
        let mut items: Vec<ComparativeControl> = Vec::new();
        let rank: u8 = control.position();
        let mut i: usize = 0;
        while i < self.items.len() && self.items[i].position() < rank
            invariant
                i <= self.items.len(),
                rank == control.rank(),
                ranks_ascend(self.items@),
                items@ == self.items@.take(i as int),
                forall|j: int| 0 <= j < i ==> (#[trigger] self.items@[j]).rank() < rank,
            decreases self.items.len() - i,
        {
            items.push(self.items[i]);
            assert(self.items@.take(i + 1) == self.items@.take(i as int).push(
                self.items@[i as int],
            ));
            i = i + 1;
        }
        items.push(control);
        let ghost before = self.items@.take(i as int).push(control);
        let mut rest: usize = i;
        if rest < self.items.len() && self.items[rest] == control {
            rest = rest + 1;
        }
        let ghost from = rest as int;
        while rest < self.items.len()
            invariant
                i <= from <= rest <= self.items.len(),
                items@ == before + self.items@.subrange(from, rest as int),
            decreases self.items.len() - rest,
        {
            items.push(self.items[rest]);
            assert(self.items@.subrange(from, rest + 1) == self.items@.subrange(
                from,
                rest as int,
            ).push(self.items@[rest as int]));
            rest = rest + 1;
        }
        proof {
            let own = self.items@;
            assert forall|a: int, b: int| 0 <= a < b < items@.len() implies (
            #[trigger] items@[a]).rank() < (#[trigger] items@[b]).rank() by {
                let shift = from - i - 1;
                if a < i && b > i {
                    assert(items@[b] == own[b + shift]);
                } else if a == i && b > i {
                    assert(items@[b] == own[b + shift]);
                    lemma_rank_faithful(own[i as int], control);
                } else if a > i {
                    assert(items@[a] == own[a + shift] && items@[b] == own[b + shift]);
                }
            }
            let set = items@.to_set();
            assert forall|c: ComparativeControl| set.contains(c) <==> own.to_set().insert(
                control,
            ).contains(c) by {
                if items@.contains(c) {
                    let k = choose|k: int| 0 <= k < items@.len() && items@[k] == c;
                    if k < i {
                        assert(own[k] == c);
                    } else if k > i {
                        assert(own[k - i - 1 + from] == c);
                    }
                }
                if own.contains(c) {
                    let k = choose|k: int| 0 <= k < own.len() && own[k] == c;
                    if k < i {
                        assert(items@[k] == c);
                    } else if k >= from {
                        assert(items@[k - from + i + 1] == c);
                    } else {
                        assert(items@[i as int] == c);
                    }
                }
                assert(items@[i as int] == control);
            }
            assert(set =~= own.to_set().insert(control));
        }
        ControlSet { items }
    }

    /// The members of the two sets.
    pub fn union(&self, other: &ControlSet) -> (set: ControlSet)
        ensures
            set@ == self@.union(other@),
    {
        let mut set = self.duplicate();
        assert(other.items@.take(0).to_set() =~= Set::empty());
        assert(set@ =~= self@.union(other.items@.take(0).to_set()));
        for i in 0..other.items.len()
            invariant
                set@ == self@.union(other.items@.take(i as int).to_set()),
        {
            let ghost next = other.items@.take(i + 1);
            let ghost here = other.items@.take(i as int);
            set = set.with(other.items[i]);
            proof {
                assert(next == here.push(other.items@[i as int]));
                lemma_push_to_set(here, other.items@[i as int]);
                assert(set@ =~= self@.union(next.to_set()));
            }
        }
        assert(other.items@.take(other.items@.len() as int) == other.items@);
        set
    }

    /// A copy of the set.
    pub fn duplicate(&self) -> (set: ControlSet)
        ensures
            set@ == self@,
    {
        let items = self.to_vec();
        proof {
            ordered_lists_hold_each_member_once(self@);
        }
        ControlSet { items }
    }
}

proof fn lemma_push_to_set(items: Seq<ComparativeControl>, c: ComparativeControl)
    ensures
        items.push(c).to_set() == items.to_set().insert(c),
{
    assert forall|x: ComparativeControl| items.push(c).to_set().contains(x) <==> items.to_set().insert(
        c,
    ).contains(x) by {
        if items.contains(x) {
            let k = choose|k: int| 0 <= k < items.len() && items[k] == x;
            assert(items.push(c)[k] == x);
        }
        if x == c {
            assert(items.push(c)[items.len() as int] == x);
        }
    }
    assert(items.push(c).to_set() =~= items.to_set().insert(c));
}

proof fn lemma_rank_faithful(a: ComparativeControl, b: ComparativeControl)
    ensures
        a.rank() == b.rank() <==> a == b,
{
}

} // verus!
