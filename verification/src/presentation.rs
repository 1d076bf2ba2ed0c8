//! A presentation: slides made of chunks that are revealed one at a time, and the navigation
//! between them.
use crate::operation::RenderOperation;
use vstd::prelude::*;

verus! {

/// Steps through the highlight groups of a piece of code, one group at a time.
#[derive(Clone, Copy, Debug, PartialEq, Eq, Structural)]
pub struct HighlightMutator {
    /// The index of the group being highlighted.
    pub current: usize,
    /// The number of groups.
    pub groups: usize,
}

impl HighlightMutator {
    /// A mutator has at least one group and points at one of them.
    pub open spec fn wf(self) -> bool {
        self.groups >= 1 && self.current < self.groups
    }

    /// Whether the last group is the one highlighted.
    pub open spec fn at_last(self) -> bool {
        self.current + 1 == self.groups
    }

    /// A mutator over the given number of groups, starting at the first one.
    pub fn new(groups: usize) -> (m: Self)
        requires
            groups >= 1,
        ensures
            m == (HighlightMutator { current: 0, groups }),
            m.wf(),
    {
        HighlightMutator { current: 0, groups }
    }

    /// Highlights the next group, if there's one.
    pub fn mutate_next(&mut self) -> (moved: bool)
        requires
            old(self).wf(),
        ensures
            moved == !old(self).at_last(),
            *final(self) == (if moved {
                HighlightMutator { current: (old(self).current + 1) as usize, ..*old(self) }
            } else {
                *old(self)
            }),
            final(self).wf(),
    {
        if self.current == self.groups - 1 {
            false
        } else {
            self.current += 1;
            true
        }
    }

    /// Highlights the previous group, if there's one.
    pub fn mutate_previous(&mut self) -> (moved: bool)
        requires
            old(self).wf(),
        ensures
            moved == (old(self).current > 0),
            *final(self) == (if moved {
                HighlightMutator { current: (old(self).current - 1) as usize, ..*old(self) }
            } else {
                *old(self)
            }),
            final(self).wf(),
    {
        if self.current == 0 {
            false
        } else {
            self.current -= 1;
            true
        }
    }

    /// Goes back to the first group.
    pub fn reset_mutations(&mut self)
        requires
            old(self).wf(),
        ensures
            *final(self) == (HighlightMutator { current: 0, ..*old(self) }),
            final(self).wf(),
    {
        self.current = 0;
    }

    /// Jumps to the last group.
    pub fn apply_all_mutations(&mut self)
        requires
            old(self).wf(),
        ensures
            *final(self) == (HighlightMutator { current: (old(self).groups - 1) as usize, ..*old(self) }),
            final(self).wf(),
            final(self).at_last(),
    {
        self.current = self.groups - 1;
    }

    /// The current group and the number of groups.
    pub fn mutations(&self) -> (r: (usize, usize))
        ensures
            r == (self.current, self.groups),
    {
        (self.current, self.groups)
    }
}

/// Every mutator is well formed.
pub open spec fn mutators_wf(ms: Seq<HighlightMutator>) -> bool {
    forall|i: int| 0 <= i < ms.len() ==> (#[trigger] ms[i]).wf()
}

/// The mutators are in the shape that stepping forwards and backwards produces: a mutator
/// that has moved past its first group only follows mutators that sit on their last group.
pub open spec fn mutators_canonical(ms: Seq<HighlightMutator>) -> bool {
    forall|i: int, j: int|
        0 <= i < j < ms.len() && (#[trigger] ms[j]).current > 0 ==> (#[trigger] ms[i]).at_last()
}

/// Every mutator sits on its last group.
pub open spec fn all_at_last(ms: Seq<HighlightMutator>) -> bool {
    forall|i: int| 0 <= i < ms.len() ==> (#[trigger] ms[i]).at_last()
}

/// Every mutator sits on its first group.
pub open spec fn all_at_first(ms: Seq<HighlightMutator>) -> bool {
    forall|i: int| 0 <= i < ms.len() ==> (#[trigger] ms[i]).current == 0
}

/// `j` is the first mutator that can still move forwards.
pub open spec fn is_first_not_last(ms: Seq<HighlightMutator>, j: int) -> bool {
    &&& 0 <= j < ms.len()
    &&& !ms[j].at_last()
    &&& forall|i: int| 0 <= i < j ==> (#[trigger] ms[i]).at_last()
}

/// `j` is the last mutator that can still move backwards.
pub open spec fn is_last_not_first(ms: Seq<HighlightMutator>, j: int) -> bool {
    &&& 0 <= j < ms.len()
    &&& ms[j].current > 0
    &&& forall|i: int| j < i < ms.len() ==> (#[trigger] ms[i]).current == 0
}

/// The mutators after one step forwards: the first one that can move forwards does.
pub open spec fn step_next(ms: Seq<HighlightMutator>) -> Seq<HighlightMutator> {
    if all_at_last(ms) {
        ms
    } else {
        let j = choose|j: int| is_first_not_last(ms, j);
        ms.update(j, HighlightMutator { current: (ms[j].current + 1) as usize, ..ms[j] })
    }
}

/// The mutators after one step backwards: the last one that can move backwards does.
pub open spec fn step_previous(ms: Seq<HighlightMutator>) -> Seq<HighlightMutator> {
    if all_at_first(ms) {
        ms
    } else {
        let j = choose|j: int| is_last_not_first(ms, j);
        ms.update(j, HighlightMutator { current: (ms[j].current - 1) as usize, ..ms[j] })
    }
}

/// Every mutator back on its first group.
pub open spec fn reset_all(ms: Seq<HighlightMutator>) -> Seq<HighlightMutator> {
    ms.map_values(|m: HighlightMutator| HighlightMutator { current: 0, ..m })
}

/// Every mutator on its last group.
pub open spec fn apply_all(ms: Seq<HighlightMutator>) -> Seq<HighlightMutator> {
    ms.map_values(|m: HighlightMutator| HighlightMutator { current: (m.groups - 1) as usize, ..m })
}

proof fn lemma_first_not_last_unique(ms: Seq<HighlightMutator>, a: int, b: int)
    requires
        is_first_not_last(ms, a),
        is_first_not_last(ms, b),
    ensures
        a == b,
{
    if a < b {
        assert(ms[a].at_last());
    } else if b < a {
        assert(ms[b].at_last());
    }
}

proof fn lemma_last_not_first_unique(ms: Seq<HighlightMutator>, a: int, b: int)
    requires
        is_last_not_first(ms, a),
        is_last_not_first(ms, b),
    ensures
        a == b,
{
    if a < b {
        assert(ms[b].current == 0);
    } else if b < a {
        assert(ms[a].current == 0);
    }
}


/// What navigation can observe and change of a slide: how many chunks are visible, and where
/// each chunk's mutators stand.
pub struct SlideState {
    pub visible: nat,
    pub mutators: Seq<Seq<HighlightMutator>>,
}

/// A slide state is well formed when at least one chunk is visible, no more than there are,
/// every chunk's mutators are well formed and in canonical shape, and the chunks before the
/// current one have all their mutations applied.
pub open spec fn slide_state_wf(s: SlideState) -> bool {
    &&& s.mutators.len() >= 1
    &&& 1 <= s.visible <= s.mutators.len()
    &&& forall|c: int|
        0 <= c < s.mutators.len() ==> mutators_wf(#[trigger] s.mutators[c]) && mutators_canonical(
            s.mutators[c],
        )
    &&& forall|c: int| 0 <= c < s.visible - 1 ==> all_at_last(#[trigger] s.mutators[c])
}

/// Only the first chunk visible, with its mutators back at the start.
pub open spec fn state_show_first(s: SlideState) -> SlideState {
    SlideState { visible: 1, mutators: s.mutators.update(0, reset_all(s.mutators[0])) }
}

/// Every chunk visible, with every mutation applied.
pub open spec fn state_show_all(s: SlideState) -> SlideState {
    SlideState {
        visible: s.mutators.len(),
        mutators: s.mutators.map_values(|ms: Seq<HighlightMutator>| apply_all(ms)),
    }
}

/// One step forwards: a mutation of the current chunk, or else the next chunk.
pub open spec fn state_move_next(s: SlideState) -> (SlideState, bool) {
    let cur = s.visible - 1;
    if !all_at_last(s.mutators[cur]) {
        (
            SlideState { visible: s.visible, mutators: s.mutators.update(cur, step_next(s.mutators[cur])) },
            true,
        )
    } else if s.visible == s.mutators.len() {
        (s, false)
    } else {
        (
            SlideState {
                visible: s.visible + 1,
                mutators: s.mutators.update(s.visible as int, reset_all(s.mutators[s.visible as int])),
            },
            true,
        )
    }
}

/// One step backwards: undo a mutation of the current chunk, or else hide it.
pub open spec fn state_move_previous(s: SlideState) -> (SlideState, bool) {
    let cur = s.visible - 1;
    if !all_at_first(s.mutators[cur]) {
        (
            SlideState {
                visible: s.visible,
                mutators: s.mutators.update(cur, step_previous(s.mutators[cur])),
            },
            true,
        )
    } else if s.visible == 1 {
        (s, false)
    } else {
        (
            SlideState {
                visible: (s.visible - 1) as nat,
                mutators: s.mutators.update(cur - 1, apply_all(s.mutators[cur - 1])),
            },
            true,
        )
    }
}

/// The chunks up to `chunk_index` visible, the ones before the last of them with every mutation
/// applied.
pub open spec fn state_jump_chunk(s: SlideState, chunk_index: usize) -> SlideState {
    let visible = if chunk_index as int + 1 <= s.mutators.len() {
        chunk_index as int + 1
    } else {
        s.mutators.len() as int
    };
    SlideState {
        visible: visible as nat,
        mutators: Seq::new(
            s.mutators.len(),
            |c: int|
                if c < visible - 1 {
                    apply_all(s.mutators[c])
                } else {
                    s.mutators[c]
                },
        ),
    }
}

proof fn lemma_first_not_last_exists(ms: Seq<HighlightMutator>, k: int)
    requires
        0 <= k < ms.len(),
        !ms[k].at_last(),
    ensures
        exists|j: int| is_first_not_last(ms, j),
    decreases k,
{
    if forall|i: int| 0 <= i < k ==> (#[trigger] ms[i]).at_last() {
        assert(is_first_not_last(ms, k));
    } else {
        let i = choose|i: int| 0 <= i < k && !(#[trigger] ms[i]).at_last();
        lemma_first_not_last_exists(ms, i);
    }
}

proof fn lemma_last_not_first_exists(ms: Seq<HighlightMutator>, k: int)
    requires
        0 <= k < ms.len(),
        ms[k].current != 0,
    ensures
        exists|j: int| is_last_not_first(ms, j),
    decreases ms.len() - k,
{
    if forall|i: int| k < i < ms.len() ==> (#[trigger] ms[i]).current == 0 {
        assert(is_last_not_first(ms, k));
    } else {
        let i = choose|i: int| k < i < ms.len() && (#[trigger] ms[i]).current != 0;
        lemma_last_not_first_exists(ms, i);
    }
}

proof fn lemma_step_next_keeps(ms: Seq<HighlightMutator>)
    requires
        mutators_wf(ms),
        mutators_canonical(ms),
    ensures
        mutators_wf(step_next(ms)),
        mutators_canonical(step_next(ms)),
        step_next(ms).len() == ms.len(),
{
    if !all_at_last(ms) {
        let k = choose|k: int| 0 <= k < ms.len() && !(#[trigger] ms[k]).at_last();
        lemma_first_not_last_exists(ms, k);
        let first = choose|j: int| is_first_not_last(ms, j);
        assert(is_first_not_last(ms, first));
        let j = choose|j: int| is_first_not_last(ms, j);
        lemma_first_not_last_unique(ms, first, j);
        let ns = step_next(ms);
        assert forall|a: int, b: int|
            0 <= a < b < ns.len() && (#[trigger] ns[b]).current > 0 implies (
            #[trigger] ns[a]).at_last() by {
            if b != j && a != j {
                assert(ms[b].current > 0);
            } else if a == j {
                assert(ms[b] == ns[b]);
            }
        }
    }
}

proof fn lemma_step_previous_keeps(ms: Seq<HighlightMutator>)
    requires
        mutators_wf(ms),
        mutators_canonical(ms),
    ensures
        mutators_wf(step_previous(ms)),
        mutators_canonical(step_previous(ms)),
        step_previous(ms).len() == ms.len(),
{
    if !all_at_first(ms) {
        let k = choose|k: int| 0 <= k < ms.len() && (#[trigger] ms[k]).current != 0;
        lemma_last_not_first_exists(ms, k);
        let last = choose|j: int| is_last_not_first(ms, j);
        assert(is_last_not_first(ms, last));
        let j = choose|j: int| is_last_not_first(ms, j);
        lemma_last_not_first_unique(ms, last, j);
        let ns = step_previous(ms);
        assert forall|a: int, b: int|
            0 <= a < b < ns.len() && (#[trigger] ns[b]).current > 0 implies (
            #[trigger] ns[a]).at_last() by {
            if b == j {
                assert(ms[b].current > 0);
            } else if a == j {
                assert(ns[b] == ms[b]);
            } else {
                assert(ms[b].current > 0);
            }
        }
    }
}

proof fn lemma_reset_apply_keep(ms: Seq<HighlightMutator>)
    requires
        mutators_wf(ms),
    ensures
        mutators_wf(reset_all(ms)),
        mutators_canonical(reset_all(ms)),
        all_at_first(reset_all(ms)),
        mutators_wf(apply_all(ms)),
        mutators_canonical(apply_all(ms)),
        all_at_last(apply_all(ms)),
        reset_all(ms).len() == ms.len(),
        apply_all(ms).len() == ms.len(),
{
    assert forall|i: int| 0 <= i < ms.len() implies (#[trigger] reset_all(ms)[i]).wf() by {
        assert(ms[i].wf());
    }
    assert forall|i: int| 0 <= i < ms.len() implies (#[trigger] apply_all(ms)[i]).wf() by {
        assert(ms[i].wf());
    }
}

/// A piece of a slide that's shown at once.
#[derive(Debug)]
pub struct SlideChunk {
    pub operations: Vec<RenderOperation>,
    pub mutators: Vec<HighlightMutator>,
}

impl SlideChunk {
    /// A chunk is well formed when its mutators are, and they are in canonical shape.
    pub open spec fn wf(&self) -> bool {
        mutators_wf(self.mutators@) && mutators_canonical(self.mutators@)
    }

    /// A chunk made of the given operations and mutators.
    pub fn new(operations: Vec<RenderOperation>, mutators: Vec<HighlightMutator>) -> (c: Self)
        ensures
            c.operations@ == operations@,
            c.mutators@ == mutators@,
    {
        SlideChunk { operations, mutators }
    }

    /// An empty chunk.
    pub fn empty() -> (c: Self)
        ensures
            c.operations@.len() == 0,
            c.mutators@.len() == 0,
            c.wf(),
    {
        SlideChunk { operations: Vec::new(), mutators: Vec::new() }
    }

    /// Removes the last operation.
    pub fn pop_last(&mut self) -> (op: Option<RenderOperation>)
        ensures
            old(self).operations@.len() == 0 ==> op is None && final(self).operations@.len() == 0,
            old(self).operations@.len() > 0 ==> op == Some(old(self).operations@.last())
                && final(self).operations@ == old(self).operations@.drop_last(),
            final(self).mutators@ == old(self).mutators@,
    {
        self.operations.pop()
    }

    /// Moves the first mutator that can move forwards.
    pub fn mutate_next(&mut self) -> (moved: bool)
        requires
            old(self).wf(),
        ensures
            moved == !all_at_last(old(self).mutators@),
            final(self).mutators@ == step_next(old(self).mutators@),
            final(self).operations@ == old(self).operations@,
            final(self).wf(),
    {
        let ghost ms = self.mutators@;
        let mut i: usize = 0;
        while i < self.mutators.len()
            invariant
                self.mutators@ == ms,
                self.operations@ == old(self).operations@,
                ms == old(self).mutators@,
                mutators_wf(ms),
                mutators_canonical(ms),
                i <= ms.len(),
                forall|k: int| 0 <= k < i ==> (#[trigger] ms[k]).at_last(),
            decreases ms.len() - i,
        {
            let moved = self.mutators[i].mutate_next();
            if moved {
                proof {
                    assert(is_first_not_last(ms, i as int));
                    let j = choose|j: int| is_first_not_last(ms, j);
                    lemma_first_not_last_unique(ms, i as int, j);
                    assert(self.mutators@ =~= step_next(ms));
                    let ns = self.mutators@;
                    assert forall|a: int, b: int|
                        0 <= a < b < ns.len() && (#[trigger] ns[b]).current > 0 implies (
                        #[trigger] ns[a]).at_last() by {
                        if b != i && a != i {
                            assert(ms[b].current > 0);
                        } else if a == i {
                            assert(ms[b] == ns[b]);
                            assert(!ms[a].at_last());
                        }
                    }
                }
                return true;
            }
            i = i + 1;
        }
        proof {
            assert(all_at_last(ms));
        }
        false
    }

    /// Moves the last mutator that can move backwards.
    pub fn mutate_previous(&mut self) -> (moved: bool)
        requires
            old(self).wf(),
        ensures
            moved == !all_at_first(old(self).mutators@),
            final(self).mutators@ == step_previous(old(self).mutators@),
            final(self).operations@ == old(self).operations@,
            final(self).wf(),
    {
        let ghost ms = self.mutators@;
        let mut i: usize = self.mutators.len();
        while i > 0
            invariant
                self.mutators@ == ms,
                self.operations@ == old(self).operations@,
                ms == old(self).mutators@,
                mutators_wf(ms),
                mutators_canonical(ms),
                i <= ms.len(),
                forall|k: int| i <= k < ms.len() ==> (#[trigger] ms[k]).current == 0,
            decreases i,
        {
            let moved = self.mutators[i - 1].mutate_previous();
            if moved {
                proof {
                    assert(is_last_not_first(ms, i - 1));
                    let j = choose|j: int| is_last_not_first(ms, j);
                    lemma_last_not_first_unique(ms, i - 1, j);
                    assert(self.mutators@ =~= step_previous(ms));
                    let ns = self.mutators@;
                    assert forall|a: int, b: int|
                        0 <= a < b < ns.len() && (#[trigger] ns[b]).current > 0 implies (
                        #[trigger] ns[a]).at_last() by {
                        if b == i - 1 {
                            assert(ms[b].current > 0);
                        } else if a == i - 1 {
                            assert(ns[b] == ms[b]);
                            assert(ms[b].current == 0);
                        } else {
                            assert(ms[b].current > 0);
                        }
                    }
                }
                return true;
            }
            i = i - 1;
        }
        proof {
            assert(all_at_first(ms));
        }
        false
    }

    /// Puts every mutator back on its first group.
    pub fn reset_mutations(&mut self)
        requires
            old(self).wf(),
        ensures
            final(self).mutators@ == reset_all(old(self).mutators@),
            final(self).operations@ == old(self).operations@,
            final(self).wf(),
    {
        let ghost ms = self.mutators@;
        let mut i: usize = 0;
        while i < self.mutators.len()
            invariant
                self.operations@ == old(self).operations@,
                ms == old(self).mutators@,
                mutators_wf(ms),
                i <= ms.len(),
                self.mutators@.len() == ms.len(),
                forall|k: int|
                    0 <= k < i ==> #[trigger] self.mutators@[k] == (HighlightMutator {
                        current: 0,
                        ..ms[k]
                    }),
                forall|k: int| i <= k < ms.len() ==> #[trigger] self.mutators@[k] == ms[k],
            decreases ms.len() - i,
        {
            self.mutators[i].reset_mutations();
            i = i + 1;
        }
        assert(self.mutators@ =~= reset_all(ms));
    }

    /// Puts every mutator on its last group.
    pub fn apply_all_mutations(&mut self)
        requires
            old(self).wf(),
        ensures
            final(self).mutators@ == apply_all(old(self).mutators@),
            final(self).operations@ == old(self).operations@,
            final(self).wf(),
            all_at_last(final(self).mutators@),
    {
        let ghost ms = self.mutators@;
        let mut i: usize = 0;
        while i < self.mutators.len()
            invariant
                self.operations@ == old(self).operations@,
                ms == old(self).mutators@,
                mutators_wf(ms),
                i <= ms.len(),
                self.mutators@.len() == ms.len(),
                forall|k: int|
                    0 <= k < i ==> #[trigger] self.mutators@[k] == (HighlightMutator {
                        current: (ms[k].groups - 1) as usize,
                        ..ms[k]
                    }),
                forall|k: int| i <= k < ms.len() ==> #[trigger] self.mutators@[k] == ms[k],
            decreases ms.len() - i,
        {
            self.mutators[i].apply_all_mutations();
            i = i + 1;
        }
        assert(self.mutators@ =~= apply_all(ms));
    }
}



/// Undoing one step forwards of canonical mutators gives them back.
proof fn lemma_step_next_then_previous(ms: Seq<HighlightMutator>)
    requires
        mutators_wf(ms),
        mutators_canonical(ms),
        !all_at_last(ms),
    ensures
        !all_at_first(step_next(ms)),
        step_previous(step_next(ms)) == ms,
{
    let k = choose|k: int| 0 <= k < ms.len() && !(#[trigger] ms[k]).at_last();
    lemma_first_not_last_exists(ms, k);
    let j = choose|j: int| is_first_not_last(ms, j);
    let ns = step_next(ms);
    assert(ns[j].current > 0);
    assert forall|i: int| j < i < ns.len() implies (#[trigger] ns[i]).current == 0 by {
        assert(ns[i] == ms[i]);
        if ms[i].current > 0 {
            assert(ms[j].at_last());
        }
    }
    assert(is_last_not_first(ns, j));
    let j2 = choose|x: int| is_last_not_first(ns, x);
    lemma_last_not_first_unique(ns, j, j2);
    assert(step_previous(ns) =~= ms);
}

/// Redoing one step backwards of canonical mutators gives them back.
proof fn lemma_step_previous_then_next(ms: Seq<HighlightMutator>)
    requires
        mutators_wf(ms),
        mutators_canonical(ms),
        !all_at_first(ms),
    ensures
        !all_at_last(step_previous(ms)),
        step_next(step_previous(ms)) == ms,
{
    let k = choose|k: int| 0 <= k < ms.len() && (#[trigger] ms[k]).current != 0;
    lemma_last_not_first_exists(ms, k);
    let j = choose|j: int| is_last_not_first(ms, j);
    let ns = step_previous(ms);
    assert(!ns[j].at_last());
    assert forall|i: int| 0 <= i < j implies (#[trigger] ns[i]).at_last() by {
        assert(ns[i] == ms[i]);
        assert(ms[j].current > 0);
    }
    assert(is_first_not_last(ns, j));
    let j2 = choose|x: int| is_first_not_last(ns, x);
    lemma_first_not_last_unique(ns, j, j2);
    assert(step_next(ns) =~= ms);
}

/// Applying every mutation to mutators that are all on their last group changes nothing,
/// and neither does resetting mutators that are all on their first group.
proof fn lemma_apply_reset_fixed(ms: Seq<HighlightMutator>)
    requires
        mutators_wf(ms),
    ensures
        all_at_last(ms) ==> apply_all(ms) == ms,
        all_at_first(ms) ==> reset_all(ms) == ms,
{
    if all_at_last(ms) {
        assert forall|i: int| 0 <= i < ms.len() implies apply_all(ms)[i] == ms[i] by {
            assert(ms[i].at_last());
            assert(ms[i].wf());
        }
        assert(apply_all(ms) =~= ms);
    }
    if all_at_first(ms) {
        assert forall|i: int| 0 <= i < ms.len() implies reset_all(ms)[i] == ms[i] by {
            assert(ms[i].current == 0);
        }
        assert(reset_all(ms) =~= ms);
    }
}

/// What navigation can observe and change of a presentation: the current slide and the state
/// of each slide.
pub struct NavState {
    pub current: int,
    pub slides: Seq<SlideState>,
}

/// A navigation state is well formed when there's at least one slide, the current slide
/// exists, and every slide state is well formed.
pub open spec fn nav_wf(n: NavState) -> bool {
    &&& n.slides.len() >= 1
    &&& 0 <= n.current < n.slides.len()
    &&& forall|i: int| 0 <= i < n.slides.len() ==> slide_state_wf(#[trigger] n.slides[i])
}

/// The current slide's state replaced.
pub open spec fn nav_with_current(n: NavState, s: SlideState) -> NavState {
    NavState { current: n.current, slides: n.slides.update(n.current, s) }
}

/// Move to the next slide, showing only its first chunk.
pub open spec fn nav_jump_next_slide(n: NavState) -> (NavState, bool) {
    if n.current < n.slides.len() - 1 {
        let c = n.current + 1;
        (NavState { current: c, slides: n.slides.update(c, state_show_first(n.slides[c])) }, true)
    } else {
        (n, false)
    }
}

/// Move to the previous slide, showing all of its chunks.
pub open spec fn nav_jump_previous_slide(n: NavState) -> (NavState, bool) {
    if n.current > 0 {
        let c = n.current - 1;
        (NavState { current: c, slides: n.slides.update(c, state_show_all(n.slides[c])) }, true)
    } else {
        (n, false)
    }
}

/// One step forwards: within the current slide if possible, else to the next slide.
pub open spec fn nav_jump_next(n: NavState) -> (NavState, bool) {
    let (s, moved) = state_move_next(n.slides[n.current]);
    if moved {
        (nav_with_current(n, s), true)
    } else {
        nav_jump_next_slide(n)
    }
}

/// One step backwards: within the current slide if possible, else to the previous slide.
pub open spec fn nav_jump_previous(n: NavState) -> (NavState, bool) {
    let (s, moved) = state_move_previous(n.slides[n.current]);
    if moved {
        (nav_with_current(n, s), true)
    } else {
        nav_jump_previous_slide(n)
    }
}

/// Show all chunks of the current slide, or go to the next slide if they're all shown.
pub open spec fn nav_jump_next_fast(n: NavState) -> (NavState, bool) {
    let s = n.slides[n.current];
    if s.visible == s.mutators.len() {
        nav_jump_next_slide(n)
    } else {
        (nav_with_current(n, state_show_all(s)), true)
    }
}

/// Show only the first chunk of the current slide, or go to the previous slide if that's
/// already the case.
pub open spec fn nav_jump_previous_fast(n: NavState) -> (NavState, bool) {
    let s = n.slides[n.current];
    if s.visible == s.mutators.len() && s.mutators.len() > 1 {
        (nav_with_current(n, state_show_first(s)), true)
    } else {
        nav_jump_previous_slide(n)
    }
}

/// Go to a slide, showing only its first chunk.
pub open spec fn nav_go_to_slide(n: NavState, index: usize) -> (NavState, bool) {
    if index < n.slides.len() {
        (
            NavState {
                current: index as int,
                slides: n.slides.update(index as int, state_show_first(n.slides[index as int])),
            },
            true,
        )
    } else {
        (n, false)
    }
}

/// The visible part of a slide state: the number of visible chunks and their mutators.
pub open spec fn same_visible(a: SlideState, b: SlideState) -> bool {
    &&& a.visible == b.visible
    &&& a.visible <= a.mutators.len()
    &&& a.visible <= b.mutators.len()
    &&& forall|k: int| 0 <= k < a.visible ==> #[trigger] a.mutators[k] == b.mutators[k]
}

/// Stepping: a step forwards stays on the slide, showing the same chunks or one more, unless
/// every chunk is shown with every mutation applied, and only then moves to the next slide,
/// showing its first chunk; a step backwards stays, showing the same chunks or one fewer,
/// unless only the first chunk is shown with no mutation applied, and only then moves to the
/// previous slide, showing all of its chunks. Neither moves past the first or last slide.
pub proof fn lemma_steps_move_one_chunk_or_one_slide(n: NavState)
    requires
        nav_wf(n),
    ensures
        ({
            let (m, moved) = nav_jump_next(n);
            let s = n.slides[n.current];
            &&& m.slides.len() == n.slides.len()
            &&& m.current == n.current ==> moved ==> m.slides[m.current].visible == s.visible
                || m.slides[m.current].visible == s.visible + 1
            &&& m.current != n.current ==> m.current == n.current + 1 && moved && s.visible
                == s.mutators.len() && all_at_last(s.mutators[s.visible - 1])
                && m.slides[m.current].visible == 1
            &&& !moved ==> m == n && n.current == n.slides.len() - 1
        }),
        ({
            let (m, moved) = nav_jump_previous(n);
            let s = n.slides[n.current];
            &&& m.slides.len() == n.slides.len()
            &&& m.current == n.current ==> moved ==> m.slides[m.current].visible == s.visible
                || m.slides[m.current].visible + 1 == s.visible
            &&& m.current != n.current ==> m.current == n.current - 1 && moved && s.visible == 1
                && all_at_first(s.mutators[0]) && m.slides[m.current].visible
                == m.slides[m.current].mutators.len()
            &&& !moved ==> m == n && n.current == 0
        }),
{
}

/// Moving fast backwards shows only the first chunk of the current slide when all of its
/// chunks are shown and it has more than one, staying on it; otherwise it moves to the
/// previous slide, showing all of its chunks, and stays put on the first slide. Going to a
/// slide that exists shows it with only its first chunk; going to one past the last does
/// nothing.
pub proof fn lemma_previous_fast_and_go_to_slide(n: NavState, index: usize)
    requires
        nav_wf(n),
    ensures
        ({
            let (m, moved) = nav_jump_previous_fast(n);
            let s = n.slides[n.current];
            &&& s.visible == s.mutators.len() && s.mutators.len() > 1 ==> moved && m.current
                == n.current && m.slides[m.current].visible == 1
            &&& !(s.visible == s.mutators.len() && s.mutators.len() > 1) ==> if n.current > 0 {
                moved && m.current == n.current - 1 && m.slides[m.current].visible
                    == m.slides[m.current].mutators.len()
            } else {
                !moved && m == n
            }
        }),
        ({
            let (m, moved) = nav_go_to_slide(n, index);
            &&& index < n.slides.len() ==> moved && m.current == index && m.slides[m.current].visible
                == 1 && m.slides.len() == n.slides.len()
            &&& index >= n.slides.len() ==> !moved && m == n
        }),
{
}

/// Moving fast to the next step shows every chunk of the current slide when some are still
/// hidden, staying on that slide; only once they are all shown does it move to the next slide,
/// showing that one's first chunk, and it stays put on the last slide.
pub proof fn lemma_next_fast_reveals_before_moving(before: Presentation, after: Presentation, moved: bool)
    requires
        before.wf(),
        (after.nav(), moved) == nav_jump_next_fast(before.nav()),
        after.unchanged_contents(&before),
    ensures
        ({
            let c = before.state.current_slide_index as int;
            let slide = before.slides@[c];
            &&& slide.visible_chunks < slide.chunks@.len() ==> {
                &&& moved
                &&& after.state.current_slide_index == before.state.current_slide_index
                &&& after.slides@[c].visible_chunks == after.slides@[c].chunks@.len()
            }
            &&& slide.visible_chunks == slide.chunks@.len() ==> {
                &&& moved <==> c + 1 < before.slides@.len()
                &&& moved ==> after.state.current_slide_index == c + 1
                    && after.slides@[c + 1].visible_chunks == 1
                &&& !moved ==> after.state.current_slide_index == before.state.current_slide_index
            }
        }),
{
    let c = before.state.current_slide_index as int;
    let n = before.nav();
    assert(n.slides[c] == before.slides@[c].state());
    assert(slide_contents(after.slides@).len() == slide_contents(before.slides@).len());
    assert(after.slides@.len() == before.slides@.len());
    let m = nav_jump_next_fast(n).0;
    if 0 <= c < after.slides@.len() {
        assert(m.slides[c] == after.slides@[c].state());
        assert(chunk_mutators(after.slides@[c].chunks@).len() == after.slides@[c].chunks@.len());
    }
    if c + 1 < after.slides@.len() {
        assert(m.slides[c + 1] == after.slides@[c + 1].state());
    }
    assert(chunk_mutators(before.slides@[c].chunks@).len() == before.slides@[c].chunks@.len());
}

/// Going forwards and then backwards lands on the same slide, showing what it showed before:
/// the same number of chunks with the same mutations.
pub proof fn lemma_next_then_previous(n: NavState)
    requires
        nav_wf(n),
        nav_jump_next(n).1,
    ensures
        nav_jump_previous(nav_jump_next(n).0).1,
        nav_jump_previous(nav_jump_next(n).0).0.current == n.current,
        same_visible(
            nav_jump_previous(nav_jump_next(n).0).0.slides[n.current],
            n.slides[n.current],
        ),
{
    let s = n.slides[n.current];
    assert(slide_state_wf(s));
    let cur = s.visible - 1;
    assert(mutators_wf(s.mutators[cur]) && mutators_canonical(s.mutators[cur]));
    if !all_at_last(s.mutators[cur]) {
        lemma_step_next_then_previous(s.mutators[cur]);
        let n1 = nav_jump_next(n).0;
        assert(n1.slides[n.current].mutators =~= s.mutators.update(cur, step_next(s.mutators[cur])));
        assert(nav_jump_previous(n1).0.slides[n.current].mutators =~= s.mutators);
    } else if s.visible < s.mutators.len() {
        let v = s.visible as int;
        assert(mutators_wf(s.mutators[v]));
        lemma_reset_apply_keep(s.mutators[v]);
        lemma_apply_reset_fixed(s.mutators[cur]);
        let n1 = nav_jump_next(n).0;
        let s1 = n1.slides[n.current];
        assert(s1.mutators[v] == reset_all(s.mutators[v]));
        assert(all_at_first(s1.mutators[v]));
        let s2 = nav_jump_previous(n1).0.slides[n.current];
        assert(s2.mutators =~= s1.mutators.update(cur, apply_all(s1.mutators[cur])));
        assert forall|k: int| 0 <= k < s.visible implies #[trigger] s2.mutators[k] == s.mutators[k] by {
        }
    } else {
        let c = n.current + 1;
        let t = n.slides[c];
        assert(slide_state_wf(t));
        assert(mutators_wf(t.mutators[0]));
        lemma_reset_apply_keep(t.mutators[0]);
        let n1 = nav_jump_next(n).0;
        assert(n1.slides[c].mutators[0] == reset_all(t.mutators[0]));
        let n2 = nav_jump_previous(n1).0;
        assert(n2.current == n.current);
        let s2 = n2.slides[n.current];
        assert(n1.slides[n.current] == s);
        assert forall|k: int| 0 <= k < s.visible implies #[trigger] s2.mutators[k] == s.mutators[k] by {
            assert(mutators_wf(s.mutators[k]));
            lemma_apply_reset_fixed(s.mutators[k]);
            if k < cur {
                assert(all_at_last(s.mutators[k]));
            }
        }
    }
}

/// Going backwards and then forwards lands on the same slide, showing what it showed before:
/// the same number of chunks with the same mutations.
pub proof fn lemma_previous_then_next(n: NavState)
    requires
        nav_wf(n),
        nav_jump_previous(n).1,
    ensures
        nav_jump_next(nav_jump_previous(n).0).1,
        nav_jump_next(nav_jump_previous(n).0).0.current == n.current,
        same_visible(nav_jump_next(nav_jump_previous(n).0).0.slides[n.current], n.slides[n.current]),
{
    let s = n.slides[n.current];
    assert(slide_state_wf(s));
    let cur = s.visible - 1;
    assert(mutators_wf(s.mutators[cur]) && mutators_canonical(s.mutators[cur]));
    if !all_at_first(s.mutators[cur]) {
        lemma_step_previous_then_next(s.mutators[cur]);
        let n1 = nav_jump_previous(n).0;
        assert(n1.slides[n.current].mutators =~= s.mutators.update(
            cur,
            step_previous(s.mutators[cur]),
        ));
        assert(nav_jump_next(n1).0.slides[n.current].mutators =~= s.mutators);
    } else if s.visible > 1 {
        assert(mutators_wf(s.mutators[cur - 1]));
        lemma_reset_apply_keep(s.mutators[cur - 1]);
        lemma_apply_reset_fixed(s.mutators[cur - 1]);
        lemma_apply_reset_fixed(s.mutators[cur]);
        assert(all_at_last(s.mutators[cur - 1]));
        let n1 = nav_jump_previous(n).0;
        let s1 = n1.slides[n.current];
        assert(s1.mutators[cur - 1] == s.mutators[cur - 1]);
        let s2 = nav_jump_next(n1).0.slides[n.current];
        assert(s2.mutators =~= s1.mutators.update(cur, reset_all(s1.mutators[cur])));
        assert forall|k: int| 0 <= k < s.visible implies #[trigger] s2.mutators[k] == s.mutators[k] by {
        }
    } else {
        let c = n.current - 1;
        let t = n.slides[c];
        assert(slide_state_wf(t));
        let n1 = nav_jump_previous(n).0;
        let t1 = n1.slides[c];
        assert forall|k: int| 0 <= k < t1.mutators.len() implies all_at_last(
            #[trigger] t1.mutators[k],
        ) by {
            assert(mutators_wf(t.mutators[k]));
            lemma_reset_apply_keep(t.mutators[k]);
        }
        assert(all_at_last(t1.mutators[t1.visible - 1]));
        let n2 = nav_jump_next(n1).0;
        assert(n2.current == n.current);
        let s2 = n2.slides[n.current];
        assert(mutators_wf(s.mutators[0]));
        lemma_apply_reset_fixed(s.mutators[0]);
        assert(s2.mutators[0] == s.mutators[0]);
    }
}

/// A slide: chunks of render operations revealed one at a time, and a footer.
#[derive(Debug)]
pub struct Slide {
    pub chunks: Vec<SlideChunk>,
    pub footer: Vec<RenderOperation>,
    pub visible_chunks: usize,
}

/// The mutators of each chunk.
pub open spec fn chunk_mutators(chunks: Seq<SlideChunk>) -> Seq<Seq<HighlightMutator>> {
    chunks.map_values(|c: SlideChunk| c.mutators@)
}

/// The operations of each chunk.
pub open spec fn chunk_operations(chunks: Seq<SlideChunk>) -> Seq<Seq<RenderOperation>> {
    chunks.map_values(|c: SlideChunk| c.operations@)
}

impl Slide {
    /// The navigation state of this slide.
    pub open spec fn state(&self) -> SlideState {
        SlideState { visible: self.visible_chunks as nat, mutators: chunk_mutators(self.chunks@) }
    }

    /// A slide is well formed when its state is.
    pub open spec fn wf(&self) -> bool {
        slide_state_wf(self.state())
    }

    /// What the slide shows and holds apart from its navigation state.
    pub open spec fn contents(&self) -> (Seq<Seq<RenderOperation>>, Seq<RenderOperation>) {
        (chunk_operations(self.chunks@), self.footer@)
    }

    /// A slide with the given chunks and footer, showing its first chunk.
    pub fn new(chunks: Vec<SlideChunk>, footer: Vec<RenderOperation>) -> (s: Self)
        ensures
            s.chunks@ == chunks@,
            s.footer@ == footer@,
            s.visible_chunks == 1,
    {
        Slide { chunks, footer, visible_chunks: 1 }
    }

    /// The index of the last visible chunk.
    pub fn current_chunk_index(&self) -> (i: usize)
        ensures
            i == if self.visible_chunks == 0 {
                0
            } else {
                self.visible_chunks - 1
            },
    {
        self.visible_chunks.saturating_sub(1)
    }

    /// The number of visible chunks.
    pub fn visible_chunks(&self) -> (n: usize)
        ensures
            n == self.visible_chunks,
    {
        self.visible_chunks
    }

    /// The number of chunks.
    pub fn chunk_count(&self) -> (n: usize)
        ensures
            n == self.chunks@.len(),
    {
        self.chunks.len()
    }

    /// Shows only the first chunk, with its mutations undone.
    pub fn show_first_chunk(&mut self)
        requires
            old(self).wf(),
        ensures
            final(self).state() == state_show_first(old(self).state()),
            final(self).contents() == old(self).contents(),
            final(self).wf(),
    {
        proof {
            assert(chunk_mutators(self.chunks@)[0] == self.chunks@[0].mutators@);
            assert(mutators_wf(chunk_mutators(self.chunks@)[0]));
            lemma_reset_apply_keep(self.chunks@[0].mutators@);
        }
        self.visible_chunks = 1;
        self.chunks[0].reset_mutations();
        proof {
            assert(chunk_mutators(self.chunks@) =~= chunk_mutators(old(self).chunks@).update(
                0,
                reset_all(old(self).chunks@[0].mutators@),
            ));
            assert(chunk_operations(self.chunks@) =~= chunk_operations(old(self).chunks@));
        }
    }

    /// Shows every chunk, with every mutation applied.
    pub fn show_all_chunks(&mut self)
        requires
            old(self).wf(),
        ensures
            final(self).state() == state_show_all(old(self).state()),
            final(self).contents() == old(self).contents(),
            final(self).wf(),
    {
        let ghost old_chunks = self.chunks@;
        self.visible_chunks = self.chunks.len();
        let mut i: usize = 0;
        while i < self.chunks.len()
            invariant
                self.visible_chunks == old_chunks.len(),
                self.chunks@.len() == old_chunks.len(),
                self.footer@ == old(self).footer@,
                old_chunks == old(self).chunks@,
                slide_state_wf(old(self).state()),
                i <= old_chunks.len(),
                forall|c: int|
                    0 <= c < i ==> (#[trigger] self.chunks@[c]).mutators@ == apply_all(
                        old_chunks[c].mutators@,
                    ),
                forall|c: int|
                    i <= c < old_chunks.len() ==> (#[trigger] self.chunks@[c]).mutators@
                        == old_chunks[c].mutators@,
                forall|c: int|
                    0 <= c < old_chunks.len() ==> (#[trigger] self.chunks@[c]).operations@
                        == old_chunks[c].operations@,
            decreases old_chunks.len() - i,
        {
            proof {
                assert(chunk_mutators(old_chunks)[i as int] == old_chunks[i as int].mutators@);
            }
            self.chunks[i].apply_all_mutations();
            i += 1;
        }
        proof {
            let st = self.state();
            let ost = old(self).state();
            assert(st.mutators =~= ost.mutators.map_values(
                |ms: Seq<HighlightMutator>| apply_all(ms),
            ));
            assert(chunk_operations(self.chunks@) =~= chunk_operations(old_chunks));
            assert forall|c: int| 0 <= c < st.mutators.len() implies mutators_wf(
                #[trigger] st.mutators[c],
            ) && mutators_canonical(st.mutators[c]) by {
                assert(mutators_wf(ost.mutators[c]));
                lemma_reset_apply_keep(ost.mutators[c]);
            }
            assert forall|c: int| 0 <= c < st.visible - 1 implies all_at_last(
                #[trigger] st.mutators[c],
            ) by {
                assert(mutators_wf(ost.mutators[c]));
                lemma_reset_apply_keep(ost.mutators[c]);
            }
        }
    }

    /// Moves forwards within this slide: a mutation, or else the next chunk.
    pub fn move_next(&mut self) -> (moved: bool)
        requires
            old(self).wf(),
        ensures
            (final(self).state(), moved) == state_move_next(old(self).state()),
            final(self).contents() == old(self).contents(),
            final(self).wf(),
    {
        let cur = self.visible_chunks - 1;
        proof {
            assert(chunk_mutators(self.chunks@)[cur as int] == self.chunks@[cur as int].mutators@);
            lemma_step_next_keeps(self.chunks@[cur as int].mutators@);
        }
        if self.chunks[cur].mutate_next() {
            proof {
                assert(chunk_mutators(self.chunks@) =~= chunk_mutators(old(self).chunks@).update(
                    cur as int,
                    step_next(old(self).chunks@[cur as int].mutators@),
                ));
                assert(chunk_operations(self.chunks@) =~= chunk_operations(old(self).chunks@));
            }
            return true;
        }
        if self.visible_chunks == self.chunks.len() {
            proof {
                assert(chunk_mutators(self.chunks@) =~= chunk_mutators(old(self).chunks@));
                assert(chunk_operations(self.chunks@) =~= chunk_operations(old(self).chunks@));
            }
            false
        } else {
            proof {
                assert(chunk_mutators(self.chunks@) =~= chunk_mutators(old(self).chunks@));
                assert(chunk_mutators(self.chunks@)[self.visible_chunks as int]
                    == self.chunks@[self.visible_chunks as int].mutators@);
                assert(mutators_wf(chunk_mutators(self.chunks@)[self.visible_chunks as int]));
                lemma_reset_apply_keep(self.chunks@[self.visible_chunks as int].mutators@);
            }
            self.visible_chunks += 1;
            let next = self.visible_chunks - 1;
            self.chunks[next].reset_mutations();
            proof {
                assert(chunk_mutators(self.chunks@) =~= chunk_mutators(old(self).chunks@).update(
                    next as int,
                    reset_all(old(self).chunks@[next as int].mutators@),
                ));
                assert(chunk_operations(self.chunks@) =~= chunk_operations(old(self).chunks@));
            }
            true
        }
    }

    /// Moves backwards within this slide: undo a mutation, or else hide the current chunk.
    pub fn move_previous(&mut self) -> (moved: bool)
        requires
            old(self).wf(),
        ensures
            (final(self).state(), moved) == state_move_previous(old(self).state()),
            final(self).contents() == old(self).contents(),
            final(self).wf(),
    {
        let cur = self.visible_chunks - 1;
        proof {
            assert(chunk_mutators(self.chunks@)[cur as int] == self.chunks@[cur as int].mutators@);
            lemma_step_previous_keeps(self.chunks@[cur as int].mutators@);
        }
        if self.chunks[cur].mutate_previous() {
            proof {
                assert(chunk_mutators(self.chunks@) =~= chunk_mutators(old(self).chunks@).update(
                    cur as int,
                    step_previous(old(self).chunks@[cur as int].mutators@),
                ));
                assert(chunk_operations(self.chunks@) =~= chunk_operations(old(self).chunks@));
            }
            return true;
        }
        if self.visible_chunks == 1 {
            proof {
                assert(chunk_mutators(self.chunks@) =~= chunk_mutators(old(self).chunks@));
                assert(chunk_operations(self.chunks@) =~= chunk_operations(old(self).chunks@));
            }
            false
        } else {
            proof {
                assert(chunk_mutators(self.chunks@) =~= chunk_mutators(old(self).chunks@));
                assert(chunk_mutators(self.chunks@)[cur - 1] == self.chunks@[cur - 1].mutators@);
                assert(mutators_wf(chunk_mutators(self.chunks@)[cur - 1]));
                lemma_reset_apply_keep(self.chunks@[cur - 1].mutators@);
            }
            self.visible_chunks -= 1;
            let prev = self.visible_chunks - 1;
            self.chunks[prev].apply_all_mutations();
            proof {
                assert(chunk_mutators(self.chunks@) =~= chunk_mutators(old(self).chunks@).update(
                    prev as int,
                    apply_all(old(self).chunks@[prev as int].mutators@),
                ));
                assert(chunk_operations(self.chunks@) =~= chunk_operations(old(self).chunks@));
            }
            true
        }
    }

    /// Shows the chunks up to the given index, with every mutation before the last of them
    /// applied.
    pub fn jump_chunk(&mut self, chunk_index: usize)
        requires
            old(self).wf(),
        ensures
            final(self).state() == state_jump_chunk(old(self).state(), chunk_index),
            final(self).contents() == old(self).contents(),
            final(self).wf(),
    {
        let ghost old_chunks = self.chunks@;
        let target = chunk_index.saturating_add(1);
        self.visible_chunks = if target <= self.chunks.len() {
            target
        } else {
            self.chunks.len()
        };
        let mut i: usize = 0;
        while i < self.visible_chunks - 1
            invariant
                1 <= self.visible_chunks <= old_chunks.len(),
                self.visible_chunks as int == (if chunk_index as int + 1 <= old_chunks.len() {
                    chunk_index as int + 1
                } else {
                    old_chunks.len() as int
                }),
                self.chunks@.len() == old_chunks.len(),
                self.footer@ == old(self).footer@,
                old_chunks == old(self).chunks@,
                slide_state_wf(old(self).state()),
                i <= self.visible_chunks - 1,
                forall|c: int|
                    0 <= c < i ==> (#[trigger] self.chunks@[c]).mutators@ == apply_all(
                        old_chunks[c].mutators@,
                    ),
                forall|c: int|
                    i <= c < old_chunks.len() ==> (#[trigger] self.chunks@[c]).mutators@
                        == old_chunks[c].mutators@,
                forall|c: int|
                    0 <= c < old_chunks.len() ==> (#[trigger] self.chunks@[c]).operations@
                        == old_chunks[c].operations@,
            decreases self.visible_chunks - 1 - i,
        {
            proof {
                assert(chunk_mutators(old_chunks)[i as int] == old_chunks[i as int].mutators@);
            }
            self.chunks[i].apply_all_mutations();
            i += 1;
        }
        proof {
            let st = self.state();
            let ost = old(self).state();
            assert(st.mutators =~= state_jump_chunk(ost, chunk_index).mutators);
            assert(chunk_operations(self.chunks@) =~= chunk_operations(old_chunks));
            assert forall|c: int| 0 <= c < st.mutators.len() implies mutators_wf(
                #[trigger] st.mutators[c],
            ) && mutators_canonical(st.mutators[c]) by {
                assert(mutators_wf(ost.mutators[c]));
                lemma_reset_apply_keep(ost.mutators[c]);
            }
            assert forall|c: int| 0 <= c < st.visible - 1 implies all_at_last(
                #[trigger] st.mutators[c],
            ) by {
                assert(mutators_wf(ost.mutators[c]));
                lemma_reset_apply_keep(ost.mutators[c]);
            }
        }
    }
}


/// The operations that draw the modals over a slide.
#[derive(Debug)]
pub struct Modals {
    pub slide_index: Vec<RenderOperation>,
    pub bindings: Vec<RenderOperation>,
}

/// The state of a presentation that outlives its slides: the current slide.
#[derive(Clone, Copy, Debug, Default)]
pub struct PresentationState {
    pub current_slide_index: usize,
}

impl PresentationState {
    /// The current slide index.
    pub fn current_slide_index(&self) -> (i: usize)
        ensures
            i == self.current_slide_index,
    {
        self.current_slide_index
    }

    /// Sets the current slide index.
    pub fn set_current_slide_index(&mut self, value: usize)
        ensures
            final(self).current_slide_index == value,
    {
        self.current_slide_index = value;
    }
}

/// A presentation.
#[derive(Debug)]
pub struct Presentation {
    pub slides: Vec<Slide>,
    pub modals: Modals,
    pub state: PresentationState,
}

/// The navigation states of some slides.
pub open spec fn slide_states(slides: Seq<Slide>) -> Seq<SlideState> {
    slides.map_values(|s: Slide| s.state())
}

/// The contents of some slides.
pub open spec fn slide_contents(slides: Seq<Slide>) -> Seq<
    (Seq<Seq<RenderOperation>>, Seq<RenderOperation>),
> {
    slides.map_values(|s: Slide| s.contents())
}

impl Presentation {
    /// The navigation state of this presentation.
    pub open spec fn nav(&self) -> NavState {
        NavState {
            current: self.state.current_slide_index as int,
            slides: slide_states(self.slides@),
        }
    }

    /// A presentation is well formed when its navigation state is.
    pub open spec fn wf(&self) -> bool {
        nav_wf(self.nav())
    }

    /// What navigation never changes: the slides' contents and the modals.
    pub open spec fn unchanged_contents(&self, other: &Presentation) -> bool {
        &&& slide_contents(self.slides@) == slide_contents(other.slides@)
        &&& self.modals.slide_index@ == other.modals.slide_index@
        &&& self.modals.bindings@ == other.modals.bindings@
    }

    /// A presentation with the given slides, modals and state.
    pub fn new(slides: Vec<Slide>, modals: Modals, state: PresentationState) -> (p: Self)
        ensures
            p.slides@ == slides@,
            p.modals == modals,
            p.state == state,
    {
        Presentation { slides, modals, state }
    }

    /// A presentation with the given slides and no modals, on the first slide.
    pub fn from_slides(slides: Vec<Slide>) -> (p: Self)
        ensures
            p.slides@ == slides@,
            p.modals.slide_index@.len() == 0,
            p.modals.bindings@.len() == 0,
            p.state.current_slide_index == 0,
    {
        let modals = Modals { slide_index: Vec::new(), bindings: Vec::new() };
        Presentation { slides, modals, state: PresentationState { current_slide_index: 0 } }
    }

    /// The number of slides.
    pub fn slide_count(&self) -> (n: usize)
        ensures
            n == self.slides@.len(),
    {
        self.slides.len()
    }

    /// The current slide index.
    pub fn current_slide_index(&self) -> (i: usize)
        ensures
            i == self.state.current_slide_index,
    {
        self.state.current_slide_index()
    }

    /// The current slide.
    pub fn current_slide(&self) -> (s: &Slide)
        requires
            self.wf(),
        ensures
            *s == self.slides@[self.state.current_slide_index as int],
    {
        &self.slides[self.state.current_slide_index]
    }

    /// The index of the last visible chunk of the current slide.
    pub fn current_chunk(&self) -> (c: usize)
        requires
            self.wf(),
        ensures
            c == self.slides@[self.state.current_slide_index as int].visible_chunks - 1,
    {
        proof {
            assert(slide_states(self.slides@)[self.state.current_slide_index as int]
                == self.slides@[self.state.current_slide_index as int].state());
        }
        self.current_slide().current_chunk_index()
    }

    proof fn lemma_slide_wf(&self, i: int)
        requires
            self.wf(),
            0 <= i < self.slides@.len(),
        ensures
            self.slides@[i].wf(),
    {
        assert(slide_states(self.slides@)[i] == self.slides@[i].state());
    }

    proof fn lemma_updated(old_p: &Presentation, new_p: &Presentation, i: int)
        requires
            0 <= i < old_p.slides@.len(),
            new_p.slides@ == old_p.slides@.update(i, new_p.slides@[i]),
            new_p.slides@[i].contents() == old_p.slides@[i].contents(),
            new_p.modals == old_p.modals,
        ensures
            slide_states(new_p.slides@) == slide_states(old_p.slides@).update(
                i,
                new_p.slides@[i].state(),
            ),
            new_p.unchanged_contents(old_p),
    {
        assert(slide_states(new_p.slides@) =~= slide_states(old_p.slides@).update(
            i,
            new_p.slides@[i].state(),
        ));
        assert(slide_contents(new_p.slides@) =~= slide_contents(old_p.slides@));
    }

    /// Moves to the next slide, showing only its first chunk.
    fn jump_next_slide(&mut self) -> (moved: bool)
        requires
            old(self).wf(),
        ensures
            (final(self).nav(), moved) == nav_jump_next_slide(old(self).nav()),
            final(self).unchanged_contents(old(self)),
            final(self).wf(),
    {
        let current = self.state.current_slide_index;
        if current < self.slides.len() - 1 {
            self.state.set_current_slide_index(current + 1);
            proof {
                self.lemma_slide_wf(current + 1);
            }
            self.slides[current + 1].show_first_chunk();
            proof {
                Self::lemma_updated(old(self), self, current + 1);
            }
            true
        } else {
            proof {
                assert(slide_contents(self.slides@) =~= slide_contents(old(self).slides@));
            }
            false
        }
    }

    /// Moves to the previous slide, showing all of its chunks.
    fn jump_previous_slide(&mut self) -> (moved: bool)
        requires
            old(self).wf(),
        ensures
            (final(self).nav(), moved) == nav_jump_previous_slide(old(self).nav()),
            final(self).unchanged_contents(old(self)),
            final(self).wf(),
    {
        let current = self.state.current_slide_index;
        if current > 0 {
            self.state.set_current_slide_index(current - 1);
            proof {
                self.lemma_slide_wf(current - 1);
            }
            self.slides[current - 1].show_all_chunks();
            proof {
                Self::lemma_updated(old(self), self, current - 1);
            }
            true
        } else {
            false
        }
    }

    /// Jumps forwards: within the current slide if possible, else to the next slide.
    pub fn jump_next(&mut self) -> (moved: bool)
        requires
            old(self).wf(),
        ensures
            (final(self).nav(), moved) == nav_jump_next(old(self).nav()),
            final(self).unchanged_contents(old(self)),
            final(self).wf(),
    {
        let current = self.state.current_slide_index;
        proof {
            self.lemma_slide_wf(current as int);
        }
        if self.slides[current].move_next() {
            proof {
                Self::lemma_updated(old(self), self, current as int);
            }
            return true;
        }
        proof {
            Self::lemma_updated(old(self), self, current as int);
            assert(slide_states(self.slides@) =~= slide_states(old(self).slides@));
            assert(self.nav() == old(self).nav());
        }
        self.jump_next_slide()
    }

    /// Jumps backwards: within the current slide if possible, else to the previous slide.
    pub fn jump_previous(&mut self) -> (moved: bool)
        requires
            old(self).wf(),
        ensures
            (final(self).nav(), moved) == nav_jump_previous(old(self).nav()),
            final(self).unchanged_contents(old(self)),
            final(self).wf(),
    {
        let current = self.state.current_slide_index;
        proof {
            self.lemma_slide_wf(current as int);
        }
        if self.slides[current].move_previous() {
            proof {
                Self::lemma_updated(old(self), self, current as int);
            }
            return true;
        }
        proof {
            Self::lemma_updated(old(self), self, current as int);
            assert(slide_states(self.slides@) =~= slide_states(old(self).slides@));
            assert(self.nav() == old(self).nav());
        }
        self.jump_previous_slide()
    }

    /// Shows all chunks of the current slide, or jumps to the next slide if they already are.
    pub fn jump_next_fast(&mut self) -> (moved: bool)
        requires
            old(self).wf(),
        ensures
            (final(self).nav(), moved) == nav_jump_next_fast(old(self).nav()),
            final(self).unchanged_contents(old(self)),
            final(self).wf(),
    {
        let current = self.state.current_slide_index;
        proof {
            self.lemma_slide_wf(current as int);
        }
        if self.slides[current].visible_chunks == self.slides[current].chunks.len() {
            self.jump_next_slide()
        } else {
            self.slides[current].show_all_chunks();
            proof {
                Self::lemma_updated(old(self), self, current as int);
            }
            true
        }
    }

    /// Shows only the first chunk of the current slide, or jumps to the previous slide if
    /// that's already the case.
    pub fn jump_previous_fast(&mut self) -> (moved: bool)
        requires
            old(self).wf(),
        ensures
            (final(self).nav(), moved) == nav_jump_previous_fast(old(self).nav()),
            final(self).unchanged_contents(old(self)),
            final(self).wf(),
    {
        let current = self.state.current_slide_index;
        proof {
            self.lemma_slide_wf(current as int);
        }
        if self.slides[current].visible_chunks == self.slides[current].chunks.len()
            && self.slides[current].chunks.len() > 1 {
            self.slides[current].show_first_chunk();
            proof {
                Self::lemma_updated(old(self), self, current as int);
            }
            true
        } else {
            self.jump_previous_slide()
        }
    }

    /// Jumps to a slide, showing only its first chunk.
    pub fn go_to_slide(&mut self, slide_index: usize) -> (moved: bool)
        requires
            old(self).wf(),
        ensures
            (final(self).nav(), moved) == nav_go_to_slide(old(self).nav(), slide_index),
            final(self).unchanged_contents(old(self)),
            final(self).wf(),
    {
        if slide_index < self.slides.len() {
            self.state.set_current_slide_index(slide_index);
            proof {
                self.lemma_slide_wf(slide_index as int);
            }
            self.slides[slide_index].show_first_chunk();
            proof {
                Self::lemma_updated(old(self), self, slide_index as int);
            }
            true
        } else {
            false
        }
    }

    /// Jumps to the first slide.
    pub fn jump_first_slide(&mut self) -> (moved: bool)
        requires
            old(self).wf(),
        ensures
            (final(self).nav(), moved) == nav_go_to_slide(old(self).nav(), 0),
            final(self).unchanged_contents(old(self)),
            final(self).wf(),
    {
        self.go_to_slide(0)
    }

    /// Jumps to the last slide.
    pub fn jump_last_slide(&mut self) -> (moved: bool)
        requires
            old(self).wf(),
        ensures
            (final(self).nav(), moved) == nav_go_to_slide(
                old(self).nav(),
                (old(self).slides@.len() - 1) as usize,
            ),
            final(self).unchanged_contents(old(self)),
            final(self).wf(),
    {
        let last_slide_index = self.slides.len().saturating_sub(1);
        self.go_to_slide(last_slide_index)
    }

    /// Jumps to a chunk of the current slide.
    pub fn jump_chunk(&mut self, chunk_index: usize)
        requires
            old(self).wf(),
        ensures
            final(self).nav() == nav_with_current(
                old(self).nav(),
                state_jump_chunk(old(self).nav().slides[old(self).nav().current], chunk_index),
            ),
            final(self).unchanged_contents(old(self)),
            final(self).wf(),
    {
        let current = self.state.current_slide_index;
        proof {
            self.lemma_slide_wf(current as int);
        }
        self.slides[current].jump_chunk(chunk_index);
        proof {
            Self::lemma_updated(old(self), self, current as int);
        }
    }

    /// Shows every chunk of the current slide.
    pub fn show_all_slide_chunks(&mut self)
        requires
            old(self).wf(),
        ensures
            final(self).nav() == nav_with_current(
                old(self).nav(),
                state_show_all(old(self).nav().slides[old(self).nav().current]),
            ),
            final(self).unchanged_contents(old(self)),
            final(self).wf(),
    {
        let current = self.state.current_slide_index;
        proof {
            self.lemma_slide_wf(current as int);
        }
        self.slides[current].show_all_chunks();
        proof {
            Self::lemma_updated(old(self), self, current as int);
        }
    }
}

} // verus!
