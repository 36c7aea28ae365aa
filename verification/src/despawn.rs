//! The entities that are marked for removal. A mark takes no entity away:
//! the sweep at the end of a tick does, so that whoever still looks at a
//! marked entity during the tick finds it unchanged.

use vstd::prelude::*;
use crate::physics::Entity;

verus! {

/// The marks for removal: the marked entities, each once, in the order in
/// which they were first marked.
#[derive(Debug)]
pub struct Despawning {
    marked: Vec<Entity>,
}

impl View for Despawning {
    type V = Seq<Entity>;

    closed spec fn view(&self) -> Seq<Entity> {
        self.marked@
    }
}

/// The marks `marks` with `entity` marked too: as they are where it is
/// marked already, else with it at the end.
pub open spec fn with_mark(marks: Seq<Entity>, entity: Entity) -> Seq<Entity> {
    if marks.contains(entity) {
        marks
    } else {
        marks.push(entity)
    }
}

/// Marking an entity a second time changes nothing: two marks are one.
pub proof fn lemma_marking_twice_is_marking_once(marks: Seq<Entity>, entity: Entity)
    ensures
        with_mark(with_mark(marks, entity), entity) == with_mark(marks, entity),
        with_mark(marks, entity).contains(entity),
{
    if !marks.contains(entity) {
        assert(marks.push(entity)[marks.len() as int] == entity);
    }
}

/// A mark keeps the marks free of repetitions.
proof fn lemma_mark_held_once(marks: Seq<Entity>, entity: Entity)
    requires
        marks.no_duplicates(),
    ensures
        with_mark(marks, entity).no_duplicates(),
{
    if !marks.contains(entity) {
        let after = marks.push(entity);
        assert forall|a: int, b: int|
            0 <= a < after.len() && 0 <= b < after.len() && a != b implies after[a] != after[b] by {
            if a < marks.len() {
                assert(marks.contains(marks[a]));
            }
            if b < marks.len() {
                assert(marks.contains(marks[b]));
            }
        }
    }
}

impl Clone for Despawning {
    /// The same marks.
    fn clone(&self) -> (marks: Despawning)
        ensures
            marks@ == self@,
    {
        proof {
            use_type_invariant(self);
        }
        let mut marked: Vec<Entity> = Vec::new();
        let mut i: usize = 0;
        while i < self.marked.len()
            invariant
                i <= self.marked.len(),
                marked@ == self.marked@.take(i as int),
            decreases self.marked.len() - i,
        {
            marked.push(self.marked[i]);
            assert(marked@ =~= self.marked@.take(i as int + 1));
            i += 1;
        }
        assert(marked@ =~= self.marked@);
        Despawning { marked }
    }
}

impl Default for Despawning {
    /// No marks.
    fn default() -> (marks: Despawning)
        ensures
            marks@.len() == 0,
    {
        Despawning::new()
    }
}

impl Despawning {
    /// No entity is held twice.
    #[verifier::type_invariant]
    spec fn held_once(&self) -> bool {
        self.marked@.no_duplicates()
    }

    /// No marks.
    pub fn new() -> (marks: Despawning)
        ensures
            marks@.len() == 0,
    {
        Despawning { marked: Vec::new() }
    }

    /// Whether `entity` is marked.
    pub fn contains(&self, entity: Entity) -> (r: bool)
        ensures
            r == self@.contains(entity),
    {
        let mut i: usize = 0;
        while i < self.marked.len()
            invariant
                i <= self.marked.len(),
                forall|j: int| 0 <= j < i ==> self.marked[j] != entity,
            decreases self.marked.len() - i,
        {
            if self.marked[i] == entity {
                return true;
            }
            i += 1;
        }
        false
    }

    /// Marks `entity` for removal. A mark on an entity that is marked
    /// already changes nothing.
    pub fn insert(&mut self, entity: Entity)
        ensures
            final(self)@ == with_mark(old(self)@, entity),
            old(self)@.contains(entity) ==> final(self)@ == old(self)@,
            final(self)@.no_duplicates(),
    {
        proof {
            use_type_invariant(&*self);
            lemma_mark_held_once(self.marked@, entity);
        }
        if !self.contains(entity) {
            let mut marked: Vec<Entity> = Vec::new();
            std::mem::swap(&mut marked, &mut self.marked);
            marked.push(entity);
            std::mem::swap(&mut marked, &mut self.marked);
        }
    }

    /// The sweep: takes all marks away and hands the marked entities out,
    /// each once and in the order in which they were first marked, for the
    /// caller to remove.
    pub fn despawner(&mut self) -> (swept: Vec<Entity>)
        ensures
            final(self)@.len() == 0,
            swept@ == old(self)@,
            swept@.no_duplicates(),
    {
        proof {
            use_type_invariant(&*self);
        }
        let mut swept: Vec<Entity> = Vec::new();
        std::mem::swap(&mut swept, &mut self.marked);
        swept
    }
}

} // verus!
