//! Compound conditions: conditions defined over other conditions.
//!
//! *  `Not` negates one dependent condition.
//! *  `And` holds when every dependent condition holds.
//! *  `Or` holds when at least one dependent condition holds.
//!
//! Dependencies are held as handles into the condition dictionary, which
//! behave as weak references: a handle whose condition has been deleted or
//! replaced no longer resolves, and such a dependency counts as false (for
//! `Not` too, whose value is then false). Evaluation lives with the
//! dictionary, which also keeps the per-event cache of every condition.

use vstd::prelude::*;
use super::ConditionHandle;

verus! {

/// Negation of a single dependent condition.
pub struct Not {
    dependent: ConditionHandle,
}

impl Not {
    pub closed spec fn target(&self) -> ConditionHandle {
        self.dependent
    }

    pub fn new(cond: &ConditionHandle) -> (r: Not)
        ensures
            r.target() == *cond,
    {
        Not { dependent: *cond }
    }

    pub fn get_dependent(&self) -> (r: ConditionHandle)
        ensures
            r == self.target(),
    {
        self.dependent
    }
}

/// An ordered list of dependent conditions, shared by `And` and `Or`.
pub struct ConditionList {
    dependent_conditions: Vec<ConditionHandle>,
}

impl ConditionList {
    pub closed spec fn view(&self) -> Seq<ConditionHandle> {
        self.dependent_conditions@
    }

    pub fn new() -> (r: ConditionList)
        ensures
            r@.len() == 0,
    {
        ConditionList { dependent_conditions: Vec::new() }
    }

    /// Appends a dependency.
    pub fn add_condition(&mut self, c: &ConditionHandle)
        ensures
            final(self)@ == old(self)@.push(*c),
    {
        self.dependent_conditions.push(*c);
    }

    /// Removes every dependency.
    pub fn clear(&mut self)
        ensures
            final(self)@.len() == 0,
    {
        self.dependent_conditions.clear();
    }

    pub fn len(&self) -> (r: usize)
        ensures
            r == self@.len(),
    {
        self.dependent_conditions.len()
    }

    pub fn get(&self, i: usize) -> (r: ConditionHandle)
        requires
            i < self@.len(),
        ensures
            r == self@[i as int],
    {
        self.dependent_conditions[i]
    }
}

/// Conjunction of its dependencies, evaluated left to right and stopped at
/// the first one that is false or no longer resolves.
pub struct And {
    dependencies: ConditionList,
}

impl And {
    pub closed spec fn view(&self) -> Seq<ConditionHandle> {
        self.dependencies@
    }

    pub fn new() -> (r: And)
        ensures
            r@.len() == 0,
    {
        And { dependencies: ConditionList::new() }
    }

    pub fn add_condition(&mut self, c: &ConditionHandle)
        ensures
            final(self)@ == old(self)@.push(*c),
    {
        self.dependencies.add_condition(c);
    }

    pub fn clear(&mut self)
        ensures
            final(self)@.len() == 0,
    {
        self.dependencies.clear();
    }

    pub fn len(&self) -> (r: usize)
        ensures
            r == self@.len(),
    {
        self.dependencies.len()
    }

    pub fn get(&self, i: usize) -> (r: ConditionHandle)
        requires
            i < self@.len(),
        ensures
            r == self@[i as int],
    {
        self.dependencies.get(i)
    }
}

/// Disjunction of its dependencies, evaluated left to right and stopped at
/// the first one that is true; dependencies that no longer resolve are
/// skipped.
pub struct Or {
    dependencies: ConditionList,
}

impl Or {
    pub closed spec fn view(&self) -> Seq<ConditionHandle> {
        self.dependencies@
    }

    pub fn new() -> (r: Or)
        ensures
            r@.len() == 0,
    {
        Or { dependencies: ConditionList::new() }
    }

    pub fn add_condition(&mut self, c: &ConditionHandle)
        ensures
            final(self)@ == old(self)@.push(*c),
    {
        self.dependencies.add_condition(c);
    }

    pub fn clear(&mut self)
        ensures
            final(self)@.len() == 0,
    {
        self.dependencies.clear();
    }

    pub fn len(&self) -> (r: usize)
        ensures
            r == self@.len(),
    {
        self.dependencies.len()
    }

    pub fn get(&self, i: usize) -> (r: ConditionHandle)
        requires
            i < self@.len(),
        ensures
            r == self@[i as int],
    {
        self.dependencies.get(i)
    }
}

} // verus!
