//! The shared state registry: type-tagged and named values.
//!
//! The registry is filled while the workflow is being built and is
//! read-only during execution.  A type-keyed map needs language-level type
//! tokens, so it is keyed here by a caller-supplied type tag.

use vstd::prelude::*;

use crate::output::{opt_output_model, ActionOutput, OutputModel};

verus! {

/// The value registered under `key`, if any; a later registration under
/// the same key wins.
pub open spec fn lookup(entries: Seq<(String, ActionOutput)>, key: Seq<char>) -> Option<
    OutputModel,
>
    decreases entries.len(),
{
    if entries.len() == 0 {
        None
    } else if entries.last().0@ == key {
        Some(entries.last().1@)
    } else {
        lookup(entries.drop_last(), key)
    }
}

/// The state registry of a workflow.
///
/// Two keyed stores: one keyed by a type tag (standing for the type-keyed
/// registry), one keyed by a plain name.
pub struct Registry {
    state: Vec<(String, ActionOutput)>,
    variables: Vec<(String, ActionOutput)>,
}

impl Registry {
    /// The registrations of the type-tagged store, oldest first.
    pub closed spec fn state_entries(&self) -> Seq<(String, ActionOutput)> {
        self.state@
    }

    /// The registrations of the named store, oldest first.
    pub closed spec fn variable_entries(&self) -> Seq<(String, ActionOutput)> {
        self.variables@
    }

    /// An empty registry.
    pub fn new() -> (r: Registry)
        ensures
            r.state_entries() == Seq::<(String, ActionOutput)>::empty(),
            r.variable_entries() == Seq::<(String, ActionOutput)>::empty(),
    {
        Registry { state: Vec::new(), variables: Vec::new() }
    }

    /// Register `value` under the type tag `tag`, overriding an earlier
    /// registration under the same tag.
    pub fn add_state(&mut self, tag: String, value: ActionOutput)
        ensures
            final(self).state_entries() == old(self).state_entries().push((tag, value)),
            final(self).variable_entries() == old(self).variable_entries(),
    {
        self.state.push((tag, value));
    }

    /// Register `value` under `name`, overriding an earlier registration
    /// under the same name.
    pub fn set_variable(&mut self, name: String, value: ActionOutput)
        ensures
            final(self).variable_entries() == old(self).variable_entries().push((name, value)),
            final(self).state_entries() == old(self).state_entries(),
    {
        self.variables.push((name, value));
    }

    /// The value registered under the type tag `tag`, if any.
    pub fn get_state(&self, tag: &String) -> (r: Option<ActionOutput>)
        ensures
            opt_output_model(r) == lookup(self.state_entries(), tag@),
    {
        Self::find(&self.state, tag)
    }

    /// The value registered under `name`, if any.
    pub fn get_variable(&self, name: &String) -> (r: Option<ActionOutput>)
        ensures
            opt_output_model(r) == lookup(self.variable_entries(), name@),
    {
        Self::find(&self.variables, name)
    }

    /// Scan a store from the newest registration backwards.
    fn find(entries: &Vec<(String, ActionOutput)>, key: &String) -> (r: Option<ActionOutput>)
        ensures
            opt_output_model(r) == lookup(entries@, key@),
    {
        let mut i = entries.len();
        proof {
            assert(entries@.take(entries@.len() as int) =~= entries@);
        }
        while i > 0
            invariant
                i <= entries@.len(),
                lookup(entries@, key@) == lookup(entries@.take(i as int), key@),
            decreases i,
        {
            i = i - 1;
            proof {
                assert(entries@.take(i + 1).drop_last() =~= entries@.take(i as int));
                assert(entries@.take(i + 1).last() == entries@[i as int]);
            }
            if entries[i].0 == *key {
                return Some(entries[i].1.clone());
            }
        }
        proof {
            assert(entries@.take(0) =~= Seq::<(String, ActionOutput)>::empty());
        }
        None
    }
}

impl Clone for Registry {
    /// A clone carries exactly the same registrations.
    fn clone(&self) -> (r: Self)
        ensures
            r.state_entries() == self.state_entries(),
            r.variable_entries() == self.variable_entries(),
    {
        Registry {
            state: Self::clone_entries(&self.state),
            variables: Self::clone_entries(&self.variables),
        }
    }
}

impl Registry {
    fn clone_entries(entries: &Vec<(String, ActionOutput)>) -> (r: Vec<(String, ActionOutput)>)
        ensures
            r@ == entries@,
    {
        let mut r: Vec<(String, ActionOutput)> = Vec::new();
        let n = entries.len();
        let mut j: usize = 0;
        while j < n
            invariant
                j <= n,
                n == entries@.len(),
                r@ == entries@.take(j as int),
            decreases n - j,
        {
            let pair = (entries[j].0.clone(), entries[j].1.clone());
            r.push(pair);
            proof {
                assert(r@ =~= entries@.take(j + 1 as int));
            }
            j = j + 1;
        }
        proof {
            assert(r@ =~= entries@);
        }
        r
    }
}

} // verus!
