//! The coordinator of the graph and its glitch-free impact analysis.

use crate::names::{NameMap, NameSet};
use vstd::prelude::*;

verus! {

/// The coordinator of the graph. It knows which definitions are glitch-free
/// and, for each definition, the source variables that it depends on,
/// directly or through other definitions.
#[derive(Debug)]
pub struct Manager {
    pub glitchfree_defs: NameSet,
    pub dep_tran_vars: NameMap<NameSet>,
}

impl Manager {
    /// Whether a write to the variables `written` affects the definition
    /// `def`: it is glitch-free, its dependencies are recorded, and one of
    /// them is written.
    pub open spec fn affects(&self, written: Set<Seq<char>>, def: Seq<char>) -> bool {
        &&& self.glitchfree_defs@.contains(def)
        &&& self.dep_tran_vars@.contains_key(def)
        &&& !self.dep_tran_vars@[def]@.disjoint(written)
    }

    /// The coordinator of a graph with the glitch-free definitions and the
    /// dependencies given.
    pub fn new(glitchfree_defs: NameSet, dep_tran_vars: NameMap<NameSet>) -> (m: Self)
        ensures
            m.glitchfree_defs == glitchfree_defs,
            m.dep_tran_vars == dep_tran_vars,
    {
        Manager { glitchfree_defs, dep_tran_vars }
    }

    /// The glitch-free definitions that a write to `written_vars` affects.
    ///
    /// A glitch-free definition whose dependencies are not recorded is
    /// affected by no write. Nothing but glitch-free definitions is ever in
    /// the result, and a write to no variable affects nothing.
    pub fn compute_affected_glitchfree(&self, written_vars: &NameSet) -> (affected: NameSet)
        ensures
            forall|def: Seq<char>| #[trigger]
                affected@.contains(def) <==> self.affects(written_vars@, def),
            forall|def: Seq<char>|
                !self.glitchfree_defs@.contains(def) ==> !(#[trigger] affected@.contains(def)),
            written_vars@ == Set::<Seq<char>>::empty() ==> affected@ == Set::<Seq<char>>::empty(),
    {
        let mut affected = NameSet::new();
        let n: usize = self.glitchfree_defs.len();
        let ghost names = self.glitchfree_defs.names();
        let mut i: usize = 0;
        while i < n
            invariant
                i <= n,
                n == names.len(),
                names == self.glitchfree_defs.names(),
                forall|def: Seq<char>| #[trigger]
                    affected@.contains(def) <==> names.take(i as int).contains(def) && self.affects(
                        written_vars@,
                        def,
                    ),
            decreases n - i,
        {
            let def_name = self.glitchfree_defs.name_at(i);
            let ghost before = affected@;
            let ghost prefix = names.take(i as int);
            let ghost grown = names.take(i + 1);
            let hit = match self.dep_tran_vars.get(def_name) {
                Some(transitive_vars) => !transitive_vars.is_disjoint(written_vars),
                None => false,
            };
            assert(hit == self.affects(written_vars@, def_name@));
            if hit {
                affected.insert(def_name.clone());
            }
            proof {
                assert(grown =~= prefix.push(names[i as int]));
                assert forall|def: Seq<char>| grown.contains(def) <==> prefix.contains(def) || def
                    == names[i as int] by {
                    if grown.contains(def) {
                        let j = grown.index_of(def);
                        assert(0 <= j < grown.len() && grown[j] == def);
                        if j < i {
                            assert(prefix[j] == def);
                        }
                    }
                    if prefix.contains(def) {
                        let j = prefix.index_of(def);
                        assert(0 <= j < prefix.len() && prefix[j] == def);
                        assert(grown[j] == def);
                    }
                    if def == names[i as int] {
                        assert(grown[i as int] == def);
                    }
                }
            }
            i += 1;
        }
        proof {
            assert(names.take(n as int) =~= names);
            assert forall|def: Seq<char>| self.glitchfree_defs@.contains(def) implies names.contains(
                def,
            ) by {}
            if written_vars@ == Set::<Seq<char>>::empty() {
                assert(affected@ =~= Set::<Seq<char>>::empty());
            }
        }
        affected
    }
}

} // verus!
