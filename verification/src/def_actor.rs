//! A node of the graph and its basis-checked recomputation protocol.
//!
//! A node collects stamped updates for its inputs and recomputes its value
//! once it holds one value for each input that its definition requires.
//!
//! Two decisions of this protocol are deliberate and stated in the
//! contracts below:
//!
//! * A batch takes *one value per required name*: the value that the last
//!   recomputation used, else the oldest pending update. Nothing compares
//!   the bases of the values taken for different names, so a batch is not
//!   known to stem from one upstream write.
//! * Pending updates are read, never drained. A recomputation leaves every
//!   buffer as it was, and the values it used become the node's current
//!   inputs.

use crate::basis::{is_merge_of, lemma_merge_of_none, lemma_merge_of_push, BasisStamp};
use crate::evaluator::terms_of;
use crate::expr::{substitute, Expr, Term};
use crate::message::{PropChange, TestId, TxnId};
use crate::names::{lemma_distinct_count, names_of, NameMap, NameSet};
use crate::state::ChangeState;
use std::collections::HashMap;
use vstd::prelude::*;

verus! {

/// The model of a stamped value: the term it holds and the counters of its
/// basis.
pub struct StampedTerm {
    pub value: Term,
    pub basis: Map<Seq<char>, u64>,
}

/// A value together with the basis that says which upstream writes it
/// reflects.
#[derive(Debug)]
pub struct StampedValue {
    pub value: Expr,
    pub basis: BasisStamp,
}

impl View for StampedValue {
    type V = StampedTerm;

    open spec fn view(&self) -> StampedTerm {
        StampedTerm { value: self.value@, basis: self.basis@ }
    }
}

impl Clone for StampedValue {
    /// A copy with the same value and basis.
    fn clone(&self) -> (r: Self)
        ensures
            r@ == self@,
    {
        StampedValue { value: self.value.clone(), basis: self.basis.clone() }
    }
}

/// Who asked to read a node, and the transactions that must complete before
/// the answer is given, in their order.
pub type ReadRequest<A> = (A, Vec<TxnId>);

/// A node: one definition of the graph, with the state of its recomputation.
///
/// `A` is the address of the coordinator and of the parties that ask to read
/// the node: a token that is stored and handed back, never looked into.
pub struct DefActor<A> {
    pub name: String,
    /// The value that the node computed last.
    pub value: Expr,
    /// The reads that transactions wait for, by the transaction's number.
    pub read_requests: HashMap<u64, ReadRequest<A>>,
    /// The one read that an assertion may wait for.
    pub test_read_request: Option<(TestId, ReadRequest<A>)>,
    pub state: ChangeState,
    pub is_glitch_free: bool,
    /// Outputs held back until the transactions they depend on commit, by
    /// the transaction's number.
    pub buffered_outputs: HashMap<u64, (Expr, Vec<TxnId>)>,
    pub manager_addr: A,
    /// The updates that arrived for each input, oldest first.
    pub input_buffers: NameMap<Vec<StampedValue>>,
    /// The value of each input that the last recomputation used.
    pub current_inputs: NameMap<StampedValue>,
    /// The basis of `value`.
    pub current_basis: BasisStamp,
}

/// The bases of some stamped values, in their order.
pub open spec fn bases_of(values: Seq<StampedValue>) -> Seq<Map<Seq<char>, u64>> {
    Seq::new(values.len(), |i: int| values[i].basis@)
}

/// The terms that a map of stamped values binds to its names.
pub open spec fn value_terms(inputs: Map<Seq<char>, StampedValue>) -> Map<Seq<char>, Term> {
    Map::new(|k: Seq<char>| inputs.contains_key(k), |k: Seq<char>| inputs[k].value@)
}

/// The merge of the bases of all of `inputs`.
fn merge_bases(inputs: &NameMap<StampedValue>) -> (out: BasisStamp)
    ensures
        is_merge_of(out@, bases_of(inputs.values())),
{
    let n: usize = inputs.len();
    let mut out = BasisStamp::empty();
    let mut i: usize = 0;
    proof {
        lemma_merge_of_none(out@);
        assert(bases_of(inputs.values()).take(0) =~= Seq::empty());
    }
    while i < n
        invariant
            i <= n,
            n == inputs.names().len(),
            inputs.indexed(),
            is_merge_of(out@, bases_of(inputs.values()).take(i as int)),
        decreases n - i,
    {
        let stamped = inputs.value_at(i);
        proof {
            let bases = bases_of(inputs.values());
            lemma_merge_of_push(out@, bases.take(i as int), stamped.basis@);
            assert(bases.take(i + 1) =~= bases.take(i as int).push(stamped.basis@));
        }
        out.merge_from(&stamped.basis);
        i += 1;
    }
    assert(bases_of(inputs.values()).take(n as int) =~= bases_of(inputs.values()));
    out
}

impl<A> DefActor<A> {
    /// The names of the inputs that the definition requires.
    pub open spec fn required(&self) -> Set<Seq<char>> {
        self.state.arg_to_values@.dom()
    }

    /// Whether an update for `name` waits in its buffer.
    pub open spec fn has_pending(&self, name: Seq<char>) -> bool {
        self.input_buffers@.contains_key(name) && self.input_buffers@[name]@.len() > 0
    }

    /// Whether a value for `name` can be had: a current one, or a pending
    /// update.
    pub open spec fn available(&self, name: Seq<char>) -> bool {
        self.current_inputs@.contains_key(name) || self.has_pending(name)
    }

    /// The value that a batch takes for `name`: the current one where there
    /// is one, else the oldest pending update.
    pub open spec fn chosen(&self, name: Seq<char>) -> StampedValue {
        if self.current_inputs@.contains_key(name) {
            self.current_inputs@[name]
        } else {
            self.input_buffers@[name]@[0]
        }
    }

    /// Whether `names` can be resolved into a batch: no name occurs twice
    /// and a value can be had for each.
    pub open spec fn resolves(&self, names: Seq<Seq<char>>) -> bool {
        &&& names.no_duplicates()
        &&& forall|i: int| 0 <= i < names.len() ==> self.available(#[trigger] names[i])
    }

    /// Whether `batch` is the consistent batch for `names`: it binds exactly
    /// these names, in their order, each to a copy of the value chosen for
    /// it.
    pub open spec fn is_batch(&self, batch: NameMap<StampedValue>, names: Seq<Seq<char>>) -> bool {
        &&& batch.indexed()
        &&& batch.names() == names
        &&& batch@.dom() == names.to_set()
        &&& batch@.len() == names.len()
        &&& forall|k: Seq<char>| #[trigger]
            batch@.contains_key(k) ==> batch@[k]@ == self.chosen(k)@
    }

    /// Whether a recomputation is due: an update is pending for some
    /// required input, and a value can be had for every required input.
    pub open spec fn ready(&self) -> bool {
        &&& exists|k: Seq<char>| self.required().contains(k) && #[trigger] self.has_pending(k)
        &&& forall|k: Seq<char>| self.required().contains(k) ==> #[trigger] self.available(k)
    }

    /// The term that each required input contributes to a recomputation.
    pub open spec fn environment(&self) -> Map<Seq<char>, Term> {
        Map::new(|k: Seq<char>| self.required().contains(k), |k: Seq<char>| self.chosen(k).value@)
    }

    /// The bases of the values chosen for the required inputs.
    pub open spec fn chosen_bases(&self) -> Seq<Map<Seq<char>, u64>> {
        let names = self.state.arg_to_values.names();
        Seq::new(names.len(), |i: int| self.chosen(names[i]).basis@)
    }

    /// A node for the definition `expr`, with the value it starts from.
    ///
    /// `arg_to_values` gives each argument of the definition its initial
    /// value, and thereby names the inputs that the node requires;
    /// `arg_to_vars` gives for each argument the source variables that it
    /// depends on. The node starts with no pending update, no current input,
    /// no read request and the empty basis.
    pub fn new(
        name: String,
        expr: Expr,
        value: Expr,
        arg_to_values: NameMap<Expr>,
        arg_to_vars: NameMap<NameSet>,
        is_glitch_free: bool,
        manager_addr: A,
    ) -> (node: DefActor<A>)
        ensures
            node.name == name,
            node.value == value,
            node.state.expr == expr,
            node.state.arg_to_values == arg_to_values,
            node.state.arg_to_vars == arg_to_vars,
            node.is_glitch_free == is_glitch_free,
            node.manager_addr == manager_addr,
            node.read_requests@ == Map::<u64, ReadRequest<A>>::empty(),
            node.test_read_request is None,
            node.buffered_outputs@ == Map::<u64, (Expr, Vec<TxnId>)>::empty(),
            node.input_buffers@ == Map::<Seq<char>, Vec<StampedValue>>::empty(),
            node.current_inputs@ == Map::<Seq<char>, StampedValue>::empty(),
            node.current_basis@ == Map::<Seq<char>, u64>::empty(),
    {
        DefActor {
            name,
            value,
            read_requests: HashMap::new(),
            test_read_request: None,
            state: ChangeState::new(expr, arg_to_values, arg_to_vars),
            is_glitch_free,
            buffered_outputs: HashMap::new(),
            manager_addr,
            input_buffers: NameMap::new(),
            current_inputs: NameMap::new(),
            current_basis: BasisStamp::empty(),
        }
    }

    /// The names of the inputs that the definition requires, each once.
    pub fn get_input_names(&self) -> (names: Vec<String>)
        ensures
            names_of(names@) == self.state.arg_to_values.names(),
            names_of(names@).no_duplicates(),
            names_of(names@).to_set() == self.required(),
            names@.len() == self.required().len(),
    {
        self.state.arg_to_values.keys()
    }

    /// Tries to recompute the node's value from a consistent batch of
    /// inputs.
    ///
    /// A recomputation is due when an update is pending for some required
    /// input and a value can be had for every required input. Then the
    /// node's expression is evaluated over the values chosen, their bases
    /// are merged into the new basis, the values chosen become the current
    /// inputs, and the change to publish is returned. Otherwise nothing
    /// changes and `None` is returned: the node is asked again when its
    /// buffers change.
    pub fn try_compute_next_value(&mut self) -> (change: Option<PropChange>)
        ensures
            change.is_some() == old(self).ready(),
            (exists|k: Seq<char>| old(self).required().contains(k) && !old(self).available(k))
                ==> change is None,
            change is None ==> *final(self) == *old(self),
            match change {
                Some(msg) => {
                    &&& final(self).value@ == substitute(
                        old(self).state.expr@,
                        old(self).environment(),
                    )
                    &&& is_merge_of(final(self).current_basis@, old(self).chosen_bases())
                    &&& old(self).is_batch(
                        final(self).current_inputs,
                        old(self).state.arg_to_values.names(),
                    )
                    &&& final(self).current_inputs@.dom() == old(self).required()
                    &&& msg.from_name@ == old(self).name@
                    &&& msg.val@ == final(self).value@
                    &&& msg.preds@.len() == 0
                    &&& msg.basis@ == final(self).current_basis@
                    &&& final(self).name == old(self).name
                    &&& final(self).state == old(self).state
                    &&& final(self).is_glitch_free == old(self).is_glitch_free
                    &&& final(self).manager_addr == old(self).manager_addr
                    &&& final(self).input_buffers == old(self).input_buffers
                    &&& final(self).read_requests == old(self).read_requests
                    &&& final(self).test_read_request == old(self).test_read_request
                    &&& final(self).buffered_outputs == old(self).buffered_outputs
                },
                None => true,
            },
    {
        let input_names = self.get_input_names();
        let ghost names = names_of(input_names@);
        let n: usize = input_names.len();
        let mut has_updates = false;
        let mut i: usize = 0;
        while i < n
            invariant
                i <= n,
                n == input_names@.len(),
                names == names_of(input_names@),
                has_updates == exists|j: int| 0 <= j < i && self.has_pending(#[trigger] names[j]),
            decreases n - i,
        {
            let has = match self.input_buffers.get(&input_names[i]) {
                Some(buffer) => buffer.len() > 0,
                None => false,
            };
            assert(has == self.has_pending(names[i as int]));
            has_updates = has_updates || has;
            i += 1;
        }
        proof {
            if has_updates {
                let j = choose|j: int| 0 <= j < n && self.has_pending(#[trigger] names[j]);
                assert(names.contains(names[j]));
                assert(self.required().contains(names[j]));
            }
            if exists|k: Seq<char>| self.required().contains(k) && #[trigger] self.has_pending(k) {
                let k = choose|k: Seq<char>|
                    self.required().contains(k) && #[trigger] self.has_pending(k);
                assert(names.contains(k));
                let j = names.index_of(k);
                assert(0 <= j < n && self.has_pending(names[j]));
            }
            assert(self.resolves(names) <==> forall|k: Seq<char>|
                self.required().contains(k) ==> #[trigger] self.available(k)) by {
                if self.resolves(names) {
                    assert forall|k: Seq<char>| self.required().contains(k) implies #[trigger]
                        self.available(k) by {
                        assert(names.contains(k));
                        let j = names.index_of(k);
                        assert(self.available(names[j]));
                    }
                }
                if forall|k: Seq<char>| self.required().contains(k) ==> #[trigger] self.available(k) {
                    assert forall|j: int| 0 <= j < names.len() implies self.available(
                        #[trigger] names[j],
                    ) by {
                        assert(names.contains(names[j]));
                    }
                }
            }
        }
        if !has_updates {
            return None;
        }
        match self.find_consistent_batch(input_names.as_slice()) {
            Some(consistent_inputs) => {
                match self.evaluate_with_inputs(&consistent_inputs) {
                    Some(new_value) => {
                        let output_basis = merge_bases(&consistent_inputs);
                        proof {
                            assert(value_terms(consistent_inputs@) =~= self.environment());
                            assert(bases_of(consistent_inputs.values()) =~= self.chosen_bases())
                                by {
                                assert forall|j: int| 0 <= j < names.len() implies bases_of(
                                    consistent_inputs.values(),
                                )[j] == self.chosen_bases()[j] by {
                                    assert(consistent_inputs@.contains_key(
                                        consistent_inputs.names()[j],
                                    ));
                                }
                            }
                        }
                        self.value = new_value.clone();
                        self.current_basis = output_basis.clone();
                        self.current_inputs = consistent_inputs;
                        Some(
                            PropChange {
                                from_name: self.name.clone(),
                                val: new_value,
                                preds: Vec::new(),
                                basis: output_basis,
                            },
                        )
                    },
                    None => None,
                }
            },
            None => None,
        }
    }

    /// Resolves `input_names` into a consistent batch: one value for each
    /// name, the current one where there is one, else the oldest pending
    /// update.
    ///
    /// There is a batch exactly when no name is given twice and a value can
    /// be had for every name; it then binds as many names as were given.
    /// Otherwise there is none, which is no fault: the batch may be there
    /// after the next update.
    pub fn find_consistent_batch(&self, input_names: &[String]) -> (r: Option<
        NameMap<StampedValue>,
    >)
        ensures
            r.is_some() == self.resolves(names_of(input_names@)),
            match r {
                Some(batch) => self.is_batch(batch, names_of(input_names@)) && batch@.len()
                    == input_names@.len(),
                None => true,
            },
    {
        let ghost names = names_of(input_names@);
        let mut result: NameMap<StampedValue> = NameMap::new();
        let n: usize = input_names.len();
        let mut i: usize = 0;
        assert(names.take(0) =~= Seq::<Seq<char>>::empty());
        assert(result@.dom() =~= names.take(0).to_set());
        while i < n
            invariant
                i <= n,
                n == input_names@.len(),
                names == names_of(input_names@),
                result@.dom() == names.take(i as int).to_set(),
                names.take(i as int).no_duplicates() ==> result.names() == names.take(i as int),
                forall|j: int| 0 <= j < i ==> self.available(#[trigger] names[j]),
                forall|k: Seq<char>| #[trigger]
                    result@.contains_key(k) ==> result@[k]@ == self.chosen(k)@,
            decreases n - i,
        {
            let input_name = &input_names[i];
            assert(input_name@ == names[i as int]);
            let found = match self.current_inputs.get(input_name) {
                Some(current) => Some(current.clone()),
                None => match self.input_buffers.get(input_name) {
                    Some(buffer) => if buffer.len() > 0 {
                        Some(buffer[0].clone())
                    } else {
                        None
                    },
                    None => None,
                },
            };
            match found {
                Some(value) => {
                    assert(self.available(names[i as int]));
                    assert(value@ == self.chosen(names[i as int])@);
                    let ghost before = result;
                    let _ = result.insert(input_name.clone(), value);
                    proof {
                        let prefix = names.take(i as int);
                        let grown = names.take(i + 1);
                        assert(grown =~= prefix.push(names[i as int]));
                        assert(result@.dom() =~= grown.to_set()) by {
                            assert forall|k: Seq<char>| grown.to_set().contains(k) implies result@.dom().contains(
                                k,
                            ) by {
                                let j = grown.index_of(k);
                                assert(0 <= j < grown.len() && grown[j] == k);
                                if j < i {
                                    assert(prefix[j] == k);
                                    assert(prefix.to_set().contains(k));
                                }
                            }
                            assert forall|k: Seq<char>| result@.dom().contains(k) implies grown.to_set().contains(
                                k,
                            ) by {
                                if k == names[i as int] {
                                    assert(grown[i as int] == k);
                                } else {
                                    assert(prefix.to_set().contains(k));
                                    let j = prefix.index_of(k);
                                    assert(0 <= j < prefix.len() && prefix[j] == k);
                                    assert(grown[j] == k);
                                }
                            }
                        }
                        if grown.no_duplicates() {
                            assert(prefix.no_duplicates()) by {
                                assert forall|a: int, b: int|
                                    0 <= a < prefix.len() && 0 <= b < prefix.len() && a
                                        != b implies prefix[a] != prefix[b] by {
                                    assert(grown[a] == prefix[a]);
                                    assert(grown[b] == prefix[b]);
                                }
                            }
                            if before@.contains_key(names[i as int]) {
                                assert(prefix.to_set().contains(names[i as int]));
                                let j = prefix.index_of(names[i as int]);
                                assert(0 <= j < prefix.len() && prefix[j] == names[i as int]);
                                assert(grown[j] == grown[i as int]);
                            }
                        }
                    }
                },
                None => {
                    assert(!self.available(names[i as int]));
                    return None;
                },
            }
            i += 1;
        }
        assert(names.take(n as int) =~= names);
        let held: usize = result.len();
        proof {
            vstd::seq_lib::seq_to_set_is_finite(names);
            if names.no_duplicates() {
                lemma_distinct_count(names);
            }
            if held == n {
                names.lemma_no_dup_set_cardinality();
            }
        }
        if held != n {
            return None;
        }
        Some(result)
    }

    /// Evaluates the node's expression over the values of `inputs`.
    ///
    /// The result is always there: what cannot be reduced stays in it
    /// unreduced.
    pub fn evaluate_with_inputs(&self, inputs: &NameMap<StampedValue>) -> (r: Option<Expr>)
        ensures
            match r {
                Some(value) => value@ == substitute(self.state.expr@, value_terms(inputs@)),
                None => false,
            },
    {
        let n: usize = inputs.len();
        let ghost names = inputs.names();
        let mut subst: NameMap<Expr> = NameMap::new();
        let mut i: usize = 0;
        assert(subst@.dom() =~= names.take(0).to_set());
        while i < n
            invariant
                i <= n,
                n == names.len(),
                names == inputs.names(),
                inputs.indexed(),
                subst@.dom() == names.take(i as int).to_set(),
                forall|k: Seq<char>| #[trigger]
                    subst@.contains_key(k) ==> inputs@.contains_key(k) && subst@[k]@
                        == inputs@[k].value@,
            decreases n - i,
        {
            let name = inputs.name_at(i);
            let stamped = inputs.value_at(i);
            assert(inputs@.contains_key(names[i as int]) && inputs@[names[i as int]] == *stamped);
            let _ = subst.insert(name.clone(), stamped.value.clone());
            proof {
                let prefix = names.take(i as int);
                let grown = names.take(i + 1);
                assert(grown =~= prefix.push(names[i as int]));
                assert forall|k: Seq<char>| grown.to_set().contains(k) implies subst@.dom().contains(
                    k,
                ) by {
                    let j = grown.index_of(k);
                    assert(0 <= j < grown.len() && grown[j] == k);
                    if j < i {
                        assert(prefix[j] == k);
                        assert(prefix.to_set().contains(k));
                    }
                }
                assert forall|k: Seq<char>| subst@.dom().contains(k) implies grown.to_set().contains(
                    k,
                ) by {
                    if k == names[i as int] {
                        assert(grown[i as int] == k);
                    } else {
                        assert(prefix.to_set().contains(k));
                        let j = prefix.index_of(k);
                        assert(0 <= j < prefix.len() && prefix[j] == k);
                        assert(grown[j] == k);
                    }
                }
                assert(subst@.dom() =~= grown.to_set());
            }
            i += 1;
        }
        proof {
            assert(names.take(n as int) =~= names);
            assert(terms_of(subst@) =~= value_terms(inputs@));
        }
        Some(self.substitute_expr(&self.state.expr, &subst))
    }

    /// The updates that wait for the input `name`, oldest first.
    pub open spec fn pending(&self, name: Seq<char>) -> Seq<StampedValue> {
        if self.input_buffers@.contains_key(name) {
            self.input_buffers@[name]@
        } else {
            Seq::empty()
        }
    }

    /// Appends `update` to the updates that wait for the input `name`.
    ///
    /// Nothing is recomputed: the caller asks for that next.
    pub fn buffer_input(&mut self, name: String, update: StampedValue)
        ensures
            final(self).input_buffers@.dom() == old(self).input_buffers@.dom().insert(name@),
            final(self).pending(name@) == old(self).pending(name@).push(update),
            forall|k: Seq<char>|
                k != name@ && old(self).input_buffers@.contains_key(k) ==> final(self).input_buffers@[k]
                    == #[trigger] old(self).input_buffers@[k],
            *final(self) == (DefActor { input_buffers: final(self).input_buffers, ..*old(self) }),
    {
        let previous = self.input_buffers.insert(name.clone(), Vec::new());
        let mut buffer = match previous {
            Some(buffer) => buffer,
            None => Vec::new(),
        };
        buffer.push(update);
        let _ = self.input_buffers.insert(name, buffer);
        assert(final(self).input_buffers@.dom() =~= old(self).input_buffers@.dom().insert(name@));
    }

    /// Makes `value` the current value of the input `name`, in place of the
    /// one that was current before, if any.
    pub fn set_current_input(&mut self, name: String, value: StampedValue)
        ensures
            final(self).current_inputs@ == old(self).current_inputs@.insert(name@, value),
            *final(self) == (DefActor { current_inputs: final(self).current_inputs, ..*old(self) }),
    {
        let _ = self.current_inputs.insert(name, value);
    }

    /// Registers that the transaction `txn` waits to read this node, for
    /// `requester`, once `prerequisites` have completed. A transaction has
    /// one entry: a request that it had before is replaced and returned.
    pub fn register_read_request(
        &mut self,
        txn: TxnId,
        requester: A,
        prerequisites: Vec<TxnId>,
    ) -> (replaced: Option<ReadRequest<A>>)
        ensures
            final(self).read_requests@ == old(self).read_requests@.insert(
                txn.id,
                (requester, prerequisites),
            ),
            replaced == (if old(self).read_requests@.contains_key(txn.id) {
                Some(old(self).read_requests@[txn.id])
            } else {
                None
            }),
            *final(self) == (DefActor { read_requests: final(self).read_requests, ..*old(self) }),
    {
        self.read_requests.insert(txn.id, (requester, prerequisites))
    }

    /// Takes the read request of the transaction `txn` out of the node, to
    /// be answered. The request is handed out once: after the call the
    /// transaction has no entry, and may register again.
    pub fn resolve_read_request(&mut self, txn: TxnId) -> (request: Option<ReadRequest<A>>)
        ensures
            request == (if old(self).read_requests@.contains_key(txn.id) {
                Some(old(self).read_requests@[txn.id])
            } else {
                None
            }),
            final(self).read_requests@ == old(self).read_requests@.remove(txn.id),
            !final(self).read_requests@.contains_key(txn.id),
            *final(self) == (DefActor { read_requests: final(self).read_requests, ..*old(self) }),
    {
        self.read_requests.remove(&txn.id)
    }

    /// Takes the read request of an assertion out of the node, to be
    /// answered. The slot is empty after the call.
    pub fn take_test_read_request(&mut self) -> (request: Option<(TestId, ReadRequest<A>)>)
        ensures
            request == old(self).test_read_request,
            final(self).test_read_request is None,
            *final(self) == (DefActor { test_read_request: None, ..*old(self) }),
    {
        let mut request: Option<(TestId, ReadRequest<A>)> = None;
        std::mem::swap(&mut request, &mut self.test_read_request);
        request
    }
}

} // verus!
