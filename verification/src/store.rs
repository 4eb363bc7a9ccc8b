//! The variable store: bindings in the order in which their names were first bound.

use vstd::prelude::*;
use crate::text::views;
use crate::value::{Binding, Variable, agrees};

verus! {

/// The first position at or after `i` whose binding has the given name.
pub open spec fn position_from(store: Seq<Binding>, identifier: Seq<char>, i: int) -> Option<int>
    decreases store.len() - i,
{
    if i < 0 || i >= store.len() {
        None
    } else if store[i].identifier == identifier {
        Some(i)
    } else {
        position_from(store, identifier, i + 1)
    }
}

/// The first position whose binding has the given name.
pub open spec fn position(store: Seq<Binding>, identifier: Seq<char>) -> Option<int> {
    position_from(store, identifier, 0)
}

/// The binding of a name: the first one in the store that has it.
pub open spec fn lookup(store: Seq<Binding>, identifier: Seq<char>) -> Option<Binding> {
    match position(store, identifier) {
        Some(i) => Some(store[i]),
        None => None,
    }
}

/// The store after a binding was made: where the name is bound already, its kind and text
/// are replaced in place; else the binding is added at the end.
pub open spec fn assigned(store: Seq<Binding>, binding: Binding) -> Seq<Binding> {
    match position(store, binding.identifier) {
        Some(i) => store.update(i, binding),
        None => store.push(binding),
    }
}

/// Whether no name is bound twice.
pub open spec fn distinct_names(store: Seq<Binding>) -> bool {
    forall|i: int, j: int|
        0 <= i < j < store.len() ==> (#[trigger] store[i]).identifier != (
        #[trigger] store[j]).identifier
}

/// A position found holds the name, and no position before it does; where none is
/// found, no position holds the name.
pub proof fn lemma_position(store: Seq<Binding>, identifier: Seq<char>, i: int)
    requires
        0 <= i,
    ensures
        match position_from(store, identifier, i) {
            Some(k) => i <= k < store.len() && store[k].identifier == identifier && forall|j: int|
                i <= j < k ==> (#[trigger] store[j]).identifier != identifier,
            None => forall|j: int|
                i <= j < store.len() ==> (#[trigger] store[j]).identifier != identifier,
        },
    decreases store.len() - i,
{
    if i < store.len() && store[i].identifier != identifier {
        lemma_position(store, identifier, i + 1);
    }
}

/// A position found is the first one with the name: the converse of `lemma_position`.
pub proof fn lemma_position_is(store: Seq<Binding>, identifier: Seq<char>, i: int, k: int)
    requires
        0 <= i <= k < store.len(),
        store[k].identifier == identifier,
        forall|j: int| i <= j < k ==> (#[trigger] store[j]).identifier != identifier,
    ensures
        position_from(store, identifier, i) == Some(k),
    decreases k - i,
{
    if i < k {
        lemma_position_is(store, identifier, i + 1, k);
    }
}

/// Where no position holds the name, none is found.
pub proof fn lemma_position_none(store: Seq<Binding>, identifier: Seq<char>, i: int)
    requires
        0 <= i,
        forall|j: int| i <= j < store.len() ==> (#[trigger] store[j]).identifier != identifier,
    ensures
        position_from(store, identifier, i) is None,
    decreases store.len() - i,
{
    if i < store.len() {
        lemma_position_none(store, identifier, i + 1);
    }
}

fn find_position(identifier: &String, variables: &Vec<Variable>) -> (r: Option<usize>)
    ensures
        match r {
            Some(k) => position(views(variables@), identifier@) == Some(k as int) && k
                < variables.len(),
            None => position(views(variables@), identifier@) is None,
        },
{
    let mut i: usize = 0;
    while i < variables.len()
        invariant
            i <= variables.len(),
            position(views(variables@), identifier@) == position_from(
                views(variables@),
                identifier@,
                i as int,
            ),
        decreases variables.len() - i,
    {
        if variables[i].identifier == *identifier {
            return Some(i);
        }
        i += 1;
    }
    None
}

/// Binds a value: where its name is bound already, the kind and the text of that binding
/// are replaced in place; else the value is added at the end of the store.
pub fn assign(variable: Variable, variables: &mut Vec<Variable>)
    ensures
        views(final(variables)@) == assigned(views(old(variables)@), variable@),
{
    let ghost before = views(variables@);
    let ghost binding = variable@;
    proof {
        lemma_position(before, binding.identifier, 0);
    }
    match find_position(&variable.identifier, variables) {
        Some(i) => {
            variables[i].value = variable.value;
            variables[i].datatype = variable.datatype;
            assert(variables@[i as int]@ == binding);
            assert(views(variables@) =~= before.update(i as int, binding));
        },
        None => {
            variables.push(variable);
            assert(views(variables@) =~= before.push(binding));
        },
    }
}

/// The binding of `identifier`, if it has one: a copy of the first one in the store with
/// that name.
pub fn get_variable(identifier: &str, variables: &[Variable]) -> (found: Option<Variable>)
    ensures
        match found {
            Some(variable) => lookup(views(variables@), identifier@) == Some(variable@),
            None => lookup(views(variables@), identifier@) is None,
        },
{
    let name = identifier.to_owned();
    let mut i: usize = 0;
    while i < variables.len()
        invariant
            i <= variables.len(),
            name@ == identifier@,
            position(views(variables@), identifier@) == position_from(
                views(variables@),
                identifier@,
                i as int,
            ),
        decreases variables.len() - i,
    {
        if variables[i].identifier == name {
            return Some(
                Variable {
                    datatype: variables[i].datatype,
                    identifier: variables[i].identifier.clone(),
                    value: variables[i].value.clone(),
                },
            );
        }
        i += 1;
    }
    None
}

/// Binding the same value twice leaves the store as binding it once does: no name is
/// bound twice on that account.
pub proof fn lemma_assign_idempotent(store: Seq<Binding>, binding: Binding)
    ensures
        assigned(assigned(store, binding), binding) == assigned(store, binding),
{
    let once = assigned(store, binding);
    lemma_position(store, binding.identifier, 0);
    match position(store, binding.identifier) {
        Some(i) => {
            lemma_position_is(once, binding.identifier, 0, i);
            assert(once.update(i, binding) =~= once);
        },
        None => {
            lemma_position_is(once, binding.identifier, 0, store.len() as int);
            assert(once.update(store.len() as int, binding) =~= once);
        },
    }
}

/// Binding a name that is bound already replaces the kind and the text of its binding,
/// whatever they were, and leaves the number of bindings and every other binding as
/// they are.
pub proof fn lemma_assign_overwrites(store: Seq<Binding>, binding: Binding)
    requires
        lookup(store, binding.identifier) is Some,
    ensures
        assigned(store, binding).len() == store.len(),
        lookup(assigned(store, binding), binding.identifier) == Some(binding),
        forall|i: int|
            0 <= i < store.len() && Some(i) != position(store, binding.identifier) ==> (
            #[trigger] assigned(store, binding)[i]) == store[i],
{
    lemma_position(store, binding.identifier, 0);
    let i = position(store, binding.identifier)->0;
    lemma_position_is(assigned(store, binding), binding.identifier, 0, i);
}

/// After a binding, the name is bound to the value given, and every other name is bound
/// as before.
pub proof fn lemma_assign_lookup(store: Seq<Binding>, binding: Binding, other: Seq<char>)
    ensures
        lookup(assigned(store, binding), binding.identifier) == Some(binding),
        other != binding.identifier ==> lookup(assigned(store, binding), other) == lookup(
            store,
            other,
        ),
{
    let after = assigned(store, binding);
    lemma_position(store, binding.identifier, 0);
    match position(store, binding.identifier) {
        Some(i) => {
            lemma_position_is(after, binding.identifier, 0, i);
        },
        None => {
            lemma_position_is(after, binding.identifier, 0, store.len() as int);
        },
    }
    if other != binding.identifier {
        lemma_position(store, other, 0);
        match position(store, other) {
            Some(k) => {
                lemma_position_is(after, other, 0, k);
            },
            None => {
                lemma_position_none(after, other, 0);
            },
        }
    }
}

/// A store in which no name is bound twice stays so under a binding.
pub proof fn lemma_assign_keeps_names_distinct(store: Seq<Binding>, binding: Binding)
    requires
        distinct_names(store),
    ensures
        distinct_names(assigned(store, binding)),
{
    lemma_position(store, binding.identifier, 0);
}


/// Whether a store is as it should be: no name is bound twice, and the kind and the text
/// of every binding agree.
pub open spec fn valid_store(store: Seq<Binding>) -> bool {
    &&& distinct_names(store)
    &&& forall|i: int| 0 <= i < store.len() ==> agrees(#[trigger] store[i])
}

/// A store that is as it should be stays so under the binding of a value whose kind and
/// text agree.
pub proof fn lemma_assign_keeps_valid(store: Seq<Binding>, binding: Binding)
    requires
        valid_store(store),
        agrees(binding),
    ensures
        valid_store(assigned(store, binding)),
{
    lemma_assign_keeps_names_distinct(store, binding);
    lemma_position(store, binding.identifier, 0);
}


/// To bind a name to what it is bound to already changes nothing.
pub proof fn lemma_assign_same(store: Seq<Binding>, binding: Binding)
    requires
        lookup(store, binding.identifier) == Some(binding),
    ensures
        assigned(store, binding) == store,
{
    lemma_position(store, binding.identifier, 0);
    let i = position(store, binding.identifier)->0;
    assert(store.update(i, binding) =~= store);
}

} // verus!
