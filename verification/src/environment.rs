use crate::ast::{Node, Scope};
use vstd::prelude::*;

verus! {

/// The number of leading bindings of `scope` that bind another name than `name`:
/// the place of the first binding of `name`, or the length of `scope` if there is none.
pub open spec fn index_of(scope: Scope, name: Seq<char>) -> nat
    decreases scope.len(),
{
    if scope.len() == 0 || scope.first().0 == name {
        0
    } else {
        1 + index_of(scope.drop_first(), name)
    }
}

/// Whether `scope` binds `name`.
pub open spec fn binds(scope: Scope, name: Seq<char>) -> bool {
    index_of(scope, name) < scope.len()
}

/// The value that `scope` binds `name` to.
pub open spec fn lookup(scope: Scope, name: Seq<char>) -> Option<Node> {
    if binds(scope, name) {
        Some(scope[index_of(scope, name) as int].1)
    } else {
        None
    }
}

/// `scope` with `name` bound to `value`: an earlier binding of the name is
/// overwritten where it stands, a new name goes to the end.
pub open spec fn bind(scope: Scope, name: Seq<char>, value: Node) -> Scope {
    if binds(scope, name) {
        scope.update(index_of(scope, name) as int, (name, value))
    } else {
        scope.push((name, value))
    }
}

/// No name is bound twice.
pub open spec fn distinct_names(scope: Scope) -> bool {
    forall|i: int, j: int| 0 <= i < j < scope.len() ==> scope[i].0 != scope[j].0
}

/// `index_of` is the only place `i` at which `name` is bound with no binding of it before.
pub proof fn lemma_index_of(scope: Scope, name: Seq<char>, i: int)
    requires
        0 <= i <= scope.len(),
        forall|j: int| 0 <= j < i ==> scope[j].0 != name,
        i < scope.len() ==> scope[i].0 == name,
    ensures
        index_of(scope, name) == i,
    decreases scope.len(),
{
    if scope.len() == 0 || scope.first().0 == name {
    } else {
        let rest = scope.drop_first();
        assert forall|j: int| 0 <= j < i - 1 implies rest[j].0 != name by {
            assert(rest[j] == scope[j + 1]);
        }
        lemma_index_of(rest, name, i - 1);
    }
}

/// What `index_of` finds: a place within the scope or its length, with no binding
/// of the name before it and one at it.
pub proof fn lemma_index_of_found(scope: Scope, name: Seq<char>)
    ensures
        index_of(scope, name) <= scope.len(),
        forall|j: int| 0 <= j < index_of(scope, name) ==> scope[j].0 != name,
        binds(scope, name) ==> scope[index_of(scope, name) as int].0 == name,
    decreases scope.len(),
{
    if scope.len() == 0 || scope.first().0 == name {
    } else {
        let rest = scope.drop_first();
        lemma_index_of_found(rest, name);
        assert forall|j: int| 0 <= j < index_of(scope, name) implies scope[j].0 != name by {
            if j > 0 {
                assert(rest[j - 1] == scope[j]);
            }
        }
        if binds(scope, name) {
            assert(rest[index_of(rest, name) as int] == scope[index_of(scope, name) as int]);
        }
    }
}

/// A name that was just bound is found with its value.
pub proof fn lemma_lookup_bound(scope: Scope, name: Seq<char>, value: Node)
    ensures
        lookup(bind(scope, name, value), name) == Some(value),
{
    lemma_index_of_found(scope, name);
    lemma_index_of(bind(scope, name, value), name, index_of(scope, name) as int);
}

/// Binding one name leaves what every other name is bound to as it was.
pub proof fn lemma_lookup_other(scope: Scope, name: Seq<char>, value: Node, other: Seq<char>)
    requires
        other != name,
    ensures
        lookup(bind(scope, name, value), other) == lookup(scope, other),
{
    lemma_index_of_found(scope, name);
    lemma_index_of_found(scope, other);
    let after = bind(scope, name, value);
    if binds(scope, other) {
        lemma_index_of(after, other, index_of(scope, other) as int);
    } else {
        lemma_index_of(after, other, after.len() as int);
    }
}

/// Binding a name keeps the names distinct.
pub proof fn lemma_bind_distinct(scope: Scope, name: Seq<char>, value: Node)
    requires
        distinct_names(scope),
    ensures
        distinct_names(bind(scope, name, value)),
{
    lemma_index_of_found(scope, name);
}

} // verus!
