//! The arena of the expressions of a file, with the map between the
//! expressions and the places in the source that they come from.

use crate::nameres::ExprId;
use crate::text::TextRange;
use std::collections::HashMap;
use vstd::prelude::*;

verus! {

/// A pointer to a node of the syntax tree: the kind of the node, by its
/// number, and its range in the file.
#[derive(Debug, Clone, Copy, PartialEq, Eq, Hash, Structural)]
pub struct AstPtr {
    pub kind: u16,
    pub range: TextRange,
}

/// No pointer stands for two expressions.
pub open spec fn are_distinct(ptrs: Seq<AstPtr>) -> bool {
    forall|i: int, j: int| 0 <= i < j < ptrs.len() ==> ptrs[i] != ptrs[j]
}

/// The expression that comes from `ptr`, if one does: the place of the
/// pointer among the pointers.
pub open spec fn expr_of(ptrs: Seq<AstPtr>, ptr: AstPtr) -> Option<ExprId> {
    if ptrs.contains(ptr) {
        Some(ExprId(ptrs.index_of(ptr) as u32))
    } else {
        None
    }
}

/// The pointer that `expr` comes from, if the arena holds the expression.
pub open spec fn ptr_of(ptrs: Seq<AstPtr>, expr: ExprId) -> Option<AstPtr> {
    if expr.0 < ptrs.len() {
        Some(ptrs[expr.0 as int])
    } else {
        None
    }
}

/// The map between expressions and pointers is a bijection: from an
/// expression to its pointer and back gives the expression, and from a
/// pointer to its expression and back gives the pointer.
pub proof fn lemma_source_map_is_bijection(ptrs: Seq<AstPtr>, expr: ExprId, ptr: AstPtr)
    requires
        are_distinct(ptrs),
        ptrs.len() <= u32::MAX,
    ensures
        ptr_of(ptrs, expr) == Some(ptr) <==> expr_of(ptrs, ptr) == Some(expr),
{
    if ptr_of(ptrs, expr) == Some(ptr) {
        assert(ptrs[expr.0 as int] == ptr);
        assert(ptrs.contains(ptr));
        let i = ptrs.index_of(ptr);
        assert(0 <= i < ptrs.len() && ptrs[i] == ptr);
        assert(i == expr.0);
    }
    if expr_of(ptrs, ptr) == Some(expr) {
        let i = ptrs.index_of(ptr);
        assert(0 <= i < ptrs.len() && ptrs[i] == ptr);
    }
}

/// A number that stands for one pointer only: the kind, the start and the
/// end of the pointer, side by side.
pub open spec fn key_of(ptr: AstPtr) -> u128 {
    (ptr.kind * 0x1_0000_0000_0000_0000 + ptr.range.spec_start().raw * 0x1_0000_0000
        + ptr.range.spec_end().raw) as u128
}

/// Two pointers with the same key are the same pointer.
pub proof fn lemma_key_is_one_to_one(a: AstPtr, b: AstPtr)
    requires
        key_of(a) == key_of(b),
    ensures
        a == b,
{
    let ka = a.kind * 0x1_0000_0000_0000_0000 + a.range.spec_start().raw * 0x1_0000_0000
        + a.range.spec_end().raw;
    let kb = b.kind * 0x1_0000_0000_0000_0000 + b.range.spec_start().raw * 0x1_0000_0000
        + b.range.spec_end().raw;
    assert(ka == kb);
    assert(a.range.spec_end().raw == b.range.spec_end().raw);
    assert(a.range.spec_start().raw == b.range.spec_start().raw);
    assert(a.kind == b.kind);
    crate::text::lemma_range_by_ends(a.range, b.range);
}

/// The expressions of a file, each known by its number, and for each the
/// pointer to the place in the source that it comes from. Every expression
/// has one pointer, and no pointer stands for two expressions.
#[derive(Debug)]
pub struct Module<E> {
    exprs: Vec<E>,
    ptrs: Vec<AstPtr>,
    index: HashMap<u128, ExprId>,
}

impl<E> Module<E> {
    #[verifier::type_invariant]
    spec fn well_formed(self) -> bool {
        &&& self.exprs@.len() == self.ptrs@.len()
        &&& self.exprs@.len() <= u32::MAX
        &&& forall|i: int|
            0 <= i < self.ptrs@.len() ==> self.index@.contains_key(key_of(#[trigger] self.ptrs@[i]))
                && self.index@[key_of(self.ptrs@[i])].0 == i
        &&& forall|k: u128| #[trigger]
            self.index@.contains_key(k) ==> self.index@[k].0 < self.ptrs@.len() && key_of(
                self.ptrs@[self.index@[k].0 as int],
            ) == k
    }

    /// The expressions, by their numbers.
    pub closed spec fn exprs(&self) -> Seq<E> {
        self.exprs@
    }

    /// The entries of the source map: the pointer of each expression, by
    /// the number of the expression.
    pub closed spec fn source_map(&self) -> Seq<AstPtr> {
        self.ptrs@
    }

    /// What holds of every module: the source map has one entry for each
    /// expression, and no two entries hold the same pointer.
    pub open spec fn is_consistent(&self) -> bool {
        &&& self.source_map().len() == self.exprs().len()
        &&& self.exprs().len() <= u32::MAX
        &&& are_distinct(self.source_map())
    }

    /// The pointers of a module are distinct, and the index finds just
    /// them.
    proof fn lemma_index(self)
        requires
            self.well_formed(),
        ensures
            self.is_consistent(),
            forall|ptr: AstPtr| self.index@.contains_key(key_of(ptr)) <==> self.ptrs@.contains(ptr),
            forall|ptr: AstPtr|
                self.ptrs@.contains(ptr) ==> self.index@[key_of(ptr)].0 == self.ptrs@.index_of(ptr),
    {
        assert forall|i: int, j: int| 0 <= i < j < self.ptrs@.len() implies self.ptrs@[i]
            != self.ptrs@[j] by {
            assert(self.index@[key_of(self.ptrs@[i])].0 == i);
            assert(self.index@[key_of(self.ptrs@[j])].0 == j);
        }
        assert forall|ptr: AstPtr| self.index@.contains_key(key_of(ptr)) <==> self.ptrs@.contains(
            ptr,
        ) by {
            if self.index@.contains_key(key_of(ptr)) {
                let at = self.index@[key_of(ptr)].0 as int;
                lemma_key_is_one_to_one(self.ptrs@[at], ptr);
            }
            if self.ptrs@.contains(ptr) {
                let i = self.ptrs@.index_of(ptr);
                assert(self.index@.contains_key(key_of(self.ptrs@[i])));
            }
        }
        assert forall|ptr: AstPtr| self.ptrs@.contains(ptr) implies self.index@[key_of(ptr)].0
            == self.ptrs@.index_of(ptr) by {
            let i = self.ptrs@.index_of(ptr);
            assert(self.index@[key_of(self.ptrs@[i])].0 == i);
        }
    }

    /// A module without expressions.
    pub fn new() -> (r: Self)
        ensures
            r.exprs() == Seq::<E>::empty(),
            r.source_map() == Seq::<AstPtr>::empty(),
    {
        Module { exprs: Vec::new(), ptrs: Vec::new(), index: HashMap::new() }
    }

    /// The number of expressions, which is the number of entries of the
    /// source map.
    pub fn len(&self) -> (r: usize)
        ensures
            r == self.exprs().len(),
            r == self.source_map().len(),
            self.is_consistent(),
    {
        proof {
            use_type_invariant(self);
            self.lemma_index();
        }
        self.exprs.len()
    }

    /// Adds an expression that comes from `ptr`, and gives its number.
    /// Nothing is added, and nothing returned, where an expression comes
    /// from that pointer already, or no number is left.
    pub fn alloc_expr(&mut self, expr: E, ptr: AstPtr) -> (r: Option<ExprId>)
        ensures
            old(self).is_consistent(),
            final(self).is_consistent(),
            r is Some <==> expr_of(old(self).source_map(), ptr) is None && old(self).exprs().len()
                < u32::MAX,
            match r {
                Some(id) => {
                    &&& id.0 == old(self).exprs().len()
                    &&& final(self).exprs() == old(self).exprs().push(expr)
                    &&& final(self).source_map() == old(self).source_map().push(ptr)
                },
                None => final(self).exprs() == old(self).exprs() && final(self).source_map() == old(
                    self,
                ).source_map(),
            },
    {
        broadcast use vstd::std_specs::hash::group_hash_axioms;

        proof {
            use_type_invariant(&*self);
            self.lemma_index();
        }
        if self.expr_for_ptr(ptr).is_some() || self.exprs.len() >= u32::MAX as usize {
            return None;
        }
        let n = self.exprs.len();
        let id = ExprId(n as u32);
        let key = key(ptr);
        let mut whole = Module::new();
        core::mem::swap(self, &mut whole);
        let Module { mut exprs, mut ptrs, mut index } = whole;
        let ghost before = ptrs@;
        let ghost found = index@;
        exprs.push(expr);
        ptrs.push(ptr);
        index.insert(key, id);
        proof {
            assert forall|i: int| 0 <= i < ptrs@.len() implies index@.contains_key(
                key_of(#[trigger] ptrs@[i]),
            ) && index@[key_of(ptrs@[i])].0 == i by {
                if i < before.len() {
                    assert(ptrs@[i] == before[i]);
                    assert(found.contains_key(key_of(before[i])) && found[key_of(before[i])].0 == i);
                    assert(before.contains(before[i]));
                }
            }
            assert forall|k: u128| #[trigger] index@.contains_key(k) implies index@[k].0 < ptrs@.len()
                && key_of(ptrs@[index@[k].0 as int]) == k by {
                if k != key {
                    assert(found.contains_key(k));
                    assert(ptrs@[found[k].0 as int] == before[found[k].0 as int]);
                }
            }
        }
        *self = Module { exprs, ptrs, index };
        proof {
            use_type_invariant(&*self);
            self.lemma_index();
        }
        Some(id)
    }

    /// The expression with the number `id`, if the module holds it.
    pub fn expr(&self, id: ExprId) -> (r: Option<&E>)
        ensures
            id.0 < self.exprs().len() ==> r == Some(&self.exprs()[id.0 as int]),
            id.0 >= self.exprs().len() ==> r is None,
    {
        let at = id.0 as usize;
        if at < self.exprs.len() {
            Some(&self.exprs[at])
        } else {
            None
        }
    }

    /// The pointer that the expression `id` comes from, if the module
    /// holds the expression.
    pub fn ptr_for_expr(&self, id: ExprId) -> (r: Option<AstPtr>)
        ensures
            r == ptr_of(self.source_map(), id),
            self.is_consistent(),
    {
        proof {
            use_type_invariant(self);
            self.lemma_index();
        }
        let at = id.0 as usize;
        if at < self.ptrs.len() {
            Some(self.ptrs[at])
        } else {
            None
        }
    }

    /// The expression that comes from `ptr`, if one does.
    pub fn expr_for_ptr(&self, ptr: AstPtr) -> (r: Option<ExprId>)
        ensures
            r == expr_of(self.source_map(), ptr),
            self.is_consistent(),
    {
        broadcast use vstd::std_specs::hash::group_hash_axioms;

        proof {
            use_type_invariant(self);
            self.lemma_index();
        }
        let key = key(ptr);
        match self.index.get(&key) {
            Some(id) => Some(*id),
            None => None,
        }
    }
}

/// The key of a pointer.
fn key(ptr: AstPtr) -> (r: u128)
    ensures
        r == key_of(ptr),
{
    let kind = ptr.kind as u128;
    let start = ptr.range.start().raw as u128;
    let end = ptr.range.end().raw as u128;
    kind * 0x1_0000_0000_0000_0000 + start * 0x1_0000_0000 + end
}

} // verus!
