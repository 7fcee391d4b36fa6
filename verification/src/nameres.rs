//! The scopes of a file, and the resolution of names in them.

use crate::protocol::str_eq;
use vstd::prelude::*;

verus! {

/// An expression of a file, by its number in the arena of the file.
#[derive(Debug, Clone, Copy, PartialEq, Eq, Hash, Structural)]
pub struct ExprId(pub u32);

/// A scope of a file, by its number in the scope tree of the file.
#[derive(Debug, Clone, Copy, PartialEq, Eq, Hash, Structural)]
pub struct ScopeId(pub u32);

/// What opens a scope. The bindings of a `let`, the static names of a
/// recursive record and the parameters of a lambda introduce names; a `with`
/// introduces none, but whatever name is found nowhere else may come from
/// its expression.
#[derive(Debug, Clone, Copy, PartialEq, Eq, Hash, Structural)]
pub enum ScopeKind {
    LetGroup,
    RecAttrset,
    Lambda,
    With(ExprId),
}

/// What a name in a file stands for.
#[derive(Debug, Clone, PartialEq, Eq, Hash)]
pub enum Resolution {
    /// A name that a scope around it introduces, with the expression that
    /// defines it.
    Definition(ExprId),
    /// A name that the language provides.
    Builtin(String),
    /// A name that may come from the expression of the `with` around it.
    WithExpr(ExprId),
    /// A name that nothing defines.
    Undefined,
}

/// What a name in a file stands for, as plain values.
pub enum ResolutionModel {
    Definition(ExprId),
    Builtin(Seq<char>),
    WithExpr(ExprId),
    Undefined,
}

impl View for Resolution {
    type V = ResolutionModel;

    open spec fn view(&self) -> ResolutionModel {
        match self {
            Resolution::Definition(def) => ResolutionModel::Definition(*def),
            Resolution::Builtin(name) => ResolutionModel::Builtin(name@),
            Resolution::WithExpr(expr) => ResolutionModel::WithExpr(*expr),
            Resolution::Undefined => ResolutionModel::Undefined,
        }
    }
}

/// One scope, as plain values.
pub struct ScopeModel {
    /// The scope around this one, if there is one.
    pub parent: Option<ScopeId>,
    pub kind: ScopeKind,
    /// The names that the scope introduces, each with the expression that
    /// defines it.
    pub names: Seq<(Seq<char>, ExprId)>,
}

/// The expression that defines `name` among `names`: that of the first pair
/// with the name.
pub open spec fn defined_in(names: Seq<(Seq<char>, ExprId)>, name: Seq<char>) -> Option<ExprId>
    decreases names.len(),
{
    if names.len() == 0 {
        None
    } else if names[0].0 == name {
        Some(names[0].1)
    } else {
        defined_in(names.drop_first(), name)
    }
}

/// In a scope tree every scope comes behind the scope around it, and only
/// the scopes that are not a `with` introduce names.
pub open spec fn is_scope_tree(scopes: Seq<ScopeModel>) -> bool {
    &&& scopes.len() <= u32::MAX
    &&& forall|i: int|
        0 <= i < scopes.len() ==> match (#[trigger] scopes[i]).parent {
            Some(p) => p.0 < i,
            None => true,
        }
    &&& forall|i: int| 0 <= i < scopes.len() && (#[trigger] scopes[i]).kind is With ==> scopes[i].names.len() == 0
}

/// The scopes from `scope` outwards: the scope itself, the scope around it,
/// and so on.
pub open spec fn scope_chain(scopes: Seq<ScopeModel>, scope: int) -> Seq<int>
    decreases scope,
{
    if 0 <= scope < scopes.len() {
        match scopes[scope].parent {
            Some(p) => if p.0 < scope {
                seq![scope] + scope_chain(scopes, p.0 as int)
            } else {
                seq![scope]
            },
            None => seq![scope],
        }
    } else {
        Seq::empty()
    }
}

/// The definition of `name` in the nearest scope of a chain that introduces
/// the name.
pub open spec fn nearest_definition(scopes: Seq<ScopeModel>, chain: Seq<int>, name: Seq<char>) -> Option<
    ExprId,
>
    decreases chain.len(),
{
    if chain.len() == 0 {
        None
    } else {
        match defined_in(scopes[chain[0]].names, name) {
            Some(def) => Some(def),
            None => nearest_definition(scopes, chain.drop_first(), name),
        }
    }
}

/// The expression of the nearest `with` of a chain.
pub open spec fn nearest_with(scopes: Seq<ScopeModel>, chain: Seq<int>) -> Option<ExprId>
    decreases chain.len(),
{
    if chain.len() == 0 {
        None
    } else {
        match scopes[chain[0]].kind {
            ScopeKind::With(expr) => Some(expr),
            _ => nearest_with(scopes, chain.drop_first()),
        }
    }
}

/// Whether `name` is among the names that the language provides.
pub open spec fn is_builtin(builtins: Seq<String>, name: Seq<char>) -> bool {
    exists|i: int| 0 <= i < builtins.len() && (#[trigger] builtins[i])@ == name
}

/// What `name` stands for in a chain of scopes: the definition in the
/// nearest scope that introduces it, whatever `with` lies between; else the
/// built-in of that name; else the nearest `with`; else nothing.
pub open spec fn resolution_in(
    scopes: Seq<ScopeModel>,
    chain: Seq<int>,
    name: Seq<char>,
    builtins: Seq<String>,
) -> ResolutionModel {
    match nearest_definition(scopes, chain, name) {
        Some(def) => ResolutionModel::Definition(def),
        None => if is_builtin(builtins, name) {
            ResolutionModel::Builtin(name)
        } else {
            match nearest_with(scopes, chain) {
                Some(expr) => ResolutionModel::WithExpr(expr),
                None => ResolutionModel::Undefined,
            }
        },
    }
}

/// A name that resolves to a definition is introduced, with that
/// definition, by a scope of the chain, and by no scope nearer than that
/// one.
pub proof fn lemma_resolved_definition_is_nearest(
    scopes: Seq<ScopeModel>,
    chain: Seq<int>,
    name: Seq<char>,
    builtins: Seq<String>,
    def: ExprId,
)
    requires
        resolution_in(scopes, chain, name, builtins) == ResolutionModel::Definition(def),
    ensures
        exists|i: int|
            0 <= i < chain.len() && defined_in(scopes[#[trigger] chain[i]].names, name) == Some(def)
                && forall|j: int|
                0 <= j < i ==> defined_in(scopes[#[trigger] chain[j]].names, name) is None,
{
    lemma_definition_is_nearest(scopes, chain, name, def);
}

/// The nearest definition of a name is that of a scope of the chain, and
/// no scope nearer than that one introduces the name.
pub proof fn lemma_definition_is_nearest(scopes: Seq<ScopeModel>, chain: Seq<int>, name: Seq<char>, def: ExprId)
    requires
        nearest_definition(scopes, chain, name) == Some(def),
    ensures
        exists|i: int|
            0 <= i < chain.len() && defined_in(scopes[#[trigger] chain[i]].names, name) == Some(def)
                && forall|j: int|
                0 <= j < i ==> defined_in(scopes[#[trigger] chain[j]].names, name) is None,
    decreases chain.len(),
{
    if defined_in(scopes[chain[0]].names, name) is Some {
        assert(defined_in(scopes[chain[0]].names, name) == Some(def));
    } else {
        let rest = chain.drop_first();
        lemma_definition_is_nearest(scopes, rest, name, def);
        let i = choose|i: int|
            0 <= i < rest.len() && defined_in(scopes[#[trigger] rest[i]].names, name) == Some(def)
                && forall|j: int| 0 <= j < i ==> defined_in(scopes[#[trigger] rest[j]].names, name) is None;
        assert(chain[i + 1] == rest[i]);
        assert forall|j: int| 0 <= j < i + 1 implies defined_in(
            scopes[#[trigger] chain[j]].names,
            name,
        ) is None by {
            if j > 0 {
                assert(chain[j] == rest[j - 1]);
            }
        }
    }
}

/// A definition is found among names exactly where a pair holds the name,
/// and it is that of the first such pair.
pub proof fn lemma_defined_in(names: Seq<(Seq<char>, ExprId)>, name: Seq<char>)
    ensures
        match defined_in(names, name) {
            Some(def) => exists|i: int|
                0 <= i < names.len() && (#[trigger] names[i]) == (name, def) && forall|j: int|
                    0 <= j < i ==> (#[trigger] names[j]).0 != name,
            None => forall|i: int| 0 <= i < names.len() ==> (#[trigger] names[i]).0 != name,
        },
    decreases names.len(),
{
    if names.len() > 0 && names[0].0 != name {
        let rest = names.drop_first();
        lemma_defined_in(rest, name);
        match defined_in(rest, name) {
            Some(def) => {
                let i = choose|i: int|
                    0 <= i < rest.len() && (#[trigger] rest[i]) == (name, def) && forall|j: int|
                        0 <= j < i ==> (#[trigger] rest[j]).0 != name;
                assert(names[i + 1] == rest[i]);
                assert forall|j: int| 0 <= j < i + 1 implies (#[trigger] names[j]).0 != name by {
                    if j > 0 {
                        assert(names[j] == rest[j - 1]);
                    }
                }
            },
            None => {
                assert forall|i: int| 0 <= i < names.len() implies (#[trigger] names[i]).0 != name by {
                    if i > 0 {
                        assert(names[i] == rest[i - 1]);
                    }
                }
            },
        }
    } else if names.len() > 0 {
        assert(names[0] == (name, names[0].1));
    }
}

/// One scope of a file.
#[derive(Debug)]
struct ScopeData {
    parent: Option<ScopeId>,
    kind: ScopeKind,
    names: Vec<(String, ExprId)>,
}

/// The names of a list, as plain values.
pub open spec fn names_of(names: Seq<(String, ExprId)>) -> Seq<(Seq<char>, ExprId)> {
    Seq::new(names.len(), |i: int| (names[i].0@, names[i].1))
}

impl ScopeData {
    spec fn model(self) -> ScopeModel {
        ScopeModel { parent: self.parent, kind: self.kind, names: names_of(self.names@) }
    }
}

/// The scopes of a file: a forest in which every scope knows the scope
/// around it, and every expression the innermost scope that it lies in.
#[derive(Debug)]
pub struct ScopeTree {
    scopes: Vec<ScopeData>,
    scope_by_expr: Vec<Option<ScopeId>>,
}

impl ScopeTree {
    #[verifier::type_invariant]
    spec fn well_formed(self) -> bool {
        &&& is_scope_tree(self.scopes())
        &&& forall|i: int|
            0 <= i < self.scope_by_expr@.len() ==> match #[trigger] self.scope_by_expr@[i] {
                Some(scope) => scope.0 < self.scopes@.len(),
                None => true,
            }
    }

    /// The scopes, by their numbers.
    pub closed spec fn scopes(&self) -> Seq<ScopeModel> {
        Seq::new(self.scopes@.len(), |i: int| self.scopes@[i].model())
    }

    /// The innermost scope of an expression, if it lies in one.
    pub closed spec fn scope_of(&self, expr: ExprId) -> Option<ScopeId> {
        if expr.0 < self.scope_by_expr@.len() {
            self.scope_by_expr@[expr.0 as int]
        } else {
            None
        }
    }

    /// The scopes around an expression, from the innermost outwards.
    pub open spec fn chain_of(&self, expr: ExprId) -> Seq<int> {
        match self.scope_of(expr) {
            Some(scope) => scope_chain(self.scopes(), scope.0 as int),
            None => Seq::empty(),
        }
    }

    /// A tree without scopes.
    pub fn new() -> (r: Self)
        ensures
            r.scopes() == Seq::<ScopeModel>::empty(),
            forall|expr: ExprId| r.scope_of(expr) is None,
    {
        let r = ScopeTree { scopes: Vec::new(), scope_by_expr: Vec::new() };
        assert(r.scopes() =~= Seq::empty());
        r
    }

    /// Adds a scope of the kind `kind` inside the scope `parent`, with the
    /// names that it introduces. Nothing is added, and nothing returned,
    /// where the tree holds no such parent, a `with` is to introduce names,
    /// or no number is left for the scope.
    pub fn new_scope(&mut self, parent: Option<ScopeId>, kind: ScopeKind, names: Vec<(String, ExprId)>) -> (r:
        Option<ScopeId>)
        ensures
            is_scope_tree(old(self).scopes()),
            forall|expr: ExprId| final(self).scope_of(expr) == old(self).scope_of(expr),
            match r {
                Some(scope) => {
                    &&& scope.0 == old(self).scopes().len()
                    &&& final(self).scopes() == old(self).scopes().push(
                        ScopeModel { parent, kind, names: names_of(names@) },
                    )
                },
                None => final(self).scopes() == old(self).scopes(),
            },
            r is Some <==> {
                &&& old(self).scopes().len() < u32::MAX
                &&& parent matches Some(p) ==> p.0 < old(self).scopes().len()
                &&& kind is With ==> names@.len() == 0
            },
    {
        proof {
            use_type_invariant(&*self);
        }
        let n = self.scopes.len();
        if n >= u32::MAX as usize {
            return None;
        }
        if let Some(p) = parent {
            if p.0 as usize >= n {
                return None;
            }
        }
        if let ScopeKind::With(_) = kind {
            if names.len() > 0 {
                return None;
            }
        }
        let ghost before = self.scopes();
        let ghost added = ScopeModel { parent, kind, names: names_of(names@) };
        let mut whole = ScopeTree::new();
        core::mem::swap(self, &mut whole);
        let ScopeTree { mut scopes, scope_by_expr } = whole;
        scopes.push(ScopeData { parent, kind, names });
        proof {
            let after = Seq::new(scopes@.len(), |i: int| scopes@[i].model());
            assert(after =~= before.push(added));
            assert forall|i: int| 0 <= i < after.len() implies match (#[trigger] after[i]).parent {
                Some(p) => p.0 < i,
                None => true,
            } by {
                if i < before.len() {
                    assert(after[i] == before[i]);
                }
            }
            assert forall|i: int| 0 <= i < after.len() && (#[trigger] after[i]).kind is With implies after[i].names.len()
                == 0 by {
                if i < before.len() {
                    assert(after[i] == before[i]);
                }
            }
        }
        *self = ScopeTree { scopes, scope_by_expr };
        Some(ScopeId(n as u32))
    }

    /// Notes `scope` as the innermost scope of `expr`, and tells whether the
    /// tree holds the scope; where it does not, nothing is noted.
    pub fn set_scope(&mut self, expr: ExprId, scope: ScopeId) -> (r: bool)
        ensures
            r == (scope.0 < old(self).scopes().len()),
            final(self).scopes() == old(self).scopes(),
            forall|other: ExprId|
                final(self).scope_of(other) == (if r && other == expr {
                    Some(scope)
                } else {
                    old(self).scope_of(other)
                }),
    {
        proof {
            use_type_invariant(&*self);
        }
        if scope.0 as usize >= self.scopes.len() {
            return false;
        }
        let ghost before = *self;
        let mut whole = ScopeTree::new();
        core::mem::swap(self, &mut whole);
        let ScopeTree { scopes, mut scope_by_expr } = whole;
        let at = expr.0 as usize;
        while scope_by_expr.len() <= at
            invariant
                scope_by_expr@.len() >= before.scope_by_expr@.len(),
                forall|i: int|
                    0 <= i < scope_by_expr@.len() ==> #[trigger] scope_by_expr@[i] == (if i
                        < before.scope_by_expr@.len() {
                        before.scope_by_expr@[i]
                    } else {
                        None
                    }),
            decreases at + 1 - scope_by_expr@.len(),
        {
            scope_by_expr.push(None);
        }
        scope_by_expr[at] = Some(scope);
        *self = ScopeTree { scopes, scope_by_expr };
        proof {
            assert(self.scopes() =~= before.scopes());
            assert forall|other: ExprId| self.scope_of(other) == (if other == expr {
                Some(scope)
            } else {
                before.scope_of(other)
            }) by {
                if other.0 < self.scope_by_expr@.len() && other != expr {
                    assert(self.scope_by_expr@[other.0 as int] == (if other.0
                        < before.scope_by_expr@.len() {
                        before.scope_by_expr@[other.0 as int]
                    } else {
                        None
                    }));
                }
            }
        }
        true
    }

    /// The innermost scope of an expression, if it lies in one.
    pub fn scope_for_expr(&self, expr: ExprId) -> (r: Option<ScopeId>)
        ensures
            r == self.scope_of(expr),
            r matches Some(scope) ==> scope.0 < self.scopes().len(),
            is_scope_tree(self.scopes()),
    {
        proof {
            use_type_invariant(self);
        }
        let at = expr.0 as usize;
        if at < self.scope_by_expr.len() {
            self.scope_by_expr[at]
        } else {
            None
        }
    }

    /// What `name` stands for where the expression `expr` refers to it;
    /// `builtins` are the names that the language provides. The scopes
    /// around the expression are searched from the innermost outwards. A
    /// scope that introduces the name settles it, whatever `with` lies
    /// nearer; else a built-in name is the built-in; else the nearest `with`
    /// may provide it; else the name is undefined.
    pub fn resolve_name(&self, expr: ExprId, name: &str, builtins: &Vec<String>) -> (r: Resolution)
        ensures
            r@ == resolution_in(self.scopes(), self.chain_of(expr), name@, builtins@),
            is_scope_tree(self.scopes()),
    {
        proof {
            use_type_invariant(self);
        }
        let mut with_expr: Option<ExprId> = None;
        let mut current = self.scope_for_expr(expr);
        let ghost all = self.scopes();
        let ghost chain = self.chain_of(expr);
        let ghost mut seen: int = 0;
        assert(chain.skip(0) =~= chain);
        while current.is_some()
            invariant
                all == self.scopes(),
                chain == self.chain_of(expr),
                is_scope_tree(all),
                all.len() == self.scopes@.len(),
                0 <= seen <= chain.len(),
                match current {
                    Some(scope) => scope.0 < all.len() && chain.skip(seen) == scope_chain(
                        all,
                        scope.0 as int,
                    ),
                    None => seen == chain.len(),
                },
                nearest_definition(all, chain, name@) == nearest_definition(all, chain.skip(seen), name@),
                match with_expr {
                    Some(e) => nearest_with(all, chain) == Some(e),
                    None => nearest_with(all, chain) == nearest_with(all, chain.skip(seen)),
                },
            decreases
                    match current {
                        Some(scope) => scope.0 + 1,
                        None => 0,
                    },
        {
            let scope = current.unwrap();
            let data = &self.scopes[scope.0 as usize];
            proof {
                let rest = chain.skip(seen);
                assert(rest[0] == scope.0);
                assert(all[scope.0 as int] == data.model());
                assert(rest.drop_first() =~= chain.skip(seen + 1));
                match all[scope.0 as int].parent {
                    Some(p) => {
                        assert(p.0 < scope.0);
                        assert(rest.drop_first() =~= scope_chain(all, p.0 as int));
                    },
                    None => {
                        assert(rest.drop_first() =~= Seq::<int>::empty());
                    },
                }
            }
            let found = find_name(&data.names, name);
            proof {
                let rest = chain.skip(seen);
                assert(all[rest[0]].names == names_of(data.names@));
                assert(nearest_definition(all, rest, name@) == (match found {
                    Some(def) => Some(def),
                    None => nearest_definition(all, rest.drop_first(), name@),
                }));
                assert(nearest_with(all, rest) == (match all[rest[0]].kind {
                    ScopeKind::With(e) => Some(e),
                    _ => nearest_with(all, rest.drop_first()),
                }));
            }
            if let Some(def) = found {
                return Resolution::Definition(def);
            }
            if with_expr.is_none() {
                if let ScopeKind::With(e) = data.kind {
                    with_expr = Some(e);
                }
            }
            current = data.parent;
            proof {
                seen = seen + 1;
            }
        }
        assert(chain.skip(seen) =~= Seq::<int>::empty());
        if among(builtins, name) {
            Resolution::Builtin(name.to_owned())
        } else {
            match with_expr {
                Some(e) => Resolution::WithExpr(e),
                None => Resolution::Undefined,
            }
        }
    }
}

/// Whether `name` is among `builtins`.
fn among(builtins: &Vec<String>, name: &str) -> (r: bool)
    ensures
        r == is_builtin(builtins@, name@),
{
    let n = builtins.len();
    for i in 0..n
        invariant
            n == builtins@.len(),
            forall|k: int| 0 <= k < i ==> (#[trigger] builtins@[k])@ != name@,
    {
        if str_eq(builtins[i].as_str(), name) {
            return true;
        }
    }
    false
}

/// The expression that defines `name` among `names`.
fn find_name(names: &Vec<(String, ExprId)>, name: &str) -> (r: Option<ExprId>)
    ensures
        r == defined_in(names_of(names@), name@),
{
    let n = names.len();
    let ghost all = names_of(names@);
    assert(all.skip(0) =~= all);
    for i in 0..n
        invariant
            n == names@.len(),
            all == names_of(names@),
            defined_in(all, name@) == defined_in(all.skip(i as int), name@),
    {
        proof {
            let rest = all.skip(i as int);
            assert(rest[0] == all[i as int]);
            assert(rest.drop_first() =~= all.skip(i + 1));
        }
        if str_eq(names[i].0.as_str(), name) {
            return Some(names[i].1);
        }
    }
    assert(all.skip(n as int) =~= Seq::empty());
    None
}

} // verus!
