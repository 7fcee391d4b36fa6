use nil::nameres::ExprId;
use nil::nameres::Resolution;
use nil::nameres::ScopeId;
use nil::nameres::ScopeKind;
use nil::nameres::ScopeTree;

fn builtins() -> Vec<String> {
    ["true", "false", "null", "builtins", "import", "map", "toString"]
        .iter()
        .map(|name| name.to_string())
        .collect()
}

fn names(list: &[(&str, u32)]) -> Vec<(String, ExprId)> {
    list.iter().map(|(name, def)| (name.to_string(), ExprId(*def))).collect()
}

#[test]
fn names_under_a_with_resolve_to_its_expression() {
    // `with { x = 1; }; x + y`: the record is expression 1, `x` and `y` are 3 and 4.
    let mut tree = ScopeTree::new();
    let with = tree.new_scope(None, ScopeKind::With(ExprId(1)), Vec::new()).unwrap();
    assert!(tree.set_scope(ExprId(3), with));
    assert!(tree.set_scope(ExprId(4), with));
    assert_eq!(tree.resolve_name(ExprId(3), "x", &builtins()), Resolution::WithExpr(ExprId(1)));
    assert_eq!(tree.resolve_name(ExprId(4), "y", &builtins()), Resolution::WithExpr(ExprId(1)));
    // The record itself lies outside the `with`.
    assert_eq!(tree.resolve_name(ExprId(1), "x", &builtins()), Resolution::Undefined);
}

#[test]
fn the_nearest_definition_wins() {
    // `let x = 1; y = 2; in x: x + y`
    let mut tree = ScopeTree::new();
    let outer = tree.new_scope(None, ScopeKind::LetGroup, names(&[("x", 1), ("y", 2)])).unwrap();
    let inner = tree.new_scope(Some(outer), ScopeKind::Lambda, names(&[("x", 3)])).unwrap();
    assert_eq!((outer, inner), (ScopeId(0), ScopeId(1)));
    tree.set_scope(ExprId(5), inner);
    tree.set_scope(ExprId(3), outer);
    assert_eq!(tree.resolve_name(ExprId(5), "x", &builtins()), Resolution::Definition(ExprId(3)));
    assert_eq!(tree.resolve_name(ExprId(5), "y", &builtins()), Resolution::Definition(ExprId(2)));
    assert_eq!(tree.resolve_name(ExprId(3), "x", &builtins()), Resolution::Definition(ExprId(1)));
    assert_eq!(tree.resolve_name(ExprId(5), "z", &builtins()), Resolution::Undefined);
    assert_eq!(tree.scope_for_expr(ExprId(5)), Some(inner));
    assert_eq!(tree.scope_for_expr(ExprId(4)), None);
    assert_eq!(tree.scope_for_expr(ExprId(99)), None);
}

#[test]
fn static_scopes_shadow_with() {
    // `let x = 1; in with e; x`: the `with` is nearer, the `let` still settles `x`.
    let mut tree = ScopeTree::new();
    let group = tree.new_scope(None, ScopeKind::LetGroup, names(&[("x", 1)])).unwrap();
    let with = tree.new_scope(Some(group), ScopeKind::With(ExprId(2)), Vec::new()).unwrap();
    tree.set_scope(ExprId(3), with);
    assert_eq!(tree.resolve_name(ExprId(3), "x", &builtins()), Resolution::Definition(ExprId(1)));
    assert_eq!(tree.resolve_name(ExprId(3), "y", &builtins()), Resolution::WithExpr(ExprId(2)));
}

#[test]
fn the_innermost_with_provides_the_name() {
    // `with a; with b; rec { k = x; }`
    let mut tree = ScopeTree::new();
    let a = tree.new_scope(None, ScopeKind::With(ExprId(0)), Vec::new()).unwrap();
    let b = tree.new_scope(Some(a), ScopeKind::With(ExprId(1)), Vec::new()).unwrap();
    let rec = tree.new_scope(Some(b), ScopeKind::RecAttrset, names(&[("k", 3)])).unwrap();
    tree.set_scope(ExprId(3), rec);
    assert_eq!(tree.resolve_name(ExprId(3), "x", &builtins()), Resolution::WithExpr(ExprId(1)));
    assert_eq!(tree.resolve_name(ExprId(3), "k", &builtins()), Resolution::Definition(ExprId(3)));
}

#[test]
fn builtins_come_between_definitions_and_with() {
    let mut tree = ScopeTree::new();
    let group = tree.new_scope(None, ScopeKind::LetGroup, names(&[("map", 1)])).unwrap();
    let with = tree.new_scope(Some(group), ScopeKind::With(ExprId(2)), Vec::new()).unwrap();
    tree.set_scope(ExprId(3), with);
    assert_eq!(tree.resolve_name(ExprId(3), "map", &builtins()), Resolution::Definition(ExprId(1)));
    assert_eq!(tree.resolve_name(ExprId(3), "true", &builtins()), Resolution::Builtin("true".into()));
    assert_eq!(tree.resolve_name(ExprId(3), "tru", &builtins()), Resolution::WithExpr(ExprId(2)));
    assert_eq!(tree.resolve_name(ExprId(9), "true", &builtins()), Resolution::Builtin("true".into()));
    assert_eq!(tree.resolve_name(ExprId(9), "tru", &builtins()), Resolution::Undefined);
    assert_eq!(tree.resolve_name(ExprId(9), "true", &Vec::new()), Resolution::Undefined);
}

#[test]
fn the_first_of_two_definitions_in_one_scope_counts() {
    let mut tree = ScopeTree::new();
    let group = tree.new_scope(None, ScopeKind::LetGroup, names(&[("a", 1), ("a", 2)])).unwrap();
    tree.set_scope(ExprId(3), group);
    assert_eq!(tree.resolve_name(ExprId(3), "a", &builtins()), Resolution::Definition(ExprId(1)));
}

#[test]
fn scopes_that_cannot_be_are_refused() {
    let mut tree = ScopeTree::new();
    assert_eq!(tree.new_scope(Some(ScopeId(0)), ScopeKind::Lambda, Vec::new()), None);
    assert_eq!(tree.new_scope(None, ScopeKind::With(ExprId(0)), names(&[("x", 1)])), None);
    assert!(!tree.set_scope(ExprId(0), ScopeId(0)));
    assert_eq!(tree.new_scope(None, ScopeKind::Lambda, Vec::new()), Some(ScopeId(0)));
    assert_eq!(tree.new_scope(Some(ScopeId(1)), ScopeKind::Lambda, Vec::new()), None);
    assert!(tree.set_scope(ExprId(7), ScopeId(0)));
    assert!(!tree.set_scope(ExprId(7), ScopeId(1)));
    assert_eq!(tree.scope_for_expr(ExprId(7)), Some(ScopeId(0)));
}
