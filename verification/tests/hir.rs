use nil::hir::AstPtr;
use nil::hir::Module;
use nil::nameres::ExprId;
use nil::text::TextRange;
use nil::text::TextSize;

fn ptr(kind: u16, start: u32, end: u32) -> AstPtr {
    AstPtr { kind, range: TextRange::new(TextSize::new(start), TextSize::new(end)) }
}

#[test]
fn every_expression_has_its_entry_in_the_source_map() {
    let mut module: Module<&str> = Module::new();
    assert_eq!(module.len(), 0);
    assert_eq!(module.alloc_expr("1", ptr(7, 8, 9)), Some(ExprId(0)));
    assert_eq!(module.alloc_expr("x", ptr(3, 14, 15)), Some(ExprId(1)));
    assert_eq!(module.alloc_expr("x", ptr(3, 18, 19)), Some(ExprId(2)));
    assert_eq!(module.alloc_expr("x + x", ptr(5, 14, 19)), Some(ExprId(3)));
    assert_eq!(module.len(), 4);
    for id in 0..4 {
        let p = module.ptr_for_expr(ExprId(id)).unwrap();
        assert_eq!(module.expr_for_ptr(p), Some(ExprId(id)));
    }
    for p in [ptr(7, 8, 9), ptr(3, 14, 15), ptr(3, 18, 19), ptr(5, 14, 19)] {
        let id = module.expr_for_ptr(p).unwrap();
        assert_eq!(module.ptr_for_expr(id), Some(p));
    }
    assert_eq!(module.expr(ExprId(3)), Some(&"x + x"));
    assert_eq!(module.expr(ExprId(4)), None);
    assert_eq!(module.ptr_for_expr(ExprId(4)), None);
    assert_eq!(module.expr_for_ptr(ptr(3, 14, 19)), None);
    assert_eq!(module.expr_for_ptr(ptr(5, 14, 15)), None);
}

#[test]
fn a_pointer_stands_for_one_expression_only() {
    let mut module: Module<u8> = Module::new();
    assert_eq!(module.alloc_expr(1, ptr(1, 0, 1)), Some(ExprId(0)));
    assert_eq!(module.alloc_expr(2, ptr(1, 0, 1)), None);
    assert_eq!(module.len(), 1);
    assert_eq!(module.expr(ExprId(0)), Some(&1));
    assert_eq!(module.alloc_expr(2, ptr(2, 0, 1)), Some(ExprId(1)));
    assert_eq!(module.len(), 2);
}
