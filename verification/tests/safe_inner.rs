use multiversion::safe_inner::{plan_safe_inner, AttrKind, NotUnsafe};

#[test]
fn no_marker_leaves_function_alone() {
    let attrs = [AttrKind::Cfg, AttrKind::Other];
    assert!(plan_safe_inner(&attrs, true, "f").unwrap().is_none());
    assert!(plan_safe_inner(&attrs, false, "f").unwrap().is_none());
}

#[test]
fn marker_on_safe_fn_is_refused() {
    let attrs = [AttrKind::Other, AttrKind::SafeInner];
    assert_eq!(plan_safe_inner(&attrs, false, "f").unwrap_err(), NotUnsafe { attr: 1 });
}

#[test]
fn split_keeps_attributes_and_copies_cfg() {
    let attrs = [AttrKind::Cfg, AttrKind::SafeInner, AttrKind::Other, AttrKind::Cfg, AttrKind::SafeInner];
    let plan = plan_safe_inner(&attrs, true, "square").unwrap().unwrap();
    assert_eq!(plan.marker, 1);
    assert_eq!(plan.unsafe_attrs, vec![0, 2, 3, 4]);
    assert_eq!(plan.safe_attrs, vec![0, 3]);
    assert_eq!(plan.safe_name, "__safe_inner_square");
}
