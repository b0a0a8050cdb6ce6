use ramon_templates::scope::Scope;

#[test]
fn later_bindings_hide_earlier_ones() {
    let mut scope: Scope<i32> = Scope::new();
    assert_eq!(scope.get("x"), None);
    scope.push("x".to_string(), 1);
    scope.push("y".to_string(), 2);
    assert_eq!(scope.get("x"), Some(&1));
    scope.push("x".to_string(), 3);
    assert_eq!(scope.get("x"), Some(&3));
    assert_eq!(scope.get("y"), Some(&2));
    scope.pop();
    assert_eq!(scope.get("x"), Some(&1));
    scope.pop();
    scope.pop();
    assert_eq!(scope.get("x"), None);
    scope.pop();
    assert_eq!(scope.get("y"), None);
}

#[test]
fn names_are_compared_by_characters() {
    let mut scope: Scope<&str> = Scope::new();
    scope.push("arr".to_string(), "outer");
    assert_eq!(scope.get("ar"), None);
    assert_eq!(scope.get("arrr"), None);
    assert_eq!(scope.get("arr"), Some(&"outer"));
}
