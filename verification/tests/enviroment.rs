use exprlang::enviroment::Enviroment;
use exprlang::object::Object;
use std::rc::Rc;

#[test]
fn a_new_scope_binds_nothing() {
    let env = Enviroment::new();
    assert_eq!(env.get("x"), None);
    assert_eq!(env.get(""), None);
}

#[test]
fn insert_binds_and_rebinds() {
    let mut env = Enviroment::new();
    env.insert("x", Object::Float(1));
    env.insert("y", Object::Bool(true));
    assert_eq!(env.get("x"), Some(&Object::Float(1)));
    assert_eq!(env.get("y"), Some(&Object::Bool(true)));
    env.insert("x", Object::Nothing);
    assert_eq!(env.get("x"), Some(&Object::Nothing));
    assert_eq!(env.get("y"), Some(&Object::Bool(true)));
    assert_eq!(env.get("z"), None);
}

#[test]
fn lookup_goes_outwards() {
    let mut root = Enviroment::new();
    root.insert("x", Object::Float(1));
    root.insert("y", Object::Float(2));
    let root = Rc::new(root);
    let mut middle = Enviroment::with_parent(root.clone());
    middle.insert("y", Object::Float(20));
    let middle = Rc::new(middle);
    let mut inner = Enviroment::with_parent(middle.clone());
    inner.insert("z", Object::Float(300));

    assert_eq!(inner.get("x"), Some(&Object::Float(1)));
    assert_eq!(inner.get("y"), Some(&Object::Float(20)));
    assert_eq!(inner.get("z"), Some(&Object::Float(300)));
    assert_eq!(inner.get("w"), None);
}

#[test]
fn binding_touches_the_innermost_scope_only() {
    let mut root = Enviroment::new();
    root.insert("x", Object::Float(1));
    let root = Rc::new(root);
    let mut inner = Enviroment::with_parent(root.clone());
    inner.insert("x", Object::Float(2));
    inner.insert("y", Object::Float(3));
    assert_eq!(inner.get("x"), Some(&Object::Float(2)));
    assert_eq!(root.get("x"), Some(&Object::Float(1)));
    assert_eq!(root.get("y"), None);
}

#[test]
fn values_can_be_copied() {
    let values = vec![
        Object::String("text".to_string()),
        Object::Symbol("x".to_string()),
        Object::Float(90.0f64.to_bits()),
        Object::Bool(false),
        Object::Nothing,
    ];
    for value in &values {
        assert_eq!(&value.clone(), value);
    }
}
