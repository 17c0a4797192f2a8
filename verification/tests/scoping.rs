use yascl::environment::Environment;
use yascl::object::{render_object, Object};

fn stored(env: &Environment, h: usize, name: &str) -> Option<String> {
    env.get(h, name).map(|v| render_object(&v))
}

#[test]
fn get_walks_the_chain_outward() {
    let mut env = Environment::new();
    env.set(0, "a", Object::Integer(1));
    let child = env.extend(0);
    assert_eq!(stored(&env, child, "a"), Some("1".to_string()));
    assert_eq!(stored(&env, 0, "a"), Some("1".to_string()));
    assert_eq!(stored(&env, child, "b"), None);
}

#[test]
fn set_shadows_in_the_current_frame_only() {
    let mut env = Environment::new();
    env.set(0, "a", Object::Integer(1));
    let child = env.extend(0);
    env.set(child, "a", Object::Integer(2));
    assert_eq!(stored(&env, child, "a"), Some("2".to_string()));
    assert_eq!(stored(&env, 0, "a"), Some("1".to_string()));
}

#[test]
fn set_overwrites_in_place() {
    let mut env = Environment::new();
    env.set(0, "a", Object::Integer(1));
    env.set(0, "a", Object::Integer(5));
    assert_eq!(stored(&env, 0, "a"), Some("5".to_string()));
}

#[test]
fn mutate_overwrites_the_nearest_existing_binding() {
    let mut env = Environment::new();
    env.set(0, "a", Object::Integer(1));
    let middle = env.extend(0);
    env.set(middle, "a", Object::Integer(2));
    let inner = env.extend(middle);
    let r = env.mutate(inner, "a", Object::Integer(9));
    assert!(matches!(r, Some(Object::Integer(9))));
    // The middle binding changed; the root one did not.
    assert_eq!(stored(&env, middle, "a"), Some("9".to_string()));
    assert_eq!(stored(&env, 0, "a"), Some("1".to_string()));
    // No binding appeared in the inner frame: removing the middle frame
    // from the chain is not possible, but looking the name up from the
    // inner frame still finds the middle frame's value, not a new one.
    assert_eq!(stored(&env, inner, "a"), Some("9".to_string()));
}

#[test]
fn mutate_of_an_undefined_name_creates_nothing() {
    let mut env = Environment::new();
    env.set(0, "a", Object::Integer(1));
    let child = env.extend(0);
    let r = env.mutate(child, "missing", Object::Integer(9));
    assert!(r.is_none());
    assert_eq!(stored(&env, child, "missing"), None);
    assert_eq!(stored(&env, 0, "missing"), None);
    assert_eq!(stored(&env, child, "a"), Some("1".to_string()));
}

#[test]
fn values_are_copied_out_on_get() {
    let mut env = Environment::new();
    env.set(0, "xs", Object::Array(vec![Object::Integer(1)]));
    let mut taken = match env.get(0, "xs") {
        Some(Object::Array(vs)) => vs,
        other => panic!("unexpected {:?}", other),
    };
    taken.push(Object::Integer(2));
    // The stored array is unchanged.
    assert_eq!(stored(&env, 0, "xs"), Some("[1]".to_string()));
}
