use tracestore::file_parsing::{name_to_fqn, GraphModule, NameError};

fn sample_modules() -> Vec<GraphModule> {
    vec![
        GraphModule { name: "".to_string(), parent: None },
        GraphModule { name: "animal".to_string(), parent: Some("".to_string()) },
        GraphModule { name: "dog".to_string(), parent: Some("animal".to_string()) },
    ]
}

#[test]
fn fqn_discovery() {
    let modules = sample_modules();
    assert!(name_to_fqn("error", &modules).is_err());
    assert_eq!(name_to_fqn("::error", &modules).unwrap(), "::error");
    assert_eq!(name_to_fqn("animal::error", &modules).unwrap(), "::animal::error");
    assert_eq!(name_to_fqn("dog::error", &modules).unwrap(), "::animal::dog::error");
}

#[test]
fn unknown_module_is_reported() {
    let modules = sample_modules();
    assert_eq!(name_to_fqn("cat::error", &modules).unwrap_err(), NameError::UnknownModule);
}

#[test]
fn circular_modules_are_reported() {
    let modules = vec![
        GraphModule { name: "a".to_string(), parent: Some("b".to_string()) },
        GraphModule { name: "b".to_string(), parent: Some("a".to_string()) },
    ];
    assert_eq!(name_to_fqn("a::event", &modules).unwrap_err(), NameError::CircularModules);
}
