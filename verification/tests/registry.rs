use ldtk_scene::registry::{EntityRegistry, IntCellRegistry};

#[test]
fn entity_lookup_returns_exact_match() {
    let mut reg: EntityRegistry<i32> = EntityRegistry::new(0);
    reg.register(String::from("Ground"), String::from("Player"), 7);
    reg.register(String::from("Sky"), String::from("Bird"), 9);
    assert_eq!(reg.resolve(&String::from("Ground"), &String::from("Player")), 7);
    assert_eq!(reg.resolve(&String::from("Sky"), &String::from("Bird")), 9);
}

#[test]
fn unregistered_entity_falls_back_to_default() {
    // an entity with no registered behavior for its (layer, identifier)
    // pair resolves to the default behavior, with no error raised
    let mut reg: EntityRegistry<i32> = EntityRegistry::new(-1);
    reg.register(String::from("Ground"), String::from("Player"), 7);
    assert_eq!(reg.resolve(&String::from("Ground"), &String::from("Ghost")), -1);
    // the layer identifier must match too: a behavior registered for one
    // layer never applies under a different layer identifier
    assert_eq!(reg.resolve(&String::from("Sky"), &String::from("Player")), -1);
}

#[test]
fn later_entity_registration_wins() {
    let mut reg: EntityRegistry<i32> = EntityRegistry::new(0);
    reg.register(String::from("Ground"), String::from("Player"), 7);
    reg.register(String::from("Ground"), String::from("Player"), 8);
    assert_eq!(reg.resolve(&String::from("Ground"), &String::from("Player")), 8);
}

#[test]
fn int_cell_lookup_matches_layer_and_value() {
    let mut reg: IntCellRegistry<i32> = IntCellRegistry::new(0);
    reg.register(String::from("Collision"), 1, 11);
    reg.register(String::from("Collision"), 2, 22);
    assert_eq!(reg.resolve(&String::from("Collision"), 1), 11);
    assert_eq!(reg.resolve(&String::from("Collision"), 2), 22);
    assert_eq!(reg.resolve(&String::from("Collision"), 3), 0);
    assert_eq!(reg.resolve(&String::from("Zones"), 1), 0);
}
