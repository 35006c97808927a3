use std::collections::HashSet;

use arch::voxel::voxel::{voxel_definitions, Voxel};

#[test]
fn def_sanity() {
    for (id, def) in voxel_definitions().iter().enumerate() {
        assert_eq!(def.voxel, Voxel::from_id(id as u16).unwrap());
        assert_eq!(def.voxel.id(), id as u16);
    }
}

#[test]
fn id_sanity() {
    assert_eq!(Voxel::Air.id(), 0);

    for voxel in Voxel::iter() {
        let voxel_id = voxel.id();
        let from_id = Voxel::from_id(voxel_id).unwrap();
        assert_eq!(from_id, voxel);
    }
}

#[test]
fn name_sanity() {
    let mut unique = HashSet::new();
    for voxel in Voxel::iter() {
        let name = voxel.as_name();
        if unique.contains(name) {
            panic!("name exists twice: {:?}", name);
        }

        unique.insert(name);
        let from_name = Voxel::from_name(name).unwrap();
        assert_eq!(from_name, voxel);
    }
}

#[test]
fn from_name_ignores_case_and_whitespace() {
    assert_eq!(Voxel::from_name("  Grass\t"), Some(Voxel::Grass));
    assert_eq!(Voxel::from_name("WATER"), Some(Voxel::Water));
    assert_eq!(Voxel::from_name("wat er"), None);
    assert_eq!(Voxel::from_name(""), None);
    assert_eq!(Voxel::from_name("\u{a0}oil\u{3000}"), Some(Voxel::Oil));
}

#[test]
fn from_id_out_of_range() {
    assert_eq!(Voxel::from_id(9), None);
    assert_eq!(Voxel::type_count(), 9);
}

#[test]
fn properties() {
    assert!(Voxel::Water.is_liquid());
    assert!(Voxel::Air.is_gas());
    assert!(Voxel::Water.denser(Voxel::Oil));
    assert!(!Voxel::Oil.denser(Voxel::Water));
    assert_eq!(Voxel::Stone.starting_health(), 100);
    assert!(!Voxel::Barrier.rendered());
    assert!(Voxel::Sand.is_simulated());
    assert!(!Voxel::Stone.is_simulated());
}
