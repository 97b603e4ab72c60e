use creeper::id::{Id, IdError};

#[test]
fn valid_identifiers() {
    for s in ["a", "minecraft", "a1", "a-b", "a_b", "z9-_", "fabric-api"] {
        let id = Id::from_str(s).unwrap();
        assert_eq!(id.as_str(), s);
        assert_eq!(id.to_string(), s);
    }
}

#[test]
fn empty_identifier() {
    assert_eq!(Id::from_str(""), Err(IdError::Empty));
}

#[test]
fn identifier_must_start_with_a_letter() {
    for s in ["1a", "-a", "_a", "A", "Abc", " a", "é"] {
        assert_eq!(Id::from_str(s), Err(IdError::BadStart));
    }
}

#[test]
fn identifier_characters() {
    for s in ["aB", "a b", "a.b", "a/b", "aé", "a+"] {
        assert_eq!(Id::from_str(s), Err(IdError::InvalidCharacter));
    }
}

#[test]
fn indexed_path_of_long_identifier() {
    assert_eq!(Id::minecraft().indexed_path(), "mi/ne/minecraft");
    assert_eq!(Id::from_str("fabric-api").unwrap().indexed_path(), "fa/br/fabric-api");
}

#[test]
fn indexed_path_skips_what_is_no_letter() {
    assert_eq!(Id::from_str("a1-b_c").unwrap().indexed_path(), "ab/cx/a1-b_c");
    assert_eq!(Id::from_str("a-----b").unwrap().indexed_path(), "ab/xx/a-----b");
}

#[test]
fn indexed_path_pads_with_x() {
    assert_eq!(Id::from_str("a").unwrap().indexed_path(), "ax/xx/a");
    assert_eq!(Id::from_str("ab").unwrap().indexed_path(), "ab/xx/ab");
    assert_eq!(Id::from_str("abc").unwrap().indexed_path(), "ab/cx/abc");
    assert_eq!(Id::from_str("a123").unwrap().indexed_path(), "ax/xx/a123");
}

#[test]
fn indexed_path_levels_have_two_characters() {
    for s in ["a", "ab", "q-1", "minecraft", "neoforge", "x_y_z", "a0000000"] {
        let id = Id::from_str(s).unwrap();
        let path = id.indexed_path();
        let parts: Vec<&str> = path.split('/').collect();
        assert_eq!(parts.len(), 3);
        assert_eq!(parts[0].len(), 2);
        assert_eq!(parts[1].len(), 2);
        assert_eq!(parts[2], s);
        assert_eq!(path, id.indexed_path());
    }
}

#[test]
fn well_known_identifiers() {
    assert_eq!(Id::minecraft().as_str(), "minecraft");
    assert_eq!(Id::vanilla().as_str(), "vanilla");
    assert_eq!(Id::forge().as_str(), "forge");
    assert_eq!(Id::neoforge().as_str(), "neoforge");
    assert_eq!(Id::fabric().as_str(), "fabric");
    assert_eq!(Id::from_str("vanilla").unwrap(), Id::vanilla());
}

#[test]
fn same_compares_the_text() {
    assert!(Id::forge().same(&Id::from_str("forge").unwrap()));
    assert!(!Id::forge().same(&Id::neoforge()));
    assert_eq!(Id::forge().clone(), Id::forge());
}
