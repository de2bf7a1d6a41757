use spell_codec::dictionary::{bytes_eq, index_of, name_at, BUILTIN_COUNT};

#[test]
fn dictionary_has_43_names_in_order() {
    let names = [
        "_target", "_number", "_number1", "_number2", "_number3", "_number4", "_vector1",
        "_vector2", "_vector3", "_vector4", "_position", "_min", "_max", "_power", "_x", "_y",
        "_z", "_radius", "_distance", "_time", "_base", "_ray", "_vector", "_axis", "_angle",
        "_pitch", "_instrument", "_volume", "_list1", "_list2", "_list", "_direction", "_from1",
        "_from2", "_to1", "_to2", "_root", "_toggle", "_mask", "_channel", "_slot", "_ray_end",
        "_ray_start",
    ];
    assert_eq!(BUILTIN_COUNT, 43);
    assert_eq!(names.len(), 43);
    for (i, name) in names.iter().enumerate() {
        assert_eq!(name_at(i as u8), *name);
        assert_eq!(index_of(name), Some(i as u8));
    }
}

#[test]
fn index_of_matches_exactly() {
    assert_eq!(index_of("_radius"), Some(17));
    assert_eq!(index_of("_target"), Some(0));
    assert_eq!(index_of("_ray_start"), Some(42));
    assert_eq!(index_of("_custom_thing"), None);
    assert_eq!(index_of("_Target"), None);
    assert_eq!(index_of("_targe"), None);
    assert_eq!(index_of("_target "), None);
    assert_eq!(index_of("target"), None);
    assert_eq!(index_of(""), None);
    assert_eq!(index_of("_list"), Some(30));
    assert_eq!(index_of("_list1"), Some(28));
}

#[test]
fn bytes_eq_compares_contents() {
    assert!(bytes_eq(b"", b""));
    assert!(bytes_eq(b"abc", b"abc"));
    assert!(!bytes_eq(b"abc", b"abd"));
    assert!(!bytes_eq(b"abc", b"ab"));
    assert!(!bytes_eq(b"", b"a"));
}
