use z_sv::ZSV;

#[test]
fn test_from_string() -> Result<(), ()> {
    let j: String = "The Game.".to_owned();
    let _f: ZSV = ZSV::from(j);
    Ok(())
}

#[test]
fn from_str_slice_copies_the_text() {
    let z = ZSV::from("borrowed");
    assert_eq!(z.as_owned_string(), "borrowed");
}

#[test]
fn as_owned_string_is_independent() {
    let z = ZSV::from("original");
    let mut copy = z.as_owned_string();
    copy.push_str(" changed");
    assert_eq!(z.as_owned_string(), "original");
}

#[test]
fn clone_preserves_the_text() {
    let z = ZSV::from("some text");
    let c = z.clone();
    assert_eq!(c, z);
    assert_eq!(c.as_owned_string(), "some text");
}
