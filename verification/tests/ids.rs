use oxidarr::ids::{AppId, IndexerId, RemoteIndexerId};

#[test]
fn displays_as_the_inner_value() {
    assert_eq!(AppId(3).to_string(), "3");
}

#[test]
fn negative_and_extreme_ids_display_in_decimal() {
    assert_eq!(IndexerId(-42).to_string(), "-42");
    assert_eq!(RemoteIndexerId(i32::MAX).to_string(), "2147483647");
    assert_eq!(RemoteIndexerId(i32::MIN).to_string(), "-2147483648");
}
