use site_app::object_key::object_key;
use site_app::upload::{finish_upload, new_upload, prepare_upload};

fn s(x: &str) -> Option<String> {
    Some(x.to_string())
}

#[test]
fn object_key_names_the_ulid() {
    assert_eq!(object_key(0), "/00000000000000000000000000.json");
    assert_eq!(object_key(1), "/00000000000000000000000001.json");
    assert_eq!(object_key(32), "/00000000000000000000000010.json");
    assert_eq!(object_key(u128::MAX), "/7ZZZZZZZZZZZZZZZZZZZZZZZZZ.json");
    assert_eq!(
        object_key(1873526660931231682191479120471901695),
        "/01D39ZY06FGSCTVN4T2V9PKHFZ.json"
    );
}

#[test]
fn distinct_ids_give_distinct_keys() {
    assert_ne!(object_key(31), object_key(32));
    assert_ne!(object_key(0), object_key(u128::MAX));
}

#[test]
fn scenario_successful_submission() {
    let req = prepare_upload(s("Jane"), s("Doe"), s("jane@example.com"), s("555-1234"), s(""), 1);
    assert_eq!(req.path, "/00000000000000000000000001.json");
    assert_eq!(
        req.contents,
        r#"{"first_name":"Jane","last_name":"Doe","email":"jane@example.com","phone":"555-1234","note":""}"#
    );
    let answer = finish_upload(Ok(()));
    assert_eq!(answer.ok().unwrap(), "/thankyou");
}

#[test]
fn scenario_all_fields_absent() {
    let req = prepare_upload(None, None, None, None, None, 7);
    assert_eq!(
        req.contents,
        r#"{"first_name":null,"last_name":null,"email":null,"phone":null,"note":null}"#
    );
    assert!(finish_upload(Ok(())).is_ok());
}

#[test]
fn scenario_permission_failure() {
    let answer = finish_upload(Err("PermissionDenied: access denied to bucket".to_string()));
    let failure = match answer {
        Ok(_) => panic!("a failed write must not redirect"),
        Err(f) => f,
    };
    assert_eq!(failure.message(), "failed to upload contact");
    assert_eq!(
        failure.log_line(),
        "failed to upload contact: PermissionDenied: access denied to bucket"
    );
    assert!(failure.log_line().contains("access denied"));
    assert_eq!(failure.cause, "PermissionDenied: access denied to bucket");
}

#[test]
fn repeated_identical_submissions_get_different_keys() {
    let a = new_upload(s("Jane"), None, None, None, None);
    let b = new_upload(s("Jane"), None, None, None, None);
    assert_eq!(a.contents, b.contents);
    assert_ne!(a.path, b.path);
    for req in [&a, &b] {
        assert!(req.path.starts_with('/'));
        assert!(req.path.ends_with(".json"));
        assert_eq!(req.path.len(), 32);
    }
}

#[test]
fn same_fields_same_id_give_the_same_write() {
    let a = prepare_upload(s("x"), None, None, None, s("y"), 99);
    let b = prepare_upload(s("x"), None, None, None, s("y"), 99);
    assert_eq!(a.path, b.path);
    assert_eq!(a.contents, b.contents);
}
