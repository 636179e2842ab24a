use outpack::hash::{hash_data, HashAlgorithm};
use outpack::responses::{status_code, ErrorKind, FailResponse, OutpackError, SuccessResponse};
use outpack::store::{file_path, get_missing_files, put_file, PutAction};

#[test]
fn can_get_path() {
    let hash = "sha256:e9aa9f2212ab";
    let res = file_path("root", hash).unwrap();
    assert_eq!(res, "root/.outpack/files/sha256/e9/aa9f2212ab");
}

#[test]
fn path_propagates_error_on_invalid_hash() {
    let hash = "sha256";
    let res = file_path("root", hash);
    assert!(res.is_err());
    assert_eq!(res.unwrap_err().to_string(), "invalid hash 'sha256'");
}

#[test]
fn path_needs_two_digits_and_joins_roots() {
    assert!(file_path("root", "md5:1").is_err());
    assert_eq!(file_path("root/", "md5:12").unwrap(), "root/.outpack/files/md5/12/");
    assert_eq!(file_path("", "md5:1234").unwrap(), ".outpack/files/md5/12/34");
}

#[test]
fn missing_files_keep_order_and_collapse_duplicates() {
    let wanted = vec![
        String::from("sha256:b189579a9326f585d308304bd9e03326be5d395ac71b31df359ab8bac408d248"),
        String::from("sha256:a189579a9326f585d308304bd9e03326be5d395ac71b31df359ab8bac408d247"),
        String::from("sha256:a189579a9326f585d308304bd9e03326be5d395ac71b31df359ab8bac408d247"),
    ];
    let present = vec![true, false, false];
    let res = get_missing_files("root", &wanted, &present).unwrap();
    assert_eq!(res, vec![wanted[1].clone()]);
}

#[test]
fn missing_files_propagates_errors() {
    let wanted = vec![String::from("md5:12"), String::from("badhash")];
    let res = get_missing_files("root", &wanted, &vec![false, false]);
    let e = res.unwrap_err();
    assert_eq!(e.detail, "invalid hash 'badhash'");
    assert_eq!(e.kind, Some(ErrorKind::InvalidInput));
}

#[test]
fn put_file_is_idempotent() {
    let data = b"Testing 123.";
    let hash = hash_data(data, HashAlgorithm::Sha256).to_string();
    let expected = file_path("root", &hash).unwrap();
    match put_file("root", data, &hash, false).unwrap() {
        PutAction::MoveTo(p) => assert_eq!(p, expected),
        PutAction::Discard => panic!("a new file should be moved into place"),
    }
    assert!(matches!(put_file("root", data, &hash, true).unwrap(), PutAction::Discard));
}

#[test]
fn put_file_validates_hash() {
    let res = put_file("root", b"Testing 123.", "badhash", false);
    assert_eq!(
        res.unwrap_err().to_string(),
        "Hash does not match file contents. Expected 'badhash'"
    );
    let other = hash_data(b"other", HashAlgorithm::Sha256).to_string();
    let e = put_file("root", b"Testing 123.", &other, false).unwrap_err();
    assert_eq!(e.kind, Some(ErrorKind::InvalidInput));
    assert_eq!(e.detail, format!("Hash does not match file contents. Expected '{}'", other));
    let short = hash_data(b"Testing 123.", HashAlgorithm::Md5).to_string();
    let short = &short[..5];
    assert!(put_file("root", b"x", short, false).is_err());
}

#[test]
fn errors_map_to_status_codes() {
    let nf = OutpackError::new(ErrorKind::NotFound, String::from("x"));
    let bad = OutpackError::new(ErrorKind::InvalidInput, String::from("x"));
    let other = OutpackError::new(ErrorKind::InvalidData, String::from("x"));
    assert_eq!(status_code(&nf), 404);
    assert_eq!(status_code(&bad), 400);
    assert_eq!(status_code(&other), 500);
    assert_eq!(nf.error, "entity not found");
    let f = FailResponse::from(bad);
    assert_eq!(f.status, "failure");
    assert!(f.data.is_none());
    assert_eq!(f.errors.unwrap().len(), 1);
    let s = SuccessResponse::new(3);
    assert_eq!(s.status, "success");
    assert_eq!(s.data, 3);
}
