use outpack::config::{
    check_config, get_local_location_id, outpack_init, preflight, Config, Core, Location,
};
use outpack::hash::HashAlgorithm;
use outpack::responses::ApiRoot;

fn make_config(
    hash_algorithm: HashAlgorithm,
    path_archive: Option<String>,
    use_file_store: bool,
    require_complete_tree: bool,
) -> Config {
    let schema_version = String::from("0.1.0");
    let location: Vec<Location> = Vec::new();
    let core = Core { hash_algorithm, path_archive, use_file_store, require_complete_tree };
    Config { schema_version, location, core }
}

fn example_config() -> Config {
    let mut cfg = Config::new(None, true, true);
    cfg.location = vec![
        Location { name: String::from("local"), id: String::from("be7a7bcb"), priority: 0 },
        Location { name: String::from("other"), id: String::from("ae7a7bcb"), priority: 10 },
    ];
    cfg
}

#[test]
fn can_validate_config() {
    let res = check_config(&make_config(HashAlgorithm::Sha1, None, true, true));
    assert_eq!(
        res,
        Err(String::from(
            "Outpack must be configured to use hash algorithm 'sha256', but you are using 'sha1'"
        ))
    );
    let res = check_config(&make_config(HashAlgorithm::Sha256, None, false, true));
    assert_eq!(res, Err(String::from("Outpack must be configured to use a file store")));
    let res = check_config(&make_config(HashAlgorithm::Sha256, None, true, false));
    assert_eq!(res, Err(String::from("Outpack must be configured to require a complete tree")));
    let res = check_config(&make_config(
        HashAlgorithm::Sha256,
        Some(String::from("archive")),
        true,
        true,
    ));
    assert_eq!(
        res,
        Err(String::from(
            "Outpack must be configured to *not* use an archive, but your path_archive is 'archive'"
        ))
    );
    assert_eq!(check_config(&make_config(HashAlgorithm::Sha256, None, true, true)), Ok(()));
}

#[test]
fn preflight_reports_missing_root_and_bad_config() {
    let good: Result<Config, String> = Ok(make_config(HashAlgorithm::Sha256, None, true, true));
    assert_eq!(preflight("r", false, &good), Err(String::from("Outpack root not found at 'r'")));
    assert_eq!(preflight("r", true, &good), Ok(()));
    let bad: Result<Config, String> = Err(String::from("oops"));
    assert_eq!(
        preflight("r", true, &bad),
        Err(String::from("Failed to read outpack config from 'r': oops"))
    );
}

#[test]
fn can_find_local_id() {
    assert_eq!(get_local_location_id(&example_config()).unwrap(), "be7a7bcb");
    let none = make_config(HashAlgorithm::Sha256, None, true, true);
    assert!(get_local_location_id(&none).is_err());
}

#[test]
fn can_create_empty_config() {
    let plan = outpack_init("p", None, None, true, true).unwrap().unwrap();
    let expected = Config::new(None, true, true);
    assert!(plan.config.core.same_as(&expected.core));
    assert_eq!(plan.config.schema_version, expected.schema_version);
    assert_eq!(
        plan.directories,
        vec![
            String::from("p/.outpack"),
            String::from("p/.outpack/location/local"),
            String::from("p/.outpack/metadata"),
            String::from("p/.outpack/files"),
        ]
    );
}

#[test]
fn can_reinit_an_existing_repo() {
    let plan = outpack_init("p", None, Some(String::from("archive")), false, false)
        .unwrap()
        .unwrap();
    assert_eq!(plan.directories.len(), 3);
    assert!(plan.config.core.same_as(&Config::new(Some(String::from("archive")), false, false).core));
    let again = outpack_init("p", Some(&plan.config), Some(String::from("archive")), false, false);
    assert!(again.unwrap().is_none());
}

#[test]
fn error_if_config_has_changed() {
    let plan = outpack_init("p", None, Some(String::from("archive")), false, false)
        .unwrap()
        .unwrap();
    let res = outpack_init("p", Some(&plan.config), None, true, true);
    assert!(res.is_err());
    assert_eq!(res.unwrap_err().to_string(), "Trying to change config on reinitialisation");
}

#[test]
fn api_root_carries_schema_version() {
    assert_eq!(ApiRoot::new(String::from("0.1.1")).schema_version, "0.1.1");
}
