use outpack::config::{Config, Location};
use outpack::hash::HashAlgorithm;
use outpack::index::{Packet, Parameter, ParameterValue};
use outpack::location::{mark_packet_known, read_location, read_locations, LocationEntry};
use outpack::metadata::{
    get_ids_digest, get_metadata_file, get_metadata_from_date, get_missing_ids, get_packet_index,
    get_sorted_id_string,
};
use outpack::ids::{get_valid_id, is_packet_str};
use outpack::number::Number;
use outpack::responses::ErrorKind;
use sha2::{Digest, Sha256};

fn entry(packet: &str, time: Number) -> LocationEntry {
    LocationEntry {
        packet: String::from(packet),
        time,
        hash: String::from("sha256:af3c863f96898c6c88cee4daa1a6d6cfb756025e70059f5ea4dbe4d9cc5e0e36"),
        schema_version: String::from("0.0.1"),
    }
}

fn example_config() -> Config {
    let mut cfg = Config::new(None, true, true);
    cfg.location = vec![
        Location { name: String::from("local"), id: String::from("be7a7bcb"), priority: 0 },
        Location { name: String::from("other"), id: String::from("ae7a7bcb"), priority: 10 },
    ];
    cfg
}

fn early() -> Number {
    Number { mantissa: 16624805559, exponent: -1 }
}

fn late() -> Number {
    Number { mantissa: 16624805562, exponent: -1 }
}

fn example_dirs() -> Vec<(String, Vec<LocationEntry>)> {
    vec![
        (
            String::from("ae7a7bcb"),
            vec![
                entry("20180818-164043-7cdcde4b", early()),
                entry("20170818-164830-33e0ab01", early()),
                entry("20180220-095832-16a4bbed", early()),
            ],
        ),
        (String::from("be7a7bcb"), vec![entry("20170818-164847-7574883b", late())]),
    ]
}

fn packet(id: &str, name: &str) -> Packet {
    Packet { id: String::from(id), name: String::from(name), parameters: None }
}

fn example_packets() -> Vec<Packet> {
    let mut params1 = packet("20180220-095832-16a4bbed", "modup-201707-params1");
    params1.parameters = Some(vec![
        Parameter { name: String::from("tolerance"), value: ParameterValue::Number(Number { mantissa: 1, exponent: -3 }) },
        Parameter { name: String::from("size"), value: ParameterValue::Number(Number { mantissa: 10, exponent: 0 }) },
        Parameter { name: String::from("disease"), value: ParameterValue::String(String::from("YF")) },
        Parameter { name: String::from("pull_data"), value: ParameterValue::Bool(true) },
    ]);
    vec![
        packet("20180818-164043-7cdcde4b", "modup-201707-queries1"),
        params1,
        packet("20170818-164847-7574883b", "modup-201707-queries1"),
        packet("20170818-164830-33e0ab01", "modup-201707-queries1"),
    ]
}

fn example_ids() -> Vec<String> {
    example_packets().into_iter().map(|p| p.id).collect()
}

#[test]
fn packets_ordered_by_location_order_then_id() {
    let entries = read_locations(&example_config(), example_dirs()).unwrap();
    assert_eq!(entries[0].packet, "20170818-164847-7574883b");
    assert_eq!(entries[1].packet, "20170818-164830-33e0ab01");
    assert_eq!(entries[2].packet, "20180220-095832-16a4bbed");
    assert_eq!(entries[3].packet, "20180818-164043-7cdcde4b");
}

#[test]
fn unconfigured_location_is_an_error() {
    let mut dirs = example_dirs();
    dirs.push((String::from("zzz"), Vec::new()));
    let e = read_locations(&example_config(), dirs).unwrap_err();
    assert_eq!(e.kind, Some(ErrorKind::InvalidData));
}

#[test]
fn read_location_sorts_by_packet() {
    let sorted = read_location(example_dirs().remove(0).1);
    let ids: Vec<&str> = sorted.iter().map(|e| e.packet.as_str()).collect();
    assert_eq!(
        ids,
        vec!["20170818-164830-33e0ab01", "20180220-095832-16a4bbed", "20180818-164043-7cdcde4b"]
    );
}

#[test]
fn can_mark_known() {
    let res = mark_packet_known("20170818-164830-33e0ab01", "sha256:abc", late(), "0.0.1", false)
        .unwrap();
    assert_eq!(res.packet, "20170818-164830-33e0ab01");
    assert_eq!(res.hash, "sha256:abc");
    assert_eq!(res.time, late());
    assert_eq!(res.schema_version, "0.0.1");
}

#[test]
fn marking_known_does_not_overwrite() {
    assert!(mark_packet_known("20170818-164830-33e0ab01", "sha256:abc", late(), "0.0.1", true)
        .is_none());
}

#[test]
fn can_get_packets_from_date() {
    let dirs = example_dirs();
    let entries = read_locations(&example_config(), dirs).unwrap();
    let all = get_metadata_from_date(example_packets(), &entries, None);
    assert_eq!(all.len(), 4);
    let recent = get_metadata_from_date(
        example_packets(),
        &entries,
        Some(Number { mantissa: 1662480556, exponent: 0 }),
    );
    assert_eq!(recent.len(), 1);
    assert_eq!(recent.first().unwrap().id, "20170818-164847-7574883b");
    let recent = get_metadata_from_date(
        example_packets(),
        &entries,
        Some(Number { mantissa: 1662480555, exponent: 0 }),
    );
    assert_eq!(recent.len(), 4);
    assert_eq!(recent[0].id, "20170818-164830-33e0ab01");
    assert_eq!(recent[3].id, "20180818-164043-7cdcde4b");
}

#[test]
fn can_get_packet_index() {
    let mut packets = example_packets();
    packets.push(packet("not-a-packet", "x"));
    let index = get_packet_index(packets);
    assert_eq!(index.packets.len(), 4);
    let ids: Vec<String> = index.packets.iter().map(|p| p.id.clone()).collect();
    assert_eq!(ids[0], "20170818-164830-33e0ab01");
    assert_eq!(ids[1], "20170818-164847-7574883b");
    assert_eq!(ids[2], "20180220-095832-16a4bbed");
    assert_eq!(ids[3], "20180818-164043-7cdcde4b");
}

#[test]
fn ids_are_sorted() {
    let ids = vec![
        String::from("20180818-164847-7574883b"),
        String::from("20170818-164847-7574883b"),
        String::from("20170819-164847-7574883b"),
        String::from("20170819-164847-7574883a"),
    ];
    let id_string = get_sorted_id_string(ids);
    assert_eq!(
        id_string,
        "20170818-164847-7574883b20170819-164847-7574883a\
        20170819-164847-7574883b20180818-164847-7574883b"
    )
}

#[test]
fn can_get_ids_digest_with_config_alg() {
    let digest = get_ids_digest(None, HashAlgorithm::Sha256, example_ids()).unwrap();
    let dat = "20170818-164830-33e0ab0120170818-164847-7574883b20180220-095832-16a4bbed\
    20180818-164043-7cdcde4b";
    let expected = format!("sha256:{:x}", Sha256::new().chain_update(dat).finalize());
    assert_eq!(digest, expected);
}

#[test]
fn can_get_ids_digest_with_given_alg() {
    let digest =
        get_ids_digest(Some(String::from("md5")), HashAlgorithm::Sha256, example_ids()).unwrap();
    let dat = "20170818-164830-33e0ab0120170818-164847-7574883b20180220-095832-16a4bbed\
    20180818-164043-7cdcde4b";
    let expected = format!("md5:{:x}", md5::compute(dat));
    assert_eq!(digest, expected);
}

#[test]
fn ids_digest_ignores_order_and_rejects_unknown_alg() {
    let mut reversed = example_ids();
    reversed.reverse();
    assert_eq!(
        get_ids_digest(None, HashAlgorithm::Sha1, reversed).unwrap(),
        get_ids_digest(None, HashAlgorithm::Sha1, example_ids()).unwrap()
    );
    let e = get_ids_digest(Some(String::from("sha3")), HashAlgorithm::Sha1, example_ids())
        .unwrap_err();
    assert_eq!(e.detail, "algorithm sha3 not found");
}

#[test]
fn metadata_can_get_missing_ids() {
    let known = example_ids();
    let ids = get_missing_ids(
        &known,
        &vec![String::from("20180818-164043-7cdcde4b"), String::from("20170818-164830-33e0ab02")],
    )
    .unwrap();
    assert_eq!(ids.len(), 1);
    assert!(ids.iter().any(|e| e == "20170818-164830-33e0ab02"));

    // check whitespace insensitivity
    let ids = get_missing_ids(
        &known,
        &vec![
            String::from(" 20180818-164043-7cdcde4b"),
            String::from("20170818-164830-33e0ab02\n"),
        ],
    )
    .unwrap();
    assert_eq!(ids.len(), 1);
    assert!(ids.iter().any(|e| e == "20170818-164830-33e0ab02"));
}

#[test]
fn metadata_can_get_missing_unpacked_ids() {
    let unpacked = vec![String::from("20170818-164830-33e0ab01")];
    let ids = get_missing_ids(
        &unpacked,
        &vec![String::from("20170818-164830-33e0ab01"), String::from("20170818-164830-33e0ab02")],
    )
    .unwrap();
    assert_eq!(ids.len(), 1);
    assert!(ids.iter().any(|e| e == "20170818-164830-33e0ab02"));
}

#[test]
fn bad_ids_raise_error() {
    let res = get_missing_ids(
        &example_ids(),
        &vec![String::from("20180818-164043-7cdcde4b"), String::from("20170818-164830-33e0ab0")],
    )
    .map_err(|e| e.kind);
    assert_eq!(Err(Some(ErrorKind::InvalidInput)), res);
}

#[test]
fn can_detect_packet_id() {
    assert_eq!(is_packet_str("1234"), false);
    assert_eq!(is_packet_str("20170818-164830-33e0ab01"), true);
    assert_eq!(is_packet_str("20180818-164847-54699abf"), true);
    assert_eq!(get_valid_id(&String::from("  20180818-164847-54699abf ")).unwrap(), "20180818-164847-54699abf");
    assert_eq!(get_valid_id(&String::from("badid")).unwrap_err().detail, "Invalid packet id 'badid'");
}

#[test]
fn metadata_file_path_or_not_found() {
    assert_eq!(
        get_metadata_file("tests/example", "20180818-164043-7cdcde4b", true).unwrap(),
        "tests/example/.outpack/metadata/20180818-164043-7cdcde4b"
    );
    let e = get_metadata_file("r", "bad-id", false).unwrap_err();
    assert_eq!(e.detail, "packet with id 'bad-id' does not exist");
    assert_eq!(e.kind, Some(ErrorKind::NotFound));
}

#[test]
fn can_test_parameter_equality() {
    let packets = example_packets();
    let packet = packets.iter().find(|p| p.id == "20180220-095832-16a4bbed").unwrap();
    assert_eq!(packet.name, "modup-201707-params1");
    assert_eq!(packet.parameters.as_ref().unwrap().len(), 4);
    let num = |m: i64, e: i64| ParameterValue::Number(Number { mantissa: m, exponent: e });
    let text = |s: &str| ParameterValue::String(String::from(s));
    assert!(packet.parameter_equals("tolerance", &num(1, -3)));
    assert!(!packet.parameter_equals("tolerance", &num(2, -3)));
    assert!(!packet.parameter_equals("tolerance", &num(10, 0)));
    assert!(!packet.parameter_equals("tolerance", &text("0.001")));
    assert!(packet.parameter_equals("disease", &text("YF")));
    assert!(!packet.parameter_equals("disease", &text("HepB")));
    assert!(!packet.parameter_equals("disease", &num(5, -1)));
    assert!(packet.parameter_equals("size", &num(10, 0)));
    assert!(!packet.parameter_equals("size", &num(9, 0)));
    assert!(!packet.parameter_equals("size", &ParameterValue::Bool(true)));
    assert!(packet.parameter_equals("pull_data", &ParameterValue::Bool(true)));
    assert!(!packet.parameter_equals("pull_data", &ParameterValue::Bool(false)));
    assert!(!packet.parameter_equals("pull_data", &text("true")));
}

#[test]
fn unicode_white_space_around_id_is_trimmed() {
    assert_eq!(
        get_valid_id(&String::from("\u{a0}20170818-164830-33e0ab01\u{2029}")).unwrap(),
        "20170818-164830-33e0ab01"
    );
}

#[test]
fn unknown_digest_algorithm_is_named() {
    let e = get_ids_digest(Some(String::from("crc")), HashAlgorithm::Sha256, example_ids()).unwrap_err();
    assert_eq!(e.kind, Some(ErrorKind::InvalidData));
    assert_eq!(e.detail, "algorithm crc not found");
}

#[test]
fn repeated_location_id_takes_first_position() {
    let mut cfg = example_config();
    cfg.location.push(Location { name: String::from("again"), id: String::from("be7a7bcb"), priority: 5 });
    let entries = read_locations(&cfg, example_dirs()).unwrap();
    assert_eq!(entries.len(), 4);
    assert_eq!(entries[0].packet, "20170818-164847-7574883b");
    assert_eq!(entries[3].packet, "20180818-164043-7cdcde4b");
}

#[test]
fn repeated_parameter_names_are_not_well_formed() {
    let mut p = packet("20170818-164830-33e0ab01", "n");
    assert!(p.is_wf());
    p.parameters = Some(vec![
        Parameter { name: String::from("a"), value: ParameterValue::Bool(true) },
        Parameter { name: String::from("a"), value: ParameterValue::Bool(false) },
    ]);
    assert!(!p.is_wf());
    let index = get_packet_index(example_packets());
    assert!(index.is_wf());
}
