use agent_works::json::Json;

#[test]
fn json_text_round_trip() {
    let j = Json::parse("{\"b\": [1, -2, 2.5, null, true], \"a\": \"x\\n\"}").unwrap();
    assert_eq!(j.get_str("a"), Some("x\n"));
    assert_eq!(
        j.get_array("b").unwrap(),
        &vec![
            Json::UInt(1),
            Json::NegInt(-2),
            Json::Real("2.5".to_string()),
            Json::Null,
            Json::Bool(true),
        ]
    );
    assert_eq!(Json::parse(&j.to_text()).unwrap(), j);
    assert_eq!(j.copy(), j);
}

#[test]
fn json_numbers_keep_their_range() {
    for s in ["0", "18446744073709551615", "-9223372036854775808", "1e300", "0.1"] {
        let j = Json::parse(s).unwrap();
        assert_eq!(Json::parse(&j.to_text()).unwrap(), j, "{s}");
    }
    assert_eq!(Json::parse("18446744073709551615"), Ok(Json::UInt(u64::MAX)));
    assert_eq!(Json::NegInt(-7).to_text(), "-7");
}

#[test]
fn json_laid_out_over_lines() {
    let j = Json::parse("{\"b\": [1], \"a\": {}}").unwrap();
    assert_eq!(j.to_pretty_text().unwrap(), "{\n  \"a\": {},\n  \"b\": [\n    1\n  ]\n}");
}

#[test]
fn bad_json_is_an_error() {
    let e = Json::parse("{").unwrap_err();
    assert!(e.contains("EOF while parsing"), "{e}");
    assert!(Json::parse("1 2").is_err());
}

#[test]
fn members_of_other_values_are_absent() {
    let j = Json::Array(vec![Json::Str("a".to_string())]);
    assert!(j.get("a").is_none() && j.as_str().is_none() && j.get_array("a").is_none());
    assert_eq!(j.as_array().unwrap().len(), 1);
}
