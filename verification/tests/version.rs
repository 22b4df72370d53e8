use ygo_destiny::error::{Error, ParseError};
use ygo_destiny::json::Json;
use ygo_destiny::version::{
    get_upstream_version, new_version_available, read_upstream_version, start_version_check,
    update_version, version_from_json, version_record, DBVersion, VersionCheck,
};

#[test]
fn upstream_version_is_read_from_the_list() {
    assert_eq!(get_upstream_version("[{\"database_version\":\"1.2.3\"}]"), "1.2.3");
    assert_eq!(
        get_upstream_version(" [ {\"last_update\":\"x\",\"database_version\":\" 7 \"} ] "),
        " 7 "
    );
    assert_eq!(
        read_upstream_version("[{\"database_version\":\"1.2.3\"}]"),
        Some("1.2.3".to_string())
    );
    assert_eq!(read_upstream_version("[{\"database_version\":\"\"}]"), Some(String::new()));
}

#[test]
fn empty_or_malformed_version_list_has_no_token() {
    assert_eq!(read_upstream_version("[]"), None);
    assert_eq!(read_upstream_version("{\"database_version\":\"1\"}"), None);
    assert_eq!(read_upstream_version("[{\"database_version\":3}]"), None);
    assert_eq!(read_upstream_version("[{\"version\":\"1\"}]"), None);
    assert_eq!(read_upstream_version("[\"1.2.3\"]"), None);
    assert_eq!(read_upstream_version("<html>"), None);
    assert_eq!(read_upstream_version(""), None);
}

#[test]
fn version_list_of_several_records_has_no_token() {
    assert_eq!(
        read_upstream_version("[{\"database_version\":\"1\"},{\"database_version\":\"2\"}]"),
        None
    );
    assert_eq!(
        read_upstream_version("[{\"database_version\":\"1\"},{\"database_version\":\"1\"}]"),
        None
    );
}

#[test]
fn version_record_is_read_from_a_document() {
    let record = Json::Object(vec![
        ("database_version".to_string(), Json::Text("4".to_string())),
        ("database_version".to_string(), Json::Text("5".to_string())),
    ]);
    let list = Json::Array(vec![record]);
    assert_eq!(version_record(&list), Some(DBVersion { database_version: "4".to_string() }));
    assert_eq!(version_from_json(&list), "4");
    assert_eq!(version_record(&Json::Array(vec![])), None);
    assert_eq!(version_record(&Json::Array(vec![Json::Null])), None);
    assert_eq!(version_record(&Json::Text("4".to_string())), None);
}

#[test]
fn absent_local_version_needs_no_upstream() {
    assert_eq!(start_version_check(&None), VersionCheck::Decided(true));
    assert_eq!(start_version_check(&Some("1".to_string())), VersionCheck::NeedsUpstream);
    assert_eq!(new_version_available(&None, &Err(Error::Network)), Ok(true));
    assert_eq!(new_version_available(&None, &Ok("1".to_string())), Ok(true));
}

#[test]
fn versions_are_compared_exactly() {
    let local = Some("1.2.3".to_string());
    assert_eq!(new_version_available(&local, &Ok("1.2.3".to_string())), Ok(false));
    assert_eq!(new_version_available(&local, &Ok("1.2.3 ".to_string())), Ok(true));
    assert_eq!(new_version_available(&local, &Ok("1.2.3\n".to_string())), Ok(true));
    assert_eq!(new_version_available(&local, &Ok("1.2.4".to_string())), Ok(true));
    assert_eq!(
        new_version_available(&Some("1.2.4".to_string()), &Ok("1.2.3".to_string())),
        Ok(true)
    );
    assert_eq!(new_version_available(&local, &Err(Error::Network)), Err(Error::Network));
    assert_eq!(
        new_version_available(&local, &Err(Error::Parse(ParseError::Document))),
        Err(Error::Parse(ParseError::Document))
    );
}

#[test]
fn update_version_names_the_new_version() {
    let local = Some("7".to_string());
    assert_eq!(update_version(&local, Ok("8".to_string())), Some("8".to_string()));
    assert_eq!(update_version(&local, Ok("7".to_string())), None);
    assert_eq!(update_version(&None, Ok("7".to_string())), Some("7".to_string()));
    assert_eq!(update_version(&None, Err(Error::Network)), None);
    assert_eq!(DBVersion { database_version: "9".to_string() }.get_version(), "9");
}
