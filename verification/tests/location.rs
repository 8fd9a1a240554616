use graph_ingest::config::Config;
use graph_ingest::s3::{
    location_from_parts, object_location, LocationError, ObjectLocation, FETCH_TIMEOUT_SECONDS,
};

#[test]
fn host_is_the_bucket_and_path_the_key() {
    assert_eq!(
        object_location("s3://my-bucket/path/to/file.json"),
        Ok(ObjectLocation { bucket: "my-bucket".to_string(), key: "/path/to/file.json".to_string() })
    );
    assert_eq!(
        object_location("https://example.com/a/b.json?x=1#frag"),
        Ok(ObjectLocation { bucket: "example.com".to_string(), key: "/a/b.json".to_string() })
    );
}

#[test]
fn url_without_a_path_has_the_root_as_key() {
    assert_eq!(
        object_location("https://example.com"),
        Ok(ObjectLocation { bucket: "example.com".to_string(), key: "/".to_string() })
    );
}

#[test]
fn text_that_is_no_url_names_no_object() {
    match object_location("not a url") {
        Err(LocationError::Malformed { cause }) => {
            assert_eq!(cause, url::ParseError::RelativeUrlWithoutBase)
        }
        other => panic!("unexpected {:?}", other),
    }
    assert!(matches!(object_location(""), Err(LocationError::Malformed { .. })));
}

#[test]
fn url_without_a_host_names_no_bucket() {
    assert_eq!(object_location("data:text/plain,Stuff"), Err(LocationError::NoBucket));
    assert_eq!(object_location("unix:/run/foo.socket"), Err(LocationError::NoBucket));
}

#[test]
fn location_is_made_of_host_and_path() {
    assert_eq!(
        location_from_parts(Some("b".to_string()), "/k".to_string()),
        Ok(ObjectLocation { bucket: "b".to_string(), key: "/k".to_string() })
    );
    assert_eq!(location_from_parts(None, "/k".to_string()), Err(LocationError::NoBucket));
}

#[test]
fn fetch_is_bounded() {
    assert_eq!(FETCH_TIMEOUT_SECONDS, 290);
}

#[test]
fn config_holds_the_settings() {
    let config = Config {
        host: "0.0.0.0".to_string(),
        port: 8080,
        region: "eu-west-1".to_string(),
        db_url: "db:9042".to_string(),
        db_dc: "dc1".to_string(),
        parallel_files: 4,
        db_parallelism: 16,
        schema_file: "schema.cql".to_string(),
    };
    assert_eq!(config.clone(), config);
    assert_eq!(config.parallel_files, 4);
    assert_eq!(config.db_parallelism, 16);
}
