use csml::storage::{object_body, object_request, put_object_request, s3_bucket, EngineError};

fn manager_message(e: EngineError) -> String {
    match e {
        EngineError::Manager(m) => m,
        EngineError::External(m) => panic!("unexpected external error {:?}", m),
    }
}

#[test]
fn bucket_from_environment() {
    match s3_bucket(Some("my-bucket")) {
        Ok(b) => assert_eq!(b, "my-bucket"),
        Err(_) => panic!("expected a bucket"),
    }
    match s3_bucket(None) {
        Ok(_) => panic!("expected an error"),
        Err(e) => assert_eq!(manager_message(e), "Missing AWS_S3_BUCKET env var"),
    }
}

#[test]
fn put_request_stores_json_bytes() {
    match put_object_request(Some("b"), "bots/1", "{\"é\":1}".to_owned()) {
        Ok(r) => {
            assert_eq!(r.bucket, "b");
            assert_eq!(r.key, "bots/1");
            assert_eq!(r.content_type, "application/json");
            assert_eq!(r.body, "{\"é\":1}".as_bytes().to_vec());
        }
        Err(_) => panic!("expected a request"),
    }
    match put_object_request(None, "k", String::new()) {
        Ok(_) => panic!("expected an error"),
        Err(e) => assert_eq!(manager_message(e), "Missing AWS_S3_BUCKET env var"),
    }
}

#[test]
fn object_request_names_the_object() {
    match object_request(Some("b"), "k") {
        Ok(r) => {
            assert_eq!(r.bucket, "b");
            assert_eq!(r.key, "k");
        }
        Err(_) => panic!("expected a request"),
    }
    assert!(object_request(None, "k").is_err());
}

#[test]
fn empty_object_is_refused() {
    match object_body(Some(7u8)) {
        Ok(v) => assert_eq!(v, 7),
        Err(_) => panic!("expected the body"),
    }
    match object_body::<u8>(None) {
        Ok(_) => panic!("expected an error"),
        Err(e) => assert_eq!(manager_message(e), "empty object"),
    }
}
