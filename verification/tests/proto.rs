use dfs_proto::codec::deserialize_request;
use dfs_proto::codec::deserialize_response;
use dfs_proto::codec::serialize_request;
use dfs_proto::codec::serialize_response;
use dfs_proto::messages::AeadConfig;
use dfs_proto::messages::DFSRequest;
use dfs_proto::messages::DFSResponse;
use dfs_proto::messages::DecodeError;
use dfs_proto::messages::FileInfo;

fn sample_key_config() -> AeadConfig {
    AeadConfig { key: vec![0, 1, 2, 255], nonce: vec![9, 8], ad: vec![] }
}

fn sample_file_info(task_id: Option<String>) -> FileInfo {
    FileInfo {
        user_id: "u1".to_string(),
        file_name: "a.txt".to_string(),
        sha256: "e3b0c44298fc1c149afbf4c8996fb92427ae41e4649b934ca495991b7852b855".to_string(),
        file_size: 1024,
        access_path: "/data/a".to_string(),
        task_id,
        collaborator_list: vec!["u2".to_string(), "u3".to_string()],
        key_config: sample_key_config(),
    }
}

#[test]
fn round_trip_create_request() {
    let req = DFSRequest::new_create_file("a.txt", "e3b0c4", 1024, "u1", "tok1");
    let wire = serialize_request(&req);
    assert_eq!(deserialize_request(&wire), Ok(req));
}

#[test]
fn round_trip_get_request() {
    let req = DFSRequest::new_get_file("f77", "u1", "tok1");
    let wire = serialize_request(&req);
    assert_eq!(deserialize_request(&wire), Ok(req));
}

#[test]
fn round_trip_list_request() {
    let req = DFSRequest::new_list_file("u1", "tok1");
    let wire = serialize_request(&req);
    assert_eq!(deserialize_request(&wire), Ok(req));
}

#[test]
fn round_trip_delete_request() {
    let req = DFSRequest::new_del_file("f77", "u1", "tok1");
    let wire = serialize_request(&req);
    assert_eq!(deserialize_request(&wire), Ok(req));
}

#[test]
fn round_trip_create_response() {
    let resp = DFSResponse::new_create_file("f77", "/data/f77", &sample_key_config());
    let wire = serialize_response(&resp);
    assert_eq!(deserialize_response(&wire), Ok(resp));
}

#[test]
fn round_trip_get_response() {
    let resp = DFSResponse::new_get_file(&sample_file_info(Some("t9".to_string())));
    let wire = serialize_response(&resp);
    assert_eq!(deserialize_response(&wire), Ok(resp));
}

#[test]
fn round_trip_list_response() {
    let resp = DFSResponse::new_list_file(&["f1", "f2"]);
    let wire = serialize_response(&resp);
    assert_eq!(deserialize_response(&wire), Ok(resp));
}

#[test]
fn round_trip_delete_response() {
    let resp = DFSResponse::new_del_file(&sample_file_info(None));
    let wire = serialize_response(&resp);
    assert_eq!(deserialize_response(&wire), Ok(resp));
}

#[test]
fn round_trip_empty_fields() {
    let req = DFSRequest::new_create_file("", "", 0, "", "");
    let wire = serialize_request(&req);
    assert_eq!(deserialize_request(&wire), Ok(req));
}

#[test]
fn round_trip_unicode_content() {
    let req = DFSRequest::new_get_file("héllo→", "ü", "—");
    let wire = serialize_request(&req);
    assert_eq!(deserialize_request(&wire), Ok(req));
}

#[test]
fn round_trip_largest_file_size() {
    let req = DFSRequest::new_create_file("a", "b", u32::MAX, "c", "d");
    let wire = serialize_request(&req);
    assert!(wire.contains("file_size:4294967295;"));
    assert_eq!(deserialize_request(&wire), Ok(req));
}

#[test]
fn round_trip_empty_collections() {
    let info = FileInfo {
        user_id: String::new(),
        file_name: String::new(),
        sha256: String::new(),
        file_size: 0,
        access_path: String::new(),
        task_id: None,
        collaborator_list: vec![],
        key_config: AeadConfig { key: vec![], nonce: vec![], ad: vec![] },
    };
    let resp = DFSResponse::new_get_file(&info);
    let wire = serialize_response(&resp);
    assert_eq!(deserialize_response(&wire), Ok(resp));
}

#[test]
fn tag_matches_request_variant() {
    let cases = [
        (serialize_request(&DFSRequest::new_create_file("a", "b", 1, "c", "d")), "Create"),
        (serialize_request(&DFSRequest::new_get_file("a", "b", "c")), "Get"),
        (serialize_request(&DFSRequest::new_list_file("a", "b")), "List"),
        (serialize_request(&DFSRequest::new_del_file("a", "b", "c")), "Delete"),
    ];
    for (wire, tag) in &cases {
        let prefix = format!("{{type:{}:{}", tag.len(), tag);
        assert!(wire.starts_with(&prefix), "{} does not start with {}", wire, prefix);
    }
}

#[test]
fn tag_matches_response_variant() {
    let info = sample_file_info(None);
    let cases = [
        (serialize_response(&DFSResponse::new_create_file("a", "b", &sample_key_config())), "Create"),
        (serialize_response(&DFSResponse::new_get_file(&info)), "Get"),
        (serialize_response(&DFSResponse::new_list_file(&["x"])), "List"),
        (serialize_response(&DFSResponse::new_del_file(&info)), "Delete"),
    ];
    for (wire, tag) in &cases {
        let prefix = format!("{{type:{}:{}", tag.len(), tag);
        assert!(wire.starts_with(&prefix), "{} does not start with {}", wire, prefix);
    }
}

#[test]
fn dispatch_returns_constructed_variant() {
    let wire = serialize_request(&DFSRequest::new_list_file("u", "t"));
    match deserialize_request(&wire) {
        Ok(DFSRequest::List(p)) => {
            assert_eq!(p.user_id, "u");
            assert_eq!(p.user_token, "t");
        },
        other => panic!("expected a List request, got {:?}", other),
    }
}

#[test]
fn create_factory_copies_arguments() {
    let req = DFSRequest::new_create_file("a.txt", "e3b0c4", 1024, "u1", "tok1");
    match req {
        DFSRequest::Create(p) => {
            assert_eq!(p.file_name, "a.txt");
            assert_eq!(p.sha256, "e3b0c4");
            assert_eq!(p.file_size, 1024);
            assert_eq!(p.user_id, "u1");
            assert_eq!(p.user_token, "tok1");
        },
        other => panic!("expected a Create request, got {:?}", other),
    }
}

#[test]
fn get_and_delete_factories_copy_arguments() {
    match DFSRequest::new_get_file("f1", "u1", "tok1") {
        DFSRequest::Get(p) => {
            assert_eq!(p.file_id, "f1");
            assert_eq!(p.user_id, "u1");
            assert_eq!(p.user_token, "tok1");
        },
        other => panic!("expected a Get request, got {:?}", other),
    }
    match DFSRequest::new_del_file("f1", "u1", "tok1") {
        DFSRequest::Delete(p) => {
            assert_eq!(p.file_id, "f1");
            assert_eq!(p.user_id, "u1");
            assert_eq!(p.user_token, "tok1");
        },
        other => panic!("expected a Delete request, got {:?}", other),
    }
}

#[test]
fn response_factories_copy_values() {
    let kc = sample_key_config();
    match DFSResponse::new_create_file("f1", "/p", &kc) {
        DFSResponse::Create(p) => {
            assert_eq!(p.file_id, "f1");
            assert_eq!(p.access_path, "/p");
            assert_eq!(p.key_config, kc);
        },
        other => panic!("expected a Create response, got {:?}", other),
    }
    let info = sample_file_info(Some("t1".to_string()));
    match DFSResponse::new_get_file(&info) {
        DFSResponse::Get(p) => assert_eq!(p.file_info, info),
        other => panic!("expected a Get response, got {:?}", other),
    }
    match DFSResponse::new_del_file(&info) {
        DFSResponse::Delete(p) => assert_eq!(p.file_info, info),
        other => panic!("expected a Delete response, got {:?}", other),
    }
}

#[test]
fn absent_task_id_leaves_no_trace_on_the_wire() {
    let resp = DFSResponse::new_get_file(&sample_file_info(None));
    let wire = serialize_response(&resp);
    assert!(!wire.contains("task_id"));
    match deserialize_response(&wire) {
        Ok(DFSResponse::Get(p)) => assert_eq!(p.file_info.task_id, None),
        other => panic!("expected a Get response, got {:?}", other),
    }
}

#[test]
fn present_task_id_round_trips() {
    let resp = DFSResponse::new_get_file(&sample_file_info(Some("t9".to_string())));
    let wire = serialize_response(&resp);
    assert!(wire.contains("task_id:2:t9"));
    match deserialize_response(&wire) {
        Ok(DFSResponse::Get(p)) => assert_eq!(p.file_info.task_id, Some("t9".to_string())),
        other => panic!("expected a Get response, got {:?}", other),
    }
}

#[test]
fn empty_task_id_is_kept_distinct_from_absent() {
    let resp = DFSResponse::new_get_file(&sample_file_info(Some(String::new())));
    let wire = serialize_response(&resp);
    assert!(wire.contains("task_id:0:"));
    match deserialize_response(&wire) {
        Ok(DFSResponse::Get(p)) => assert_eq!(p.file_info.task_id, Some(String::new())),
        other => panic!("expected a Get response, got {:?}", other),
    }
}

#[test]
fn list_response_keeps_input_order() {
    match DFSResponse::new_list_file(&["f1", "f2"]) {
        DFSResponse::List(p) => assert_eq!(p.list, vec!["f1".to_string(), "f2".to_string()]),
        other => panic!("expected a List response, got {:?}", other),
    }
}

#[test]
fn collaborator_order_survives_the_wire() {
    let resp = DFSResponse::new_get_file(&sample_file_info(None));
    let wire = serialize_response(&resp);
    match deserialize_response(&wire) {
        Ok(DFSResponse::Get(p)) => {
            assert_eq!(p.file_info.collaborator_list, vec!["u2".to_string(), "u3".to_string()]);
        },
        other => panic!("expected a Get response, got {:?}", other),
    }
}

#[test]
fn exact_wire_form_of_a_list_request() {
    let wire = serialize_request(&DFSRequest::new_list_file("u", "t"));
    assert_eq!(wire, "{type:4:Listuser_id:1:uuser_token:1:t}");
}

#[test]
fn exact_wire_form_of_a_create_request() {
    let wire = serialize_request(&DFSRequest::new_create_file("a.txt", "e3b0c4", 1024, "u1", "tok1"));
    assert_eq!(
        wire,
        "{type:6:Createfile_name:5:a.txtsha256:6:e3b0c4file_size:1024;user_id:2:u1user_token:4:tok1}"
    );
}

#[test]
fn exact_wire_form_of_a_list_response() {
    let wire = serialize_response(&DFSResponse::new_list_file(&["f1", "f2"]));
    assert_eq!(wire, "{type:4:Listlist:2;2:f12:f2}");
}

#[test]
fn unknown_request_tag_is_refused() {
    assert_eq!(deserialize_request("{type:5:Patch}"), Err(DecodeError::UnknownTag));
}

#[test]
fn unknown_response_tag_is_refused() {
    assert_eq!(deserialize_response("{type:4:Ping}"), Err(DecodeError::UnknownTag));
}

#[test]
fn empty_text_is_refused() {
    assert_eq!(deserialize_request(""), Err(DecodeError::Truncated));
    assert_eq!(deserialize_response(""), Err(DecodeError::Truncated));
}

#[test]
fn truncated_text_is_refused() {
    let wire = serialize_request(&DFSRequest::new_list_file("u1", "tok1"));
    let cut = &wire[..wire.len() - 1];
    assert!(deserialize_request(cut).is_err());
}

#[test]
fn trailing_text_is_refused() {
    let wire = serialize_request(&DFSRequest::new_list_file("u1", "tok1"));
    let padded = format!("{}x", wire);
    assert!(deserialize_request(&padded).is_err());
}

#[test]
fn leading_zero_numerals_are_refused() {
    assert!(deserialize_request("{type:04:Listuser_id:1:uuser_token:1:t}").is_err());
}

#[test]
fn oversized_file_size_is_refused() {
    let wire = "{type:6:Createfile_name:0:sha256:0:file_size:4294967296;user_id:0:user_token:0:}";
    assert_eq!(deserialize_request(wire), Err(DecodeError::Overflow));
}

#[test]
fn oversized_byte_value_is_refused() {
    let wire =
        "{type:6:Createfile_id:0:access_path:0:key_config:{key:1;256;nonce:0;ad:0;}}";
    assert!(deserialize_response(wire).is_err());
}

#[test]
fn missing_tag_field_is_refused() {
    assert_eq!(deserialize_request("{kind:4:List}"), Err(DecodeError::Malformed));
    assert_eq!(deserialize_request("List"), Err(DecodeError::Malformed));
}
