use webdav_core::dav::{Action, BackendRange, Dav, DavResponseType};
use webdav_core::headers::ResponseHeaders;
use webdav_core::ordered::StringMap;
use webdav_core::values::{DavProperties, Depth, ObjectMetadata, Overwrite, Range};
use webdav_core::xml::XMLNode;

const PROPFIND_BODY: &str =
    "<?xml version=\"1.0\" encoding=\"utf-8\"?><D:propfind xmlns:D=\"DAV:\"><D:prop></D:prop></D:propfind>";

const ALLOW: &str = "OPTIONS, PROPFIND, PROPPATCH, MKCOL, GET, HEAD, PUT, COPY, MOVE";

fn pairs(headers: &StringMap) -> Vec<(&str, &str)> {
    headers
        .entries
        .iter()
        .map(|(k, v)| (k.as_str(), v.as_str()))
        .collect()
}

fn object(key: &str, size: u64) -> ObjectMetadata {
    ObjectMetadata {
        key: key.to_string(),
        size,
        uploaded: "2024-01-02T03:04:05Z".to_string(),
        http_etag: "\"abc\"".to_string(),
        content_type: Some("text/plain".to_string()),
        content_language: None,
        content_disposition: None,
        content_encoding: None,
        cache_control: None,
        cache_expiry: None,
    }
}

fn no_passthrough() -> ResponseHeaders {
    ResponseHeaders {
        cache_control: None,
        cache_expiry: None,
        content_disposition: None,
        content_encoding: None,
    }
}

fn whole() -> Range {
    Range {
        start: None,
        end: None,
    }
}

fn count(haystack: &str, needle: &str) -> usize {
    haystack.matches(needle).count()
}

#[test]
fn options_reports_capabilities() {
    let (status, headers, body) = Dav::new().handle_options().unwrap();
    assert_eq!(status, 204);
    assert_eq!(pairs(&headers), vec![("DAV", "1"), ("Allow", ALLOW)]);
    assert_eq!(body, "");
}

#[test]
fn unsupported_method_is_405_with_capabilities() {
    let (status, headers, message) = Dav::new().handle_unsupport_method().unwrap_err();
    assert_eq!(status, 405);
    assert_eq!(pairs(&headers.unwrap()), vec![("DAV", "1"), ("Allow", ALLOW)]);
    assert_eq!(message, None);
}

#[test]
fn get_existing_object_is_200_with_length() {
    let dav = Dav::new();
    match dav.handle_get_obj("/a.txt".to_string(), whole()) {
        Action::Download { key, range } => {
            assert_eq!(key, "/a.txt");
            assert_eq!(range, None);
        }
        _ => panic!("a download was expected"),
    }
    let properties = DavProperties::from(object("/a.txt", 42));
    let (status, headers) = dav
        .finish_get_obj(whole(), Ok((properties, no_passthrough())))
        .unwrap();
    assert_eq!(status, 200);
    assert_eq!(headers.get("Content-Length"), Some(&"42".to_string()));
    assert_eq!(headers.get("Accept-Ranges"), Some(&"bytes".to_string()));
    assert!(!headers.contains_key("Content-Range"));
    assert_eq!(
        pairs(&headers),
        vec![
            ("Accept-Ranges", "bytes"),
            ("Content-Type", "text/plain"),
            ("Content-Length", "42"),
            ("ETag", "\"abc\""),
        ]
    );
}

#[test]
fn get_with_range_is_206_with_content_range() {
    let dav = Dav::new();
    let range = Range {
        start: Some(5),
        end: Some(9),
    };
    match dav.handle_get_obj("/a.txt".to_string(), range) {
        Action::Download { key, range } => {
            assert_eq!(key, "/a.txt");
            assert_eq!(
                range,
                Some(BackendRange::OffsetWithLength {
                    offset: 5,
                    length: 5
                })
            );
        }
        _ => panic!("a download was expected"),
    }
    let properties = DavProperties::from(object("/a.txt", 5));
    let (status, headers) = dav
        .finish_get_obj(range, Ok((properties, no_passthrough())))
        .unwrap();
    assert_eq!(status, 206);
    assert_eq!(
        headers.get("Content-Range"),
        Some(&"bytes 5-9/5".to_string())
    );
}

#[test]
fn range_mapping_is_exact() {
    let dav = Dav::new();
    let range = Range {
        start: Some(10),
        end: Some(19),
    };
    assert_eq!(
        webdav_core::dav::backend_range(range),
        Some(BackendRange::OffsetWithLength {
            offset: 10,
            length: 10
        })
    );
    let (status, headers) = dav
        .finish_get_obj(range, Ok((DavProperties::default(), no_passthrough())))
        .unwrap();
    assert_eq!(status, 206);
    assert_eq!(
        headers.get("Content-Range"),
        Some(&"bytes 10-19/10".to_string())
    );
    assert_eq!(
        webdav_core::headers::content_range_text(0, 4294967295),
        "bytes 0-4294967295/4294967296"
    );
}

#[test]
fn range_with_one_end_maps_to_open_or_suffix() {
    assert_eq!(
        webdav_core::dav::backend_range(Range {
            start: Some(7),
            end: None
        }),
        Some(BackendRange::OffsetToEnd { offset: 7 })
    );
    assert_eq!(
        webdav_core::dav::backend_range(Range {
            start: None,
            end: Some(100)
        }),
        Some(BackendRange::Suffix { suffix: 100 })
    );
    assert_eq!(webdav_core::dav::backend_range(whole()), None);
    let (status, headers) = Dav::new()
        .finish_get_obj(
            Range {
                start: Some(7),
                end: None,
            },
            Ok((DavProperties::default(), no_passthrough())),
        )
        .unwrap();
    assert_eq!(status, 200);
    assert!(!headers.contains_key("Content-Range"));
}

#[test]
fn get_object_without_metadata_uses_fallbacks() {
    let (status, headers) = Dav::new()
        .finish_get_obj(whole(), Ok((DavProperties::default(), no_passthrough())))
        .unwrap();
    assert_eq!(status, 200);
    assert_eq!(
        pairs(&headers),
        vec![
            ("Accept-Ranges", "bytes"),
            ("Content-Type", "application/octet-stream"),
            ("Content-Length", "0"),
        ]
    );
}

#[test]
fn get_object_passes_store_headers_through() {
    let properties = DavProperties {
        creation_date: None,
        display_name: None,
        get_content_language: None,
        get_content_length: Some(18446744073709551615),
        get_content_type: None,
        get_etag: Some("e".to_string()),
        get_last_modified: Some("m".to_string()),
    };
    let extra = ResponseHeaders {
        cache_control: Some("no-cache".to_string()),
        cache_expiry: Some("tomorrow".to_string()),
        content_disposition: Some("inline".to_string()),
        content_encoding: Some("gzip".to_string()),
    };
    let (_, headers) = Dav::new()
        .finish_get_obj(
            Range {
                start: Some(0),
                end: Some(0),
            },
            Ok((properties, extra)),
        )
        .unwrap();
    assert_eq!(
        pairs(&headers),
        vec![
            ("Accept-Ranges", "bytes"),
            ("Content-Type", "application/octet-stream"),
            ("Content-Length", "18446744073709551615"),
            ("ETag", "e"),
            ("Last-Modified", "m"),
            ("Cache-Control", "no-cache"),
            ("Expires", "tomorrow"),
            ("Content-Disposition", "inline"),
            ("Content-Encoding", "gzip"),
            ("Content-Range", "bytes 0-0/1"),
        ]
    );
}

#[test]
fn get_missing_object_is_404_with_message() {
    let outcome = Dav::new().finish_get_obj(whole(), Err("Resource not found".to_string()));
    let (status, headers, message) = outcome.unwrap_err();
    assert_eq!(status, 404);
    assert!(headers.is_none());
    assert_eq!(message, Some("Resource not found".to_string()));
}

#[test]
fn head_object_has_get_headers_and_empty_body() {
    let range = Range {
        start: Some(5),
        end: Some(9),
    };
    let properties = DavProperties::from(object("/a.txt", 5));
    let (status, headers, body) = Dav::new()
        .finish_head_obj(range, Ok((properties, no_passthrough())))
        .unwrap();
    assert_eq!(status, 206);
    assert_eq!(
        headers.get("Content-Range"),
        Some(&"bytes 5-9/5".to_string())
    );
    assert_eq!(headers.get("Content-Length"), Some(&"5".to_string()));
    assert_eq!(body, "");
    let (status, _, message) = Dav::new()
        .finish_head_obj(whole(), Err("gone".to_string()))
        .unwrap_err();
    assert_eq!(status, 404);
    assert_eq!(message, Some("gone".to_string()));
}

#[test]
fn propfind_depth_one_reports_each_entry() {
    let dav = Dav::new();
    match dav.handle_propfind("/dir/".to_string(), Depth::One, PROPFIND_BODY.to_string()) {
        Action::List { prefix } => assert_eq!(prefix, "/dir/"),
        _ => panic!("a listing was expected"),
    }
    let items = vec![
        (
            "dir/a.txt".to_string(),
            DavProperties::from(object("dir/a.txt", 1)),
        ),
        ("dir/b.txt".to_string(), DavProperties::default()),
    ];
    let (status, headers, body) = dav.finish_propfind_list(Ok(items)).unwrap();
    assert_eq!(status, 207);
    assert_eq!(
        pairs(&headers),
        vec![("Content-Type", "application/xml; charset=utf-8")]
    );
    assert_eq!(count(&body, "<D:response>"), 2);
    assert_eq!(
        count(
            &body,
            "<D:propstat><D:status>HTTP/1.1 200 OK</D:status><D:prop>"
        ),
        2
    );
    assert_eq!(
        body,
        "<?xml version=\"1.0\" encoding=\"utf-8\"?><D:multistatus xmlns:D=\"DAV:\">\
<D:response><D:href>dir/a.txt</D:href><D:propstat><D:status>HTTP/1.1 200 OK</D:status>\
<D:prop><D:creationdate>2024-01-02T03:04:05Z</D:creationdate>\
<D:getcontentlength>1</D:getcontentlength><D:getcontenttype>text/plain</D:getcontenttype>\
<D:getetag>\"abc\"</D:getetag></D:prop></D:propstat></D:response>\
<D:response><D:href>dir/b.txt</D:href><D:propstat><D:status>HTTP/1.1 200 OK</D:status>\
<D:prop></D:prop></D:propstat></D:response></D:multistatus>"
    );
    let tree = XMLNode::parse_xml(&body).unwrap();
    assert_eq!(tree.name, "D:multistatus");
    assert_eq!(tree.elements.len(), 2);
    for response in &tree.elements {
        assert_eq!(response.name, "D:response");
        assert_eq!(response.elements[1].name, "D:propstat");
        assert_eq!(
            response.elements[1].elements[0].value,
            Some("HTTP/1.1 200 OK".to_string())
        );
    }
}

#[test]
fn propfind_depth_one_with_no_entries_has_no_response() {
    let (status, _, body) = Dav::new().finish_propfind_list(Ok(vec![])).unwrap();
    assert_eq!(status, 207);
    assert_eq!(
        body,
        "<?xml version=\"1.0\" encoding=\"utf-8\"?><D:multistatus xmlns:D=\"DAV:\"></D:multistatus>"
    );
    let tree = XMLNode::parse_xml(&body).unwrap();
    assert_eq!(tree.name, "D:multistatus");
    assert_eq!(tree.elements.len(), 0);
}

#[test]
fn propfind_depth_one_listing_failure_is_404() {
    let (status, headers, message) = Dav::new()
        .finish_propfind_list(Err("no bucket".to_string()))
        .unwrap_err();
    assert_eq!(status, 404);
    assert!(headers.is_none());
    assert_eq!(message, Some("no bucket".to_string()));
}

#[test]
fn propfind_depth_zero_reports_object_with_custom_metadata() {
    let dav = Dav::new();
    match dav.handle_propfind("/a.txt".to_string(), Depth::Zero, PROPFIND_BODY.to_string()) {
        Action::Get { key } => assert_eq!(key, "/a.txt"),
        _ => panic!("a lookup was expected"),
    }
    let mut custom = StringMap::new();
    custom.insert("owner".to_string(), "me".to_string());
    custom.insert("colour".to_string(), "blue".to_string());
    let found = Ok((
        "a.txt".to_string(),
        DavProperties::from(object("a.txt", 42)),
        Some(custom),
    ));
    let (status, _, body) = dav
        .finish_propfind_get("/a.txt".to_string(), found)
        .unwrap();
    assert_eq!(status, 207);
    assert_eq!(
        body,
        "<?xml version=\"1.0\" encoding=\"utf-8\"?><D:multistatus xmlns:D=\"DAV:\">\
<D:response><D:href>a.txt</D:href><D:propstat><D:status>HTTP/1.1 200 OK</D:status>\
<D:prop><D:creationdate>2024-01-02T03:04:05Z</D:creationdate>\
<D:getcontentlength>42</D:getcontentlength><D:getcontenttype>text/plain</D:getcontenttype>\
<D:getetag>\"abc\"</D:getetag><owner>me</owner><colour>blue</colour></D:prop></D:propstat>\
</D:response></D:multistatus>"
    );
    let tree = XMLNode::parse_xml(&body).unwrap();
    assert_eq!(tree.name, "D:multistatus");
    assert_eq!(tree.elements.len(), 1);
}

#[test]
fn propfind_depth_zero_missing_collection_is_reported_empty() {
    let (status, _, body) = Dav::new()
        .finish_propfind_get("/dir/".to_string(), Err("Resource not found".to_string()))
        .unwrap();
    assert_eq!(status, 207);
    assert_eq!(
        body,
        "<?xml version=\"1.0\" encoding=\"utf-8\"?><D:multistatus xmlns:D=\"DAV:\">\
<D:response><D:href>/dir/</D:href><D:propstat><D:status>HTTP/1.1 200 OK</D:status>\
<D:prop></D:prop></D:propstat></D:response></D:multistatus>"
    );
}

#[test]
fn propfind_depth_zero_missing_resource_is_404() {
    let (status, headers, message) = Dav::new()
        .finish_propfind_get("/a.txt".to_string(), Err("Resource not found".to_string()))
        .unwrap_err();
    assert_eq!(status, 404);
    assert!(headers.is_none());
    assert_eq!(message, Some("Resource not found".to_string()));
}

fn refusal(action: Action) -> u16 {
    match action {
        Action::Respond(Err((status, None, None))) => status,
        _ => panic!("a bare refusal was expected"),
    }
}

#[test]
fn propfind_without_readable_body_is_415() {
    let dav = Dav::new();
    assert_eq!(
        refusal(dav.handle_propfind("/a".to_string(), Depth::One, "".to_string())),
        415
    );
    assert_eq!(
        refusal(dav.handle_propfind("/a".to_string(), Depth::Zero, "<a><b></a>".to_string())),
        415
    );
    assert_eq!(
        refusal(dav.handle_propfind("/a".to_string(), Depth::Infinity, "no xml".to_string())),
        415
    );
    assert_eq!(
        refusal(dav.plan_propfind("/a".to_string(), Depth::One, false)),
        415
    );
}

#[test]
fn propfind_depth_infinity_is_400() {
    let dav = Dav::new();
    assert_eq!(
        refusal(dav.handle_propfind(
            "/a".to_string(),
            Depth::Infinity,
            PROPFIND_BODY.to_string()
        )),
        400
    );
    assert_eq!(
        refusal(dav.plan_propfind("/a".to_string(), Depth::Infinity, true)),
        400
    );
}

#[test]
fn proppatch_acknowledges_the_resource() {
    let (status, headers, body) = Dav::new()
        .handle_proppatch("/a.txt".to_string(), "ignored".to_string())
        .unwrap();
    assert_eq!(status, 207);
    assert_eq!(headers.len(), 0);
    assert_eq!(
        body,
        "<?xml version=\"1.0\" encoding=\"utf-8\"?><D:multistatus xmlns:D=\"DAV:\">\
<D:response><D:href>/a.txt</D:href><D:propstat><D:prop></D:prop>\
<D:status>HTTP/1.1 200 OK</D:status></D:propstat></D:response></D:multistatus>"
    );
}

#[test]
fn mkcol_accepts_only_an_empty_body() {
    let dav = Dav::new();
    let (status, headers, body) = dav
        .handle_mkcol("/dir/".to_string(), "".to_string())
        .unwrap();
    assert_eq!((status, headers.len(), body.as_str()), (201, 0, ""));
    let (status, headers, message) = dav
        .handle_mkcol("/dir/".to_string(), "x".to_string())
        .unwrap_err();
    assert_eq!(status, 415);
    assert!(headers.is_none());
    assert_eq!(message, None);
}

#[test]
fn get_collection_lists_links() {
    let dav = Dav::new();
    match dav.handle_get_dir("/dir/".to_string()) {
        Action::List { prefix } => assert_eq!(prefix, "/dir/"),
        _ => panic!("a listing was expected"),
    }
    let mut named = DavProperties::default();
    named.display_name = Some("Report".to_string());
    let items = vec![
        ("dir/a.txt".to_string(), DavProperties::default()),
        ("dir/b.pdf".to_string(), named),
        ("dir/c".to_string(), DavProperties::default()),
    ];
    let (status, headers, body) = dav.finish_get_dir(Ok(items)).unwrap();
    assert_eq!(status, 200);
    assert_eq!(
        pairs(&headers),
        vec![("Content-Type", "application/html; charset=utf-8")]
    );
    assert_eq!(
        body,
        "<a href=\"dir/a.txt\">dir/a.txt</a>, <a href=\"dir/b.pdf\">Report</a>, <a href=\"dir/c\">dir/c</a>"
    );
    let (status, _, body) = dav.finish_get_dir(Ok(vec![])).unwrap();
    assert_eq!((status, body.as_str()), (200, ""));
}

#[test]
fn get_collection_listing_failure_is_404() {
    let (status, _, message) = Dav::new()
        .finish_get_dir(Err("boom".to_string()))
        .unwrap_err();
    assert_eq!(status, 404);
    assert_eq!(message, Some("boom".to_string()));
}

#[test]
fn head_collection_has_empty_body() {
    let dav = Dav::new();
    match dav.handle_head_dir("/dir/".to_string()) {
        Action::List { prefix } => assert_eq!(prefix, "/dir/"),
        _ => panic!("a listing was expected"),
    }
    let items = vec![("dir/a.txt".to_string(), DavProperties::default())];
    let (status, headers, body) = dav.finish_head_dir(Ok(items)).unwrap();
    assert_eq!(status, 200);
    assert_eq!(
        pairs(&headers),
        vec![("Content-Type", "application/html; charset=utf-8")]
    );
    assert_eq!(body, "");
    let (status, _, message) = dav.finish_head_dir(Err("boom".to_string())).unwrap_err();
    assert_eq!((status, message), (404, Some("boom".to_string())));
}

#[test]
fn delete_of_missing_key_is_400_with_message() {
    let dav = Dav::new();
    match dav.handle_delete("/gone.txt".to_string()) {
        Action::Delete { key } => assert_eq!(key, "/gone.txt"),
        _ => panic!("a delete was expected"),
    }
    let (status, headers, message) = dav
        .finish_delete(Err("Resource not found".to_string()))
        .unwrap_err();
    assert_eq!(status, 400);
    assert!(headers.is_none());
    assert_eq!(message, Some("Resource not found".to_string()));
}

#[test]
fn delete_is_204() {
    let (status, headers, body) = Dav::new().finish_delete(Ok(())).unwrap();
    assert_eq!((status, headers.len(), body.as_str()), (204, 0, ""));
}

#[test]
fn put_on_collection_path_is_405_without_store_call() {
    let action = Dav::new().handle_put("/dir/".to_string(), 3);
    assert_eq!(refusal(action), 405);
}

#[test]
fn put_stores_under_the_path() {
    let dav = Dav::new();
    match dav.handle_put("/a.txt".to_string(), 3) {
        Action::Put {
            key,
            content_length,
        } => {
            assert_eq!(key, "/a.txt");
            assert_eq!(content_length, 3);
        }
        _ => panic!("a write was expected"),
    }
    let (status, headers, body) = dav.finish_put(Ok(DavProperties::default())).unwrap();
    assert_eq!((status, headers.len(), body.as_str()), (201, 0, ""));
    let (status, _, message) = dav.finish_put(Err("disk full".to_string())).unwrap_err();
    assert_eq!((status, message), (400, Some("disk full".to_string())));
}

fn message_of(outcome: Result<(u16, StringMap, String), (u16, Option<StringMap>, Option<String>)>) -> (u16, String) {
    let (status, headers, message) = outcome.unwrap_err();
    assert!(headers.is_none());
    (status, message.unwrap())
}

#[test]
fn copy_accepts_only_a_whole_collection() {
    let dav = Dav::new();
    let to = "other/".to_string();
    let (status, headers, body) = dav
        .handle_copy("/dir/".to_string(), to.clone(), Depth::Infinity, Overwrite::True)
        .unwrap();
    assert_eq!((status, headers.len(), body.as_str()), (200, 0, ""));
    assert_eq!(
        message_of(dav.handle_copy("/dir/".to_string(), to.clone(), Depth::Zero, Overwrite::True)),
        (400, "Unsupported copy collection".to_string())
    );
    assert_eq!(
        message_of(dav.handle_copy("/dir/".to_string(), to.clone(), Depth::One, Overwrite::False)),
        (400, "Unsupported copy depth".to_string())
    );
    assert_eq!(
        message_of(dav.handle_copy("/a.txt".to_string(), to.clone(), Depth::Infinity, Overwrite::True)),
        (400, "Unsupported copy resource".to_string())
    );
    assert_eq!(
        message_of(dav.handle_copy("".to_string(), to, Depth::Infinity, Overwrite::True)),
        (400, "Unsupported copy resource".to_string())
    );
}

#[test]
fn move_accepts_only_a_whole_collection() {
    let dav = Dav::new();
    let to = "other/".to_string();
    let (status, headers, body) = dav
        .handle_move("/dir/".to_string(), to.clone(), Depth::Infinity, Overwrite::True)
        .unwrap();
    assert_eq!((status, headers.len(), body.as_str()), (200, 0, ""));
    assert_eq!(
        message_of(dav.handle_move("/dir/".to_string(), to.clone(), Depth::Zero, Overwrite::True)),
        (400, "Unsupported move collection".to_string())
    );
    assert_eq!(
        message_of(dav.handle_move("/dir/".to_string(), to.clone(), Depth::One, Overwrite::True)),
        (400, "Unsupported move depth".to_string())
    );
    assert_eq!(
        message_of(dav.handle_move("/a.txt".to_string(), to, Depth::Infinity, Overwrite::False)),
        (400, "Unsupported move resource".to_string())
    );
}

#[test]
fn outcomes_of_both_kinds_convert() {
    let dav = Dav::new();
    match DavResponseType::from(dav.handle_options()) {
        DavResponseType::DavResponse(Ok((status, _, _))) => assert_eq!(status, 204),
        _ => panic!("a buffered response was expected"),
    }
    let streamed = dav.finish_get_obj(whole(), Ok((DavProperties::default(), no_passthrough())));
    match DavResponseType::from(streamed) {
        DavResponseType::DavStreamResponse(Ok((status, _))) => assert_eq!(status, 200),
        _ => panic!("a streamed response was expected"),
    }
}

#[test]
fn properties_follow_from_metadata() {
    let mut file = object("a.txt", 42);
    file.content_disposition = Some("attachment".to_string());
    file.content_language = Some("en".to_string());
    let properties = DavProperties::from(file);
    assert_eq!(
        properties.creation_date,
        Some("2024-01-02T03:04:05Z".to_string())
    );
    assert_eq!(properties.display_name, Some("attachment".to_string()));
    assert_eq!(properties.get_content_language, Some("en".to_string()));
    assert_eq!(properties.get_content_length, Some(42));
    assert_eq!(properties.get_content_type, Some("text/plain".to_string()));
    assert_eq!(properties.get_etag, Some("\"abc\"".to_string()));
    assert_eq!(properties.get_last_modified, None);
}

#[test]
fn prop_element_skips_absent_properties() {
    let node = DavProperties::default().to_xml_prop(None);
    assert_eq!(node.write_element(&node), "<D:prop></D:prop>");
    let full = DavProperties {
        creation_date: Some("c".to_string()),
        display_name: Some("d".to_string()),
        get_content_language: Some("l".to_string()),
        get_content_length: Some(0),
        get_content_type: Some("t".to_string()),
        get_etag: Some("e".to_string()),
        get_last_modified: Some("m".to_string()),
    };
    let node = full.to_xml_prop(None);
    assert_eq!(
        node.write_element(&node),
        "<D:prop><D:creationdate>c</D:creationdate><D:displayname>d</D:displayname>\
<D:getcontentlanguage>l</D:getcontentlanguage><D:getcontentlength>0</D:getcontentlength>\
<D:getcontenttype>t</D:getcontenttype><D:getetag>e</D:getetag>\
<D:getlastmodified>m</D:getlastmodified></D:prop>"
    );
}
