use ding::api::{
    ApiSpec, Component, Components, CompletionError, ContentEntry, MediaType, Operation,
    ParamLocation, PathEntry, PathItem, RefOr, RequestBody, Schema, SpecParameter,
};
use ding::engine::complete_request;
use ding::fields::Field;
use ding::render::{cursor_position, render_request, splice_pipeline};
use ding::request::Request;
use ding::table::build_parameter_table;
use ding::text::find_curl_segment;

fn param(location: ParamLocation, name: &str, example: Option<&str>) -> SpecParameter {
    SpecParameter {
        location,
        name: name.to_string(),
        example: example.map(|e| e.to_string()),
    }
}

fn no_ops() -> PathItem {
    PathItem { get: None, post: None, put: None, delete: None, patch: None, head: None, options: None }
}

fn petstore() -> ApiSpec {
    let list_pets = Operation {
        parameters: vec![
            RefOr::Reference("#/components/parameters/limit".to_string()),
            RefOr::Item(param(ParamLocation::Query, "name", Some("\"doggie\""))),
            RefOr::Item(param(ParamLocation::Query, "age", Some("3"))),
        ],
        request_body: None,
    };
    let create_pet = Operation {
        parameters: vec![],
        request_body: Some(RefOr::Reference("#/components/requestBodies/Pet".to_string())),
    };
    let header_pets = Operation {
        parameters: vec![
            RefOr::Item(param(ParamLocation::Header, "limit", Some("10"))),
            RefOr::Item(param(ParamLocation::Header, "name", Some("\"doggie\""))),
        ],
        request_body: None,
    };
    let mut pets = no_ops();
    pets.get = Some(list_pets);
    pets.post = Some(create_pet);
    let mut pets_header = no_ops();
    pets_header.get = Some(header_pets);
    ApiSpec {
        paths: vec![
            PathEntry { path: "/pets".to_string(), item: Some(pets) },
            PathEntry { path: "/petsHeader".to_string(), item: Some(pets_header) },
        ],
        components: Some(Components {
            parameters: vec![Component {
                key: "limit".to_string(),
                entry: RefOr::Item(param(ParamLocation::Query, "limit", Some("10"))),
            }],
            request_bodies: vec![Component {
                key: "Pet".to_string(),
                entry: RefOr::Item(RequestBody {
                    content: vec![ContentEntry {
                        media_type: "application/json".to_string(),
                        media: MediaType {
                            example: Some("{\"name\":\"doggie\",\"tag\":\"dog\"}".to_string()),
                            schema: None,
                        },
                    }],
                }),
            }],
            schemas: vec![],
        }),
    }
}

fn request(method: &str, path: &str, headers: &[(&str, &str)], query: &[(&str, &str)]) -> Request {
    Request {
        method: method.to_string(),
        url: format!("https://localhost:9000{}", path),
        path: path.to_string(),
        headers: headers.iter().map(|(k, v)| Field::new(k, v)).collect(),
        query: query.iter().map(|(k, v)| Field::new(k, v)).collect(),
        body: None,
    }
}

fn query_of(req: &Request) -> Vec<(String, String)> {
    req.query.iter().map(|f| (f.name.clone(), f.value.clone())).collect()
}

fn headers_of(req: &Request) -> Vec<(String, String)> {
    req.headers.iter().map(|f| (f.name.clone(), f.value.clone())).collect()
}

fn pair(k: &str, v: &str) -> (String, String) {
    (k.to_string(), v.to_string())
}

#[test]
fn complete_query_parameter() {
    let spec = petstore();
    let mut req = request("GET", "/pets", &[("accept", "*/*")], &[]);
    assert_eq!(complete_request(&mut req, &spec), Ok(()));
    assert_eq!(query_of(&req), vec![pair("age", "3")]);
    assert_eq!(
        render_request(&req),
        "curl -X GET -G https://localhost:9000/pets --data-urlencode 'age=3'"
    );
}

#[test]
fn alternates_query_parameters() {
    let spec = petstore();
    let mut req = request("GET", "/pets", &[], &[("limit", "")]);
    assert_eq!(complete_request(&mut req, &spec), Ok(()));
    assert_eq!(query_of(&req), vec![pair("name", "\"doggie\"")]);
    assert_eq!(
        render_request(&req),
        "curl -X GET -G https://localhost:9000/pets --data-urlencode 'name=\"doggie\"'"
    );
    assert_eq!(complete_request(&mut req, &spec), Ok(()));
    assert_eq!(query_of(&req), vec![pair("name", "\"doggie\""), pair("age", "3")]);
}

#[test]
fn emptied_last_query_parameter_wraps_to_first() {
    let spec = petstore();
    let mut req = request("GET", "/pets", &[], &[("name", "")]);
    assert_eq!(complete_request(&mut req, &spec), Ok(()));
    assert_eq!(query_of(&req), vec![pair("age", "3")]);
}

#[test]
fn emptied_slot_skips_populated_parameters() {
    let spec = petstore();
    let mut req = request("GET", "/pets", &[], &[("age", ""), ("limit", "5")]);
    assert_eq!(complete_request(&mut req, &spec), Ok(()));
    assert_eq!(query_of(&req), vec![pair("limit", "5"), pair("name", "\"doggie\"")]);
}

#[test]
fn cleared_slot_with_all_others_populated_is_refilled() {
    let spec = petstore();
    let mut req = request("GET", "/pets", &[], &[("age", "1"), ("limit", ""), ("name", "x")]);
    assert_eq!(complete_request(&mut req, &spec), Ok(()));
    assert_eq!(query_of(&req), vec![pair("age", "1"), pair("name", "x"), pair("limit", "10")]);
}

#[test]
fn populated_request_is_left_unchanged() {
    let spec = petstore();
    let mut req = request("GET", "/pets", &[], &[("age", "1"), ("limit", "2"), ("name", "x")]);
    assert_eq!(complete_request(&mut req, &spec), Ok(()));
    let first = render_request(&req);
    assert_eq!(complete_request(&mut req, &spec), Ok(()));
    assert_eq!(render_request(&req), first);
    assert_eq!(query_of(&req), vec![pair("age", "1"), pair("limit", "2"), pair("name", "x")]);
}

#[test]
fn complete_header_parameter() {
    let spec = petstore();
    let mut req = request("GET", "/petsHeader", &[("accept", "*/*")], &[]);
    assert_eq!(complete_request(&mut req, &spec), Ok(()));
    assert_eq!(headers_of(&req), vec![pair("limit", "10")]);
    assert_eq!(render_request(&req), "curl -X GET https://localhost:9000/petsHeader -H \"limit: 10\"");
}

#[test]
fn alternates_header_parameters() {
    let spec = petstore();
    let mut req = request("GET", "/petsHeader", &[("limit", "")], &[]);
    assert_eq!(complete_request(&mut req, &spec), Ok(()));
    assert_eq!(headers_of(&req), vec![pair("name", "\"doggie\"")]);
    assert_eq!(
        render_request(&req),
        "curl -X GET https://localhost:9000/petsHeader -H \"name: \"doggie\"\""
    );
    assert_eq!(complete_request(&mut req, &spec), Ok(()));
    assert_eq!(headers_of(&req), vec![pair("name", "\"doggie\""), pair("limit", "10")]);
}

#[test]
fn header_parameter_name_is_matched_without_case() {
    let mut spec = petstore();
    if let Some(item) = spec.paths[1].item.as_mut() {
        item.get = Some(Operation {
            parameters: vec![RefOr::Item(param(ParamLocation::Header, "X-Trace", Some("7")))],
            request_body: None,
        });
    }
    let mut req = request("GET", "/petsHeader", &[], &[]);
    assert_eq!(complete_request(&mut req, &spec), Ok(()));
    assert_eq!(headers_of(&req), vec![pair("x-trace", "7")]);
    assert_eq!(complete_request(&mut req, &spec), Ok(()));
    assert_eq!(headers_of(&req), vec![pair("x-trace", "7")]);
}

#[test]
fn header_without_example_is_shown_empty() {
    let mut spec = petstore();
    if let Some(item) = spec.paths[1].item.as_mut() {
        item.get = Some(Operation {
            parameters: vec![RefOr::Item(param(ParamLocation::Header, "token", None))],
            request_body: None,
        });
    }
    let mut req = request("GET", "/petsHeader", &[], &[]);
    assert_eq!(complete_request(&mut req, &spec), Ok(()));
    assert_eq!(headers_of(&req), vec![pair("token", "\"\"")]);
    assert_eq!(render_request(&req), "curl -X GET https://localhost:9000/petsHeader -H \"token: \"");
}

#[test]
fn header_with_unencodable_example_becomes_invalid() {
    let mut spec = petstore();
    if let Some(item) = spec.paths[1].item.as_mut() {
        item.get = Some(Operation {
            parameters: vec![RefOr::Item(param(ParamLocation::Header, "note", Some("a\nb")))],
            request_body: None,
        });
    }
    let mut req = request("GET", "/petsHeader", &[], &[]);
    assert_eq!(complete_request(&mut req, &spec), Ok(()));
    assert_eq!(headers_of(&req), vec![pair("note", "invalid")]);
}

#[test]
fn header_with_non_ascii_value_is_shown_empty() {
    let req = Request {
        method: "GET".to_string(),
        url: "https://h/p".to_string(),
        path: "/p".to_string(),
        headers: vec![Field::new("x", "caf\u{e9}")],
        query: vec![],
        body: None,
    };
    assert_eq!(render_request(&req), "curl -X GET https://h/p -H \"x: \"");
}

#[test]
fn invalid_header_parameter_name_is_an_error() {
    let mut spec = petstore();
    if let Some(item) = spec.paths[1].item.as_mut() {
        item.get = Some(Operation {
            parameters: vec![RefOr::Item(param(ParamLocation::Header, "bad name", Some("1")))],
            request_body: None,
        });
    }
    let mut req = request("GET", "/petsHeader", &[], &[]);
    assert_eq!(complete_request(&mut req, &spec), Err(CompletionError::InvalidHeaderName));
}

#[test]
fn complete_request_body_parameter() {
    let spec = petstore();
    let mut req = request("POST", "/pets", &[("accept", "*/*")], &[]);
    assert_eq!(complete_request(&mut req, &spec), Ok(()));
    assert_eq!(
        headers_of(&req),
        vec![pair("content-type", "application/json"), pair("accept", "application/json")]
    );
    assert_eq!(req.body, Some("{\"name\":\"doggie\",\"tag\":\"dog\"}".to_string()));
    assert!(req.query.is_empty());
    assert_eq!(
        render_request(&req),
        "curl -X POST https://localhost:9000/pets -H \"content-type: application/json\" -H \"accept: application/json\" -d '{\n  \"name\": \"doggie\",\n  \"tag\": \"dog\"\n}'"
    );
}

#[test]
fn body_from_schema_example() {
    let mut spec = petstore();
    if let Some(c) = spec.components.as_mut() {
        c.request_bodies[0].entry = RefOr::Item(RequestBody {
            content: vec![
                ContentEntry {
                    media_type: "text/plain".to_string(),
                    media: MediaType { example: Some("\"x\"".to_string()), schema: None },
                },
                ContentEntry {
                    media_type: "application/json".to_string(),
                    media: MediaType {
                        example: None,
                        schema: Some(RefOr::Reference("#/components/schemas/Pet".to_string())),
                    },
                },
            ],
        });
        c.schemas.push(Component {
            key: "Pet".to_string(),
            entry: RefOr::Item(Schema { example: Some("[1,2]".to_string()) }),
        });
    }
    let mut req = request("POST", "/pets", &[], &[]);
    assert_eq!(complete_request(&mut req, &spec), Ok(()));
    assert_eq!(req.body, Some("[1,2]".to_string()));
    assert_eq!(
        render_request(&req),
        "curl -X POST https://localhost:9000/pets -H \"content-type: application/json\" -H \"accept: application/json\" -d '[\n  1,\n  2\n]'"
    );
}

#[test]
fn body_without_json_content_is_left_out() {
    let mut spec = petstore();
    if let Some(c) = spec.components.as_mut() {
        c.request_bodies[0].entry = RefOr::Item(RequestBody {
            content: vec![ContentEntry {
                media_type: "text/plain".to_string(),
                media: MediaType { example: Some("\"x\"".to_string()), schema: None },
            }],
        });
    }
    let mut req = request("POST", "/pets", &[], &[]);
    assert_eq!(complete_request(&mut req, &spec), Ok(()));
    assert_eq!(req.body, None);
    assert!(req.headers.is_empty());
}

#[test]
fn existing_body_is_kept() {
    let spec = petstore();
    let mut req = request("POST", "/pets", &[("content-type", "application/json")], &[]);
    req.body = Some("{\"a\":1}".to_string());
    assert_eq!(complete_request(&mut req, &spec), Ok(()));
    assert_eq!(req.body, Some("{\"a\":1}".to_string()));
    assert_eq!(headers_of(&req), vec![pair("content-type", "application/json")]);
}

#[test]
fn body_that_is_not_json_is_written_as_empty_object() {
    let req = Request {
        method: "POST".to_string(),
        url: "https://h/p".to_string(),
        path: "/p".to_string(),
        headers: vec![],
        query: vec![Field::new("a", "1")],
        body: Some("not json".to_string()),
    };
    assert_eq!(render_request(&req), "curl -X POST https://h/p -d '{}'");
}

#[test]
fn unknown_path_is_an_error() {
    let spec = petstore();
    let mut req = request("GET", "/pets/1", &[], &[]);
    assert_eq!(complete_request(&mut req, &spec), Err(CompletionError::NoMatchingPath));
}

#[test]
fn path_given_by_reference_is_an_error() {
    let mut spec = petstore();
    spec.paths[0].item = None;
    let mut req = request("GET", "/pets", &[], &[]);
    assert_eq!(complete_request(&mut req, &spec), Err(CompletionError::NoMatchingPath));
}

#[test]
fn unknown_method_is_an_error() {
    let spec = petstore();
    let mut req = request("DELETE", "/pets", &[], &[]);
    assert_eq!(complete_request(&mut req, &spec), Err(CompletionError::NoMatchingOperation));
    let mut req = request("get", "/pets", &[], &[]);
    assert_eq!(complete_request(&mut req, &spec), Err(CompletionError::NoMatchingOperation));
}

#[test]
fn missing_component_is_an_error() {
    let mut spec = petstore();
    if let Some(c) = spec.components.as_mut() {
        c.parameters[0].key = "max".to_string();
    }
    let mut req = request("GET", "/pets", &[], &[]);
    assert_eq!(complete_request(&mut req, &spec), Err(CompletionError::UnresolvedReference));
}

#[test]
fn missing_components_is_an_error() {
    let mut spec = petstore();
    spec.components = None;
    let mut req = request("GET", "/pets", &[], &[]);
    assert_eq!(complete_request(&mut req, &spec), Err(CompletionError::UnresolvedReference));
}

#[test]
fn cyclic_reference_is_an_error() {
    let mut spec = petstore();
    if let Some(c) = spec.components.as_mut() {
        c.parameters[0].entry = RefOr::Reference("#/components/parameters/limit".to_string());
    }
    let mut req = request("GET", "/pets", &[], &[]);
    assert_eq!(complete_request(&mut req, &spec), Err(CompletionError::UnresolvedReference));
}

#[test]
fn chained_reference_resolves() {
    let mut spec = petstore();
    if let Some(c) = spec.components.as_mut() {
        c.parameters[0].entry = RefOr::Reference("#/components/parameters/max".to_string());
        c.parameters.push(Component {
            key: "max".to_string(),
            entry: RefOr::Item(param(ParamLocation::Query, "limit", Some("99"))),
        });
    }
    let mut req = request("GET", "/pets", &[], &[("age", "1"), ("name", "n")]);
    assert_eq!(complete_request(&mut req, &spec), Ok(()));
    assert_eq!(query_of(&req), vec![pair("age", "1"), pair("name", "n"), pair("limit", "99")]);
}

#[test]
fn parameter_table_is_sorted_and_keeps_last_declaration() {
    let op = Operation {
        parameters: vec![
            RefOr::Item(param(ParamLocation::Query, "name", Some("1"))),
            RefOr::Item(param(ParamLocation::Query, "age", None)),
            RefOr::Item(param(ParamLocation::Other, "id", None)),
            RefOr::Item(param(ParamLocation::Header, "name", Some("2"))),
        ],
        request_body: None,
    };
    let table = build_parameter_table(&op, &None).unwrap();
    let names: Vec<&str> = table.iter().map(|p| p.name.as_str()).collect();
    assert_eq!(names, vec!["age", "id", "name"]);
    assert_eq!(table[2].location, ParamLocation::Header);
    assert_eq!(table[2].example, Some("2".to_string()));
}

#[test]
fn no_curl_segment_is_found() {
    assert_eq!(find_curl_segment("echo hi | jq ."), None);
    assert_eq!(find_curl_segment(""), None);
    assert_eq!(find_curl_segment("  curl -X GET https://h/p"), Some(0));
    assert_eq!(find_curl_segment("echo a |curl x | curl y"), Some(1));
}

#[test]
fn complete_command_with_pipe_end() {
    let input = "curl -X GET https://localhost:9000/pets | jq .";
    let pos = find_curl_segment(input).unwrap();
    assert_eq!(pos, 0);
    let spec = petstore();
    let mut req = request("GET", "/pets", &[("accept", "*/*")], &[]);
    assert_eq!(complete_request(&mut req, &spec), Ok(()));
    let rendered = render_request(&req);
    assert_eq!(
        splice_pipeline(input, pos, &rendered),
        "curl -X GET -G https://localhost:9000/pets --data-urlencode 'age=3' | jq ."
    );
    assert_eq!(cursor_position(input, pos, &rendered), Some(rendered.len() - 1));
}

#[test]
fn complete_command_with_pipe_start() {
    let input = "echo -n \"test\" | curl -X GET https://localhost:9000/pets";
    let pos = find_curl_segment(input).unwrap();
    assert_eq!(pos, 1);
    let spec = petstore();
    let mut req = request("GET", "/pets", &[("accept", "*/*")], &[]);
    assert_eq!(complete_request(&mut req, &spec), Ok(()));
    let rendered = render_request(&req);
    assert_eq!(
        splice_pipeline(input, pos, &rendered),
        "echo -n \"test\" | curl -X GET -G https://localhost:9000/pets --data-urlencode 'age=3'"
    );
    assert_eq!(
        cursor_position(input, pos, &rendered),
        Some("echo -n \"test\"".len() + rendered.len() - 1)
    );
    assert_eq!(cursor_position(input, pos, &rendered), Some(80));
}

#[test]
fn complete_command_with_pipe_start_and_end() {
    let input = "echo -n \"test\" | curl -X GET https://localhost:9000/pets | jq .";
    let pos = find_curl_segment(input).unwrap();
    assert_eq!(pos, 1);
    let rendered = "curl -X GET -G https://localhost:9000/pets --data-urlencode 'age=3'";
    assert_eq!(
        splice_pipeline(input, pos, rendered),
        "echo -n \"test\" | curl -X GET -G https://localhost:9000/pets --data-urlencode 'age=3' | jq ."
    );
    assert_eq!(cursor_position(input, pos, rendered), Some(14 + rendered.len() - 1));
}

#[test]
fn cursor_counts_bytes() {
    let input = "echo \u{e9}t\u{e9} |curl x";
    assert_eq!(cursor_position(input, 1, "curl y"), Some(10 + 6 - 1));
    assert_eq!(splice_pipeline(input, 1, "curl y"), "echo \u{e9}t\u{e9} | curl y");
}
