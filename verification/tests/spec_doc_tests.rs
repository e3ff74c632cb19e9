use shipc::err::ErrorKind;
use shipc::json::{to_pretty_bytes, Json};
use shipc::mutate::{check_spec_shape, mount_entry, mutate_doc, mutate_spec_text};
use shipc::parse::parse_json;
use shipc::volume::Volume;

fn obj(entries: Vec<(&str, Json)>) -> Json {
    Json::Obj(entries.into_iter().map(|(k, v)| (k.as_bytes().to_vec(), v)).collect())
}

fn jstr(s: &str) -> Json {
    Json::Str(s.as_bytes().to_vec())
}

fn get<'a>(doc: &'a Json, key: &str) -> Option<&'a Json> {
    match doc {
        Json::Obj(es) => es.iter().find(|e| e.0 == key.as_bytes()).map(|e| &e.1),
        _ => None,
    }
}

#[test]
fn parser_reads_scalars_sequences_and_mappings() {
    let text = b"{ \"a\": -12.5e3, \"b\": true, \"c\": null, \"d\": [1, \"x\"] }".to_vec();
    let doc = parse_json(&text).ok().unwrap();
    assert_eq!(get(&doc, "a"), Some(&Json::Num(b"-12.5e3".to_vec())));
    assert_eq!(get(&doc, "b"), Some(&Json::Bool(true)));
    assert_eq!(get(&doc, "c"), Some(&Json::Null));
    assert_eq!(
        get(&doc, "d"),
        Some(&Json::Arr(vec![Json::Num(b"1".to_vec()), jstr("x")]))
    );
}

#[test]
fn parser_reads_trivial_documents() {
    assert_eq!(parse_json(&b"{}".to_vec()).ok(), Some(Json::Obj(vec![])));
    assert_eq!(parse_json(&b"[]".to_vec()).ok(), Some(Json::Arr(vec![])));
    assert_eq!(parse_json(&b"null".to_vec()).ok(), Some(Json::Null));
    assert_eq!(parse_json(&b"  \"x\"  ".to_vec()).ok(), Some(jstr("x")));
    assert_eq!(parse_json(&b"0".to_vec()).ok(), Some(Json::Num(b"0".to_vec())));
}

#[test]
fn parser_keeps_escapes_as_written() {
    let text = b"{\"s\": \"a\\n\\\"b\\u00e9\"}".to_vec();
    let doc = parse_json(&text).ok().unwrap();
    assert_eq!(get(&doc, "s"), Some(&Json::Str(b"a\\n\\\"b\\u00e9".to_vec())));
}

#[test]
fn parser_rejects_malformed_text() {
    for bad in [
        &b"not json"[..],
        &b"{\"a\": }"[..],
        &b"{\"a\": 1,}"[..],
        &b"[1, 2"[..],
        &b"{\"a\" 1}"[..],
        &b"01"[..],
        &b"\"unterminated"[..],
        &b""[..],
        &b"{} trailing"[..],
    ] {
        let e = parse_json(&bad.to_vec()).err().unwrap();
        assert_eq!(e.kind, ErrorKind::Internal);
        assert_eq!(e.message, "Internal error: invalid bundle spec");
    }
}

#[test]
fn pretty_printer_matches_the_expected_layout() {
    let doc = obj(vec![
        ("a", Json::Num(b"1".to_vec())),
        ("b", Json::Arr(vec![])),
        ("c", obj(vec![("d", jstr("x"))])),
    ]);
    let text = String::from_utf8(to_pretty_bytes(&doc)).unwrap();
    assert_eq!(
        text,
        "{\n  \"a\": 1,\n  \"b\": [],\n  \"c\": {\n    \"d\": \"x\"\n  }\n}"
    );
}

#[test]
fn pretty_printer_agrees_with_serde_json() {
    let doc = obj(vec![
        ("hostname", jstr("h")),
        ("mounts", Json::Arr(vec![])),
        ("n", Json::Num(b"42".to_vec())),
        ("t", Json::Bool(false)),
        ("z", Json::Null),
    ]);
    let ours = to_pretty_bytes(&doc);
    let theirs: serde_json::Value = serde_json::from_slice(&ours).unwrap();
    assert_eq!(theirs["hostname"], serde_json::Value::String("h".to_string()));
    assert_eq!(theirs["n"].as_i64(), Some(42));
    assert_eq!(theirs["t"].as_bool(), Some(false));
    assert!(theirs["z"].is_null());
    assert_eq!(theirs["mounts"].as_array().map(|a| a.len()), Some(0));
}

#[test]
fn mutation_sets_hostname_appends_mounts_and_keeps_the_rest() {
    let doc = obj(vec![
        ("ociVersion", jstr("1.0.0")),
        ("hostname", jstr("old-host")),
        ("process", obj(vec![("cwd", jstr("/"))])),
        ("mounts", Json::Arr(vec![obj(vec![("destination", jstr("/proc"))])])),
        ("linux", obj(vec![])),
    ]);
    let id = b"abc234def5677".to_vec();
    let vols = vec![Volume { source: b"/host/data".to_vec(), destination: b"/data".to_vec() }];
    let out = mutate_doc(doc, &id, &vols).ok().unwrap();
    assert_eq!(get(&out, "hostname"), Some(&jstr("abc234def5677")));
    assert_eq!(get(&out, "ociVersion"), Some(&jstr("1.0.0")));
    assert_eq!(get(&out, "process"), Some(&obj(vec![("cwd", jstr("/"))])));
    assert_eq!(get(&out, "linux"), Some(&obj(vec![])));
    let expected_mounts = Json::Arr(vec![
        obj(vec![("destination", jstr("/proc"))]),
        mount_entry(&b"/host/data".to_vec(), &b"/data".to_vec()),
    ]);
    assert_eq!(get(&out, "mounts"), Some(&expected_mounts));
}

#[test]
fn mount_entries_have_the_bind_shape() {
    let m = mount_entry(&b"/host/data".to_vec(), &b"/data".to_vec());
    let expected = obj(vec![
        ("source", jstr("/host/data")),
        ("destination", jstr("/data")),
        ("type", jstr("bind")),
        ("options", Json::Arr(vec![jstr("rbind"), jstr("rw")])),
    ]);
    assert_eq!(m, expected);
}

#[test]
fn mutation_requires_a_hostname_field() {
    let doc = obj(vec![("mounts", Json::Arr(vec![]))]);
    let e = mutate_doc(doc, &b"abc234def5677".to_vec(), &vec![]).err().unwrap();
    assert_eq!(e.kind, ErrorKind::Internal);
    assert_eq!(e.message, "Internal error: invalid bundle spec");
}

#[test]
fn mutation_requires_a_mounts_sequence() {
    let no_mounts = obj(vec![("hostname", jstr("h"))]);
    assert!(mutate_doc(no_mounts, &b"a".to_vec(), &vec![]).is_err());
    let wrong_shape = obj(vec![("hostname", jstr("h")), ("mounts", Json::Null)]);
    assert!(mutate_doc(wrong_shape, &b"a".to_vec(), &vec![]).is_err());
}

#[test]
fn mutation_rejects_a_non_mapping_document() {
    let e = mutate_doc(Json::Arr(vec![]), &b"a".to_vec(), &vec![]).err().unwrap();
    assert_eq!(e.kind, ErrorKind::Internal);
}

#[test]
fn round_trip_preserves_untouched_fields() {
    let text = b"{\n  \"ociVersion\": \"1.0.0\",\n  \"hostname\": \"old\",\n  \"mounts\": [],\n  \"root\": {\"path\": \"rootfs\", \"readonly\": false}\n}"
        .to_vec();
    let id = b"abc234def5677".to_vec();
    let vols = vec![Volume { source: b"/host/data".to_vec(), destination: b"/data".to_vec() }];
    let out_text = mutate_spec_text(&text, &id, &vols).ok().unwrap();
    let reparsed = parse_json(&out_text).ok().unwrap();
    assert_eq!(get(&reparsed, "hostname"), Some(&jstr("abc234def5677")));
    assert_eq!(get(&reparsed, "ociVersion"), Some(&jstr("1.0.0")));
    assert_eq!(
        get(&reparsed, "root"),
        Some(&obj(vec![("path", jstr("rootfs")), ("readonly", Json::Bool(false))]))
    );
    let expected_mounts = Json::Arr(vec![mount_entry(
        &b"/host/data".to_vec(),
        &b"/data".to_vec(),
    )]);
    assert_eq!(get(&reparsed, "mounts"), Some(&expected_mounts));
    // the emitted text is plain JSON for any other consumer too
    let v: serde_json::Value = serde_json::from_slice(&out_text).unwrap();
    assert_eq!(v["hostname"].as_str(), Some("abc234def5677"));
    assert_eq!(v["mounts"][0]["source"].as_str(), Some("/host/data"));
    assert_eq!(v["mounts"][0]["destination"].as_str(), Some("/data"));
    assert_eq!(v["mounts"][0]["type"].as_str(), Some("bind"));
    assert_eq!(v["mounts"][0]["options"][0].as_str(), Some("rbind"));
    assert_eq!(v["mounts"][0]["options"][1].as_str(), Some("rw"));
}

#[test]
fn staged_pipeline_produces_expected_bundle_spec() {
    // directory-form image whose bundle spec starts with empty mounts
    let text = b"{\"hostname\": \"x\", \"mounts\": []}".to_vec();
    let id = shipc::identity::generate();
    assert_eq!(id.len(), 13);
    assert!(id.iter().all(|&b| (b'a'..=b'z').contains(&b) || (b'2'..=b'7').contains(&b)));
    let vols = vec![Volume { source: b"/host/data".to_vec(), destination: b"/data".to_vec() }];
    let out_text = mutate_spec_text(&text, &id, &vols).ok().unwrap();
    let v: serde_json::Value = serde_json::from_slice(&out_text).unwrap();
    assert_eq!(v["hostname"].as_str().unwrap().as_bytes(), &id[..]);
    let mounts = v["mounts"].as_array().unwrap();
    assert_eq!(mounts.len(), 1);
    assert_eq!(mounts[0]["source"].as_str(), Some("/host/data"));
    assert_eq!(mounts[0]["destination"].as_str(), Some("/data"));
    assert_eq!(mounts[0]["type"].as_str(), Some("bind"));
}

#[test]
fn escaped_paths_survive_serialization() {
    let text = b"{\"hostname\": \"x\", \"mounts\": []}".to_vec();
    let id = b"abc234def5677".to_vec();
    let vols = vec![Volume {
        source: b"/host/we\"ird\\path".to_vec(),
        destination: b"/da\nta".to_vec(),
    }];
    let out_text = mutate_spec_text(&text, &id, &vols).ok().unwrap();
    let v: serde_json::Value = serde_json::from_slice(&out_text).unwrap();
    assert_eq!(v["mounts"][0]["source"].as_str(), Some("/host/we\"ird\\path"));
    assert_eq!(v["mounts"][0]["destination"].as_str(), Some("/da\nta"));
}

#[test]
fn duplicate_keys_are_kept_and_the_first_is_mutated() {
    let doc = obj(vec![
        ("hostname", jstr("a")),
        ("hostname", jstr("b")),
        ("mounts", Json::Arr(vec![])),
    ]);
    let out = mutate_doc(doc, &b"abc234def5677".to_vec(), &vec![]).ok().unwrap();
    match &out {
        Json::Obj(es) => {
            assert_eq!(es.len(), 3);
            assert_eq!(es[0], (b"hostname".to_vec(), jstr("abc234def5677")));
            assert_eq!(es[1], (b"hostname".to_vec(), jstr("b")));
        },
        _ => panic!("expected a mapping"),
    }
}

#[test]
fn parser_tolerates_interleaved_whitespace() {
    let text = b"{\r\n\t\"hostname\" : \"h\" ,\n \"mounts\" : [ ] }".to_vec();
    let doc = parse_json(&text).ok().unwrap();
    assert_eq!(get(&doc, "hostname"), Some(&jstr("h")));
    assert_eq!(get(&doc, "mounts"), Some(&Json::Arr(vec![])));
}

#[test]
fn parser_reads_deep_nesting() {
    let text = b"[[{\"a\": [{}]}], []]".to_vec();
    let doc = parse_json(&text).ok().unwrap();
    let expected = Json::Arr(vec![
        Json::Arr(vec![obj(vec![("a", Json::Arr(vec![obj(vec![])]))])]),
        Json::Arr(vec![]),
    ]);
    assert_eq!(doc, expected);
}

#[test]
fn shape_check_agrees_with_mutation() {
    let good = obj(vec![("hostname", jstr("h")), ("mounts", Json::Arr(vec![]))]);
    assert!(check_spec_shape(&good).is_ok());
    let no_hostname = obj(vec![("mounts", Json::Arr(vec![]))]);
    let e = check_spec_shape(&no_hostname).err().unwrap();
    assert_eq!(e.kind, ErrorKind::Internal);
    assert_eq!(e.message, "Internal error: invalid bundle spec");
    let bad_mounts = obj(vec![("hostname", jstr("h")), ("mounts", jstr("x"))]);
    assert!(check_spec_shape(&bad_mounts).is_err());
    assert!(check_spec_shape(&Json::Null).is_err());
}

#[test]
fn unparsable_spec_text_is_an_internal_error() {
    let e = mutate_spec_text(&b"###".to_vec(), &b"a".to_vec(), &vec![]).err().unwrap();
    assert_eq!(e.kind, ErrorKind::Internal);
    assert_eq!(e.message, "Internal error: invalid bundle spec");
}
