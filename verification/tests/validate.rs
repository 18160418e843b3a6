use nbe::json::parse;
use nbe::validate::{
    check_transport, check_version, findings_verdict, validate_manifest, ValidationError,
};
use serde_json::Value;

const SCHEMA: &str = r#"{
  "$schema": "https://json-schema.org/draft/2020-12/schema",
  "type": "object",
  "required": ["manifestVersion", "network", "show", "assets", "scenes", "rundown", "control"],
  "properties": {
    "manifestVersion": { "enum": ["0.3", "0.4"] },
    "network": { "type": "object", "required": ["id", "name"] },
    "show": {
      "type": "object",
      "required": ["id", "title", "video", "audio", "fallbackAssetId"],
      "properties": {
        "outputs": {
          "type": "object",
          "properties": {
            "stream": {
              "type": "object",
              "properties": {
                "protocol": { "enum": ["rtmp"] },
                "url": { "type": "string" },
                "videoBitrateKbps": { "type": "integer" },
                "audioBitrateKbps": { "type": "integer" },
                "tapPath": { "enum": ["auto", "cpuReadback"] }
              },
              "additionalProperties": false
            },
            "record": {
              "type": "object",
              "properties": {
                "directory": { "type": "string" },
                "tapPath": { "enum": ["auto", "cpuReadback"] }
              },
              "additionalProperties": false
            }
          }
        }
      }
    },
    "assets": { "type": "array" },
    "scenes": { "type": "array" },
    "rundown": {
      "type": "object",
      "properties": {
        "items": {
          "type": "array",
          "items": {
            "type": "object",
            "properties": { "kind": { "enum": ["sceneRef", "slate", "timed"] } }
          }
        }
      }
    }
  }
}"#;

fn value(text: &str) -> Value {
    serde_json::from_str(text).unwrap()
}

fn minimal_valid_manifest() -> Value {
    value(
        r#"{
            "manifestVersion": "0.3",
            "network": { "id": "nbe", "name": "Test Network" },
            "show": {
                "id": "show",
                "title": "Test Show",
                "video": {
                    "width": 1920,
                    "height": 1080,
                    "frameRate": 30,
                    "colorSpace": "rec709"
                },
                "audio": {
                    "sampleRate": 48000,
                    "loudnessTargetLufs": -16,
                    "truePeakDbtp": -1.5
                },
                "fallbackAssetId": "fallback"
            },
            "assets": [
                { "id": "fallback", "kind": "image", "source": "media/fallback.png" }
            ],
            "scenes": [
                { "id": "SCN_A", "elements": [] }
            ],
            "rundown": {
                "id": "R",
                "items": [
                    { "id": "A1", "kind": "sceneRef", "sceneRef": "SCN_A" }
                ]
            },
            "control": { "bindings": [] }
        }"#,
    )
}

#[test]
fn a_sequenceref_item_is_refused_at_validation() {
    let mut m = minimal_valid_manifest();
    m["rundown"]["items"] = value(r#"[{ "id": "A1", "kind": "sequenceRef" }]"#);
    let err = validate_manifest(SCHEMA, &m).expect_err("a retired hook must not validate");
    let text = err.message();
    assert!(
        text.contains("kind") || text.contains("sequenceRef"),
        "the refusal must point at the retired field; got {text}"
    );
    assert!(validate_manifest(SCHEMA, &minimal_valid_manifest()).is_ok());
}

#[test]
fn valid_v03_manifest_passes() {
    let m = minimal_valid_manifest();
    assert!(validate_manifest(SCHEMA, &m).is_ok());
}

#[test]
fn v02_manifest_yields_migration_required() {
    let mut m = minimal_valid_manifest();
    m["manifestVersion"] = value("\"0.2\"");
    let err = validate_manifest(SCHEMA, &m).unwrap_err();
    match err {
        ValidationError::MigrationRequired { found } => assert_eq!(found, "0.2"),
        other => panic!("expected MigrationRequired, got: {other:?}"),
    }
}

#[test]
fn missing_version_is_malformed_not_migration() {
    let mut m = minimal_valid_manifest();
    m.as_object_mut().unwrap().remove("manifestVersion");
    let err = validate_manifest(SCHEMA, &m).unwrap_err();
    assert!(matches!(err, ValidationError::MissingVersion));
}

#[test]
fn a_refused_transport_fails_validation_and_says_why() {
    for (proto, expect_in_reason) in [("whip", "contribution output"), ("srt", "libsrt")] {
        let mut m = minimal_valid_manifest();
        m["show"]["outputs"] = value(&format!(
            r#"{{ "stream": {{ "protocol": "{proto}", "url": "rtmp://example.invalid/app/key" }} }}"#
        ));
        let err = validate_manifest(SCHEMA, &m)
            .expect_err("a transport this build cannot speak must not validate");
        let msg = err.message();
        assert!(msg.contains(proto), "the refusal must name the protocol, got: {msg}");
        assert!(
            msg.contains(expect_in_reason),
            "the refusal must carry the REASON, not just the rejection, got: {msg}"
        );
        assert!(
            matches!(err, ValidationError::RefusedTransport { .. }),
            "a refused transport is its own failure, not a generic schema violation"
        );
    }
}

#[test]
fn an_rtmp_manifest_with_an_endpoint_validates() {
    let mut m = minimal_valid_manifest();
    m["show"]["outputs"] = value(
        r#"{
            "stream": {
                "protocol": "rtmp",
                "url": "rtmp://example.invalid/app/key",
                "videoBitrateKbps": 8000,
                "audioBitrateKbps": 192,
                "tapPath": "auto"
            },
            "record": { "directory": "./out", "tapPath": "cpuReadback" }
        }"#,
    );
    validate_manifest(SCHEMA, &m).expect("the v1 transport with its endpoint must validate");
}

#[test]
fn the_schema_enum_refuses_an_unknown_transport_on_its_own() {
    let mut m = minimal_valid_manifest();
    m["show"]["outputs"] = value(r#"{ "stream": { "protocol": "hls" } }"#);
    let err =
        validate_manifest(SCHEMA, &m).expect_err("an unlisted protocol must not validate");
    assert!(
        matches!(err, ValidationError::SchemaViolation { .. }),
        "an unknown transport is the schema's to reject, got: {}",
        err.message()
    );
}

#[test]
fn schema_violation_reported() {
    let mut m = minimal_valid_manifest();
    m.as_object_mut().unwrap().remove("network");
    let err = validate_manifest(SCHEMA, &m).unwrap_err();
    assert!(matches!(err, ValidationError::SchemaViolation { .. }));
}

#[test]
fn error_message_mentions_nbe_migrate() {
    let mut m = minimal_valid_manifest();
    m["manifestVersion"] = value("\"0.2\"");
    let err = validate_manifest(SCHEMA, &m).unwrap_err();
    assert!(err.message().contains("nbe-migrate"));
}

#[test]
fn a_schema_that_cannot_be_used_is_said_so() {
    let err = validate_manifest("{ not json", &minimal_valid_manifest()).unwrap_err();
    assert!(matches!(err, ValidationError::SchemaCompile(_)));
    let err = validate_manifest(r#"{ "type": 7 }"#, &minimal_valid_manifest()).unwrap_err();
    assert!(matches!(err, ValidationError::SchemaCompile(_)));
}

#[test]
fn every_finding_is_told() {
    let mut m = minimal_valid_manifest();
    m.as_object_mut().unwrap().remove("network");
    m["show"]["outputs"] = value(r#"{ "stream": { "protocol": "hls" } }"#);
    match validate_manifest(SCHEMA, &m).unwrap_err() {
        ValidationError::SchemaViolation { details } => {
            assert!(details.contains("network"), "{details}");
            assert!(details.contains("hls"), "{details}");
        }
        other => panic!("{other:?}"),
    }
}

#[test]
fn the_checks_before_the_schema_read_the_tree() {
    let good = parse(r#"{"manifestVersion":"0.4"}"#).unwrap();
    assert!(check_version(&good).is_ok());
    assert!(check_transport(&good).is_ok());
    let old = parse(r#"{"manifestVersion":"0.1"}"#).unwrap();
    assert!(matches!(
        check_version(&old),
        Err(ValidationError::MigrationRequired { found }) if found == "0.1"
    ));
    let none = parse(r#"{}"#).unwrap();
    assert!(matches!(check_version(&none), Err(ValidationError::MissingVersion)));
}

#[test]
fn findings_are_told_one_to_a_line() {
    assert!(findings_verdict(Ok(Vec::new())).is_ok());
    let found = vec![("/a".to_string(), "x".to_string()), (String::new(), "y".to_string())];
    match findings_verdict(Ok(found)) {
        Err(ValidationError::SchemaViolation { details }) => assert_eq!(details, "/a: x\ny"),
        other => panic!("{other:?}"),
    }
    match findings_verdict(Err("bad".into())) {
        Err(ValidationError::SchemaCompile(why)) => assert_eq!(why, "bad"),
        other => panic!("{other:?}"),
    }
}
