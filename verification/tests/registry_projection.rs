use cxdb::projection::project_msgpack;
use cxdb::projection::{BytesRender, EnumRender, RenderOptions, TimeRender, U64Format};
use cxdb::registry::{PutOutcome, Registry};
use cxdb::registry_types::RendererSpec;
use cxdb::error::StoreError;
use cxdb::json::{Json, JsonNumber};
use rmpv::Value;

fn renderer_of<'a>(renderers: &'a [(String, RendererSpec)], type_id: &str) -> Option<&'a RendererSpec> {
    renderers.iter().find(|(id, _)| id == type_id).map(|(_, r)| r)
}

fn default_options() -> RenderOptions {
    RenderOptions {
        bytes_render: BytesRender::Base64,
        u64_format: U64Format::String,
        enum_render: EnumRender::Label,
        time_render: TimeRender::Iso,
        include_unknown: true,
    }
}

#[test]
fn registry_ingest_and_project() {
    let mut registry = Registry::open(&Vec::new()).expect("open registry");

    let bundle = r#"
    {
      "registry_version": 1,
      "bundle_id": "2025-12-19T00:00:00Z#test",
      "types": {
        "com.example.Message": {
          "versions": {
            "1": {
              "fields": {
                "1": { "name": "role", "type": "u8", "enum": "com.example.Role" },
                "2": { "name": "text", "type": "string" }
              }
            }
          }
        }
      },
      "enums": {
        "com.example.Role": { "1": "system", "2": "user" }
      }
    }
    "#;

    registry
        .put_bundle("2025-12-19T00:00:00Z#test", bundle.as_bytes())
        .expect("put bundle");

    let desc = registry
        .get_type_version("com.example.Message", 1)
        .expect("descriptor");

    let map = vec![
        (Value::Integer(1.into()), Value::Integer(2.into())),
        (Value::Integer(2.into()), Value::String("hello".into())),
        (Value::Integer(9.into()), Value::Integer(42.into())),
    ];
    let value = Value::Map(map);

    let mut buf = Vec::new();
    rmpv::encode::write_value(&mut buf, &value).expect("encode msgpack");

    let options = RenderOptions {
        bytes_render: BytesRender::Base64,
        u64_format: U64Format::String,
        enum_render: EnumRender::Label,
        time_render: TimeRender::Iso,
        include_unknown: true,
    };

    let projection = project_msgpack(&buf, desc, &registry, &options).expect("project");
    assert!(projection.data.as_object().is_some());
    let data = &projection.data;
    assert_eq!(data.get("role").unwrap().as_str().unwrap(), "user");
    assert_eq!(data.get("text").unwrap().as_str().unwrap(), "hello");

    let unknown = projection.unknown.expect("unknown");
    assert!(unknown.as_object().is_some());
    assert!(unknown.get("9").is_some());
}

#[test]
fn nested_type_references() {
    let mut registry = Registry::open(&Vec::new()).expect("open registry");

    // Bundle with nested type references
    let bundle = r#"
    {
      "registry_version": 1,
      "bundle_id": "nested-test",
      "types": {
        "test:Item": {
          "versions": {
            "1": {
              "fields": {
                "1": { "name": "item_type", "type": "string" },
                "2": { "name": "nested", "type": "ref", "ref": "test:Nested" },
                "3": { "name": "items", "type": "array", "items": { "type": "ref", "ref": "test:ArrayItem" } }
              }
            }
          }
        },
        "test:Nested": {
          "versions": {
            "1": {
              "fields": {
                "1": { "name": "name", "type": "string" },
                "2": { "name": "value", "type": "int64" }
              }
            }
          }
        },
        "test:ArrayItem": {
          "versions": {
            "1": {
              "fields": {
                "1": { "name": "id", "type": "string" },
                "2": { "name": "count", "type": "int32" }
              }
            }
          }
        }
      },
      "enums": {}
    }
    "#;

    registry
        .put_bundle("nested-test", bundle.as_bytes())
        .expect("put bundle");
    let desc = registry
        .get_type_version("test:Item", 1)
        .expect("descriptor");

    // Build msgpack with nested structures using numeric tags
    // Item { item_type: "foo", nested: { name: "bar", value: 42 }, items: [{ id: "x", count: 1 }] }
    let nested_map = vec![
        (Value::Integer(1.into()), Value::String("bar".into())),
        (Value::Integer(2.into()), Value::Integer(42.into())),
    ];
    let array_item = vec![
        (Value::Integer(1.into()), Value::String("x".into())),
        (Value::Integer(2.into()), Value::Integer(1.into())),
    ];
    let root_map = vec![
        (Value::Integer(1.into()), Value::String("foo".into())),
        (Value::Integer(2.into()), Value::Map(nested_map)),
        (
            Value::Integer(3.into()),
            Value::Array(vec![Value::Map(array_item)]),
        ),
    ];
    let value = Value::Map(root_map);

    let mut buf = Vec::new();
    rmpv::encode::write_value(&mut buf, &value).expect("encode msgpack");

    let projection = project_msgpack(&buf, desc, &registry, &default_options()).expect("project");
    assert!(projection.data.as_object().is_some());
    let data = &projection.data;

    // Check top-level field
    assert_eq!(data.get("item_type").unwrap().as_str().unwrap(), "foo");

    // Check nested type was projected correctly (not raw numeric keys)
    let nested = data.get("nested").unwrap();
    assert!(nested.as_object().is_some());
    assert_eq!(nested.get("name").unwrap().as_str().unwrap(), "bar");
    assert_eq!(nested.get("value").unwrap().as_str().unwrap(), "42"); // u64 formatted as string

    // Check array items were projected correctly
    let items = data.get("items").unwrap().as_array().expect("items array");
    assert_eq!(items.len(), 1);
    let first_item = &items[0];
    assert!(first_item.as_object().is_some());
    assert_eq!(first_item.get("id").unwrap().as_str().unwrap(), "x");
    assert_eq!(first_item.get("count").unwrap().as_i64().unwrap(), 1);
}

#[test]
fn bundle_with_renderer_parses() {
    let mut registry = Registry::open(&Vec::new()).expect("open registry");

    // Bundle with renderer specification
    let bundle = r#"
    {
      "registry_version": 1,
      "bundle_id": "renderer-test",
      "types": {
        "test:Message": {
          "versions": {
            "1": {
              "fields": {
                "1": { "name": "text", "type": "string" }
              },
              "renderer": {
                "esm_url": "builtin:MessageRenderer",
                "component": "MessageRendererWrapper",
                "integrity": "sha384-abc123"
              }
            }
          }
        }
      },
      "enums": {}
    }
    "#;

    registry
        .put_bundle("renderer-test", bundle.as_bytes())
        .expect("put bundle");

    // Verify the renderer was parsed and preserved
    let spec = registry
        .get_type_version("test:Message", 1)
        .expect("type version");

    let renderer = spec.renderer.as_ref().expect("renderer should exist");
    assert_eq!(renderer.esm_url, "builtin:MessageRenderer");
    assert_eq!(
        renderer.component.as_ref().unwrap(),
        "MessageRendererWrapper"
    );
    assert_eq!(renderer.integrity.as_ref().unwrap(), "sha384-abc123");
}

#[test]
fn bundle_without_renderer_backward_compat() {
    let mut registry = Registry::open(&Vec::new()).expect("open registry");

    // Bundle without renderer (old format)
    let bundle = r#"
    {
      "registry_version": 1,
      "bundle_id": "no-renderer-test",
      "types": {
        "test:OldType": {
          "versions": {
            "1": {
              "fields": {
                "1": { "name": "value", "type": "int32" }
              }
            }
          }
        }
      },
      "enums": {}
    }
    "#;

    registry
        .put_bundle("no-renderer-test", bundle.as_bytes())
        .expect("put bundle");

    // Verify the type was ingested correctly without renderer
    let spec = registry
        .get_type_version("test:OldType", 1)
        .expect("type version");

    assert!(
        spec.renderer.is_none(),
        "renderer should be None for old bundles"
    );
    assert!(spec.fields.iter().any(|(tag, _)| *tag == 1));
}

#[test]
fn get_all_renderers() {
    let mut registry = Registry::open(&Vec::new()).expect("open registry");

    // Bundle with multiple types, some with renderers
    let bundle = r#"
    {
      "registry_version": 1,
      "bundle_id": "multi-renderer-test",
      "types": {
        "test:TypeA": {
          "versions": {
            "1": {
              "fields": { "1": { "name": "a", "type": "string" } },
              "renderer": { "esm_url": "builtin:RendererA" }
            }
          }
        },
        "test:TypeB": {
          "versions": {
            "1": {
              "fields": { "1": { "name": "b", "type": "string" } }
            }
          }
        },
        "test:TypeC": {
          "versions": {
            "1": {
              "fields": { "1": { "name": "c1", "type": "string" } }
            },
            "2": {
              "fields": { "1": { "name": "c2", "type": "string" } },
              "renderer": { "esm_url": "builtin:RendererC", "component": "CWrapper" }
            }
          }
        }
      },
      "enums": {}
    }
    "#;

    registry
        .put_bundle("multi-renderer-test", bundle.as_bytes())
        .expect("put bundle");

    let renderers = registry.get_all_renderers();

    // TypeA has a renderer
    assert!(renderer_of(&renderers, "test:TypeA").is_some());
    assert_eq!(
        renderer_of(&renderers, "test:TypeA").unwrap().esm_url,
        "builtin:RendererA"
    );

    // TypeB has no renderer
    assert!(renderer_of(&renderers, "test:TypeB").is_none());

    // TypeC uses latest version (v2) which has a renderer
    assert!(renderer_of(&renderers, "test:TypeC").is_some());
    let c_renderer = renderer_of(&renderers, "test:TypeC").unwrap();
    assert_eq!(c_renderer.esm_url, "builtin:RendererC");
    assert_eq!(c_renderer.component.as_ref().unwrap(), "CWrapper");
}

#[test]
fn map_with_ref_recursively_projects() {
    // Regression test: a bundle schema may use `"type": "map"` with a separate
    // `"ref"` attribute for nested types.  The projection engine must treat
    // this the same as `"type": "ref"` and recursively decode nested fields
    // to named keys.
    let mut registry = Registry::open(&Vec::new()).expect("open registry");

    let bundle = r#"
    {
      "registry_version": 1,
      "bundle_id": "map-ref-test",
      "types": {
        "test:Outer": {
          "versions": {
            "1": {
              "fields": {
                "1": { "name": "item_type", "type": "string" },
                "13": { "name": "handoff", "type": "map", "ref": "test:Inner", "optional": true }
              }
            }
          }
        },
        "test:Inner": {
          "versions": {
            "1": {
              "fields": {
                "1": { "name": "from_agent", "type": "string" },
                "2": { "name": "to_agent", "type": "string" },
                "5": { "name": "reason", "type": "string" }
              }
            }
          }
        }
      },
      "enums": {}
    }
    "#;

    registry
        .put_bundle("map-ref-test", bundle.as_bytes())
        .expect("put bundle");
    let desc = registry
        .get_type_version("test:Outer", 1)
        .expect("descriptor");

    // Build msgpack: Outer { item_type: "handoff", handoff: Inner { from_agent: "root", to_agent: "explorer", reason: "delegation" } }
    let inner_map = vec![
        (Value::Integer(1.into()), Value::String("root".into())),
        (Value::Integer(2.into()), Value::String("explorer".into())),
        (Value::Integer(5.into()), Value::String("delegation".into())),
    ];
    let root_map = vec![
        (Value::Integer(1.into()), Value::String("handoff".into())),
        (Value::Integer(13.into()), Value::Map(inner_map)),
    ];
    let value = Value::Map(root_map);

    let mut buf = Vec::new();
    rmpv::encode::write_value(&mut buf, &value).expect("encode msgpack");

    let projection = project_msgpack(&buf, desc, &registry, &default_options()).expect("project");
    assert!(projection.data.as_object().is_some());
    let data = &projection.data;

    // Top-level field decoded
    assert_eq!(data.get("item_type").unwrap().as_str().unwrap(), "handoff");

    // Nested map+ref field MUST have named keys, not numeric string keys
    let handoff = data.get("handoff").expect("handoff field present");
    assert!(handoff.as_object().is_some());
    assert_eq!(handoff.get("from_agent").unwrap().as_str().unwrap(), "root");
    assert_eq!(
        handoff.get("to_agent").unwrap().as_str().unwrap(),
        "explorer"
    );
    assert_eq!(
        handoff.get("reason").unwrap().as_str().unwrap(),
        "delegation"
    );

    // Verify numeric keys are NOT present (regression guard)
    assert!(
        handoff.get("1").is_none(),
        "numeric key '1' should not appear in typed view"
    );
    assert!(
        handoff.get("2").is_none(),
        "numeric key '2' should not appear in typed view"
    );
}

#[test]
fn array_shorthand_ref_recursively_projects() {
    // Regression test: a bundle schema may use `"items": { "ref": "T" }`
    // (without `"type": "ref"`) for array items.  The registry parser must
    // treat this shorthand the same as the long form `{"type":"ref","ref":"T"}`.
    let mut registry = Registry::open(&Vec::new()).expect("open registry");

    let bundle = r#"
    {
      "registry_version": 1,
      "bundle_id": "shorthand-ref-test",
      "types": {
        "test:Parent": {
          "versions": {
            "1": {
              "fields": {
                "1": { "name": "label", "type": "string" },
                "2": { "name": "children", "type": "array", "items": { "ref": "test:Child" }, "optional": true }
              }
            }
          }
        },
        "test:Child": {
          "versions": {
            "1": {
              "fields": {
                "1": { "name": "name", "type": "string" },
                "2": { "name": "score", "type": "int32" }
              }
            }
          }
        }
      },
      "enums": {}
    }
    "#;

    registry
        .put_bundle("shorthand-ref-test", bundle.as_bytes())
        .expect("put bundle");
    let desc = registry
        .get_type_version("test:Parent", 1)
        .expect("descriptor");

    // Build msgpack: Parent { label: "grp", children: [Child { name: "a", score: 10 }] }
    let child_map = vec![
        (Value::Integer(1.into()), Value::String("a".into())),
        (Value::Integer(2.into()), Value::Integer(10.into())),
    ];
    let root_map = vec![
        (Value::Integer(1.into()), Value::String("grp".into())),
        (
            Value::Integer(2.into()),
            Value::Array(vec![Value::Map(child_map)]),
        ),
    ];
    let value = Value::Map(root_map);

    let mut buf = Vec::new();
    rmpv::encode::write_value(&mut buf, &value).expect("encode msgpack");

    let projection = project_msgpack(&buf, desc, &registry, &default_options()).expect("project");
    assert!(projection.data.as_object().is_some());
    let data = &projection.data;

    assert_eq!(data.get("label").unwrap().as_str().unwrap(), "grp");

    let children = data
        .get("children")
        .unwrap()
        .as_array()
        .expect("children array");
    assert_eq!(children.len(), 1);

    let child = &children[0];
    assert!(child.as_object().is_some());
    // Must have named keys, not numeric string keys
    assert_eq!(child.get("name").unwrap().as_str().unwrap(), "a");
    assert_eq!(child.get("score").unwrap().as_i64().unwrap(), 10);
    assert!(
        child.get("1").is_none(),
        "numeric key '1' should not appear in shorthand ref array items"
    );
}

fn encode(value: &Value) -> Vec<u8> {
    let mut buf = Vec::new();
    rmpv::encode::write_value(&mut buf, value).expect("encode msgpack");
    buf
}

const ROLE_BUNDLE_A: &str = r#"{
  "registry_version": 1,
  "bundle_id": "A",
  "types": { "T": { "versions": { "1": { "fields": {
      "1": { "name": "role", "type": "u8", "enum": "R" } } } } } },
  "enums": { "R": { "1": "system", "2": "user" } }
}"#;

#[test]
fn put_bundle_twice_exists_and_other_bytes_are_refused() {
    let mut registry = Registry::new();
    assert_eq!(registry.put_bundle("A", ROLE_BUNDLE_A.as_bytes()).unwrap(), PutOutcome::Created);
    assert_eq!(registry.last_bundle_id().as_deref(), Some("A"));
    assert_eq!(
        registry.put_bundle("A", ROLE_BUNDLE_A.as_bytes()).unwrap(),
        PutOutcome::AlreadyExists
    );
    let other = ROLE_BUNDLE_A.replace("system", "root");
    let err = registry.put_bundle("A", other.as_bytes()).unwrap_err();
    assert!(matches!(err, StoreError::InvalidInput(_)));
    assert_eq!(registry.get_bundle("A"), Some(ROLE_BUNDLE_A.as_bytes()));
    let stats = registry.stats();
    assert_eq!((stats.bundles_total, stats.types_total, stats.enums_total), (1, 1, 1));
}

#[test]
fn tag_reuse_with_another_signature_is_refused() {
    let mut registry = Registry::new();
    registry.put_bundle("A", ROLE_BUNDLE_A.as_bytes()).expect("bundle A");
    let bundle_b = r#"{
      "registry_version": 1,
      "bundle_id": "B",
      "types": { "T": { "versions": { "2": { "fields": {
          "1": { "name": "role", "type": "string" } } } } } }
    }"#;
    let err = registry.put_bundle("B", bundle_b.as_bytes()).unwrap_err();
    assert!(matches!(err, StoreError::InvalidInput(_)));
    let v1 = registry.get_type_version("T", 1).expect("v1 still there");
    assert_eq!(v1.fields.len(), 1);
    assert_eq!(v1.fields[0].0, 1);
    assert_eq!(v1.fields[0].1.name, "role");
    assert_eq!(v1.fields[0].1.field_type, "u8");
    assert_eq!(v1.fields[0].1.enum_ref.as_deref(), Some("R"));
    assert!(registry.get_type_version("T", 2).is_none());
    assert!(registry.get_bundle("B").is_none());
    assert_eq!(registry.last_bundle_id().as_deref(), Some("A"));
    assert_eq!(registry.get_latest_type_version("T").unwrap().version, 1);
}

#[test]
fn put_bundle_refuses_what_does_not_ingest() {
    let mut registry = Registry::new();
    let cases: Vec<(&str, String)> = vec![
        ("x", "not json".to_string()),
        ("x", r#"{"registry_version":1,"bundle_id":"y"}"#.to_string()),
        ("x", r#"{"registry_version":0,"bundle_id":"x"}"#.to_string()),
        ("x", r#"{"bundle_id":"x"}"#.to_string()),
        ("x", r#"{"registry_version":1.5,"bundle_id":"x"}"#.to_string()),
        ("x", r#"{"registry_version":1,"bundle_id":"x","types":null}"#.to_string()),
        (
            "x",
            r#"{"registry_version":1,"bundle_id":"x","types":{"T":{"versions":{"one":{}}}}}"#
                .to_string(),
        ),
        (
            "x",
            r#"{"registry_version":1,"bundle_id":"x","types":{"T":{"versions":{"1":{"fields":{"a":{"name":"n","type":"u8"}}}}}}}"#
                .to_string(),
        ),
        (
            "x",
            r#"{"registry_version":1,"bundle_id":"x","types":{"T":{"versions":{"1":{"fields":{"1":{"name":"n","type":"u8","enum":"Missing"}}}}}}}"#
                .to_string(),
        ),
        (
            "x",
            r#"{"registry_version":1,"bundle_id":"x","types":{"T":{"versions":{"1":{"fields":{"1":{"type":"u8"}}}}}}}"#
                .to_string(),
        ),
    ];
    for (id, raw) in cases {
        let err = registry.put_bundle(id, raw.as_bytes()).unwrap_err();
        assert!(matches!(err, StoreError::InvalidInput(_)), "{raw}");
        assert_eq!(registry.stats().bundles_total, 0);
        assert_eq!(registry.stats().types_total, 0);
        assert_eq!(registry.stats().enums_total, 0);
    }
    assert_eq!(
        registry
            .put_bundle("x", br#"{"registry_version":1,"bundle_id":"x"}"#)
            .unwrap(),
        PutOutcome::Created
    );
}

#[test]
fn a_held_version_must_keep_its_fields_and_may_get_a_renderer() {
    let mut registry = Registry::new();
    let first = r#"{"registry_version":1,"bundle_id":"one","types":{"T":{"versions":{
        "1":{"fields":{"10":{"name":"a","type":"string"},"9":{"name":"b","type":"u64"}}}}}}}"#;
    registry.put_bundle("one", first.as_bytes()).expect("first");
    let same_with_renderer = r#"{"registry_version":1,"bundle_id":"two","types":{"T":{"versions":{
        "01":{"fields":{"09":{"name":"b","type":"u64"},"10":{"name":"a","type":"string"}},
              "renderer":{"esm_url":"builtin:R"}}}}}}"#;
    assert_eq!(
        registry.put_bundle("two", same_with_renderer.as_bytes()).unwrap(),
        PutOutcome::Created
    );
    let v1 = registry.get_type_version("T", 1).expect("v1");
    assert_eq!(v1.renderer.as_ref().unwrap().esm_url, "builtin:R");
    let changed = r#"{"registry_version":1,"bundle_id":"three","types":{"T":{"versions":{
        "1":{"fields":{"10":{"name":"a","type":"string"}}}}}}}"#;
    assert!(registry.put_bundle("three", changed.as_bytes()).is_err());
    let enums_differ_a = r#"{"registry_version":1,"bundle_id":"e1","enums":{"E":{"1":"a"}}}"#;
    let enums_differ_b = r#"{"registry_version":1,"bundle_id":"e2","enums":{"E":{"1":"b"}}}"#;
    registry.put_bundle("e1", enums_differ_a.as_bytes()).expect("e1");
    assert!(registry.put_bundle("e2", enums_differ_b.as_bytes()).is_err());
    assert_eq!(registry.get_enum("E").unwrap(), &vec![("1".to_string(), "a".to_string())]);
}

#[test]
fn registry_opens_over_kept_bundles() {
    let files = vec![
        ROLE_BUNDLE_A.as_bytes().to_vec(),
        br#"{"registry_version":1,"bundle_id":"later"}"#.to_vec(),
    ];
    let registry = Registry::open(&files).expect("open");
    assert_eq!(registry.last_bundle_id().as_deref(), Some("later"));
    assert!(registry.get_type_version("T", 1).is_some());
    let err = Registry::open(&vec![b"{".to_vec()]).unwrap_err();
    assert!(matches!(err, StoreError::Corrupt(_)));
    let err = Registry::open(&vec![br#"{"registry_version":0,"bundle_id":"z"}"#.to_vec()])
        .unwrap_err();
    assert!(matches!(err, StoreError::InvalidInput(_)));
}

#[test]
fn bundle_file_names_are_sanitised() {
    assert_eq!(
        cxdb::registry::bundle_filename("2025-12-19T00:00:00Z#test/a"),
        "bundle_2025-12-19T00_00_00Z_test_a.json"
    );
    assert_eq!(cxdb::registry::parse_version("12").unwrap(), 12);
    assert!(cxdb::registry::parse_version("4294967296").is_err());
    assert!(cxdb::registry::parse_version("v1").is_err());
}

#[test]
fn projection_renders_by_the_options() {
    let mut registry = Registry::new();
    let bundle = r#"{
      "registry_version": 1,
      "bundle_id": "opts",
      "types": { "T": { "versions": { "1": { "fields": {
        "1": { "name": "role", "type": "u8", "enum": "R" },
        "2": { "name": "big", "type": "u64" },
        "3": { "name": "raw", "type": "bytes" },
        "4": { "name": "when", "type": "unix_ms" },
        "5": { "name": "flag", "type": "bool" },
        "6": { "name": "small", "type": "int32" },
        "7": { "name": "list", "type": "array", "items": "u64" },
        "8": { "name": "any", "type": "mystery" },
        "9": { "name": "absent", "type": "string" }
      } } } } },
      "enums": { "R": { "2": "user" } }
    }"#;
    registry.put_bundle("opts", bundle.as_bytes()).expect("bundle");
    let desc = registry.get_type_version("T", 1).expect("descriptor");
    let payload = encode(&Value::Map(vec![
        (Value::from(1), Value::from(2)),
        (Value::from("2"), Value::from(u64::MAX)),
        (Value::from(3), Value::Binary(vec![0x00, 0xff, 0x10])),
        (Value::from(4), Value::from(947638923004u64)),
        (Value::from(5), Value::Boolean(true)),
        (Value::from(6), Value::from(-5)),
        (Value::from(7), Value::Array(vec![Value::from(1), Value::from("x")])),
        (Value::from(8), Value::Map(vec![(Value::from(1), Value::Nil)])),
        (Value::from(50), Value::from("first")),
        (Value::from(50), Value::from("last")),
    ]));

    let a = RenderOptions {
        bytes_render: BytesRender::Base64,
        u64_format: U64Format::String,
        enum_render: EnumRender::Label,
        time_render: TimeRender::Iso,
        include_unknown: true,
    };
    let p = project_msgpack(&payload, desc, &registry, &a).expect("project");
    assert_eq!(p.data.get("role").unwrap().as_str(), Some("user"));
    assert_eq!(p.data.get("big").unwrap().as_str(), Some("18446744073709551615"));
    assert_eq!(p.data.get("raw").unwrap().as_str(), Some("AP8Q"));
    assert_eq!(p.data.get("when").unwrap().as_str(), Some("2000-01-12T01:02:03.004+00:00"));
    assert_eq!(p.data.get("flag").unwrap().as_bool(), Some(true));
    assert_eq!(p.data.get("small").unwrap().as_i64(), Some(-5));
    let list = p.data.get("list").unwrap().as_array().unwrap();
    assert_eq!(list.len(), 2);
    assert_eq!(list[0].as_str(), Some("1"));
    assert!(matches!(list[1], Json::Null));
    assert!(matches!(p.data.get("any").unwrap().get("1"), Some(Json::Null)));
    assert!(p.data.get("absent").is_none());
    let unknown = p.unknown.expect("unknown");
    assert_eq!(unknown.as_object().unwrap().len(), 1);
    assert_eq!(unknown.get("50").unwrap().as_str(), Some("last"));

    let b = RenderOptions {
        bytes_render: BytesRender::Hex,
        u64_format: U64Format::Number,
        enum_render: EnumRender::Both,
        time_render: TimeRender::UnixMs,
        include_unknown: false,
    };
    let p = project_msgpack(&payload, desc, &registry, &b).expect("project");
    let role = p.data.get("role").unwrap();
    assert_eq!(role.get("label").unwrap().as_str(), Some("user"));
    assert_eq!(role.get("value").unwrap().as_u64(), Some(2));
    assert_eq!(p.data.get("big").unwrap().as_u64(), Some(u64::MAX));
    assert_eq!(p.data.get("raw").unwrap().as_str(), Some("00ff10"));
    assert_eq!(p.data.get("when").unwrap().as_u64(), Some(947638923004));
    assert!(p.unknown.is_none());

    let c = RenderOptions { bytes_render: BytesRender::LenOnly, enum_render: EnumRender::Number, ..b };
    let p = project_msgpack(&payload, desc, &registry, &c).expect("project");
    assert!(matches!(p.data.get("role").unwrap(), Json::Number(JsonNumber::PosInt(2))));
    assert_eq!(p.data.get("raw").unwrap().as_u64(), Some(3));
}

#[test]
fn projection_refuses_what_is_no_map_and_is_repeatable() {
    let mut registry = Registry::new();
    registry.put_bundle("A", ROLE_BUNDLE_A.as_bytes()).expect("bundle");
    let desc = registry.get_type_version("T", 1).expect("descriptor");
    let opts = default_options();
    let err = project_msgpack(&encode(&Value::from(1)), desc, &registry, &opts).err().unwrap();
    assert!(matches!(err, StoreError::InvalidInput(_)));
    let err = project_msgpack(&[0xc1], desc, &registry, &opts).err().unwrap();
    assert!(matches!(err, StoreError::InvalidInput(_)));

    let payload = encode(&Value::Map(vec![
        (Value::from(1), Value::from(7)),
        (Value::from(2), Value::F64(1.5)),
    ]));
    let first = project_msgpack(&payload, desc, &registry, &opts).expect("first");
    let second = project_msgpack(&payload, desc, &registry, &opts).expect("second");
    assert_eq!(format!("{:?}", first.data), format!("{:?}", second.data));
    assert_eq!(format!("{:?}", first.unknown), format!("{:?}", second.unknown));
    // The value 7 has no label: it is rendered by its base type.
    assert_eq!(first.data.get("role").unwrap().as_i64(), Some(7));
    assert!(matches!(
        first.unknown.as_ref().unwrap().get("2"),
        Some(Json::Number(JsonNumber::Float(bits))) if *bits == 1.5f64.to_bits()
    ));
}
