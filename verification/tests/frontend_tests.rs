use rjrssync::boss_frontend::{
    parse_spec_contents, resolve_spec, AllDestructiveBehaviour, DestEntryNeedsDeletingBehaviour,
    DestFileUpdateBehaviour, DestRootNeedsDeletingBehaviour, Spec, SpecArgs, SyncSpec, spec_from_documents,
    YamlNode, YamlValue,
};
use rjrssync::remote_desc::RemotePathDesc;

fn no_args() -> SpecArgs {
    SpecArgs {
        src: None,
        dest: None,
        spec: None,
        filters: vec![],
        dest_file_newer: None,
        dest_file_older: None,
        dest_entry_needs_deleting: None,
        dest_root_needs_deleting: None,
        all_destructive_behaviour: None,
    }
}

#[test]
fn test_parse_spec_file_empty() {
    assert!(parse_spec_contents("").unwrap_err().contains("Expected at least one YAML document"));
}

#[test]
fn test_parse_spec_file_invalid_syntax() {
    assert!(parse_spec_contents("!!\n").unwrap_err().contains("did not find expected tag"));
}

#[test]
fn test_parse_spec_file_all_fields() {
    let contents = r#"
            src_hostname: "computer1"
            src_username: "user1"
            dest_hostname: "computer2"
            dest_username: "user2"
            syncs:
            - src: T:\Source1
              dest: T:\Dest1
              filters: [ "-exclude1", "-exclude2" ]
              dest_file_newer_behaviour: error
              dest_file_older_behaviour: skip
              dest_entry_needs_deleting_behaviour: prompt
              dest_root_needs_deleting_behaviour: delete         
            - src: T:\Source2
              dest: T:\Dest2
              filters: [ "-exclude3", "-exclude4" ]
              dest_file_newer_behaviour: prompt
              dest_file_older_behaviour: overwrite
              dest_entry_needs_deleting_behaviour: error
              dest_root_needs_deleting_behaviour: skip         
        "#;

    let expected_result = Spec {
        src_hostname: "computer1".to_string(),
        src_username: "user1".to_string(),
        dest_hostname: "computer2".to_string(),
        dest_username: "user2".to_string(),
        syncs: vec![
            SyncSpec {
                src: "T:\\Source1".to_string(),
                dest: "T:\\Dest1".to_string(),
                filters: vec!["-exclude1".to_string(), "-exclude2".to_string()],
                dest_file_newer_behaviour: DestFileUpdateBehaviour::Error,
                dest_file_older_behaviour: DestFileUpdateBehaviour::Skip,
                dest_entry_needs_deleting_behaviour: DestEntryNeedsDeletingBehaviour::Prompt,
                dest_root_needs_deleting_behaviour: DestRootNeedsDeletingBehaviour::Delete,
            },
            SyncSpec {
                src: "T:\\Source2".to_string(),
                dest: "T:\\Dest2".to_string(),
                filters: vec!["-exclude3".to_string(), "-exclude4".to_string()],
                dest_file_newer_behaviour: DestFileUpdateBehaviour::Prompt,
                dest_file_older_behaviour: DestFileUpdateBehaviour::Overwrite,
                dest_entry_needs_deleting_behaviour: DestEntryNeedsDeletingBehaviour::Error,
                dest_root_needs_deleting_behaviour: DestRootNeedsDeletingBehaviour::Skip,
            },
        ],
    };

    assert_eq!(parse_spec_contents(contents), Ok(expected_result));
}

#[test]
fn test_parse_spec_file_default_fields() {
    let contents = r#"
            syncs:
            - src: T:\Source1
              dest: T:\Dest1
        "#;
    let expected_result = Spec {
        src_hostname: "".to_string(),
        src_username: "".to_string(),
        dest_hostname: "".to_string(),
        dest_username: "".to_string(),
        syncs: vec![SyncSpec {
            src: "T:\\Source1".to_string(),
            dest: "T:\\Dest1".to_string(),
            filters: vec![],
            ..Default::default()
        }],
    };
    assert_eq!(parse_spec_contents(contents), Ok(expected_result));
}

#[test]
fn test_parse_spec_file_missing_required_src() {
    let contents = r#"
            syncs:
            - src: T:\Source1
        "#;
    assert!(parse_spec_contents(contents).unwrap_err().contains("dest must be provided and non-empty"));
}

#[test]
fn test_parse_spec_file_missing_required_dest() {
    let contents = r#"
            syncs:
            - dest: T:\Dest1
        "#;
    assert!(parse_spec_contents(contents).unwrap_err().contains("src must be provided and non-empty"));
}

#[test]
fn test_parse_spec_file_invalid_root() {
    assert!(parse_spec_contents("123").unwrap_err().contains("Document root must be a dictionary"));
}

#[test]
fn test_parse_spec_file_invalid_string_field() {
    assert!(parse_spec_contents("dest_hostname: [ 341 ]").unwrap_err().contains("Unexpected value for 'dest_hostname'"));
}

#[test]
fn test_parse_spec_file_invalid_field_name() {
    assert!(parse_spec_contents("this-isnt-valid: 0").unwrap_err().contains("Unexpected key in root dictionary"));
}

#[test]
fn test_parse_spec_file_invalid_syncs_field() {
    assert!(parse_spec_contents("syncs: 0").unwrap_err().contains("Unexpected value for 'syncs'"));
}

#[test]
fn test_parse_spec_file_invalid_sync_spec_type() {
    let contents = r#"
            syncs:
            - not-a-dict
        "#;
    assert!(parse_spec_contents(contents).unwrap_err().contains("Sync value must be a dictionary"));
}

#[test]
fn test_parse_spec_file_invalid_sync_spec_field() {
    let contents = r#"
            syncs:
            - unexpected-field: 0
        "#;
    assert!(parse_spec_contents(contents).unwrap_err().contains("Unexpected key in 'syncs' entry"));
}

#[test]
fn test_parse_spec_file_invalid_filters_type() {
    let contents = r#"
            syncs:
            - filters: 0
        "#;
    assert!(parse_spec_contents(contents).unwrap_err().contains("Unexpected value for 'filters'"));
}

#[test]
fn test_parse_spec_file_invalid_filters_element() {
    let contents = r#"
            syncs:
            - filters: [ 9 ]
        "#;
    assert!(parse_spec_contents(contents).unwrap_err().contains("Unexpected value in 'filters' array"));
}

#[test]
fn test_parse_spec_file_invalid_behaviour_value() {
    let contents = r#"
            syncs:
            - dest_file_newer_behaviour: notallowed
        "#;
    assert!(parse_spec_contents(contents).unwrap_err().contains("Invalid variant: notallowed"));
}

#[test]
fn resolve_spec_overrides() {
    let contents = r#"
            syncs:
            - src: a
              dest: b
              filters: [ +hello ]
              dest_file_newer_behaviour: skip
              dest_root_needs_deleting_behaviour: error
            - src: c
              dest: d

        "#;
    let args = SpecArgs {
        spec: Some("spec.yaml".to_string()),
        filters: vec!["-meow".to_string()],
        dest_file_newer: Some(DestFileUpdateBehaviour::Error),
        ..no_args()
    };
    let spec = resolve_spec(&args, Some(Ok(contents.to_string()))).unwrap();
    assert_eq!(spec, Spec {
        syncs: vec![
            SyncSpec {
                src: "a".to_string(),
                dest: "b".to_string(),
                filters: vec!["-meow".into()],
                dest_file_newer_behaviour: DestFileUpdateBehaviour::Error,
                dest_root_needs_deleting_behaviour: DestRootNeedsDeletingBehaviour::Error,
                ..Default::default()
            },
            SyncSpec {
                src: "c".to_string(),
                dest: "d".to_string(),
                filters: vec!["-meow".into()],
                dest_file_newer_behaviour: DestFileUpdateBehaviour::Error,
                ..Default::default()
            },
        ],
        ..Default::default()
    });
}

#[test]
fn all_destructive_behaviour_override() {
    let contents = r#"
            syncs:
            - src: a
              dest: b
              dest_file_newer_behaviour: skip
              dest_root_needs_deleting_behaviour: prompt
            - src: c
              dest: d
        "#;
    let args = SpecArgs {
        spec: Some("spec.yaml".to_string()),
        all_destructive_behaviour: Some(AllDestructiveBehaviour::Error),
        ..no_args()
    };
    let spec = resolve_spec(&args, Some(Ok(contents.to_string()))).unwrap();
    let expected = |src: &str, dest: &str| SyncSpec {
        src: src.to_string(),
        dest: dest.to_string(),
        dest_file_newer_behaviour: DestFileUpdateBehaviour::Error,
        dest_file_older_behaviour: DestFileUpdateBehaviour::Error,
        dest_entry_needs_deleting_behaviour: DestEntryNeedsDeletingBehaviour::Error,
        dest_root_needs_deleting_behaviour: DestRootNeedsDeletingBehaviour::Error,
        ..Default::default()
    };
    assert_eq!(spec, Spec { syncs: vec![expected("a", "b"), expected("c", "d")], ..Default::default() });
}

#[test]
fn proceed_for_all_destructive_actions_overwrites_and_deletes() {
    let args = SpecArgs {
        src: Some(RemotePathDesc::from_str("x").unwrap()),
        dest: Some(RemotePathDesc::from_str("h:y").unwrap()),
        all_destructive_behaviour: Some(AllDestructiveBehaviour::Proceed),
        dest_file_older: Some(DestFileUpdateBehaviour::Skip),
        ..no_args()
    };
    let spec = resolve_spec(&args, None).unwrap();
    assert_eq!(spec.dest_hostname, "h");
    assert_eq!(spec.syncs, vec![SyncSpec {
        src: "x".to_string(),
        dest: "y".to_string(),
        dest_file_newer_behaviour: DestFileUpdateBehaviour::Overwrite,
        // Given individually, so kept.
        dest_file_older_behaviour: DestFileUpdateBehaviour::Skip,
        dest_entry_needs_deleting_behaviour: DestEntryNeedsDeletingBehaviour::Delete,
        dest_root_needs_deleting_behaviour: DestRootNeedsDeletingBehaviour::Delete,
        ..Default::default()
    }]);
}

#[test]
fn unreadable_spec_file_is_reported_with_its_path() {
    let args = SpecArgs { spec: Some("missing.yaml".to_string()), ..no_args() };
    let e = resolve_spec(&args, Some(Err("No such file or directory (os error 2)".to_string()))).unwrap_err();
    assert_eq!(e, "Failed to parse spec file at 'missing.yaml': No such file or directory (os error 2)");
}

#[test]
fn behaviour_names_ignore_case() {
    assert_eq!(DestFileUpdateBehaviour::from_str("OverWrite"), Ok(DestFileUpdateBehaviour::Overwrite));
    assert_eq!(DestEntryNeedsDeletingBehaviour::from_str("DELETE"), Ok(DestEntryNeedsDeletingBehaviour::Delete));
    assert_eq!(DestRootNeedsDeletingBehaviour::from_str("skip"), Ok(DestRootNeedsDeletingBehaviour::Skip));
    assert_eq!(AllDestructiveBehaviour::from_str("Proceed"), Ok(AllDestructiveBehaviour::Proceed));
    assert_eq!(AllDestructiveBehaviour::from_str("go"), Err("Invalid variant: go".to_string()));
}

#[test]
fn sync_spec_defaults() {
    let d = SyncSpec::default();
    assert_eq!(d.dest_file_newer_behaviour, DestFileUpdateBehaviour::Prompt);
    assert_eq!(d.dest_file_older_behaviour, DestFileUpdateBehaviour::Overwrite);
    assert_eq!(d.dest_entry_needs_deleting_behaviour, DestEntryNeedsDeletingBehaviour::Delete);
    assert_eq!(d.dest_root_needs_deleting_behaviour, DestRootNeedsDeletingBehaviour::Prompt);
    assert!(d.src.is_empty() && d.dest.is_empty() && d.filters.is_empty());
}

#[test]
fn spec_from_parsed_documents() {
    let text = |s: &str| YamlValue { node: YamlNode::String(s.to_string()), debug: format!("String({:?})", s) };
    assert_eq!(spec_from_documents(&vec![]).err(), Some("Expected at least one YAML document".to_string()));
    assert_eq!(spec_from_documents(&vec![text("x")]).err(), Some("Document root must be a dictionary".to_string()));
    let doc = YamlValue { node: YamlNode::Hash(vec![(text("src_hostname"), text("computer1"))]), debug: String::new() };
    let spec = spec_from_documents(&vec![doc]).ok().unwrap();
    assert_eq!(spec.src_hostname, "computer1");
    assert_eq!(spec.syncs.len(), 0);
}
