use graph_ingest::data::model::{
    get_id_from_url, last_segment_of, NodeId, Relation, NAMESPACE_UUID,
};

#[test]
fn namespace_has_high_half_set_and_low_half_clear() {
    assert_eq!(NAMESPACE_UUID >> 64, u64::MAX as u128);
    assert_eq!(NAMESPACE_UUID & (u64::MAX as u128), 0);
}

#[test]
fn identity_is_the_sha1_uuid_of_ingestion_slash_url() {
    let id = get_id_from_url("t1".to_string(), "a".to_string());
    assert_eq!(id.bits, 0xc596342e722b56259e3f793eee75ff33u128);
    let id = get_id_from_url("t1".to_string(), "p/c".to_string());
    assert_eq!(id.bits, 0x6b81b4bafe3d58c1968c2d3f1bf99454u128);
    let id = get_id_from_url(String::new(), String::new());
    assert_eq!(id.bits, 0x70e1d8d681ff524eaa7ad5b03835c465u128);
}

#[test]
fn identity_agrees_with_the_uuid_crate() {
    let namespace = uuid::Uuid::from_u128(NAMESPACE_UUID);
    let expected = uuid::Uuid::new_v5(&namespace, "tenant/root/leaf".as_bytes());
    let id = get_id_from_url("tenant".to_string(), "root/leaf".to_string());
    assert_eq!(id.bits, expected.as_u128());
}

#[test]
fn identity_is_stable() {
    let first = get_id_from_url("t1".to_string(), "a/b".to_string());
    let second = get_id_from_url("t1".to_string(), "a/b".to_string());
    assert_eq!(first, second);
    assert_eq!(first.bits, 0x8a27caf6622c521fb5f5da4b008f735fu128);
}

#[test]
fn identity_depends_on_the_ingestion() {
    let one = get_id_from_url("t1".to_string(), "a".to_string());
    let other = get_id_from_url("t2".to_string(), "a".to_string());
    assert_ne!(one, other);
}

#[test]
fn identity_text_is_hyphenated_lower_case() {
    let id = NodeId { bits: 0xa1a2a3a4b1b2c1c2d1d2d3d4d5d6d7d8u128 };
    assert_eq!(id.to_string(), "a1a2a3a4-b1b2-c1c2-d1d2-d3d4d5d6d7d8");
    let id = NodeId { bits: 0x0000000f00000000000000000000abcdu128 };
    assert_eq!(id.to_string(), "0000000f-0000-0000-0000-00000000abcd");
    let id = get_id_from_url("t1".to_string(), "a".to_string());
    assert_eq!(id.to_string(), "c596342e-722b-5625-9e3f-793eee75ff33");
}

#[test]
fn identity_text_reads_back() {
    let id = get_id_from_url("t1".to_string(), "p".to_string());
    let text = id.to_string();
    assert_eq!(text, "87955495-ec02-5eea-8878-45b380dc3de7");
    assert_eq!(NodeId::parse_str(&text), Ok(id));
}

#[test]
fn identity_is_read_from_the_simple_form_too() {
    let parsed = NodeId::parse_str("87955495ec025eea887845b380dc3de7");
    assert_eq!(parsed, Ok(NodeId { bits: 0x87955495ec025eea887845b380dc3de7u128 }));
}

#[test]
fn text_that_is_no_identity_is_a_bad_request() {
    assert!(NodeId::parse_str("not-a-uuid").is_err());
    assert!(NodeId::parse_str("").is_err());
    assert!(NodeId::parse_str("87955495-ec02-5eea-8878-45b380dc3de").is_err());
}

#[test]
fn last_segment_follows_the_last_slash() {
    assert_eq!(last_segment_of("a/b/c"), "c");
    assert_eq!(last_segment_of("abc"), "abc");
    assert_eq!(last_segment_of(""), "");
    assert_eq!(last_segment_of("a/"), "");
    assert_eq!(last_segment_of("/x"), "x");
    assert_eq!(last_segment_of("\u{e9}t\u{e9}/na\u{ef}ve"), "na\u{ef}ve");
}

#[test]
fn relation_names_and_identifies_its_far_end() {
    let r = Relation::new("t1".to_string(), "knows".to_string(), "p/c".to_string(), true);
    assert_eq!(r.rel_type, "knows");
    assert!(r.outbound);
    assert_eq!(r.target_name, "c");
    assert_eq!(r.relates_to, "6b81b4ba-fe3d-58c1-968c-2d3f1bf99454");
}

#[test]
fn relation_from_columns_keeps_them() {
    let r = Relation::from(
        "far".to_string(),
        "ISCHILD".to_string(),
        "6b81b4ba-fe3d-58c1-968c-2d3f1bf99454".to_string(),
        false,
    );
    assert_eq!(
        r,
        Relation {
            rel_type: "ISCHILD".to_string(),
            outbound: false,
            target_name: "far".to_string(),
            relates_to: "6b81b4ba-fe3d-58c1-968c-2d3f1bf99454".to_string(),
        }
    );
}
