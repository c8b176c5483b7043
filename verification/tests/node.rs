use rekordcrate::node::{NodeAttribute, NodeAttributeValue, NodeDecision, NodeHeader};

fn text(s: &str) -> String {
    s.to_string()
}

#[test]
fn attribute_keys() {
    assert_eq!(NodeAttribute::from_key("@Name"), Some(NodeAttribute::Name));
    assert_eq!(NodeAttribute::from_key("@Type"), Some(NodeAttribute::Type));
    assert_eq!(NodeAttribute::from_key("@Count"), Some(NodeAttribute::Count));
    assert_eq!(NodeAttribute::from_key("@KeyType"), Some(NodeAttribute::KeyType));
    assert_eq!(NodeAttribute::from_key("@Entries"), Some(NodeAttribute::Entries));
    assert_eq!(NodeAttribute::from_key("@name"), None);
    assert_eq!(NodeAttribute::from_key("NODE"), None);
    assert_eq!(NodeAttribute::KeyType.key(), "@KeyType");
}

#[test]
fn folder_is_decided_once_name_and_count_are_known() {
    let mut h = NodeHeader::new();
    h.record(NodeAttributeValue::Type(text("0")));
    assert!(matches!(h.decision(), NodeDecision::Pending));
    h.record(NodeAttributeValue::Name(text("ROOT")));
    assert!(matches!(h.decision(), NodeDecision::Pending));
    assert_eq!(h.missing(), NodeAttribute::Count);
    h.record(NodeAttributeValue::Count(3));
    match h.decision() {
        NodeDecision::Folder { name } => assert_eq!(name, "ROOT"),
        d => panic!("unexpected {:?}", d),
    }
}

#[test]
fn playlist_needs_name_entries_and_key_type() {
    let mut h = NodeHeader::new();
    h.record(NodeAttributeValue::Name(text("Set")));
    h.record(NodeAttributeValue::Type(text("1")));
    assert_eq!(h.missing(), NodeAttribute::Entries);
    h.record(NodeAttributeValue::Entries(2));
    assert_eq!(h.missing(), NodeAttribute::KeyType);
    assert!(matches!(h.decision(), NodeDecision::Pending));
    h.record(NodeAttributeValue::KeyType(text("0")));
    match h.decision() {
        NodeDecision::Playlist { name, keytype } => {
            assert_eq!(name, "Set");
            assert_eq!(keytype, "0");
        }
        d => panic!("unexpected {:?}", d),
    }
}

#[test]
fn unknown_type_is_refused_at_once() {
    let mut h = NodeHeader::new();
    h.record(NodeAttributeValue::Type(text("2")));
    match h.decision() {
        NodeDecision::UnknownType(t) => assert_eq!(t, "2"),
        d => panic!("unexpected {:?}", d),
    }
}

#[test]
fn missing_attributes() {
    let mut h = NodeHeader::new();
    assert_eq!(h.missing(), NodeAttribute::Type);
    assert!(matches!(h.decision(), NodeDecision::Pending));
    h.record(NodeAttributeValue::Type(text("0")));
    assert_eq!(h.missing(), NodeAttribute::Name);
    let mut p = NodeHeader::new();
    p.record(NodeAttributeValue::Type(text("1")));
    assert_eq!(p.missing(), NodeAttribute::Name);
}

#[test]
fn last_value_counts() {
    let mut h = NodeHeader::new();
    h.record(NodeAttributeValue::Name(text("old")));
    h.record(NodeAttributeValue::Name(text("new")));
    h.record(NodeAttributeValue::Type(text("0")));
    h.record(NodeAttributeValue::Count(0));
    match h.decision() {
        NodeDecision::Folder { name } => assert_eq!(name, "new"),
        d => panic!("unexpected {:?}", d),
    }
}

fn read(values: Vec<NodeAttributeValue>) -> NodeHeader {
    let mut h = NodeHeader::new();
    for v in values {
        h.record(v);
    }
    h
}

#[test]
fn attribute_order_and_counts_do_not_matter() {
    let a = read(vec![
        NodeAttributeValue::Type(text("1")),
        NodeAttributeValue::Name(text("L")),
        NodeAttributeValue::Entries(7),
        NodeAttributeValue::KeyType(text("0")),
    ]);
    let b = read(vec![
        NodeAttributeValue::KeyType(text("0")),
        NodeAttributeValue::Entries(0),
        NodeAttributeValue::Name(text("L")),
        NodeAttributeValue::Type(text("1")),
    ]);
    for h in [a, b] {
        match h.decision() {
            NodeDecision::Playlist { name, keytype } => {
                assert_eq!(name, "L");
                assert_eq!(keytype, "0");
            }
            d => panic!("unexpected {:?}", d),
        }
    }
}
