use crd_schema::analyzer::analyze;
use crd_schema::model::{AnalysisError, OutputStruct};
use crd_schema::schema::{AdditionalProperties, Items, Properties, Schema, SchemaType};

fn node(t: SchemaType) -> Schema {
    Schema::of_type(t)
}

fn with_props(mut s: Schema, entries: Vec<(&str, Schema)>) -> Schema {
    let mut p = Properties::new();
    for (k, v) in entries {
        p.insert(k.to_string(), v);
    }
    s.properties = Some(p);
    s
}

fn required(mut s: Schema, keys: &[&str]) -> Schema {
    s.required = keys.iter().map(|k| k.to_string()).collect();
    s
}

fn described(mut s: Schema, d: &str) -> Schema {
    s.description = Some(d.to_string());
    s
}

fn array_of(item: Schema) -> Schema {
    let mut a = node(SchemaType::Array);
    a.items = Some(Items::Single(Box::new(item)));
    a
}

fn map_of(value: Schema) -> Schema {
    let mut o = node(SchemaType::Object);
    o.additional_properties = Some(AdditionalProperties::Schema(Box::new(value)));
    o
}

fn run(schema: &Schema, current: &str, stack: &str, level: u8) -> Vec<OutputStruct> {
    let mut structs = vec![];
    analyze(schema, current, stack, level, &mut structs).unwrap();
    structs
}

#[test]
fn map_of_struct() {
    let item = required(
        with_props(
            node(SchemaType::Object),
            vec![
                ("id", node(SchemaType::Text)),
                ("message", node(SchemaType::Text)),
                ("status", node(SchemaType::Text)),
            ],
        ),
        &["id", "message", "status"],
    );
    let validations = described(
        map_of(array_of(item)),
        "ValidationsInfo is a JSON-formatted string containing the validation results for each validation id grouped by category (network, hosts-data, etc.)",
    );
    let schema = described(
        with_props(node(SchemaType::Object), vec![("validationsInfo", validations)]),
        "AgentStatus defines the observed state of Agent",
    );
    let structs = run(&schema, "ValidationsInfo", "Agent", 0);
    let root = &structs[0];
    assert_eq!(root.name, "Agent");
    assert_eq!(root.level, 0);
    let map = &root.members[0];
    assert_eq!(map.name, "validationsInfo");
    assert_eq!(map.type_.rust_type(), "Option<BTreeMap<String, AgentValidationsInfo>>");
    let other = &structs[1];
    assert_eq!(other.name, "AgentValidationsInfo");
    assert_eq!(other.level, 1);
    assert_eq!(other.members[0].name, "id");
    assert_eq!(other.members[0].type_.rust_type(), "String");
    assert_eq!(other.members[1].name, "message");
    assert_eq!(other.members[1].type_.rust_type(), "String");
    assert_eq!(other.members[2].name, "status");
    assert_eq!(other.members[2].type_.rust_type(), "String");
}

#[test]
fn empty_preserve_unknown_fields() {
    let mut match_labels = node(SchemaType::Object);
    match_labels.preserve_unknown_fields = true;
    let selector = described(
        required(
            with_props(node(SchemaType::Object), vec![("matchLabels", match_labels)]),
            &["matchLabels"],
        ),
        "A label query over servers on which this authorization applies.",
    );
    let schema = described(
        required(with_props(node(SchemaType::Object), vec![("selector", selector)]), &["selector"]),
        "Identifies servers in the same namespace for which this authorization applies.",
    );
    let structs = run(&schema, "Selector", "Server", 0);
    let root = &structs[0];
    assert_eq!(root.name, "Server");
    assert_eq!(root.level, 0);
    let root_member = &root.members[0];
    assert_eq!(root_member.name, "selector");
    assert_eq!(root_member.type_.rust_type(), "ServerSelector");
    let server_selector = &structs[1];
    assert_eq!(server_selector.name, "ServerSelector");
    assert_eq!(server_selector.level, 1);
    let match_labels = &server_selector.members[0];
    assert_eq!(match_labels.name, "matchLabels");
    assert_eq!(match_labels.type_.rust_type(), "BTreeMap<String, serde_json::Value>");
}

#[test]
fn int_or_string() {
    let mut port = described(node(SchemaType::Absent), "A port name or number. Must exist in a pod spec.");
    port.int_or_string = true;
    let schema = required(with_props(node(SchemaType::Object), vec![("port", port)]), &["port"]);
    let structs = run(&schema, "ServerSpec", "Server", 0);
    let root = &structs[0];
    assert_eq!(root.name, "Server");
    assert_eq!(root.level, 0);
    let member = &root.members[0];
    assert_eq!(member.name, "port");
    assert_eq!(member.type_.rust_type(), "IntOrString");
    assert!(root.uses_int_or_string());
    assert_eq!(structs.len(), 1);
}

#[test]
fn integer_handling_in_maps() {
    let from = described(node(SchemaType::Text), "Originating locality, '/' separated");
    let to = described(
        map_of(node(SchemaType::Integer)),
        "Map of upstream localities to traffic distribution weights.",
    );
    let item = with_props(node(SchemaType::Object), vec![("from", from), ("to", to)]);
    let distribute = described(
        array_of(item),
        "Optional: only one of distribute, failover or failoverPriority can be set.",
    );
    let schema = with_props(node(SchemaType::Object), vec![("distribute", distribute)]);
    let structs = run(&schema, "LocalityLbSetting", "DestinationRule", 1);
    let root = &structs[0];
    assert_eq!(root.name, "DestinationRule");
    assert_eq!(root.level, 1);
    let distmember = &root.members[0];
    assert_eq!(distmember.name, "distribute");
    assert_eq!(distmember.type_.rust_type(), "Option<Vec<DestinationRuleDistribute>>");
    let ruledist = &structs[1];
    assert_eq!(ruledist.name, "DestinationRuleDistribute");
    let from = &ruledist.members[0];
    let to = &ruledist.members[1];
    assert_eq!(from.name, "from");
    assert_eq!(to.name, "to");
    assert_eq!(from.type_.rust_type(), "Option<String>");
    assert_eq!(to.type_.rust_type(), "Option<BTreeMap<String, i64>>");
}

#[test]
fn one_struct_per_object_node() {
    let schema = with_props(
        node(SchemaType::Object),
        vec![("a", node(SchemaType::Text)), ("b", node(SchemaType::Boolean))],
    );
    let structs = run(&schema, "Spec", "Thing", 0);
    assert_eq!(structs.len(), 1);
    assert_eq!(structs[0].name, "Thing");
    assert_eq!(structs[0].members.len(), 2);
}

#[test]
fn members_follow_key_order() {
    let schema = with_props(
        node(SchemaType::Object),
        vec![
            ("zeta", node(SchemaType::Text)),
            ("alpha", node(SchemaType::Text)),
            ("Mid", node(SchemaType::Text)),
            ("beta", node(SchemaType::Text)),
        ],
    );
    let structs = run(&schema, "Spec", "Thing", 0);
    let names: Vec<&str> = structs[0].members.iter().map(|m| m.name.as_str()).collect();
    assert_eq!(names, vec!["Mid", "alpha", "beta", "zeta"]);
}

#[test]
fn optional_exactly_when_not_required() {
    let schema = required(
        with_props(
            node(SchemaType::Object),
            vec![("kept", node(SchemaType::Text)), ("maybe", node(SchemaType::Boolean))],
        ),
        &["kept"],
    );
    let structs = run(&schema, "Spec", "Thing", 0);
    let kept = &structs[0].members[0];
    let maybe = &structs[0].members[1];
    assert!(!kept.optional);
    assert_eq!(kept.type_.rust_type(), "String");
    assert!(maybe.optional);
    assert_eq!(maybe.type_.rust_type(), "Option<bool>");
}

#[test]
fn nested_arrays_replay_their_depth() {
    let leaf = with_props(node(SchemaType::Object), vec![("x", node(SchemaType::Integer))]);
    let grid = array_of(array_of(leaf));
    let schema = with_props(node(SchemaType::Object), vec![("grid", grid)]);
    let structs = run(&schema, "Spec", "Board", 2);
    assert_eq!(structs.len(), 2);
    assert_eq!(structs[0].members[0].type_.rust_type(), "Option<Vec<BoardGrid>>");
    assert_eq!(structs[1].name, "BoardGrid");
    assert_eq!(structs[1].level, 3);
    assert_eq!(structs[1].members[0].type_.rust_type(), "Option<i64>");
}

#[test]
fn map_of_struct_reuses_stack() {
    let value = with_props(node(SchemaType::Object), vec![("zone", node(SchemaType::Text))]);
    let schema = map_of(value);
    let structs = run(&schema, "FailureDomains", "ClusterFailureDomains", 1);
    assert_eq!(structs.len(), 1);
    assert_eq!(structs[0].name, "ClusterFailureDomains");
    assert_eq!(structs[0].members[0].name, "zone");
}

#[test]
fn repeated_analysis_is_identical() {
    let schema = with_props(
        node(SchemaType::Object),
        vec![("inner", with_props(node(SchemaType::Object), vec![("n", node(SchemaType::Number))]))],
    );
    let first = run(&schema, "Spec", "Thing", 0);
    let second = run(&schema, "Spec", "Thing", 0);
    assert_eq!(format!("{:?}", first), format!("{:?}", second));
    assert_eq!(first.len(), 2);
}

#[test]
fn tuple_items_are_rejected() {
    let mut pair = node(SchemaType::Array);
    pair.items = Some(Items::Multiple(vec![node(SchemaType::Text), node(SchemaType::Integer)]));
    let schema = with_props(node(SchemaType::Object), vec![("pair", pair)]);
    let mut structs = vec![];
    let r = analyze(&schema, "Spec", "Thing", 0, &mut structs);
    assert_eq!(r, Err(AnalysisError::UnsupportedArrayShape));
    assert!(structs.is_empty());
}

#[test]
fn missing_items_are_rejected() {
    let schema = with_props(node(SchemaType::Object), vec![("list", node(SchemaType::Array))]);
    let mut structs = vec![];
    let r = analyze(&schema, "Spec", "Thing", 0, &mut structs);
    assert_eq!(r, Err(AnalysisError::MissingArrayItems));
}

#[test]
fn unsupported_element_type_is_rejected() {
    let schema = with_props(node(SchemaType::Object), vec![("list", array_of(node(SchemaType::Absent)))]);
    let mut structs = vec![];
    let r = analyze(&schema, "Spec", "Thing", 0, &mut structs);
    assert_eq!(r, Err(AnalysisError::UnsupportedArrayElementType));
}

#[test]
fn unknown_format_is_rejected() {
    let mut n = node(SchemaType::Integer);
    n.format = Some("int7".to_string());
    let schema = with_props(node(SchemaType::Object), vec![("n", n)]);
    let mut structs = vec![];
    let r = analyze(&schema, "Spec", "Thing", 0, &mut structs);
    assert_eq!(r, Err(AnalysisError::UnknownScalarFormat));
}

#[test]
fn untyped_property_is_rejected() {
    let schema = with_props(node(SchemaType::Object), vec![("x", node(SchemaType::Absent))]);
    let mut structs = vec![];
    assert_eq!(
        analyze(&schema, "Spec", "Thing", 0, &mut structs),
        Err(AnalysisError::UnknownPropertyType)
    );
    let other = with_props(node(SchemaType::Object), vec![("x", node(SchemaType::Other("null".to_string())))]);
    assert_eq!(
        analyze(&other, "Spec", "Thing", 0, &mut structs),
        Err(AnalysisError::UnknownPropertyType)
    );
}

#[test]
fn untyped_dict_value_is_rejected() {
    let schema = with_props(node(SchemaType::Object), vec![("m", map_of(node(SchemaType::Absent)))]);
    let mut structs = vec![];
    let r = analyze(&schema, "Spec", "Thing", 0, &mut structs);
    assert_eq!(r, Err(AnalysisError::UnknownDictValueType));
}

#[test]
fn deepest_level_cannot_descend() {
    let inner = with_props(node(SchemaType::Object), vec![("x", node(SchemaType::Text))]);
    let schema = with_props(node(SchemaType::Object), vec![("inner", inner)]);
    let mut structs = vec![];
    let r = analyze(&schema, "Spec", "Thing", 255, &mut structs);
    assert_eq!(r, Err(AnalysisError::NestingTooDeep));
    assert_eq!(structs.len(), 1);
}

#[test]
fn scalar_formats_map_to_sized_types() {
    let mut small = node(SchemaType::Integer);
    small.format = Some("uint16".to_string());
    let mut single = node(SchemaType::Number);
    single.format = Some("float".to_string());
    let mut stamp = node(SchemaType::Date);
    stamp.format = Some("date-time".to_string());
    let schema = required(
        with_props(
            node(SchemaType::Object),
            vec![
                ("a", small),
                ("b", single),
                ("c", stamp),
                ("d", node(SchemaType::Number)),
                ("e", node(SchemaType::Date)),
            ],
        ),
        &["a", "b", "c", "d", "e"],
    );
    let structs = run(&schema, "Spec", "Thing", 0);
    let types: Vec<String> = structs[0].members.iter().map(|m| m.type_.rust_type()).collect();
    assert_eq!(types, vec!["u16", "f32", "DateTime<Utc>", "f64", "String"]);
}

#[test]
fn envelope_keys_are_members_without_descent() {
    let meta = with_props(node(SchemaType::Object), vec![("name", node(SchemaType::Text))]);
    let spec = with_props(node(SchemaType::Object), vec![("size", node(SchemaType::Integer))]);
    let schema = with_props(
        node(SchemaType::Object),
        vec![("metadata", meta), ("spec", spec), ("kind", node(SchemaType::Text))],
    );
    let structs = run(&schema, "Widget", "Widget", 0);
    assert_eq!(structs.len(), 2);
    assert_eq!(structs[0].members.len(), 3);
    assert_eq!(structs[0].members[1].type_.rust_type(), "Option<WidgetMetadata>");
    assert_eq!(structs[1].name, "WidgetSpec");
}

#[test]
fn unknown_dict_value_keyword_is_guessed() {
    let schema = with_props(
        node(SchemaType::Object),
        vec![("m", map_of(node(SchemaType::Other("quantity".to_string()))))],
    );
    let structs = run(&schema, "Spec", "Thing", 0);
    assert_eq!(structs[0].members[0].type_.rust_type(), "Option<BTreeMap<String, Quantity>>");
}

#[test]
fn scalar_valued_dictionary_emits_nothing() {
    let schema = map_of(node(SchemaType::Text));
    let structs = run(&schema, "Labels", "ThingLabels", 1);
    assert!(structs.is_empty());
}

#[test]
fn flagged_map_preserving_unknown_fields_is_generic() {
    let mut labels = node(SchemaType::Object);
    labels.additional_properties = Some(AdditionalProperties::Flag(true));
    labels.preserve_unknown_fields = true;
    let schema = with_props(node(SchemaType::Object), vec![("labels", labels)]);
    let structs = run(&schema, "Spec", "Thing", 0);
    assert_eq!(structs.len(), 1);
    assert_eq!(
        structs[0].members[0].type_.rust_type(),
        "Option<BTreeMap<String, serde_json::Value>>"
    );
}

#[test]
fn untyped_value_schema_leaves_a_plain_object() {
    let mut schema = with_props(node(SchemaType::Object), vec![("name", node(SchemaType::Text))]);
    schema.additional_properties = Some(AdditionalProperties::Schema(Box::new(node(SchemaType::Absent))));
    let structs = run(&schema, "Spec", "Thing", 0);
    assert_eq!(structs.len(), 1);
    assert_eq!(structs[0].name, "Thing");
    assert_eq!(structs[0].members[0].name, "name");
}
