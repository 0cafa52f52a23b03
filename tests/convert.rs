use lit_schema::{
    is_renderable, clean_text, parse_type, raw_text, reference_warnings, text_to_markdown, to_jsonschemas, trim_codeblock, ConvertError,
    LitNode, Property, PropertyType, Schema,
};

fn text(s: &str) -> LitNode {
    LitNode::Text(s.to_string())
}

fn call(name: &str, args: Vec<Vec<LitNode>>) -> LitNode {
    LitNode::Fn(name.to_string(), args)
}

fn r(s: &str) -> PropertyType {
    PropertyType::Ref(s.to_string())
}

fn one(t: PropertyType) -> PropertyType {
    PropertyType::OneOf(vec![t])
}

fn attr(kind: &str, name: &str, ty: &str, docs: &str) -> LitNode {
    call(kind, vec![vec![text(name)], vec![text(ty)], vec![text(docs)]])
}

fn prop<'a>(s: &'a Schema, name: &str) -> Option<&'a Property> {
    s.properties.iter().find(|(k, _)| k == name).map(|(_, p)| p)
}

fn names(s: &Schema) -> Vec<String> {
    let mut v: Vec<String> = s.properties.iter().map(|(k, _)| k.clone()).collect();
    v.sort();
    v
}

#[test]
fn parse_plain_name() {
    assert_eq!(parse_type("a").unwrap(), one(r("a")));
}

#[test]
fn parse_dotted_name_is_string() {
    assert_eq!(parse_type("a.b").unwrap(), one(r("string")));
}

#[test]
fn parse_array() {
    assert_eq!(parse_type("[a]").unwrap(), one(PropertyType::ArrayOf(Box::new(one(r("a"))))));
}

#[test]
fn parse_nested_array() {
    let inner = one(PropertyType::ArrayOf(Box::new(one(r("a")))));
    assert_eq!(parse_type("[[a]]").unwrap(), one(PropertyType::ArrayOf(Box::new(inner))));
}

#[test]
fn parse_union_keeps_order() {
    assert_eq!(parse_type("a|b").unwrap(), PropertyType::OneOf(vec![r("a"), r("b")]));
    assert_eq!(parse_type("b|a|c").unwrap(), PropertyType::OneOf(vec![r("b"), r("a"), r("c")]));
}

#[test]
fn parse_constant() {
    assert_eq!(parse_type("`x`").unwrap(), one(PropertyType::Constant("x".to_string())));
}

#[test]
fn parse_dict() {
    assert_eq!(parse_type("{k:v}").unwrap(), one(PropertyType::Dict));
    assert_eq!(parse_type("{ k : v }").unwrap(), one(PropertyType::Dict));
}

#[test]
fn parse_mixed_union() {
    let t = parse_type("[a]|`on`|{k:v}|x.y").unwrap();
    assert_eq!(
        t,
        PropertyType::OneOf(vec![
            PropertyType::ArrayOf(Box::new(one(r("a")))),
            PropertyType::Constant("on".to_string()),
            PropertyType::Dict,
            r("string"),
        ])
    );
}

#[test]
fn parse_errors_give_position() {
    let e = parse_type("a b").unwrap_err();
    assert_eq!(e.text, "a b");
    assert_eq!(e.position, 1);
    assert_eq!(parse_type("").unwrap_err().position, 0);
    assert_eq!(parse_type("a | b").unwrap_err().position, 1);
    assert_eq!(parse_type("[a").unwrap_err().position, 0);
}

#[test]
fn clean_text_paragraphs() {
    assert_eq!(clean_text("  hi  \n\n  bye "), " hi \n\n bye ");
}

#[test]
fn clean_text_edges() {
    assert_eq!(clean_text(""), "");
    assert_eq!(clean_text("a\r\nb\n"), " a  b ");
    assert_eq!(clean_text("\t\n"), "\n\n");
}

#[test]
fn trim_codeblock_reindents() {
    assert_eq!(trim_codeblock("  foo\n    bar\n"), "    foo\n      bar\n    ");
}

#[test]
fn trim_codeblock_short_lines_are_trimmed() {
    assert_eq!(trim_codeblock("    a\n \n      b"), "    a\n    \n      b");
    assert_eq!(trim_codeblock(""), "    ");
    assert_eq!(trim_codeblock("x"), "    x");
}

#[test]
fn raw_text_ignores_calls() {
    let nodes = vec![
        text("a"),
        call("bold", vec![vec![text("b"), LitNode::Comment("c".to_string())], vec![text("d")]]),
        text("e"),
    ];
    assert_eq!(raw_text(&nodes), "abde");
}

#[test]
fn markdown_reference_forms() {
    let one_arg = vec![call("reference", vec![vec![text("t")]])];
    assert_eq!(text_to_markdown(&one_arg), "[ t ](# t )");
    let two_args = vec![call("reference", vec![vec![text("t")], vec![text("x")]])];
    assert_eq!(text_to_markdown(&two_args), "[ x ](# t )");
}

#[test]
fn markdown_reference_with_three_arguments_is_empty() {
    let nodes = vec![call("reference", vec![vec![text("a")], vec![text("b")], vec![text("c")]])];
    assert_eq!(text_to_markdown(&nodes), "");
    assert_eq!(reference_warnings(&nodes), vec![3]);
}

#[test]
fn reference_warnings_in_rendering_order() {
    let nodes = vec![
        call("reference", vec![]),
        call("bold", vec![vec![call("reference", vec![vec![text("a")]])]]),
        call("other", vec![vec![call("reference", vec![vec![], vec![], vec![], vec![]])]]),
        call("code", vec![vec![call("reference", vec![])]]),
    ];
    assert_eq!(reference_warnings(&nodes), vec![0, 4]);
    assert_eq!(text_to_markdown(&nodes), "**[ a ](# a )**``");
}

#[test]
fn renderable_needs_arguments_that_are_read() {
    assert!(is_renderable(&vec![call("bold", vec![vec![text("x")]])]));
    assert!(!is_renderable(&vec![call("bold", vec![])]));
    assert!(!is_renderable(&vec![call("x", vec![vec![call("example-toggle", vec![vec![]])]])]));
    assert!(is_renderable(&vec![call("reference", vec![])]));
}

#[test]
fn markdown_formatting_calls() {
    let nodes = vec![
        call("bold", vec![vec![text("b")]]),
        call("code", vec![vec![text("x  y")]]),
        call("warn", vec![vec![text("w")]]),
        call("other", vec![vec![text("p")], vec![text("q")]]),
        LitNode::Comment("gone".to_string()),
    ];
    assert_eq!(text_to_markdown(&nodes), "** b **`x  y` w  p  q ");
}

#[test]
fn markdown_example_and_codeblock() {
    let nodes = vec![
        call("example-toggle", vec![vec![text("a")], vec![text("b")]]),
        call("codeblock", vec![vec![text("rust")], vec![text("  x\n    y")]]),
    ];
    assert_eq!(text_to_markdown(&nodes), "\n@example  a \n b \n\n    x\n      y\n\n");
}

#[test]
fn markdown_unescapes_braces_once() {
    let nodes = vec![call("code", vec![vec![text("\\{a\\}")]])];
    assert_eq!(text_to_markdown(&nodes), "`{a}`");
    let nested = vec![call("code", vec![vec![text("\\\\{")]])];
    assert_eq!(text_to_markdown(&nested), "`\\{`");
}

#[test]
fn schema_with_properties() {
    let doc = vec![call(
        "schema",
        vec![
            vec![text("Thing")],
            vec![
                attr("required-attribute", "id", "string", "The id."),
                call("bold", vec![vec![attr("optional-attribute", "tags", "[tag-name]", "Tags.")]]),
            ],
        ],
    )];
    let out = to_jsonschemas(&doc).unwrap();
    assert_eq!(out.len(), 1);
    let s = &out[0];
    assert_eq!(s.schema_name, "Thing");
    assert!(!s.is_group_member);
    assert!(s.group_members.is_empty());
    assert_eq!(names(s), vec!["id".to_string(), "tags".to_string()]);
    let id = prop(s, "id").unwrap();
    assert!(id.required);
    assert!(!id.list);
    assert_eq!(id.docs, "The id.");
    assert_eq!(id.prop_type, one(r("string")));
    let tags = prop(s, "tags").unwrap();
    assert!(!tags.required);
    assert!(tags.list);
    assert_eq!(tags.prop_type, one(PropertyType::ArrayOf(Box::new(one(r("tag_name"))))));
}

#[test]
fn group_passes_properties_to_members() {
    let child = call(
        "schema-group",
        vec![vec![text("Child")], vec![], vec![attr("required-attribute", "x", "a", "X.")]],
    );
    let doc = vec![call(
        "schema-group",
        vec![
            vec![text("Group")],
            vec![],
            vec![attr("optional-attribute", "y", "b", "Y."), child],
        ],
    )];
    let out = to_jsonschemas(&doc).unwrap();
    assert_eq!(out.len(), 2);
    assert_eq!(out[0].schema_name, "Group");
    assert!(out[0].properties.is_empty());
    assert_eq!(out[0].group_members, vec!["Child".to_string()]);
    assert!(out[0].is_group_member);
    assert_eq!(out[1].schema_name, "Child");
    assert_eq!(names(&out[1]), vec!["x".to_string(), "y".to_string()]);
}

#[test]
fn plain_child_keeps_its_own_properties() {
    let child = call("schema", vec![vec![text("Child")], vec![attr("required-attribute", "x", "a", "")]]);
    let doc = vec![call(
        "schema",
        vec![vec![text("Parent")], vec![attr("required-attribute", "y", "b", ""), child]],
    )];
    let out = to_jsonschemas(&doc).unwrap();
    assert_eq!(out.len(), 2);
    assert_eq!(names(&out[0]), vec!["y".to_string()]);
    assert!(out[0].group_members.is_empty());
    assert_eq!(names(&out[1]), vec!["x".to_string()]);
}

#[test]
fn parent_property_wins_in_member() {
    let child = call(
        "schema-group",
        vec![vec![text("C")], vec![], vec![attr("required-attribute", "k", "a", "child")]],
    );
    let doc = vec![call(
        "schema-group",
        vec![vec![text("G")], vec![], vec![attr("optional-attribute", "k", "b", "parent"), child]],
    )];
    let out = to_jsonschemas(&doc).unwrap();
    let k = prop(&out[1], "k").unwrap();
    assert_eq!(k.docs, "parent");
    assert!(!k.required);
}

#[test]
fn later_property_of_same_name_wins() {
    let doc = vec![call(
        "schema",
        vec![
            vec![text("S")],
            vec![attr("required-attribute", "k", "a", "first"), attr("optional-attribute", "k", "b", "second")],
        ],
    )];
    let out = to_jsonschemas(&doc).unwrap();
    assert_eq!(out[0].properties.len(), 1);
    assert_eq!(prop(&out[0], "k").unwrap().docs, "second");
}

#[test]
fn schema_name_is_sanitized() {
    let doc = vec![call("schema", vec![vec![text("My--Schema `Name")], vec![]])];
    let out = to_jsonschemas(&doc).unwrap();
    assert_eq!(out[0].schema_name, "My_Schema_Name");
    let doc2 = vec![call("schema", vec![vec![text("-a---b")], vec![]])];
    assert_eq!(to_jsonschemas(&doc2).unwrap()[0].schema_name, "a__b");
}

#[test]
fn inner_schemas_follow_their_parent() {
    let inner = call("schema", vec![vec![text("Inner")], vec![]]);
    let doc = vec![
        call(
            "schema",
            vec![
                vec![text("Outer")],
                vec![call(
                    "required-attribute",
                    vec![vec![text("p")], vec![text("Inner")], vec![text("see"), inner]],
                )],
            ],
        ),
        call("schema", vec![vec![text("Next")], vec![]]),
    ];
    let out = to_jsonschemas(&doc).unwrap();
    let order: Vec<&str> = out.iter().map(|s| s.schema_name.as_str()).collect();
    assert_eq!(order, vec!["Outer", "Inner", "Next"]);
}

#[test]
fn bad_type_fails_conversion() {
    let doc = vec![call("schema", vec![vec![text("S")], vec![attr("required-attribute", "k", "a b", "")]])];
    match to_jsonschemas(&doc) {
        Err(ConvertError::Type(e)) => {
            assert_eq!(e.text, "a b");
            assert_eq!(e.position, 1);
        },
        other => panic!("unexpected {:?}", other),
    }
}

#[test]
fn short_attribute_fails_conversion() {
    let doc = vec![call(
        "schema",
        vec![vec![text("S")], vec![call("optional-attribute", vec![vec![text("k")], vec![text("a")]])]],
    )];
    assert_eq!(
        to_jsonschemas(&doc).unwrap_err(),
        ConvertError::Arguments("optional-attribute".to_string())
    );
}

#[test]
fn short_schema_fails_conversion() {
    let doc = vec![call("schema-group", vec![vec![text("G")], vec![]])];
    assert_eq!(to_jsonschemas(&doc).unwrap_err(), ConvertError::Arguments("schema-group".to_string()));
}

#[test]
fn text_outside_schemas_yields_nothing() {
    let doc = vec![text("hello"), call("bold", vec![vec![text("x")]]), attr("required-attribute", "a", "b", "c")];
    assert!(to_jsonschemas(&doc).unwrap().is_empty());
}
