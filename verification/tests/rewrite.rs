use speedy_transform::ast::{
    Ident, ImportDecl, ImportSpecifier, JsxElement, JsxName, JsxObject, Module, ModuleItem, Node,
};
use speedy_transform::babel_import::{component_name, transform_style, Imports};
use speedy_transform::clear_mark::{clear_items, clear_node};
use speedy_transform::text::{
    component_path, expand_template, replace_pair, same_text, strip_marker,
};
use speedy_transform::types::{
    is_enabled, is_listed, BabelImportConfig, ReplaceCssConfig, ReplaceSpecConfig,
    TransformConfig,
};
use speedy_transform::visit::{has_name, root_of_object, IdentComponent};

fn id(name: &str, ctxt: u32) -> Ident {
    Ident { sym: name.to_string(), ctxt }
}

fn leaf(name: &str, ctxt: u32) -> Node {
    Node::Ident(id(name, ctxt))
}

fn tag(name: &str, ctxt: u32, children: Vec<Node>) -> Node {
    Node::Jsx(JsxElement { name: JsxName::Ident(id(name, ctxt)), attrs: vec![], children })
}

fn from(src: &str, specifiers: Vec<ImportSpecifier>) -> ModuleItem {
    ModuleItem::Import(ImportDecl { src: src.to_string(), specifiers })
}

fn plain(local: &str, ctxt: u32) -> ImportSpecifier {
    ImportSpecifier::Named { local: id(local, ctxt), imported: None }
}

fn default_of(local: &str, ctxt: u32, src: &str) -> ModuleItem {
    from(src, vec![ImportSpecifier::Default { local: id(local, ctxt) }])
}

fn pair(name: &str, ctxt: u32) -> (String, u32) {
    (name.to_string(), ctxt)
}

fn css_rule(ignore: Option<Vec<String>>) -> ReplaceCssConfig {
    ReplaceCssConfig {
        ignore_style_component: ignore,
        replace_expr: "ui/{}/style.css".to_string(),
        lower: None,
    }
}

fn js_rule(ignore: Option<Vec<String>>) -> ReplaceSpecConfig {
    ReplaceSpecConfig {
        ignore_es_component: ignore,
        replace_expr: "ui/{}/index.js".to_string(),
        lower: None,
    }
}

fn rules(rule: BabelImportConfig) -> TransformConfig {
    TransformConfig { react_runtime: None, babel_import: Some(vec![rule]), remove_use_effect: None }
}

fn ui(css: Option<ReplaceCssConfig>, js: Option<ReplaceSpecConfig>) -> BabelImportConfig {
    BabelImportConfig { from_source: "ui".to_string(), replace_css: css, replace_js: js }
}

#[test]
fn templates_expand_every_placeholder() {
    assert_eq!(expand_template("antd/es/{}/index.js", "Button"), "antd/es/Button/index.js");
    assert_eq!(expand_template("{}", "x"), "x");
    assert_eq!(expand_template("{}/{}", "ab"), "ab/ab");
    assert_eq!(expand_template("{}{}", "a"), "aa");
    assert_eq!(expand_template("no/placeholder", "Button"), "no/placeholder");
    assert_eq!(expand_template("", "Button"), "");
    assert_eq!(expand_template("{", "Button"), "{");
    assert_eq!(expand_template("a{ }b}{", "Button"), "a{ }b}{");
    assert_eq!(expand_template("{{}}", "n"), "{n}");
    assert_eq!(expand_template("p/{}", ""), "p/");
    assert_eq!(expand_template("p/{}", "{}"), "p/{}");
    assert_eq!(expand_template("é/{}/ü", "ñ"), "é/ñ/ü");
}

#[test]
fn pairs_are_replaced_from_the_left() {
    assert_eq!(replace_pair("aaa", 'a', 'a', "b"), "ba");
    assert_eq!(replace_pair("aaaa", 'a', 'a', "b"), "bb");
    assert_eq!(replace_pair("xyxy", 'x', 'y', ""), "");
    assert_eq!(replace_pair("xyz", 'y', 'z', "yz"), "xyz");
}

#[test]
fn the_marker_of_the_outermost_scope_is_stripped() {
    assert_eq!(strip_marker("Button#0"), "Button");
    assert_eq!(strip_marker("Button"), "Button");
    assert_eq!(strip_marker("Button#2"), "Button#2");
    assert_eq!(strip_marker("#0a#0"), "a");
    assert_eq!(strip_marker("##00"), "#0");
}

#[test]
fn paths_are_lower_cased_on_request() {
    assert_eq!(component_path("antd/es/{}/index.js", "Button", true), "antd/es/button/index.js");
    assert_eq!(component_path("antd/es/{}/index.js", "Button", false), "antd/es/Button/index.js");
    assert_eq!(component_path("Antd/{}", "DatePicker", true), "Antd/datepicker");
    assert_eq!(component_path("x/{}", "ÀB", true), "x/àb");
}

#[test]
fn texts_are_compared_by_their_characters() {
    assert!(same_text("react", "react"));
    assert!(!same_text("react", "React"));
    assert!(!same_text("react", "reac"));
    assert!(same_text("", ""));
}

#[test]
fn switches_and_lists() {
    assert!(is_enabled(Some(true)));
    assert!(!is_enabled(Some(false)));
    assert!(!is_enabled(None));
    let names = Some(vec!["Image".to_string(), "ConfigProvider".to_string()]);
    assert!(is_listed(&names, "Image"));
    assert!(is_listed(&names, "ConfigProvider"));
    assert!(!is_listed(&names, "image"));
    assert!(!is_listed(&names, ""));
    assert!(!is_listed(&None, "Image"));
    assert!(!is_listed(&Some(vec![]), "Image"));
}

#[test]
fn the_collector_records_elements_and_identifiers() {
    let tree = Node::Other(vec![
        leaf("a", 1),
        tag(
            "Outer#0",
            2,
            vec![
                Node::Jsx(JsxElement {
                    name: JsxName::Ident(id("Inner", 3)),
                    attrs: vec![leaf("shown", 9), tag("Shown", 9, vec![leaf("g", 9)])],
                    children: vec![Node::Other(vec![leaf("b", 4)])],
                }),
                Node::Call {
                    callee: Box::new(Node::Member {
                        obj: Box::new(leaf("c", 5)),
                        prop: id("d", 0),
                    }),
                    args: vec![leaf("e", 6)],
                },
            ],
        ),
        Node::TypeAnn(vec![leaf("T", 7), tag("U", 7, vec![])]),
        Node::Block(vec![Node::ExprStmt { pos: 3, expr: Box::new(leaf("f", 8)) }]),
    ]);
    let mut found = IdentComponent::new();
    found.visit_node(&tree);
    assert_eq!(
        found.component_name_jsx_ident,
        vec![pair("Outer", 2), pair("Inner", 3), pair("Shown", 9)]
    );
    assert_eq!(
        found.ident_list,
        vec![
            pair("a", 1),
            pair("shown", 9),
            pair("g", 9),
            pair("b", 4),
            pair("c", 5),
            pair("d", 0),
            pair("e", 6),
            pair("f", 8)
        ]
    );
}

fn card_with_icon_and_handler() -> Node {
    Node::Jsx(JsxElement {
        name: JsxName::Ident(id("Card", 1)),
        attrs: vec![tag("Icon", 1, vec![]), leaf("handler", 1)],
        children: vec![],
    })
}

#[test]
fn attribute_values_are_searched() {
    let mut found = IdentComponent::default();
    found.visit_node(&card_with_icon_and_handler());
    assert_eq!(found.component_name_jsx_ident, vec![pair("Card", 1), pair("Icon", 1)]);
    assert_eq!(found.ident_list, vec![pair("handler", 1)]);
    assert!(found.is_live("Icon", 1));
    assert!(found.is_live("handler", 1));
}

#[test]
fn a_component_used_in_an_attribute_value_is_styled() {
    let body = || {
        vec![
            from("ui", vec![plain("Icon", 1), plain("Idle", 1)]),
            ModuleItem::Other(card_with_icon_and_handler()),
        ]
    };
    let mut module = Module { body: body() };
    transform_style(&mut module, &rules(ui(Some(css_rule(None)), None)));
    let mut expected = vec![from("ui/Icon/style.css", vec![])];
    expected.extend(body());
    assert_eq!(module.body, expected);
}

#[test]
fn an_element_is_recorded_by_its_root() {
    let dotted = JsxName::Member {
        obj: JsxObject::Member {
            obj: Box::new(JsxObject::Member {
                obj: Box::new(JsxObject::Ident(id("Root#0", 4))),
                prop: id("a", 0),
            }),
            prop: id("b", 0),
        },
        prop: id("c", 0),
    };
    let spaced = JsxName::Namespaced { ns: id("svg", 1), name: id("path", 2) };
    let mut found = IdentComponent::new();
    found.visit_jsx_element(&JsxElement {
        name: dotted,
        attrs: vec![],
        children: vec![leaf("x", 1)],
    });
    found.visit_jsx_element(&JsxElement { name: spaced, attrs: vec![], children: vec![] });
    assert_eq!(found.component_name_jsx_ident, vec![pair("Root", 4), pair("path", 2)]);
    assert_eq!(found.ident_list, vec![pair("x", 1)]);
    let object = JsxObject::Member {
        obj: Box::new(JsxObject::Ident(id("r", 7))),
        prop: id("p", 0),
    };
    assert_eq!(root_of_object(&object), &id("r", 7));
    assert_eq!(root_of_object(&JsxObject::Ident(id("s", 8))), &id("s", 8));
}

#[test]
fn imports_are_passed_over() {
    let items = vec![
        from("ui", vec![plain("Button", 1)]),
        ModuleItem::Other(leaf("x", 1)),
        default_of("React", 1, "react"),
        ModuleItem::Other(tag("Button", 1, vec![])),
    ];
    let found = IdentComponent::collect(&items);
    assert_eq!(found.ident_list, vec![pair("x", 1)]);
    assert_eq!(found.component_name_jsx_ident, vec![pair("Button", 1)]);
    assert!(found.is_live("Button", 1));
    assert!(found.is_live("x", 1));
    assert!(!found.is_live("Button", 2));
    assert!(!found.is_live("React", 1));
    let mut same = IdentComponent::new();
    same.visit_import_decl(&ImportDecl { src: "ui".to_string(), specifiers: vec![plain("B", 1)] });
    same.visit_ident(&id("i", 3));
    assert_eq!(same.ident_list, vec![pair("i", 3)]);
    assert!(same.component_name_jsx_ident.is_empty());
    assert!(has_name(&same.ident_list, "i", 3));
    assert!(!has_name(&same.ident_list, "i", 4));
    assert!(!has_name(&same.ident_list, "j", 3));
    let fresh = IdentComponent::default();
    assert!(fresh.ident_list.is_empty() && fresh.component_name_jsx_ident.is_empty());
}

#[test]
fn an_exempt_component_is_styled_when_used_as_an_element_only() {
    let body = |used: Node| {
        vec![from("ui", vec![plain("Button", 1)]), ModuleItem::Other(Node::Other(vec![used]))]
    };
    let config = rules(ui(Some(css_rule(None)), Some(js_rule(Some(vec!["Button".to_string()])))));
    let mut module = Module { body: body(tag("Button", 1, vec![])) };
    transform_style(&mut module, &config);
    let mut expected = vec![from("ui/Button/style.css", vec![])];
    expected.extend(body(tag("Button", 1, vec![])));
    assert_eq!(module.body, expected);
}

#[test]
fn an_exempt_component_is_styled_when_used_as_an_identifier_only() {
    let body = || {
        vec![from("ui", vec![plain("Button", 1)]), ModuleItem::Other(leaf("Button", 1))]
    };
    let config = rules(ui(Some(css_rule(None)), Some(js_rule(Some(vec!["Button".to_string()])))));
    let mut module = Module { body: body() };
    transform_style(&mut module, &config);
    let mut expected = vec![from("ui/Button/style.css", vec![])];
    expected.extend(body());
    assert_eq!(module.body, expected);
}

#[test]
fn an_exempt_component_that_is_not_used_is_left_alone() {
    let body = || {
        vec![
            from("ui", vec![plain("Button", 1)]),
            ModuleItem::Other(leaf("Button", 2)),
            ModuleItem::Other(tag("button", 1, vec![])),
        ]
    };
    let config = rules(ui(Some(css_rule(None)), Some(js_rule(Some(vec!["Button".to_string()])))));
    let mut module = Module { body: body() };
    transform_style(&mut module, &config);
    assert_eq!(module.body, body());
    let only_css = rules(ui(Some(css_rule(None)), None));
    transform_style(&mut module, &only_css);
    assert_eq!(module.body, body());
}

#[test]
fn a_declaration_that_loses_every_specifier_is_dropped() {
    let mut module = Module {
        body: vec![
            from("ui", vec![plain("A", 1), plain("B", 1)]),
            from("ui", vec![plain("C", 1), ImportSpecifier::Default { local: id("Ui", 1) }]),
            from("ui", vec![]),
            from("other", vec![plain("A", 1)]),
        ],
    };
    transform_style(&mut module, &rules(ui(None, Some(js_rule(None)))));
    assert_eq!(
        module.body,
        vec![
            default_of("C", 1, "ui/C/index.js"),
            default_of("B", 1, "ui/B/index.js"),
            default_of("A", 1, "ui/A/index.js"),
            from("ui", vec![ImportSpecifier::Default { local: id("Ui", 1) }]),
            from("ui", vec![]),
            from("other", vec![plain("A", 1)]),
        ]
    );
}

#[test]
fn an_alias_keeps_its_local_name_and_the_path_takes_the_component() {
    let mut module = Module {
        body: vec![from(
            "ui",
            vec![
                ImportSpecifier::Named { local: id("Btn", 5), imported: Some("Button".to_string()) },
                ImportSpecifier::Namespace { local: id("All", 5) },
                plain("Keep", 5),
            ],
        )],
    };
    let config = rules(ui(
        Some(css_rule(Some(vec!["Btn".to_string()]))),
        Some(js_rule(Some(vec!["Keep".to_string()]))),
    ));
    transform_style(&mut module, &config);
    assert_eq!(
        module.body,
        vec![
            from("ui/Button/style.css", vec![]),
            default_of("Btn", 5, "ui/Button/index.js"),
            from("ui", vec![ImportSpecifier::Namespace { local: id("All", 5) }, plain("Keep", 5)]),
        ]
    );
    assert_eq!(component_name(&id("Btn", 5), &Some("Button".to_string())), "Button");
    assert_eq!(component_name(&id("Btn", 5), &None), "Btn");
}

#[test]
fn rules_are_applied_in_their_order() {
    let first = BabelImportConfig {
        from_source: "b".to_string(),
        replace_css: None,
        replace_js: Some(ReplaceSpecConfig {
            ignore_es_component: None,
            replace_expr: "b/{}".to_string(),
            lower: Some(false),
        }),
    };
    let second = BabelImportConfig {
        from_source: "a".to_string(),
        replace_css: Some(ReplaceCssConfig {
            ignore_style_component: None,
            replace_expr: "a/{}.css".to_string(),
            lower: Some(true),
        }),
        replace_js: Some(ReplaceSpecConfig {
            ignore_es_component: None,
            replace_expr: "a/{}".to_string(),
            lower: None,
        }),
    };
    let mut module = Module {
        body: vec![
            from("a", vec![plain("X", 1)]),
            ModuleItem::Other(leaf("k", 1)),
            from("b", vec![plain("Y", 1), plain("Z", 1)]),
        ],
    };
    let config = TransformConfig {
        react_runtime: None,
        babel_import: Some(vec![first, second]),
        remove_use_effect: None,
    };
    transform_style(&mut module, &config);
    assert_eq!(
        module.body,
        vec![
            from("a/x.css", vec![]),
            default_of("X", 1, "a/X"),
            default_of("Z", 1, "b/Z"),
            default_of("Y", 1, "b/Y"),
            ModuleItem::Other(leaf("k", 1)),
        ]
    );
}

#[test]
fn a_rule_without_templates_and_a_module_without_rules() {
    let body = || vec![from("ui", vec![plain("A", 1)]), ModuleItem::Other(leaf("A", 1))];
    let mut module = Module { body: body() };
    transform_style(&mut module, &rules(ui(None, None)));
    assert_eq!(module.body, body());
    let none = TransformConfig { react_runtime: None, babel_import: None, remove_use_effect: None };
    transform_style(&mut module, &none);
    assert_eq!(module.body, body());
}

#[test]
fn imports_are_made_newest_first() {
    let rule = ui(Some(css_rule(None)), Some(js_rule(None)));
    let found = IdentComponent::new();
    let mut imports = Imports::new();
    assert!(imports.emit_specifier(&rule, &found, &plain("A", 1)));
    assert!(imports.emit_specifier(&rule, &found, &plain("B", 1)));
    assert!(!imports.emit_specifier(&rule, &found, &ImportSpecifier::Default { local: id("D", 1) }));
    assert_eq!(
        imports.css,
        vec![from("ui/B/style.css", vec![]), from("ui/A/style.css", vec![])]
    );
    assert_eq!(
        imports.js,
        vec![default_of("B", 1, "ui/B/index.js"), default_of("A", 1, "ui/A/index.js")]
    );
    let decl = ImportDecl { src: "ui".to_string(), specifiers: vec![plain("C", 2)] };
    assert_eq!(imports.split_decl(&rule, &found, &decl), None);
    let empty = ImportDecl { src: "ui".to_string(), specifiers: vec![] };
    assert_eq!(imports.split_decl(&rule, &found, &empty), Some(empty));
    let left = imports.apply_rule(&rule, &found, &vec![from("ui", vec![plain("E", 3)])]);
    assert!(left.is_empty());
    assert_eq!(imports.js.len(), 4);
    assert_eq!(imports.js[0], default_of("E", 3, "ui/E/index.js"));
}

#[test]
fn tags_are_cleared_everywhere() {
    let node = Node::Jsx(JsxElement {
        name: JsxName::Member { obj: JsxObject::Ident(id("a", 1)), prop: id("b", 2) },
        attrs: vec![leaf("c", 3)],
        children: vec![Node::TypeAnn(vec![leaf("d", 4)])],
    });
    assert_eq!(
        clear_node(&node),
        Node::Jsx(JsxElement {
            name: JsxName::Member { obj: JsxObject::Ident(id("a", 0)), prop: id("b", 0) },
            attrs: vec![leaf("c", 0)],
            children: vec![Node::TypeAnn(vec![leaf("d", 0)])],
        })
    );
    let items = vec![
        from(
            "m",
            vec![
                ImportSpecifier::Named { local: id("x", 5), imported: Some("y".to_string()) },
                ImportSpecifier::Namespace { local: id("n", 6) },
                ImportSpecifier::Default { local: id("d", 7) },
            ],
        ),
        ModuleItem::Other(Node::ExprStmt { pos: 9, expr: Box::new(leaf("z", 8)) }),
    ];
    assert_eq!(
        clear_items(&items),
        vec![
            from(
                "m",
                vec![
                    ImportSpecifier::Named { local: id("x", 0), imported: Some("y".to_string()) },
                    ImportSpecifier::Namespace { local: id("n", 0) },
                    ImportSpecifier::Default { local: id("d", 0) },
                ],
            ),
            ModuleItem::Other(Node::ExprStmt { pos: 9, expr: Box::new(leaf("z", 0)) }),
        ]
    );
}

fn package(name: &str, exempt: Option<Vec<String>>, css: bool) -> BabelImportConfig {
    BabelImportConfig {
        from_source: name.to_string(),
        replace_css: if css {
            Some(ReplaceCssConfig {
                ignore_style_component: None,
                replace_expr: format!("{}/{{}}.css", name),
                lower: None,
            })
        } else {
            None
        },
        replace_js: Some(ReplaceSpecConfig {
            ignore_es_component: exempt,
            replace_expr: format!("{}/{{}}.js", name),
            lower: None,
        }),
    }
}

fn three_rules() -> TransformConfig {
    TransformConfig {
        react_runtime: None,
        babel_import: Some(vec![
            package("x", None, false),
            package("p", Some(vec!["Keep".to_string()]), true),
            package("y", None, true),
        ]),
        remove_use_effect: None,
    }
}

#[test]
fn among_several_rules_an_emptied_declaration_is_dropped() {
    let mut module = Module {
        body: vec![
            default_of("React", 1, "react"),
            from("p", vec![plain("A", 1), plain("B", 1)]),
            ModuleItem::Other(leaf("k", 1)),
            from("p", vec![plain("C", 1), plain("Keep", 1), plain("D", 1), plain("Keep2", 1)]),
        ],
    };
    let mut config = three_rules();
    if let Some(rules) = config.babel_import.as_mut() {
        rules[1].replace_js.as_mut().unwrap().ignore_es_component =
            Some(vec!["Keep".to_string(), "Keep2".to_string()]);
    }
    transform_style(&mut module, &config);
    assert_eq!(
        module.body,
        vec![
            from("p/D.css", vec![]),
            from("p/C.css", vec![]),
            from("p/B.css", vec![]),
            from("p/A.css", vec![]),
            default_of("D", 1, "p/D.js"),
            default_of("C", 1, "p/C.js"),
            default_of("B", 1, "p/B.js"),
            default_of("A", 1, "p/A.js"),
            default_of("React", 1, "react"),
            ModuleItem::Other(leaf("k", 1)),
            from("p", vec![plain("Keep", 1), plain("Keep2", 1)]),
        ]
    );
}

#[test]
fn among_several_rules_either_kind_of_use_gives_the_same_imports() {
    let rewritten = |used: Node| {
        let mut module = Module {
            body: vec![
                from("p", vec![plain("C", 1), plain("Keep", 1)]),
                ModuleItem::Other(Node::Other(vec![used])),
            ],
        };
        transform_style(&mut module, &three_rules());
        module.body
    };
    let expected = |used: Node, style: bool| {
        let mut body = vec![from("p/C.css", vec![]), default_of("C", 1, "p/C.js")];
        if style {
            body.insert(0, from("p/Keep.css", vec![]));
        }
        body.push(from("p", vec![plain("Keep", 1)]));
        body.push(ModuleItem::Other(Node::Other(vec![used])));
        body
    };
    assert_eq!(rewritten(tag("C", 1, vec![])), expected(tag("C", 1, vec![]), false));
    assert_eq!(rewritten(leaf("C", 1)), expected(leaf("C", 1), false));
    assert_eq!(rewritten(leaf("unrelated", 1)), expected(leaf("unrelated", 1), false));
    assert_eq!(rewritten(tag("Keep", 1, vec![])), expected(tag("Keep", 1, vec![]), true));
    assert_eq!(rewritten(leaf("Keep", 1)), expected(leaf("Keep", 1), true));
}

