use speedy_transform::ast::{
    Ident, ImportDecl, ImportSpecifier, JsxElement, JsxName, JsxObject, Module, ModuleItem, Node,
};
use speedy_transform::babel_import::transform_style;
use speedy_transform::pipeline::{lex_diagnostic, target_version, transform, EsVersion};
use speedy_transform::react::transform_perfixreact;
use speedy_transform::remove_effect::{remove_call, RmUseEffect};
use speedy_transform::types::{
    BabelImportConfig, ReplaceCssConfig, ReplaceSpecConfig, TransformConfig,
};

fn ident(name: &str, ctxt: u32) -> Ident {
    Ident { sym: name.to_string(), ctxt }
}

fn name(name: &str, ctxt: u32) -> Node {
    Node::Ident(ident(name, ctxt))
}

fn default_import(local: &str, ctxt: u32, src: &str) -> ModuleItem {
    ModuleItem::Import(ImportDecl {
        src: src.to_string(),
        specifiers: vec![ImportSpecifier::Default { local: ident(local, ctxt) }],
    })
}

fn named(local: &str, ctxt: u32) -> ImportSpecifier {
    ImportSpecifier::Named { local: ident(local, ctxt), imported: None }
}

fn aliased(imported: &str, local: &str, ctxt: u32) -> ImportSpecifier {
    ImportSpecifier::Named { local: ident(local, ctxt), imported: Some(imported.to_string()) }
}

fn import(src: &str, specifiers: Vec<ImportSpecifier>) -> ModuleItem {
    ModuleItem::Import(ImportDecl { src: src.to_string(), specifiers })
}

fn bare_import(src: &str) -> ModuleItem {
    import(src, vec![])
}

fn element(tag: &str, ctxt: u32, children: Vec<Node>) -> Node {
    Node::Jsx(JsxElement { name: JsxName::Ident(ident(tag, ctxt)), attrs: vec![], children })
}

fn call(callee: Node, args: Vec<Node>) -> Node {
    Node::Call { callee: Box::new(callee), args }
}

fn member(obj: Node, prop: &str) -> Node {
    Node::Member { obj: Box::new(obj), prop: ident(prop, 0) }
}

fn stmt(pos: u32, expr: Node) -> Node {
    Node::ExprStmt { pos, expr: Box::new(expr) }
}

fn constant(local: &str, ctxt: u32) -> ModuleItem {
    ModuleItem::Other(Node::Other(vec![name(local, ctxt), Node::Other(vec![])]))
}

fn no_config() -> TransformConfig {
    TransformConfig { react_runtime: None, babel_import: None, remove_use_effect: None }
}

fn antd_rule() -> BabelImportConfig {
    BabelImportConfig {
        from_source: "antd".to_string(),
        replace_css: Some(ReplaceCssConfig {
            ignore_style_component: None,
            replace_expr: "antd/es/{}/style/index.css".to_string(),
            lower: Some(true),
        }),
        replace_js: Some(ReplaceSpecConfig {
            ignore_es_component: None,
            replace_expr: "antd/es/{}/index.js".to_string(),
            lower: Some(true),
        }),
    }
}

fn page_class(t: u32) -> ModuleItem {
    let render = Node::Block(vec![Node::Other(vec![element(
        "div",
        0,
        vec![
            element("div", 0, vec![]),
            element("Child", t, vec![]),
            element("Button", t, vec![]),
            element("Input", t, vec![]),
        ],
    )])]);
    ModuleItem::Other(Node::Other(vec![
        name("Page", t),
        member(name("React", t), "Component"),
        Node::TypeAnn(vec![]),
        Node::Other(vec![ident_node_key("render"), render]),
    ]))
}

fn ident_node_key(key: &str) -> Node {
    name(key, 0)
}

fn render_call(t: u32) -> ModuleItem {
    ModuleItem::Other(stmt(
        400,
        call(
            member(name("ReactDOM", t), "render"),
            vec![
                element("Page", t, vec![]),
                call(member(name("document", 0), "getElementById"), vec![Node::Other(vec![])]),
            ],
        ),
    ))
}

#[test]
fn babel_import_test() {
    let t: u32 = 1;
    let source = Module {
        body: vec![
            default_import("React", t, "react"),
            default_import("ReactDOM", t, "react-dom"),
            import("antd", vec![named("Button", t), named("Input", t)]),
            default_import("Child", t, "./component/Child"),
            page_class(t),
            render_call(t),
        ],
    };
    let target = Module {
        body: vec![
            bare_import("antd/es/input/style/index.css"),
            bare_import("antd/es/button/style/index.css"),
            default_import("Input", t, "antd/es/input/index.js"),
            default_import("Button", t, "antd/es/button/index.js"),
            default_import("React", t, "react"),
            default_import("ReactDOM", t, "react-dom"),
            default_import("Child", t, "./component/Child"),
            page_class(t),
            render_call(t),
        ],
    };
    let res = transform(
        Ok(source),
        &TransformConfig {
            react_runtime: Some(false),
            babel_import: Some(vec![antd_rule()]),
            remove_use_effect: None,
        },
        None,
        Some("ES5".to_string()),
    )
    .unwrap();
    assert_eq!(res.module, target);
}

fn react_perfix_items(t: u32) -> Vec<ModuleItem> {
    vec![
        import("react", vec![named("useState", t)]),
        import("antd", vec![named("Button", t), named("Input", t)]),
        constant("a", t),
    ]
}

#[test]
fn react_perfix_test() {
    let t: u32 = 1;
    let source = Module { body: react_perfix_items(t) };
    let mut expected = vec![default_import("React", 0, "react")];
    expected.extend(react_perfix_items(t));
    let target = Module { body: expected };
    let res = transform(
        Ok(source),
        &TransformConfig {
            react_runtime: Some(true),
            babel_import: None,
            remove_use_effect: None,
        },
        None,
        Some("ES5".to_string()),
    )
    .unwrap();
    assert_eq!(res.module, target);
}

#[test]
fn swc_all_test() {
    let t: u32 = 1;
    let react = || {
        import(
            "react",
            vec![
                named("useState", t),
                named("useCallback", t),
                named("useEffect", t),
                named("Fragment", t),
            ],
        )
    };
    let source = Module {
        body: vec![
            react(),
            import("@byted-growth/luckycat-mobile", vec![named("Image", t)]),
            import("@byted-growth/luckycat-util", vec![named("throttle", t)]),
            constant("a", t),
        ],
    };
    let res = transform(
        Ok(source),
        &TransformConfig {
            react_runtime: Some(false),
            babel_import: Some(vec![
                BabelImportConfig {
                    from_source: "@byted-growth/luckycat-mobile".to_string(),
                    replace_css: Some(ReplaceCssConfig {
                        ignore_style_component: Some(vec![
                            "Image".to_string(),
                            "ConfigProvider".to_string(),
                            "ConfigContext".to_string(),
                        ]),
                        replace_expr:
                            "@byted-growth/luckycat-mobile/theme/components/{}/style/index.css"
                                .to_string(),
                        lower: Some(false),
                    }),
                    replace_js: Some(ReplaceSpecConfig {
                        ignore_es_component: None,
                        replace_expr: "@byted-growth/luckycat-mobile/es/{}/index.js".to_string(),
                        lower: Some(false),
                    }),
                },
                BabelImportConfig {
                    from_source: "@byted-growth/luckycat-util".to_string(),
                    replace_css: None,
                    replace_js: Some(ReplaceSpecConfig {
                        ignore_es_component: None,
                        replace_expr: "@byted-growth/luckycat-util/pure_es/{}/index.js"
                            .to_string(),
                        lower: Some(false),
                    }),
                },
            ]),
            remove_use_effect: None,
        },
        None,
        Some("ES5".to_string()),
    )
    .unwrap();
    let target = Module {
        body: vec![
            default_import(
                "throttle",
                t,
                "@byted-growth/luckycat-util/pure_es/throttle/index.js",
            ),
            default_import("Image", t, "@byted-growth/luckycat-mobile/es/Image/index.js"),
            react(),
            constant("a", t),
        ],
    };
    assert_eq!(res.module, target);
}

fn decorator_items() -> Vec<ModuleItem> {
    let log = |f: &str, params: Vec<Node>, s: u32, pos: u32| {
        ModuleItem::Other(Node::Other(vec![
            name(f, 1),
            Node::Other(params),
            Node::Block(vec![stmt(
                pos,
                call(
                    member(name("console", 0), "log"),
                    vec![name("target", s), name("propertyName", s)],
                ),
            )]),
        ]))
    };
    vec![
        log(
            "logParameter",
            vec![
                name("target", 2),
                Node::TypeAnn(vec![name("Object", 0)]),
                name("propertyName", 2),
                Node::TypeAnn(vec![]),
            ],
            2,
            62,
        ),
        log("logClass", vec![name("target", 3), Node::TypeAnn(vec![name("Function", 0)])], 3, 140),
        ModuleItem::Other(Node::Other(vec![
            name("logClass", 1),
            name("Employee", 1),
            Node::Other(vec![name("logParameter", 1), name("name", 0), Node::TypeAnn(vec![])]),
        ])),
    ]
}

#[test]
fn test_typescript_decorator() {
    let source = Module { body: decorator_items() };
    let res = transform(Ok(source), &no_config(), None, None);
    let module = match res {
        Ok(output) => {
            assert_eq!(output.target, EsVersion::Es5);
            assert_eq!(output.filename, "test.js");
            output.module
        }
        Err(msg) => {
            println!("{}", msg);
            Module { body: vec![] }
        }
    };
    assert_eq!(module, Module { body: decorator_items() });
}

#[test]
fn per_component_imports_surface_in_reverse_order() {
    let mut module = Module {
        body: vec![
            default_import("React", 1, "react"),
            import("pkg", vec![named("Button", 1), named("Input", 1)]),
            constant("a", 1),
        ],
    };
    let config = TransformConfig {
        react_runtime: None,
        babel_import: Some(vec![BabelImportConfig {
            from_source: "pkg".to_string(),
            replace_css: Some(ReplaceCssConfig {
                ignore_style_component: None,
                replace_expr: "pkg/es/{}/style/index.css".to_string(),
                lower: None,
            }),
            replace_js: Some(ReplaceSpecConfig {
                ignore_es_component: None,
                replace_expr: "pkg/es/{}/index.js".to_string(),
                lower: None,
            }),
        }]),
        remove_use_effect: None,
    };
    transform_style(&mut module, &config);
    assert_eq!(
        module.body,
        vec![
            bare_import("pkg/es/Input/style/index.css"),
            bare_import("pkg/es/Button/style/index.css"),
            default_import("Input", 1, "pkg/es/Input/index.js"),
            default_import("Button", 1, "pkg/es/Button/index.js"),
            default_import("React", 1, "react"),
            constant("a", 1),
        ]
    );
}

#[test]
fn injection_adds_one_import_first_and_then_rests() {
    let body = || vec![ModuleItem::Other(Node::Other(vec![element("App", 1, vec![])]))];
    let mut module = Module { body: body() };
    let config = TransformConfig {
        react_runtime: Some(true),
        babel_import: None,
        remove_use_effect: None,
    };
    transform_perfixreact(&mut module, &config);
    let mut expected = vec![default_import("React", 0, "react")];
    expected.extend(body());
    assert_eq!(module.body, expected);
    transform_perfixreact(&mut module, &config);
    assert_eq!(module.body, expected);
}

#[test]
fn injection_keeps_a_module_that_has_the_default_import() {
    let body = || {
        vec![
            constant("a", 1),
            import(
                "react",
                vec![named("useState", 1), ImportSpecifier::Default { local: ident("R", 1) }],
            ),
        ]
    };
    let mut module = Module { body: body() };
    let config = TransformConfig {
        react_runtime: Some(true),
        babel_import: None,
        remove_use_effect: None,
    };
    transform_perfixreact(&mut module, &config);
    assert_eq!(module.body, body());
}

#[test]
fn injection_counts_neither_namespace_nor_other_packages() {
    let body = || {
        vec![
            import("react", vec![ImportSpecifier::Namespace { local: ident("React", 1) }]),
            default_import("React", 1, "preact"),
        ]
    };
    let mut module = Module { body: body() };
    let config = TransformConfig {
        react_runtime: Some(true),
        babel_import: None,
        remove_use_effect: None,
    };
    transform_perfixreact(&mut module, &config);
    let mut expected = vec![default_import("React", 0, "react")];
    expected.extend(body());
    assert_eq!(module.body, expected);
}

#[test]
fn injection_is_off_without_the_switch() {
    let mut module = Module { body: vec![constant("a", 1)] };
    let mut config = no_config();
    transform_perfixreact(&mut module, &config);
    assert_eq!(module.body, vec![constant("a", 1)]);
    config.react_runtime = Some(false);
    transform_perfixreact(&mut module, &config);
    assert_eq!(module.body, vec![constant("a", 1)]);
}

fn effect_config() -> TransformConfig {
    TransformConfig { react_runtime: None, babel_import: None, remove_use_effect: Some(true) }
}

fn function(local: &str, ctxt: u32, body: Vec<Node>) -> Node {
    Node::Other(vec![name(local, ctxt), Node::Block(body)])
}

#[test]
fn aliased_hook_calls_leave_and_a_local_namesake_stays() {
    let mut module = Module {
        body: vec![
            import("react", vec![aliased("useEffect", "fx", 1)]),
            ModuleItem::Other(function(
                "App",
                1,
                vec![
                    stmt(10, call(name("fx", 1), vec![Node::Other(vec![])])),
                    stmt(20, call(name("other", 1), vec![])),
                    function(
                        "inner",
                        2,
                        vec![
                            Node::Other(vec![name("fx", 3)]),
                            stmt(30, call(name("fx", 3), vec![])),
                        ],
                    ),
                    stmt(40, call(name("fx", 1), vec![])),
                ],
            )),
        ],
    };
    remove_call(&mut module, &effect_config());
    assert_eq!(
        module.body,
        vec![
            import("react", vec![aliased("useEffect", "fx", 0)]),
            ModuleItem::Other(function(
                "App",
                0,
                vec![
                    stmt(20, call(name("other", 0), vec![])),
                    function(
                        "inner",
                        0,
                        vec![
                            Node::Other(vec![name("fx", 0)]),
                            stmt(30, call(name("fx", 0), vec![])),
                        ],
                    ),
                ],
            )),
        ]
    );
}

#[test]
fn member_calls_through_the_default_import_leave() {
    let mut module = Module {
        body: vec![
            default_import("R", 1, "react"),
            ModuleItem::Other(Node::Block(vec![
                stmt(1, call(member(name("R", 1), "useEffect"), vec![])),
                stmt(2, call(member(name("R", 1), "useState"), vec![])),
                stmt(3, call(member(name("R", 2), "useEffect"), vec![])),
                stmt(4, call(member(member(name("R", 1), "x"), "useEffect"), vec![])),
                stmt(5, member(name("R", 1), "useEffect")),
            ])),
        ],
    };
    remove_call(&mut module, &effect_config());
    assert_eq!(
        module.body,
        vec![
            default_import("R", 0, "react"),
            ModuleItem::Other(Node::Block(vec![
                stmt(2, call(member(name("R", 0), "useState"), vec![])),
                stmt(3, call(member(name("R", 0), "useEffect"), vec![])),
                stmt(4, call(member(member(name("R", 0), "x"), "useEffect"), vec![])),
                stmt(5, member(name("R", 0), "useEffect")),
            ])),
        ]
    );
}

#[test]
fn a_hook_of_another_package_is_not_the_hook() {
    let body = |t: u32, u: u32| {
        vec![
            import("preact", vec![named("useEffect", t)]),
            import("react", vec![named("useState", t)]),
            ModuleItem::Other(Node::Block(vec![stmt(1, call(name("useEffect", u), vec![]))])),
        ]
    };
    let mut module = Module { body: body(1, 1) };
    remove_call(&mut module, &effect_config());
    assert_eq!(module.body, body(0, 0));
}

#[test]
fn top_level_statements_and_nested_blocks() {
    let mut module = Module {
        body: vec![
            import("react", vec![named("useEffect", 1)]),
            ModuleItem::Other(stmt(
                1,
                call(
                    name("useEffect", 1),
                    vec![Node::Other(vec![Node::Block(vec![
                        stmt(2, call(name("useEffect", 1), vec![])),
                        stmt(3, call(name("keep", 1), vec![])),
                    ])])],
                ),
            )),
            ModuleItem::Other(Node::Jsx(JsxElement {
                name: JsxName::Ident(ident("A", 1)),
                attrs: vec![Node::Block(vec![stmt(4, call(name("useEffect", 1), vec![]))])],
                children: vec![Node::Block(vec![stmt(5, call(name("useEffect", 1), vec![]))])],
            })),
        ],
    };
    remove_call(&mut module, &effect_config());
    assert_eq!(
        module.body,
        vec![
            import("react", vec![named("useEffect", 0)]),
            ModuleItem::Other(stmt(
                1,
                call(
                    name("useEffect", 0),
                    vec![Node::Other(vec![Node::Block(vec![stmt(
                        3,
                        call(name("keep", 0), vec![])
                    )])])],
                ),
            )),
            ModuleItem::Other(Node::Jsx(JsxElement {
                name: JsxName::Ident(ident("A", 0)),
                attrs: vec![Node::Block(vec![])],
                children: vec![Node::Block(vec![])],
            })),
        ]
    );
}

#[test]
fn removal_is_off_without_the_switch() {
    let body = || {
        vec![
            import("react", vec![named("useEffect", 1)]),
            ModuleItem::Other(Node::Block(vec![stmt(1, call(name("useEffect", 1), vec![]))])),
        ]
    };
    let mut module = Module { body: body() };
    remove_call(&mut module, &no_config());
    assert_eq!(module.body, body());
    let mut config = no_config();
    config.remove_use_effect = Some(false);
    remove_call(&mut module, &config);
    assert_eq!(module.body, body());
}

#[test]
fn the_last_import_of_a_kind_binds() {
    let items = vec![
        import("react", vec![named("useEffect", 1), aliased("useEffect", "fx", 2)]),
        default_import("A", 3, "react"),
        import("other", vec![named("useEffect", 9)]),
        import(
            "react",
            vec![
                ImportSpecifier::Default { local: ident("B", 4) },
                ImportSpecifier::Namespace { local: ident("N", 5) },
                aliased("useState", "useEffect", 6),
            ],
        ),
    ];
    let found = RmUseEffect::discover(&items);
    assert_eq!(found.use_effect_mark, Some(ident("fx", 2)));
    assert_eq!(found.react_mark, Some(ident("B", 4)));
    let none = RmUseEffect::discover(&vec![constant("a", 1)]);
    assert_eq!(none.use_effect_mark, None);
    assert_eq!(none.react_mark, None);
}

#[test]
fn is_effect_call_tells_the_binding_from_the_spelling() {
    let b = RmUseEffect { use_effect_mark: Some(ident("useEffect", 1)), react_mark: None };
    assert!(b.is_effect_call(&stmt(0, call(name("useEffect", 1), vec![]))));
    assert!(!b.is_effect_call(&stmt(0, call(name("useEffect", 2), vec![]))));
    assert!(!b.is_effect_call(&stmt(0, call(member(name("React", 1), "useEffect"), vec![]))));
    assert!(!b.is_effect_call(&call(name("useEffect", 1), vec![])));
    let none = RmUseEffect { use_effect_mark: None, react_mark: None };
    assert!(!none.is_effect_call(&stmt(0, call(name("useEffect", 1), vec![]))));
}

#[test]
fn a_parse_failure_is_handed_on() {
    let res = transform(Err("Unexpected token".to_string()), &no_config(), None, None);
    assert_eq!(res.err(), Some("Unexpected token".to_string()));
}

#[test]
fn filename_and_target_are_chosen() {
    let res = transform(
        Ok(Module { body: vec![] }),
        &no_config(),
        Some("a.tsx".to_string()),
        Some("ES6".to_string()),
    )
    .unwrap();
    assert_eq!(res.filename, "a.tsx");
    assert_eq!(res.target, EsVersion::Es2015);
    assert_eq!(res.module, Module { body: vec![] });
    assert_eq!(target_version(&None), EsVersion::Es5);
    assert_eq!(target_version(&Some("".to_string())), EsVersion::Es5);
    assert_eq!(target_version(&Some("ES5".to_string())), EsVersion::Es5);
    assert_eq!(target_version(&Some("ES6".to_string())), EsVersion::Es2015);
    assert_eq!(target_version(&Some("es6".to_string())), EsVersion::Es2020);
    assert_eq!(target_version(&Some("ES2022".to_string())), EsVersion::Es2020);
}

#[test]
fn lexical_errors_are_joined() {
    assert_eq!(lex_diagnostic(&vec![]), None);
    assert_eq!(lex_diagnostic(&vec!["one".to_string()]), Some("one".to_string()));
    assert_eq!(
        lex_diagnostic(&vec!["a b".to_string(), "".to_string(), "c".to_string()]),
        Some("a bc".to_string())
    );
}

#[test]
fn the_passes_run_in_their_order() {
    let source = Module {
        body: vec![
            import("react", vec![named("useEffect", 1)]),
            import("antd", vec![named("Button", 1)]),
            ModuleItem::Other(Node::Block(vec![
                stmt(1, call(name("useEffect", 1), vec![])),
                Node::Other(vec![element("Button", 1, vec![])]),
            ])),
        ],
    };
    let res = transform(
        Ok(source),
        &TransformConfig {
            react_runtime: Some(true),
            babel_import: Some(vec![antd_rule()]),
            remove_use_effect: Some(true),
        },
        None,
        None,
    )
    .unwrap();
    assert_eq!(
        res.module.body,
        vec![
            default_import("React", 0, "react"),
            bare_import("antd/es/button/style/index.css"),
            default_import("Button", 0, "antd/es/button/index.js"),
            import("react", vec![named("useEffect", 0)]),
            ModuleItem::Other(Node::Block(vec![Node::Other(vec![element(
                "Button",
                0,
                vec![]
            )])])),
        ]
    );
}

#[test]
fn nothing_configured_changes_nothing() {
    let body = || {
        vec![
            import("react", vec![named("useEffect", 1)]),
            import("antd", vec![named("Button", 1)]),
            ModuleItem::Other(Node::Block(vec![stmt(1, call(name("useEffect", 1), vec![]))])),
        ]
    };
    let res = transform(Ok(Module { body: body() }), &no_config(), None, None).unwrap();
    assert_eq!(res.module.body, body());
    let empty = TransformConfig {
        react_runtime: Some(false),
        babel_import: Some(vec![]),
        remove_use_effect: Some(false),
    };
    let res = transform(Ok(Module { body: body() }), &empty, None, None).unwrap();
    assert_eq!(res.module.body, body());
}

#[test]
fn copies_are_equal_to_their_originals() {
    let node = Node::Jsx(JsxElement {
        name: JsxName::Member {
            obj: JsxObject::Member {
                obj: Box::new(JsxObject::Ident(ident("a", 1))),
                prop: ident("b", 0),
            },
            prop: ident("c", 0),
        },
        attrs: vec![Node::TypeAnn(vec![name("t", 2)])],
        children: vec![stmt(7, call(member(name("x", 3), "y"), vec![Node::Block(vec![])]))],
    });
    assert_eq!(node.copy(), node);
    let item = import("m", vec![named("a", 1), aliased("b", "c", 2)]);
    assert_eq!(item.copy(), item);
    assert!(ident("a", 1).same(&ident("a", 1)));
    assert!(!ident("a", 1).same(&ident("a", 2)));
    assert!(!ident("a", 1).same(&ident("b", 1)));
}

#[test]
fn a_namesake_deep_below_stays_in_its_block() {
    let deep = |t: u32, u: u32, with_hook: bool| {
        let mut inner = vec![stmt(30, call(name("useEffect", u), vec![name("x", u)]))];
        if with_hook {
            inner.insert(0, stmt(25, call(name("useEffect", t), vec![])));
            inner.push(stmt(35, call(name("useEffect", t), vec![])));
        }
        ModuleItem::Other(function(
            "outer",
            t,
            vec![
                stmt(
                    10,
                    call(
                        name("run", t),
                        vec![element(
                            "A",
                            t,
                            vec![Node::Other(vec![function("useEffect", u, inner)])],
                        )],
                    ),
                ),
                stmt(20, call(name("after", t), vec![])),
            ],
        ))
    };
    let mut module = Module {
        body: vec![import("react", vec![named("useEffect", 1)]), deep(1, 7, true)],
    };
    remove_call(&mut module, &effect_config());
    assert_eq!(
        module.body,
        vec![import("react", vec![named("useEffect", 0)]), deep(0, 0, false)]
    );
}

