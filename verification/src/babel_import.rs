//! Splitting the imports of a component package into one import per
//! component.
//!
//! A rule names a package and says where the script and the style sheet of
//! each of its components are found. A named import of the package, such
//! as `import { Button } from "antd"`, then becomes a default import of the
//! component's own script and a bare import of its style sheet.
//!
//! The order of the new imports is fixed: every new import is put in front
//! of those made before it, the style imports stand before the script
//! imports, and both stand before what is left of the module. So the
//! specifier that is handled last comes out first.
use vstd::prelude::*;
use crate::ast::{
    distinct_locals, item_well_formed, items_view, local_of, well_formed, Id, Ident, ImportDecl,
    ImportSpecifier, ImportView, ItemView, Module, ModuleItem, SpecifierView,
};
use crate::text::{component_path, path_of, same_text};
use crate::types::{enabled, is_enabled, is_listed, listed, BabelImportConfig, TransformConfig};
use crate::visit::{
    collected, idents_of_item, idents_of_items, jsx_of_item, jsx_of_items, live, Found,
    IdentComponent,
};

verus! {

/// The imports made so far, the newest first.
pub struct Emitted {
    /// The style imports.
    pub css: Seq<ItemView>,
    /// The script imports.
    pub js: Seq<ItemView>,
}

/// The name of the component that a named specifier imports: the name in
/// the package, whatever it is called locally.
pub open spec fn component(local: Id, imported: Option<Seq<char>>) -> Seq<char> {
    match imported {
        Some(name) => name,
        None => local.0,
    }
}

/// Whether a rule turns the import of a component into an import of the
/// component's own script.
pub open spec fn takes_js(rule: BabelImportConfig, comp: Seq<char>) -> bool {
    match rule.replace_js {
        Some(js) => !listed(js.ignore_es_component, comp),
        None => false,
    }
}

/// Whether a rule imports the style sheet of a component: the rule has a
/// style template that does not exempt the component, and the component's
/// script is imported too or the component is used.
pub open spec fn takes_css(
    rule: BabelImportConfig,
    found: Found,
    local: Id,
    comp: Seq<char>,
) -> bool {
    match rule.replace_css {
        Some(css) => !listed(css.ignore_style_component, comp) && (takes_js(rule, comp) || live(
            found,
            local,
        )),
        None => false,
    }
}

/// The import of a component's script, bound to the local name that the
/// component had.
pub open spec fn js_import(rule: BabelImportConfig, local: Id, comp: Seq<char>) -> ItemView
    recommends
        rule.replace_js is Some,
{
    let js = rule.replace_js->0;
    ItemView::Import(
        ImportView {
            src: path_of(js.replace_expr@, comp, enabled(js.lower)),
            specifiers: seq![SpecifierView::Default { local }],
        },
    )
}

/// The import of a component's style sheet, which binds nothing.
pub open spec fn css_import(rule: BabelImportConfig, comp: Seq<char>) -> ItemView
    recommends
        rule.replace_css is Some,
{
    let css = rule.replace_css->0;
    ItemView::Import(
        ImportView {
            src: path_of(css.replace_expr@, comp, enabled(css.lower)),
            specifiers: Seq::empty(),
        },
    )
}

/// Whether a rule takes a specifier out of its declaration. Only a named
/// specifier can leave; a default or namespace binding always stays.
pub open spec fn rewrites(rule: BabelImportConfig, s: SpecifierView) -> bool {
    match s {
        SpecifierView::Named { local, imported } => takes_js(rule, component(local, imported)),
        _ => false,
    }
}

/// The imports after one more specifier.
pub open spec fn emit_specifier(
    e: Emitted,
    rule: BabelImportConfig,
    found: Found,
    s: SpecifierView,
) -> Emitted {
    match s {
        SpecifierView::Named { local, imported } => {
            let comp = component(local, imported);
            Emitted {
                css: if takes_css(rule, found, local, comp) {
                    seq![css_import(rule, comp)] + e.css
                } else {
                    e.css
                },
                js: if takes_js(rule, comp) {
                    seq![js_import(rule, local, comp)] + e.js
                } else {
                    e.js
                },
            }
        },
        _ => e,
    }
}

/// The imports after the specifiers of a declaration, taken in order.
pub open spec fn emit_specifiers(
    e: Emitted,
    rule: BabelImportConfig,
    found: Found,
    s: Seq<SpecifierView>,
) -> Emitted
    decreases s.len(),
{
    if s.len() == 0 {
        e
    } else {
        emit_specifier(emit_specifiers(e, rule, found, s.drop_last()), rule, found, s.last())
    }
}

/// The specifiers that a rule leaves in a declaration, in their order.
pub open spec fn kept_specifiers(rule: BabelImportConfig, s: Seq<SpecifierView>) -> Seq<
    SpecifierView,
>
    decreases s.len(),
{
    if s.len() == 0 {
        Seq::empty()
    } else if rewrites(rule, s.last()) {
        kept_specifiers(rule, s.drop_last())
    } else {
        kept_specifiers(rule, s.drop_last()).push(s.last())
    }
}

/// Whether a rule is about the package of a declaration.
pub open spec fn concerns(rule: BabelImportConfig, d: ImportView) -> bool {
    d.src == rule.from_source@
}

/// What a rule leaves of a declaration of its package: the declaration
/// with the specifiers that stay, or nothing where it had specifiers and
/// all of them left.
pub open spec fn kept_decl(rule: BabelImportConfig, d: ImportView) -> Option<ImportView> {
    let kept = kept_specifiers(rule, d.specifiers);
    if kept.len() == 0 && d.specifiers.len() > 0 {
        None
    } else {
        Some(ImportView { src: d.src, specifiers: kept })
    }
}

/// What a rule leaves of a top-level item.
pub open spec fn kept_item(rule: BabelImportConfig, i: ItemView) -> Option<ItemView> {
    match i {
        ItemView::Import(d) => if concerns(rule, d) {
            match kept_decl(rule, d) {
                Some(k) => Some(ItemView::Import(k)),
                None => None,
            }
        } else {
            Some(i)
        },
        ItemView::Other(_) => Some(i),
    }
}

/// What a rule leaves of a module body, in the body's order.
pub open spec fn kept_items(rule: BabelImportConfig, s: Seq<ItemView>) -> Seq<ItemView>
    decreases s.len(),
{
    if s.len() == 0 {
        Seq::empty()
    } else {
        match kept_item(rule, s.last()) {
            Some(k) => kept_items(rule, s.drop_last()).push(k),
            None => kept_items(rule, s.drop_last()),
        }
    }
}

/// The imports after one more top-level item.
pub open spec fn emit_item(e: Emitted, rule: BabelImportConfig, found: Found, i: ItemView) -> Emitted {
    match i {
        ItemView::Import(d) => if concerns(rule, d) {
            emit_specifiers(e, rule, found, d.specifiers)
        } else {
            e
        },
        ItemView::Other(_) => e,
    }
}

/// The imports after the items of a module body, taken in order.
pub open spec fn emit_items(
    e: Emitted,
    rule: BabelImportConfig,
    found: Found,
    s: Seq<ItemView>,
) -> Emitted
    decreases s.len(),
{
    if s.len() == 0 {
        e
    } else {
        emit_item(emit_items(e, rule, found, s.drop_last()), rule, found, s.last())
    }
}

/// A rewrite in progress: the imports made so far, and what is left of the
/// module body.
pub struct Rewrite {
    pub emitted: Emitted,
    pub items: Seq<ItemView>,
}

/// The start of a rewrite.
pub open spec fn start(items: Seq<ItemView>) -> Rewrite {
    Rewrite { emitted: Emitted { css: Seq::empty(), js: Seq::empty() }, items }
}

/// A rewrite after one more rule.
pub open spec fn apply_rule(st: Rewrite, rule: BabelImportConfig, found: Found) -> Rewrite {
    Rewrite {
        emitted: emit_items(st.emitted, rule, found, st.items),
        items: kept_items(rule, st.items),
    }
}

/// A rewrite after the rules, taken in order.
pub open spec fn apply_rules(st: Rewrite, rules: Seq<BabelImportConfig>, found: Found) -> Rewrite
    decreases rules.len(),
{
    if rules.len() == 0 {
        st
    } else {
        apply_rule(apply_rules(st, rules.drop_last(), found), rules.last(), found)
    }
}

/// The module body at the end of a rewrite: the style imports, the script
/// imports, then what is left of the body.
pub open spec fn assembled(st: Rewrite) -> Seq<ItemView> {
    st.emitted.css + st.emitted.js + st.items
}

/// A module body rewritten by the rules. What counts as used is decided
/// once, on the body as it was.
pub open spec fn rewritten(items: Seq<ItemView>, rules: Seq<BabelImportConfig>) -> Seq<ItemView> {
    assembled(apply_rules(start(items), rules, collected(items)))
}

/// The imports that a rewrite has made, the newest first.
pub struct Imports {
    pub css: Vec<ModuleItem>,
    pub js: Vec<ModuleItem>,
}

impl View for Imports {
    type V = Emitted;

    open spec fn view(&self) -> Emitted {
        Emitted { css: items_view(self.css@), js: items_view(self.js@) }
    }
}

/// The name of the component that a named specifier imports.
pub fn component_name<'a>(local: &'a Ident, imported: &'a Option<String>) -> (r: &'a str)
    ensures
        r@ == component(
            local@,
            match *imported {
                Some(name) => Some(name@),
                None => None,
            },
        ),
{
    match imported {
        Some(name) => name.as_str(),
        None => local.sym.as_str(),
    }
}

/// Tests whether a rule imports the script of a component by itself.
pub fn rule_takes_js(rule: &BabelImportConfig, comp: &str) -> (r: bool)
    ensures
        r == takes_js(*rule, comp@),
{
    match &rule.replace_js {
        Some(js) => !is_listed(&js.ignore_es_component, comp),
        None => false,
    }
}

/// Tests whether a rule imports the style sheet of a component.
pub fn rule_takes_css(
    rule: &BabelImportConfig,
    found: &IdentComponent,
    local: &Ident,
    comp: &str,
) -> (r: bool)
    ensures
        r == takes_css(*rule, found@, local@, comp@),
{
    match &rule.replace_css {
        Some(css) => !is_listed(&css.ignore_style_component, comp) && (rule_takes_js(rule, comp)
            || found.is_live(local.sym.as_str(), local.ctxt)),
        None => false,
    }
}

impl Imports {
    /// No imports yet.
    pub fn new() -> (r: Imports)
        ensures
            r@.css == Seq::<ItemView>::empty(),
            r@.js == Seq::<ItemView>::empty(),
    {
        let r = Imports { css: Vec::new(), js: Vec::new() };
        assert(r@.css =~= Seq::<ItemView>::empty());
        assert(r@.js =~= Seq::<ItemView>::empty());
        r
    }

    /// Makes the imports that a rule asks for one specifier, and says
    /// whether the specifier leaves its declaration.
    pub fn emit_specifier(
        &mut self,
        rule: &BabelImportConfig,
        found: &IdentComponent,
        s: &ImportSpecifier,
    ) -> (gone: bool)
        ensures
            final(self)@ == emit_specifier(old(self)@, *rule, found@, s@),
            gone == rewrites(*rule, s@),
    {
        match s {
            ImportSpecifier::Named { local, imported } => {
                let comp = component_name(local, imported);
                if rule_takes_css(rule, found, local, comp) {
                    match &rule.replace_css {
                        Some(css) => {
                            let src = component_path(
                                css.replace_expr.as_str(),
                                comp,
                                is_enabled(css.lower),
                            );
                            let decl = ImportDecl { src, specifiers: Vec::new() };
                            assert(decl@.specifiers =~= Seq::<SpecifierView>::empty());
                            self.css.insert(0, ModuleItem::Import(decl));
                            assert(self@.css =~= seq![css_import(*rule, comp@)] + old(self)@.css);
                        },
                        None => {},
                    }
                }
                let gone = rule_takes_js(rule, comp);
                if gone {
                    match &rule.replace_js {
                        Some(js) => {
                            let src = component_path(
                                js.replace_expr.as_str(),
                                comp,
                                is_enabled(js.lower),
                            );
                            let mut specifiers: Vec<ImportSpecifier> = Vec::new();
                            specifiers.push(ImportSpecifier::Default { local: local.copy() });
                            let decl = ImportDecl { src, specifiers };
                            assert(decl@.specifiers =~= seq![
                                SpecifierView::Default { local: local@ },
                            ]);
                            self.js.insert(0, ModuleItem::Import(decl));
                            assert(self@.js =~= seq![js_import(*rule, local@, comp@)] + old(
                                self,
                            )@.js);
                        },
                        None => {},
                    }
                }
                gone
            },
            _ => false,
        }
    }

    /// Handles one declaration of a rule's package: makes the imports for
    /// its specifiers and returns what is left of it, if anything.
    pub fn split_decl(
        &mut self,
        rule: &BabelImportConfig,
        found: &IdentComponent,
        decl: &ImportDecl,
    ) -> (r: Option<ImportDecl>)
        ensures
            final(self)@ == emit_specifiers(old(self)@, *rule, found@, decl@.specifiers),
            match r {
                Some(k) => kept_decl(*rule, decl@) == Some(k@),
                None => kept_decl(*rule, decl@) is None,
            },
    {
        let mut kept: Vec<ImportSpecifier> = Vec::new();
        let mut i: usize = 0;
        let ghost specs = decl@.specifiers;
        assert(specs.take(0) =~= Seq::<SpecifierView>::empty());
        while i < decl.specifiers.len()
            invariant
                specs == decl@.specifiers,
                i <= decl.specifiers@.len(),
                self@ == emit_specifiers(old(self)@, *rule, found@, specs.take(i as int)),
                kept@.map_values(|s: ImportSpecifier| s@) == kept_specifiers(
                    *rule,
                    specs.take(i as int),
                ),
            decreases decl.specifiers@.len() - i,
        {
            proof {
                let done = specs.take(i as int);
                assert(specs.take(i + 1) =~= done.push(decl.specifiers@[i as int]@));
                assert(done.push(decl.specifiers@[i as int]@).drop_last() =~= done);
            }
            let gone = self.emit_specifier(rule, found, &decl.specifiers[i]);
            if !gone {
                let ghost before = kept@.map_values(|s: ImportSpecifier| s@);
                kept.push(decl.specifiers[i].copy());
                assert(kept@.map_values(|s: ImportSpecifier| s@) =~= before.push(
                    decl.specifiers@[i as int]@,
                ));
            }
            i += 1;
        }
        assert(specs.take(decl.specifiers@.len() as int) =~= specs);
        if kept.len() == 0 && decl.specifiers.len() > 0 {
            None
        } else {
            Some(ImportDecl { src: decl.src.clone(), specifiers: kept })
        }
    }

    /// Applies one rule to a module body: makes the imports that the rule
    /// asks for and returns what is left of the body.
    pub fn apply_rule(
        &mut self,
        rule: &BabelImportConfig,
        found: &IdentComponent,
        items: &Vec<ModuleItem>,
    ) -> (r: Vec<ModuleItem>)
        ensures
            final(self)@ == emit_items(old(self)@, *rule, found@, items_view(items@)),
            items_view(r@) == kept_items(*rule, items_view(items@)),
    {
        let mut out: Vec<ModuleItem> = Vec::new();
        let mut i: usize = 0;
        let ghost all = items_view(items@);
        assert(all.take(0) =~= Seq::<ItemView>::empty());
        assert(items_view(out@) =~= Seq::<ItemView>::empty());
        while i < items.len()
            invariant
                all == items_view(items@),
                i <= items@.len(),
                self@ == emit_items(old(self)@, *rule, found@, all.take(i as int)),
                items_view(out@) == kept_items(*rule, all.take(i as int)),
            decreases items@.len() - i,
        {
            proof {
                let done = all.take(i as int);
                assert(all.take(i + 1) =~= done.push(items@[i as int]@));
                assert(done.push(items@[i as int]@).drop_last() =~= done);
            }
            let ghost before = items_view(out@);
            match &items[i] {
                ModuleItem::Import(decl) => {
                    if same_text(decl.src.as_str(), rule.from_source.as_str()) {
                        match self.split_decl(rule, found, decl) {
                            Some(k) => {
                                out.push(ModuleItem::Import(k));
                                assert(items_view(out@) =~= before.push(ItemView::Import(k@)));
                            },
                            None => {},
                        }
                    } else {
                        out.push(items[i].copy());
                        assert(items_view(out@) =~= before.push(items@[i as int]@));
                    }
                },
                ModuleItem::Other(_) => {
                    out.push(items[i].copy());
                    assert(items_view(out@) =~= before.push(items@[i as int]@));
                },
            }
            i += 1;
        }
        assert(all.take(items@.len() as int) =~= all);
        out
    }
}

/// Rewrites the imports of the configured packages. Without rules the
/// module stays as it is.
pub fn transform_style(module: &mut Module, config: &TransformConfig)
    ensures
        final(module)@ == match config.babel_import {
            Some(rules) => rewritten(old(module)@, rules@),
            None => old(module)@,
        },
{
    match &config.babel_import {
        None => {},
        Some(rules) => {
            let found = IdentComponent::collect(&module.body);
            let mut imports = Imports::new();
            let mut rest: Vec<ModuleItem> = Vec::new();
            core::mem::swap(&mut module.body, &mut rest);
            let mut i: usize = 0;
            assert(rules@.take(0) =~= Seq::<BabelImportConfig>::empty());
            assert(imports@ == start(old(module)@).emitted);
            while i < rules.len()
                invariant
                    i <= rules@.len(),
                    found@ == collected(old(module)@),
                    (Rewrite { emitted: imports@, items: items_view(rest@) }) == apply_rules(
                        start(old(module)@),
                        rules@.take(i as int),
                        found@,
                    ),
                decreases rules@.len() - i,
            {
                proof {
                    let done = rules@.take(i as int);
                    assert(rules@.take(i + 1) =~= done.push(rules@[i as int]));
                    assert(done.push(rules@[i as int]).drop_last() =~= done);
                }
                rest = imports.apply_rule(&rules[i], &found, &rest);
                i += 1;
            }
            assert(rules@.take(rules@.len() as int) =~= rules@);
            let ghost st = apply_rules(start(old(module)@), rules@, found@);
            let mut body: Vec<ModuleItem> = Vec::new();
            body.append(&mut imports.css);
            body.append(&mut imports.js);
            body.append(&mut rest);
            assert(items_view(body@) =~= assembled(st));
            module.body = body;
        },
    }
}

/// A component counts as used where it is the root of a JSX element, and
/// where it is an identifier: either is enough, and nothing else is.
pub proof fn lemma_live_union(found: Found, id: Id)
    ensures
        found.jsx.contains(id) ==> live(found, id),
        found.idents.contains(id) ==> live(found, id),
        live(found, id) ==> found.jsx.contains(id) || found.idents.contains(id),
{
}

/// What stands in one top-level item stands in what is collected from the
/// module.
pub proof fn lemma_collected_holds(items: Seq<ItemView>, i: int, id: Id)
    requires
        0 <= i < items.len(),
    ensures
        jsx_of_item(items[i]).contains(id) ==> collected(items).jsx.contains(id),
        idents_of_item(items[i]).contains(id) ==> collected(items).idents.contains(id),
    decreases items.len(),
{
    let init = items.drop_last();
    let front_jsx = jsx_of_items(init);
    let front_idents = idents_of_items(init);
    if i == items.len() - 1 {
        if jsx_of_item(items[i]).contains(id) {
            let k = choose|k: int|
                0 <= k < jsx_of_item(items[i]).len() && jsx_of_item(items[i])[k] == id;
            assert(collected(items).jsx[front_jsx.len() + k] == id);
        }
        if idents_of_item(items[i]).contains(id) {
            let k = choose|k: int|
                0 <= k < idents_of_item(items[i]).len() && idents_of_item(items[i])[k] == id;
            assert(collected(items).idents[front_idents.len() + k] == id);
        }
    } else {
        lemma_collected_holds(init, i, id);
        if jsx_of_item(items[i]).contains(id) {
            let k = choose|k: int| 0 <= k < front_jsx.len() && front_jsx[k] == id;
            assert(collected(items).jsx[k] == id);
        }
        if idents_of_item(items[i]).contains(id) {
            let k = choose|k: int| 0 <= k < front_idents.len() && front_idents[k] == id;
            assert(collected(items).idents[k] == id);
        }
    }
}

/// A component that keeps its named import gets its style import exactly
/// when it is used, be it as a JSX element only or as an identifier only.
pub proof fn lemma_used_component_styled(
    e: Emitted,
    rule: BabelImportConfig,
    found: Found,
    local: Id,
    imported: Option<Seq<char>>,
)
    requires
        rule.replace_css is Some,
        !listed(rule.replace_css->0.ignore_style_component, component(local, imported)),
        !takes_js(rule, component(local, imported)),
    ensures
        found.jsx.contains(local) || found.idents.contains(local) ==> emit_specifier(
            e,
            rule,
            found,
            SpecifierView::Named { local, imported },
        ).css == seq![css_import(rule, component(local, imported))] + e.css,
        !found.jsx.contains(local) && !found.idents.contains(local) ==> emit_specifier(
            e,
            rule,
            found,
            SpecifierView::Named { local, imported },
        ) == e,
{
}

/// A component whose script import is rewritten gets the script import
/// and, unless exempt, the style import, whether it is used or not.
pub proof fn lemma_rewritten_component_imported(
    e: Emitted,
    rule: BabelImportConfig,
    found: Found,
    local: Id,
    imported: Option<Seq<char>>,
)
    requires
        takes_js(rule, component(local, imported)),
    ensures
        ({
            let comp = component(local, imported);
            let after = emit_specifier(e, rule, found, SpecifierView::Named { local, imported });
            &&& after.js == seq![js_import(rule, local, comp)] + e.js
            &&& rule.replace_css is Some && !listed(
                rule.replace_css->0.ignore_style_component,
                comp,
            ) ==> after.css == seq![css_import(rule, comp)] + e.css
        }),
{
}

/// Where a rule takes every specifier of a declaration, no specifier is left.
pub proof fn lemma_all_taken(rule: BabelImportConfig, s: Seq<SpecifierView>)
    requires
        forall|j: int| 0 <= j < s.len() ==> rewrites(rule, #[trigger] s[j]),
    ensures
        kept_specifiers(rule, s).len() == 0,
    decreases s.len(),
{
    if s.len() > 0 {
        assert(rewrites(rule, s[s.len() - 1]));
        let init = s.drop_last();
        assert forall|j: int| 0 <= j < init.len() implies rewrites(rule, #[trigger] init[j]) by {
            assert(init[j] == s[j]);
        }
        lemma_all_taken(rule, init);
    }
}

/// A declaration all of whose specifiers are rewritten away is not in the
/// module afterwards: the body with the declaration gives what the body
/// without it gives.
pub proof fn lemma_emptied_declaration_dropped(
    rule: BabelImportConfig,
    before: Seq<ItemView>,
    d: ImportView,
    after: Seq<ItemView>,
)
    requires
        concerns(rule, d),
        d.specifiers.len() > 0,
        forall|j: int| 0 <= j < d.specifiers.len() ==> rewrites(rule, #[trigger] d.specifiers[j]),
    ensures
        kept_item(rule, ItemView::Import(d)) is None,
        kept_items(rule, before.push(ItemView::Import(d)) + after) == kept_items(
            rule,
            before + after,
        ),
    decreases after.len(),
{
    lemma_all_taken(rule, d.specifiers);
    let with = before.push(ItemView::Import(d)) + after;
    let without = before + after;
    if after.len() == 0 {
        assert(with =~= before.push(ItemView::Import(d)));
        assert(with.drop_last() =~= before);
        assert(without =~= before);
    } else {
        lemma_emptied_declaration_dropped(rule, before, d, after.drop_last());
        assert(with.drop_last() =~= before.push(ItemView::Import(d)) + after.drop_last());
        assert(without.drop_last() =~= before + after.drop_last());
        assert(with.last() == after.last());
        assert(without.last() == after.last());
    }
}

/// What is no import stays in the module, in its place among the others
/// of its kind: a rule changes imports of its own package only.
pub proof fn lemma_other_items_stay(rule: BabelImportConfig, items: Seq<ItemView>, i: int)
    requires
        0 <= i < items.len(),
        match items[i] {
            ItemView::Import(d) => !concerns(rule, d),
            ItemView::Other(_) => true,
        },
    ensures
        kept_items(rule, items).contains(items[i]),
    decreases items.len(),
{
    let init = items.drop_last();
    if i == items.len() - 1 {
        let out = kept_items(rule, items);
        assert(out[out.len() - 1] == items[i]);
    } else {
        lemma_other_items_stay(rule, init, i);
        let j = choose|j: int|
            0 <= j < kept_items(rule, init).len() && kept_items(rule, init)[j] == items[i];
        assert(kept_items(rule, items)[j] == items[i]);
    }
}

/// What a rule leaves of a body is what it leaves of the body's front
/// followed by what it leaves of the body's back: each item is handled by
/// itself, and the items that stay keep their order.
pub proof fn lemma_kept_items_concat(rule: BabelImportConfig, a: Seq<ItemView>, b: Seq<ItemView>)
    ensures
        kept_items(rule, a + b) == kept_items(rule, a) + kept_items(rule, b),
    decreases b.len(),
{
    if b.len() == 0 {
        assert(a + b =~= a);
        assert(kept_items(rule, a) + kept_items(rule, b) =~= kept_items(rule, a));
    } else {
        lemma_kept_items_concat(rule, a, b.drop_last());
        assert((a + b).drop_last() =~= a + b.drop_last());
        assert((a + b).last() == b.last());
        assert(kept_items(rule, a + b) =~= kept_items(rule, a) + kept_items(rule, b));
    }
}

/// A rule changes nothing in a module that has no import of its package.
pub proof fn lemma_unconcerned_rule(
    e: Emitted,
    rule: BabelImportConfig,
    found: Found,
    items: Seq<ItemView>,
)
    requires
        forall|i: int|
            0 <= i < items.len() ==> match #[trigger] items[i] {
                ItemView::Import(d) => !concerns(rule, d),
                ItemView::Other(_) => true,
            },
    ensures
        kept_items(rule, items) == items,
        emit_items(e, rule, found, items) == e,
    decreases items.len(),
{
    if items.len() > 0 {
        let init = items.drop_last();
        assert forall|i: int| 0 <= i < init.len() implies match #[trigger] init[i] {
            ItemView::Import(d) => !concerns(rule, d),
            ItemView::Other(_) => true,
        } by {
            assert(init[i] == items[i]);
        }
        lemma_unconcerned_rule(e, rule, found, init);
        assert(items.last() == items[items.len() - 1]);
        assert(init.push(items.last()) =~= items);
    }
}

/// Each specifier that a rule leaves in a declaration was in it.
pub proof fn lemma_kept_specifier_was_there(rule: BabelImportConfig, s: Seq<SpecifierView>, k: int)
    requires
        0 <= k < kept_specifiers(rule, s).len(),
    ensures
        exists|i: int| 0 <= i < s.len() && s[i] == kept_specifiers(rule, s)[k],
    decreases s.len(),
{
    let init = s.drop_last();
    if k < kept_specifiers(rule, init).len() {
        lemma_kept_specifier_was_there(rule, init, k);
        let i = choose|i: int| 0 <= i < init.len() && init[i] == kept_specifiers(rule, init)[k];
        assert(s[i] == kept_specifiers(rule, s)[k]);
    } else {
        assert(s[s.len() - 1] == kept_specifiers(rule, s)[k]);
    }
}

/// A declaration that binds each local name once still does so after a
/// rule has taken specifiers out of it.
pub proof fn lemma_kept_specifiers_distinct(rule: BabelImportConfig, s: Seq<SpecifierView>)
    requires
        distinct_locals(s),
    ensures
        distinct_locals(kept_specifiers(rule, s)),
    decreases s.len(),
{
    if s.len() > 0 {
        let init = s.drop_last();
        assert(distinct_locals(init)) by {
            assert forall|i: int, j: int| 0 <= i < j < init.len() implies local_of(init[i]).0
                != local_of(init[j]).0 by {
                assert(init[i] == s[i] && init[j] == s[j]);
            }
        }
        lemma_kept_specifiers_distinct(rule, init);
        let kept = kept_specifiers(rule, s);
        let front = kept_specifiers(rule, init);
        assert forall|i: int, j: int| 0 <= i < j < kept.len() implies local_of(kept[i]).0
            != local_of(kept[j]).0 by {
            if j < front.len() {
                assert(kept[i] == front[i] && kept[j] == front[j]);
            } else {
                lemma_kept_specifier_was_there(rule, init, i);
                let m = choose|m: int| 0 <= m < init.len() && init[m] == front[i];
                assert(s[m] == kept[i]);
                assert(s[s.len() - 1] == kept[j]);
            }
        }
    }
}

/// The imports that a rule makes are well formed, and so is what it leaves
/// of a well-formed module.
pub proof fn lemma_rule_keeps_well_formed(st: Rewrite, rule: BabelImportConfig, found: Found)
    requires
        well_formed(st.emitted.css),
        well_formed(st.emitted.js),
        well_formed(st.items),
    ensures
        well_formed(apply_rule(st, rule, found).emitted.css),
        well_formed(apply_rule(st, rule, found).emitted.js),
        well_formed(apply_rule(st, rule, found).items),
{
    lemma_emitted_well_formed(st.emitted, rule, found, st.items);
    lemma_kept_items_well_formed(rule, st.items);
}

/// What a rule leaves of a well-formed module is well formed.
pub proof fn lemma_kept_items_well_formed(rule: BabelImportConfig, items: Seq<ItemView>)
    requires
        well_formed(items),
    ensures
        well_formed(kept_items(rule, items)),
    decreases items.len(),
{
    if items.len() > 0 {
        let init = items.drop_last();
        assert(well_formed(init)) by {
            assert forall|i: int| 0 <= i < init.len() implies item_well_formed(
                #[trigger] init[i],
            ) by {
                assert(init[i] == items[i]);
            }
        }
        lemma_kept_items_well_formed(rule, init);
        assert(item_well_formed(items[items.len() - 1]));
        match items.last() {
            ItemView::Import(d) => {
                lemma_kept_specifiers_distinct(rule, d.specifiers);
            },
            ItemView::Other(_) => {},
        }
        let out = kept_items(rule, items);
        let front = kept_items(rule, init);
        assert forall|i: int| 0 <= i < out.len() implies item_well_formed(#[trigger] out[i]) by {
            if i < front.len() {
                assert(out[i] == front[i]);
            }
        }
    }
}

/// The imports that a rule adds for one specifier are well formed.
pub proof fn lemma_emitted_specifier_well_formed(
    e: Emitted,
    rule: BabelImportConfig,
    found: Found,
    s: SpecifierView,
)
    requires
        well_formed(e.css),
        well_formed(e.js),
    ensures
        well_formed(emit_specifier(e, rule, found, s).css),
        well_formed(emit_specifier(e, rule, found, s).js),
{
    let after = emit_specifier(e, rule, found, s);
    assert forall|i: int| 0 <= i < after.css.len() implies item_well_formed(
        #[trigger] after.css[i],
    ) by {
        if after.css.len() > e.css.len() && i > 0 {
            assert(after.css[i] == e.css[i - 1]);
        }
    }
    assert forall|i: int| 0 <= i < after.js.len() implies item_well_formed(
        #[trigger] after.js[i],
    ) by {
        if after.js.len() > e.js.len() && i > 0 {
            assert(after.js[i] == e.js[i - 1]);
        }
    }
}

/// The imports that a rule adds for the specifiers of a declaration are
/// well formed.
pub proof fn lemma_emitted_specifiers_well_formed(
    e: Emitted,
    rule: BabelImportConfig,
    found: Found,
    s: Seq<SpecifierView>,
)
    requires
        well_formed(e.css),
        well_formed(e.js),
    ensures
        well_formed(emit_specifiers(e, rule, found, s).css),
        well_formed(emit_specifiers(e, rule, found, s).js),
    decreases s.len(),
{
    if s.len() > 0 {
        lemma_emitted_specifiers_well_formed(e, rule, found, s.drop_last());
        lemma_emitted_specifier_well_formed(
            emit_specifiers(e, rule, found, s.drop_last()),
            rule,
            found,
            s.last(),
        );
    }
}

/// The imports that a rule adds for a module are well formed.
pub proof fn lemma_emitted_well_formed(
    e: Emitted,
    rule: BabelImportConfig,
    found: Found,
    items: Seq<ItemView>,
)
    requires
        well_formed(e.css),
        well_formed(e.js),
    ensures
        well_formed(emit_items(e, rule, found, items).css),
        well_formed(emit_items(e, rule, found, items).js),
    decreases items.len(),
{
    if items.len() > 0 {
        lemma_emitted_well_formed(e, rule, found, items.drop_last());
        let before = emit_items(e, rule, found, items.drop_last());
        match items.last() {
            ItemView::Import(d) => {
                lemma_emitted_specifiers_well_formed(before, rule, found, d.specifiers);
            },
            ItemView::Other(_) => {},
        }
    }
}

/// A well-formed module is well formed after the rewrite.
pub proof fn lemma_rewritten_well_formed(items: Seq<ItemView>, rules: Seq<BabelImportConfig>)
    requires
        well_formed(items),
    ensures
        well_formed(rewritten(items, rules)),
{
    let found = collected(items);
    lemma_rules_keep_well_formed(start(items), rules, found);
    let st = apply_rules(start(items), rules, found);
    let out = rewritten(items, rules);
    assert forall|i: int| 0 <= i < out.len() implies item_well_formed(#[trigger] out[i]) by {
        if i < st.emitted.css.len() {
            assert(out[i] == st.emitted.css[i]);
        } else if i < st.emitted.css.len() + st.emitted.js.len() {
            assert(out[i] == st.emitted.js[i - st.emitted.css.len()]);
        } else {
            assert(out[i] == st.items[i - st.emitted.css.len() - st.emitted.js.len()]);
        }
    }
}

/// Rules keep a rewrite well formed.
pub proof fn lemma_rules_keep_well_formed(
    st: Rewrite,
    rules: Seq<BabelImportConfig>,
    found: Found,
)
    requires
        well_formed(st.emitted.css),
        well_formed(st.emitted.js),
        well_formed(st.items),
    ensures
        well_formed(apply_rules(st, rules, found).emitted.css),
        well_formed(apply_rules(st, rules, found).emitted.js),
        well_formed(apply_rules(st, rules, found).items),
    decreases rules.len(),
{
    if rules.len() > 0 {
        lemma_rules_keep_well_formed(st, rules.drop_last(), found);
        lemma_rule_keeps_well_formed(
            apply_rules(st, rules.drop_last(), found),
            rules.last(),
            found,
        );
    }
}

/// What the rules, taken in order, leave of a top-level item.
pub open spec fn kept_item_through(rules: Seq<BabelImportConfig>, i: ItemView) -> Option<ItemView>
    decreases rules.len(),
{
    if rules.len() == 0 {
        Some(i)
    } else {
        match kept_item_through(rules.drop_last(), i) {
            Some(k) => kept_item(rules.last(), k),
            None => None,
        }
    }
}

/// What the rules leave of a module body: each item by itself, in the
/// body's order.
pub open spec fn kept_items_through(rules: Seq<BabelImportConfig>, s: Seq<ItemView>) -> Seq<
    ItemView,
>
    decreases s.len(),
{
    if s.len() == 0 {
        Seq::empty()
    } else {
        match kept_item_through(rules, s.last()) {
            Some(k) => kept_items_through(rules, s.drop_last()).push(k),
            None => kept_items_through(rules, s.drop_last()),
        }
    }
}

/// No rule leaves a body as it is.
pub proof fn lemma_kept_items_through_none(s: Seq<ItemView>)
    ensures
        kept_items_through(Seq::empty(), s) == s,
    decreases s.len(),
{
    if s.len() > 0 {
        lemma_kept_items_through_none(s.drop_last());
        assert(s.drop_last().push(s.last()) =~= s);
    }
}

/// One more rule works on what the rules before it left.
pub proof fn lemma_kept_items_through_push(
    rules: Seq<BabelImportConfig>,
    rule: BabelImportConfig,
    s: Seq<ItemView>,
)
    ensures
        kept_items(rule, kept_items_through(rules, s)) == kept_items_through(rules.push(rule), s),
    decreases s.len(),
{
    assert(rules.push(rule).drop_last() =~= rules);
    if s.len() > 0 {
        lemma_kept_items_through_push(rules, rule, s.drop_last());
        let front = kept_items_through(rules, s.drop_last());
        match kept_item_through(rules, s.last()) {
            Some(k) => {
                assert(front.push(k).drop_last() =~= front);
            },
            None => {},
        }
    }
}

/// What is left of the body at the end of a rewrite is what the rules leave
/// of each item by itself. Which components are used plays no part in it.
pub proof fn lemma_remainder_item_by_item(
    st: Rewrite,
    rules: Seq<BabelImportConfig>,
    found: Found,
)
    ensures
        apply_rules(st, rules, found).items == kept_items_through(rules, st.items),
    decreases rules.len(),
{
    if rules.len() == 0 {
        assert(rules =~= Seq::<BabelImportConfig>::empty());
        lemma_kept_items_through_none(st.items);
    } else {
        lemma_remainder_item_by_item(st, rules.drop_last(), found);
        lemma_kept_items_through_push(rules.drop_last(), rules.last(), st.items);
        assert(rules.drop_last().push(rules.last()) =~= rules);
    }
}

/// The rewritten module is made of the new imports and of what the rules
/// leave of each item of the module.
pub proof fn lemma_rewritten_parts(items: Seq<ItemView>, rules: Seq<BabelImportConfig>)
    ensures
        rewritten(items, rules) == apply_rules(start(items), rules, collected(items)).emitted.css
            + apply_rules(start(items), rules, collected(items)).emitted.js + kept_items_through(
            rules,
            items,
        ),
{
    lemma_remainder_item_by_item(start(items), rules, collected(items));
}

/// What the rules leave of a body is what they leave of its front followed
/// by what they leave of its back.
pub proof fn lemma_kept_items_through_concat(
    rules: Seq<BabelImportConfig>,
    a: Seq<ItemView>,
    b: Seq<ItemView>,
)
    ensures
        kept_items_through(rules, a + b) == kept_items_through(rules, a) + kept_items_through(
            rules,
            b,
        ),
    decreases b.len(),
{
    if b.len() == 0 {
        assert(a + b =~= a);
        assert(kept_items_through(rules, a) + kept_items_through(rules, b) =~= kept_items_through(
            rules,
            a,
        ));
    } else {
        lemma_kept_items_through_concat(rules, a, b.drop_last());
        assert((a + b).drop_last() =~= a + b.drop_last());
        assert((a + b).last() == b.last());
        assert(kept_items_through(rules, a + b) =~= kept_items_through(rules, a)
            + kept_items_through(rules, b));
    }
}

/// What rules leave of a declaration that has specifiers is a declaration
/// of the same package, with specifiers, all of which the declaration had.
pub proof fn lemma_through_shape(rules: Seq<BabelImportConfig>, d: ImportView)
    requires
        d.specifiers.len() > 0,
    ensures
        match kept_item_through(rules, ItemView::Import(d)) {
            Some(ItemView::Import(k)) => k.src == d.src && k.specifiers.len() > 0 && forall|
                m: int,
            |
                0 <= m < k.specifiers.len() ==> d.specifiers.contains(#[trigger] k.specifiers[m]),
            Some(ItemView::Other(_)) => false,
            None => true,
        },
    decreases rules.len(),
{
    if rules.len() > 0 {
        lemma_through_shape(rules.drop_last(), d);
        match kept_item_through(rules.drop_last(), ItemView::Import(d)) {
            Some(ItemView::Import(k)) => {
                if concerns(rules.last(), k) {
                    let kept = kept_specifiers(rules.last(), k.specifiers);
                    assert forall|m: int| 0 <= m < kept.len() implies d.specifiers.contains(
                        #[trigger] kept[m],
                    ) by {
                        lemma_kept_specifier_was_there(rules.last(), k.specifiers, m);
                        let n = choose|n: int|
                            0 <= n < k.specifiers.len() && k.specifiers[n] == kept[m];
                        assert(d.specifiers.contains(k.specifiers[n]));
                    }
                }
            },
            _ => {},
        }
    }
}

/// A declaration is gone at the end of a rewrite where one of the rules is
/// about its package and takes every specifier of it, whatever the other
/// rules are.
pub proof fn lemma_emptied_through(rules: Seq<BabelImportConfig>, r: int, d: ImportView)
    requires
        0 <= r < rules.len(),
        concerns(rules[r], d),
        d.specifiers.len() > 0,
        forall|j: int| 0 <= j < d.specifiers.len() ==> rewrites(rules[r], #[trigger] d.specifiers[j]),
    ensures
        kept_item_through(rules, ItemView::Import(d)) is None,
    decreases rules.len(),
{
    let init = rules.drop_last();
    if r == rules.len() - 1 {
        lemma_through_shape(init, d);
        match kept_item_through(init, ItemView::Import(d)) {
            Some(ItemView::Import(k)) => {
                assert forall|m: int| 0 <= m < k.specifiers.len() implies rewrites(
                    rules[r],
                    #[trigger] k.specifiers[m],
                ) by {
                    assert(d.specifiers.contains(k.specifiers[m]));
                    let j = choose|j: int|
                        0 <= j < d.specifiers.len() && d.specifiers[j] == k.specifiers[m];
                    assert(rewrites(rules[r], d.specifiers[j]));
                }
                lemma_all_taken(rules[r], k.specifiers);
            },
            _ => {},
        }
    } else {
        assert(init[r] == rules[r]);
        lemma_emptied_through(init, r, d);
    }
}

/// A declaration all of whose specifiers one of the rules rewrites away is
/// not in the module afterwards: of the body with the declaration the same
/// is left as of the body without it.
pub proof fn lemma_emptied_declaration_gone(
    rules: Seq<BabelImportConfig>,
    r: int,
    before: Seq<ItemView>,
    d: ImportView,
    after: Seq<ItemView>,
)
    requires
        0 <= r < rules.len(),
        concerns(rules[r], d),
        d.specifiers.len() > 0,
        forall|j: int| 0 <= j < d.specifiers.len() ==> rewrites(rules[r], #[trigger] d.specifiers[j]),
    ensures
        kept_items_through(rules, before.push(ItemView::Import(d)) + after) == kept_items_through(
            rules,
            before + after,
        ),
{
    lemma_emptied_through(rules, r, d);
    lemma_kept_items_through_concat(rules, before.push(ItemView::Import(d)), after);
    lemma_kept_items_through_concat(rules, before, after);
    assert(before.push(ItemView::Import(d)).drop_last() =~= before);
}

/// Rules that are about other packages leave an item as it is.
pub proof fn lemma_unconcerned_through(rules: Seq<BabelImportConfig>, i: ItemView)
    requires
        match i {
            ItemView::Import(d) => forall|q: int|
                0 <= q < rules.len() ==> !concerns(#[trigger] rules[q], d),
            ItemView::Other(_) => true,
        },
    ensures
        kept_item_through(rules, i) == Some(i),
    decreases rules.len(),
{
    if rules.len() > 0 {
        let init = rules.drop_last();
        match i {
            ItemView::Import(d) => {
                assert forall|q: int| 0 <= q < init.len() implies !concerns(
                    #[trigger] init[q],
                    d,
                ) by {
                    assert(init[q] == rules[q]);
                }
                assert(!concerns(rules[rules.len() - 1], d));
            },
            ItemView::Other(_) => {},
        }
        lemma_unconcerned_through(init, i);
    }
}

/// Where one rule only is about the package of a declaration, the rewrite
/// leaves of the declaration what that rule leaves of it: nothing where
/// the rule takes every specifier, else the declaration with the
/// specifiers that the rule does not take.
pub proof fn lemma_single_rule_through(rules: Seq<BabelImportConfig>, r: int, d: ImportView)
    requires
        0 <= r < rules.len(),
        forall|q: int| 0 <= q < rules.len() && q != r ==> !concerns(#[trigger] rules[q], d),
    ensures
        kept_item_through(rules, ItemView::Import(d)) == kept_item(rules[r], ItemView::Import(d)),
    decreases rules.len(),
{
    let init = rules.drop_last();
    assert forall|q: int| 0 <= q < init.len() && q != r implies !concerns(#[trigger] init[q], d) by {
        assert(init[q] == rules[q]);
    }
    if r == rules.len() - 1 {
        lemma_unconcerned_through(init, ItemView::Import(d));
    } else {
        assert(init[r] == rules[r]);
        lemma_single_rule_through(init, r, d);
        assert(!concerns(rules[rules.len() - 1], d));
    }
}

/// What a rule leaves in a declaration is exactly what it does not take, in
/// the order in which it stood.
pub proof fn lemma_kept_specifiers_are_the_others(rule: BabelImportConfig, s: Seq<SpecifierView>)
    ensures
        kept_specifiers(rule, s) == s.filter(|x: SpecifierView| !rewrites(rule, x)),
    decreases s.len(),
{
    reveal(Seq::filter);
    if s.len() > 0 {
        lemma_kept_specifiers_are_the_others(rule, s.drop_last());
    }
}

/// An import that was made stays through one more specifier.
pub proof fn lemma_emit_specifier_keeps(
    e: Emitted,
    rule: BabelImportConfig,
    found: Found,
    s: SpecifierView,
    x: ItemView,
)
    ensures
        e.css.contains(x) ==> emit_specifier(e, rule, found, s).css.contains(x),
        e.js.contains(x) ==> emit_specifier(e, rule, found, s).js.contains(x),
{
    let after = emit_specifier(e, rule, found, s);
    if e.css.contains(x) {
        let k = choose|k: int| 0 <= k < e.css.len() && e.css[k] == x;
        if after.css.len() > e.css.len() {
            assert(after.css[k + 1] == x);
        } else {
            assert(after.css[k] == x);
        }
    }
    if e.js.contains(x) {
        let k = choose|k: int| 0 <= k < e.js.len() && e.js[k] == x;
        if after.js.len() > e.js.len() {
            assert(after.js[k + 1] == x);
        } else {
            assert(after.js[k] == x);
        }
    }
}

/// An import that was made stays through the specifiers of a declaration.
pub proof fn lemma_emit_specifiers_keep(
    e: Emitted,
    rule: BabelImportConfig,
    found: Found,
    s: Seq<SpecifierView>,
    x: ItemView,
)
    ensures
        e.css.contains(x) ==> emit_specifiers(e, rule, found, s).css.contains(x),
        e.js.contains(x) ==> emit_specifiers(e, rule, found, s).js.contains(x),
    decreases s.len(),
{
    if s.len() > 0 {
        lemma_emit_specifiers_keep(e, rule, found, s.drop_last(), x);
        lemma_emit_specifier_keeps(
            emit_specifiers(e, rule, found, s.drop_last()),
            rule,
            found,
            s.last(),
            x,
        );
    }
}

/// An import that was made stays through the items of a module.
pub proof fn lemma_emit_items_keep(
    e: Emitted,
    rule: BabelImportConfig,
    found: Found,
    items: Seq<ItemView>,
    x: ItemView,
)
    ensures
        e.css.contains(x) ==> emit_items(e, rule, found, items).css.contains(x),
        e.js.contains(x) ==> emit_items(e, rule, found, items).js.contains(x),
    decreases items.len(),
{
    if items.len() > 0 {
        lemma_emit_items_keep(e, rule, found, items.drop_last(), x);
        match items.last() {
            ItemView::Import(d) => {
                lemma_emit_specifiers_keep(
                    emit_items(e, rule, found, items.drop_last()),
                    rule,
                    found,
                    d.specifiers,
                    x,
                );
            },
            ItemView::Other(_) => {},
        }
    }
}

/// The imports that a rule asks for a specifier of a declaration are made
/// when the declaration's specifiers are handled.
pub proof fn lemma_emit_specifiers_make(
    e: Emitted,
    rule: BabelImportConfig,
    found: Found,
    s: Seq<SpecifierView>,
    j: int,
    local: Id,
    imported: Option<Seq<char>>,
)
    requires
        0 <= j < s.len(),
        s[j] == (SpecifierView::Named { local, imported }),
    ensures
        takes_js(rule, component(local, imported)) ==> emit_specifiers(
            e,
            rule,
            found,
            s,
        ).js.contains(js_import(rule, local, component(local, imported))),
        takes_css(rule, found, local, component(local, imported)) ==> emit_specifiers(
            e,
            rule,
            found,
            s,
        ).css.contains(css_import(rule, component(local, imported))),
    decreases s.len(),
{
    let comp = component(local, imported);
    let before = emit_specifiers(e, rule, found, s.drop_last());
    let after = emit_specifiers(e, rule, found, s);
    if j == s.len() - 1 {
        if takes_js(rule, comp) {
            assert(after.js[0] == js_import(rule, local, comp));
        }
        if takes_css(rule, found, local, comp) {
            assert(after.css[0] == css_import(rule, comp));
        }
    } else {
        lemma_emit_specifiers_make(e, rule, found, s.drop_last(), j, local, imported);
        lemma_emit_specifier_keeps(before, rule, found, s.last(), js_import(rule, local, comp));
        lemma_emit_specifier_keeps(before, rule, found, s.last(), css_import(rule, comp));
    }
}

/// The imports that a rule asks for a specifier are made when the rule is
/// applied to a module that holds the specifier's declaration.
pub proof fn lemma_emit_items_make(
    e: Emitted,
    rule: BabelImportConfig,
    found: Found,
    items: Seq<ItemView>,
    i: int,
    d: ImportView,
    j: int,
    local: Id,
    imported: Option<Seq<char>>,
)
    requires
        0 <= i < items.len(),
        items[i] == ItemView::Import(d),
        concerns(rule, d),
        0 <= j < d.specifiers.len(),
        d.specifiers[j] == (SpecifierView::Named { local, imported }),
    ensures
        takes_js(rule, component(local, imported)) ==> emit_items(e, rule, found, items).js.contains(
            js_import(rule, local, component(local, imported)),
        ),
        takes_css(rule, found, local, component(local, imported)) ==> emit_items(
            e,
            rule,
            found,
            items,
        ).css.contains(css_import(rule, component(local, imported))),
    decreases items.len(),
{
    let comp = component(local, imported);
    let before = emit_items(e, rule, found, items.drop_last());
    if i == items.len() - 1 {
        lemma_emit_specifiers_make(before, rule, found, d.specifiers, j, local, imported);
    } else {
        lemma_emit_items_make(e, rule, found, items.drop_last(), i, d, j, local, imported);
        match items.last() {
            ItemView::Import(last) => {
                lemma_emit_specifiers_keep(
                    before,
                    rule,
                    found,
                    last.specifiers,
                    js_import(rule, local, comp),
                );
                lemma_emit_specifiers_keep(
                    before,
                    rule,
                    found,
                    last.specifiers,
                    css_import(rule, comp),
                );
            },
            ItemView::Other(_) => {},
        }
    }
}

/// A declaration that no rule is about is still in the body after the rules.
pub proof fn lemma_unconcerned_rules_keep(
    st: Rewrite,
    rules: Seq<BabelImportConfig>,
    found: Found,
    d: ImportView,
)
    requires
        st.items.contains(ItemView::Import(d)),
        forall|q: int| 0 <= q < rules.len() ==> !concerns(#[trigger] rules[q], d),
    ensures
        apply_rules(st, rules, found).items.contains(ItemView::Import(d)),
    decreases rules.len(),
{
    if rules.len() > 0 {
        let init = rules.drop_last();
        assert forall|q: int| 0 <= q < init.len() implies !concerns(#[trigger] init[q], d) by {
            assert(init[q] == rules[q]);
        }
        lemma_unconcerned_rules_keep(st, init, found, d);
        let mid = apply_rules(st, init, found).items;
        let k = choose|k: int| 0 <= k < mid.len() && mid[k] == ItemView::Import(d);
        assert(!concerns(rules[rules.len() - 1], d));
        lemma_other_items_stay(rules.last(), mid, k);
    }
}

/// The first rule that is about the package of a declaration makes the
/// imports that it asks for each named specifier of the declaration, and
/// they are in the rewritten module, whatever the other rules are: the
/// script import wherever the rule takes the component, used or not, and
/// the style import wherever the rule asks for it.
pub proof fn lemma_component_imported_by_rules(
    items: Seq<ItemView>,
    rules: Seq<BabelImportConfig>,
    r: int,
    i: int,
    d: ImportView,
    j: int,
    local: Id,
    imported: Option<Seq<char>>,
)
    requires
        0 <= r < rules.len(),
        concerns(rules[r], d),
        forall|q: int| 0 <= q < r ==> !concerns(#[trigger] rules[q], d),
        0 <= i < items.len(),
        items[i] == ItemView::Import(d),
        0 <= j < d.specifiers.len(),
        d.specifiers[j] == (SpecifierView::Named { local, imported }),
    ensures
        takes_js(rules[r], component(local, imported)) ==> rewritten(items, rules).contains(
            js_import(rules[r], local, component(local, imported)),
        ),
        takes_css(rules[r], collected(items), local, component(local, imported)) ==> rewritten(
            items,
            rules,
        ).contains(css_import(rules[r], component(local, imported))),
{
    let found = collected(items);
    let comp = component(local, imported);
    lemma_rules_make(start(items), rules, found, r, d, j, local, imported);
    let st = apply_rules(start(items), rules, found);
    let out = rewritten(items, rules);
    if takes_js(rules[r], comp) {
        let k = choose|k: int|
            0 <= k < st.emitted.js.len() && st.emitted.js[k] == js_import(rules[r], local, comp);
        assert(out[st.emitted.css.len() + k] == js_import(rules[r], local, comp));
    }
    if takes_css(rules[r], found, local, comp) {
        let k = choose|k: int|
            0 <= k < st.emitted.css.len() && st.emitted.css[k] == css_import(rules[r], comp);
        assert(out[k] == css_import(rules[r], comp));
    }
}

/// The imports that the first rule about a declaration's package asks for
/// one of its specifiers are among the imports made by the rules.
pub proof fn lemma_rules_make(
    st: Rewrite,
    rules: Seq<BabelImportConfig>,
    found: Found,
    r: int,
    d: ImportView,
    j: int,
    local: Id,
    imported: Option<Seq<char>>,
)
    requires
        0 <= r < rules.len(),
        concerns(rules[r], d),
        forall|q: int| 0 <= q < r ==> !concerns(#[trigger] rules[q], d),
        st.items.contains(ItemView::Import(d)),
        0 <= j < d.specifiers.len(),
        d.specifiers[j] == (SpecifierView::Named { local, imported }),
    ensures
        takes_js(rules[r], component(local, imported)) ==> apply_rules(
            st,
            rules,
            found,
        ).emitted.js.contains(js_import(rules[r], local, component(local, imported))),
        takes_css(rules[r], found, local, component(local, imported)) ==> apply_rules(
            st,
            rules,
            found,
        ).emitted.css.contains(css_import(rules[r], component(local, imported))),
    decreases rules.len(),
{
    let comp = component(local, imported);
    let init = rules.drop_last();
    let mid = apply_rules(st, init, found);
    if r == rules.len() - 1 {
        assert forall|q: int| 0 <= q < init.len() implies !concerns(#[trigger] init[q], d) by {
            assert(init[q] == rules[q]);
        }
        lemma_unconcerned_rules_keep(st, init, found, d);
        let k = choose|k: int| 0 <= k < mid.items.len() && mid.items[k] == ItemView::Import(d);
        lemma_emit_items_make(mid.emitted, rules[r], found, mid.items, k, d, j, local, imported);
    } else {
        assert(init[r] == rules[r]);
        assert forall|q: int| 0 <= q < r implies !concerns(#[trigger] init[q], d) by {
            assert(init[q] == rules[q]);
        }
        lemma_rules_make(st, init, found, r, d, j, local, imported);
        lemma_emit_items_keep(
            mid.emitted,
            rules.last(),
            found,
            mid.items,
            js_import(rules[r], local, comp),
        );
        lemma_emit_items_keep(
            mid.emitted,
            rules.last(),
            found,
            mid.items,
            css_import(rules[r], comp),
        );
    }
}

/// A component that keeps its named import and is used, be it as a JSX
/// element only or as an identifier only, anywhere in the module outside
/// the imports, has its style import in the rewritten module, whatever the
/// other rules are.
pub proof fn lemma_used_component_styled_by_rules(
    items: Seq<ItemView>,
    rules: Seq<BabelImportConfig>,
    r: int,
    i: int,
    d: ImportView,
    j: int,
    local: Id,
    imported: Option<Seq<char>>,
    u: int,
)
    requires
        0 <= r < rules.len(),
        concerns(rules[r], d),
        forall|q: int| 0 <= q < r ==> !concerns(#[trigger] rules[q], d),
        0 <= i < items.len(),
        items[i] == ItemView::Import(d),
        0 <= j < d.specifiers.len(),
        d.specifiers[j] == (SpecifierView::Named { local, imported }),
        rules[r].replace_css is Some,
        !listed(rules[r].replace_css->0.ignore_style_component, component(local, imported)),
        0 <= u < items.len(),
        jsx_of_item(items[u]).contains(local) || idents_of_item(items[u]).contains(local),
    ensures
        rewritten(items, rules).contains(css_import(rules[r], component(local, imported))),
{
    lemma_collected_holds(items, u, local);
    lemma_component_imported_by_rules(items, rules, r, i, d, j, local, imported);
}

} // verus!
