//! The default import that the classic JSX runtime needs.
use vstd::prelude::*;
use crate::ast::{
    item_well_formed, items_view, well_formed, Ident, ImportDecl, ImportSpecifier, ImportView, ItemView, Module, ModuleItem,
    SpecifierView,
};
use crate::text::same_text;
use crate::types::{enabled, framework_name, framework_source, is_enabled, TransformConfig};

verus! {

/// Whether a declaration binds a default import.
pub open spec fn binds_default(d: ImportView) -> bool {
    exists|j: int| 0 <= j < d.specifiers.len() && #[trigger] d.specifiers[j] is Default
}

/// Whether an item is an import of the framework that binds its default
/// export, under whatever name and beside whatever else.
pub open spec fn is_framework_default(i: ItemView) -> bool {
    match i {
        ItemView::Import(d) => d.src == framework_source() && binds_default(d),
        ItemView::Other(_) => false,
    }
}

/// Whether a module imports the framework's default export.
pub open spec fn has_framework_default(items: Seq<ItemView>) -> bool {
    exists|i: int| 0 <= i < items.len() && is_framework_default(#[trigger] items[i])
}

/// `import React from "react"`. The new binding carries the tag 0: it
/// belongs to no scope of the module as it was resolved.
pub open spec fn framework_import() -> ItemView {
    ItemView::Import(
        ImportView {
            src: framework_source(),
            specifiers: seq![SpecifierView::Default { local: (framework_name(), 0u32) }],
        },
    )
}

/// A module body that imports the framework's default export: the body
/// itself where it does so already, else the body behind that import.
pub open spec fn with_framework(items: Seq<ItemView>) -> Seq<ItemView> {
    if has_framework_default(items) {
        items
    } else {
        seq![framework_import()] + items
    }
}

/// Tests whether a declaration binds a default import.
pub fn decl_binds_default(d: &ImportDecl) -> (r: bool)
    ensures
        r == binds_default(d@),
{
    let mut j: usize = 0;
    while j < d.specifiers.len()
        invariant
            j <= d.specifiers@.len(),
            forall|k: int| 0 <= k < j ==> !(#[trigger] d@.specifiers[k] is Default),
        decreases d.specifiers@.len() - j,
    {
        match &d.specifiers[j] {
            ImportSpecifier::Default { .. } => {
                assert(d@.specifiers[j as int] is Default);
                return true;
            },
            _ => {},
        }
        j += 1;
    }
    false
}

/// Tests whether a module imports the framework's default export.
pub fn imports_framework_default(items: &Vec<ModuleItem>) -> (r: bool)
    ensures
        r == has_framework_default(items_view(items@)),
{
    let mut i: usize = 0;
    while i < items.len()
        invariant
            i <= items@.len(),
            forall|k: int| 0 <= k < i ==> !is_framework_default(#[trigger] items_view(items@)[k]),
        decreases items@.len() - i,
    {
        match &items[i] {
            ModuleItem::Import(d) => {
                if same_text(d.src.as_str(), "react") && decl_binds_default(d) {
                    assert(is_framework_default(items_view(items@)[i as int]));
                    return true;
                }
            },
            ModuleItem::Other(_) => {},
        }
        i += 1;
    }
    false
}

/// Puts the framework's default import in front of the module where the
/// classic runtime is configured and the module has no such import yet.
pub fn transform_perfixreact(module: &mut Module, config: &TransformConfig)
    ensures
        final(module)@ == if enabled(config.react_runtime) {
            with_framework(old(module)@)
        } else {
            old(module)@
        },
{
    if !is_enabled(config.react_runtime) {
        return ;
    }
    if imports_framework_default(&module.body) {
        return ;
    }
    let local = Ident { sym: String::from_str("React"), ctxt: 0 };
    let mut specifiers: Vec<ImportSpecifier> = Vec::new();
    specifiers.push(ImportSpecifier::Default { local });
    let decl = ImportDecl { src: String::from_str("react"), specifiers };
    assert(decl@.specifiers =~= seq![SpecifierView::Default { local: (framework_name(), 0u32) }]);
    module.body.insert(0, ModuleItem::Import(decl));
    assert(module@ =~= seq![framework_import()] + old(module)@);
}

/// After the pass the module imports the framework's default export, and
/// the import stands first where it had to be added.
pub proof fn lemma_with_framework_present(items: Seq<ItemView>)
    ensures
        has_framework_default(with_framework(items)),
        !has_framework_default(items) ==> with_framework(items)[0] == framework_import()
            && with_framework(items).skip(1) == items,
{
    if !has_framework_default(items) {
        let once = seq![framework_import()] + items;
        let d = framework_import()->Import_0;
        assert(d.specifiers[0] is Default);
        assert(is_framework_default(once[0]));
        assert(once.skip(1) =~= items);
    }
}

/// Adding the import a second time changes nothing.
pub proof fn lemma_with_framework_idempotent(items: Seq<ItemView>)
    ensures
        with_framework(with_framework(items)) == with_framework(items),
{
    lemma_with_framework_present(items);
}

/// A well-formed module is well formed with the framework's import.
pub proof fn lemma_with_framework_well_formed(items: Seq<ItemView>)
    requires
        well_formed(items),
    ensures
        well_formed(with_framework(items)),
{
    let out = with_framework(items);
    assert forall|i: int| 0 <= i < out.len() implies item_well_formed(#[trigger] out[i]) by {
        if !has_framework_default(items) && i > 0 {
            assert(out[i] == items[i - 1]);
        }
    }
}

} // verus!
