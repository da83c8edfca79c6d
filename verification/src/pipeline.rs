//! The whole transform: the three passes in their fixed order, between a
//! parser and a printer that the caller brings.
use vstd::prelude::*;
use crate::ast::{well_formed, ItemView, Module};
use crate::babel_import::{
    apply_rules, kept_items_through, lemma_rewritten_parts, lemma_rewritten_well_formed,
    rewritten, start, transform_style,
};
use crate::clear_mark::cleared_item;
use crate::react::{
    has_framework_default, lemma_with_framework_well_formed, transform_perfixreact,
    with_framework,
};
use crate::remove_effect::{
    discovered, lemma_without_effects_well_formed, remove_call, stripped_item, without_effects,
};
use crate::text::same_text;
use crate::types::{enabled, TransformConfig};
use crate::visit::collected;

verus! {

/// The syntax level that the printer writes.
#[derive(Debug, Clone, Copy, PartialEq, Eq)]
pub enum EsVersion {
    Es5,
    Es2015,
    Es2020,
}

/// A transformed module, and what the printer needs to know besides.
pub struct Transformed {
    pub module: Module,
    /// The name under which the source is reported.
    pub filename: String,
    pub target: EsVersion,
}

/// The name of a source that has none.
pub open spec fn default_filename() -> Seq<char> {
    "test.js"@
}

/// The syntax level for a target token: `ES5`, or none, or an empty one,
/// asks for ES5; `ES6` for ES2015; any other token for ES2020.
pub open spec fn version_of(target: Option<Seq<char>>) -> EsVersion {
    match target {
        None => EsVersion::Es5,
        Some(t) => if t == ""@ || t == "ES5"@ {
            EsVersion::Es5
        } else if t == "ES6"@ {
            EsVersion::Es2015
        } else {
            EsVersion::Es2020
        },
    }
}

/// The messages one after the other, with nothing between them.
pub open spec fn joined(messages: Seq<String>) -> Seq<char>
    decreases messages.len(),
{
    if messages.len() == 0 {
        Seq::empty()
    } else {
        joined(messages.drop_last()) + messages.last()@
    }
}

/// A module body after the first pass, the import rewrite.
pub open spec fn split(items: Seq<ItemView>, config: TransformConfig) -> Seq<ItemView> {
    match config.babel_import {
        Some(rules) => rewritten(items, rules@),
        None => items,
    }
}

/// A module body after the first two passes: the import rewrite, then the
/// framework import.
pub open spec fn prefixed(items: Seq<ItemView>, config: TransformConfig) -> Seq<ItemView> {
    if enabled(config.react_runtime) {
        with_framework(split(items, config))
    } else {
        split(items, config)
    }
}

/// A module body after the passes that the configuration asks for: the
/// import rewrite, then the framework import, then the removal of effect
/// calls.
pub open spec fn piped(items: Seq<ItemView>, config: TransformConfig) -> Seq<ItemView> {
    if enabled(config.remove_use_effect) {
        without_effects(prefixed(items, config))
    } else {
        prefixed(items, config)
    }
}

/// What the last pass makes of a top-level item that the passes before it
/// left: where the effect calls are removed, the item without the effect
/// calls in its blocks and without scope tags; else the item itself.
pub open spec fn settled(i: ItemView, items: Seq<ItemView>, config: TransformConfig) -> ItemView {
    if enabled(config.remove_use_effect) {
        cleared_item(stripped_item(i, discovered(prefixed(items, config))))
    } else {
        i
    }
}

/// The view of an optional string.
pub open spec fn text_option_view(o: Option<String>) -> Option<Seq<char>> {
    match o {
        Some(s) => Some(s@),
        None => None,
    }
}

/// The name of a source: the one given, or the default.
pub open spec fn filename_of(filename: Option<Seq<char>>) -> Seq<char> {
    match filename {
        Some(name) => name,
        None => default_filename(),
    }
}

/// Chooses the name under which a source is reported.
pub fn source_filename(filename: Option<String>) -> (r: String)
    ensures
        r@ == filename_of(text_option_view(filename)),
{
    match filename {
        Some(name) => name,
        None => String::from_str("test.js"),
    }
}

/// Chooses the syntax level for a target token.
pub fn target_version(target: &Option<String>) -> (r: EsVersion)
    ensures
        r == version_of(text_option_view(*target)),
{
    match target {
        None => EsVersion::Es5,
        Some(t) => {
            if same_text(t.as_str(), "") || same_text(t.as_str(), "ES5") {
                EsVersion::Es5
            } else if same_text(t.as_str(), "ES6") {
                EsVersion::Es2015
            } else {
                EsVersion::Es2020
            }
        },
    }
}

/// The report of the lexical errors: none where there are none, else
/// their messages one after the other.
pub fn lex_diagnostic(messages: &Vec<String>) -> (r: Option<String>)
    ensures
        messages@.len() == 0 ==> r is None,
        messages@.len() > 0 ==> r is Some && r->0@ == joined(messages@),
{
    if messages.len() == 0 {
        return None;
    }
    let mut out = String::new();
    let mut i: usize = 0;
    assert(messages@.take(0) =~= Seq::<String>::empty());
    while i < messages.len()
        invariant
            i <= messages@.len(),
            out@ == joined(messages@.take(i as int)),
        decreases messages@.len() - i,
    {
        proof {
            let done = messages@.take(i as int);
            assert(messages@.take(i + 1) =~= done.push(messages@[i as int]));
            assert(done.push(messages@[i as int]).drop_last() =~= done);
        }
        out.append(messages[i].as_str());
        i += 1;
    }
    assert(messages@.take(messages@.len() as int) =~= messages@);
    Some(out)
}

/// Transforms a parsed module. `parsed` is the module as the parser gave
/// it, every identifier tagged with its scope, or the message of the error
/// that ended parsing, which is handed on as it is. No pass can fail.
pub fn transform(
    parsed: Result<Module, String>,
    config: &TransformConfig,
    filename: Option<String>,
    target: Option<String>,
) -> (r: Result<Transformed, String>)
    ensures
        match parsed {
            Ok(module) => r is Ok && r->Ok_0.module@ == piped(module@, *config)
                && r->Ok_0.filename@ == filename_of(text_option_view(filename))
                && r->Ok_0.target == version_of(text_option_view(target)),
            Err(message) => r == Err::<Transformed, String>(message),
        },
{
    match parsed {
        Err(message) => Err(message),
        Ok(module) => {
            let mut module = module;
            transform_style(&mut module, config);
            transform_perfixreact(&mut module, config);
            remove_call(&mut module, config);
            let version = target_version(&target);
            let filename = source_filename(filename);
            Ok(Transformed { module, filename, target: version })
        },
    }
}

/// With no rule, no framework import and no removal asked for, a module
/// comes out as it went in.
pub proof fn lemma_piped_idle(items: Seq<ItemView>, config: TransformConfig)
    requires
        match config.babel_import {
            Some(rules) => rules@.len() == 0,
            None => true,
        },
        !enabled(config.react_runtime),
        !enabled(config.remove_use_effect),
    ensures
        piped(items, config) == items,
{
    match config.babel_import {
        Some(rules) => {
            let st = apply_rules(start(items), rules@, collected(items));
            assert(st == start(items));
            assert(st.emitted.css + st.emitted.js + st.items =~= items);
            assert(split(items, config) == items);
        },
        None => {},
    }
}

/// A well-formed module comes out well formed, whatever is configured.
pub proof fn lemma_piped_well_formed(items: Seq<ItemView>, config: TransformConfig)
    requires
        well_formed(items),
    ensures
        well_formed(piped(items, config)),
{
    match config.babel_import {
        Some(rules) => {
            lemma_rewritten_well_formed(items, rules@);
        },
        None => {},
    }
    if enabled(config.react_runtime) {
        lemma_with_framework_well_formed(split(items, config));
    }
    if enabled(config.remove_use_effect) {
        lemma_without_effects_well_formed(prefixed(items, config));
    }
}

/// What is in the module after the first two passes is in the transformed
/// module, as the last pass leaves it.
pub proof fn lemma_piped_holds(items: Seq<ItemView>, config: TransformConfig, x: ItemView)
    requires
        prefixed(items, config).contains(x),
    ensures
        piped(items, config).contains(settled(x, items, config)),
{
    let before = prefixed(items, config);
    let k = choose|k: int| 0 <= k < before.len() && before[k] == x;
    assert(piped(items, config)[k] == settled(x, items, config));
}

/// An import that the rewrite makes, or leaves, is in the transformed
/// module whatever else is configured: as it is where the effect calls
/// stay, without its scope tags where they are removed.
pub proof fn lemma_piped_holds_import(
    items: Seq<ItemView>,
    config: TransformConfig,
    x: ItemView,
)
    requires
        config.babel_import is Some,
        rewritten(items, config.babel_import->0@).contains(x),
        x is Import,
    ensures
        piped(items, config).contains(
            if enabled(config.remove_use_effect) {
                cleared_item(x)
            } else {
                x
            },
        ),
{
    let first = split(items, config);
    let k = choose|k: int| 0 <= k < first.len() && first[k] == x;
    let before = prefixed(items, config);
    if enabled(config.react_runtime) && !has_framework_default(first) {
        assert(before[k + 1] == x);
    } else {
        assert(before[k] == x);
    }
    lemma_piped_holds(items, config, x);
}

/// The transformed module ends with what the rules leave of each item of
/// the module, item by item and in order, each as the last pass leaves it.
/// So a declaration that the rules empty has no place in it, and every
/// other item has its own.
pub proof fn lemma_piped_remainder(items: Seq<ItemView>, config: TransformConfig)
    requires
        config.babel_import is Some,
    ensures
        ({
            let left = kept_items_through(config.babel_import->0@, items);
            let out = piped(items, config);
            &&& out.len() >= left.len()
            &&& forall|k: int|
                0 <= k < left.len() ==> out[out.len() - left.len() + k] == settled(
                    #[trigger] left[k],
                    items,
                    config,
                )
        }),
{
    let rules = config.babel_import->0@;
    let left = kept_items_through(rules, items);
    lemma_rewritten_parts(items, rules);
    let first = split(items, config);
    let before = prefixed(items, config);
    let out = piped(items, config);
    assert(first.len() >= left.len());
    assert forall|k: int| 0 <= k < left.len() implies first[first.len() - left.len() + k]
        == #[trigger] left[k] by {}
    assert(before.len() >= first.len());
    assert forall|k: int| 0 <= k < left.len() implies before[before.len() - left.len() + k]
        == #[trigger] left[k] by {
        assert(first[first.len() - left.len() + k] == left[k]);
        if before.len() > first.len() {
            assert(before[before.len() - left.len() + k] == first[first.len() - left.len() + k]);
        }
    }
    assert forall|k: int| 0 <= k < left.len() implies out[out.len() - left.len() + k] == settled(
        #[trigger] left[k],
        items,
        config,
    ) by {
        assert(before[before.len() - left.len() + k] == left[k]);
    }
}

} // verus!
