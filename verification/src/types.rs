//! The configuration of a transform.
use vstd::prelude::*;
use crate::text::same_text;

verus! {

/// How the style sheet of a component is imported.
#[derive(Debug, PartialEq, Eq)]
pub struct ReplaceCssConfig {
    /// Components that get no style import.
    pub ignore_style_component: Option<Vec<String>>,
    /// The path template; `{}` stands for the component's name.
    pub replace_expr: String,
    /// Whether the name is lower-cased before it enters the path.
    pub lower: Option<bool>,
}

/// How the script of a component is imported.
#[derive(Debug, PartialEq, Eq)]
pub struct ReplaceSpecConfig {
    /// Components that stay named imports of the package.
    pub ignore_es_component: Option<Vec<String>>,
    /// The path template; `{}` stands for the component's name.
    pub replace_expr: String,
    /// Whether the name is lower-cased before it enters the path.
    pub lower: Option<bool>,
}

/// The rewrite rule of one package.
#[derive(Debug, PartialEq, Eq)]
pub struct BabelImportConfig {
    /// The package whose imports are rewritten.
    pub from_source: String,
    pub replace_css: Option<ReplaceCssConfig>,
    pub replace_js: Option<ReplaceSpecConfig>,
}

/// What a transform is asked to do.
#[derive(Debug, PartialEq, Eq)]
pub struct TransformConfig {
    /// Add the framework's default import for the classic JSX runtime.
    pub react_runtime: Option<bool>,
    /// The rewrite rules, in the order in which they are applied.
    pub babel_import: Option<Vec<BabelImportConfig>>,
    /// Delete the calls of the effect hook.
    pub remove_use_effect: Option<bool>,
}

/// The package that the framework is imported from.
pub open spec fn framework_source() -> Seq<char> {
    "react"@
}

/// The name under which the framework's default import is bound.
pub open spec fn framework_name() -> Seq<char> {
    "React"@
}

/// The name of the effect hook.
pub open spec fn hook_name() -> Seq<char> {
    "useEffect"@
}

/// Whether an optional switch is set and on.
pub open spec fn enabled(flag: Option<bool>) -> bool {
    flag == Some(true)
}

/// Whether `name` is among the listed names.
pub open spec fn listed(names: Option<Vec<String>>, name: Seq<char>) -> bool {
    match names {
        Some(v) => exists|i: int| 0 <= i < v@.len() && (#[trigger] v@[i])@ == name,
        None => false,
    }
}

/// Tests an optional switch.
pub fn is_enabled(flag: Option<bool>) -> (r: bool)
    ensures
        r == enabled(flag),
{
    match flag {
        Some(b) => b,
        None => false,
    }
}

/// Looks a name up in an optional list of names.
pub fn is_listed(names: &Option<Vec<String>>, name: &str) -> (r: bool)
    ensures
        r == listed(*names, name@),
{
    match names {
        Some(v) => {
            let mut i: usize = 0;
            while i < v.len()
                invariant
                    *names == Some(*v),
                    i <= v@.len(),
                    forall|j: int| 0 <= j < i ==> (#[trigger] v@[j])@ != name@,
                decreases v@.len() - i,
            {
                if same_text(v[i].as_str(), name) {
                    assert(names->0@[i as int]@ == name@);
                    return true;
                }
                i += 1;
            }
            false
        },
        None => false,
    }
}

} // verus!
