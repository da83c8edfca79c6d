//! Deleting the calls of the framework's effect hook.
//!
//! A call is an effect call only through the bindings that the module's
//! imports of the framework introduce: the hook imported by name, under
//! whatever alias, or the framework's default import followed by the
//! hook's name. A name that is merely spelled like the hook is left alone.
use vstd::prelude::*;
use crate::ast::{
    holds_block, holds_block_any, item_well_formed, items_view, lemma_nodes_view_push, local_of, node_view, nodes_view,
    well_formed, Id, Ident, ImportDecl, ImportSpecifier, ItemView, JsxElement, Module, ModuleItem, Node,
    NodeView, SpecifierView,
};
use crate::clear_mark::{
    clear_import, clear_node, cleared, cleared_each, cleared_item, cleared_items,
    lemma_cleared_each, lemma_cleared_holds_block,
};
use crate::text::same_text;
use crate::types::{enabled, framework_source, hook_name, is_enabled, TransformConfig};

verus! {

/// The bindings through which the effect hook can be called.
pub struct RmUseEffect {
    /// The binding of the hook itself: `useEffect(..)` under its local name.
    pub use_effect_mark: Option<Ident>,
    /// The binding of the framework's default import: `React.useEffect(..)`.
    pub react_mark: Option<Ident>,
}

/// The view of [`RmUseEffect`].
pub struct Bindings {
    pub use_effect_mark: Option<Id>,
    pub react_mark: Option<Id>,
}

/// The view of an optional identifier.
pub open spec fn ident_option_view(o: Option<Ident>) -> Option<Id> {
    match o {
        Some(i) => Some(i@),
        None => None,
    }
}

impl View for RmUseEffect {
    type V = Bindings;

    open spec fn view(&self) -> Bindings {
        Bindings {
            use_effect_mark: ident_option_view(self.use_effect_mark),
            react_mark: ident_option_view(self.react_mark),
        }
    }
}

/// No binding at all.
pub open spec fn no_bindings() -> Bindings {
    Bindings { use_effect_mark: None, react_mark: None }
}

/// Whether a callee names the effect hook through one of the bindings.
pub open spec fn is_effect_callee(callee: NodeView, b: Bindings) -> bool {
    match callee {
        NodeView::Ident(id) => b.use_effect_mark == Some(id),
        NodeView::Member { obj, prop } => match *obj {
            NodeView::Ident(o) => b.react_mark == Some(o) && prop.0 == hook_name(),
            _ => false,
        },
        _ => false,
    }
}

/// Whether a statement is nothing but a call of the effect hook.
pub open spec fn is_effect_call(stmt: NodeView, b: Bindings) -> bool {
    match stmt {
        NodeView::ExprStmt { expr, .. } => match *expr {
            NodeView::Call { callee, .. } => is_effect_callee(*callee, b),
            _ => false,
        },
        _ => false,
    }
}

/// A tree without the effect calls that stand directly in one of its blocks.
pub open spec fn stripped(n: NodeView, b: Bindings) -> NodeView
    decreases n,
{
    match n {
        NodeView::Ident(i) => NodeView::Ident(i),
        NodeView::Member { obj, prop } => NodeView::Member {
            obj: Box::new(stripped(*obj, b)),
            prop,
        },
        NodeView::Call { callee, args } => NodeView::Call {
            callee: Box::new(stripped(*callee, b)),
            args: stripped_each(args, b),
        },
        NodeView::ExprStmt { pos, expr } => NodeView::ExprStmt {
            pos,
            expr: Box::new(stripped(*expr, b)),
        },
        NodeView::Block(stmts) => NodeView::Block(stripped_block(stmts, b)),
        NodeView::Jsx { name, attrs, children } => NodeView::Jsx {
            name,
            attrs: stripped_each(attrs, b),
            children: stripped_each(children, b),
        },
        NodeView::TypeAnn(parts) => NodeView::TypeAnn(stripped_each(parts, b)),
        NodeView::Other(parts) => NodeView::Other(stripped_each(parts, b)),
    }
}

/// `stripped` of each node, in order.
pub open spec fn stripped_each(s: Seq<NodeView>, b: Bindings) -> Seq<NodeView>
    decreases s,
{
    if s.len() == 0 {
        Seq::empty()
    } else {
        stripped_each(s.drop_last(), b).push(stripped(s.last(), b))
    }
}

/// The statements of a block that are no effect calls, in their order, each
/// of them `stripped` in turn.
pub open spec fn stripped_block(stmts: Seq<NodeView>, b: Bindings) -> Seq<NodeView>
    decreases stmts,
{
    if stmts.len() == 0 {
        Seq::empty()
    } else if is_effect_call(stmts.last(), b) {
        stripped_block(stmts.drop_last(), b)
    } else {
        stripped_block(stmts.drop_last(), b).push(stripped(stmts.last(), b))
    }
}

/// A top-level item after the removal: imports stay, and so does a
/// top-level statement itself, since the module's body is no block.
pub open spec fn stripped_item(i: ItemView, b: Bindings) -> ItemView {
    match i {
        ItemView::Import(d) => ItemView::Import(d),
        ItemView::Other(n) => ItemView::Other(stripped(n, b)),
    }
}

/// A module body after the removal, item by item.
pub open spec fn stripped_items(s: Seq<ItemView>, b: Bindings) -> Seq<ItemView> {
    s.map_values(|i| stripped_item(i, b))
}

/// Whether a named specifier imports the effect hook.
pub open spec fn imports_hook(local: Id, imported: Option<Seq<char>>) -> bool {
    match imported {
        Some(name) => name == hook_name(),
        None => local.0 == hook_name(),
    }
}

/// The bindings after one more specifier of a framework import.
pub open spec fn with_specifier(b: Bindings, s: SpecifierView) -> Bindings {
    match s {
        SpecifierView::Named { local, imported } => if imports_hook(local, imported) {
            Bindings { use_effect_mark: Some(local), react_mark: b.react_mark }
        } else {
            b
        },
        SpecifierView::Default { local } => Bindings {
            use_effect_mark: b.use_effect_mark,
            react_mark: Some(local),
        },
        SpecifierView::Namespace { .. } => b,
    }
}

/// The bindings after the specifiers of a framework import, a later one
/// taking the place of an earlier one of its kind.
pub open spec fn with_specifiers(b: Bindings, s: Seq<SpecifierView>) -> Bindings
    decreases s.len(),
{
    if s.len() == 0 {
        b
    } else {
        with_specifier(with_specifiers(b, s.drop_last()), s.last())
    }
}

/// The bindings after one more top-level item.
pub open spec fn with_item(b: Bindings, i: ItemView) -> Bindings {
    match i {
        ItemView::Import(d) => if d.src == framework_source() {
            with_specifiers(b, d.specifiers)
        } else {
            b
        },
        ItemView::Other(_) => b,
    }
}

/// The bindings after the items of a module body, taken in order.
pub open spec fn with_items(b: Bindings, s: Seq<ItemView>) -> Bindings
    decreases s.len(),
{
    if s.len() == 0 {
        b
    } else {
        with_item(with_items(b, s.drop_last()), s.last())
    }
}

/// The bindings of the effect hook that a module's imports introduce.
pub open spec fn discovered(items: Seq<ItemView>) -> Bindings {
    with_items(no_bindings(), items)
}

/// A module body after the pass: the effect calls are gone from every
/// block, and no identifier carries a scope tag any more.
pub open spec fn without_effects(items: Seq<ItemView>) -> Seq<ItemView> {
    cleared_items(stripped_items(items, discovered(items)))
}

impl RmUseEffect {
    /// Whether a statement is nothing but a call of the effect hook.
    pub fn is_effect_call(&self, stmt: &Node) -> (r: bool)
        ensures
            r == is_effect_call(stmt@, self@),
    {
        proof {
            reveal_with_fuel(node_view, 4);
        }
        match stmt {
            Node::ExprStmt { expr, .. } => match &**expr {
                Node::Call { callee, .. } => match &**callee {
                    Node::Ident(id) => match &self.use_effect_mark {
                        Some(hook) => hook.same(id),
                        None => false,
                    },
                    Node::Member { obj, prop } => match &**obj {
                        Node::Ident(o) => match &self.react_mark {
                            Some(framework) => framework.same(o) && same_text(
                                prop.sym.as_str(),
                                "useEffect",
                            ),
                            None => false,
                        },
                        _ => false,
                    },
                    _ => false,
                },
                _ => false,
            },
            _ => false,
        }
    }

    /// Rewrites the statements of a block: the effect calls among them are
    /// left out, and the others are searched for blocks of their own.
    pub fn visit_mut_block_stmt(&self, stmts: &Vec<Node>) -> (r: Vec<Node>)
        ensures
            nodes_view(r@) == stripped_block(nodes_view(stmts@), self@),
        decreases stmts,
    {
        let mut out: Vec<Node> = Vec::new();
        let mut i: usize = 0;
        assert(stmts@.take(0) =~= Seq::<Node>::empty());
        while i < stmts.len()
            invariant
                i <= stmts@.len(),
                nodes_view(out@) == stripped_block(nodes_view(stmts@.take(i as int)), self@),
            decreases stmts@.len() - i,
        {
            proof {
                let done = stmts@.take(i as int);
                assert(stmts@.take(i + 1) =~= done.push(stmts@[i as int]));
                lemma_nodes_view_push(done, stmts@[i as int]);
                assert(nodes_view(done).push(stmts@[i as int]@).drop_last() =~= nodes_view(done));
            }
            if !self.is_effect_call(&stmts[i]) {
                let kept = self.visit_mut_node(&stmts[i]);
                proof {
                    lemma_nodes_view_push(out@, kept);
                }
                out.push(kept);
            }
            i += 1;
        }
        assert(stmts@.take(stmts@.len() as int) =~= stmts@);
        out
    }

    /// Rewrites every block below a node.
    pub fn visit_mut_node(&self, node: &Node) -> (r: Node)
        ensures
            r@ == stripped(node@, self@),
        decreases node,
    {
        match node {
            Node::Ident(i) => Node::Ident(i.copy()),
            Node::Member { obj, prop } => Node::Member {
                obj: Box::new(self.visit_mut_node(obj)),
                prop: prop.copy(),
            },
            Node::Call { callee, args } => Node::Call {
                callee: Box::new(self.visit_mut_node(callee)),
                args: self.visit_mut_nodes(args),
            },
            Node::ExprStmt { pos, expr } => Node::ExprStmt {
                pos: *pos,
                expr: Box::new(self.visit_mut_node(expr)),
            },
            Node::Block(stmts) => Node::Block(self.visit_mut_block_stmt(stmts)),
            Node::Jsx(jsx) => Node::Jsx(
                JsxElement {
                    name: jsx.name.copy(),
                    attrs: self.visit_mut_nodes(&jsx.attrs),
                    children: self.visit_mut_nodes(&jsx.children),
                },
            ),
            Node::TypeAnn(parts) => Node::TypeAnn(self.visit_mut_nodes(parts)),
            Node::Other(parts) => Node::Other(self.visit_mut_nodes(parts)),
        }
    }

    /// Rewrites every block below each of the nodes.
    pub fn visit_mut_nodes(&self, nodes: &Vec<Node>) -> (r: Vec<Node>)
        ensures
            nodes_view(r@) == stripped_each(nodes_view(nodes@), self@),
        decreases nodes,
    {
        let mut out: Vec<Node> = Vec::new();
        let mut i: usize = 0;
        assert(nodes@.take(0) =~= Seq::<Node>::empty());
        while i < nodes.len()
            invariant
                i <= nodes@.len(),
                nodes_view(out@) == stripped_each(nodes_view(nodes@.take(i as int)), self@),
            decreases nodes@.len() - i,
        {
            let c = self.visit_mut_node(&nodes[i]);
            proof {
                let done = nodes@.take(i as int);
                assert(nodes@.take(i + 1) =~= done.push(nodes@[i as int]));
                lemma_nodes_view_push(done, nodes@[i as int]);
                lemma_nodes_view_push(out@, c);
                assert(nodes_view(done).push(nodes@[i as int]@).drop_last() =~= nodes_view(done));
            }
            out.push(c);
            i += 1;
        }
        assert(nodes@.take(nodes@.len() as int) =~= nodes@);
        out
    }

    /// Takes the bindings that one import of the framework introduces.
    pub fn visit_import_decl(&mut self, decl: &ImportDecl)
        ensures
            final(self)@ == with_item(old(self)@, ItemView::Import(decl@)),
    {
        if !same_text(decl.src.as_str(), "react") {
            return ;
        }
        let mut i: usize = 0;
        assert(decl@.specifiers.take(0) =~= Seq::<SpecifierView>::empty());
        while i < decl.specifiers.len()
            invariant
                i <= decl.specifiers@.len(),
                self@ == with_specifiers(old(self)@, decl@.specifiers.take(i as int)),
            decreases decl.specifiers@.len() - i,
        {
            proof {
                let done = decl@.specifiers.take(i as int);
                assert(decl@.specifiers.take(i + 1) =~= done.push(decl.specifiers@[i as int]@));
                assert(done.push(decl.specifiers@[i as int]@).drop_last() =~= done);
            }
            match &decl.specifiers[i] {
                ImportSpecifier::Named { local, imported } => {
                    let hit = match imported {
                        Some(name) => same_text(name.as_str(), "useEffect"),
                        None => same_text(local.sym.as_str(), "useEffect"),
                    };
                    if hit {
                        self.use_effect_mark = Some(local.copy());
                    }
                },
                ImportSpecifier::Default { local } => {
                    self.react_mark = Some(local.copy());
                },
                ImportSpecifier::Namespace { .. } => {},
            }
            i += 1;
        }
        assert(decl@.specifiers.take(decl.specifiers@.len() as int) =~= decl@.specifiers);
    }

    /// Finds the bindings of the effect hook among a module's imports.
    pub fn discover(items: &Vec<ModuleItem>) -> (r: RmUseEffect)
        ensures
            r@ == discovered(items_view(items@)),
    {
        let mut found = RmUseEffect { use_effect_mark: None, react_mark: None };
        let mut i: usize = 0;
        assert(items_view(items@).take(0) =~= Seq::<ItemView>::empty());
        while i < items.len()
            invariant
                i <= items@.len(),
                found@ == with_items(no_bindings(), items_view(items@).take(i as int)),
            decreases items@.len() - i,
        {
            proof {
                let done = items_view(items@).take(i as int);
                assert(items_view(items@).take(i + 1) =~= done.push(items@[i as int]@));
                assert(done.push(items@[i as int]@).drop_last() =~= done);
            }
            match &items[i] {
                ModuleItem::Import(decl) => {
                    found.visit_import_decl(decl);
                },
                ModuleItem::Other(_) => {},
            }
            i += 1;
        }
        assert(items_view(items@).take(items@.len() as int) =~= items_view(items@));
        found
    }
}

/// Deletes the calls of the effect hook from every block of the module and
/// takes the scope tags off the tree, where the configuration asks for it;
/// leaves the module as it is where it does not.
pub fn remove_call(module: &mut Module, config: &TransformConfig)
    ensures
        final(module)@ == if enabled(config.remove_use_effect) {
            without_effects(old(module)@)
        } else {
            old(module)@
        },
{
    if !is_enabled(config.remove_use_effect) {
        return ;
    }
    let visitor = RmUseEffect::discover(&module.body);
    let mut out: Vec<ModuleItem> = Vec::new();
    let mut i: usize = 0;
    while i < module.body.len()
        invariant
            *module == *old(module),
            i <= module.body@.len(),
            out@.len() == i,
            forall|j: int|
                0 <= j < i ==> (#[trigger] out@[j])@ == cleared_item(
                    stripped_item(module.body@[j]@, visitor@),
                ),
        decreases module.body@.len() - i,
    {
        let item = match &module.body[i] {
            ModuleItem::Import(decl) => ModuleItem::Import(clear_import(decl)),
            ModuleItem::Other(node) => {
                let kept = visitor.visit_mut_node(node);
                ModuleItem::Other(clear_node(&kept))
            },
        };
        out.push(item);
        i += 1;
    }
    assert(items_view(out@) =~= without_effects(old(module)@));
    module.body = out;
}

/// A statement that is no effect call stays in its block, rewritten below
/// itself only.
pub proof fn lemma_other_statement_stays(stmts: Seq<NodeView>, b: Bindings, i: int)
    requires
        0 <= i < stmts.len(),
        !is_effect_call(stmts[i], b),
    ensures
        stripped_block(stmts, b).contains(stripped(stmts[i], b)),
    decreases stmts.len(),
{
    let init = stmts.drop_last();
    if i == stmts.len() - 1 {
        let out = stripped_block(stmts, b);
        assert(out[out.len() - 1] == stripped(stmts[i], b));
    } else {
        lemma_other_statement_stays(init, b, i);
        let j = choose|j: int|
            0 <= j < stripped_block(init, b).len() && stripped_block(init, b)[j] == stripped(
                stmts[i],
                b,
            );
        assert(stripped_block(stmts, b)[j] == stripped(stmts[i], b));
    }
}

/// An effect call that stands directly in a block is not in the block
/// afterwards: the block holds as many statements less as it held effect
/// calls.
pub proof fn lemma_effect_calls_leave(stmts: Seq<NodeView>, b: Bindings)
    ensures
        stripped_block(stmts, b).len() + stmts.filter(|s: NodeView| is_effect_call(s, b)).len()
            == stmts.len(),
    decreases stmts.len(),
{
    reveal(Seq::filter);
    if stmts.len() > 0 {
        lemma_effect_calls_leave(stmts.drop_last(), b);
    }
}

/// A call of a name that is spelled like the hook, or like anything else,
/// but is not the binding that the framework import introduced, is no
/// effect call and stays in its block.
pub proof fn lemma_hygiene(stmts: Seq<NodeView>, b: Bindings, i: int, pos: u32, id: Id, args: Seq<NodeView>)
    requires
        0 <= i < stmts.len(),
        stmts[i] == (NodeView::ExprStmt {
            pos,
            expr: Box::new(NodeView::Call { callee: Box::new(NodeView::Ident(id)), args }),
        }),
        b.use_effect_mark != Some(id),
    ensures
        !is_effect_call(stmts[i], b),
        stripped_block(stmts, b).contains(stripped(stmts[i], b)),
{
    lemma_other_statement_stays(stmts, b, i);
}

/// Without a binding of the hook nothing is an effect call, and a tree
/// stays as it is.
pub proof fn lemma_no_bindings_no_change(n: NodeView)
    ensures
        stripped(n, no_bindings()) == n,
    decreases n,
{
    match n {
        NodeView::Ident(_) => {},
        NodeView::Member { obj, .. } => {
            lemma_no_bindings_no_change(*obj);
        },
        NodeView::Call { callee, args } => {
            lemma_no_bindings_no_change(*callee);
            lemma_no_bindings_no_change_each(args);
        },
        NodeView::ExprStmt { expr, .. } => {
            lemma_no_bindings_no_change(*expr);
        },
        NodeView::Block(stmts) => {
            lemma_no_bindings_no_change_each(stmts);
        },
        NodeView::Jsx { attrs, children, .. } => {
            lemma_no_bindings_no_change_each(attrs);
            lemma_no_bindings_no_change_each(children);
        },
        NodeView::TypeAnn(parts) => {
            lemma_no_bindings_no_change_each(parts);
        },
        NodeView::Other(parts) => {
            lemma_no_bindings_no_change_each(parts);
        },
    }
}

/// Without a binding of the hook a sequence of trees, and a block, stay as
/// they are.
pub proof fn lemma_no_bindings_no_change_each(s: Seq<NodeView>)
    ensures
        stripped_each(s, no_bindings()) == s,
        stripped_block(s, no_bindings()) == s,
    decreases s,
{
    if s.len() > 0 {
        lemma_no_bindings_no_change_each(s.drop_last());
        lemma_no_bindings_no_change(s.last());
        assert(s.drop_last().push(s.last()) =~= s);
    }
}

/// Where a module's imports introduce no binding of the hook, the pass
/// deletes nothing: it only takes the scope tags off.
pub proof fn lemma_nothing_discovered(items: Seq<ItemView>)
    requires
        discovered(items) == no_bindings(),
    ensures
        without_effects(items) == cleared_items(items),
{
    assert forall|i: int| 0 <= i < items.len() implies stripped_item(items[i], no_bindings())
        == items[i] by {
        match items[i] {
            ItemView::Import(_) => {},
            ItemView::Other(n) => {
                lemma_no_bindings_no_change(n);
            },
        }
    }
    assert(stripped_items(items, no_bindings()) =~= items);
}

/// A module that does not import the framework has no binding of the hook.
pub proof fn lemma_no_framework_no_bindings(items: Seq<ItemView>)
    requires
        forall|i: int|
            0 <= i < items.len() ==> match #[trigger] items[i] {
                ItemView::Import(d) => d.src != framework_source(),
                ItemView::Other(_) => true,
            },
    ensures
        discovered(items) == no_bindings(),
    decreases items.len(),
{
    if items.len() > 0 {
        let init = items.drop_last();
        assert forall|i: int| 0 <= i < init.len() implies match #[trigger] init[i] {
            ItemView::Import(d) => d.src != framework_source(),
            ItemView::Other(_) => true,
        } by {
            assert(init[i] == items[i]);
        }
        lemma_no_framework_no_bindings(init);
        assert(items.last() == items[items.len() - 1]);
    }
}

/// A well-formed module is well formed after the removal: its imports
/// bind the names that they bound.
pub proof fn lemma_without_effects_well_formed(items: Seq<ItemView>)
    requires
        well_formed(items),
    ensures
        well_formed(without_effects(items)),
{
    let out = without_effects(items);
    assert forall|i: int| 0 <= i < out.len() implies item_well_formed(#[trigger] out[i]) by {
        assert(item_well_formed(items[i]));
        match items[i] {
            ItemView::Import(d) => {
                let after = out[i]->Import_0;
                assert forall|a: int, b: int| 0 <= a < b < after.specifiers.len() implies local_of(
                    after.specifiers[a],
                ).0 != local_of(after.specifiers[b]).0 by {
                    assert(local_of(after.specifiers[a]).0 == local_of(d.specifiers[a]).0);
                    assert(local_of(after.specifiers[b]).0 == local_of(d.specifiers[b]).0);
                }
            },
            ItemView::Other(_) => {},
        }
    }
}

/// Whether a block with the statements `block` stands below a node and is
/// reached without passing through an effect call that stands directly in
/// a block: whether the pass comes to the block.
pub open spec fn keeps_block(n: NodeView, block: Seq<NodeView>, b: Bindings) -> bool
    decreases n,
{
    match n {
        NodeView::Ident(_) => false,
        NodeView::Member { obj, .. } => keeps_block(*obj, block, b),
        NodeView::Call { callee, args } => keeps_block(*callee, block, b) || keeps_block_any(
            args,
            block,
            b,
        ),
        NodeView::ExprStmt { expr, .. } => keeps_block(*expr, block, b),
        NodeView::Block(stmts) => stmts == block || keeps_block_among(stmts, block, b),
        NodeView::Jsx { attrs, children, .. } => keeps_block_any(attrs, block, b)
            || keeps_block_any(children, block, b),
        NodeView::TypeAnn(parts) => keeps_block_any(parts, block, b),
        NodeView::Other(parts) => keeps_block_any(parts, block, b),
    }
}

/// Whether the pass comes to the block below one of the nodes.
pub open spec fn keeps_block_any(nodes: Seq<NodeView>, block: Seq<NodeView>, b: Bindings) -> bool
    decreases nodes,
{
    if nodes.len() == 0 {
        false
    } else {
        keeps_block_any(nodes.drop_last(), block, b) || keeps_block(nodes.last(), block, b)
    }
}

/// Whether the pass comes to the block below one of the statements of a
/// block: below one that is no effect call.
pub open spec fn keeps_block_among(stmts: Seq<NodeView>, block: Seq<NodeView>, b: Bindings) -> bool
    decreases stmts,
{
    if stmts.len() == 0 {
        false
    } else {
        keeps_block_among(stmts.drop_last(), block, b) || (!is_effect_call(stmts.last(), b)
            && keeps_block(stmts.last(), block, b))
    }
}

/// A block that the pass comes to, at whatever depth, is in the tree
/// afterwards, with the statements that the pass leaves of it.
pub proof fn lemma_block_rewritten_in_place(n: NodeView, block: Seq<NodeView>, b: Bindings)
    requires
        keeps_block(n, block, b),
    ensures
        holds_block(stripped(n, b), stripped_block(block, b)),
    decreases n,
{
    match n {
        NodeView::Ident(_) => {},
        NodeView::Member { obj, .. } => {
            lemma_block_rewritten_in_place(*obj, block, b);
        },
        NodeView::Call { callee, args } => {
            if keeps_block(*callee, block, b) {
                lemma_block_rewritten_in_place(*callee, block, b);
            } else {
                lemma_block_rewritten_in_any(args, block, b);
            }
        },
        NodeView::ExprStmt { expr, .. } => {
            lemma_block_rewritten_in_place(*expr, block, b);
        },
        NodeView::Block(stmts) => {
            if stmts != block {
                lemma_block_rewritten_among(stmts, block, b);
            }
        },
        NodeView::Jsx { attrs, children, .. } => {
            if keeps_block_any(attrs, block, b) {
                lemma_block_rewritten_in_any(attrs, block, b);
            } else {
                lemma_block_rewritten_in_any(children, block, b);
            }
        },
        NodeView::TypeAnn(parts) => {
            lemma_block_rewritten_in_any(parts, block, b);
        },
        NodeView::Other(parts) => {
            lemma_block_rewritten_in_any(parts, block, b);
        },
    }
}

/// A block that the pass comes to below one of the nodes is below one of
/// them afterwards.
pub proof fn lemma_block_rewritten_in_any(nodes: Seq<NodeView>, block: Seq<NodeView>, b: Bindings)
    requires
        keeps_block_any(nodes, block, b),
    ensures
        holds_block_any(stripped_each(nodes, b), stripped_block(block, b)),
    decreases nodes,
{
    if nodes.len() > 0 {
        let front = stripped_each(nodes.drop_last(), b);
        assert(front.push(stripped(nodes.last(), b)).drop_last() =~= front);
        if keeps_block_any(nodes.drop_last(), block, b) {
            lemma_block_rewritten_in_any(nodes.drop_last(), block, b);
        } else {
            lemma_block_rewritten_in_place(nodes.last(), block, b);
        }
    }
}

/// A block that the pass comes to below one of the statements of a block
/// is below one of the statements that the pass leaves.
pub proof fn lemma_block_rewritten_among(stmts: Seq<NodeView>, block: Seq<NodeView>, b: Bindings)
    requires
        keeps_block_among(stmts, block, b),
    ensures
        holds_block_any(stripped_block(stmts, b), stripped_block(block, b)),
    decreases stmts,
{
    if stmts.len() > 0 {
        let front = stripped_block(stmts.drop_last(), b);
        if !is_effect_call(stmts.last(), b) {
            assert(front.push(stripped(stmts.last(), b)).drop_last() =~= front);
        }
        if keeps_block_among(stmts.drop_last(), block, b) {
            lemma_block_rewritten_among(stmts.drop_last(), block, b);
        } else {
            lemma_block_rewritten_in_place(stmts.last(), block, b);
        }
    }
}

/// The statements that the pass leaves of a block are those that it leaves
/// of the block's front followed by those that it leaves of its back: the
/// statements that stay keep their order.
pub proof fn lemma_stripped_block_concat(a: Seq<NodeView>, c: Seq<NodeView>, b: Bindings)
    ensures
        stripped_block(a + c, b) == stripped_block(a, b) + stripped_block(c, b),
    decreases c.len(),
{
    if c.len() == 0 {
        assert(a + c =~= a);
        assert(stripped_block(a, b) + stripped_block(c, b) =~= stripped_block(a, b));
    } else {
        lemma_stripped_block_concat(a, c.drop_last(), b);
        assert((a + c).drop_last() =~= a + c.drop_last());
        assert((a + c).last() == c.last());
        assert(stripped_block(a + c, b) =~= stripped_block(a, b) + stripped_block(c, b));
    }
}

/// A block that the pass comes to, at whatever depth below a top-level
/// item, is below that item in the module afterwards, with the statements
/// that the pass leaves of it, their scope tags taken off.
pub proof fn lemma_block_survives_pass(items: Seq<ItemView>, i: int, block: Seq<NodeView>)
    requires
        0 <= i < items.len(),
        items[i] is Other,
        keeps_block(items[i]->Other_0, block, discovered(items)),
    ensures
        without_effects(items)[i] is Other,
        holds_block(
            without_effects(items)[i]->Other_0,
            cleared_each(stripped_block(block, discovered(items))),
        ),
{
    let b = discovered(items);
    let n = items[i]->Other_0;
    lemma_block_rewritten_in_place(n, block, b);
    lemma_cleared_holds_block(stripped(n, b), stripped_block(block, b));
}

/// A call of a name that is not the binding which the framework import
/// introduced, however it is spelled, stays in its block at whatever depth
/// the block stands: after the pass the block is in the module, and the
/// statement is among its statements.
pub proof fn lemma_hygiene_at_depth(
    items: Seq<ItemView>,
    i: int,
    block: Seq<NodeView>,
    k: int,
    pos: u32,
    id: Id,
    args: Seq<NodeView>,
)
    requires
        0 <= i < items.len(),
        items[i] is Other,
        keeps_block(items[i]->Other_0, block, discovered(items)),
        0 <= k < block.len(),
        block[k] == (NodeView::ExprStmt {
            pos,
            expr: Box::new(NodeView::Call { callee: Box::new(NodeView::Ident(id)), args }),
        }),
        discovered(items).use_effect_mark != Some(id),
    ensures
        without_effects(items)[i] is Other,
        holds_block(
            without_effects(items)[i]->Other_0,
            cleared_each(stripped_block(block, discovered(items))),
        ),
        cleared_each(stripped_block(block, discovered(items))).contains(
            cleared(stripped(block[k], discovered(items))),
        ),
{
    let b = discovered(items);
    lemma_block_survives_pass(items, i, block);
    lemma_other_statement_stays(block, b, k);
    let left = stripped_block(block, b);
    let j = choose|j: int| 0 <= j < left.len() && left[j] == stripped(block[k], b);
    lemma_cleared_each(left);
    assert(cleared_each(left)[j] == cleared(stripped(block[k], b)));
}

} // verus!
