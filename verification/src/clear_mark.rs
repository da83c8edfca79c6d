//! Taking the scope tags off a tree.
use vstd::prelude::*;
use crate::ast::{
    holds_block, holds_block_any, items_view, lemma_nodes_view_push, nodes_view, Id, Ident, ImportDecl, ImportSpecifier,
    ImportView, ItemView, JsxElement, JsxName, JsxNameView, JsxObject, JsxObjectView, ModuleItem, Node,
    NodeView, SpecifierView,
};

verus! {

/// An identifier without its scope tag.
pub open spec fn cleared_id(id: Id) -> Id {
    (id.0, 0u32)
}

/// The object part of a JSX name without scope tags.
pub open spec fn cleared_object(o: JsxObjectView) -> JsxObjectView
    decreases o,
{
    match o {
        JsxObjectView::Ident(i) => JsxObjectView::Ident(cleared_id(i)),
        JsxObjectView::Member { obj, prop } => JsxObjectView::Member {
            obj: Box::new(cleared_object(*obj)),
            prop: cleared_id(prop),
        },
    }
}

/// A JSX name without scope tags.
pub open spec fn cleared_name(n: JsxNameView) -> JsxNameView {
    match n {
        JsxNameView::Ident(i) => JsxNameView::Ident(cleared_id(i)),
        JsxNameView::Member { obj, prop } => JsxNameView::Member {
            obj: cleared_object(obj),
            prop: cleared_id(prop),
        },
        JsxNameView::Namespaced { ns, name } => JsxNameView::Namespaced {
            ns: cleared_id(ns),
            name: cleared_id(name),
        },
    }
}

/// A tree in which every identifier has the tag 0 and nothing else differs.
pub open spec fn cleared(n: NodeView) -> NodeView
    decreases n,
{
    match n {
        NodeView::Ident(i) => NodeView::Ident(cleared_id(i)),
        NodeView::Member { obj, prop } => NodeView::Member {
            obj: Box::new(cleared(*obj)),
            prop: cleared_id(prop),
        },
        NodeView::Call { callee, args } => NodeView::Call {
            callee: Box::new(cleared(*callee)),
            args: cleared_each(args),
        },
        NodeView::ExprStmt { pos, expr } => NodeView::ExprStmt {
            pos,
            expr: Box::new(cleared(*expr)),
        },
        NodeView::Block(stmts) => NodeView::Block(cleared_each(stmts)),
        NodeView::Jsx { name, attrs, children } => NodeView::Jsx {
            name: cleared_name(name),
            attrs: cleared_each(attrs),
            children: cleared_each(children),
        },
        NodeView::TypeAnn(parts) => NodeView::TypeAnn(cleared_each(parts)),
        NodeView::Other(parts) => NodeView::Other(cleared_each(parts)),
    }
}

/// `cleared` of each node, in order.
pub open spec fn cleared_each(s: Seq<NodeView>) -> Seq<NodeView>
    decreases s,
{
    if s.len() == 0 {
        Seq::empty()
    } else {
        cleared_each(s.drop_last()).push(cleared(s.last()))
    }
}

/// A specifier whose local binding has no scope tag.
pub open spec fn cleared_specifier(s: SpecifierView) -> SpecifierView {
    match s {
        SpecifierView::Default { local } => SpecifierView::Default { local: cleared_id(local) },
        SpecifierView::Named { local, imported } => SpecifierView::Named {
            local: cleared_id(local),
            imported,
        },
        SpecifierView::Namespace { local } => SpecifierView::Namespace {
            local: cleared_id(local),
        },
    }
}

/// An import declaration without scope tags.
pub open spec fn cleared_import(d: ImportView) -> ImportView {
    ImportView { src: d.src, specifiers: d.specifiers.map_values(|s| cleared_specifier(s)) }
}

/// A top-level item without scope tags.
pub open spec fn cleared_item(i: ItemView) -> ItemView {
    match i {
        ItemView::Import(d) => ItemView::Import(cleared_import(d)),
        ItemView::Other(n) => ItemView::Other(cleared(n)),
    }
}

/// A module body without scope tags.
pub open spec fn cleared_items(s: Seq<ItemView>) -> Seq<ItemView> {
    s.map_values(|i| cleared_item(i))
}

/// Copies an identifier without its scope tag.
pub fn clear_ident(i: &Ident) -> (r: Ident)
    ensures
        r@ == cleared_id(i@),
{
    Ident { sym: i.sym.clone(), ctxt: 0 }
}

/// Copies the object part of a JSX name without its scope tags.
pub fn clear_object(o: &JsxObject) -> (r: JsxObject)
    ensures
        r@ == cleared_object(o@),
    decreases o,
{
    match o {
        JsxObject::Ident(i) => JsxObject::Ident(clear_ident(i)),
        JsxObject::Member { obj, prop } => JsxObject::Member {
            obj: Box::new(clear_object(obj)),
            prop: clear_ident(prop),
        },
    }
}

/// Copies a JSX name without its scope tags.
pub fn clear_name(n: &JsxName) -> (r: JsxName)
    ensures
        r@ == cleared_name(n@),
{
    match n {
        JsxName::Ident(i) => JsxName::Ident(clear_ident(i)),
        JsxName::Member { obj, prop } => JsxName::Member {
            obj: clear_object(obj),
            prop: clear_ident(prop),
        },
        JsxName::Namespaced { ns, name } => JsxName::Namespaced {
            ns: clear_ident(ns),
            name: clear_ident(name),
        },
    }
}

/// Copies a tree without its scope tags.
pub fn clear_node(node: &Node) -> (r: Node)
    ensures
        r@ == cleared(node@),
    decreases node,
{
    match node {
        Node::Ident(i) => Node::Ident(clear_ident(i)),
        Node::Member { obj, prop } => Node::Member {
            obj: Box::new(clear_node(obj)),
            prop: clear_ident(prop),
        },
        Node::Call { callee, args } => Node::Call {
            callee: Box::new(clear_node(callee)),
            args: clear_nodes(args),
        },
        Node::ExprStmt { pos, expr } => Node::ExprStmt {
            pos: *pos,
            expr: Box::new(clear_node(expr)),
        },
        Node::Block(stmts) => Node::Block(clear_nodes(stmts)),
        Node::Jsx(jsx) => Node::Jsx(
            JsxElement {
                name: clear_name(&jsx.name),
                attrs: clear_nodes(&jsx.attrs),
                children: clear_nodes(&jsx.children),
            },
        ),
        Node::TypeAnn(parts) => Node::TypeAnn(clear_nodes(parts)),
        Node::Other(parts) => Node::Other(clear_nodes(parts)),
    }
}

/// Copies a sequence of trees without their scope tags.
pub fn clear_nodes(nodes: &Vec<Node>) -> (r: Vec<Node>)
    ensures
        nodes_view(r@) == cleared_each(nodes_view(nodes@)),
    decreases nodes,
{
    let mut out: Vec<Node> = Vec::new();
    let mut i: usize = 0;
    assert(nodes@.take(0) =~= Seq::<Node>::empty());
    while i < nodes.len()
        invariant
            i <= nodes@.len(),
            nodes_view(out@) == cleared_each(nodes_view(nodes@.take(i as int))),
        decreases nodes@.len() - i,
    {
        let c = clear_node(&nodes[i]);
        proof {
            let done = nodes@.take(i as int);
            assert(nodes@.take(i + 1) =~= done.push(nodes@[i as int]));
            lemma_nodes_view_push(done, nodes@[i as int]);
            lemma_nodes_view_push(out@, c);
            assert(nodes_view(done).push(nodes@[i as int]@).drop_last() =~= nodes_view(done));
        }
        out.push(c);
        i += 1;
    }
    assert(nodes@.take(nodes@.len() as int) =~= nodes@);
    out
}

/// Copies a specifier without its scope tag.
pub fn clear_specifier(s: &ImportSpecifier) -> (r: ImportSpecifier)
    ensures
        r@ == cleared_specifier(s@),
{
    match s {
        ImportSpecifier::Default { local } => ImportSpecifier::Default { local: clear_ident(local) },
        ImportSpecifier::Named { local, imported } => ImportSpecifier::Named {
            local: clear_ident(local),
            imported: match imported {
                Some(name) => Some(name.clone()),
                None => None,
            },
        },
        ImportSpecifier::Namespace { local } => ImportSpecifier::Namespace {
            local: clear_ident(local),
        },
    }
}

/// Copies an import declaration without its scope tags.
pub fn clear_import(d: &ImportDecl) -> (r: ImportDecl)
    ensures
        r@ == cleared_import(d@),
{
    let mut specifiers: Vec<ImportSpecifier> = Vec::new();
    let mut i: usize = 0;
    while i < d.specifiers.len()
        invariant
            i <= d.specifiers@.len(),
            specifiers@.len() == i,
            forall|j: int| 0 <= j < i ==> (#[trigger] specifiers@[j])@ == cleared_specifier(
                d.specifiers@[j]@,
            ),
        decreases d.specifiers@.len() - i,
    {
        specifiers.push(clear_specifier(&d.specifiers[i]));
        i += 1;
    }
    let r = ImportDecl { src: d.src.clone(), specifiers };
    assert(r@.specifiers =~= cleared_import(d@).specifiers);
    r
}

/// Copies a module body without its scope tags.
pub fn clear_items(items: &Vec<ModuleItem>) -> (r: Vec<ModuleItem>)
    ensures
        items_view(r@) == cleared_items(items_view(items@)),
{
    let mut out: Vec<ModuleItem> = Vec::new();
    let mut i: usize = 0;
    while i < items.len()
        invariant
            i <= items@.len(),
            out@.len() == i,
            forall|j: int| 0 <= j < i ==> (#[trigger] out@[j])@ == cleared_item(items@[j]@),
        decreases items@.len() - i,
    {
        let item = match &items[i] {
            ModuleItem::Import(d) => ModuleItem::Import(clear_import(d)),
            ModuleItem::Other(n) => ModuleItem::Other(clear_node(n)),
        };
        out.push(item);
        i += 1;
    }
    assert(items_view(out@) =~= cleared_items(items_view(items@)));
    out
}

/// Clearing keeps the length of a sequence and clears each node in place.
pub proof fn lemma_cleared_each(s: Seq<NodeView>)
    ensures
        cleared_each(s).len() == s.len(),
        forall|i: int| 0 <= i < s.len() ==> #[trigger] cleared_each(s)[i] == cleared(s[i]),
    decreases s.len(),
{
    if s.len() > 0 {
        lemma_cleared_each(s.drop_last());
    }
}

/// Clearing keeps the shape of a tree: a block below a node is below the
/// cleared node, with its statements cleared.
pub proof fn lemma_cleared_holds_block(n: NodeView, block: Seq<NodeView>)
    requires
        holds_block(n, block),
    ensures
        holds_block(cleared(n), cleared_each(block)),
    decreases n,
{
    match n {
        NodeView::Ident(_) => {},
        NodeView::Member { obj, .. } => {
            lemma_cleared_holds_block(*obj, block);
        },
        NodeView::Call { callee, args } => {
            if holds_block(*callee, block) {
                lemma_cleared_holds_block(*callee, block);
            } else {
                lemma_cleared_holds_block_any(args, block);
            }
        },
        NodeView::ExprStmt { expr, .. } => {
            lemma_cleared_holds_block(*expr, block);
        },
        NodeView::Block(stmts) => {
            if stmts != block {
                lemma_cleared_holds_block_any(stmts, block);
            }
        },
        NodeView::Jsx { attrs, children, .. } => {
            if holds_block_any(attrs, block) {
                lemma_cleared_holds_block_any(attrs, block);
            } else {
                lemma_cleared_holds_block_any(children, block);
            }
        },
        NodeView::TypeAnn(parts) => {
            lemma_cleared_holds_block_any(parts, block);
        },
        NodeView::Other(parts) => {
            lemma_cleared_holds_block_any(parts, block);
        },
    }
}

/// A block below one of the nodes is below one of the cleared nodes, with
/// its statements cleared.
pub proof fn lemma_cleared_holds_block_any(nodes: Seq<NodeView>, block: Seq<NodeView>)
    requires
        holds_block_any(nodes, block),
    ensures
        holds_block_any(cleared_each(nodes), cleared_each(block)),
    decreases nodes,
{
    if nodes.len() > 0 {
        let front = cleared_each(nodes.drop_last());
        assert(front.push(cleared(nodes.last())).drop_last() =~= front);
        if holds_block_any(nodes.drop_last(), block) {
            lemma_cleared_holds_block_any(nodes.drop_last(), block);
        } else {
            lemma_cleared_holds_block(nodes.last(), block);
        }
    }
}

} // verus!
