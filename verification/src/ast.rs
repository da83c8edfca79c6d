//! The syntax-tree model and its mathematical view.
use vstd::prelude::*;

verus! {

/// The identity of a binding: its spelling and the tag of its scope.
pub type Id = (Seq<char>, u32);

/// An identifier occurrence.
#[derive(Debug, PartialEq, Eq)]
pub struct Ident {
    /// The spelling.
    pub sym: String,
    /// The tag of the lexical scope in which the name is bound.
    pub ctxt: u32,
}

/// The object part of a dotted JSX element name.
#[derive(Debug, PartialEq, Eq)]
pub enum JsxObject {
    Ident(Ident),
    Member { obj: Box<JsxObject>, prop: Ident },
}

/// The name of a JSX element.
#[derive(Debug, PartialEq, Eq)]
pub enum JsxName {
    /// `<Name/>`
    Ident(Ident),
    /// `<obj.prop/>`
    Member { obj: JsxObject, prop: Ident },
    /// `<ns:name/>`
    Namespaced { ns: Ident, name: Ident },
}

/// A JSX element.
#[derive(Debug, PartialEq, Eq)]
pub struct JsxElement {
    /// The name of the element.
    pub name: JsxName,
    /// What the values of the attributes hold, in source order.
    pub attrs: Vec<Node>,
    /// The children, in source order.
    pub children: Vec<Node>,
}

/// A node of the tree below the module's top level.
#[derive(Debug, PartialEq, Eq)]
pub enum Node {
    /// An identifier.
    Ident(Ident),
    /// `obj.prop`
    Member { obj: Box<Node>, prop: Ident },
    /// `callee(args)`
    Call { callee: Box<Node>, args: Vec<Node> },
    /// An expression used as a statement, with its offset in the source.
    ExprStmt { pos: u32, expr: Box<Node> },
    /// `{ .. }`: a sequence of statements.
    Block(Vec<Node>),
    /// A JSX element.
    Jsx(JsxElement),
    /// A type annotation.
    TypeAnn(Vec<Node>),
    /// Any other construct, with its parts in source order.
    Other(Vec<Node>),
}

/// One binding of an import declaration.
#[derive(Debug, PartialEq, Eq)]
pub enum ImportSpecifier {
    /// `import local from ..`
    Default { local: Ident },
    /// `import { local } from ..` or `import { imported as local } from ..`
    Named { local: Ident, imported: Option<String> },
    /// `import * as local from ..`
    Namespace { local: Ident },
}

/// `import specifiers from "src"`.
#[derive(Debug, PartialEq, Eq)]
pub struct ImportDecl {
    pub src: String,
    pub specifiers: Vec<ImportSpecifier>,
}

/// A top-level item of a module.
#[derive(Debug, PartialEq, Eq)]
pub enum ModuleItem {
    Import(ImportDecl),
    Other(Node),
}

/// A module: its top-level items in source order.
#[derive(Debug, PartialEq, Eq)]
pub struct Module {
    pub body: Vec<ModuleItem>,
}

/// The view of a [`JsxObject`].
pub enum JsxObjectView {
    Ident(Id),
    Member { obj: Box<JsxObjectView>, prop: Id },
}

/// The view of a [`JsxName`].
pub enum JsxNameView {
    Ident(Id),
    Member { obj: JsxObjectView, prop: Id },
    Namespaced { ns: Id, name: Id },
}

/// The view of a [`Node`].
pub enum NodeView {
    Ident(Id),
    Member { obj: Box<NodeView>, prop: Id },
    Call { callee: Box<NodeView>, args: Seq<NodeView> },
    ExprStmt { pos: u32, expr: Box<NodeView> },
    Block(Seq<NodeView>),
    Jsx { name: JsxNameView, attrs: Seq<NodeView>, children: Seq<NodeView> },
    TypeAnn(Seq<NodeView>),
    Other(Seq<NodeView>),
}

/// The view of an [`ImportSpecifier`].
pub enum SpecifierView {
    Default { local: Id },
    Named { local: Id, imported: Option<Seq<char>> },
    Namespace { local: Id },
}

/// The view of an [`ImportDecl`].
pub struct ImportView {
    pub src: Seq<char>,
    pub specifiers: Seq<SpecifierView>,
}

/// The view of a [`ModuleItem`].
pub enum ItemView {
    Import(ImportView),
    Other(NodeView),
}

impl View for Ident {
    type V = Id;

    open spec fn view(&self) -> Id {
        (self.sym@, self.ctxt)
    }
}

impl Ident {
    /// Whether two identifiers have the same spelling and the same scope tag.
    pub fn same(&self, other: &Ident) -> (r: bool)
        ensures
            r == (self@ == other@),
    {
        self.sym == other.sym && self.ctxt == other.ctxt
    }

    /// A copy of the identifier.
    pub fn copy(&self) -> (r: Ident)
        ensures
            r@ == self@,
    {
        Ident { sym: self.sym.clone(), ctxt: self.ctxt }
    }
}

/// The view of the object part of a dotted JSX name.
pub open spec fn jsx_object_view(o: JsxObject) -> JsxObjectView
    decreases o,
{
    match o {
        JsxObject::Ident(i) => JsxObjectView::Ident(i@),
        JsxObject::Member { obj, prop } => JsxObjectView::Member {
            obj: Box::new(jsx_object_view(*obj)),
            prop: prop@,
        },
    }
}

impl View for JsxObject {
    type V = JsxObjectView;

    open spec fn view(&self) -> JsxObjectView {
        jsx_object_view(*self)
    }
}

impl JsxObject {
    /// A copy of the object.
    pub fn copy(&self) -> (r: JsxObject)
        ensures
            r@ == self@,
        decreases self,
    {
        match self {
            JsxObject::Ident(i) => JsxObject::Ident(i.copy()),
            JsxObject::Member { obj, prop } => JsxObject::Member {
                obj: Box::new(obj.copy()),
                prop: prop.copy(),
            },
        }
    }
}

impl JsxName {
    /// A copy of the name.
    pub fn copy(&self) -> (r: JsxName)
        ensures
            r@ == self@,
    {
        match self {
            JsxName::Ident(i) => JsxName::Ident(i.copy()),
            JsxName::Member { obj, prop } => JsxName::Member { obj: obj.copy(), prop: prop.copy() },
            JsxName::Namespaced { ns, name } => JsxName::Namespaced {
                ns: ns.copy(),
                name: name.copy(),
            },
        }
    }
}

impl View for JsxName {
    type V = JsxNameView;

    open spec fn view(&self) -> JsxNameView {
        match *self {
            JsxName::Ident(i) => JsxNameView::Ident(i@),
            JsxName::Member { obj, prop } => JsxNameView::Member { obj: obj@, prop: prop@ },
            JsxName::Namespaced { ns, name } => JsxNameView::Namespaced { ns: ns@, name: name@ },
        }
    }
}

/// The view of a tree: the same tree over mathematical sequences.
pub open spec fn node_view(n: Node) -> NodeView
    decreases n,
{
    match n {
        Node::Ident(i) => NodeView::Ident(i@),
        Node::Member { obj, prop } => NodeView::Member {
            obj: Box::new(node_view(*obj)),
            prop: prop@,
        },
        Node::Call { callee, args } => NodeView::Call {
            callee: Box::new(node_view(*callee)),
            args: nodes_view(args@),
        },
        Node::ExprStmt { pos, expr } => NodeView::ExprStmt {
            pos,
            expr: Box::new(node_view(*expr)),
        },
        Node::Block(stmts) => NodeView::Block(nodes_view(stmts@)),
        Node::Jsx(jsx) => NodeView::Jsx {
            name: jsx.name@,
            attrs: nodes_view(jsx.attrs@),
            children: nodes_view(jsx.children@),
        },
        Node::TypeAnn(parts) => NodeView::TypeAnn(nodes_view(parts@)),
        Node::Other(parts) => NodeView::Other(nodes_view(parts@)),
    }
}

/// The views of a sequence of nodes, in order.
pub open spec fn nodes_view(s: Seq<Node>) -> Seq<NodeView>
    decreases s,
{
    if s.len() == 0 {
        Seq::empty()
    } else {
        nodes_view(s.drop_last()).push(node_view(s.last()))
    }
}

impl View for Node {
    type V = NodeView;

    open spec fn view(&self) -> NodeView {
        node_view(*self)
    }
}

/// Appending a node appends its view.
pub proof fn lemma_nodes_view_push(s: Seq<Node>, n: Node)
    ensures
        nodes_view(s.push(n)) == nodes_view(s).push(node_view(n)),
{
    assert(s.push(n).drop_last() =~= s);
}

/// `nodes_view` keeps the length and views each element in place.
pub proof fn lemma_nodes_view(s: Seq<Node>)
    ensures
        nodes_view(s).len() == s.len(),
        forall|i: int| 0 <= i < s.len() ==> #[trigger] nodes_view(s)[i] == node_view(s[i]),
    decreases s.len(),
{
    if s.len() > 0 {
        lemma_nodes_view(s.drop_last());
    }
}

impl Node {
    /// A copy of the tree.
    pub fn copy(&self) -> (r: Node)
        ensures
            r@ == self@,
        decreases self,
    {
        match self {
            Node::Ident(i) => Node::Ident(i.copy()),
            Node::Member { obj, prop } => Node::Member {
                obj: Box::new(obj.copy()),
                prop: prop.copy(),
            },
            Node::Call { callee, args } => Node::Call {
                callee: Box::new(callee.copy()),
                args: copy_nodes(args),
            },
            Node::ExprStmt { pos, expr } => Node::ExprStmt {
                pos: *pos,
                expr: Box::new(expr.copy()),
            },
            Node::Block(stmts) => Node::Block(copy_nodes(stmts)),
            Node::Jsx(jsx) => Node::Jsx(
                JsxElement {
                    name: jsx.name.copy(),
                    attrs: copy_nodes(&jsx.attrs),
                    children: copy_nodes(&jsx.children),
                },
            ),
            Node::TypeAnn(parts) => Node::TypeAnn(copy_nodes(parts)),
            Node::Other(parts) => Node::Other(copy_nodes(parts)),
        }
    }
}

/// Copies of the trees, in order.
pub fn copy_nodes(nodes: &Vec<Node>) -> (r: Vec<Node>)
    ensures
        nodes_view(r@) == nodes_view(nodes@),
    decreases nodes,
{
    let mut out: Vec<Node> = Vec::new();
    let mut i: usize = 0;
    assert(nodes@.take(0) =~= Seq::<Node>::empty());
    while i < nodes.len()
        invariant
            i <= nodes@.len(),
            nodes_view(out@) == nodes_view(nodes@.take(i as int)),
        decreases nodes@.len() - i,
    {
        let c = nodes[i].copy();
        proof {
            assert(nodes@.take(i + 1) =~= nodes@.take(i as int).push(nodes@[i as int]));
            lemma_nodes_view_push(nodes@.take(i as int), nodes@[i as int]);
            lemma_nodes_view_push(out@, c);
        }
        out.push(c);
        i += 1;
    }
    assert(nodes@.take(nodes@.len() as int) =~= nodes@);
    out
}

impl ImportSpecifier {
    /// A copy of the specifier.
    pub fn copy(&self) -> (r: ImportSpecifier)
        ensures
            r@ == self@,
    {
        match self {
            ImportSpecifier::Default { local } => ImportSpecifier::Default { local: local.copy() },
            ImportSpecifier::Named { local, imported } => ImportSpecifier::Named {
                local: local.copy(),
                imported: match imported {
                    Some(name) => Some(name.clone()),
                    None => None,
                },
            },
            ImportSpecifier::Namespace { local } => ImportSpecifier::Namespace {
                local: local.copy(),
            },
        }
    }
}

impl ImportDecl {
    /// A copy of the declaration.
    pub fn copy(&self) -> (r: ImportDecl)
        ensures
            r@ == self@,
    {
        let mut specifiers: Vec<ImportSpecifier> = Vec::new();
        let mut i: usize = 0;
        while i < self.specifiers.len()
            invariant
                i <= self.specifiers@.len(),
                specifiers@.len() == i,
                forall|j: int| 0 <= j < i ==> (#[trigger] specifiers@[j])@ == self.specifiers@[j]@,
            decreases self.specifiers@.len() - i,
        {
            specifiers.push(self.specifiers[i].copy());
            i += 1;
        }
        let r = ImportDecl { src: self.src.clone(), specifiers };
        assert(r@.specifiers =~= self@.specifiers);
        r
    }
}

impl ModuleItem {
    /// A copy of the item.
    pub fn copy(&self) -> (r: ModuleItem)
        ensures
            r@ == self@,
    {
        match self {
            ModuleItem::Import(d) => ModuleItem::Import(d.copy()),
            ModuleItem::Other(n) => ModuleItem::Other(n.copy()),
        }
    }
}

impl View for ImportSpecifier {
    type V = SpecifierView;

    open spec fn view(&self) -> SpecifierView {
        match *self {
            ImportSpecifier::Default { local } => SpecifierView::Default { local: local@ },
            ImportSpecifier::Named { local, imported } => SpecifierView::Named {
                local: local@,
                imported: match imported {
                    Some(name) => Some(name@),
                    None => None,
                },
            },
            ImportSpecifier::Namespace { local } => SpecifierView::Namespace { local: local@ },
        }
    }
}

impl View for ImportDecl {
    type V = ImportView;

    open spec fn view(&self) -> ImportView {
        ImportView {
            src: self.src@,
            specifiers: self.specifiers@.map_values(|s: ImportSpecifier| s@),
        }
    }
}

impl View for ModuleItem {
    type V = ItemView;

    open spec fn view(&self) -> ItemView {
        match *self {
            ModuleItem::Import(d) => ItemView::Import(d@),
            ModuleItem::Other(n) => ItemView::Other(n@),
        }
    }
}

/// Whether a block with the statements `block` stands below a node, at any
/// depth, the node itself counted.
pub open spec fn holds_block(n: NodeView, block: Seq<NodeView>) -> bool
    decreases n,
{
    match n {
        NodeView::Ident(_) => false,
        NodeView::Member { obj, .. } => holds_block(*obj, block),
        NodeView::Call { callee, args } => holds_block(*callee, block) || holds_block_any(
            args,
            block,
        ),
        NodeView::ExprStmt { expr, .. } => holds_block(*expr, block),
        NodeView::Block(stmts) => stmts == block || holds_block_any(stmts, block),
        NodeView::Jsx { attrs, children, .. } => holds_block_any(attrs, block) || holds_block_any(
            children,
            block,
        ),
        NodeView::TypeAnn(parts) => holds_block_any(parts, block),
        NodeView::Other(parts) => holds_block_any(parts, block),
    }
}

/// Whether a block with the statements `block` stands below one of the nodes.
pub open spec fn holds_block_any(nodes: Seq<NodeView>, block: Seq<NodeView>) -> bool
    decreases nodes,
{
    if nodes.len() == 0 {
        false
    } else {
        holds_block_any(nodes.drop_last(), block) || holds_block(nodes.last(), block)
    }
}

/// The binding that a specifier introduces.
pub open spec fn local_of(s: SpecifierView) -> Id {
    match s {
        SpecifierView::Default { local } => local,
        SpecifierView::Named { local, .. } => local,
        SpecifierView::Namespace { local } => local,
    }
}

/// Whether no two of the specifiers bind the same local name.
pub open spec fn distinct_locals(s: Seq<SpecifierView>) -> bool {
    forall|i: int, j: int| 0 <= i < j < s.len() ==> local_of(s[i]).0 != local_of(s[j]).0
}

/// Whether an item is well formed: an import declaration binds each local
/// name once.
pub open spec fn item_well_formed(i: ItemView) -> bool {
    match i {
        ItemView::Import(d) => distinct_locals(d.specifiers),
        ItemView::Other(_) => true,
    }
}

/// Whether every item of a module body is well formed.
pub open spec fn well_formed(items: Seq<ItemView>) -> bool {
    forall|i: int| 0 <= i < items.len() ==> item_well_formed(#[trigger] items[i])
}

/// The views of a sequence of items, in order.
pub open spec fn items_view(s: Seq<ModuleItem>) -> Seq<ItemView> {
    s.map_values(|i: ModuleItem| i@)
}

impl View for Module {
    type V = Seq<ItemView>;

    open spec fn view(&self) -> Seq<ItemView> {
        items_view(self.body@)
    }
}

} // verus!
