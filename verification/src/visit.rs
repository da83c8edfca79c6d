//! Collecting the names that a tree refers to.
//!
//! The collector answers one question: is a component ever used in this
//! module? It records the root name of every JSX element and every
//! identifier, each with its scope tag. Import declarations are not
//! searched, so a component's own import never counts as a use.
use vstd::prelude::*;
use crate::ast::{
    items_view, lemma_nodes_view_push, nodes_view, Id, Ident, ImportDecl, ItemView, JsxElement,
    JsxName, JsxNameView, JsxObject, JsxObjectView, ModuleItem, Node, NodeView,
};
use crate::text::{lemma_replaced_absent, occurs, same_text, strip_marker, unmarked};

verus! {

/// The names collected from a tree, in the order of the walk.
#[derive(Default)]
pub struct IdentComponent {
    /// The root name of each JSX element.
    pub component_name_jsx_ident: Vec<(String, u32)>,
    /// Each identifier.
    pub ident_list: Vec<(String, u32)>,
}

/// The view of [`IdentComponent`].
pub struct Found {
    pub jsx: Seq<Id>,
    pub idents: Seq<Id>,
}

/// The views of a list of names.
pub open spec fn names_view(s: Seq<(String, u32)>) -> Seq<Id> {
    s.map_values(|p: (String, u32)| (p.0@, p.1))
}

impl View for IdentComponent {
    type V = Found;

    open spec fn view(&self) -> Found {
        Found {
            jsx: names_view(self.component_name_jsx_ident@),
            idents: names_view(self.ident_list@),
        }
    }
}

/// The identifier that a dotted JSX name starts with.
pub open spec fn object_root(o: JsxObjectView) -> Id
    decreases o,
{
    match o {
        JsxObjectView::Ident(i) => i,
        JsxObjectView::Member { obj, .. } => object_root(*obj),
    }
}

/// The identifier that decides which component a JSX element is: the name
/// itself, the start of a dotted name, or the part after the colon.
pub open spec fn jsx_root(name: JsxNameView) -> Id {
    match name {
        JsxNameView::Ident(i) => i,
        JsxNameView::Member { obj, .. } => object_root(obj),
        JsxNameView::Namespaced { name, .. } => name,
    }
}

/// What is recorded for a JSX element: its root's display name without the
/// outermost scope's marker, and the root's scope tag.
pub open spec fn jsx_entry(name: JsxNameView) -> Id {
    (unmarked(jsx_root(name).0), jsx_root(name).1)
}

/// The identifiers below a node, in the order of the walk. Of a JSX element
/// the attributes are searched, then the children; the name of an element
/// is no identifier, and type annotations are not searched.
pub open spec fn idents_of(n: NodeView) -> Seq<Id>
    decreases n,
{
    match n {
        NodeView::Ident(i) => seq![i],
        NodeView::Member { obj, prop } => idents_of(*obj).push(prop),
        NodeView::Call { callee, args } => idents_of(*callee) + idents_of_each(args),
        NodeView::ExprStmt { expr, .. } => idents_of(*expr),
        NodeView::Block(stmts) => idents_of_each(stmts),
        NodeView::Jsx { attrs, children, .. } => idents_of_each(attrs) + idents_of_each(children),
        NodeView::TypeAnn(_) => Seq::empty(),
        NodeView::Other(parts) => idents_of_each(parts),
    }
}

/// The identifiers below each of the nodes, in order.
pub open spec fn idents_of_each(s: Seq<NodeView>) -> Seq<Id>
    decreases s,
{
    if s.len() == 0 {
        Seq::empty()
    } else {
        idents_of_each(s.drop_last()) + idents_of(s.last())
    }
}

/// The JSX elements below a node, each by its entry: an element, then the
/// elements in its attributes, then those among its children.
pub open spec fn jsx_of(n: NodeView) -> Seq<Id>
    decreases n,
{
    match n {
        NodeView::Ident(_) => Seq::empty(),
        NodeView::Member { obj, .. } => jsx_of(*obj),
        NodeView::Call { callee, args } => jsx_of(*callee) + jsx_of_each(args),
        NodeView::ExprStmt { expr, .. } => jsx_of(*expr),
        NodeView::Block(stmts) => jsx_of_each(stmts),
        NodeView::Jsx { name, attrs, children } => seq![jsx_entry(name)] + jsx_of_each(attrs)
            + jsx_of_each(children),
        NodeView::TypeAnn(_) => Seq::empty(),
        NodeView::Other(parts) => jsx_of_each(parts),
    }
}

/// The JSX elements below each of the nodes, in order.
pub open spec fn jsx_of_each(s: Seq<NodeView>) -> Seq<Id>
    decreases s,
{
    if s.len() == 0 {
        Seq::empty()
    } else {
        jsx_of_each(s.drop_last()) + jsx_of(s.last())
    }
}

/// The identifiers of a top-level item: none for an import.
pub open spec fn idents_of_item(i: ItemView) -> Seq<Id> {
    match i {
        ItemView::Import(_) => Seq::empty(),
        ItemView::Other(n) => idents_of(n),
    }
}

/// The JSX elements of a top-level item: none for an import.
pub open spec fn jsx_of_item(i: ItemView) -> Seq<Id> {
    match i {
        ItemView::Import(_) => Seq::empty(),
        ItemView::Other(n) => jsx_of(n),
    }
}

/// The identifiers of a module body, in the order of the walk.
pub open spec fn idents_of_items(s: Seq<ItemView>) -> Seq<Id>
    decreases s.len(),
{
    if s.len() == 0 {
        Seq::empty()
    } else {
        idents_of_items(s.drop_last()) + idents_of_item(s.last())
    }
}

/// The JSX elements of a module body, in the order of the walk.
pub open spec fn jsx_of_items(s: Seq<ItemView>) -> Seq<Id>
    decreases s.len(),
{
    if s.len() == 0 {
        Seq::empty()
    } else {
        jsx_of_items(s.drop_last()) + jsx_of_item(s.last())
    }
}

/// What a walk over a module body collects.
pub open spec fn collected(items: Seq<ItemView>) -> Found {
    Found { jsx: jsx_of_items(items), idents: idents_of_items(items) }
}

/// Whether a binding is referred to: as the root of a JSX element or as an
/// identifier, either of which is enough.
pub open spec fn live(found: Found, id: Id) -> bool {
    found.jsx.contains(id) || found.idents.contains(id)
}

/// Finds the identifier that a dotted JSX name starts with.
pub fn root_of_object(o: &JsxObject) -> (r: &Ident)
    ensures
        r@ == object_root(o@),
{
    let mut obj = o;
    loop
        invariant
            object_root(obj@) == object_root(o@),
        decreases obj,
    {
        match obj {
            JsxObject::Member { obj: next, .. } => {
                obj = &**next;
            },
            JsxObject::Ident(ident) => {
                return ident;
            },
        }
    }
}

impl IdentComponent {
    /// A collector that has seen nothing.
    pub fn new() -> (r: IdentComponent)
        ensures
            r@.jsx == Seq::<Id>::empty(),
            r@.idents == Seq::<Id>::empty(),
    {
        let r = IdentComponent { component_name_jsx_ident: Vec::new(), ident_list: Vec::new() };
        assert(r@.jsx =~= Seq::<Id>::empty());
        assert(r@.idents =~= Seq::<Id>::empty());
        r
    }

    /// An import declaration is passed over.
    pub fn visit_import_decl(&mut self, _decl: &ImportDecl)
        ensures
            *final(self) == *old(self),
    {
    }

    /// Records an identifier.
    pub fn visit_ident(&mut self, ident: &Ident)
        ensures
            final(self)@.idents == old(self)@.idents.push(ident@),
            final(self)@.jsx == old(self)@.jsx,
    {
        self.ident_list.push((ident.sym.clone(), ident.ctxt));
        assert(self@.idents =~= old(self)@.idents.push(ident@));
    }

    /// Records a JSX element by its root name, and searches its attributes
    /// and its children.
    pub fn visit_jsx_element(&mut self, jsx: &JsxElement)
        ensures
            final(self)@.jsx == old(self)@.jsx + (seq![jsx_entry(jsx.name@)] + jsx_of_each(
                nodes_view(jsx.attrs@),
            ) + jsx_of_each(nodes_view(jsx.children@))),
            final(self)@.idents == old(self)@.idents + (idents_of_each(nodes_view(jsx.attrs@))
                + idents_of_each(nodes_view(jsx.children@))),
        decreases jsx,
    {
        let root = match &jsx.name {
            JsxName::Ident(ident) => ident,
            JsxName::Member { obj, .. } => root_of_object(obj),
            JsxName::Namespaced { name: part, .. } => part,
        };
        let display = strip_marker(root.sym.as_str());
        self.component_name_jsx_ident.push((display, root.ctxt));
        assert(self@.jsx =~= old(self)@.jsx.push(jsx_entry(jsx.name@)));
        self.visit_nodes(&jsx.attrs);
        self.visit_nodes(&jsx.children);
        assert(self@.jsx =~= old(self)@.jsx + (seq![jsx_entry(jsx.name@)] + jsx_of_each(
            nodes_view(jsx.attrs@),
        ) + jsx_of_each(nodes_view(jsx.children@))));
        assert(self@.idents =~= old(self)@.idents + (idents_of_each(nodes_view(jsx.attrs@))
            + idents_of_each(nodes_view(jsx.children@))));
    }

    /// Searches a node.
    pub fn visit_node(&mut self, node: &Node)
        ensures
            final(self)@.jsx == old(self)@.jsx + jsx_of(node@),
            final(self)@.idents == old(self)@.idents + idents_of(node@),
        decreases node,
    {
        match node {
            Node::Ident(ident) => {
                self.visit_ident(ident);
                assert(self@.idents =~= old(self)@.idents + idents_of(node@));
                assert(self@.jsx =~= old(self)@.jsx + jsx_of(node@));
            },
            Node::Member { obj, prop } => {
                self.visit_node(obj);
                self.visit_ident(prop);
                assert(self@.idents =~= old(self)@.idents + idents_of(node@));
            },
            Node::Call { callee, args } => {
                self.visit_node(callee);
                self.visit_nodes(args);
                assert(self@.idents =~= old(self)@.idents + idents_of(node@));
                assert(self@.jsx =~= old(self)@.jsx + jsx_of(node@));
            },
            Node::ExprStmt { expr, .. } => {
                self.visit_node(expr);
            },
            Node::Block(stmts) => {
                self.visit_nodes(stmts);
            },
            Node::Jsx(jsx) => {
                self.visit_jsx_element(jsx);
            },
            Node::TypeAnn(_) => {
                assert(self@.idents =~= old(self)@.idents + idents_of(node@));
                assert(self@.jsx =~= old(self)@.jsx + jsx_of(node@));
            },
            Node::Other(parts) => {
                self.visit_nodes(parts);
            },
        }
    }

    /// Searches each of the nodes, in order.
    pub fn visit_nodes(&mut self, nodes: &Vec<Node>)
        ensures
            final(self)@.jsx == old(self)@.jsx + jsx_of_each(nodes_view(nodes@)),
            final(self)@.idents == old(self)@.idents + idents_of_each(nodes_view(nodes@)),
        decreases nodes,
    {
        let mut i: usize = 0;
        proof {
            assert(nodes@.take(0) =~= Seq::<Node>::empty());
            assert(self@.jsx =~= old(self)@.jsx + Seq::<Id>::empty());
            assert(self@.idents =~= old(self)@.idents + Seq::<Id>::empty());
        }
        while i < nodes.len()
            invariant
                i <= nodes@.len(),
                self@.jsx == old(self)@.jsx + jsx_of_each(nodes_view(nodes@.take(i as int))),
                self@.idents == old(self)@.idents + idents_of_each(
                    nodes_view(nodes@.take(i as int)),
                ),
            decreases nodes@.len() - i,
        {
            let ghost before = self@;
            self.visit_node(&nodes[i]);
            proof {
                let done = nodes@.take(i as int);
                assert(nodes@.take(i + 1) =~= done.push(nodes@[i as int]));
                lemma_nodes_view_push(done, nodes@[i as int]);
                assert(nodes_view(done).push(nodes@[i as int]@).drop_last() =~= nodes_view(done));
                assert(self@.jsx =~= old(self)@.jsx + jsx_of_each(
                    nodes_view(nodes@.take(i + 1)),
                ));
                assert(self@.idents =~= old(self)@.idents + idents_of_each(
                    nodes_view(nodes@.take(i + 1)),
                ));
            }
            i += 1;
        }
        assert(nodes@.take(nodes@.len() as int) =~= nodes@);
    }

    /// Searches a module body, passing over its imports.
    pub fn visit_module_items(&mut self, items: &Vec<ModuleItem>)
        ensures
            final(self)@.jsx == old(self)@.jsx + jsx_of_items(items_view(items@)),
            final(self)@.idents == old(self)@.idents + idents_of_items(items_view(items@)),
    {
        let mut i: usize = 0;
        proof {
            assert(items_view(items@).take(0) =~= Seq::<ItemView>::empty());
            assert(self@.jsx =~= old(self)@.jsx + Seq::<Id>::empty());
            assert(self@.idents =~= old(self)@.idents + Seq::<Id>::empty());
        }
        while i < items.len()
            invariant
                i <= items@.len(),
                self@.jsx == old(self)@.jsx + jsx_of_items(items_view(items@).take(i as int)),
                self@.idents == old(self)@.idents + idents_of_items(
                    items_view(items@).take(i as int),
                ),
            decreases items@.len() - i,
        {
            match &items[i] {
                ModuleItem::Import(decl) => {
                    self.visit_import_decl(decl);
                },
                ModuleItem::Other(node) => {
                    self.visit_node(node);
                },
            }
            proof {
                let done = items_view(items@).take(i as int);
                assert(items_view(items@).take(i + 1) =~= done.push(items@[i as int]@));
                assert(done.push(items@[i as int]@).drop_last() =~= done);
                assert(self@.jsx =~= old(self)@.jsx + jsx_of_items(
                    items_view(items@).take(i + 1),
                ));
                assert(self@.idents =~= old(self)@.idents + idents_of_items(
                    items_view(items@).take(i + 1),
                ));
            }
            i += 1;
        }
        assert(items_view(items@).take(items@.len() as int) =~= items_view(items@));
    }

    /// Collects the names of a whole module body.
    pub fn collect(items: &Vec<ModuleItem>) -> (r: IdentComponent)
        ensures
            r@ == collected(items_view(items@)),
    {
        let mut found = IdentComponent::new();
        found.visit_module_items(items);
        assert(found@.jsx =~= jsx_of_items(items_view(items@)));
        assert(found@.idents =~= idents_of_items(items_view(items@)));
        found
    }

    /// Whether a binding is referred to, as a JSX element or as an identifier.
    pub fn is_live(&self, name: &str, ctxt: u32) -> (r: bool)
        ensures
            r == live(self@, (name@, ctxt)),
    {
        has_name(&self.component_name_jsx_ident, name, ctxt) || has_name(
            &self.ident_list,
            name,
            ctxt,
        )
    }
}

/// Looks a binding up in a list of names.
pub fn has_name(list: &Vec<(String, u32)>, name: &str, ctxt: u32) -> (r: bool)
    ensures
        r == names_view(list@).contains((name@, ctxt)),
{
    let mut i: usize = 0;
    while i < list.len()
        invariant
            i <= list@.len(),
            forall|j: int| 0 <= j < i ==> names_view(list@)[j] != (name@, ctxt),
        decreases list@.len() - i,
    {
        if list[i].1 == ctxt && same_text(list[i].0.as_str(), name) {
            assert(names_view(list@)[i as int] == (name@, ctxt));
            return true;
        }
        i += 1;
    }
    false
}

/// An element whose root is spelled without the marker is recorded by
/// exactly its root.
pub proof fn lemma_plain_root_recorded(name: JsxNameView)
    requires
        !occurs(jsx_root(name).0, '#', '0'),
    ensures
        jsx_entry(name) == jsx_root(name),
{
    lemma_replaced_absent(jsx_root(name).0, '#', '0', Seq::empty());
}

} // verus!
