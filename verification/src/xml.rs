//! An element tree that is matched by local name only, whatever namespace a
//! source document declares.


use vstd::prelude::*;

verus! {

/// One attribute of an element: its local name and its value.
#[derive(Debug, Clone, PartialEq, Eq)]
pub struct XmlAttribute {
    pub name: String,
    pub value: String,
}

/// A node of a parsed document: an element or a run of character data.
/// Children stand in document order.
#[derive(Debug, PartialEq, Eq)]
pub enum XmlNode {
    Element { name: String, attributes: Vec<XmlAttribute>, children: Vec<XmlNode> },
    Text { content: String },
}

/// The first item of `items` that satisfies `pred`, if there is one.
pub open spec fn first_match<A>(items: Seq<A>, pred: spec_fn(A) -> bool) -> Option<A>
    decreases items.len(),
{
    if items.len() == 0 {
        None
    } else if pred(items[0]) {
        Some(items[0])
    } else {
        first_match(items.drop_first(), pred)
    }
}

/// The predicate "is an element whose local name is `name`".
pub open spec fn named(name: Seq<char>) -> spec_fn(XmlNode) -> bool {
    |node: XmlNode| node.is_element_named(name)
}

/// The predicate "is an attribute whose local name is `name`".
pub open spec fn attribute_named(name: Seq<char>) -> spec_fn(XmlAttribute) -> bool {
    |attribute: XmlAttribute| attribute.name@ == name
}

/// The nodes that a sequence of references points to.
pub open spec fn targets(refs: Seq<&XmlNode>) -> Seq<XmlNode> {
    refs.map_values(|r: &XmlNode| *r)
}

/// The character data of `node` and of everything below it, in document order.
pub open spec fn text_content(node: XmlNode) -> Seq<char>
    decreases node,
{
    match node {
        XmlNode::Text { content } => content@,
        XmlNode::Element { children, .. } => text_of_first(children@, children@.len() as int),
    }
}

/// The character data of the first `n` nodes of `nodes`, in document order.
pub open spec fn text_of_first(nodes: Seq<XmlNode>, n: int) -> Seq<char>
    decreases nodes, n,
{
    if 0 < n <= nodes.len() {
        text_of_first(nodes, n - 1) + text_content(nodes[n - 1])
    } else {
        Seq::empty()
    }
}

/// `node` itself, if it is an element named `name`, then every such element
/// below it, in document order.
pub open spec fn elements_named(node: XmlNode, name: Seq<char>) -> Seq<XmlNode>
    decreases node,
{
    let own = if node.is_element_named(name) {
        seq![node]
    } else {
        Seq::empty()
    };
    match node {
        XmlNode::Text { .. } => own,
        XmlNode::Element { children, .. } => own + elements_in_first(
            children@,
            children@.len() as int,
            name,
        ),
    }
}

/// The elements named `name` at or below the first `n` nodes of `nodes`.
pub open spec fn elements_in_first(nodes: Seq<XmlNode>, n: int, name: Seq<char>) -> Seq<XmlNode>
    decreases nodes, n,
{
    if 0 < n <= nodes.len() {
        elements_in_first(nodes, n - 1, name) + elements_named(nodes[n - 1], name)
    } else {
        Seq::empty()
    }
}

/// Walking the first `n` nodes of `nodes` and everything below them in
/// document order: each element named `inner` whose parent is an element named
/// `outer`. `parent_is_outer` says whether the parent of `nodes` is one.
pub open spec fn nested_in_first(
    nodes: Seq<XmlNode>,
    n: int,
    parent_is_outer: bool,
    outer: Seq<char>,
    inner: Seq<char>,
) -> Seq<XmlNode>
    decreases nodes, n,
{
    if 0 < n <= nodes.len() {
        let node = nodes[n - 1];
        let own = if parent_is_outer && node.is_element_named(inner) {
            seq![node]
        } else {
            Seq::empty()
        };
        nested_in_first(nodes, n - 1, parent_is_outer, outer, inner) + own + nested_below(
            node,
            outer,
            inner,
        )
    } else {
        Seq::empty()
    }
}

/// The elements named `inner` below `node` whose parent, `node` or an element
/// below it, is named `outer`; in document order.
pub open spec fn nested_below(node: XmlNode, outer: Seq<char>, inner: Seq<char>) -> Seq<XmlNode>
    decreases node,
{
    match node {
        XmlNode::Text { .. } => Seq::empty(),
        XmlNode::Element { children, .. } => nested_in_first(
            children@,
            children@.len() as int,
            node.is_element_named(outer),
            outer,
            inner,
        ),
    }
}

impl XmlNode {
    /// Whether this node is an element with the local name `name`.
    pub open spec fn is_element_named(self, name: Seq<char>) -> bool {
        self matches XmlNode::Element { name: own, .. } && own@ == name
    }

    /// The children of an element; character data has none.
    pub open spec fn child_nodes(self) -> Seq<XmlNode> {
        match self {
            XmlNode::Element { children, .. } => children@,
            XmlNode::Text { .. } => Seq::empty(),
        }
    }

    /// The attributes of an element; character data has none.
    pub open spec fn attribute_list(self) -> Seq<XmlAttribute> {
        match self {
            XmlNode::Element { attributes, .. } => attributes@,
            XmlNode::Text { .. } => Seq::empty(),
        }
    }

    /// The value of the first attribute with the local name `name`.
    pub open spec fn attribute_value(self, name: Seq<char>) -> Option<Seq<char>> {
        match first_match(self.attribute_list(), attribute_named(name)) {
            Some(attribute) => Some(attribute.value@),
            None => None,
        }
    }

    /// The first child that is an element named `name`.
    pub open spec fn first_named_child(self, name: Seq<char>) -> Option<XmlNode> {
        first_match(self.child_nodes(), named(name))
    }

    /// The children that are elements named `name`, in document order.
    pub open spec fn named_children(self, name: Seq<char>) -> Seq<XmlNode> {
        self.child_nodes().filter(named(name))
    }

    /// The elements named `inner` that are children of an element named
    /// `outer` somewhere below this node, in document order.
    pub open spec fn nested_children(self, outer: Seq<char>, inner: Seq<char>) -> Seq<XmlNode> {
        nested_in_first(self.child_nodes(), self.child_nodes().len() as int, false, outer, inner)
    }

    /// Tests whether this node is an element with the local name `name`.
    pub fn has_name(&self, name: &str) -> (matches: bool)
        ensures
            matches == self.is_element_named(name@),
    {
        match self {
            XmlNode::Element { name: own, .. } => own.as_str().eq(name),
            XmlNode::Text { .. } => false,
        }
    }

    /// The value of the first attribute with the local name `name`.
    pub fn attribute(&self, name: &str) -> (value: Option<String>)
        ensures
            match value {
                Some(v) => self.attribute_value(name@) == Some(v@),
                None => self.attribute_value(name@) is None,
            },
    {
        match self {
            XmlNode::Element { attributes, .. } => {
                let mut i: usize = 0;
                assert(attributes@.skip(0) =~= attributes@);
                while i < attributes.len()
                    invariant
                        i <= attributes.len(),
                        self.attribute_list() == attributes@,
                        first_match(attributes@, attribute_named(name@)) == first_match(
                            attributes@.skip(i as int),
                            attribute_named(name@),
                        ),
                    decreases attributes.len() - i,
                {
                    assert(attributes@.skip(i as int).drop_first() =~= attributes@.skip(i + 1));
                    if attributes[i].name.as_str().eq(name) {
                        return Some(attributes[i].value.clone());
                    }
                    i += 1;
                }
                None
            },
            XmlNode::Text { .. } => None,
        }
    }

    /// The first child that is an element named `name`.
    pub fn first_child_named(&self, name: &str) -> (child: Option<&XmlNode>)
        ensures
            match child {
                Some(c) => self.first_named_child(name@) == Some(*c),
                None => self.first_named_child(name@) is None,
            },
    {
        match self {
            XmlNode::Element { children, .. } => {
                let mut i: usize = 0;
                assert(children@.skip(0) =~= children@);
                while i < children.len()
                    invariant
                        i <= children.len(),
                        self.child_nodes() == children@,
                        self.first_named_child(name@) == first_match(
                            children@.skip(i as int),
                            named(name@),
                        ),
                    decreases children.len() - i,
                {
                    assert(children@.skip(i as int).drop_first() =~= children@.skip(i + 1));
                    if children[i].has_name(name) {
                        return Some(&children[i]);
                    }
                    i += 1;
                }
                None
            },
            XmlNode::Text { .. } => None,
        }
    }

    /// The children that are elements named `name`, in document order.
    pub fn children_named(&self, name: &str) -> (found: Vec<&XmlNode>)
        ensures
            targets(found@) == self.named_children(name@),
    {
        let mut found: Vec<&XmlNode> = Vec::new();
        assert(targets(found@) =~= Seq::<XmlNode>::empty());
        match self {
            XmlNode::Element { children, .. } => {
                let mut i: usize = 0;
                while i < children.len()
                    invariant
                        i <= children.len(),
                        self.child_nodes() == children@,
                        targets(found@) == children@.take(i as int).filter(named(name@)),
                    decreases children.len() - i,
                {
                    proof {
                        let before = children@.take(i as int);
                        assert(children@.take(i + 1) =~= before.push(children@[i as int]));
                        before.lemma_filter_push(children@[i as int], named(name@));
                    }
                    if children[i].has_name(name) {
                        let ghost old_found = found@;
                        found.push(&children[i]);
                        assert(targets(found@) =~= targets(old_found).push(children@[i as int]));
                    }
                    i += 1;
                }
                assert(children@.take(children@.len() as int) =~= children@);
            },
            XmlNode::Text { .. } => {},
        }
        found
    }

    /// Appends the character data of this node and of everything below it.
    pub fn append_text(&self, out: &mut String)
        ensures
            final(out)@ == old(out)@ + text_content(*self),
        decreases self,
    {
        match self {
            XmlNode::Text { content } => {
                out.append(content.as_str());
            },
            XmlNode::Element { children, .. } => {
                let mut i: usize = 0;
                assert(out@ =~= old(out)@ + text_of_first(children@, 0));
                while i < children.len()
                    invariant
                        i <= children.len(),
                        *self matches XmlNode::Element { children: own, .. } && own == children,
                        out@ == old(out)@ + text_of_first(children@, i as int),
                    decreases children.len() - i,
                {
                    let ghost before = out@;
                    children[i].append_text(out);
                    assert(out@ =~= old(out)@ + text_of_first(children@, i + 1));
                    i += 1;
                }
            },
        }
    }

    /// The character data of this node and of everything below it.
    pub fn text(&self) -> (out: String)
        ensures
            out@ == text_content(*self),
    {
        let mut out = String::new();
        self.append_text(&mut out);
        assert(out@ =~= text_content(*self));
        out
    }

    /// Appends this node, if it is an element named `name`, and then every
    /// such element below it.
    pub fn collect_elements_named<'a>(&'a self, name: &str, found: &mut Vec<&'a XmlNode>)
        ensures
            targets(final(found)@) == targets(old(found)@) + elements_named(*self, name@),
        decreases self,
    {
        if self.has_name(name) {
            let ghost before = found@;
            found.push(self);
            assert(targets(found@) =~= targets(before) + seq![*self]);
        }
        match self {
            XmlNode::Text { .. } => {
                assert(targets(found@) =~= targets(old(found)@) + elements_named(*self, name@));
            },
            XmlNode::Element { children, .. } => {
                let ghost start = found@;
                let mut i: usize = 0;
                assert(targets(found@) =~= targets(start) + elements_in_first(children@, 0, name@));
                while i < children.len()
                    invariant
                        i <= children.len(),
                        *self matches XmlNode::Element { children: own, .. } && own == children,
                        targets(found@) == targets(start) + elements_in_first(
                            children@,
                            i as int,
                            name@,
                        ),
                    decreases children.len() - i,
                {
                    children[i].collect_elements_named(name, found);
                    assert(targets(found@) =~= targets(start) + elements_in_first(
                        children@,
                        i + 1,
                        name@,
                    ));
                    i += 1;
                }
                assert(targets(found@) =~= targets(old(found)@) + elements_named(*self, name@));
            },
        }
    }

    /// This node, if it is an element named `name`, and every such element
    /// below it, in document order.
    pub fn find_elements_named(&self, name: &str) -> (found: Vec<&XmlNode>)
        ensures
            targets(found@) == elements_named(*self, name@),
    {
        let mut found: Vec<&XmlNode> = Vec::new();
        assert(targets(found@) =~= Seq::<XmlNode>::empty());
        self.collect_elements_named(name, &mut found);
        assert(targets(found@) =~= elements_named(*self, name@));
        found
    }

    /// Appends, in document order, each element named `inner` below this node
    /// whose parent is an element named `outer`. This node itself counts as
    /// such a parent where `parent_is_outer` says so.
    pub fn collect_nested<'a>(
        &'a self,
        parent_is_outer: bool,
        outer: &str,
        inner: &str,
        found: &mut Vec<&'a XmlNode>,
    )
        ensures
            targets(final(found)@) == targets(old(found)@) + nested_in_first(
                self.child_nodes(),
                self.child_nodes().len() as int,
                parent_is_outer,
                outer@,
                inner@,
            ),
        decreases self,
    {
        match self {
            XmlNode::Text { .. } => {
                assert(targets(found@) =~= targets(old(found)@) + Seq::<XmlNode>::empty());
            },
            XmlNode::Element { children, .. } => {
                let mut i: usize = 0;
                assert(targets(found@) =~= targets(old(found)@) + nested_in_first(
                    children@,
                    0,
                    parent_is_outer,
                    outer@,
                    inner@,
                ));
                while i < children.len()
                    invariant
                        i <= children.len(),
                        *self matches XmlNode::Element { children: own, .. } && own == children,
                        targets(found@) == targets(old(found)@) + nested_in_first(
                            children@,
                            i as int,
                            parent_is_outer,
                            outer@,
                            inner@,
                        ),
                    decreases children.len() - i,
                {
                    let child = &children[i];
                    let ghost before = found@;
                    if parent_is_outer && child.has_name(inner) {
                        found.push(child);
                        assert(targets(found@) =~= targets(before) + seq![*child]);
                    } else {
                        assert(targets(found@) =~= targets(before) + Seq::<XmlNode>::empty());
                    }
                    let ghost middle = found@;
                    let child_is_outer = child.has_name(outer);
                    child.collect_nested(child_is_outer, outer, inner, found);
                    assert(targets(found@) == targets(middle) + nested_below(
                        *child,
                        outer@,
                        inner@,
                    ));
                    assert(targets(found@) =~= targets(old(found)@) + nested_in_first(
                        children@,
                        i + 1,
                        parent_is_outer,
                        outer@,
                        inner@,
                    ));
                    i += 1;
                }
            },
        }
    }

    /// The elements named `inner` that are children of an element named
    /// `outer` somewhere below this node, in document order.
    pub fn find_nested(&self, outer: &str, inner: &str) -> (found: Vec<&XmlNode>)
        ensures
            targets(found@) == self.nested_children(outer@, inner@),
    {
        let mut found: Vec<&XmlNode> = Vec::new();
        assert(targets(found@) =~= Seq::<XmlNode>::empty());
        self.collect_nested(false, outer, inner, &mut found);
        assert(targets(found@) =~= self.nested_children(outer@, inner@));
        found
    }
}

} // verus!
