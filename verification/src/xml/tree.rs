use vstd::prelude::*;

verus! {

/// An attribute of an element: its local name and its value.
pub struct XmlAttribute {
    pub name: String,
    pub value: String,
}

/// A child node of an element.
pub enum XmlNode {
    /// A nested element.
    Element(XmlElement),
    /// Character data.
    Text(String),
    /// A comment or a processing instruction.
    Other,
}

/// An element with its expanded name, attributes and children in document
/// order.
pub struct XmlElement {
    /// Namespace URI of the element's name, if any.
    pub namespace: Option<String>,
    /// Local name of the element.
    pub name: String,
    pub attributes: Vec<XmlAttribute>,
    pub children: Vec<XmlNode>,
}

/// The element's expanded name is `{namespace}name`.
pub open spec fn spec_has_tag_name(e: XmlElement, namespace: Seq<char>, name: Seq<char>) -> bool {
    &&& e.namespace matches Some(ns) && ns@ == namespace
    &&& e.name@ == name
}

/// The text of an element: that of its first child, when that child is
/// character data.
pub open spec fn spec_text(e: XmlElement) -> Option<Seq<char>> {
    if e.children@.len() > 0 && e.children@[0] is Text {
        Some(e.children@[0]->Text_0@)
    } else {
        None
    }
}

/// The value of the first attribute from index `i` on whose local name is
/// `name`.
pub open spec fn spec_attribute_from(attrs: Seq<XmlAttribute>, name: Seq<char>, i: int) -> Option<
    Seq<char>,
>
    decreases attrs.len() - i,
{
    if i < 0 || i >= attrs.len() {
        None
    } else if attrs[i].name@ == name {
        Some(attrs[i].value@)
    } else {
        spec_attribute_from(attrs, name, i + 1)
    }
}

/// The value of the element's first attribute whose local name is `name`.
pub open spec fn spec_attribute(e: XmlElement, name: Seq<char>) -> Option<Seq<char>> {
    spec_attribute_from(e.attributes@, name, 0)
}

/// Index of the first child element from index `i` on that satisfies the
/// name test: a local name, and a namespace when one is given.
pub open spec fn spec_find_child_from(
    children: Seq<XmlNode>,
    namespace: Option<Seq<char>>,
    name: Option<Seq<char>>,
    i: int,
) -> Option<int>
    decreases children.len() - i,
{
    if i < 0 || i >= children.len() {
        None
    } else if children[i] is Element && name_test(children[i]->Element_0, namespace, name) {
        Some(i)
    } else {
        spec_find_child_from(children, namespace, name, i + 1)
    }
}

/// A child that the search finds is an element within the children.
pub proof fn lemma_find_child_found(
    children: Seq<XmlNode>,
    namespace: Option<Seq<char>>,
    name: Option<Seq<char>>,
    i: int,
)
    ensures
        spec_find_child_from(children, namespace, name, i) matches Some(j) ==> (i <= j
            < children.len() && children[j] is Element && name_test(
            children[j]->Element_0,
            namespace,
            name,
        )),
    decreases children.len() - i,
{
    if 0 <= i < children.len() {
        lemma_find_child_found(children, namespace, name, i + 1);
    }
}

/// The name test: the local name matches when one is given, and the
/// namespace matches when one is given.
pub open spec fn name_test(e: XmlElement, namespace: Option<Seq<char>>, name: Option<Seq<char>>) -> bool {
    &&& (name matches Some(n) ==> e.name@ == n)
    &&& (namespace matches Some(ns) ==> (e.namespace matches Some(ens) && ens@ == ns))
}

/// Whether two strings are equal, compared through their UTF-8 bytes.
pub fn str_eq(a: &str, b: &str) -> (r: bool)
    ensures
        r == (a@ == b@),
{
    let x = a.as_bytes();
    let y = b.as_bytes();
    proof {
        vstd::utf8::encode_utf8_decode_utf8(a@);
        vstd::utf8::encode_utf8_decode_utf8(b@);
    }
    if x.len() != y.len() {
        assert(x@.len() != y@.len());
        return false;
    }
    let mut i: usize = 0;
    while i < x.len()
        invariant
            x@.len() == y@.len(),
            x@ == vstd::utf8::encode_utf8(a@),
            y@ == vstd::utf8::encode_utf8(b@),
            i <= x@.len(),
            forall|k: int| 0 <= k < i ==> x@[k] == y@[k],
        decreases x@.len() - i,
    {
        if x[i] != y[i] {
            assert(x@[i as int] != y@[i as int]);
            assert(x@ != y@);
            return false;
        }
        i = i + 1;
    }
    assert(x@ =~= y@);
    true
}

/// Whether an optional namespace satisfies an optional namespace test.
fn namespace_test(e: &XmlElement, namespace: Option<&str>) -> (r: bool)
    ensures
        r == (namespace matches Some(ns) ==> (e.namespace matches Some(ens) && ens@ == ns@)),
{
    match namespace {
        None => true,
        Some(ns) => match &e.namespace {
            Some(ens) => str_eq(ens.as_str(), ns),
            None => false,
        },
    }
}

impl XmlElement {
    /// Whether the element's expanded name is `{namespace}name`.
    pub fn has_tag_name(&self, namespace: &str, name: &str) -> (r: bool)
        ensures
            r == spec_has_tag_name(*self, namespace@, name@),
    {
        namespace_test(self, Some(namespace)) && str_eq(self.name.as_str(), name)
    }

    /// Whether the element passes a name test.
    pub fn matches_name(&self, namespace: Option<&str>, name: Option<&str>) -> (r: bool)
        ensures
            r == name_test(*self, opt_str_chars(namespace), opt_str_chars(name)),
    {
        let name_ok = match name {
            None => true,
            Some(n) => str_eq(self.name.as_str(), n),
        };
        name_ok && namespace_test(self, namespace)
    }

    /// The element's text: that of its first child, when that child is
    /// character data.
    pub fn text(&self) -> (r: Option<&String>)
        ensures
            match r {
                Some(t) => spec_text(*self) == Some(t@),
                None => spec_text(*self) is None,
            },
    {
        if self.children.len() > 0 {
            match &self.children[0] {
                XmlNode::Text(t) => Some(t),
                _ => None,
            }
        } else {
            None
        }
    }

    /// The value of the first attribute whose local name is `name`.
    pub fn attribute(&self, name: &str) -> (r: Option<&String>)
        ensures
            match r {
                Some(v) => spec_attribute(*self, name@) == Some(v@),
                None => spec_attribute(*self, name@) is None,
            },
    {
        let mut i: usize = 0;
        while i < self.attributes.len()
            invariant
                i <= self.attributes@.len(),
                spec_attribute(*self, name@) == spec_attribute_from(self.attributes@, name@, i as int),
            decreases self.attributes@.len() - i,
        {
            if str_eq(self.attributes[i].name.as_str(), name) {
                return Some(&self.attributes[i].value);
            }
            i = i + 1;
        }
        None
    }

    /// Index of the first child element that passes the name test.
    pub fn find_child_index(&self, namespace: Option<&str>, name: Option<&str>) -> (r: Option<usize>)
        ensures
            match r {
                Some(i) => spec_find_child_from(
                    self.children@,
                    opt_str_chars(namespace),
                    opt_str_chars(name),
                    0,
                ) == Some(i as int),
                None => spec_find_child_from(
                    self.children@,
                    opt_str_chars(namespace),
                    opt_str_chars(name),
                    0,
                ) is None,
            },
    {
        let mut i: usize = 0;
        while i < self.children.len()
            invariant
                i <= self.children@.len(),
                spec_find_child_from(self.children@, opt_str_chars(namespace), opt_str_chars(name), 0)
                    == spec_find_child_from(
                    self.children@,
                    opt_str_chars(namespace),
                    opt_str_chars(name),
                    i as int,
                ),
            decreases self.children@.len() - i,
        {
            match &self.children[i] {
                XmlNode::Element(c) => {
                    if c.matches_name(namespace, name) {
                        return Some(i);
                    }
                },
                _ => {},
            }
            i = i + 1;
        }
        None
    }

    /// The first child element that passes the name test.
    pub fn find_child(&self, namespace: Option<&str>, name: Option<&str>) -> (r: Option<&XmlElement>)
        ensures
            match spec_find_child_from(self.children@, opt_str_chars(namespace), opt_str_chars(name), 0) {
                Some(i) => r matches Some(c) && self.children@[i] == XmlNode::Element(*c),
                None => r is None,
            },
    {
        proof {
            lemma_find_child_found(self.children@, opt_str_chars(namespace), opt_str_chars(name), 0);
        }
        match self.find_child_index(namespace, name) {
            Some(i) => match &self.children[i] {
                XmlNode::Element(c) => Some(c),
                _ => None,
            },
            None => None,
        }
    }
}

/// The characters of an optional string slice.
pub open spec fn opt_str_chars(s: Option<&str>) -> Option<Seq<char>> {
    match s {
        Some(t) => Some(t@),
        None => None,
    }
}

/// The first element, in document order, of the subtree rooted at `e` that
/// passes the name test.
pub open spec fn spec_find_descendant(
    e: XmlElement,
    namespace: Option<Seq<char>>,
    name: Option<Seq<char>>,
) -> Option<XmlElement>
    decreases e, e.children@.len() + 1,
{
    if name_test(e, namespace, name) {
        Some(e)
    } else {
        spec_find_in_children(e, namespace, name, 0)
    }
}

/// The first element, in document order, of the subtrees of the children of
/// `e` from index `i` on that passes the name test.
pub open spec fn spec_find_in_children(
    e: XmlElement,
    namespace: Option<Seq<char>>,
    name: Option<Seq<char>>,
    i: int,
) -> Option<XmlElement>
    decreases e, e.children@.len() - i,
{
    if i < 0 || i >= e.children@.len() {
        None
    } else {
        match e.children@[i] {
            XmlNode::Element(c) => {
                proof {
                    assert(decreases_to!(e => e.children));
                    assert(decreases_to!(e.children => e.children@));
                    assert(decreases_to!(e.children@ => e.children@[i]));
                }
                match spec_find_descendant(c, namespace, name) {
                    Some(x) => Some(x),
                    None => spec_find_in_children(e, namespace, name, i + 1),
                }
            },
            _ => spec_find_in_children(e, namespace, name, i + 1),
        }
    }
}

impl XmlElement {
    /// The first element, in document order, of the subtree rooted here
    /// that passes the name test.
    pub fn find_descendant(&self, namespace: Option<&str>, name: Option<&str>) -> (r: Option<
        &XmlElement,
    >)
        ensures
            match spec_find_descendant(*self, opt_str_chars(namespace), opt_str_chars(name)) {
                Some(x) => r matches Some(y) && *y == x,
                None => r is None,
            },
        decreases *self, self.children@.len() + 1,
    {
        if self.matches_name(namespace, name) {
            return Some(self);
        }
        self.find_in_children(namespace, name, 0)
    }

    /// The first element, in document order, of the subtrees of the
    /// children from index `i` on that passes the name test.
    fn find_in_children(&self, namespace: Option<&str>, name: Option<&str>, i: usize) -> (r: Option<
        &XmlElement,
    >)
        ensures
            match spec_find_in_children(*self, opt_str_chars(namespace), opt_str_chars(name), i as int) {
                Some(x) => r matches Some(y) && *y == x,
                None => r is None,
            },
        decreases *self, self.children@.len() - i,
    {
        if i >= self.children.len() {
            return None;
        }
        match &self.children[i] {
            XmlNode::Element(c) => {
                proof {
                    assert(decreases_to!(*self => self.children));
                    assert(decreases_to!(self.children => self.children@));
                    assert(decreases_to!(self.children@ => self.children@[i as int]));
                }
                match c.find_descendant(namespace, name) {
                    Some(x) => Some(x),
                    None => self.find_in_children(namespace, name, i + 1),
                }
            },
            _ => self.find_in_children(namespace, name, i + 1),
        }
    }
}

/// The child elements among a sequence of child nodes, in order.
pub open spec fn element_children(cs: Seq<XmlNode>) -> Seq<XmlElement>
    decreases cs.len(),
{
    if cs.len() == 0 {
        Seq::empty()
    } else {
        element_children(cs.drop_last()) + (if cs.last() is Element {
            seq![cs.last()->Element_0]
        } else {
            Seq::empty()
        })
    }
}

/// The text of an element, or the empty string when it has none.
pub open spec fn text_or_empty(e: XmlElement) -> Seq<char> {
    match spec_text(e) {
        Some(t) => t,
        None => Seq::empty(),
    }
}

/// The child elements named `{namespace}name` among a sequence of child
/// nodes, in order.
pub open spec fn named_children(cs: Seq<XmlNode>, namespace: Seq<char>, name: Seq<char>) -> Seq<
    XmlElement,
>
    decreases cs.len(),
{
    if cs.len() == 0 {
        Seq::empty()
    } else {
        named_children(cs.drop_last(), namespace, name) + (if cs.last() is Element && name_test(
            cs.last()->Element_0,
            Some(namespace),
            Some(name),
        ) {
            seq![cs.last()->Element_0]
        } else {
            Seq::empty()
        })
    }
}

} // verus!
