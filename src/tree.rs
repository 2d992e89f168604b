use vstd::prelude::*;

verus! {

/// The mathematical value of a document tree.
pub enum Tree {
    /// An element with its tag name, its attributes in order, and its children.
    Elem { name: Seq<char>, attrs: Seq<(Seq<char>, Seq<char>)>, kids: Seq<Tree> },
    /// Character data, escaped when written out.
    Text { text: Seq<char> },
    /// Markup written out exactly as it stands.
    Raw { markup: Seq<char> },
}

/// One attribute of an element.
pub struct Attr {
    pub name: String,
    pub value: String,
}

/// A node of an HTML document tree.
pub enum Node {
    Element { name: String, attrs: Vec<Attr>, children: Vec<Node> },
    Text { text: String },
    Raw { markup: String },
}

impl Attr {
    pub open spec fn view(&self) -> (Seq<char>, Seq<char>) {
        (self.name@, self.value@)
    }
}

pub open spec fn attr_views(s: Seq<Attr>) -> Seq<(Seq<char>, Seq<char>)> {
    s.map_values(|a: Attr| a@)
}

pub open spec fn views(s: Seq<Node>) -> Seq<Tree> {
    s.map_values(|n: Node| n@)
}

impl Node {
    pub open spec fn view(&self) -> Tree
        decreases self,
    {
        match self {
            Node::Element { name, attrs, children } => Tree::Elem {
                name: name@,
                attrs: attr_views(attrs@),
                kids: Seq::new(
                    children.len() as nat,
                    |i: int|
                        if 0 <= i < children.len() {
                            children[i].view()
                        } else {
                            Tree::Text { text: Seq::empty() }
                        },
                ),
            },
            Node::Text { text } => Tree::Text { text: text@ },
            Node::Raw { markup } => Tree::Raw { markup: markup@ },
        }
    }

    pub proof fn lemma_kids(&self)
        ensures
            self is Element ==> self@->kids =~= views(self->children@),
            self is Element ==> self@->attrs =~= attr_views(self->attrs@),
            self is Element ==> self@->name == self->name@,
    {
    }

    /// A new element.
    pub fn element(name: String, attrs: Vec<Attr>, children: Vec<Node>) -> (r: Node)
        ensures
            r@ == (Tree::Elem { name: name@, attrs: attr_views(attrs@), kids: views(children@) }),
    {
        let r = Node::Element { name, attrs, children };
        proof {
            r.lemma_kids();
        }
        r
    }

    /// An independent copy of the whole subtree.
    #[verifier::loop_isolation(false)]
    pub fn copy(&self) -> (r: Node)
        ensures
            r@ == self@,
        decreases self,
    {
        match self {
            Node::Element { name, attrs, children } => {
                let a = copy_attrs(attrs);
                let mut c: Vec<Node> = Vec::new();
                let mut j: usize = 0;
                while j < children.len()
                    invariant
                        j <= children.len(),
                        c.len() == j,
                        forall|k: int| 0 <= k < j ==> (#[trigger] c[k])@ == children[k]@,
                    decreases children.len() - j,
                {
                    proof {
                        assert(decreases_to!(children => children[j as int]));

                    }
                    let k = children[j].copy();
                    c.push(k);
                    j = j + 1;
                }
                assert(views(c@) =~= views(children@));
                proof {
                    self.lemma_kids();
                }
                Node::element(name.clone(), a, c)
            },
            Node::Text { text } => Node::Text { text: text.clone() },
            Node::Raw { markup } => Node::Raw { markup: markup.clone() },
        }
    }
}

/// The subtree reached from `t` by following the child positions in `p`.
pub open spec fn at(t: Tree, p: Seq<int>) -> Option<Tree>
    decreases p.len(),
{
    if p.len() == 0 {
        Some(t)
    } else {
        match t {
            Tree::Elem { kids, .. } => if 0 <= p[0] < kids.len() {
                at(kids[p[0]], p.drop_first())
            } else {
                None
            },
            _ => None,
        }
    }
}

/// `t` with the subtree at path `p` replaced by `s`; `t` itself where `p` leads nowhere.
pub open spec fn put(t: Tree, p: Seq<int>, s: Tree) -> Tree
    decreases p.len(),
{
    if p.len() == 0 {
        s
    } else {
        match t {
            Tree::Elem { name, attrs, kids } => if 0 <= p[0] < kids.len() {
                Tree::Elem { name, attrs, kids: kids.update(p[0], put(kids[p[0]], p.drop_first(), s)) }
            } else {
                t
            },
            _ => t,
        }
    }
}

/// A path of child positions, as integers.
pub open spec fn ints(p: Seq<usize>) -> Seq<int> {
    p.map_values(|x: usize| x as int)
}

/// The value of the first attribute named `key`.
pub open spec fn attr_of(attrs: Seq<(Seq<char>, Seq<char>)>, key: Seq<char>) -> Option<Seq<char>>
    decreases attrs.len(),
{
    if attrs.len() == 0 {
        None
    } else if attrs[0].0 == key {
        Some(attrs[0].1)
    } else {
        attr_of(attrs.drop_first(), key)
    }
}

/// Whether two strings hold the same characters.
pub fn same_text(a: &str, b: &str) -> (r: bool)
    ensures
        r == (a@ == b@),
{
    let n = a.unicode_len();
    if n != b.unicode_len() {
        return false;
    }
    let mut i: usize = 0;
    while i < n
        invariant
            n == a@.len(),
            n == b@.len(),
            i <= n,
            forall|k: int| 0 <= k < i ==> a@[k] == b@[k],
        decreases n - i,
    {
        if a.get_char(i) != b.get_char(i) {
            return false;
        }
        i = i + 1;
    }
    assert(a@ =~= b@);
    true
}

/// The value of the first attribute named `key`.
pub fn find_attr<'a>(attrs: &'a Vec<Attr>, key: &str) -> (r: Option<&'a String>)
    ensures
        r matches Some(v) ==> attr_of(attr_views(attrs@), key@) == Some(v@),
        r is None ==> attr_of(attr_views(attrs@), key@) is None,
{
    let mut i: usize = 0;
    assert(attr_views(attrs@).skip(0) =~= attr_views(attrs@));
    while i < attrs.len()
        invariant
            i <= attrs.len(),
            attr_of(attr_views(attrs@), key@) == attr_of(attr_views(attrs@).skip(i as int), key@),
        decreases attrs.len() - i,
    {
        let ghost rest = attr_views(attrs@).skip(i as int);
        assert(rest.drop_first() =~= attr_views(attrs@).skip(i + 1));
        if same_text(attrs[i].name.as_str(), key) {
            return Some(&attrs[i].value);
        }
        i = i + 1;
    }
    None
}

/// A copy of a list of attributes.
pub fn copy_attrs(attrs: &Vec<Attr>) -> (r: Vec<Attr>)
    ensures
        attr_views(r@) == attr_views(attrs@),
{
    let mut a: Vec<Attr> = Vec::new();
    let mut i: usize = 0;
    while i < attrs.len()
        invariant
            i <= attrs.len(),
            a.len() == i,
            forall|k: int| 0 <= k < i ==> (#[trigger] a[k])@ == attrs[k]@,
        decreases attrs.len() - i,
    {
        a.push(Attr { name: attrs[i].name.clone(), value: attrs[i].value.clone() });
        i = i + 1;
    }
    assert(attr_views(a@) =~= attr_views(attrs@));
    a
}

impl Node {
    /// The subtree at the positions `p[from..]`.
    pub fn get_at(&self, p: &Vec<usize>, from: usize) -> (r: Option<&Node>)
        requires
            from <= p.len(),
        ensures
            r matches Some(n) ==> at(self@, ints(p@).skip(from as int)) == Some(n@),
            r is None ==> at(self@, ints(p@).skip(from as int)) is None,
        decreases p.len() - from,
    {
        let ghost q = ints(p@).skip(from as int);
        if from == p.len() {
            return Some(self);
        }
        assert(q.drop_first() =~= ints(p@).skip(from + 1));
        match self {
            Node::Element { children, .. } => {
                proof {
                    self.lemma_kids();
                }
                let i = p[from];
                if i < children.len() {
                    children[i].get_at(p, from + 1)
                } else {
                    None
                }
            },
            _ => None,
        }
    }

    /// This tree with the subtree at the positions `p[from..]` replaced by `s`.
    pub fn put_at(self, p: &Vec<usize>, from: usize, s: Node) -> (r: Node)
        requires
            from <= p.len(),
        ensures
            r@ == put(self@, ints(p@).skip(from as int), s@),
        decreases p.len() - from,
    {
        let ghost q = ints(p@).skip(from as int);
        let ghost old_view = self@;
        if from == p.len() {
            return s;
        }
        assert(q.drop_first() =~= ints(p@).skip(from + 1));
        proof {
            self.lemma_kids();
        }
        match self {
            Node::Element { name, attrs, mut children } => {
                let i = p[from];
                if i < children.len() {
                    let c = children.remove(i);
                    let c2 = c.put_at(p, from + 1, s);
                    children.insert(i, c2);
                    let r = Node::element(name, attrs, children);
                    assert(r@->kids =~= old_view->kids.update(i as int, c2@));
                    r
                } else {
                    let r = Node::element(name, attrs, children);
                    r
                }
            },
            other => other,
        }
    }
}

} // verus!
