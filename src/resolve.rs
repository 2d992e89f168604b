use vstd::prelude::*;
use crate::dates::{date_text, format_stamp};
use crate::posts::{Post, PostView};
use crate::slots::{fill_title, filled, slot_kind, SlotKind};
use crate::tree::{attr_of, copy_attrs, find_attr, same_text, views, Node, Tree};

verus! {

/// Why a post could not be written into its template.
#[derive(Clone, Copy, Debug, PartialEq, Eq, Structural)]
pub enum ResolveError {
    /// A `page-title` marker without a `content` attribute.
    MissingContent,
    /// The publication time could not be written with the time format.
    BadDate,
}

/// A `meta` element that carries a `typeset` attribute.
pub open spec fn is_marker(t: Tree) -> bool {
    &&& t is Elem
    &&& t->name == "meta"@
    &&& attr_of(t->attrs, "typeset"@) is Some
}

/// The kind of a marker.
pub open spec fn marker_kind(t: Tree) -> SlotKind {
    slot_kind(attr_of(t->attrs, "typeset"@)->0)
}

/// What a marker turns into for `post`.
pub open spec fn slot_result(t: Tree, post: PostView, fmt: Seq<char>) -> Result<Tree, ResolveError> {
    match marker_kind(t) {
        SlotKind::PageTitle => match attr_of(t->attrs, "content"@) {
            Some(c) => Ok(
                Tree::Elem {
                    name: "title"@,
                    attrs: Seq::empty(),
                    kids: seq![Tree::Text { text: filled(c, post.title) }],
                },
            ),
            None => Err(ResolveError::MissingContent),
        },
        SlotKind::Title => Ok(Tree::Raw { markup: post.title }),
        SlotKind::Body => Ok(Tree::Raw { markup: post.body }),
        SlotKind::Date => match date_text(post.published.secs, post.published.nanos, fmt) {
            Some(s) => Ok(Tree::Raw { markup: s }),
            None => Err(ResolveError::BadDate),
        },
        _ => Ok(t),
    }
}

/// The document `t` with every marker resolved for `post`, or the first error in document order.
pub open spec fn resolved(t: Tree, post: PostView, fmt: Seq<char>) -> Result<Tree, ResolveError>
    decreases t, 0nat,
{
    match t {
        Tree::Elem { name, attrs, kids } => if is_marker(t) {
            slot_result(t, post, fmt)
        } else {
            match resolved_kids(kids, kids.len(), post, fmt) {
                Ok(k) => Ok(Tree::Elem { name, attrs, kids: k }),
                Err(e) => Err(e),
            }
        },
        _ => Ok(t),
    }
}

/// The first `n` children of `kids`, each resolved for `post`.
pub open spec fn resolved_kids(kids: Seq<Tree>, n: nat, post: PostView, fmt: Seq<char>) -> Result<
    Seq<Tree>,
    ResolveError,
>
    decreases kids, n,
{
    if n == 0 || n > kids.len() {
        Ok(Seq::empty())
    } else {
        match resolved_kids(kids, (n - 1) as nat, post, fmt) {
            Ok(k) => match resolved(kids[n - 1], post, fmt) {
                Ok(x) => Ok(k.push(x)),
                Err(e) => Err(e),
            },
            Err(e) => Err(e),
        }
    }
}

proof fn lemma_error_stays(kids: Seq<Tree>, a: nat, b: nat, post: PostView, fmt: Seq<char>)
    requires
        0 < a <= b <= kids.len(),
        resolved_kids(kids, a, post, fmt) is Err,
    ensures
        resolved_kids(kids, b, post, fmt) == resolved_kids(kids, a, post, fmt),
    decreases b - a,
{
    if a < b {
        lemma_error_stays(kids, a, (b - 1) as nat, post, fmt);
    }
}

/// What a marker turns into for `post`.
fn resolve_slot(node: &Node, post: &Post, fmt: &str) -> (r: Result<Node, ResolveError>)
    requires
        is_marker(node@),
    ensures
        r matches Ok(n) ==> slot_result(node@, post@, fmt@) == Ok::<Tree, ResolveError>(n@),
        r matches Err(e) ==> slot_result(node@, post@, fmt@) == Err::<Tree, ResolveError>(e),
{
    proof {
        node.lemma_kids();
    }
    match node {
        Node::Element { attrs, .. } => {
            let kind = match find_attr(attrs, "typeset") {
                Some(v) => SlotKind::parse(v.as_str()),
                None => SlotKind::Unknown,
            };
            match kind {
                SlotKind::PageTitle => match find_attr(attrs, "content") {
                    Some(c) => {
                        let text = fill_title(c.as_str(), post.title.as_str());
                        let mut kids: Vec<Node> = Vec::new();
                        kids.push(Node::Text { text });
                        let r = Node::element(String::from_str("title"), Vec::new(), kids);
                        assert(r@->kids =~= seq![Tree::Text { text: filled(c@, post.title@) }]);
                        assert(r@->attrs =~= Seq::<(Seq<char>, Seq<char>)>::empty());
                        Ok(r)
                    },
                    None => Err(ResolveError::MissingContent),
                },
                SlotKind::Title => Ok(Node::Raw { markup: post.title.clone() }),
                SlotKind::Body => Ok(Node::Raw { markup: post.body.clone() }),
                SlotKind::Date => match format_stamp(post.published, fmt) {
                    Some(s) => Ok(Node::Raw { markup: s }),
                    None => Err(ResolveError::BadDate),
                },
                _ => Ok(node.copy()),
            }
        },
        _ => Ok(node.copy()),
    }
}

/// A fresh copy of the document `node` with every marker resolved for `post`: `page-title`
/// becomes a `title` element holding its `content` with each `$` replaced by the post's title;
/// `title`, `body` and `date` become the post's title, its body and its publication time
/// written with `fmt`, as markup; a marker of any other kind stays as it is.
#[verifier::loop_isolation(false)]
pub fn resolve(node: &Node, post: &Post, fmt: &str) -> (r: Result<Node, ResolveError>)
    ensures
        r matches Ok(n) ==> resolved(node@, post@, fmt@) == Ok::<Tree, ResolveError>(n@),
        r matches Err(e) ==> resolved(node@, post@, fmt@) == Err::<Tree, ResolveError>(e),
    decreases node,
{
    proof {
        node.lemma_kids();
    }
    match node {
        Node::Element { name, attrs, children } => {
            if same_text(name.as_str(), "meta") {
                if let Some(_) = find_attr(attrs, "typeset") {
                    return resolve_slot(node, post, fmt);
                }
            }
            let ghost kids = views(children@);
            let mut c: Vec<Node> = Vec::new();
            let mut j: usize = 0;
            assert(views(c@) =~= Seq::<Tree>::empty());
            while j < children.len()
                invariant
                    j <= children.len(),
                    c.len() == j,
                    kids == views(children@),
                    resolved_kids(kids, j as nat, post@, fmt@) == Ok::<Seq<Tree>, ResolveError>(views(c@)),
                decreases children.len() - j,
            {
                proof {
                    assert(decreases_to!(children => children[j as int]));
                }
                match resolve(&children[j], post, fmt) {
                    Ok(k) => {
                        let ghost old_c = c@;
                        c.push(k);
                        assert(views(c@) =~= views(old_c).push(k@));
                    },
                    Err(e) => {
                        proof {
                            lemma_error_stays(kids, (j + 1) as nat, kids.len(), post@, fmt@);
                        }
                        return Err(e);
                    },
                }
                j = j + 1;
            }
            let a = copy_attrs(attrs);
            Ok(Node::element(name.clone(), a, c))
        },
        _ => Ok(node.copy()),
    }
}

/// Whether a marker kind is one that a post fills in.
pub open spec fn is_post_slot(k: SlotKind) -> bool {
    k == SlotKind::PageTitle || k == SlotKind::Title || k == SlotKind::Body || k == SlotKind::Date
}

/// Whether `t` holds no marker that a post fills in (inside a marker nothing is looked at).
pub open spec fn no_open_slots(t: Tree) -> bool
    decreases t,
{
    match t {
        Tree::Elem { kids, .. } => if is_marker(t) {
            !is_post_slot(marker_kind(t))
        } else {
            forall|i: int| 0 <= i < kids.len() ==> no_open_slots(#[trigger] kids[i])
        },
        _ => true,
    }
}

/// A document resolved for a post holds no `page-title`, `title`, `body` or `date` marker.
pub proof fn lemma_resolved_has_no_open_slots(t: Tree, post: PostView, fmt: Seq<char>)
    requires
        resolved(t, post, fmt) is Ok,
    ensures
        no_open_slots(resolved(t, post, fmt)->Ok_0),
    decreases t, 0nat,
{
    match t {
        Tree::Elem { name, attrs, kids } => {
            if is_marker(t) {
                let u = resolved(t, post, fmt)->Ok_0;
                if marker_kind(t) == SlotKind::PageTitle {
                    assert(!is_marker(u) ==> forall|i: int| 0 <= i < u->kids.len() ==> no_open_slots(#[trigger] u->kids[i]));
                }
            } else {
                lemma_resolved_kids_open(kids, kids.len(), post, fmt);
            }
        },
        _ => {},
    }
}

proof fn lemma_resolved_kids_open(kids: Seq<Tree>, n: nat, post: PostView, fmt: Seq<char>)
    requires
        resolved_kids(kids, n, post, fmt) is Ok,
    ensures
        resolved_kids(kids, n, post, fmt)->Ok_0.len() == if n <= kids.len() { n } else { 0 },
        forall|i: int|
            0 <= i < resolved_kids(kids, n, post, fmt)->Ok_0.len() ==> no_open_slots(
                #[trigger] resolved_kids(kids, n, post, fmt)->Ok_0[i],
            ),
    decreases kids, n,
{
    if n == 0 || n > kids.len() {
    } else {
        lemma_resolved_kids_open(kids, (n - 1) as nat, post, fmt);
        lemma_resolved_has_no_open_slots(kids[n - 1], post, fmt);
        let k = resolved_kids(kids, (n - 1) as nat, post, fmt)->Ok_0;
        let x = resolved(kids[n - 1], post, fmt)->Ok_0;
        assert(resolved_kids(kids, n, post, fmt)->Ok_0 == k.push(x));
        assert forall|i: int| 0 <= i < k.push(x).len() implies no_open_slots(#[trigger] k.push(x)[i]) by {
            if i < k.len() {
                assert(k.push(x)[i] == k[i]);
            }
        }
    }
}

} // verus!
