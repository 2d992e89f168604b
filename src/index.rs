use vstd::prelude::*;
use crate::depth::{count_of, parse_count};
use crate::posts::{Post, PostView};
use crate::resolve::is_marker;
use crate::tree::{at, attr_of, copy_attrs, find_attr, ints, put, same_text, views, Node, Tree};

verus! {

/// A list marker: a `meta` element whose `typeset` attribute is `index-entry`.
pub open spec fn is_entry(t: Tree) -> bool {
    is_marker(t) && attr_of(t->attrs, "typeset"@) == Some("index-entry"@)
}

/// The path to the first list marker of `t` in document order.
pub open spec fn entry_path(t: Tree) -> Option<Seq<int>>
    decreases t, 0nat,
{
    if is_entry(t) {
        Some(Seq::empty())
    } else {
        match t {
            Tree::Elem { kids, .. } => entry_path_in(kids, kids.len()),
            _ => None,
        }
    }
}

/// The path (from the parent) to the first list marker among the last `n` children of `kids`.
pub open spec fn entry_path_in(kids: Seq<Tree>, n: nat) -> Option<Seq<int>>
    decreases kids, n,
{
    if n == 0 || n > kids.len() {
        None
    } else {
        let i = kids.len() - n;
        match entry_path(kids[i]) {
            Some(p) => Some(seq![i] + p),
            None => entry_path_in(kids, (n - 1) as nat),
        }
    }
}

/// The number of list markers in `t`.
pub open spec fn entry_count(t: Tree) -> nat
    decreases t, 0nat,
{
    if is_entry(t) {
        1
    } else {
        match t {
            Tree::Elem { kids, .. } => entry_count_in(kids, kids.len()),
            _ => 0,
        }
    }
}

/// The number of list markers in the first `n` children of `kids`.
pub open spec fn entry_count_in(kids: Seq<Tree>, n: nat) -> nat
    decreases kids, n,
{
    if n == 0 || n > kids.len() {
        0
    } else {
        entry_count_in(kids, (n - 1) as nat) + entry_count(kids[n - 1])
    }
}

/// The number of parent edges from a list marker up to its repeating unit: the count in
/// its `content` attribute, or zero where that is absent or no count.
pub open spec fn unit_depth(t: Tree) -> nat {
    match t {
        Tree::Elem { attrs, .. } => match attr_of(attrs, "content"@) {
            Some(c) => match count_of(c) {
                Some(v) => v,
                None => 0,
            },
            None => 0,
        },
        _ => 0,
    }
}

/// The link that stands for `post` in a listing.
pub open spec fn anchor(post: PostView) -> Seq<char> {
    "<a href=\"./"@ + post.id + ".html\">"@ + post.title + "</a>\n"@
}

/// One copy of `unit` per post, with the node at `rest` replaced by the post's link.
pub open spec fn entries(unit: Tree, rest: Seq<int>, posts: Seq<PostView>) -> Seq<Tree> {
    Seq::new(posts.len(), |j: int| put(unit, rest, Tree::Raw { markup: anchor(posts[j]) }))
}

/// `t` with the list whose marker is at `p` expanded: the unit `n` levels above the marker
/// is taken out of its parent, and one copy of it per post, in the order of `posts`, is
/// appended to that parent. `None` where the unit would lie above the root's children.
pub open spec fn expanded(t: Tree, p: Seq<int>, n: nat, posts: Seq<PostView>) -> Option<Tree> {
    if n + 1 > p.len() {
        None
    } else {
        let q = p.subrange(0, p.len() - n - 1);
        let k = p[p.len() - n - 1];
        let rest = p.subrange(p.len() - n, p.len() as int);
        match at(t, q) {
            Some(Tree::Elem { name, attrs, kids }) => if 0 <= k < kids.len() {
                Some(
                    put(
                        t,
                        q,
                        Tree::Elem { name, attrs, kids: kids.remove(k) + entries(kids[k], rest, posts) },
                    ),
                )
            } else {
                None
            },
            _ => None,
        }
    }
}

/// Whether `node` is a list marker.
pub fn is_entry_node(node: &Node) -> (r: bool)
    ensures
        r == is_entry(node@),
{
    proof {
        node.lemma_kids();
    }
    match node {
        Node::Element { name, attrs, .. } => {
            if !same_text(name.as_str(), "meta") {
                return false;
            }
            match find_attr(attrs, "typeset") {
                Some(v) => same_text(v.as_str(), "index-entry"),
                None => false,
            }
        },
        _ => false,
    }
}

proof fn lemma_path_in_none(kids: Seq<Tree>, n: nat)
    requires
        n <= kids.len(),
        forall|i: int| kids.len() - n <= i < kids.len() ==> entry_path(#[trigger] kids[i]) is None,
    ensures
        entry_path_in(kids, n) is None,
    decreases n,
{
    if n > 0 {
        lemma_path_in_none(kids, (n - 1) as nat);
    }
}

/// Appends to `path` the positions that lead from `node` to its first list marker in
/// document order; `false`, with `path` unchanged, where `node` holds none.
#[verifier::loop_isolation(false)]
pub fn find_entry(node: &Node, path: &mut Vec<usize>) -> (found: bool)
    ensures
        found == entry_path(node@) is Some,
        found ==> ints(final(path)@) == ints(old(path)@) + entry_path(node@)->0,
        !found ==> final(path)@ == old(path)@,
    decreases node,
{
    proof {
        node.lemma_kids();
    }
    if is_entry_node(node) {
        assert(ints(path@) =~= ints(path@) + Seq::<int>::empty());
        return true;
    }
    match node {
        Node::Element { children, .. } => {
            let ghost kids = views(children@);
            let mut j: usize = 0;
            while j < children.len()
                invariant
                    j <= children.len(),
                    kids == views(children@),
                    path@ == old(path)@,
                    forall|i: int| 0 <= i < j ==> entry_path(#[trigger] kids[i]) is None,
                decreases children.len() - j,
            {
                proof {
                    assert(decreases_to!(children => children[j as int]));
                }
                path.push(j);
                if find_entry(&children[j], path) {
                    proof {
                        assert(kids[j as int] == children@[j as int]@);
                        assert(node@->kids == kids);
                        assert(entry_path(node@) == entry_path_in(kids, kids.len() as nat));
                        let p = entry_path(kids[j as int])->0;
                        lemma_path_in_none_prefix(kids, j as int);
                        assert(entry_path_in(kids, (kids.len() - j) as nat) == Some(seq![j as int] + p));
                        assert(ints(old(path)@.push(j)) =~= ints(old(path)@) + seq![j as int]);
                        assert(ints(path@) =~= ints(old(path)@) + (seq![j as int] + p));
                    }
                    return true;
                }
                path.pop();
                assert(path@ =~= old(path)@);
                j = j + 1;
            }
            proof {
                lemma_path_in_none(kids, kids.len());
                assert(node@->kids == kids);
            }
            false
        },
        _ => false,
    }
}

proof fn lemma_path_in_none_prefix(kids: Seq<Tree>, j: int)
    requires
        0 <= j < kids.len(),
        forall|i: int| 0 <= i < j ==> entry_path(#[trigger] kids[i]) is None,
    ensures
        entry_path_in(kids, kids.len() as nat) == entry_path_in(kids, (kids.len() - j) as nat),
    decreases j,
{
    if j > 0 {
        lemma_path_in_none_prefix(kids, j - 1);
    }
}

/// The number of list markers in `node`, or `usize::MAX` where there are more.
#[verifier::loop_isolation(false)]
pub fn count_entries(node: &Node) -> (r: usize)
    ensures
        r == if entry_count(node@) > usize::MAX { usize::MAX as nat } else { entry_count(node@) },
    decreases node,
{
    proof {
        node.lemma_kids();
    }
    if is_entry_node(node) {
        return 1;
    }
    match node {
        Node::Element { children, .. } => {
            let ghost kids = views(children@);
            let mut total: usize = 0;
            let mut j: usize = 0;
            while j < children.len()
                invariant
                    j <= children.len(),
                    kids == views(children@),
                    total == if entry_count_in(kids, j as nat) > usize::MAX {
                        usize::MAX as nat
                    } else {
                        entry_count_in(kids, j as nat)
                    },
                decreases children.len() - j,
            {
                proof {
                    assert(decreases_to!(children => children[j as int]));
                }
                let c = count_entries(&children[j]);
                total = total.saturating_add(c);
                j = j + 1;
            }
            total
        },
        _ => 0,
    }
}

/// Why the index could not be built.
#[derive(Clone, Copy, Debug, PartialEq, Eq, Structural)]
pub enum IndexError {
    /// A list marker names a unit above the children of the document's root.
    DepthOutOfRange,
}

pub open spec fn post_views(s: Seq<Post>) -> Seq<PostView> {
    s.map_values(|p: Post| p@)
}

/// The node that links to `post` in a listing.
pub fn anchor_node(post: &Post) -> (r: Node)
    ensures
        r@ == (Tree::Raw { markup: anchor(post@) }),
{
    let mut s = String::from_str("<a href=\"./");
    s.append(post.id.as_str());
    s.append(".html\">");
    s.append(post.title.as_str());
    s.append("</a>\n");
    Node::Raw { markup: s }
}

/// The positions `p[from..to]`.
fn slice_path(p: &Vec<usize>, from: usize, to: usize) -> (r: Vec<usize>)
    requires
        from <= to <= p.len(),
    ensures
        ints(r@) == ints(p@).subrange(from as int, to as int),
{
    let mut r: Vec<usize> = Vec::new();
    let mut i: usize = from;
    while i < to
        invariant
            from <= i <= to,
            to <= p.len(),
            r@ == p@.subrange(from as int, i as int),
        decreases to - i,
    {
        r.push(p[i]);
        assert(r@ =~= p@.subrange(from as int, i + 1));
        i = i + 1;
    }
    assert(ints(r@) =~= ints(p@).subrange(from as int, to as int));
    r
}

/// `doc` with the list whose marker is at `p` expanded for `posts`: the unit `n` levels
/// above the marker is taken out of its parent, and one copy of it per post, in the order
/// of `posts`, is appended to that parent, with the node at the marker's place in the copy
/// replaced by a link to the post.
///
/// The marker's place in each copy is found by the child positions that lead from the unit
/// to the marker itself, so a unit that branches on the way down still gets its link at the
/// marker; and it is the unit that is taken out, wherever it stands among its siblings.
pub fn expand_list(doc: Node, p: &Vec<usize>, n: usize, posts: &Vec<Post>) -> (r: Result<Node, IndexError>)
    ensures
        match expanded(doc@, ints(p@), n as nat, post_views(posts@)) {
            Some(t) => r matches Ok(d) && d@ == t,
            None => r == Err::<Node, IndexError>(IndexError::DepthOutOfRange),
        },
{
    if n >= p.len() {
        return Err(IndexError::DepthOutOfRange);
    }
    let cut = p.len() - n - 1;
    let q = slice_path(p, 0, cut);
    let k = p[cut];
    let rest = slice_path(p, cut + 1, p.len());
    let ghost pv = post_views(posts@);
    assert(ints(q@).skip(0) =~= ints(q@));
    assert(ints(p@)[cut as int] == k as int);
    let parent = match doc.get_at(&q, 0) {
        Some(x) => x,
        None => {
            return Err(IndexError::DepthOutOfRange);
        },
    };
    proof {
        parent.lemma_kids();
    }
    match parent {
        Node::Element { name, attrs, children } => {
            if k >= children.len() {
                return Err(IndexError::DepthOutOfRange);
            }
            let ghost old_kids = views(children@);
            let ghost unit = old_kids[k as int];
            let ghost target = old_kids.remove(k as int) + entries(unit, ints(rest@), pv);
            let mut kids: Vec<Node> = Vec::new();
            let mut i: usize = 0;
            while i < children.len()
                invariant
                    i <= children.len(),
                    k < children.len(),
                    old_kids == views(children@),
                    kids.len() == if i <= k { i as int } else { i - 1 },
                    forall|j: int| 0 <= j < kids.len() ==> (#[trigger] kids[j])@ == old_kids.remove(k as int)[j],
                decreases children.len() - i,
            {
                if i != k {
                    kids.push(children[i].copy());
                }
                i = i + 1;
            }
            let mut j: usize = 0;
            while j < posts.len()
                invariant
                    j <= posts.len(),
                    k < children.len(),
                    old_kids == views(children@),
                    unit == children[k as int]@,
                    pv == post_views(posts@),
                    kids.len() == children.len() - 1 + j,
                    forall|m: int| 0 <= m < kids.len() ==> (#[trigger] kids[m])@ == target[m],
                    target == old_kids.remove(k as int) + entries(unit, ints(rest@), pv),
                decreases posts.len() - j,
            {
                let e = children[k].copy().put_at(&rest, 0, anchor_node(&posts[j]));
                assert(ints(rest@).skip(0) =~= ints(rest@));
                kids.push(e);
                j = j + 1;
            }
            assert(views(kids@) =~= target);
            let new_parent = Node::element(name.clone(), copy_attrs(attrs), kids);
            Ok(doc.put_at(&q, 0, new_parent))
        },
        _ => Err(IndexError::DepthOutOfRange),
    }
}

/// `t` after expanding, at most `fuel` times, the first list marker that remains.
pub open spec fn expand_all(t: Tree, posts: Seq<PostView>, fuel: nat) -> Result<Tree, IndexError>
    decreases fuel,
{
    if fuel == 0 {
        Ok(t)
    } else {
        match entry_path(t) {
            None => Ok(t),
            Some(p) => match at(t, p) {
                Some(m) => match expanded(t, p, unit_depth(m), posts) {
                    Some(t2) => expand_all(t2, posts, (fuel - 1) as nat),
                    None => Err(IndexError::DepthOutOfRange),
                },
                None => Ok(t),
            },
        }
    }
}

/// The number of lists that the index document `t` holds, capped at `usize::MAX`.
pub open spec fn list_budget(t: Tree) -> nat {
    if entry_count(t) > usize::MAX {
        usize::MAX as nat
    } else {
        entry_count(t)
    }
}

/// The index document `doc` with each of its lists expanded for `posts`, in document
/// order: for each list marker, its unit is replaced by one entry per post, in the order of
/// `posts`, each linking to its post.
pub fn expand_index(doc: Node, posts: &Vec<Post>) -> (r: Result<Node, IndexError>)
    ensures
        match expand_all(doc@, post_views(posts@), list_budget(doc@)) {
            Ok(t) => r matches Ok(d) && d@ == t,
            Err(e) => r == Err::<Node, IndexError>(e),
        },
{
    let ghost pv = post_views(posts@);
    let ghost goal = expand_all(doc@, pv, list_budget(doc@));
    let fuel = count_entries(&doc);
    let mut cur = doc;
    let mut left: usize = fuel;
    while left > 0
        invariant
            pv == post_views(posts@),
            expand_all(cur@, pv, left as nat) == goal,
            goal == expand_all(doc@, pv, list_budget(doc@)),
        decreases left,
    {
        let mut path: Vec<usize> = Vec::new();
        if !find_entry(&cur, &mut path) {
            assert(expand_all(cur@, pv, left as nat) == Ok::<Tree, IndexError>(cur@));
            return Ok(cur);
        }
        assert(ints(Seq::<usize>::empty()) =~= Seq::<int>::empty());
        assert(ints(path@) =~= entry_path(cur@)->0);
        assert(ints(path@).skip(0) =~= ints(path@));
        let marker = match cur.get_at(&path, 0) {
            Some(x) => x,
            None => {
                assert(expand_all(cur@, pv, left as nat) == Ok::<Tree, IndexError>(cur@));
                return Ok(cur);
            },
        };
        proof {
            marker.lemma_kids();
        }
        let n = match marker {
            Node::Element { attrs, .. } => match find_attr(attrs, "content") {
                Some(c) => match parse_count(c.as_str()) {
                    Some(v) => v,
                    None => 0,
                },
                None => 0,
            },
            _ => 0,
        };
        assert(n == unit_depth(marker@));
        cur = match expand_list(cur, &path, n, posts) {
            Ok(d) => d,
            Err(e) => {
                return Err(e);
            },
        };
        left = left - 1;
    }
    Ok(cur)
}

/// With no posts, expanding a list takes its unit out and adds nothing in its place.
pub proof fn lemma_no_posts_empties_list(t: Tree, p: Seq<int>, n: nat)
    requires
        n + 1 <= p.len(),
        at(t, p.subrange(0, p.len() - n - 1)) matches Some(Tree::Elem { kids, .. })
            && 0 <= p[p.len() - n - 1] < kids.len(),
    ensures
        ({
            let q = p.subrange(0, p.len() - n - 1);
            let parent = at(t, q)->0;
            expanded(t, p, n, Seq::empty()) == Some(
                put(
                    t,
                    q,
                    Tree::Elem {
                        name: parent->name,
                        attrs: parent->attrs,
                        kids: parent->kids.remove(p[p.len() - n - 1]),
                    },
                ),
            )
        }),
{
    let q = p.subrange(0, p.len() - n - 1);
    let parent = at(t, q)->0;
    let k = p[p.len() - n - 1];
    let rest = p.subrange(p.len() - n, p.len() as int);
    assert(parent->kids.remove(k) + entries(parent->kids[k], rest, Seq::empty()) =~= parent->kids.remove(k));
}

/// Expanding a list puts one entry per post after the unit's former siblings, in the order
/// of `posts`, the entry of post `j` being the unit with the post's link at the marker's place.
pub proof fn lemma_entries_follow_posts(t: Tree, p: Seq<int>, n: nat, posts: Seq<PostView>, j: int)
    requires
        n + 1 <= p.len(),
        at(t, p.subrange(0, p.len() - n - 1)) matches Some(Tree::Elem { kids, .. })
            && 0 <= p[p.len() - n - 1] < kids.len(),
        0 <= j < posts.len(),
    ensures
        ({
            let q = p.subrange(0, p.len() - n - 1);
            let parent = at(t, q)->0;
            let k = p[p.len() - n - 1];
            let rest = p.subrange(p.len() - n, p.len() as int);
            let kids2 = parent->kids.remove(k) + entries(parent->kids[k], rest, posts);
            &&& kids2.len() == parent->kids.len() - 1 + posts.len()
            &&& kids2[parent->kids.len() - 1 + j] == put(
                parent->kids[k],
                rest,
                Tree::Raw { markup: anchor(posts[j]) },
            )
        }),
{
}

} // verus!
