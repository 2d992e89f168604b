use vstd::prelude::*;

verus! {

/// A point in time: whole seconds since the Unix epoch and a nanosecond part.
#[derive(Clone, Copy, Debug, PartialEq, Eq, Structural)]
pub struct Stamp {
    pub secs: i64,
    pub nanos: u32,
}

/// Whether `a` lies strictly after `b`.
pub open spec fn later(a: Stamp, b: Stamp) -> bool {
    a.secs > b.secs || (a.secs == b.secs && a.nanos > b.nanos)
}

/// A post ready for publishing.
pub struct Post {
    pub id: String,
    pub title: String,
    pub body: String,
    pub published: Stamp,
}

pub struct PostView {
    pub id: Seq<char>,
    pub title: Seq<char>,
    pub body: Seq<char>,
    pub published: Stamp,
}

impl Post {
    pub open spec fn view(&self) -> PostView {
        PostView { id: self.id@, title: self.title@, body: self.body@, published: self.published }
    }

    /// An independent copy of the post.
    pub fn copy(&self) -> (r: Post)
        ensures
            r@ == self@,
    {
        Post {
            id: self.id.clone(),
            title: self.title.clone(),
            body: self.body.clone(),
            published: self.published,
        }
    }
}

/// Whether `Stamp` `a` is later than `b`, as an executable test.
pub fn is_later(a: Stamp, b: Stamp) -> (r: bool)
    ensures
        r == later(a, b),
{
    a.secs > b.secs || (a.secs == b.secs && a.nanos > b.nanos)
}

/// Whether the post at position `a` of `s` comes before the one at `b` in the listing:
/// newer first, and in their original order where published at the same time.
pub open spec fn goes_before(s: Seq<Post>, a: int, b: int) -> bool {
    later(s[a].published, s[b].published) || (s[a].published == s[b].published && a < b)
}

/// `ord` lists every position of `s` once, in listing order.
pub open spec fn is_listing_order(s: Seq<Post>, ord: Seq<int>) -> bool {
    &&& ord.len() == s.len()
    &&& forall|i: int| 0 <= i < ord.len() ==> 0 <= #[trigger] ord[i] < s.len()
    &&& ord.no_duplicates()
    &&& forall|i: int, j: int| 0 <= i < j < ord.len() ==> goes_before(s, #[trigger] ord[i], #[trigger] ord[j])
}

proof fn lemma_goes_before_transitive(s: Seq<Post>, a: int, b: int, c: int)
    requires
        goes_before(s, a, b),
        goes_before(s, b, c),
    ensures
        goes_before(s, a, c),
{
}

/// The positions of `posts` in listing order: newest first, ties in their original order.
pub fn listing_order(posts: &Vec<Post>) -> (r: Vec<usize>)
    ensures
        is_listing_order(posts@, r@.map_values(|x: usize| x as int)),
{
    let mut r: Vec<usize> = Vec::new();
    let mut i: usize = 0;
    while i < posts.len()
        invariant
            i <= posts.len(),
            r.len() == i,
            forall|a: int| 0 <= a < r.len() ==> #[trigger] r[a] < i,
            r@.no_duplicates(),
            forall|a: int, b: int|
                0 <= a < b < r.len() ==> goes_before(posts@, #[trigger] r[a] as int, #[trigger] r[b] as int),
        decreases posts.len() - i,
    {
        let mut pos: usize = 0;
        while pos < r.len() && !is_later(posts[i].published, posts[r[pos]].published)
            invariant
                pos <= r.len(),
                i < posts.len(),
                forall|a: int| 0 <= a < r.len() ==> #[trigger] r[a] < i,
                forall|a: int| 0 <= a < pos ==> !later(posts@[i as int].published, posts@[#[trigger] r[a] as int].published),
            decreases r.len() - pos,
        {
            pos = pos + 1;
        }
        let ghost old_r = r@;
        r.insert(pos, i);
        proof {
            assert(r@ == old_r.insert(pos as int, i));
            assert forall|a: int, b: int| 0 <= a < b < r.len() implies goes_before(posts@, #[trigger] r[a] as int, #[trigger] r[b] as int) by {
                if b < pos {
                } else if b == pos {
                } else if a < pos {
                } else if a == pos {
                    if b - 1 > pos {
                        lemma_goes_before_transitive(posts@, i as int, old_r[pos as int] as int, old_r[b - 1] as int);
                    }
                } else {
                }
            }
            assert forall|a: int, b: int| 0 <= a < b < r.len() implies r[a] != r[b] by {
                if a == pos {
                    assert(r[b] == old_r[b - 1]);
                } else if b == pos {
                } else {
                }
            }
        }
        i = i + 1;
    }
    proof {
        let m = r@.map_values(|x: usize| x as int);
        assert forall|a: int, b: int| 0 <= a < b < m.len() implies goes_before(posts@, #[trigger] m[a], #[trigger] m[b]) by {
            assert(goes_before(posts@, r[a] as int, r[b] as int));
        }
        assert forall|a: int, b: int| 0 <= a < m.len() && 0 <= b < m.len() && a != b implies m[a] != m[b] by {
            assert(r[a] != r[b]);
        }
    }
    r
}

/// The posts in listing order: newest first, ties in their original order.
pub fn sort_posts(posts: &Vec<Post>) -> (r: Vec<Post>)
    ensures
        exists|ord: Seq<int>|
            is_listing_order(posts@, ord) && r@.len() == ord.len() && forall|i: int|
                0 <= i < ord.len() ==> (#[trigger] r@[i])@ == posts@[ord[i]]@,
{
    let ord = listing_order(posts);
    let ghost m = ord@.map_values(|x: usize| x as int);
    let mut r: Vec<Post> = Vec::new();
    let mut i: usize = 0;
    while i < ord.len()
        invariant
            i <= ord.len(),
            is_listing_order(posts@, m),
            m == ord@.map_values(|x: usize| x as int),
            r.len() == i,
            forall|k: int| 0 <= k < i ==> (#[trigger] r@[k])@ == posts@[m[k]]@,
        decreases ord.len() - i,
    {
        assert(m[i as int] == ord[i as int] as int);
        r.push(posts[ord[i]].copy());
        i = i + 1;
    }
    r
}

/// In a listing order, two posts published at the same time keep their original order.
pub proof fn lemma_ties_keep_order(s: Seq<Post>, ord: Seq<int>, i: int, j: int)
    requires
        is_listing_order(s, ord),
        0 <= i < j < ord.len(),
        s[ord[i]].published == s[ord[j]].published,
    ensures
        ord[i] < ord[j],
{
    assert(goes_before(s, ord[i], ord[j]));
}

/// In a listing order, no post comes after one published later.
pub proof fn lemma_newest_first(s: Seq<Post>, ord: Seq<int>, i: int, j: int)
    requires
        is_listing_order(s, ord),
        0 <= i < j < ord.len(),
    ensures
        !later(s[ord[j]].published, s[ord[i]].published),
{
    assert(goes_before(s, ord[i], ord[j]));
}

} // verus!
