use vstd::prelude::*;
use crate::html::{chars_of, document_html, document_markup};
use crate::index::{expand_all, expand_index, list_budget, post_views, IndexError};
use crate::posts::{is_listing_order, sort_posts, Post, PostView, Stamp};
use crate::resolve::{is_marker, is_post_slot, marker_kind, resolve, resolved, ResolveError};
use crate::slots::SlotKind;
use crate::tree::{find_attr, same_text};
use crate::tree::{views, Node, Tree};

verus! {

/// The HTML that the `markdown` crate renders for the markdown text `md` (CommonMark).
pub uninterp spec fn markdown_html(md: Seq<char>) -> Seq<char>;

/// The instant, as seconds since the Unix epoch and nanoseconds, that chrono reads from
/// `text` as a naive date and time under the format string `fmt`; `None` where it reads none.
pub uninterp spec fn parsed_time(text: Seq<char>, fmt: Seq<char>) -> Option<(i64, u32)>;

/// Whether the regular expression `pattern` matches somewhere in `name`; `None` where
/// `pattern` is no valid regular expression.
pub uninterp spec fn regex_found(pattern: Seq<char>, name: Seq<char>) -> Option<bool>;

/// Relies on `markdown::to_html`, which renders CommonMark and cannot fail with its default
/// options.
#[verifier::external_body]
fn render_markdown(md: &str) -> (r: String)
    ensures
        r@ == markdown_html(md@),
{
    markdown::to_html(md)
}

/// Relies on chrono's `NaiveDateTime::parse_from_str`, read back as a UTC timestamp.
#[verifier::external_body]
fn parse_time(text: &str, fmt: &str) -> (r: Option<Stamp>)
    ensures
        r matches Some(t) ==> parsed_time(text@, fmt@) == Some((t.secs, t.nanos)),
        r is None ==> parsed_time(text@, fmt@) is None,
{
    match chrono::NaiveDateTime::parse_from_str(text, fmt) {
        Ok(d) => Some(Stamp { secs: d.and_utc().timestamp(), nanos: d.and_utc().timestamp_subsec_nanos() }),
        Err(_) => None,
    }
}

/// Relies on `regex::Regex::new` and `Regex::is_match`.
#[verifier::external_body]
fn regex_matches(pattern: &str, name: &str) -> (r: Option<bool>)
    ensures
        r == regex_found(pattern@, name@),
{
    match regex::Regex::new(pattern) {
        Ok(re) => Some(re.is_match(name)),
        Err(_) => None,
    }
}

/// Why a post file could not be read into a post.
#[derive(Clone, Copy, Debug, PartialEq, Eq, Structural)]
pub enum PostError {
    /// The file has no blank line between its front matter and its body.
    NoBody,
    /// The publication date does not match the time format.
    BadDate,
}

/// Whether `i` is the position of the first blank line break in `s`.
pub open spec fn is_first_break(s: Seq<char>, i: int) -> bool {
    &&& 0 <= i && i + 1 < s.len() && s[i] == '\n' && s[i + 1] == '\n'
    &&& forall|j: int| 0 <= j < i ==> !(#[trigger] s[j] == '\n' && s[j + 1] == '\n')
}

/// Splits the text of a post file at its first blank line into the front matter and the
/// markdown body; `None` where the text has no blank line.
pub fn split_post(content: &str) -> (r: Option<(String, String)>)
    ensures
        r is None <==> forall|i: int|
            0 <= i && i + 1 < content@.len() ==> !(#[trigger] content@[i] == '\n' && content@[i + 1] == '\n'),
        r matches Some((head, body)) ==> exists|i: int|
            #[trigger] is_first_break(content@, i) && head@ == content@.subrange(0, i) && body@ == content@.subrange(
                i + 2,
                content@.len() as int,
            ),
{
    let cs = chars_of(content);
    let n = cs.len();
    let mut i: usize = 0;
    while n > 0 && i < n - 1
        invariant
            cs@ == content@,
            n == cs.len(),
            forall|j: int| 0 <= j < i && j + 1 < n ==> !(#[trigger] cs@[j] == '\n' && cs@[j + 1] == '\n'),
        decreases n - i,
    {
        if cs[i] == '\n' && cs[i + 1] == '\n' {
            let head = content.substring_char(0, i);
            let body = content.substring_char(i + 2, n);
            assert(is_first_break(content@, i as int));
            return Some((head.to_owned(), body.to_owned()));
        }
        i = i + 1;
    }
    None
}

/// A post from its file's stem `id`, the title and the publication date of its front matter,
/// and its markdown body: the body is rendered to HTML and the date read with `fmt`.
pub fn make_post(id: String, title: String, published: &str, body_md: &str, fmt: &str) -> (r: Result<Post, PostError>)
    ensures
        r is Err <==> parsed_time(published@, fmt@) is None,
        r matches Err(e) ==> e == PostError::BadDate,
        r matches Ok(p) ==> p.id@ == id@ && p.title@ == title@ && p.body@ == markdown_html(body_md@)
            && parsed_time(published@, fmt@) == Some((p.published.secs, p.published.nanos)),
{
    match parse_time(published, fmt) {
        Some(t) => Ok(Post { id, title, body: render_markdown(body_md), published: t }),
        None => Err(PostError::BadDate),
    }
}

/// The names among `names` that the regular expression `pattern` matches, in their order;
/// `None` where `pattern` is invalid.
pub fn select_inputs(pattern: &str, names: &Vec<String>) -> (r: Option<Vec<String>>)
    ensures
        r is None ==> exists|i: int| 0 <= i < names.len() && regex_found(pattern@, (#[trigger] names[i])@) is None,
        r is Some ==> forall|i: int| 0 <= i < names.len() ==> regex_found(pattern@, (#[trigger] names[i])@) is Some,
        r matches Some(v) ==> v@.map_values(|s: String| s@) == names@.map_values(|s: String| s@).filter(
            |s: Seq<char>| regex_found(pattern@, s) == Some(true),
        ),
{
    let ghost all = names@.map_values(|s: String| s@);
    let ghost keep = |s: Seq<char>| regex_found(pattern@, s) == Some(true);
    let mut out: Vec<String> = Vec::new();
    let mut i: usize = 0;
    while i < names.len()
        invariant
            i <= names.len(),
            all == names@.map_values(|s: String| s@),
            keep == (|s: Seq<char>| regex_found(pattern@, s) == Some(true)),
            forall|k: int| 0 <= k < i ==> regex_found(pattern@, (#[trigger] names[k])@) is Some,
            out@.map_values(|s: String| s@) == all.subrange(0, i as int).filter(keep),
        decreases names.len() - i,
    {
        let ghost before = out@;
        match regex_matches(pattern, names[i].as_str()) {
            Some(true) => {
                out.push(names[i].clone());
            },
            Some(false) => {},
            None => {
                return None;
            },
        }
        proof {
            let pre = all.subrange(0, i as int);
            let nxt = all.subrange(0, i + 1);
            assert(nxt.drop_last() =~= pre);
            reveal(Seq::filter);
            assert(out@.map_values(|s: String| s@) =~= nxt.filter(keep));
        }
        i = i + 1;
    }
    assert(all.subrange(0, names.len() as int) =~= all);
    Some(out)
}

/// The text of the page for `post`: a fresh copy of `template` with its markers resolved.
pub fn render_post(template: &Node, post: &Post, fmt: &str) -> (r: Result<String, ResolveError>)
    ensures
        r matches Ok(s) ==> resolved(template@, post@, fmt@) matches Ok(t) && s@ == document_markup(t),
        r matches Err(e) ==> resolved(template@, post@, fmt@) == Err::<Tree, ResolveError>(e),
{
    match resolve(template, post, fmt) {
        Ok(doc) => Ok(document_html(&doc)),
        Err(e) => Err(e),
    }
}

/// The text of one page per post, in the order of `posts`; the first error, in the order of
/// `posts`, where a page cannot be made.
pub fn render_posts(template: &Node, posts: &Vec<Post>, fmt: &str) -> (r: Result<Vec<String>, ResolveError>)
    ensures
        r matches Ok(v) ==> v.len() == posts.len() && forall|i: int|
            0 <= i < posts.len() ==> (resolved(template@, (#[trigger] posts[i])@, fmt@) matches Ok(t)
                && v[i]@ == document_markup(t)),
        r matches Err(e) ==> exists|i: int|
            0 <= i < posts.len() && resolved(template@, (#[trigger] posts[i])@, fmt@) == Err::<Tree, ResolveError>(e),
        r is Err <==> exists|i: int| 0 <= i < posts.len() && resolved(template@, (#[trigger] posts[i])@, fmt@) is Err,
{
    let mut out: Vec<String> = Vec::new();
    let mut i: usize = 0;
    while i < posts.len()
        invariant
            i <= posts.len(),
            out.len() == i,
            forall|k: int|
                0 <= k < i ==> (resolved(template@, (#[trigger] posts[k])@, fmt@) matches Ok(t) && out[k]@
                    == document_markup(t)),
        decreases posts.len() - i,
    {
        match render_post(template, &posts[i], fmt) {
            Ok(s) => {
                out.push(s);
            },
            Err(e) => {
                return Err(e);
            },
        }
        i = i + 1;
    }
    Ok(out)
}

/// The number of markers in `t` whose kind no post fills in, each of which is reported.
pub open spec fn unknown_count(t: Tree) -> nat
    decreases t, 0nat,
{
    match t {
        Tree::Elem { kids, .. } => if is_marker(t) {
            if is_post_slot(marker_kind(t)) {
                0
            } else {
                1
            }
        } else {
            unknown_count_in(kids, kids.len())
        },
        _ => 0,
    }
}

/// The number of such markers in the first `n` children of `kids`.
pub open spec fn unknown_count_in(kids: Seq<Tree>, n: nat) -> nat
    decreases kids, n,
{
    if n == 0 || n > kids.len() {
        0
    } else {
        unknown_count_in(kids, (n - 1) as nat) + unknown_count(kids[n - 1])
    }
}

/// Whether `node` is a marker whose kind no post fills in.
fn is_unknown_marker(node: &Node) -> (r: bool)
    ensures
        r == (is_marker(node@) && !is_post_slot(marker_kind(node@))),
{
    proof {
        node.lemma_kids();
    }
    match node {
        Node::Element { name, attrs, .. } => {
            if !same_text(name.as_str(), "meta") {
                return false;
            }
            match find_attr(attrs, "typeset") {
                Some(v) => {
                    let k = SlotKind::parse(v.as_str());
                    !(k == SlotKind::PageTitle || k == SlotKind::Title || k == SlotKind::Body || k
                        == SlotKind::Date)
                },
                None => false,
            }
        },
        _ => false,
    }
}

/// The number of markers in `node` whose kind no post fills in (each one is left in the
/// pages as it is, and is worth a warning), or `usize::MAX` where there are more.
#[verifier::loop_isolation(false)]
pub fn count_unknown(node: &Node) -> (r: usize)
    ensures
        r == if unknown_count(node@) > usize::MAX { usize::MAX as nat } else { unknown_count(node@) },
    decreases node,
{
    proof {
        node.lemma_kids();
    }
    if is_unknown_marker(node) {
        return 1;
    }
    match node {
        Node::Element { name, attrs, children } => {
            if same_text(name.as_str(), "meta") {
                if let Some(_) = find_attr(attrs, "typeset") {
                    return 0;
                }
            }
            let ghost kids = views(children@);
            let mut total: usize = 0;
            let mut j: usize = 0;
            while j < children.len()
                invariant
                    j <= children.len(),
                    kids == views(children@),
                    total == if unknown_count_in(kids, j as nat) > usize::MAX {
                        usize::MAX as nat
                    } else {
                        unknown_count_in(kids, j as nat)
                    },
                decreases children.len() - j,
            {
                proof {
                    assert(decreases_to!(children => children[j as int]));
                }
                let c = count_unknown(&children[j]);
                total = total.saturating_add(c);
                j = j + 1;
            }
            total
        },
        _ => 0,
    }
}

/// The posts of `s` in the order `ord`.
pub open spec fn listing(s: Seq<Post>, ord: Seq<int>) -> Seq<PostView> {
    Seq::new(ord.len(), |i: int| s[ord[i]]@)
}

/// The text of the index page: `doc` with each of its lists expanded for `posts` taken in
/// listing order (newest first, ties in their original order).
pub fn build_index(doc: Node, posts: &Vec<Post>) -> (r: Result<String, IndexError>)
    ensures
        exists|ord: Seq<int>|
            #[trigger] is_listing_order(posts@, ord) && match expand_all(
                doc@,
                listing(posts@, ord),
                list_budget(doc@),
            ) {
                Ok(t) => r matches Ok(s) && s@ == document_markup(t),
                Err(e) => r == Err::<String, IndexError>(e),
            },
{
    let sorted = sort_posts(posts);
    let ghost ord = choose|ord: Seq<int>|
        is_listing_order(posts@, ord) && sorted@.len() == ord.len() && forall|i: int|
            0 <= i < ord.len() ==> (#[trigger] sorted@[i])@ == posts@[ord[i]]@;
    assert(post_views(sorted@) =~= listing(posts@, ord));
    let r = match expand_index(doc, &sorted) {
        Ok(t) => Ok(document_html(&t)),
        Err(e) => Err(e),
    };
    assert(is_listing_order(posts@, ord));
    r
}

/// A marker of a kind that no post fills in comes through resolution unchanged, and is
/// counted for a warning.
pub proof fn lemma_unknown_marker_kept(t: Tree, post: PostView, fmt: Seq<char>)
    requires
        is_marker(t),
        !is_post_slot(marker_kind(t)),
    ensures
        resolved(t, post, fmt) == Ok::<Tree, ResolveError>(t),
        unknown_count(t) == 1,
{
}

} // verus!
