use vstd::prelude::*;
use crate::tree::{attr_views, same_text, views, Attr, Node, Tree};

verus! {

/// Relies on `str::chars` and `Iterator::collect`: the characters of `s`, in order.
#[verifier::external_body]
pub(crate) fn chars_of(s: &str) -> (r: Vec<char>)
    ensures
        r@ == s@,
{
    s.chars().collect()
}

/// Relies on `String`'s `FromIterator<char>`: the string of the characters `v`, in order.
#[verifier::external_body]
fn string_of(v: Vec<char>) -> (r: String)
    ensures
        r@ == v@,
{
    v.into_iter().collect()
}

/// How one character is written in text (`in_attr` false) or in an attribute value.
pub open spec fn esc(c: char, in_attr: bool) -> Seq<char> {
    if c == '&' {
        "&amp;"@
    } else if c == '\u{a0}' {
        "&nbsp;"@
    } else if in_attr && c == '"' {
        "&quot;"@
    } else if !in_attr && c == '<' {
        "&lt;"@
    } else if !in_attr && c == '>' {
        "&gt;"@
    } else {
        seq![c]
    }
}

/// `s` with each character escaped as `esc` says.
pub open spec fn escaped(s: Seq<char>, in_attr: bool) -> Seq<char>
    decreases s.len(),
{
    if s.len() == 0 {
        Seq::empty()
    } else {
        escaped(s.drop_last(), in_attr) + esc(s.last(), in_attr)
    }
}

/// Elements written without children or an end tag.
pub open spec fn is_void(name: Seq<char>) -> bool {
    name == "area"@ || name == "base"@ || name == "basefont"@ || name == "bgsound"@ || name
        == "br"@ || name == "col"@ || name == "embed"@ || name == "frame"@ || name == "hr"@
        || name == "img"@ || name == "input"@ || name == "keygen"@ || name == "link"@ || name
        == "meta"@ || name == "param"@ || name == "source"@ || name == "track"@ || name
        == "wbr"@
}

/// Elements whose text is written without escaping.
pub open spec fn is_raw_text(name: Seq<char>) -> bool {
    name == "style"@ || name == "script"@ || name == "xmp"@ || name == "iframe"@ || name
        == "noembed"@ || name == "noframes"@ || name == "plaintext"@ || name == "noscript"@
}

/// The attributes as written inside a start tag.
pub open spec fn attrs_markup(attrs: Seq<(Seq<char>, Seq<char>)>) -> Seq<char>
    decreases attrs.len(),
{
    if attrs.len() == 0 {
        Seq::empty()
    } else {
        attrs_markup(attrs.drop_last()) + " "@ + attrs.last().0 + "=\""@ + escaped(
            attrs.last().1,
            true,
        ) + "\""@
    }
}

/// The markup of `t`; `raw` says whether its parent writes text unescaped.
pub open spec fn markup(t: Tree, raw: bool) -> Seq<char>
    decreases t, 0nat,
{
    match t {
        Tree::Elem { name, attrs, kids } => "<"@ + name + attrs_markup(attrs) + ">"@ + if is_void(
            name,
        ) {
            Seq::empty()
        } else {
            kids_markup(kids, kids.len(), is_raw_text(name)) + "</"@ + name + ">"@
        },
        Tree::Text { text } => if raw {
            text
        } else {
            escaped(text, false)
        },
        Tree::Raw { markup } => markup,
    }
}

/// The markup of the first `n` children of `kids`, one after the other.
pub open spec fn kids_markup(kids: Seq<Tree>, n: nat, raw: bool) -> Seq<char>
    decreases kids, n,
{
    if n == 0 || n > kids.len() {
        Seq::empty()
    } else {
        kids_markup(kids, (n - 1) as nat, raw) + markup(kids[n - 1], raw)
    }
}

/// The text of a document whose root holds its top-level nodes: those nodes' markup.
pub open spec fn document_markup(t: Tree) -> Seq<char> {
    match t {
        Tree::Elem { kids, .. } => kids_markup(kids, kids.len(), false),
        _ => markup(t, false),
    }
}

fn push_all(out: &mut Vec<char>, s: &str)
    ensures
        final(out)@ == old(out)@ + s@,
{
    let cs = chars_of(s);
    let mut i: usize = 0;
    while i < cs.len()
        invariant
            i <= cs.len(),
            cs@ == s@,
            out@ == old(out)@ + s@.subrange(0, i as int),
        decreases cs.len() - i,
    {
        out.push(cs[i]);
        i = i + 1;
        assert(out@ =~= old(out)@ + s@.subrange(0, i as int));
    }
    assert(s@.subrange(0, cs.len() as int) =~= s@);
}

fn push_escaped(out: &mut Vec<char>, s: &str, in_attr: bool)
    ensures
        final(out)@ == old(out)@ + escaped(s@, in_attr),
{
    let cs = chars_of(s);
    let mut i: usize = 0;
    while i < cs.len()
        invariant
            i <= cs.len(),
            cs@ == s@,
            out@ == old(out)@ + escaped(s@.subrange(0, i as int), in_attr),
        decreases cs.len() - i,
    {
        let c = cs[i];
        let ghost before = out@;
        if c == '&' {
            push_all(out, "&amp;");
        } else if c == '\u{a0}' {
            push_all(out, "&nbsp;");
        } else if in_attr && c == '"' {
            push_all(out, "&quot;");
        } else if !in_attr && c == '<' {
            push_all(out, "&lt;");
        } else if !in_attr && c == '>' {
            push_all(out, "&gt;");
        } else {
            out.push(c);
            assert(out@ =~= before + seq![c]);
        }
        assert(s@.subrange(0, i + 1).drop_last() =~= s@.subrange(0, i as int));
        i = i + 1;
        assert(out@ =~= old(out)@ + escaped(s@.subrange(0, i as int), in_attr));
    }
    assert(s@.subrange(0, cs.len() as int) =~= s@);
}

/// Whether `name` is the name of a void element.
pub fn void_name(name: &str) -> (r: bool)
    ensures
        r == is_void(name@),
{
    same_text(name, "area") || same_text(name, "base") || same_text(name, "basefont")
        || same_text(name, "bgsound") || same_text(name, "br") || same_text(name, "col")
        || same_text(name, "embed") || same_text(name, "frame") || same_text(name, "hr")
        || same_text(name, "img") || same_text(name, "input") || same_text(name, "keygen")
        || same_text(name, "link") || same_text(name, "meta") || same_text(name, "param")
        || same_text(name, "source") || same_text(name, "track") || same_text(name, "wbr")
}

/// Whether `name` is the name of an element whose text is written unescaped.
pub fn raw_text_name(name: &str) -> (r: bool)
    ensures
        r == is_raw_text(name@),
{
    same_text(name, "style") || same_text(name, "script") || same_text(name, "xmp")
        || same_text(name, "iframe") || same_text(name, "noembed") || same_text(name, "noframes")
        || same_text(name, "plaintext") || same_text(name, "noscript")
}

fn push_attrs(out: &mut Vec<char>, attrs: &Vec<Attr>)
    ensures
        final(out)@ == old(out)@ + attrs_markup(attr_views(attrs@)),
{
    let mut i: usize = 0;
    while i < attrs.len()
        invariant
            i <= attrs.len(),
            out@ == old(out)@ + attrs_markup(attr_views(attrs@.subrange(0, i as int))),
        decreases attrs.len() - i,
    {
        let ghost before = out@;
        push_all(out, " ");
        push_all(out, attrs[i].name.as_str());
        push_all(out, "=\"");
        push_escaped(out, attrs[i].value.as_str(), true);
        push_all(out, "\"");
        let ghost a2 = attr_views(attrs@.subrange(0, i + 1));
        assert(a2.drop_last() =~= attr_views(attrs@.subrange(0, i as int)));
        i = i + 1;
        assert(out@ =~= old(out)@ + attrs_markup(attr_views(attrs@.subrange(0, i as int))));
    }
    assert(attrs@.subrange(0, attrs.len() as int) =~= attrs@);
}

fn push_kids(out: &mut Vec<char>, children: &Vec<Node>, raw: bool)
    ensures
        final(out)@ == old(out)@ + kids_markup(views(children@), children.len() as nat, raw),
    decreases children, 1nat,
{
    let ghost kids = views(children@);
    let mut j: usize = 0;
    while j < children.len()
        invariant
            j <= children.len(),
            kids == views(children@),
            out@ == old(out)@ + kids_markup(kids, j as nat, raw),
        decreases children.len() - j,
    {
        proof {
            assert(decreases_to!(children => children[j as int]));
        }
        push_node(out, &children[j], raw);
        j = j + 1;
        assert(out@ =~= old(out)@ + kids_markup(kids, j as nat, raw));
    }
}

fn push_node(out: &mut Vec<char>, node: &Node, raw: bool)
    ensures
        final(out)@ == old(out)@ + markup(node@, raw),
    decreases node, 0nat,
{
    proof {
        node.lemma_kids();
    }
    match node {
        Node::Element { name, attrs, children } => {
            let ghost before = out@;
            push_all(out, "<");
            push_all(out, name.as_str());
            push_attrs(out, attrs);
            push_all(out, ">");
            if !void_name(name.as_str()) {
                proof {
                    assert(decreases_to!(*node => *children));
                }
                push_kids(out, children, raw_text_name(name.as_str()));
                push_all(out, "</");
                push_all(out, name.as_str());
                push_all(out, ">");
            }
            assert(out@ =~= before + markup(node@, raw));
        },
        Node::Text { text } => {
            if raw {
                push_all(out, text.as_str());
            } else {
                push_escaped(out, text.as_str(), false);
            }
        },
        Node::Raw { markup } => {
            push_all(out, markup.as_str());
        },
    }
}

/// The text of the document `doc`, whose root holds its top-level nodes.
pub fn document_html(doc: &Node) -> (r: String)
    ensures
        r@ == document_markup(doc@),
{
    proof {
        doc.lemma_kids();
    }
    let mut out: Vec<char> = Vec::new();
    match doc {
        Node::Element { children, .. } => {
            push_kids(&mut out, children, false);
        },
        _ => {
            push_node(&mut out, doc, false);
        },
    }
    assert(out@ =~= Seq::<char>::empty() + document_markup(doc@));
    string_of(out)
}

} // verus!
