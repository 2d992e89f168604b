use vstd::prelude::*;
use crate::tree::same_text;

verus! {

/// What a marker element stands for, read from its `typeset` attribute.
#[derive(Clone, Copy, Debug, PartialEq, Eq, Structural)]
pub enum SlotKind {
    PageTitle,
    Title,
    Body,
    Date,
    IndexEntry,
    Unknown,
}

pub open spec fn slot_kind(s: Seq<char>) -> SlotKind {
    if s == "page-title"@ {
        SlotKind::PageTitle
    } else if s == "title"@ {
        SlotKind::Title
    } else if s == "body"@ {
        SlotKind::Body
    } else if s == "date"@ {
        SlotKind::Date
    } else if s == "index-entry"@ {
        SlotKind::IndexEntry
    } else {
        SlotKind::Unknown
    }
}

impl SlotKind {
    /// The kind named by a `typeset` attribute value.
    pub fn parse(s: &str) -> (r: SlotKind)
        ensures
            r == slot_kind(s@),
    {
        if same_text(s, "page-title") {
            SlotKind::PageTitle
        } else if same_text(s, "title") {
            SlotKind::Title
        } else if same_text(s, "body") {
            SlotKind::Body
        } else if same_text(s, "date") {
            SlotKind::Date
        } else if same_text(s, "index-entry") {
            SlotKind::IndexEntry
        } else {
            SlotKind::Unknown
        }
    }
}

/// `template` with every `$` replaced by `title`.
pub open spec fn filled(template: Seq<char>, title: Seq<char>) -> Seq<char>
    decreases template.len(),
{
    if template.len() == 0 {
        Seq::empty()
    } else if template.last() == '$' {
        filled(template.drop_last(), title) + title
    } else {
        filled(template.drop_last(), title).push(template.last())
    }
}

/// `template` with every `$` replaced by `title`.
pub fn fill_title(template: &str, title: &str) -> (r: String)
    ensures
        r@ == filled(template@, title@),
{
    let n = template.unicode_len();
    let mut r = String::new();
    let mut i: usize = 0;
    while i < n
        invariant
            n == template@.len(),
            i <= n,
            r@ == filled(template@.subrange(0, i as int), title@),
        decreases n - i,
    {
        let c = template.get_char(i);
        let ghost pre = template@.subrange(0, i as int);
        let ghost next = template@.subrange(0, i + 1);
        assert(next.drop_last() =~= pre);
        if c == '$' {
            r.append(title);
        } else {
            r.append(template.substring_char(i, i + 1));
            assert(template@.subrange(i as int, i + 1) =~= seq![c]);
            assert(pre.push(c) =~= pre + seq![c]);
        }
        i = i + 1;
    }
    assert(template@.subrange(0, n as int) =~= template@);
    r
}

} // verus!
