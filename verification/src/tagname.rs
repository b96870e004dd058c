//! Haystack tag names: grammar-constrained identifiers used as grid
//! column names and dict keys.

use vstd::prelude::*;

verus! {

/// A character allowed after the first position of a tag name.
pub open spec fn is_tag_char(c: char) -> bool {
    ('a' <= c && c <= 'z') || ('A' <= c && c <= 'Z') || ('0' <= c && c <= '9') || c == '_'
}

/// The Haystack identifier grammar: a lowercase letter followed by
/// letters, digits or underscores.
pub open spec fn is_tag_name(s: Seq<char>) -> bool {
    &&& s.len() > 0
    &&& 'a' <= s[0] && s[0] <= 'z'
    &&& forall|i: int| 0 <= i < s.len() ==> is_tag_char(#[trigger] s[i])
}

/// A validated Haystack tag name; construction succeeds exactly for
/// strings in the identifier grammar.
pub struct TagName {
    pub s: String,
}

impl View for TagName {
    type V = Seq<char>;

    open spec fn view(&self) -> Seq<char> {
        self.s@
    }
}

impl Clone for TagName {
    fn clone(&self) -> (r: Self)
        ensures
            r@ == self@,
    {
        TagName { s: self.s.clone() }
    }
}

impl TagName {
    /// Every constructed tag name satisfies the grammar.
    pub open spec fn wf(&self) -> bool {
        is_tag_name(self@)
    }

    /// Parse a string as a tag name; succeeds iff the string matches
    /// the identifier grammar.
    pub fn parse(s: &str) -> (r: Option<TagName>)
        ensures
            r is Some <==> is_tag_name(s@),
            r matches Some(t) ==> t@ == s@ && t.wf(),
    {
        if tag_name_check(s) {
            Some(TagName { s: s.to_owned() })
        } else {
            None
        }
    }

    /// The tag name as a string slice.
    pub fn as_str(&self) -> (r: &str)
        ensures
            r@ == self@,
    {
        self.s.as_str()
    }
}

/// Decide whether an arbitrary string matches the tag-name grammar.
pub fn tag_name_check(s: &str) -> (r: bool)
    ensures
        r == is_tag_name(s@),
{
    let cs = crate::strutil::str_to_chars(s);
    if cs.len() == 0 {
        return false;
    }
    let c0 = cs[0];
    if !('a' <= c0 && c0 <= 'z') {
        return false;
    }
    let mut i: usize = 0;
    while i < cs.len()
        invariant
            0 <= i <= cs@.len(),
            cs@ == s@,
            forall|j: int| 0 <= j < i ==> is_tag_char(#[trigger] s@[j]),
        decreases cs@.len() - i,
    {
        let c = cs[i];
        let ok = ('a' <= c && c <= 'z') || ('A' <= c && c <= 'Z') || ('0' <= c && c <= '9') || c
            == '_';
        if !ok {
            return false;
        }
        i = i + 1;
    }
    true
}

} // verus!
