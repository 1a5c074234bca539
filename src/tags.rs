//! `#tag` words in message content.
use vstd::prelude::*;

verus! {

/// What `char::to_lowercase` yields for `c`.
pub uninterp spec fn lowercase_of(c: char) -> Seq<char>;

/// Relies on `char::to_lowercase`: the lowercase mapping of `c`, one or more
/// characters, depending on `c` alone.
#[verifier::external_body]
pub(crate) fn lowercase(c: char) -> (r: Vec<char>)
    ensures
        r@ == lowercase_of(c),
        r@.len() > 0,
{
    c.to_lowercase().collect()
}

/// Relies on `str::chars`: the characters of `s`.
#[verifier::external_body]
pub(crate) fn chars_of(s: &str) -> (r: Vec<char>)
    ensures
        r@ == s@,
{
    s.chars().collect()
}

/// Relies on `String: FromIterator<char>`: the string of the characters `v`.
#[verifier::external_body]
fn string_of(v: &Vec<char>) -> (r: String)
    ensures
        r@ == v@,
{
    v.iter().collect()
}

/// The state of a scan for tags: those found, the one being read, and whether
/// one is being read.
pub struct TagScan {
    pub found: Set<Seq<char>>,
    pub tag: Seq<char>,
    pub in_tag: bool,
}

/// Characters that end a tag: the Unicode White_Space characters.
pub open spec fn is_tag_break(c: char) -> bool {
    ('\u{9}' <= c && c <= '\u{D}') || c == ' ' || c == '\u{85}' || c == '\u{A0}' || c
        == '\u{1680}' || ('\u{2000}' <= c && c <= '\u{200A}') || c == '\u{2028}' || c
        == '\u{2029}' || c == '\u{202F}' || c == '\u{205F}' || c == '\u{3000}'
}

/// Whether `c` ends a tag.
pub fn tag_break(c: char) -> (r: bool)
    ensures
        r == is_tag_break(c),
{
    ('\u{9}' <= c && c <= '\u{D}') || c == ' ' || c == '\u{85}' || c == '\u{A0}' || c
        == '\u{1680}' || ('\u{2000}' <= c && c <= '\u{200A}') || c == '\u{2028}' || c
        == '\u{2029}' || c == '\u{202F}' || c == '\u{205F}' || c == '\u{3000}'
}

/// The found set with `tag` added, if `tag` is not empty.
pub open spec fn keep(found: Set<Seq<char>>, tag: Seq<char>) -> Set<Seq<char>> {
    if tag.len() > 0 {
        found.insert(tag)
    } else {
        found
    }
}

/// One character of the scan: `#` starts a tag (and ends a non-empty one), a
/// whitespace character ends a tag, any other character inside a tag is added
/// in lowercase.
pub open spec fn scan_step(st: TagScan, c: char) -> TagScan {
    if c == '#' {
        if st.in_tag && st.tag.len() > 0 {
            TagScan { found: st.found.insert(st.tag), tag: Seq::empty(), in_tag: true }
        } else {
            TagScan { found: st.found, tag: st.tag, in_tag: true }
        }
    } else if st.in_tag {
        if is_tag_break(c) {
            TagScan { found: keep(st.found, st.tag), tag: Seq::empty(), in_tag: false }
        } else {
            TagScan { found: st.found, tag: st.tag + lowercase_of(c), in_tag: true }
        }
    } else {
        st
    }
}

/// The scan after the characters `s`.
pub open spec fn scan(s: Seq<char>) -> TagScan
    decreases s.len(),
{
    if s.len() == 0 {
        TagScan { found: Set::empty(), tag: Seq::empty(), in_tag: false }
    } else {
        scan_step(scan(s.drop_last()), s.last())
    }
}

/// The tags of `s`.
pub open spec fn tags_of(s: Seq<char>) -> Set<Seq<char>> {
    keep(scan(s).found, scan(s).tag)
}

/// Whether two character vectors hold the same characters.
fn same_chars(a: &Vec<char>, b: &Vec<char>) -> (r: bool)
    ensures
        r == (a@ == b@),
{
    if a.len() != b.len() {
        return false;
    }
    let mut i: usize = 0;
    while i < a.len()
        invariant
            a@.len() == b@.len(),
            i <= a@.len(),
            forall|j: int| 0 <= j < i ==> a@[j] == b@[j],
        decreases a@.len() - i,
    {
        if a[i] != b[i] {
            return false;
        }
        i = i + 1;
    }
    assert(a@ =~= b@);
    true
}

/// The views of a list of character vectors.
pub open spec fn char_views(v: Seq<Vec<char>>) -> Seq<Seq<char>> {
    v.map_values(|t: Vec<char>| t@)
}

/// Adds `tag` to `found` unless it is there, keeping the entries distinct.
fn add_tag(found: &mut Vec<Vec<char>>, tag: Vec<char>)
    requires
        char_views(old(found)@).no_duplicates(),
    ensures
        char_views(final(found)@).no_duplicates(),
        char_views(final(found)@).to_set() == char_views(old(found)@).to_set().insert(tag@),
{
    let ghost before = char_views(found@);
    let mut i: usize = 0;
    while i < found.len()
        invariant
            char_views(found@) == before,
            before.no_duplicates(),
            i <= found@.len(),
            forall|j: int| 0 <= j < i ==> found@[j]@ != tag@,
        decreases found@.len() - i,
    {
        if same_chars(&found[i], &tag) {
            proof {
                assert(before[i as int] == tag@);
                assert(before.to_set().insert(tag@) =~= before.to_set());
            }
            return;
        }
        i = i + 1;
    }
    found.push(tag);
    proof {
        let after = char_views(found@);
        assert(after =~= before.push(tag@));
        assert(!before.contains(tag@));
        before.lemma_push_to_set_commute(tag@);
        assert(after.to_set() =~= before.to_set().insert(tag@));
    }
}

/// The distinct tags of `body`: words after `#`, in lowercase.
pub fn get_tags(body: &str) -> (r: Vec<String>)
    ensures
        r@.map_values(|t: String| t@).no_duplicates(),
        r@.map_values(|t: String| t@).to_set() == tags_of(body@),
{
    let chars = chars_of(body);
    let mut found: Vec<Vec<char>> = Vec::new();
    let mut tag: Vec<char> = Vec::new();
    let mut in_tag = false;
    let mut i: usize = 0;
    assert(char_views(found@).to_set() =~= Set::<Seq<char>>::empty());
    while i < chars.len()
        invariant
            chars@ == body@,
            i <= chars@.len(),
            char_views(found@).no_duplicates(),
            char_views(found@).to_set() == scan(chars@.subrange(0, i as int)).found,
            tag@ == scan(chars@.subrange(0, i as int)).tag,
            in_tag == scan(chars@.subrange(0, i as int)).in_tag,
        decreases chars@.len() - i,
    {
        let c = chars[i];
        proof {
            assert(chars@.subrange(0, i + 1).drop_last() =~= chars@.subrange(0, i as int));
        }
        if c == '#' {
            if in_tag && tag.len() > 0 {
                add_tag(&mut found, tag);
                tag = Vec::new();
            } else {
                in_tag = true;
            }
        } else if in_tag {
            if tag_break(c) {
                if tag.len() > 0 {
                    add_tag(&mut found, tag);
                    tag = Vec::new();
                }
                in_tag = false;
            } else {
                let mut low = lowercase(c);
                tag.append(&mut low);
            }
        }
        i = i + 1;
        proof {
            assert(tag@ =~= scan(chars@.subrange(0, i as int)).tag);
        }
    }
    if tag.len() > 0 {
        add_tag(&mut found, tag);
    }
    assert(chars@.subrange(0, chars@.len() as int) =~= chars@);
    let mut out: Vec<String> = Vec::new();
    let mut k: usize = 0;
    while k < found.len()
        invariant
            k <= found@.len(),
            out@.len() == k,
            forall|j: int| 0 <= j < k ==> (#[trigger] out@[j])@ == found@[j]@,
        decreases found@.len() - k,
    {
        out.push(string_of(&found[k]));
        k = k + 1;
    }
    assert(out@.map_values(|t: String| t@) =~= char_views(found@));
    out
}

} // verus!
