//! TXT record value and the `tag=value; …` parser shared by DKIM and DMARC.

use vstd::prelude::*;

use crate::assoc::Assoc;
use crate::text::{chars_of, cut, pieces, split, split_once, splits, string_of, trim, trimmed};

verus! {

/// A raw TXT record (one or more concatenated character-strings).
#[derive(Debug, Clone, PartialEq, Eq)]
pub struct TxtRecord(pub String);

/// The tags of a `tag=value; …` record and their values.
pub struct TagMap {
    tags: Assoc<String, String>,
}

impl View for TagMap {
    type V = Map<Seq<char>, Seq<char>>;

    closed spec fn view(&self) -> Map<Seq<char>, Seq<char>> {
        self.tags@.map_values(|v: String| v@)
    }
}

/// The value of a tag in a tag map.
pub open spec fn tag(tags: Map<Seq<char>, Seq<char>>, name: Seq<char>) -> Option<Seq<char>> {
    if tags.contains_key(name) {
        Some(tags[name])
    } else {
        None
    }
}

impl TagMap {
    /// The value of a tag.
    pub fn get(&self, name: &str) -> (r: Option<&String>)
        ensures
            match (r, tag(self@, name@)) {
                (Some(v), Some(w)) => v@ == w,
                (None, None) => true,
                _ => false,
            },
    {
        let key = name.to_string();
        self.tags.get(&key)
    }

    /// A copy of the value of a tag.
    pub fn cloned(&self, name: &str) -> (r: Option<String>)
        ensures
            crate::text::opt_view(r) == tag(self@, name@),
    {
        match self.get(name) {
            Some(v) => Some(v.clone()),
            None => None,
        }
    }

    /// The number of tags.
    pub fn len(&self) -> (r: usize)
        ensures
            r == self@.len(),
    {
        assert(self@.dom() =~= self.tags@.dom());
        self.tags.len()
    }

    /// Whether there is no tag.
    pub fn is_empty(&self) -> (r: bool)
        ensures
            r == (self@.len() == 0),
    {
        self.len() == 0
    }
}

/// The tags that a sequence of `tag=value` segments gives: keys and values are
/// trimmed, a segment without `=` or with an empty key gives nothing, and of two
/// segments with one key the later counts.
pub open spec fn tags_of(segments: Seq<Seq<char>>) -> Map<Seq<char>, Seq<char>>
    decreases segments.len(),
{
    if segments.len() == 0 {
        Map::empty()
    } else {
        let before = tags_of(segments.drop_last());
        match cut(segments.last(), '=') {
            Some((k, v)) => {
                if trimmed(k).len() == 0 {
                    before
                } else {
                    before.insert(trimmed(k), trimmed(v))
                }
            },
            None => before,
        }
    }
}

/// The tags of a `tag=value; tag=value` record.
pub open spec fn tag_map(raw: Seq<char>) -> Map<Seq<char>, Seq<char>> {
    tags_of(splits(raw, ';'))
}

/// Parse a `tag=value; tag=value` string into a map (keys and values trimmed;
/// empty keys dropped).
pub fn parse_tag_map(raw: &str) -> (r: TagMap)
    ensures
        r@ == tag_map(raw@),
{
    let chars = chars_of(raw);
    let segments = split(chars.as_slice(), ';');
    let ghost all = splits(raw@, ';');
    let mut tags: Assoc<String, String> = Assoc::new();
    let mut i: usize = 0;
    assert(tags@.map_values(|v: String| v@) =~= tags_of(all.take(0)));
    while i < segments.len()
        invariant
            i <= segments.len(),
            all == pieces(segments@),
            tags@.map_values(|v: String| v@) == tags_of(all.take(i as int)),
        decreases segments.len() - i,
    {
        proof {
            assert(all.take(i + 1).drop_last() =~= all.take(i as int));
            assert(all.take(i + 1).last() == segments@[i as int]@);
        }
        if let Some((k, v)) = split_once(segments[i].as_slice(), '=') {
            let key = trim(k);
            if key.len() > 0 {
                let ghost before = tags@;
                let key = string_of(key);
                let value = string_of(trim(v));
                tags.insert(key, value);
                assert(before.insert(key@, value).map_values(|v: String| v@)
                    =~= before.map_values(|v: String| v@).insert(key@, value@));
            }
        }
        i = i + 1;
    }
    assert(all.take(all.len() as int) =~= all);
    TagMap { tags }
}

} // verus!
