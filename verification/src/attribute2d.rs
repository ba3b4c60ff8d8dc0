//! An attribute that a way has on its left and on its right side, such as
//! a sidewalk.

use crate::tags::{str_eq, value_of, TagSeq, Tags};
use vstd::prelude::*;
use vstd::string::StringExecFns;

verus! {

/// What a side has: the value of a tag such as `sidewalk:left`.
#[derive(Debug, Copy, Clone, PartialEq, Eq, Structural)]
pub enum TagValue {
    Yes,
    No,
    Separate,
    Unknown,
}

impl Default for TagValue {
    fn default() -> (r: Self)
        ensures
            r == TagValue::Unknown,
    {
        TagValue::Unknown
    }
}

impl TagValue {
    /// The value that the text stands for.
    pub open spec fn spec_from(value: Seq<char>) -> TagValue {
        if value == "yes"@ {
            TagValue::Yes
        } else if value == "no"@ || value == "none"@ {
            TagValue::No
        } else if value == "separate"@ {
            TagValue::Separate
        } else {
            TagValue::Unknown
        }
    }

    pub fn from(value: &str) -> (r: Self)
        ensures
            r == TagValue::spec_from(value@),
    {
        if str_eq(value, "yes") {
            TagValue::Yes
        } else if str_eq(value, "no") || str_eq(value, "none") {
            TagValue::No
        } else if str_eq(value, "separate") {
            TagValue::Separate
        } else {
            TagValue::Unknown
        }
    }

    /// The text that stands for the value.
    pub open spec fn text(self) -> Seq<char> {
        match self {
            TagValue::Yes => "yes"@,
            TagValue::No => "no"@,
            TagValue::Separate => "separate"@,
            TagValue::Unknown => "unknown"@,
        }
    }

    pub fn as_str(self) -> (s: &'static str)
        ensures
            s@ == self.text(),
    {
        match self {
            TagValue::Yes => "yes",
            TagValue::No => "no",
            TagValue::Separate => "separate",
            TagValue::Unknown => "unknown",
        }
    }

    pub fn to_string(self) -> (s: String)
        ensures
            s@ == self.text(),
    {
        String::from_str(self.as_str())
    }
}

/// Which sides have it: the value of a tag such as `sidewalk`.
#[derive(Debug, Copy, Clone, PartialEq, Eq, Structural)]
pub enum TagSuffix {
    Left,
    Right,
    Both,
    Separate,
    No,
    Unknown,
}

impl Default for TagSuffix {
    fn default() -> (r: Self)
        ensures
            r == TagSuffix::Unknown,
    {
        TagSuffix::Unknown
    }
}

impl TagSuffix {
    /// The sides that the text stands for.
    pub open spec fn spec_from(value: Seq<char>) -> TagSuffix {
        if value == "left"@ {
            TagSuffix::Left
        } else if value == "right"@ {
            TagSuffix::Right
        } else if value == "both"@ {
            TagSuffix::Both
        } else if value == "separate"@ {
            TagSuffix::Separate
        } else if value == "no"@ || value == "none"@ {
            TagSuffix::No
        } else {
            TagSuffix::Unknown
        }
    }

    pub fn from(value: &str) -> (r: Self)
        ensures
            r == TagSuffix::spec_from(value@),
    {
        if str_eq(value, "left") {
            TagSuffix::Left
        } else if str_eq(value, "right") {
            TagSuffix::Right
        } else if str_eq(value, "both") {
            TagSuffix::Both
        } else if str_eq(value, "separate") {
            TagSuffix::Separate
        } else if str_eq(value, "no") || str_eq(value, "none") {
            TagSuffix::No
        } else {
            TagSuffix::Unknown
        }
    }
}

/// What the left and the right side of a way have.
#[derive(Debug, Copy, Clone, PartialEq, Eq, Structural)]
pub struct Attribute2D {
    pub left: TagValue,
    pub right: TagValue,
}

impl Default for Attribute2D {
    fn default() -> (r: Self)
        ensures
            r == (Attribute2D { left: TagValue::Unknown, right: TagValue::Unknown }),
    {
        Attribute2D { left: TagValue::Unknown, right: TagValue::Unknown }
    }
}

/// The tags that say what `attr` says of the attribute `tag`: one tag
/// for both sides where they have the same known value, else one for each
/// side whose value is known.
pub open spec fn attribute_tags(attr: Attribute2D, tag: Seq<char>) -> TagSeq {
    if attr.left != TagValue::Unknown && attr.left == attr.right {
        seq![(tag + ":both"@, attr.left.text())]
    } else {
        let left: TagSeq = if attr.left != TagValue::Unknown {
            seq![(tag + ":left"@, attr.left.text())]
        } else {
            Seq::empty()
        };
        let right: TagSeq = if attr.right != TagValue::Unknown {
            seq![(tag + ":right"@, attr.right.text())]
        } else {
            Seq::empty()
        };
        left + right
    }
}

/// `tag` with `suffix` behind it.
fn suffixed(tag: &str, suffix: &str) -> (r: String)
    ensures
        r@ == tag@ + suffix@,
{
    let mut r = String::from_str(tag);
    r.append(suffix);
    r
}

impl Attribute2D {
    /// What the sides have where the tag says which sides have it.
    pub open spec fn spec_from(value: TagSuffix) -> Attribute2D {
        match value {
            TagSuffix::Left => Attribute2D { left: TagValue::Yes, right: TagValue::No },
            TagSuffix::Right => Attribute2D { left: TagValue::No, right: TagValue::Yes },
            TagSuffix::Both => Attribute2D { left: TagValue::Yes, right: TagValue::Yes },
            TagSuffix::Separate => Attribute2D {
                left: TagValue::Separate,
                right: TagValue::Separate,
            },
            TagSuffix::No => Attribute2D { left: TagValue::No, right: TagValue::No },
            TagSuffix::Unknown => Attribute2D { left: TagValue::Unknown, right: TagValue::Unknown },
        }
    }

    pub fn from(value: TagSuffix) -> (r: Self)
        ensures
            r == Attribute2D::spec_from(value),
    {
        match value {
            TagSuffix::Left => Attribute2D { left: TagValue::Yes, right: TagValue::No },
            TagSuffix::Right => Attribute2D { left: TagValue::No, right: TagValue::Yes },
            TagSuffix::Both => Attribute2D { left: TagValue::Yes, right: TagValue::Yes },
            TagSuffix::Separate => Attribute2D {
                left: TagValue::Separate,
                right: TagValue::Separate,
            },
            TagSuffix::No => Attribute2D { left: TagValue::No, right: TagValue::No },
            TagSuffix::Unknown => Attribute2D { left: TagValue::Unknown, right: TagValue::Unknown },
        }
    }

    /// What `tags` say of the attribute `tag`: the tag `sidewalk` says
    /// which sides have it, the tags for the left and for the right side
    /// overrule that, and the tag for both sides overrules those.
    pub open spec fn spec_new(tags: TagSeq, tag: Seq<char>) -> Attribute2D {
        let base = match value_of(tags, "sidewalk"@) {
            Some(v) => Attribute2D::spec_from(TagSuffix::spec_from(v)),
            None => Attribute2D { left: TagValue::Unknown, right: TagValue::Unknown },
        };
        let left = match value_of(tags, tag + ":left"@) {
            Some(v) => TagValue::spec_from(v),
            None => base.left,
        };
        let right = match value_of(tags, tag + ":right"@) {
            Some(v) => TagValue::spec_from(v),
            None => base.right,
        };
        match value_of(tags, tag + ":both"@) {
            Some(v) => Attribute2D { left: TagValue::spec_from(v), right: TagValue::spec_from(v) },
            None => Attribute2D { left, right },
        }
    }

    pub fn new(tags: &Tags, tag: &str) -> (r: Self)
        ensures
            r == Attribute2D::spec_new(tags@, tag@),
    {
        let mut attr = Attribute2D::default();
        match tags.get("sidewalk") {
            Some(v) => {
                attr = Attribute2D::from(TagSuffix::from(v.as_str()));
            },
            None => {},
        }
        match tags.get(suffixed(tag, ":left").as_str()) {
            Some(v) => {
                attr.left = TagValue::from(v.as_str());
            },
            None => {},
        }
        match tags.get(suffixed(tag, ":right").as_str()) {
            Some(v) => {
                attr.right = TagValue::from(v.as_str());
            },
            None => {},
        }
        match tags.get(suffixed(tag, ":both").as_str()) {
            Some(v) => {
                let v = TagValue::from(v.as_str());
                attr.left = v;
                attr.right = v;
            },
            None => {},
        }
        attr
    }

    /// The tags that say what `self` says of the attribute `tag`.
    pub fn into_tags(self, tag: &str) -> (r: Tags)
        ensures
            r@ == attribute_tags(self, tag@),
            r.wf(),
    {
        let mut tags = Tags::new();
        let left_known = match self.left {
            TagValue::Unknown => false,
            _ => true,
        };
        let right_known = match self.right {
            TagValue::Unknown => false,
            _ => true,
        };
        let same = match (self.left, self.right) {
            (TagValue::Yes, TagValue::Yes) => true,
            (TagValue::No, TagValue::No) => true,
            (TagValue::Separate, TagValue::Separate) => true,
            (TagValue::Unknown, TagValue::Unknown) => true,
            _ => false,
        };
        if left_known {
            if same {
                tags.insert(suffixed(tag, ":both"), self.left.to_string());
                assert(tags@ =~= attribute_tags(self, tag@));
                return tags;
            }
            tags.insert(suffixed(tag, ":left"), self.left.to_string());
        }
        if right_known {
            proof {
                reveal_strlit(":left");
                reveal_strlit(":right");
                assert((tag@ + ":left"@).len() != (tag@ + ":right"@).len());
                if tags@.len() > 0 {
                    assert(tags@[0].0 == tag@ + ":left"@);
                }
                assert(!crate::tags::has_key(tags@, tag@ + ":right"@));
            }
            tags.insert(suffixed(tag, ":right"), self.right.to_string());
        }
        assert(tags@ =~= attribute_tags(self, tag@));
        tags
    }
}

} // verus!
