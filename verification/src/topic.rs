//! The topic document: the fields of the input JSON that rendering reads.
//! Deserialization happens outside the library; these are the plain values it
//! hands over.

use vstd::prelude::*;

use crate::strutil::{chars_of, spec_trim, trim_vec};

verus! {

/// One post of the topic.
#[derive(Debug)]
pub struct Post {
    pub post_number: u64,
    pub username: Option<String>,
    pub display_username: Option<String>,
    pub avatar_template: Option<String>,
    pub created_at: Option<String>,
    pub cooked: Option<String>,
}

/// The ordered posts of the topic.
#[derive(Debug)]
pub struct PostStream {
    pub posts: Vec<Post>,
}

/// The topic document.
#[derive(Debug)]
pub struct TopicJson {
    pub id: u64,
    pub title: String,
    pub post_stream: PostStream,
}

/// The name a post is shown under: the display name when present, else the
/// username, else `unknown`.
pub open spec fn spec_post_username(p: Post) -> Seq<char> {
    match p.display_username {
        Some(d) => d@,
        None => match p.username {
            Some(u) => u@,
            None => "unknown"@,
        },
    }
}

/// Picks the name a post is shown under.
pub fn post_username(p: &Post) -> (r: String)
    ensures
        r@ == spec_post_username(*p),
{
    match &p.display_username {
        Some(d) => d.clone(),
        None => match &p.username {
            Some(u) => u.clone(),
            None => String::from_str("unknown"),
        },
    }
}

/// A post is rendered only when its cooked body is non-blank.
pub open spec fn spec_post_rendered(p: Post) -> bool {
    match p.cooked {
        Some(c) => spec_trim(c@).len() > 0,
        None => false,
    }
}

/// Decides whether a post renders at all.
pub fn post_is_rendered(p: &Post) -> (r: bool)
    ensures
        r == spec_post_rendered(*p),
{
    match &p.cooked {
        Some(c) => {
            let v = chars_of(c.as_str());
            let t = trim_vec(&v);
            t.len() > 0
        },
        None => false,
    }
}

} // verus!
