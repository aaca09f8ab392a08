//! The tags that posts carry.
use vstd::prelude::*;
use vstd::string::StringExecFns;
use crate::text::same_text;

verus! {

/// A topic of a post.
#[derive(Clone, Copy, PartialEq, Eq, Hash, Debug, Structural)]
pub enum Tag {
    Dioxus,
    Rust,
    AsyncProgramming,
    Web,
    DevKit,
    Book,
    Talk,
}

/// The key under which a tag's label is translated.
pub open spec fn tag_key(t: Tag) -> Seq<char> {
    match t {
        Tag::Dioxus => "tag-dioxus"@,
        Tag::Web => "tag-web"@,
        Tag::Rust => "tag-rust"@,
        Tag::AsyncProgramming => "tag-async-programming"@,
        Tag::DevKit => "tag-devkit"@,
        Tag::Book => "tag-book"@,
        Tag::Talk => "tag-talk"@,
    }
}

/// The name of a tag in a URL.
pub open spec fn tag_url(t: Tag) -> Seq<char> {
    match t {
        Tag::Dioxus => "dioxus"@,
        Tag::Web => "web"@,
        Tag::Rust => "rust"@,
        Tag::AsyncProgramming => "async_programming"@,
        Tag::DevKit => "devkit"@,
        Tag::Book => "book"@,
        Tag::Talk => "talk"@,
    }
}

/// The tag that a lower-case name stands for.
pub open spec fn tag_named(s: Seq<char>) -> Option<Tag> {
    if s == "dioxus"@ {
        Some(Tag::Dioxus)
    } else if s == "web"@ {
        Some(Tag::Web)
    } else if s == "rust"@ {
        Some(Tag::Rust)
    } else if s == "async_programming"@ || s == "异步编程"@ {
        Some(Tag::AsyncProgramming)
    } else if s == "tool"@ || s == "工具"@ {
        Some(Tag::DevKit)
    } else if s == "book"@ || s == "书籍"@ {
        Some(Tag::Book)
    } else if s == "talk"@ || s == "演讲"@ {
        Some(Tag::Talk)
    } else {
        None
    }
}

/// What `str::to_lowercase` makes of a text.
pub uninterp spec fn lower_of(s: Seq<char>) -> Seq<char>;

/// Relies on `str::to_lowercase`: the result depends on the characters alone.
#[verifier::external_body]
fn lowercase(s: &str) -> (r: String)
    ensures
        r@ == lower_of(s@),
{
    s.to_lowercase()
}

impl Tag {
    /// Returns the i18n key for this tag
    pub fn i18n_key(&self) -> (r: &'static str)
        ensures
            r@ == tag_key(*self),
    {
        match self {
            Tag::Dioxus => "tag-dioxus",
            Tag::Web => "tag-web",
            Tag::Rust => "tag-rust",
            Tag::AsyncProgramming => "tag-async-programming",
            Tag::DevKit => "tag-devkit",
            Tag::Book => "tag-book",
            Tag::Talk => "tag-talk",
        }
    }

    /// Returns the URL-safe string representation
    pub fn to_url_string(&self) -> (r: &'static str)
        ensures
            r@ == tag_url(*self),
    {
        match self {
            Tag::Dioxus => "dioxus",
            Tag::Web => "web",
            Tag::Rust => "rust",
            Tag::AsyncProgramming => "async_programming",
            Tag::DevKit => "devkit",
            Tag::Book => "book",
            Tag::Talk => "talk",
        }
    }

    /// The text a tag is shown as: its URL name.
    pub fn to_string(&self) -> (r: String)
        ensures
            r@ == tag_url(*self),
    {
        String::from_str(self.to_url_string())
    }

    /// Get all available tags
    pub fn all() -> (r: Vec<Tag>)
        ensures
            r@ == seq![Tag::Dioxus, Tag::Web, Tag::Rust, Tag::AsyncProgramming, Tag::DevKit, Tag::Book, Tag::Talk],
    {
        let r = vec![Tag::Dioxus, Tag::Web, Tag::Rust, Tag::AsyncProgramming, Tag::DevKit, Tag::Book, Tag::Talk];
        assert(r@ =~= seq![Tag::Dioxus, Tag::Web, Tag::Rust, Tag::AsyncProgramming, Tag::DevKit, Tag::Book, Tag::Talk]);
        r
    }

    /// The tag that an already lower-case name stands for.
    pub fn from_lowercase(s: &str) -> (r: Option<Tag>)
        ensures
            r == tag_named(s@),
    {
        if same_text(s, "dioxus") {
            Some(Tag::Dioxus)
        } else if same_text(s, "web") {
            Some(Tag::Web)
        } else if same_text(s, "rust") {
            Some(Tag::Rust)
        } else if same_text(s, "async_programming") || same_text(s, "异步编程") {
            Some(Tag::AsyncProgramming)
        } else if same_text(s, "tool") || same_text(s, "工具") {
            Some(Tag::DevKit)
        } else if same_text(s, "book") || same_text(s, "书籍") {
            Some(Tag::Book)
        } else if same_text(s, "talk") || same_text(s, "演讲") {
            Some(Tag::Talk)
        } else {
            None
        }
    }

    /// Parses a tag name in any case; the error names the unknown tag.
    pub fn from_name(s: &str) -> (r: Result<Tag, String>)
        ensures
            r matches Ok(t) ==> tag_named(lower_of(s@)) == Some(t),
            r matches Err(e) ==> tag_named(lower_of(s@)) is None && e@ == "Unknown tag: "@ + s@,
            tag_named(lower_of(s@)) is Some ==> r is Ok,
    {
        let lower = lowercase(s);
        match Tag::from_lowercase(lower.as_str()) {
            Some(t) => Ok(t),
            None => {
                let mut e = String::from_str("Unknown tag: ");
                e.append(s);
                Err(e)
            },
        }
    }
}

impl std::str::FromStr for Tag {
    type Err = String;

    fn from_str(s: &str) -> Result<Tag, String> {
        Tag::from_name(s)
    }
}

} // verus!
