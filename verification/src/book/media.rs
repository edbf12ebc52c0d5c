//! Media that can be summarized: news articles and tweets.
use vstd::prelude::*;

use crate::text::{chars_of, extend_chars, string_of};

verus! {

/// Something with an author, which can be summarized in a line.
pub trait Summarize {
    /// The author line of the item.
    spec fn author_line(&self) -> Seq<char>;

    fn summarize_author(&self) -> (s: String)
        ensures
            s@ == self.author_line(),
    ;

    /// A summary of the item; unless an item says otherwise, a pointer to
    /// its author.
    fn summarize(&self) -> (s: String)
        default_ensures
            s@ == "Read more from "@ + self.author_line(),
    {
        let mut v = chars_of("Read more from ");
        let a = self.summarize_author();
        let t = chars_of(a.as_str());
        extend_chars(&mut v, &t);
        string_of(&v)
    }
}

/// `@` and then `name`.
fn handle(name: &str) -> (s: String)
    ensures
        s@ == "@"@ + name@,
{
    let mut v = chars_of("@");
    let n = chars_of(name);
    extend_chars(&mut v, &n);
    string_of(&v)
}

/// A news article.
pub struct NewsArticle {
    pub headline: String,
    pub location: String,
    pub author: String,
    pub content: String,
}

impl Summarize for NewsArticle {
    open spec fn author_line(&self) -> Seq<char> {
        "@"@ + self.author@
    }

    fn summarize_author(&self) -> (s: String) {
        handle(self.author.as_str())
    }
}

impl NewsArticle {
    /// How a news article presents itself.
    pub fn to_text(&self) -> (s: String)
        ensures
            s@ == "I'm a news article"@,
    {
        String::from_str("I'm a news article")
    }
}

/// A tweet.
pub struct Tweet {
    pub username: String,
    pub content: String,
    pub reply: bool,
    pub retweet: bool,
}

impl Summarize for Tweet {
    open spec fn author_line(&self) -> Seq<char> {
        "@"@ + self.username@
    }

    fn summarize_author(&self) -> (s: String) {
        handle(self.username.as_str())
    }

    /// The user name and the content of the tweet.
    fn summarize(&self) -> (s: String)
        ensures
            s@ == self.username@ + ": "@ + self.content@,
    {
        let mut v = chars_of(self.username.as_str());
        let sep = chars_of(": ");
        extend_chars(&mut v, &sep);
        let c = chars_of(self.content.as_str());
        extend_chars(&mut v, &c);
        string_of(&v)
    }
}

impl Tweet {
    /// How a tweet presents itself.
    pub fn to_text(&self) -> (s: String)
        ensures
            s@ == "I'm a tweet"@,
    {
        String::from_str("I'm a tweet")
    }
}

} // verus!
