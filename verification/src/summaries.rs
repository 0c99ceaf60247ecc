//! Shared-behaviour contracts: a summary trait with a default method, two
//! implementing record types, trait-bound parameter variations, an opaque
//! summarizable return, and a pair with a conditionally available
//! comparison method.

use crate::text::{decimal_spec, u32_to_string};
use vstd::prelude::*;
use vstd::std_specs::cmp::PartialOrdSpec;

verus! {

/// The textual form of a boolean.
pub open spec fn bool_text(b: bool) -> Seq<char> {
    if b {
        "true"@
    } else {
        "false"@
    }
}

/// Behaviour shared by anything that can describe itself briefly.
pub trait Summary {
    /// What the summary reads.
    spec fn summarize_spec(&self) -> Seq<char>;

    fn summarize(&self) -> (r: String)
        ensures
            r@ == self.summarize_spec(),
    ;

    /// The fallback text for implementers that do not write their own.
    fn with_default(&self) -> (r: String)
        ensures
            r@ == "read more..."@,
    {
        String::from_str("read more...")
    }
}

/// Behaviour shared by anything with a full textual rendering.
pub trait Render {
    /// What the rendering reads.
    spec fn render_spec(&self) -> Seq<char>;

    fn render(&self) -> (r: String)
        ensures
            r@ == self.render_spec(),
    ;
}

pub struct NewsArticle {
    pub headline: String,
    pub location: String,
    pub author: String,
    pub content: String,
}

impl Summary for NewsArticle {
    open spec fn summarize_spec(&self) -> Seq<char> {
        self.headline@ + ", by "@ + self.author@ + " ("@ + self.location@ + ")"@
    }

    fn summarize(&self) -> (r: String) {
        self.headline.clone().concat(", by ").concat(self.author.as_str()).concat(
            " (",
        ).concat(self.location.as_str()).concat(")")
    }
}

pub struct Tweet {
    pub username: String,
    pub content: String,
    pub reply: bool,
    pub retweet: bool,
}

impl Summary for Tweet {
    open spec fn summarize_spec(&self) -> Seq<char> {
        self.username@ + ": "@ + self.content@
    }

    fn summarize(&self) -> (r: String) {
        self.username.clone().concat(": ").concat(self.content.as_str())
    }
}

impl Render for Tweet {
    open spec fn render_spec(&self) -> Seq<char> {
        "reply: "@ + bool_text(self.reply) + ", retweet: "@ + bool_text(self.retweet)
    }

    fn render(&self) -> (r: String) {
        let reply_text = if self.reply {
            "true"
        } else {
            "false"
        };
        let retweet_text = if self.retweet {
            "true"
        } else {
            "false"
        };
        String::from_str("reply: ").concat(reply_text).concat(", retweet: ").concat(
            retweet_text,
        )
    }
}

/// Decimal notation gives numbers a rendering too, so a pair of numbers can
/// use the conditional comparison method below.
impl Render for u32 {
    open spec fn render_spec(&self) -> Seq<char> {
        decimal_spec(*self as nat)
    }

    fn render(&self) -> (r: String) {
        u32_to_string(*self)
    }
}

/// Two independently typed parameters, each only required to summarize.
pub fn notify3(item1: &impl Summary, item2: &impl Summary) {
}

/// One generic bound forcing both parameters to the same concrete type.
pub fn notify4<T: Summary>(item1: &T, item2: &T) {
}

/// A combined bound: the item must summarize and render.
pub fn notify6<T: Summary + Render>(item: &T) {
}

/// Always the same social post, handed out behind the trait.
pub fn returns_summarizable() -> (t: Tweet)
    ensures
        t.username@ == "horse_ebook"@,
        t.content@ == "of course, as you probably already know, people"@,
        t.reply == false,
        t.retweet == false,
{
    Tweet {
        username: String::from_str("horse_ebook"),
        content: String::from_str("of course, as you probably already know, people"),
        reply: false,
        retweet: false,
    }
}

/// A pair of two values of one type.
pub struct Pair<T> {
    pub x: T,
    pub y: T,
}

impl<T> Pair<T> {
    /// Pairs of any type can be built.
    pub fn new(x: T, y: T) -> (r: Self)
        ensures
            r.x == x,
            r.y == y,
    {
        Self { x, y }
    }
}

impl<T: Render + PartialOrd> Pair<T> {
    /// Available only when the members can be both rendered and ordered:
    /// names the larger member, reporting `x` on a tie.
    pub fn cmp_display(&self) -> (r: String)
        requires
            T::obeys_partial_cmp_spec(),
        ensures
            (match self.x.partial_cmp_spec(&self.y) {
                Some(core::cmp::Ordering::Greater) => true,
                Some(core::cmp::Ordering::Equal) => true,
                _ => false,
            }) ==> r@ == "The largest member is x = "@ + self.x.render_spec(),
            !(match self.x.partial_cmp_spec(&self.y) {
                Some(core::cmp::Ordering::Greater) => true,
                Some(core::cmp::Ordering::Equal) => true,
                _ => false,
            }) ==> r@ == "The largest member is y = "@ + self.y.render_spec(),
    {
        if self.x.ge(&self.y) {
            String::from_str("The largest member is x = ").concat(
                self.x.render().as_str(),
            )
        } else {
            String::from_str("The largest member is y = ").concat(
                self.y.render().as_str(),
            )
        }
    }
}

} // verus!
