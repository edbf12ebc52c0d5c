//! Traits in depth: adding points and lengths, an iterator of one's own, and
//! framing the text of a value in a box of stars.
use vstd::prelude::*;
use vstd::std_specs::ops::AddSpecImpl;

use crate::text::{chars_of, decimal, decimal_chars, extend_chars, lemma_decimal_i32, string_of};

verus! {

/// A point of the plane.
#[derive(Debug, Clone, Copy, PartialEq, Eq, Structural)]
pub struct Point {
    pub x: i32,
    pub y: i32,
}

impl std::ops::Add for Point {
    type Output = Point;

    /// The sum of two points, coordinate by coordinate.
    fn add(self, rhs: Self) -> (r: Point)
        ensures
            r.x == self.x + rhs.x,
            r.y == self.y + rhs.y,
    {
        Point { x: self.x + rhs.x, y: self.y + rhs.y }
    }
}

impl AddSpecImpl for Point {
    open spec fn obeys_add_spec() -> bool {
        true
    }

    open spec fn add_req(self, rhs: Point) -> bool {
        &&& i32::MIN <= self.x + rhs.x <= i32::MAX
        &&& i32::MIN <= self.y + rhs.y <= i32::MAX
    }

    open spec fn add_spec(self, rhs: Point) -> Point {
        Point { x: (self.x + rhs.x) as i32, y: (self.y + rhs.y) as i32 }
    }
}

/// A length in meters.
pub struct Meters(pub u32);

/// A length in millimeters.
pub struct Millimeters(pub u32);

impl std::ops::Add<Meters> for Millimeters {
    type Output = Millimeters;

    /// The sum of the two lengths, in millimeters.
    fn add(self, rhs: Meters) -> (r: Millimeters)
        ensures
            r.0 == self.0 + rhs.0 * 1000,
    {
        Millimeters(self.0 + rhs.0 * 1000)
    }
}

impl AddSpecImpl<Meters> for Millimeters {
    open spec fn obeys_add_spec() -> bool {
        true
    }

    open spec fn add_req(self, rhs: Meters) -> bool {
        self.0 + rhs.0 * 1000 <= u32::MAX
    }

    open spec fn add_spec(self, rhs: Meters) -> Millimeters {
        Millimeters((self.0 + rhs.0 * 1000) as u32)
    }
}

/// Something that hands out a next item.
pub trait Iterator {
    type Item;

    fn next(&self) -> Option<Self::Item>;
}

impl Iterator for i32 {
    type Item = i32;

    /// A number hands out itself.
    fn next(&self) -> (r: Option<i32>)
        ensures
            r == Some(*self),
    {
        Some(*self)
    }
}

/// `n` copies of `c`.
pub open spec fn repeated(c: char, n: nat) -> Seq<char> {
    Seq::new(n, |_i: int| c)
}

fn repeat_char(c: char, n: usize) -> (v: Vec<char>)
    ensures
        v@ == repeated(c, n as nat),
{
    let mut v: Vec<char> = Vec::new();
    let mut i: usize = 0;
    while i < n
        invariant
            i <= n,
            v@ == repeated(c, i as nat),
        decreases n - i,
    {
        v.push(c);
        i = i + 1;
        assert(v@ =~= repeated(c, i as nat));
    }
    v
}

/// `left`, then `middle`, then `right`, as a string.
fn framed(left: &str, middle: &Vec<char>, right: &str) -> (s: String)
    ensures
        s@ == left@ + middle@ + right@,
{
    let mut v = chars_of(left);
    extend_chars(&mut v, middle);
    let r = chars_of(right);
    extend_chars(&mut v, &r);
    string_of(&v)
}

/// The five lines of a frame around `text`: a row of `edge` stars, a side
/// row of `inner` copies of `fill` between two stars, the text between
/// `"* "` and `" *"`, the side row again and the row of stars again.
pub open spec fn frame(text: Seq<char>, edge: nat, inner: nat, fill: char) -> Seq<Seq<char>> {
    let top = repeated('*', edge);
    let side = "*"@ + repeated(fill, inner) + "*"@;
    seq![top, side, "* "@ + text + " *"@, side, top]
}

fn frame_lines(text: &str, edge: usize, inner: usize, fill: char) -> (lines: Vec<String>)
    ensures
        lines@.len() == 5,
        forall|i: int| 0 <= i < 5 ==> (#[trigger] lines@[i])@ == frame(text@, edge as nat, inner as nat, fill)[i],
{
    let empty: Vec<char> = Vec::new();
    let stars = repeat_char('*', edge);
    let top = framed("", &stars, "");
    let filling = repeat_char(fill, inner);
    let side = framed("*", &filling, "*");
    let side_again = framed("*", &filling, "*");
    let t = chars_of(text);
    let middle = framed("* ", &t, " *");
    let bottom = framed("", &stars, "");
    proof {
        reveal_strlit("");
        assert(top@ =~= repeated('*', edge as nat));
        assert(bottom@ =~= repeated('*', edge as nat));
    }
    let mut lines: Vec<String> = Vec::new();
    lines.push(top);
    lines.push(side);
    lines.push(middle);
    lines.push(side_again);
    lines.push(bottom);
    lines
}

/// The lines that frame `text` in stars, the frame as wide as the text is
/// long in bytes, which must be at least 2.
pub fn outline(text: &str) -> (lines: Vec<String>)
    requires
        text.len() >= 2,
    ensures
        lines@.len() == 5,
        forall|i: int|
            0 <= i < 5 ==> (#[trigger] lines@[i])@ == frame(
                text@,
                text.len() as nat,
                (text.len() - 2) as nat,
                '*',
            )[i],
{
    let len = text.len();
    frame_lines(text, len, len - 2, '*')
}

impl Point {
    /// How the point is written: `(x, y)`.
    pub open spec fn text(&self) -> Seq<char> {
        "("@ + decimal(self.x as int) + ", "@ + decimal(self.y as int) + ")"@
    }

    /// The point as written: `(x, y)`.
    pub fn to_text(&self) -> (s: String)
        ensures
            s@ == self.text(),
    {
        let mut v = chars_of("(");
        let x = decimal_chars(self.x as i128);
        extend_chars(&mut v, &x);
        let sep = chars_of(", ");
        extend_chars(&mut v, &sep);
        let y = decimal_chars(self.y as i128);
        extend_chars(&mut v, &y);
        let close = chars_of(")");
        extend_chars(&mut v, &close);
        string_of(&v)
    }

    /// The lines that frame the point in stars, with a blank row above and
    /// below it.
    pub fn outline(&self) -> (lines: Vec<String>)
        ensures
            lines@.len() == 5,
            forall|i: int|
                0 <= i < 5 ==> (#[trigger] lines@[i])@ == frame(
                    self.text(),
                    self.text().len() + 4,
                    self.text().len() + 2,
                    ' ',
                )[i],
    {
        let output = self.to_text();
        let text = output.as_str();
        proof {
            lemma_decimal_i32(self.x as int);
            lemma_decimal_i32(self.y as int);
            reveal_strlit("(");
            reveal_strlit(", ");
            reveal_strlit(")");
            assert(vstd::utf8::is_ascii_chars(self.text()));
            vstd::utf8::is_ascii_chars_encode_utf8(self.text());
        }
        let len = text.len();
        frame_lines(text, len + 4, len + 2, ' ')
    }
}

/// A list of strings, written as `[a, b, c]`.
pub struct Wrapper(pub Vec<String>);

/// The strings of `s` joined by `", "`.
pub open spec fn joined(s: Seq<Seq<char>>) -> Seq<char>
    decreases s.len(),
{
    if s.len() == 0 {
        Seq::empty()
    } else if s.len() == 1 {
        s[0]
    } else {
        joined(s.drop_last()) + ", "@ + s.last()
    }
}

impl Wrapper {
    /// The views of the strings held.
    pub open spec fn items(&self) -> Seq<Seq<char>> {
        Seq::new(self.0@.len(), |i: int| self.0@[i]@)
    }

    /// The list as written: `[`, the strings joined by `", "`, and `]`.
    pub fn to_text(&self) -> (s: String)
        ensures
            s@ == "["@ + joined(self.items()) + "]"@,
    {
        let mut v: Vec<char> = Vec::new();
        let mut i: usize = 0;
        while i < self.0.len()
            invariant
                i <= self.0@.len(),
                v@ == joined(self.items().take(i as int)),
            decreases self.0.len() - i,
        {
            if i > 0 {
                let sep = chars_of(", ");
                extend_chars(&mut v, &sep);
            }
            let item = chars_of(self.0[i].as_str());
            extend_chars(&mut v, &item);
            proof {
                assert(self.items().take(i + 1).drop_last() =~= self.items().take(i as int));
            }
            i = i + 1;
        }
        assert(self.items().take(i as int) =~= self.items());
        framed("[", &v, "]")
    }
}

} // verus!
