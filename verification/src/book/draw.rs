//! Drawing a screen of components of different kinds.
use vstd::prelude::*;

use crate::text::{chars_of, decimal, decimal_chars, extend_chars, string_of};

verus! {

/// Something that can be drawn: what drawing it shows.
pub trait Draw {
    spec fn drawing(&self) -> Seq<char>;

    fn draw(&self) -> (s: String)
        ensures
            s@ == self.drawing(),
    ;
}

/// A screen: its components, drawn in the order they were added. A
/// `Screen` holds components of any kind that can be drawn.
pub struct Screen<T: Draw + ?Sized = dyn Draw> {
    components: Vec<Box<T>>,
}

impl<T: Draw + ?Sized> Screen<T> {
    /// What each component of the screen shows, in order.
    pub closed spec fn drawings(&self) -> Seq<Seq<char>> {
        Seq::new(self.components@.len(), |i: int| self.components@[i].drawing())
    }

    /// Draws every component, in order: one line each.
    pub fn run(&self) -> (lines: Vec<String>)
        ensures
            lines@.len() == self.drawings().len(),
            forall|i: int| 0 <= i < lines@.len() ==> (#[trigger] lines@[i])@ == self.drawings()[i],
    {
        let mut lines: Vec<String> = Vec::new();
        let mut i: usize = 0;
        while i < self.components.len()
            invariant
                i <= self.components.len(),
                lines@.len() == i,
                forall|k: int| 0 <= k < i ==> (#[trigger] lines@[k])@ == self.drawings()[k],
            decreases self.components.len() - i,
        {
            let line = self.components[i].draw();
            lines.push(line);
            i = i + 1;
        }
        lines
    }

    /// An empty screen.
    pub fn new() -> (s: Self)
        ensures
            s.drawings() == Seq::<Seq<char>>::empty(),
    {
        let s = Screen { components: Vec::new() };
        assert(s.drawings() =~= Seq::<Seq<char>>::empty());
        s
    }

    /// Adds a component after the others.
    pub fn add(&mut self, component: Box<T>)
        ensures
            final(self).drawings() == old(self).drawings().push(component.drawing()),
    {
        self.components.push(component);
        assert(self.drawings() =~= old(self).drawings().push(component.drawing()));
    }
}

/// The drawings of the components, in order.
pub open spec fn drawings_of<T: Draw + ?Sized>(components: Seq<Box<T>>) -> Seq<Seq<char>> {
    Seq::new(components.len(), |i: int| components[i].drawing())
}

proof fn lemma_screen_prefix<T: Draw + ?Sized>(screens: Seq<Screen<T>>, components: Seq<Box<T>>, k: int)
    requires
        screens.len() == components.len() + 1,
        screens[0].drawings() == Seq::<Seq<char>>::empty(),
        forall|i: int|
            0 <= i < components.len() ==> screens[i + 1].drawings() == screens[i].drawings().push(
                (#[trigger] components[i]).drawing(),
            ),
        0 <= k < screens.len(),
    ensures
        screens[k].drawings() == drawings_of(components.take(k)),
    decreases k,
{
    if k == 0 {
        assert(drawings_of(components.take(0)) =~= Seq::<Seq<char>>::empty());
    } else {
        lemma_screen_prefix(screens, components, k - 1);
        let c = components[k - 1];
        assert(drawings_of(components.take(k)) =~= drawings_of(components.take(k - 1)).push(c.drawing()));
    }
}

/// A screen made by `new` and then given each component in turn by `add`
/// shows, when run, the drawing of each component once, in the order in
/// which they were added (nothing for a screen given none).
pub proof fn law_screen_draws_in_order<T: Draw + ?Sized>(screens: Seq<Screen<T>>, components: Seq<Box<T>>)
    requires
        screens.len() == components.len() + 1,
        screens[0].drawings() == Seq::<Seq<char>>::empty(),
        forall|i: int|
            0 <= i < components.len() ==> screens[i + 1].drawings() == screens[i].drawings().push(
                (#[trigger] components[i]).drawing(),
            ),
    ensures
        screens.last().drawings() == drawings_of(components),
{
    lemma_screen_prefix(screens, components, components.len() as int);
    assert(components.take(components.len() as int) =~= components);
}

/// A button of a given size.
pub struct Button {
    pub width: u32,
    pub height: u32,
}

impl Draw for Button {
    open spec fn drawing(&self) -> Seq<char> {
        "Drawing button, "@ + decimal(self.width as int) + " "@ + decimal(self.height as int)
    }

    fn draw(&self) -> (s: String) {
        let mut v = chars_of("Drawing button, ");
        let w = decimal_chars(self.width as i128);
        extend_chars(&mut v, &w);
        let sp = chars_of(" ");
        extend_chars(&mut v, &sp);
        let h = decimal_chars(self.height as i128);
        extend_chars(&mut v, &h);
        string_of(&v)
    }
}

/// A text input of a given length, with its label.
pub struct Input {
    pub length: u32,
    pub label: String,
}

impl Draw for Input {
    open spec fn drawing(&self) -> Seq<char> {
        "Drawing Input "@ + decimal(self.length as int) + ", "@ + self.label@
    }

    fn draw(&self) -> (s: String) {
        let mut v = chars_of("Drawing Input ");
        let n = decimal_chars(self.length as i128);
        extend_chars(&mut v, &n);
        let sep = chars_of(", ");
        extend_chars(&mut v, &sep);
        let label = chars_of(self.label.as_str());
        extend_chars(&mut v, &label);
        string_of(&v)
    }
}

} // verus!
