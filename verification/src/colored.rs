use vstd::prelude::*;
use vstd::string::StrSliceExecFns;

verus! {

/// The mathematical content of a [`Colored`] value: the characters of its
/// plain form and of its decorated form.
pub ghost struct ColoredView {
    pub plain: Seq<char>,
    pub decorated: Seq<char>,
}

impl ColoredView {
    /// The empty decoration: no characters in either form.
    pub open spec fn empty() -> ColoredView {
        ColoredView { plain: Seq::empty(), decorated: Seq::empty() }
    }
}

/// A piece of display text in two forms: the plain form, whose character
/// count is what the width accounting uses, and the decorated form, which
/// carries the formatting escapes and is what reaches the emitted line.
pub struct Colored {
    plain: String,
    decorated: String,
}

impl View for Colored {
    type V = ColoredView;

    closed spec fn view(&self) -> ColoredView {
        ColoredView { plain: self.plain@, decorated: self.decorated@ }
    }
}

impl Colored {
    /// Builds a value from its two forms.
    pub fn new(plain: String, decorated: String) -> (c: Colored)
        ensures
            c@ == (ColoredView { plain: plain@, decorated: decorated@ }),
    {
        Colored { plain, decorated }
    }

    /// The empty decoration: both forms hold no characters.
    pub fn empty() -> (c: Colored)
        ensures
            c@ == ColoredView::empty(),
    {
        Colored { plain: String::new(), decorated: String::new() }
    }

    /// An independent copy with the same two forms.
    pub fn duplicate(&self) -> (c: Colored)
        ensures
            c@ == self@,
    {
        Colored { plain: self.plain.clone(), decorated: self.decorated.clone() }
    }

    /// The plain form, used only for width accounting.
    pub fn get_plain(&self) -> (s: &str)
        ensures
            s@ == self@.plain,
    {
        self.plain.as_str()
    }

    /// The decorated form, used only for the emitted line.
    pub fn get_colored(&self) -> (s: &str)
        ensures
            s@ == self@.decorated,
    {
        self.decorated.as_str()
    }

    /// Character count of the plain form: what this decoration contributes to
    /// the fixed width.
    pub fn plain_len(&self) -> (n: usize)
        ensures
            n == self@.plain.len(),
    {
        self.plain.as_str().unicode_len()
    }
}

} // verus!
