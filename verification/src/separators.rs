use vstd::prelude::*;
use crate::colored::{Colored, ColoredView};

verus! {

/// The separator policy of one status segment: which decorations wrap each of
/// its modules.
pub enum SegSepTypes {
    /// The same separator on both sides of the first module and between
    /// subsequent modules.
    One(Colored),
    /// Every module carries the first value on its left and the second on its
    /// right.
    Two(Colored, Colored),
    /// The first value opens the segment, the last closes it, and the middle
    /// one stands on every interior boundary.
    Three(Colored, Colored, Colored),
}

/// The mathematical content of a [`SegSepTypes`] value.
pub ghost enum SegSepTypesView {
    One(ColoredView),
    Two(ColoredView, ColoredView),
    Three(ColoredView, ColoredView, ColoredView),
}

impl View for SegSepTypes {
    type V = SegSepTypesView;

    open spec fn view(&self) -> SegSepTypesView {
        match self {
            SegSepTypes::One(s) => SegSepTypesView::One(s@),
            SegSepTypes::Two(b, a) => SegSepTypesView::Two(b@, a@),
            SegSepTypes::Three(b, m, a) => SegSepTypesView::Three(b@, m@, a@),
        }
    }
}

/// The decoration on the left edge of module `i` in a segment of `n` modules.
pub open spec fn spec_left_edge(seps: SegSepTypesView, i: int, n: int) -> ColoredView {
    match seps {
        SegSepTypesView::One(s) => if i == 0 { s } else { ColoredView::empty() },
        SegSepTypesView::Two(before, _) => before,
        SegSepTypesView::Three(before, mid, _) => if i == 0 { before } else { mid },
    }
}

/// The decoration on the right edge of module `i` in a segment of `n` modules.
pub open spec fn spec_right_edge(seps: SegSepTypesView, i: int, n: int) -> ColoredView {
    match seps {
        SegSepTypesView::One(s) => s,
        SegSepTypesView::Two(_, after) => after,
        SegSepTypesView::Three(_, mid, after) => if i == n - 1 { after } else { mid },
    }
}

/// The decoration actually embedded to the left of module `i`'s content.
///
/// For a `Three` policy an interior boundary is shared between two
/// neighbouring modules; it is emitted once, by the left neighbour's right
/// edge, so the right neighbour embeds nothing on its left.  For `One` the
/// resolved interior left edge is already empty, and for `Two` every module
/// embeds its full wrap, so only `Three` differs from the resolved edge.
pub open spec fn spec_embed_left(seps: SegSepTypesView, i: int, n: int) -> ColoredView {
    match seps {
        SegSepTypesView::Three(before, _, _) => if i == 0 { before } else { ColoredView::empty() },
        _ => spec_left_edge(seps, i, n),
    }
}

/// The decoration actually embedded to the right of module `i`'s content:
/// always the resolved right edge.
pub open spec fn spec_embed_right(seps: SegSepTypesView, i: int, n: int) -> ColoredView {
    spec_right_edge(seps, i, n)
}

/// Plain width the embedded separators contribute for modules `i..n` of a
/// segment of `n` modules.
pub open spec fn spec_sep_width_from(seps: SegSepTypesView, i: int, n: int) -> int
    decreases n - i,
{
    if i < 0 || i >= n {
        0
    } else {
        spec_embed_left(seps, i, n).plain.len() + spec_embed_right(seps, i, n).plain.len()
            + spec_sep_width_from(seps, i + 1, n)
    }
}

/// Plain width all embedded separators of a segment of `n` modules contribute
/// to the fixed width.
pub open spec fn spec_seg_sep_width(seps: SegSepTypesView, n: int) -> int {
    spec_sep_width_from(seps, 0, n)
}

pub proof fn lemma_sep_width_from_nonneg(seps: SegSepTypesView, i: int, n: int)
    ensures
        spec_sep_width_from(seps, i, n) >= 0,
    decreases n - i,
{
    if 0 <= i < n {
        lemma_sep_width_from_nonneg(seps, i + 1, n);
    }
}

impl SegSepTypes {
    /// Resolves the logical edge decorations of module `i` of `n`.
    ///
    /// `One(s)`: the first module gets `s` on both edges, later modules an
    /// empty left edge and `s` on the right.  `Two(b, a)`: every module gets
    /// `(b, a)`.  `Three(b, m, a)`: the left edge is `b` for the first module
    /// and `m` otherwise; the right edge is `a` for the last module and `m`
    /// otherwise; a singleton therefore gets `(b, a)`.
    pub fn resolve(&self, i: usize, n: usize) -> (r: (Colored, Colored))
        requires
            i < n,
        ensures
            r.0@ == spec_left_edge(self@, i as int, n as int),
            r.1@ == spec_right_edge(self@, i as int, n as int),
    {
        match self {
            SegSepTypes::One(s) => {
                if i == 0 {
                    (s.duplicate(), s.duplicate())
                } else {
                    (Colored::empty(), s.duplicate())
                }
            },
            SegSepTypes::Two(before, after) => (before.duplicate(), after.duplicate()),
            SegSepTypes::Three(before, mid, after) => (
                if i == 0 { before.duplicate() } else { mid.duplicate() },
                if i == n - 1 { after.duplicate() } else { mid.duplicate() },
            ),
        }
    }

    /// Total plain width the embedded separators of a segment of `n` modules
    /// contribute, or `None` when it does not fit the machine's word.
    pub fn seg_sep_width(&self, n: usize) -> (r: Option<usize>)
        ensures
            r is Some <==> spec_seg_sep_width(self@, n as int) <= usize::MAX,
            r matches Some(sw) ==> sw == spec_seg_sep_width(self@, n as int),
    {
        let mut acc: usize = 0;
        for i in 0..n
            invariant
                acc + spec_sep_width_from(self@, i as int, n as int) == spec_seg_sep_width(
                    self@,
                    n as int,
                ),
        {
            proof {
                lemma_sep_width_from_nonneg(self@, i as int + 1, n as int);
            }
            let (le, re) = self.embedded(i, n);
            let ll = le.plain_len();
            let rl = re.plain_len();
            acc = match acc.checked_add(ll) {
                Some(a) => a,
                None => {
                    return None;
                },
            };
            acc = match acc.checked_add(rl) {
                Some(a) => a,
                None => {
                    return None;
                },
            };
        }
        Some(acc)
    }

    /// The pair of decorations embedded around module `i`'s content by its
    /// rendering task, and counted into the fixed width.
    pub fn embedded(&self, i: usize, n: usize) -> (r: (Colored, Colored))
        requires
            i < n,
        ensures
            r.0@ == spec_embed_left(self@, i as int, n as int),
            r.1@ == spec_embed_right(self@, i as int, n as int),
    {
        match self {
            SegSepTypes::Three(before, mid, after) => (
                if i == 0 { before.duplicate() } else { Colored::empty() },
                if i == n - 1 { after.duplicate() } else { mid.duplicate() },
            ),
            _ => self.resolve(i, n),
        }
    }
}

/// How the embedded decorations realise the resolved edges.
///
/// Every module embeds its resolved right edge.  The first module also
/// embeds its resolved left edge.  An interior module of a `Three` segment
/// embeds nothing on its left because its resolved left edge — the middle
/// separator — is the very decoration its predecessor already embeds on the
/// right, so each boundary stands in the line exactly once; under `One` and
/// `Two` the embedded pair is the resolved pair at every position.
pub proof fn lemma_embedded_edges(seps: SegSepTypesView, i: int, n: int)
    requires
        0 <= i < n,
    ensures
        spec_embed_right(seps, i, n) == spec_right_edge(seps, i, n),
        i == 0 ==> spec_embed_left(seps, i, n) == spec_left_edge(seps, i, n),
        seps matches SegSepTypesView::Three(_, _, _) && i > 0 ==> spec_embed_left(seps, i, n)
            == ColoredView::empty() && spec_left_edge(seps, i, n) == spec_right_edge(
            seps,
            i - 1,
            n,
        ),
        !(seps matches SegSepTypesView::Three(_, _, _)) ==> spec_embed_left(seps, i, n)
            == spec_left_edge(seps, i, n),
{
}

/// Separator resolution depends only on a module's position inside its own
/// segment: for `One(s)` the first module is wrapped in `s` on both sides and
/// every later module carries `s` only on its right; for `Two(b, a)` every
/// module is wrapped in `(b, a)` whatever its position; for `Three(b, m, a)`
/// the left edge is `b` first and `m` after, the right edge is `a` last and
/// `m` before, and a singleton segment resolves to `(b, a)`.
pub proof fn lemma_separator_resolution(
    s: ColoredView,
    a: ColoredView,
    m: ColoredView,
    b: ColoredView,
    i: int,
    n: int,
)
    requires
        0 <= i < n,
    ensures
        spec_left_edge(SegSepTypesView::One(s), 0, n) == s,
        i > 0 ==> spec_left_edge(SegSepTypesView::One(s), i, n) == ColoredView::empty(),
        spec_right_edge(SegSepTypesView::One(s), i, n) == s,
        spec_left_edge(SegSepTypesView::Two(a, b), i, n) == a,
        spec_right_edge(SegSepTypesView::Two(a, b), i, n) == b,
        spec_left_edge(SegSepTypesView::Three(a, m, b), 0, n) == a,
        i > 0 ==> spec_left_edge(SegSepTypesView::Three(a, m, b), i, n) == m,
        i < n - 1 ==> spec_right_edge(SegSepTypesView::Three(a, m, b), i, n) == m,
        spec_right_edge(SegSepTypesView::Three(a, m, b), n - 1, n) == b,
        n == 1 ==> spec_left_edge(SegSepTypesView::Three(a, m, b), i, n) == a
            && spec_right_edge(SegSepTypesView::Three(a, m, b), i, n) == b,
{
}

} // verus!
