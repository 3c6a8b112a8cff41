use vstd::prelude::*;
use crate::colored::{Colored, ColoredView};
use crate::separators::{
    lemma_sep_width_from_nonneg, spec_embed_left, spec_embed_right, spec_seg_sep_width,
    SegSepTypes, SegSepTypesView,
};

verus! {

/// One ordered region of the bar.
pub enum Segment {
    /// A blank region whose width is computed at render time so that all
    /// dynamic spacers share the leftover width evenly.
    DynSpacer,
    /// A fixed-width blank region.
    StaticSpacer(u16),
    /// A run of content modules sharing one separator policy.  The modules
    /// themselves are external content providers that render on their own
    /// tasks; the engine holds only how many there are and how to decorate
    /// their edges.
    StatusSeg(usize, SegSepTypes),
}

/// The bar: an ordered segment list plus the side-spacing configuration.
/// Insertion order is display order, and rendering never reorders anything.
pub struct Bar {
    segments: Vec<Segment>,
    seps_on_sides: (bool, bool),
}

/// What one module task reports back: its decorated text, separators
/// embedded, and the plain character width of its own content.
pub struct RenderResult {
    pub text: String,
    pub width: u16,
}

/// The mathematical content of a [`RenderResult`].
pub ghost struct RenderResultView {
    pub text: Seq<char>,
    pub width: nat,
}

impl View for RenderResult {
    type V = RenderResultView;

    open spec fn view(&self) -> RenderResultView {
        RenderResultView { text: self.text@, width: self.width as nat }
    }
}

/// What a failed module task degrades to: an empty placeholder of reported
/// width zero, so the failure leaves the line silently.
pub open spec fn spec_placeholder() -> RenderResultView {
    RenderResultView { text: Seq::empty(), width: 0 }
}

pub open spec fn spec_outcome_view(o: Option<RenderResult>) -> Option<RenderResultView> {
    match o {
        Some(r) => Some(r@),
        None => None,
    }
}

pub open spec fn view_outcomes(outs: Seq<Option<RenderResult>>) -> Seq<Option<RenderResultView>> {
    outs.map_values(|o: Option<RenderResult>| spec_outcome_view(o))
}

/// Reported plain width of one module outcome; a failed task counts zero.
pub open spec fn spec_out_width(o: Option<RenderResultView>) -> int {
    match o {
        Some(r) => r.width as int,
        None => spec_placeholder().width as int,
    }
}

/// Text one module outcome contributes; a failed task contributes the
/// placeholder text.
pub open spec fn spec_out_text(o: Option<RenderResultView>) -> Seq<char> {
    match o {
        Some(r) => r.text,
        None => spec_placeholder().text,
    }
}

/// How many content modules one segment declares.
pub open spec fn spec_seg_modules(seg: Segment) -> int {
    match seg {
        Segment::StatusSeg(n, _) => n as int,
        _ => 0,
    }
}

/// How many content modules a segment list declares, in declaration order.
pub open spec fn spec_module_count(segs: Seq<Segment>) -> int
    decreases segs.len(),
{
    if segs.len() == 0 {
        0
    } else {
        spec_seg_modules(segs[0]) + spec_module_count(segs.drop_first())
    }
}

/// How many dynamic spacers a segment list holds.
pub open spec fn spec_dyn_count(segs: Seq<Segment>) -> int
    decreases segs.len(),
{
    if segs.len() == 0 {
        0
    } else {
        (match segs[0] {
            Segment::DynSpacer => 1int,
            _ => 0int,
        }) + spec_dyn_count(segs.drop_first())
    }
}

/// Sum of the reported widths of a run of module outcomes.
pub open spec fn spec_width_sum(outs: Seq<Option<RenderResultView>>) -> int
    decreases outs.len(),
{
    if outs.len() == 0 {
        0
    } else {
        spec_out_width(outs[0]) + spec_width_sum(outs.drop_first())
    }
}

/// Everything the render pass knows before dynamic spacers are sized: static
/// blanks, embedded separators, and the reported module widths.  `outs` holds
/// one outcome per module in declaration order.
pub open spec fn spec_fixed_width(segs: Seq<Segment>, outs: Seq<Option<RenderResultView>>) -> int
    decreases segs.len(),
{
    if segs.len() == 0 {
        0
    } else {
        match segs[0] {
            Segment::DynSpacer => spec_fixed_width(segs.drop_first(), outs),
            Segment::StaticSpacer(w) => w + spec_fixed_width(segs.drop_first(), outs),
            Segment::StatusSeg(n, sp) => spec_seg_sep_width(sp@, n as int) + spec_width_sum(
                outs.take(n as int),
            ) + spec_fixed_width(segs.drop_first(), outs.skip(n as int)),
        }
    }
}

/// The width every dynamic spacer receives: the leftover width divided
/// evenly, rounded down; zero when there are no dynamic spacers, and zero
/// when the fixed content already reaches or exceeds the target width.
pub open spec fn spec_dyn_width(w: int, fixed: int, dyn_spacers: int) -> int {
    if dyn_spacers <= 0 {
        0
    } else if fixed <= w {
        (w - fixed) / dyn_spacers
    } else {
        0
    }
}

/// A run of `n` blanks.
pub open spec fn spec_spaces(n: int) -> Seq<char> {
    Seq::new(if n >= 0 { n as nat } else { 0nat }, |i: int| ' ')
}

/// The texts of a run of module outcomes, concatenated in order.
pub open spec fn spec_texts(outs: Seq<Option<RenderResultView>>) -> Seq<char>
    decreases outs.len(),
{
    if outs.len() == 0 {
        Seq::empty()
    } else {
        spec_out_text(outs[0]) + spec_texts(outs.drop_first())
    }
}

/// The characters one segment contributes to the line, its module outcomes
/// (if any) standing at the front of `outs`.
pub open spec fn spec_segment_piece(
    seg: Segment,
    outs: Seq<Option<RenderResultView>>,
    dwidth: int,
) -> Seq<char> {
    match seg {
        Segment::DynSpacer => spec_spaces(dwidth),
        Segment::StaticSpacer(w) => spec_spaces(w as int),
        Segment::StatusSeg(n, _) => spec_texts(outs.take(n as int)),
    }
}

/// The finished line for a given dynamic-spacer width: the segments' pieces
/// concatenated in declaration order.
pub open spec fn spec_line(
    segs: Seq<Segment>,
    outs: Seq<Option<RenderResultView>>,
    dwidth: int,
) -> Seq<char>
    decreases segs.len(),
{
    if segs.len() == 0 {
        Seq::empty()
    } else {
        spec_segment_piece(segs[0], outs, dwidth) + spec_line(
            segs.drop_first(),
            outs.skip(spec_seg_modules(segs[0])),
            dwidth,
        )
    }
}

/// One full render of a segment list against target width `w`: the line built
/// with the dynamic-spacer width that the width accounting yields.
pub open spec fn spec_render(
    segs: Seq<Segment>,
    outs: Seq<Option<RenderResultView>>,
    w: int,
) -> Seq<char> {
    spec_line(segs, outs, spec_dyn_width(w, spec_fixed_width(segs, outs), spec_dyn_count(segs)))
}

/// The decorations a segment's `n` module tasks are handed, in module order.
pub open spec fn spec_seg_jobs(seps: SegSepTypesView, n: int) -> Seq<(ColoredView, ColoredView)> {
    Seq::new(
        if n >= 0 { n as nat } else { 0nat },
        |i: int| (spec_embed_left(seps, i, n), spec_embed_right(seps, i, n)),
    )
}

/// The decorations of every module task of the bar, flattened in declaration
/// order.
pub open spec fn spec_jobs(segs: Seq<Segment>) -> Seq<(ColoredView, ColoredView)>
    decreases segs.len(),
{
    if segs.len() == 0 {
        Seq::empty()
    } else {
        (match segs[0] {
            Segment::StatusSeg(n, sp) => spec_seg_jobs(sp@, n as int),
            _ => Seq::empty(),
        }) + spec_jobs(segs.drop_first())
    }
}

pub open spec fn view_jobs(jobs: Seq<(Colored, Colored)>) -> Seq<(ColoredView, ColoredView)> {
    jobs.map_values(|p: (Colored, Colored)| (p.0@, p.1@))
}

pub proof fn lemma_module_count_nonneg(segs: Seq<Segment>)
    ensures
        spec_module_count(segs) >= 0,
    decreases segs.len(),
{
    if segs.len() != 0 {
        lemma_module_count_nonneg(segs.drop_first());
    }
}

pub proof fn lemma_dyn_count_nonneg(segs: Seq<Segment>)
    ensures
        spec_dyn_count(segs) >= 0,
    decreases segs.len(),
{
    if segs.len() != 0 {
        lemma_dyn_count_nonneg(segs.drop_first());
    }
}

pub proof fn lemma_width_sum_nonneg(outs: Seq<Option<RenderResultView>>)
    ensures
        spec_width_sum(outs) >= 0,
    decreases outs.len(),
{
    if outs.len() != 0 {
        lemma_width_sum_nonneg(outs.drop_first());
    }
}

pub proof fn lemma_fixed_width_nonneg(segs: Seq<Segment>, outs: Seq<Option<RenderResultView>>)
    ensures
        spec_fixed_width(segs, outs) >= 0,
    decreases segs.len(),
{
    if segs.len() != 0 {
        match segs[0] {
            Segment::DynSpacer => {
                lemma_fixed_width_nonneg(segs.drop_first(), outs);
            },
            Segment::StaticSpacer(w) => {
                lemma_fixed_width_nonneg(segs.drop_first(), outs);
            },
            Segment::StatusSeg(n, sp) => {
                lemma_sep_width_from_nonneg(sp@, 0, n as int);
                lemma_width_sum_nonneg(outs.take(n as int));
                lemma_fixed_width_nonneg(segs.drop_first(), outs.skip(n as int));
            },
        }
    }
}

/// One render pass launches one task per declared module.
pub proof fn lemma_jobs_len(segs: Seq<Segment>)
    ensures
        spec_jobs(segs).len() == spec_module_count(segs),
    decreases segs.len(),
{
    lemma_module_count_nonneg(segs);
    if segs.len() != 0 {
        lemma_jobs_len(segs.drop_first());
        lemma_module_count_nonneg(segs.drop_first());
    }
}

/// The width every dynamic spacer receives for target width `w`.
pub fn dyn_spacer_width(w: u16, fixed: usize, dyn_spacers: usize) -> (r: usize)
    ensures
        r == spec_dyn_width(w as int, fixed as int, dyn_spacers as int),
{
    if dyn_spacers == 0 {
        0
    } else if fixed <= w as usize {
        (w as usize - fixed) / dyn_spacers
    } else {
        0
    }
}

/// A `String` of `n` blanks.
pub fn spaces(n: usize) -> (r: String)
    ensures
        r@ == spec_spaces(n as int),
{
    let mut s = String::new();
    for i in 0..n
        invariant
            s@ == spec_spaces(i as int),
    {
        s.append(" ");
        proof {
            reveal_strlit(" ");
            assert(s@ =~= spec_spaces(i + 1));
        }
    }
    s
}

/// The substitute for a failed module task.
pub fn placeholder_result() -> (r: RenderResult)
    ensures
        r@ == spec_placeholder(),
{
    RenderResult { text: String::new(), width: 0 }
}

impl RenderResult {
    /// An independent copy.
    pub fn duplicate(&self) -> (r: RenderResult)
        ensures
            r@ == self@,
    {
        RenderResult { text: self.text.clone(), width: self.width }
    }
}

impl Bar {
    /// An empty bar.  The side-spacing flags are carried for callers that
    /// read them back; nothing in separator resolution or width accounting
    /// consults them.
    pub fn new(seps_on_sides: (bool, bool)) -> (b: Bar)
        ensures
            b.segments() == Seq::<Segment>::empty(),
            b.sides() == seps_on_sides,
    {
        Bar { segments: Vec::new(), seps_on_sides }
    }

    /// Appends one segment at the right end of the bar.
    pub fn add_segment(&mut self, seg: Segment)
        ensures
            final(self).segments() == old(self).segments().push(seg),
            final(self).sides() == old(self).sides(),
    {
        self.segments.push(seg);
    }

    /// The ordered segment list.
    pub closed spec fn segments(&self) -> Seq<Segment> {
        self.segments@
    }

    /// The side-spacing configuration the bar was built with.
    pub closed spec fn sides(&self) -> (bool, bool) {
        self.seps_on_sides
    }

    /// How many module tasks one render pass launches, or `None` when the
    /// count does not fit the machine's word.
    pub fn module_count(&self) -> (r: Option<usize>)
        ensures
            r is Some <==> spec_module_count(self.segments()) <= usize::MAX,
            r matches Some(c) ==> c == spec_module_count(self.segments()),
    {
        let ghost segs = self.segments@;
        let mut acc: usize = 0;
        let n = self.segments.len();
        proof {
            assert(segs.skip(0int) =~= segs);
        }
        for si in 0..n
            invariant
                n == segs.len(),
                segs == self.segments@,
                acc + spec_module_count(segs.skip(si as int)) == spec_module_count(segs),
        {
            proof {
                assert(segs.skip(si as int)[0] == segs[si as int]);
                assert(segs.skip(si as int).drop_first() =~= segs.skip(si as int + 1));
            }
            match &self.segments[si] {
                Segment::StatusSeg(k, _) => {
                    proof {
                        lemma_module_count_nonneg(segs.skip(si as int + 1));
                    }
                    acc = match acc.checked_add(*k) {
                        Some(a) => a,
                        None => {
                            return None;
                        },
                    };
                },
                _ => {},
            }
        }
        proof {
            assert(segs.skip(n as int) =~= Seq::<Segment>::empty());
        }
        Some(acc)
    }

    /// How many dynamic spacers the bar holds.
    pub fn dyn_count(&self) -> (r: usize)
        ensures
            r == spec_dyn_count(self.segments()),
    {
        let ghost segs = self.segments@;
        let mut acc: usize = 0;
        let n = self.segments.len();
        proof {
            assert(segs.skip(0int) =~= segs);
        }
        for si in 0..n
            invariant
                n == segs.len(),
                segs == self.segments@,
                acc <= si,
                acc + spec_dyn_count(segs.skip(si as int)) == spec_dyn_count(segs),
        {
            proof {
                assert(segs.skip(si as int)[0] == segs[si as int]);
                assert(segs.skip(si as int).drop_first() =~= segs.skip(si as int + 1));
            }
            match &self.segments[si] {
                Segment::DynSpacer => {
                    acc = acc + 1;
                },
                _ => {},
            }
        }
        proof {
            assert(segs.skip(n as int) =~= Seq::<Segment>::empty());
        }
        acc
    }

    /// The width accounting of one render pass over the given module
    /// outcomes, or `None` when the total does not fit the machine's word.
    pub fn fixed_width(&self, outcomes: &Vec<Option<RenderResult>>) -> (r: Option<usize>)
        requires
            outcomes@.len() == spec_module_count(self.segments()),
        ensures
            r is Some <==> spec_fixed_width(self.segments(), view_outcomes(outcomes@))
                <= usize::MAX,
            r matches Some(f) ==> f == spec_fixed_width(self.segments(), view_outcomes(outcomes@)),
    {
        let ghost segs = self.segments@;
        let ghost outsv = view_outcomes(outcomes@);
        let ghost total = spec_fixed_width(segs, outsv);
        let mut acc: usize = 0;
        let mut idx: usize = 0;
        let n = self.segments.len();
        let olen = outcomes.len();
        proof {
            assert(segs.skip(0int) =~= segs);
            assert(outsv.skip(0int) =~= outsv);
        }
        for si in 0..n
            invariant
                n == segs.len(),
                segs == self.segments@,
                outsv == view_outcomes(outcomes@),
                total == spec_fixed_width(segs, outsv),
                outsv.len() == outcomes@.len(),
                olen == outcomes@.len(),
                idx <= olen,
                idx + spec_module_count(segs.skip(si as int)) == outcomes@.len(),
                acc + spec_fixed_width(segs.skip(si as int), outsv.skip(idx as int)) == total,
        {
            proof {
                assert(segs.skip(si as int)[0] == segs[si as int]);
                assert(segs.skip(si as int).drop_first() =~= segs.skip(si as int + 1));
            }
            match &self.segments[si] {
                Segment::DynSpacer => {},
                Segment::StaticSpacer(w) => {
                    proof {
                        lemma_fixed_width_nonneg(segs.skip(si as int + 1), outsv.skip(idx as int));
                    }
                    acc = match acc.checked_add(*w as usize) {
                        Some(a) => a,
                        None => {
                            return None;
                        },
                    };
                },
                Segment::StatusSeg(k, sp) => {
                    let nk = *k;
                    proof {
                        lemma_module_count_nonneg(segs.skip(si as int + 1));
                        assert(outsv.skip(idx as int).take(nk as int) =~= outsv.subrange(
                            idx as int,
                            idx as int + nk as int,
                        ));
                        assert(outsv.skip(idx as int).skip(nk as int) =~= outsv.skip(
                            idx as int + nk as int,
                        ));
                        lemma_width_sum_nonneg(outsv.subrange(idx as int, idx as int + nk as int));
                        lemma_fixed_width_nonneg(
                            segs.skip(si as int + 1),
                            outsv.skip(idx as int + nk as int),
                        );
                        lemma_sep_width_from_nonneg(sp@, 0, nk as int);
                    }
                    let sw = match sp.seg_sep_width(nk) {
                        Some(sw) => sw,
                        None => {
                            return None;
                        },
                    };
                    acc = match acc.checked_add(sw) {
                        Some(a) => a,
                        None => {
                            return None;
                        },
                    };
                    let ghost rest = spec_fixed_width(
                        segs.skip(si as int + 1),
                        outsv.skip(idx as int + nk as int),
                    );
                    proof {
                        lemma_fixed_width_nonneg(
                            segs.skip(si as int + 1),
                            outsv.skip(idx as int + nk as int),
                        );
                    }
                    for mj in 0..nk
                        invariant
                            segs == self.segments@,
                            outsv == view_outcomes(outcomes@),
                            total == spec_fixed_width(segs, outsv),
                            outsv.len() == outcomes@.len(),
                            olen == outcomes@.len(),
                            idx + nk <= olen,
                            rest >= 0,
                            acc + spec_width_sum(
                                outsv.subrange(idx as int + mj as int, idx as int + nk as int),
                            ) + rest == total,
                    {
                        let ghost run = outsv.subrange(
                            idx as int + mj as int,
                            idx as int + nk as int,
                        );
                        proof {
                            assert(run[0] == outsv[idx as int + mj as int]);
                            assert(outsv[idx as int + mj as int] == spec_outcome_view(
                                outcomes@[idx as int + mj as int],
                            ));
                            assert(run.drop_first() =~= outsv.subrange(
                                idx as int + mj as int + 1,
                                idx as int + nk as int,
                            ));
                            lemma_width_sum_nonneg(run.drop_first());
                        }
                        let wd: usize = match &outcomes[idx + mj] {
                            Some(rr) => rr.width as usize,
                            None => 0,
                        };
                        proof {
                            assert(wd == spec_out_width(run[0]));
                            assert(spec_width_sum(run) == wd + spec_width_sum(run.drop_first()));
                        }
                        acc = match acc.checked_add(wd) {
                            Some(a) => a,
                            None => {
                                return None;
                            },
                        };
                    }
                    proof {
                        assert(outsv.subrange(
                            idx as int + nk as int,
                            idx as int + nk as int,
                        ) =~= Seq::<Option<RenderResultView>>::empty());
                    }
                    idx = idx + nk;
                },
            }
        }
        proof {
            assert(segs.skip(n as int) =~= Seq::<Segment>::empty());
        }
        Some(acc)
    }

    /// Renders one line.  `outcomes` holds what each module task reported,
    /// one entry per module in declaration order, `None` for a task that
    /// failed.
    ///
    /// The result is the segments' pieces concatenated in declaration order:
    /// blanks for the spacers, and for every module its reported text, a
    /// failed task degrading to the placeholder.  Every dynamic spacer is
    /// given the same number of blanks: the leftover width divided evenly,
    /// rounded down, and zero when the fixed content already reaches or
    /// exceeds the target width.
    pub fn render_line(&self, w: u16, outcomes: &Vec<Option<RenderResult>>) -> (r: String)
        requires
            outcomes@.len() == spec_module_count(self.segments()),
            spec_fixed_width(self.segments(), view_outcomes(outcomes@)) <= usize::MAX,
        ensures
            r@ == spec_render(self.segments(), view_outcomes(outcomes@), w as int),
    {
        let ghost segs = self.segments@;
        let ghost outsv = view_outcomes(outcomes@);
        let fixed = match self.fixed_width(outcomes) {
            Some(f) => f,
            None => unreached(),
        };
        let dcount = self.dyn_count();
        let dwidth = dyn_spacer_width(w, fixed, dcount);
        let ghost dw = spec_dyn_width(
            w as int,
            spec_fixed_width(segs, outsv),
            spec_dyn_count(segs),
        );
        let dyn_blanks = spaces(dwidth);
        let mut out = String::new();
        let mut idx: usize = 0;
        let n = self.segments.len();
        let olen = outcomes.len();
        proof {
            assert(segs.skip(0int) =~= segs);
            assert(outsv.skip(0int) =~= outsv);
            assert(Seq::<char>::empty() + spec_line(segs, outsv, dw) =~= spec_line(
                segs,
                outsv,
                dw,
            ));
        }
        for si in 0..n
            invariant
                n == segs.len(),
                segs == self.segments@,
                outsv == view_outcomes(outcomes@),
                outsv.len() == outcomes@.len(),
                olen == outcomes@.len(),
                idx <= olen,
                idx + spec_module_count(segs.skip(si as int)) == outcomes@.len(),
                dw == spec_dyn_width(w as int, spec_fixed_width(segs, outsv), spec_dyn_count(segs)),
                dyn_blanks@ == spec_spaces(dw),
                out@ + spec_line(segs.skip(si as int), outsv.skip(idx as int), dw) == spec_line(
                    segs,
                    outsv,
                    dw,
                ),
        {
            proof {
                assert(segs.skip(si as int)[0] == segs[si as int]);
                assert(segs.skip(si as int).drop_first() =~= segs.skip(si as int + 1));
            }
            match &self.segments[si] {
                Segment::DynSpacer => {
                    let ghost out0 = out@;
                    out.append(dyn_blanks.as_str());
                    proof {
                        assert(outsv.skip(idx as int).skip(0int) =~= outsv.skip(idx as int));
                        let tail = spec_line(segs.skip(si as int + 1), outsv.skip(idx as int), dw);
                        assert((out0 + spec_spaces(dw)) + tail =~= out0 + (spec_spaces(dw) + tail));
                    }
                },
                Segment::StaticSpacer(sw) => {
                    let blanks = spaces(*sw as usize);
                    let ghost out0 = out@;
                    out.append(blanks.as_str());
                    proof {
                        assert(outsv.skip(idx as int).skip(0int) =~= outsv.skip(idx as int));
                        let tail = spec_line(segs.skip(si as int + 1), outsv.skip(idx as int), dw);
                        assert((out0 + spec_spaces(*sw as int)) + tail =~= out0 + (spec_spaces(
                            *sw as int,
                        ) + tail));
                    }
                },
                Segment::StatusSeg(k, _) => {
                    let nk = *k;
                    proof {
                        lemma_module_count_nonneg(segs.skip(si as int + 1));
                        assert(outsv.skip(idx as int).take(nk as int) =~= outsv.subrange(
                            idx as int,
                            idx as int + nk as int,
                        ));
                        assert(outsv.skip(idx as int).skip(nk as int) =~= outsv.skip(
                            idx as int + nk as int,
                        ));
                    }
                    let ghost tail = spec_line(
                        segs.skip(si as int + 1),
                        outsv.skip(idx as int + nk as int),
                        dw,
                    );
                    proof {
                        let out0 = out@;
                        assert(out0 + (spec_texts(
                            outsv.subrange(idx as int, idx as int + nk as int),
                        ) + tail) =~= (out0 + spec_texts(
                            outsv.subrange(idx as int, idx as int + nk as int),
                        )) + tail);
                    }
                    for mj in 0..nk
                        invariant
                            segs == self.segments@,
                            outsv == view_outcomes(outcomes@),
                            outsv.len() == outcomes@.len(),
                            olen == outcomes@.len(),
                            idx + nk <= olen,
                            out@ + (spec_texts(
                                outsv.subrange(idx as int + mj as int, idx as int + nk as int),
                            ) + tail) == spec_line(segs, outsv, dw),
                    {
                        let ghost run = outsv.subrange(
                            idx as int + mj as int,
                            idx as int + nk as int,
                        );
                        let ghost out0 = out@;
                        match &outcomes[idx + mj] {
                            Some(rr) => out.append(rr.text.as_str()),
                            None => {
                                let ph = placeholder_result();
                                out.append(ph.text.as_str());
                            },
                        }
                        proof {
                            assert(run[0] == outsv[idx as int + mj as int]);
                            assert(outsv[idx as int + mj as int] == spec_outcome_view(
                                outcomes@[idx as int + mj as int],
                            ));
                            assert(run.drop_first() =~= outsv.subrange(
                                idx as int + mj as int + 1,
                                idx as int + nk as int,
                            ));
                            assert(out@ == out0 + spec_out_text(run[0]));
                            assert(spec_texts(run) == spec_out_text(run[0]) + spec_texts(
                                run.drop_first(),
                            ));
                            assert((out0 + spec_out_text(run[0])) + (spec_texts(run.drop_first())
                                + tail) =~= out0 + ((spec_out_text(run[0]) + spec_texts(
                                run.drop_first(),
                            )) + tail));
                            assert((spec_out_text(run[0]) + spec_texts(run.drop_first())) + tail
                                =~= spec_texts(run) + tail);
                        }
                    }
                    proof {
                        assert(outsv.subrange(
                            idx as int + nk as int,
                            idx as int + nk as int,
                        ) =~= Seq::<Option<RenderResultView>>::empty());
                        assert(Seq::<char>::empty() + tail =~= tail);
                    }
                    idx = idx + nk;
                },
            }
        }
        proof {
            assert(segs.skip(n as int) =~= Seq::<Segment>::empty());
            assert(out@ + Seq::<char>::empty() =~= out@);
        }
        out
    }

    /// The decorations for every module task of one render pass, flattened
    /// in declaration order: element `j` decorates the `j`-th declared
    /// module of the bar.
    pub fn module_jobs(&self) -> (jobs: Vec<(Colored, Colored)>)
        ensures
            view_jobs(jobs@) == spec_jobs(self.segments()),
            jobs@.len() == spec_module_count(self.segments()),
    {
        let ghost segs = self.segments@;
        let mut jobs: Vec<(Colored, Colored)> = Vec::new();
        let n = self.segments.len();
        proof {
            assert(segs.skip(0int) =~= segs);
            assert(view_jobs(jobs@) =~= Seq::<(ColoredView, ColoredView)>::empty());
            assert(Seq::<(ColoredView, ColoredView)>::empty() + spec_jobs(segs) =~= spec_jobs(
                segs,
            ));
        }
        for si in 0..n
            invariant
                n == segs.len(),
                segs == self.segments@,
                view_jobs(jobs@) + spec_jobs(segs.skip(si as int)) == spec_jobs(segs),
        {
            proof {
                assert(segs.skip(si as int)[0] == segs[si as int]);
                assert(segs.skip(si as int).drop_first() =~= segs.skip(si as int + 1));
            }
            match &self.segments[si] {
                Segment::StatusSeg(k, sp) => {
                    let nk = *k;
                    let ghost tail = spec_jobs(segs.skip(si as int + 1));
                    proof {
                        assert(spec_seg_jobs(sp@, nk as int).skip(0int) =~= spec_seg_jobs(
                            sp@,
                            nk as int,
                        ));
                        assert((view_jobs(jobs@) + spec_seg_jobs(sp@, nk as int)) + tail
                            =~= view_jobs(jobs@) + (spec_seg_jobs(sp@, nk as int) + tail));
                    }
                    for mj in 0..nk
                        invariant
                            segs == self.segments@,
                            segs[si as int] == Segment::StatusSeg(nk, *sp),
                            (view_jobs(jobs@) + spec_seg_jobs(sp@, nk as int).skip(mj as int))
                                + tail == spec_jobs(segs),
                    {
                        let ghost jobs0 = jobs@;
                        let ghost rest = spec_seg_jobs(sp@, nk as int).skip(mj as int);
                        let pair = sp.embedded(mj, nk);
                        jobs.push(pair);
                        proof {
                            assert(view_jobs(jobs@) =~= view_jobs(jobs0).push(
                                (pair.0@, pair.1@),
                            ));
                            assert(rest[0] == (pair.0@, pair.1@));
                            assert(rest.drop_first() =~= spec_seg_jobs(sp@, nk as int).skip(
                                mj as int + 1,
                            ));
                            assert((view_jobs(jobs0).push((pair.0@, pair.1@)) + rest.drop_first())
                                + tail =~= (view_jobs(jobs0) + rest) + tail);
                        }
                    }
                    proof {
                        assert(spec_seg_jobs(sp@, nk as int).skip(nk as int) =~= Seq::<
                            (ColoredView, ColoredView),
                        >::empty());
                        assert((view_jobs(jobs@) + Seq::<(ColoredView, ColoredView)>::empty())
                            + tail =~= view_jobs(jobs@) + tail);
                    }
                },
                _ => {
                    proof {
                        assert(Seq::<(ColoredView, ColoredView)>::empty() + spec_jobs(
                            segs.skip(si as int + 1),
                        ) =~= spec_jobs(segs.skip(si as int + 1)));
                    }
                },
            }
        }
        proof {
            assert(segs.skip(n as int) =~= Seq::<Segment>::empty());
            assert(view_jobs(jobs@) + Seq::<(ColoredView, ColoredView)>::empty() =~= view_jobs(
                jobs@,
            ));
            lemma_jobs_len(segs);
        }
        jobs
    }

    /// Renders one line after checking what [`Bar::render_line`] assumes:
    /// that `outcomes` holds one entry per declared module and that the fixed
    /// width fits the machine's word.  Returns `None` instead of a line
    /// exactly when one of the two fails.
    pub fn try_render_line(&self, w: u16, outcomes: &Vec<Option<RenderResult>>) -> (r: Option<
        String,
    >)
        ensures
            r is Some <==> (outcomes@.len() == spec_module_count(self.segments())
                && spec_fixed_width(self.segments(), view_outcomes(outcomes@)) <= usize::MAX),
            r matches Some(line) ==> line@ == spec_render(
                self.segments(),
                view_outcomes(outcomes@),
                w as int,
            ),
    {
        let olen = outcomes.len();
        match self.module_count() {
            None => None,
            Some(c) => {
                if c != olen {
                    None
                } else {
                    match self.fixed_width(outcomes) {
                        None => None,
                        Some(_) => Some(self.render_line(w, outcomes)),
                    }
                }
            },
        }
    }
}

/// Whether some entry of `tagged` carries the tag `i`.
pub open spec fn spec_has_tag(tagged: Seq<(usize, Option<RenderResult>)>, i: int) -> bool {
    exists|j: int| 0 <= j < tagged.len() && (#[trigger] tagged[j]).0 == i
}

/// Reassembles tagged task results into declaration order.
///
/// Entry `j` of `tagged` carries the result of the module declared at
/// position `tagged[j].0`, in whatever order the tasks happened to finish;
/// every declaration position is tagged exactly once.  The result holds each
/// outcome at its declaration position, so the line rendered from it does
/// not depend on the completion order.
pub fn collate_outcomes(tagged: &Vec<(usize, Option<RenderResult>)>) -> (r: Vec<
    Option<RenderResult>,
>)
    requires
        forall|j: int| 0 <= j < tagged@.len() ==> (#[trigger] tagged@[j]).0 < tagged@.len(),
        forall|j: int, k: int|
            0 <= j < k < tagged@.len() ==> (tagged@[j]).0 != (tagged@[k]).0,
        forall|i: int| 0 <= i < tagged@.len() ==> #[trigger] spec_has_tag(tagged@, i),
    ensures
        r@.len() == tagged@.len(),
        forall|j: int|
            0 <= j < tagged@.len() ==> spec_outcome_view(
                r@[(#[trigger] tagged@[j]).0 as int],
            ) == spec_outcome_view(tagged@[j].1),
{
    let n = tagged.len();
    let mut r: Vec<Option<RenderResult>> = Vec::new();
    for i in 0..n
        invariant
            n == tagged@.len(),
            r@.len() == i,
            forall|j: int| 0 <= j < n ==> (#[trigger] tagged@[j]).0 < n,
            forall|j: int, k: int| 0 <= j < k < n ==> (tagged@[j]).0 != (tagged@[k]).0,
            forall|i2: int| 0 <= i2 < n ==> #[trigger] spec_has_tag(tagged@, i2),
            forall|j: int|
                0 <= j < n && (#[trigger] tagged@[j]).0 < i ==> spec_outcome_view(
                    r@[tagged@[j].0 as int],
                ) == spec_outcome_view(tagged@[j].1),
    {
        let mut j: usize = 0;
        proof {
            assert(spec_has_tag(tagged@, i as int));
            let jw = choose|jj: int| 0 <= jj < tagged@.len() && (#[trigger] tagged@[jj]).0 == i;
            assert(0 <= jw < n && tagged@[jw].0 == i as int);
        }
        while j < n && tagged[j].0 != i
            invariant
                n == tagged@.len(),
                j <= n,
                exists|jj: int| j <= jj < n && (#[trigger] tagged@[jj]).0 == i,
            decreases n - j,
        {
            proof {
                let jj = choose|jj: int| j <= jj < n && (#[trigger] tagged@[jj]).0 == i;
                assert(jj >= j + 1);
            }
            j = j + 1;
        }
        let found = match &tagged[j].1 {
            Some(rr) => Some(rr.duplicate()),
            None => None,
        };
        r.push(found);
        proof {
            assert(tagged@[j as int].0 == i);
            assert(forall|j2: int|
                0 <= j2 < n && (#[trigger] tagged@[j2]).0 == i ==> j2 == j as int);
        }
    }
    r
}

} // verus!
