//! The engine's laws: order preservation, width conservation, equal
//! dynamic-spacer widths, and fault isolation, each stated over the
//! rendering model and proved once for every bar, every outcome sequence
//! and every target width.

use vstd::prelude::*;
use vstd::arithmetic::div_mod::{lemma_div_pos_is_pos, lemma_fundamental_div_mod};
use crate::bar::{
    spec_dyn_count, spec_dyn_width, spec_fixed_width, spec_line, spec_module_count, spec_out_text,
    spec_out_width, spec_placeholder, spec_render, spec_seg_modules, spec_segment_piece,
    spec_spaces, spec_texts, spec_width_sum, RenderResultView, Segment,
};
use crate::separators::{
    spec_embed_left, spec_embed_right, spec_sep_width_from, SegSepTypesView,
};

verus! {

/// Whether some entry of `tagged` carries the tag `i`.
pub open spec fn spec_covers(tagged: Seq<(int, Option<RenderResultView>)>, i: int) -> bool {
    exists|j: int| 0 <= j < tagged.len() && (#[trigger] tagged[j]).0 == i
}

/// Order preservation.
///
/// `outs` is the declared outcome sequence: entry `i` belongs to the module
/// declared at position `i`.  `tagged` lists the same outcomes in whatever
/// order the module tasks happened to finish, each paired with its
/// declaration position, and `collated` places each tagged outcome back at
/// its declaration position.  Then collation recovers the declared sequence
/// exactly, and the rendered line is the one of the declaration order,
/// whatever the completion order was.
pub proof fn lemma_order_preservation(
    segs: Seq<Segment>,
    outs: Seq<Option<RenderResultView>>,
    tagged: Seq<(int, Option<RenderResultView>)>,
    collated: Seq<Option<RenderResultView>>,
    w: int,
)
    requires
        tagged.len() == outs.len(),
        collated.len() == outs.len(),
        forall|j: int|
            0 <= j < tagged.len() ==> 0 <= (#[trigger] tagged[j]).0 < outs.len() && tagged[j].1
                == outs[tagged[j].0],
        forall|i: int| 0 <= i < outs.len() ==> #[trigger] spec_covers(tagged, i),
        forall|j: int|
            0 <= j < tagged.len() ==> collated[(#[trigger] tagged[j]).0] == tagged[j].1,
    ensures
        collated == outs,
        spec_render(segs, collated, w) == spec_render(segs, outs, w),
{
    assert forall|i: int| 0 <= i < outs.len() implies collated[i] == outs[i] by {
        assert(spec_covers(tagged, i));
        let j = choose|j: int| 0 <= j < tagged.len() && (#[trigger] tagged[j]).0 == i;
        assert(collated[i] == tagged[j].1);
    }
    assert(collated =~= outs);
}

/// Every module of a segment of `n` modules succeeded and reported a text
/// whose character count is exactly its reported width plus the plain width
/// of its two embedded separators.  `run` holds the segment's `n` outcomes.
pub open spec fn spec_seg_faithful(
    seps: SegSepTypesView,
    run: Seq<Option<RenderResultView>>,
    n: int,
) -> bool {
    forall|i: int|
        0 <= i < n ==> run[i] is Some && spec_out_text(run[i]).len() == spec_out_width(run[i])
            + (#[trigger] spec_embed_left(seps, i, n)).plain.len() + spec_embed_right(
            seps,
            i,
            n,
        ).plain.len()
}

/// [`spec_seg_faithful`] over every status segment, the outcomes aligned in
/// declaration order.
pub open spec fn spec_faithful(segs: Seq<Segment>, outs: Seq<Option<RenderResultView>>) -> bool
    decreases segs.len(),
{
    if segs.len() == 0 {
        true
    } else {
        match segs[0] {
            Segment::StatusSeg(n, sp) => spec_seg_faithful(sp@, outs.take(n as int), n as int)
                && spec_faithful(segs.drop_first(), outs.skip(n as int)),
            _ => spec_faithful(segs.drop_first(), outs),
        }
    }
}

proof fn lemma_seg_texts_len(
    seps: SegSepTypesView,
    run: Seq<Option<RenderResultView>>,
    i: int,
    n: int,
)
    requires
        0 <= i <= n,
        run.len() == n,
        spec_seg_faithful(seps, run, n),
    ensures
        spec_texts(run.skip(i)).len() == spec_width_sum(run.skip(i)) + spec_sep_width_from(
            seps,
            i,
            n,
        ),
    decreases n - i,
{
    if i == n {
        assert(run.skip(i) =~= Seq::<Option<RenderResultView>>::empty());
    } else {
        lemma_seg_texts_len(seps, run, i + 1, n);
        assert(run.skip(i)[0] == run[i]);
        assert(run.skip(i).drop_first() =~= run.skip(i + 1));
        assert(spec_embed_left(seps, i, n) == spec_embed_left(seps, i, n));
    }
}

/// The length of the rendered line: the fixed width plus one dynamic-spacer
/// width for every dynamic spacer, whenever every module task succeeded and
/// reported its width faithfully.
pub proof fn lemma_line_len(
    segs: Seq<Segment>,
    outs: Seq<Option<RenderResultView>>,
    dwidth: int,
)
    requires
        outs.len() == spec_module_count(segs),
        spec_faithful(segs, outs),
        dwidth >= 0,
    ensures
        spec_line(segs, outs, dwidth).len() == spec_fixed_width(segs, outs) + dwidth
            * spec_dyn_count(segs),
    decreases segs.len(),
{
    crate::bar::lemma_module_count_nonneg(segs);
    if segs.len() != 0 {
        crate::bar::lemma_module_count_nonneg(segs.drop_first());
        let dc = spec_dyn_count(segs.drop_first());
        match segs[0] {
            Segment::DynSpacer => {
                assert(outs.skip(0int) =~= outs);
                lemma_line_len(segs.drop_first(), outs, dwidth);
                assert(dwidth * (dc + 1) == dwidth * dc + dwidth) by (nonlinear_arith);
            },
            Segment::StaticSpacer(sw) => {
                assert(outs.skip(0int) =~= outs);
                lemma_line_len(segs.drop_first(), outs, dwidth);
            },
            Segment::StatusSeg(n, sp) => {
                lemma_seg_texts_len(sp@, outs.take(n as int), 0, n as int);
                assert(outs.take(n as int).skip(0int) =~= outs.take(n as int));
                lemma_line_len(segs.drop_first(), outs.skip(n as int), dwidth);
            },
        }
    }
}

/// Width conservation: when the bar holds at least one dynamic spacer, the
/// fixed content fits the target width, the leftover divides evenly among
/// the dynamic spacers, and every module task succeeded and reported its
/// width faithfully, the rendered line is exactly `w` characters long.
pub proof fn lemma_width_conservation(
    segs: Seq<Segment>,
    outs: Seq<Option<RenderResultView>>,
    w: int,
)
    requires
        outs.len() == spec_module_count(segs),
        spec_faithful(segs, outs),
        spec_dyn_count(segs) > 0,
        spec_fixed_width(segs, outs) <= w,
        (w - spec_fixed_width(segs, outs)) % spec_dyn_count(segs) == 0,
    ensures
        spec_render(segs, outs, w).len() == w,
{
    let fixed = spec_fixed_width(segs, outs);
    let dc = spec_dyn_count(segs);
    let dwidth = spec_dyn_width(w, fixed, dc);
    lemma_div_pos_is_pos(w - fixed, dc);
    lemma_line_len(segs, outs, dwidth);
    lemma_fundamental_div_mod(w - fixed, dc);
    assert(dc * ((w - fixed) / dc) == ((w - fixed) / dc) * dc) by (nonlinear_arith);
}

/// One piece per segment: the blanks of a spacer, or the concatenated
/// module texts of a status segment.
pub open spec fn spec_pieces(
    segs: Seq<Segment>,
    outs: Seq<Option<RenderResultView>>,
    dwidth: int,
) -> Seq<Seq<char>>
    decreases segs.len(),
{
    if segs.len() == 0 {
        Seq::empty()
    } else {
        seq![spec_segment_piece(segs[0], outs, dwidth)] + spec_pieces(
            segs.drop_first(),
            outs.skip(spec_seg_modules(segs[0])),
            dwidth,
        )
    }
}

proof fn lemma_line_is_pieces(segs: Seq<Segment>, outs: Seq<Option<RenderResultView>>, dwidth: int)
    ensures
        spec_pieces(segs, outs, dwidth).len() == segs.len(),
        spec_line(segs, outs, dwidth) == spec_pieces(segs, outs, dwidth).flatten(),
        forall|i: int|
            0 <= i < segs.len() && segs[i] is DynSpacer ==> #[trigger] spec_pieces(
                segs,
                outs,
                dwidth,
            )[i] == spec_spaces(dwidth),
    decreases segs.len(),
{
    let ps = spec_pieces(segs, outs, dwidth);
    if segs.len() == 0 {
        assert(ps.flatten() == Seq::<char>::empty());
    } else {
        let rest = spec_pieces(segs.drop_first(), outs.skip(spec_seg_modules(segs[0])), dwidth);
        lemma_line_is_pieces(segs.drop_first(), outs.skip(spec_seg_modules(segs[0])), dwidth);
        assert(ps.first() == spec_segment_piece(segs[0], outs, dwidth));
        assert(ps.drop_first() =~= rest);
        assert forall|i: int|
            0 <= i < segs.len() && segs[i] is DynSpacer implies #[trigger] ps[i] == spec_spaces(
            dwidth,
        ) by {
            if i > 0 {
                assert(segs.drop_first()[i - 1] == segs[i]);
                assert(rest[i - 1] == ps[i]);
            }
        }
    }
}

/// Dynamic distribution equality: one render uses a single dynamic-spacer
/// width.  The rendered line is the concatenation, in declaration order, of
/// one piece per segment, and every dynamic spacer's piece is the same run
/// of `spec_dyn_width` blanks.
pub proof fn lemma_dynamic_distribution(
    segs: Seq<Segment>,
    outs: Seq<Option<RenderResultView>>,
    w: int,
)
    ensures
        spec_pieces(
            segs,
            outs,
            spec_dyn_width(w, spec_fixed_width(segs, outs), spec_dyn_count(segs)),
        ).len() == segs.len(),
        spec_render(segs, outs, w) == spec_pieces(
            segs,
            outs,
            spec_dyn_width(w, spec_fixed_width(segs, outs), spec_dyn_count(segs)),
        ).flatten(),
        forall|i: int|
            0 <= i < segs.len() && segs[i] is DynSpacer ==> #[trigger] spec_pieces(
                segs,
                outs,
                spec_dyn_width(w, spec_fixed_width(segs, outs), spec_dyn_count(segs)),
            )[i] == spec_spaces(
                spec_dyn_width(w, spec_fixed_width(segs, outs), spec_dyn_count(segs)),
            ),
{
    lemma_line_is_pieces(
        segs,
        outs,
        spec_dyn_width(w, spec_fixed_width(segs, outs), spec_dyn_count(segs)),
    );
}

proof fn lemma_width_sum_update_none(outs: Seq<Option<RenderResultView>>, k: int)
    requires
        0 <= k < outs.len(),
        outs[k] is None,
    ensures
        spec_width_sum(outs.update(k, Some(spec_placeholder()))) == spec_width_sum(outs),
    decreases outs.len(),
{
    let u = outs.update(k, Some(spec_placeholder()));
    if k == 0 {
        assert(u.drop_first() =~= outs.drop_first());
    } else {
        assert(u[0] == outs[0]);
        assert(u.drop_first() =~= outs.drop_first().update(k - 1, Some(spec_placeholder())));
        lemma_width_sum_update_none(outs.drop_first(), k - 1);
    }
}

proof fn lemma_texts_update_none(outs: Seq<Option<RenderResultView>>, k: int)
    requires
        0 <= k < outs.len(),
        outs[k] is None,
    ensures
        spec_texts(outs.update(k, Some(spec_placeholder()))) == spec_texts(outs),
    decreases outs.len(),
{
    let u = outs.update(k, Some(spec_placeholder()));
    if k == 0 {
        assert(u.drop_first() =~= outs.drop_first());
        assert(spec_out_text(u[0]) == spec_out_text(outs[0]));
    } else {
        assert(u[0] == outs[0]);
        assert(u.drop_first() =~= outs.drop_first().update(k - 1, Some(spec_placeholder())));
        lemma_texts_update_none(outs.drop_first(), k - 1);
    }
}

proof fn lemma_fixed_width_update_none(
    segs: Seq<Segment>,
    outs: Seq<Option<RenderResultView>>,
    k: int,
)
    requires
        outs.len() == spec_module_count(segs),
        0 <= k < outs.len(),
        outs[k] is None,
    ensures
        spec_fixed_width(segs, outs.update(k, Some(spec_placeholder()))) == spec_fixed_width(
            segs,
            outs,
        ),
    decreases segs.len(),
{
    crate::bar::lemma_module_count_nonneg(segs);
    let u = outs.update(k, Some(spec_placeholder()));
    if segs.len() != 0 {
        crate::bar::lemma_module_count_nonneg(segs.drop_first());
        match segs[0] {
            Segment::DynSpacer => {
                lemma_fixed_width_update_none(segs.drop_first(), outs, k);
            },
            Segment::StaticSpacer(sw) => {
                lemma_fixed_width_update_none(segs.drop_first(), outs, k);
            },
            Segment::StatusSeg(n, sp) => {
                if k < n as int {
                    assert(u.take(n as int) =~= outs.take(n as int).update(
                        k,
                        Some(spec_placeholder()),
                    ));
                    assert(outs.take(n as int)[k] == outs[k]);
                    lemma_width_sum_update_none(outs.take(n as int), k);
                    assert(u.skip(n as int) =~= outs.skip(n as int));
                } else {
                    assert(u.take(n as int) =~= outs.take(n as int));
                    assert(u.skip(n as int) =~= outs.skip(n as int).update(
                        k - n as int,
                        Some(spec_placeholder()),
                    ));
                    assert(outs.skip(n as int)[k - n as int] == outs[k]);
                    lemma_fixed_width_update_none(segs.drop_first(), outs.skip(n as int), k - n);
                }
            },
        }
    }
}

proof fn lemma_line_update_none(
    segs: Seq<Segment>,
    outs: Seq<Option<RenderResultView>>,
    k: int,
    dwidth: int,
)
    requires
        outs.len() == spec_module_count(segs),
        0 <= k < outs.len(),
        outs[k] is None,
    ensures
        spec_line(segs, outs.update(k, Some(spec_placeholder())), dwidth) == spec_line(
            segs,
            outs,
            dwidth,
        ),
    decreases segs.len(),
{
    crate::bar::lemma_module_count_nonneg(segs);
    let u = outs.update(k, Some(spec_placeholder()));
    if segs.len() != 0 {
        crate::bar::lemma_module_count_nonneg(segs.drop_first());
        match segs[0] {
            Segment::DynSpacer => {
                assert(u.skip(0int) =~= u);
                assert(outs.skip(0int) =~= outs);
                lemma_line_update_none(segs.drop_first(), outs, k, dwidth);
            },
            Segment::StaticSpacer(sw) => {
                assert(u.skip(0int) =~= u);
                assert(outs.skip(0int) =~= outs);
                lemma_line_update_none(segs.drop_first(), outs, k, dwidth);
            },
            Segment::StatusSeg(n, sp) => {
                if k < n as int {
                    assert(u.take(n as int) =~= outs.take(n as int).update(
                        k,
                        Some(spec_placeholder()),
                    ));
                    assert(outs.take(n as int)[k] == outs[k]);
                    lemma_texts_update_none(outs.take(n as int), k);
                    assert(u.skip(n as int) =~= outs.skip(n as int));
                } else {
                    assert(u.take(n as int) =~= outs.take(n as int));
                    assert(u.skip(n as int) =~= outs.skip(n as int).update(
                        k - n as int,
                        Some(spec_placeholder()),
                    ));
                    assert(outs.skip(n as int)[k - n as int] == outs[k]);
                    lemma_line_update_none(segs.drop_first(), outs.skip(n as int), k - n, dwidth);
                }
            },
        }
    }
}

/// Fault isolation: a failed module task renders exactly as a task that
/// returned the placeholder of width zero would have — the other modules'
/// texts, the spacers and the dynamic widths are untouched.
pub proof fn lemma_fault_isolation(
    segs: Seq<Segment>,
    outs: Seq<Option<RenderResultView>>,
    k: int,
    w: int,
)
    requires
        outs.len() == spec_module_count(segs),
        0 <= k < outs.len(),
        outs[k] is None,
    ensures
        spec_render(segs, outs.update(k, Some(spec_placeholder())), w) == spec_render(
            segs,
            outs,
            w,
        ),
{
    lemma_fixed_width_update_none(segs, outs, k);
    lemma_line_update_none(
        segs,
        outs,
        k,
        spec_dyn_width(w, spec_fixed_width(segs, outs), spec_dyn_count(segs)),
    );
}

} // verus!
