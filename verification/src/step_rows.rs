//! Rebuilding a step's flat rows: adding the verify rows of speculating slots
//! and dropping the rows of slots whose provisioning failed.
//!
//! The flat arrays are packed in slot order by the per-slot counts, so changing
//! a slot's count without its rows would misalign every slot after it.

use crate::scheduler::{phase_fits, phases_of, shifted_phase};
use crate::slot_batch::{low_i32, rows_sum, wrap_i32, SlotBatch};
use vstd::prelude::*;

verus! {

/// The pieces `f(0) .. f(n - 1)` one after the other.
pub open spec fn joined<T>(f: spec_fn(int) -> Seq<T>, n: int) -> Seq<T>
    decreases n,
{
    if n <= 0 {
        Seq::empty()
    } else {
        joined(f, n - 1) + f(n - 1)
    }
}

/// First flat row of slot `s`.
pub open spec fn row_offset(m: Seq<usize>, s: int) -> int {
    rows_sum(m.take(s))
}

/// Rows of slot `s`; none past the counted slots.
pub open spec fn rows_of(m: Seq<usize>, s: int) -> int {
    if 0 <= s < m.len() {
        m[s] as int
    } else {
        0
    }
}

/// The part of a flat array that belongs to slot `s`.
pub open spec fn slot_part<T>(m: Seq<usize>, flat: Seq<T>, s: int) -> Seq<T> {
    if 0 <= s < m.len() {
        flat.subrange(row_offset(m, s), row_offset(m, s) + m[s])
    } else {
        Seq::empty()
    }
}

proof fn lemma_offsets(m: Seq<usize>, s: int)
    requires
        0 <= s < m.len(),
    ensures
        row_offset(m, s + 1) == row_offset(m, s) + m[s],
        0 <= row_offset(m, s),
        row_offset(m, s + 1) <= rows_sum(m),
    decreases m.len() - s,
{
    assert(m.take(s + 1).drop_last() =~= m.take(s));
    lemma_rows_sum_nonnegative(m.take(s));
    if s + 1 < m.len() {
        lemma_offsets(m, s + 1);
    } else {
        assert(m.take(s + 1) =~= m);
    }
}

proof fn lemma_rows_sum_nonnegative(m: Seq<usize>)
    ensures
        rows_sum(m) >= 0,
    decreases m.len(),
{
    if m.len() > 0 {
        lemma_rows_sum_nonnegative(m.drop_last());
    }
}

/// Where a piece lies among the joined ones.
proof fn lemma_joined_part<T>(f: spec_fn(int) -> Seq<T>, m: Seq<usize>, n: int, s: int)
    requires
        0 <= s < n <= m.len(),
        forall|k: int| 0 <= k < n ==> (#[trigger] f(k)).len() == m[k],
    ensures
        joined(f, n).len() == row_offset(m, n),
        joined(f, n).subrange(row_offset(m, s), row_offset(m, s) + m[s]) == f(s),
    decreases n,
{
    lemma_offsets(m, n - 1);
    lemma_offsets(m, s);
    if n - 1 > 0 {
        lemma_joined_part(f, m, n - 1, if s < n - 1 {
            s
        } else {
            0
        });
    } else {
        assert(m.take(0) =~= Seq::empty());
        assert(row_offset(m, 0) == 0);
        assert(joined(f, 0) =~= Seq::empty());
    }
    assert(f(n - 1).len() == m[n - 1]);
    let all = joined(f, n);
    if s < n - 1 {
        lemma_row_offset_bound(m, s + 1, n - 1);
        assert(all.subrange(row_offset(m, s), row_offset(m, s) + m[s]) =~= joined(
            f,
            n - 1,
        ).subrange(row_offset(m, s), row_offset(m, s) + m[s]));
    } else {
        assert(all.subrange(row_offset(m, s), row_offset(m, s) + m[s]) =~= f(s));
    }
}

proof fn lemma_row_offset_bound(m: Seq<usize>, a: int, b: int)
    requires
        0 <= a <= b <= m.len(),
    ensures
        row_offset(m, a) <= row_offset(m, b),
    decreases b - a,
{
    if a < b {
        lemma_offsets(m, b - 1);
        lemma_row_offset_bound(m, a, b - 1);
    }
}

/// A speculating slot's verify rows: the seed and its draft tokens, from the
/// slot's next position on.
#[derive(Debug, Clone)]
pub struct MtpDraftOutput {
    pub verify_tokens: Vec<u32>,
    pub cur_pos: usize,
}

/// The rows that slot `s` has in a step with verify rows.
pub open spec fn merged_rows<T>(
    m: Seq<usize>,
    flat: Seq<T>,
    drafts: Seq<Option<MtpDraftOutput>>,
    draft_row: spec_fn(int, int) -> T,
    s: int,
) -> Seq<T> {
    match drafts[s] {
        Some(d) => Seq::new(d.verify_tokens@.len(), |i: int| draft_row(s, i)),
        None => slot_part(m, flat, s),
    }
}

/// Rotary offset of slot `s`.
pub open spec fn delta_of(deltas: Seq<i32>, s: int) -> i32 {
    if 0 <= s < deltas.len() {
        deltas[s]
    } else {
        0
    }
}

/// The merged step runs three-axis phases.
pub open spec fn merged_pos3(batch: SlotBatch, force_pos3: bool) -> bool {
    force_pos3 || (batch.pos3@.len() == batch.positions@.len() && batch.pos3@.len() > 0)
}

/// `r` is the step `batch` in which every drafted slot has its verify rows and
/// every other slot the rows it had.
pub open spec fn is_merged(
    batch: SlotBatch,
    drafts: Seq<Option<MtpDraftOutput>>,
    n: int,
    deltas: Seq<i32>,
    force_pos3: bool,
    r: SlotBatch,
) -> bool {
    let m = batch.m_per_slot@;
    &&& r.m_per_slot@ == Seq::new(
        n as nat,
        |s: int|
            match drafts[s] {
                Some(d) => d.verify_tokens.len(),
                None => rows_of(m, s) as usize,
            },
    )
    &&& r.tokens@ == joined(
        |s: int|
            merged_rows(
                m,
                batch.tokens@,
                drafts,
                |s: int, i: int| drafts[s]->Some_0.verify_tokens@[i],
                s,
            ),
        n,
    )
    &&& r.positions@ == joined(
        |s: int|
            merged_rows(
                m,
                batch.positions@,
                drafts,
                |s: int, i: int| low_i32(drafts[s]->Some_0.cur_pos + i),
                s,
            ),
        n,
    )
    &&& r.row_slot@ == joined(
        |s: int|
            merged_rows(m, batch.row_slot@, drafts, |s: int, i: int| low_i32(s), s),
        n,
    )
    &&& phases_of(r.pos3@) == if merged_pos3(batch, force_pos3) {
        joined(
            |s: int|
                merged_rows(
                    m,
                    phases_of(batch.pos3@),
                    drafts,
                    |s: int, i: int|
                        shifted_phase(drafts[s]->Some_0.cur_pos + i, delta_of(deltas, s)),
                    s,
                ),
            n,
        )
    } else {
        Seq::empty()
    }
    &&& r.ext_emb@ == if merged_pos3(batch, force_pos3) {
        joined(|s: int| merged_rows(m, batch.ext_emb@, drafts, |s: int, i: int| -1i32, s), n)
    } else {
        Seq::empty()
    }
}

/// Copies the rows `from..from + m` of `batch` to the end of `out`.
fn copy_rows(batch: &SlotBatch, from: usize, m: usize, with_pos3: bool, out: &mut SlotBatch)
    requires
        from + m <= batch.tokens@.len(),
        batch.positions@.len() == batch.tokens@.len(),
        batch.row_slot@.len() == batch.tokens@.len(),
        with_pos3 ==> batch.pos3@.len() == batch.tokens@.len() && batch.ext_emb@.len()
            == batch.tokens@.len(),
    ensures
        final(out).m_per_slot@ == old(out).m_per_slot@,
        final(out).tokens@ == old(out).tokens@ + batch.tokens@.subrange(from as int, from + m),
        final(out).positions@ == old(out).positions@ + batch.positions@.subrange(
            from as int,
            from + m,
        ),
        final(out).row_slot@ == old(out).row_slot@ + batch.row_slot@.subrange(
            from as int,
            from + m,
        ),
        final(out).pos3@ == if with_pos3 {
            old(out).pos3@ + batch.pos3@.subrange(from as int, from + m)
        } else {
            old(out).pos3@
        },
        final(out).ext_emb@ == if with_pos3 {
            old(out).ext_emb@ + batch.ext_emb@.subrange(from as int, from + m)
        } else {
            old(out).ext_emb@
        },
{
    let ghost o = *out;
    let mut i: usize = 0;
    proof {
        let f = from as int;
        assert(o.tokens@ + batch.tokens@.subrange(f, f) =~= o.tokens@);
        assert(o.positions@ + batch.positions@.subrange(f, f) =~= o.positions@);
        assert(o.row_slot@ + batch.row_slot@.subrange(f, f) =~= o.row_slot@);
        if with_pos3 {
            assert(o.pos3@ + batch.pos3@.subrange(f, f) =~= o.pos3@);
            assert(o.ext_emb@ + batch.ext_emb@.subrange(f, f) =~= o.ext_emb@);
        }
    }
    while i < m
        invariant
            i <= m,
            from + m <= batch.tokens.len(),
            batch.positions@.len() == batch.tokens@.len(),
            batch.row_slot@.len() == batch.tokens@.len(),
            with_pos3 ==> batch.pos3@.len() == batch.tokens@.len() && batch.ext_emb@.len()
                == batch.tokens@.len(),
            out.m_per_slot@ == o.m_per_slot@,
            out.tokens@ == o.tokens@ + batch.tokens@.subrange(from as int, from + i),
            out.positions@ == o.positions@ + batch.positions@.subrange(from as int, from + i),
            out.row_slot@ == o.row_slot@ + batch.row_slot@.subrange(from as int, from + i),
            out.pos3@ == if with_pos3 {
                o.pos3@ + batch.pos3@.subrange(from as int, from + i)
            } else {
                o.pos3@
            },
            out.ext_emb@ == if with_pos3 {
                o.ext_emb@ + batch.ext_emb@.subrange(from as int, from + i)
            } else {
                o.ext_emb@
            },
        decreases m - i,
    {
        out.tokens.push(batch.tokens[from + i]);
        out.positions.push(batch.positions[from + i]);
        out.row_slot.push(batch.row_slot[from + i]);
        if with_pos3 {
            out.pos3.push(batch.pos3[from + i]);
            out.ext_emb.push(batch.ext_emb[from + i]);
        }
        i = i + 1;
        proof {
            let f = from as int;
            assert(out.tokens@ =~= o.tokens@ + batch.tokens@.subrange(f, f + i));
            assert(out.positions@ =~= o.positions@ + batch.positions@.subrange(f, f + i));
            assert(out.row_slot@ =~= o.row_slot@ + batch.row_slot@.subrange(f, f + i));
            if with_pos3 {
                assert(out.pos3@ =~= o.pos3@ + batch.pos3@.subrange(f, f + i));
                assert(out.ext_emb@ =~= o.ext_emb@ + batch.ext_emb@.subrange(f, f + i));
            }
        }
    }
}

/// Appends the verify rows of one draft.
fn draft_rows(
    d: &MtpDraftOutput,
    slot: usize,
    delta: i32,
    with_pos3: bool,
    out: &mut SlotBatch,
)
    requires
        d.cur_pos + d.verify_tokens@.len() <= usize::MAX,
        with_pos3 ==> forall|i: int|
            0 <= i < d.verify_tokens@.len() ==> #[trigger] phase_fits(d.cur_pos + i, delta),
    ensures
        final(out).m_per_slot@ == old(out).m_per_slot@,
        final(out).tokens@ == old(out).tokens@ + d.verify_tokens@,
        final(out).positions@ == old(out).positions@ + Seq::new(
            d.verify_tokens@.len(),
            |i: int| low_i32(d.cur_pos + i),
        ),
        final(out).row_slot@ == old(out).row_slot@ + Seq::new(
            d.verify_tokens@.len(),
            |i: int| low_i32(slot as int),
        ),
        phases_of(final(out).pos3@) == if with_pos3 {
            phases_of(old(out).pos3@) + Seq::new(
                d.verify_tokens@.len(),
                |i: int| shifted_phase(d.cur_pos + i, delta),
            )
        } else {
            phases_of(old(out).pos3@)
        },
        final(out).ext_emb@ == if with_pos3 {
            old(out).ext_emb@ + Seq::new(d.verify_tokens@.len(), |i: int| -1i32)
        } else {
            old(out).ext_emb@
        },
{
    let ghost o = *out;
    let mut i: usize = 0;
    proof {
        assert(o.tokens@ + d.verify_tokens@.take(0) =~= o.tokens@);
        assert(o.positions@ + Seq::new(0, |i: int| low_i32(d.cur_pos + i)) =~= o.positions@);
        assert(o.row_slot@ + Seq::new(0, |i: int| low_i32(slot as int)) =~= o.row_slot@);
        assert(phases_of(o.pos3@) + Seq::new(0, |i: int| shifted_phase(d.cur_pos + i, delta))
            =~= phases_of(o.pos3@));
        assert(o.ext_emb@ + Seq::new(0, |i: int| -1i32) =~= o.ext_emb@);
    }
    while i < d.verify_tokens.len()
        invariant
            i <= d.verify_tokens@.len(),
            d.cur_pos + d.verify_tokens@.len() <= usize::MAX,
            with_pos3 ==> forall|i: int|
                0 <= i < d.verify_tokens@.len() ==> #[trigger] phase_fits(d.cur_pos + i, delta),
            out.m_per_slot@ == o.m_per_slot@,
            out.tokens@ == o.tokens@ + d.verify_tokens@.take(i as int),
            out.positions@ == o.positions@ + Seq::new(
                i as nat,
                |i: int| low_i32(d.cur_pos + i),
            ),
            out.row_slot@ == o.row_slot@ + Seq::new(i as nat, |i: int| low_i32(slot as int)),
            phases_of(out.pos3@) == if with_pos3 {
                phases_of(o.pos3@) + Seq::new(
                    i as nat,
                    |i: int| shifted_phase(d.cur_pos + i, delta),
                )
            } else {
                phases_of(o.pos3@)
            },
            out.ext_emb@ == if with_pos3 {
                o.ext_emb@ + Seq::new(i as nat, |i: int| -1i32)
            } else {
                o.ext_emb@
            },
        decreases d.verify_tokens@.len() - i,
    {
        let pos: usize = d.cur_pos + i;
        let ghost o1 = *out;
        out.tokens.push(d.verify_tokens[i]);
        out.positions.push(wrap_i32(pos));
        out.row_slot.push(wrap_i32(slot));
        if with_pos3 {
            assert(phase_fits(d.cur_pos + i, delta));
            let p: i32 = wrap_i32(pos) + delta;
            let row: [i32; 3] = [p, p, p];
            assert(row@ =~= seq![p, p, p]);
            out.pos3.push(row);
            out.ext_emb.push(-1);
            assert(phases_of(out.pos3@) =~= phases_of(o1.pos3@).push(row@));
        }
        i = i + 1;
        proof {
            assert(out.tokens@ =~= o.tokens@ + d.verify_tokens@.take(i as int));
            assert(out.positions@ =~= o.positions@ + Seq::new(
                i as nat,
                |i: int| low_i32(d.cur_pos + i),
            ));
            assert(out.row_slot@ =~= o.row_slot@ + Seq::new(
                i as nat,
                |i: int| low_i32(slot as int),
            ));
            if with_pos3 {
                assert(phases_of(out.pos3@) =~= phases_of(o.pos3@) + Seq::new(
                    i as nat,
                    |i: int| shifted_phase(d.cur_pos + i, delta),
                ));
                assert(out.ext_emb@ =~= o.ext_emb@ + Seq::new(i as nat, |i: int| -1i32));
            }
        }
    }
    assert(d.verify_tokens@.take(i as int) =~= d.verify_tokens@);
}

/// Rebuilds a step so that every slot with a draft has its verify rows; the
/// other slots keep the rows the scheduler gave them.
///
/// `pos3_deltas[s]` is the slot's rotary offset: verify rows are text rows of
/// their slot and are phased at `pos + delta`. `force_pos3` says that some
/// slot's work needs three-axis phases; a step of verify rows only has no side
/// arrays of its own to tell.
pub fn inject_mtp_verify_tokens(
    batch: &SlotBatch,
    mtp_drafts: &[Option<MtpDraftOutput>],
    n_slots: usize,
    pos3_deltas: &[i32],
    force_pos3: bool,
) -> (r: SlotBatch)
    requires
        batch.wf(),
        n_slots <= mtp_drafts@.len(),
        force_pos3 ==> batch.pos3@.len() == batch.tokens@.len(),
        forall|s: int|
            0 <= s < n_slots ==> ((#[trigger] mtp_drafts@[s]) is Some ==> {
                let d = mtp_drafts@[s]->Some_0;
                &&& d.cur_pos + d.verify_tokens@.len() <= usize::MAX
                &&& merged_pos3(*batch, force_pos3) ==> forall|i: int|
                    0 <= i < d.verify_tokens@.len() ==> #[trigger] phase_fits(
                        d.cur_pos + i,
                        delta_of(pos3_deltas@, s),
                    )
            }),
    ensures
        r.wf(),
        is_merged(*batch, mtp_drafts@, n_slots as int, pos3_deltas@, force_pos3, r),
{
    let vl_step: bool = force_pos3 || (batch.pos3.len() == batch.positions.len()
        && batch.pos3.len() > 0);
    let ghost m = batch.m_per_slot@;
    let ghost drafts = mtp_drafts@;
    let ghost ft = |s: int|
        merged_rows(
            m,
            batch.tokens@,
            drafts,
            |s: int, i: int| drafts[s]->Some_0.verify_tokens@[i],
            s,
        );
    let ghost fp = |s: int|
        merged_rows(
            m,
            batch.positions@,
            drafts,
            |s: int, i: int| low_i32(drafts[s]->Some_0.cur_pos + i),
            s,
        );
    let ghost fr = |s: int|
        merged_rows(m, batch.row_slot@, drafts, |s: int, i: int| low_i32(s), s);
    let ghost f3 = |s: int|
        merged_rows(
            m,
            phases_of(batch.pos3@),
            drafts,
            |s: int, i: int|
                shifted_phase(drafts[s]->Some_0.cur_pos + i, delta_of(pos3_deltas@, s)),
            s,
        );
    let ghost fe = |s: int|
        merged_rows(m, batch.ext_emb@, drafts, |s: int, i: int| -1i32, s);
    let ghost fm = |s: int|
        match drafts[s] {
            Some(d) => d.verify_tokens.len(),
            None => rows_of(m, s) as usize,
        };
    let mut out = SlotBatch::default();
    let mut off: usize = 0;
    let mut s: usize = 0;
    proof {
        assert(m.take(0) =~= Seq::empty());
        assert(phases_of(out.pos3@) =~= Seq::empty());
    }
    while s < n_slots
        invariant
            s <= n_slots,
            n_slots <= mtp_drafts@.len(),
            batch.wf(),
            m == batch.m_per_slot@,
            drafts == mtp_drafts@,
            vl_step == merged_pos3(*batch, force_pos3),
            vl_step ==> batch.pos3@.len() == batch.tokens@.len(),
            s <= m.len() ==> off == row_offset(m, s as int),
            s > m.len() ==> off == row_offset(m, m.len() as int),
            off <= batch.tokens.len(),
            forall|s: int|
                0 <= s < n_slots ==> ((#[trigger] mtp_drafts@[s]) is Some ==> {
                    let d = mtp_drafts@[s]->Some_0;
                    &&& d.cur_pos + d.verify_tokens@.len() <= usize::MAX
                    &&& vl_step ==> forall|i: int|
                        0 <= i < d.verify_tokens@.len() ==> #[trigger] phase_fits(
                            d.cur_pos + i,
                            delta_of(pos3_deltas@, s),
                        )
                }),
            forall|s: int|
                #[trigger] ft(s) == merged_rows(
                    m,
                    batch.tokens@,
                    drafts,
                    |s: int, i: int| drafts[s]->Some_0.verify_tokens@[i],
                    s,
                ),
            forall|s: int|
                #[trigger] fp(s) == merged_rows(
                    m,
                    batch.positions@,
                    drafts,
                    |s: int, i: int| low_i32(drafts[s]->Some_0.cur_pos + i),
                    s,
                ),
            forall|s: int|
                #[trigger] fr(s) == merged_rows(
                    m,
                    batch.row_slot@,
                    drafts,
                    |s: int, i: int| low_i32(s),
                    s,
                ),
            forall|s: int|
                #[trigger] f3(s) == merged_rows(
                    m,
                    phases_of(batch.pos3@),
                    drafts,
                    |s: int, i: int|
                        shifted_phase(drafts[s]->Some_0.cur_pos + i, delta_of(pos3_deltas@, s)),
                    s,
                ),
            forall|s: int|
                #[trigger] fe(s) == merged_rows(
                    m,
                    batch.ext_emb@,
                    drafts,
                    |s: int, i: int| -1i32,
                    s,
                ),
            forall|s: int|
                #[trigger] fm(s) == match drafts[s] {
                    Some(d) => d.verify_tokens.len(),
                    None => rows_of(m, s) as usize,
                },
            out.wf(),
            out.pos3@.len() == if vl_step {
                out.tokens@.len()
            } else {
                0
            },
            out.m_per_slot@ =~= Seq::new(s as nat, fm),
            out.tokens@ == joined(ft, s as int),
            out.positions@ == joined(fp, s as int),
            out.row_slot@ == joined(fr, s as int),
            phases_of(out.pos3@) == if vl_step {
                joined(f3, s as int)
            } else {
                Seq::empty()
            },
            out.ext_emb@ == if vl_step {
                joined(fe, s as int)
            } else {
                Seq::empty()
            },
        decreases n_slots - s,
    {
        let ghost o = out;
        let rows: usize = if s < batch.m_per_slot.len() {
            batch.m_per_slot[s]
        } else {
            0
        };
        proof {
            if s < m.len() {
                lemma_offsets(m, s as int);
                assert(slot_part(m, phases_of(batch.pos3@), s as int).len() == rows || !vl_step);
            } else {
                assert(m.take(m.len() as int) =~= m);
            }
            assert(mtp_drafts@[s as int] == drafts[s as int]);
        }
        let count: usize = match &mtp_drafts[s] {
            Some(d) => {
                let delta: i32 = if s < pos3_deltas.len() {
                    pos3_deltas[s]
                } else {
                    0
                };
                assert(*d == drafts[s as int]->Some_0);
                assert(delta == delta_of(pos3_deltas@, s as int));
                draft_rows(d, s, delta, vl_step, &mut out);
                proof {
                    assert(ft(s as int) =~= d.verify_tokens@);
                    assert(fp(s as int) =~= Seq::new(
                        d.verify_tokens@.len(),
                        |i: int| low_i32(d.cur_pos + i),
                    ));
                    assert(fr(s as int) =~= Seq::new(
                        d.verify_tokens@.len(),
                        |i: int| low_i32(s as int),
                    ));
                    assert(f3(s as int) =~= Seq::new(
                        d.verify_tokens@.len(),
                        |i: int| shifted_phase(d.cur_pos + i, delta),
                    ));
                    assert(fe(s as int) =~= Seq::new(d.verify_tokens@.len(), |i: int| -1i32));
                }
                d.verify_tokens.len()
            },
            None => {
                copy_rows(batch, off, rows, vl_step, &mut out);
                proof {
                    assert(ft(s as int) =~= batch.tokens@.subrange(off as int, off + rows));
                    assert(fp(s as int) =~= batch.positions@.subrange(off as int, off + rows));
                    assert(fr(s as int) =~= batch.row_slot@.subrange(off as int, off + rows));
                    if vl_step {
                        assert(f3(s as int) =~= phases_of(
                            batch.pos3@.subrange(off as int, off + rows),
                        ));
                        assert(phases_of(out.pos3@) =~= phases_of(o.pos3@) + f3(s as int));
                        assert(fe(s as int) =~= batch.ext_emb@.subrange(off as int, off + rows));
                    }
                }
                rows
            },
        };
        let ghost o2 = out;
        out.m_per_slot.push(count);
        off = off + rows;
        proof {
            assert(fm(s as int) == count);
            assert(out.m_per_slot@.drop_last() =~= o.m_per_slot@);
            assert(phases_of(out.pos3@).len() == out.pos3@.len());
            assert(phases_of(o.pos3@).len() == o.pos3@.len());
        }
        s = s + 1;
    }
    out
}

/// Which slots failed.
pub open spec fn failed_slot(failed: Seq<usize>, s: int) -> bool {
    exists|k: int| 0 <= k < failed.len() && #[trigger] failed[k] == s
}

fn is_failed(failed: &[usize], s: usize) -> (r: bool)
    ensures
        r == failed_slot(failed@, s as int),
{
    let mut k: usize = 0;
    while k < failed.len()
        invariant
            k <= failed@.len(),
            forall|j: int| 0 <= j < k ==> #[trigger] failed@[j] != s,
        decreases failed@.len() - k,
    {
        if failed[k] == s {
            return true;
        }
        k = k + 1;
    }
    false
}

/// The rows that slot `s` keeps: none if it failed.
pub open spec fn kept_rows<T>(m: Seq<usize>, flat: Seq<T>, failed: Seq<usize>, s: int) -> Seq<T> {
    if failed_slot(failed, s) {
        Seq::empty()
    } else {
        slot_part(m, flat, s)
    }
}

/// `r` is the step `b` without the rows of the failed slots.
pub open spec fn is_rebuilt(b: SlotBatch, failed: Seq<usize>, r: SlotBatch) -> bool {
    let m = b.m_per_slot@;
    let n = m.len() as int;
    &&& r.m_per_slot@ == Seq::new(
        m.len(),
        |s: int|
            if failed_slot(failed, s) {
                0
            } else {
                m[s]
            },
    )
    &&& r.tokens@ == joined(|s: int| kept_rows(m, b.tokens@, failed, s), n)
    &&& r.positions@ == joined(|s: int| kept_rows(m, b.positions@, failed, s), n)
    &&& r.row_slot@ == joined(|s: int| kept_rows(m, b.row_slot@, failed, s), n)
    &&& r.pos3@ == if b.pos3@.len() > 0 {
        joined(|s: int| kept_rows(m, b.pos3@, failed, s), n)
    } else {
        Seq::empty()
    }
    &&& r.ext_emb@ == if b.ext_emb@.len() > 0 {
        joined(|s: int| kept_rows(m, b.ext_emb@, failed, s), n)
    } else {
        Seq::empty()
    }
}

/// Drops the rows of the failed slots from a step, so that a failure to
/// provision one slot isolates the request it belongs to.
pub fn rebuild_batch_excluding_failed(batch: &mut SlotBatch, failed: &[usize])
    requires
        old(batch).wf(),
        forall|k: int|
            0 <= k < failed@.len() ==> #[trigger] failed@[k] < old(batch).m_per_slot@.len(),
    ensures
        final(batch).wf(),
        is_rebuilt(*old(batch), failed@, *final(batch)),
{
    let ghost b0 = *batch;
    let ghost m = batch.m_per_slot@;
    let with_pos3: bool = batch.pos3.len() > 0;
    let ghost ft = |s: int| kept_rows(m, b0.tokens@, failed@, s);
    let ghost fp = |s: int| kept_rows(m, b0.positions@, failed@, s);
    let ghost fr = |s: int| kept_rows(m, b0.row_slot@, failed@, s);
    let ghost f3 = |s: int| kept_rows(m, b0.pos3@, failed@, s);
    let ghost fe = |s: int| kept_rows(m, b0.ext_emb@, failed@, s);
    let mut out = SlotBatch::default();
    let mut off: usize = 0;
    let mut s: usize = 0;
    assert(m.take(0) =~= Seq::empty());
    while s < batch.m_per_slot.len()
        invariant
            s <= m.len(),
            *batch == b0,
            b0.wf(),
            m == b0.m_per_slot@,
            with_pos3 == (b0.pos3@.len() > 0),
            off == row_offset(m, s as int),
            off <= b0.tokens.len(),
            forall|s: int| #[trigger] ft(s) == kept_rows(m, b0.tokens@, failed@, s),
            forall|s: int| #[trigger] fp(s) == kept_rows(m, b0.positions@, failed@, s),
            forall|s: int| #[trigger] fr(s) == kept_rows(m, b0.row_slot@, failed@, s),
            forall|s: int| #[trigger] f3(s) == kept_rows(m, b0.pos3@, failed@, s),
            forall|s: int| #[trigger] fe(s) == kept_rows(m, b0.ext_emb@, failed@, s),
            out.wf(),
            out.pos3@.len() == if with_pos3 {
                out.tokens@.len()
            } else {
                0
            },
            out.m_per_slot@ =~= Seq::new(
                s as nat,
                |s: int|
                    if failed_slot(failed@, s) {
                        0
                    } else {
                        m[s]
                    },
            ),
            out.tokens@ == joined(ft, s as int),
            out.positions@ == joined(fp, s as int),
            out.row_slot@ == joined(fr, s as int),
            out.pos3@ == if with_pos3 {
                joined(f3, s as int)
            } else {
                Seq::empty()
            },
            out.ext_emb@ == if with_pos3 {
                joined(fe, s as int)
            } else {
                Seq::empty()
            },
        decreases m.len() - s,
    {
        let ghost o = out;
        let rows: usize = batch.m_per_slot[s];
        proof {
            lemma_offsets(m, s as int);
            assert(ft(s as int) == kept_rows(m, b0.tokens@, failed@, s as int));
            assert(fp(s as int) == kept_rows(m, b0.positions@, failed@, s as int));
            assert(fr(s as int) == kept_rows(m, b0.row_slot@, failed@, s as int));
            assert(f3(s as int) == kept_rows(m, b0.pos3@, failed@, s as int));
            assert(fe(s as int) == kept_rows(m, b0.ext_emb@, failed@, s as int));
        }
        let gone: bool = is_failed(failed, s);
        if !gone {
            copy_rows(batch, off, rows, with_pos3, &mut out);
        } else {
            proof {
                assert(o.tokens@ + Seq::<u32>::empty() =~= o.tokens@);
                assert(o.positions@ + Seq::<i32>::empty() =~= o.positions@);
                assert(o.row_slot@ + Seq::<i32>::empty() =~= o.row_slot@);
                assert(o.pos3@ + Seq::<[i32; 3]>::empty() =~= o.pos3@);
                assert(o.ext_emb@ + Seq::<i32>::empty() =~= o.ext_emb@);
            }
        }
        out.m_per_slot.push(if gone {
            0
        } else {
            rows
        });
        assert(out.m_per_slot@.drop_last() =~= o.m_per_slot@);
        off = off + rows;
        s = s + 1;
    }
    *batch = out;
}

// ---- Laws ----

/// Slot `s` has the same rows in `r` as in `b`, in every array, and the same
/// side arrays where the step has them.
pub open spec fn same_slot_rows(b: SlotBatch, r: SlotBatch, s: int) -> bool {
    let m = b.m_per_slot@;
    let k = r.m_per_slot@;
    &&& rows_of(k, s) == rows_of(m, s)
    &&& slot_part(k, r.tokens@, s) == slot_part(m, b.tokens@, s)
    &&& slot_part(k, r.positions@, s) == slot_part(m, b.positions@, s)
    &&& slot_part(k, r.row_slot@, s) == slot_part(m, b.row_slot@, s)
    &&& b.pos3@.len() > 0 ==> slot_part(k, phases_of(r.pos3@), s) == slot_part(
        m,
        phases_of(b.pos3@),
        s,
    )
    &&& b.ext_emb@.len() > 0 ==> slot_part(k, r.ext_emb@, s) == slot_part(m, b.ext_emb@, s)
}

proof fn lemma_part_of_phases(m: Seq<usize>, p: Seq<[i32; 3]>, s: int)
    requires
        0 <= s < m.len(),
        rows_sum(m) <= p.len(),
    ensures
        slot_part(m, phases_of(p), s) == phases_of(slot_part(m, p, s)),
{
    lemma_offsets(m, s);
    assert(slot_part(m, phases_of(p), s) =~= phases_of(slot_part(m, p, s)));
}

/// A surviving slot keeps its own rows, in place among the others and with
/// their phases and external embeddings, when failed slots are dropped; a
/// failed one has none.
pub proof fn law_survivors_keep_their_rows(b: SlotBatch, failed: Seq<usize>, r: SlotBatch, s: int)
    requires
        b.wf(),
        r.wf(),
        is_rebuilt(b, failed, r),
        0 <= s < b.m_per_slot@.len(),
    ensures
        failed_slot(failed, s) ==> r.m_per_slot@[s] == 0,
        !failed_slot(failed, s) ==> same_slot_rows(b, r, s),
{
    let m = b.m_per_slot@;
    let n = m.len() as int;
    let ft = |s: int| kept_rows(m, b.tokens@, failed, s);
    let fp = |s: int| kept_rows(m, b.positions@, failed, s);
    let fr = |s: int| kept_rows(m, b.row_slot@, failed, s);
    let f3 = |s: int| kept_rows(m, b.pos3@, failed, s);
    let fe = |s: int| kept_rows(m, b.ext_emb@, failed, s);
    assert forall|k: int| 0 <= k < n implies (#[trigger] ft(k)).len() == r.m_per_slot@[k] by {
        lemma_offsets(m, k);
    }
    assert forall|k: int| 0 <= k < n implies (#[trigger] fp(k)).len() == r.m_per_slot@[k] by {
        lemma_offsets(m, k);
    }
    assert forall|k: int| 0 <= k < n implies (#[trigger] fr(k)).len() == r.m_per_slot@[k] by {
        lemma_offsets(m, k);
    }
    lemma_joined_part(ft, r.m_per_slot@, n, s);
    lemma_joined_part(fp, r.m_per_slot@, n, s);
    lemma_joined_part(fr, r.m_per_slot@, n, s);
    if b.pos3@.len() > 0 {
        assert forall|k: int| 0 <= k < n implies (#[trigger] f3(k)).len() == r.m_per_slot@[k] by {
            lemma_offsets(m, k);
        }
        assert forall|k: int| 0 <= k < n implies (#[trigger] fe(k)).len() == r.m_per_slot@[k] by {
            lemma_offsets(m, k);
        }
        lemma_joined_part(f3, r.m_per_slot@, n, s);
        lemma_joined_part(fe, r.m_per_slot@, n, s);
        assert(r.m_per_slot@.take(n) =~= r.m_per_slot@);
        lemma_part_of_phases(m, b.pos3@, s);
        lemma_part_of_phases(r.m_per_slot@, r.pos3@, s);
    }
}

/// The rows of slot `s` are the verify block `d`: its tokens from its position
/// on, and in a step with side arrays the phases shifted by `delta` and no
/// external embedding.
pub open spec fn is_verify_block(
    r: SlotBatch,
    s: int,
    d: MtpDraftOutput,
    delta: i32,
    with_pos3: bool,
) -> bool {
    let k = r.m_per_slot@;
    let n = d.verify_tokens@.len();
    &&& rows_of(k, s) == n
    &&& slot_part(k, r.tokens@, s) == d.verify_tokens@
    &&& slot_part(k, r.positions@, s) == Seq::new(n, |i: int| low_i32(d.cur_pos + i))
    &&& slot_part(k, r.row_slot@, s) == Seq::new(n, |i: int| low_i32(s))
    &&& with_pos3 ==> slot_part(k, phases_of(r.pos3@), s) == Seq::new(
        n,
        |i: int| shifted_phase(d.cur_pos + i, delta),
    )
    &&& with_pos3 ==> slot_part(k, r.ext_emb@, s) == Seq::new(n, |i: int| -1i32)
}

/// A slot without a draft keeps its own rows when verify rows are added, and a
/// slot with one has exactly its verify block.
pub proof fn law_undrafted_slots_keep_their_rows(
    b: SlotBatch,
    drafts: Seq<Option<MtpDraftOutput>>,
    n: int,
    deltas: Seq<i32>,
    force_pos3: bool,
    r: SlotBatch,
    s: int,
)
    requires
        b.wf(),
        is_merged(b, drafts, n, deltas, force_pos3, r),
        force_pos3 ==> b.pos3@.len() == b.tokens@.len(),
        0 <= s < n,
        n <= drafts.len(),
    ensures
        match drafts[s] {
            Some(d) => is_verify_block(
                r,
                s,
                d,
                delta_of(deltas, s),
                merged_pos3(b, force_pos3),
            ),
            None => same_slot_rows(b, r, s),
        },
{
    let m = b.m_per_slot@;
    let ft = |s: int|
        merged_rows(
            m,
            b.tokens@,
            drafts,
            |s: int, i: int| drafts[s]->Some_0.verify_tokens@[i],
            s,
        );
    let fp = |s: int|
        merged_rows(
            m,
            b.positions@,
            drafts,
            |s: int, i: int| low_i32(drafts[s]->Some_0.cur_pos + i),
            s,
        );
    let fr = |s: int| merged_rows(m, b.row_slot@, drafts, |s: int, i: int| low_i32(s), s);
    let f3 = |s: int|
        merged_rows(
            m,
            phases_of(b.pos3@),
            drafts,
            |s: int, i: int|
                shifted_phase(drafts[s]->Some_0.cur_pos + i, delta_of(deltas, s)),
            s,
        );
    let fe = |s: int| merged_rows(m, b.ext_emb@, drafts, |s: int, i: int| -1i32, s);
    assert forall|k: int| 0 <= k < n implies (#[trigger] ft(k)).len() == r.m_per_slot@[k] by {
        if k < m.len() {
            lemma_offsets(m, k);
        }
    }
    assert forall|k: int| 0 <= k < n implies (#[trigger] fp(k)).len() == r.m_per_slot@[k] by {
        if k < m.len() {
            lemma_offsets(m, k);
        }
    }
    assert forall|k: int| 0 <= k < n implies (#[trigger] fr(k)).len() == r.m_per_slot@[k] by {
        if k < m.len() {
            lemma_offsets(m, k);
        }
    }
    lemma_joined_part(ft, r.m_per_slot@, n, s);
    lemma_joined_part(fp, r.m_per_slot@, n, s);
    lemma_joined_part(fr, r.m_per_slot@, n, s);
    if merged_pos3(b, force_pos3) {
        assert forall|k: int| 0 <= k < n implies (#[trigger] f3(k)).len() == r.m_per_slot@[k] by {
            if k < m.len() {
                lemma_offsets(m, k);
            }
        }
        assert forall|k: int| 0 <= k < n implies (#[trigger] fe(k)).len() == r.m_per_slot@[k] by {
            if k < m.len() {
                lemma_offsets(m, k);
            }
        }
        lemma_joined_part(f3, r.m_per_slot@, n, s);
        lemma_joined_part(fe, r.m_per_slot@, n, s);
    }
    if let Some(d) = drafts[s] {
        assert(ft(s) =~= d.verify_tokens@);
        assert(fp(s) =~= Seq::new(
            d.verify_tokens@.len(),
            |i: int| low_i32(d.cur_pos + i),
        ));
        assert(fr(s) =~= Seq::new(d.verify_tokens@.len(), |i: int| low_i32(s)));
        assert(f3(s) =~= Seq::new(
            d.verify_tokens@.len(),
            |i: int| shifted_phase(d.cur_pos + i, delta_of(deltas, s)),
        ));
        assert(fe(s) =~= Seq::new(d.verify_tokens@.len(), |i: int| -1i32));
    }
}

/// First flat row of slot `s` in a step.
pub fn first_row(batch: &SlotBatch, s: usize) -> (r: usize)
    requires
        batch.wf(),
        s <= batch.m_per_slot@.len(),
    ensures
        r == row_offset(batch.m_per_slot@, s as int),
{
    let mut off: usize = 0;
    let mut k: usize = 0;
    let ghost m = batch.m_per_slot@;
    assert(m.take(0) =~= Seq::empty());
    while k < s
        invariant
            k <= s <= m.len(),
            m == batch.m_per_slot@,
            batch.wf(),
            off == row_offset(m, k as int),
            off <= batch.tokens.len(),
        decreases s - k,
    {
        proof {
            lemma_offsets(m, k as int);
        }
        off = off + batch.m_per_slot[k];
        k = k + 1;
    }
    off
}

/// A step with verify rows runs three-axis phases for all its rows or for none: for
/// all exactly where it is made to, or where the step it comes from did.
pub proof fn law_merged_steps_keep_their_phases(
    b: SlotBatch,
    drafts: Seq<Option<MtpDraftOutput>>,
    n: int,
    deltas: Seq<i32>,
    force_pos3: bool,
    r: SlotBatch,
)
    requires
        b.wf(),
        is_merged(b, drafts, n, deltas, force_pos3, r),
        0 <= n,
    ensures
        !force_pos3 && b.pos3@.len() == 0 ==> r.pos3@.len() == 0 && r.ext_emb@.len() == 0,
        merged_pos3(b, force_pos3) <==> force_pos3 || b.pos3@.len() > 0,
        r.m_per_slot@.len() == n,
{
    assert(phases_of(r.pos3@).len() == r.pos3@.len());
}

/// A slot's verify rows are its draft's tokens at consecutive positions, under the
/// slot's own number, with the slot's phase offset and from the token table.
pub proof fn law_verify_rows_are_the_drafts(
    b: SlotBatch,
    drafts: Seq<Option<MtpDraftOutput>>,
    n: int,
    deltas: Seq<i32>,
    force_pos3: bool,
    r: SlotBatch,
    s: int,
    i: int,
)
    requires
        b.wf(),
        r.wf(),
        is_merged(b, drafts, n, deltas, force_pos3, r),
        force_pos3 ==> b.pos3@.len() == b.tokens@.len(),
        0 <= s < n,
        n <= drafts.len(),
        drafts[s] is Some,
        0 <= i < drafts[s]->Some_0.verify_tokens@.len(),
    ensures
        ({
            let d = drafts[s]->Some_0;
            let row = rows_sum(r.m_per_slot@.take(s)) + i;
            &&& r.m_per_slot@[s] == d.verify_tokens@.len()
            &&& 0 <= row < r.tokens@.len()
            &&& r.tokens@[row] == d.verify_tokens@[i]
            &&& d.cur_pos + i <= i32::MAX ==> r.positions@[row] == d.cur_pos + i
            &&& s <= i32::MAX ==> r.row_slot@[row] == s
            &&& r.pos3@.len() > 0 ==> r.ext_emb@[row] == -1
        }),
{
    law_undrafted_slots_keep_their_rows(b, drafts, n, deltas, force_pos3, r, s);
    let d = drafts[s]->Some_0;
    let k = r.m_per_slot@;
    lemma_offsets(k, s);
    let row = row_offset(k, s) + i;
    assert(slot_part(k, r.tokens@, s)[i] == r.tokens@[row]);
    assert(slot_part(k, r.positions@, s)[i] == r.positions@[row]);
    assert(slot_part(k, r.row_slot@, s)[i] == r.row_slot@[row]);
    if r.pos3@.len() > 0 {
        assert(phases_of(r.pos3@).len() == r.pos3@.len());
        assert(merged_pos3(b, force_pos3));
        assert(slot_part(k, r.ext_emb@, s)[i] == r.ext_emb@[row]);
    }
}

/// A slot's rows start where those of the slots before it end.
pub proof fn law_slots_follow_one_another(m: Seq<usize>, s: int)
    requires
        0 <= s < m.len(),
    ensures
        row_offset(m, 0) == 0,
        row_offset(m, s + 1) == row_offset(m, s) + m[s],
        rows_of(m, s) == m[s],
{
    lemma_offsets(m, s);
    assert(m.take(0) =~= Seq::empty());
}

/// Exactly the slots that failed lose their rows: a slot that is listed has none
/// left, and one that is not keeps as many as it had.
pub proof fn law_failed_slots_lose_their_rows(
    b: SlotBatch,
    failed: Seq<usize>,
    r: SlotBatch,
    s: usize,
)
    requires
        is_rebuilt(b, failed, r),
        s < b.m_per_slot@.len(),
    ensures
        r.m_per_slot@.len() == b.m_per_slot@.len(),
        failed.contains(s) ==> r.m_per_slot@[s as int] == 0,
        !failed.contains(s) ==> r.m_per_slot@[s as int] == b.m_per_slot@[s as int],
{
    if failed.contains(s) {
        let k = choose|k: int| 0 <= k < failed.len() && failed[k] == s;
        assert(failed[k] == s as int);
        assert(failed_slot(failed, s as int));
    } else if failed_slot(failed, s as int) {
        let k = choose|k: int| 0 <= k < failed.len() && #[trigger] failed[k] == s as int;
        assert(failed[k] == s);
    }
}

} // verus!
