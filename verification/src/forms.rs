//! What the rows of the effect panel and of the tempo panel write back into the chart.
//!
//! Places in beats and tempos are in ticks; other values are in thousandths.

use vstd::prelude::*;

use crate::beats::{in_reach, FARTHEST};
use crate::order::{order_of, stably_ordered};
use crate::panels::var_order;
use crate::strings::{same, texts};

verus! {

/// A hundredth of a beat: the shortest effect, and how far behind the last a new tempo change comes.
pub const HUNDREDTH: i64 = 42_949_673;

/// Places that are no farther apart, a billionth of a beat, are the same.
pub const SAME_PLACE: i64 = 4;

/// A row of a panel.
pub enum Row {
    /// One of several names is chosen.
    Combo { items: Vec<String>, selected: usize },
    /// A number, as ticks and rounded to thousandths.
    Number { ticks: i64, thousandths: i64 },
    Toggle(bool),
    Other,
}

/// A value of an effect.
#[derive(Clone, Copy, PartialEq, Eq, Structural, Debug)]
pub enum VarValue {
    /// A number in thousandths; `None` where it is not a whole number of them.
    Number(Option<i64>),
    Keyframes(usize),
    Other,
}

/// An effect of a chart. Its values stand in the order of `names`.
pub struct Effect {
    pub shader: String,
    pub start: i64,
    pub end: i64,
    pub global: bool,
    pub names: Vec<String>,
    pub values: Vec<VarValue>,
}

/// [`Effect`] with its texts as sequences of characters.
pub ghost struct EffectView {
    pub shader: Seq<char>,
    pub start: i64,
    pub end: i64,
    pub global: bool,
    pub names: Seq<Seq<char>>,
    pub values: Seq<VarValue>,
}

impl View for Effect {
    type V = EffectView;

    open spec fn view(&self) -> EffectView {
        EffectView {
            shader: self.shader@,
            start: self.start,
            end: self.end,
            global: self.global,
            names: texts(self.names@),
            values: self.values@,
        }
    }
}

impl Effect {
    /// Every name has a value, and the times can be worked with.
    pub open spec fn wf(&self) -> bool {
        &&& self.names@.len() == self.values@.len()
        &&& in_reach(self.start as int)
        &&& in_reach(self.end as int)
    }
}

/// Whether the numbers of the rows can be worked with.
pub open spec fn rows_in_reach(rows: Seq<Row>) -> bool {
    forall|i: int|
        0 <= i < rows.len() ==> ((#[trigger] rows[i]) matches Row::Number { ticks, .. } ==> in_reach(
            ticks as int,
        ))
}

/// The shader that the row of shaders names, else the one that is.
pub open spec fn shader_of(rows: Seq<Row>, at: int, shader: Seq<char>) -> Seq<char> {
    if 0 <= at < rows.len() {
        match rows[at] {
            Row::Combo { items, selected } => if selected < items@.len() {
                items@[selected as int]@
            } else {
                shader
            },
            _ => shader,
        }
    } else {
        shader
    }
}

/// The place that a row of numbers names, but not one before `least`, else the one that is.
pub open spec fn place_of(rows: Seq<Row>, at: int, least: int, place: int) -> int {
    if 0 <= at < rows.len() {
        match rows[at] {
            Row::Number { ticks, .. } => if ticks < least {
                least
            } else {
                ticks as int
            },
            _ => place,
        }
    } else {
        place
    }
}

/// Whether two places are not the same.
pub open spec fn apart(a: int, b: int) -> bool {
    a - b > SAME_PLACE || b - a > SAME_PLACE
}

/// The span that the rows name: it does not start before the chart, and is not too short. Where
/// neither end differs from what is, it is kept.
pub open spec fn span_of(rows: Seq<Row>, n: int, start: i64, end: i64) -> (i64, i64) {
    let s = place_of(rows, n + 1, 0, start as int);
    let e = place_of(rows, n + 2, s + HUNDREDTH, end as int);
    if apart(s, start as int) || apart(e, end as int) {
        (s as i64, e as i64)
    } else {
        (start, end)
    }
}

/// The state of the row of the switch, else what is.
pub open spec fn switch_of(rows: Seq<Row>, at: int, on: bool) -> bool {
    if 0 <= at < rows.len() {
        match rows[at] {
            Row::Toggle(t) => t,
            _ => on,
        }
    } else {
        on
    }
}

/// A value after its row: only a number is written, and only by a row of numbers.
pub open spec fn value_of(rows: Seq<Row>, at: int, v: VarValue) -> VarValue {
    if 0 <= at < rows.len() {
        match (rows[at], v) {
            (Row::Number { thousandths, .. }, VarValue::Number(_)) => VarValue::Number(
                Some(thousandths),
            ),
            _ => v,
        }
    } else {
        v
    }
}

/// The values after the first `k` of their rows, which begin at `from` and stand in `order`.
pub open spec fn values_of(
    rows: Seq<Row>,
    from: int,
    values: Seq<VarValue>,
    order: Seq<usize>,
    k: int,
) -> Seq<VarValue>
    decreases k,
{
    if k <= 0 {
        values
    } else {
        let before = values_of(rows, from, values, order, k - 1);
        let i = order[k - 1] as int;
        before.update(i, value_of(rows, from + k - 1, before[i]))
    }
}

/// An effect after the rows of its panel, of which the first `n` list the effects: the shader, the
/// start, the end and the switch follow, then the values by their names.
pub open spec fn applied(e: Effect, rows: Seq<Row>, n: int) -> EffectView {
    EffectView {
        shader: shader_of(rows, n, e.shader@),
        start: span_of(rows, n, e.start, e.end).0,
        end: span_of(rows, n, e.start, e.end).1,
        global: switch_of(rows, n + 3, e.global),
        names: texts(e.names@),
        values: values_of(rows, n + 4, e.values@, order_of(e.names@), e.names@.len() as int),
    }
}

fn apply_shader(e: &mut Effect, row: &Row) -> (r: bool)
    ensures
        final(e)@ == (EffectView { shader: shader_of(seq![*row], 0, old(e).shader@), ..old(e)@ }),
        final(e).names == old(e).names,
        r == (final(e).shader@ != old(e).shader@),
{
    match row {
        Row::Combo { items, selected } => {
            if *selected < items.len() && !same(items[*selected].as_str(), e.shader.as_str()) {
                e.shader = items[*selected].clone();
                return true;
            }
            false
        },
        _ => false,
    }
}

fn number_at(rows: &[Row], at: usize, least: i64, place: i64) -> (r: i64)
    ensures
        r == place_of(rows@, at as int, least as int, place as int),
{
    if at < rows.len() {
        match &rows[at] {
            Row::Number { ticks, .. } => if *ticks < least {
                least
            } else {
                *ticks
            },
            _ => place,
        }
    } else {
        place
    }
}

fn differ(a: i64, b: i64) -> (r: bool)
    requires
        -4 * FARTHEST <= a - b <= 4 * FARTHEST,
    ensures
        r == apart(a as int, b as int),
{
    a - b > SAME_PLACE || b - a > SAME_PLACE
}

proof fn lemma_values_len(
    rows: Seq<Row>,
    from: int,
    values: Seq<VarValue>,
    order: Seq<usize>,
    k: int,
)
    requires
        forall|j: int| 0 <= j < order.len() ==> 0 <= #[trigger] order[j] < values.len(),
        k <= order.len(),
    ensures
        values_of(rows, from, values, order, k).len() == values.len(),
    decreases k,
{
    if k > 0 {
        lemma_values_len(rows, from, values, order, k - 1);
        assert(0 <= order[k - 1] < values.len());
    }
}

proof fn lemma_not_yet(
    rows: Seq<Row>,
    from: int,
    values: Seq<VarValue>,
    order: Seq<usize>,
    k: int,
    i: int,
)
    requires
        order.len() == values.len(),
        forall|j: int| 0 <= j < order.len() ==> 0 <= #[trigger] order[j] < values.len(),
        0 <= k <= order.len(),
        0 <= i < values.len(),
        forall|j: int| 0 <= j < k ==> #[trigger] order[j] != i,
    ensures
        values_of(rows, from, values, order, k)[i] == values[i],
    decreases k,
{
    if k > 0 {
        lemma_values_len(rows, from, values, order, k - 1);
        lemma_not_yet(rows, from, values, order, k - 1, i);
        assert(order[k - 1] != i);
    }
}

/// Law: each value of an effect is written by its own row and by no other.
pub proof fn law_each_value_has_its_row(
    rows: Seq<Row>,
    from: int,
    values: Seq<VarValue>,
    order: Seq<usize>,
    j: int,
)
    requires
        order.len() == values.len(),
        forall|p: int| 0 <= p < order.len() ==> 0 <= #[trigger] order[p] < values.len(),
        order.no_duplicates(),
        0 <= j < order.len(),
    ensures
        values_of(rows, from, values, order, order.len() as int)[order[j] as int] == value_of(
            rows,
            from + j,
            values[order[j] as int],
        ),
{
    lemma_own_row(rows, from, values, order, order.len() as int, j);
}

proof fn lemma_own_row(
    rows: Seq<Row>,
    from: int,
    values: Seq<VarValue>,
    order: Seq<usize>,
    k: int,
    j: int,
)
    requires
        order.len() == values.len(),
        forall|p: int| 0 <= p < order.len() ==> 0 <= #[trigger] order[p] < values.len(),
        order.no_duplicates(),
        0 <= j < k <= order.len(),
    ensures
        values_of(rows, from, values, order, k)[order[j] as int] == value_of(
            rows,
            from + j,
            values[order[j] as int],
        ),
    decreases k,
{
    lemma_values_len(rows, from, values, order, k - 1);
    if j == k - 1 {
        lemma_not_yet(rows, from, values, order, k - 1, order[j] as int);
    } else {
        lemma_own_row(rows, from, values, order, k - 1, j);
        assert(order[j] != order[k - 1]);
    }
}

fn apply_values(e: &mut Effect, rows: &[Row], from: usize) -> (r: bool)
    requires
        old(e).names@.len() == old(e).values@.len(),
        from + old(e).names@.len() <= usize::MAX,
    ensures
        final(e).names == old(e).names,
        final(e)@ == (EffectView {
            values: values_of(
                rows@,
                from as int,
                old(e).values@,
                order_of(old(e).names@),
                old(e).names@.len() as int,
            ),
            ..old(e)@
        }),
        r == (final(e).values@ != old(e).values@),
{
    let order: Vec<usize> = var_order(e.names.as_slice());
    let ghost values = e.values@;
    let mut changed: bool = false;
    let mut k: usize = 0;
    let count: usize = e.values.len();
    while k < order.len()
        invariant
            k <= order.len(),
            count == values.len(),
            order@.len() == count,
            e.names == old(e).names,
            e.shader == old(e).shader,
            e.start == old(e).start,
            e.end == old(e).end,
            e.global == old(e).global,
            values == old(e).values@,
            order@ == order_of(old(e).names@),
            stably_ordered(old(e).names@, order@),
            from + order@.len() <= usize::MAX,
            e.values@.len() == count,
            e.values@ == values_of(rows@, from as int, values, order@, k as int),
            !changed ==> e.values@ == values,
            changed ==> exists|j: int|
                0 <= j < k && e.values@[(#[trigger] order@[j]) as int] != values[order@[j] as int],
        decreases order.len() - k,
    {
        let i: usize = order[k];
        let at: usize = from + k;
        let ghost before = e.values@;
        proof {
            assert forall|j: int| 0 <= j < k implies #[trigger] order@[j] != i by {
                assert(order@[j] != order@[k as int]);
            }
            lemma_not_yet(rows@, from as int, values, order@, k as int, i as int);
            lemma_values_len(rows@, from as int, values, order@, k + 1);
            assert(before.update(i as int, before[i as int]) =~= before);
        }
        if at < rows.len() {
            match (&rows[at], e.values[i]) {
                (Row::Number { thousandths, .. }, VarValue::Number(cur)) => {
                    let v: i64 = *thousandths;
                    let is_same: bool = match cur {
                        Some(c) => c == v,
                        None => false,
                    };
                    if !is_same {
                        e.values.set(i, VarValue::Number(Some(v)));
                        changed = true;
                        assert(e.values@[order@[k as int] as int] != values[order@[k as int] as int]);
                    }
                    assert(e.values@ =~= before.update(i as int, VarValue::Number(Some(v))));
                },
                _ => {},
            }
        }
        proof {
            if changed && e.values@ == before {
                let j = choose|j: int|
                    0 <= j < k && before[(#[trigger] order@[j]) as int] != values[order@[j] as int];
                assert(e.values@[order@[j] as int] != values[order@[j] as int]);
            }
        }
        k = k + 1;
    }
    proof {
        assert(texts(e.names@) == texts(old(e).names@));
    }
    changed
}

/// Writes the rows of the effect panel into the effect that is chosen, of which the panel lists `n`.
/// Returns whether the effect changed, so that it is saved.
pub fn eff_apply(e: &mut Effect, rows: &[Row], n: usize) -> (r: bool)
    requires
        old(e).wf(),
        rows_in_reach(rows@),
        n + 4 + old(e).names@.len() <= usize::MAX,
    ensures
        final(e)@ == applied(*old(e), rows@, n as int),
        final(e).names == old(e).names,
        r == (final(e)@ != old(e)@),
{
    let ghost first = e@;
    let mut changed: bool = false;
    if n < rows.len() {
        let shown: bool = apply_shader(e, &rows[n]);
        assert(seq![rows@[n as int]][0] == rows@[n as int]);
        if shown {
            changed = true;
        }
    }
    assert(e.shader@ == shader_of(rows@, n as int, first.shader));
    let start: i64 = number_at(rows, n + 1, 0, e.start);
    assert(in_reach(start as int));
    let end: i64 = number_at(rows, n + 2, start + HUNDREDTH, e.end);
    if differ(start, e.start) || differ(end, e.end) {
        e.start = start;
        e.end = end;
        changed = true;
    }
    if n + 3 < rows.len() {
        match &rows[n + 3] {
            Row::Toggle(on) => {
                if *on != e.global {
                    e.global = *on;
                    changed = true;
                }
            },
            _ => {},
        }
    }
    let ghost middle = *e;
    assert(middle@ == (EffectView { values: first.values, ..applied(*old(e), rows@, n as int) }));
    let written: bool = apply_values(e, rows, n + 4);
    changed || written
}

/// A tempo change: its place, and the tempo.
#[derive(Clone, Copy, PartialEq, Eq, Structural, Debug)]
pub struct Tempo {
    pub beat: i64,
    pub bpm: i64,
}

/// The tempo of a chart that has none, 120 beats a minute.
pub const FIRST_BPM: i64 = 515_396_075_520;

/// The last tempo change, behind which new ones come.
pub open spec fn last_tempo(old_rows: Seq<Tempo>) -> Tempo {
    if old_rows.len() > 0 {
        old_rows.last()
    } else {
        Tempo { beat: 0, bpm: FIRST_BPM }
    }
}

/// A new row as it is added: a place and a tempo that are zero are filled in from the last change.
pub open spec fn filled(row: Tempo, last: Tempo) -> Tempo {
    Tempo {
        beat: if row.beat == 0 {
            (last.beat + HUNDREDTH) as i64
        } else {
            row.beat
        },
        bpm: if row.bpm == 0 {
            last.bpm
        } else {
            row.bpm
        },
    }
}

/// The tempo changes that are added when the panel has more rows than the chart has changes.
pub fn bpm_adds(old_rows: &[Tempo], new_rows: &[Tempo]) -> (r: Vec<Tempo>)
    requires
        old_rows@.len() > 0 ==> in_reach(old_rows@.last().beat as int),
    ensures
        r@ == (if new_rows@.len() > old_rows@.len() {
            new_rows@.skip(old_rows@.len() as int).map_values(
                |t: Tempo| filled(t, last_tempo(old_rows@)),
            )
        } else {
            Seq::empty()
        }),
{
    let n: usize = old_rows.len();
    let last: Tempo = if n > 0 {
        old_rows[n - 1]
    } else {
        Tempo { beat: 0, bpm: FIRST_BPM }
    };
    let mut r: Vec<Tempo> = Vec::new();
    let mut i: usize = n;
    while i < new_rows.len()
        invariant
            n == old_rows@.len(),
            n <= i,
            i <= new_rows.len() || i == n,
            last == last_tempo(old_rows@),
            in_reach(last.beat as int),
            r@.len() == i - n,
            forall|k: int|
                0 <= k < i - n ==> #[trigger] r@[k] == filled(new_rows@[n + k], last),
        decreases new_rows.len() - i,
    {
        let t: Tempo = new_rows[i];
        let beat: i64 = if t.beat == 0 {
            last.beat + HUNDREDTH
        } else {
            t.beat
        };
        let bpm: i64 = if t.bpm == 0 {
            last.bpm
        } else {
            t.bpm
        };
        r.push(Tempo { beat, bpm });
        i = i + 1;
    }
    r
}

/// The rows that differ from the tempo changes that the chart has now, among the first `k`, with
/// their numbers.
pub open spec fn replaced(now: Seq<Tempo>, rows: Seq<Tempo>, k: int) -> Seq<(usize, Tempo)>
    decreases k,
{
    if k <= 0 {
        Seq::empty()
    } else {
        let before = replaced(now, rows, k - 1);
        let (a, b) = (now[k - 1], rows[k - 1]);
        if apart(b.bpm as int, a.bpm as int) || apart(b.beat as int, a.beat as int) {
            before.push(((k - 1) as usize, b))
        } else {
            before
        }
    }
}

/// The tempo changes that the panel changes, out of those that the chart has once rows were added or
/// taken away.
pub fn bpm_replacements(now: &[Tempo], rows: &[Tempo]) -> (r: Vec<(usize, Tempo)>)
    requires
        forall|i: int|
            0 <= i < now@.len() ==> in_reach((#[trigger] now@[i]).beat as int) && in_reach(
                now@[i].bpm as int,
            ),
        forall|i: int|
            0 <= i < rows@.len() ==> in_reach((#[trigger] rows@[i]).beat as int) && in_reach(
                rows@[i].bpm as int,
            ),
    ensures
        r@ == replaced(now@, rows@, if rows@.len() < now@.len() {
            rows@.len() as int
        } else {
            now@.len() as int
        }),
{
    let mut r: Vec<(usize, Tempo)> = Vec::new();
    let mut i: usize = 0;
    while i < rows.len() && i < now.len()
        invariant
            i <= rows.len(),
            i <= now.len(),
            forall|k: int|
                0 <= k < now@.len() ==> in_reach((#[trigger] now@[k]).beat as int) && in_reach(
                    now@[k].bpm as int,
                ),
            forall|k: int|
                0 <= k < rows@.len() ==> in_reach((#[trigger] rows@[k]).beat as int) && in_reach(
                    rows@[k].bpm as int,
                ),
            r@ == replaced(now@, rows@, i as int),
        decreases rows.len() - i,
    {
        let (a, b): (Tempo, Tempo) = (now[i], rows[i]);
        if differ(b.bpm, a.bpm) || differ(b.beat, a.beat) {
            r.push((i, b));
        }
        i = i + 1;
    }
    r
}

/// Law: behind the rows that list the effects come the shader, the first beat, the last beat and the
/// switch of the chosen one, and each row is written to its own field.
pub proof fn law_rows_of_an_effect(e: Effect, rows: Seq<Row>, n: int)
    requires
        0 <= n,
        n + 4 <= rows.len(),
        e.wf(),
        rows_in_reach(rows),
    ensures
        ({
            let a = applied(e, rows, n);
            &&& rows[n] matches Row::Combo { items, selected } ==> selected < items@.len() ==> a.shader
                == items@[selected as int]@
            &&& !(rows[n] is Combo) ==> a.shader == e.shader@
            &&& (rows[n + 1] is Number && rows[n + 2] is Number) ==> {
                let s = rows[n + 1]->ticks;
                let t = rows[n + 2]->ticks;
                &&& a.start >= 0 || a.start == e.start
                &&& s >= 0 && t - s >= 42_949_673 && (s - e.start > 4 || e.start - s > 4 || t - e.end
                    > 4 || e.end - t > 4) ==> a.start == s && a.end == t
                &&& s < 0 && e.start > 4 ==> a.start == 0
                &&& s >= 0 && t < s && e.start - s > 4 ==> a.end == s + 42_949_673
                &&& s == e.start && t == e.end && s >= 0 && t - s >= 42_949_673 ==> a.start == e.start
                    && a.end == e.end
            }
            &&& rows[n + 3] matches Row::Toggle(on) ==> a.global == on
            &&& !(rows[n + 3] is Toggle) ==> a.global == e.global
            &&& a.names == texts(e.names@)
        }),
{
    assert(rows[n + 1] is Number ==> in_reach(rows[n + 1]->ticks as int));
    assert(rows[n + 2] is Number ==> in_reach(rows[n + 2]->ticks as int));
}

/// Law: a row of numbers writes a number, in thousandths, and nothing but a number; no other row writes
/// a value.
pub proof fn law_value_is_written(rows: Seq<Row>, at: int, v: VarValue)
    ensures
        0 <= at < rows.len() && rows[at] is Number && v is Number ==> value_of(rows, at, v)
            == VarValue::Number(Some(rows[at]->thousandths)),
        !(v is Number) ==> value_of(rows, at, v) == v,
        0 <= at < rows.len() && !(rows[at] is Number) ==> value_of(rows, at, v) == v,
        at >= rows.len() ==> value_of(rows, at, v) == v,
{
}

/// Law: a new row of the tempo panel keeps what was typed into it; without a place it comes a hundredth
/// of a beat behind the last change, and without a tempo it has the last one.
pub proof fn law_new_tempo(old_rows: Seq<Tempo>, row: Tempo)
    requires
        old_rows.len() > 0 ==> in_reach(old_rows.last().beat as int),
    ensures
        row.beat != 0 ==> filled(row, last_tempo(old_rows)).beat == row.beat,
        row.bpm != 0 ==> filled(row, last_tempo(old_rows)).bpm == row.bpm,
        row.beat == 0 && old_rows.len() > 0 ==> filled(row, last_tempo(old_rows)).beat
            == old_rows.last().beat + 42_949_673,
        row.bpm == 0 && old_rows.len() > 0 ==> filled(row, last_tempo(old_rows)).bpm
            == old_rows.last().bpm,
        row.bpm == 0 && old_rows.len() == 0 ==> filled(row, last_tempo(old_rows)).bpm == 120
            * 0x1_0000_0000,
        row.beat == 0 && old_rows.len() == 0 ==> filled(row, last_tempo(old_rows)).beat
            == 42_949_673,
{
}

/// Law: the tempo changes that the panel changes are those whose row differs from them by more than the
/// least that counts, each with its own number and row, in order.
pub proof fn law_changed_tempos(now: Seq<Tempo>, rows: Seq<Tempo>, k: int, i: int)
    requires
        0 <= i < k <= now.len(),
        k <= rows.len(),
        k <= usize::MAX,
    ensures
        ({
            let (a, b) = (now[i], rows[i]);
            let far = b.bpm - a.bpm > 4 || a.bpm - b.bpm > 4 || b.beat - a.beat > 4 || a.beat - b.beat
                > 4;
            far <==> replaced(now, rows, k).contains((i as usize, b))
        }),
        forall|j: int|
            0 <= j < replaced(now, rows, k).len() ==> (#[trigger] replaced(now, rows, k)[j]).0 < k
                && replaced(now, rows, k)[j].1 == rows[replaced(now, rows, k)[j].0 as int],
        forall|j: int, l: int|
            0 <= j < l < replaced(now, rows, k).len() ==> (#[trigger] replaced(now, rows, k)[j]).0 < (
            #[trigger] replaced(now, rows, k)[l]).0,
    decreases k,
{
    lemma_replaced_rows(now, rows, k);
    let all = replaced(now, rows, k);
    let before = replaced(now, rows, k - 1);
    if k - 1 > i {
        law_changed_tempos(now, rows, k - 1, i);
        if before.contains((i as usize, rows[i])) {
            let p = choose|p: int| 0 <= p < before.len() && before[p] == (i as usize, rows[i]);
            assert(all[p] == (i as usize, rows[i]));
        }
        if all.contains((i as usize, rows[i])) {
            let p = choose|p: int| 0 <= p < all.len() && all[p] == (i as usize, rows[i]);
            if p < before.len() {
                assert(before[p] == (i as usize, rows[i]));
            }
        }
    } else {
        lemma_replaced_rows(now, rows, k - 1);
        let (a, b) = (now[i], rows[i]);
        if all.len() > before.len() {
            assert(all[before.len() as int] == (i as usize, b));
        }
        if all.contains((i as usize, b)) {
            let p = choose|p: int| 0 <= p < all.len() && all[p] == (i as usize, b);
            if p < before.len() {
                assert(before[p].0 < k - 1);
            }
        }
    }
}

proof fn lemma_replaced_rows(now: Seq<Tempo>, rows: Seq<Tempo>, k: int)
    requires
        0 <= k <= now.len(),
        k <= rows.len(),
        k <= usize::MAX,
    ensures
        forall|j: int|
            0 <= j < replaced(now, rows, k).len() ==> (#[trigger] replaced(now, rows, k)[j]).0 < k
                && replaced(now, rows, k)[j].1 == rows[replaced(now, rows, k)[j].0 as int],
        forall|j: int, l: int|
            0 <= j < l < replaced(now, rows, k).len() ==> (#[trigger] replaced(now, rows, k)[j]).0 < (
            #[trigger] replaced(now, rows, k)[l]).0,
    decreases k,
{
    if k > 0 {
        lemma_replaced_rows(now, rows, k - 1);
        let before = replaced(now, rows, k - 1);
        let all = replaced(now, rows, k);
        assert forall|j: int| 0 <= j < all.len() implies (#[trigger] all[j]).0 < k && all[j].1
            == rows[all[j].0 as int] by {
            if j < before.len() {
                assert(all[j] == before[j]);
            }
        }
        assert forall|j: int, l: int| 0 <= j < l < all.len() implies (#[trigger] all[j]).0 < (
        #[trigger] all[l]).0 by {
            assert(all[j] == before[j]);
            if l < before.len() {
                assert(all[l] == before[l]);
            }
        }
    }
}

} // verus!
