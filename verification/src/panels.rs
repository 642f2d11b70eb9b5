//! The panels of effects and tempos: which row stands for what.

use crate::effects::{effect_index, index_of};
use crate::order::{order_of, sorted_by, stably_ordered};
use crate::strings::texts;
use crate::timeline::{beat_keys, extract_line_notes};
use vstd::prelude::*;

verus! {

/// How many easings there are for a keyframe.
pub const KEYFRAME_EASINGS: i32 = 30;

/// The last easing that the keys reach for an event.
pub const LAST_EASING: i32 = 5;

/// The effects of a chart as the panel lists them: by their first beats, given as double-precision
/// bits.
pub fn eff_sorted(starts: &[u64]) -> (r: Vec<usize>)
    ensures
        r@ == order_of(beat_keys(starts@)),
        stably_ordered(beat_keys(starts@), r@),
{
    extract_line_notes(starts)
}

/// The effect that a row of the list stands for.
pub open spec fn effect_at(starts: Seq<u64>, row: Option<usize>) -> Option<usize> {
    if row is Some && row->0 < starts.len() {
        Some(order_of(beat_keys(starts))[row->0 as int])
    } else {
        None
    }
}

/// The effect that a row of the list stands for.
pub fn effect_of_row(starts: &[u64], row: Option<usize>) -> (r: Option<usize>)
    ensures
        r == effect_at(starts@, row),
        r matches Some(i) ==> i < starts@.len(),
{
    let order: Vec<usize> = eff_sorted(starts);
    match row {
        Some(i) => if i < order.len() {
            Some(order[i])
        } else {
            None
        },
        None => None,
    }
}

/// The row of the list in which an effect stands.
pub fn row_of_effect(starts: &[u64], effect: usize) -> (r: Option<usize>)
    ensures
        r is Some <==> effect < starts@.len(),
        r matches Some(i) ==> i < starts@.len() && effect_at(starts@, Some(i)) == Some(effect),
{
    let order: Vec<usize> = eff_sorted(starts);
    let mut i: usize = 0;
    while i < order.len()
        invariant
            i <= order.len(),
            order@ == order_of(beat_keys(starts@)),
            stably_ordered(beat_keys(starts@), order@),
            forall|k: int| 0 <= k < i ==> #[trigger] order@[k] != effect,
        decreases order.len() - i,
    {
        if order[i] == effect {
            return Some(i);
        }
        i = i + 1;
    }
    proof {
        if effect < starts@.len() {
            crate::order::lemma_all_listed(order@, effect as int);
        }
    }
    None
}

/// What a value of an effect is.
#[derive(Clone, Copy, PartialEq, Eq, Structural, Debug)]
pub enum VarKind {
    Number,
    /// Keyframes, and how many.
    Keyframes(usize),
    Other,
}

/// The values of an effect in the order of their names: which of `names` stands in each row.
pub fn var_order(names: &[String]) -> (r: Vec<usize>)
    ensures
        r@ == order_of(names@),
        stably_ordered(names@, r@),
{
    sorted_by(names)
}

/// Which value a row stands for.
pub open spec fn var_at(names: Seq<String>, row: usize) -> Option<usize> {
    if row < names.len() {
        Some(order_of(names)[row as int])
    } else {
        None
    }
}

/// Which value a row stands for.
pub fn var_of_row(names: &[String], row: usize) -> (r: Option<usize>)
    ensures
        r == var_at(names@, row),
        r matches Some(i) ==> i < names@.len(),
{
    let order: Vec<usize> = var_order(names);
    if row < order.len() {
        Some(order[row])
    } else {
        None
    }
}

/// Whether a row holds keyframes.
pub fn eff_var_is_keyframed(names: &[String], kinds: &[VarKind], row: usize) -> (r: bool)
    requires
        names@.len() == kinds@.len(),
    ensures
        r == (var_at(names@, row) matches Some(i) && kinds@[i as int] is Keyframes),
{
    match var_of_row(names, row) {
        Some(i) => match kinds[i] {
            VarKind::Keyframes(_) => true,
            _ => false,
        },
        None => false,
    }
}

/// The names of effects that are not built in, in the order of the effects.
pub open spec fn custom_of(shaders: Seq<Seq<char>>) -> Seq<Seq<char>>
    decreases shaders.len(),
{
    if shaders.len() == 0 {
        Seq::empty()
    } else if index_of(shaders.last(), 0) is None {
        custom_of(shaders.drop_last()).push(shaders.last())
    } else {
        custom_of(shaders.drop_last())
    }
}

/// The names of effects that are not built in.
pub fn custom_shaders(shaders: &[String]) -> (r: Vec<String>)
    ensures
        texts(r@) == custom_of(texts(shaders@)),
{
    let mut r: Vec<String> = Vec::new();
    let mut i: usize = 0;
    assert(texts(r@) =~= custom_of(texts(shaders@).take(0)));
    while i < shaders.len()
        invariant
            i <= shaders.len(),
            texts(r@) == custom_of(texts(shaders@).take(i as int)),
        decreases shaders.len() - i,
    {
        let ghost before = texts(r@);
        proof {
            assert(texts(shaders@).take(i + 1).drop_last() == texts(shaders@).take(i as int));
            assert(texts(shaders@).take(i + 1).last() == shaders@[i as int]@);
        }
        if effect_index(shaders[i].as_str()).is_none() {
            r.push(shaders[i].clone());
            assert(texts(r@) =~= before.push(shaders@[i as int]@));
        }
        i = i + 1;
    }
    assert(texts(shaders@).take(shaders@.len() as int) == texts(shaders@));
    r
}

/// The easing of a keyframe after a turn of the wheel, round and round.
pub fn next_keyframe_easing(easing: i32, up: bool) -> (r: i32)
    requires
        i32::MIN < easing < i32::MAX,
    ensures
        r == (easing + if up {
            1int
        } else {
            -1int
        }) % 30,
        0 <= r < KEYFRAME_EASINGS,
        up && 0 <= easing < 29 ==> r == easing + 1,
        up && easing == 29 ==> r == 0,
        !up && 0 < easing < 30 ==> r == easing - 1,
        !up && easing == 0 ==> r == 29,
{
    let n: i32 = if up {
        easing + 1
    } else {
        easing - 1
    };
    let m: i64 = n as i64;
    let q: i64 = m + 30 * 100_000_000;
    (q % 30) as i32
}

/// The easing of an event after a key, between none and the last.
pub fn next_event_easing(easing: i32, up: bool) -> (r: i32)
    requires
        i32::MIN < easing < i32::MAX,
    ensures
        up ==> r == (if easing + 1 > LAST_EASING {
            LAST_EASING as int
        } else {
            easing + 1
        }),
        !up ==> r == (if easing - 1 < 0 {
            0
        } else {
            easing - 1
        }),
        0 <= easing <= 5 ==> 0 <= r <= 5,
        0 <= easing < 5 && up ==> r == easing + 1,
        0 < easing <= 5 && !up ==> r == easing - 1,
        easing == 5 && up ==> r == 5,
        easing == 0 && !up ==> r == 0,
{
    if up {
        if easing + 1 > LAST_EASING {
            LAST_EASING
        } else {
            easing + 1
        }
    } else {
        if easing - 1 < 0 {
            0
        } else {
            easing - 1
        }
    }
}

/// Law: turning the wheel on and back leaves an easing that is one.
pub proof fn law_easing_goes_round(easing: int)
    requires
        0 <= easing < 30,
    ensures
        ((easing + 1) % 30 - 1) % 30 == easing,
        ((easing - 1) % 30 + 1) % 30 == easing,
{
}

/// How many tempo changes are added behind the `old` ones, and how many of the last are taken away,
/// when the panel has `new` rows: the chart keeps one at least.
pub fn bpm_apply(old_rows: usize, new_rows: usize) -> (r: (usize, usize))
    ensures
        r.0 == (if new_rows > old_rows {
            new_rows - old_rows
        } else {
            0
        }),
        r.1 == (if new_rows < old_rows {
            if new_rows > 0 {
                old_rows - new_rows
            } else {
                old_rows - 1
            }
        } else {
            0
        }),
        old_rows > 0 ==> old_rows + r.0 - r.1 >= 1,
        new_rows > 0 && old_rows > 0 ==> old_rows + r.0 - r.1 == new_rows,
        new_rows == 0 && old_rows > 0 ==> old_rows + r.0 - r.1 == 1,
        r.0 == 0 || r.1 == 0,
{
    if new_rows > old_rows {
        (new_rows - old_rows, 0)
    } else if new_rows < old_rows {
        (
            0,
            if new_rows > 0 {
                old_rows - new_rows
            } else {
                old_rows - 1
            },
        )
    } else {
        (0, 0)
    }
}

/// Law: a row of the effect panel stands for the effect of its place in time: every row stands for one
/// effect, no two for the same, and a later row for no earlier one.
pub proof fn law_rows_of_effects(starts: Seq<u64>, i: usize, j: usize)
    requires
        stably_ordered(beat_keys(starts), order_of(beat_keys(starts))),
        i < j < starts.len(),
    ensures
        effect_at(starts, Some(i)) is Some && effect_at(starts, Some(j)) is Some,
        effect_at(starts, Some(i)) != effect_at(starts, Some(j)),
        ({
            let a = starts[effect_at(starts, Some(i))->0 as int];
            let b = starts[effect_at(starts, Some(j))->0 as int];
            crate::floats::order_key(a) <= crate::floats::order_key(b)
        }),
        effect_at(starts, None) is None,
        starts.len() <= usize::MAX ==> effect_at(starts, Some(starts.len() as usize)) is None,
{
    let order = order_of(beat_keys(starts));
    assert(order[i as int] != order[j as int]);
    crate::order::law_numbers_ascend(beat_keys(starts), order, i as int, j as int);
}

/// Law: the names that are not built in are those of the effects that no built-in effect bears, and no
/// others.
pub proof fn law_custom_names(shaders: Seq<Seq<char>>, s: Seq<char>)
    ensures
        custom_of(shaders).contains(s) <==> shaders.contains(s) && index_of(s, 0) is None,
        custom_of(shaders).len() <= shaders.len(),
    decreases shaders.len(),
{
    if shaders.len() > 0 {
        let rest = shaders.drop_last();
        let last = shaders.last();
        law_custom_names(rest, s);
        let before = custom_of(rest);
        let now = custom_of(shaders);
        if shaders.contains(s) && s != last {
            let i = choose|i: int| 0 <= i < shaders.len() && shaders[i] == s;
            assert(rest[i] == s);
        }
        if rest.contains(s) {
            let i = choose|i: int| 0 <= i < rest.len() && rest[i] == s;
            assert(shaders[i] == s);
        }
        if s == last {
            assert(shaders[shaders.len() - 1] == s);
        }
        if index_of(last, 0) is None {
            assert(now == before.push(last));
            if before.contains(s) {
                let i = choose|i: int| 0 <= i < before.len() && before[i] == s;
                assert(now[i] == s);
            }
            if now.contains(s) {
                let i = choose|i: int| 0 <= i < now.len() && now[i] == s;
                if i < before.len() {
                    assert(before[i] == s);
                }
            }
            assert(now[before.len() as int] == last);
        } else {
            assert(now == before);
        }
    }
}

/// Law: the rows of an effect's values stand in the order of their names, and each stands for one value.
pub proof fn law_rows_of_values(names: Seq<String>, i: usize, j: usize)
    requires
        stably_ordered(names, order_of(names)),
        i < j < names.len(),
    ensures
        var_at(names, i) is Some && var_at(names, j) is Some,
        var_at(names, i) != var_at(names, j),
        crate::order::text_le(
            names[var_at(names, i)->0 as int]@,
            names[var_at(names, j)->0 as int]@,
        ),
        names.len() <= usize::MAX ==> var_at(names, names.len() as usize) is None,
{
    let order = order_of(names);
    assert(order[i as int] != order[j as int]);
    crate::order::law_texts_ascend(names, order, i as int, j as int);
}

} // verus!
