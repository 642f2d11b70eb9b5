//! The events and notes of a line as the timeline lists them, and what is chosen of them.

use crate::floats::{order_key, total_order};
use crate::order::{lemma_all_listed, order_of, sorted_by, stably_ordered};
use crate::strings::same;
use vstd::prelude::*;

verus! {

/// The events that a layer has.
#[derive(Clone, Copy, PartialEq, Eq, Structural, Debug)]
pub enum EventKind {
    Alpha,
    MoveX,
    MoveY,
    Rotate,
    Speed,
}

/// The name of a kind, which is the name of its column.
pub open spec fn kind_name(k: EventKind) -> Seq<char> {
    match k {
        EventKind::Alpha => "Alpha"@,
        EventKind::MoveX => "MoveX"@,
        EventKind::MoveY => "MoveY"@,
        EventKind::Rotate => "Rotate"@,
        EventKind::Speed => "Speed"@,
    }
}

/// The name of a kind.
pub fn event_kind_name(k: EventKind) -> (r: &'static str)
    ensures
        r@ == kind_name(k),
{
    match k {
        EventKind::Alpha => "Alpha",
        EventKind::MoveX => "MoveX",
        EventKind::MoveY => "MoveY",
        EventKind::Rotate => "Rotate",
        EventKind::Speed => "Speed",
    }
}

/// The kind of that name, where there is one.
pub fn event_kind_of(s: &str) -> (r: Option<EventKind>)
    ensures
        r matches Some(k) ==> s@ == kind_name(k),
        r is None ==> forall|k: EventKind| s@ != #[trigger] kind_name(k),
{
    if same(s, "Alpha") {
        Some(EventKind::Alpha)
    } else if same(s, "MoveX") {
        Some(EventKind::MoveX)
    } else if same(s, "MoveY") {
        Some(EventKind::MoveY)
    } else if same(s, "Rotate") {
        Some(EventKind::Rotate)
    } else if same(s, "Speed") {
        Some(EventKind::Speed)
    } else {
        None
    }
}

/// Law: kinds have names of their own.
pub proof fn law_kind_names_differ(a: EventKind, b: EventKind)
    ensures
        kind_name(a) == kind_name(b) ==> a == b,
{
    reveal_strlit("Alpha");
    reveal_strlit("MoveX");
    reveal_strlit("MoveY");
    reveal_strlit("Rotate");
    reveal_strlit("Speed");
    if kind_name(a) == kind_name(b) {
        assert(kind_name(a).len() == kind_name(b).len());
        assert(kind_name(a)[0] == kind_name(b)[0]);
        assert(kind_name(a)[4] == kind_name(b)[4]);
    }
}

/// The events of a layer: of each kind the last beats of its events, as double-precision bits.
pub struct Layer {
    pub alpha: Vec<u64>,
    pub move_x: Vec<u64>,
    pub move_y: Vec<u64>,
    pub rotate: Vec<u64>,
    pub speed: Vec<u64>,
}

impl Layer {
    /// The last beats of the events of a kind.
    pub open spec fn ends(&self, k: EventKind) -> Seq<u64> {
        match k {
            EventKind::Alpha => self.alpha@,
            EventKind::MoveX => self.move_x@,
            EventKind::MoveY => self.move_y@,
            EventKind::Rotate => self.rotate@,
            EventKind::Speed => self.speed@,
        }
    }
}

/// An event: its kind, and which one of that kind it is.
#[derive(Clone, Copy, PartialEq, Eq, Structural, Debug)]
pub struct Entry {
    pub kind: EventKind,
    pub index: usize,
}

/// The events of a kind in their order.
pub open spec fn of_kind(kind: EventKind, n: nat) -> Seq<Entry> {
    Seq::new(n, |i: int| Entry { kind, index: i as usize })
}

/// All events of a layer, kind by kind.
pub open spec fn all_events(l: Layer) -> Seq<Entry> {
    of_kind(EventKind::Alpha, l.alpha@.len()) + of_kind(EventKind::MoveX, l.move_x@.len())
        + of_kind(EventKind::MoveY, l.move_y@.len()) + of_kind(
        EventKind::Rotate,
        l.rotate@.len(),
    ) + of_kind(EventKind::Speed, l.speed@.len())
}

/// The places of beats in their order.
pub open spec fn beat_keys(ends: Seq<u64>) -> Seq<i64> {
    ends.map_values(|b: u64| order_key(b))
}

/// The last beat of an event, by its place in the order of beats.
pub open spec fn end_key(l: Layer, e: Entry) -> i64 {
    order_key(l.ends(e.kind)[e.index as int])
}

/// The events of a layer as the timeline lists them: by their last beats.
pub open spec fn line_events(l: Layer) -> Seq<Entry> {
    order_of(all_events(l).map_values(|e: Entry| end_key(l, e))).map_values(
        |i: usize| all_events(l)[i as int],
    )
}

fn push_events(
    kind: EventKind,
    ends: &Vec<u64>,
    out: &mut Vec<Entry>,
    keys: &mut Vec<i64>,
)
    ensures
        final(out)@ == old(out)@ + of_kind(kind, ends@.len()),
        final(keys)@ == old(keys)@ + beat_keys(ends@),
{
    let ghost before = out@;
    let ghost before_keys = keys@;
    let mut i: usize = 0;
    while i < ends.len()
        invariant
            i <= ends.len(),
            out@ == before + of_kind(kind, ends@.len()).take(i as int),
            keys@ == before_keys + beat_keys(ends@).take(i as int),
        decreases ends.len() - i,
    {
        out.push(Entry { kind, index: i });
        keys.push(total_order(ends[i]));
        i = i + 1;
    }
}

/// The events of a layer by their last beats; none where the line or the layer is missing.
pub fn extract_line_events(layer: &Option<Layer>) -> (r: Vec<Entry>)
    ensures
        r@ == (match *layer {
            Some(l) => line_events(l),
            None => Seq::empty(),
        }),
        *layer matches Some(l) ==> {
            &&& r@.no_duplicates()
            &&& forall|e: Entry| #[trigger]
                r@.contains(e) <==> e.index < l.ends(e.kind).len()
            &&& forall|i: int, j: int|
                0 <= i < j < r@.len() ==> end_key(l, #[trigger] r@[i]) <= end_key(
                    l,
                    #[trigger] r@[j],
                )
        },
{
    let mut out: Vec<Entry> = Vec::new();
    let l: &Layer = match layer {
        Some(l) => l,
        None => {
            return out;
        },
    };
    let mut keys: Vec<i64> = Vec::new();
    let mut all: Vec<Entry> = Vec::new();
    push_events(EventKind::Alpha, &l.alpha, &mut all, &mut keys);
    push_events(EventKind::MoveX, &l.move_x, &mut all, &mut keys);
    push_events(EventKind::MoveY, &l.move_y, &mut all, &mut keys);
    push_events(EventKind::Rotate, &l.rotate, &mut all, &mut keys);
    push_events(EventKind::Speed, &l.speed, &mut all, &mut keys);
    let total: usize = all.len();
    proof {
        assert(all@ == all_events(*l));
        assert forall|i: int| 0 <= i < total implies keys@[i] == end_key(
            *l,
            #[trigger] all_events(*l)[i],
        ) by {
            lemma_event_exists(*l, i);
        }
        assert(keys@ =~= all_events(*l).map_values(|e: Entry| end_key(*l, e)));
    }
    let order: Vec<usize> = sorted_by(keys.as_slice());
    let mut i: usize = 0;
    while i < order.len()
        invariant
            i <= order.len(),
            all@ == all_events(*l),
            order@ == order_of(all_events(*l).map_values(|e: Entry| end_key(*l, e))),
            forall|j: int| 0 <= j < order@.len() ==> #[trigger] order@[j] < all@.len(),
            out@ == line_events(*l).take(i as int),
        decreases order.len() - i,
    {
        out.push(all[order[i]]);
        i = i + 1;
    }
    proof {
        lemma_listing(*l);
        assert(line_events(*l).take(line_events(*l).len() as int) == line_events(*l));
        assert(out@ == line_events(*l));
        assert(*layer == Some(*l));
    }
    out
}

proof fn lemma_event_listed(l: Layer, e: Entry) -> (p: int)
    requires
        e.index < l.ends(e.kind).len(),
    ensures
        0 <= p < all_events(l).len(),
        all_events(l)[p] == e,
{
    let a = l.alpha@.len() as int;
    let b = a + l.move_x@.len();
    let c = b + l.move_y@.len();
    let d = c + l.rotate@.len();
    let p = match e.kind {
        EventKind::Alpha => e.index as int,
        EventKind::MoveX => a + e.index,
        EventKind::MoveY => b + e.index,
        EventKind::Rotate => c + e.index,
        EventKind::Speed => d + e.index,
    };
    assert(all_events(l)[p] == e);
    p
}

/// The listing of a layer has each of its events once, by their last beats.
proof fn lemma_listing(l: Layer)
    requires
        stably_ordered(
            all_events(l).map_values(|e: Entry| end_key(l, e)),
            order_of(all_events(l).map_values(|e: Entry| end_key(l, e))),
        ),
        all_events(l).len() <= usize::MAX,
    ensures
        line_events(l).no_duplicates(),
        forall|e: Entry| #[trigger]
            line_events(l).contains(e) <==> e.index < l.ends(e.kind).len(),
        forall|i: int, j: int|
            0 <= i < j < line_events(l).len() ==> end_key(l, #[trigger] line_events(l)[i])
                <= end_key(l, #[trigger] line_events(l)[j]),
{
    let all = all_events(l);
    let keys = all.map_values(|e: Entry| end_key(l, e));
    let order = order_of(keys);
    let r = line_events(l);
    assert forall|i: int, j: int| 0 <= i < r.len() && 0 <= j < r.len() && i != j implies r[i]
        != r[j] by {
        assert(order[i] != order[j]);
        lemma_events_differ(l, order[i] as int, order[j] as int);
    }
    assert forall|e: Entry| #[trigger] r.contains(e) <==> e.index < l.ends(e.kind).len() by {
        if e.index < l.ends(e.kind).len() {
            let p = lemma_event_listed(l, e);
            lemma_all_listed(order, p);
            let k = choose|k: int| 0 <= k < order.len() && #[trigger] order[k] == p;
            assert(r[k] == e);
        }
        if r.contains(e) {
            let k = choose|k: int| 0 <= k < r.len() && r[k] == e;
            lemma_event_exists(l, order[k] as int);
        }
    }
    assert forall|i: int, j: int| 0 <= i < j < r.len() implies end_key(l, #[trigger] r[i])
        <= end_key(l, #[trigger] r[j]) by {
        assert(crate::order::Ranked::no_later(&keys[order[i] as int], &keys[order[j] as int]));
    }
}

proof fn lemma_event_exists(l: Layer, p: int)
    requires
        0 <= p < all_events(l).len() <= usize::MAX,
    ensures
        all_events(l)[p].index < l.ends(all_events(l)[p].kind).len(),
{
}

proof fn lemma_events_differ(l: Layer, p: int, q: int)
    requires
        0 <= p < all_events(l).len() <= usize::MAX,
        0 <= q < all_events(l).len(),
        p != q,
    ensures
        all_events(l)[p] != all_events(l)[q],
{
}

/// Where an event stands in a list, from `from` on.
pub open spec fn place_of(entries: Seq<Entry>, e: Entry, from: int) -> Option<int>
    decreases entries.len() - from,
{
    if from < 0 || from >= entries.len() {
        None
    } else if entries[from] == e {
        Some(from)
    } else {
        place_of(entries, e, from + 1)
    }
}

/// Where an event stands in a list.
pub fn find_event(entries: &[Entry], e: Entry) -> (r: Option<usize>)
    ensures
        (match r {
            Some(i) => Some(i as int),
            None => None,
        }) == place_of(entries@, e, 0),
{
    let mut i: usize = 0;
    while i < entries.len()
        invariant
            i <= entries.len(),
            place_of(entries@, e, 0) == place_of(entries@, e, i as int),
        decreases entries.len() - i,
    {
        if entries[i] == e {
            return Some(i);
        }
        i = i + 1;
    }
    None
}

/// Law: an event that a list holds is found there, so that what was chosen stays chosen when the
/// list is made anew.
pub proof fn law_listed_event_is_found(entries: Seq<Entry>, e: Entry, from: int)
    requires
        0 <= from,
    ensures
        (exists|p: int| from <= p < entries.len() && #[trigger] entries[p] == e) <==> place_of(
            entries,
            e,
            from,
        ) is Some,
        place_of(entries, e, from) matches Some(p) ==> from <= p < entries.len() && entries[p]
            == e,
    decreases entries.len() - from,
{
    if from < entries.len() && entries[from] != e {
        law_listed_event_is_found(entries, e, from + 1);
    }
}

/// What is chosen: the group, or where there is none the single one.
pub open spec fn chosen(group: Seq<usize>, single: Option<usize>) -> Seq<usize> {
    if group.len() > 0 {
        group
    } else if single is Some {
        seq![single->0]
    } else {
        Seq::empty()
    }
}

/// What is chosen.
pub fn chosen_of(group: &Vec<usize>, single: Option<usize>) -> (r: Vec<usize>)
    ensures
        r@ == chosen(group@, single),
{
    if group.len() > 0 {
        let mut r: Vec<usize> = Vec::new();
        let mut i: usize = 0;
        while i < group.len()
            invariant
                i <= group.len(),
                r@ == group@.take(i as int),
            decreases group.len() - i,
        {
            r.push(group[i]);
            i = i + 1;
        }
        return r;
    }
    let mut r: Vec<usize> = Vec::new();
    if let Some(s) = single {
        r.push(s);
    }
    r
}

/// The chosen events that the list has.
pub open spec fn picked(entries: Seq<Entry>, choice: Seq<usize>) -> Seq<Entry>
    decreases choice.len(),
{
    if choice.len() == 0 {
        Seq::empty()
    } else {
        let rest = picked(entries, choice.drop_last());
        if choice.last() < entries.len() {
            rest.push(entries[choice.last() as int])
        } else {
            rest
        }
    }
}

/// The chosen events that the list has.
pub fn picked_events(entries: &[Entry], choice: &[usize]) -> (r: Vec<Entry>)
    ensures
        r@ == picked(entries@, choice@),
{
    let mut r: Vec<Entry> = Vec::new();
    let mut i: usize = 0;
    while i < choice.len()
        invariant
            i <= choice.len(),
            r@ == picked(entries@, choice@.take(i as int)),
        decreases choice.len() - i,
    {
        assert(choice@.take(i + 1).drop_last() == choice@.take(i as int));
        if choice[i] < entries.len() {
            r.push(entries[choice[i]]);
        }
        i = i + 1;
    }
    assert(choice@.take(choice@.len() as int) == choice@);
    r
}

/// The kind of the chosen event.
pub fn selected_event_kind(entries: &[Entry], single: Option<usize>) -> (r: Option<EventKind>)
    ensures
        r == (if single is Some && single->0 < entries@.len() {
            Some(entries@[single->0 as int].kind)
        } else {
            None
        }),
{
    match single {
        Some(i) => if i < entries.len() {
            Some(entries[i].kind)
        } else {
            None
        },
        None => None,
    }
}

/// Groups of events by their kinds.
pub open spec fn groups(v: Seq<(EventKind, Vec<usize>)>) -> Seq<(EventKind, Seq<usize>)> {
    v.map_values(|g: (EventKind, Vec<usize>)| (g.0, g.1@))
}

/// Which group is that of a kind.
pub open spec fn group_at(g: Seq<(EventKind, Seq<usize>)>, k: EventKind, from: int) -> Option<int>
    decreases g.len() - from,
{
    if from < 0 || from >= g.len() {
        None
    } else if g[from].0 == k {
        Some(from)
    } else {
        group_at(g, k, from + 1)
    }
}

/// The groups with one event more: in the group of its kind, behind the others, or in a new group
/// behind all.
pub open spec fn with_event(g: Seq<(EventKind, Seq<usize>)>, e: Entry) -> Seq<
    (EventKind, Seq<usize>),
> {
    match group_at(g, e.kind, 0) {
        Some(i) => g.update(i, (e.kind, g[i].1.push(e.index))),
        None => g.push((e.kind, seq![e.index])),
    }
}

/// Events by kind, each kind where it came first.
pub open spec fn grouped(events: Seq<Entry>) -> Seq<(EventKind, Seq<usize>)>
    decreases events.len(),
{
    if events.len() == 0 {
        Seq::empty()
    } else {
        with_event(grouped(events.drop_last()), events.last())
    }
}

/// Events by kind.
pub fn group_by_kind(events: &[Entry]) -> (r: Vec<(EventKind, Vec<usize>)>)
    ensures
        groups(r@) == grouped(events@),
{
    let mut r: Vec<(EventKind, Vec<usize>)> = Vec::new();
    let mut i: usize = 0;
    assert(groups(r@) =~= grouped(events@.take(0)));
    while i < events.len()
        invariant
            i <= events.len(),
            groups(r@) == grouped(events@.take(i as int)),
        decreases events.len() - i,
    {
        let e: Entry = events[i];
        let ghost before = groups(r@);
        let mut k: usize = 0;
        while k < r.len() && r[k].0 != e.kind
            invariant
                k <= r.len(),
                before == groups(r@),
                group_at(before, e.kind, 0) == group_at(before, e.kind, k as int),
            decreases r.len() - k,
        {
            k = k + 1;
        }
        assert(events@.take(i + 1).drop_last() == events@.take(i as int));
        if k < r.len() {
            let mut g: (EventKind, Vec<usize>) = r.remove(k);
            g.1.push(e.index);
            r.insert(k, g);
            assert(groups(r@) =~= with_event(before, e));
        } else {
            let mut one: Vec<usize> = Vec::new();
            one.push(e.index);
            r.push((e.kind, one));
            assert(groups(r@) =~= with_event(before, e));
        }
        i = i + 1;
    }
    assert(events@.take(events@.len() as int) == events@);
    r
}

/// The indices of the events of a kind, in their order.
pub open spec fn indices_of(events: Seq<Entry>, k: EventKind) -> Seq<usize>
    decreases events.len(),
{
    if events.len() == 0 {
        Seq::empty()
    } else if events.last().kind == k {
        indices_of(events.drop_last(), k).push(events.last().index)
    } else {
        indices_of(events.drop_last(), k)
    }
}

/// What the groups hold of a kind.
pub open spec fn held(g: Seq<(EventKind, Seq<usize>)>, k: EventKind) -> Seq<usize> {
    match group_at(g, k, 0) {
        Some(i) => g[i].1,
        None => Seq::empty(),
    }
}

proof fn lemma_group_at(g: Seq<(EventKind, Seq<usize>)>, k: EventKind, from: int)
    requires
        0 <= from,
    ensures
        group_at(g, k, from) matches Some(i) ==> from <= i < g.len() && g[i].0 == k && forall|j: int|
            from <= j < i ==> (#[trigger] g[j]).0 != k,
        group_at(g, k, from) is None ==> forall|j: int| from <= j < g.len() ==> (#[trigger] g[j]).0 != k,
    decreases g.len() - from,
{
    if from < g.len() && g[from].0 != k {
        lemma_group_at(g, k, from + 1);
    }
}

/// Law: grouping loses no event and makes none up: each kind has at most one group, and it holds
/// the events of that kind in their order.
pub proof fn law_groups_hold_all(events: Seq<Entry>, k: EventKind)
    ensures
        held(grouped(events), k) == indices_of(events, k),
        forall|i: int, j: int|
            0 <= i < j < grouped(events).len() ==> (#[trigger] grouped(events)[i]).0 != (
            #[trigger] grouped(events)[j]).0,
    decreases events.len(),
{
    if events.len() > 0 {
        law_groups_hold_all(events.drop_last(), k);
        let g = grouped(events.drop_last());
        let e = events.last();
        let h = with_event(g, e);
        lemma_group_at(g, k, 0);
        lemma_group_at(g, e.kind, 0);
        lemma_group_at(h, k, 0);
        assert(h == grouped(events));
        match (group_at(g, e.kind, 0), group_at(h, k, 0)) {
            (Some(i), Some(j)) => {
                assert(g[i].0 == e.kind);
                assert(h[j].0 == k);
                assert(h[i].0 == e.kind);
                if j != i {
                    assert(g[j].0 == k);
                }
            },
            (None, Some(j)) => {
                if j < g.len() {
                    assert(g[j].0 == k);
                }
            },
            _ => {
                if k == e.kind {
                    match group_at(g, e.kind, 0) {
                        Some(i) => {
                            assert(h[i].0 == k);
                        },
                        None => {
                            assert(h[h.len() - 1].0 == k);
                        },
                    }
                } else {
                    match group_at(g, k, 0) {
                        Some(i) => {
                            assert(h[i].0 == g[i].0);
                        },
                        None => {},
                    }
                }
            },
        }
        assert forall|i: int, j: int| 0 <= i < j < h.len() implies (#[trigger] h[i]).0 != (
        #[trigger] h[j]).0 by {
            if j < g.len() {
                assert(g[i].0 != g[j].0);
                assert(h[i].0 == g[i].0);
                assert(h[j].0 == g[j].0);
            } else {
                assert(h[i] == g[i]);
            }
        }
    }
}

/// Where the events stand in a list, those that it has.
pub open spec fn places(entries: Seq<Entry>, events: Seq<Entry>) -> Seq<int>
    decreases events.len(),
{
    if events.len() == 0 {
        Seq::empty()
    } else {
        let rest = places(entries, events.drop_last());
        match place_of(entries, events.last(), 0) {
            Some(p) => rest.push(p),
            None => rest,
        }
    }
}

/// What is chosen after the list was made anew: the same events, where they stand now.
pub fn reselect(entries: &[Entry], events: &[Entry]) -> (r: Vec<usize>)
    ensures
        r@.map_values(|u: usize| u as int) == places(entries@, events@),
{
    let mut r: Vec<usize> = Vec::new();
    let mut i: usize = 0;
    assert(r@.map_values(|u: usize| u as int) =~= places(entries@, events@.take(0)));
    while i < events.len()
        invariant
            i <= events.len(),
            r@.map_values(|u: usize| u as int) == places(entries@, events@.take(i as int)),
        decreases events.len() - i,
    {
        assert(events@.take(i + 1).drop_last() == events@.take(i as int));
        let ghost before = r@;
        match find_event(entries, events[i]) {
            Some(p) => {
                r.push(p);
                assert(r@.map_values(|u: usize| u as int) =~= before.map_values(
                    |u: usize| u as int,
                ).push(p as int));
            },
            None => {},
        }
        i = i + 1;
    }
    assert(events@.take(events@.len() as int) == events@);
    r
}

/// The notes of a line by their last beats, as indices.
pub fn extract_line_notes(ends: &[u64]) -> (r: Vec<usize>)
    ensures
        r@ == order_of(beat_keys(ends@)),
        stably_ordered(beat_keys(ends@), r@),
{
    let mut keys: Vec<i64> = Vec::new();
    let mut i: usize = 0;
    while i < ends.len()
        invariant
            i <= ends.len(),
            keys@ == beat_keys(ends@).take(i as int),
        decreases ends.len() - i,
    {
        keys.push(total_order(ends[i]));
        i = i + 1;
    }
    assert(keys@ =~= beat_keys(ends@));
    sorted_by(keys.as_slice())
}

/// The first and last beats of the notes of a line.
pub struct LineNotes {
    pub starts: Vec<u64>,
    pub ends: Vec<u64>,
}

/// The notes of the first `n` lines, line by line, each by their last beats: which line, and which
/// note of it.
pub open spec fn line_by_line(lines: Seq<LineNotes>, n: int) -> Seq<(usize, usize)>
    decreases n,
{
    if n <= 0 || n > lines.len() {
        Seq::empty()
    } else {
        line_by_line(lines, n - 1) + order_of(beat_keys(lines[n - 1].ends@)).map_values(
            |i: usize| ((n - 1) as usize, i),
        )
    }
}

/// The first beats of notes.
pub open spec fn start_keys(lines: Seq<LineNotes>, notes: Seq<(usize, usize)>) -> Seq<i64> {
    notes.map_values(|p: (usize, usize)| order_key(lines[p.0 as int].starts@[p.1 as int]))
}

/// The notes of all lines by their first beats.
pub open spec fn full_notes(lines: Seq<LineNotes>) -> Seq<(usize, usize)> {
    let all = line_by_line(lines, lines.len() as int);
    order_of(start_keys(lines, all)).map_values(|i: usize| all[i as int])
}

/// The notes of all lines by their first beats: which line, and which note of it.
pub fn extract_full_notes(lines: &[LineNotes]) -> (r: Vec<(usize, usize)>)
    requires
        forall|i: int|
            0 <= i < lines@.len() ==> (#[trigger] lines@[i]).starts@.len() == lines@[i].ends@.len(),
    ensures
        r@ == full_notes(lines@),
        forall|i: int, j: int|
            0 <= i < j < r@.len() ==> order_key(
                lines@[(#[trigger] r@[i]).0 as int].starts@[r@[i].1 as int],
            ) <= order_key(lines@[(#[trigger] r@[j]).0 as int].starts@[r@[j].1 as int]),
        forall|l: usize, n: usize|
            #![trigger r@.contains((l, n))]
            r@.contains((l, n)) <==> l < lines@.len() && n < lines@[l as int].starts@.len(),
{
    let mut all: Vec<(usize, usize)> = Vec::new();
    let mut keys: Vec<i64> = Vec::new();
    let mut n: usize = 0;
    while n < lines.len()
        invariant
            n <= lines.len(),
            forall|i: int|
                0 <= i < lines@.len() ==> (#[trigger] lines@[i]).starts@.len()
                    == lines@[i].ends@.len(),
            all@ == line_by_line(lines@, n as int),
            keys@ == start_keys(lines@, all@),
            forall|l: usize, m: usize|
                #![trigger all@.contains((l, m))]
                all@.contains((l, m)) <==> l < n && m < lines@[l as int].starts@.len(),
        decreases lines.len() - n,
    {
        let order: Vec<usize> = extract_line_notes(lines[n].ends.as_slice());
        let ghost before = all@;
        let ghost added = order@.map_values(|i: usize| (n, i));
        let mut i: usize = 0;
        while i < order.len()
            invariant
                i <= order.len(),
                n < lines.len(),
                lines@[n as int].starts@.len() == lines@[n as int].ends@.len(),
                stably_ordered(beat_keys(lines@[n as int].ends@), order@),
                added == order@.map_values(|i: usize| (n, i)),
                all@ == before + added.take(i as int),
                keys@ == start_keys(lines@, all@),
            decreases order.len() - i,
        {
            let k: usize = order[i];
            all.push((n, k));
            keys.push(total_order(lines[n].starts[k]));
            assert(keys@ =~= start_keys(lines@, all@));
            i = i + 1;
        }
        assert(all@ =~= before + added);
        proof {
            lemma_line_added(lines@, before, order@, n);
        }
        n = n + 1;
        assert(added =~= order_of(beat_keys(lines@[n - 1].ends@)).map_values(
            |i: usize| ((n - 1) as usize, i),
        ));
    }
    let order: Vec<usize> = sorted_by(keys.as_slice());
    let mut r: Vec<(usize, usize)> = Vec::new();
    let mut i: usize = 0;
    while i < order.len()
        invariant
            i <= order.len(),
            all@ == line_by_line(lines@, lines@.len() as int),
            order@ == order_of(start_keys(lines@, all@)),
            forall|j: int| 0 <= j < order@.len() ==> #[trigger] order@[j] < all@.len(),
            r@ == full_notes(lines@).take(i as int),
        decreases order.len() - i,
    {
        r.push(all[order[i]]);
        i = i + 1;
    }
    proof {
        assert(r@ == order@.map_values(|i: usize| all@[i as int]));
        assert forall|i: int, j: int| 0 <= i < j < r@.len() implies order_key(
            lines@[(#[trigger] r@[i]).0 as int].starts@[r@[i].1 as int],
        ) <= order_key(lines@[(#[trigger] r@[j]).0 as int].starts@[r@[j].1 as int]) by {
            crate::order::law_numbers_ascend(keys@, order@, i, j);
        }
        assert forall|l: usize, n: usize| #![trigger r@.contains((l, n))] r@.contains((l, n)) <==> l
            < lines@.len() && n < lines@[l as int].starts@.len() by {
            if all@.contains((l, n)) {
                let p = choose|p: int| 0 <= p < all@.len() && all@[p] == (l, n);
                lemma_all_listed(order@, p);
                let k = choose|k: int| 0 <= k < order@.len() && #[trigger] order@[k] == p;
                assert(r@[k] == (l, n));
            }
            if r@.contains((l, n)) {
                let k = choose|k: int| 0 <= k < r@.len() && r@[k] == (l, n);
                assert(all@[order@[k] as int] == (l, n));
                assert(all@.contains((l, n)));
            }
        }
    }
    r
}

proof fn lemma_line_added(
    lines: Seq<LineNotes>,
    before: Seq<(usize, usize)>,
    order: Seq<usize>,
    n: usize,
)
    requires
        n < lines.len(),
        lines[n as int].starts@.len() == lines[n as int].ends@.len(),
        stably_ordered(beat_keys(lines[n as int].ends@), order),
        forall|l: usize, m: usize|
            #![trigger before.contains((l, m))]
            before.contains((l, m)) <==> l < n && m < lines[l as int].starts@.len(),
    ensures
        ({
            let now = before + order.map_values(|i: usize| (n, i));
            forall|l: usize, m: usize|
                #![trigger now.contains((l, m))]
                now.contains((l, m)) <==> l < n + 1 && m < lines[l as int].starts@.len()
        }),
{
    let added = order.map_values(|i: usize| (n, i));
    let now = before + added;
    assert forall|l: usize, m: usize| #![trigger now.contains((l, m))] now.contains((l, m)) <==> l
        < n + 1 && m < lines[l as int].starts@.len() by {
        if now.contains((l, m)) {
            let p = choose|p: int| 0 <= p < now.len() && now[p] == (l, m);
            if p < before.len() {
                assert(before[p] == (l, m));
                assert(before.contains((l, m)));
            } else {
                assert(added[p - before.len()] == (l, m));
                assert(order[p - before.len()] == m);
            }
        }
        if l < n && m < lines[l as int].starts@.len() {
            assert(before.contains((l, m)));
            let p = choose|p: int| 0 <= p < before.len() && before[p] == (l, m);
            assert(now[p] == (l, m));
        }
        if l == n && m < lines[l as int].starts@.len() {
            lemma_all_listed(order, m as int);
            let k = choose|k: int| 0 <= k < order.len() && #[trigger] order[k] == m;
            assert(added[k] == (n, m));
            assert(now[before.len() + k] == (l, m));
        }
    }
}

/// The chosen notes that a line of `n` notes has.
pub open spec fn present(choice: Seq<usize>, n: nat) -> Seq<usize> {
    choice.filter(|c: usize| c < n)
}

/// Which notes of a line of `n` notes are copied: those chosen; nothing where none of them is
/// there, and what was copied before stays.
pub fn copy_selected_notes(group: &Vec<usize>, single: Option<usize>, n: usize) -> (r: Option<
    Vec<usize>,
>)
    ensures
        r is Some <==> present(chosen(group@, single), n as nat).len() > 0,
        r matches Some(c) ==> c@ == present(chosen(group@, single), n as nat),
{
    let choice: Vec<usize> = chosen_of(group, single);
    let mut r: Vec<usize> = Vec::new();
    let mut i: usize = 0;
    while i < choice.len()
        invariant
            i <= choice.len(),
            r@ == present(choice@.take(i as int), n as nat),
        decreases choice.len() - i,
    {
        let c: usize = choice[i];
        proof {
            reveal(Seq::filter);
            assert(choice@.take(i + 1).drop_last() == choice@.take(i as int));
        }
        if c < n {
            r.push(c);
        }
        i = i + 1;
    }
    assert(choice@.take(choice@.len() as int) == choice@);
    if r.len() > 0 {
        Some(r)
    } else {
        None
    }
}

/// The kind of note that is placed at the playhead: that of the note that alone is chosen, else a
/// tap.
pub fn placed_kind(group: &Vec<usize>, single: Option<usize>, kinds: &[u8]) -> (r: u8)
    ensures
        r == (if group@.len() == 1 && single is Some && single->0 < kinds@.len() {
            kinds@[single->0 as int]
        } else {
            1u8
        }),
        group@.len() != 1 || single is None ==> r == 1,
        group@.len() == 1 && single is Some && single->0 < kinds@.len() ==> r
            == kinds@[single->0 as int],
{
    if group.len() != 1 {
        return 1;
    }
    match single {
        Some(i) => if i < kinds.len() {
            kinds[i]
        } else {
            1
        },
        None => 1,
    }
}

/// Law: each column bears the name of its kind.
pub proof fn law_column_names()
    ensures
        kind_name(EventKind::Alpha) == "Alpha"@,
        kind_name(EventKind::MoveX) == "MoveX"@,
        kind_name(EventKind::MoveY) == "MoveY"@,
        kind_name(EventKind::Rotate) == "Rotate"@,
        kind_name(EventKind::Speed) == "Speed"@,
{
}

/// Law: a group that is chosen stands before the single one, which counts only where there is no group.
pub proof fn law_group_before_single(group: Seq<usize>, single: Option<usize>, i: usize)
    ensures
        group.len() > 0 ==> chosen(group, single) == group,
        group.len() == 0 ==> (chosen(group, single).contains(i) <==> single == Some(i)),
        group.len() == 0 ==> chosen(group, single).len() <= 1,
{
    if group.len() == 0 && single is Some {
        assert(chosen(group, single)[0] == single->0);
    }
}

/// Law: what is picked of the list is what is chosen, in the order of the choice; places that the list
/// does not have are passed over.
pub proof fn law_picked_are_the_chosen(entries: Seq<Entry>, choice: Seq<usize>)
    ensures
        (forall|i: int| 0 <= i < choice.len() ==> #[trigger] choice[i] < entries.len()) ==> picked(
            entries,
            choice,
        ).len() == choice.len() && forall|i: int|
            0 <= i < choice.len() ==> #[trigger] picked(entries, choice)[i]
                == entries[choice[i] as int],
        (forall|i: int| 0 <= i < choice.len() ==> #[trigger] choice[i] >= entries.len()) ==> picked(
            entries,
            choice,
        ).len() == 0,
    decreases choice.len(),
{
    if choice.len() > 0 {
        let rest = choice.drop_last();
        law_picked_are_the_chosen(entries, rest);
        if forall|i: int| 0 <= i < choice.len() ==> #[trigger] choice[i] < entries.len() {
            assert(forall|i: int| 0 <= i < rest.len() ==> #[trigger] rest[i] == choice[i]);
            assert forall|i: int| 0 <= i < choice.len() implies #[trigger] picked(entries, choice)[i]
                == entries[choice[i] as int] by {
                if i < rest.len() {
                    assert(picked(entries, choice)[i] == picked(entries, rest)[i]);
                }
            }
        }
        if forall|i: int| 0 <= i < choice.len() ==> #[trigger] choice[i] >= entries.len() {
            assert(forall|i: int| 0 <= i < rest.len() ==> #[trigger] rest[i] == choice[i]);
            assert(choice[choice.len() - 1] >= entries.len());
        }
    }
}

/// Law: events that a list holds stay chosen when it is made anew: their places, in the same order,
/// hold those events.
pub proof fn law_places_hold_the_events(entries: Seq<Entry>, events: Seq<Entry>)
    requires
        forall|i: int| 0 <= i < events.len() ==> entries.contains(#[trigger] events[i]),
    ensures
        places(entries, events).len() == events.len(),
        forall|i: int|
            0 <= i < events.len() ==> 0 <= #[trigger] places(entries, events)[i] < entries.len()
                && entries[places(entries, events)[i]] == events[i],
    decreases events.len(),
{
    if events.len() > 0 {
        let rest = events.drop_last();
        assert(forall|i: int| 0 <= i < rest.len() ==> #[trigger] rest[i] == events[i]);
        law_places_hold_the_events(entries, rest);
        let e = events.last();
        assert(entries.contains(events[events.len() - 1]));
        let p = choose|p: int| 0 <= p < entries.len() && entries[p] == e;
        assert(entries[p] == e);
        law_listed_event_is_found(entries, e, 0);
        assert forall|i: int| 0 <= i < events.len() implies 0 <= #[trigger] places(
            entries,
            events,
        )[i] < entries.len() && entries[places(entries, events)[i]] == events[i] by {
            if i < rest.len() {
                assert(places(entries, events)[i] == places(entries, rest)[i]);
            }
        }
    }
}

/// Law: of the chosen notes those are copied that the line has, and no others.
pub proof fn law_present_notes(choice: Seq<usize>, n: nat, c: usize)
    ensures
        present(choice, n).contains(c) <==> choice.contains(c) && c < n,
        present(choice, n).len() <= choice.len(),
    decreases choice.len(),
{
    reveal(Seq::filter);
    if choice.len() > 0 {
        let rest = choice.drop_last();
        let last = choice.last();
        law_present_notes(rest, n, c);
        let before = present(rest, n);
        let now = present(choice, n);
        if choice.contains(c) && c != last {
            let i = choose|i: int| 0 <= i < choice.len() && choice[i] == c;
            assert(rest[i] == c);
        }
        if rest.contains(c) {
            let i = choose|i: int| 0 <= i < rest.len() && rest[i] == c;
            assert(choice[i] == c);
        }
        if c == last {
            assert(choice[choice.len() - 1] == c);
        }
        if last < n {
            assert(now == before.push(last));
            if before.contains(c) {
                let i = choose|i: int| 0 <= i < before.len() && before[i] == c;
                assert(now[i] == c);
            }
            if now.contains(c) {
                let i = choose|i: int| 0 <= i < now.len() && now[i] == c;
                if i < before.len() {
                    assert(before[i] == c);
                }
            }
            assert(now[before.len() as int] == last);
        } else {
            assert(now == before);
        }
    }
}

/// Law: the events of a kind are those that the layer holds under it.
pub proof fn law_events_of_kinds(l: Layer)
    ensures
        l.ends(EventKind::Alpha) == l.alpha@,
        l.ends(EventKind::MoveX) == l.move_x@,
        l.ends(EventKind::MoveY) == l.move_y@,
        l.ends(EventKind::Rotate) == l.rotate@,
        l.ends(EventKind::Speed) == l.speed@,
{
}

} // verus!
