//! What scripts hand to the editor: names of events, curves and colours.

use crate::order::{order_of, stably_ordered};
use crate::strings::same;
use crate::timeline::{beat_keys, extract_line_notes, EventKind, Layer};
use vstd::prelude::*;

verus! {

/// Why something from a script was refused.
#[derive(Clone, Copy, PartialEq, Eq, Structural, Debug)]
pub enum BadOp {
    BezierPoints,
    Tint,
    EventKind,
}

/// The words for it. Behind those for an event's kind stands the name that was given.
pub fn bad_op_text(e: BadOp) -> (r: &'static str)
    ensures
        r@ == (match e {
            BadOp::BezierPoints => "bezier_points must be a list of 4 floats"@,
            BadOp::Tint => "tint must be a list of 3 bytes (r, g, b)"@,
            BadOp::EventKind => "unknown event kind "@,
        }),
{
    match e {
        BadOp::BezierPoints => "bezier_points must be a list of 4 floats",
        BadOp::Tint => "tint must be a list of 3 bytes (r, g, b)",
        BadOp::EventKind => "unknown event kind ",
    }
}

/// The tempo changes of a chart as scripts see them: by their beats, given as double-precision bits, as
/// indices.
pub fn tempo_order(beats: &[u64]) -> (r: Vec<usize>)
    ensures
        r@ == order_of(beat_keys(beats@)),
        stably_ordered(beat_keys(beats@), r@),
{
    extract_line_notes(beats)
}

/// The points of a curve, as single-precision bits: four, or zeros where none are given.
pub fn bezier_points(points: &Option<Vec<u32>>) -> (r: Result<[u32; 4], BadOp>)
    ensures
        r is Ok <==> *points is None || points->0@.len() == 4,
        r is Err ==> r == Err::<[u32; 4], BadOp>(BadOp::BezierPoints),
        r matches Ok(a) ==> a@ == (if *points is None {
            seq![0u32, 0u32, 0u32, 0u32]
        } else {
            points->0@
        }),
{
    match points {
        None => Ok([0u32, 0u32, 0u32, 0u32]),
        Some(v) => if v.len() == 4 {
            let a: [u32; 4] = [v[0], v[1], v[2], v[3]];
            assert(a@ =~= v@);
            Ok(a)
        } else {
            Err(BadOp::BezierPoints)
        },
    }
}

/// The colour of a note: red, green and blue, or none.
pub fn tint(bytes: &Option<Vec<u8>>) -> (r: Result<Option<[u8; 3]>, BadOp>)
    ensures
        r is Ok <==> *bytes is None || bytes->0@.len() == 3,
        r is Err ==> r == Err::<Option<[u8; 3]>, BadOp>(BadOp::Tint),
        r matches Ok(t) ==> (t is None <==> *bytes is None) && (t matches Some(a) ==> a@
            == bytes->0@),
{
    match bytes {
        None => Ok(None),
        Some(v) => if v.len() == 3 {
            let a: [u8; 3] = [v[0], v[1], v[2]];
            assert(a@ =~= v@);
            Ok(Some(a))
        } else {
            Err(BadOp::Tint)
        },
    }
}

/// The name of a kind of event in scripts.
pub open spec fn script_name(k: EventKind) -> Seq<char> {
    match k {
        EventKind::Alpha => "alpha"@,
        EventKind::MoveX => "move_x"@,
        EventKind::MoveY => "move_y"@,
        EventKind::Rotate => "rotate"@,
        EventKind::Speed => "speed"@,
    }
}

/// The kind of event of that name in scripts.
pub fn event_kind(name: &str) -> (r: Result<EventKind, BadOp>)
    ensures
        r matches Ok(k) ==> name@ == script_name(k),
        r is Err ==> r == Err::<EventKind, BadOp>(BadOp::EventKind) && forall|k: EventKind|
            name@ != #[trigger] script_name(k),
{
    if same(name, "alpha") {
        Ok(EventKind::Alpha)
    } else if same(name, "move_x") {
        Ok(EventKind::MoveX)
    } else if same(name, "move_y") {
        Ok(EventKind::MoveY)
    } else if same(name, "rotate") {
        Ok(EventKind::Rotate)
    } else if same(name, "speed") {
        Ok(EventKind::Speed)
    } else {
        Err(BadOp::EventKind)
    }
}

/// The events of a kind of the first `n` layers of a line: which layer, and which event of the kind
/// in it.
pub open spec fn events_up_to(layers: Seq<Option<Layer>>, k: EventKind, n: int) -> Seq<(usize, usize)>
    decreases n,
{
    if n <= 0 || n > layers.len() {
        Seq::empty()
    } else {
        let count = match layers[n - 1] {
            Some(l) => l.ends(k).len(),
            None => 0,
        };
        events_up_to(layers, k, n - 1) + Seq::new(count, |i: int| ((n - 1) as usize, i as usize))
    }
}

/// The events of a kind of all layers of a line, layer by layer; none for a name that no kind has.
pub fn events(layers: &[Option<Layer>], name: &str) -> (r: Vec<(usize, usize)>)
    ensures
        forall|k: EventKind|
            name@ == #[trigger] script_name(k) ==> r@ == events_up_to(
                layers@,
                k,
                layers@.len() as int,
            ),
        (forall|k: EventKind| name@ != #[trigger] script_name(k)) ==> r@.len() == 0,
{
    let mut r: Vec<(usize, usize)> = Vec::new();
    let kind: EventKind = match event_kind(name) {
        Ok(k) => k,
        Err(_) => {
            return r;
        },
    };
    let mut n: usize = 0;
    while n < layers.len()
        invariant
            n <= layers.len(),
            r@ == events_up_to(layers@, kind, n as int),
        decreases layers.len() - n,
    {
        let ghost before = r@;
        let count: usize = match &layers[n] {
            Some(l) => match kind {
                EventKind::Alpha => l.alpha.len(),
                EventKind::MoveX => l.move_x.len(),
                EventKind::MoveY => l.move_y.len(),
                EventKind::Rotate => l.rotate.len(),
                EventKind::Speed => l.speed.len(),
            },
            None => 0,
        };
        let ghost added = Seq::new(count as nat, |i: int| (n, i as usize));
        let mut i: usize = 0;
        while i < count
            invariant
                i <= count,
                added == Seq::new(count as nat, |i: int| (n, i as usize)),
                r@ == before + added.take(i as int),
            decreases count - i,
        {
            r.push((n, i));
            i = i + 1;
        }
        assert(r@ =~= before + added);
        n = n + 1;
        assert(added =~= Seq::new(count as nat, |i: int| ((n - 1) as usize, i as usize)));
    }
    proof {
        assert forall|k: EventKind| name@ == #[trigger] script_name(k) implies k == kind by {
            law_script_names_differ(k, kind);
        }
    }
    r
}

/// Law: kinds have names of their own in scripts.
pub proof fn law_script_names_differ(a: EventKind, b: EventKind)
    ensures
        script_name(a) == script_name(b) ==> a == b,
{
    reveal_strlit("alpha");
    reveal_strlit("move_x");
    reveal_strlit("move_y");
    reveal_strlit("rotate");
    reveal_strlit("speed");
    if script_name(a) == script_name(b) {
        assert(script_name(a).len() == script_name(b).len());
        assert(script_name(a)[0] == script_name(b)[0]);
        assert(script_name(a).last() == script_name(b).last());
    }
}

/// Law: scripts write the kinds of events in small letters, with a low line between words.
pub proof fn law_script_names()
    ensures
        script_name(EventKind::Alpha) == "alpha"@,
        script_name(EventKind::MoveX) == "move_x"@,
        script_name(EventKind::MoveY) == "move_y"@,
        script_name(EventKind::Rotate) == "rotate"@,
        script_name(EventKind::Speed) == "speed"@,
{
}

/// Law: scripts see every event of a kind of every layer, and no other.
pub proof fn law_events_of_all_layers(
    layers: Seq<Option<Layer>>,
    k: EventKind,
    n: int,
    l: usize,
    i: usize,
)
    requires
        0 <= n <= layers.len(),
        forall|j: int|
            0 <= j < layers.len() ==> ((#[trigger] layers[j]) matches Some(x) ==> x.ends(k).len()
                <= usize::MAX),
        layers.len() <= usize::MAX,
    ensures
        events_up_to(layers, k, n).contains((l, i)) <==> l < n && layers[l as int] is Some && i
            < layers[l as int]->0.ends(k).len(),
    decreases n,
{
    if n > 0 {
        law_events_of_all_layers(layers, k, n - 1, l, i);
        let before = events_up_to(layers, k, n - 1);
        let all = events_up_to(layers, k, n);
        let count = match layers[n - 1] {
            Some(x) => x.ends(k).len(),
            None => 0,
        };
        let added = Seq::new(count, |i: int| ((n - 1) as usize, i as usize));
        assert(all =~= before + added);
        if before.contains((l, i)) {
            let p = choose|p: int| 0 <= p < before.len() && before[p] == (l, i);
            assert(all[p] == (l, i));
        }
        if l == n - 1 && i < count {
            assert(added[i as int] == (l, i));
            assert(all[before.len() + i] == (l, i));
        }
        if all.contains((l, i)) {
            let p = choose|p: int| 0 <= p < all.len() && all[p] == (l, i);
            if p < before.len() {
                assert(before[p] == (l, i));
            } else {
                assert(added[p - before.len()] == (l, i));
                assert(p - before.len() < count);
                assert(layers[n - 1] is Some);
            }
        }
    }
}

} // verus!
