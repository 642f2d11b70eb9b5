//! The mirror: what the editor streams to a browser and what it takes back from one.
//!
//! Floating-point values are held as their IEEE 754 bit patterns, which is what goes over the
//! wire.

use vstd::prelude::*;
use vstd::utf8::*;

use crate::bytes::{
    be16, be32, be64, be_value, law_be16_reads_back, law_be32_reads_back, law_be64_reads_back, push_all,
    push_i32, push_u16, push_u32, push_u64, push_u8, two_complement,
};
use crate::strings::{index_in, lemma_index_in, position, same, texts};

verus! {

/// The port of the mirror service.
pub const MIRROR_PORT: u16 = 8765;

/// The longest snapshot that is streamed.
pub const MAX_SNAP_BYTES: usize = 2097152;

/// The number of built-in textures.
pub const BUILTIN_COUNT: usize = 6;

/// The bits of the single-precision not-a-number that stands for "no hold end".
pub const NAN_BITS: u32 = 0x7FC0_0000;

/// A command from the browser.
#[derive(Clone, Copy, Debug)]
pub enum MirrorCtrl {
    /// Pause or resume.
    Pause,
    /// Seek to a time in seconds, as the bits of a double.
    Seek(u64),
}

/// The names of the built-in textures, in the order of their slots.
pub open spec fn builtin_names() -> Seq<Seq<char>> {
    seq!["click"@, "drag"@, "flick"@, "hold"@, "hitfx"@, "line"@]
}

/// The built-in textures, in the order of their slots.
pub fn builtin_tex_names() -> (r: Vec<String>)
    ensures
        texts(r@) == builtin_names(),
{
    let r: Vec<String> = vec![
        "click".to_owned(),
        "drag".to_owned(),
        "flick".to_owned(),
        "hold".to_owned(),
        "hitfx".to_owned(),
        "line".to_owned(),
    ];
    proof {
        assert(texts(r@) == builtin_names());
    }
    r
}

/// `list` followed by the texts of `more` that are neither empty nor in it yet.
pub open spec fn with_new(list: Seq<Seq<char>>, more: Seq<Seq<char>>) -> Seq<Seq<char>>
    decreases more.len(),
{
    if more.len() == 0 {
        list
    } else {
        let so_far = with_new(list, more.drop_last());
        let t = more.last();
        if t.len() == 0 || so_far.contains(t) {
            so_far
        } else {
            so_far.push(t)
        }
    }
}

/// The texture slots of a chart: the built-in ones, then the textures of its lines, each once,
/// in the order in which the lines name them.
pub open spec fn slots_of(line_textures: Seq<Seq<char>>) -> Seq<Seq<char>> {
    builtin_names() + with_new(Seq::empty(), line_textures)
}

/// The texture slots of a chart whose lines name `line_textures`.
pub fn texture_slots(line_textures: &[String]) -> (r: Vec<String>)
    ensures
        texts(r@) == slots_of(texts(line_textures@)),
{
    let mut own: Vec<String> = Vec::new();
    let ghost names = texts(line_textures@);
    let mut i: usize = 0;
    proof {
        assert(texts(own@) == Seq::<Seq<char>>::empty());
        assert(names.take(0).len() == 0);
    }
    while i < line_textures.len()
        invariant
            i <= line_textures.len(),
            names == texts(line_textures@),
            texts(own@) == with_new(Seq::empty(), names.take(i as int)),
        decreases line_textures.len() - i,
    {
        let t: &str = line_textures[i].as_str();
        let known: Option<usize> = position(own.as_slice(), t);
        let ghost before = texts(own@);
        proof {
            assert(names.take(i + 1).drop_last() == names.take(i as int));
            assert(names.take(i + 1).last() == t@);
            lemma_index_in(before, t@, 0);
            if let Some(k) = known {
                assert(before[k as int] == t@);
            }
        }
        if !t.is_empty() && known.is_none() {
            own.push(line_textures[i].clone());
            proof {
                assert(texts(own@) == before.push(t@));
            }
        }
        i = i + 1;
    }
    let mut slots: Vec<String> = builtin_tex_names();
    let ghost first = slots@;
    let ghost second = own@;
    slots.append(&mut own);
    proof {
        assert(names.take(names.len() as int) == names);
        assert(texts(first + second) == texts(first) + texts(second));
    }
    slots
}

/// Law: the slots begin with the built-in ones; behind them every texture that a line names
/// stands exactly once, and no empty name.
pub proof fn law_slots(line_textures: Seq<Seq<char>>)
    ensures
        slots_of(line_textures).take(BUILTIN_COUNT as int) == builtin_names(),
        ({
            let own = slots_of(line_textures).skip(BUILTIN_COUNT as int);
            &&& own.no_duplicates()
            &&& forall|i: int| 0 <= i < own.len() ==> (#[trigger] own[i]).len() > 0
            &&& forall|i: int| 0 <= i < own.len() ==> line_textures.contains(#[trigger] own[i])
            &&& forall|i: int|
                0 <= i < line_textures.len() && (#[trigger] line_textures[i]).len() > 0
                    ==> own.contains(line_textures[i])
        }),
{
    let own = with_new(Seq::empty(), line_textures);
    lemma_with_new(line_textures);
    assert(slots_of(line_textures).take(6) == builtin_names());
    assert(slots_of(line_textures).skip(6) == own);
}

proof fn lemma_with_new(more: Seq<Seq<char>>)
    ensures
        ({
            let own = with_new(Seq::empty(), more);
            &&& own.no_duplicates()
            &&& forall|i: int| 0 <= i < own.len() ==> (#[trigger] own[i]).len() > 0
            &&& forall|i: int| 0 <= i < own.len() ==> more.contains(#[trigger] own[i])
            &&& forall|i: int|
                0 <= i < more.len() && (#[trigger] more[i]).len() > 0 ==> own.contains(more[i])
        }),
    decreases more.len(),
{
    if more.len() > 0 {
        let less = more.drop_last();
        lemma_with_new(less);
        let so_far = with_new(Seq::empty(), less);
        let own = with_new(Seq::empty(), more);
        let t = more.last();
        assert forall|i: int| 0 <= i < own.len() implies more.contains(#[trigger] own[i]) by {
            if i < so_far.len() {
                assert(own[i] == so_far[i]);
                assert(less.contains(so_far[i]));
                let k = choose|k: int| 0 <= k < less.len() && less[k] == so_far[i];
                assert(more[k] == so_far[i]);
            } else {
                assert(more[more.len() - 1] == t);
            }
        }
        assert forall|i: int| 0 <= i < more.len() && (#[trigger] more[i]).len() > 0 implies own.contains(
            more[i],
        ) by {
            if i < less.len() {
                assert(less[i] == more[i]);
                assert(so_far.contains(less[i]));
                let k = choose|k: int| 0 <= k < so_far.len() && so_far[k] == less[i];
                assert(own[k] == more[i]);
            } else if !so_far.contains(t) {
                assert(own[own.len() - 1] == t);
            } else {
                assert(own == so_far);
            }
        }
        assert(own.no_duplicates());
    }
}

/// A note of a frame. Positions, alpha and scale are single-precision bits.
pub struct NoteState {
    pub kind: u8,
    pub x: u32,
    pub y: u32,
    pub hold_end_y: Option<u32>,
    pub alpha: u32,
    pub scale: u32,
}

/// A judge line of a frame. All numbers but the z-order are single-precision bits.
pub struct LineState {
    pub x: u32,
    pub y: u32,
    pub rotation: u32,
    pub scale_x: u32,
    pub scale_y: u32,
    pub alpha: u32,
    pub z_order: i32,
    pub texture: Option<String>,
    pub notes: Vec<NoteState>,
}

/// A frame: the time as double-precision bits, and the lines.
pub struct FrameState {
    pub time: u64,
    pub lines: Vec<LineState>,
}

/// The texture slot of a kind of note: tap, hold, flick, and drag for any other.
pub open spec fn note_slot(kind: u8) -> u8 {
    if kind == 1 {
        1
    } else if kind == 2 {
        4
    } else if kind == 3 {
        3
    } else {
        2
    }
}

/// The bytes of a note.
pub open spec fn note_bytes(n: NoteState) -> Seq<u8> {
    seq![n.kind] + be32(n.x) + be32(n.y) + be32(
        match n.hold_end_y {
            Some(y) => y,
            None => NAN_BITS,
        },
    ) + be32(n.alpha) + be32(n.scale) + seq![note_slot(n.kind)]
}

/// The bytes of notes, one after the other.
pub open spec fn notes_bytes(ns: Seq<NoteState>) -> Seq<u8>
    decreases ns.len(),
{
    if ns.len() == 0 {
        Seq::empty()
    } else {
        notes_bytes(ns.drop_last()) + note_bytes(ns.last())
    }
}

/// The texture slot of a line. Slot 0 is plain white, so the texture at index `i` of the slots
/// has number `i + 1`; a line without a texture of its own takes the built-in line, 6.
pub open spec fn line_slot(texture: Option<Seq<char>>, slots: Seq<Seq<char>>) -> nat {
    match texture {
        None => BUILTIN_COUNT as nat,
        Some(t) => match index_in(slots, t, 0) {
            None => BUILTIN_COUNT as nat,
            Some(i) => (i + 1) as nat,
        },
    }
}

/// A number cut to a maximum.
pub open spec fn capped(n: nat, max: nat) -> nat {
    if n < max {
        n
    } else {
        max
    }
}

/// The characters of an optional text.
pub open spec fn text_of(t: Option<String>) -> Option<Seq<char>> {
    match t {
        Some(s) => Some(s@),
        None => None,
    }
}

/// The bytes of a line.
pub open spec fn line_bytes(l: LineState, slots: Seq<Seq<char>>) -> Seq<u8> {
    be32(l.x) + be32(l.y) + be32(l.rotation) + be32(l.scale_x) + be32(l.scale_y) + be32(l.alpha)
        + be32(two_complement(l.z_order)) + seq![
        capped(line_slot(text_of(l.texture), slots), 255) as u8,
    ] + be16(capped(l.notes@.len(), 0xFFFF) as u16) + notes_bytes(l.notes@)
}

/// The bytes of lines, one after the other.
pub open spec fn lines_bytes(ls: Seq<LineState>, slots: Seq<Seq<char>>) -> Seq<u8>
    decreases ls.len(),
{
    if ls.len() == 0 {
        Seq::empty()
    } else {
        lines_bytes(ls.drop_last(), slots) + line_bytes(ls.last(), slots)
    }
}

/// The bytes of a snapshot: its mark, the time, the dimming of the background, the number of
/// lines and the lines.
pub open spec fn snapshot_bytes(f: FrameState, dim: u32, slots: Seq<Seq<char>>) -> Seq<u8> {
    seq![1u8] + be64(f.time) + be32(dim) + be16(capped(f.lines@.len(), 0xFFFF) as u16)
        + lines_bytes(f.lines@, slots)
}

fn pack_note(out: &mut Vec<u8>, n: &NoteState)
    ensures
        final(out)@ == old(out)@ + note_bytes(*n),
{
    let ghost start = out@;
    let slot: u8 = match n.kind {
        1 => 1,
        2 => 4,
        3 => 3,
        _ => 2,
    };
    push_u8(out, n.kind);
    push_u32(out, n.x);
    push_u32(out, n.y);
    push_u32(
        out,
        match n.hold_end_y {
            Some(y) => y,
            None => NAN_BITS,
        },
    );
    push_u32(out, n.alpha);
    push_u32(out, n.scale);
    push_u8(out, slot);
    proof {
        assert(out@ == start + note_bytes(*n));
    }
}

/// Appends the bytes of a line.
#[verifier::spinoff_prover]
#[verifier::rlimit(60)]
pub fn pack_line(out: &mut Vec<u8>, line: &LineState, slots: &[String])
    ensures
        final(out)@ == old(out)@ + line_bytes(*line, texts(slots@)),
{
    let ghost start = out@;
    push_u32(out, line.x);
    push_u32(out, line.y);
    push_u32(out, line.rotation);
    push_u32(out, line.scale_x);
    push_u32(out, line.scale_y);
    push_u32(out, line.alpha);
    push_i32(out, line.z_order);
    let slot: usize = match &line.texture {
        None => BUILTIN_COUNT,
        Some(t) => match position(slots, t.as_str()) {
            None => BUILTIN_COUNT,
            Some(i) => if i < 255 {
                i + 1
            } else {
                255
            },
        },
    };
    let slot8: u8 = if slot < 255 {
        slot as u8
    } else {
        255
    };
    push_u8(out, slot8);
    let count: usize = line.notes.len();
    push_u16(
        out,
        if count < 0xFFFF {
            count as u16
        } else {
            0xFFFF
        },
    );
    let ghost head = out@;
    let mut i: usize = 0;
    proof {
        assert(line.notes@.take(0).len() == 0);
        assert(head + Seq::<u8>::empty() == head);
    }
    while i < count
        invariant
            i <= count,
            count == line.notes.len(),
            out@ == head + notes_bytes(line.notes@.take(i as int)),
        decreases count - i,
    {
        proof {
            assert(line.notes@.take(i + 1).drop_last() == line.notes@.take(i as int));
            assert(head + (notes_bytes(line.notes@.take(i as int)) + note_bytes(
                line.notes@[i as int],
            )) == head + notes_bytes(line.notes@.take(i as int)) + note_bytes(
                line.notes@[i as int],
            ));
        }
        pack_note(out, &line.notes[i]);
        i = i + 1;
    }
    proof {
        assert(line.notes@.take(count as int) == line.notes@);
        assert(out@ == start + line_bytes(*line, texts(slots@)));
    }
}

/// Packs a frame, with the background dimmed by `dim` (single-precision bits).
pub fn pack_snapshot(frame: &FrameState, dim: u32, slots: &[String]) -> (r: Vec<u8>)
    ensures
        r@ == snapshot_bytes(*frame, dim, texts(slots@)),
{
    let mut out: Vec<u8> = Vec::new();
    push_u8(&mut out, 1);
    push_u64(&mut out, frame.time);
    push_u32(&mut out, dim);
    let count: usize = frame.lines.len();
    push_u16(
        &mut out,
        if count < 0xFFFF {
            count as u16
        } else {
            0xFFFF
        },
    );
    let ghost head = out@;
    let mut i: usize = 0;
    proof {
        assert(frame.lines@.take(0).len() == 0);
        assert(head + Seq::<u8>::empty() == head);
    }
    while i < count
        invariant
            i <= count,
            count == frame.lines.len(),
            out@ == head + lines_bytes(frame.lines@.take(i as int), texts(slots@)),
        decreases count - i,
    {
        proof {
            let s = texts(slots@);
            assert(frame.lines@.take(i + 1).drop_last() == frame.lines@.take(i as int));
            assert(head + (lines_bytes(frame.lines@.take(i as int), s) + line_bytes(
                frame.lines@[i as int],
                s,
            )) == head + lines_bytes(frame.lines@.take(i as int), s) + line_bytes(
                frame.lines@[i as int],
                s,
            ));
        }
        pack_line(&mut out, &frame.lines[i], slots);
        i = i + 1;
    }
    proof {
        assert(frame.lines@.take(count as int) == frame.lines@);
        assert(out@ == snapshot_bytes(*frame, dim, texts(slots@)));
    }
    out
}

/// The number of bytes of the lines of a snapshot.
pub open spec fn lines_size(ls: Seq<LineState>) -> nat
    decreases ls.len(),
{
    if ls.len() == 0 {
        0
    } else {
        lines_size(ls.drop_last()) + 31 + 22 * ls.last().notes@.len()
    }
}

proof fn lemma_notes_size(ns: Seq<NoteState>)
    ensures
        notes_bytes(ns).len() == 22 * ns.len(),
    decreases ns.len(),
{
    if ns.len() > 0 {
        lemma_notes_size(ns.drop_last());
    }
}

proof fn lemma_lines_size(ls: Seq<LineState>, slots: Seq<Seq<char>>)
    ensures
        lines_bytes(ls, slots).len() == lines_size(ls),
    decreases ls.len(),
{
    if ls.len() > 0 {
        lemma_lines_size(ls.drop_last(), slots);
        lemma_notes_size(ls.last().notes@);
    }
}

/// Law: a snapshot has 15 bytes of its own, 31 for each line and 22 for each note.
pub proof fn law_snapshot_size(f: FrameState, dim: u32, slots: Seq<Seq<char>>)
    ensures
        snapshot_bytes(f, dim, slots).len() == 15 + lines_size(f.lines@),
{
    lemma_lines_size(f.lines@, slots);
}

/// Law: a line whose texture is one of the slots of its chart names the number under which that
/// texture is sent: the built-in ones have 1 to 6, a texture of the chart has 7 or more.
pub proof fn law_line_slot(texture: Seq<char>, line_textures: Seq<Seq<char>>)
    requires
        line_textures.contains(texture),
        texture.len() > 0,
    ensures
        ({
            let slots = slots_of(line_textures);
            let n = line_slot(Some(texture), slots);
            &&& 1 <= n <= slots.len()
            &&& slots[n - 1] == texture
            &&& !builtin_names().contains(texture) ==> n >= 7
        }),
{
    let slots = slots_of(line_textures);
    law_slots(line_textures);
    lemma_index_in(slots, texture, 0);
    let own = slots.skip(BUILTIN_COUNT as int);
    let k = choose|k: int| 0 <= k < line_textures.len() && line_textures[k] == texture;
    assert(own.contains(line_textures[k]));
    let j = choose|j: int| 0 <= j < own.len() && own[j] == texture;
    assert(slots[j + 6] == texture);
    let n = line_slot(Some(texture), slots);
    if n < 7 {
        assert(builtin_names()[n - 1] == slots[n - 1]);
    }
}

/// The message that carries a texture: its mark, the length of its name and the name, the length
/// of its bytes and the bytes.
pub open spec fn texture_message(name: Seq<u8>, image: Seq<u8>) -> Seq<u8> {
    seq![0u8] + be16(name.len() as u16) + name + be32(image.len() as u32) + image
}

/// Packs a texture under its name. The lengths are cut to 16 and 32 bits.
pub fn pack_texture(name: &str, image: &[u8]) -> (r: Vec<u8>)
    ensures
        r@ == texture_message(encode_utf8(name@), image@),
{
    let nb: &[u8] = name.as_bytes();
    let mut f: Vec<u8> = Vec::new();
    f.push(0);
    push_u16(
        &mut f,
        #[verifier::truncate]
        (nb.len() as u16),
    );
    push_all(&mut f, nb);
    push_u32(
        &mut f,
        #[verifier::truncate]
        (image.len() as u32),
    );
    push_all(&mut f, image);
    proof {
        assert(f@ == texture_message(encode_utf8(name@), image@));
    }
    f
}

/// The message that ends the list of textures.
pub fn textures_end() -> (r: Vec<u8>)
    ensures
        r@ == seq![0xFFu8],
{
    vec![0xFFu8]
}

/// Where the bytes of a texture slot come from.
#[derive(Clone, Copy, PartialEq, Eq, Structural, Debug)]
pub enum TextureSource {
    /// The PNG of that name among the program's resources.
    Resource,
    /// The file of that name in the chart's directory.
    Chart,
}

/// Where the bytes of the texture at index `i` of the slots come from.
pub fn texture_source(i: usize) -> (r: TextureSource)
    ensures
        r == (if i < BUILTIN_COUNT {
            TextureSource::Resource
        } else {
            TextureSource::Chart
        }),
        r is Resource <==> i < 6,
{
    if i < BUILTIN_COUNT {
        TextureSource::Resource
    } else {
        TextureSource::Chart
    }
}

/// Whether a packed snapshot may be published.
pub fn publishable(bytes: usize) -> (r: bool)
    ensures
        r == (bytes <= MAX_SNAP_BYTES),
        r == (bytes <= 2 * 1024 * 1024),
{
    bytes <= MAX_SNAP_BYTES
}

/// What a stream does next.
#[derive(Clone, Copy, PartialEq, Eq, Structural, Debug)]
pub enum StreamStep {
    /// The service has stopped.
    Close,
    /// Send the newest snapshot, then listen.
    Send,
    /// Listen for a command.
    Listen,
}

/// The next step of a stream whose last snapshot had number `sent` while the newest has number
/// `newest`.
pub fn stream_step(stopped: bool, sent: u64, newest: u64) -> (r: StreamStep)
    ensures
        r == (if stopped {
            StreamStep::Close
        } else if sent != newest {
            StreamStep::Send
        } else {
            StreamStep::Listen
        }),
        r is Close <==> stopped,
        r is Send <==> !stopped && sent != newest,
{
    if stopped {
        StreamStep::Close
    } else if sent != newest {
        StreamStep::Send
    } else {
        StreamStep::Listen
    }
}

/// The text that a JSON object has under a key; nothing where the bytes are no JSON, or hold no text
/// there.
pub uninterp spec fn json_text_at(body: Seq<u8>, key: Seq<char>) -> Option<Seq<char>>;

/// `serde_json::from_slice` into a `serde_json::Value`, of which `Value::get` with the key and
/// `as_str` read the text. Only that it is a function of the bytes and the key is stated.
#[verifier::external_body]
fn json_text(body: &[u8], key: &str) -> (r: Option<String>)
    ensures
        text_of(r) == json_text_at(body@, key@),
{
    let v: serde_json::Value = serde_json::from_slice(body).ok()?;
    v.get(key)?.as_str().map(String::from)
}

/// The double-precision bits of the number that a JSON object has under a key; nothing where the bytes
/// are no JSON, or hold no number there.
pub uninterp spec fn json_number_at(body: Seq<u8>, key: Seq<char>) -> Option<u64>;

/// `serde_json::from_slice` into a `serde_json::Value`, of which `Value::get` with the key and
/// `as_f64` read the number. Only that it is a function of the bytes and the key is stated.
#[verifier::external_body]
fn json_number(body: &[u8], key: &str) -> (r: Option<u64>)
    ensures
        r == json_number_at(body@, key@),
{
    let v: serde_json::Value = serde_json::from_slice(body).ok()?;
    v.get(key)?.as_f64().map(|x| x.to_bits())
}

/// The command that an action and a time make.
pub open spec fn command(action: Option<Seq<char>>, time: Option<u64>) -> Option<MirrorCtrl> {
    match action {
        None => None,
        Some(a) => if a == "pause"@ {
            Some(MirrorCtrl::Pause)
        } else if a == "seek"@ {
            match time {
                Some(t) => Some(MirrorCtrl::Seek(t)),
                None => None,
            }
        } else {
            None
        },
    }
}

/// Makes a command of an action and a time.
pub fn ctrl_of(action: &Option<String>, time: Option<u64>) -> (r: Option<MirrorCtrl>)
    ensures
        r == command(text_of(*action), time),
{
    match action {
        None => None,
        Some(a) => if same(a.as_str(), "pause") {
            Some(MirrorCtrl::Pause)
        } else if same(a.as_str(), "seek") {
            match time {
                Some(t) => Some(MirrorCtrl::Seek(t)),
                None => None,
            }
        } else {
            None
        },
    }
}

/// Reads a command from a JSON body: its action under `a`, its time under `t`.
pub fn parse_ctrl_json(body: &[u8]) -> (r: Option<MirrorCtrl>)
    ensures
        r == command(json_text_at(body@, "a"@), json_number_at(body@, "t"@)),
{
    let action: Option<String> = json_text(body, "a");
    ctrl_of(&action, json_number(body, "t"))
}

/// The command that counts out of those that came in since the last frame: the newest.
pub fn newest_ctrl(pending: &Vec<MirrorCtrl>) -> (r: Option<MirrorCtrl>)
    ensures
        r == (if pending@.len() > 0 {
            Some(pending@.last())
        } else {
            None
        }),
{
    if pending.len() > 0 {
        Some(pending[pending.len() - 1])
    } else {
        None
    }
}

/// The least time between two snapshots, in nanoseconds: there are at most thirty in a second.
pub const PACK_INTERVAL: u64 = 33_333_334;

/// What a mirror that is running shares with those who watch: the newest snapshot and how many there
/// were, and the commands that have come in.
pub struct MirrorServer {
    pub ok: bool,
    pub stopped: bool,
    pub snap: Option<Vec<u8>>,
    pub snap_seq: u64,
    pub last_pack: u64,
    pub pending: Vec<MirrorCtrl>,
}

/// Whether a frame at `now` is due to be packed.
pub open spec fn is_pack_due(m: MirrorServer, now: u64) -> bool {
    m.ok && now - m.last_pack >= PACK_INTERVAL
}

impl MirrorServer {
    /// A mirror that has begun at `now`, without a snapshot.
    pub fn start(now: u64) -> (r: MirrorServer)
        ensures
            r.ok,
            !r.stopped,
            r.snap is None,
            r.snap_seq == 0,
            r.last_pack == now,
            r.pending@.len() == 0,
    {
        MirrorServer {
            ok: true,
            stopped: false,
            snap: None,
            snap_seq: 0,
            last_pack: now,
            pending: Vec::new(),
        }
    }

    /// Takes a frame at `now`. It becomes the newest snapshot where one is due, unless it is too long.
    /// Returns whether it did.
    pub fn tick(&mut self, frame: &FrameState, dim: u32, slots: &[String], now: u64) -> (r: bool)
        requires
            old(self).snap_seq < u64::MAX,
        ensures
            r == (is_pack_due(*old(self), now) && snapshot_bytes(*frame, dim, texts(slots@)).len()
                <= MAX_SNAP_BYTES),
            r ==> snapshot_bytes(*frame, dim, texts(slots@)).len() <= 2 * 1024 * 1024,
            is_pack_due(*old(self), now) && snapshot_bytes(*frame, dim, texts(slots@)).len() <= 2
                * 1024 * 1024 ==> r,
            r ==> final(self).snap is Some && final(self).snap->0@ == snapshot_bytes(
                *frame,
                dim,
                texts(slots@),
            ) && final(self).snap_seq == old(self).snap_seq + 1,
            !r ==> final(self).snap == old(self).snap && final(self).snap_seq
                == old(self).snap_seq,
            *final(self) == (MirrorServer {
                snap: final(self).snap,
                snap_seq: final(self).snap_seq,
                last_pack: if is_pack_due(*old(self), now) {
                    now
                } else {
                    old(self).last_pack
                },
                ..*old(self)
            }),
    {
        if !self.ok {
            return false;
        }
        if now < self.last_pack || now - self.last_pack < PACK_INTERVAL {
            return false;
        }
        self.last_pack = now;
        let bytes: Vec<u8> = pack_snapshot(frame, dim, slots);
        if !publishable(bytes.len()) {
            return false;
        }
        self.snap = Some(bytes);
        self.snap_seq = self.snap_seq + 1;
        true
    }

    /// A command came in.
    pub fn command_came(&mut self, c: MirrorCtrl)
        ensures
            final(self).pending@ == old(self).pending@.push(c),
            *final(self) == (MirrorServer { pending: final(self).pending, ..*old(self) }),
    {
        self.pending.push(c);
    }

    /// The newest command since the last call. Older ones are dropped.
    pub fn poll_ctrl(&mut self) -> (r: Option<MirrorCtrl>)
        ensures
            r == (if old(self).pending@.len() > 0 {
                Some(old(self).pending@.last())
            } else {
                None
            }),
            final(self).pending@.len() == 0,
            r is None <==> old(self).pending@.len() == 0,
            r matches Some(c) ==> c == old(self).pending@[old(self).pending@.len() - 1],
            *final(self) == (MirrorServer { pending: final(self).pending, ..*old(self) }),
    {
        let r: Option<MirrorCtrl> = newest_ctrl(&self.pending);
        self.pending = Vec::new();
        r
    }

    /// Ends the mirror.
    pub fn stop(&mut self)
        ensures
            *final(self) == (MirrorServer { stopped: true, ..*old(self) }),
    {
        self.stopped = true;
    }
}

/// Law: of two frames closer together than the least time, the second is never packed when the first
/// was. `m` is the mirror after the first, at `first`.
pub proof fn law_snapshots_are_rare(m: MirrorServer, first: u64, second: u64)
    requires
        m.last_pack == first,
        second - first < PACK_INTERVAL,
    ensures
        !is_pack_due(m, second),
{
}

/// Law: the bytes of a note can be read back: its kind, its place across and along the line, where it ends
/// if it is held and the mark for none if it is not, its opacity, its size, and the number of its texture.
pub proof fn law_note_is_read_back(n: NoteState)
    ensures
        ({
            let b = note_bytes(n);
            &&& b.len() == 22
            &&& b[0] == n.kind
            &&& be_value(b.subrange(1, 5)) == n.x
            &&& be_value(b.subrange(5, 9)) == n.y
            &&& n.hold_end_y matches Some(y) ==> be_value(b.subrange(9, 13)) == y
            &&& n.hold_end_y is None ==> be_value(b.subrange(9, 13)) == 0x7FC0_0000
            &&& be_value(b.subrange(13, 17)) == n.alpha
            &&& be_value(b.subrange(17, 21)) == n.scale
            &&& n.kind == 1 ==> b[21] == 1
            &&& n.kind == 2 ==> b[21] == 4
            &&& n.kind == 3 ==> b[21] == 3
            &&& n.kind != 1 && n.kind != 2 && n.kind != 3 ==> b[21] == 2
        }),
{
    let b = note_bytes(n);
    let end = match n.hold_end_y {
        Some(y) => y,
        None => NAN_BITS,
    };
    assert(b.subrange(1, 5) =~= be32(n.x));
    assert(b.subrange(5, 9) =~= be32(n.y));
    assert(b.subrange(9, 13) =~= be32(end));
    assert(b.subrange(13, 17) =~= be32(n.alpha));
    assert(b.subrange(17, 21) =~= be32(n.scale));
    law_be32_reads_back(n.x);
    law_be32_reads_back(n.y);
    law_be32_reads_back(end);
    law_be32_reads_back(n.alpha);
    law_be32_reads_back(n.scale);
}

/// Law: notes that differ have different bytes, but for a hold whose end is the very mark for none.
pub proof fn law_notes_have_their_own_bytes(a: NoteState, b: NoteState)
    requires
        note_bytes(a) == note_bytes(b),
        a.hold_end_y != Some(0x7FC0_0000u32),
        b.hold_end_y != Some(0x7FC0_0000u32),
    ensures
        a == b,
{
    law_note_is_read_back(a);
    law_note_is_read_back(b);
}

/// Law: the number of a note's texture is that under which its texture is sent: taps, drags, flicks and
/// holds have the first four of the built-in ones.
pub proof fn law_note_texture(kind: u8)
    ensures
        kind == 1 ==> builtin_names()[note_slot(kind) - 1] == "click"@,
        kind == 2 ==> builtin_names()[note_slot(kind) - 1] == "hold"@,
        kind == 3 ==> builtin_names()[note_slot(kind) - 1] == "flick"@,
        kind == 4 ==> builtin_names()[note_slot(kind) - 1] == "drag"@,
        1 <= note_slot(kind) <= 6,
        builtin_names().len() == 6,
        builtin_names()[5] == "line"@,
        builtin_names()[4] == "hitfx"@,
{
}

proof fn lemma_note_at(ns: Seq<NoteState>, i: int)
    requires
        0 <= i < ns.len(),
    ensures
        notes_bytes(ns).len() == 22 * ns.len(),
        notes_bytes(ns).subrange(22 * i, 22 * i + 22) == note_bytes(ns[i]),
    decreases ns.len(),
{
    lemma_notes_size(ns);
    lemma_notes_size(ns.drop_last());
    let before = notes_bytes(ns.drop_last());
    let all = notes_bytes(ns);
    assert(all == before + note_bytes(ns.last()));
    law_note_is_read_back(ns.last());
    if i < ns.len() - 1 {
        lemma_note_at(ns.drop_last(), i);
        assert(all.subrange(22 * i, 22 * i + 22) =~= before.subrange(22 * i, 22 * i + 22));
    } else {
        assert(all.subrange(22 * i, 22 * i + 22) =~= note_bytes(ns.last()));
    }
}

/// Law: the bytes of a line can be read back: its place, rotation, scales and opacity, its depth in two's
/// complement, the number of its texture, and how many notes there are, up to 65535; behind these stands
/// each note in 22 bytes, in the order of the line.
pub proof fn law_line_is_read_back(l: LineState, slots: Seq<Seq<char>>)
    ensures
        ({
            let b = line_bytes(l, slots);
            &&& b.len() == 31 + 22 * l.notes@.len()
            &&& be_value(b.subrange(0, 4)) == l.x
            &&& be_value(b.subrange(4, 8)) == l.y
            &&& be_value(b.subrange(8, 12)) == l.rotation
            &&& be_value(b.subrange(12, 16)) == l.scale_x
            &&& be_value(b.subrange(16, 20)) == l.scale_y
            &&& be_value(b.subrange(20, 24)) == l.alpha
            &&& l.z_order >= 0 ==> be_value(b.subrange(24, 28)) == l.z_order
            &&& l.z_order < 0 ==> be_value(b.subrange(24, 28)) == l.z_order + 0x1_0000_0000
            &&& line_slot(text_of(l.texture), slots) < 255 ==> b[28] == line_slot(text_of(l.texture), slots)
            &&& l.notes@.len() <= 0xFFFF ==> be_value(b.subrange(29, 31)) == l.notes@.len()
            &&& l.notes@.len() > 0xFFFF ==> be_value(b.subrange(29, 31)) == 0xFFFF
            &&& forall|i: int|
                0 <= i < l.notes@.len() ==> b.subrange(31 + 22 * i, 53 + 22 * i) == note_bytes(
                    #[trigger] l.notes@[i],
                )
        }),
{
    let b = line_bytes(l, slots);
    let count = capped(l.notes@.len(), 0xFFFF) as u16;
    lemma_notes_size(l.notes@);
    assert(b.subrange(0, 4) =~= be32(l.x));
    assert(b.subrange(4, 8) =~= be32(l.y));
    assert(b.subrange(8, 12) =~= be32(l.rotation));
    assert(b.subrange(12, 16) =~= be32(l.scale_x));
    assert(b.subrange(16, 20) =~= be32(l.scale_y));
    assert(b.subrange(20, 24) =~= be32(l.alpha));
    assert(b.subrange(24, 28) =~= be32(two_complement(l.z_order)));
    assert(b.subrange(29, 31) =~= be16(count));
    law_be32_reads_back(l.x);
    law_be32_reads_back(l.y);
    law_be32_reads_back(l.rotation);
    law_be32_reads_back(l.scale_x);
    law_be32_reads_back(l.scale_y);
    law_be32_reads_back(l.alpha);
    law_be32_reads_back(two_complement(l.z_order));
    law_be16_reads_back(count);
    assert forall|i: int| 0 <= i < l.notes@.len() implies b.subrange(31 + 22 * i, 53 + 22 * i) == note_bytes(
        #[trigger] l.notes@[i],
    ) by {
        lemma_note_at(l.notes@, i);
        assert(b.subrange(31 + 22 * i, 53 + 22 * i) =~= notes_bytes(l.notes@).subrange(22 * i, 22 * i + 22));
    }
}

/// Law: the texture of a line is told by the number under which it was sent; a line without one, or with
/// one that was not sent, has the number of the built-in line.
pub proof fn law_line_names_its_texture(texture: Option<Seq<char>>, slots: Seq<Seq<char>>)
    ensures
        texture is None ==> line_slot(texture, slots) == 6,
        texture matches Some(t) && !slots.contains(t) ==> line_slot(texture, slots) == 6,
        texture matches Some(t) && slots.contains(t) ==> 1 <= line_slot(texture, slots) <= slots.len()
            && slots[line_slot(texture, slots) - 1] == texture->0,
{
    if let Some(t) = texture {
        lemma_index_in(slots, t, 0);
        if let Some(i) = index_in(slots, t, 0) {
            assert(slots[i] == t);
        }
    }
}

/// Law: the beginning of a snapshot can be read back: its mark, the time, the dimming, and how many lines
/// there are, up to 65535.
pub proof fn law_snapshot_is_read_back(f: FrameState, dim: u32, slots: Seq<Seq<char>>)
    ensures
        ({
            let b = snapshot_bytes(f, dim, slots);
            &&& b.len() >= 15
            &&& b[0] == 1
            &&& be_value(b.subrange(1, 9)) == f.time
            &&& be_value(b.subrange(9, 13)) == dim
            &&& f.lines@.len() <= 0xFFFF ==> be_value(b.subrange(13, 15)) == f.lines@.len()
            &&& f.lines@.len() > 0xFFFF ==> be_value(b.subrange(13, 15)) == 0xFFFF
        }),
{
    let b = snapshot_bytes(f, dim, slots);
    let count = capped(f.lines@.len(), 0xFFFF) as u16;
    assert(b.subrange(1, 9) =~= be64(f.time));
    assert(b.subrange(9, 13) =~= be32(dim));
    assert(b.subrange(13, 15) =~= be16(count));
    law_be64_reads_back(f.time);
    law_be32_reads_back(dim);
    law_be16_reads_back(count);
}

/// Law: behind its beginning a snapshot holds the bytes of its lines, one line behind the other in the
/// order of the frame.
pub proof fn law_snapshot_holds_its_lines(f: FrameState, dim: u32, slots: Seq<Seq<char>>, i: int)
    requires
        0 <= i < f.lines@.len(),
    ensures
        ({
            let b = snapshot_bytes(f, dim, slots);
            let at = 15 + lines_size(f.lines@.take(i)) as int;
            let size = 31 + 22 * f.lines@[i].notes@.len() as int;
            &&& at + size <= b.len()
            &&& b.subrange(at, at + size) == line_bytes(f.lines@[i], slots)
            &&& i == 0 ==> at == 15
            &&& i + 1 < f.lines@.len() ==> 15 + lines_size(f.lines@.take(i + 1)) == at + size
        }),
{
    let b = snapshot_bytes(f, dim, slots);
    let rest = lines_bytes(f.lines@, slots);
    lemma_line_at(f.lines@, slots, i);
    lemma_lines_size(f.lines@, slots);
    let at = lines_size(f.lines@.take(i)) as int;
    let size = 31 + 22 * f.lines@[i].notes@.len() as int;
    assert(b.subrange(15 + at, 15 + at + size) =~= rest.subrange(at, at + size));
    assert(f.lines@.take(i + 1).drop_last() =~= f.lines@.take(i));
}

proof fn lemma_line_at(ls: Seq<LineState>, slots: Seq<Seq<char>>, i: int)
    requires
        0 <= i < ls.len(),
    ensures
        ({
            let b = lines_bytes(ls, slots);
            let at = lines_size(ls.take(i)) as int;
            let size = 31 + 22 * ls[i].notes@.len() as int;
            &&& at + size <= b.len()
            &&& b.subrange(at, at + size) == line_bytes(ls[i], slots)
        }),
    decreases ls.len(),
{
    let before = lines_bytes(ls.drop_last(), slots);
    let b = lines_bytes(ls, slots);
    let at = lines_size(ls.take(i)) as int;
    let size = 31 + 22 * ls[i].notes@.len() as int;
    lemma_lines_size(ls.drop_last(), slots);
    lemma_notes_size(ls.last().notes@);
    assert(b == before + line_bytes(ls.last(), slots));
    if i < ls.len() - 1 {
        lemma_line_at(ls.drop_last(), slots, i);
        assert(ls.drop_last().take(i) =~= ls.take(i));
        assert(b.subrange(at, at + size) =~= before.subrange(at, at + size));
    } else {
        assert(ls.take(i) =~= ls.drop_last());
        assert(b.subrange(at, at + size) =~= line_bytes(ls.last(), slots));
    }
}

/// Law: the message that carries a texture can be read back: its mark, the length of the name and the
/// name, the length of the image and the image.
pub proof fn law_texture_is_read_back(name: Seq<u8>, image: Seq<u8>)
    requires
        name.len() <= 0xFFFF,
        image.len() <= 0xFFFF_FFFF,
    ensures
        ({
            let b = texture_message(name, image);
            let n = name.len() as int;
            &&& b.len() == 7 + n + image.len()
            &&& b[0] == 0
            &&& be_value(b.subrange(1, 3)) == n
            &&& b.subrange(3, 3 + n) == name
            &&& be_value(b.subrange(3 + n, 7 + n)) == image.len()
            &&& b.skip(7 + n) == image
        }),
{
    let b = texture_message(name, image);
    let n = name.len() as int;
    assert(b.subrange(1, 3) =~= be16(name.len() as u16));
    assert(b.subrange(3, 3 + n) =~= name);
    assert(b.subrange(3 + n, 7 + n) =~= be32(image.len() as u32));
    assert(b.skip(7 + n) =~= image);
    law_be16_reads_back(name.len() as u16);
    law_be32_reads_back(image.len() as u32);
}

/// Law: the only commands are to pause, under that action whatever the time, and to seek, under that
/// action to the time that is given, and not without one.
pub proof fn law_commands(action: Seq<char>, time: Option<u64>)
    ensures
        command(None, time) is None,
        command(Some(action), time) == Some(MirrorCtrl::Pause) <==> action == "pause"@,
        forall|t: u64|
            #[trigger] command(Some(action), time) == Some(MirrorCtrl::Seek(t)) <==> action == "seek"@
                && time == Some(t),
{
    reveal_strlit("pause");
    reveal_strlit("seek");
    assert("pause"@.len() == 5 && "seek"@.len() == 4);
}

/// Law: a mirror that works takes a frame exactly where at least a thirtieth of a second, in whole
/// nanoseconds, has gone by since the last one.
pub proof fn law_thirty_in_a_second(m: MirrorServer, now: u64)
    ensures
        m.ok && now >= m.last_pack + 33_333_334 ==> is_pack_due(m, now),
        is_pack_due(m, now) ==> m.ok && 30 * (now - m.last_pack) > 1_000_000_000,
{
}

} // verus!
