//! Which chart is being read in the background: the chart that was opened, and
//! the one under the pointer that is read ahead.

use crate::library::optional;
use crate::strings::same;
use vstd::prelude::*;

verus! {

/// How long a chart must stay under the pointer before it is read ahead, in
/// nanoseconds: it has to be longer than this.
pub const PRELOAD_DELAY: u64 = 200_000_000;

/// What is shown when the loading thread ended without a result.
pub const PANIC_MESSAGE: &'static str = "加载线程异常终止(panic),详情见日志";

/// A copy of an optional text.
pub fn copied(t: &Option<String>) -> (r: Option<String>)
    ensures
        optional(r) == optional(*t),
{
    match t {
        Some(s) => Some(s.clone()),
        None => None,
    }
}

/// Whether two optional texts are the same.
pub fn same_optional(a: &Option<String>, b: &Option<String>) -> (r: bool)
    ensures
        r == (optional(*a) == optional(*b)),
{
    match (a, b) {
        (Some(x), Some(y)) => same(x.as_str(), y.as_str()),
        (None, None) => true,
        _ => false,
    }
}

/// The state of reading charts in the background.
///
/// `want` is the chart that should be read ahead and the moment since when it is
/// the one; `target` is the chart that a thread is reading ahead now, `generation`
/// tells its reply from those of threads that were given up, `waiting` says that its
/// reply is still awaited, and `slot` is the chart that was read ahead.
pub struct Loader {
    pub splash: bool,
    pub ime_allowed: bool,
    pub ime_active: bool,
    pub loading_name: Option<String>,
    pub loading: bool,
    pub error: Option<String>,
    pub chart_dir: String,
    pub want: Option<(String, u64)>,
    pub target: Option<String>,
    pub generation: u64,
    pub waiting: bool,
    pub slot: Option<String>,
}

/// The contents of a [`Loader`].
#[verifier::ext_equal]
pub ghost struct Loading {
    pub splash: bool,
    pub ime_allowed: bool,
    pub ime_active: bool,
    pub loading_name: Option<Seq<char>>,
    pub loading: bool,
    pub error: Option<Seq<char>>,
    pub chart_dir: Seq<char>,
    pub want: Option<(Seq<char>, u64)>,
    pub target: Option<Seq<char>>,
    pub generation: int,
    pub waiting: bool,
    pub slot: Option<Seq<char>>,
}

impl View for Loader {
    type V = Loading;

    open spec fn view(&self) -> Loading {
        Loading {
            splash: self.splash,
            ime_allowed: self.ime_allowed,
            ime_active: self.ime_active,
            loading_name: optional(self.loading_name),
            loading: self.loading,
            error: optional(self.error),
            chart_dir: self.chart_dir@,
            want: match self.want {
                Some(w) => Some((w.0@, w.1)),
                None => None,
            },
            target: optional(self.target),
            generation: self.generation as int,
            waiting: self.waiting,
            slot: optional(self.slot),
        }
    }
}

/// The chart that should be read ahead.
pub open spec fn wanted(v: Loading) -> Option<Seq<char>> {
    match v.want {
        Some(w) => Some(w.0),
        None => None,
    }
}

/// What holds at all times: a reply is awaited exactly while a chart is being read
/// ahead, and only the chart that should be read ahead is being read or kept.
pub open spec fn is_consistent(v: Loading) -> bool {
    &&& v.waiting <==> v.target is Some
    &&& v.target is Some ==> v.target == wanted(v)
    &&& v.slot is Some ==> v.slot == wanted(v)
}

/// Nothing is read ahead any more, and the reply of a thread under way will be
/// ignored.
pub open spec fn without_preload(v: Loading) -> Loading {
    Loading {
        want: None,
        target: None,
        generation: v.generation + 1,
        waiting: false,
        slot: None,
        ..v
    }
}

/// `path` is the one to read ahead from now on.
pub open spec fn retargeted(v: Loading, path: Option<Seq<char>>, now: u64) -> Loading {
    if wanted(v) == path {
        v
    } else {
        let w = Loading {
            slot: None,
            want: match path {
                Some(p) => Some((p, now)),
                None => None,
            },
            ..v
        };
        if v.target == path {
            w
        } else {
            Loading { generation: v.generation + 1, waiting: false, target: None, ..w }
        }
    }
}

/// Whether it is time to start reading ahead.
pub open spec fn is_due(v: Loading, now: u64) -> bool {
    &&& v.target is None
    &&& v.want is Some
    &&& now - (v.want->0).1 > PRELOAD_DELAY
    &&& v.slot != wanted(v)
}

/// A thread has started to read the wanted chart ahead.
pub open spec fn started(v: Loading) -> Loading {
    Loading { generation: v.generation + 1, waiting: true, target: wanted(v), ..v }
}

/// The state after the wanted chart was looked up at `now`.
pub open spec fn followed(v: Loading, path: Option<Seq<char>>, now: u64) -> Loading {
    let w = retargeted(v, path, now);
    if !v.splash {
        v
    } else if is_due(w, now) {
        started(w)
    } else {
        w
    }
}

/// What came from the thread that reads ahead.
pub enum Reply {
    /// Nothing yet.
    Nothing,
    /// It is done: the generation it was started with, and whether the chart could be
    /// read.
    Done(u64, bool),
    /// It ended without a reply.
    Gone,
}

/// Whether a reply brings the chart that is awaited.
pub open spec fn is_kept(v: Loading, r: Reply) -> bool {
    &&& v.splash
    &&& v.waiting
    &&& v.target is Some
    &&& r matches Reply::Done(g, ok) && g == v.generation && ok
}

/// The state after a reply of the thread that reads ahead.
pub open spec fn replied(v: Loading, r: Reply) -> Loading {
    if !v.splash || !v.waiting {
        v
    } else {
        match r {
            Reply::Nothing => v,
            Reply::Gone => Loading { waiting: false, target: None, ..v },
            Reply::Done(g, ok) => if g != v.generation {
                Loading { waiting: false, ..v }
            } else {
                Loading {
                    waiting: false,
                    target: None,
                    slot: if is_kept(v, r) {
                        v.target
                    } else {
                        v.slot
                    },
                    ..v
                }
            },
        }
    }
}

/// The state once a thread was started to load a chart.
pub open spec fn reloaded(v: Loading, dir: Seq<char>, name: Seq<char>) -> Loading {
    Loading { chart_dir: dir, loading_name: Some(name), error: None, loading: true, ..v }
}

/// The editor in place of the chart list.
pub open spec fn in_editor(v: Loading) -> Loading {
    Loading { splash: false, ime_allowed: false, ime_active: false, ..v }
}

/// The state after a chart was opened.
pub open spec fn opened(v: Loading, path: Seq<char>, name: Seq<char>) -> Loading {
    let w = in_editor(without_preload(v));
    if v.slot == Some(path) {
        Loading { chart_dir: path, ..w }
    } else {
        reloaded(w, path, name)
    }
}

/// The state after the editor was left for the chart list.
pub open spec fn left(v: Loading) -> Loading {
    Loading { splash: true, ime_allowed: true, ime_active: false, error: None, ..without_preload(v) }
}

/// What the thread that loads the opened chart is doing.
pub enum LoadThread {
    Running,
    Loaded,
    Failed(String),
    Panicked,
}

/// The state after the loading thread was looked at.
pub open spec fn polled(v: Loading, t: LoadThread) -> Loading {
    if !v.loading {
        v
    } else {
        match t {
            LoadThread::Running => v,
            LoadThread::Loaded => Loading { loading: false, ..v },
            LoadThread::Failed(e) => Loading {
                loading: false,
                error: Some(e@),
                loading_name: None,
                splash: true,
                ..v
            },
            LoadThread::Panicked => Loading {
                loading: false,
                error: Some(PANIC_MESSAGE@),
                loading_name: None,
                splash: true,
                ..v
            },
        }
    }
}

/// How an opened chart comes into the editor.
#[derive(Clone, Copy, PartialEq, Eq, Structural, Debug)]
pub enum OpenStep {
    /// The chart that was read ahead is shown at once.
    Stored,
    /// A thread is to read it, behind the loading screen.
    Load,
}

impl Loader {
    /// No chart, in the chart list or in the editor.
    pub fn new(splash: bool, chart_dir: String) -> (r: Loader)
        ensures
            r@ == (Loading {
                splash: splash,
                ime_allowed: splash,
                ime_active: false,
                loading_name: None,
                loading: false,
                error: None,
                chart_dir: chart_dir@,
                want: None,
                target: None,
                generation: 0,
                waiting: false,
                slot: None,
            }),
            is_consistent(r@),
    {
        Loader {
            splash,
            ime_allowed: splash,
            ime_active: false,
            loading_name: None,
            loading: false,
            error: None,
            chart_dir,
            want: None,
            target: None,
            generation: 0,
            waiting: false,
            slot: None,
        }
    }

    /// Follows the chart that should be read ahead. Returns the generation for which a
    /// thread is to be started on `target`, where one is to be started.
    pub fn track(&mut self, path: Option<String>, now: u64) -> (r: Option<u64>)
        requires
            old(self).generation < u64::MAX - 1,
        ensures
            final(self)@ == followed(old(self)@, optional(path), now),
            r is Some <==> old(self).splash && is_due(
                retargeted(old(self)@, optional(path), now),
                now,
            ),
            r is Some ==> r == Some(final(self).generation),
    {
        if !self.splash {
            return None;
        }
        let current: Option<String> = match &self.want {
            Some(w) => Some(w.0.clone()),
            None => None,
        };
        if !same_optional(&current, &path) {
            self.slot = None;
            let keep: bool = same_optional(&self.target, &path);
            self.want = match path {
                Some(p) => Some((p, now)),
                None => None,
            };
            if !keep {
                self.generation = self.generation + 1;
                self.waiting = false;
                self.target = None;
            }
        }
        proof {
            assert(self@ == retargeted(old(self)@, optional(path), now));
        }
        let due: Option<String> = match (&self.target, &self.want) {
            (None, Some(w)) => if now > w.1 && now - w.1 > PRELOAD_DELAY {
                Some(w.0.clone())
            } else {
                None
            },
            _ => None,
        };
        if due.is_none() || same_optional(&self.slot, &due) {
            return None;
        }
        self.generation = self.generation + 1;
        self.waiting = true;
        self.target = due;
        Some(self.generation)
    }

    /// Takes a reply of the thread that reads ahead, and says whether the chart that
    /// came with it is to be kept as the one in `slot`.
    pub fn reply(&mut self, m: Reply) -> (r: bool)
        ensures
            final(self)@ == replied(old(self)@, m),
            r == is_kept(old(self)@, m),
    {
        if !self.splash || !self.waiting {
            return false;
        }
        match m {
            Reply::Nothing => false,
            Reply::Gone => {
                self.waiting = false;
                self.target = None;
                false
            },
            Reply::Done(g, ok) => {
                self.waiting = false;
                if g != self.generation {
                    return false;
                }
                let target: Option<String> = copied(&self.target);
                self.target = None;
                if ok && target.is_some() {
                    self.slot = target;
                    true
                } else {
                    false
                }
            },
        }
    }

    /// Starts loading a chart behind the loading screen, under the name `name`.
    pub fn reload_chart(&mut self, dir: String, name: String)
        ensures
            final(self)@ == reloaded(old(self)@, dir@, name@),
    {
        self.chart_dir = dir;
        self.loading_name = Some(name);
        self.error = None;
        self.loading = true;
    }

    /// Opens a chart: at once where it was read ahead, else by a thread.
    pub fn open_chart(&mut self, path: String, name: String) -> (r: OpenStep)
        requires
            old(self).generation < u64::MAX,
        ensures
            final(self)@ == opened(old(self)@, path@, name@),
            r == (if old(self)@.slot == Some(path@) {
                OpenStep::Stored
            } else {
                OpenStep::Load
            }),
    {
        let hit: bool = match &self.slot {
            Some(p) => same(p.as_str(), path.as_str()),
            None => false,
        };
        self.slot = None;
        self.want = None;
        self.generation = self.generation + 1;
        self.waiting = false;
        self.target = None;
        self.splash = false;
        self.ime_allowed = false;
        self.ime_active = false;
        if hit {
            self.chart_dir = path;
            OpenStep::Stored
        } else {
            self.reload_chart(path, name);
            OpenStep::Load
        }
    }

    /// Looks at the loading thread. Returns whether the chart that it read is to be
    /// shown now.
    pub fn poll_loading(&mut self, t: LoadThread) -> (r: bool)
        ensures
            final(self)@ == polled(old(self)@, t),
            r == (old(self).loading && t is Loaded),
    {
        if !self.loading {
            return false;
        }
        match t {
            LoadThread::Running => false,
            LoadThread::Loaded => {
                self.loading = false;
                true
            },
            LoadThread::Failed(e) => {
                self.loading = false;
                self.error = Some(e);
                self.loading_name = None;
                self.splash = true;
                false
            },
            LoadThread::Panicked => {
                self.loading = false;
                self.error = Some(PANIC_MESSAGE.to_owned());
                self.loading_name = None;
                self.splash = true;
                false
            },
        }
    }

    /// The chart was brought into the editor, or could not be.
    pub fn applied(&mut self)
        ensures
            final(self)@ == (Loading { loading_name: None, loading: false, ..old(self)@ }),
    {
        self.loading_name = None;
        self.loading = false;
    }

    /// Whether the loading screen is shown.
    pub fn is_loading(&self) -> (r: bool)
        ensures
            r == (self@.loading_name is Some || self@.loading),
    {
        self.loading_name.is_some() || self.loading
    }

    /// Leaves the editor for the chart list.
    pub fn back_to_splash(&mut self)
        requires
            old(self).generation < u64::MAX,
        ensures
            final(self)@ == left(old(self)@),
    {
        self.splash = true;
        self.ime_allowed = true;
        self.ime_active = false;
        self.error = None;
        self.want = None;
        self.generation = self.generation + 1;
        self.waiting = false;
        self.target = None;
        self.slot = None;
    }
}

/// Law: whatever happens, at most one chart is being read ahead and at most one is
/// kept, and both are the one that should be.
pub proof fn law_preload_is_consistent(
    v: Loading,
    path: Option<Seq<char>>,
    now: u64,
    r: Reply,
    t: LoadThread,
    dir: Seq<char>,
    name: Seq<char>,
)
    requires
        is_consistent(v),
        r matches Reply::Done(g, _) ==> g == v.generation,
    ensures
        is_consistent(followed(v, path, now)),
        is_consistent(replied(v, r)),
        is_consistent(reloaded(v, dir, name)),
        is_consistent(opened(v, dir, name)),
        is_consistent(polled(v, t)),
        is_consistent(left(v)),
{
}

/// Law: once a chart is no longer the one to read ahead, its late reply is ignored.
/// `g` is the generation that the thread under way was started with.
pub proof fn law_stale_reply_is_ignored(v: Loading, path: Option<Seq<char>>, now: u64, g: u64, ok: bool)
    requires
        is_consistent(v),
        v.splash,
        v.waiting,
        v.generation == g,
        path != wanted(v),
    ensures
        !is_kept(followed(v, path, now), Reply::Done(g, ok)),
        replied(followed(v, path, now), Reply::Done(g, ok)).slot == followed(v, path, now).slot,
{
}

/// Law: a chart that was opened is not loaded a second time by the thread that was
/// reading it ahead.
pub proof fn law_open_ends_preload(v: Loading, path: Seq<char>, name: Seq<char>, r: Reply)
    ensures
        opened(v, path, name).want is None,
        opened(v, path, name).target is None,
        opened(v, path, name).slot is None,
        !is_kept(opened(v, path, name), r),
        opened(v, path, name).loading ==> v.slot != Some(path) || v.loading,
{
}

/// Law: a load that failed goes back to the chart list and says why, and the loading
/// screen is left.
pub proof fn law_failed_load_is_told(v: Loading, e: String)
    requires
        v.loading,
    ensures
        polled(v, LoadThread::Failed(e)).splash,
        polled(v, LoadThread::Failed(e)).error == Some(e@),
        polled(v, LoadThread::Failed(e)).loading_name is None,
        !polled(v, LoadThread::Failed(e)).loading,
        polled(v, LoadThread::Panicked).splash,
        polled(v, LoadThread::Panicked).error is Some,
        polled(v, LoadThread::Panicked).loading_name is None,
        !polled(v, LoadThread::Panicked).loading,
{
}

/// Law: a new load takes the message of the last one away.
pub proof fn law_new_load_clears_error(v: Loading, dir: Seq<char>, name: Seq<char>)
    ensures
        reloaded(v, dir, name).error is None,
        reloaded(v, dir, name).loading_name == Some(name),
{
}

/// What to do with what was picked in the dialog for opening a chart.
#[derive(Clone, Copy, PartialEq, Eq, Structural, Debug)]
pub enum Picked {
    /// A directory: it is opened.
    Directory,
    /// A chart package: it is unpacked into the library, then opened.
    Package,
    /// Another file: the directory that it is in is opened.
    Parent,
    /// A file without a directory.
    Nothing,
}

/// What to do with a picked path. `parent` says that the path has a parent that is not
/// empty.
pub fn open_chart_from_pick(is_dir: bool, is_package: bool, parent: bool) -> (r: Picked)
    ensures
        r is Directory <==> is_dir,
        r is Package <==> !is_dir && is_package,
        r is Parent <==> !is_dir && !is_package && parent,
        r is Nothing <==> !is_dir && !is_package && !parent,
{
    if is_dir {
        Picked::Directory
    } else if is_package {
        Picked::Package
    } else if parent {
        Picked::Parent
    } else {
        Picked::Nothing
    }
}

/// What to do with a file that was dropped on the chart list.
#[derive(Clone, Copy, PartialEq, Eq, Structural, Debug)]
pub enum Dropped {
    /// A zip package: it is unpacked into the library and opened.
    Package,
    /// A chart directory: it is copied into the library and opened.
    Directory,
    /// An info or chart file: the directory that it is in is opened.
    Parent,
    /// Anything else.
    Refused,
}

/// The first bytes of a zip package.
pub open spec fn is_zip(head: Seq<u8>) -> bool {
    head.len() >= 4 && head[0] == 0x50 && head[1] == 0x4B && head[2] == 3 && head[3] == 4
}

/// What to do with a dropped file, by what it holds and not by its name's ending:
/// `head` is what could be read of its first four bytes, `is_chart` says that it is a
/// chart directory, `is_chart_file` that its content is in a known chart format.
pub fn dropped(head: &[u8], is_chart: bool, is_file: bool, name: &str, is_chart_file: bool) -> (r:
    Dropped)
    ensures
        r is Package <==> is_zip(head@),
        r is Directory <==> !is_zip(head@) && is_chart,
        r is Parent <==> !is_zip(head@) && !is_chart && is_file && (name@ == "info.json"@ || name@
            == "info.txt"@ || is_chart_file),
        r is Refused <==> !(r is Package) && !(r is Directory) && !(r is Parent),
{
    if head.len() >= 4 && head[0] == 0x50 && head[1] == 0x4B && head[2] == 3 && head[3] == 4 {
        Dropped::Package
    } else if is_chart {
        Dropped::Directory
    } else if is_file && (same(name, "info.json") || same(name, "info.txt") || is_chart_file) {
        Dropped::Parent
    } else {
        Dropped::Refused
    }
}

/// What to do with a chart directory that was dropped.
#[derive(Clone, Copy, PartialEq, Eq, Structural, Debug)]
pub enum DroppedDir {
    /// It has no name: it is opened where it is.
    Open,
    /// It is in the library, or one of that name is: it is opened where it is and the
    /// library is listed anew.
    OpenListed,
    /// It is copied into the library, which is listed anew; the copy is opened, or the
    /// directory itself where copying failed.
    Copy,
}

/// What to do with a dropped chart directory of that name: `inside` says that it is the
/// library's own directory of that name, `taken` that the library has one.
pub fn dropped_dir(name: &str, inside: bool, taken: bool) -> (r: DroppedDir)
    ensures
        r is Open <==> name@.len() == 0,
        r is OpenListed <==> name@.len() > 0 && (inside || taken),
        r is Copy <==> name@.len() > 0 && !inside && !taken,
{
    if same(name, "") {
        proof {
            reveal_strlit("");
        }
        DroppedDir::Open
    } else {
        proof {
            reveal_strlit("");
            assert(name@.len() == 0 ==> name@ =~= ""@);
        }
        if inside || taken {
            DroppedDir::OpenListed
        } else {
            DroppedDir::Copy
        }
    }
}

/// Law: a chart is read ahead when it has stayed under the pointer for more than a fifth of a second, and
/// not sooner; the time counts from when it came there.
pub proof fn law_preload_waits(v: Loading, p: Seq<char>, q: Seq<char>, since: u64, now: u64)
    requires
        v.splash,
        v.want is None && v.target is None && v.slot is None,
        p != q,
    ensures
        ({
            let w = followed(v, Some(p), since);
            let later = followed(w, Some(p), now);
            let other = followed(w, Some(q), now);
            &&& w.want == Some((p, since)) && w.target is None && !w.waiting == !(v.waiting
                && v.target == Some(p))
            &&& now - since > 200_000_000 ==> later.target == Some(p) && later.waiting
                && later.generation == w.generation + 1
            &&& now - since <= 200_000_000 ==> later == w
            &&& other.want == Some((q, now)) && other.target is None
            &&& followed(w, None, now).want is None && followed(w, None, now).target is None
        }),
        !followed(v, Some(p), since).splash <==> !v.splash,
{
}

/// Law: the chart list alone reads ahead.
pub proof fn law_editor_reads_nothing_ahead(v: Loading, p: Option<Seq<char>>, now: u64, r: Reply)
    requires
        !v.splash,
    ensures
        followed(v, p, now) == v,
        replied(v, r) == v,
        !is_kept(v, r),
{
}

/// Law: the reply for the chart that is being read ahead ends the waiting; the chart is kept if it could be
/// read, and else nothing is.
pub proof fn law_reply_is_taken(v: Loading, g: u64)
    requires
        v.splash && v.waiting,
        v.target is Some,
        v.generation == g,
    ensures
        replied(v, Reply::Done(g, true)).slot == v.target,
        replied(v, Reply::Done(g, false)).slot == v.slot,
        replied(v, Reply::Gone).slot == v.slot,
        replied(v, Reply::Nothing) == v,
        !replied(v, Reply::Done(g, true)).waiting && replied(v, Reply::Done(g, true)).target is None,
        !replied(v, Reply::Done(g, false)).waiting && replied(v, Reply::Done(g, false)).target
            is None,
        !replied(v, Reply::Gone).waiting && replied(v, Reply::Gone).target is None,
        is_kept(v, Reply::Done(g, true)),
        !is_kept(v, Reply::Done(g, false)),
        g > 0 ==> !is_kept(v, Reply::Done((g - 1) as u64, true)),
{
}

/// Law: opening a chart leaves the chart list for the editor of that chart: at once where it was read ahead,
/// else behind the loading screen under its name.
pub proof fn law_open_shows_the_chart(v: Loading, path: Seq<char>, name: Seq<char>)
    requires
        v.splash && !v.loading && v.loading_name is None,
    ensures
        ({
            let w = opened(v, path, name);
            &&& !w.splash && !w.ime_allowed && !w.ime_active
            &&& w.chart_dir == path
            &&& w.generation == v.generation + 1
            &&& v.slot == Some(path) ==> !w.loading && w.loading_name is None
            &&& v.slot != Some(path) ==> w.loading && w.loading_name == Some(name) && w.error is None
            &&& polled(w, LoadThread::Running) == w
            &&& !polled(w, LoadThread::Loaded).loading && !polled(w, LoadThread::Loaded).splash
        }),
{
}

/// Law: going back to the chart list gives up what was being read ahead and the last message, and the
/// input method may be used there again.
pub proof fn law_back_to_the_list(v: Loading, g: u64, ok: bool)
    ensures
        left(v).splash && left(v).ime_allowed && !left(v).ime_active,
        left(v).error is None,
        left(v).want is None && left(v).target is None && left(v).slot is None && !left(v).waiting,
        v.generation == g ==> !is_kept(left(v), Reply::Done(g, ok)),
        left(v).chart_dir == v.chart_dir,
        !v.loading ==> polled(v, LoadThread::Panicked) == v,
{
}

/// Law: a zip package is told by its first four bytes, `P`, `K`, 3 and 4, whatever follows.
pub proof fn law_zip_head(rest: Seq<u8>, head: Seq<u8>)
    ensures
        is_zip(seq![80u8, 75u8, 3u8, 4u8] + rest),
        is_zip(head) ==> head.take(4) == seq![80u8, 75u8, 3u8, 4u8],
        head.len() < 4 ==> !is_zip(head),
{
    if is_zip(head) {
        assert(head.take(4) =~= seq![80u8, 75u8, 3u8, 4u8]);
    }
}

} // verus!
