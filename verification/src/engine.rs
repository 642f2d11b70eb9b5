//! A chart session: what is loaded, and the frames that are rendered of it.

use vstd::prelude::*;

use crate::floats::gt_zero32;
use crate::post::PostPipe;
use crate::preview::{padded_row, positive, size_fits, unpadded, PreviewEngine};
use crate::renderer::{is_new_renderer, Renderer};
use crate::scene::HudData;
use crate::strings::{lemma_index_in, position, same, texts};

verus! {

/// A path made by joining `file` to the directory `dir`.
pub struct JoinedPath {
    pub dir: String,
    pub file: String,
}

/// What a session reads of a loaded chart.
pub struct LoadedChart {
    /// The directory.
    pub dir: String,
    /// The name of the music file.
    pub music: String,
    /// The number of notes that count.
    pub max_combo: usize,
    /// The length of its judge lines, as single-precision bits.
    pub line_length: u32,
}

/// A note that a frame hits: its line, its kind, its place across the line as single-precision bits,
/// and whether it is not to be hit, is a tick of a hold, or is the end of one.
#[derive(Clone, Copy, PartialEq, Eq, Structural, Debug)]
pub struct FiredNote {
    pub line: usize,
    pub kind: u8,
    pub x: u32,
    pub fake: bool,
    pub tick: bool,
    pub hold_tail: bool,
}

/// A chart session. `last_fired` holds the notes that the last frame hit.
pub struct ChartSession {
    pub engine: PreviewEngine,
    pub chart: Option<LoadedChart>,
    pub width: u32,
    pub height: u32,
    pub last_fired: Vec<FiredNote>,
}

impl ChartSession {
    /// A session without a chart.
    pub fn new(width: u32, height: u32) -> (r: ChartSession)
        requires
            size_fits(positive(width), positive(height)),
        ensures
            r.engine.wf(),
            r.engine.width == positive(width),
            r.engine.height == positive(height),
            r.engine.frame_idx == 0,
            forall|i: int|
                0 <= i < r.engine.pixels@.len() ==> #[trigger] r.engine.pixels@[i] == 0,
            is_new_renderer(
                r.engine.renderer,
                positive(width),
                positive(height),
                false,
                false,
                false,
            ),
            r.chart is None,
            r.width == width,
            r.height == height,
            r.last_fired@.len() == 0,
    {
        ChartSession {
            engine: PreviewEngine::new(width, height),
            chart: None,
            width,
            height,
            last_fired: Vec::new(),
        }
    }

    /// Takes over a chart that was loaded, and the length of its lines where that is more than zero.
    /// Its shaders lie in its directory.
    pub fn load(&mut self, chart: LoadedChart)
        ensures
            *final(self) == (ChartSession {
                engine: PreviewEngine {
                    renderer: Renderer {
                        line_length: if gt_zero32(chart.line_length) {
                            chart.line_length
                        } else {
                            old(self).engine.renderer.line_length
                        },
                        post: PostPipe { has_chart_dir: true, ..old(self).engine.renderer.post },
                        ..old(self).engine.renderer
                    },
                    ..old(self).engine
                },
                chart: Some(chart),
                ..*old(self)
            }),
    {
        self.engine.set_line_length(chart.line_length);
        self.engine.renderer.post.has_chart_dir = true;
        self.chart = Some(chart);
    }

    /// Ends a frame that hits the notes `fired`, and returns its pixels; `None`, and nothing changes,
    /// where no chart is loaded.
    pub fn render_frame(&mut self, mapped: Option<&[u8]>, fired: Vec<FiredNote>) -> (r: Option<
        Vec<u8>,
    >)
        requires
            old(self).engine.wf(),
            old(self).engine.frame_idx < u64::MAX,
            mapped matches Some(d) ==> d@.len() >= padded_row(old(self).engine.width as nat)
                * old(self).engine.height,
        ensures
            final(self).engine.wf(),
            r is Some <==> old(self).chart is Some,
            r is None ==> *final(self) == *old(self),
            r matches Some(v) ==> {
                &&& v@ == final(self).engine.pixels@
                &&& final(self).engine.pixels@ == (match mapped {
                    Some(d) => unpadded(
                        d@,
                        old(self).engine.width as int,
                        old(self).engine.height as int,
                    ),
                    None => old(self).engine.pixels@,
                })
                &&& *final(self) == (ChartSession {
                    engine: PreviewEngine {
                        pixels: final(self).engine.pixels,
                        frame_idx: (old(self).engine.frame_idx + 1) as u64,
                        ..old(self).engine
                    },
                    last_fired: fired,
                    ..*old(self)
                })
            },
    {
        if self.chart.is_none() {
            return None;
        }
        self.engine.render_frame(mapped);
        self.last_fired = fired;
        let mut out: Vec<u8> = Vec::new();
        self.engine.copy_pixels_to(&mut out);
        Some(out)
    }

    /// Ends a frame that hits the notes `fired`, and copies its pixels into a buffer, in place of what
    /// it held. Returns whether it did: where no chart is loaded, nothing changes.
    pub fn render_frame_into(
        &mut self,
        mapped: Option<&[u8]>,
        fired: Vec<FiredNote>,
        out: &mut Vec<u8>,
    ) -> (r: bool)
        requires
            old(self).engine.wf(),
            old(self).engine.frame_idx < u64::MAX,
            mapped matches Some(d) ==> d@.len() >= padded_row(old(self).engine.width as nat)
                * old(self).engine.height,
        ensures
            final(self).engine.wf(),
            r == (old(self).chart is Some),
            !r ==> *final(self) == *old(self) && *final(out) == *old(out),
            r ==> {
                &&& final(out)@ == final(self).engine.pixels@
                &&& final(self).engine.pixels@ == (match mapped {
                    Some(d) => unpadded(
                        d@,
                        old(self).engine.width as int,
                        old(self).engine.height as int,
                    ),
                    None => old(self).engine.pixels@,
                })
                &&& *final(self) == (ChartSession {
                    engine: PreviewEngine {
                        pixels: final(self).engine.pixels,
                        frame_idx: (old(self).engine.frame_idx + 1) as u64,
                        ..old(self).engine
                    },
                    last_fired: fired,
                    ..*old(self)
                })
            },
    {
        if self.chart.is_none() {
            return false;
        }
        self.engine.render_frame(mapped);
        self.last_fired = fired;
        self.engine.copy_pixels_to(out);
        true
    }

    /// The pixels of the last frame.
    pub fn pixels(&self) -> (r: &[u8])
        ensures
            r@ == self.engine.pixels@,
    {
        self.engine.pixels()
    }

    /// The number of notes that count; 0 where no chart is loaded.
    pub fn note_count(&self) -> (n: usize)
        ensures
            n == match self.chart {
                Some(c) => c.max_combo,
                None => 0,
            },
    {
        match &self.chart {
            Some(c) => c.max_combo,
            None => 0,
        }
    }

    /// Sets what the heads-up display shows.
    pub fn set_hud(&mut self, hud: HudData)
        ensures
            *final(self) == (ChartSession {
                engine: PreviewEngine {
                    renderer: Renderer { hud, ..old(self).engine.renderer },
                    ..old(self).engine
                },
                ..*old(self)
            }),
    {
        self.engine.set_hud(hud);
    }

    /// The renderer.
    pub fn engine(&mut self) -> (r: &mut PreviewEngine)
        ensures
            *r == old(self).engine,
            *final(self) == (ChartSession { engine: *final(r), ..*old(self) }),
    {
        &mut self.engine
    }

    /// The music file: the directory of the chart and the name in it; `None` where no chart is
    /// loaded.
    pub fn music_path(&self) -> (r: Option<JoinedPath>)
        ensures
            match r {
                Some(p) => self.chart is Some && p.dir@ == self.chart->0.dir@ && p.file@
                    == self.chart->0.music@,
                None => self.chart is None,
            },
    {
        match &self.chart {
            Some(c) => Some(JoinedPath { dir: c.dir.clone(), file: c.music.clone() }),
            None => None,
        }
    }
}

/// The sprites of notes and hits, by the names of their files without extension.
pub open spec fn sprite_names() -> Seq<Seq<char>> {
    seq![
        "click"@,
        "drag"@,
        "flick"@,
        "hold"@,
        "click_mh"@,
        "drag_mh"@,
        "flick_mh"@,
        "hold_mh"@,
        "hit_fx"@,
    ]
}

/// The sprites that are loaded with every chart.
pub fn sprites() -> (r: Vec<String>)
    ensures
        crate::strings::texts(r@) == sprite_names(),
{
    let r: Vec<String> = vec![
        "click".to_owned(),
        "drag".to_owned(),
        "flick".to_owned(),
        "hold".to_owned(),
        "click_mh".to_owned(),
        "drag_mh".to_owned(),
        "flick_mh".to_owned(),
        "hold_mh".to_owned(),
        "hit_fx".to_owned(),
    ];
    proof {
        assert(crate::strings::texts(r@) == sprite_names());
    }
    r
}

/// The name under which a sprite is kept.
pub fn sprite_key(name: &str) -> (r: String)
    ensures
        r@ == (if name@ == "hit_fx"@ {
            "note:hitfx"@
        } else {
            "note:"@ + name@
        }),
{
    if crate::strings::same(name, "hit_fx") {
        "note:hitfx".to_owned()
    } else {
        let mut s: String = "note:".to_owned();
        s.append(name);
        s
    }
}

/// The name under which an image in a chart's `Texture2D` directory replaces a sprite, by its
/// file name without extension.
pub fn custom_sprite_key(file: &str) -> (r: Option<String>)
    ensures
        match r {
            Some(k) => (file@ == "Tap"@ && k@ == "note:click"@) || (file@ == "Drag"@ && k@
                == "note:drag"@) || (file@ == "Flick"@ && k@ == "note:flick"@) || (file@ == "Hold"@
                && k@ == "note:hold"@),
            None => file@ != "Tap"@ && file@ != "Drag"@ && file@ != "Flick"@ && file@ != "Hold"@,
        },
{
    if crate::strings::same(file, "Tap") {
        Some("note:click".to_owned())
    } else if crate::strings::same(file, "Drag") {
        Some("note:drag".to_owned())
    } else if crate::strings::same(file, "Flick") {
        Some("note:flick".to_owned())
    } else if crate::strings::same(file, "Hold") {
        Some("note:hold".to_owned())
    } else {
        None
    }
}

/// The textures that lines name, each once, in the order in which they come first.
pub open spec fn distinct(names: Seq<Seq<char>>) -> Seq<Seq<char>>
    decreases names.len(),
{
    if names.len() == 0 {
        Seq::empty()
    } else {
        let rest = distinct(names.drop_last());
        if names.last().len() == 0 || rest.contains(names.last()) {
            rest
        } else {
            rest.push(names.last())
        }
    }
}

/// The textures to load for lines that name them: each once, none for a line without one.
pub fn texture_names(lines: &[String]) -> (r: Vec<String>)
    ensures
        texts(r@) == distinct(texts(lines@)),
{
    let mut r: Vec<String> = Vec::new();
    let mut i: usize = 0;
    assert(texts(r@) =~= distinct(texts(lines@).take(0)));
    while i < lines.len()
        invariant
            i <= lines.len(),
            texts(r@) == distinct(texts(lines@).take(i as int)),
        decreases lines.len() - i,
    {
        let ghost before = texts(r@);
        let name: &String = &lines[i];
        proof {
            assert(texts(lines@).take(i + 1).drop_last() == texts(lines@).take(i as int));
            assert(texts(lines@).take(i + 1).last() == name@);
            lemma_index_in(before, name@, 0);
            reveal_strlit("");
            assert(name@.len() == 0 <==> name@ =~= ""@);
        }
        let known: bool = position(r.as_slice(), name.as_str()).is_some();
        assert(known == before.contains(name@)) by {
            if before.contains(name@) {
                let k = choose|k: int| 0 <= k < before.len() && before[k] == name@;
                assert(before[k] == name@);
            }
        }
        if !same(name.as_str(), "") && !known {
            r.push(name.clone());
            assert(texts(r@) =~= before.push(name@));
        }
        i = i + 1;
    }
    assert(texts(lines@).take(lines@.len() as int) == texts(lines@));
    r
}

/// Law: no texture is loaded twice, and every line that names one gets it.
pub proof fn law_textures_once(names: Seq<Seq<char>>)
    ensures
        distinct(names).no_duplicates(),
        forall|n: Seq<char>| #[trigger]
            distinct(names).contains(n) <==> n.len() > 0 && names.contains(n),
    decreases names.len(),
{
    if names.len() > 0 {
        let front = names.drop_last();
        let rest = distinct(front);
        law_textures_once(front);
        assert(names =~= front.push(names.last()));
        assert forall|n: Seq<char>| #[trigger] distinct(names).contains(n) <==> n.len() > 0
            && names.contains(n) by {
            if names.contains(n) {
                let k = choose|k: int| 0 <= k < names.len() && names[k] == n;
                if k < front.len() {
                    assert(front[k] == n);
                    assert(front.contains(n));
                }
            }
            if front.contains(n) {
                let k = choose|k: int| 0 <= k < front.len() && front[k] == n;
                assert(names[k] == n);
            }
            assert(names[names.len() - 1] == names.last());
            if rest.contains(n) && distinct(names) != rest {
                let k = choose|k: int| 0 <= k < rest.len() && rest[k] == n;
                assert(distinct(names)[k] == n);
            }
            if distinct(names) != rest {
                assert(distinct(names)[rest.len() as int] == names.last());
            }
            assert(rest.contains(n) <==> n.len() > 0 && front.contains(n));
        }
    }
}

/// Law: nine sprites are loaded with every chart: the four kinds of notes, each also as it looks together
/// with others, and the sheet of hits.
pub proof fn law_sprites_of_charts(n: Seq<char>)
    ensures
        sprite_names().len() == 9,
        sprite_names().contains("click"@) && sprite_names().contains("click_mh"@),
        sprite_names().contains("drag"@) && sprite_names().contains("drag_mh"@),
        sprite_names().contains("flick"@) && sprite_names().contains("flick_mh"@),
        sprite_names().contains("hold"@) && sprite_names().contains("hold_mh"@),
        sprite_names().contains("hit_fx"@),
{
    let s = sprite_names();
    assert(s[0] == "click"@ && s[1] == "drag"@ && s[2] == "flick"@ && s[3] == "hold"@);
    assert(s[4] == "click_mh"@ && s[5] == "drag_mh"@ && s[6] == "flick_mh"@ && s[7] == "hold_mh"@);
    assert(s[8] == "hit_fx"@);
}

} // verus!
