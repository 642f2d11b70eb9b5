//! The list of charts that the program starts with: keys, clicks, and typing.

use crate::keys::{drop_char, shortened, Key};
use crate::library::optional;
use vstd::prelude::*;

verus! {

/// What is under the pointer on the chart list.
#[derive(Clone, Copy, PartialEq, Eq, Structural, Debug)]
pub enum SplashHover {
    Nothing,
    Settings,
    Back,
    New,
    NewInput,
    NewCreate,
    NewCancel,
    Vsync,
    Backend,
    Fullscreen,
    ScaleMinus,
    ScalePlus,
    Library,
    Refresh,
    Sort,
    OpenFolder,
    /// A row of the list.
    Chart(usize),
    /// The button of a row that deletes it.
    Delete(usize),
}

/// The state of the chart list. `dialog` is the name of a chart to make that is being typed, and why
/// the last one was refused.
pub struct Splash {
    pub show_settings: bool,
    pub ime_active: bool,
    pub dialog: Option<(String, Option<String>)>,
    pub search: String,
    pub sel: Option<usize>,
    pub sort: u8,
    pub hover: SplashHover,
}

/// The contents of a [`Splash`].
#[verifier::ext_equal]
pub ghost struct SplashView {
    pub show_settings: bool,
    pub ime_active: bool,
    pub dialog: Option<(Seq<char>, Option<Seq<char>>)>,
    pub search: Seq<char>,
    pub sel: Option<usize>,
    pub sort: u8,
    pub hover: SplashHover,
}

/// A name being typed, by what it holds.
pub open spec fn typed_name(d: Option<(String, Option<String>)>) -> Option<
    (Seq<char>, Option<Seq<char>>),
> {
    match d {
        Some(x) => Some((x.0@, optional(x.1))),
        None => None,
    }
}

impl View for Splash {
    type V = SplashView;

    open spec fn view(&self) -> SplashView {
        SplashView {
            show_settings: self.show_settings,
            ime_active: self.ime_active,
            dialog: typed_name(self.dialog),
            search: self.search@,
            sel: self.sel,
            sort: self.sort,
            hover: self.hover,
        }
    }
}

/// What is to be done.
#[derive(Clone, Copy, PartialEq, Eq, Structural, Debug)]
pub enum SplashAct {
    /// A chart of the typed name is made and opened.
    Create,
    Quit,
    /// A chart is opened, or deleted, by its number in the library.
    Open(usize),
    DeleteChart(usize),
    /// The list is scrolled to the chosen chart, or to its top.
    KeepVisible,
    ScrollTop,
    /// The window of the input method goes to the field that is typed into.
    PlaceIme,
    ToggleVsync,
    NextBackend,
    ToggleFullscreen,
    /// The panels are drawn larger, or smaller.
    Scale(bool),
    /// The library is shown in the file manager.
    ShowLibrary,
    /// The library is listed anew.
    Rescan,
    /// Looks for charts that were not saved.
    FindRecovery,
}

/// A field that is typed into.
#[derive(Clone, Copy, PartialEq, Eq, Structural, Debug)]
pub enum ImeField {
    Search,
    NewName,
}

/// The number in the library of a row of the list, which holds `filtered` of `charts` charts.
pub open spec fn chart_at(filtered: Seq<usize>, charts: nat, row: Option<usize>) -> Option<usize> {
    if row is Some && row->0 < filtered.len() && filtered[row->0 as int] < charts {
        Some(filtered[row->0 as int])
    } else {
        None
    }
}

fn chart_of_row(filtered: &[usize], charts: usize, row: Option<usize>) -> (r: Option<usize>)
    ensures
        r == chart_at(filtered@, charts as nat, row),
{
    match row {
        Some(i) => if i < filtered.len() && filtered[i] < charts {
            Some(filtered[i])
        } else {
            None
        },
        None => None,
    }
}

/// The chart that is wanted next: the one whose row is under the pointer, else the chosen one.
pub open spec fn next_chart(v: SplashView, filtered: Seq<usize>, charts: nat) -> Option<usize> {
    match v.hover {
        SplashHover::Chart(i) | SplashHover::Delete(i) => chart_at(filtered, charts, Some(i)),
        _ => chart_at(filtered, charts, v.sel),
    }
}

/// The row above the chosen one.
pub open spec fn row_above(sel: Option<usize>) -> usize {
    if sel is Some && sel->0 > 0 {
        (sel->0 - 1) as usize
    } else {
        0
    }
}

/// The row below the chosen one, of `rows`.
pub open spec fn row_below(sel: Option<usize>, rows: nat) -> usize {
    let next = if sel is Some {
        sel->0 + 1
    } else {
        0
    };
    let last = if rows > 0 {
        rows - 1
    } else {
        0
    };
    (if next < last {
        next
    } else {
        last
    }) as usize
}

/// The list after a key, and what is to be done. `typed` is the first character that the key types.
pub open spec fn splash_key(
    v: SplashView,
    code: Key,
    typed: Option<char>,
    ctrl: bool,
    filtered: Seq<usize>,
    charts: nat,
) -> (SplashView, Seq<SplashAct>) {
    if v.show_settings {
        (SplashView { show_settings: !(code is Escape), ..v }, Seq::empty())
    } else if v.ime_active {
        (v, Seq::empty())
    } else if v.dialog is Some {
        dialog_key(v, code, typed, ctrl)
    } else if ctrl && code is Q {
        (v, seq![SplashAct::Quit])
    } else {
        list_key(v, code, typed, ctrl, filtered, charts)
    }
}

/// A key while the name of a new chart is being typed.
pub open spec fn dialog_key(v: SplashView, code: Key, typed: Option<char>, ctrl: bool) -> (
    SplashView,
    Seq<SplashAct>,
) {
    let d = v.dialog->0;
    match code {
        Key::Enter => (v, seq![SplashAct::Create]),
        Key::Escape => (
            SplashView { dialog: None, hover: SplashHover::Nothing, ..v },
            Seq::empty(),
        ),
        Key::Backspace => (SplashView { dialog: Some((shortened(d.0), d.1)), ..v }, Seq::empty()),
        _ => if !ctrl && typed is Some {
            (SplashView { dialog: Some((d.0.push(typed->0), d.1)), ..v }, Seq::empty())
        } else {
            (v, Seq::empty())
        },
    }
}

/// A key in the list itself.
pub open spec fn list_key(
    v: SplashView,
    code: Key,
    typed: Option<char>,
    ctrl: bool,
    filtered: Seq<usize>,
    charts: nat,
) -> (SplashView, Seq<SplashAct>) {
    let chosen = chart_at(filtered, charts, v.sel);
    match code {
        Key::Enter => (
            v,
            if chosen is Some {
                seq![SplashAct::Open(chosen->0)]
            } else {
                Seq::empty()
            },
        ),
        Key::Escape => (
            SplashView { sel: None, search: Seq::empty(), ..v },
            if v.search.len() > 0 {
                seq![SplashAct::ScrollTop]
            } else {
                Seq::empty()
            },
        ),
        Key::Backspace => if v.search.len() > 0 {
            (
                SplashView { sel: None, search: v.search.drop_last(), ..v },
                seq![SplashAct::ScrollTop],
            )
        } else {
            (v, Seq::empty())
        },
        Key::ArrowUp => (
            SplashView { sel: Some(row_above(v.sel)), ..v },
            seq![SplashAct::KeepVisible],
        ),
        Key::ArrowDown => (
            SplashView { sel: Some(row_below(v.sel, filtered.len())), ..v },
            seq![SplashAct::KeepVisible],
        ),
        Key::Delete => if chosen is Some {
            (
                SplashView { sel: None, ..v },
                seq![SplashAct::DeleteChart(chosen->0), SplashAct::Rescan, SplashAct::ScrollTop],
            )
        } else {
            (v, Seq::empty())
        },
        _ => if !ctrl && typed is Some {
            (
                SplashView { sel: None, search: v.search.push(typed->0), ..v },
                seq![SplashAct::ScrollTop],
            )
        } else {
            (v, Seq::empty())
        },
    }
}

/// The list after a click on what is at `hover`, and what is to be done.
pub open spec fn splash_click(v: SplashView, hover: SplashHover, filtered: Seq<usize>, charts: nat) -> (
    SplashView,
    Seq<SplashAct>,
) {
    match hover {
        SplashHover::Settings => (SplashView { show_settings: true, ..v }, Seq::empty()),
        SplashHover::Back => (SplashView { show_settings: false, ..v }, Seq::empty()),
        SplashHover::New => (
            SplashView {
                dialog: Some((Seq::empty(), None)),
                hover: SplashHover::Nothing,
                ime_active: false,
                ..v
            },
            seq![SplashAct::PlaceIme],
        ),
        SplashHover::NewInput => (v, seq![SplashAct::PlaceIme]),
        SplashHover::NewCreate => (v, seq![SplashAct::Create]),
        SplashHover::NewCancel => (
            SplashView { dialog: None, hover: SplashHover::Nothing, ..v },
            seq![SplashAct::PlaceIme],
        ),
        SplashHover::Vsync => (v, seq![SplashAct::ToggleVsync]),
        SplashHover::Backend => (v, seq![SplashAct::NextBackend]),
        SplashHover::Fullscreen => (v, seq![SplashAct::ToggleFullscreen]),
        SplashHover::ScaleMinus => (v, seq![SplashAct::Scale(false)]),
        SplashHover::ScalePlus => (v, seq![SplashAct::Scale(true)]),
        SplashHover::Library | SplashHover::OpenFolder => (v, seq![SplashAct::ShowLibrary]),
        SplashHover::Refresh => (
            SplashView { sel: None, ..v },
            seq![SplashAct::Rescan, SplashAct::ScrollTop, SplashAct::FindRecovery],
        ),
        SplashHover::Sort => (SplashView { sort: ((v.sort + 1) % 2) as u8, ..v }, Seq::empty()),
        SplashHover::Chart(i) => (
            v,
            if chart_at(filtered, charts, Some(i)) is Some {
                seq![SplashAct::Open(chart_at(filtered, charts, Some(i))->0)]
            } else {
                Seq::empty()
            },
        ),
        SplashHover::Delete(i) => if chart_at(filtered, charts, Some(i)) is Some {
            (
                SplashView { sel: None, ..v },
                seq![
                    SplashAct::DeleteChart(chart_at(filtered, charts, Some(i))->0),
                    SplashAct::Rescan,
                    SplashAct::ScrollTop,
                ],
            )
        } else {
            (v, Seq::empty())
        },
        SplashHover::Nothing => (v, Seq::empty()),
    }
}

/// The list after a text came from the input method: it goes to the name that is being typed, else to
/// the search.
pub open spec fn committed(v: SplashView, text: Seq<char>) -> SplashView {
    let w = SplashView { ime_active: false, ..v };
    if v.show_settings {
        w
    } else if v.dialog is Some {
        SplashView { dialog: Some(((v.dialog->0).0 + text, (v.dialog->0).1)), ..w }
    } else if text.len() > 0 {
        SplashView { search: v.search + text, sel: None, ..w }
    } else {
        w
    }
}

impl Splash {
    /// A list with nothing chosen.
    pub fn new() -> (r: Splash)
        ensures
            r@ == (SplashView {
                show_settings: false,
                ime_active: false,
                dialog: None,
                search: Seq::empty(),
                sel: None,
                sort: 0,
                hover: SplashHover::Nothing,
            }),
    {
        Splash {
            show_settings: false,
            ime_active: false,
            dialog: None,
            search: String::new(),
            sel: None,
            sort: 0,
            hover: SplashHover::Nothing,
        }
    }

    /// Comes back to the list: nothing is chosen, typed or open.
    pub fn reset(&mut self)
        ensures
            final(self)@ == (SplashView {
                show_settings: false,
                ime_active: false,
                dialog: None,
                search: Seq::empty(),
                sel: None,
                sort: 0,
                hover: old(self)@.hover,
            }),
    {
        self.show_settings = false;
        self.ime_active = false;
        self.dialog = None;
        self.search = String::new();
        self.sel = None;
        self.sort = 0;
    }

    /// The chart that is wanted next.
    pub fn wanted(&self, filtered: &[usize], charts: usize) -> (r: Option<usize>)
        ensures
            r == next_chart(self@, filtered@, charts as nat),
    {
        match self.hover {
            SplashHover::Chart(i) => chart_of_row(filtered, charts, Some(i)),
            SplashHover::Delete(i) => chart_of_row(filtered, charts, Some(i)),
            _ => chart_of_row(filtered, charts, self.sel),
        }
    }

    fn key_in_dialog(&mut self, code: Key, typed: Option<char>, ctrl: bool) -> (r: Vec<SplashAct>)
        requires
            old(self)@.dialog is Some,
        ensures
            (final(self)@, r@) == dialog_key(old(self)@, code, typed, ctrl),
    {
        let mut r: Vec<SplashAct> = Vec::new();
        match code {
            Key::Enter => {
                r.push(SplashAct::Create);
            },
            Key::Escape => {
                self.dialog = None;
                self.hover = SplashHover::Nothing;
            },
            Key::Backspace => {
                if let Some(d) = self.dialog.take() {
                    let (mut name, why): (String, Option<String>) = d;
                    drop_char(&mut name);
                    self.dialog = Some((name, why));
                }
            },
            _ => {
                if !ctrl {
                    if let Some(c) = typed {
                        if let Some(d) = self.dialog.take() {
                            let (mut name, why): (String, Option<String>) = d;
                            name.push(c);
                            self.dialog = Some((name, why));
                        }
                    }
                }
            },
        }
        r
    }

    fn key_in_list(
        &mut self,
        code: Key,
        typed: Option<char>,
        ctrl: bool,
        filtered: &[usize],
        charts: usize,
    ) -> (r: Vec<SplashAct>)
        ensures
            (final(self)@, r@) == list_key(
                old(self)@,
                code,
                typed,
                ctrl,
                filtered@,
                charts as nat,
            ),
    {
        let mut r: Vec<SplashAct> = Vec::new();
        let chosen: Option<usize> = chart_of_row(filtered, charts, self.sel);
        match code {
            Key::Enter => {
                if let Some(c) = chosen {
                    r.push(SplashAct::Open(c));
                }
            },
            Key::Escape => {
                let n: usize = crate::strings::chars_of(self.search.as_str()).len();
                if n > 0 {
                    r.push(SplashAct::ScrollTop);
                }
                self.search = String::new();
                self.sel = None;
            },
            Key::Backspace => {
                let n: usize = crate::strings::chars_of(self.search.as_str()).len();
                if n > 0 {
                    let mut text: String = self.search.clone();
                    drop_char(&mut text);
                    self.search = text;
                    self.sel = None;
                    r.push(SplashAct::ScrollTop);
                }
            },
            Key::ArrowUp => {
                let row: usize = match self.sel {
                    Some(i) => if i > 0 {
                        i - 1
                    } else {
                        0
                    },
                    None => 0,
                };
                self.sel = Some(row);
                r.push(SplashAct::KeepVisible);
            },
            Key::ArrowDown => {
                let last: usize = if filtered.len() > 0 {
                    filtered.len() - 1
                } else {
                    0
                };
                let row: usize = match self.sel {
                    Some(i) => if i < last {
                        i + 1
                    } else {
                        last
                    },
                    None => 0,
                };
                self.sel = Some(row);
                r.push(SplashAct::KeepVisible);
            },
            Key::Delete => {
                if let Some(c) = chosen {
                    self.sel = None;
                    r.push(SplashAct::DeleteChart(c));
                    r.push(SplashAct::Rescan);
                    r.push(SplashAct::ScrollTop);
                }
            },
            _ => {
                if !ctrl {
                    if let Some(c) = typed {
                        let mut text: String = self.search.clone();
                        text.push(c);
                        self.search = text;
                        self.sel = None;
                        r.push(SplashAct::ScrollTop);
                    }
                }
            },
        }
        r
    }

    /// A key on the chart list, of which `filtered` are the charts that the search shows.
    pub fn handle_splash_keyboard(
        &mut self,
        code: Key,
        typed: Option<char>,
        ctrl: bool,
        filtered: &[usize],
        charts: usize,
    ) -> (r: Vec<SplashAct>)
        ensures
            (final(self)@, r@) == splash_key(
                old(self)@,
                code,
                typed,
                ctrl,
                filtered@,
                charts as nat,
            ),
    {
        if self.show_settings {
            if code == Key::Escape {
                self.show_settings = false;
            }
            return Vec::new();
        }
        if self.ime_active {
            return Vec::new();
        }
        if self.dialog.is_some() {
            return self.key_in_dialog(code, typed, ctrl);
        }
        if ctrl && code == Key::Q {
            let mut r: Vec<SplashAct> = Vec::new();
            r.push(SplashAct::Quit);
            return r;
        }
        self.key_in_list(code, typed, ctrl, filtered, charts)
    }

    /// A chart of the typed name was made, or refused, and why.
    pub fn created(&mut self, refused: Option<String>)
        ensures
            final(self)@ == (match refused {
                None => SplashView { dialog: None, sel: None, ..old(self)@ },
                Some(e) => SplashView {
                    dialog: match old(self)@.dialog {
                        Some(d) => Some((d.0, Some(e@))),
                        None => None,
                    },
                    ..old(self)@
                },
            }),
            refused is None ==> final(self)@.dialog is None && final(self)@.sel is None,
            refused is Some && old(self)@.dialog is Some ==> final(self)@.dialog is Some,
            refused is Some && old(self)@.dialog is Some ==> (final(self)@.dialog->0).0
                == (old(self)@.dialog->0).0,
    {
        match refused {
            None => {
                self.dialog = None;
                self.sel = None;
            },
            Some(e) => {
                if let Some(d) = self.dialog.take() {
                    self.dialog = Some((d.0, Some(e)));
                }
            },
        }
    }

    /// A click on what is at `hover`.
    pub fn click(&mut self, hover: SplashHover, filtered: &[usize], charts: usize) -> (r: Vec<
        SplashAct,
    >)
        requires
            old(self).sort < 2,
        ensures
            (final(self)@, r@) == splash_click(old(self)@, hover, filtered@, charts as nat),
            final(self).sort < 2,
    {
        let mut r: Vec<SplashAct> = Vec::new();
        match hover {
            SplashHover::Settings => {
                self.show_settings = true;
            },
            SplashHover::Back => {
                self.show_settings = false;
            },
            SplashHover::New => {
                self.dialog = Some((String::new(), None));
                self.hover = SplashHover::Nothing;
                self.ime_active = false;
                r.push(SplashAct::PlaceIme);
            },
            SplashHover::NewInput => {
                r.push(SplashAct::PlaceIme);
            },
            SplashHover::NewCreate => {
                r.push(SplashAct::Create);
            },
            SplashHover::NewCancel => {
                self.dialog = None;
                self.hover = SplashHover::Nothing;
                r.push(SplashAct::PlaceIme);
            },
            SplashHover::Vsync => {
                r.push(SplashAct::ToggleVsync);
            },
            SplashHover::Backend => {
                r.push(SplashAct::NextBackend);
            },
            SplashHover::Fullscreen => {
                r.push(SplashAct::ToggleFullscreen);
            },
            SplashHover::ScaleMinus => {
                r.push(SplashAct::Scale(false));
            },
            SplashHover::ScalePlus => {
                r.push(SplashAct::Scale(true));
            },
            SplashHover::Library | SplashHover::OpenFolder => {
                r.push(SplashAct::ShowLibrary);
            },
            SplashHover::Refresh => {
                self.sel = None;
                r.push(SplashAct::Rescan);
                r.push(SplashAct::ScrollTop);
                r.push(SplashAct::FindRecovery);
            },
            SplashHover::Sort => {
                self.sort = (self.sort + 1) % 2;
            },
            SplashHover::Chart(i) => {
                if let Some(c) = chart_of_row(filtered, charts, Some(i)) {
                    r.push(SplashAct::Open(c));
                }
            },
            SplashHover::Delete(i) => {
                if let Some(c) = chart_of_row(filtered, charts, Some(i)) {
                    self.sel = None;
                    r.push(SplashAct::DeleteChart(c));
                    r.push(SplashAct::Rescan);
                    r.push(SplashAct::ScrollTop);
                }
            },
            SplashHover::Nothing => {},
        }
        r
    }

    /// Characters are being put together by the input method, or no longer.
    pub fn composing(&mut self, on: bool)
        ensures
            final(self)@ == (SplashView { ime_active: on, ..old(self)@ }),
    {
        self.ime_active = on;
    }

    /// The field that the window of the input method goes to, where one is typed into: the name of a
    /// new chart, else the search.
    pub fn ime_field(&self, splash: bool) -> (r: Option<ImeField>)
        ensures
            r == (if !splash || self.show_settings {
                None
            } else if self.dialog is Some {
                Some(ImeField::NewName)
            } else {
                Some(ImeField::Search)
            }),
            r is Some <==> splash && !self.show_settings,
            r == Some(ImeField::NewName) ==> self.dialog is Some,
            r == Some(ImeField::Search) ==> self.dialog is None,
    {
        if !splash || self.show_settings {
            None
        } else if self.dialog.is_some() {
            Some(ImeField::NewName)
        } else {
            Some(ImeField::Search)
        }
    }

    /// A text came from the input method. Returns whether the list is to be scrolled to its top.
    pub fn commit(&mut self, text: String) -> (r: bool)
        ensures
            final(self)@ == committed(old(self)@, text@),
            r == (!old(self).show_settings && old(self).dialog is None && text@.len() > 0),
    {
        self.ime_active = false;
        if self.show_settings {
            return false;
        }
        if let Some(d) = self.dialog.take() {
            let (mut name, why): (String, Option<String>) = d;
            name.append(text.as_str());
            self.dialog = Some((name, why));
            return false;
        }
        let n: usize = crate::strings::chars_of(text.as_str()).len();
        if n > 0 {
            let mut search: String = self.search.clone();
            search.append(text.as_str());
            self.search = search;
            self.sel = None;
            true
        } else {
            false
        }
    }
}

/// Law: while the input method puts characters together, keys do nothing here.
pub proof fn law_composing_keeps_keys(
    v: SplashView,
    code: Key,
    typed: Option<char>,
    ctrl: bool,
    filtered: Seq<usize>,
    charts: nat,
)
    requires
        v.ime_active,
        !v.show_settings,
    ensures
        splash_key(v, code, typed, ctrl, filtered, charts) == (v, Seq::<SplashAct>::empty()),
{
}

/// Law: a chart is opened or deleted only where the list shows it.
pub proof fn law_only_listed_charts(
    v: SplashView,
    code: Key,
    typed: Option<char>,
    ctrl: bool,
    filtered: Seq<usize>,
    charts: nat,
    i: int,
)
    requires
        0 <= i < splash_key(v, code, typed, ctrl, filtered, charts).1.len(),
    ensures
        splash_key(v, code, typed, ctrl, filtered, charts).1[i] matches SplashAct::Open(c)
            ==> filtered.contains(c) && c < charts,
        splash_key(v, code, typed, ctrl, filtered, charts).1[i] matches SplashAct::DeleteChart(c)
            ==> filtered.contains(c) && c < charts,
{
}

/// Law: the arrows choose a row of the list, where it has one.
pub proof fn law_arrows_choose_a_row(sel: Option<usize>, rows: nat)
    requires
        0 < rows <= usize::MAX,
        sel matches Some(i) ==> i < rows,
    ensures
        row_above(sel) < rows,
        row_below(sel, rows) < rows,
{
}

/// Whether keys go to the list itself.
pub open spec fn is_listing(v: SplashView) -> bool {
    !v.show_settings && !v.ime_active && v.dialog is None
}

/// Law: the enter key opens the chosen chart of the list and the delete key deletes it, after which
/// nothing is chosen; with no chart chosen they do nothing.
pub proof fn law_chosen_chart(
    v: SplashView,
    typed: Option<char>,
    filtered: Seq<usize>,
    charts: nat,
    row: usize,
)
    requires
        is_listing(v),
        v.sel == Some(row),
        row < filtered.len(),
        filtered[row as int] < charts,
    ensures
        splash_key(v, Key::Enter, typed, false, filtered, charts) == (
            v,
            seq![SplashAct::Open(filtered[row as int])],
        ),
        splash_key(v, Key::Delete, typed, false, filtered, charts).1[0] == SplashAct::DeleteChart(
            filtered[row as int],
        ),
        splash_key(v, Key::Delete, typed, false, filtered, charts).0.sel is None,
        splash_key(
            SplashView { sel: None, ..v },
            Key::Enter,
            typed,
            false,
            filtered,
            charts,
        ).1.len() == 0,
        splash_key(
            SplashView { sel: None, ..v },
            Key::Delete,
            typed,
            false,
            filtered,
            charts,
        ).1.len() == 0,
        splash_click(v, SplashHover::Chart(row), filtered, charts).1 == seq![
            SplashAct::Open(filtered[row as int]),
        ],
        splash_click(v, SplashHover::Delete(row), filtered, charts).1[0] == SplashAct::DeleteChart(
            filtered[row as int],
        ),
        splash_click(v, SplashHover::Delete(row), filtered, charts).1.len() == 3,
        splash_click(v, SplashHover::Delete(row), filtered, charts).1[1] == SplashAct::Rescan,
{
}

/// Law: the arrow down goes to the next row and stays on the last one, the arrow up goes to the one before
/// and stays on the first; with nothing chosen both choose the first row.
pub proof fn law_arrows_step(
    v: SplashView,
    typed: Option<char>,
    ctrl: bool,
    filtered: Seq<usize>,
    charts: nat,
)
    requires
        is_listing(v),
        0 < filtered.len() <= usize::MAX,
        v.sel matches Some(i) ==> i < filtered.len(),
    ensures
        ({
            let down = splash_key(v, Key::ArrowDown, typed, ctrl, filtered, charts).0.sel;
            let up = splash_key(v, Key::ArrowUp, typed, ctrl, filtered, charts).0.sel;
            &&& v.sel is None ==> down == Some(0usize) && up == Some(0usize)
            &&& v.sel is Some && v.sel->0 + 1 < filtered.len() ==> down is Some && down->0 == v.sel->0
                + 1
            &&& v.sel is Some && v.sel->0 + 1 == filtered.len() ==> down == v.sel
            &&& v.sel is Some && v.sel->0 > 0 ==> up is Some && up->0 + 1 == v.sel->0
            &&& v.sel == Some(0usize) ==> up == v.sel
        }),
        splash_key(v, Key::ArrowDown, typed, ctrl, filtered, charts).0.search == v.search,
        splash_key(v, Key::ArrowUp, typed, ctrl, filtered, charts).0.search == v.search,
{
}

/// Law: what is typed on the list goes to the end of the search, which the backspace key takes back and
/// the escape key empties; each of these gives up the chosen row and goes to the top of the list.
pub proof fn law_search_is_typed(
    v: SplashView,
    c: char,
    filtered: Seq<usize>,
    charts: nat,
    later: Seq<usize>,
)
    requires
        is_listing(v),
    ensures
        ({
            let w = splash_key(v, Key::Other, Some(c), false, filtered, charts);
            let back = splash_key(w.0, Key::Backspace, None, false, later, charts);
            let gone = splash_key(w.0, Key::Escape, None, false, later, charts);
            &&& w.0.search == v.search.push(c) && w.0.sel is None && w.1 == seq![SplashAct::ScrollTop]
            &&& back.0.search == v.search && back.0.sel is None && back.1 == seq![
                SplashAct::ScrollTop,
            ]
            &&& gone.0.search.len() == 0 && gone.0.sel is None && gone.1 == seq![SplashAct::ScrollTop]
        }),
        splash_key(v, Key::Other, Some(c), true, filtered, charts) == (v, Seq::<SplashAct>::empty()),
        splash_key(v, Key::Q, Some(c), true, filtered, charts) == (v, seq![SplashAct::Quit]),
        v.search.len() == 0 ==> splash_key(v, Key::Backspace, None, false, filtered, charts) == (
            v,
            Seq::<SplashAct>::empty(),
        ),
{
    assert(v.search.push(c).drop_last() =~= v.search);
}

/// Law: while a name is being typed, characters go to its end and the search stays; the enter key makes
/// the chart, the escape key gives the name up.
pub proof fn law_name_is_typed(v: SplashView, c: char, filtered: Seq<usize>, charts: nat)
    requires
        !v.show_settings && !v.ime_active,
        v.dialog is Some,
    ensures
        ({
            let w = splash_key(v, Key::Other, Some(c), false, filtered, charts);
            &&& w.0.dialog is Some && (w.0.dialog->0).0 == (v.dialog->0).0.push(c)
            &&& (w.0.dialog->0).1 == (v.dialog->0).1
            &&& w.0.search == v.search && w.1.len() == 0
            &&& splash_key(w.0, Key::Backspace, None, false, filtered, charts).0 == v
        }),
        splash_key(v, Key::Enter, Some(c), false, filtered, charts) == (v, seq![SplashAct::Create]),
        splash_key(v, Key::Escape, None, false, filtered, charts).0.dialog is None,
        splash_key(v, Key::Escape, None, false, filtered, charts).0.search == v.search,
        splash_key(v, Key::Q, Some(c), true, filtered, charts) == (v, Seq::<SplashAct>::empty()),
{
    assert((v.dialog->0).0.push(c).drop_last() =~= (v.dialog->0).0);
    let w = splash_key(v, Key::Other, Some(c), false, filtered, charts).0;
    assert(splash_key(w, Key::Backspace, None, false, filtered, charts).0 =~= v);
}

/// Law: over the settings only the escape key does anything: it closes them. Their buttons each do one
/// thing, and opening and closing them leaves the rest as it was.
pub proof fn law_settings(
    v: SplashView,
    code: Key,
    typed: Option<char>,
    ctrl: bool,
    filtered: Seq<usize>,
    charts: nat,
)
    requires
        v.show_settings,
    ensures
        code is Escape ==> splash_key(v, code, typed, ctrl, filtered, charts) == (
            SplashView { show_settings: false, ..v },
            Seq::<SplashAct>::empty(),
        ),
        !(code is Escape) ==> splash_key(v, code, typed, ctrl, filtered, charts) == (
            v,
            Seq::<SplashAct>::empty(),
        ),
        splash_click(
            splash_click(v, SplashHover::Back, filtered, charts).0,
            SplashHover::Settings,
            filtered,
            charts,
        ).0 == v,
        !splash_click(v, SplashHover::Back, filtered, charts).0.show_settings,
        splash_click(v, SplashHover::Vsync, filtered, charts).1 == seq![SplashAct::ToggleVsync],
        splash_click(v, SplashHover::Backend, filtered, charts).1 == seq![SplashAct::NextBackend],
        splash_click(v, SplashHover::Fullscreen, filtered, charts).1 == seq![
            SplashAct::ToggleFullscreen,
        ],
        splash_click(v, SplashHover::ScaleMinus, filtered, charts).1 == seq![SplashAct::Scale(false)],
        splash_click(v, SplashHover::ScalePlus, filtered, charts).1 == seq![SplashAct::Scale(true)],
{
}

/// Law: the buttons over the list. A new name is empty and nothing was said of it; cancelling gives it up;
/// the order is switched by one click and switched back by the next; listing anew forgets the chosen row.
pub proof fn law_buttons_of_the_list(v: SplashView, filtered: Seq<usize>, charts: nat)
    requires
        v.sort < 2,
    ensures
        splash_click(v, SplashHover::New, filtered, charts).0.dialog == Some(
            (Seq::<char>::empty(), None::<Seq<char>>),
        ),
        !splash_click(v, SplashHover::New, filtered, charts).0.ime_active,
        splash_click(v, SplashHover::NewCancel, filtered, charts).0.dialog is None,
        splash_click(v, SplashHover::NewCreate, filtered, charts) == (v, seq![SplashAct::Create]),
        splash_click(v, SplashHover::NewInput, filtered, charts) == (v, seq![SplashAct::PlaceIme]),
        splash_click(v, SplashHover::Sort, filtered, charts).0.sort == 1 - v.sort,
        splash_click(v, SplashHover::Refresh, filtered, charts).0.sel is None,
        splash_click(v, SplashHover::Refresh, filtered, charts).1.contains(SplashAct::Rescan),
        splash_click(v, SplashHover::Library, filtered, charts).1 == seq![SplashAct::ShowLibrary],
        splash_click(v, SplashHover::OpenFolder, filtered, charts).1 == seq![SplashAct::ShowLibrary],
        splash_click(v, SplashHover::Nothing, filtered, charts) == (v, Seq::<SplashAct>::empty()),
{
    assert(splash_click(v, SplashHover::Refresh, filtered, charts).1[0] == SplashAct::Rescan);
}

/// Law: a text from the input method goes to the end of the field that has the keyboard, as if its
/// characters had been typed there, and the field is no longer being composed in.
pub proof fn law_committed_text(v: SplashView, text: Seq<char>)
    ensures
        !committed(v, text).ime_active,
        v.show_settings ==> committed(v, text).search == v.search && committed(v, text).dialog
            == v.dialog,
        !v.show_settings && v.dialog is Some ==> committed(v, text).dialog is Some && (committed(
            v,
            text,
        ).dialog->0).0 == (v.dialog->0).0 + text && committed(v, text).search == v.search,
        !v.show_settings && v.dialog is None ==> committed(v, text).search == v.search + text,
        !v.show_settings && v.dialog is None && text.len() > 0 ==> committed(v, text).sel is None,
        text.len() == 0 ==> committed(v, text).sel == v.sel,
{
    if text.len() == 0 {
        assert(v.search + text =~= v.search);
    }
}

/// Law: the chart that is wanted next is the one under the pointer, whether on its row or on the row's
/// button, else the chosen one.
pub proof fn law_wanted_chart(v: SplashView, filtered: Seq<usize>, charts: nat, row: usize)
    requires
        row < filtered.len(),
        filtered[row as int] < charts,
    ensures
        v.hover == SplashHover::Chart(row) || v.hover == SplashHover::Delete(row) ==> next_chart(
            v,
            filtered,
            charts,
        ) == Some(filtered[row as int]),
        !(v.hover is Chart || v.hover is Delete) && v.sel == Some(row) ==> next_chart(
            v,
            filtered,
            charts,
        ) == Some(filtered[row as int]),
        !(v.hover is Chart || v.hover is Delete) && v.sel is None ==> next_chart(v, filtered, charts)
            is None,
{
}

} // verus!
