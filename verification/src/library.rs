//! The chart library: where it and the settings lie, what is a chart, names and difficulties.

use vstd::prelude::*;

use crate::effects::is_plain;
use crate::floats::nan32;
use crate::order::{stable_order, stably_ordered, text_le, Ranked};
use crate::strings::{
    begins, chars_of, decimal, first_word, next_word, push_decimal, same, starts_with,
    string_of, texts, trim, trimmed,
};

verus! {

/// The characters of an optional text.
pub open spec fn optional(t: Option<String>) -> Option<Seq<char>> {
    match t {
        Some(s) => Some(s@),
        None => None,
    }
}

/// The directory of the settings: under `APPDATA` where it is set, else under the XDG
/// configuration directory, `.config` in the home directory, or the working directory.
pub open spec fn config_parts(
    appdata: Option<Seq<char>>,
    xdg: Option<Seq<char>>,
    home: Option<Seq<char>>,
) -> Seq<Seq<char>> {
    match appdata {
        Some(a) => seq![a, "PhiMakor"@],
        None => match xdg {
            Some(x) => seq![x, "phimakor"@],
            None => match home {
                Some(h) => seq![h, ".config"@, "phimakor"@],
                None => seq!["."@, "phimakor"@],
            },
        },
    }
}

/// The directory of the settings, as the parts of its path.
pub fn config_dir(appdata: &Option<String>, xdg: &Option<String>, home: &Option<String>) -> (r: Vec<
    String,
>)
    ensures
        texts(r@) == config_parts(optional(*appdata), optional(*xdg), optional(*home)),
{
    let r: Vec<String> = match appdata {
        Some(a) => vec![a.clone(), "PhiMakor".to_owned()],
        None => match xdg {
            Some(x) => vec![x.clone(), "phimakor".to_owned()],
            None => match home {
                Some(h) => vec![h.clone(), ".config".to_owned(), "phimakor".to_owned()],
                None => vec![".".to_owned(), "phimakor".to_owned()],
            },
        },
    };
    proof {
        assert(texts(r@) == config_parts(optional(*appdata), optional(*xdg), optional(*home)));
    }
    r
}

fn with_part(dir: Vec<String>, name: &str) -> (r: Vec<String>)
    ensures
        texts(r@) == texts(dir@).push(name@),
{
    let mut v: Vec<String> = dir;
    v.push(name.to_owned());
    proof {
        assert(texts(v@) == texts(dir@).push(name@));
    }
    v
}

/// The settings file, as the parts of its path.
pub fn settings_path(
    appdata: &Option<String>,
    xdg: &Option<String>,
    home: &Option<String>,
) -> (r: Vec<String>)
    ensures
        texts(r@) == config_parts(optional(*appdata), optional(*xdg), optional(*home)).push(
            "config.json"@,
        ),
{
    with_part(config_dir(appdata, xdg, home), "config.json")
}

/// The file of the pipeline cache, as the parts of its path.
pub fn cache_path(appdata: &Option<String>, xdg: &Option<String>, home: &Option<String>) -> (r: Vec<
    String,
>)
    ensures
        texts(r@) == config_parts(optional(*appdata), optional(*xdg), optional(*home)).push(
            "pipeline_cache.bin"@,
        ),
{
    with_part(config_dir(appdata, xdg, home), "pipeline_cache.bin")
}

/// The largest pipeline cache that is read.
pub const MAX_CACHE_BYTES: u64 = 268435456;

/// Whether the pipeline cache is in use, by the value of the variable that turns it off.
pub fn cache_enabled(off: &Option<String>) -> (r: bool)
    ensures
        r == (optional(*off) != Some("1"@)),
{
    match off {
        Some(v) => !same(v.as_str(), "1"),
        None => true,
    }
}

/// Whether a pipeline cache file can be used.
pub fn cache_usable(is_file: bool, len: u64) -> (r: bool)
    ensures
        r == (is_file && 0 < len <= MAX_CACHE_BYTES),
        r ==> is_file && len > 0 && len <= 256 * 1024 * 1024,
        is_file && 1 <= len <= 256 * 1024 * 1024 ==> r,
{
    is_file && 0 < len && len <= MAX_CACHE_BYTES
}

/// The documents directory: the one the system names, else `Documents` in the user's directory.
pub open spec fn documents_parts(
    known: Option<Seq<char>>,
    profile: Option<Seq<char>>,
    home: Option<Seq<char>>,
) -> Seq<Seq<char>> {
    match known {
        Some(d) => seq![d],
        None => match profile {
            Some(p) => seq![p, "Documents"@],
            None => match home {
                Some(h) => seq![h, "Documents"@],
                None => seq!["."@, "Documents"@],
            },
        },
    }
}

/// The documents directory, as the parts of its path.
pub fn documents_dir(
    known: &Option<String>,
    profile: &Option<String>,
    home: &Option<String>,
) -> (r: Vec<String>)
    ensures
        texts(r@) == documents_parts(optional(*known), optional(*profile), optional(*home)),
{
    let r: Vec<String> = match known {
        Some(d) => vec![d.clone()],
        None => match profile {
            Some(p) => vec![p.clone(), "Documents".to_owned()],
            None => match home {
                Some(h) => vec![h.clone(), "Documents".to_owned()],
                None => vec![".".to_owned(), "Documents".to_owned()],
            },
        },
    };
    proof {
        assert(texts(r@) == documents_parts(optional(*known), optional(*profile), optional(*home)));
    }
    r
}

/// The chart library where none is chosen: `PhiMakor/charts` in the documents directory.
pub fn default_charts_dir(documents: Vec<String>) -> (r: Vec<String>)
    ensures
        texts(r@) == texts(documents@).push("PhiMakor"@).push("charts"@),
{
    with_part(with_part(documents, "PhiMakor"), "charts")
}

/// Where settings were once kept: beside the chart library in the documents directory.
pub fn legacy_settings_path(documents: Vec<String>) -> (r: Vec<String>)
    ensures
        texts(r@) == texts(documents@).push("PhiMakor"@).push("config.json"@),
{
    with_part(with_part(documents, "PhiMakor"), "config.json")
}

/// Where the chart library comes from.
pub enum ChartsDir {
    /// A path of its own.
    Custom(String),
    /// The default.
    Default,
}

/// Whether a text has anything but white space.
pub open spec fn has_ink(t: Option<Seq<char>>) -> bool {
    t is Some && trimmed(t->0).len() > 0
}

fn is_filled(t: &Option<String>) -> (r: bool)
    ensures
        r == has_ink(optional(*t)),
{
    match t {
        Some(s) => {
            let v: Vec<char> = chars_of(s.as_str());
            trim(&v).len() > 0
        },
        None => false,
    }
}

/// The chart library: what the environment says, else what the settings say, else the default.
/// Blank texts say nothing.
pub fn charts_dir(env: &Option<String>, setting: &Option<String>) -> (r: ChartsDir)
    ensures
        match r {
            ChartsDir::Custom(s) => if has_ink(optional(*env)) {
                Some(s@) == optional(*env)
            } else {
                has_ink(optional(*setting)) && Some(s@) == optional(*setting)
            },
            ChartsDir::Default => !has_ink(optional(*env)) && !has_ink(optional(*setting)),
        },
{
    if is_filled(env) {
        if let Some(s) = env {
            return ChartsDir::Custom(s.clone());
        }
    }
    if is_filled(setting) {
        if let Some(s) = setting {
            return ChartsDir::Custom(s.clone());
        }
    }
    ChartsDir::Default
}

/// Which settings file is read.
#[derive(Clone, Copy, PartialEq, Eq, Structural, Debug)]
pub enum SettingsSource {
    /// The one in the settings directory.
    Config,
    /// One beside the program.
    Program,
    /// One in the documents directory.
    Documents,
}

/// The first settings file that can be read.
pub fn settings_source(config: bool, program: bool, documents: bool) -> (r: Option<SettingsSource>)
    ensures
        r == Some(SettingsSource::Config) <==> config,
        r == Some(SettingsSource::Program) <==> !config && program,
        r == Some(SettingsSource::Documents) <==> !config && !program && documents,
        r == (if config {
            Some(SettingsSource::Config)
        } else if program {
            Some(SettingsSource::Program)
        } else if documents {
            Some(SettingsSource::Documents)
        } else {
            None
        }),
{
    if config {
        Some(SettingsSource::Config)
    } else if program {
        Some(SettingsSource::Program)
    } else if documents {
        Some(SettingsSource::Documents)
    } else {
        None
    }
}

/// Whether settings that were read are written to their new place.
pub fn settings_migrate(parsed: bool, config_exists: bool) -> (r: bool)
    ensures
        r == (parsed && !config_exists),
{
    parsed && !config_exists
}

/// The last part of a path, or nothing.
pub fn dir_name(file_name: Option<String>) -> (r: String)
    ensures
        r@ == match file_name {
            Some(s) => s@,
            None => Seq::<char>::empty(),
        },
{
    match file_name {
        Some(s) => s,
        None => String::new(),
    }
}

/// Which info files a directory holds.
#[derive(Clone, Copy, PartialEq, Eq, Structural, Debug)]
pub struct InfoFiles {
    pub json: bool,
    pub yml: bool,
    pub txt: bool,
}

/// Whether a directory holds an info file.
pub fn has_info_file(f: InfoFiles) -> (r: bool)
    ensures
        r == (f.json || f.yml || f.txt),
{
    f.json || f.yml || f.txt
}

/// Whether a path is a chart: a directory with an info file.
pub fn is_chart_dir(is_dir: bool, f: InfoFiles) -> (r: bool)
    ensures
        r == (is_dir && (f.json || f.yml || f.txt)),
{
    is_dir && has_info_file(f)
}

/// An entry of a chart package: the last part of its path, what stands before it, and how many
/// parts that has.
pub struct ZipEntry {
    pub file_name: String,
    pub parent: String,
    pub depth: usize,
}

/// Whether a file name is that of an info file.
pub open spec fn is_info_name(n: Seq<char>) -> bool {
    n == "info.json"@ || n == "info.yml"@ || n == "info.txt"@
}

/// Whether entry `k` holds the info file that counts: no info file lies less deep, and none as
/// deep comes before it.
pub open spec fn is_root_entry(es: Seq<ZipEntry>, k: int) -> bool {
    &&& 0 <= k < es.len()
    &&& is_info_name(es[k].file_name@)
    &&& forall|j: int|
        0 <= j < es.len() && is_info_name(#[trigger] es[j].file_name@) ==> es[k].depth
            <= es[j].depth && (j < k ==> es[k].depth < es[j].depth)
}

/// The directory in a chart package that holds the chart; `None` where there is no info file.
pub fn probe_chart_zip(entries: &Vec<ZipEntry>) -> (r: Option<String>)
    ensures
        match r {
            Some(root) => exists|k: int| #[trigger]
                is_root_entry(entries@, k) && root@ == entries@[k].parent@,
            None => forall|j: int|
                0 <= j < entries@.len() ==> !is_info_name(#[trigger] entries@[j].file_name@),
        },
{
    let mut best: Option<usize> = None;
    let mut i: usize = 0;
    while i < entries.len()
        invariant
            i <= entries.len(),
            match best {
                Some(k) => is_root_entry(entries@.take(i as int), k as int),
                None => forall|j: int|
                    0 <= j < i ==> !is_info_name(#[trigger] entries@[j].file_name@),
            },
        decreases entries.len() - i,
    {
        let n: &str = entries[i].file_name.as_str();
        let info: bool = same(n, "info.json") || same(n, "info.yml") || same(n, "info.txt");
        let ghost before = entries@.take(i as int);
        let ghost now = entries@.take(i + 1);
        proof {
            assert(forall|j: int| 0 <= j < i ==> now[j] == before[j]);
            assert(now[i as int] == entries@[i as int]);
        }
        if info {
            match best {
                None => {
                    best = Some(i);
                    proof {
                        assert forall|j: int|
                            0 <= j < now.len() && is_info_name(#[trigger] now[j].file_name@) implies now[i as int].depth
                            <= now[j].depth && (j < i ==> now[i as int].depth < now[j].depth) by {
                            if j < i {
                                assert(now[j] == entries@[j]);
                            }
                        }
                    }
                },
                Some(k) => {
                    if entries[i].depth < entries[k].depth {
                        best = Some(i);
                        proof {
                            assert(before[k as int] == entries@[k as int]);
                            assert forall|j: int|
                                0 <= j < now.len() && is_info_name(
                                    #[trigger] now[j].file_name@,
                                ) implies now[i as int].depth <= now[j].depth && (j < i
                                ==> now[i as int].depth < now[j].depth) by {
                                if j < i {
                                    assert(is_info_name(before[j].file_name@));
                                }
                            }
                        }
                    } else {
                        proof {
                            assert(before[k as int] == entries@[k as int]);
                            assert forall|j: int|
                                0 <= j < now.len() && is_info_name(
                                    #[trigger] now[j].file_name@,
                                ) implies now[k as int].depth <= now[j].depth && (j < k
                                ==> now[k as int].depth < now[j].depth) by {
                                if j < i {
                                    assert(is_info_name(before[j].file_name@));
                                }
                            }
                        }
                    }
                },
            }
        } else {
            proof {
                if let Some(k) = best {
                    assert(before[k as int] == now[k as int]);
                    assert forall|j: int|
                        0 <= j < now.len() && is_info_name(#[trigger] now[j].file_name@) implies now[k as int].depth
                        <= now[j].depth && (j < k ==> now[k as int].depth < now[j].depth) by {
                        if j < i {
                            assert(is_info_name(before[j].file_name@));
                        }
                    }
                }
            }
        }
        i = i + 1;
    }
    proof {
        assert(entries@.take(entries@.len() as int) == entries@);
    }
    match best {
        Some(k) => {
            let root: String = entries[k].parent.clone();
            proof {
                assert(is_root_entry(entries@, k as int));
            }
            Some(root)
        },
        None => None,
    }
}

/// Characters that a file name may not hold on every system.
pub open spec fn is_illegal(c: char) -> bool {
    c == '<' || c == '>' || c == ':' || c == '"' || c == '/' || c == '\\' || c == '|' || c == '?'
        || c == '*'
}

/// Control characters.
pub open spec fn is_control(c: char) -> bool {
    (c as u32) < 0x20 || 0x7f <= c as u32 <= 0x9f
}

fn illegal(c: char) -> (r: bool)
    ensures
        r == is_illegal(c),
{
    c == '<' || c == '>' || c == ':' || c == '"' || c == '/' || c == '\\' || c == '|' || c == '?'
        || c == '*'
}

/// A text with illegal characters, and control characters where `control` is set, as `_`.
pub open spec fn legalized(s: Seq<char>, control: bool) -> Seq<char> {
    s.map_values(
        |c: char|
            if is_illegal(c) || (control && is_control(c)) {
                '_'
            } else {
                c
            },
    )
}

fn legalize(v: &Vec<char>, control: bool) -> (r: Vec<char>)
    ensures
        r@ == legalized(v@, control),
{
    let mut out: Vec<char> = Vec::new();
    let mut i: usize = 0;
    while i < v.len()
        invariant
            i <= v.len(),
            out@ == legalized(v@, control).take(i as int),
        decreases v.len() - i,
    {
        let c: char = v[i];
        let n: u32 = c as u32;
        let bad: bool = illegal(c) || (control && (n < 0x20 || (0x7f <= n && n <= 0x9f)));
        out.push(
            if bad {
                '_'
            } else {
                c
            },
        );
        i = i + 1;
    }
    out
}

/// The name of an exported package: the trimmed name of the chart with illegal characters
/// replaced, else the name of its directory, else `chart`.
pub open spec fn package_name(name: Seq<char>, dir: Seq<char>) -> Seq<char> {
    let n = legalized(trimmed(name), false);
    if n.len() > 0 {
        n
    } else if dir.len() > 0 {
        dir
    } else {
        "chart"@
    }
}

/// The file name of an exported package, and the one under which it is written first.
pub fn export_names(name: &str, dir: &str) -> (r: (String, String))
    ensures
        r.0@ == package_name(name@, dir@) + ".zip"@,
        r.1@ == package_name(name@, dir@) + ".zip.tmp"@,
{
    let v: Vec<char> = chars_of(name);
    let t: Vec<char> = trim(&v);
    let n: Vec<char> = legalize(&t, false);
    let base: String = if n.len() > 0 {
        string_of(&n)
    } else if !dir.is_empty() {
        dir.to_owned()
    } else {
        "chart".to_owned()
    };
    let mut a: String = base.clone();
    a.append(".zip");
    let mut b: String = base;
    b.append(".zip.tmp");
    (a, b)
}

/// A file of a chart that goes into its package.
#[derive(Clone, Copy, PartialEq, Eq, Structural, Debug)]
pub enum PackageFile {
    Chart,
    Music,
    Illustration,
}

/// What becomes of a file of a package.
#[derive(Clone, Copy, PartialEq, Eq, Structural, Debug)]
pub enum PackStep {
    /// It is packed.
    Pack,
    /// It is missing and left out.
    Skip,
    /// It is missing and must not be: the export fails and leaves nothing behind.
    Abort,
}

/// What becomes of a file of a package: without the chart itself there is no package.
pub fn export_step(file: PackageFile, found: bool) -> (r: PackStep)
    ensures
        r is Pack <==> found,
        r is Abort <==> !found && file is Chart,
        r is Skip <==> !found && (file is Music || file is Illustration),
        r == (if found {
            PackStep::Pack
        } else if file == PackageFile::Chart {
            PackStep::Abort
        } else {
            PackStep::Skip
        }),
{
    if found {
        PackStep::Pack
    } else if file == PackageFile::Chart {
        PackStep::Abort
    } else {
        PackStep::Skip
    }
}

/// The chart file and its backup, by the times at which they were last written.
#[derive(Clone, Copy)]
pub struct Backup {
    pub has_backup: bool,
    pub main: Option<u64>,
    pub backup: Option<u64>,
}

/// Whether a chart was not written to the end: its backup is newer, or all that is left.
pub open spec fn is_broken(b: Backup) -> bool {
    b.has_backup && b.backup is Some && match b.main {
        Some(m) => m < b.backup->0,
        None => true,
    }
}

/// The first chart that was not written to the end.
pub fn find_recover_hint(charts: &Vec<Backup>) -> (r: Option<usize>)
    ensures
        match r {
            Some(i) => i < charts@.len() && is_broken(charts@[i as int]) && forall|j: int|
                0 <= j < i ==> !is_broken(#[trigger] charts@[j]),
            None => forall|j: int| 0 <= j < charts@.len() ==> !is_broken(#[trigger] charts@[j]),
        },
{
    let mut i: usize = 0;
    while i < charts.len()
        invariant
            i <= charts.len(),
            forall|j: int| 0 <= j < i ==> !is_broken(#[trigger] charts@[j]),
        decreases charts.len() - i,
    {
        let b: Backup = charts[i];
        let broken: bool = b.has_backup && match (b.main, b.backup) {
            (_, None) => false,
            (Some(m), Some(k)) => m < k,
            (None, Some(_)) => true,
        };
        if broken {
            return Some(i);
        }
        i = i + 1;
    }
    None
}

/// The upper case of a text.
pub uninterp spec fn uppercase(s: Seq<char>) -> Seq<char>;

/// The upper case of an ASCII letter; any other character as it is.
pub open spec fn upper(c: char) -> char {
    if 'a' <= c <= 'z' {
        (c as u32 - 32) as char
    } else {
        c
    }
}

/// `str::to_uppercase` of std, by the Unicode property Uppercase. Stated of ASCII texts, where it
/// is the upper case of each letter; and that a `_` at the end, which has no case, stays behind the
/// upper case of what stands before it. Else only named.
#[verifier::external_body]
fn to_uppercase(s: &str) -> (r: String)
    ensures
        r@ == uppercase(s@),
        is_plain(s@) ==> r@ == s@.map_values(|c: char| upper(c)),
        uppercase(s@.push('_')) == r@.push('_'),
{
    s.to_uppercase()
}

/// The label of a difficulty: the first word of the level in upper case, else the number where it
/// is more than zero, else the name of the directory.
pub open spec fn label_of(tag: Seq<char>, number: Option<Seq<char>>, dir: Seq<char>) -> Seq<char> {
    if tag.len() > 0 {
        tag
    } else if let Some(n) = number {
        n
    } else {
        dir
    }
}

/// The first word of a text, or nothing.
pub open spec fn head_word(s: Seq<char>) -> Seq<char> {
    match first_word(s) {
        Some((w, _)) => w,
        None => Seq::empty(),
    }
}

/// The label of a difficulty out of its tag.
pub fn label_from(tag: &str, number: &Option<String>, dir: &str) -> (r: String)
    ensures
        r@ == label_of(tag@, optional(*number), dir@),
{
    if !tag.is_empty() {
        return tag.to_owned();
    }
    match number {
        Some(n) => n.clone(),
        None => dir.to_owned(),
    }
}

/// The label of a difficulty. `number` is its number as a text, where that is more than zero.
pub fn diff_label(level: &str, number: &Option<String>, dir: &str) -> (r: String)
    ensures
        r@ == label_of(uppercase(head_word(level@)), optional(*number), dir@),
        is_plain(head_word(level@)) ==> uppercase(head_word(level@)) == head_word(
            level@,
        ).map_values(|c: char| upper(c)),
{
    let v: Vec<char> = chars_of(level);
    let word: String = match next_word(&v) {
        Some((w, _)) => string_of(&w),
        None => String::new(),
    };
    let tag: String = to_uppercase(word.as_str());
    label_from(tag.as_str(), number, dir)
}

/// A subdirectory of a song: whether it is a chart, the name that its info gives, and its
/// difficulty as single-precision bits.
pub struct DiffDir {
    pub is_chart: bool,
    pub name: Option<String>,
    pub difficulty: u32,
    pub label: String,
}

/// Whether a subdirectory counts: a chart with a name that is not blank.
pub open spec fn counts(d: DiffDir) -> bool {
    d.is_chart && has_ink(optional(d.name))
}

/// The subdirectories that count, among the first `n`.
pub open spec fn counted(ds: Seq<DiffDir>, n: int) -> Seq<usize>
    decreases n,
{
    if n <= 0 {
        Seq::empty()
    } else if counts(ds[n - 1]) {
        counted(ds, n - 1).push((n - 1) as usize)
    } else {
        counted(ds, n - 1)
    }
}

/// Whether the subdirectories that count all have one name.
pub open spec fn one_name(ds: Seq<DiffDir>, n: int) -> bool {
    forall|i: int, j: int|
        0 <= i < n && 0 <= j < n && counts(#[trigger] ds[i]) && counts(#[trigger] ds[j])
            ==> optional(ds[i].name) == optional(ds[j].name)
}

/// The place of a single-precision number among others: both zeros are one.
pub open spec fn rank32(b: u32) -> i64 {
    if b < 0x8000_0000 {
        b as i64
    } else {
        (0x8000_0000 - b) as i64
    }
}

/// Whether `r` lists difficulties from the lowest up, those of one number by their labels, and
/// those of one label as they come.
pub open spec fn by_difficulty(ds: Seq<DiffDir>, r: Seq<usize>) -> bool {
    forall|i: int, j: int|
        0 <= i < j < r.len() ==> {
            let a = ds[(#[trigger] r[i]) as int];
            let b = ds[(#[trigger] r[j]) as int];
            ||| rank32(a.difficulty) < rank32(b.difficulty)
            ||| rank32(a.difficulty) == rank32(b.difficulty) && text_le(a.label@, b.label@) && (
            text_le(b.label@, a.label@) ==> r[i] < r[j])
        }
}

/// Whether two lists hold the same items, each once.
pub open spec fn same_items(a: Seq<usize>, b: Seq<usize>) -> bool {
    &&& a.len() == b.len()
    &&& a.no_duplicates()
    &&& forall|i: int| 0 <= i < a.len() ==> b.contains(#[trigger] a[i])
}

proof fn lemma_counted(ds: Seq<DiffDir>, n: int)
    requires
        0 <= n <= ds.len() <= usize::MAX,
    ensures
        forall|i: int|
            0 <= i < counted(ds, n).len() ==> (#[trigger] counted(ds, n)[i]) < n && counts(
                ds[counted(ds, n)[i] as int],
            ),
        forall|i: int, j: int|
            0 <= i < j < counted(ds, n).len() ==> #[trigger] counted(ds, n)[i]
                < #[trigger] counted(ds, n)[j],
    decreases n,
{
    if n > 0 {
        lemma_counted(ds, n - 1);
        let b = counted(ds, n - 1);
        let c = counted(ds, n);
        assert forall|i: int| 0 <= i < c.len() implies (#[trigger] c[i]) < n && counts(
            ds[c[i] as int],
        ) by {
            if i < b.len() {
                assert(c[i] == b[i]);
            }
        }
        assert forall|i: int, j: int| 0 <= i < j < c.len() implies #[trigger] c[i]
            < #[trigger] c[j] by {
            assert(c[i] == b[i]);
            if j < b.len() {
                assert(c[j] == b[j]);
            }
        }
    }
}

/// The difficulties of a song, from the lowest up: at least two charts among its subdirectories,
/// all with one name. `None` where that is not so.
pub fn multi_difficulty_dirs(dirs: &Vec<DiffDir>) -> (r: Option<Vec<usize>>)
    requires
        forall|i: int| 0 <= i < dirs@.len() ==> !nan32((#[trigger] dirs@[i]).difficulty),
    ensures
        match r {
            Some(v) => {
                &&& one_name(dirs@, dirs@.len() as int)
                &&& v@.len() >= 2
                &&& same_items(v@, counted(dirs@, dirs@.len() as int))
                &&& by_difficulty(dirs@, v@)
            },
            None => !one_name(dirs@, dirs@.len() as int) || counted(
                dirs@,
                dirs@.len() as int,
            ).len() < 2,
        },
{
    let n: usize = dirs.len();
    let mut found: Vec<usize> = Vec::new();
    let mut i: usize = 0;
    while i < n
        invariant
            i <= n,
            n == dirs@.len(),
            found@ == counted(dirs@, i as int),
            one_name(dirs@, i as int),
            forall|k: int| 0 <= k < found@.len() ==> (#[trigger] found@[k]) < i && counts(
                dirs@[found@[k] as int],
            ),
            forall|k: int| 0 <= k < i && counts(#[trigger] dirs@[k]) ==> found@.len() > 0,
        decreases n - i,
    {
        let d: &DiffDir = &dirs[i];
        if d.is_chart && is_filled(&d.name) {
            if found.len() > 0 {
                let first: usize = found[0];
                let equal: bool = match (&dirs[first].name, &d.name) {
                    (Some(a), Some(b)) => same(a.as_str(), b.as_str()),
                    _ => false,
                };
                if !equal {
                    proof {
                        assert(counts(dirs@[first as int]) && counts(dirs@[i as int]));
                        assert(!one_name(dirs@, n as int));
                    }
                    return None;
                }
                proof {
                    assert(optional(dirs@[first as int].name) == optional(dirs@[i as int].name));
                    assert forall|a: int, b: int|
                        0 <= a < i + 1 && 0 <= b < i + 1 && counts(#[trigger] dirs@[a]) && counts(
                            #[trigger] dirs@[b],
                        ) implies optional(dirs@[a].name) == optional(dirs@[b].name) by {
                        if a < i {
                            assert(optional(dirs@[a].name) == optional(dirs@[first as int].name));
                        }
                        if b < i {
                            assert(optional(dirs@[b].name) == optional(dirs@[first as int].name));
                        }
                    }
                }
            }
            found.push(i);
        }
        i = i + 1;
    }
    if found.len() < 2 {
        return None;
    }
    proof {
        lemma_counted(dirs@, n as int);
    }
    let mut labels: Vec<String> = Vec::new();
    let mut k: usize = 0;
    while k < found.len()
        invariant
            k <= found@.len(),
            n == dirs@.len(),
            forall|j: int| 0 <= j < found@.len() ==> #[trigger] found@[j] < n,
            labels@.len() == k,
            forall|j: int|
                0 <= j < k ==> (#[trigger] labels@[j])@ == dirs@[found@[j] as int].label@,
        decreases found.len() - k,
    {
        labels.push(dirs[found[k]].label.clone());
        k = k + 1;
    }
    let by_label: Vec<usize> = stable_order(labels.as_slice());
    let mut keys: Vec<i64> = Vec::new();
    let mut q: usize = 0;
    while q < by_label.len()
        invariant
            q <= by_label@.len(),
            n == dirs@.len(),
            by_label@.len() == found@.len(),
            forall|j: int| 0 <= j < found@.len() ==> #[trigger] found@[j] < n,
            forall|j: int| 0 <= j < by_label@.len() ==> #[trigger] by_label@[j] < found@.len(),
            keys@.len() == q,
            forall|j: int|
                0 <= j < q ==> #[trigger] keys@[j] == rank32(
                    dirs@[found@[by_label@[j] as int] as int].difficulty,
                ),
        decreases by_label.len() - q,
    {
        let b: u32 = dirs[found[by_label[q]]].difficulty;
        let key: i64 = if b < 0x8000_0000 {
            b as i64
        } else {
            0x8000_0000i64 - b as i64
        };
        keys.push(key);
        q = q + 1;
    }
    let by_number: Vec<usize> = stable_order(keys.as_slice());
    let mut out: Vec<usize> = Vec::new();
    let mut p: usize = 0;
    while p < by_number.len()
        invariant
            p <= by_number@.len(),
            by_number@.len() == found@.len(),
            by_label@.len() == found@.len(),
            forall|j: int| 0 <= j < by_label@.len() ==> #[trigger] by_label@[j] < found@.len(),
            forall|j: int| 0 <= j < by_number@.len() ==> #[trigger] by_number@[j] < found@.len(),
            out@.len() == p,
            forall|j: int|
                0 <= j < p ==> #[trigger] out@[j] == found@[by_label@[by_number@[j] as int] as int],
        decreases by_number.len() - p,
    {
        out.push(found[by_label[by_number[p]]]);
        p = p + 1;
    }
    proof {
        assert forall|a: int, b: int| 0 <= a < b < out@.len() implies ({
            let x = dirs@[(#[trigger] out@[a]) as int];
            let y = dirs@[(#[trigger] out@[b]) as int];
            ||| rank32(x.difficulty) < rank32(y.difficulty)
            ||| rank32(x.difficulty) == rank32(y.difficulty) && text_le(x.label@, y.label@) && (
            text_le(y.label@, x.label@) ==> out@[a] < out@[b])
        }) by {
            let na = by_number@[a] as int;
            let nb = by_number@[b] as int;
            assert(keys@[na].no_later(&keys@[nb]));
            assert(keys@[nb].no_later(&keys@[na]) ==> na < nb);
            let la = by_label@[na] as int;
            let lb = by_label@[nb] as int;
            if keys@[na] == keys@[nb] {
                assert(na < nb);
                assert(labels@[la].no_later(&labels@[lb]));
                assert(labels@[lb].no_later(&labels@[la]) ==> la < lb);
                if text_le(labels@[lb]@, labels@[la]@) {
                    assert(la < lb);
                    assert(found@[la] < found@[lb]);
                }
            }
        }
        assert(by_difficulty(dirs@, out@));
        assert forall|a: int, b: int| 0 <= a < out@.len() && 0 <= b < out@.len() && a
            != b implies out@[a] != out@[b] by {
            assert(by_number@[a] != by_number@[b]);
            let na = by_number@[a] as int;
            let nb = by_number@[b] as int;
            assert(by_label@[na] != by_label@[nb]);
            let la = by_label@[na] as int;
            let lb = by_label@[nb] as int;
            if la < lb {
                assert(found@[la] < found@[lb]);
            } else {
                assert(found@[lb] < found@[la]);
            }
        }
        assert(out@.no_duplicates());
        assert forall|a: int| 0 <= a < out@.len() implies found@.contains(#[trigger] out@[a]) by {
            let la = by_label@[by_number@[a] as int] as int;
            assert(found@[la] == out@[a]);
        }
    }
    Some(out)
}

/// Which path is opened for a directory.
#[derive(Clone, Copy, PartialEq, Eq, Structural, Debug)]
pub enum OpenDir {
    /// The directory itself.
    Itself,
    /// Its lowest difficulty.
    FirstDifficulty,
}

/// Which path is opened: a song without an info file of its own opens at its lowest difficulty.
pub fn resolve_open_dir(is_chart: bool, has_difficulties: bool) -> (r: OpenDir)
    ensures
        r is FirstDifficulty <==> has_difficulties && !is_chart,
        is_chart ==> r is Itself,
        r == (if !is_chart && has_difficulties {
            OpenDir::FirstDifficulty
        } else {
            OpenDir::Itself
        }),
{
    if !is_chart && has_difficulties {
        OpenDir::FirstDifficulty
    } else {
        OpenDir::Itself
    }
}

/// Whether the other difficulties of a chart are offered: its parent is a directory with several
/// difficulties and no chart itself.
pub fn resolve_difficulty_context(
    has_parent: bool,
    parent_is_chart: bool,
    has_difficulties: bool,
) -> (r: bool)
    ensures
        r == (has_parent && !parent_is_chart && has_difficulties),
{
    has_parent && !parent_is_chart && has_difficulties
}

/// How a directory of the library is listed.
#[derive(Clone, Copy, PartialEq, Eq, Structural, Debug)]
pub enum Listing {
    /// As a chart.
    Chart,
    /// As a song with several difficulties.
    Song,
    /// Not at all.
    Nothing,
}

/// How a directory of the library is listed.
pub fn listing(is_dir: bool, is_chart: bool, has_difficulties: bool) -> (r: Listing)
    ensures
        r is Chart <==> is_dir && is_chart,
        r is Song <==> is_dir && !is_chart && has_difficulties,
        r is Nothing <==> !is_dir || (!is_chart && !has_difficulties),
        r == (if !is_dir {
            Listing::Nothing
        } else if is_chart {
            Listing::Chart
        } else if has_difficulties {
            Listing::Song
        } else {
            Listing::Nothing
        }),
{
    if !is_dir {
        Listing::Nothing
    } else if is_chart {
        Listing::Chart
    } else if has_difficulties {
        Listing::Song
    } else {
        Listing::Nothing
    }
}

/// The order in which charts are listed: by name.
pub fn chart_order(names: &Vec<String>) -> (r: Vec<usize>)
    ensures
        stably_ordered(names@, r@),
{
    stable_order(names.as_slice())
}

/// What deleting an entry of the list removes: a chart, or a song with all its difficulties.
#[derive(Clone, Copy, PartialEq, Eq, Structural, Debug)]
pub enum DeleteTarget {
    Itself,
    Parent,
}

/// What deleting an entry removes.
pub fn delete_target(difficulties: usize, has_parent: bool) -> (r: DeleteTarget)
    ensures
        r is Parent <==> has_parent && difficulties >= 1,
        difficulties == 0 ==> r is Itself,
        r == (if difficulties > 0 && has_parent {
            DeleteTarget::Parent
        } else {
            DeleteTarget::Itself
        }),
{
    if difficulties > 0 && has_parent {
        DeleteTarget::Parent
    } else {
        DeleteTarget::Itself
    }
}

/// The name under which a chart is shown: its own, or else that of its directory.
pub fn chart_display_name(name: &str, dir: &str) -> (r: String)
    ensures
        name@.len() > 0 ==> r@ == name@,
        name@.len() == 0 ==> r@ == dir@,
        r@ == (if name@.len() == 0 {
            dir@
        } else {
            name@
        }),
{
    if name.is_empty() {
        dir.to_owned()
    } else {
        name.to_owned()
    }
}

/// `s` without spaces and full stops at its end.
pub open spec fn without_dots(s: Seq<char>) -> Seq<char>
    decreases s.len(),
{
    if s.len() > 0 && (s.last() == ' ' || s.last() == '.') {
        without_dots(s.drop_last())
    } else {
        s
    }
}

/// Names that Windows keeps for devices.
pub open spec fn is_reserved(s: Seq<char>) -> bool {
    s == "CON"@ || s == "PRN"@ || s == "AUX"@ || s == "NUL"@ || s == "COM1"@ || s == "COM2"@ || s
        == "COM3"@ || s == "COM4"@ || s == "COM5"@ || s == "COM6"@ || s == "COM7"@ || s == "COM8"@
        || s == "COM9"@ || s == "LPT1"@ || s == "LPT2"@ || s == "LPT3"@ || s == "LPT4"@ || s
        == "LPT5"@ || s == "LPT6"@ || s == "LPT7"@ || s == "LPT8"@ || s == "LPT9"@
}

fn reserved(s: &str) -> (r: bool)
    ensures
        r == is_reserved(s@),
{
    same(s, "CON") || same(s, "PRN") || same(s, "AUX") || same(s, "NUL") || same(s, "COM1") || same(
        s,
        "COM2",
    ) || same(s, "COM3") || same(s, "COM4") || same(s, "COM5") || same(s, "COM6") || same(s, "COM7")
        || same(s, "COM8") || same(s, "COM9") || same(s, "LPT1") || same(s, "LPT2") || same(
        s,
        "LPT3",
    ) || same(s, "LPT4") || same(s, "LPT5") || same(s, "LPT6") || same(s, "LPT7") || same(s, "LPT8")
        || same(s, "LPT9")
}

/// A folder name with its illegal characters replaced and nothing at its end that Windows drops,
/// before devices are considered.
pub open spec fn plain_folder(name: Seq<char>) -> Seq<char> {
    without_dots(legalized(name, true))
}

/// The folder name out of a plain one and its upper case: the name of a device gets a `_`.
pub open spec fn folder_from(plain: Seq<char>, upper_case: Seq<char>) -> Seq<char> {
    if is_reserved(upper_case) {
        plain.push('_')
    } else {
        plain
    }
}

/// A folder name out of a plain one and its upper case.
pub fn finish_folder(plain: &str, upper_case: &str) -> (r: String)
    ensures
        r@ == folder_from(plain@, upper_case@),
{
    let mut s: String = plain.to_owned();
    if reserved(upper_case) {
        s.push('_');
    }
    s
}

/// The folder name that is made of a name.
pub open spec fn folder_of(name: Seq<char>) -> Seq<char> {
    folder_from(plain_folder(name), uppercase(plain_folder(name)))
}

/// Whether every system takes a folder name: it holds no illegal and no control character, does not
/// end in a space or a full stop, and is no device, whatever the case of its letters.
pub open spec fn is_safe_folder(s: Seq<char>) -> bool {
    &&& forall|i: int| 0 <= i < s.len() ==> !is_illegal(#[trigger] s[i]) && !is_control(s[i])
    &&& s.len() > 0 ==> s.last() != ' ' && s.last() != '.'
    &&& !is_reserved(uppercase(s))
}

/// Whether a name is made of spaces and full stops only.
pub open spec fn is_blank_folder(s: Seq<char>) -> bool {
    forall|i: int| 0 <= i < s.len() ==> (#[trigger] s[i] == ' ' || s[i] == '.')
}

/// A folder name that every system takes: making it safe twice is the same as once, a name that is
/// safe is left as it is, and of one made of spaces and full stops nothing is left.
pub fn sanitize_folder_name(name: &str) -> (r: String)
    ensures
        r@ == folder_of(name@),
        is_safe_folder(r@),
        folder_of(r@) == r@,
        is_safe_folder(name@) ==> r@ == name@,
        is_blank_folder(name@) ==> r@.len() == 0,
        is_plain(plain_folder(name@)) ==> uppercase(plain_folder(name@)) == plain_folder(
            name@,
        ).map_values(|c: char| upper(c)),
{
    let v: Vec<char> = chars_of(name);
    let mut w: Vec<char> = legalize(&v, true);
    let ghost all = w@;
    let mut n: usize = w.len();
    while n > 0 && (w[n - 1] == ' ' || w[n - 1] == '.')
        invariant
            n == w@.len(),
            without_dots(w@) == without_dots(all),
        decreases n,
    {
        proof {
            assert(w@.last() == w@[n - 1]);
        }
        let dropped: Option<char> = w.pop();
        n = n - 1;
    }
    proof {
        if w@.len() > 0 {
            assert(w@.last() == w@[n - 1]);
        }
    }
    let plain: String = string_of(&w);
    let up: String = to_uppercase(plain.as_str());
    proof {
        let p = plain_folder(name@);
        assert(plain@ == p);
        lemma_safe_folder_stays(name@);
        if is_safe_folder(name@) {
            lemma_kept(name@);
        }
        if is_blank_folder(name@) {
            lemma_blank(name@);
            assert(p.len() == 0);
            assert(is_plain(p));
            assert(up@.len() == 0);
            if is_reserved(up@) {
                lemma_reserved(up@);
            }
        }
    }
    finish_folder(plain.as_str(), up.as_str())
}

proof fn lemma_without_dots(s: Seq<char>)
    ensures
        ({
            let r = without_dots(s);
            &&& r.len() <= s.len()
            &&& r == s.take(r.len() as int)
            &&& r.len() > 0 ==> r.last() != ' ' && r.last() != '.'
        }),
    decreases s.len(),
{
    if s.len() > 0 && (s.last() == ' ' || s.last() == '.') {
        lemma_without_dots(s.drop_last());
        let r = without_dots(s);
        assert(s.drop_last().take(r.len() as int) == s.take(r.len() as int));
    } else {
        assert(s.take(s.len() as int) == s);
    }
}

/// Law: a folder name that was made safe holds no illegal and no control character, and does not
/// end in a space or a full stop, whatever the name and whatever its upper case.
pub proof fn law_folder_name_is_legal(name: Seq<char>, upper_case: Seq<char>)
    ensures
        ({
            let r = folder_from(plain_folder(name), upper_case);
            &&& forall|i: int|
                0 <= i < r.len() ==> !is_illegal(#[trigger] r[i]) && !is_control(r[i])
            &&& r.len() > 0 ==> r.last() != ' ' && r.last() != '.'
        }),
{
    let l = legalized(name, true);
    lemma_without_dots(l);
    let p = plain_folder(name);
    assert forall|i: int| 0 <= i < p.len() implies !is_illegal(#[trigger] p[i]) && !is_control(
        p[i],
    ) by {
        assert(p[i] == l[i]);
    }
}

/// Law: a legal folder name that is no device is left as it is.
pub proof fn law_legal_folder_name_is_kept(name: Seq<char>, upper_case: Seq<char>)
    requires
        forall|i: int|
            0 <= i < name.len() ==> !is_illegal(#[trigger] name[i]) && !is_control(name[i]),
        name.len() > 0 ==> name.last() != ' ' && name.last() != '.',
        !is_reserved(upper_case),
    ensures
        folder_from(plain_folder(name), upper_case) == name,
{
    assert(legalized(name, true) == name);
}

proof fn lemma_kept(name: Seq<char>)
    requires
        is_safe_folder(name),
    ensures
        plain_folder(name) == name,
        folder_of(name) == name,
{
    assert(legalized(name, true) == name);
}

/// The names of devices are not empty and do not end in a `_`.
proof fn lemma_reserved(s: Seq<char>)
    ensures
        is_reserved(s) ==> s.len() > 0 && s.last() != '_',
{
    reveal_strlit("CON");
    reveal_strlit("PRN");
    reveal_strlit("AUX");
    reveal_strlit("NUL");
    reveal_strlit("COM1");
    reveal_strlit("COM2");
    reveal_strlit("COM3");
    reveal_strlit("COM4");
    reveal_strlit("COM5");
    reveal_strlit("COM6");
    reveal_strlit("COM7");
    reveal_strlit("COM8");
    reveal_strlit("COM9");
    reveal_strlit("LPT1");
    reveal_strlit("LPT2");
    reveal_strlit("LPT3");
    reveal_strlit("LPT4");
    reveal_strlit("LPT5");
    reveal_strlit("LPT6");
    reveal_strlit("LPT7");
    reveal_strlit("LPT8");
    reveal_strlit("LPT9");
}

proof fn lemma_blank(s: Seq<char>)
    requires
        is_blank_folder(s),
    ensures
        plain_folder(s).len() == 0,
{
    assert(legalized(s, true) == s) by {
        assert forall|i: int| 0 <= i < s.len() implies !is_illegal(#[trigger] s[i]) && !is_control(
            s[i],
        ) by {
            assert(s[i] == ' ' || s[i] == '.');
        }
    }
    lemma_all_dots(s);
}

proof fn lemma_all_dots(s: Seq<char>)
    requires
        is_blank_folder(s),
    ensures
        without_dots(s).len() == 0,
    decreases s.len(),
{
    if s.len() > 0 {
        assert(s.last() == s[s.len() - 1]);
        let d = s.drop_last();
        assert forall|i: int| 0 <= i < d.len() implies (#[trigger] d[i] == ' ' || d[i] == '.') by {
            assert(d[i] == s[i]);
        }
        lemma_all_dots(d);
    }
}

proof fn lemma_safe_folder_stays(name: Seq<char>)
    requires
        uppercase(plain_folder(name).push('_')) == uppercase(plain_folder(name)).push('_'),
    ensures
        is_safe_folder(folder_of(name)),
        folder_of(folder_of(name)) == folder_of(name),
{
    let up = uppercase(plain_folder(name));
    law_folder_name_is_legal(name, up);
    if is_reserved(up) {
        lemma_reserved(up.push('_'));
        assert(up.push('_').last() == '_');
    }
    lemma_kept(folder_of(name));
}

/// Why a chart could not be created.
#[derive(Clone, Copy, PartialEq, Eq, Structural, Debug)]
pub enum NewChartError {
    /// The name is blank.
    Blank,
    /// Nothing is left of the name.
    Illegal,
}

/// What is said about a chart that could not be created.
pub fn new_chart_message(e: NewChartError) -> (r: &'static str)
    ensures
        r@ == (match e {
            NewChartError::Blank => "谱名不能为空"@,
            NewChartError::Illegal => "谱名只包含非法字符,无法用作文件夹名"@,
        }),
{
    match e {
        NewChartError::Blank => "谱名不能为空",
        NewChartError::Illegal => "谱名只包含非法字符,无法用作文件夹名",
    }
}

/// The name of a new chart and that of its folder, as far as the name can be used.
pub fn new_chart_names(name: &str) -> (r: Result<(String, String), NewChartError>)
    ensures
        ({
            let t = trimmed(name@);
            let folder = folder_of(t);
            match r {
                Ok((n, f)) => t.len() > 0 && folder.len() > 0 && n@ == t && f@ == folder,
                Err(NewChartError::Blank) => t.len() == 0,
                Err(NewChartError::Illegal) => t.len() > 0 && folder.len() == 0,
            }
        }),
{
    let v: Vec<char> = chars_of(name);
    let tv: Vec<char> = trim(&v);
    let t: String = string_of(&tv);
    if t.as_str().is_empty() {
        return Err(NewChartError::Blank);
    }
    let folder: String = sanitize_folder_name(t.as_str());
    if folder.as_str().is_empty() {
        return Err(NewChartError::Illegal);
    }
    Ok((t, folder))
}

/// The `n`th name that is tried for a folder: the name itself, then with `-2`, `-3` and so on.
pub open spec fn candidate(base: Seq<char>, n: nat) -> Seq<char> {
    if n <= 1 {
        base
    } else {
        base + "-"@ + decimal(n)
    }
}

/// The `n`th name that is tried for a folder.
pub fn folder_candidate(base: &str, n: u32) -> (r: String)
    requires
        n >= 1,
    ensures
        r@ == candidate(base@, n as nat),
{
    let mut s: String = base.to_owned();
    if n > 1 {
        s.append("-");
        push_decimal(&mut s, n as u64);
    }
    s
}

proof fn lemma_decimal_value(n: nat)
    ensures
        crate::strings::digits_value(decimal(n)) == n,
        decimal(n).len() > 0,
    decreases n,
{
    if n < 10 {
        let s = decimal(n);
        assert(s.drop_last().len() == 0);
        assert(crate::strings::digits_value(s.drop_last()) == 0);
    } else {
        lemma_decimal_value(n / 10);
        let s = decimal(n);
        assert(s.drop_last() == decimal(n / 10));
        assert(s.last() == crate::strings::digit(n % 10));
    }
}

/// Law: no name is tried twice for a folder.
pub proof fn law_candidates_differ(base: Seq<char>, a: nat, b: nat)
    requires
        1 <= a < b,
    ensures
        candidate(base, a) != candidate(base, b),
{
    lemma_decimal_value(a);
    lemma_decimal_value(b);
    reveal_strlit("-");
    let x = candidate(base, a);
    let y = candidate(base, b);
    if x == y {
        if a <= 1 {
            assert(y.len() > base.len());
        } else {
            let k = (base.len() + 1) as int;
            assert(x.skip(k) == decimal(a));
            assert(y.skip(k) == decimal(b));
        }
    }
}

/// The place of the first name that is free from `i` on.
pub open spec fn first_free(taken: Seq<bool>, i: int) -> Option<int>
    decreases taken.len() - i,
{
    if i < 0 || i >= taken.len() {
        None
    } else if !taken[i] {
        Some(i)
    } else {
        first_free(taken, i + 1)
    }
}

/// Law: the name that is chosen is free, and every name that is tried before it is taken; where none is
/// chosen, all that were looked at are taken.
pub proof fn law_first_free(taken: Seq<bool>, i: int)
    requires
        0 <= i <= taken.len(),
    ensures
        match first_free(taken, i) {
            Some(k) => i <= k < taken.len() && !taken[k] && forall|j: int|
                i <= j < k ==> #[trigger] taken[j],
            None => forall|j: int| i <= j < taken.len() ==> #[trigger] taken[j],
        },
    decreases taken.len() - i,
{
    if i < taken.len() && taken[i] {
        law_first_free(taken, i + 1);
    }
}

/// The bits of 120 beats a minute.
pub const NEW_BPM: u64 = 0x405E_0000_0000_0000;

/// The version of the format that new charts are written in.
pub const NEW_VERSION: i32 = 160;

/// A new chart: its folder, what its info file says, and what its chart file holds. Numbers that are
/// not whole are held as their bits, of single precision in 32 and of double precision in 64 bits.
pub struct NewChart {
    pub folder: String,
    pub name: String,
    pub chart: String,
    pub difficulty: u32,
    pub level: String,
    pub charter: String,
    pub composer: String,
    pub illustrator: String,
    pub music: String,
    pub illustration: String,
    pub offset: i32,
    pub version: i32,
    /// The tempo changes: the beat and the tempo.
    pub bpm_list: Vec<(u64, u64)>,
    pub lines: Vec<NewLine>,
}

/// A line of a new chart, without notes: its name, its texture, how many layers of events it has, all
/// empty, and its depth.
pub struct NewLine {
    pub name: String,
    pub texture: String,
    pub layers: usize,
    pub is_cover: u8,
    pub z_order: i32,
}

/// Whether a chart is the new one of a name in a folder: one line without notes, 120 beats a minute from
/// the start, no offset, and nothing known but its name.
pub open spec fn is_new_chart(c: NewChart, name: Seq<char>, folder: Seq<char>) -> bool {
    &&& c.folder@ == folder
    &&& c.name@ == name
    &&& c.chart@ == "chart.json"@
    &&& c.difficulty == 0
    &&& c.level@.len() == 0
    &&& c.charter@.len() == 0
    &&& c.composer@.len() == 0
    &&& c.illustrator@.len() == 0
    &&& c.music@.len() == 0
    &&& c.illustration@.len() == 0
    &&& c.offset == 0
    &&& c.version == NEW_VERSION
    &&& c.bpm_list@ == seq![(0u64, NEW_BPM)]
    &&& c.lines@.len() == 1
    &&& c.lines@[0].name@ == "Main"@
    &&& c.lines@[0].texture@ == "line.png"@
    &&& c.lines@[0].layers == 1
    &&& c.lines@[0].is_cover == 0
    &&& c.lines@[0].z_order == 0
}

/// The new chart of a name. `taken` says of the names that are tried for its folder, in their order,
/// which are taken: its folder is the first that is free. Where all are taken it is `None`, and one
/// more has to be looked at.
pub fn create_new_chart(name: &str, taken: &[bool]) -> (r: Result<Option<NewChart>, NewChartError>)
    requires
        taken@.len() < u32::MAX,
    ensures
        ({
            let t = trimmed(name@);
            match r {
                Ok(c) => {
                    &&& t.len() > 0
                    &&& folder_of(t).len() > 0
                    &&& match (c, first_free(taken@, 0)) {
                        (Some(n), Some(k)) => is_new_chart(
                            n,
                            t,
                            candidate(folder_of(t), (k + 1) as nat),
                        ),
                        (None, None) => true,
                        _ => false,
                    }
                },
                Err(NewChartError::Blank) => t.len() == 0,
                Err(NewChartError::Illegal) => t.len() > 0 && folder_of(t).len() == 0,
            }
        }),
{
    let (title, base) = match new_chart_names(name) {
        Ok(p) => p,
        Err(e) => {
            return Err(e);
        },
    };
    let mut i: usize = 0;
    while i < taken.len() && taken[i]
        invariant
            i <= taken.len(),
            first_free(taken@, 0) == first_free(taken@, i as int),
        decreases taken.len() - i,
    {
        i = i + 1;
    }
    if i >= taken.len() {
        return Ok(None);
    }
    let line: NewLine = NewLine {
        name: "Main".to_owned(),
        texture: "line.png".to_owned(),
        layers: 1,
        is_cover: 0,
        z_order: 0,
    };
    let ghost only = line;
    let chart: NewChart = NewChart {
        folder: folder_candidate(base.as_str(), (i + 1) as u32),
        name: title,
        chart: "chart.json".to_owned(),
        difficulty: 0,
        level: String::new(),
        charter: String::new(),
        composer: String::new(),
        illustrator: String::new(),
        music: String::new(),
        illustration: String::new(),
        offset: 0,
        version: NEW_VERSION,
        bpm_list: vec![(0u64, NEW_BPM)],
        lines: vec![line],
    };
    assert(chart.bpm_list@ =~= seq![(0u64, NEW_BPM)]);
    assert(chart.lines@ =~= seq![only]);
    assert(first_free(taken@, i as int) == Some(i as int));
    assert(is_new_chart(
        chart,
        trimmed(name@),
        candidate(folder_of(trimmed(name@)), (i + 1) as nat),
    ));
    Ok(Some(chart))
}

/// The graphics interfaces that may be used.
#[derive(Clone, Copy, PartialEq, Eq, Structural, Debug)]
pub enum Backend {
    Dx12,
    Vulkan,
    Gl,
    All,
}

/// The graphics interface that the settings name; any, where they name none that is known.
pub fn backends_from_settings(backend: &Option<String>) -> (r: Backend)
    ensures
        r == (if optional(*backend) == Some("dx12"@) {
            Backend::Dx12
        } else if optional(*backend) == Some("vulkan"@) {
            Backend::Vulkan
        } else if optional(*backend) == Some("gl"@) {
            Backend::Gl
        } else {
            Backend::All
        }),
{
    match backend {
        Some(s) => if same(s.as_str(), "dx12") {
            Backend::Dx12
        } else if same(s.as_str(), "vulkan") {
            Backend::Vulkan
        } else if same(s.as_str(), "gl") {
            Backend::Gl
        } else {
            Backend::All
        },
        None => Backend::All,
    }
}

/// What the command line says: which argument names the chart, and which the library.
#[derive(Clone, Copy, PartialEq, Eq, Structural, Debug)]
pub struct Args {
    pub chart: Option<usize>,
    pub charts_dir: Option<usize>,
}

/// What the arguments from `i` on make of what was read before: the one behind the last
/// `--charts-dir` names the library, the first that does not begin with `--` the chart.
pub open spec fn args_from(args: Seq<Seq<char>>, i: int, so_far: Args) -> Args
    decreases args.len() - i,
{
    if i < 0 || i >= args.len() {
        so_far
    } else if args[i] == "--charts-dir"@ {
        if i + 1 < args.len() {
            args_from(
                args,
                i + 2,
                Args { charts_dir: Some((i + 1) as usize), ..so_far },
            )
        } else {
            Args { charts_dir: None, ..so_far }
        }
    } else if !begins(args[i], "--"@) && so_far.chart is None {
        args_from(args, i + 1, Args { chart: Some(i as usize), ..so_far })
    } else {
        args_from(args, i + 1, so_far)
    }
}

/// Reads the command line, without the name of the program.
pub fn parse_args(args: &Vec<String>) -> (r: Args)
    ensures
        r == args_from(texts(args@), 0, Args { chart: None, charts_dir: None }),
{
    let mut out: Args = Args { chart: None, charts_dir: None };
    let mut i: usize = 0;
    let ghost all = texts(args@);
    let ghost want = args_from(all, 0, Args { chart: None, charts_dir: None });
    while i < args.len()
        invariant
            i <= args@.len(),
            all == texts(args@),
            want == args_from(all, 0, Args { chart: None, charts_dir: None }),
            want == args_from(all, i as int, out),
        decreases args.len() - i,
    {
        let a: &str = args[i].as_str();
        proof {
            assert(all[i as int] == a@);
        }
        if same(a, "--charts-dir") {
            if i + 1 < args.len() {
                out = Args { charts_dir: Some(i + 1), ..out };
                i = i + 2;
            } else {
                return Args { charts_dir: None, ..out };
            }
        } else {
            if !starts_with(a, "--") && out.chart.is_none() {
                out = Args { chart: Some(i), ..out };
            }
            i = i + 1;
        }
    }
    out
}

/// The path of a package's entry below the directory that holds the chart, part by part; the whole
/// path where the entry lies elsewhere.
pub open spec fn below(parts: Seq<Seq<char>>, root: Seq<Seq<char>>) -> Seq<Seq<char>> {
    if parts.len() >= root.len() && parts.take(root.len() as int) == root {
        parts.skip(root.len() as int)
    } else {
        parts
    }
}

/// Where an entry of a package goes in the chart's directory: nowhere for a directory, and for the
/// entry that is the chart's directory itself.
pub fn import_path(parts: &[String], root: &[String], is_dir: bool) -> (r: Option<Vec<String>>)
    ensures
        r is Some <==> !is_dir && below(texts(parts@), texts(root@)).len() > 0,
        r matches Some(p) ==> texts(p@) == below(texts(parts@), texts(root@)),
{
    if is_dir {
        return None;
    }
    let ghost ps = texts(parts@);
    let ghost rs = texts(root@);
    let mut from: usize = 0;
    if parts.len() >= root.len() {
        let mut i: usize = 0;
        while i < root.len() && same(parts[i].as_str(), root[i].as_str())
            invariant
                i <= root.len() <= parts.len(),
                ps == texts(parts@),
                rs == texts(root@),
                ps.take(i as int) == rs.take(i as int),
            decreases root.len() - i,
        {
            assert(ps.take(i + 1) =~= ps.take(i as int).push(parts@[i as int]@));
            assert(rs.take(i + 1) =~= rs.take(i as int).push(root@[i as int]@));
            i = i + 1;
        }
        if i == root.len() {
            assert(rs.take(rs.len() as int) =~= rs);
            from = i;
        } else {
            assert(ps.take(rs.len() as int)[i as int] == parts@[i as int]@);
            assert(rs[i as int] == root@[i as int]@);
        }
    }
    proof {
        assert(ps.skip(0) =~= ps);
    }
    let ghost want = below(ps, rs);
    assert(want == ps.skip(from as int));
    let mut out: Vec<String> = Vec::new();
    let mut k: usize = from;
    assert(texts(out@) =~= want.take(0));
    while k < parts.len()
        invariant
            from <= k <= parts.len(),
            ps == texts(parts@),
            want == ps.skip(from as int),
            texts(out@) == want.take(k - from),
        decreases parts.len() - k,
    {
        let ghost before = texts(out@);
        out.push(parts[k].clone());
        assert(texts(out@) =~= before.push(parts@[k as int]@));
        assert(want.take(k + 1 - from) =~= want.take(k - from).push(parts@[k as int]@));
        k = k + 1;
    }
    assert(want.take(want.len() as int) =~= want);
    assert(texts(out@).len() == out@.len());
    if out.len() > 0 {
        Some(out)
    } else {
        None
    }
}

/// Law: the settings lie where the system keeps them: the first of the three directories that is set
/// decides, and the name of the program is the last part.
pub proof fn law_settings_directory(
    appdata: Option<Seq<char>>,
    xdg: Option<Seq<char>>,
    home: Option<Seq<char>>,
)
    ensures
        ({
            let r = config_parts(appdata, xdg, home);
            &&& appdata is Some ==> r == seq![appdata->0, "PhiMakor"@]
            &&& appdata is None && xdg is Some ==> r == seq![xdg->0, "phimakor"@]
            &&& appdata is None && xdg is None && home is Some ==> r == seq![
                home->0,
                ".config"@,
                "phimakor"@,
            ]
            &&& appdata is None && xdg is None && home is None ==> r == seq!["."@, "phimakor"@]
        }),
{
}

/// Law: the documents directory is the one that the system names, else `Documents` in the first user's
/// directory that is known.
pub proof fn law_documents_directory(
    known: Option<Seq<char>>,
    profile: Option<Seq<char>>,
    home: Option<Seq<char>>,
)
    ensures
        ({
            let r = documents_parts(known, profile, home);
            &&& known is Some ==> r == seq![known->0]
            &&& known is None && profile is Some ==> r == seq![profile->0, "Documents"@]
            &&& known is None && profile is None && home is Some ==> r == seq![
                home->0,
                "Documents"@,
            ]
            &&& known is None && profile is None && home is None ==> r == seq!["."@, "Documents"@]
        }),
{
}

/// Law: three names are those of info files, and no other.
pub proof fn law_info_names(n: Seq<char>)
    ensures
        is_info_name(n) <==> seq!["info.json"@, "info.yml"@, "info.txt"@].contains(n),
{
    let all = seq!["info.json"@, "info.yml"@, "info.txt"@];
    assert(all[0] == "info.json"@ && all[1] == "info.yml"@ && all[2] == "info.txt"@);
}

/// Law: nine characters are illegal in a name.
pub proof fn law_illegal_characters(c: char)
    ensures
        is_illegal(c) <==> seq!['"', '*', '/', ':', '<', '>', '?', '\\', '|'].contains(c),
{
    let all = seq!['"', '*', '/', ':', '<', '>', '?', '\\', '|'];
    assert(all[0] == '"' && all[1] == '*' && all[2] == '/' && all[3] == ':' && all[4] == '<' && all[5]
        == '>' && all[6] == '?' && all[7] == '\\' && all[8] == '|');
}

/// Law: an illegal character becomes a `_` in its place, a control character where that is asked for,
/// and every other character stays.
pub proof fn law_legalized(s: Seq<char>, control: bool, i: int)
    requires
        0 <= i < s.len(),
    ensures
        legalized(s, control).len() == s.len(),
        is_illegal(s[i]) ==> legalized(s, control)[i] == '_',
        control && ((s[i] as u32) < 32 || 127 <= s[i] as u32 <= 159) ==> legalized(s, control)[i]
            == '_',
        !is_illegal(s[i]) && (!control || !((s[i] as u32) < 32 || 127 <= s[i] as u32 <= 159))
            ==> legalized(s, control)[i] == s[i],
{
}

/// Law: a package bears the name of the chart without white space around it, as far as files may bear it;
/// a chart without a name that of its directory; and one with neither is called `chart`.
pub proof fn law_package_name(name: Seq<char>, dir: Seq<char>)
    ensures
        trimmed(name).len() > 0 ==> package_name(name, dir).len() == trimmed(name).len(),
        trimmed(name).len() > 0 ==> forall|i: int|
            0 <= i < trimmed(name).len() ==> #[trigger] package_name(name, dir)[i] == (if is_illegal(
                trimmed(name)[i],
            ) {
                '_'
            } else {
                trimmed(name)[i]
            }),
        trimmed(name).len() == 0 && dir.len() > 0 ==> package_name(name, dir) == dir,
        trimmed(name).len() == 0 && dir.len() == 0 ==> package_name(name, dir) == "chart"@,
{
}

/// Law: a chart was not written to the end where its backup is newer than it, or is all that is left; a
/// chart that is as new as its backup, or newer, was.
pub proof fn law_broken_charts(main: u64, backup: u64, b: Backup)
    ensures
        is_broken(Backup { has_backup: true, main: Some(main), backup: Some(backup) }) <==> main
            < backup,
        is_broken(Backup { has_backup: true, main: None, backup: Some(backup) }),
        !b.has_backup ==> !is_broken(b),
        b.backup is None ==> !is_broken(b),
{
}

/// Law: the upper case of an ASCII letter is the letter at the same place of the other alphabet, and it
/// is its own upper case.
pub proof fn law_upper_case(c: char)
    ensures
        'a' <= c <= 'z' ==> 'A' <= upper(c) <= 'Z' && upper(c) as int - 'A' as int == c as int
            - 'a' as int,
        !('a' <= c <= 'z') ==> upper(c) == c,
        upper(upper(c)) == upper(c),
{
    if 'a' <= c <= 'z' {
        assert((c as u32 - 32) as char as int == c as int - 32);
    }
}

/// Law: the label of a difficulty is its tag; without one its number; and without that the name of its
/// directory.
pub proof fn law_labels(tag: Seq<char>, number: Seq<char>, dir: Seq<char>)
    ensures
        tag.len() > 0 ==> label_of(tag, Some(number), dir) == tag && label_of(tag, None, dir) == tag,
        tag.len() == 0 ==> label_of(tag, Some(number), dir) == number,
        tag.len() == 0 ==> label_of(tag, None, dir) == dir,
{
}

/// Law: single-precision numbers rank as they do by value: negative ones below zero, both zeros together,
/// positive ones by their bits, negative ones against them.
pub proof fn law_ranks_of_numbers(a: u32, b: u32)
    ensures
        a < b < 0x8000_0000 ==> rank32(a) < rank32(b),
        0x8000_0000 <= a < b ==> rank32(b) < rank32(a),
        0 < a < 0x8000_0000 ==> rank32(0) < rank32(a),
        0x8000_0000 < b ==> rank32(b) < rank32(0),
        rank32(0x8000_0000) == rank32(0),
        a < 0x8000_0000 && b < 0x8000_0000 ==> (rank32(a) == rank32(b) <==> a == b),
{
}

/// Law: the subdirectories that count are the charts with a name that is not blank, each once and in their
/// order.
pub proof fn law_counted(ds: Seq<DiffDir>, n: int, i: int)
    requires
        0 <= i < n <= ds.len() <= usize::MAX,
    ensures
        counted(ds, n).contains(i as usize) <==> ds[i].is_chart && ds[i].name is Some && trimmed(
            ds[i].name->0@,
        ).len() > 0,
    decreases n,
{
    lemma_counted(ds, n - 1);
    let before = counted(ds, n - 1);
    let now = counted(ds, n);
    if i < n - 1 {
        law_counted(ds, n - 1, i);
        if before.contains(i as usize) {
            let p = choose|p: int| 0 <= p < before.len() && before[p] == i as usize;
            assert(now[p] == i as usize);
        }
        if now.contains(i as usize) {
            let p = choose|p: int| 0 <= p < now.len() && now[p] == i as usize;
            if p < before.len() {
                assert(before[p] == i as usize);
            }
        }
    } else {
        if now.len() > before.len() {
            assert(now[before.len() as int] == i as usize);
        }
        if now.contains(i as usize) {
            let p = choose|p: int| 0 <= p < now.len() && now[p] == i as usize;
            if p < before.len() {
                assert(before[p] < n - 1);
            }
        }
    }
}

/// Law: spaces and full stops at the end of a folder name fall away one by one, and nothing else does.
pub proof fn law_dots_fall_away(s: Seq<char>, c: char)
    ensures
        c == ' ' || c == '.' ==> without_dots(s.push(c)) == without_dots(s),
        c != ' ' && c != '.' ==> without_dots(s.push(c)) == s.push(c),
{
    assert(s.push(c).drop_last() =~= s);
}

/// Law: the names of devices are those that Windows keeps, and no other; a folder that would bear one
/// gets a `_` behind its name.
pub proof fn law_devices(s: Seq<char>, plain: Seq<char>)
    ensures
        is_reserved(s) <==> seq![
            "AUX"@,
            "CON"@,
            "NUL"@,
            "PRN"@,
            "COM1"@,
            "COM2"@,
            "COM3"@,
            "COM4"@,
            "COM5"@,
            "COM6"@,
            "COM7"@,
            "COM8"@,
            "COM9"@,
            "LPT1"@,
            "LPT2"@,
            "LPT3"@,
            "LPT4"@,
            "LPT5"@,
            "LPT6"@,
            "LPT7"@,
            "LPT8"@,
            "LPT9"@,
        ].contains(s),
        is_reserved(s) ==> folder_from(plain, s) == plain.push('_'),
        !is_reserved(s) ==> folder_from(plain, s) == plain,
{
    let all = seq![
        "AUX"@,
        "CON"@,
        "NUL"@,
        "PRN"@,
        "COM1"@,
        "COM2"@,
        "COM3"@,
        "COM4"@,
        "COM5"@,
        "COM6"@,
        "COM7"@,
        "COM8"@,
        "COM9"@,
        "LPT1"@,
        "LPT2"@,
        "LPT3"@,
        "LPT4"@,
        "LPT5"@,
        "LPT6"@,
        "LPT7"@,
        "LPT8"@,
        "LPT9"@,
    ];
    assert(all[0] == "AUX"@ && all[1] == "CON"@ && all[2] == "NUL"@ && all[3] == "PRN"@);
    assert(all[4] == "COM1"@ && all[5] == "COM2"@ && all[6] == "COM3"@ && all[7] == "COM4"@ && all[8]
        == "COM5"@ && all[9] == "COM6"@ && all[10] == "COM7"@ && all[11] == "COM8"@ && all[12]
        == "COM9"@);
    assert(all[13] == "LPT1"@ && all[14] == "LPT2"@ && all[15] == "LPT3"@ && all[16] == "LPT4"@
        && all[17] == "LPT5"@ && all[18] == "LPT6"@ && all[19] == "LPT7"@ && all[20] == "LPT8"@
        && all[21] == "LPT9"@);
}

/// Law: the first name that is tried for a folder is the name itself; every later one is the name, a hyphen
/// and the number of the try.
pub proof fn law_candidates_are_numbered(base: Seq<char>, n: nat)
    ensures
        candidate(base, 1) == base,
        n >= 2 ==> candidate(base, n).len() > base.len() + 1,
        n >= 2 ==> candidate(base, n).take(base.len() as int) == base,
        n >= 2 ==> candidate(base, n)[base.len() as int] == '-',
        n >= 2 ==> crate::strings::digits_value(candidate(base, n).skip((base.len() + 1) as int)) == n,
{
    reveal_strlit("-");
    if n >= 2 {
        lemma_decimal_value(n);
        let c = candidate(base, n);
        assert(c.take(base.len() as int) =~= base);
        assert(c.skip((base.len() + 1) as int) =~= decimal(n));
    }
}

/// Law: a new chart holds one line without notes, at 120 beats a minute from its first beat on, in the
/// format of version 160, and names no song, picture or people.
pub proof fn law_new_charts(c: NewChart, name: Seq<char>, folder: Seq<char>)
    requires
        is_new_chart(c, name, folder),
    ensures
        c.name@ == name && c.folder@ == folder,
        c.version == 160,
        c.bpm_list@.len() == 1 && c.bpm_list@[0] == (0u64, 0x405E_0000_0000_0000u64),
        c.offset == 0 && c.difficulty == 0,
        c.chart@ == "chart.json"@,
        c.lines@.len() == 1 && c.lines@[0].layers == 1 && c.lines@[0].z_order == 0,
        c.lines@[0].name@ == "Main"@ && c.lines@[0].texture@ == "line.png"@ && c.lines@[0].is_cover
            == 0,
        c.level@.len() == 0 && c.charter@.len() == 0 && c.composer@.len() == 0
            && c.illustrator@.len() == 0 && c.music@.len() == 0 && c.illustration@.len() == 0,
{
}

/// Law: the chart on the command line is an argument that does not begin with two hyphens, and the
/// library one that stands behind `--charts-dir`; what was read before stays where nothing replaces it.
pub proof fn law_arguments(args: Seq<Seq<char>>, i: int, so_far: Args)
    requires
        0 <= i,
        args.len() <= usize::MAX,
    ensures
        ({
            let r = args_from(args, i, so_far);
            &&& so_far.chart is Some ==> r.chart == so_far.chart
            &&& so_far.chart is None && r.chart is Some ==> i <= r.chart->0 < args.len() && !begins(
                args[r.chart->0 as int],
                "--"@,
            )
            &&& r.charts_dir is Some && r.charts_dir != so_far.charts_dir ==> i < r.charts_dir->0
                < args.len() && args[r.charts_dir->0 - 1] == "--charts-dir"@
        }),
    decreases args.len() - i,
{
    if i < args.len() {
        if args[i] == "--charts-dir"@ {
            if i + 1 < args.len() {
                let next = Args { charts_dir: Some((i + 1) as usize), ..so_far };
                law_arguments(args, i + 2, next);
            }
        } else if !begins(args[i], "--"@) && so_far.chart is None {
            law_arguments(args, i + 1, Args { chart: Some(i as usize), ..so_far });
        } else {
            law_arguments(args, i + 1, so_far);
        }
    }
}

/// Law: the arguments name a chart, a library, or both in either order; of two charts the first counts.
pub proof fn law_forms_of_arguments(chart: Seq<char>, other: Seq<char>, dir: Seq<char>)
    requires
        !begins(chart, "--"@),
        !begins(other, "--"@),
    ensures
        ({
            let none = Args { chart: None, charts_dir: None };
            let opt = "--charts-dir"@;
            &&& args_from(Seq::empty(), 0, none) == none
            &&& args_from(seq![chart], 0, none) == (Args { chart: Some(0), charts_dir: None })
            &&& args_from(seq![chart, other], 0, none) == (Args { chart: Some(0), charts_dir: None })
            &&& args_from(seq![opt, dir], 0, none) == (Args { chart: None, charts_dir: Some(1) })
            &&& args_from(seq![opt, dir, chart], 0, none) == (Args {
                chart: Some(2),
                charts_dir: Some(1),
            })
            &&& args_from(seq![chart, opt, dir], 0, none) == (Args {
                chart: Some(0),
                charts_dir: Some(2),
            })
            &&& args_from(seq![opt], 0, none) == none
        }),
{
    reveal_with_fuel(args_from, 4);
    reveal_strlit("--charts-dir");
    reveal_strlit("--");
    let opt = "--charts-dir"@;
    assert(begins(opt, "--"@)) by {
        assert(opt[0] == '-' && opt[1] == '-');
        assert(opt.take(2) =~= "--"@);
    }
    assert(chart != opt && other != opt);
}

/// Law: an entry below the chart's directory is put into the chart's directory by the rest of its path, and
/// one that lies elsewhere by all of it.
pub proof fn law_path_below(root: Seq<Seq<char>>, rest: Seq<Seq<char>>, parts: Seq<Seq<char>>)
    ensures
        below(root + rest, root) == rest,
        root.len() > 0 && parts.len() > 0 && parts[0] != root[0] ==> below(parts, root) == parts,
        parts.len() < root.len() ==> below(parts, root) == parts,
{
    assert((root + rest).take(root.len() as int) =~= root);
    assert((root + rest).skip(root.len() as int) =~= rest);
    if root.len() > 0 && parts.len() >= root.len() && parts.take(root.len() as int) == root {
        assert(parts.take(root.len() as int)[0] == root[0]);
    }
}

/// Law: difficulties are listed from the lowest up, and those of one number in the order of their labels.
pub proof fn law_difficulties_ascend(ds: Seq<DiffDir>, r: Seq<usize>, i: int, j: int)
    requires
        by_difficulty(ds, r),
        0 <= i < j < r.len(),
    ensures
        rank32(ds[r[i] as int].difficulty) <= rank32(ds[r[j] as int].difficulty),
        rank32(ds[r[i] as int].difficulty) == rank32(ds[r[j] as int].difficulty) ==> text_le(
            ds[r[i] as int].label@,
            ds[r[j] as int].label@,
        ),
        ds[r[i] as int].difficulty < 0x8000_0000 && ds[r[j] as int].difficulty < 0x8000_0000
            ==> ds[r[i] as int].difficulty <= ds[r[j] as int].difficulty,
{
    let a = ds[r[i] as int];
    let b = ds[r[j] as int];
    law_ranks_of_numbers(b.difficulty, a.difficulty);
}

/// Law: the info file that counts is one that lies least deep, and of these the first.
pub proof fn law_root_of_a_package(es: Seq<ZipEntry>, k: int, j: int)
    requires
        is_root_entry(es, k),
        0 <= j < es.len(),
        seq!["info.json"@, "info.yml"@, "info.txt"@].contains(es[j].file_name@),
    ensures
        es[k].depth <= es[j].depth,
        es[k].depth == es[j].depth ==> k <= j,
        seq!["info.json"@, "info.yml"@, "info.txt"@].contains(es[k].file_name@),
{
    law_info_names(es[j].file_name@);
    law_info_names(es[k].file_name@);
    assert(is_info_name(es[j].file_name@));
}

/// Law: a song has several difficulties only where all its charts bear one name.
pub proof fn law_one_name(ds: Seq<DiffDir>, n: int, i: int, j: int)
    requires
        one_name(ds, n),
        0 <= i < n,
        0 <= j < n,
        ds[i].is_chart && ds[j].is_chart,
        ds[i].name is Some && ds[j].name is Some,
        trimmed(ds[i].name->0@).len() > 0 && trimmed(ds[j].name->0@).len() > 0,
    ensures
        ds[i].name->0@ == ds[j].name->0@,
{
    assert(counts(ds[i]) && counts(ds[j]));
}

/// Law: what is made of a name is a folder that every system takes: no illegal and no control character
/// in it, no space or full stop at its end, and no device.
pub proof fn law_safe_folders(s: Seq<char>, i: int)
    requires
        is_safe_folder(s),
        0 <= i < s.len(),
    ensures
        s[i] != '/' && s[i] != '\\' && s[i] != ':' && s[i] != '*' && s[i] != '?' && s[i] != '"' && s[i]
            != '<' && s[i] != '>' && s[i] != '|',
        s[i] as u32 >= 32,
        s.last() != ' ' && s.last() != '.',
        uppercase(s) != "CON"@ && uppercase(s) != "NUL"@ && uppercase(s) != "COM1"@ && uppercase(s)
            != "LPT9"@,
{
}

} // verus!
