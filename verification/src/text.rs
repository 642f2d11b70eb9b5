//! Text lines: anchors, the cache of rasterized lines, and their pixels.

use vstd::prelude::*;

use crate::strings::{all_digits, chars_of, same};

verus! {

/// How many rasterized lines are kept.
pub const TEXT_CACHE_CAP: usize = 1024;

/// Where a line of text stands.
#[derive(Clone, Copy, PartialEq, Eq, Structural, Debug)]
pub enum TextAnchor {
    TopLeft,
    TopCenter,
    BottomLeft,
    BottomRight,
    TopRight,
    /// At the top right of the window.
    TopRightEdge,
    /// At the bottom left of the window.
    BottomLeftEdge,
    /// At the bottom right of the window.
    BottomRightEdge,
    /// Below the combo number.
    ComboLabel,
    /// At a place of its own, turned with its line.
    World,
}

/// How a line is aligned to its anchor.
#[derive(Clone, Copy, PartialEq, Eq, Structural, Debug)]
pub enum HAlign {
    Left,
    Center,
    Right,
}

impl TextAnchor {
    /// Whether the anchor hugs an edge of the window rather than of the playfield.
    pub fn is_viewport_edge(self) -> (r: bool)
        ensures
            r == (self == TextAnchor::BottomLeftEdge || self == TextAnchor::BottomRightEdge || self
                == TextAnchor::TopRightEdge),
    {
        matches!(
            self,
            TextAnchor::BottomLeftEdge | TextAnchor::BottomRightEdge | TextAnchor::TopRightEdge
        )
    }

    /// The number of an anchor in the key of a cached line.
    pub open spec fn number(self) -> u8 {
        match self {
            TextAnchor::TopLeft => 0,
            TextAnchor::TopCenter => 1,
            TextAnchor::BottomLeft => 2,
            TextAnchor::BottomRight => 3,
            TextAnchor::TopRight => 4,
            TextAnchor::TopRightEdge => 5,
            TextAnchor::BottomLeftEdge => 6,
            TextAnchor::BottomRightEdge => 7,
            TextAnchor::ComboLabel => 8,
            TextAnchor::World => 9,
        }
    }

    /// The number of an anchor in the key of a cached line.
    pub fn code(self) -> (r: u8)
        ensures
            r == self.number(),
    {
        match self {
            TextAnchor::TopLeft => 0,
            TextAnchor::TopCenter => 1,
            TextAnchor::BottomLeft => 2,
            TextAnchor::BottomRight => 3,
            TextAnchor::TopRight => 4,
            TextAnchor::TopRightEdge => 5,
            TextAnchor::BottomLeftEdge => 6,
            TextAnchor::BottomRightEdge => 7,
            TextAnchor::ComboLabel => 8,
            TextAnchor::World => 9,
        }
    }

    /// The height in pixels at which lines of an anchor are rasterized, and their alignment.
    pub open spec fn form(self) -> (u32, HAlign) {
        match self {
            TextAnchor::TopLeft => (36, HAlign::Left),
            TextAnchor::TopCenter => (56, HAlign::Center),
            TextAnchor::BottomLeft => (30, HAlign::Left),
            TextAnchor::BottomRight => (30, HAlign::Right),
            TextAnchor::TopRight => (36, HAlign::Right),
            TextAnchor::TopRightEdge => (22, HAlign::Right),
            TextAnchor::BottomLeftEdge => (30, HAlign::Left),
            TextAnchor::BottomRightEdge => (30, HAlign::Right),
            TextAnchor::ComboLabel => (26, HAlign::Center),
            TextAnchor::World => (28, HAlign::Center),
        }
    }

    /// The height in pixels at which lines of an anchor are rasterized, and their alignment.
    pub fn layout(self) -> (r: (u32, HAlign))
        ensures
            r == self.form(),
    {
        match self {
            TextAnchor::TopLeft => (36, HAlign::Left),
            TextAnchor::TopCenter => (56, HAlign::Center),
            TextAnchor::BottomLeft => (30, HAlign::Left),
            TextAnchor::BottomRight => (30, HAlign::Right),
            TextAnchor::TopRight => (36, HAlign::Right),
            TextAnchor::TopRightEdge => (22, HAlign::Right),
            TextAnchor::BottomLeftEdge => (30, HAlign::Left),
            TextAnchor::BottomRightEdge => (30, HAlign::Right),
            TextAnchor::ComboLabel => (26, HAlign::Center),
            TextAnchor::World => (28, HAlign::Center),
        }
    }
}

/// Law: no two anchors share a number, so lines of different anchors are cached apart.
pub proof fn law_anchor_numbers_differ(a: TextAnchor, b: TextAnchor)
    requires
        a.number() == b.number(),
    ensures
        a == b,
{
}

/// Whether a text is a number: digits only, at least one.
pub fn is_digits(text: &str) -> (r: bool)
    ensures
        r == all_digits(text@),
{
    let v: Vec<char> = chars_of(text);
    if v.len() == 0 {
        return false;
    }
    let mut i: usize = 0;
    while i < v.len()
        invariant
            v@ == text@,
            i <= v.len(),
            forall|j: int| 0 <= j < i ==> crate::strings::is_digit(#[trigger] v@[j]),
        decreases v.len() - i,
    {
        if !('0' <= v[i] && v[i] <= '9') {
            return false;
        }
        i = i + 1;
    }
    true
}

/// A key of a cached line: its text and the number of its anchor.
pub open spec fn key_view(k: (String, u8)) -> (Seq<char>, u8) {
    (k.0@, k.1)
}

/// The keys of a list.
pub open spec fn keys_view(v: Seq<(String, u8)>) -> Seq<(Seq<char>, u8)> {
    v.map_values(|k: (String, u8)| key_view(k))
}

/// The first place of a key, from `from` on.
pub open spec fn key_at(v: Seq<(Seq<char>, u8)>, k: (Seq<char>, u8), from: int) -> Option<int>
    decreases v.len() - from,
{
    if from >= v.len() {
        None
    } else if v[from] == k {
        Some(from)
    } else {
        key_at(v, k, from + 1)
    }
}

proof fn lemma_key_at(v: Seq<(Seq<char>, u8)>, k: (Seq<char>, u8), from: int)
    requires
        0 <= from,
    ensures
        match key_at(v, k, from) {
            Some(i) => from <= i < v.len() && v[i] == k,
            None => forall|j: int| from <= j < v.len() ==> #[trigger] v[j] != k,
        },
    decreases v.len() - from,
{
    if from < v.len() && v[from] != k {
        lemma_key_at(v, k, from + 1);
    }
}

fn find_key(v: &Vec<(String, u8)>, text: &str, code: u8) -> (r: Option<usize>)
    ensures
        match r {
            Some(i) => i < v.len() && key_at(keys_view(v@), (text@, code), 0) == Some(i as int),
            None => key_at(keys_view(v@), (text@, code), 0) is None,
        },
{
    let mut i: usize = 0;
    while i < v.len()
        invariant
            i <= v.len(),
            key_at(keys_view(v@), (text@, code), i as int) == key_at(
                keys_view(v@),
                (text@, code),
                0,
            ),
        decreases v.len() - i,
    {
        if v[i].1 == code && same(v[i].0.as_str(), text) {
            return Some(i);
        }
        i = i + 1;
    }
    None
}

/// A recency list after a hit: the key moved to the end, where it is there.
pub open spec fn touched(v: Seq<(Seq<char>, u8)>, k: (Seq<char>, u8)) -> Seq<(Seq<char>, u8)> {
    match key_at(v, k, 0) {
        Some(i) => v.remove(i).push(k),
        None => v,
    }
}

/// Moves a key to the end of a recency list, where it is there.
pub fn lru_touch(access: &mut Vec<(String, u8)>, key: &(String, u8))
    ensures
        keys_view(final(access)@) == touched(keys_view(old(access)@), key_view(*key)),
{
    let ghost before = keys_view(access@);
    proof {
        lemma_key_at(before, key_view(*key), 0);
    }
    if let Some(i) = find_key(access, key.0.as_str(), key.1) {
        let ghost all = access@;
        let removed: (String, u8) = access.remove(i);
        proof {
            assert(keys_view(all.remove(i as int)) == before.remove(i as int));
        }
        let ghost less = access@;
        let again: (String, u8) = (key.0.clone(), key.1);
        access.push(again);
        proof {
            assert(keys_view(less.push(again)) == keys_view(less).push(key_view(again)));
        }
    }
}

/// Takes the oldest key off a recency list that has reached `cap`.
pub fn lru_evict_oldest(access: &mut Vec<(String, u8)>, cap: usize) -> (r: Option<(String, u8)>)
    requires
        cap > 0 || old(access)@.len() > 0,
    ensures
        if old(access)@.len() >= cap {
            r == Some(old(access)@[0]) && final(access)@ == old(access)@.skip(1)
        } else {
            r is None && final(access)@ == old(access)@
        },
{
    if access.len() >= cap {
        let ghost before = access@;
        let k: (String, u8) = access.remove(0);
        proof {
            assert(before.remove(0) == before.skip(1));
        }
        Some(k)
    } else {
        None
    }
}

/// A rasterized line: its key and the number by which its image is found.
pub struct CachedText {
    pub key: (String, u8),
    pub image: u64,
}

/// The keys of rasterized lines.
pub open spec fn cached_keys(v: Seq<CachedText>) -> Seq<(Seq<char>, u8)> {
    v.map_values(|c: CachedText| key_view(c.key))
}

/// The rasterized lines, and the order in which they were last used.
pub struct TextState {
    cache: Vec<CachedText>,
    access: Vec<(String, u8)>,
}

/// How a line that is asked for is come by.
#[derive(Clone, Copy, PartialEq, Eq, Structural, Debug)]
pub enum Lookup {
    /// A number: composed of digits, never cached.
    Digits,
    /// The image that is cached.
    Cached(u64),
    /// To be rasterized, and then inserted.
    Missing,
}

impl TextState {
    /// The keys from the least to the most recently used.
    pub closed spec fn recency(&self) -> Seq<(Seq<char>, u8)> {
        keys_view(self.access@)
    }

    /// The image under each key.
    pub closed spec fn images(&self) -> Map<(Seq<char>, u8), u64> {
        images_of(self.cache@)
    }

    /// The recency list and the cache hold the same keys, each once, and no more than the cap.
    pub closed spec fn wf(&self) -> bool {
        &&& self.recency().no_duplicates()
        &&& cached_keys(self.cache@).no_duplicates()
        &&& self.access@.len() == self.cache@.len()
        &&& self.access@.len() <= TEXT_CACHE_CAP
        &&& forall|k: (Seq<char>, u8)| #[trigger]
            self.recency().contains(k) <==> cached_keys(self.cache@).contains(k)
    }

    /// No line yet.
    pub fn new() -> (r: TextState)
        ensures
            r.wf(),
            r.recency() == Seq::<(Seq<char>, u8)>::empty(),
            r.images() == Map::<(Seq<char>, u8), u64>::empty(),
    {
        let r: TextState = TextState { cache: Vec::new(), access: Vec::new() };
        proof {
            assert(keys_view(r.access@) == Seq::<(Seq<char>, u8)>::empty());
            assert(cached_keys(r.cache@) == Seq::<(Seq<char>, u8)>::empty());
            assert(images_of(r.cache@) == Map::<(Seq<char>, u8), u64>::empty());
        }
        r
    }

    /// How many lines are cached.
    pub fn len(&self) -> (n: usize)
        requires
            self.wf(),
        ensures
            n == self.recency().len(),
            n <= TEXT_CACHE_CAP,
            n <= 1024,
    {
        self.cache.len()
    }

    /// Looks a line up; a hit makes it the most recently used.
    pub fn lookup(&mut self, text: &str, anchor: TextAnchor) -> (r: Lookup)
        requires
            old(self).wf(),
        ensures
            final(self).wf(),
            final(self).images() == old(self).images(),
            ({
                let k = (text@, anchor.number());
                if all_digits(text@) {
                    r == Lookup::Digits && final(self).recency() == old(self).recency()
                } else if old(self).images().dom().contains(k) {
                    r == Lookup::Cached(old(self).images()[k]) && final(self).recency() == touched(
                        old(self).recency(),
                        k,
                    )
                } else {
                    r == Lookup::Missing && final(self).recency() == old(self).recency()
                }
            }),
    {
        if is_digits(text) {
            return Lookup::Digits;
        }
        let code: u8 = anchor.code();
        let ghost k = (text@, code);
        let mut i: usize = 0;
        while i < self.cache.len()
            invariant
                i <= self.cache.len(),
                *self == *old(self),
                self.wf(),
                !all_digits(text@),
                code == anchor.number(),
                k == (text@, code),
                forall|j: int| 0 <= j < i ==> cached_keys(self.cache@)[j] != k,
            decreases self.cache.len() - i,
        {
            if self.cache[i].key.1 == code && same(self.cache[i].key.0.as_str(), text) {
                let image: u64 = self.cache[i].image;
                proof {
                    assert(cached_keys(self.cache@)[i as int] == k);
                    lemma_images(self.cache@, i as int);
                    lemma_touched(self.recency(), k);
                }
                let key: (String, u8) = (text.to_owned(), code);
                let ghost before = self.recency();
                lru_touch(&mut self.access, &key);
                proof {
                    assert(self.recency() == touched(before, k));
                    assert(self.access@.len() == keys_view(self.access@).len());
                }
                return Lookup::Cached(image);
            }
            i = i + 1;
        }
        proof {
            lemma_images_dom(self.cache@, k);
        }
        Lookup::Missing
    }

    /// Puts in a line that was missing, as the most recently used. Where the cache is full, the
    /// least recently used line goes; its image is returned.
    pub fn insert(&mut self, text: &str, anchor: TextAnchor, image: u64) -> (r: Option<u64>)
        requires
            old(self).wf(),
            !old(self).recency().contains((text@, anchor.number())),
        ensures
            final(self).wf(),
            ({
                let k = (text@, anchor.number());
                let full = old(self).recency().len() >= TEXT_CACHE_CAP;
                let oldest = old(self).recency()[0];
                if full {
                    &&& r == Some(old(self).images()[oldest])
                    &&& final(self).recency() == old(self).recency().skip(1).push(k)
                    &&& final(self).images() == old(self).images().remove(oldest).insert(k, image)
                } else {
                    &&& r is None
                    &&& final(self).recency() == old(self).recency().push(k)
                    &&& final(self).images() == old(self).images().insert(k, image)
                }
            }),
            r is Some <==> old(self).recency().len() == 1024,
            final(self).recency().last() == (text@, anchor.number()),
    {
        let code: u8 = anchor.code();
        let ghost k = (text@, code);
        let ghost start = *self;
        let oldest: Option<(String, u8)> = lru_evict_oldest(&mut self.access, TEXT_CACHE_CAP);
        let mut gone: Option<u64> = None;
        if let Some(key) = oldest {
            let ghost old_keys = cached_keys(start.cache@);
            proof {
                assert(start.recency()[0] == key_view(key));
                assert(start.recency().contains(key_view(key)));
                assert(old_keys.contains(key_view(key)));
                assert(keys_view(start.access@.skip(1)) == start.recency().skip(1));
            }
            let mut i: usize = 0;
            while i < self.cache.len() && !(self.cache[i].key.1 == key.1 && same(
                self.cache[i].key.0.as_str(),
                key.0.as_str(),
            ))
                invariant
                    i <= self.cache.len(),
                    self.cache == start.cache,
                    old_keys == cached_keys(start.cache@),
                    old_keys.contains(key_view(key)),
                    forall|j: int| 0 <= j < i ==> old_keys[j] != key_view(key),
                decreases self.cache.len() - i,
            {
                i = i + 1;
            }
            if i < self.cache.len() {
                proof {
                    assert(old_keys[i as int] == key_view(key));
                    lemma_images(start.cache@, i as int);
                    lemma_remove(start.cache@, i as int);
                }
                let c: CachedText = self.cache.remove(i);
                gone = Some(c.image);
                proof {
                    assert(self.cache@ == start.cache@.remove(i as int));
                    assert(cached_keys(self.cache@) == old_keys.remove(i as int));
                    assert forall|x: (Seq<char>, u8)| #[trigger]
                        keys_view(self.access@).contains(x) <==> cached_keys(self.cache@).contains(
                        x,
                    ) by {
                        lemma_removed_key(start.recency(), 0, x);
                        lemma_removed_key(old_keys, i as int, x);
                        assert(start.recency().remove(0) == start.recency().skip(1));
                        assert(start.recency().contains(x) <==> old_keys.contains(x));
                    }
                    lemma_no_dup_remove(start.recency(), 0);
                    lemma_no_dup_remove(old_keys, i as int);
                    assert(start.recency().remove(0) == start.recency().skip(1));
                }
            } else {
                proof {
                    let j = choose|j: int| 0 <= j < old_keys.len() && old_keys[j] == key_view(key);
                    assert(false);
                }
            }
        }
        let ghost mid = *self;
        proof {
            assert(mid.recency().no_duplicates());
            assert(cached_keys(mid.cache@).no_duplicates());
            if mid.recency().contains(k) {
                if oldest is Some {
                    lemma_removed_key(start.recency(), 0, k);
                    assert(start.recency().remove(0) == start.recency().skip(1));
                }
                assert(false);
            }
            assert(!cached_keys(mid.cache@).contains(k));
        }
        let entry: CachedText = CachedText { key: (text.to_owned(), code), image };
        self.cache.push(entry);
        let key: (String, u8) = (text.to_owned(), code);
        self.access.push(key);
        proof {
            assert(self.recency() == mid.recency().push(k));
            assert(cached_keys(self.cache@) == cached_keys(mid.cache@).push(k));
            assert forall|x: (Seq<char>, u8)| #[trigger]
                self.recency().contains(x) <==> cached_keys(self.cache@).contains(x) by {
                lemma_pushed_key(mid.recency(), k, x);
                lemma_pushed_key(cached_keys(mid.cache@), k, x);
                assert(mid.recency().contains(x) <==> cached_keys(mid.cache@).contains(x));
            }
            lemma_push_image(mid.cache@, entry);
        }
        gone
    }

    /// Forgets every line; their images are no longer valid once the font has changed.
    pub fn clear(&mut self)
        ensures
            final(self).wf(),
            final(self).recency() == Seq::<(Seq<char>, u8)>::empty(),
            final(self).images() == Map::<(Seq<char>, u8), u64>::empty(),
    {
        self.cache = Vec::new();
        self.access = Vec::new();
        proof {
            assert(keys_view(self.access@) == Seq::<(Seq<char>, u8)>::empty());
            assert(cached_keys(self.cache@) == Seq::<(Seq<char>, u8)>::empty());
            assert(images_of(self.cache@) == Map::<(Seq<char>, u8), u64>::empty());
        }
    }
}

/// The image under each key of a list of lines.
pub open spec fn images_of(v: Seq<CachedText>) -> Map<(Seq<char>, u8), u64>
    decreases v.len(),
{
    if v.len() == 0 {
        Map::empty()
    } else {
        images_of(v.drop_last()).insert(key_view(v.last().key), v.last().image)
    }
}

proof fn lemma_images_dom(v: Seq<CachedText>, k: (Seq<char>, u8))
    ensures
        images_of(v).dom().contains(k) <==> cached_keys(v).contains(k),
    decreases v.len(),
{
    if v.len() > 0 {
        let less = v.drop_last();
        lemma_images_dom(less, k);
        let a = cached_keys(v);
        let b = cached_keys(less);
        if b.contains(k) {
            let j = choose|j: int| 0 <= j < b.len() && b[j] == k;
            assert(a[j] == k);
        }
        if a.contains(k) {
            let j = choose|j: int| 0 <= j < a.len() && a[j] == k;
            if j < b.len() {
                assert(b[j] == k);
            }
        }
        assert(a[v.len() - 1] == key_view(v.last().key));
    }
}

proof fn lemma_images(v: Seq<CachedText>, i: int)
    requires
        0 <= i < v.len(),
        cached_keys(v).no_duplicates(),
    ensures
        images_of(v).dom().contains(cached_keys(v)[i]),
        images_of(v)[cached_keys(v)[i]] == v[i].image,
    decreases v.len(),
{
    let less = v.drop_last();
    if i < less.len() {
        assert(cached_keys(less) == cached_keys(v).drop_last());
        lemma_images(less, i);
        assert(cached_keys(v)[i] != cached_keys(v)[v.len() - 1]);
    }
}

proof fn lemma_push_image(v: Seq<CachedText>, c: CachedText)
    ensures
        images_of(v.push(c)) == images_of(v).insert(key_view(c.key), c.image),
{
    assert(v.push(c).drop_last() == v);
}

proof fn lemma_remove(v: Seq<CachedText>, i: int)
    requires
        0 <= i < v.len(),
        cached_keys(v).no_duplicates(),
    ensures
        images_of(v.remove(i)) == images_of(v).remove(cached_keys(v)[i]),
    decreases v.len(),
{
    let k = cached_keys(v)[i];
    let less = v.drop_last();
    assert(cached_keys(less) == cached_keys(v).drop_last());
    if i == v.len() - 1 {
        assert(v.remove(i) == less);
        lemma_images_dom(less, k);
        if cached_keys(less).contains(k) {
            let j = choose|j: int| 0 <= j < cached_keys(less).len() && cached_keys(less)[j] == k;
            assert(cached_keys(v)[j] == k);
        }
        assert(images_of(less) == images_of(v).remove(k));
    } else {
        lemma_remove(less, i);
        assert(v.remove(i).drop_last() == less.remove(i));
        assert(v.remove(i).last() == v.last());
        assert(cached_keys(v)[v.len() - 1] != k);
        assert(images_of(v.remove(i)) == images_of(v).remove(k));
    }
}

proof fn lemma_removed_key(v: Seq<(Seq<char>, u8)>, i: int, x: (Seq<char>, u8))
    requires
        0 <= i < v.len(),
        v.no_duplicates(),
    ensures
        v.remove(i).contains(x) <==> v.contains(x) && x != v[i],
{
    let r = v.remove(i);
    if v.contains(x) && x != v[i] {
        let j = choose|j: int| 0 <= j < v.len() && v[j] == x;
        if j < i {
            assert(r[j] == x);
        } else {
            assert(r[j - 1] == x);
        }
    }
    if r.contains(x) {
        let j = choose|j: int| 0 <= j < r.len() && r[j] == x;
        if j < i {
            assert(v[j] == x);
        } else {
            assert(v[j + 1] == x);
        }
    }
}

proof fn lemma_no_dup_remove(v: Seq<(Seq<char>, u8)>, i: int)
    requires
        0 <= i < v.len(),
        v.no_duplicates(),
    ensures
        v.remove(i).no_duplicates(),
{
}

proof fn lemma_pushed_key(v: Seq<(Seq<char>, u8)>, k: (Seq<char>, u8), x: (Seq<char>, u8))
    ensures
        v.push(k).contains(x) <==> v.contains(x) || x == k,
{
    let r = v.push(k);
    if v.contains(x) {
        let j = choose|j: int| 0 <= j < v.len() && v[j] == x;
        assert(r[j] == x);
    }
    if r.contains(x) {
        let j = choose|j: int| 0 <= j < r.len() && r[j] == x;
        if j < v.len() {
            assert(v[j] == x);
        }
    }
    assert(r[v.len() as int] == k);
}

proof fn lemma_touched(v: Seq<(Seq<char>, u8)>, k: (Seq<char>, u8))
    requires
        v.no_duplicates(),
    ensures
        touched(v, k).no_duplicates(),
        touched(v, k).len() == v.len(),
        forall|x: (Seq<char>, u8)| #[trigger] touched(v, k).contains(x) <==> v.contains(x),
{
    lemma_key_at(v, k, 0);
    if let Some(i) = key_at(v, k, 0) {
        let r = v.remove(i);
        assert forall|x: (Seq<char>, u8)| #[trigger] touched(v, k).contains(x) <==> v.contains(
            x,
        ) by {
            lemma_removed_key(v, i, x);
            lemma_pushed_key(r, k, x);
            assert(v.contains(v[i]));
        }
        lemma_removed_key(v, i, k);
        assert(r.push(k).no_duplicates());
    }
}

/// Law: a hit makes a line the most recently used and changes nothing else: the lines that are
/// cached stay the same, and the others keep their order.
pub proof fn law_touch(v: Seq<(Seq<char>, u8)>, k: (Seq<char>, u8))
    requires
        v.no_duplicates(),
        v.contains(k),
    ensures
        touched(v, k).last() == k,
        touched(v, k).len() == v.len(),
        forall|x: (Seq<char>, u8)| #[trigger] touched(v, k).contains(x) <==> v.contains(x),
        exists|i: int| 0 <= i < v.len() && #[trigger] v.remove(i) == touched(v, k).drop_last(),
{
    lemma_touched(v, k);
    lemma_key_at(v, k, 0);
    let j = choose|j: int| 0 <= j < v.len() && v[j] == k;
    match key_at(v, k, 0) {
        Some(i) => {
            assert(v.remove(i) == touched(v, k).drop_last());
        },
        None => {
            assert(v[j] != k);
        },
    }
}

/// Which font a character is drawn with.
#[derive(Clone, Copy, PartialEq, Eq, Structural, Debug)]
pub enum FontChoice {
    Main,
    Fallback,
}

/// The font of a character: the main one, unless only the fallback has a glyph for it.
pub fn choose_font(in_main: bool, in_fallback: bool) -> (r: FontChoice)
    ensures
        in_main ==> r is Main,
        !in_main && in_fallback ==> r is Fallback,
        !in_fallback ==> r is Main,
        r == (if !in_main && in_fallback {
            FontChoice::Fallback
        } else {
            FontChoice::Main
        }),
{
    if !in_main && in_fallback {
        FontChoice::Fallback
    } else {
        FontChoice::Main
    }
}

/// A rasterized glyph at its place in a line: the column and row of its top left pixel.
pub struct Glyph {
    pub x: i32,
    pub y: i32,
    pub width: u32,
    pub height: u32,
    pub bitmap: Vec<u8>,
}

impl Glyph {
    /// Whether the bitmap has a byte for every pixel.
    pub open spec fn wf(&self) -> bool {
        self.bitmap@.len() >= self.width * self.height
    }

    /// How far the glyph covers the pixel at column `x` and row `y`.
    pub open spec fn coverage(&self, x: int, y: int) -> u8 {
        if 0 <= x - self.x < self.width && 0 <= y - self.y < self.height {
            self.bitmap@[(y - self.y) * self.width + (x - self.x)]
        } else {
            0
        }
    }
}

/// How far the first `n` glyphs cover a pixel: as far as the one that covers it most.
pub open spec fn covered(glyphs: Seq<Glyph>, n: int, x: int, y: int) -> u8
    decreases n,
{
    if n <= 0 {
        0
    } else {
        let before = covered(glyphs, n - 1, x, y);
        let here = glyphs[n - 1].coverage(x, y);
        if here > before {
            here
        } else {
            before
        }
    }
}

proof fn lemma_index(x: int, y: int, w: int, h: int)
    by (nonlinear_arith)
    requires
        0 <= x < w,
        0 <= y < h,
    ensures
        0 <= y * w + x < w * h,
        0 <= y * w <= y * w + x,
        w * h >= 0,
{
}

/// Draws glyphs into a line of `line_w` by `line_h` pixels. What falls outside is cut off.
pub fn blit_glyphs(glyphs: &Vec<Glyph>, line_w: u32, line_h: u32) -> (r: Vec<u8>)
    requires
        line_w * line_h <= usize::MAX,
        forall|i: int| 0 <= i < glyphs.len() ==> (#[trigger] glyphs[i]).wf(),
    ensures
        r@.len() == line_w * line_h,
        forall|x: int, y: int|
            0 <= x < line_w && 0 <= y < line_h ==> #[trigger] r@[y * line_w + x] == covered(
                glyphs@,
                glyphs@.len() as int,
                x,
                y,
            ),
{
    let mut out: Vec<u8> = Vec::new();
    let w: usize = line_w as usize;
    let h: usize = line_h as usize;
    let mut y: usize = 0;
    proof {
        assert(0 * w == 0) by (nonlinear_arith);
    }
    while y < h
        invariant
            y <= h,
            w == line_w,
            h == line_h,
            w * h <= usize::MAX,
            forall|i: int| 0 <= i < glyphs.len() ==> (#[trigger] glyphs[i]).wf(),
            out@.len() == y * w,
            forall|i: int, j: int|
                0 <= i < w && 0 <= j < y ==> #[trigger] out@[j * w + i] == covered(
                    glyphs@,
                    glyphs@.len() as int,
                    i,
                    j,
                ),
        decreases h - y,
    {
        let mut x: usize = 0;
        let ghost rows = out@;
        while x < w
            invariant
                x <= w,
                y < h,
                w == line_w,
                h == line_h,
                rows.len() == y * w,
                forall|i: int| 0 <= i < glyphs.len() ==> (#[trigger] glyphs[i]).wf(),
                out@.len() == y * w + x,
                out@.take(y * w) == rows,
                forall|i: int|
                    0 <= i < x ==> #[trigger] out@[y * w + i] == covered(
                        glyphs@,
                        glyphs@.len() as int,
                        i,
                        y as int,
                    ),
            decreases w - x,
        {
            let mut best: u8 = 0;
            let mut k: usize = 0;
            while k < glyphs.len()
                invariant
                    k <= glyphs.len(),
                    x < w,
                    y < h,
                    w == line_w,
                    h == line_h,
                    forall|i: int| 0 <= i < glyphs.len() ==> (#[trigger] glyphs[i]).wf(),
                    best == covered(glyphs@, k as int, x as int, y as int),
                decreases glyphs.len() - k,
            {
                let g: &Glyph = &glyphs[k];
                let dx: i64 = x as i64 - g.x as i64;
                let dy: i64 = y as i64 - g.y as i64;
                if 0 <= dx && dx < g.width as i64 && 0 <= dy && dy < g.height as i64 {
                    proof {
                        lemma_index(dx as int, dy as int, g.width as int, g.height as int);
                        assert(g.wf());
                    }
                    let gw: usize = g.width as usize;
                    let size: usize = g.bitmap.len();
                    let at: usize = dy as usize * gw + dx as usize;
                    let c: u8 = g.bitmap[at];
                    if c > best {
                        best = c;
                    }
                }
                k = k + 1;
            }
            let ghost before = out@;
            out.push(best);
            proof {
                assert(out@.take(y * w) == before.take(y * w));
                assert forall|i: int| 0 <= i < x + 1 implies #[trigger] out@[y * w + i] == covered(
                    glyphs@,
                    glyphs@.len() as int,
                    i,
                    y as int,
                ) by {
                    if i < x {
                        assert(out@[y * w + i] == before[y * w + i]);
                    }
                }
            }
            x = x + 1;
        }
        proof {
            assert((y + 1) * w == y * w + w) by (nonlinear_arith);
            assert forall|i: int, j: int| 0 <= i < w && 0 <= j < y + 1 implies #[trigger] out@[j * w
                + i] == covered(glyphs@, glyphs@.len() as int, i, j) by {
                if j < y {
                    lemma_index(i, j, w as int, y as int);
                    assert(w * y == y * w) by (nonlinear_arith);
                    assert(rows[j * w + i] == out@.take(y * w)[j * w + i]);
                }
            }
        }
        y = y + 1;
    }
    proof {
        assert(h * w == w * h) by (nonlinear_arith);
        assert(line_w * line_h == w * h);
    }
    out
}

/// The image of a line: white pixels with the coverage as alpha, bottom row first.
pub open spec fn line_image(gray: Seq<u8>, w: int, h: int) -> Seq<u8> {
    Seq::new(
        (4 * w * h) as nat,
        |b: int|
            if b % 4 == 3 {
                gray[(h - 1 - b / 4 / w) * w + b / 4 % w]
            } else {
                255u8
            },
    )
}

/// Makes the image of a line.
pub fn upload_gray_line(gray: &Vec<u8>, line_w: u32, line_h: u32) -> (r: Vec<u8>)
    requires
        gray@.len() == line_w * line_h,
        4 * line_w * line_h <= usize::MAX,
    ensures
        r@ == line_image(gray@, line_w as int, line_h as int),
{
    let w: usize = line_w as usize;
    let h: usize = line_h as usize;
    let ghost want = line_image(gray@, w as int, h as int);
    let mut out: Vec<u8> = Vec::new();
    proof {
        assert(4 * line_w * line_h == 4 * (w * h)) by (nonlinear_arith)
            requires
                w == line_w,
                h == line_h,
        ;
        assert(4 * w * h == 4 * (w * h)) by (nonlinear_arith);
        assert(want.len() == 4 * (w * h));
        assert(0 * w == 0) by (nonlinear_arith);
    }
    let mut y: usize = 0;
    while y < h
        invariant
            y <= h,
            w == line_w,
            h == line_h,
            gray@.len() == w * h,
            4 * (w * h) <= usize::MAX,
            want == line_image(gray@, w as int, h as int),
            want.len() == 4 * (w * h),
            out@.len() == 4 * (y * w),
            y * w <= w * h,
            out@ == want.take(4 * (y * w)),
        decreases h - y,
    {
        let mut x: usize = 0;
        let row: usize = h - 1 - y;
        while x < w
            invariant
                x <= w,
                y < h,
                row == h - 1 - y,
                gray@.len() == w * h,
                4 * (w * h) <= usize::MAX,
                want == line_image(gray@, w as int, h as int),
                want.len() == 4 * (w * h),
                out@.len() == 4 * (y * w + x),
                out@ == want.take(4 * (y * w + x)),
            decreases w - x,
        {
            proof {
                lemma_index(x as int, y as int, w as int, h as int);
                lemma_index(x as int, row as int, w as int, h as int);
                let p = y * w + x;
                assert(p / (w as int) == y && p % (w as int) == x) by (nonlinear_arith)
                    requires
                        p == y * w + x,
                        0 <= x < w,
                ;
                assert(row * w + x == (h - 1 - y) * w + x);
            }
            let a: u8 = gray[row * w + x];
            let ghost before = out@;
            out.push(255);
            out.push(255);
            out.push(255);
            out.push(a);
            proof {
                let p = y * w + x;
                let b = 4 * p;
                assert(want[b] == 255 && want[b + 1] == 255 && want[b + 2] == 255);
                assert((b + 3) / 4 == p);
                assert(want[b + 3] == a);
                assert(out@ == want.take(b + 4));
            }
            x = x + 1;
        }
        proof {
            assert((y + 1) * w == y * w + w) by (nonlinear_arith);
            assert((y + 1) * w <= w * h) by (nonlinear_arith)
                requires
                    y + 1 <= h,
            ;
        }
        y = y + 1;
    }
    proof {
        assert(h * w == w * h) by (nonlinear_arith);
        assert(want.take(want.len() as int) == want);
    }
    out
}

/// Law: a glyph covers the pixels of its bitmap, row by row from its top left one, and none beside them.
pub proof fn law_glyph_covers_its_pixels(g: Glyph, i: int, j: int)
    ensures
        0 <= i < g.width && 0 <= j < g.height ==> g.coverage(g.x + i, g.y + j) == g.bitmap@[j * g.width
            + i],
        i < 0 || i >= g.width || j < 0 || j >= g.height ==> g.coverage(g.x + i, g.y + j) == 0,
{
}

/// Law: a pixel of a line is covered as far as the glyph covers it that covers it most.
pub proof fn law_most_coverage(glyphs: Seq<Glyph>, n: int, x: int, y: int)
    requires
        0 <= n <= glyphs.len(),
    ensures
        forall|i: int|
            0 <= i < n ==> (#[trigger] glyphs[i]).coverage(x, y) <= covered(glyphs, n, x, y),
        covered(glyphs, n, x, y) == 0 || exists|i: int|
            0 <= i < n && (#[trigger] glyphs[i]).coverage(x, y) == covered(glyphs, n, x, y),
    decreases n,
{
    if n > 0 {
        law_most_coverage(glyphs, n - 1, x, y);
        let before = covered(glyphs, n - 1, x, y);
        assert(glyphs[n - 1].coverage(x, y) <= covered(glyphs, n, x, y));
        if before != 0 && covered(glyphs, n, x, y) == before {
            let i = choose|i: int| 0 <= i < n - 1 && (#[trigger] glyphs[i]).coverage(x, y) == before;
            assert(glyphs[i].coverage(x, y) == covered(glyphs, n, x, y));
        }
    }
}

/// Law: the image of a line is white, its alpha is the coverage, and its top row comes last.
pub proof fn law_line_image(gray: Seq<u8>, w: int, h: int, x: int, y: int)
    requires
        0 <= x < w,
        0 <= y < h,
    ensures
        ({
            let p = 4 * ((h - 1 - y) * w + x);
            &&& line_image(gray, w, h).len() == 4 * w * h
            &&& line_image(gray, w, h)[p] == 255
            &&& line_image(gray, w, h)[p + 1] == 255
            &&& line_image(gray, w, h)[p + 2] == 255
            &&& line_image(gray, w, h)[p + 3] == gray[y * w + x]
        }),
{
    let q = (h - 1 - y) * w + x;
    vstd::arithmetic::div_mod::lemma_fundamental_div_mod_converse(q, w, h - 1 - y, x);
    assert(0 <= q && 4 * q + 3 < 4 * w * h) by (nonlinear_arith)
        requires
            q == (h - 1 - y) * w + x,
            0 <= x < w,
            0 <= y < h,
    ;
    assert((4 * q + 3) / 4 == q);
    assert(h - 1 - (h - 1 - y) == y);
}

/// Law: lines to the left of the window begin at their anchor, those to the right end there, and those in
/// the middle stand around it; the combo number is the largest, the frame times are the smallest.
pub proof fn law_forms_of_anchors(a: TextAnchor)
    ensures
        a is TopLeft || a is BottomLeft || a is BottomLeftEdge <==> a.form().1 is Left,
        a is TopRight || a is BottomRight || a is TopRightEdge || a is BottomRightEdge
            <==> a.form().1 is Right,
        a is TopCenter || a is ComboLabel || a is World <==> a.form().1 is Center,
        a is TopCenter ==> a.form().0 == 56,
        a is TopLeft || a is TopRight ==> a.form().0 == 36,
        a is BottomLeft || a is BottomRight || a is BottomLeftEdge || a is BottomRightEdge
            ==> a.form().0 == 30,
        a is World ==> a.form().0 == 28,
        a is ComboLabel ==> a.form().0 == 26,
        a is TopRightEdge ==> a.form().0 == 22,
{
}

} // verus!
