//! The HTTP side of the mirror: request heads, routes, byte ranges and response heads.

use vstd::prelude::*;
use vstd::utf8::*;

use crate::player_page::PLAYER_HTML;
use crate::strings::{
    after_prefix, ascii_lower, begins, chars_of, cut_at, decimal, ends, ends_with, first_word, lines,
    lines_of, next_word, parse_unsigned, part, push_decimal, replace, replaced, same, split_once,
    string_of, strip_prefix, texts, to_ascii_lowercase, trim, trimmed, unsigned,
};

verus! {

/// The longest request head that is read.
pub const MAX_HEAD: usize = 8192;

/// The longest request body that is read.
pub const MAX_BODY: u64 = 65536;

/// The most bytes of a file that are sent at once.
pub const CHUNK: u64 = 65536;

/// Whether the empty line that ends a head stands at byte `i`.
pub open spec fn blank_at(s: Seq<u8>, i: int) -> bool {
    0 <= i && i + 4 <= s.len() && s[i] == 13 && s[i + 1] == 10 && s[i + 2] == 13 && s[i + 3] == 10
}

/// Where the first empty line at or after byte `from` stands.
pub open spec fn blank_from(s: Seq<u8>, from: int) -> Option<int>
    decreases s.len() - from,
{
    if from + 4 > s.len() {
        None
    } else if blank_at(s, from) {
        Some(from)
    } else {
        blank_from(s, from + 1)
    }
}

/// Where the head of a request ends.
pub fn find_blank(s: &[u8]) -> (r: Option<usize>)
    ensures
        match r {
            Some(i) => i + 4 <= s@.len() && blank_from(s@, 0) == Some(i as int),
            None => blank_from(s@, 0) is None,
        },
{
    let mut i: usize = 0;
    while i < s.len() && s.len() - i >= 4
        invariant
            i <= s.len(),
            blank_from(s@, i as int) == blank_from(s@, 0),
        decreases s.len() - i,
    {
        if s[i] == 13 && s[i + 1] == 10 && s[i + 2] == 13 && s[i + 3] == 10 {
            return Some(i);
        }
        i = i + 1;
    }
    None
}

/// Law: the end of the head that is found is an empty line, and no empty line stands before it.
pub proof fn law_first_blank(s: Seq<u8>, from: int)
    requires
        0 <= from,
    ensures
        match blank_from(s, from) {
            Some(i) => from <= i && blank_at(s, i) && forall|j: int|
                from <= j < i ==> !#[trigger] blank_at(s, j),
            None => forall|j: int| from <= j ==> !#[trigger] blank_at(s, j),
        },
    decreases s.len() - from,
{
    if from + 4 <= s.len() && !blank_at(s, from) {
        law_first_blank(s, from + 1);
    }
}

/// What to do with the bytes of a head that have come in so far.
#[derive(Clone, Copy, PartialEq, Eq, Structural, Debug)]
pub enum HeadState {
    /// The head is complete.
    Complete,
    /// Nothing more fits: the connection is dropped.
    TooLong,
    /// Read on.
    More,
}

/// Judges what has come in so far.
pub fn head_state(got: &[u8]) -> (r: HeadState)
    ensures
        r == (if blank_from(got@, 0) is Some {
            HeadState::Complete
        } else if got@.len() >= MAX_HEAD {
            HeadState::TooLong
        } else {
            HeadState::More
        }),
        r is TooLong ==> got@.len() >= 8192,
        r is More ==> got@.len() < 8192,
{
    match find_blank(got) {
        Some(_) => HeadState::Complete,
        None => {
            if got.len() >= MAX_HEAD {
                HeadState::TooLong
            } else {
                HeadState::More
            }
        },
    }
}

/// The text that std's lossy decoding makes of bytes.
pub uninterp spec fn lossy_text(b: Seq<u8>) -> Seq<char>;

/// `String::from_utf8_lossy` of std: valid UTF-8 is decoded as it is; what else comes out, where
/// the bytes are not valid, is only named.
#[verifier::external_body]
fn decode_lossy(b: &[u8]) -> (r: String)
    ensures
        r@ == lossy_text(b@),
        valid_utf8(b@) ==> r@ == decode_utf8(b@),
{
    String::from_utf8_lossy(b).into_owned()
}

/// A header field.
pub struct Header {
    pub name: String,
    pub value: String,
}

/// A header field's name and value.
pub open spec fn header_view(h: Header) -> (Seq<char>, Seq<char>) {
    (h.name@, h.value@)
}

/// The names and values of header fields.
pub open spec fn headers_view(v: Seq<Header>) -> Seq<(Seq<char>, Seq<char>)> {
    v.map_values(|h: Header| header_view(h))
}

/// What is read of a request.
pub struct Request {
    pub path: String,
    pub headers: Vec<Header>,
}

/// The path of a request line: its second word, `/` where there is none.
pub open spec fn path_of(line: Seq<char>) -> Seq<char> {
    match first_word(line) {
        None => "/"@,
        Some((_, rest)) => match first_word(rest) {
            None => "/"@,
            Some((path, _)) => path,
        },
    }
}

/// The fields of header lines: what stands before and after the first colon, trimmed, the name
/// in lower case. A line without a colon is passed over.
pub open spec fn fields_of(ls: Seq<Seq<char>>) -> Seq<(Seq<char>, Seq<char>)>
    decreases ls.len(),
{
    if ls.len() == 0 {
        Seq::empty()
    } else {
        match cut_at(ls.last(), ':') {
            Some((a, b)) => fields_of(ls.drop_last()).push((ascii_lower(trimmed(a)), trimmed(b))),
            None => fields_of(ls.drop_last()),
        }
    }
}

/// The path that a head asks for.
pub open spec fn head_path(head: Seq<char>) -> Seq<char> {
    let ls = lines_of(head);
    path_of(if ls.len() > 0 {
        ls[0]
    } else {
        Seq::empty()
    })
}

/// The header fields of a head.
pub open spec fn head_fields(head: Seq<char>) -> Seq<(Seq<char>, Seq<char>)> {
    let ls = lines_of(head);
    if ls.len() > 0 {
        fields_of(ls.skip(1))
    } else {
        Seq::empty()
    }
}

fn request_path(line: &str) -> (r: String)
    ensures
        r@ == path_of(line@),
{
    let v: Vec<char> = chars_of(line);
    match next_word(&v) {
        None => "/".to_owned(),
        Some((_, rest)) => match next_word(&rest) {
            None => "/".to_owned(),
            Some((path, _)) => string_of(&path),
        },
    }
}

/// Reads a request head.
pub fn parse_head(head: &str) -> (r: Request)
    ensures
        r.path@ == head_path(head@),
        headers_view(r.headers@) == head_fields(head@),
{
    let all: Vec<char> = chars_of(head);
    let ls: Vec<String> = lines(&all);
    let mut headers: Vec<Header> = Vec::new();
    let ghost seen = texts(ls@);
    if ls.len() == 0 {
        let path: String = request_path("");
        proof {
            assert(seen.len() == 0);
            reveal_strlit("");
            assert(""@ == Seq::<char>::empty());
            assert(headers_view(headers@) == Seq::<(Seq<char>, Seq<char>)>::empty());
        }
        return Request { path, headers };
    }
    let path: String = request_path(ls[0].as_str());
    let mut i: usize = 1;
    let ghost fields = seen.skip(1);
    proof {
        assert(fields.take(0).len() == 0);
        assert(headers_view(headers@) == Seq::<(Seq<char>, Seq<char>)>::empty());
    }
    while i < ls.len()
        invariant
            1 <= i <= ls.len(),
            seen == texts(ls@),
            fields == seen.skip(1),
            headers_view(headers@) == fields_of(fields.take(i - 1)),
        decreases ls.len() - i,
    {
        let line: Vec<char> = chars_of(ls[i].as_str());
        let ghost before = headers_view(headers@);
        proof {
            assert(fields.take(i as int).drop_last() == fields.take(i - 1));
            assert(fields.take(i as int).last() == line@);
        }
        if let Some((a, b)) = split_once(&line, ':') {
            let ta: Vec<char> = trim(&a);
            let tb: Vec<char> = trim(&b);
            let name: Vec<char> = to_ascii_lowercase(&ta);
            let h: Header = Header { name: string_of(&name), value: string_of(&tb) };
            headers.push(h);
            proof {
                assert(headers_view(headers@) == before.push(header_view(h)));
            }
        }
        i = i + 1;
    }
    proof {
        assert(fields.take(ls.len() - 1) == fields);
    }
    Request { path, headers }
}

/// Reads the bytes of a request head.
pub fn read_head(head: &[u8]) -> (r: Request)
    ensures
        r.path@ == head_path(lossy_text(head@)),
        headers_view(r.headers@) == head_fields(lossy_text(head@)),
{
    let text: String = decode_lossy(head);
    parse_head(text.as_str())
}

/// The value of the first field of a name.
pub open spec fn field(fs: Seq<(Seq<char>, Seq<char>)>, name: Seq<char>) -> Option<Seq<char>>
    decreases fs.len(),
{
    if fs.len() == 0 {
        None
    } else if fs[0].0 == name {
        Some(fs[0].1)
    } else {
        field(fs.skip(1), name)
    }
}

/// Looks up a header field by its name in lower case.
pub fn header(headers: &Vec<Header>, name: &str) -> (r: Option<String>)
    ensures
        match r {
            Some(v) => field(headers_view(headers@), name@) == Some(v@),
            None => field(headers_view(headers@), name@) is None,
        },
{
    let ghost fs = headers_view(headers@);
    let mut i: usize = 0;
    proof {
        assert(fs.skip(0) == fs);
    }
    while i < headers.len()
        invariant
            i <= headers.len(),
            fs == headers_view(headers@),
            field(fs.skip(i as int), name@) == field(fs, name@),
        decreases headers.len() - i,
    {
        proof {
            assert(fs.skip(i as int)[0] == header_view(headers@[i as int]));
            assert(fs.skip(i as int).skip(1) == fs.skip(i + 1));
        }
        if same(headers[i].name.as_str(), name) {
            return Some(headers[i].value.clone());
        }
        i = i + 1;
    }
    None
}

/// Where a request leads.
pub enum Route {
    /// The WebSocket handshake, with the client's key.
    Upgrade { key: String },
    /// The connection is closed without an answer.
    Drop,
    /// The player page.
    Index,
    /// A file of the player.
    Package { file: String },
    /// The music of the chart.
    Music,
    /// A control command in the body.
    Control,
    /// Anything else.
    NotFound,
}

/// [`Route`] with its texts as sequences of characters.
pub ghost enum Place {
    Upgrade(Seq<char>),
    Drop,
    Index,
    Package(Seq<char>),
    Music,
    Control,
    NotFound,
}

impl View for Route {
    type V = Place;

    open spec fn view(&self) -> Place {
        match self {
            Route::Upgrade { key } => Place::Upgrade(key@),
            Route::Drop => Place::Drop,
            Route::Index => Place::Index,
            Route::Package { file } => Place::Package(file@),
            Route::Music => Place::Music,
            Route::Control => Place::Control,
            Route::NotFound => Place::NotFound,
        }
    }
}

/// Where a path leads, for the chart whose music file is `music`. Under `/music/` only that
/// file's name is served.
pub open spec fn place(
    path: Seq<char>,
    fs: Seq<(Seq<char>, Seq<char>)>,
    music: Seq<char>,
) -> Place {
    if path == "/ws"@ {
        match field(fs, "sec-websocket-key"@) {
            Some(key) => Place::Upgrade(key),
            None => Place::Drop,
        }
    } else if path == "/"@ || path == "/index.html"@ {
        Place::Index
    } else if let Some(file) = after_prefix(path, "/pkg/"@) {
        Place::Package(file)
    } else if let Some(name) = after_prefix(path, "/music/"@) {
        if name == music {
            Place::Music
        } else {
            Place::NotFound
        }
    } else if path == "/ctrl"@ {
        Place::Control
    } else {
        Place::NotFound
    }
}

/// Finds where a request leads.
pub fn route(req: &Request, music: &str) -> (r: Route)
    ensures
        r@ == place(req.path@, headers_view(req.headers@), music@),
{
    let path: &str = req.path.as_str();
    if same(path, "/ws") {
        return match header(&req.headers, "sec-websocket-key") {
            Some(key) => Route::Upgrade { key },
            None => Route::Drop,
        };
    }
    if same(path, "/") || same(path, "/index.html") {
        return Route::Index;
    }
    if let Some(file) = strip_prefix(path, "/pkg/") {
        return Route::Package { file };
    }
    if let Some(name) = strip_prefix(path, "/music/") {
        return if same(name.as_str(), music) {
            Route::Music
        } else {
            Route::NotFound
        };
    }
    if same(path, "/ctrl") {
        return Route::Control;
    }
    Route::NotFound
}

/// Law: whatever the request, the only file under `/music/` that is served is the chart's own.
pub proof fn law_only_own_music(
    path: Seq<char>,
    fs: Seq<(Seq<char>, Seq<char>)>,
    music: Seq<char>,
)
    ensures
        place(path, fs, music) is Music ==> path == "/music/"@ + music,
{
    if place(path, fs, music) is Music {
        let p = "/music/"@;
        assert(path == p + path.skip(p.len() as int)) by {
            assert(path.subrange(0, p.len() as int) + path.skip(p.len() as int) == path);
        }
    }
}

/// The response to a handshake.
pub open spec fn switching_text(accept: Seq<char>) -> Seq<char> {
    "HTTP/1.1 101 Switching Protocols\r\nUpgrade: websocket\r\nConnection: Upgrade\r\nSec-WebSocket-Accept: "@
        + accept + "\r\n\r\n"@
}

/// Answers a handshake.
pub fn switching(accept: &str) -> (r: String)
    ensures
        r@ == switching_text(accept@),
{
    let mut s: String =
        "HTTP/1.1 101 Switching Protocols\r\nUpgrade: websocket\r\nConnection: Upgrade\r\nSec-WebSocket-Accept: ".to_owned();
    s.append(accept);
    s.append("\r\n\r\n");
    s
}

/// The head of a successful response of `len` bytes.
pub open spec fn ok_head_text(content_type: Seq<char>, len: nat) -> Seq<char> {
    "HTTP/1.1 200 OK\r\nContent-Type: "@ + content_type + "\r\nContent-Length: "@ + decimal(len)
        + "\r\nConnection: close\r\n\r\n"@
}

/// Writes the head of a successful response.
pub fn ok_head(content_type: &str, len: u64) -> (r: String)
    ensures
        r@ == ok_head_text(content_type@, len as nat),
{
    let mut s: String = "HTTP/1.1 200 OK\r\nContent-Type: ".to_owned();
    s.append(content_type);
    s.append("\r\nContent-Length: ");
    push_decimal(&mut s, len);
    s.append("\r\nConnection: close\r\n\r\n");
    s
}

/// The player page for the music file `music`.
pub open spec fn page_text(music: Seq<char>) -> Seq<char> {
    replaced(PLAYER_HTML@, "__MUSIC__"@, music)
}

/// The response that carries the player page.
pub fn index_response(music: &str) -> (r: String)
    ensures
        r@ == ok_head_text("text/html; charset=utf-8"@, encode_utf8(page_text(music@)).len())
            + page_text(music@),
{
    proof {
        reveal_strlit("__MUSIC__");
    }
    let page: String = replace(PLAYER_HTML, "__MUSIC__", music);
    let n: usize = page.as_str().as_bytes().len();
    let mut s: String = ok_head("text/html; charset=utf-8", n as u64);
    s.append(page.as_str());
    s
}

/// The content type of a file of the player.
pub open spec fn package_type(file: Seq<char>) -> Seq<char> {
    if ends(file, ".js"@) {
        "application/javascript"@
    } else if ends(file, ".wasm"@) {
        "application/wasm"@
    } else {
        "application/octet-stream"@
    }
}

/// The head of the response that carries a file of the player.
pub fn package_head(file: &str, len: u64) -> (r: String)
    ensures
        r@ == ok_head_text(package_type(file@), len as nat),
{
    if ends_with(file, ".js") {
        ok_head("application/javascript", len)
    } else if ends_with(file, ".wasm") {
        ok_head("application/wasm", len)
    } else {
        ok_head("application/octet-stream", len)
    }
}

/// The response where there is nothing to send.
pub const NOT_FOUND: &'static str =
    "HTTP/1.1 404 Not Found\r\nContent-Length: 0\r\nConnection: close\r\n\r\n";

/// The response to a control command.
pub const CONTROL_OK: &'static str =
    "HTTP/1.1 200 OK\r\nContent-Length: 2\r\nConnection: close\r\n\r\nok";

/// The response to a control request without a command.
pub const BAD_REQUEST: &'static str =
    "HTTP/1.1 400 Bad Request\r\nContent-Length: 0\r\nConnection: close\r\n\r\n";

/// The last byte index of a file of `total` bytes; 0 for an empty one.
pub open spec fn last_byte(total: nat) -> nat {
    if total == 0 {
        0
    } else {
        (total - 1) as nat
    }
}

/// A bound of a range: `default` where it is empty.
pub open spec fn bound(s: Seq<char>, default: nat) -> Option<nat> {
    if s.len() == 0 {
        Some(default)
    } else {
        unsigned(s)
    }
}

/// The first and last byte that the value of a `Range` field asks for, where it can be read. Behind
/// `bytes=` stand a first byte, `-` and a last byte, which is cut to the file; or a first byte and
/// `-`, for all from there on; or `-` and a number, for that many bytes at the end of the file.
pub open spec fn asked_range(r: Seq<char>, total: nat) -> Option<(nat, nat)> {
    match after_prefix(r, "bytes="@) {
        None => None,
        Some(s) => match cut_at(s, '-') {
            None => None,
            Some((a, b)) => if a.len() == 0 && b.len() > 0 {
                match unsigned(b) {
                    Some(n) => Some(
                        (
                            if n < total {
                                (total - n) as nat
                            } else {
                                0
                            },
                            last_byte(total),
                        ),
                    ),
                    None => None,
                }
            } else {
                match (bound(a, 0), bound(b, last_byte(total))) {
                    (Some(x), Some(y)) => Some(
                        (
                            x,
                            if y <= last_byte(total) {
                                y
                            } else {
                                last_byte(total)
                            },
                        ),
                    ),
                    _ => None,
                }
            },
        },
    }
}

/// The first and last byte to send: those asked for, or the whole file.
pub open spec fn chosen_range(range: Option<Seq<char>>, total: nat) -> (nat, nat) {
    match range {
        None => (0, last_byte(total)),
        Some(r) => match asked_range(r, total) {
            None => (0, last_byte(total)),
            Some(p) => p,
        },
    }
}

fn read_bound(v: &Vec<char>, default: u64) -> (r: Option<u64>)
    ensures
        match r {
            Some(n) => bound(v@, default as nat) == Some(n as nat),
            None => bound(v@, default as nat) is None,
        },
{
    if v.len() == 0 {
        Some(default)
    } else {
        parse_unsigned(v)
    }
}

fn read_range(range: &str, total: u64) -> (r: Option<(u64, u64)>)
    ensures
        match r {
            Some((a, b)) => asked_range(range@, total as nat) == Some((a as nat, b as nat)),
            None => asked_range(range@, total as nat) is None,
        },
{
    let last: u64 = total.saturating_sub(1);
    match strip_prefix(range, "bytes=") {
        None => None,
        Some(s) => {
            let v: Vec<char> = chars_of(s.as_str());
            match split_once(&v, '-') {
                None => None,
                Some((a, b)) => {
                    if a.len() == 0 && b.len() > 0 {
                        return match parse_unsigned(&b) {
                            Some(n) => Some(
                                (
                                    if n < total {
                                        total - n
                                    } else {
                                        0
                                    },
                                    last,
                                ),
                            ),
                            None => None,
                        };
                    }
                    let x: Option<u64> = read_bound(&a, 0);
                    let y: Option<u64> = read_bound(&b, last);
                    match (x, y) {
                        (Some(first), Some(end)) => Some(
                            (
                                first,
                                if end <= last {
                                    end
                                } else {
                                    last
                                },
                            ),
                        ),
                        _ => None,
                    }
                },
            }
        },
    }
}

/// How a request for the music file is answered.
pub enum MusicReply {
    /// No byte of the file is asked for: only this head is sent.
    Unsatisfiable { head: String },
    /// The head, then `len` bytes of the file from byte `start` on.
    Send { head: String, start: u64, len: u64 },
}

/// The head that refuses a range.
pub open spec fn unsatisfiable_text(total: nat) -> Seq<char> {
    "HTTP/1.1 416 Range Not Satisfiable\r\nContent-Range: bytes */"@ + decimal(total)
        + "\r\nContent-Length: 0\r\nConnection: close\r\n\r\n"@
}

/// The head before bytes `start` to `end` of a file of `total` bytes, asked for by a range.
pub open spec fn partial_text(start: nat, end: nat, total: nat) -> Seq<char> {
    "HTTP/1.1 206 Partial Content\r\nAccept-Ranges: bytes\r\nContent-Range: bytes "@ + decimal(
        start,
    ) + "-"@ + decimal(end) + "/"@ + decimal(total)
        + "\r\nContent-Type: audio/mpeg\r\nContent-Length: "@ + decimal((end - start + 1) as nat)
        + "\r\nConnection: close\r\n\r\n"@
}

/// The head before a whole file.
pub open spec fn whole_text(len: nat) -> Seq<char> {
    "HTTP/1.1 200 OK\r\nAccept-Ranges: bytes\r\nContent-Type: audio/mpeg\r\nContent-Length: "@
        + decimal(len) + "\r\nConnection: close\r\n\r\n"@
}

/// Whether a reply is the one owed to a `Range` field, or its absence, on a file of `total`
/// bytes.
pub open spec fn music_reply_is(r: MusicReply, range: Option<Seq<char>>, total: nat) -> bool {
    let (first, last) = chosen_range(range, total);
    if first > last || first >= total {
        r matches MusicReply::Unsatisfiable { head } && head@ == unsatisfiable_text(total)
    } else {
        r matches MusicReply::Send { head, start, len } && start == first && len == last - first + 1
            && head@ == (if range is Some {
            partial_text(first, last, total)
        } else {
            whole_text(len as nat)
        })
    }
}

/// Answers a request for the music file, of `total` bytes.
pub fn serve_music(total: u64, range: &Option<String>) -> (r: MusicReply)
    ensures
        music_reply_is(
            r,
            match range {
                Some(s) => Some(s@),
                None => None,
            },
            total as nat,
        ),
{
    let last: u64 = total.saturating_sub(1);
    let whole: (u64, u64) = (0, last);
    let (start, end) = match range {
        Some(text) => match read_range(text.as_str(), total) {
            Some(p) => p,
            None => whole,
        },
        None => whole,
    };
    if start > end || start >= total {
        let mut s: String =
            "HTTP/1.1 416 Range Not Satisfiable\r\nContent-Range: bytes */".to_owned();
        push_decimal(&mut s, total);
        s.append("\r\nContent-Length: 0\r\nConnection: close\r\n\r\n");
        return MusicReply::Unsatisfiable { head: s };
    }
    let len: u64 = end - start + 1;
    if range.is_some() {
        let mut s: String =
            "HTTP/1.1 206 Partial Content\r\nAccept-Ranges: bytes\r\nContent-Range: bytes ".to_owned();
        push_decimal(&mut s, start);
        s.append("-");
        push_decimal(&mut s, end);
        s.append("/");
        push_decimal(&mut s, total);
        s.append("\r\nContent-Type: audio/mpeg\r\nContent-Length: ");
        push_decimal(&mut s, len);
        s.append("\r\nConnection: close\r\n\r\n");
        MusicReply::Send { head: s, start, len }
    } else {
        let mut s: String =
            "HTTP/1.1 200 OK\r\nAccept-Ranges: bytes\r\nContent-Type: audio/mpeg\r\nContent-Length: ".to_owned();
        push_decimal(&mut s, len);
        s.append("\r\nConnection: close\r\n\r\n");
        MusicReply::Send { head: s, start, len }
    }
}

/// Law: whatever range is asked for, the bytes that are sent lie within the file and are at
/// least one; a file that is not empty is sent whole where no range is asked for.
pub proof fn law_music_within_file(r: MusicReply, range: Option<Seq<char>>, total: u64)
    requires
        music_reply_is(r, range, total as nat),
    ensures
        r matches MusicReply::Send { head, start, len } ==> len >= 1 && start + len <= total,
        range is None && total > 0 ==> (r matches MusicReply::Send { head, start, len } && start
            == 0 && len == total),
        total == 0 ==> r is Unsatisfiable,
{
    if let Some(s) = range {
        if let Some((a, b)) = asked_range(s, total as nat) {
            assert(b <= last_byte(total as nat));
        }
    }
}

/// Law: a range that names only how many bytes it wants gets that many from the end of the file, or
/// the whole of a shorter one.
pub proof fn law_suffix_is_the_end(r: MusicReply, range: Seq<char>, n: nat, total: u64)
    requires
        music_reply_is(r, Some(range), total as nat),
        after_prefix(range, "bytes="@) matches Some(s) && cut_at(s, '-') matches Some((a, b))
            && a.len() == 0 && b.len() > 0 && unsigned(b) == Some(n),
        n > 0,
        total > 0,
    ensures
        r matches MusicReply::Send { head, start, len } && start + len == total && len == (if n
            < total {
            n
        } else {
            total as nat
        }),
{
}

/// How many bytes to send next when `remaining` are left.
pub fn next_chunk(remaining: u64) -> (n: usize)
    ensures
        n as nat == (if remaining < CHUNK {
            remaining
        } else {
            CHUNK
        }) as nat,
        remaining <= 65536 ==> n == remaining,
        remaining > 65536 ==> n == 65536,
{
    if remaining < CHUNK {
        remaining as usize
    } else {
        CHUNK as usize
    }
}

/// The length of the body that is read: the `content-length`, or 0 where it is absent, cannot be
/// read or exceeds [`MAX_BODY`].
pub open spec fn body_length(fs: Seq<(Seq<char>, Seq<char>)>) -> nat {
    match field(fs, "content-length"@) {
        None => 0,
        Some(v) => match unsigned(v) {
            None => 0,
            Some(n) => if n > MAX_BODY {
                0
            } else {
                n
            },
        },
    }
}

/// How many bytes of body to read.
pub fn body_wanted(headers: &Vec<Header>) -> (n: usize)
    ensures
        n as nat == body_length(headers_view(headers@)),
        n <= MAX_BODY,
        n <= 65536,
{
    match header(headers, "content-length") {
        None => 0,
        Some(v) => {
            let cs: Vec<char> = chars_of(v.as_str());
            match parse_unsigned(&cs) {
                None => 0,
                Some(k) => if k > MAX_BODY {
                    0
                } else {
                    k as usize
                },
            }
        },
    }
}

/// What came in behind the head.
pub open spec fn behind_head(got: Seq<u8>) -> Seq<u8> {
    match blank_from(got, 0) {
        Some(i) => got.skip(i + 4),
        None => Seq::empty(),
    }
}

/// The part of the body that came in with the head.
pub fn body_prefix(got: &[u8]) -> (r: Vec<u8>)
    ensures
        r@ == behind_head(got@),
{
    match find_blank(got) {
        None => Vec::new(),
        Some(i) => {
            let n: usize = got.len();
            let rest: &[u8] = vstd::slice::slice_subrange(got, i + 4, n);
            let v: Vec<u8> = vstd::slice::slice_to_vec(rest);
            proof {
                assert(v@ == got@.skip(i + 4));
            }
            v
        },
    }
}

/// The body out of the bytes that were read for it: no more than `wanted` of them.
pub fn body_of(read: Vec<u8>, wanted: usize) -> (r: Vec<u8>)
    ensures
        r@ == (if read@.len() > wanted {
            read@.take(wanted as int)
        } else {
            read@
        }),
{
    let mut body: Vec<u8> = read;
    if body.len() > wanted {
        body.truncate(wanted);
        proof {
            assert(body@ == read@.take(wanted as int));
        }
    }
    body
}

/// Law: a head ends at its first empty line, and what stands behind that belongs to the body.
pub proof fn law_head_and_body(head: Seq<u8>, body: Seq<u8>)
    requires
        forall|i: int| 0 <= i < head.len() ==> #[trigger] head[i] != 13,
    ensures
        blank_from(head + seq![13u8, 10u8, 13u8, 10u8] + body, 0) == Some(head.len() as int),
        behind_head(head + seq![13u8, 10u8, 13u8, 10u8] + body) == body,
        blank_from(head, 0) is None,
        behind_head(head).len() == 0,
{
    let s = head + seq![13u8, 10u8, 13u8, 10u8] + body;
    law_first_blank(s, 0);
    law_first_blank(head, 0);
    let n = head.len() as int;
    assert(s[n] == 13 && s[n + 1] == 10 && s[n + 2] == 13 && s[n + 3] == 10);
    assert(blank_at(s, n));
    assert forall|j: int| 0 <= j < n implies !#[trigger] blank_at(s, j) by {
        assert(s[j] == head[j]);
    }
    assert forall|j: int| 0 <= j implies !#[trigger] blank_at(head, j) by {
        if j < n {
            assert(head[j] != 13);
        }
    }
    assert(s.skip(n + 4) =~= body);
}

/// Law: the path of a request stands between the first white space of its first line and the next.
pub proof fn law_request_line(method: Seq<char>, path: Seq<char>, rest: Seq<char>)
    requires
        method.len() > 0 && path.len() > 0,
        forall|i: int| 0 <= i < method.len() ==> !crate::strings::white_space(#[trigger] method[i]),
        forall|i: int| 0 <= i < path.len() ==> !crate::strings::white_space(#[trigger] path[i]),
        rest.len() > 0 ==> crate::strings::white_space(rest[0]),
    ensures
        path_of(method.push(' ') + path + rest) == path,
        path_of(method) == "/"@,
        path_of(Seq::empty()) == "/"@,
{
    let tail = seq![' '] + (path + rest);
    let line = method.push(' ') + path + rest;
    assert(line =~= method + tail);
    crate::strings::law_first_word(method, tail, ' ');
    crate::strings::law_first_word(path, rest, ' ');
    let none = Seq::<char>::empty();
    crate::strings::law_first_word(method, none, ' ');
    assert(method + none =~= method);
}

/// Law: a header line is cut at its first colon; the name counts without regard to case and white space,
/// the value keeps what stands between its ends. A line without a colon is no field.
pub proof fn law_header_line(ls: Seq<Seq<char>>, name: Seq<char>, value: Seq<char>)
    requires
        !name.contains(':'),
    ensures
        fields_of(ls.push(name.push(':') + value)) == fields_of(ls).push(
            (ascii_lower(trimmed(name)), trimmed(value)),
        ),
        fields_of(ls.push(name)) == fields_of(ls),
        fields_of(Seq::empty()).len() == 0,
{
    crate::strings::law_cut_at(name, ':', value);
    assert(ls.push(name.push(':') + value).drop_last() =~= ls);
    assert(ls.push(name).drop_last() =~= ls);
}

/// Law: the first field of a name counts.
pub proof fn law_first_field(
    before: Seq<(Seq<char>, Seq<char>)>,
    name: Seq<char>,
    value: Seq<char>,
    behind: Seq<(Seq<char>, Seq<char>)>,
)
    requires
        forall|i: int| 0 <= i < before.len() ==> (#[trigger] before[i]).0 != name,
    ensures
        field(before.push((name, value)) + behind, name) == Some(value),
        field(before, name) is None,
    decreases before.len(),
{
    let all = before.push((name, value)) + behind;
    if before.len() > 0 {
        let rest = before.skip(1);
        assert(before[0].0 != name);
        assert forall|i: int| 0 <= i < rest.len() implies (#[trigger] rest[i]).0 != name by {
            assert(rest[i] == before[i + 1]);
        }
        law_first_field(rest, name, value, behind);
        assert(all[0] == before[0]);
        assert(all.skip(1) =~= rest.push((name, value)) + behind);
    } else {
        assert(all[0] == (name, value));
    }
}

/// Law: the page, the controls and the handshake, which needs a key, have paths of their own; a path that
/// does not begin at the root leads nowhere.
#[verifier::spinoff_prover]
#[verifier::rlimit(60)]
pub proof fn law_routes(path: Seq<char>, fs: Seq<(Seq<char>, Seq<char>)>, music: Seq<char>)
    ensures
        place("/"@, fs, music) is Index,
        place("/index.html"@, fs, music) is Index,
        place("/ctrl"@, fs, music) is Control,
        field(fs, "sec-websocket-key"@) is None ==> place("/ws"@, fs, music) is Drop,
        field(fs, "sec-websocket-key"@) is Some ==> place("/ws"@, fs, music) == Place::Upgrade(
            field(fs, "sec-websocket-key"@)->0,
        ),
        path.len() > 0 && path[0] != '/' ==> place(path, fs, music) is NotFound,
{
    reveal_strlit("/");
    reveal_strlit("/index.html");
    reveal_strlit("/pkg/");
    reveal_strlit("/music/");
    reveal_strlit("/ctrl");
    reveal_strlit("/ws");
    let w = "/ws"@;
    let i = "/index.html"@;
    let c = "/ctrl"@;
    let r = "/"@;
    assert(i.len() == 11 && c.len() == 5 && w.len() == 3 && r.len() == 1);
    assert(i[0] == '/' && c[0] == '/' && w[0] == '/' && r[0] == '/');
    lemma_not_begun(c, "/pkg/"@, 1);
    lemma_not_begun(c, "/music/"@, 1);
    if path.len() > 0 && path[0] != '/' {
        lemma_not_begun(path, "/pkg/"@, 0);
        lemma_not_begun(path, "/music/"@, 0);
    }
}

/// Law: under `/pkg/` lie the files of the player, and under `/music/` the music of the chart.
#[verifier::spinoff_prover]
#[verifier::rlimit(60)]
pub proof fn law_routes_of_files(file: Seq<char>, fs: Seq<(Seq<char>, Seq<char>)>, music: Seq<char>)
    ensures
        place("/pkg/"@ + file, fs, music) == Place::Package(file),
        file == music ==> place("/music/"@ + file, fs, music) is Music,
        file != music ==> place("/music/"@ + file, fs, music) is NotFound,
{
    reveal_strlit("/");
    reveal_strlit("/index.html");
    reveal_strlit("/pkg/");
    reveal_strlit("/music/");
    reveal_strlit("/ctrl");
    reveal_strlit("/ws");
    let a = "/pkg/"@ + file;
    let c = "/music/"@ + file;
    crate::strings::law_beginnings_and_ends("/pkg/"@, file, file);
    crate::strings::law_beginnings_and_ends("/music/"@, file, file);
    assert(a[1] == 'p' && c[1] == 'm');
    assert(a.len() >= 5 && c.len() >= 7);
    assert("/index.html"@[1] == 'i' && "/ws"@[1] == 'w' && "/ctrl"@[1] == 'c' && "/"@.len() == 1);
    lemma_not_begun(c, "/pkg/"@, 1);
}

proof fn lemma_not_begun(s: Seq<char>, p: Seq<char>, i: int)
    requires
        0 <= i < p.len(),
        i < s.len() ==> s[i] != p[i],
    ensures
        after_prefix(s, p) is None,
{
    if begins(s, p) {
        assert(s.subrange(0, p.len() as int)[i] == s[i]);
    }
}

/// Law: a range in bytes is read as it is written: from its first byte to its last, or to the end of the
/// file where it names none or one behind the end, and as many from the end where it names no first byte.
pub proof fn law_range_is_read(first: nat, last: nat, total: nat)
    requires
        first <= u64::MAX,
        last <= u64::MAX,
        total > 0,
    ensures
        asked_range("bytes="@ + decimal(first) + "-"@ + decimal(last), total) == Some(
            (
                first,
                if last < total {
                    last
                } else {
                    (total - 1) as nat
                },
            ),
        ),
        asked_range("bytes="@ + decimal(first) + "-"@, total) == Some((first, (total - 1) as nat)),
        asked_range("bytes="@ + "-"@ + decimal(last), total) == Some(
            (
                if last < total {
                    (total - last) as nat
                } else {
                    0
                },
                (total - 1) as nat,
            ),
        ),
{
    reveal_strlit("-");
    let p = "bytes="@;
    let a = decimal(first);
    let b = decimal(last);
    let none = Seq::<char>::empty();
    crate::strings::law_decimal_is_read_back(first);
    crate::strings::law_decimal_is_read_back(last);
    assert(!a.contains('-')) by {
        if a.contains('-') {
            let i = choose|i: int| 0 <= i < a.len() && a[i] == '-';
            assert(crate::strings::is_digit(a[i]));
        }
    }
    assert(p + a + "-"@ + b =~= p + (a.push('-') + b));
    assert(p + a + "-"@ =~= p + (a.push('-') + none));
    assert(p + "-"@ + b =~= p + (none.push('-') + b));
    crate::strings::law_beginnings_and_ends(p, a.push('-') + b, none);
    crate::strings::law_beginnings_and_ends(p, a.push('-') + none, none);
    crate::strings::law_beginnings_and_ends(p, none.push('-') + b, none);
    crate::strings::law_cut_at(a, '-', b);
    crate::strings::law_cut_at(a, '-', none);
    crate::strings::law_cut_at(none, '-', b);
}

/// Law: without a range that can be read the whole file is meant.
pub proof fn law_no_range_is_all(r: Seq<char>, total: nat)
    requires
        total > 0,
    ensures
        chosen_range(None, total) == (0nat, (total - 1) as nat),
        !begins(r, "bytes="@) ==> chosen_range(Some(r), total) == (0nat, (total - 1) as nat),
        asked_range(r, total) is Some ==> chosen_range(Some(r), total) == asked_range(r, total)->0,
{
}

/// Law: the answers say what they are: 206 for a part, 200 for the whole, 416 for what the file does not
/// have and 101 for a handshake; each head ends in an empty line.
pub proof fn law_status_lines(start: nat, end: nat, total: nat, kind: Seq<char>)
    ensures
        begins(partial_text(start, end, total), "HTTP/1.1 206 "@),
        begins(whole_text(total), "HTTP/1.1 200 "@),
        begins(unsatisfiable_text(total), "HTTP/1.1 416 "@),
        begins(switching_text(kind), "HTTP/1.1 101 "@),
        begins(ok_head_text(kind, total), "HTTP/1.1 200 "@),
        begins(NOT_FOUND@, "HTTP/1.1 404 "@),
        begins(CONTROL_OK@, "HTTP/1.1 200 "@),
        begins(BAD_REQUEST@, "HTTP/1.1 400 "@),
        ends(partial_text(start, end, total), "\r\n\r\n"@),
        ends(whole_text(total), "\r\n\r\n"@),
        ends(unsatisfiable_text(total), "\r\n\r\n"@),
        ends(switching_text(kind), "\r\n\r\n"@),
        ends(ok_head_text(kind, total), "\r\n\r\n"@),
        ends(NOT_FOUND@, "\r\n\r\n"@),
        ends(BAD_REQUEST@, "\r\n\r\n"@),
        ends(CONTROL_OK@, "\r\n\r\nok"@),
{
    reveal_strlit("HTTP/1.1 206 ");
    reveal_strlit("HTTP/1.1 200 ");
    reveal_strlit("HTTP/1.1 416 ");
    reveal_strlit("HTTP/1.1 101 ");
    reveal_strlit("HTTP/1.1 404 ");
    reveal_strlit("HTTP/1.1 400 ");
    reveal_strlit("\r\n\r\n");
    reveal_strlit("\r\n\r\nok");
    reveal_strlit(
        "HTTP/1.1 206 Partial Content\r\nAccept-Ranges: bytes\r\nContent-Range: bytes ",
    );
    reveal_strlit(
        "HTTP/1.1 200 OK\r\nAccept-Ranges: bytes\r\nContent-Type: audio/mpeg\r\nContent-Length: ",
    );
    reveal_strlit("HTTP/1.1 416 Range Not Satisfiable\r\nContent-Range: bytes */");
    reveal_strlit("\r\nContent-Length: 0\r\nConnection: close\r\n\r\n");
    reveal_strlit("\r\nConnection: close\r\n\r\n");
    reveal_strlit(
        "HTTP/1.1 101 Switching Protocols\r\nUpgrade: websocket\r\nConnection: Upgrade\r\nSec-WebSocket-Accept: ",
    );
    reveal_strlit("HTTP/1.1 200 OK\r\nContent-Type: ");
    reveal_strlit("HTTP/1.1 404 Not Found\r\nContent-Length: 0\r\nConnection: close\r\n\r\n");
    reveal_strlit("HTTP/1.1 200 OK\r\nContent-Length: 2\r\nConnection: close\r\n\r\nok");
    reveal_strlit("HTTP/1.1 400 Bad Request\r\nContent-Length: 0\r\nConnection: close\r\n\r\n");
    lemma_status(partial_text(start, end, total), "HTTP/1.1 206 "@, "\r\n\r\n"@);
    lemma_status(whole_text(total), "HTTP/1.1 200 "@, "\r\n\r\n"@);
    lemma_status(unsatisfiable_text(total), "HTTP/1.1 416 "@, "\r\n\r\n"@);
    lemma_status(switching_text(kind), "HTTP/1.1 101 "@, "\r\n\r\n"@);
    lemma_status(ok_head_text(kind, total), "HTTP/1.1 200 "@, "\r\n\r\n"@);
    lemma_status(NOT_FOUND@, "HTTP/1.1 404 "@, "\r\n\r\n"@);
    lemma_status(BAD_REQUEST@, "HTTP/1.1 400 "@, "\r\n\r\n"@);
    lemma_status(CONTROL_OK@, "HTTP/1.1 200 "@, "\r\n\r\nok"@);
}

proof fn lemma_status(s: Seq<char>, p: Seq<char>, q: Seq<char>)
    requires
        p.len() <= s.len(),
        q.len() <= s.len(),
        forall|i: int| 0 <= i < p.len() ==> s[i] == #[trigger] p[i],
        forall|i: int| 0 <= i < q.len() ==> s[s.len() - q.len() + i] == #[trigger] q[i],
    ensures
        begins(s, p),
        ends(s, q),
{
    assert(s.subrange(0, p.len() as int) =~= p);
    assert(s.subrange(s.len() - q.len(), s.len() as int) =~= q);
}

/// Law: the head before a part of a file names its first and last byte and the length of the file, and as
/// many bytes to follow as there are from the one to the other.
pub proof fn law_partial_head(start: nat, end: nat, total: nat)
    requires
        start <= end,
    ensures
        crate::strings::occurs(
            partial_text(start, end, total),
            "Content-Range: bytes "@ + decimal(start) + "-"@ + decimal(end) + "/"@ + decimal(total)
                + "\r\n"@,
        ),
        crate::strings::occurs(
            partial_text(start, end, total),
            "Content-Length: "@ + decimal((end - start + 1) as nat) + "\r\n"@,
        ),
        crate::strings::occurs(whole_text(total), "Content-Length: "@ + decimal(total) + "\r\n"@),
        crate::strings::occurs(
            unsatisfiable_text(total),
            "Content-Range: bytes */"@ + decimal(total) + "\r\n"@,
        ),
{
    reveal_strlit("Content-Range: bytes ");
    reveal_strlit("Content-Range: bytes */");
    reveal_strlit("Content-Length: ");
    reveal_strlit("\r\n");
    reveal_strlit("\r\nContent-Type: audio/mpeg\r\nContent-Length: ");
    reveal_strlit(
        "HTTP/1.1 206 Partial Content\r\nAccept-Ranges: bytes\r\nContent-Range: bytes ",
    );
    reveal_strlit(
        "HTTP/1.1 200 OK\r\nAccept-Ranges: bytes\r\nContent-Type: audio/mpeg\r\nContent-Length: ",
    );
    reveal_strlit("HTTP/1.1 416 Range Not Satisfiable\r\nContent-Range: bytes */");
    reveal_strlit("\r\nContent-Length: 0\r\nConnection: close\r\n\r\n");
    reveal_strlit("\r\nConnection: close\r\n\r\n");
    let (a, b, c, d) = (
        decimal(start),
        decimal(end),
        decimal(total),
        decimal((end - start + 1) as nat),
    );
    let h = "HTTP/1.1 206 Partial Content\r\nAccept-Ranges: bytes\r\nContent-Range: bytes "@;
    let m = "\r\nContent-Type: audio/mpeg\r\nContent-Length: "@;
    let e = "\r\nConnection: close\r\n\r\n"@;
    let s = partial_text(start, end, total);
    let x = "Content-Range: bytes "@ + a + "-"@ + b + "/"@ + c + "\r\n"@;
    let i = h.len() - 21;
    assert(s.subrange(i, i + x.len()) =~= x);
    assert(crate::strings::stands_at(s, x, i));
    let y = "Content-Length: "@ + d + "\r\n"@;
    let j = s.len() - e.len() - d.len() - 16;
    assert(s.subrange(j, j + y.len()) =~= y);
    assert(crate::strings::stands_at(s, y, j));
    let t = whole_text(total);
    let z = "Content-Length: "@ + c + "\r\n"@;
    let k = t.len() - e.len() - c.len() - 16;
    assert(t.subrange(k, k + z.len()) =~= z);
    assert(crate::strings::stands_at(t, z, k));
    let u = unsatisfiable_text(total);
    let v = "Content-Range: bytes */"@ + c + "\r\n"@;
    let l = "HTTP/1.1 416 Range Not Satisfiable\r\nContent-Range: bytes */"@.len() - 23;
    assert(u.subrange(l, l + v.len()) =~= v);
    assert(crate::strings::stands_at(u, v, l));
}

/// Law: scripts and modules of the player are sent as what they are, by the ends of their names.
pub proof fn law_package_types(name: Seq<char>)
    ensures
        package_type(name + ".js"@) == "application/javascript"@,
        package_type(name + ".wasm"@) == "application/wasm"@,
        !ends(name, ".js"@) && !ends(name, ".wasm"@) ==> package_type(name)
            == "application/octet-stream"@,
{
    reveal_strlit(".js");
    reveal_strlit(".wasm");
    crate::strings::law_beginnings_and_ends(name, ".js"@, name);
    crate::strings::law_beginnings_and_ends(name, ".wasm"@, name);
    let w = name + ".wasm"@;
    assert(w.last() == 'm');
    if ends(w, ".js"@) {
        assert(w.subrange(w.len() - 3, w.len() as int)[2] == w[w.len() - 1]);
    }
}

/// Law: as much body is read as the request says, if it says so and it is no more than 64 kibibytes.
pub proof fn law_body_length(fs: Seq<(Seq<char>, Seq<char>)>, n: nat)
    ensures
        field(fs, "content-length"@) == Some(decimal(n)) && n <= 65536 ==> body_length(fs) == n,
        field(fs, "content-length"@) == Some(decimal(n)) && n > 65536 ==> body_length(fs) == 0,
        field(fs, "content-length"@) is None ==> body_length(fs) == 0,
        body_length(fs) <= 65536,
{
    crate::strings::law_decimal_is_read_back(n);
}

/// Law: the first line of a head asks for a path, and the others are its fields; a head without lines asks
/// for the root.
pub proof fn law_lines_of_a_head(line: Seq<char>, rest: Seq<char>)
    requires
        !line.contains('\n'),
        line.len() == 0 || line.last() != '\r',
    ensures
        head_path(line.push('\n') + rest) == path_of(line),
        head_fields(line.push('\n') + rest) == fields_of(lines_of(rest)),
        head_path(line.push('\r').push('\n') + rest) == path_of(line),
        head_fields(line.push('\r').push('\n') + rest) == fields_of(lines_of(rest)),
        head_path(Seq::empty()) == "/"@,
        head_fields(Seq::empty()).len() == 0,
{
    crate::strings::law_lines(line, rest);
    let all = seq![line] + lines_of(rest);
    assert(all.skip(1) =~= lines_of(rest));
    assert(all[0] == line);
    let none = Seq::<char>::empty();
    crate::strings::law_first_word(seq!['a'], none, ' ');
}

} // verus!
