//! The rules behind the HTTP and WebSocket gateway: which static files are
//! served and as what, how media names, byte ranges and session files are
//! read, what the request bodies must hold, and what the frontends are sent.
use std::collections::HashMap;
use vstd::prelude::*;
use crate::json::{JsonValue, JsonView, NumberView, member, pairs_view, elems_view, set_member, set_view};
use crate::dispatch::str_or;
use crate::types::{Message, MessageView, BlockView, ContentBlock, messages_view, blocks_view};
use crate::policy::{PolicyEngine, Rule};
use crate::text::{decimal, decimal_string, take_chars, take_prefix, hex, hex_char};
use crate::text::{
    has_infix, has_prefix, has_suffix, trimmed, to_chars, from_chars, trim, chars_eq,
    starts_with_str, ends_with_str, contains_str, push_char, push_hex2, hex2, parse_unsigned,
    parsed_unsigned, lowercase, to_lowercase, joined, str_eq, split_on, strip_leading,
    strip_trailing, split_first, split_last, strip_leading_exec, strip_trailing_exec, split_at_first,
};

verus! {

broadcast use vstd::std_specs::hash::group_hash_axioms;

// ── text shapes ─────────────────────────────────────────────────────────────

/// The text after the last `.` (all of `s` without one): `rsplit('.').next()`.
pub open spec fn last_piece(s: Seq<char>) -> Seq<char> {
    match split_last(s, '.') {
        Some(p) => p.1,
        None => s,
    }
}

/// The position of the last `c` in `s`, if any, with `split_last` read off it.
fn find_last(s: &Vec<char>, c: char) -> (r: Option<usize>)
    ensures
        match r {
            Some(k) => k < s@.len() && split_last(s@, c) == Some(
                (s@.subrange(0, k as int), s@.subrange(k + 1, s@.len() as int)),
            ),
            None => split_last(s@, c) is None,
        },
{
    let mut j: usize = s.len();
    proof {
        assert(s@.subrange(0, s@.len() as int) =~= s@);
    }
    while j > 0
        invariant
            j <= s@.len(),
            forall|q: int| j <= q < s@.len() ==> s@[q] != c,
            split_last(s@, c) == match split_last(s@.subrange(0, j as int), c) {
                Some(p) => Some((p.0, p.1 + s@.subrange(j as int, s@.len() as int))),
                None => None,
            },
        decreases j,
    {
        let ghost t = s@.subrange(0, j as int);
        proof {
            assert(t.drop_last() =~= s@.subrange(0, j - 1));
            assert(t.last() == s@[j - 1]);
        }
        if s[j - 1] == c {
            proof {
                assert(s@.subrange(j as int, s@.len() as int) =~= Seq::<char>::empty() + s@.subrange(
                    j as int,
                    s@.len() as int,
                ));
            }
            return Some(j - 1);
        }
        proof {
            assert forall|p: (Seq<char>, Seq<char>)| true implies (p.1.push(s@[j - 1]) + s@.subrange(
                j as int,
                s@.len() as int,
            ) =~= p.1 + s@.subrange(j - 1, s@.len() as int)) by {}
        }
        j = j - 1;
    }
    None
}

// ── URL encoding ────────────────────────────────────────────────────────────

/// Characters a URL query value keeps as they are.
pub open spec fn url_unreserved(c: char) -> bool {
    ('A' <= c && c <= 'Z') || ('a' <= c && c <= 'z') || ('0' <= c && c <= '9') || c == '-' || c
        == '_' || c == '.' || c == '~'
}

/// How one character is written in a query value: kept, `+` for a space,
/// else `%` and its code point in upper-case hexadecimal (two digits at
/// least).
pub open spec fn url_piece(c: char) -> Seq<char> {
    if url_unreserved(c) {
        seq![c]
    } else if c == ' ' {
        seq!['+']
    } else {
        seq!['%'] + hex2((c as u32) as nat)
    }
}

/// A query value, encoded character by character.
pub open spec fn url_encoded(s: Seq<char>) -> Seq<char>
    decreases s.len(),
{
    if s.len() == 0 {
        Seq::empty()
    } else {
        url_encoded(s.drop_last()) + url_piece(s.last())
    }
}

/// The value of a hexadecimal digit of either case, if `c` is one.
pub open spec fn hex_value(c: char) -> Option<nat> {
    if '0' <= c && c <= '9' {
        Some((c as u32 - 48) as nat)
    } else if 'A' <= c && c <= 'F' {
        Some((c as u32 - 55) as nat)
    } else if 'a' <= c && c <= 'f' {
        Some((c as u32 - 87) as nat)
    } else {
        None
    }
}

/// A query value read back as `application/x-www-form-urlencoded`: `+` is a
/// space, `%` with two hexadecimal digits the character of that code, and
/// any other character itself.
pub open spec fn form_decoded(e: Seq<char>) -> Seq<char>
    decreases e.len(),
{
    if e.len() == 0 {
        Seq::empty()
    } else if e[0] == '+' {
        seq![' '] + form_decoded(e.drop_first())
    } else if e[0] == '%' && e.len() >= 3 && hex_value(e[1]) is Some && hex_value(e[2]) is Some {
        seq![((hex_value(e[1])->0 * 16 + hex_value(e[2])->0) as u32) as char] + form_decoded(
            e.subrange(3, e.len() as int),
        )
    } else {
        seq![e[0]] + form_decoded(e.drop_first())
    }
}

/// Every character of `s` is ASCII.
pub open spec fn ascii_text(s: Seq<char>) -> bool {
    forall|i: int| 0 <= i < s.len() ==> (#[trigger] s[i] as u32) < 128
}

proof fn lemma_url_encoded_front(s: Seq<char>)
    requires
        s.len() > 0,
    ensures
        url_encoded(s) == url_piece(s[0]) + url_encoded(s.drop_first()),
    decreases s.len(),
{
    if s.len() == 1 {
        assert(s.drop_last() =~= Seq::<char>::empty());
        assert(s.drop_first() =~= Seq::<char>::empty());
        assert(url_encoded(s) =~= url_piece(s[0]) + url_encoded(s.drop_first()));
    } else {
        lemma_url_encoded_front(s.drop_last());
        assert(s.drop_last().drop_first() =~= s.drop_first().drop_last());
        assert(s.drop_first().last() == s.last());
        assert(s.drop_last()[0] == s[0]);
        assert(url_encoded(s) =~= url_piece(s[0]) + url_encoded(s.drop_first()));
    }
}

proof fn lemma_hex_digit(d: nat)
    requires
        d < 16,
    ensures
        hex_value(hex_char(d)) == Some(d),
        (hex_char(d) as u32) < 128,
{
}

proof fn lemma_piece_decodes(c: char, rest: Seq<char>)
    requires
        (c as u32) < 128,
    ensures
        form_decoded(url_piece(c) + rest) == seq![c] + form_decoded(rest),
{
    let e = url_piece(c) + rest;
    if url_unreserved(c) {
        assert(e[0] == c);
        assert(e.drop_first() =~= rest);
    } else if c == ' ' {
        assert(e[0] == '+');
        assert(e.drop_first() =~= rest);
    } else {
        let n = (c as u32) as nat;
        reveal_with_fuel(hex, 2);
        let hi: nat = n / 16;
        let lo: nat = n % 16;
        assert(n == hi * 16 + lo);
        lemma_hex_digit(hi);
        lemma_hex_digit(lo);
        lemma_hex_digit(0);
        if n < 16 {
            lemma_hex_digit(n);
            assert(hex2(n) =~= seq!['0', hex_char(n)]);
        } else {
            assert(hex(n) =~= seq![hex_char(hi), hex_char(lo)]);
        }
        assert(url_piece(c).len() == 3);
        assert(e[0] == '%');
        assert(hex_value(e[1])->0 * 16 + hex_value(e[2])->0 == n);
        assert(e.subrange(3, e.len() as int) =~= rest);
        assert((n as u32) as char == c);
    }
}

proof fn lemma_hex_ascii(n: nat)
    ensures
        ascii_text(hex(n)),
    decreases n,
{
    if n >= 16 {
        lemma_hex_ascii(n / 16);
        lemma_hex_digit(n % 16);
    } else {
        lemma_hex_digit(n);
    }
}

/// The encoding is plain ASCII whatever the name; and for an ASCII name,
/// reading the encoding back as a form-encoded query value gives the name.
pub proof fn law_url_encoding_round_trip(s: Seq<char>)
    ensures
        ascii_text(url_encoded(s)),
        ascii_text(s) ==> form_decoded(url_encoded(s)) == s,
    decreases s.len(),
{
    if s.len() > 0 {
        law_url_encoding_round_trip(s.drop_last());
        let c = s.last();
        let p = url_piece(c);
        if !url_unreserved(c) && c != ' ' {
            lemma_hex_ascii((c as u32) as nat);
            lemma_hex_digit(0);
            lemma_hex_digit((c as u32) as nat % 16);
        }
        assert(ascii_text(p));
        let e = url_encoded(s);
        assert(e == url_encoded(s.drop_last()) + p);
        assert forall|i: int| 0 <= i < e.len() implies (#[trigger] e[i] as u32) < 128 by {
            if i >= url_encoded(s.drop_last()).len() {
                assert(e[i] == p[i - url_encoded(s.drop_last()).len()]);
            }
        }
        if ascii_text(s) {
            lemma_url_encoded_front(s);
            assert(s[0] as u32 == s[0] as u32);
            lemma_piece_decodes(s[0], url_encoded(s.drop_first()));
            law_url_encoding_round_trip(s.drop_first());
            assert(ascii_text(s.drop_first())) by {
                assert forall|i: int| 0 <= i < s.drop_first().len() implies (#[trigger] s.drop_first()[i]
                    as u32) < 128 by {
                    assert(s.drop_first()[i] == s[i + 1]);
                }
            }
            assert(seq![s[0]] + s.drop_first() =~= s);
        }
    }
}

/// Encodes a media file name for a query string.
pub fn urlencoding_simple(s: &str) -> (r: String)
    ensures
        r@ == url_encoded(s@),
{
    let cs = to_chars(s);
    let mut r = String::new();
    let mut i: usize = 0;
    proof {
        assert(cs@.take(0) =~= Seq::<char>::empty());
    }
    while i < cs.len()
        invariant
            i <= cs@.len(),
            cs@ == s@,
            r@ == url_encoded(cs@.take(i as int)),
        decreases cs@.len() - i,
    {
        let c = cs[i];
        let ghost before = r@;
        proof {
            assert(cs@.take(i + 1).drop_last() =~= cs@.take(i as int));
            assert(cs@.take(i + 1).last() == c);
        }
        if ('A' <= c && c <= 'Z') || ('a' <= c && c <= 'z') || ('0' <= c && c <= '9') || c == '-'
            || c == '_' || c == '.' || c == '~' {
            push_char(&mut r, c);
            assert(r@ =~= before + url_piece(c));
        } else if c == ' ' {
            push_char(&mut r, '+');
            assert(r@ =~= before + url_piece(c));
        } else {
            push_char(&mut r, '%');
            let u = c as u32;
            push_hex2(&mut r, u);
            proof {
                assert(!url_unreserved(c));
                assert(url_piece(c) == seq!['%'] + hex2(u as nat));
                assert(r@ =~= before.push('%') + hex2(u as nat));
                assert(before.push('%') + hex2(u as nat) =~= before + (seq!['%'] + hex2(u as nat)));
            }
        }
        i = i + 1;
    }
    proof {
        assert(cs@.take(cs@.len() as int) =~= cs@);
    }
    r
}

// ── static files ────────────────────────────────────────────────────────────

/// The file a request path names: the path without leading slashes, with
/// `""` meaning the index page and `"mobile"` the mobile page.
pub open spec fn static_name(path: Seq<char>) -> Seq<char> {
    let p = strip_leading(path, '/');
    if p.len() == 0 {
        "index.html"@
    } else if p == "mobile"@ {
        "mobile.html"@
    } else {
        p
    }
}

/// The content type a file is served with; `None` (not found) for a name
/// with `..` in it, for anything under `lib/` but scripts and style
/// sheets, and for any other name not on the list.
pub open spec fn static_type(name: Seq<char>) -> Option<Seq<char>> {
    if has_infix(name, ".."@) {
        None
    } else if has_prefix(name, "lib/"@) {
        if has_suffix(name, ".js"@) {
            Some("application/javascript; charset=utf-8"@)
        } else if has_suffix(name, ".css"@) {
            Some("text/css; charset=utf-8"@)
        } else {
            None
        }
    } else if name == "index.html"@ || name == "desktop.html"@ || name == "mobile.html"@ {
        Some("text/html; charset=utf-8"@)
    } else if name == "style.css"@ || name == "desktop-style.css"@ {
        Some("text/css; charset=utf-8"@)
    } else if name == "app.js"@ || name == "desktop-app.js"@ {
        Some("application/javascript; charset=utf-8"@)
    } else {
        None
    }
}

/// The UI file a request path is answered with, and its content type;
/// `None` for not found.
pub fn static_route(path: &str) -> (r: Option<(String, String)>)
    ensures
        match r {
            Some((name, ct)) => name@ == static_name(path@) && static_type(name@) == Some(ct@),
            None => static_type(static_name(path@)) is None,
        },
{
    let cs = to_chars(path);
    let p = strip_leading_exec(&cs, '/');
    let ps = from_chars(&p);
    let name: String = if p.len() == 0 {
        "index.html".to_owned()
    } else if str_eq(ps.as_str(), "mobile") {
        "mobile.html".to_owned()
    } else {
        ps
    };
    let n = to_chars(name.as_str());
    let n_s = name.as_str();
    let ct: &str = if contains_str(&n, "..") {
        return None;
    } else if starts_with_str(&n, "lib/") {
        if ends_with_str(&n, ".js") {
            "application/javascript; charset=utf-8"
        } else if ends_with_str(&n, ".css") {
            "text/css; charset=utf-8"
        } else {
            return None;
        }
    } else if str_eq(n_s, "index.html") || str_eq(n_s, "desktop.html") || str_eq(n_s, "mobile.html") {
        "text/html; charset=utf-8"
    } else if str_eq(n_s, "style.css") || str_eq(n_s, "desktop-style.css") {
        "text/css; charset=utf-8"
    } else if str_eq(n_s, "app.js") || str_eq(n_s, "desktop-app.js") {
        "application/javascript; charset=utf-8"
    } else {
        return None;
    };
    Some((name, ct.to_owned()))
}

// ── media ───────────────────────────────────────────────────────────────────

/// The file extensions listed as audio.
pub open spec fn audio_exts() -> Seq<Seq<char>> {
    seq!["mp3"@, "wav"@, "ogg"@, "webm"@, "flac"@, "aac"@, "m4a"@, "opus"@]
}

/// The lower-cased text after the last `.` of a name.
pub open spec fn ext_of(name: Seq<char>) -> Seq<char> {
    lowercase(last_piece(name))
}

/// A name listed as an audio file.
pub open spec fn is_audio_name(name: Seq<char>) -> bool {
    audio_exts().contains(ext_of(name))
}

/// The content type an audio file is streamed with.
pub open spec fn audio_type(name: Seq<char>) -> Seq<char> {
    let e = ext_of(name);
    if e == "mp3"@ {
        "audio/mpeg"@
    } else if e == "wav"@ {
        "audio/wav"@
    } else if e == "ogg"@ || e == "opus"@ {
        "audio/ogg"@
    } else if e == "webm"@ {
        "audio/webm"@
    } else if e == "flac"@ {
        "audio/flac"@
    } else if e == "aac"@ || e == "m4a"@ {
        "audio/mp4"@
    } else {
        "application/octet-stream"@
    }
}

/// The lower-cased extension of `name`.
fn ext_string(name: &str) -> (r: String)
    ensures
        r@ == ext_of(name@),
{
    let cs = to_chars(name);
    let n = cs.len();
    let piece: Vec<char> = match find_last(&cs, '.') {
        Some(k) => {
            assert(k < n);
            let mut v: Vec<char> = Vec::new();
            let mut i: usize = k + 1;
            while i < cs.len()
                invariant
                    k + 1 <= i <= cs@.len(),
                    v@ == cs@.subrange(k + 1, i as int),
                decreases cs@.len() - i,
            {
                v.push(cs[i]);
                i = i + 1;
                assert(v@ =~= cs@.subrange(k + 1, i as int));
            }
            v
        },
        None => cs,
    };
    let low = to_lowercase(&piece);
    from_chars(&low)
}

/// Whether the media list shows this file.
pub fn is_audio_file(name: &str) -> (r: bool)
    ensures
        r == is_audio_name(name@),
{
    let e = ext_string(name);
    let es = e.as_str();
    let r = str_eq(es, "mp3") || str_eq(es, "wav") || str_eq(es, "ogg") || str_eq(es, "webm")
        || str_eq(es, "flac") || str_eq(es, "aac") || str_eq(es, "m4a") || str_eq(es, "opus");
    proof {
        let x = e@;
        let l = audio_exts();
        if r {
            if x == "mp3"@ { assert(l[0] == x); }
            if x == "wav"@ { assert(l[1] == x); }
            if x == "ogg"@ { assert(l[2] == x); }
            if x == "webm"@ { assert(l[3] == x); }
            if x == "flac"@ { assert(l[4] == x); }
            if x == "aac"@ { assert(l[5] == x); }
            if x == "m4a"@ { assert(l[6] == x); }
            if x == "opus"@ { assert(l[7] == x); }
        } else {
            assert forall|i: int| 0 <= i < l.len() implies l[i] != x by {}
        }
    }
    r
}

/// The content type an audio file is streamed with.
pub fn audio_content_type(name: &str) -> (r: String)
    ensures
        r@ == audio_type(name@),
{
    let e = ext_string(name);
    let es = e.as_str();
    let ct = if str_eq(es, "mp3") {
        "audio/mpeg"
    } else if str_eq(es, "wav") {
        "audio/wav"
    } else if str_eq(es, "ogg") || str_eq(es, "opus") {
        "audio/ogg"
    } else if str_eq(es, "webm") {
        "audio/webm"
    } else if str_eq(es, "flac") {
        "audio/flac"
    } else if str_eq(es, "aac") || str_eq(es, "m4a") {
        "audio/mp4"
    } else {
        "application/octet-stream"
    };
    ct.to_owned()
}

/// The link the media list gives for a file.
pub fn media_url(name: &str) -> (r: String)
    ensures
        r@ == "/api/sonus/stream?name="@ + url_encoded(name@),
{
    String::from_str("/api/sonus/stream?name=").concat(urlencoding_simple(name).as_str())
}

/// The file a stream request names: the trimmed `name` parameter; an
/// error when it is missing or blank, or names a path (`/`, `\`, `..`).
pub open spec fn stream_name_result(param: Option<Seq<char>>) -> Result<Seq<char>, Seq<char>> {
    match param {
        None => Err("missing name"@),
        Some(p) => {
            let n = trimmed(p);
            if n.len() == 0 {
                Err("missing name"@)
            } else if has_infix(n, "/"@) || has_infix(n, ".."@) || has_infix(n, "\\"@) {
                Err("invalid name"@)
            } else {
                Ok(n)
            }
        },
    }
}

/// Checks the `name` parameter of a stream request.
pub fn stream_name(param: Option<&str>) -> (r: Result<String, String>)
    ensures
        match r {
            Ok(n) => stream_name_result(match param {
                Some(p) => Some(p@),
                None => None,
            }) == Ok::<Seq<char>, Seq<char>>(n@),
            Err(e) => stream_name_result(match param {
                Some(p) => Some(p@),
                None => None,
            }) == Err::<Seq<char>, Seq<char>>(e@),
        },
{
    match param {
        None => Err("missing name".to_owned()),
        Some(p) => {
            let cs = to_chars(p);
            let n = trim(&cs);
            if n.len() == 0 {
                Err("missing name".to_owned())
            } else if contains_str(&n, "/") || contains_str(&n, "..") || contains_str(&n, "\\") {
                Err("invalid name".to_owned())
            } else {
                Ok(from_chars(&n))
            }
        },
    }
}

/// The byte range a `Range` header asks of a file of `total` bytes:
/// `bytes=START-END`, a missing or unreadable start read as 0, a missing,
/// empty or unreadable end as the last byte, the end cut to the last byte;
/// `None` (the whole file) without the `bytes=` prefix or when the start is
/// past the end or the file.
pub open spec fn range_of(h: Seq<char>, total: nat) -> Option<(nat, nat)> {
    if !has_prefix(h, "bytes="@) {
        None
    } else {
        let rest = h.subrange(6, h.len() as int);
        let parts = split_first(rest, '-');
        let last: nat = if total == 0 {
            0
        } else {
            (total - 1) as nat
        };
        let start: nat = match parsed_unsigned(parts.0, usize::MAX as nat) {
            Some(n) => n,
            None => 0,
        };
        let end0: nat = match parts.1 {
            Some(t) => if t.len() == 0 {
                last
            } else {
                match parsed_unsigned(t, usize::MAX as nat) {
                    Some(n) => n,
                    None => last,
                }
            },
            None => last,
        };
        let end: nat = if end0 < last {
            end0
        } else {
            last
        };
        if start < total && start <= end {
            Some((start, end))
        } else {
            None
        }
    }
}

/// Reads a `Range` header against a file of `total` bytes.
pub fn parse_range(header: &str, total: usize) -> (r: Option<(usize, usize)>)
    ensures
        match r {
            Some((a, b)) => range_of(header@, total as nat) == Some((a as nat, b as nat)),
            None => range_of(header@, total as nat) is None,
        },
{
    let h = to_chars(header);
    if !starts_with_str(&h, "bytes=") {
        return None;
    }
    proof {
        reveal_strlit("bytes=");
    }
    let mut rest: Vec<char> = Vec::new();
    let mut i: usize = 6;
    while i < h.len()
        invariant
            6 <= i <= h@.len(),
            rest@ == h@.subrange(6, i as int),
        decreases h@.len() - i,
    {
        rest.push(h[i]);
        i = i + 1;
        assert(rest@ =~= h@.subrange(6, i as int));
    }
    let (first, second) = split_at_first(&rest, '-');
    let max: u64 = usize::MAX as u64;
    let last: usize = if total == 0 {
        0
    } else {
        total - 1
    };
    let start: usize = match parse_unsigned(&first, max) {
        Some(n) => n as usize,
        None => 0,
    };
    let end0: usize = match second {
        Some(t) => if t.len() == 0 {
            last
        } else {
            match parse_unsigned(&t, max) {
                Some(n) => n as usize,
                None => last,
            }
        },
        None => last,
    };
    let end: usize = if end0 < last {
        end0
    } else {
        last
    };
    if start < total && start <= end {
        Some((start, end))
    } else {
        None
    }
}

// ── session files ───────────────────────────────────────────────────────────

/// The session a stored file belongs to: a `.jsonl` file whose stem reads
/// as a number (a name starting with its only `.` has no extension).
pub open spec fn session_file(name: Seq<char>) -> Option<u64> {
    match split_last(name, '.') {
        Some(p) => if p.0.len() > 0 && p.1 == "jsonl"@ {
            match parsed_unsigned(p.0, u64::MAX as nat) {
                Some(n) => Some(n as u64),
                None => None,
            }
        } else {
            None
        },
        None => None,
    }
}

/// Reads the session number off a stored session file name.
pub fn session_file_id(name: &str) -> (r: Option<u64>)
    ensures
        r == session_file(name@),
{
    let cs = to_chars(name);
    let n = cs.len();
    match find_last(&cs, '.') {
        Some(k) => {
            assert(k < n);
            if k == 0 {
                return None;
            }
            let mut stem: Vec<char> = Vec::new();
            let mut i: usize = 0;
            while i < k
                invariant
                    i <= k < cs@.len(),
                    stem@ == cs@.subrange(0, i as int),
                decreases k - i,
            {
                stem.push(cs[i]);
                i = i + 1;
                assert(stem@ =~= cs@.subrange(0, i as int));
            }
            let mut ext: Vec<char> = Vec::new();
            let mut j: usize = k + 1;
            while j < cs.len()
                invariant
                    k + 1 <= j <= cs@.len(),
                    ext@ == cs@.subrange(k + 1, j as int),
                decreases cs@.len() - j,
            {
                ext.push(cs[j]);
                j = j + 1;
                assert(ext@ =~= cs@.subrange(k + 1, j as int));
            }
            let es = from_chars(&ext);
            if !str_eq(es.as_str(), "jsonl") {
                return None;
            }
            parse_unsigned(&stem, u64::MAX)
        },
        None => None,
    }
}

/// The OpenAI-compatible model listing under a base URL.
pub fn models_url(base: &str) -> (r: String)
    ensures
        r@ == strip_trailing(base@, '/') + "/models"@,
{
    let cs = to_chars(base);
    let b = strip_trailing_exec(&cs, '/');
    from_chars(&b).concat("/models")
}

// ── transcripts ─────────────────────────────────────────────────────────────

/// The transcript lines kept: non-empty ones, and not the blank-audio
/// marker when `drop_marker` is set.
pub open spec fn transcript_kept(drop_marker: bool) -> spec_fn(Seq<char>) -> bool {
    |l: Seq<char>| l.len() > 0 && !(drop_marker && l == "[BLANK_AUDIO]"@)
}

/// The speech-to-text output as one line: its lines trimmed, the kept ones
/// joined with spaces.
pub open spec fn transcript_of(raw: Seq<char>, drop_marker: bool) -> Seq<char> {
    joined(
        split_on(raw, '\n').map_values(|l: Seq<char>| trimmed(l)).filter(transcript_kept(drop_marker)),
        " "@,
    )
}

proof fn lemma_joined_push(xs: Seq<Seq<char>>, x: Seq<char>, sep: Seq<char>)
    ensures
        joined(xs.push(x), sep) == if xs.len() == 0 {
            x
        } else {
            joined(xs, sep) + sep + x
        },
{
    assert(xs.push(x).drop_last() =~= xs);
    if xs.len() == 0 {
        assert(xs.push(x)[0] == x);
    }
}

/// Reads a speech-to-text output: lines trimmed, empty lines (and the
/// blank-audio marker when `drop_marker` is set) left out, the rest joined
/// with spaces.
pub fn transcript_text(raw: &str, drop_marker: bool) -> (r: String)
    ensures
        r@ == transcript_of(raw@, drop_marker),
{
    let cs = to_chars(raw);
    let ghost keep = transcript_kept(drop_marker);
    let ghost tr = |l: Seq<char>| trimmed(l);
    let mut out = String::new();
    let mut any = false;
    let mut cur: Vec<char> = Vec::new();
    let ghost mut done: Seq<Seq<char>> = Seq::empty();
    let mut i: usize = 0;
    proof {
        reveal(Seq::filter);
        assert(cs@.take(0) =~= Seq::<char>::empty());
        assert(split_on(cs@.take(0), '\n') =~= done.push(cur@));
        assert(done.map_values(tr).filter(keep) =~= Seq::<Seq<char>>::empty());
    }
    while i < cs.len()
        invariant
            i <= cs@.len(),
            cs@ == raw@,
            keep == transcript_kept(drop_marker),
            tr == (|l: Seq<char>| trimmed(l)),
            split_on(cs@.take(i as int), '\n') == done.push(cur@),
            out@ == joined(done.map_values(tr).filter(keep), " "@),
            any == (done.map_values(tr).filter(keep).len() > 0),
        decreases cs@.len() - i,
    {
        let c = cs[i];
        proof {
            assert(cs@.take(i + 1).drop_last() =~= cs@.take(i as int));
            assert(cs@.take(i + 1).last() == c);
        }
        if c == '\n' {
            let t = trim(&cur);
            let ghost kept_before = done.map_values(tr).filter(keep);
            let keep_it = t.len() > 0 && !(drop_marker && {
                let ts = from_chars(&t);
                str_eq(ts.as_str(), "[BLANK_AUDIO]")
            });
            proof {
                reveal(Seq::filter);
                let nd = done.push(cur@);
                assert(nd.map_values(tr) =~= done.map_values(tr).push(trimmed(cur@)));
                assert(nd.map_values(tr).drop_last() =~= done.map_values(tr));
                assert(keep_it == keep(trimmed(cur@)));
            }
            if keep_it {
                proof {
                    lemma_joined_push(kept_before, t@, " "@);
                }
                if any {
                    out = out.concat(" ").concat(from_chars(&t).as_str());
                } else {
                    out = from_chars(&t);
                }
                any = true;
            }
            proof {
                done = done.push(cur@);
            }
            cur = Vec::new();
            proof {
                assert(split_on(cs@.take(i + 1), '\n') =~= done.push(cur@));
            }
        } else {
            let ghost prev = cur@;
            cur.push(c);
            proof {
                let p = split_on(cs@.take(i as int), '\n');
                assert(p == done.push(prev));
                assert(p.update(p.len() - 1, p.last().push(c)) =~= done.push(cur@));
            }
        }
        i = i + 1;
    }
    proof {
        assert(cs@.take(cs@.len() as int) =~= cs@);
    }
    let t = trim(&cur);
    let ghost kept_before = done.map_values(tr).filter(keep);
    let keep_it = t.len() > 0 && !(drop_marker && {
        let ts = from_chars(&t);
        str_eq(ts.as_str(), "[BLANK_AUDIO]")
    });
    proof {
        reveal(Seq::filter);
        let nd = done.push(cur@);
        assert(nd.map_values(tr) =~= done.map_values(tr).push(trimmed(cur@)));
        assert(nd.map_values(tr).drop_last() =~= done.map_values(tr));
        assert(keep_it == keep(trimmed(cur@)));
    }
    if keep_it {
        proof {
            lemma_joined_push(kept_before, t@, " "@);
        }
        if any {
            out = out.concat(" ").concat(from_chars(&t).as_str());
        } else {
            out = from_chars(&t);
        }
    }
    out
}

// ── request bodies ──────────────────────────────────────────────────────────

/// `body[key]` as a string, if it is one.
pub open spec fn str_field(body: JsonView, key: Seq<char>) -> Option<Seq<char>> {
    body.at(key).as_str()
}

fn field_text(body: &JsonValue, key: &str) -> (r: Option<String>)
    ensures
        match r {
            Some(t) => str_field(body@, key@) == Some(t@),
            None => str_field(body@, key@) is None,
        },
{
    match body.get_str(key) {
        Some(t) => Some(t.clone()),
        None => None,
    }
}

/// A trimmed text field; blank or missing is `None`.
pub open spec fn filled(body: JsonView, key: Seq<char>) -> Option<Seq<char>> {
    match str_field(body, key) {
        Some(t) => if trimmed(t).len() > 0 {
            Some(trimmed(t))
        } else {
            None
        },
        None => None,
    }
}

fn filled_field(body: &JsonValue, key: &str) -> (r: Option<String>)
    ensures
        match r {
            Some(t) => filled(body@, key@) == Some(t@),
            None => filled(body@, key@) is None,
        },
{
    match field_text(body, key) {
        Some(t) => {
            let cs = to_chars(t.as_str());
            let tr = trim(&cs);
            if tr.len() > 0 {
                Some(from_chars(&tr))
            } else {
                None
            }
        },
        None => None,
    }
}

/// The result of a required field: its trimmed text, or `err` when blank
/// or missing.
pub open spec fn required(body: JsonView, key: Seq<char>, err: Seq<char>) -> Result<Seq<char>, Seq<char>> {
    match filled(body, key) {
        Some(t) => Ok(t),
        None => Err(err),
    }
}

/// Views a `Result` of strings.
pub open spec fn result_view(r: Result<String, String>) -> Result<Seq<char>, Seq<char>> {
    match r {
        Ok(t) => Ok(t@),
        Err(e) => Err(e@),
    }
}

/// The policy mode a settings request asks for: `suggest`, `auto-edit` or
/// `yolo` (trimmed); anything else is an unknown mode.
pub open spec fn mode_request(body: JsonView) -> Result<Seq<char>, Seq<char>> {
    let m = trimmed(str_or(body.at("mode"@), ""@));
    if m == "suggest"@ || m == "auto-edit"@ || m == "yolo"@ {
        Ok(m)
    } else {
        Err("unknown mode"@)
    }
}

/// Reads a request to set the policy mode.
pub fn requested_mode(body: &JsonValue) -> (r: Result<String, String>)
    ensures
        result_view(r) == mode_request(body@),
{
    proof {
        reveal_strlit("");
    }
    let raw = match field_text(body, "mode") {
        Some(t) => t,
        None => String::new(),
    };
    assert(raw@ == str_or(body@.at("mode"@), ""@));
    let cs = to_chars(raw.as_str());
    let m = from_chars(&trim(&cs));
    let ms = m.as_str();
    assert(m@ == trimmed(str_or(body@.at("mode"@), ""@)));
    if str_eq(ms, "suggest") || str_eq(ms, "auto-edit") || str_eq(ms, "yolo") {
        Ok(m)
    } else {
        Err("unknown mode".to_owned())
    }
}

/// Reads a request to set the API key: the trimmed `key`.
pub fn requested_key(body: &JsonValue) -> (r: Result<String, String>)
    ensures
        result_view(r) == required(body@, "key"@, "empty key"@),
{
    match filled_field(body, "key") {
        Some(k) => Ok(k),
        None => Err("empty key".to_owned()),
    }
}

/// Reads a request to set both API keys: each trimmed key that is given.
pub fn requested_keys(body: &JsonValue) -> (r: (Option<String>, Option<String>))
    ensures
        match r.0 {
            Some(k) => filled(body@, "anthropic"@) == Some(k@),
            None => filled(body@, "anthropic"@) is None,
        },
        match r.1 {
            Some(k) => filled(body@, "oai"@) == Some(k@),
            None => filled(body@, "oai"@) is None,
        },
{
    (filled_field(body, "anthropic"), filled_field(body, "oai"))
}

/// Reads a request to set the model: the trimmed `model`.
pub fn requested_model(body: &JsonValue) -> (r: Result<String, String>)
    ensures
        result_view(r) == required(body@, "model"@, "empty model"@),
{
    match filled_field(body, "model") {
        Some(m) => Ok(m),
        None => Err("empty model".to_owned()),
    }
}

/// A request to switch the inference backend.
#[derive(Debug)]
pub struct BackendChange {
    /// The backend, trimmed and lower-cased.
    pub backend: String,
    /// A new base URL for OpenAI-compatible backends, if given.
    pub oai_base_url: Option<String>,
    /// A new model, if given.
    pub model: Option<String>,
}

/// Reads a request to switch the backend; a blank backend is an error.
pub fn backend_change(body: &JsonValue) -> (r: Result<BackendChange, String>)
    ensures
        match r {
            Ok(c) => {
                &&& c.backend@ == lowercase(trimmed(str_or(body@.at("backend"@), ""@)))
                &&& c.backend@.len() > 0
                &&& match c.oai_base_url {
                    Some(u) => filled(body@, "oai_base_url"@) == Some(u@),
                    None => filled(body@, "oai_base_url"@) is None,
                }
                &&& match c.model {
                    Some(m) => filled(body@, "model"@) == Some(m@),
                    None => filled(body@, "model"@) is None,
                }
            },
            Err(e) => lowercase(trimmed(str_or(body@.at("backend"@), ""@))).len() == 0 && e@
                == "missing backend"@,
        },
{
    proof {
        reveal_strlit("");
    }
    let raw = match field_text(body, "backend") {
        Some(t) => t,
        None => String::new(),
    };
    assert(raw@ == str_or(body@.at("backend"@), ""@));
    let cs = to_chars(raw.as_str());
    let tr = trim(&cs);
    let low = to_lowercase(&tr);
    assert(low@ == lowercase(trimmed(str_or(body@.at("backend"@), ""@))));
    if low.len() == 0 {
        return Err("missing backend".to_owned());
    }
    Ok(BackendChange {
        backend: from_chars(&low),
        oai_base_url: filled_field(body, "oai_base_url"),
        model: filled_field(body, "model"),
    })
}

/// The power action a request asks for, as the `systemctl` verb.
pub open spec fn power_request(body: JsonView) -> Result<Seq<char>, Seq<char>> {
    let a = str_or(body.at("action"@), ""@);
    if a == "reboot"@ {
        Ok("reboot"@)
    } else if a == "shutdown"@ {
        Ok("poweroff"@)
    } else {
        Err("unknown action"@)
    }
}

/// Reads a power request.
pub fn power_command(body: &JsonValue) -> (r: Result<String, String>)
    ensures
        result_view(r) == power_request(body@),
{
    proof {
        reveal_strlit("");
    }
    let a = match field_text(body, "action") {
        Some(t) => t,
        None => String::new(),
    };
    assert(a@ == str_or(body@.at("action"@), ""@));
    if str_eq(a.as_str(), "reboot") {
        Ok("reboot".to_owned())
    } else if str_eq(a.as_str(), "shutdown") {
        Ok("poweroff".to_owned())
    } else {
        Err("unknown action".to_owned())
    }
}

/// Reads a request to replace the system prompt: `content`, as given.
pub fn soul_content(body: &JsonValue) -> (r: Result<String, String>)
    ensures
        result_view(r) == match str_field(body@, "content"@) {
            Some(t) => Ok(t),
            None => Err("missing content"@),
        },
{
    match field_text(body, "content") {
        Some(t) => Ok(t),
        None => Err("missing content".to_owned()),
    }
}

/// A text field that must not be blank; it is kept as given.
pub open spec fn not_blank(body: JsonView, key: Seq<char>) -> Option<Seq<char>> {
    match str_field(body, key) {
        Some(t) => if trimmed(t).len() > 0 {
            Some(t)
        } else {
            None
        },
        None => None,
    }
}

fn not_blank_field(body: &JsonValue, key: &str) -> (r: Option<String>)
    ensures
        match r {
            Some(t) => not_blank(body@, key@) == Some(t@),
            None => not_blank(body@, key@) is None,
        },
{
    match field_text(body, key) {
        Some(t) => {
            let cs = to_chars(t.as_str());
            if trim(&cs).len() > 0 {
                Some(t)
            } else {
                None
            }
        },
        None => None,
    }
}

/// Reads a message injected into a session: `message`, not blank.
pub fn session_message(body: &JsonValue) -> (r: Result<String, String>)
    ensures
        result_view(r) == match not_blank(body@, "message"@) {
            Some(t) => Ok(t),
            None => Err("missing message"@),
        },
{
    match not_blank_field(body, "message") {
        Some(t) => Ok(t),
        None => Err("missing message".to_owned()),
    }
}

/// Reads a request to speak: `text`, not blank.
pub fn speak_text(body: &JsonValue) -> (r: Option<String>)
    ensures
        match r {
            Some(t) => not_blank(body@, "text"@) == Some(t@),
            None => not_blank(body@, "text"@) is None,
        },
{
    not_blank_field(body, "text")
}

/// The patterns the shell endpoint refuses outright.
pub open spec fn shell_denied(cmd: Seq<char>) -> bool {
    has_infix(cmd, "rm -rf /"@) || has_infix(cmd, "mkfs"@) || has_infix(cmd, "dd if=/dev/zero"@)
        || has_infix(cmd, ":(){ :|:& };:"@)
}

/// The command a shell request runs: the trimmed `command`; an error when
/// it is blank or missing, or holds a refused pattern.
pub open spec fn shell_request(body: JsonView) -> Result<Seq<char>, Seq<char>> {
    match filled(body, "command"@) {
        None => Err("missing command"@),
        Some(c) => if shell_denied(c) {
            Err("command denied"@)
        } else {
            Ok(c)
        },
    }
}

/// Reads a shell request.
pub fn shell_command(body: &JsonValue) -> (r: Result<String, String>)
    ensures
        result_view(r) == shell_request(body@),
{
    match filled_field(body, "command") {
        None => Err("missing command".to_owned()),
        Some(c) => {
            let cs = to_chars(c.as_str());
            if contains_str(&cs, "rm -rf /") || contains_str(&cs, "mkfs") || contains_str(
                &cs,
                "dd if=/dev/zero",
            ) || contains_str(&cs, ":(){ :|:& };:") {
                Err("command denied".to_owned())
            } else {
                Ok(c)
            }
        },
    }
}

/// Reads a message for a running council: `message`, non-empty.
pub fn butt_in_message(body: &JsonValue) -> (r: Option<String>)
    ensures
        match r {
            Some(t) => str_or(body@.at("message"@), ""@) == t@ && t@.len() > 0,
            None => str_or(body@.at("message"@), ""@).len() == 0,
        },
{
    proof {
        reveal_strlit("");
    }
    let m = match field_text(body, "message") {
        Some(t) => t,
        None => String::new(),
    };
    if m.as_str().is_empty() {
        None
    } else {
        Some(m)
    }
}

/// Whether a camera snapshot uses the night settings (`night=true` or `1`).
pub fn night_mode(param: Option<&str>) -> (r: bool)
    ensures
        r == match param {
            Some(v) => v@ == "true"@ || v@ == "1"@,
            None => false,
        },
{
    match param {
        Some(v) => str_eq(v, "true") || str_eq(v, "1"),
        None => false,
    }
}

/// Whether a sensor node may connect: always when no token is configured,
/// otherwise only with that token.
pub fn token_accepted(expected: &str, provided: Option<&str>) -> (r: bool)
    ensures
        r == (expected@.len() == 0 || match provided {
            Some(p) => p@ == expected@,
            None => expected@ == ""@,
        }),
{
    if expected.is_empty() {
        return true;
    }
    match provided {
        Some(p) => str_eq(p, expected),
        None => str_eq("", expected),
    }
}

/// The window and size of a recent-events query: 24 hours and 500 events
/// by default, at most a week and 2000 events.
pub fn recent_limits(hours: Option<u64>, max: Option<usize>) -> (r: (u64, usize))
    ensures
        r.0 == match hours {
            Some(h) => if h < 168 {
                h
            } else {
                168
            },
            None => 24,
        },
        r.1 == match max {
            Some(m) => if m < 2000 {
                m
            } else {
                2000
            },
            None => 500,
        },
{
    let h = match hours {
        Some(h) => if h < 168 {
            h
        } else {
            168
        },
        None => 24,
    };
    let m = match max {
        Some(m) => if m < 2000 {
            m
        } else {
            2000
        },
        None => 500,
    };
    (h, m)
}

// ── the frontend socket ─────────────────────────────────────────────────────

/// A content block as it is sent to frontends.
pub open spec fn block_json(b: BlockView) -> JsonView {
    match b {
        BlockView::Text(t) => JsonView::Object(
            seq![("type"@, JsonView::Str("text"@)), ("text"@, JsonView::Str(t))],
        ),
        BlockView::Thinking(th, sig) => JsonView::Object(
            seq![
                ("type"@, JsonView::Str("thinking"@)),
                ("thinking"@, JsonView::Str(th)),
                ("signature"@, JsonView::Str(sig)),
            ],
        ),
        BlockView::ToolUse(id, name, input) => JsonView::Object(
            seq![
                ("type"@, JsonView::Str("tool_use"@)),
                ("id"@, JsonView::Str(id)),
                ("name"@, JsonView::Str(name)),
                ("input"@, input),
            ],
        ),
        BlockView::ToolResult(tid, content, err) => JsonView::Object(
            seq![
                ("type"@, JsonView::Str("tool_result"@)),
                ("tool_use_id"@, JsonView::Str(tid)),
                ("content"@, content),
                ("is_error"@, JsonView::Bool(err)),
            ],
        ),
    }
}

/// A message as it is sent to frontends.
pub open spec fn message_json(m: MessageView) -> JsonView {
    match m {
        MessageView::User(b) => JsonView::Object(
            seq![
                ("role"@, JsonView::Str("user"@)),
                ("content"@, JsonView::Array(b.map_values(|x: BlockView| block_json(x)))),
            ],
        ),
        MessageView::Assistant(b) => JsonView::Object(
            seq![
                ("role"@, JsonView::Str("assistant"@)),
                ("content"@, JsonView::Array(b.map_values(|x: BlockView| block_json(x)))),
            ],
        ),
    }
}

/// The frame that tells a frontend its session and that session's history.
pub open spec fn session_init_json(id: u64, history: Seq<MessageView>) -> JsonView {
    JsonView::Object(
        seq![
            ("type"@, JsonView::Str("session_init"@)),
            ("session_id"@, JsonView::Number(NumberView::PosInt(id))),
            ("history"@, JsonView::Array(history.map_values(|m: MessageView| message_json(m)))),
        ],
    )
}

fn object_of(fields: Vec<(String, JsonValue)>) -> (r: JsonValue)
    ensures
        r@ == JsonView::Object(pairs_view(fields@)),
{
    JsonValue::object(fields)
}

/// A content block in its wire form.
pub fn block_to_json(b: &ContentBlock) -> (r: JsonValue)
    ensures
        r@ == block_json(b@),
{
    let mut f: Vec<(String, JsonValue)> = Vec::new();
    match b {
        ContentBlock::Text { text } => {
            f.push(("type".to_owned(), JsonValue::string("text")));
            f.push(("text".to_owned(), JsonValue::string(text.as_str())));
        },
        ContentBlock::Thinking { thinking, signature } => {
            f.push(("type".to_owned(), JsonValue::string("thinking")));
            f.push(("thinking".to_owned(), JsonValue::string(thinking.as_str())));
            f.push(("signature".to_owned(), JsonValue::string(signature.as_str())));
        },
        ContentBlock::ToolUse { id, name, input } => {
            f.push(("type".to_owned(), JsonValue::string("tool_use")));
            f.push(("id".to_owned(), JsonValue::string(id.as_str())));
            f.push(("name".to_owned(), JsonValue::string(name.as_str())));
            f.push(("input".to_owned(), input.deep_copy()));
        },
        ContentBlock::ToolResult { tool_use_id, content, is_error } => {
            f.push(("type".to_owned(), JsonValue::string("tool_result")));
            f.push(("tool_use_id".to_owned(), JsonValue::string(tool_use_id.as_str())));
            f.push(("content".to_owned(), content.deep_copy()));
            f.push(("is_error".to_owned(), JsonValue::Bool(*is_error)));
        },
    }
    let ghost fv = pairs_view(f@);
    let r = object_of(f);
    proof {
        match b@ {
            BlockView::Text(t) => {
                assert(fv =~= seq![("type"@, JsonView::Str("text"@)), ("text"@, JsonView::Str(t))]);
            },
            BlockView::Thinking(th, sig) => {
                assert(fv =~= seq![
                    ("type"@, JsonView::Str("thinking"@)),
                    ("thinking"@, JsonView::Str(th)),
                    ("signature"@, JsonView::Str(sig)),
                ]);
            },
            BlockView::ToolUse(id, name, input) => {
                assert(fv =~= seq![
                    ("type"@, JsonView::Str("tool_use"@)),
                    ("id"@, JsonView::Str(id)),
                    ("name"@, JsonView::Str(name)),
                    ("input"@, input),
                ]);
            },
            BlockView::ToolResult(tid, content, err) => {
                assert(fv =~= seq![
                    ("type"@, JsonView::Str("tool_result"@)),
                    ("tool_use_id"@, JsonView::Str(tid)),
                    ("content"@, content),
                    ("is_error"@, JsonView::Bool(err)),
                ]);
            },
        }
    }
    r
}

/// A message in its wire form.
pub fn message_to_json(m: &Message) -> (r: JsonValue)
    ensures
        r@ == message_json(m@),
{
    let (role, content) = match m {
        Message::User { content } => ("user", content),
        Message::Assistant { content } => ("assistant", content),
    };
    let mut blocks: Vec<JsonValue> = Vec::new();
    let mut i: usize = 0;
    while i < content.len()
        invariant
            i <= content@.len(),
            blocks@.len() == i,
            forall|j: int| 0 <= j < i ==> #[trigger] blocks@[j]@ == block_json(content@[j]@),
        decreases content@.len() - i,
    {
        blocks.push(block_to_json(&content[i]));
        i = i + 1;
    }
    let ghost bv = elems_view(blocks@);
    proof {
        assert(bv =~= blocks_view(content@).map_values(|x: BlockView| block_json(x)));
    }
    let mut f: Vec<(String, JsonValue)> = Vec::new();
    f.push(("role".to_owned(), JsonValue::string(role)));
    f.push(("content".to_owned(), JsonValue::array(blocks)));
    let ghost fv = pairs_view(f@);
    let r = object_of(f);
    proof {
        assert(fv =~= seq![
            ("role"@, JsonView::Str(role@)),
            ("content"@, JsonView::Array(bv)),
        ]);
    }
    r
}

/// The frame that tells a frontend its session and that session's history.
pub fn make_session_init(session_id: u64, history: &Vec<Message>) -> (r: JsonValue)
    ensures
        r@ == session_init_json(session_id, messages_view(history@)),
{
    let mut msgs: Vec<JsonValue> = Vec::new();
    let mut i: usize = 0;
    while i < history.len()
        invariant
            i <= history@.len(),
            msgs@.len() == i,
            forall|j: int| 0 <= j < i ==> #[trigger] msgs@[j]@ == message_json(history@[j]@),
        decreases history@.len() - i,
    {
        msgs.push(message_to_json(&history[i]));
        i = i + 1;
    }
    let ghost mv = elems_view(msgs@);
    proof {
        assert(mv =~= messages_view(history@).map_values(|m: MessageView| message_json(m)));
    }
    let mut f: Vec<(String, JsonValue)> = Vec::new();
    f.push(("type".to_owned(), JsonValue::string("session_init")));
    f.push(("session_id".to_owned(), JsonValue::uint(session_id)));
    f.push(("history".to_owned(), JsonValue::array(msgs)));
    let ghost fv = pairs_view(f@);
    let r = object_of(f);
    proof {
        assert(fv =~= seq![
            ("type"@, JsonView::Str("session_init"@)),
            ("session_id"@, JsonView::Number(NumberView::PosInt(session_id))),
            ("history"@, JsonView::Array(mv)),
        ]);
    }
    r
}

/// What the gateway does with a frame a frontend sent.
#[derive(Debug)]
pub enum FrameAction {
    /// Answer with the `session_init` frame for this session and history.
    Init { session_id: u64, history: Vec<Message> },
    /// Emit this frame, stamped with the socket's session, as an event.
    Emit(JsonValue),
}

/// A `hello` frame: the frontend resumes a session.
pub open spec fn is_hello(frame: JsonView) -> bool {
    frame.at("type"@).as_str() == Some("hello"@)
}

/// Reads one frame from a frontend. A `hello` resumes the session it names
/// when its history is held (the socket then speaks for that session) and
/// is answered with that session's history, or an empty one for the current
/// session. Any other frame is stamped with the socket's session and
/// emitted.
pub fn on_socket_frame(
    session_id: &mut u64,
    frame: JsonValue,
    histories: &HashMap<u64, Vec<Message>>,
) -> (r: FrameAction)
    requires
        is_hello(frame@) || frame@ is Object || frame@ is Null,
    ensures
        is_hello(frame@) ==> match frame@.at("resume_session"@).as_u64() {
            Some(s) => if histories@.contains_key(s) {
                &&& *final(session_id) == s
                &&& r matches FrameAction::Init { session_id: sid, history } && sid == s
                    && messages_view(history@) == messages_view(histories@[s]@)
            } else {
                &&& *final(session_id) == *old(session_id)
                &&& r matches FrameAction::Init { session_id: sid, history } && sid == *old(
                    session_id,
                ) && history@.len() == 0
            },
            None => {
                &&& *final(session_id) == *old(session_id)
                &&& r matches FrameAction::Init { session_id: sid, history } && sid == *old(
                    session_id,
                ) && history@.len() == 0
            },
        },
        !is_hello(frame@) ==> {
            &&& *final(session_id) == *old(session_id)
            &&& r matches FrameAction::Emit(f) && f@ == set_view(
                frame@,
                "session"@,
                JsonView::Number(NumberView::PosInt(*old(session_id))),
            )
        },
{
    let hello = match frame.get_str("type") {
        Some(t) => str_eq(t.as_str(), "hello"),
        None => false,
    };
    if hello {
        let resume = frame.get_u64("resume_session");
        match resume {
            Some(s) => match histories.get(&s) {
                Some(h) => {
                    *session_id = s;
                    FrameAction::Init { session_id: s, history: crate::types::copy_messages(h) }
                },
                None => FrameAction::Init { session_id: *session_id, history: Vec::new() },
            },
            None => FrameAction::Init { session_id: *session_id, history: Vec::new() },
        }
    } else {
        FrameAction::Emit(set_member(frame, "session", JsonValue::uint(*session_id)))
    }
}

// ── listings ────────────────────────────────────────────────────────────────

/// One live session as listed: its number and how many messages it holds.
pub open spec fn session_count_json(e: (u64, u64)) -> JsonView {
    JsonView::Object(
        seq![
            ("session_id"@, JsonView::Number(NumberView::PosInt(e.0))),
            ("message_count"@, JsonView::Number(NumberView::PosInt(e.1))),
        ],
    )
}

/// The live sessions as listed, in the order given.
pub fn session_counts_json(entries: &Vec<(u64, u64)>) -> (r: JsonValue)
    ensures
        r@ == JsonView::Array(entries@.map_values(|e: (u64, u64)| session_count_json(e))),
{
    let mut out: Vec<JsonValue> = Vec::new();
    let mut i: usize = 0;
    while i < entries.len()
        invariant
            i <= entries@.len(),
            out@.len() == i,
            forall|j: int| 0 <= j < i ==> #[trigger] out@[j]@ == session_count_json(entries@[j]),
        decreases entries@.len() - i,
    {
        let (id, n) = entries[i];
        let mut f: Vec<(String, JsonValue)> = Vec::new();
        f.push(("session_id".to_owned(), JsonValue::uint(id)));
        f.push(("message_count".to_owned(), JsonValue::uint(n)));
        let ghost fv = pairs_view(f@);
        let o = object_of(f);
        proof {
            assert(fv =~= seq![
                ("session_id"@, JsonView::Number(NumberView::PosInt(id))),
                ("message_count"@, JsonView::Number(NumberView::PosInt(n))),
            ]);
        }
        out.push(o);
        i = i + 1;
    }
    let ghost ev = elems_view(out@);
    let r = JsonValue::array(out);
    proof {
        assert(ev =~= entries@.map_values(|e: (u64, u64)| session_count_json(e)));
    }
    r
}

/// The number of non-blank lines of a text.
pub open spec fn filled_lines(text: Seq<char>) -> nat {
    split_on(text, '\n').filter(|l: Seq<char>| trimmed(l).len() > 0).len()
}

/// The first text of the first user message that has one ("" when none
/// has).
pub open spec fn first_user_text(msgs: Seq<MessageView>) -> Seq<char>
    decreases msgs.len(),
{
    if msgs.len() == 0 {
        Seq::empty()
    } else {
        match msgs[0] {
            MessageView::User(b) => match first_text(b) {
                Some(t) => t,
                None => first_user_text(msgs.drop_first()),
            },
            MessageView::Assistant(_) => first_user_text(msgs.drop_first()),
        }
    }
}

/// The first text block.
pub open spec fn first_text(b: Seq<BlockView>) -> Option<Seq<char>>
    decreases b.len(),
{
    if b.len() == 0 {
        None
    } else {
        match b[0] {
            BlockView::Text(t) => Some(t),
            _ => first_text(b.drop_first()),
        }
    }
}

/// A stored session as listed: its number, when it was last written, how
/// many messages it holds, and the first 80 characters of its first
/// prompt.
pub open spec fn session_entry_json(id: u64, last_active: u64, count: nat, preview: Seq<char>) -> JsonView {
    JsonView::Object(
        seq![
            ("session_id"@, JsonView::Number(NumberView::PosInt(id))),
            ("last_active"@, JsonView::Number(NumberView::PosInt(last_active))),
            ("message_count"@, JsonView::Number(NumberView::PosInt(count as u64))),
            ("preview"@, JsonView::Str(preview)),
        ],
    )
}

/// Counts the non-blank lines of a text.
pub fn count_filled_lines(text: &str) -> (r: u64)
    requires
        text@.len() < u64::MAX,
    ensures
        r as nat == filled_lines(text@),
{
    let cs = to_chars(text);
    let ghost keep = |l: Seq<char>| trimmed(l).len() > 0;
    let mut count: u64 = 0;
    let mut cur: Vec<char> = Vec::new();
    let ghost mut done: Seq<Seq<char>> = Seq::empty();
    let mut i: usize = 0;
    proof {
        reveal(Seq::filter);
        assert(cs@.take(0) =~= Seq::<char>::empty());
        assert(split_on(cs@.take(0), '\n') =~= done.push(cur@));
    }
    while i < cs.len()
        invariant
            i <= cs@.len(),
            cs@ == text@,
            cs@.len() < u64::MAX,
            keep == (|l: Seq<char>| trimmed(l).len() > 0),
            split_on(cs@.take(i as int), '\n') == done.push(cur@),
            count as nat == done.filter(keep).len(),
            count <= i,
        decreases cs@.len() - i,
    {
        let c = cs[i];
        proof {
            assert(cs@.take(i + 1).drop_last() =~= cs@.take(i as int));
            assert(cs@.take(i + 1).last() == c);
        }
        if c == '\n' {
            let t = trim(&cur);
            proof {
                reveal(Seq::filter);
                assert(done.push(cur@).drop_last() =~= done);
            }
            if t.len() > 0 {
                count = count + 1;
            }
            proof {
                done = done.push(cur@);
            }
            cur = Vec::new();
            proof {
                assert(split_on(cs@.take(i + 1), '\n') =~= done.push(cur@));
            }
        } else {
            let ghost prev = cur@;
            cur.push(c);
            proof {
                let p = split_on(cs@.take(i as int), '\n');
                assert(p == done.push(prev));
                assert(p.update(p.len() - 1, p.last().push(c)) =~= done.push(cur@));
            }
        }
        i = i + 1;
    }
    proof {
        reveal(Seq::filter);
        assert(cs@.take(cs@.len() as int) =~= cs@);
        assert(done.push(cur@).drop_last() =~= done);
    }
    let t = trim(&cur);
    if t.len() > 0 {
        count = count + 1;
    }
    count
}

/// The first text of the first user message that has one.
pub fn session_preview_text(history: &Vec<Message>) -> (r: String)
    ensures
        r@ == first_user_text(messages_view(history@)),
{
    let ghost mv = messages_view(history@);
    let mut i: usize = 0;
    proof {
        assert(mv.subrange(0, mv.len() as int) =~= mv);
    }
    while i < history.len()
        invariant
            i <= history@.len(),
            mv == messages_view(history@),
            first_user_text(mv) == first_user_text(mv.subrange(i as int, mv.len() as int)),
        decreases history@.len() - i,
    {
        let ghost rest = mv.subrange(i as int, mv.len() as int);
        proof {
            assert(rest.drop_first() =~= mv.subrange(i + 1, mv.len() as int));
            assert(rest[0] == history@[i as int]@);
        }
        match &history[i] {
            Message::User { content } => {
                let ghost bv = blocks_view(content@);
                proof {
                    assert(rest[0] == MessageView::User(bv));
                }
                let mut k: usize = 0;
                proof {
                    assert(bv.subrange(0, bv.len() as int) =~= bv);
                }
                while k < content.len()
                    invariant
                        k <= content@.len(),
                        bv == blocks_view(content@),
                        i < history@.len(),
                        mv == messages_view(history@),
                        first_user_text(mv) == first_user_text(mv.subrange(i as int, mv.len() as int)),
                        mv.subrange(i as int, mv.len() as int)[0] == MessageView::User(bv),
                        first_text(bv) == first_text(bv.subrange(k as int, bv.len() as int)),
                    decreases content@.len() - k,
                {
                    let ghost brest = bv.subrange(k as int, bv.len() as int);
                    proof {
                        assert(brest.drop_first() =~= bv.subrange(k + 1, bv.len() as int));
                        assert(brest[0] == content@[k as int]@);
                    }
                    match &content[k] {
                        ContentBlock::Text { text } => {
                            return text.clone();
                        },
                        _ => {},
                    }
                    k = k + 1;
                }
                proof {
                    assert(bv.subrange(k as int, bv.len() as int) =~= Seq::<BlockView>::empty());
                }
            },
            _ => {},
        }
        i = i + 1;
    }
    proof {
        assert(mv.subrange(i as int, mv.len() as int) =~= Seq::<MessageView>::empty());
    }
    String::new()
}

/// A stored session as listed; `None` (left out) when its file has no
/// non-blank line.
pub fn session_entry(id: u64, last_active: u64, text: &str, history: &Vec<Message>) -> (r: Option<
    JsonValue,
>)
    requires
        text@.len() < u64::MAX,
    ensures
        match r {
            Some(v) => filled_lines(text@) > 0 && v@ == session_entry_json(
                id,
                last_active,
                filled_lines(text@),
                take_chars(first_user_text(messages_view(history@)), 80),
            ),
            None => filled_lines(text@) == 0,
        },
{
    let count = count_filled_lines(text);
    if count == 0 {
        return None;
    }
    let full = session_preview_text(history);
    let chars = to_chars(full.as_str());
    let preview = from_chars(&take_prefix(&chars, 80));
    let mut f: Vec<(String, JsonValue)> = Vec::new();
    f.push(("session_id".to_owned(), JsonValue::uint(id)));
    f.push(("last_active".to_owned(), JsonValue::uint(last_active)));
    f.push(("message_count".to_owned(), JsonValue::uint(count)));
    f.push(("preview".to_owned(), JsonValue::string(preview.as_str())));
    let ghost fv = pairs_view(f@);
    let o = object_of(f);
    proof {
        assert(fv =~= seq![
            ("session_id"@, JsonView::Number(NumberView::PosInt(id))),
            ("last_active"@, JsonView::Number(NumberView::PosInt(last_active))),
            ("message_count"@, JsonView::Number(NumberView::PosInt(count))),
            ("preview"@, JsonView::Str(preview@)),
        ]);
    }
    Some(o)
}

/// The audio files of a listing, in the order given.
pub fn audio_only(files: Vec<(String, u64)>) -> (r: Vec<(String, u64)>)
    ensures
        r@ == files@.filter(|f: (String, u64)| is_audio_name(f.0@)),
{
    let ghost keep = |f: (String, u64)| is_audio_name(f.0@);
    let mut out: Vec<(String, u64)> = Vec::new();
    let mut src = files;
    let ghost all = src@;
    let n = src.len();
    let mut i: usize = 0;
    proof {
        reveal(Seq::filter);
        assert(all.take(0) =~= Seq::<(String, u64)>::empty());
    }
    while src.len() > 0
        invariant
            keep == (|f: (String, u64)| is_audio_name(f.0@)),
            all.len() == n,
            i + src@.len() == all.len(),
            src@ == all.subrange(i as int, all.len() as int),
            out@ == all.take(i as int).filter(keep),
        decreases src@.len(),
    {
        let f = src.remove(0);
        proof {
            reveal(Seq::filter);
            assert(f == all[i as int]);
            assert(all.take(i + 1).drop_last() =~= all.take(i as int));
            assert(all.take(i + 1).last() == f);
        }
        if is_audio_file(f.0.as_str()) {
            out.push(f);
        }
        i = i + 1;
        proof {
            assert(src@ =~= all.subrange(i as int, all.len() as int));
        }
    }
    proof {
        assert(all.take(i as int) =~= all);
    }
    out
}

/// One media file as listed: its name, size and stream link.
pub open spec fn media_json(f: (Seq<char>, u64)) -> JsonView {
    JsonView::Object(
        seq![
            ("name"@, JsonView::Str(f.0)),
            ("size"@, JsonView::Number(NumberView::PosInt(f.1))),
            ("url"@, JsonView::Str("/api/sonus/stream?name="@ + url_encoded(f.0))),
        ],
    )
}

/// The media files as listed, in the order given.
pub fn media_list_json(files: &Vec<(String, u64)>) -> (r: JsonValue)
    ensures
        r@ == JsonView::Array(files@.map_values(|f: (String, u64)| media_json((f.0@, f.1)))),
{
    let mut out: Vec<JsonValue> = Vec::new();
    let mut i: usize = 0;
    while i < files.len()
        invariant
            i <= files@.len(),
            out@.len() == i,
            forall|j: int| 0 <= j < i ==> #[trigger] out@[j]@ == media_json((files@[j].0@, files@[j].1)),
        decreases files@.len() - i,
    {
        let name = &files[i].0;
        let size = files[i].1;
        let mut f: Vec<(String, JsonValue)> = Vec::new();
        f.push(("name".to_owned(), JsonValue::string(name.as_str())));
        f.push(("size".to_owned(), JsonValue::uint(size)));
        f.push(("url".to_owned(), JsonValue::string(media_url(name.as_str()).as_str())));
        let ghost fv = pairs_view(f@);
        let o = object_of(f);
        proof {
            assert(fv =~= seq![
                ("name"@, JsonView::Str(name@)),
                ("size"@, JsonView::Number(NumberView::PosInt(size))),
                ("url"@, JsonView::Str("/api/sonus/stream?name="@ + url_encoded(name@))),
            ]);
        }
        out.push(o);
        i = i + 1;
    }
    let ghost ev = elems_view(out@);
    let r = JsonValue::array(out);
    proof {
        assert(ev =~= files@.map_values(|f: (String, u64)| media_json((f.0@, f.1))));
    }
    r
}

// ── policy rules, councils, models ──────────────────────────────────────────

/// A rule by its name in the API.
pub open spec fn rule_label(r: Rule) -> Seq<char> {
    match r {
        Rule::Allow => "allow"@,
        Rule::Ask => "ask"@,
        Rule::Workspace => "workspace"@,
    }
}

/// The policy rules as served: `{"rules": {pattern: name, ...}}`.
pub fn policy_rules_json(engine: &PolicyEngine) -> (r: JsonValue)
    ensures
        r@ == JsonView::Object(
            seq![
                ("rules"@, JsonView::Object(
                    engine.config.rules@.map_values(
                        |e: (String, Rule)| (e.0@, JsonView::Str(rule_label(e.1))),
                    ),
                )),
            ],
        ),
{
    let rules = &engine.config.rules;
    let mut f: Vec<(String, JsonValue)> = Vec::new();
    let mut i: usize = 0;
    while i < rules.len()
        invariant
            i <= rules@.len(),
            f@.len() == i,
            forall|j: int|
                0 <= j < i ==> #[trigger] pairs_view(f@)[j] == (rules@[j].0@, JsonView::Str(
                    rule_label(rules@[j].1),
                )),
        decreases rules@.len() - i,
    {
        let label = match rules[i].1 {
            Rule::Allow => "allow",
            Rule::Ask => "ask",
            Rule::Workspace => "workspace",
        };
        let ghost before = f@;
        f.push((rules[i].0.clone(), JsonValue::string(label)));
        proof {
            assert(pairs_view(f@) =~= pairs_view(before).push((rules@[i as int].0@, JsonView::Str(
                rule_label(rules@[i as int].1),
            ))));
        }
        i = i + 1;
    }
    let ghost fv = pairs_view(f@);
    proof {
        assert(fv =~= rules@.map_values(|e: (String, Rule)| (e.0@, JsonView::Str(rule_label(e.1)))));
    }
    let inner = object_of(f);
    let mut outer: Vec<(String, JsonValue)> = Vec::new();
    outer.push(("rules".to_owned(), inner));
    let ghost ov = pairs_view(outer@);
    let r = object_of(outer);
    proof {
        assert(ov =~= seq![("rules"@, JsonView::Object(fv))]);
    }
    r
}

/// The id of a council started from the UI: `gw` and a counter.
pub fn gateway_council_id(n: u64) -> (r: String)
    ensures
        r@ == "gw"@ + decimal(n as nat),
{
    String::from_str("gw").concat(decimal_string(n).as_str())
}

/// The body a UI-started council runs with: the request, with its id set.
pub fn council_start_body(body: JsonValue, id: &str) -> (r: JsonValue)
    requires
        body@ is Object || body@ is Null,
    ensures
        r@ == set_view(body@, "council_id"@, JsonView::Str(id@)),
{
    set_member(body, "council_id", JsonValue::string(id))
}

/// `{"id": id, "name": name}`.
pub open spec fn model_entry(id: Seq<char>, name: Seq<char>) -> JsonView {
    JsonView::Object(seq![("id"@, JsonView::Str(id)), ("name"@, JsonView::Str(name))])
}

fn model_entry_exec(id: &str, name: &str) -> (r: JsonValue)
    ensures
        r@ == model_entry(id@, name@),
{
    let mut f: Vec<(String, JsonValue)> = Vec::new();
    f.push(("id".to_owned(), JsonValue::string(id)));
    f.push(("name".to_owned(), JsonValue::string(name)));
    let ghost fv = pairs_view(f@);
    let r = object_of(f);
    proof {
        assert(fv =~= seq![("id"@, JsonView::Str(id@)), ("name"@, JsonView::Str(name@))]);
    }
    r
}

/// The models an OpenAI-compatible listing names: `{id, name: id}` for
/// each entry of `data` with a string `id`.
pub open spec fn listed_models(body: JsonView) -> Seq<JsonView> {
    let data = match body.at("data"@).as_array() {
        Some(a) => a,
        None => Seq::empty(),
    };
    data.filter(has_model_id()).map_values(model_of())
}

/// A listing entry with a string `id`.
pub open spec fn has_model_id() -> spec_fn(JsonView) -> bool {
    |m: JsonView| m.at("id"@).as_str() is Some
}

/// The model entry for a listing entry.
pub open spec fn model_of() -> spec_fn(JsonView) -> JsonView {
    |m: JsonView| model_entry(m.at("id"@).as_str()->0, m.at("id"@).as_str()->0)
}

/// The model list for the Anthropic backend: the catalogue given, as
/// `{id, name}` entries.
pub fn anthropic_models_reply(backend: &str, current: &str, catalogue: &Vec<(String, String)>) -> (r:
    JsonValue)
    ensures
        r@ == JsonView::Object(
            seq![
                ("backend"@, JsonView::Str(backend@)),
                ("current"@, JsonView::Str(current@)),
                ("models"@, JsonView::Array(
                    catalogue@.map_values(|e: (String, String)| model_entry(e.0@, e.1@)),
                )),
            ],
        ),
{
    let mut models: Vec<JsonValue> = Vec::new();
    let mut i: usize = 0;
    while i < catalogue.len()
        invariant
            i <= catalogue@.len(),
            models@.len() == i,
            forall|j: int|
                0 <= j < i ==> #[trigger] models@[j]@ == model_entry(catalogue@[j].0@, catalogue@[j].1@),
        decreases catalogue@.len() - i,
    {
        models.push(model_entry_exec(catalogue[i].0.as_str(), catalogue[i].1.as_str()));
        i = i + 1;
    }
    let ghost mv = elems_view(models@);
    proof {
        assert(mv =~= catalogue@.map_values(|e: (String, String)| model_entry(e.0@, e.1@)));
    }
    let mut f: Vec<(String, JsonValue)> = Vec::new();
    f.push(("backend".to_owned(), JsonValue::string(backend)));
    f.push(("current".to_owned(), JsonValue::string(current)));
    f.push(("models".to_owned(), JsonValue::array(models)));
    let ghost fv = pairs_view(f@);
    let r = object_of(f);
    proof {
        assert(fv =~= seq![
            ("backend"@, JsonView::Str(backend@)),
            ("current"@, JsonView::Str(current@)),
            ("models"@, JsonView::Array(mv)),
        ]);
    }
    r
}

/// The models offered by an OpenAI-compatible backend: those its listing
/// names, or just the current model when there is no listing.
pub open spec fn oai_models(current: Seq<char>, listing: Option<JsonView>) -> Seq<JsonView> {
    match listing {
        Some(b) => listed_models(b),
        None => seq![model_entry(current, current)],
    }
}

/// The model list reply for an OpenAI-compatible backend.
pub open spec fn oai_reply(backend: Seq<char>, base_url: Seq<char>, current: Seq<char>, models: Seq<JsonView>) -> JsonView {
    JsonView::Object(
        seq![
            ("backend"@, JsonView::Str(backend)),
            ("oai_base_url"@, JsonView::Str(base_url)),
            ("current"@, JsonView::Str(current)),
            ("models"@, JsonView::Array(models)),
        ],
    )
}

/// The model list for an OpenAI-compatible backend: the models its
/// listing names, or just the current model when there is no listing.
pub fn oai_models_reply(backend: &str, base_url: &str, current: &str, listing: Option<&JsonValue>) -> (r:
    JsonValue)
    ensures
        r@ == oai_reply(
            backend@,
            base_url@,
            current@,
            oai_models(
                current@,
                match listing {
                    Some(b) => Some(b@),
                    None => None,
                },
            ),
        ),
{
    let mut models: Vec<JsonValue> = Vec::new();
    let ghost want = oai_models(
        current@,
        match listing {
            Some(b) => Some(b@),
            None => None,
        },
    );
    match listing {
        Some(b) => {
            let empty: Vec<JsonValue> = Vec::new();
            let null = JsonValue::Null;
            let data_v = match b.get("data") {
                Some(d) => d,
                None => &null,
            };
            let data: &Vec<JsonValue> = match data_v.as_array() {
                Some(a) => a,
                None => &empty,
            };
            let ghost dv = elems_view(data@);
            let ghost pick = has_model_id();
            let ghost conv = model_of();
            proof {
                reveal(Seq::filter);
                assert(dv.take(0) =~= Seq::<JsonView>::empty());
                assert(elems_view(models@) =~= dv.take(0).filter(pick).map_values(conv));
            }
            let mut i: usize = 0;
            while i < data.len()
                invariant
                    i <= data@.len(),
                    dv == elems_view(data@),
                    pick == has_model_id(),
                    conv == model_of(),
                    elems_view(models@) == dv.take(i as int).filter(pick).map_values(conv),
                decreases data@.len() - i,
            {
                let ghost before = models@;
                proof {
                    reveal(Seq::filter);
                    assert(dv.take(i + 1).drop_last() =~= dv.take(i as int));
                    assert(dv.take(i + 1).last() == data@[i as int]@);
                }
                match data[i].get_str("id") {
                    Some(id) => {
                        models.push(model_entry_exec(id.as_str(), id.as_str()));
                        proof {
                            let kept = dv.take(i as int).filter(pick);
                            assert(dv.take(i + 1).filter(pick) =~= kept.push(data@[i as int]@));
                            assert(elems_view(models@) =~= elems_view(before).push(
                                conv(data@[i as int]@),
                            ));
                            assert(kept.push(data@[i as int]@).map_values(conv) =~= kept.map_values(
                                conv,
                            ).push(conv(data@[i as int]@)));
                        }
                    },
                    None => {
                        proof {
                            assert(dv.take(i + 1).filter(pick) =~= dv.take(i as int).filter(pick));
                        }
                    },
                }
                i = i + 1;
            }
            proof {
                assert(dv.take(data@.len() as int) =~= dv);
                assert(elems_view(empty@) =~= Seq::<JsonView>::empty());
                assert(b@.at("data"@) == data_v@);
                assert(match b@.at("data"@).as_array() {
                    Some(a) => a,
                    None => Seq::<JsonView>::empty(),
                } == dv);
                assert(elems_view(models@) == dv.filter(pick).map_values(conv));
                assert(elems_view(models@) == listed_models(b@));
                assert(elems_view(models@) == want);
            }
        },
        None => {
            models.push(model_entry_exec(current, current));
            proof {
                assert(elems_view(models@) =~= seq![model_entry(current@, current@)]);
                assert(elems_view(models@) == want);
            }
        },
    }
    let ghost mv = elems_view(models@);
    let mut f: Vec<(String, JsonValue)> = Vec::new();
    f.push(("backend".to_owned(), JsonValue::string(backend)));
    f.push(("oai_base_url".to_owned(), JsonValue::string(base_url)));
    f.push(("current".to_owned(), JsonValue::string(current)));
    f.push(("models".to_owned(), JsonValue::array(models)));
    let ghost fv = pairs_view(f@);
    let r = object_of(f);
    proof {
        assert(fv =~= seq![
            ("backend"@, JsonView::Str(backend@)),
            ("oai_base_url"@, JsonView::Str(base_url@)),
            ("current"@, JsonView::Str(current@)),
            ("models"@, JsonView::Array(mv)),
        ]);
        assert(mv == want);
    }
    r
}

} // verus!
