//! Path-to-URI normalization.
//!
//! A filesystem path is turned into a `file://` URI by a pure function over
//! the path string, so that platform quirks stay in one unit: a Windows-style
//! path (a disk or verbatim-disk drive-letter prefix) becomes
//! `file:///C:/...`, any other absolute path (leading `/`) becomes
//! `file:///...`, and everything else is rejected.  Characters outside the
//! URI path-segment set are percent-encoded byte-wise over their UTF-8
//! encoding.  On top of the direct conversion, the normalizer lower-cases a
//! drive-letter prefix (splitting at the last colon of the URI), which some
//! client tooling expects, and leaves non-Windows paths untouched.

use vstd::prelude::*;
use vstd::string::StrSliceExecFns;
use vstd::string::StringExecFns;

verus! {

/// Error for a path that cannot be converted to a URI.
#[derive(Debug, PartialEq, Eq)]
pub struct UriError {
    pub path: String,
}

/// Abstract value of a [`UriError`].
#[verifier::ext_equal]
pub ghost struct UriErrorView {
    pub path: Seq<char>,
}

impl View for UriError {
    type V = UriErrorView;

    open spec fn view(&self) -> UriErrorView {
        UriErrorView { path: self.path@ }
    }
}

impl DeepView for UriError {
    type V = UriErrorView;

    open spec fn deep_view(&self) -> UriErrorView {
        self.view()
    }
}

impl UriError {
    /// Human-readable description of the failure.
    pub fn message(&self) -> (r: String)
        ensures
            r@ == "can't convert path to url: "@ + self.path@,
    {
        let mut s = "can't convert path to url: ".to_owned();
        s.append(self.path.as_str());
        s
    }
}

/// Relies on `String::push`: appends exactly the given character.
#[verifier::external_body]
fn push_char(s: &mut String, c: char)
    ensures
        final(s)@ == old(s)@.push(c),
{
    s.push(c)
}

/// An ASCII letter, fit to serve as a drive letter.
pub open spec fn is_drive_letter(c: char) -> bool {
    (0x41 <= (c as int) && (c as int) <= 0x5A) || (0x61 <= (c as int) && (c as int) <= 0x7A)
}

/// The path starts with a disk designator: a drive letter and a colon.
pub open spec fn has_plain_drive(p: Seq<char>) -> bool {
    p.len() >= 2 && is_drive_letter(p[0]) && p[1] == ':'
}

/// The path starts with the verbatim prefix `\\?\`.
pub open spec fn has_verbatim_prefix(p: Seq<char>) -> bool {
    p.len() >= 4 && p[0] == '\\' && p[1] == '\\' && p[2] == '?' && p[3] == '\\'
}

/// The path starts with a Windows drive letter, as a disk designator or as a
/// verbatim-disk designator.
pub open spec fn has_windows_drive(p: Seq<char>) -> bool {
    has_plain_drive(p) || (has_verbatim_prefix(p) && has_plain_drive(p.skip(4)))
}

/// The path with any verbatim prefix removed.
pub open spec fn drive_body(p: Seq<char>) -> Seq<char> {
    if has_verbatim_prefix(p) {
        p.skip(4)
    } else {
        p
    }
}

/// The canonicalization-adjusted form of a path: the verbatim prefix `\\?\`
/// is dropped, any other path is kept as it is.
pub open spec fn canon_of(p: Seq<char>) -> Seq<char> {
    if has_verbatim_prefix(p) {
        p.skip(4)
    } else {
        p
    }
}

/// Uppercase hex digit of a value below 16.
pub open spec fn hex_digit(n: u8) -> char
    recommends
        n < 16,
{
    if n < 10 {
        ((0x30 + n as int) as u8) as char
    } else {
        ((0x37 + n as int) as u8) as char
    }
}

/// The UTF-8 encoding of a code point.
pub open spec fn utf8_bytes(cp: int) -> Seq<u8>
    recommends
        0 <= cp <= 0x10FFFF,
{
    if cp < 0x80 {
        seq![cp as u8]
    } else if cp < 0x800 {
        seq![(0xC0 + cp / 0x40) as u8, (0x80 + cp % 0x40) as u8]
    } else if cp < 0x10000 {
        seq![
            (0xE0 + cp / 0x1000) as u8,
            (0x80 + (cp / 0x40) % 0x40) as u8,
            (0x80 + cp % 0x40) as u8,
        ]
    } else {
        seq![
            (0xF0 + cp / 0x40000) as u8,
            (0x80 + (cp / 0x1000) % 0x40) as u8,
            (0x80 + (cp / 0x40) % 0x40) as u8,
            (0x80 + cp % 0x40) as u8,
        ]
    }
}

/// Percent-encoding of one byte: `%` and two uppercase hex digits.
pub open spec fn pct_byte(b: u8) -> Seq<char> {
    seq!['%', hex_digit((b / 16) as u8), hex_digit((b % 16) as u8)]
}

/// Percent-encoding of a byte sequence.
pub open spec fn pct_bytes(bs: Seq<u8>) -> Seq<char>
    decreases bs.len(),
{
    if bs.len() == 0 {
        Seq::empty()
    } else {
        pct_byte(bs[0]) + pct_bytes(bs.drop_first())
    }
}

/// Percent-encoding of one character, over its UTF-8 bytes.
pub open spec fn pct_char(c: char) -> Seq<char> {
    pct_bytes(utf8_bytes(c as int))
}

/// Characters that can never stand raw in a URI path produced here:
/// controls, delete, non-ASCII, and the URI path-segment specials.
pub open spec fn must_encode(c: char) -> bool {
    ((c as int) < 0x20) || ((c as int) >= 0x7F) || c == ' ' || c == '"' || c == '<' || c == '>' || c == '`'
        || c == '#' || c == '?' || c == '{' || c == '}' || c == '%'
}

/// Encoding of one character of a non-Windows absolute path: `/` separates,
/// `\` and the specials are percent-encoded, everything else stands raw.
pub open spec fn enc_unix_char(c: char) -> Seq<char> {
    if c == '/' {
        seq!['/']
    } else if c == '\\' || must_encode(c) {
        pct_char(c)
    } else {
        seq![c]
    }
}

/// Encoding of a non-Windows absolute path, character by character.
pub open spec fn enc_unix(p: Seq<char>) -> Seq<char>
    decreases p.len(),
{
    if p.len() == 0 {
        Seq::empty()
    } else {
        enc_unix(p.drop_last()) + enc_unix_char(p.last())
    }
}

/// Encoding of one character after a Windows drive designator: both
/// separators become `/`, a colon is percent-encoded (so the drive colon
/// stays the last colon of the URI), the rest as in a non-Windows path.
pub open spec fn enc_win_char(c: char) -> Seq<char> {
    if c == '\\' || c == '/' {
        seq!['/']
    } else if c == ':' || must_encode(c) {
        pct_char(c)
    } else {
        seq![c]
    }
}

/// Encoding of the part of a Windows path after the drive designator.
pub open spec fn enc_win(p: Seq<char>) -> Seq<char>
    decreases p.len(),
{
    if p.len() == 0 {
        Seq::empty()
    } else {
        enc_win(p.drop_last()) + enc_win_char(p.last())
    }
}

/// The direct path-to-URI conversion: `Some` URI for a Windows drive path
/// whose designator is followed by a separator and for any path with a
/// leading `/`, `None` for everything else.
pub open spec fn file_uri_of(p: Seq<char>) -> Option<Seq<char>> {
    if has_windows_drive(p) {
        let body = drive_body(p);
        if body.len() >= 3 && (body[2] == '\\' || body[2] == '/') {
            Some("file:///"@ + seq![body[0], ':'] + enc_win(body.skip(2)))
        } else {
            None
        }
    } else if p.len() >= 1 && p[0] == '/' {
        Some("file://"@ + enc_unix(p))
    } else {
        None
    }
}

/// ASCII lower-casing of one character.
pub open spec fn to_lower(c: char) -> char {
    if 0x41 <= (c as int) && (c as int) <= 0x5A {
        (((c as int) + 0x20) as u8) as char
    } else {
        c
    }
}

/// Index of the last colon of a string, or -1 when there is none.
pub open spec fn find_last_colon(u: Seq<char>) -> int
    decreases u.len(),
{
    if u.len() == 0 {
        -1
    } else if u.last() == ':' {
        u.len() - 1
    } else {
        find_last_colon(u.drop_last())
    }
}

/// Everything up to and including the last colon lower-cased, the remainder
/// kept; the whole string kept when it holds no colon.
pub open spec fn lower_through_last_colon(u: Seq<char>) -> Seq<char> {
    let i = find_last_colon(u);
    if i < 0 {
        u
    } else {
        u.take(i + 1).map_values(|c: char| to_lower(c)) + u.skip(i + 1)
    }
}

/// The normalized URI of a path: the direct conversion, with the drive
/// prefix lower-cased when the path carries a Windows drive.
pub open spec fn normalized_uri_of(p: Seq<char>) -> Option<Seq<char>> {
    match file_uri_of(p) {
        Option::None => Option::None,
        Option::Some(u) => if has_windows_drive(p) {
            Option::Some(lower_through_last_colon(u))
        } else {
            Option::Some(u)
        },
    }
}

fn is_drive_letter_exec(c: char) -> (b: bool)
    ensures
        b == is_drive_letter(c),
{
    let cp = c as u32;
    (0x41 <= cp && cp <= 0x5A) || (0x61 <= cp && cp <= 0x7A)
}

/// Whether the path starts with a Windows drive letter (a disk or a
/// verbatim-disk designator).
pub fn path_has_windows_drive(path: &str) -> (b: bool)
    ensures
        b == has_windows_drive(path@),
{
    let n = path.unicode_len();
    if n >= 2 && is_drive_letter_exec(path.get_char(0)) && path.get_char(1) == ':' {
        return true;
    }
    if n >= 6 && path.get_char(0) == '\\' && path.get_char(1) == '\\' && path.get_char(2) == '?'
        && path.get_char(3) == '\\' && is_drive_letter_exec(path.get_char(4)) && path.get_char(5)
        == ':' {
        proof {
            assert(path@.skip(4)[0] == path@[4]);
            assert(path@.skip(4)[1] == path@[5]);
        }
        return true;
    }
    proof {
        if has_windows_drive(path@) {
            if has_verbatim_prefix(path@) && has_plain_drive(path@.skip(4)) {
                assert(path@.skip(4)[0] == path@[4]);
                assert(path@.skip(4)[1] == path@[5]);
            }
        }
    }
    false
}

fn path_has_verbatim_prefix(path: &str) -> (b: bool)
    ensures
        b == has_verbatim_prefix(path@),
{
    let n = path.unicode_len();
    n >= 4 && path.get_char(0) == '\\' && path.get_char(1) == '\\' && path.get_char(2) == '?'
        && path.get_char(3) == '\\'
}

/// The canonicalization-adjusted form of a path: drops a verbatim prefix.
pub fn adjust_canonicalization(path: &str) -> (r: String)
    ensures
        r@ == canon_of(path@),
{
    if path_has_verbatim_prefix(path) {
        let n = path.unicode_len();
        let mut out = String::new();
        let mut j: usize = 4;
        while j < n
            invariant
                4 <= j <= n,
                n == path@.len(),
                out@ == path@.subrange(4, j as int),
            decreases n - j,
        {
            push_char(&mut out, path.get_char(j));
            j = j + 1;
            proof {
                assert(out@ =~= path@.subrange(4, j as int));
            }
        }
        proof {
            assert(out@ =~= path@.skip(4));
        }
        out
    } else {
        path.to_owned()
    }
}

fn hex_digit_exec(n: u8) -> (c: char)
    requires
        n < 16,
    ensures
        c == hex_digit(n),
{
    if n < 10 {
        (0x30 + n) as char
    } else {
        (0x37 + n) as char
    }
}

fn push_pct_byte(out: &mut String, b: u8)
    ensures
        final(out)@ == old(out)@ + pct_byte(b),
{
    push_char(out, '%');
    push_char(out, hex_digit_exec(b / 16));
    push_char(out, hex_digit_exec(b % 16));
    proof {
        assert(out@ =~= old(out)@ + pct_byte(b));
    }
}

fn push_pct_char(out: &mut String, c: char)
    ensures
        final(out)@ == old(out)@ + pct_char(c),
{
    let cp = c as u32;
    let ghost bs = utf8_bytes(c as int);
    if cp < 0x80 {
        push_pct_byte(out, cp as u8);
        proof {
            assert(bs =~= seq![(cp as u8)]);
            assert(pct_bytes(bs) =~= pct_byte(bs[0]) + pct_bytes(bs.drop_first()));
            assert(bs.drop_first() =~= Seq::<u8>::empty());
            assert(out@ =~= old(out)@ + pct_char(c));
        }
    } else if cp < 0x800 {
        let b0 = 0xC0 + (cp / 0x40) as u8;
        let b1 = 0x80 + (cp % 0x40) as u8;
        push_pct_byte(out, b0);
        push_pct_byte(out, b1);
        proof {
            assert(bs =~= seq![b0, b1]);
            assert(bs.drop_first() =~= seq![b1]);
            assert(seq![b1].drop_first() =~= Seq::<u8>::empty());
            assert(pct_bytes(bs) =~= pct_byte(b0) + pct_bytes(seq![b1]));
            assert(pct_bytes(seq![b1]) =~= pct_byte(b1) + pct_bytes(Seq::<u8>::empty()));
            assert(out@ =~= old(out)@ + pct_char(c));
        }
    } else if cp < 0x10000 {
        let b0 = 0xE0 + (cp / 0x1000) as u8;
        let b1 = 0x80 + ((cp / 0x40) % 0x40) as u8;
        let b2 = 0x80 + (cp % 0x40) as u8;
        push_pct_byte(out, b0);
        push_pct_byte(out, b1);
        push_pct_byte(out, b2);
        proof {
            assert(bs =~= seq![b0, b1, b2]);
            assert(bs.drop_first() =~= seq![b1, b2]);
            assert(seq![b1, b2].drop_first() =~= seq![b2]);
            assert(seq![b2].drop_first() =~= Seq::<u8>::empty());
            assert(pct_bytes(bs) =~= pct_byte(b0) + pct_bytes(seq![b1, b2]));
            assert(pct_bytes(seq![b1, b2]) =~= pct_byte(b1) + pct_bytes(seq![b2]));
            assert(pct_bytes(seq![b2]) =~= pct_byte(b2) + pct_bytes(Seq::<u8>::empty()));
            assert(out@ =~= old(out)@ + pct_char(c));
        }
    } else {
        let b0 = 0xF0 + (cp / 0x40000) as u8;
        let b1 = 0x80 + ((cp / 0x1000) % 0x40) as u8;
        let b2 = 0x80 + ((cp / 0x40) % 0x40) as u8;
        let b3 = 0x80 + (cp % 0x40) as u8;
        push_pct_byte(out, b0);
        push_pct_byte(out, b1);
        push_pct_byte(out, b2);
        push_pct_byte(out, b3);
        proof {
            assert(bs =~= seq![b0, b1, b2, b3]);
            assert(bs.drop_first() =~= seq![b1, b2, b3]);
            assert(seq![b1, b2, b3].drop_first() =~= seq![b2, b3]);
            assert(seq![b2, b3].drop_first() =~= seq![b3]);
            assert(seq![b3].drop_first() =~= Seq::<u8>::empty());
            assert(pct_bytes(bs) =~= pct_byte(b0) + pct_bytes(seq![b1, b2, b3]));
            assert(pct_bytes(seq![b1, b2, b3]) =~= pct_byte(b1) + pct_bytes(seq![b2, b3]));
            assert(pct_bytes(seq![b2, b3]) =~= pct_byte(b2) + pct_bytes(seq![b3]));
            assert(pct_bytes(seq![b3]) =~= pct_byte(b3) + pct_bytes(Seq::<u8>::empty()));
            assert(out@ =~= old(out)@ + pct_char(c));
        }
    }
}

fn char_must_encode(c: char) -> (b: bool)
    ensures
        b == must_encode(c),
{
    let cp = c as u32;
    cp < 0x20 || cp >= 0x7F || c == ' ' || c == '"' || c == '<' || c == '>' || c == '`' || c == '#'
        || c == '?' || c == '{' || c == '}' || c == '%'
}

fn append_enc_unix(out: &mut String, path: &str, from: usize)
    requires
        from as int <= path@.len(),
    ensures
        final(out)@ == old(out)@ + enc_unix(path@.skip(from as int)),
{
    let n = path.unicode_len();
    let mut i = from;
    while i < n
        invariant
            from <= i <= n,
            n == path@.len(),
            out@ == old(out)@ + enc_unix(path@.subrange(from as int, i as int)),
        decreases n - i,
    {
        let c = path.get_char(i);
        let ghost pre = path@.subrange(from as int, i as int);
        let ghost cur = path@.subrange(from as int, i as int + 1);
        if c == '/' {
            push_char(out, '/');
        } else if c == '\\' || char_must_encode(c) {
            push_pct_char(out, c);
        } else {
            push_char(out, c);
        }
        i = i + 1;
        proof {
            assert(cur.drop_last() =~= pre);
            assert(cur.last() == c);
            assert(enc_unix(cur) == enc_unix(pre) + enc_unix_char(c));
            assert(out@ =~= old(out)@ + enc_unix(cur));
        }
    }
    proof {
        assert(path@.subrange(from as int, n as int) =~= path@.skip(from as int));
    }
}

fn append_enc_win(out: &mut String, path: &str, from: usize)
    requires
        from as int <= path@.len(),
    ensures
        final(out)@ == old(out)@ + enc_win(path@.skip(from as int)),
{
    let n = path.unicode_len();
    let mut i = from;
    while i < n
        invariant
            from <= i <= n,
            n == path@.len(),
            out@ == old(out)@ + enc_win(path@.subrange(from as int, i as int)),
        decreases n - i,
    {
        let c = path.get_char(i);
        let ghost pre = path@.subrange(from as int, i as int);
        let ghost cur = path@.subrange(from as int, i as int + 1);
        if c == '\\' || c == '/' {
            push_char(out, '/');
        } else if c == ':' || char_must_encode(c) {
            push_pct_char(out, c);
        } else {
            push_char(out, c);
        }
        i = i + 1;
        proof {
            assert(cur.drop_last() =~= pre);
            assert(cur.last() == c);
            assert(enc_win(cur) == enc_win(pre) + enc_win_char(c));
            assert(out@ =~= old(out)@ + enc_win(cur));
        }
    }
    proof {
        assert(path@.subrange(from as int, n as int) =~= path@.skip(from as int));
    }
}

/// The direct path-to-URI conversion: a `file://` URI for a Windows drive
/// path or for a path with a leading `/`, an error for any other path.
pub fn url_from_file_path(path: &str) -> (r: Result<String, UriError>)
    ensures
        match r {
            Result::Ok(u) => file_uri_of(path@) == Option::Some(u@),
            Result::Err(e) => file_uri_of(path@) is None && e@.path == path@,
        },
{
    let n = path.unicode_len();
    if path_has_windows_drive(path) {
        let off: usize = if path_has_verbatim_prefix(path) {
            4
        } else {
            0
        };
        proof {
            assert(drive_body(path@) =~= path@.skip(off as int));
        }
        if n - off >= 3 {
            let sep = path.get_char(off + 2);
            if sep == '\\' || sep == '/' {
                let mut out = String::new();
                out.append("file:///");
                push_char(&mut out, path.get_char(off));
                push_char(&mut out, ':');
                append_enc_win(&mut out, path, off + 2);
                proof {
                    let body = drive_body(path@);
                    assert(body[0] == path@[off as int]);
                    assert(body[2] == path@[off as int + 2]);
                    assert(body.skip(2) =~= path@.skip(off as int + 2));
                    assert(out@ =~= "file:///"@ + seq![body[0], ':'] + enc_win(body.skip(2)));
                }
                return Result::Ok(out);
            }
        }
        proof {
            let body = drive_body(path@);
            if body.len() >= 3 {
                assert(body[2] == path@[off as int + 2]);
            }
        }
        Result::Err(UriError { path: path.to_owned() })
    } else if n >= 1 {
        let c0 = path.get_char(0);
        if c0 == '/' {
            let mut out = String::new();
            out.append("file://");
            append_enc_unix(&mut out, path, 0);
            proof {
                assert(path@.skip(0) =~= path@);
                assert(out@ =~= "file://"@ + enc_unix(path@));
            }
            Result::Ok(out)
        } else {
            Result::Err(UriError { path: path.to_owned() })
        }
    } else {
        Result::Err(UriError { path: path.to_owned() })
    }
}

fn to_lower_exec(c: char) -> (r: char)
    ensures
        r == to_lower(c),
{
    let cp = c as u32;
    if 0x41 <= cp && cp <= 0x5A {
        ((cp + 0x20) as u8) as char
    } else {
        c
    }
}

/// The URI Normalizer: the direct conversion, with everything up to and
/// including the last colon lower-cased when the path carries a Windows
/// drive letter.  A non-Windows path passes through unmodified.
pub fn url_from_path_with_drive_lowercasing(path: &str) -> (r: Result<String, UriError>)
    ensures
        match r {
            Result::Ok(u) => normalized_uri_of(path@) == Option::Some(u@),
            Result::Err(e) => normalized_uri_of(path@) is None && e@.path == path@,
        },
{
    let has_drive = path_has_windows_drive(path);
    let direct = match url_from_file_path(path) {
        Result::Ok(u) => u,
        Result::Err(e) => {
            return Result::Err(e);
        },
    };
    if !has_drive {
        return Result::Ok(direct);
    }
    let n = direct.as_str().unicode_len();
    let mut i = n;
    proof {
        assert(direct@.take(n as int) =~= direct@);
    }
    while i > 0 && direct.as_str().get_char(i - 1) != ':'
        invariant
            0 <= i <= n,
            n == direct@.len(),
            find_last_colon(direct@) == find_last_colon(direct@.take(i as int)),
        decreases i,
    {
        proof {
            let t = direct@.take(i as int);
            assert(t.last() == direct@[i as int - 1]);
            assert(t.drop_last() =~= direct@.take(i as int - 1));
        }
        i = i - 1;
    }
    if i == 0 {
        proof {
            assert(direct@.take(0) =~= Seq::<char>::empty());
            assert(find_last_colon(direct@) == -1);
        }
        return Result::Ok(direct);
    }
    proof {
        let t = direct@.take(i as int);
        assert(t.last() == direct@[i as int - 1]);
        assert(find_last_colon(direct@) == i - 1);
    }
    let mut out = String::new();
    let mut j: usize = 0;
    while j < i
        invariant
            0 <= j <= i <= n,
            n == direct@.len(),
            out@ == direct@.take(j as int).map_values(|c: char| to_lower(c)),
        decreases i - j,
    {
        let c = direct.as_str().get_char(j);
        push_char(&mut out, to_lower_exec(c));
        j = j + 1;
        proof {
            assert(out@ =~= direct@.take(j as int).map_values(|c: char| to_lower(c)));
        }
    }
    while j < n
        invariant
            i <= j <= n,
            n == direct@.len(),
            out@ == direct@.take(i as int).map_values(|c: char| to_lower(c)) + direct@.subrange(
                i as int,
                j as int,
            ),
        decreases n - j,
    {
        push_char(&mut out, direct.as_str().get_char(j));
        j = j + 1;
        proof {
            assert(out@ =~= direct@.take(i as int).map_values(|c: char| to_lower(c))
                + direct@.subrange(i as int, j as int));
        }
    }
    proof {
        assert(direct@.subrange(i as int, n as int) =~= direct@.skip(i as int));
        assert(out@ == lower_through_last_colon(direct@));
    }
    Result::Ok(out)
}

/// The path-to-URI entry point used throughout: the normalizer.
pub fn url_from_path(path: &str) -> (r: Result<String, UriError>)
    ensures
        match r {
            Result::Ok(u) => normalized_uri_of(path@) == Option::Some(u@),
            Result::Err(e) => normalized_uri_of(path@) is None && e@.path == path@,
        },
{
    url_from_path_with_drive_lowercasing(path)
}

/// The normalizer does not modify the URI of a path without a Windows
/// drive letter: its output is exactly the direct conversion.
pub proof fn lemma_non_windows_path_unmodified(p: Seq<char>)
    requires
        !has_windows_drive(p),
    ensures
        normalized_uri_of(p) == file_uri_of(p),
{
}

proof fn lemma_hex_digit_not_colon(n: u8)
    requires
        n < 16,
    ensures
        hex_digit(n) != ':',
{
    assert(':' as int == 0x3A);
    if n < 10 {
        assert(hex_digit(n) as int == 0x30 + n as int);
    } else {
        assert(hex_digit(n) as int == 0x37 + n as int);
    }
}

proof fn lemma_pct_bytes_no_colon(bs: Seq<u8>)
    ensures
        forall|k: int| 0 <= k < pct_bytes(bs).len() ==> pct_bytes(bs)[k] != ':',
    decreases bs.len(),
{
    if bs.len() > 0 {
        lemma_pct_bytes_no_colon(bs.drop_first());
        lemma_hex_digit_not_colon((bs[0] / 16) as u8);
        lemma_hex_digit_not_colon((bs[0] % 16) as u8);
        assert('%' as int == 0x25);
        assert forall|k: int| 0 <= k < pct_bytes(bs).len() implies pct_bytes(bs)[k] != ':' by {
            if k < 3 {
                assert(pct_bytes(bs)[k] == pct_byte(bs[0])[k]);
            } else {
                assert(pct_bytes(bs)[k] == pct_bytes(bs.drop_first())[k - 3]);
            }
        }
    }
}

proof fn lemma_enc_win_no_colon(p: Seq<char>)
    ensures
        forall|k: int| 0 <= k < enc_win(p).len() ==> enc_win(p)[k] != ':',
    decreases p.len(),
{
    if p.len() > 0 {
        lemma_enc_win_no_colon(p.drop_last());
        let c = p.last();
        let e = enc_win_char(c);
        assert(':' as int == 0x3A);
        assert forall|k: int| 0 <= k < e.len() implies e[k] != ':' by {
            if c == '\\' || c == '/' {
                assert(e[k] == '/');
            } else if c == ':' || must_encode(c) {
                lemma_pct_bytes_no_colon(utf8_bytes(c as int));
            } else {
                assert(e[k] == c && c != ':');
            }
        }
        assert forall|k: int| 0 <= k < enc_win(p).len() implies enc_win(p)[k] != ':' by {
            if k < enc_win(p.drop_last()).len() {
                assert(enc_win(p)[k] == enc_win(p.drop_last())[k]);
            } else {
                assert(enc_win(p)[k] == e[k - enc_win(p.drop_last()).len()]);
            }
        }
    }
}

proof fn lemma_find_last_colon_at(u: Seq<char>, i: int)
    requires
        0 <= i < u.len(),
        u[i] == ':',
        forall|j: int| i < j < u.len() ==> u[j] != ':',
    ensures
        find_last_colon(u) == i,
    decreases u.len(),
{
    if i == u.len() - 1 {
    } else {
        assert(u.last() != ':');
        assert(u.drop_last()[i] == ':');
        lemma_find_last_colon_at(u.drop_last(), i);
    }
}

/// The normalizer changes a Windows drive URI in exactly one place: the
/// drive letter, which stands right after `file:///`, is lower-cased, and
/// every other character of the direct conversion is kept byte-identical.
pub proof fn lemma_windows_drive_lowercased(p: Seq<char>)
    requires
        has_windows_drive(p),
        file_uri_of(p) is Some,
    ensures
        normalized_uri_of(p) is Some,
        ({
            let u = file_uri_of(p)->0;
            let v = normalized_uri_of(p)->0;
            &&& v.len() == u.len()
            &&& u[8] == drive_body(p)[0]
            &&& v[8] == to_lower(u[8])
            &&& forall|j: int| 0 <= j < u.len() && j != 8 ==> v[j] == u[j]
        }),
{
    reveal_strlit("file:///");
    let u = file_uri_of(p)->0;
    let body = drive_body(p);
    let tail = enc_win(body.skip(2));
    assert(u == "file:///"@ + seq![body[0], ':'] + tail);
    assert("file:///"@.len() == 8);
    assert(u.len() == 10 + tail.len());
    assert(u[8] == body[0]);
    assert(u[9] == ':');
    lemma_enc_win_no_colon(body.skip(2));
    assert forall|j: int| 9 < j < u.len() implies u[j] != ':' by {
        assert(u[j] == tail[j - 10]);
    }
    lemma_find_last_colon_at(u, 9);
    let low = u.take(10).map_values(|c: char| to_lower(c));
    let v = lower_through_last_colon(u);
    assert(v == low + u.skip(10));
    assert(v.len() == u.len());
    assert(v[8] == to_lower(u[8]));
    assert forall|j: int| 0 <= j < u.len() && j != 8 implies v[j] == u[j] by {
        if j < 10 {
            assert(v[j] == to_lower(u[j]));
            if j < 8 {
                assert(u[j] == "file:///"@[j]);
            } else {
                assert(u[j] == ':');
            }
            assert(to_lower(u[j]) == u[j]);
        } else {
            assert(v[j] == u.skip(10)[j - 10]);
        }
    }
}

} // verus!
