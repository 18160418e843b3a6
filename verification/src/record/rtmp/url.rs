//! Publish targets: `rtmp://host[:port]/app/key`.

use super::RtmpError;
use crate::text::{
    chars_of, decimal, digits_value, find_char, has_prefix, is_digit, is_unsigned,
    law_decimal_reads_back, lemma_find_char, parse_unsigned, position, starts_with, string_of,
    unsigned_digits,
};
use vstd::prelude::*;
use vstd::string::*;

verus! {

/// A publish target. The key is everything behind the first path segment.
#[derive(Debug, Clone, PartialEq, Eq)]
pub struct RtmpUrl {
    pub host: String,
    pub port: u16,
    /// First path segment.
    pub app: String,
    /// The rest of the path: a credential.
    pub key: String,
}

/// A publish target, as contracts speak of it.
pub struct Target {
    pub host: Seq<char>,
    pub port: u16,
    pub app: Seq<char>,
    pub key: Seq<char>,
}

impl View for RtmpUrl {
    type V = Target;

    open spec fn view(&self) -> Target {
        Target { host: self.host@, port: self.port, app: self.app@, key: self.key@ }
    }
}

/// The port when the target names none.
pub const DEFAULT_PORT: u16 = 1935;

/// Where the trailing slashes of `s[from..to]` begin.
pub open spec fn drop_slashes(s: Seq<char>, from: int, to: int) -> int
    decreases to - from,
{
    if from < to && s[to - 1] == '/' {
        drop_slashes(s, from, to - 1)
    } else {
        to
    }
}

/// `s` without the slashes at its end.
pub open spec fn closed_path(s: Seq<char>) -> Seq<char> {
    s.subrange(0, drop_slashes(s, 0, s.len() as int))
}

/// What every publish target begins with.
pub open spec fn scheme() -> Seq<char> {
    seq!['r', 't', 'm', 'p', ':', '/', '/']
}

/// What a URL names, or the refusal that goes before the URL itself.
pub open spec fn target_of(url: Seq<char>) -> Result<Target, Seq<char>> {
    if !has_prefix(url, scheme()) {
        Err("not an rtmp:// URL: "@)
    } else {
        let rest = url.subrange(7, url.len() as int);
        let slash = find_char(rest, '/', 0);
        if slash >= rest.len() {
            Err("rtmp URL has no app/key path: "@)
        } else if slash == 0 {
            Err("rtmp URL has no host: "@)
        } else {
            target_at(rest.subrange(0, slash), rest.subrange(slash + 1, rest.len() as int))
        }
    }
}

/// The target at `authority` (a host, or a host and a port) with the path
/// `whole`. An empty first segment is refused; slashes at the end do not count.
pub open spec fn target_at(authority: Seq<char>, whole: Seq<char>) -> Result<Target, Seq<char>> {
    let colon = find_char(authority, ':', 0);
    let host = authority.subrange(0, colon);
    let number = authority.subrange(colon + 1, authority.len() as int);
    let path = closed_path(whole);
    let slash = find_char(path, '/', 0);
    if colon < authority.len() && !is_unsigned(number, 65_535) {
        Err("rtmp URL has a bad port: "@)
    } else if host.len() == 0 {
        Err("rtmp URL has no host: "@)
    } else if whole.len() > 0 && whole[0] == '/' {
        Err("rtmp URL needs a non-empty app and key: "@)
    } else if slash >= path.len() {
        Err("rtmp URL has no stream key: "@)
    } else {
        Ok(
            Target {
                host,
                port: if colon < authority.len() {
                    digits_value(unsigned_digits(number)) as u16
                } else {
                    DEFAULT_PORT
                },
                app: path.subrange(0, slash),
                key: path.subrange(slash + 1, path.len() as int),
            },
        )
    }
}

fn slice_of(chars: &Vec<char>, from: usize, to: usize) -> (v: Vec<char>)
    requires
        from <= to <= chars@.len(),
    ensures
        v@ == chars@.subrange(from as int, to as int),
{
    let mut v: Vec<char> = Vec::new();
    let mut i: usize = from;
    while i < to
        invariant
            from <= i <= to <= chars@.len(),
            v@ == chars@.subrange(from as int, i as int),
        decreases to - i,
    {
        v.push(chars[i]);
        i = i + 1;
        assert(v@ =~= chars@.subrange(from as int, i as int));
    }
    v
}

fn close(chars: &Vec<char>) -> (v: Vec<char>)
    ensures
        v@ == closed_path(chars@),
{
    let n: usize = chars.len();
    let mut to: usize = n;
    while 0 < to && chars[to - 1] == '/'
        invariant
            to <= n == chars@.len(),
            drop_slashes(chars@, 0, n as int) == drop_slashes(chars@, 0, to as int),
        decreases to,
    {
        to = to - 1;
    }
    slice_of(chars, 0, to)
}

fn refuse(why: &str, url: &str) -> (e: RtmpError)
    ensures
        e is Parse,
        e.detail() == why@ + url@,
{
    RtmpError::Parse(why.to_owned().concat(url))
}

/// Read a publish target. What is not one is refused, with the reason and the
/// URL.
pub fn parse_rtmp_url(url: &str) -> (r: Result<RtmpUrl, RtmpError>)
    ensures
        match (r, target_of(url@)) {
            (Ok(u), Ok(t)) => u@ == t,
            (Err(e), Err(why)) => e is Parse && e.detail() == why + url@,
            _ => false,
        },
{
    let chars: Vec<char> = chars_of(url);
    let head: Vec<char> = vec!['r', 't', 'm', 'p', ':', '/', '/'];
    assert(head@ =~= scheme());
    if !starts_with(chars.as_slice(), head.as_slice()) {
        return Err(refuse("not an rtmp:// URL: ", url));
    }
    let rest: Vec<char> = slice_of(&chars, 7, chars.len());
    let slash: usize = position(rest.as_slice(), '/', 0);
    if slash >= rest.len() {
        return Err(refuse("rtmp URL has no app/key path: ", url));
    }
    if slash == 0 {
        return Err(refuse("rtmp URL has no host: ", url));
    }
    let authority: Vec<char> = slice_of(&rest, 0, slash);
    let whole: Vec<char> = slice_of(&rest, slash + 1, rest.len());
    let path: Vec<char> = close(&whole);
    let colon: usize = position(authority.as_slice(), ':', 0);
    let mut port: u16 = DEFAULT_PORT;
    if colon < authority.len() {
        let number: Vec<char> = slice_of(&authority, colon + 1, authority.len());
        match parse_unsigned(number.as_slice(), 65_535) {
            Some(v) => {
                port = v as u16;
            },
            None => return Err(refuse("rtmp URL has a bad port: ", url)),
        }
    }
    if colon == 0 {
        return Err(refuse("rtmp URL has no host: ", url));
    }
    if whole.len() > 0 && whole[0] == '/' {
        return Err(refuse("rtmp URL needs a non-empty app and key: ", url));
    }
    let cut: usize = position(path.as_slice(), '/', 0);
    if cut >= path.len() {
        return Err(refuse("rtmp URL has no stream key: ", url));
    }
    Ok(
        RtmpUrl {
            host: string_of(authority.as_slice(), 0, colon),
            port,
            app: string_of(path.as_slice(), 0, cut),
            key: string_of(path.as_slice(), cut + 1, path.len()),
        },
    )
}

proof fn lemma_closed_path(s: Seq<char>, to: int)
    requires
        0 <= to <= s.len(),
    ensures
        0 <= drop_slashes(s, 0, to) <= to,
        drop_slashes(s, 0, to) > 0 ==> s[drop_slashes(s, 0, to) - 1] != '/',
    decreases to,
{
    if 0 < to && s[to - 1] == '/' {
        lemma_closed_path(s, to - 1);
    }
}

/// No part of a target that is accepted is empty, and neither host nor app
/// holds a separator.
pub proof fn law_targets_are_complete(url: Seq<char>)
    requires
        target_of(url) is Ok,
    ensures
        target_of(url) matches Ok(t) && t.host.len() > 0 && t.app.len() > 0 && t.key.len() > 0
            && !t.host.contains('/') && !t.host.contains(':') && !t.app.contains('/'),
{
    let rest = url.subrange(7, url.len() as int);
    lemma_find_char(rest, '/', 0);
    let slash = find_char(rest, '/', 0);
    let authority = rest.subrange(0, slash);
    lemma_find_char(authority, ':', 0);
    let whole = rest.subrange(slash + 1, rest.len() as int);
    lemma_closed_path(whole, whole.len() as int);
    let path = closed_path(whole);
    lemma_find_char(path, '/', 0);
    let cut = find_char(path, '/', 0);
    assert(path[0] == whole[0]);
    assert(path[path.len() - 1] != '/');
    let host = authority.subrange(0, find_char(authority, ':', 0));
    assert forall|i: int| 0 <= i < host.len() implies host[i] != '/' && host[i] != ':' by {
        assert(host[i] == authority[i]);
        assert(authority[i] == rest[i]);
    }
}

/// A target whose path begins with an empty segment is refused.
pub proof fn law_an_empty_first_segment_is_refused(host: Seq<char>, path: Seq<char>)
    requires
        !host.contains('/'),
        path.len() > 0,
        path[0] == '/',
    ensures
        target_of(scheme() + host + seq!['/'] + path) is Err,
{
    lemma_split(host, path);
}

proof fn lemma_found(s: Seq<char>, c: char, from: int, at: int)
    requires
        0 <= from <= at <= s.len(),
        forall|k: int| from <= k < at ==> s[k] != c,
        at < s.len() ==> s[at] == c,
    ensures
        find_char(s, c, from) == at,
    decreases at - from,
{
    if from < at {
        lemma_found(s, c, from + 1, at);
    }
}

/// A URL comes apart at the first slash behind its scheme.
proof fn lemma_split(authority: Seq<char>, whole: Seq<char>)
    requires
        !authority.contains('/'),
    ensures
        ({
            let url = scheme() + authority + seq!['/'] + whole;
            if authority.len() == 0 {
                target_of(url) is Err
            } else {
                target_of(url) == target_at(authority, whole)
            }
        }),
{
    let url = scheme() + authority + seq!['/'] + whole;
    assert(url.subrange(0, 7) =~= scheme());
    let rest = url.subrange(7, url.len() as int);
    assert(rest =~= authority + seq!['/'] + whole);
    assert forall|k: int| 0 <= k < authority.len() implies rest[k] != '/' by {
        assert(rest[k] == authority[k]);
        assert(authority.contains(authority[k]));
    }
    lemma_found(rest, '/', 0, authority.len() as int);
    assert(rest.subrange(0, authority.len() as int) =~= authority);
    assert(rest.subrange(authority.len() as int + 1, rest.len() as int) =~= whole);
}

proof fn lemma_path(app: Seq<char>, key: Seq<char>)
    requires
        app.len() > 0,
        !app.contains('/'),
        key.len() > 0,
        key.last() != '/',
    ensures
        ({
            let whole = app + seq!['/'] + key;
            &&& whole[0] != '/'
            &&& closed_path(whole) == whole
            &&& find_char(whole, '/', 0) == app.len()
            &&& whole.subrange(0, app.len() as int) == app
            &&& whole.subrange(app.len() as int + 1, whole.len() as int) == key
        }),
{
    let whole = app + seq!['/'] + key;
    assert forall|k: int| 0 <= k < app.len() implies whole[k] != '/' by {
        assert(whole[k] == app[k]);
        assert(app.contains(app[k]));
    }
    lemma_found(whole, '/', 0, app.len() as int);
    assert(whole[whole.len() - 1] == key.last());
    assert(closed_path(whole) =~= whole);
    assert(whole.subrange(0, app.len() as int) =~= app);
    assert(whole.subrange(app.len() as int + 1, whole.len() as int) =~= key);
}

/// A target that is built from its parts is read back as those parts, with its
/// port or with the one it has by default.
pub proof fn law_a_target_reads_back(host: Seq<char>, port: u16, app: Seq<char>, key: Seq<char>)
    requires
        host.len() > 0,
        !host.contains('/'),
        !host.contains(':'),
        app.len() > 0,
        !app.contains('/'),
        key.len() > 0,
        key.last() != '/',
    ensures
        target_of(
            scheme() + (host + seq![':'] + decimal(port as nat)) + seq!['/'] + (app + seq!['/']
                + key),
        ) == Ok::<Target, Seq<char>>(Target { host, port, app, key }),
        target_of(scheme() + host + seq!['/'] + (app + seq!['/'] + key)) == Ok::<
            Target,
            Seq<char>,
        >(Target { host, port: DEFAULT_PORT, app, key }),
{
    lemma_path(app, key);
    let whole = app + seq!['/'] + key;
    let number = decimal(port as nat);
    let named = host + seq![':'] + number;
    law_decimal_reads_back(port as nat);
    assert forall|k: int| 0 <= k < host.len() implies host[k] != ':' && host[k] != '/' by {
        assert(host.contains(host[k]));
    }
    assert(!named.contains('/')) by {
        assert forall|k: int| 0 <= k < named.len() implies named[k] != '/' by {
            if k < host.len() {
                assert(named[k] == host[k]);
            } else if k > host.len() {
                assert(named[k] == number[k - host.len() - 1]);
                assert(is_digit(number[k - host.len() - 1]));
            }
        }
    }
    lemma_split(named, whole);
    lemma_split(host, whole);
    lemma_found(named, ':', 0, host.len() as int);
    lemma_found(host, ':', 0, host.len() as int);
    assert(named.subrange(0, host.len() as int) =~= host);
    assert(named.subrange(host.len() as int + 1, named.len() as int) =~= number);
    assert(is_digit(number[0]));
    assert(unsigned_digits(number) == number);
    assert(host.subrange(0, host.len() as int) =~= host);
}

/// A host alone, or a host and an app alone, is no target; nor is anything of
/// another scheme.
pub proof fn law_a_target_needs_all_its_parts(host: Seq<char>, app: Seq<char>, other: Seq<char>)
    requires
        !host.contains('/'),
        !app.contains('/'),
        !has_prefix(other, scheme()),
    ensures
        target_of(scheme() + host) is Err,
        target_of(scheme() + host + seq!['/'] + app) is Err,
        target_of(other) is Err,
{
    let url = scheme() + host;
    assert(url.subrange(0, 7) =~= scheme());
    let rest = url.subrange(7, url.len() as int);
    assert(rest =~= host);
    assert forall|k: int| 0 <= k < host.len() implies host[k] != '/' by {
        assert(host.contains(host[k]));
    }
    lemma_found(host, '/', 0, host.len() as int);
    lemma_split(host, app);
    lemma_closed_path(app, app.len() as int);
    let path = closed_path(app);
    assert forall|k: int| 0 <= k < path.len() implies path[k] != '/' by {
        assert(path[k] == app[k]);
        assert(app.contains(app[k]));
    }
    lemma_found(path, '/', 0, path.len() as int);
}

} // verus!
