//! Where requests go and what comes of them.

use std::sync::atomic::{AtomicBool, Ordering};
use std::sync::Arc;

use vstd::prelude::*;
use vstd::string::*;

use crate::client::error::ClientError;
use crate::client::join::reversed;
use crate::text::{
    append_size, chars_of, decimal, decode_lossy, find, first_pos, first_pos_is, lossy_utf8,
    same_text, stands_at, starts_with, string_of,
};

verus! {

/// Largest response that is accepted, 64 MiB.
pub const MAX_BODY_BYTES: usize = 67_108_864;

/// A flag that the caller sets to abort a request. Clones share the flag.
///
/// The flag is an atomic, which any holder can set through a shared
/// reference, so its state is no part of a token's value. What a holder reads
/// depends on what the others have done by then. Contracts therefore state
/// neither that a new flag is not set nor that one stays set.
#[derive(Debug, Clone)]
pub struct CancelToken {
    flag: Arc<AtomicBool>,
}

impl CancelToken {
    /// A flag that is not set.
    pub fn new() -> (t: Self) {
        CancelToken { flag: Arc::new(AtomicBool::new(false)) }
    }

    /// Sets the flag.
    pub fn cancel(&self) {
        self.flag.store(true, Ordering::SeqCst);
    }

    /// Whether the flag is set.
    pub fn is_cancelled(&self) -> (r: bool) {
        self.flag.load(Ordering::SeqCst)
    }
}

impl Default for CancelToken {
    fn default() -> (t: Self) {
        CancelToken::new()
    }
}

/// Methods of a request.
#[derive(Debug, Clone, Copy, PartialEq, Eq, Structural)]
pub enum Method {
    Get,
    Post,
}

impl Method {
    /// The name of the method on the wire.
    pub fn name(self) -> (s: &'static str)
        ensures
            s@ == (match self {
                Method::Get => "GET"@,
                Method::Post => "POST"@,
            }),
    {
        match self {
            Method::Get => "GET",
            Method::Post => "POST",
        }
    }

    /// Whether a request says that its body is JSON: it posts one.
    pub fn sends_json(self, body_len: usize) -> (r: bool)
        ensures
            r == (self == Method::Post && body_len > 0),
    {
        match self {
            Method::Get => false,
            Method::Post => body_len > 0,
        }
    }
}

/// One request of a batch.
pub struct BatchItem<B> {
    pub url: String,
    pub method: Method,
    pub body: Option<B>,
}

/// How the server is reached.
#[derive(Debug, Clone, Copy, PartialEq, Eq, Structural)]
pub enum Scheme {
    Http,
    Uds,
}

/// What a transport is made from.
#[derive(Debug)]
pub enum TransportInit {
    /// The origin that paths are appended to.
    Http { base: String },
    /// The path of the socket.
    Uds { path: String },
}

/// `s` without the `c`s at its end.
pub open spec fn trimmed_end(s: Seq<char>, c: char) -> Seq<char>
    decreases s.len(),
{
    if s.len() > 0 && s.last() == c {
        trimmed_end(s.drop_last(), c)
    } else {
        s
    }
}

/// `s` without the `c`s at its end.
fn trim_end(s: &str, c: char) -> (t: String)
    ensures
        t@ == trimmed_end(s@, c),
{
    let v: Vec<char> = chars_of(s);
    let mut n: usize = v.len();
    assert(v@.take(n as int) =~= v@);
    while n > 0 && v[n - 1] == c
        invariant
            n <= v@.len(),
            trimmed_end(v@, c) == trimmed_end(v@.take(n as int), c),
        decreases n,
    {
        assert(v@.take(n as int).drop_last() =~= v@.take(n - 1));
        n = n - 1;
    }
    assert(v@.take(n as int) =~= v@.subrange(0, n as int));
    string_of(&v, 0, n)
}

/// What is left of `s` after `p`, where `s` begins with `p`.
pub open spec fn stripped(s: Seq<char>, p: Seq<char>) -> Option<Seq<char>> {
    if p.is_prefix_of(s) {
        Some(s.skip(p.len() as int))
    } else {
        None
    }
}

/// What is left of `s` after `p`.
fn strip(s: &str, p: &str) -> (r: Option<String>)
    ensures
        match r {
            Some(t) => stripped(s@, p@) == Some(t@),
            None => stripped(s@, p@) is None,
        },
{
    let v: Vec<char> = chars_of(s);
    let w: Vec<char> = chars_of(p);
    if stands_at(&v, 0, &w) {
        assert(w@.is_prefix_of(v@));
        assert(v@.skip(w@.len() as int) =~= v@.subrange(w@.len() as int, v@.len() as int));
        Some(string_of(&v, w.len(), v.len()))
    } else {
        assert(!w@.is_prefix_of(v@));
        None
    }
}

/// The path of the socket in what follows `uds://`: from the first slash on.
pub open spec fn path_after_host(rest: Seq<char>, raw: Seq<char>) -> Result<Seq<char>, Seq<char>> {
    if rest.len() == 0 {
        Err("empty uds path in '"@ + raw + "'"@)
    } else if first_pos(rest, '/') < rest.len() {
        Ok(rest.skip(first_pos(rest, '/')))
    } else {
        Err("no socket path in '"@ + raw + "'"@)
    }
}

/// The path of the socket, or what is wrong with it, of a URL that names one:
/// `uds:///path`, `uds://host/path`, the same with `unix://`, or `uds:/path`.
/// `None` for any other URL.
pub open spec fn socket_of(raw: Seq<char>) -> Option<Result<Seq<char>, Seq<char>>> {
    match (stripped(raw, "uds://"@), stripped(raw, "unix://"@)) {
        (Some(rest), _) => Some(path_after_host(rest, raw)),
        (None, Some(rest)) => Some(path_after_host(rest, raw)),
        (None, None) => if "uds:/"@.is_prefix_of(raw) {
            Some(Ok(raw.skip(4)))
        } else {
            None
        },
    }
}

/// The path of the socket in what follows `uds://`.
fn find_path(rest: &str, raw: &str) -> (r: Result<String, ClientError>)
    ensures
        match r {
            Ok(p) => path_after_host(rest@, raw@) == Ok::<Seq<char>, Seq<char>>(p@),
            Err(ClientError::InvalidUrl(m)) => path_after_host(rest@, raw@) == Err::<
                Seq<char>,
                Seq<char>,
            >(m@),
            Err(_) => false,
        },
{
    let v: Vec<char> = chars_of(rest);
    if v.len() == 0 {
        let mut m: String = String::from_str("empty uds path in '");
        m.append(raw);
        m.append("'");
        return Err(ClientError::InvalidUrl(m));
    }
    let at: usize = find(&v, '/');
    if at < v.len() {
        assert(v@.skip(at as int) =~= v@.subrange(at as int, v@.len() as int));
        return Ok(string_of(&v, at, v.len()));
    }
    let mut m: String = String::from_str("no socket path in '");
    m.append(raw);
    m.append("'");
    Err(ClientError::InvalidUrl(m))
}

/// The path of the socket of a URL that names one.
pub fn socket_path(raw: &str) -> (r: Option<Result<String, ClientError>>)
    ensures
        match r {
            Some(Ok(p)) => socket_of(raw@) == Some(Ok::<Seq<char>, Seq<char>>(p@)),
            Some(Err(ClientError::InvalidUrl(m))) => socket_of(raw@) == Some(
                Err::<Seq<char>, Seq<char>>(m@),
            ),
            Some(Err(_)) => false,
            None => socket_of(raw@) is None,
        },
{
    if let Some(rest) = strip(raw, "uds://") {
        return Some(find_path(rest.as_str(), raw));
    }
    if let Some(rest) = strip(raw, "unix://") {
        return Some(find_path(rest.as_str(), raw));
    }
    if starts_with(raw, "uds:/") {
        let v: Vec<char> = chars_of(raw);
        proof {
            reveal_strlit("uds:/");
            assert("uds:/"@.len() == 5);
            assert(v@.skip(4) =~= v@.subrange(4, v@.len() as int));
        }
        return Some(Ok(string_of(&v, 4, v.len())));
    }
    None
}

/// The scheme that `url::Url::parse` finds in a text, or what it says is
/// wrong with it.
pub uninterp spec fn parsed_scheme(raw: Seq<char>) -> Result<Seq<char>, Seq<char>>;

/// Parses a URL with `url::Url::parse` and gives its scheme, as
/// `url::Url::scheme` has it, or the text of the error. Both depend on the
/// URL alone.
#[verifier::external_body]
fn url_scheme(raw: &str) -> (r: Result<String, String>)
    ensures
        match r {
            Ok(s) => parsed_scheme(raw@) == Ok::<Seq<char>, Seq<char>>(s@),
            Err(e) => parsed_scheme(raw@) == Err::<Seq<char>, Seq<char>>(e@),
        },
{
    match url::Url::parse(raw) {
        Ok(u) => Ok(u.scheme().to_string()),
        Err(e) => Err(e.to_string()),
    }
}

/// The origin of a URL that names no socket, from what parsing it gave, or
/// what is wrong with it.
pub open spec fn origin_of(raw: Seq<char>, parsed: Result<Seq<char>, Seq<char>>) -> Result<
    Seq<char>,
    Seq<char>,
> {
    match parsed {
        Ok(scheme) => if scheme == "http"@ || scheme == "https"@ {
            Ok(trimmed_end(raw, '/'))
        } else {
            Err("unsupported URL scheme '"@ + scheme + "' in '"@ + raw + "'"@)
        },
        Err(e) => Err(e + " in '"@ + raw + "'"@),
    }
}

/// The origin of a URL that names no socket, from what parsing it gave.
pub fn http_origin(raw: &str, parsed: Result<String, String>) -> (r: Result<String, ClientError>)
    ensures
        ({
            let p = match parsed {
                Ok(s) => Ok::<Seq<char>, Seq<char>>(s@),
                Err(e) => Err::<Seq<char>, Seq<char>>(e@),
            };
            match r {
                Ok(base) => origin_of(raw@, p) == Ok::<Seq<char>, Seq<char>>(base@),
                Err(ClientError::InvalidUrl(m)) => origin_of(raw@, p) == Err::<
                    Seq<char>,
                    Seq<char>,
                >(m@),
                Err(_) => false,
            }
        }),
{
    match parsed {
        Ok(scheme) => {
            if same_text(scheme.as_str(), "http") || same_text(scheme.as_str(), "https") {
                return Ok(trim_end(raw, '/'));
            }
            let mut m: String = String::from_str("unsupported URL scheme '");
            m.append(scheme.as_str());
            m.append("' in '");
            m.append(raw);
            m.append("'");
            Err(ClientError::InvalidUrl(m))
        },
        Err(e) => {
            let mut m: String = e;
            m.append(" in '");
            m.append(raw);
            m.append("'");
            Err(ClientError::InvalidUrl(m))
        },
    }
}

/// How the server at a URL is reached: the scheme, what requests are
/// addressed to, and what the transport is made from.
pub fn classify(raw: &str) -> (r: Result<(Scheme, String, TransportInit), ClientError>)
    ensures
        match r {
            Ok((Scheme::Uds, base, TransportInit::Uds { path })) => base@.len() == 0 && socket_of(
                raw@,
            ) == Some(Ok::<Seq<char>, Seq<char>>(path@)),
            Ok((Scheme::Http, base, TransportInit::Http { base: origin })) => base@ == origin@
                && socket_of(raw@) is None && origin_of(raw@, parsed_scheme(raw@)) == Ok::<
                Seq<char>,
                Seq<char>,
            >(base@),
            Ok(_) => false,
            Err(ClientError::InvalidUrl(m)) => match socket_of(raw@) {
                Some(s) => s == Err::<Seq<char>, Seq<char>>(m@),
                None => origin_of(raw@, parsed_scheme(raw@)) == Err::<Seq<char>, Seq<char>>(m@),
            },
            Err(_) => false,
        },
{
    match socket_path(raw) {
        Some(Ok(path)) => Ok((Scheme::Uds, String::new(), TransportInit::Uds { path })),
        Some(Err(e)) => Err(e),
        None => match http_origin(raw, url_scheme(raw)) {
            Ok(base) => {
                let origin: String = base.clone();
                Ok((Scheme::Http, base, TransportInit::Http { base: origin }))
            },
            Err(e) => Err(e),
        },
    }
}

/// All ways to write a socket's path mean the same: with an empty host, with
/// a host, and with a single slash, for a path that does not itself begin
/// with a slash.
pub proof fn socket_forms_agree(host: Seq<char>, path: Seq<char>)
    requires
        host.len() > 0,
        forall|i: int| 0 <= i < host.len() ==> #[trigger] host[i] != '/',
        path.len() > 0 ==> path[0] != '/',
    ensures
        ({
            let target = seq!['/'] + path;
            &&& socket_of("uds://"@ + target) == Some(Ok::<Seq<char>, Seq<char>>(target))
            &&& socket_of("unix://"@ + target) == Some(Ok::<Seq<char>, Seq<char>>(target))
            &&& socket_of("uds://"@ + host + target) == Some(Ok::<Seq<char>, Seq<char>>(target))
            &&& socket_of("uds:"@ + target) == Some(Ok::<Seq<char>, Seq<char>>(target))
        }),
{
    reveal_strlit("uds://");
    reveal_strlit("unix://");
    reveal_strlit("uds:/");
    reveal_strlit("uds:");
    let target = seq!['/'] + path;
    let a = "uds://"@ + target;
    assert("uds://"@.is_prefix_of(a));
    assert(a.skip(6) =~= target);
    first_pos_is(target, '/');
    assert(target[0] == '/');
    assert(first_pos(target, '/') == 0);
    assert(target.skip(0) =~= target);
    let b = "unix://"@ + target;
    assert("unix://"@.is_prefix_of(b));
    assert(b.skip(7) =~= target);
    assert(!"uds://"@.is_prefix_of(b)) by {
        assert(b[1] == 'n');
        assert("uds://"@[1] == 'd');
    }
    let c = "uds://"@ + host + target;
    let rest = host + target;
    assert(c =~= "uds://"@ + rest);
    assert("uds://"@.is_prefix_of(c));
    assert(c.skip(6) =~= rest);
    first_pos_is(rest, '/');
    let n = host.len() as int;
    assert(rest[n] == '/');
    if first_pos(rest, '/') < n {
        assert(host[first_pos(rest, '/')] != '/');
    }
    assert(first_pos(rest, '/') == n);
    assert(rest.skip(n) =~= target);
    let d = "uds:"@ + target;
    assert(d.skip(4) =~= target);
    assert("uds:/"@.is_prefix_of(d)) by {
        assert(d.subrange(0, 5) =~= "uds:/"@);
    }
    assert(!"uds://"@.is_prefix_of(d)) by {
        if d.len() >= 6 {
            assert(d[5] == path[0]);
            assert("uds://"@[5] == '/');
            assert(d.subrange(0, 6)[5] == d[5]);
        }
    }
    assert(!"unix://"@.is_prefix_of(d)) by {
        assert(d[1] == 'd');
        assert("unix://"@[1] == 'n');
        if d.len() >= 7 {
            assert(d.subrange(0, 7)[1] == d[1]);
        }
    }
}

/// An origin does not end in a slash, so that appending a path that begins
/// with one gives a single slash.
pub proof fn origin_has_no_slash(raw: Seq<char>)
    ensures
        trimmed_end(raw, '/').len() > 0 ==> trimmed_end(raw, '/').last() != '/',
        trimmed_end(raw, '/').is_prefix_of(raw),
    decreases raw.len(),
{
    if raw.len() > 0 && raw.last() == '/' {
        let init = raw.drop_last();
        origin_has_no_slash(init);
        let t = trimmed_end(raw, '/');
        assert(init.subrange(0, t.len() as int) =~= raw.subrange(0, t.len() as int));
    } else {
        assert(raw.subrange(0, raw.len() as int) =~= raw);
    }
}

/// What a request for `path` is addressed to.
pub open spec fn addressed(scheme: Scheme, base: Seq<char>, path: Seq<char>) -> Seq<char> {
    match scheme {
        Scheme::Http => base + path,
        Scheme::Uds => path,
    }
}

/// What a request for `path` is addressed to.
pub fn request_url(scheme: Scheme, base: &str, path: &str) -> (url: String)
    ensures
        url@ == addressed(scheme, base@, path@),
{
    match scheme {
        Scheme::Http => {
            let mut url: String = String::from_str(base);
            url.append(path);
            url
        },
        Scheme::Uds => String::from_str(path),
    }
}

/// Addresses every request of a batch, in order.
pub fn address_items<B>(scheme: Scheme, base: &str, items: Vec<BatchItem<B>>) -> (out: Vec<
    BatchItem<B>,
>)
    ensures
        out@.len() == items@.len(),
        forall|i: int|
            0 <= i < out@.len() ==> (#[trigger] out@[i]).url@ == addressed(
                scheme,
                base@,
                items@[i].url@,
            ) && out@[i].method == items@[i].method && out@[i].body == items@[i].body,
{
    let ghost all = items@;
    let mut rest: Vec<BatchItem<B>> = items;
    let mut back: Vec<BatchItem<B>> = Vec::new();
    while rest.len() > 0
        invariant
            rest@.len() <= all.len(),
            rest@ == all.take(rest@.len() as int),
            back@.len() == all.len() - rest@.len(),
            forall|k: int|
                0 <= k < back@.len() ==> (#[trigger] back@[k]).url@ == addressed(
                    scheme,
                    base@,
                    all[all.len() - 1 - k].url@,
                ) && back@[k].method == all[all.len() - 1 - k].method && back@[k].body
                    == all[all.len() - 1 - k].body,
        decreases rest@.len(),
    {
        let ghost n = rest@.len() as int;
        if let Some(it) = rest.pop() {
            assert(it == all[n - 1]);
            let url: String = request_url(scheme, base, it.url.as_str());
            back.push(BatchItem { url, method: it.method, body: it.body });
            assert(rest@ =~= all.take(n - 1));
        }
    }
    let out: Vec<BatchItem<B>> = reversed(back);
    assert forall|i: int| 0 <= i < out@.len() implies (#[trigger] out@[i]).url@ == addressed(
        scheme,
        base@,
        all[i].url@,
    ) && out@[i].method == all[i].method && out@[i].body == all[i].body by {
        assert(out@[i] == back@[back@.len() - 1 - i]);
    }
    out
}

/// What `hyper::Uri` says is wrong with a text that should be a URI; `None`
/// where nothing is.
pub uninterp spec fn uri_fault(text: Seq<char>) -> Option<Seq<char>>;

/// Parses a URI with `hyper::Uri` and gives the text of the error, where there
/// is one. It depends on the text alone.
#[verifier::external_body]
fn check_uri(text: &str) -> (r: Option<String>)
    ensures
        match r {
            Some(e) => uri_fault(text@) == Some(e@),
            None => uri_fault(text@) is None,
        },
{
    match text.parse::<hyper::Uri>() {
        Ok(_) => None,
        Err(e) => Some(e.to_string()),
    }
}

/// The URI of a request over a socket, from what parsing it said.
pub fn socket_uri(text: String, fault: Option<String>) -> (r: Result<String, ClientError>)
    ensures
        match r {
            Ok(u) => fault is None && u@ == text@,
            Err(e) => fault is Some && (e matches ClientError::InvalidUrl(m) && m@ == fault->0@),
        },
{
    match fault {
        Some(e) => Err(ClientError::InvalidUrl(e)),
        None => Ok(text),
    }
}

/// The URI of a request for `path` over a socket, under a host name that only
/// fills its place.
pub fn uds_uri(path: &str) -> (r: Result<String, ClientError>)
    ensures
        match r {
            Ok(u) => u@ == "http://larql-uds"@ + path@ && uri_fault(u@) is None,
            Err(ClientError::InvalidUrl(m)) => uri_fault("http://larql-uds"@ + path@) == Some(m@),
            Err(_) => false,
        },
{
    let mut text: String = String::from_str("http://larql-uds");
    text.append(path);
    let fault: Option<String> = check_uri(text.as_str());
    socket_uri(text, fault)
}

/// Whether a status is a success.
pub open spec fn success(status: u16) -> bool {
    200 <= status < 300
}

/// What is said of a response that is too large.
pub open spec fn too_large_text(len: nat) -> Seq<char> {
    "response body too large: "@ + decimal(len) + " > "@ + decimal(MAX_BODY_BYTES as nat)
}

/// Whether the body of a response is handed on.
pub open spec fn accepted(status: u16, len: nat) -> bool {
    success(status) && len <= MAX_BODY_BYTES
}

/// The body of a response that is a success and not too large.
pub fn check_response(status: u16, bytes: Vec<u8>) -> (r: Result<Vec<u8>, ClientError>)
    ensures
        if !success(status) {
            r matches Err(ClientError::Server { status: s, body }) && s == status && body@
                == lossy_utf8(bytes@) && (vstd::utf8::valid_utf8(bytes@) ==> body@
                == vstd::utf8::decode_utf8(bytes@))
        } else if bytes@.len() > MAX_BODY_BYTES {
            r matches Err(ClientError::Transport(m)) && m@ == too_large_text(bytes@.len())
        } else {
            r matches Ok(b) && b@ == bytes@
        },
        r is Ok <==> accepted(status, bytes@.len()),
{
    if status < 200 || status >= 300 {
        return Err(ClientError::Server { status, body: decode_lossy(bytes.as_slice()) });
    }
    if bytes.len() > MAX_BODY_BYTES {
        let mut m: String = String::from_str("response body too large: ");
        append_size(&mut m, bytes.len());
        m.append(" > ");
        append_size(&mut m, MAX_BODY_BYTES);
        return Err(ClientError::Transport(m));
    }
    Ok(bytes)
}

/// How the race of a request against time and the cancel flag ended.
#[derive(Debug)]
pub enum RaceOutcome<T> {
    Finished(Result<T, ClientError>),
    TimedOut,
    Cancelled,
}

/// The result of a request from how its race ended.
pub fn settle<T>(outcome: RaceOutcome<T>) -> (r: Result<T, ClientError>)
    ensures
        match outcome {
            RaceOutcome::Finished(inner) => r == inner,
            RaceOutcome::TimedOut => r matches Err(ClientError::Transport(m)) && m@
                == "uds request timed out"@,
            RaceOutcome::Cancelled => r matches Err(e) && e is Cancelled,
        },
{
    match outcome {
        RaceOutcome::Finished(inner) => inner,
        RaceOutcome::TimedOut => Err(
            ClientError::Transport(String::from_str("uds request timed out")),
        ),
        RaceOutcome::Cancelled => Err(ClientError::Cancelled),
    }
}

/// What happened while the caller waited for a reply.
#[derive(Debug)]
pub enum WaitEvent<T> {
    /// The reply came.
    Reply(Result<T, ClientError>),
    /// No reply can come any more.
    Disconnected,
    /// Some time went by, and the caller's check gave this.
    Ticked(Result<(), ClientError>),
}

/// What the caller does next.
#[derive(Debug)]
pub enum WaitAction<T> {
    /// Return this.
    Return(Result<T, ClientError>),
    /// Wait on.
    Wait,
    /// Set the cancel flag, wait for the reply and return this error.
    Abort(ClientError),
}

/// What the caller does next while waiting for a reply.
pub fn on_wait<T>(event: WaitEvent<T>) -> (a: WaitAction<T>)
    ensures
        match event {
            WaitEvent::Reply(r) => a == WaitAction::Return(r),
            WaitEvent::Disconnected => a matches WaitAction::Return(
                Err(ClientError::Runtime(m)),
            ) && m@ == "reply channel dropped"@,
            WaitEvent::Ticked(Ok(_)) => a is Wait,
            WaitEvent::Ticked(Err(e)) => a == WaitAction::<T>::Abort(e),
        },
{
    match event {
        WaitEvent::Reply(r) => WaitAction::Return(r),
        WaitEvent::Disconnected => WaitAction::Return(
            Err(ClientError::Runtime(String::from_str("reply channel dropped"))),
        ),
        WaitEvent::Ticked(Ok(_)) => WaitAction::Wait,
        WaitEvent::Ticked(Err(e)) => WaitAction::Abort(e),
    }
}

/// The check of a caller that does not check anything.
pub fn no_tick() -> (r: Result<(), ClientError>)
    ensures
        r is Ok,
{
    Ok(())
}

/// However many slashes a URL ends in, they are all left out and nothing else
/// is.
pub proof fn trailing_slashes_are_left_out(s: Seq<char>, c: char, n: nat)
    requires
        s.len() > 0 ==> s.last() != c,
    ensures
        trimmed_end(s + Seq::new(n, |i: int| c), c) == s,
    decreases n,
{
    let t = s + Seq::new(n, |i: int| c);
    if n == 0 {
        assert(t =~= s);
    } else {
        assert(t.last() == c);
        assert(t.drop_last() =~= s + Seq::new((n - 1) as nat, |i: int| c));
        trailing_slashes_are_left_out(s, c, (n - 1) as nat);
    }
}

/// Which URLs name a socket: those that begin with `uds:/` or `unix://`. The
/// path is the end of the URL that begins with its first slash behind the
/// scheme and a host; only where there is no such slash is something wrong.
pub proof fn socket_path_is_the_end(raw: Seq<char>)
    ensures
        socket_of(raw) is None <==> !seq!['u', 'd', 's', ':', '/'].is_prefix_of(raw) && !seq![
            'u',
            'n',
            'i',
            'x',
            ':',
            '/',
            '/',
        ].is_prefix_of(raw),
        socket_of(raw) matches Some(Ok(path)) ==> {
            &&& 0 < path.len() <= raw.len() - 4
            &&& path[0] == '/'
            &&& raw.skip(raw.len() - path.len()) == path
            &&& forall|i: int|
                7 <= i < raw.len() - path.len() ==> #[trigger] raw[i] != '/'
            &&& raw[0] == 'u' && raw[1] == 'd' && raw[5] == '/' && raw.len() > 5 ==> path.len()
                <= raw.len() - 6
        },
        socket_of(raw) matches Some(Err(_)) ==> {
            &&& raw.len() >= 6
            &&& forall|i: int| 7 <= i < raw.len() ==> #[trigger] raw[i] != '/'
        },
{
    reveal_strlit("uds://");
    reveal_strlit("unix://");
    reveal_strlit("uds:/");
    assert("uds:/"@ =~= seq!['u', 'd', 's', ':', '/']);
    assert("unix://"@ =~= seq!['u', 'n', 'i', 'x', ':', '/', '/']);
    assert("uds://"@ =~= seq!['u', 'd', 's', ':', '/', '/']);
    if "uds://"@.is_prefix_of(raw) {
        assert(raw.subrange(0, 5) =~= raw.subrange(0, 6).subrange(0, 5));
        assert("uds:/"@ =~= "uds://"@.subrange(0, 5));
        let rest = raw.skip(6);
        first_pos_is(rest, '/');
        let n = first_pos(rest, '/');
        assert forall|i: int| 6 <= i < 6 + n && i < raw.len() implies #[trigger] raw[i] != '/' by {
            assert(rest[i - 6] == raw[i]);
        }
        if n < rest.len() {
            assert(rest[n] == '/');
            assert(raw.skip(6 + n) =~= rest.skip(n));
        }
    } else if "unix://"@.is_prefix_of(raw) {
        assert(raw.subrange(0, 7)[1] == 'n' && raw[1] == raw.subrange(0, 7)[1]);
        let rest = raw.skip(7);
        first_pos_is(rest, '/');
        let n = first_pos(rest, '/');
        assert forall|i: int| 7 <= i < 7 + n && i < raw.len() implies #[trigger] raw[i] != '/' by {
            assert(rest[i - 7] == raw[i]);
        }
        if n < rest.len() {
            assert(rest[n] == '/');
            assert(raw.skip(7 + n) =~= rest.skip(n));
        }
    } else if "uds:/"@.is_prefix_of(raw) {
        let head = raw.subrange(0, 5);
        assert(head[0] == raw[0] && head[1] == raw[1] && head[2] == raw[2] && head[3] == raw[3]
            && head[4] == raw[4]);
        assert(raw.skip(4)[0] == raw[4]);
        if raw.len() > 5 && raw[5] == '/' {
            assert(raw.subrange(0, 6) =~= "uds://"@);
        }
    }
}

/// A request over HTTP goes to the path behind the origin, all of both and
/// nothing else; one over a socket goes to the path, whatever the origin.
pub proof fn requests_are_addressed(base: Seq<char>, other: Seq<char>, path: Seq<char>)
    ensures
        addressed(Scheme::Http, base, path).len() == base.len() + path.len(),
        addressed(Scheme::Http, base, path).take(base.len() as int) == base,
        addressed(Scheme::Http, base, path).skip(base.len() as int) == path,
        addressed(Scheme::Uds, base, path) == path,
        addressed(Scheme::Uds, base, path) == addressed(Scheme::Uds, other, path),
{
    let url = addressed(Scheme::Http, base, path);
    assert(url.take(base.len() as int) =~= base);
    assert(url.skip(base.len() as int) =~= path);
}

/// A status is a success exactly where it is one of the two hundreds.
pub proof fn success_is_two_hundreds(status: u16)
    ensures
        success(status) <==> status / 100 == 2,
{
}

/// What an HTTP URL gives: its text up to its last character that is no
/// slash, where parsing it found one of the two schemes; anything else is
/// refused.
pub proof fn origins_are_http(raw: Seq<char>, scheme: Seq<char>)
    ensures
        origin_of(raw, Ok(scheme)) is Ok <==> scheme == seq!['h', 't', 't', 'p'] || scheme == seq![
            'h',
            't',
            't',
            'p',
            's',
        ],
        origin_of(raw, Ok(scheme)) matches Ok(base) ==> {
            &&& base.len() <= raw.len()
            &&& base == raw.take(base.len() as int)
            &&& base.len() > 0 ==> base.last() != '/'
            &&& forall|i: int| base.len() <= i < raw.len() ==> #[trigger] raw[i] == '/'
        },
        origin_of(raw, Err(scheme)) is Err,
    decreases raw.len(),
{
    reveal_strlit("http");
    reveal_strlit("https");
    assert("http"@ =~= seq!['h', 't', 't', 'p']);
    assert("https"@ =~= seq!['h', 't', 't', 'p', 's']);
    if raw.len() > 0 && raw.last() == '/' {
        let init = raw.drop_last();
        origins_are_http(init, scheme);
        let base = trimmed_end(raw, '/');
        if origin_of(raw, Ok(scheme)) is Ok {
            assert(origin_of(init, Ok(scheme)) == Ok::<Seq<char>, Seq<char>>(base));
            assert(raw.take(base.len() as int) =~= init.take(base.len() as int));
            assert forall|i: int| base.len() <= i < raw.len() implies #[trigger] raw[i] == '/' by {
                if i < init.len() {
                    assert(init[i] == raw[i]);
                }
            }
        }
    } else {
        assert(raw.take(raw.len() as int) =~= raw);
    }
}

/// A response is handed on exactly where its status is one of the two hundreds
/// and its body is not above the limit; a longer body is not, and nor is
/// any body of another status.
pub proof fn which_responses_are_accepted(status: u16, len: nat, longer: nat)
    requires
        len <= longer,
    ensures
        accepted(status, len) <==> status / 100 == 2 && len <= 67_108_864,
        accepted(status, longer) ==> accepted(status, len),
        !accepted(status, 0) ==> !accepted(status, longer),
{
}

} // verus!
