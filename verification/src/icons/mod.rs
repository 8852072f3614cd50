//! Process-to-icon resolution: the resolver's cache and its exchange with the
//! background worker that scans `.desktop` files and icon themes.
//!
//! The worker thread, the channel and the disk are the caller's: this module
//! decides what to ask the worker, what to answer from the cache, what a
//! worker reply changes, and when and what to write to disk.
use vstd::prelude::*;
use crate::assoc::{distinct_keys, key_pos, lemma_key_pos, lemma_put_lookup, lookup, put};
use crate::text::{chars_of, clone_chars, find, find_char, lines, lines_of, push_chars, push_char, split_once, split_once_chars, string_of, has_prefix, slice_chars, push_lit};

pub mod freedesktop;
pub mod raster;
pub mod theme;

use freedesktop::{has_entry, has_entry_spec, IndexKeys};

verus! {

// ---------------------------------------------------------------------------
// Cache keys.
// ---------------------------------------------------------------------------

/// `proc_name`, a NUL, then `exe_path`.
pub open spec fn key_of(proc_name: Seq<char>, exe_path: Seq<char>) -> Seq<char> {
    proc_name + seq!['\0'] + exe_path
}

/// The cache key of a process: its name and executable path joined by a NUL.
pub fn make_key(proc_name: &str, exe_path: &str) -> (r: String)
    ensures
        r@ == key_of(proc_name@, exe_path@),
{
    let mut key = String::new();
    key.append(proc_name);
    push_char(&mut key, '\0');
    key.append(exe_path);
    key
}

/// Distinct (name, path) pairs never share a key, as long as names hold no
/// NUL (process names never do).
pub proof fn lemma_make_key_injective(a: Seq<char>, b: Seq<char>, c: Seq<char>, d: Seq<char>)
    requires
        !a.contains('\0'),
        !c.contains('\0'),
        key_of(a, b) == key_of(c, d),
    ensures
        a == c,
        b == d,
{
    let k = key_of(a, b);
    assert(k[a.len() as int] == '\0');
    assert(key_of(c, d)[c.len() as int] == '\0');
    if a.len() < c.len() {
        assert(c[a.len() as int] == k[a.len() as int]);
    } else if c.len() < a.len() {
        assert(a[c.len() as int] == k[c.len() as int]);
    }
    assert(a.len() == c.len());
    assert forall|i: int| 0 <= i < a.len() implies a[i] == c[i] by {
        assert(a[i] == k[i]);
        assert(c[i] == key_of(c, d)[i]);
    }
    assert(a =~= c);
    assert(k.len() == a.len() + 1 + b.len());
    assert(key_of(c, d).len() == c.len() + 1 + d.len());
    assert(b.len() == d.len());
    assert forall|i: int| 0 <= i < b.len() implies b[i] == d[i] by {
        assert(b[i] == k[a.len() + 1 + i]);
        assert(d[i] == key_of(c, d)[c.len() + 1 + i]);
    }
    assert(b =~= d);
}

// ---------------------------------------------------------------------------
// The resolved-URI cache and its on-disk form.
// ---------------------------------------------------------------------------

/// The text stored for a cached result: the URI, or nothing for a miss.
pub open spec fn uri_text(v: Option<Seq<char>>) -> Seq<char> {
    match v {
        Some(u) => u,
        None => Seq::empty(),
    }
}

/// Whether a string holds a tab or a newline.
pub open spec fn breaks_line(s: Seq<char>) -> bool {
    find_char(s, '\t') >= 0 || find_char(s, '\n') >= 0
}

/// An entry is written only when neither its key nor its URI breaks the
/// one-line `key<TAB>uri` format.
pub open spec fn writable(e: (Seq<char>, Option<Seq<char>>)) -> bool {
    !breaks_line(e.0) && !breaks_line(uri_text(e.1))
}

pub open spec fn cache_line(e: (Seq<char>, Option<Seq<char>>)) -> Seq<char> {
    e.0 + seq!['\t'] + uri_text(e.1) + seq!['\n']
}

/// The cache file: one `key<TAB>uri` line per writable entry, in entry order.
pub open spec fn serialized(es: Seq<(Seq<char>, Option<Seq<char>>)>) -> Seq<char>
    decreases es.len(),
{
    if es.len() == 0 {
        Seq::empty()
    } else {
        serialized(es.drop_last()) + if writable(es.last()) {
            cache_line(es.last())
        } else {
            Seq::empty()
        }
    }
}

/// `(proc_name, exe_path)` key -> resolved URI (`None`: nothing found),
/// held as a list of pairs with distinct keys (the type invariant).
/// Writing the cache file walks every entry; vstd's `StringHashMap` offers
/// lookups but no way to walk its entries, so the list stands in for the
/// map. A `HashMap` leaves the order of that walk open; the list writes in
/// the order the keys were first resolved, one of the orders it allows.
pub struct UriCache {
    entries: Vec<(Vec<char>, Option<Vec<char>>)>,
}

pub open spec fn opt_chars_view(o: Option<Vec<char>>) -> Option<Seq<char>> {
    match o {
        Some(v) => Some(v@),
        None => None,
    }
}

pub open spec fn opt_string_view(o: Option<String>) -> Option<Seq<char>> {
    match o {
        Some(v) => Some(v@),
        None => None,
    }
}

impl View for UriCache {
    type V = Seq<(Seq<char>, Option<Seq<char>>)>;

    closed spec fn view(&self) -> Seq<(Seq<char>, Option<Seq<char>>)> {
        Seq::new(self.entries@.len(), |i: int| (self.entries@[i].0@, opt_chars_view(self.entries@[i].1)))
    }
}

fn string_opt(o: &Option<Vec<char>>) -> (r: Option<String>)
    ensures
        opt_string_view(r) == opt_chars_view(*o),
{
    match o {
        Some(v) => Some(string_of(v)),
        None => None,
    }
}

impl UriCache {
    #[verifier::type_invariant]
    closed spec fn well_formed(&self) -> bool {
        distinct_keys(self@)
    }

    pub fn new() -> (r: Self)
        ensures
            r@ == Seq::<(Seq<char>, Option<Seq<char>>)>::empty(),
    {
        let r = UriCache { entries: Vec::new() };
        proof {
            assert(r@ =~= Seq::<(Seq<char>, Option<Seq<char>>)>::empty());
        }
        r
    }

    /// The number of entries; no key occurs twice.
    pub fn len(&self) -> (r: usize)
        ensures
            r == self@.len(),
            distinct_keys(self@),
    {
        proof {
            use_type_invariant(self);
        }
        self.entries.len()
    }

    fn position(&self, key: &Vec<char>) -> (r: Option<usize>)
        ensures
            match r {
                Some(i) => key_pos(self@, key@) == Some(i as nat),
                None => key_pos(self@, key@) is None,
            },
    {
        let mut j = self.entries.len();
        proof {
            assert(self@.take(j as int) =~= self@);
        }
        while j > 0
            invariant
                j <= self.entries@.len() == self@.len(),
                key_pos(self@, key@) == key_pos(self@.take(j as int), key@),
            decreases j,
        {
            proof {
                assert(self@.take(j as int).drop_last() =~= self@.take(j - 1));
                assert(self@.take(j as int).last() == self@[j - 1]);
            }
            if crate::text::chars_eq(&self.entries[j - 1].0, key) {
                return Some(j - 1);
            }
            j -= 1;
        }
        None
    }

    /// The cached result for `key`: `None` when the key was never resolved,
    /// `Some(None)` for a cached miss.
    pub fn get(&self, key: &str) -> (r: Option<Option<String>>)
        ensures
            match r {
                Some(v) => lookup(self@, key@) == Some(opt_string_view(v)),
                None => lookup(self@, key@) is None,
            },
    {
        let k = chars_of(key);
        proof {
            lemma_key_pos(self@, key@);
        }
        match self.position(&k) {
            Some(i) => Some(string_opt(&self.entries[i].1)),
            None => None,
        }
    }

    /// Stores `value` under `key`, replacing an earlier result.
    pub fn insert(&mut self, key: String, value: Option<String>)
        ensures
            final(self)@ == put(old(self)@, key@, opt_string_view(value)),
    {
        proof {
            use_type_invariant(&*self);
            lemma_key_pos(self@, key@);
            lemma_put_lookup(self@, key@, opt_string_view(value), key@);
        }
        let k = chars_of(key.as_str());
        let v: Option<Vec<char>> = match &value {
            Some(s) => Some(chars_of(s.as_str())),
            None => None,
        };
        let ghost before = self@;
        let ghost newv = opt_string_view(value);
        let mut es: Vec<(Vec<char>, Option<Vec<char>>)> = Vec::new();
        match self.position(&k) {
            Some(i) => {
                std::mem::swap(&mut es, &mut self.entries);
                es.set(i, (k, v));
                proof {
                    let nv = Seq::new(es@.len(), |j: int| (es@[j].0@, opt_chars_view(es@[j].1)));
                    assert(nv =~= put(before, key@, newv));
                }
                self.entries = es;
            },
            None => {
                std::mem::swap(&mut es, &mut self.entries);
                es.push((k, v));
                proof {
                    let nv = Seq::new(es@.len(), |j: int| (es@[j].0@, opt_chars_view(es@[j].1)));
                    assert(nv =~= put(before, key@, newv));
                }
                self.entries = es;
            },
        }
        proof {
            let nv = Seq::new(self.entries@.len(), |j: int| (self.entries@[j].0@, opt_chars_view(self.entries@[j].1)));
            assert(self@ == nv);
        }
    }
}

fn breaks_line_exec(s: &Vec<char>) -> (r: bool)
    ensures
        r == breaks_line(s@),
{
    find(s, '\t').is_some() || find(s, '\n').is_some()
}

/// The cache as written to disk: one `key<TAB>uri` line per entry, an empty
/// `uri` for a cached miss. Entries whose key or URI holds a tab or a newline
/// are left out: they would break the line format.
pub fn serialize_cache(uri_cache: &UriCache) -> (r: String)
    ensures
        r@ == serialized(uri_cache@),
{
    let mut buf = String::new();
    let n = uri_cache.entries.len();
    let ghost es = uri_cache@;
    let mut i: usize = 0;
    proof {
        assert(es.take(0) =~= Seq::<(Seq<char>, Option<Seq<char>>)>::empty());
    }
    while i < n
        invariant
            i <= n == uri_cache.entries@.len() == es.len(),
            es == uri_cache@,
            buf@ == serialized(es.take(i as int)),
        decreases n - i,
    {
        let (key, value) = &uri_cache.entries[i];
        let uri: Vec<char> = match value {
            Some(u) => clone_chars(u),
            None => Vec::new(),
        };
        proof {
            assert(es.take(i + 1).drop_last() =~= es.take(i as int));
            assert(es.take(i + 1).last() == es[i as int]);
            assert(es[i as int] == (key@, opt_chars_view(*value)));
            assert(uri@ == uri_text(es[i as int].1));
        }
        if !breaks_line_exec(key) && !breaks_line_exec(&uri) {
            push_chars(&mut buf, key);
            push_char(&mut buf, '\t');
            push_chars(&mut buf, &uri);
            push_char(&mut buf, '\n');
            proof {
                assert(buf@ =~= serialized(es.take(i as int)) + cache_line(es[i as int]));
            }
        } else {
            proof {
                assert(buf@ =~= serialized(es.take(i as int)) + Seq::<char>::empty());
            }
        }
        i += 1;
    }
    proof {
        assert(es.take(n as int) =~= es);
    }
    buf
}

// ---------------------------------------------------------------------------
// Reading the cache file back.
// ---------------------------------------------------------------------------

/// The `(key, uri)` pairs of the cache file: each line split at its first
/// tab; lines without a tab are skipped.
pub open spec fn cache_pairs(ls: Seq<Seq<char>>) -> Seq<(Seq<char>, Seq<char>)>
    decreases ls.len(),
{
    if ls.len() == 0 {
        Seq::empty()
    } else {
        cache_pairs(ls.drop_last()) + match split_once(ls.last(), '\t') {
            Some(kv) => seq![kv],
            None => Seq::empty(),
        }
    }
}

/// Splits the cache file's text into its `(key, uri)` pairs.
pub fn parse_cache_text(content: &str) -> (r: Vec<(String, String)>)
    ensures
        r@.len() == cache_pairs(lines(content@)).len(),
        forall|k: int|
            0 <= k < r@.len() ==> (#[trigger] r@[k]).0@ == cache_pairs(lines(content@))[k].0 && r@[k].1@
                == cache_pairs(lines(content@))[k].1,
{
    let text = chars_of(content);
    let ls = lines_of(&text);
    let ghost lsv = lines(content@);
    let mut out: Vec<(String, String)> = Vec::new();
    let mut i: usize = 0;
    proof {
        assert(lsv.take(0) =~= Seq::<Seq<char>>::empty());
    }
    while i < ls.len()
        invariant
            i <= ls@.len() == lsv.len(),
            lsv == lines(content@),
            forall|k: int| 0 <= k < ls@.len() ==> #[trigger] ls@[k]@ == lsv[k],
            out@.len() == cache_pairs(lsv.take(i as int)).len(),
            forall|k: int|
                0 <= k < out@.len() ==> (#[trigger] out@[k]).0@ == cache_pairs(lsv.take(i as int))[k].0
                    && out@[k].1@ == cache_pairs(lsv.take(i as int))[k].1,
        decreases ls.len() - i,
    {
        proof {
            assert(lsv.take(i + 1).drop_last() =~= lsv.take(i as int));
            assert(lsv.take(i + 1).last() == ls@[i as int]@);
        }
        match split_once_chars(&ls[i], '\t') {
            Some((k, u)) => {
                out.push((string_of(&k), string_of(&u)));
            },
            None => {},
        }
        i += 1;
    }
    proof {
        assert(lsv.take(ls.len() as int) =~= lsv);
    }
    out
}

/// The `(key, uri text)` pairs of the entries the cache file keeps, in
/// entry order.
pub open spec fn written_pairs(es: Seq<(Seq<char>, Option<Seq<char>>)>) -> Seq<(Seq<char>, Seq<char>)>
    decreases es.len(),
{
    if es.len() == 0 {
        Seq::empty()
    } else {
        written_pairs(es.drop_last()) + if writable(es.last()) {
            seq![(es.last().0, uri_text(es.last().1))]
        } else {
            Seq::empty()
        }
    }
}

pub open spec fn line_bodies(es: Seq<(Seq<char>, Option<Seq<char>>)>) -> Seq<Seq<char>>
    decreases es.len(),
{
    if es.len() == 0 {
        Seq::empty()
    } else {
        line_bodies(es.drop_last()) + if writable(es.last()) {
            seq![es.last().0 + seq!['\t'] + uri_text(es.last().1)]
        } else {
            Seq::empty()
        }
    }
}

proof fn lemma_no_char(s: Seq<char>, c: char)
    requires
        find_char(s, c) < 0,
    ensures
        !s.contains(c),
{
    crate::text::lemma_find_char(s, c);
    if s.contains(c) {
        let k = choose|k: int| 0 <= k < s.len() && s[k] == c;
    }
}

proof fn lemma_split_serialized(es: Seq<(Seq<char>, Option<Seq<char>>)>)
    ensures
        crate::text::split_char(serialized(es), '\n') == line_bodies(es).push(Seq::<char>::empty()),
    decreases es.len(),
{
    if es.len() == 0 {
        assert(line_bodies(es).push(Seq::<char>::empty()) =~= seq![Seq::<char>::empty()]);
    } else {
        lemma_split_serialized(es.drop_last());
        let x = serialized(es.drop_last());
        let e = es.last();
        if writable(e) {
            let body = e.0 + seq!['\t'] + uri_text(e.1);
            lemma_no_char(e.0, '\n');
            lemma_no_char(uri_text(e.1), '\n');
            assert(!body.contains('\n')) by {
                if body.contains('\n') {
                    let k = choose|k: int| 0 <= k < body.len() && body[k] == '\n';
                    if k < e.0.len() {
                        assert(e.0[k] == '\n');
                    } else if k > e.0.len() {
                        assert(uri_text(e.1)[k - e.0.len() - 1] == '\n');
                    }
                }
            }
            assert(serialized(es) =~= (x + body).push('\n'));
            assert((x + body).push('\n').drop_last() =~= x + body);
            crate::text::lemma_split_append(x, body, '\n');
            let bs = line_bodies(es.drop_last());
            assert(bs.push(Seq::<char>::empty()).update(bs.len() as int, Seq::<char>::empty() + body)
                =~= bs.push(body));
            assert(line_bodies(es) =~= bs.push(body));
        } else {
            assert(serialized(es) =~= x);
            assert(line_bodies(es) =~= line_bodies(es.drop_last()));
        }
    }
}

proof fn lemma_pairs_of_bodies(es: Seq<(Seq<char>, Option<Seq<char>>)>)
    ensures
        cache_pairs(line_bodies(es)) == written_pairs(es),
    decreases es.len(),
{
    if es.len() > 0 {
        lemma_pairs_of_bodies(es.drop_last());
        let e = es.last();
        let bs = line_bodies(es.drop_last());
        if writable(e) {
            let body = e.0 + seq!['\t'] + uri_text(e.1);
            assert(line_bodies(es) =~= bs.push(body));
            assert(line_bodies(es).drop_last() =~= bs);
            crate::text::lemma_find_char(e.0, '\t');
            crate::text::lemma_find_char(body, '\t');
            let f = find_char(body, '\t');
            assert(body[e.0.len() as int] == '\t');
            assert forall|k: int| 0 <= k < e.0.len() implies body[k] != '\t' by {
                assert(body[k] == e.0[k]);
            }
            assert(f == e.0.len());
            assert(body.subrange(0, f) =~= e.0);
            assert(body.subrange(f + 1, body.len() as int) =~= uri_text(e.1));
        } else {
            assert(line_bodies(es) =~= bs);
        }
    }
}

/// Reading the cache file back gives each written entry's key and URI text
/// (empty for a miss), in order, as long as no URI ends in a carriage return
/// (which line splitting would drop).
pub proof fn lemma_cache_file_roundtrip(es: Seq<(Seq<char>, Option<Seq<char>>)>)
    requires
        forall|k: int|
            0 <= k < es.len() && writable(#[trigger] es[k]) ==> !(uri_text(es[k].1).len() > 0
                && uri_text(es[k].1).last() == '\r'),
    ensures
        cache_pairs(lines(serialized(es))) == written_pairs(es),
{
    lemma_split_serialized(es);
    lemma_pairs_of_bodies(es);
    let bs = line_bodies(es);
    let p = crate::text::split_char(serialized(es), '\n');
    assert(p.drop_last() =~= bs);
    assert forall|j: int| 0 <= j < bs.len() implies crate::text::strip_cr(#[trigger] bs[j]) == bs[j] by {
        lemma_bodies_no_cr(es, j);
    }
    assert(bs.map_values(|l: Seq<char>| crate::text::strip_cr(l)) =~= bs);
}

proof fn lemma_bodies_no_cr(es: Seq<(Seq<char>, Option<Seq<char>>)>, j: int)
    requires
        forall|k: int|
            0 <= k < es.len() && writable(#[trigger] es[k]) ==> !(uri_text(es[k].1).len() > 0
                && uri_text(es[k].1).last() == '\r'),
        0 <= j < line_bodies(es).len(),
    ensures
        crate::text::strip_cr(line_bodies(es)[j]) == line_bodies(es)[j],
    decreases es.len(),
{
    let bs = line_bodies(es.drop_last());
    if j < bs.len() {
        assert forall|k: int|
            0 <= k < es.drop_last().len() && writable(#[trigger] es.drop_last()[k]) implies !(uri_text(
                es.drop_last()[k].1,
            ).len() > 0 && uri_text(es.drop_last()[k].1).last() == '\r') by {
            assert(es.drop_last()[k] == es[k]);
        }
        lemma_bodies_no_cr(es.drop_last(), j);
        assert(line_bodies(es)[j] == bs[j]);
    } else {
        let e = es.last();
        assert(writable(es[es.len() - 1]));
        let body = e.0 + seq!['\t'] + uri_text(e.1);
        assert(line_bodies(es)[j] == body);
        if uri_text(e.1).len() > 0 {
            assert(body.last() == uri_text(e.1).last());
        } else {
            assert(body.last() == '\t');
        }
    }
}

/// The file path inside a `file://` URI.
pub open spec fn uri_path(uri: Seq<char>) -> Option<Seq<char>> {
    if has_prefix(uri, "file://"@) {
        Some(uri.subrange(7, uri.len() as int))
    } else {
        None
    }
}

/// The path a cached URI points at (its text after `file://`), if it is a
/// `file://` URI. Entries are kept only when that path still exists.
pub fn cached_uri_path(uri: &str) -> (r: Option<String>)
    ensures
        opt_string_view(r) == uri_path(uri@),
{
    let u = chars_of(uri);
    let p = chars_of("file://");
    proof {
        reveal_strlit("file://");
    }
    if crate::text::starts_with(&u, &p) {
        Some(string_of(&slice_chars(&u, 7, u.len())))
    } else {
        None
    }
}

/// The `file://` URI of a path, as the worker reports a found icon.
pub fn file_uri(path: &str) -> (r: String)
    ensures
        r@ == "file://"@ + path@,
{
    let mut out = String::new();
    push_lit(&mut out, "file://");
    push_lit(&mut out, path);
    out
}

/// The path inside a path's URI is the path.
pub proof fn lemma_file_uri_path(path: Seq<char>)
    ensures
        uri_path("file://"@ + path) == Some(path),
{
    reveal_strlit("file://");
    let u = "file://"@ + path;
    assert(u.subrange(0, 7) =~= "file://"@);
    assert(u.subrange(7, u.len() as int) =~= path);
}

/// How long a cache file stays trusted, in seconds (one week).
pub const CACHE_TTL_SECS: u64 = 604800;

/// Whether a cache file of the given age (seconds and sub-second nanoseconds,
/// `None` when the age cannot be read) is trusted: it is unless it is older
/// than a week.
pub fn cache_trusted(age: Option<(u64, u32)>) -> (r: bool)
    ensures
        r == match age {
            Some((s, n)) => !(s > CACHE_TTL_SECS || (s == CACHE_TTL_SECS && n > 0)),
            None => true,
        },
{
    match age {
        Some((s, n)) => !(s > CACHE_TTL_SECS || (s == CACHE_TTL_SECS && n > 0)),
        None => true,
    }
}

/// Minimum gap between throttled flushes, in milliseconds.
pub const FLUSH_INTERVAL_MS: u64 = 5000;

// ---------------------------------------------------------------------------
// The resolver.
// ---------------------------------------------------------------------------

/// A lookup handed to the worker.
pub struct Request {
    pub key: String,
    pub proc_name: String,
    pub exe_path: String,
}

/// What the worker reports back.
pub enum Response {
    /// The `.desktop` index is built; these are its keys.
    IndexReady(Vec<String>),
    /// The icon URI found for a key (`None`: nothing found).
    Resolved { key: String, uri: Option<String> },
}

/// Resolves a process to an icon URI. Cache hits are answered at once; a miss
/// queues one request for the background worker (see `take_requests`) and is
/// answered `None` until the worker's reply arrives through `pump`.
pub struct Resolver {
    worker: bool,
    index_keys: Option<IndexKeys>,
    uri_cache: UriCache,
    pending: vstd::hash_set::StringHashSet,
    outbox: Vec<Request>,
    dirty: bool,
    last_flush_ms: u64,
}

pub open spec fn request_view(r: Request) -> (Seq<char>, Seq<char>, Seq<char>) {
    (r.key@, r.proc_name@, r.exe_path@)
}

impl Resolver {
    /// Whether the worker has been started.
    pub closed spec fn has_worker(&self) -> bool {
        self.worker
    }

    /// The `.desktop` index keys, once the worker has reported them.
    pub closed spec fn keys_view(&self) -> Option<Set<Seq<char>>> {
        match self.index_keys {
            Some(k) => Some(k@),
            None => None,
        }
    }

    /// Resolved results: key -> URI (`None`: nothing found).
    pub closed spec fn cache_view(&self) -> Seq<(Seq<char>, Option<Seq<char>>)> {
        self.uri_cache@
    }

    /// Keys handed to the worker and not answered yet.
    pub closed spec fn pending_view(&self) -> Set<Seq<char>> {
        self.pending@
    }

    /// Requests not yet taken for the worker, oldest first.
    pub closed spec fn outbox_view(&self) -> Seq<(Seq<char>, Seq<char>, Seq<char>)> {
        self.outbox@.map_values(|r: Request| request_view(r))
    }

    /// Whether the cache differs from what was last written.
    pub closed spec fn is_dirty(&self) -> bool {
        self.dirty
    }

    /// When the cache was last written (caller's monotonic milliseconds).
    pub closed spec fn last_flush(&self) -> u64 {
        self.last_flush_ms
    }

    /// An empty resolver: no worker, no index, an empty cache, clean, last
    /// written at `now_ms`.
    pub fn new(now_ms: u64) -> (r: Self)
        ensures
            !r.has_worker(),
            r.keys_view() is None,
            r.cache_view() == Seq::<(Seq<char>, Option<Seq<char>>)>::empty(),
            r.pending_view() == Set::<Seq<char>>::empty(),
            r.outbox_view() == Seq::<(Seq<char>, Seq<char>, Seq<char>)>::empty(),
            !r.is_dirty(),
            r.last_flush() == now_ms,
    {
        let r = Resolver {
            worker: false,
            index_keys: None,
            uri_cache: UriCache::new(),
            pending: vstd::hash_set::StringHashSet::new(),
            outbox: Vec::new(),
            dirty: false,
            last_flush_ms: now_ms,
        };
        proof {
            assert(r.outbox@.map_values(|q: Request| request_view(q)) =~= Seq::<(Seq<char>, Seq<char>, Seq<char>)>::empty());
        }
        r
    }

    /// Seeds the cache from the pairs of a trusted cache file. A pair with an
    /// empty URI is a cached miss. A pair with a URI is kept only when
    /// `still_there` says the file it points at exists (see
    /// `cached_uri_path`); otherwise it is dropped and the cache is marked
    /// dirty so the cleaned set is written back.
    pub fn load_entries(&mut self, pairs: Vec<(String, String)>, still_there: Vec<bool>)
        requires
            pairs@.len() == still_there@.len(),
        ensures
            final(self).cache_view() == seeded(
                old(self).cache_view(),
                pairs@.map_values(|p: (String, String)| (p.0@, p.1@)),
                still_there@,
            ),
            final(self).is_dirty() == (old(self).is_dirty() || dropped_any(
                pairs@.map_values(|p: (String, String)| (p.0@, p.1@)),
                still_there@,
            )),
            final(self).has_worker() == old(self).has_worker(),
            final(self).keys_view() == old(self).keys_view(),
            final(self).pending_view() == old(self).pending_view(),
            final(self).outbox_view() == old(self).outbox_view(),
            final(self).last_flush() == old(self).last_flush(),
    {
        let ghost ps = pairs@.map_values(|p: (String, String)| (p.0@, p.1@));
        let ghost start = self.uri_cache@;
        let ghost dirty0 = self.dirty;
        let mut i: usize = 0;
        proof {
            assert(ps.take(0) =~= Seq::<(Seq<char>, Seq<char>)>::empty());
            assert(still_there@.take(0) =~= Seq::<bool>::empty());
        }
        while i < pairs.len()
            invariant
                i <= pairs@.len() == still_there@.len() == ps.len(),
                ps == pairs@.map_values(|p: (String, String)| (p.0@, p.1@)),
                self.uri_cache@ == seeded(start, ps.take(i as int), still_there@.take(i as int)),
                self.dirty == (dirty0 || dropped_any(ps.take(i as int), still_there@.take(i as int))),
                self.worker == old(self).worker,
                self.index_keys == old(self).index_keys,
                self.pending == old(self).pending,
                self.outbox == old(self).outbox,
                self.last_flush_ms == old(self).last_flush_ms,
            decreases pairs.len() - i,
        {
            proof {
                assert(ps.take(i + 1).drop_last() =~= ps.take(i as int));
                assert(still_there@.take(i + 1).drop_last() =~= still_there@.take(i as int));
                assert(ps.take(i + 1).last() == ps[i as int]);
                assert(still_there@.take(i + 1).last() == still_there@[i as int]);
            }
            let (key, uri) = &pairs[i];
            if uri.as_str().is_empty() {
                self.uri_cache.insert(key.clone(), None);
            } else if still_there[i] {
                self.uri_cache.insert(key.clone(), Some(uri.clone()));
            } else {
                self.dirty = true;
            }
            i += 1;
        }
        proof {
            assert(ps.take(pairs.len() as int) =~= ps);
            assert(still_there@.take(pairs.len() as int) =~= still_there@);
        }
    }

    /// Seeds the cache from the text of a trusted cache file. `exists[k]`
    /// says whether the path of the `k`-th pair (see `cache_paths`) exists.
    /// A pair with an empty URI is a cached miss; one whose URI is a
    /// `file://` URI of an existing file is kept; any other is dropped and
    /// marks the cache dirty.
    pub fn load_cache_text(&mut self, content: &str, exists: &[bool])
        requires
            exists@.len() == cache_pairs(lines(content@)).len(),
        ensures
            final(self).cache_view() == seeded(
                old(self).cache_view(),
                cache_pairs(lines(content@)),
                kept_flags(cache_pairs(lines(content@)), exists@),
            ),
            final(self).is_dirty() == (old(self).is_dirty() || dropped_any(
                cache_pairs(lines(content@)),
                kept_flags(cache_pairs(lines(content@)), exists@),
            )),
            final(self).has_worker() == old(self).has_worker(),
            final(self).keys_view() == old(self).keys_view(),
            final(self).pending_view() == old(self).pending_view(),
            final(self).outbox_view() == old(self).outbox_view(),
            final(self).last_flush() == old(self).last_flush(),
    {
        let pairs = parse_cache_text(content);
        let ghost cp = cache_pairs(lines(content@));
        let mut flags: Vec<bool> = Vec::new();
        let mut i: usize = 0;
        while i < pairs.len()
            invariant
                i <= pairs@.len() == cp.len() == exists@.len(),
                forall|k: int| 0 <= k < pairs@.len() ==> (#[trigger] pairs@[k]).0@ == cp[k].0 && pairs@[k].1@ == cp[k].1,
                flags@.len() == i,
                forall|k: int| 0 <= k < i ==> #[trigger] flags@[k] == (uri_path(cp[k].1) is Some && exists@[k]),
            decreases pairs.len() - i,
        {
            let there = match cached_uri_path(pairs[i].1.as_str()) {
                Some(_) => exists[i],
                None => false,
            };
            flags.push(there);
            i += 1;
        }
        proof {
            assert(pairs@.map_values(|p: (String, String)| (p.0@, p.1@)) =~= cp);
            assert(flags@ =~= kept_flags(cp, exists@));
        }
        self.load_entries(pairs, flags);
    }
}

/// The resolver's index keys, cache, pending keys and dirty flag after one
/// worker reply.
pub open spec fn after_response(
    st: (Option<Set<Seq<char>>>, Seq<(Seq<char>, Option<Seq<char>>)>, Set<Seq<char>>, bool),
    r: Response,
) -> (Option<Set<Seq<char>>>, Seq<(Seq<char>, Option<Seq<char>>)>, Set<Seq<char>>, bool) {
    match r {
        Response::IndexReady(ks) => (Some(ks@.map_values(|k: String| k@).to_set()), st.1, st.2, st.3),
        Response::Resolved { key, uri } => (st.0, put(st.1, key@, opt_string_view(uri)), st.2.remove(key@), true),
    }
}

/// The same after a run of replies, applied oldest first.
pub open spec fn after_responses(
    st: (Option<Set<Seq<char>>>, Seq<(Seq<char>, Option<Seq<char>>)>, Set<Seq<char>>, bool),
    rs: Seq<Response>,
) -> (Option<Set<Seq<char>>>, Seq<(Seq<char>, Option<Seq<char>>)>, Set<Seq<char>>, bool)
    decreases rs.len(),
{
    if rs.len() == 0 {
        st
    } else {
        after_response(after_responses(st, rs.drop_last()), rs.last())
    }
}

impl Resolver {
    pub open spec fn state_view(&self) -> (Option<Set<Seq<char>>>, Seq<(Seq<char>, Option<Seq<char>>)>, Set<Seq<char>>, bool) {
        (self.keys_view(), self.cache_view(), self.pending_view(), self.is_dirty())
    }

    /// Records that the worker is running; lookups that miss now queue
    /// requests for it.
    pub fn mark_worker_started(&mut self)
        ensures
            final(self).has_worker(),
            final(self).state_view() == old(self).state_view(),
            final(self).outbox_view() == old(self).outbox_view(),
            final(self).last_flush() == old(self).last_flush(),
    {
        self.worker = true;
    }

    /// Applies the worker's replies, oldest first: an index report installs
    /// the index keys; a resolved key leaves the pending set, its result is
    /// cached (replacing any earlier one) and the cache becomes dirty.
    pub fn pump(&mut self, responses: Vec<Response>)
        ensures
            final(self).state_view() == after_responses(old(self).state_view(), responses@),
            final(self).has_worker() == old(self).has_worker(),
            final(self).outbox_view() == old(self).outbox_view(),
            final(self).last_flush() == old(self).last_flush(),
    {
        let ghost rs = responses@;
        let ghost st0 = self.state_view();
        let total = responses.len();
        let mut rest = responses;
        let ghost n = rs.len();
        let mut done: usize = 0;
        proof {
            assert(rs.take(0) =~= Seq::<Response>::empty());
            assert(rs.skip(0) =~= rs);
        }
        while rest.len() > 0
            invariant
                done + rest@.len() == n == rs.len() == total,
                rest@ == rs.skip(done as int),
                self.state_view() == after_responses(st0, rs.take(done as int)),
                self.worker == old(self).worker,
                self.outbox == old(self).outbox,
                self.last_flush_ms == old(self).last_flush_ms,
            decreases rest.len(),
        {
            let r = rest.remove(0);
            proof {
                assert(r == rs[done as int]);
                assert(rest@ =~= rs.skip(done + 1));
                assert(rs.take(done + 1).drop_last() =~= rs.take(done as int));
                assert(rs.take(done + 1).last() == rs[done as int]);
            }
            match r {
                Response::IndexReady(keys) => {
                    self.index_keys = Some(IndexKeys::from_keys(keys));
                },
                Response::Resolved { key, uri } => {
                    self.pending.remove(key.as_str());
                    self.uri_cache.insert(key, uri);
                    self.dirty = true;
                },
            }
            done += 1;
        }
        proof {
            assert(rs.take(n as int) =~= rs);
        }
    }

    /// The icon URI of a process. A cached result is returned as is. On a
    /// miss the answer is `None`; if the worker runs and the key is not
    /// already pending, the key becomes pending and one request is queued.
    pub fn icon_uri(&mut self, proc_name: &str, exe_path: &str) -> (r: Option<String>)
        ensures
            final(self).state_view().0 == old(self).state_view().0,
            final(self).cache_view() == old(self).cache_view(),
            final(self).is_dirty() == old(self).is_dirty(),
            final(self).has_worker() == old(self).has_worker(),
            final(self).last_flush() == old(self).last_flush(),
            match lookup(old(self).cache_view(), key_of(proc_name@, exe_path@)) {
                Some(v) => opt_string_view(r) == v && final(self).pending_view() == old(self).pending_view() && final(self).outbox_view() == old(self).outbox_view(),
                None => r is None && if old(self).has_worker() && !old(self).pending_view().contains(
                    key_of(proc_name@, exe_path@),
                ) {
                    final(self).pending_view() == old(self).pending_view().insert(
                        key_of(proc_name@, exe_path@),
                    ) && final(self).outbox_view() == old(self).outbox_view().push(
                        (key_of(proc_name@, exe_path@), proc_name@, exe_path@),
                    )
                } else {
                    final(self).pending_view() == old(self).pending_view() && final(self).outbox_view() == old(self).outbox_view()
                },
            },
    {
        let key = make_key(proc_name, exe_path);
        match self.uri_cache.get(key.as_str()) {
            Some(cached) => {
                return cached;
            },
            None => {},
        }
        if self.worker {
            if self.pending.insert(key.clone()) {
                let req = Request {
                    key,
                    proc_name: string_of(&chars_of(proc_name)),
                    exe_path: string_of(&chars_of(exe_path)),
                };
                let ghost before = self.outbox@;
                self.outbox.push(req);
                proof {
                    assert(self.outbox@.map_values(|q: Request| request_view(q)) =~= before.map_values(
                        |q: Request| request_view(q),
                    ).push(request_view(req)));
                }
            }
        }
        None
    }

    /// Hands the queued requests to the caller (who sends them to the
    /// worker), oldest first, and empties the queue.
    pub fn take_requests(&mut self) -> (r: Vec<Request>)
        ensures
            r@.map_values(|q: Request| request_view(q)) == old(self).outbox_view(),
            final(self).outbox_view() == Seq::<(Seq<char>, Seq<char>, Seq<char>)>::empty(),
            final(self).state_view() == old(self).state_view(),
            final(self).has_worker() == old(self).has_worker(),
            final(self).last_flush() == old(self).last_flush(),
    {
        let mut out: Vec<Request> = Vec::new();
        std::mem::swap(&mut out, &mut self.outbox);
        proof {
            assert(self.outbox@.map_values(|q: Request| request_view(q)) =~= Seq::<(Seq<char>, Seq<char>, Seq<char>)>::empty());
        }
        out
    }

    /// Whether the process has a `.desktop` entry. Until the worker has
    /// reported the index, every process reports `false`.
    pub fn has_desktop_entry(&self, proc_name: &str, exe_path: &str) -> (r: bool)
        ensures
            r == match self.keys_view() {
                Some(ks) => has_entry_spec(ks, proc_name@, exe_path@),
                None => false,
            },
    {
        match &self.index_keys {
            Some(keys) => has_entry(keys, proc_name, exe_path),
            None => false,
        }
    }

    /// The text to write to the cache file, when the cache changed since the
    /// last write. Either way the cache is then clean; after a write the
    /// write time becomes `now_ms`.
    pub fn save_persistent(&mut self, now_ms: u64) -> (r: Option<String>)
        ensures
            match r {
                Some(text) => old(self).is_dirty() && text@ == serialized(old(self).cache_view())
                    && final(self).last_flush() == now_ms,
                None => !old(self).is_dirty() && final(self).last_flush() == old(self).last_flush(),
            },
            !final(self).is_dirty(),
            final(self).cache_view() == old(self).cache_view(),
            final(self).keys_view() == old(self).keys_view(),
            final(self).pending_view() == old(self).pending_view(),
            final(self).outbox_view() == old(self).outbox_view(),
            final(self).has_worker() == old(self).has_worker(),
    {
        if !self.dirty {
            return None;
        }
        let text = serialize_cache(&self.uri_cache);
        self.dirty = false;
        self.last_flush_ms = now_ms;
        Some(text)
    }

    /// Throttled `save_persistent`: writes only when the cache is dirty and
    /// at least `FLUSH_INTERVAL_MS` passed since the last write (a clock that
    /// went backwards counts as no time passed).
    pub fn flush_if_due(&mut self, now_ms: u64) -> (r: Option<String>)
        ensures
            old(self).is_dirty() && (if now_ms >= old(self).last_flush() {
                now_ms - old(self).last_flush()
            } else {
                0
            }) >= FLUSH_INTERVAL_MS ==> r is Some && r.unwrap()@ == serialized(
                old(self).cache_view(),
            ) && !final(self).is_dirty() && final(self).last_flush() == now_ms,
            !(old(self).is_dirty() && (if now_ms >= old(self).last_flush() {
                now_ms - old(self).last_flush()
            } else {
                0
            }) >= FLUSH_INTERVAL_MS) ==> r is None && final(self).is_dirty() == old(self).is_dirty()
                && final(self).last_flush() == old(self).last_flush(),
            final(self).cache_view() == old(self).cache_view(),
            final(self).keys_view() == old(self).keys_view(),
            final(self).pending_view() == old(self).pending_view(),
            final(self).outbox_view() == old(self).outbox_view(),
            final(self).has_worker() == old(self).has_worker(),
    {
        let elapsed = if now_ms >= self.last_flush_ms {
            now_ms - self.last_flush_ms
        } else {
            0
        };
        if self.dirty && elapsed >= FLUSH_INTERVAL_MS {
            self.save_persistent(now_ms)
        } else {
            None
        }
    }
}

/// The cache after seeding it with `(key, uri)` pairs (see `load_entries`).
pub open spec fn seeded(
    cache: Seq<(Seq<char>, Option<Seq<char>>)>,
    ps: Seq<(Seq<char>, Seq<char>)>,
    keep: Seq<bool>,
) -> Seq<(Seq<char>, Option<Seq<char>>)>
    decreases ps.len(),
{
    if ps.len() == 0 || keep.len() == 0 {
        cache
    } else {
        let prev = seeded(cache, ps.drop_last(), keep.drop_last());
        let (k, u) = ps.last();
        if u.len() == 0 {
            put(prev, k, None)
        } else if keep.last() {
            put(prev, k, Some(u))
        } else {
            prev
        }
    }
}

/// Which pairs are kept: those whose URI is a `file://` URI of an existing
/// file (`exists[k]`).
pub open spec fn kept_flags(ps: Seq<(Seq<char>, Seq<char>)>, exists: Seq<bool>) -> Seq<bool> {
    Seq::new(ps.len(), |k: int| uri_path(ps[k].1) is Some && exists[k])
}

/// The paths whose existence decides which pairs of a cache file are kept:
/// for each pair, the path of its `file://` URI, or `None`.
pub fn cache_paths(content: &str) -> (r: Vec<Option<String>>)
    ensures
        r@.len() == cache_pairs(lines(content@)).len(),
        forall|k: int|
            0 <= k < r@.len() ==> opt_string_view(#[trigger] r@[k]) == uri_path(cache_pairs(lines(content@))[k].1),
{
    let pairs = parse_cache_text(content);
    let mut out: Vec<Option<String>> = Vec::new();
    let mut i: usize = 0;
    while i < pairs.len()
        invariant
            i <= pairs@.len() == cache_pairs(lines(content@)).len(),
            forall|k: int|
                0 <= k < pairs@.len() ==> (#[trigger] pairs@[k]).0@ == cache_pairs(lines(content@))[k].0
                    && pairs@[k].1@ == cache_pairs(lines(content@))[k].1,
            out@.len() == i,
            forall|k: int| 0 <= k < i ==> opt_string_view(#[trigger] out@[k]) == uri_path(cache_pairs(lines(content@))[k].1),
        decreases pairs.len() - i,
    {
        out.push(cached_uri_path(pairs[i].1.as_str()));
        i += 1;
    }
    out
}

/// What seeding leaves under key `k`: the value of the last pair under `k`
/// that is kept (an empty URI being a cached miss), else what the cache held.
pub open spec fn seeded_value(
    cache: Seq<(Seq<char>, Option<Seq<char>>)>,
    ps: Seq<(Seq<char>, Seq<char>)>,
    keep: Seq<bool>,
    k: Seq<char>,
) -> Option<Option<Seq<char>>>
    decreases ps.len(),
{
    if ps.len() == 0 || keep.len() == 0 {
        lookup(cache, k)
    } else if ps.last().0 == k && (ps.last().1.len() == 0 || keep.last()) {
        Some(
            if ps.last().1.len() == 0 {
                None
            } else {
                Some(ps.last().1)
            },
        )
    } else {
        seeded_value(cache, ps.drop_last(), keep.drop_last(), k)
    }
}

/// Seeding keeps the keys distinct, and each key ends with the value of its
/// last kept pair: later lines of the cache file win, dropped lines change
/// nothing, and keys no kept line names keep what the cache held.
pub proof fn lemma_seeded_lookup(
    cache: Seq<(Seq<char>, Option<Seq<char>>)>,
    ps: Seq<(Seq<char>, Seq<char>)>,
    keep: Seq<bool>,
    k: Seq<char>,
)
    requires
        distinct_keys(cache),
        ps.len() == keep.len(),
    ensures
        distinct_keys(seeded(cache, ps, keep)),
        lookup(seeded(cache, ps, keep), k) == seeded_value(cache, ps, keep, k),
    decreases ps.len(),
{
    if ps.len() > 0 {
        let init = ps.drop_last();
        let kin = keep.drop_last();
        lemma_seeded_lookup(cache, init, kin, k);
        let prev = seeded(cache, init, kin);
        let (pk, u) = ps.last();
        if u.len() == 0 {
            lemma_put_lookup(prev, pk, None, k);
        } else if keep.last() {
            lemma_put_lookup(prev, pk, Some(u), k);
        }
    }
}

/// Whether seeding drops a pair whose file is gone.
pub open spec fn dropped_any(ps: Seq<(Seq<char>, Seq<char>)>, keep: Seq<bool>) -> bool
    decreases ps.len(),
{
    if ps.len() == 0 || keep.len() == 0 {
        false
    } else {
        dropped_any(ps.drop_last(), keep.drop_last()) || (ps.last().1.len() > 0 && !keep.last())
    }
}

} // verus!
