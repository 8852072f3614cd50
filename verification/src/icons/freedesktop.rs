//! freedesktop `.desktop` parsing and the lookup rules that map a process to
//! an icon name.
use vstd::prelude::*;
use crate::assoc::{distinct_keys, key_pos, lemma_key_pos, lookup, or_insert, put};
use crate::order::{lex_lt, lex_order, lemma_lex_asymmetric, lemma_lex_total, lemma_lex_transitive};
use crate::paths::{extension, extension_of, file_name, file_name_of, file_name_or_empty};
use crate::text::{
    alphanumeric, ascii_lower_seq, chars_eq, chars_eq_lit, chars_of, clone_chars, contains,
    eq_ignore_ascii_case, eq_ignore_ascii_case_lit, find, find_char, has_prefix, is_alphanumeric,
    is_whitespace, is_ws, lines, lines_of, lowercase, slice_chars, split_once,
    split_once_chars, starts_with, string_of, to_ascii_lower, to_lowercase, trim, trim_chars,
};

verus! {

// ---------------------------------------------------------------------------
// Splitting an `Exec=` line into words.
// ---------------------------------------------------------------------------

/// One step of the word splitter: words so far, the word being built, and
/// whether a `"` is open.
pub open spec fn split_step(st: (Seq<Seq<char>>, Seq<char>, bool), c: char) -> (
    Seq<Seq<char>>,
    Seq<char>,
    bool,
) {
    if c == '"' {
        (st.0, st.1, !st.2)
    } else if is_ws(c) && !st.2 {
        if st.1.len() > 0 {
            (st.0.push(st.1), Seq::empty(), st.2)
        } else {
            st
        }
    } else {
        (st.0, st.1.push(c), st.2)
    }
}

pub open spec fn split_scan(s: Seq<char>) -> (Seq<Seq<char>>, Seq<char>, bool)
    decreases s.len(),
{
    if s.len() == 0 {
        (Seq::empty(), Seq::empty(), false)
    } else {
        split_step(split_scan(s.drop_last()), s.last())
    }
}

/// The words of `s`: whitespace separates words outside double quotes, the
/// quote characters themselves are dropped, empty words are not produced.
pub open spec fn shell_words(s: Seq<char>) -> Seq<Seq<char>> {
    let st = split_scan(s);
    if st.1.len() > 0 {
        st.0.push(st.1)
    } else {
        st.0
    }
}

/// Strings holding the given character runs, in order.
pub fn strings_of(v: &Vec<Vec<char>>) -> (r: Vec<String>)
    ensures
        r@.len() == v@.len(),
        forall|k: int| 0 <= k < r@.len() ==> #[trigger] r@[k]@ == v@[k]@,
{
    let mut out: Vec<String> = Vec::new();
    let mut i: usize = 0;
    while i < v.len()
        invariant
            i <= v.len(),
            out@.len() == i,
            forall|k: int| 0 <= k < i ==> #[trigger] out@[k]@ == v@[k]@,
        decreases v.len() - i,
    {
        out.push(string_of(&v[i]));
        i += 1;
    }
    out
}

pub fn shell_split_chars(s: &Vec<char>) -> (r: Vec<Vec<char>>)
    ensures
        r@.len() == shell_words(s@).len(),
        forall|k: int| 0 <= k < r@.len() ==> #[trigger] r@[k]@ == shell_words(s@)[k],
{
    let mut out: Vec<Vec<char>> = Vec::new();
    let mut buf: Vec<char> = Vec::new();
    let mut quoted = false;
    let mut i: usize = 0;
    proof {
        assert(s@.take(0) =~= Seq::<char>::empty());
    }
    while i < s.len()
        invariant
            i <= s.len(),
            split_scan(s@.take(i as int)).0.len() == out@.len(),
            forall|k: int| 0 <= k < out@.len() ==> #[trigger] out@[k]@ == split_scan(s@.take(i as int)).0[k],
            split_scan(s@.take(i as int)).1 == buf@,
            split_scan(s@.take(i as int)).2 == quoted,
        decreases s.len() - i,
    {
        let c = s[i];
        proof {
            assert(s@.take(i + 1).drop_last() =~= s@.take(i as int));
            assert(s@.take(i + 1).last() == c);
        }
        if c == '"' {
            quoted = !quoted;
        } else if is_whitespace(c) && !quoted {
            if buf.len() > 0 {
                let word = buf;
                buf = Vec::new();
                out.push(word);
            }
        } else {
            buf.push(c);
        }
        proof {
            assert forall|k: int| 0 <= k < out@.len() implies #[trigger] out@[k]@ == split_scan(s@.take(i + 1)).0[k] by {}
        }
        i += 1;
    }
    proof {
        assert(s@.take(s.len() as int) =~= s@);
    }
    if buf.len() > 0 {
        out.push(buf);
    }
    out
}

/// Splits an `Exec=` value into words (see `shell_words`).
pub fn shell_split(s: &str) -> (r: Vec<String>)
    ensures
        r@.len() == shell_words(s@).len(),
        forall|k: int| 0 <= k < r@.len() ==> #[trigger] r@[k]@ == shell_words(s@)[k],
{
    let cs = chars_of(s);
    let words = shell_split_chars(&cs);
    strings_of(&words)
}

// ---------------------------------------------------------------------------
// The binary an `Exec=` line launches.
// ---------------------------------------------------------------------------

/// `NAME=value` words (not absolute paths) set the environment.
pub open spec fn is_env_assignment(t: Seq<char>) -> bool {
    find_char(t, '=') >= 0 && !has_prefix(t, seq!['/'])
}

/// The file name of a word, or the word itself when it has none.
pub open spec fn launcher_base(t: Seq<char>) -> Seq<char> {
    match file_name(t) {
        Some(b) => b,
        None => t,
    }
}

/// Programs that only start another program.
pub open spec fn is_wrapper(b: Seq<char>) -> bool {
    b == "env"@ || b == "sh"@ || b == "bash"@ || b == "dbus-run-session"@
}

/// The first word that is neither an environment assignment nor a wrapper.
pub open spec fn pick_binary(toks: Seq<Seq<char>>) -> Option<Seq<char>>
    decreases toks.len(),
{
    if toks.len() == 0 {
        None
    } else if is_env_assignment(toks[0]) || is_wrapper(launcher_base(toks[0])) {
        pick_binary(toks.drop_first())
    } else {
        Some(toks[0])
    }
}

/// Whether a word of an `Exec` line is passed over when looking for the
/// launched binary: a `NAME=value` assignment (not an absolute path), or a
/// word whose file name is `env`, `sh`, `bash` or `dbus-run-session`.
pub open spec fn passed_over(t: Seq<char>) -> bool {
    let base = launcher_base(t);
    (find_char(t, '=') >= 0 && !has_prefix(t, seq!['/'])) || base == "env"@ || base == "sh"@ || base
        == "bash"@ || base == "dbus-run-session"@
}

/// The binary an `Exec` line launches (what `exec_binary` returns for a line
/// with these words) is its first word that is not passed over, and there
/// is none exactly when every word is passed over. Hence a leading wrapper
/// or assignment changes nothing: `[w] + ws` gives what `ws` gives.
pub proof fn lemma_pick_binary(ws: Seq<Seq<char>>)
    ensures
        match pick_binary(ws) {
            Some(b) => exists|i: int|
                0 <= i < ws.len() && ws[i] == b && !passed_over(ws[i]) && forall|j: int|
                    0 <= j < i ==> passed_over(#[trigger] ws[j]),
            None => forall|j: int| 0 <= j < ws.len() ==> passed_over(#[trigger] ws[j]),
        },
        ws.len() > 0 && passed_over(ws[0]) ==> pick_binary(ws) == pick_binary(ws.drop_first()),
    decreases ws.len(),
{
    if ws.len() > 0 {
        let rest = ws.drop_first();
        lemma_pick_binary(rest);
        if passed_over(ws[0]) {
            match pick_binary(rest) {
                Some(b) => {
                    let i = choose|i: int|
                        0 <= i < rest.len() && rest[i] == b && !passed_over(rest[i]) && forall|j: int|
                            0 <= j < i ==> passed_over(#[trigger] rest[j]);
                    assert(ws[i + 1] == rest[i]);
                    assert forall|j: int| 0 <= j < i + 1 implies passed_over(#[trigger] ws[j]) by {
                        if j > 0 {
                            assert(ws[j] == rest[j - 1]);
                        }
                    }
                },
                None => {
                    assert forall|j: int| 0 <= j < ws.len() implies passed_over(#[trigger] ws[j]) by {
                        if j > 0 {
                            assert(ws[j] == rest[j - 1]);
                        }
                    }
                },
            }
        }
    }
}

pub fn exec_binary_chars(exec: &Vec<char>) -> (r: Option<Vec<char>>)
    ensures
        match r {
            Some(b) => pick_binary(shell_words(exec@)) == Some(b@),
            None => pick_binary(shell_words(exec@)) is None,
        },
{
    let toks = shell_split_chars(exec);
    let ghost ts = shell_words(exec@);
    let mut i: usize = 0;
    proof {
        assert(ts.skip(0) =~= ts);
    }
    while i < toks.len()
        invariant
            i <= toks@.len() == ts.len(),
            ts == shell_words(exec@),
            forall|k: int| 0 <= k < toks@.len() ==> #[trigger] toks@[k]@ == ts[k],
            pick_binary(ts) == pick_binary(ts.skip(i as int)),
        decreases toks.len() - i,
    {
        let tok = &toks[i];
        proof {
            assert(toks@[i as int]@ == ts[i as int]);
            assert(ts.skip(i as int)[0] == ts[i as int]);
            assert(ts.skip(i as int).drop_first() =~= ts.skip(i + 1));
        }
        let has_eq = find(tok, '=').is_some();
        let slash = tok.len() > 0 && tok[0] == '/';
        proof {
            assert(slash == has_prefix(tok@, seq!['/'])) by {
                if tok@.len() > 0 {
                    if tok@[0] == '/' {
                        assert(tok@.subrange(0, 1) =~= seq!['/']);
                    } else {
                        assert(tok@.subrange(0, 1)[0] != seq!['/'][0]);
                    }
                }
            }
        }
        if has_eq && !slash {
            i += 1;
            continue;
        }
        let base = match file_name_of(tok) {
            Some(b) => b,
            None => clone_chars(tok),
        };
        let wrapper = chars_eq_lit(&base, "env") || chars_eq_lit(&base, "sh") || chars_eq_lit(
            &base,
            "bash",
        ) || chars_eq_lit(&base, "dbus-run-session");
        if wrapper {
            i += 1;
            continue;
        }
        return Some(clone_chars(tok));
    }
    None
}

/// The program an `Exec=` line runs: the first word that is not an
/// environment assignment and not `env`/`sh`/`bash`/`dbus-run-session`.
pub fn exec_binary(exec: &str) -> (r: Option<String>)
    ensures
        match r {
            Some(b) => pick_binary(shell_words(exec@)) == Some(b@),
            None => pick_binary(shell_words(exec@)) is None,
        },
{
    let cs = chars_of(exec);
    match exec_binary_chars(&cs) {
        Some(b) => Some(string_of(&b)),
        None => None,
    }
}

// ---------------------------------------------------------------------------
// Icon file formats the UI can draw.
// ---------------------------------------------------------------------------

/// Whether an extension names a format the icon decoder accepts.
pub open spec fn loadable_ext(e: Seq<char>) -> bool {
    let l = ascii_lower_seq(e);
    l == "svg"@ || l == "png"@ || l == "jpg"@ || l == "jpeg"@
}

/// Whether the path's extension, compared ASCII-case-insensitively, is one of
/// `svg`, `png`, `jpg`, `jpeg`.
pub fn is_loadable_icon(path: &str) -> (r: bool)
    ensures
        r == match extension(path@) {
            Some(e) => loadable_ext(e),
            None => false,
        },
{
    let cs = chars_of(path);
    match extension_of(&cs) {
        Some(e) => {
            let mut lower: Vec<char> = Vec::new();
            let mut i: usize = 0;
            while i < e.len()
                invariant
                    i <= e.len(),
                    lower@ == ascii_lower_seq(e@).take(i as int),
                decreases e.len() - i,
            {
                lower.push(to_ascii_lower(e[i]));
                proof {
                    assert(ascii_lower_seq(e@).take(i + 1) =~= ascii_lower_seq(e@).take(
                        i as int,
                    ).push(ascii_lower_seq(e@)[i as int]));
                }
                i += 1;
            }
            proof {
                assert(ascii_lower_seq(e@).take(e.len() as int) =~= ascii_lower_seq(e@));
            }
            chars_eq_lit(&lower, "svg") || chars_eq_lit(&lower, "png") || chars_eq_lit(
                &lower,
                "jpg",
            ) || chars_eq_lit(&lower, "jpeg")
        },
        None => false,
    }
}

// ---------------------------------------------------------------------------
// Matching a process name against `.desktop` keys.
// ---------------------------------------------------------------------------

/// Length in UTF-8 bytes (`str::len`).
pub open spec fn byte_len(s: Seq<char>) -> nat {
    vstd::utf8::encode_utf8(s).len()
}

/// Shortest shared prefix that counts as a confident match.
pub const MIN_PREFIX_LEN: usize = 5;

/// Whichever of the two is a prefix of the other must be at least
/// `MIN_PREFIX_LEN` bytes long.
pub open spec fn prefix_hit(key: Seq<char>, proc_lower: Seq<char>) -> bool {
    (has_prefix(key, proc_lower) && byte_len(proc_lower) >= MIN_PREFIX_LEN) || (has_prefix(
        proc_lower,
        key,
    ) && byte_len(key) >= MIN_PREFIX_LEN)
}

/// Whether a `.desktop` index key and a lowercased process name share a
/// prefix long enough to be a confident match.
pub fn prefix_matches(key: &str, proc_lower: &str) -> (r: bool)
    ensures
        r == prefix_hit(key@, proc_lower@),
{
    let k = chars_of(key);
    let p = chars_of(proc_lower);
    let kl = key.as_bytes().len();
    let pl = proc_lower.as_bytes().len();
    (starts_with(&k, &p) && pl >= MIN_PREFIX_LEN) || (starts_with(&p, &k) && kl >= MIN_PREFIX_LEN)
}

// ---------------------------------------------------------------------------
// Candidate index keys for a process.
// ---------------------------------------------------------------------------

/// Characters that end the leading "stem" of a process name.
pub open spec fn is_stem_sep(c: char) -> bool {
    !alphanumeric(c) && c != '_'
}

/// Length of the leading run of non-separator characters.
pub open spec fn stem_len(s: Seq<char>) -> nat
    decreases s.len(),
{
    if s.len() == 0 || is_stem_sep(s[0]) {
        0
    } else {
        1 + stem_len(s.drop_first())
    }
}

pub proof fn lemma_stem_len(s: Seq<char>)
    ensures
        stem_len(s) <= s.len(),
        forall|k: int| 0 <= k < stem_len(s) ==> !is_stem_sep(#[trigger] s[k]),
        stem_len(s) < s.len() ==> is_stem_sep(s[stem_len(s) as int]),
    decreases s.len(),
{
    if s.len() > 0 && !is_stem_sep(s[0]) {
        lemma_stem_len(s.drop_first());
        assert forall|k: int| 0 <= k < stem_len(s) implies !is_stem_sep(#[trigger] s[k]) by {
            if k > 0 {
                assert(s[k] == s.drop_first()[k - 1]);
            }
        }
    }
}

/// The keys tried for a process, in order: the executable's file name, the
/// whole name, the leading stem, and the first ten characters when those
/// differ from both the stem and the whole name. All lowercased.
pub open spec fn candidates(proc_name: Seq<char>, exe_path: Seq<char>) -> Seq<Seq<char>> {
    let exe_base = lowercase(file_name_or_empty(exe_path));
    let proc_lower = lowercase(proc_name);
    let stem = proc_lower.take(stem_len(proc_lower) as int);
    let prefix = proc_lower.take(if proc_lower.len() < 10 {
        proc_lower.len() as int
    } else {
        10
    });
    if prefix != stem && prefix != proc_lower {
        seq![exe_base, proc_lower, stem, prefix]
    } else {
        seq![exe_base, proc_lower, stem]
    }
}

pub fn candidates_chars(proc_name: &str, exe_path: &str) -> (r: Vec<Vec<char>>)
    ensures
        r@.len() == candidates(proc_name@, exe_path@).len(),
        forall|k: int| 0 <= k < r@.len() ==> #[trigger] r@[k]@ == candidates(proc_name@, exe_path@)[k],
{
    let exe = chars_of(exe_path);
    let base_name = match file_name_of(&exe) {
        Some(f) => string_of(&f),
        None => String::new(),
    };
    let exe_base = chars_of(to_lowercase(base_name.as_str()).as_str());
    let proc_lower = chars_of(to_lowercase(proc_name).as_str());
    let mut n: usize = 0;
    proof {
        lemma_stem_len(proc_lower@);
        assert(proc_lower@.skip(0) =~= proc_lower@);
    }
    while n < proc_lower.len() && !(!is_alphanumeric(proc_lower[n]) && proc_lower[n] != '_')
        invariant
            n <= proc_lower.len(),
            stem_len(proc_lower@) == n + stem_len(proc_lower@.skip(n as int)),
        decreases proc_lower.len() - n,
    {
        proof {
            assert(proc_lower@.skip(n as int)[0] == proc_lower@[n as int]);
            assert(proc_lower@.skip(n as int).drop_first() =~= proc_lower@.skip(n + 1));
        }
        n += 1;
    }
    proof {
        if n < proc_lower.len() {
            assert(proc_lower@.skip(n as int)[0] == proc_lower@[n as int]);
        }
    }
    let stem = slice_chars(&proc_lower, 0, n);
    let plen = if proc_lower.len() < 10 {
        proc_lower.len()
    } else {
        10
    };
    let prefix = slice_chars(&proc_lower, 0, plen);
    let add_prefix = !chars_eq(&prefix, &stem) && !chars_eq(&prefix, &proc_lower);
    let mut out: Vec<Vec<char>> = Vec::new();
    out.push(exe_base);
    out.push(proc_lower);
    out.push(stem);
    if add_prefix {
        out.push(prefix);
    }
    out
}

/// The keys tried for a process (see `candidates`).
pub fn desktop_candidates(proc_name: &str, exe_path: &str) -> (r: Vec<String>)
    ensures
        r@.len() == candidates(proc_name@, exe_path@).len(),
        forall|k: int| 0 <= k < r@.len() ==> #[trigger] r@[k]@ == candidates(proc_name@, exe_path@)[k],
{
    let c = candidates_chars(proc_name, exe_path);
    strings_of(&c)
}

/// The set of `.desktop` index keys, as the worker reports it.
pub struct IndexKeys {
    set: vstd::hash_set::StringHashSet,
}

impl View for IndexKeys {
    type V = Set<Seq<char>>;

    closed spec fn view(&self) -> Set<Seq<char>> {
        self.set@
    }
}

impl IndexKeys {
    pub fn new() -> (r: Self)
        ensures
            r@ == Set::<Seq<char>>::empty(),
    {
        IndexKeys { set: vstd::hash_set::StringHashSet::new() }
    }

    /// A set holding exactly the given keys.
    pub fn from_keys(keys: Vec<String>) -> (r: Self)
        ensures
            r@ == keys@.map_values(|k: String| k@).to_set(),
    {
        let mut set = vstd::hash_set::StringHashSet::new();
        let mut i: usize = 0;
        let ghost ks = keys@.map_values(|k: String| k@);
        while i < keys.len()
            invariant
                i <= keys.len(),
                ks == keys@.map_values(|k: String| k@),
                set@ == ks.take(i as int).to_set(),
            decreases keys.len() - i,
        {
            set.insert(keys[i].clone());
            proof {
                assert(ks.take(i + 1) =~= ks.take(i as int) + seq![ks[i as int]]);
                Seq::lemma_to_set_insert_commutes(ks.take(i as int), ks[i as int]);
                assert(ks.take(i + 1).to_set() =~= ks.take(i as int).to_set().insert(ks[i as int]));
            }
            i += 1;
        }
        proof {
            assert(ks.take(keys.len() as int) =~= ks);
        }
        IndexKeys { set }
    }

    pub fn contains(&self, key: &str) -> (r: bool)
        ensures
            r == self@.contains(key@),
    {
        self.set.contains(key)
    }
}

/// Whether a process has a `.desktop` entry: some non-empty candidate key
/// (see `candidates`) is an index key.
pub open spec fn has_entry_spec(keys: Set<Seq<char>>, proc_name: Seq<char>, exe_path: Seq<char>) -> bool {
    exists|k: int|
        0 <= k < candidates(proc_name, exe_path).len() && #[trigger] candidates(
            proc_name,
            exe_path,
        )[k].len() > 0 && keys.contains(candidates(proc_name, exe_path)[k])
}

pub fn has_entry(index_keys: &IndexKeys, proc_name: &str, exe_path: &str) -> (r: bool)
    ensures
        r == has_entry_spec(index_keys@, proc_name@, exe_path@),
{
    let cands = desktop_candidates(proc_name, exe_path);
    let ghost cs = candidates(proc_name@, exe_path@);
    let mut i: usize = 0;
    while i < cands.len()
        invariant
            i <= cands@.len() == cs.len(),
            cs == candidates(proc_name@, exe_path@),
            forall|k: int| 0 <= k < cands@.len() ==> #[trigger] cands@[k]@ == cs[k],
            forall|k: int| 0 <= k < i ==> !(#[trigger] cs[k].len() > 0 && index_keys@.contains(cs[k])),
        decreases cands.len() - i,
    {
        let c = cands[i].as_str();
        proof {
            assert(cands@[i as int]@ == cs[i as int]);
        }
        if !c.is_empty() && index_keys.contains(c) {
            return true;
        }
        i += 1;
    }
    false
}

// ---------------------------------------------------------------------------
// The `.desktop` index: lowercased key -> icon name, first entry wins.
// ---------------------------------------------------------------------------

/// A map from lower-cased key to icon name, held as a list of pairs with
/// distinct keys (the type invariant). The prefix fallback and the key list
/// handed to the resolver walk every entry; vstd's `StringHashMap` offers
/// lookups but no way to walk its entries, so the list stands in for the
/// map. The prefix fallback picks its match by key alone (`key_beats`), so
/// the order of the list decides nothing there.
pub struct DesktopIndex {
    entries: Vec<(Vec<char>, Vec<char>)>,
}

impl View for DesktopIndex {
    type V = Seq<(Seq<char>, Seq<char>)>;

    closed spec fn view(&self) -> Seq<(Seq<char>, Seq<char>)> {
        Seq::new(self.entries@.len(), |i: int| (self.entries@[i].0@, self.entries@[i].1@))
    }
}

impl DesktopIndex {
    #[verifier::type_invariant]
    closed spec fn well_formed(&self) -> bool {
        distinct_keys(self@)
    }

    pub fn new() -> (r: Self)
        ensures
            r@ == Seq::<(Seq<char>, Seq<char>)>::empty(),
    {
        let r = DesktopIndex { entries: Vec::new() };
        proof {
            assert(r@ =~= Seq::<(Seq<char>, Seq<char>)>::empty());
        }
        r
    }

    /// The number of entries; no key occurs twice.
    pub fn len(&self) -> (r: usize)
        ensures
            r == self@.len(),
            distinct_keys(self@),
    {
        proof {
            use_type_invariant(self);
        }
        self.entries.len()
    }

    pub fn is_empty(&self) -> (r: bool)
        ensures
            r == (self@.len() == 0),
    {
        self.len() == 0
    }

    fn position(&self, key: &Vec<char>) -> (r: Option<usize>)
        ensures
            match r {
                Some(i) => key_pos(self@, key@) == Some(i as nat),
                None => key_pos(self@, key@) is None,
            },
    {
        let mut j = self.entries.len();
        proof {
            assert(self@.take(j as int) =~= self@);
        }
        while j > 0
            invariant
                j <= self.entries@.len() == self@.len(),
                key_pos(self@, key@) == key_pos(self@.take(j as int), key@),
            decreases j,
        {
            proof {
                assert(self@.take(j as int).drop_last() =~= self@.take(j - 1));
                assert(self@.take(j as int).last() == self@[j - 1]);
            }
            if chars_eq(&self.entries[j - 1].0, key) {
                return Some(j - 1);
            }
            j -= 1;
        }
        None
    }

    /// The icon of `key`, if the key is present.
    pub fn get_chars(&self, key: &Vec<char>) -> (r: Option<Vec<char>>)
        ensures
            match r {
                Some(v) => lookup(self@, key@) == Some(v@),
                None => lookup(self@, key@) is None,
            },
    {
        proof {
            lemma_key_pos(self@, key@);
        }
        match self.position(key) {
            Some(i) => Some(clone_chars(&self.entries[i].1)),
            None => None,
        }
    }

    pub fn get(&self, key: &str) -> (r: Option<String>)
        ensures
            match r {
                Some(v) => lookup(self@, key@) == Some(v@),
                None => lookup(self@, key@) is None,
            },
    {
        let k = chars_of(key);
        match self.get_chars(&k) {
            Some(v) => Some(string_of(&v)),
            None => None,
        }
    }

    /// The key and icon at `i`.
    pub fn entry(&self, i: usize) -> (r: (Vec<char>, Vec<char>))
        requires
            i < self@.len(),
        ensures
            r.0@ == self@[i as int].0,
            r.1@ == self@[i as int].1,
    {
        (clone_chars(&self.entries[i].0), clone_chars(&self.entries[i].1))
    }

    /// All icons, in entry order.
    pub fn values(&self) -> (r: Vec<String>)
        ensures
            r@.len() == self@.len(),
            forall|k: int| 0 <= k < r@.len() ==> #[trigger] r@[k]@ == self@[k].1,
    {
        let mut out: Vec<String> = Vec::new();
        let mut i: usize = 0;
        while i < self.entries.len()
            invariant
                i <= self.entries@.len() == self@.len(),
                out@.len() == i,
                forall|k: int| 0 <= k < i ==> #[trigger] out@[k]@ == self@[k].1,
            decreases self.entries.len() - i,
        {
            out.push(string_of(&self.entries[i].1));
            i += 1;
        }
        out
    }

    /// All keys, in entry order.
    pub fn keys(&self) -> (r: Vec<String>)
        ensures
            r@.len() == self@.len(),
            forall|k: int| 0 <= k < r@.len() ==> #[trigger] r@[k]@ == self@[k].0,
    {
        let mut out: Vec<String> = Vec::new();
        let mut i: usize = 0;
        while i < self.entries.len()
            invariant
                i <= self.entries@.len() == self@.len(),
                out@.len() == i,
                forall|k: int| 0 <= k < i ==> #[trigger] out@[k]@ == self@[k].0,
            decreases self.entries.len() - i,
        {
            out.push(string_of(&self.entries[i].0));
            i += 1;
        }
        out
    }

    /// Adds `(key, icon)` unless the key is empty or already present.
    pub fn insert_if_absent(&mut self, key: Vec<char>, icon: Vec<char>)
        ensures
            final(self)@ == or_insert(old(self)@, key@, icon@),
    {
        proof {
            use_type_invariant(&*self);
            lemma_key_pos(self@, key@);
        }
        if key.len() == 0 {
            return;
        }
        if self.position(&key).is_some() {
            return;
        }
        let ghost before = self@;
        let ghost k = key@;
        let ghost v = icon@;
        let mut es: Vec<(Vec<char>, Vec<char>)> = Vec::new();
        std::mem::swap(&mut es, &mut self.entries);
        es.push((key, icon));
        proof {
            let nv = Seq::new(es@.len(), |i: int| (es@[i].0@, es@[i].1@));
            assert(nv =~= before.push((k, v)));
            assert(distinct_keys(nv)) by {
                assert forall|i: int, j: int| 0 <= i < j < nv.len() implies nv[i].0 != nv[j].0 by {
                    if j == nv.len() - 1 {
                        assert(before[i].0 != k);
                    }
                }
            }
        }
        self.entries = es;
        proof {
            assert(self@ =~= before.push((k, v)));
        }
    }

    /// Sets the icon of `key`, adding the key when absent (`HashMap::insert`).
    pub fn insert(&mut self, key: String, icon: String)
        ensures
            final(self)@ == put(old(self)@, key@, icon@),
    {
        proof {
            use_type_invariant(&*self);
            lemma_key_pos(self@, key@);
        }
        let k = chars_of(key.as_str());
        let v = chars_of(icon.as_str());
        let ghost before = self@;
        match self.position(&k) {
            Some(i) => {
                let mut es: Vec<(Vec<char>, Vec<char>)> = Vec::new();
                std::mem::swap(&mut es, &mut self.entries);
                es.set(i, (k, v));
                proof {
                    let nv = Seq::new(es@.len(), |j: int| (es@[j].0@, es@[j].1@));
                    assert(nv =~= before.update(i as int, (key@, icon@)));
                    assert(distinct_keys(nv)) by {
                        assert forall|a: int, b: int| 0 <= a < b < nv.len() implies nv[a].0 != nv[b].0 by {
                            assert(before[i as int].0 == key@);
                        }
                    }
                }
                self.entries = es;
                proof {
                    assert(self@ =~= before.update(i as int, (key@, icon@)));
                }
            },
            None => {
                let mut es: Vec<(Vec<char>, Vec<char>)> = Vec::new();
                std::mem::swap(&mut es, &mut self.entries);
                es.push((k, v));
                proof {
                    let nv = Seq::new(es@.len(), |j: int| (es@[j].0@, es@[j].1@));
                    assert(nv =~= before.push((key@, icon@)));
                    assert(distinct_keys(nv)) by {
                        assert forall|a: int, b: int| 0 <= a < b < nv.len() implies nv[a].0 != nv[b].0 by {
                            if b == nv.len() - 1 {
                                assert(before[a].0 != key@);
                            }
                        }
                    }
                }
                self.entries = es;
                proof {
                    assert(self@ =~= before.push((key@, icon@)));
                }
            },
        }
    }
}

// ---------------------------------------------------------------------------
// Parsing one `.desktop` file.
// ---------------------------------------------------------------------------

/// What the scan of a `.desktop` file has read so far: `Icon`, `Exec`,
/// `TryExec`, `StartupWMClass`, whether the current section is
/// `[Desktop Entry]`, and `Hidden`.
pub type DesktopScan = (
    Option<Seq<char>>,
    Option<Seq<char>>,
    Option<Seq<char>>,
    Option<Seq<char>>,
    bool,
    bool,
);

pub open spec fn scan_start() -> DesktopScan {
    (None, None, None, None, false, false)
}

/// One line of the file. Lines are trimmed; a line starting with `[` opens a
/// section; outside `[Desktop Entry]` nothing is read; `key=value` lines set
/// the five keys above (later lines win), with key and value trimmed.
pub open spec fn scan_line(st: DesktopScan, raw: Seq<char>) -> DesktopScan {
    let line = trim(raw);
    if line.len() > 0 && line[0] == '[' {
        (st.0, st.1, st.2, st.3, line == "[Desktop Entry]"@, st.5)
    } else if !st.4 {
        st
    } else {
        match split_once(line, '=') {
            None => st,
            Some(kv) => {
                let k = trim(kv.0);
                let v = trim(kv.1);
                if k == "Icon"@ {
                    (Some(v), st.1, st.2, st.3, st.4, st.5)
                } else if k == "Exec"@ {
                    (st.0, Some(v), st.2, st.3, st.4, st.5)
                } else if k == "TryExec"@ {
                    (st.0, st.1, Some(v), st.3, st.4, st.5)
                } else if k == "StartupWMClass"@ {
                    (st.0, st.1, st.2, Some(v), st.4, st.5)
                } else if k == "Hidden"@ {
                    (st.0, st.1, st.2, st.3, st.4, eq_ignore_ascii_case(v, "true"@))
                } else {
                    st
                }
            },
        }
    }
}

pub open spec fn scan_lines(ls: Seq<Seq<char>>) -> DesktopScan
    decreases ls.len(),
{
    if ls.len() == 0 {
        scan_start()
    } else {
        scan_line(scan_lines(ls.drop_last()), ls.last())
    }
}

pub open spec fn opt_file_name(o: Option<Seq<char>>) -> Seq<Seq<char>> {
    match o {
        Some(p) => match file_name(p) {
            Some(b) => seq![b],
            None => Seq::empty(),
        },
        None => Seq::empty(),
    }
}

/// The names an entry is indexed under, before lowercasing: the file name of
/// the `Exec` binary, the file name of `TryExec`, `StartupWMClass`, and the
/// `.desktop` file's own stem.
pub open spec fn entry_keys(st: DesktopScan, file_stem: Seq<char>) -> Seq<Seq<char>> {
    let from_exec = match st.1 {
        Some(e) => opt_file_name(pick_binary(shell_words(e))),
        None => Seq::empty(),
    };
    let wm = match st.3 {
        Some(w) => seq![w],
        None => Seq::empty(),
    };
    from_exec + opt_file_name(st.2) + wm + seq![file_stem]
}

/// Adds each name, lowercased, unless empty or already indexed.
pub open spec fn add_keys(
    es: Seq<(Seq<char>, Seq<char>)>,
    ks: Seq<Seq<char>>,
    icon: Seq<char>,
) -> Seq<(Seq<char>, Seq<char>)>
    decreases ks.len(),
{
    if ks.len() == 0 {
        es
    } else {
        or_insert(add_keys(es, ks.drop_last(), icon), lowercase(ks.last()), icon)
    }
}

/// The index after reading one file: unchanged when the entry is hidden or
/// has no `Icon`; otherwise its names are added with its icon.
pub open spec fn desktop_update(
    es: Seq<(Seq<char>, Seq<char>)>,
    content: Seq<char>,
    file_stem: Seq<char>,
) -> Seq<(Seq<char>, Seq<char>)> {
    let st = scan_lines(lines(content));
    if st.5 {
        es
    } else {
        match st.0 {
            Some(icon) => add_keys(es, entry_keys(st, file_stem), icon),
            None => es,
        }
    }
}

/// Whether `k` is one of the names `ks`, lower-cased.
pub open spec fn names_key(ks: Seq<Seq<char>>, k: Seq<char>) -> bool {
    exists|j: int| 0 <= j < ks.len() && lowercase(#[trigger] ks[j]) == k
}

proof fn lemma_add_keys(es: Seq<(Seq<char>, Seq<char>)>, ks: Seq<Seq<char>>, icon: Seq<char>)
    requires
        distinct_keys(es),
    ensures
        distinct_keys(add_keys(es, ks, icon)),
        forall|k: Seq<char>| #[trigger] lookup(es, k) is Some ==> lookup(add_keys(es, ks, icon), k) == lookup(es, k),
        forall|k: Seq<char>|
            #[trigger] lookup(add_keys(es, ks, icon), k) is Some <==> (lookup(es, k) is Some || (k.len() > 0
                && names_key(ks, k))),
        forall|k: Seq<char>|
            lookup(es, k) is None && #[trigger] lookup(add_keys(es, ks, icon), k) is Some ==> lookup(
                add_keys(es, ks, icon),
                k,
            ) == Some(icon),
    decreases ks.len(),
{
    if ks.len() == 0 {
        assert forall|k: Seq<char>| !names_key(ks, k) by {}
    } else {
        let init = ks.drop_last();
        lemma_add_keys(es, init, icon);
        let a = add_keys(es, init, icon);
        let k0 = lowercase(ks.last());
        assert forall|k: Seq<char>| names_key(ks, k) <==> (names_key(init, k) || k0 == k) by {
            if names_key(ks, k) {
                let j = choose|j: int| 0 <= j < ks.len() && lowercase(#[trigger] ks[j]) == k;
                if j < init.len() {
                    assert(init[j] == ks[j]);
                }
            }
            if names_key(init, k) {
                let j = choose|j: int| 0 <= j < init.len() && lowercase(#[trigger] init[j]) == k;
                assert(ks[j] == init[j]);
            }
            if k0 == k {
                assert(lowercase(ks[ks.len() - 1]) == k);
            }
        }
        if !(k0.len() == 0 || lookup(a, k0) is Some) {
            lemma_key_pos(a, k0);
            let b = a.push((k0, icon));
            assert(b.drop_last() =~= a);
            assert forall|k: Seq<char>| #[trigger] lookup(b, k) == if k == k0 {
                Some(icon)
            } else {
                lookup(a, k)
            } by {
                assert(b.last() == (k0, icon));
            }
            assert forall|x: int, y: int| 0 <= x < y < b.len() implies b[x].0 != b[y].0 by {
                if y == b.len() - 1 {
                    assert(a[x].0 != k0);
                }
            }
        }
    }
}

/// Reading a `.desktop` file whose `[Desktop Entry]` section is hidden or has
/// no `Icon` leaves the index as it was. Otherwise every entry already in the
/// index keeps its icon; the keys afterwards are the old ones and the
/// non-empty lower-cased names of the entry (`entry_keys`: the `Exec` binary's
/// and `TryExec`'s file names, `StartupWMClass`, the file's stem); and every
/// new key maps to the entry's icon.
pub proof fn lemma_parse_desktop(es: Seq<(Seq<char>, Seq<char>)>, content: Seq<char>, file_stem: Seq<char>)
    requires
        distinct_keys(es),
    ensures
        ({
            let st = scan_lines(lines(content));
            let out = desktop_update(es, content, file_stem);
            &&& distinct_keys(out)
            &&& (st.5 || st.0 is None) ==> out == es
            &&& !st.5 && st.0 is Some ==> {
                &&& forall|k: Seq<char>| #[trigger] lookup(es, k) is Some ==> lookup(out, k) == lookup(es, k)
                &&& forall|k: Seq<char>|
                    #[trigger] lookup(out, k) is Some <==> (lookup(es, k) is Some || (k.len() > 0 && names_key(
                        entry_keys(st, file_stem),
                        k,
                    )))
                &&& forall|k: Seq<char>|
                    lookup(es, k) is None && #[trigger] lookup(out, k) is Some ==> lookup(out, k) == st.0
            }
        }),
{
    let st = scan_lines(lines(content));
    if !st.5 && st.0 is Some {
        lemma_add_keys(es, entry_keys(st, file_stem), st.0->0);
    }
}

fn scan_line_exec(
    raw: &Vec<char>,
    icon: &mut Option<Vec<char>>,
    exec: &mut Option<Vec<char>>,
    try_exec: &mut Option<Vec<char>>,
    wm_class: &mut Option<Vec<char>>,
    in_main: &mut bool,
    hidden: &mut bool,
)
    ensures
        scan_line(
            (
                opt_view(*old(icon)),
                opt_view(*old(exec)),
                opt_view(*old(try_exec)),
                opt_view(*old(wm_class)),
                *old(in_main),
                *old(hidden),
            ),
            raw@,
        ) == (
            opt_view(*final(icon)),
            opt_view(*final(exec)),
            opt_view(*final(try_exec)),
            opt_view(*final(wm_class)),
            *final(in_main),
            *final(hidden),
        ),
{
    let line = trim_chars(raw);
    if line.len() > 0 && line[0] == '[' {
        *in_main = chars_eq_lit(&line, "[Desktop Entry]");
        return;
    }
    if !*in_main {
        return;
    }
    match split_once_chars(&line, '=') {
        None => {},
        Some((k0, v0)) => {
            let k = trim_chars(&k0);
            let v = trim_chars(&v0);
            if chars_eq_lit(&k, "Icon") {
                *icon = Some(v);
            } else if chars_eq_lit(&k, "Exec") {
                *exec = Some(v);
            } else if chars_eq_lit(&k, "TryExec") {
                *try_exec = Some(v);
            } else if chars_eq_lit(&k, "StartupWMClass") {
                *wm_class = Some(v);
            } else if chars_eq_lit(&k, "Hidden") {
                *hidden = eq_ignore_ascii_case_lit(&v, "true");
            }
        },
    }
}

pub open spec fn opt_view(o: Option<Vec<char>>) -> Option<Seq<char>> {
    match o {
        Some(v) => Some(v@),
        None => None,
    }
}

fn push_file_name(keys: &mut Vec<Vec<char>>, p: &Option<Vec<char>>)
    ensures
        final(keys)@.len() == old(keys)@.len() + opt_file_name(opt_view(*p)).len(),
        forall|k: int| 0 <= k < old(keys)@.len() ==> #[trigger] final(keys)@[k] == old(keys)@[k],
        forall|k: int|
            0 <= k < opt_file_name(opt_view(*p)).len() ==> #[trigger] final(keys)@[old(keys)@.len() + k]@
                == opt_file_name(opt_view(*p))[k],
{
    match p {
        Some(v) => match file_name_of(v) {
            Some(b) => keys.push(b),
            None => {},
        },
        None => {},
    }
}

/// Reads one `.desktop` file's text and indexes its icon under the names it
/// declares (see `desktop_update`). Keys already present keep their icon.
pub fn parse_desktop(content: &str, file_stem: &str, out: &mut DesktopIndex)
    ensures
        final(out)@ == desktop_update(old(out)@, content@, file_stem@),
{
    let text = chars_of(content);
    let ls = lines_of(&text);
    let ghost lsv = lines(content@);
    let mut icon: Option<Vec<char>> = None;
    let mut exec: Option<Vec<char>> = None;
    let mut try_exec: Option<Vec<char>> = None;
    let mut wm_class: Option<Vec<char>> = None;
    let mut in_main = false;
    let mut hidden = false;
    let mut i: usize = 0;
    proof {
        assert(lsv.take(0) =~= Seq::<Seq<char>>::empty());
    }
    while i < ls.len()
        invariant
            i <= ls@.len() == lsv.len(),
            lsv == lines(content@),
            text@ == content@,
            forall|k: int| 0 <= k < ls@.len() ==> #[trigger] ls@[k]@ == lsv[k],
            scan_lines(lsv.take(i as int)) == (
                opt_view(icon),
                opt_view(exec),
                opt_view(try_exec),
                opt_view(wm_class),
                in_main,
                hidden,
            ),
        decreases ls.len() - i,
    {
        proof {
            assert(lsv.take(i + 1).drop_last() =~= lsv.take(i as int));
            assert(lsv.take(i + 1).last() == ls@[i as int]@);
        }
        scan_line_exec(
            &ls[i],
            &mut icon,
            &mut exec,
            &mut try_exec,
            &mut wm_class,
            &mut in_main,
            &mut hidden,
        );
        i += 1;
    }
    proof {
        assert(lsv.take(ls.len() as int) =~= lsv);
    }
    if hidden {
        return;
    }
    let icon = match icon {
        Some(v) => v,
        None => {
            return;
        },
    };
    let ghost st = scan_lines(lsv);
    let mut names: Vec<Vec<char>> = Vec::new();
    let bin = match &exec {
        Some(e) => exec_binary_chars(e),
        None => None,
    };
    push_file_name(&mut names, &bin);
    let ghost n1 = names@.len();
    let ghost names1 = names@;
    push_file_name(&mut names, &try_exec);
    let ghost n2 = names@.len();
    let ghost names2 = names@;
    match &wm_class {
        Some(w) => names.push(clone_chars(w)),
        None => {},
    }
    let ghost n3 = names@.len();
    let ghost names3 = names@;
    names.push(chars_of(file_stem));
    let ghost ks = entry_keys(st, file_stem@);
    proof {
        let from_exec = match st.1 {
            Some(e) => opt_file_name(pick_binary(shell_words(e))),
            None => Seq::empty(),
        };
        assert(opt_view(bin) == match st.1 {
            Some(e) => pick_binary(shell_words(e)),
            None => None::<Seq<char>>,
        });
        let tf = opt_file_name(st.2);
        let wm = match st.3 {
            Some(w) => seq![w],
            None => Seq::<Seq<char>>::empty(),
        };
        assert(opt_file_name(opt_view(bin)) == from_exec) by {
            match st.1 {
                Some(e) => {},
                None => {},
            }
        }
        assert(n1 == from_exec.len());
        assert(n2 == n1 + tf.len());
        assert(n3 == n2 + wm.len());
        assert(names@.len() == ks.len());
        assert(names@ == names3.push(names@[n3 as int]));
        assert(forall|k: int| 0 <= k < n2 ==> names3[k] == names2[k]);
        assert(forall|k: int| 0 <= k < n1 ==> #[trigger] names2[k] == names1[k]);
        assert forall|k: int| 0 <= k < names@.len() implies #[trigger] names@[k]@ == ks[k] by {
            if k < n1 {
                assert(names@[k] == names3[k]);
                assert(names3[k] == names2[k]);
                assert(names2[k] == names1[k]);
                assert(names1[0 + k]@ == from_exec[k]);
                assert(ks[k] == from_exec[k]);
                assert(names@[k]@ == ks[k]);
            } else if k < n2 {
                assert(names@[k] == names3[k]);
                assert(names3[k] == names2[k]);
                assert(names2[n1 + (k - n1)]@ == tf[k - n1]);
                assert(ks[k] == tf[k - n1]);
                assert(names@[k]@ == ks[k]);
            } else if k < n3 {
                assert(names@[k] == names3[k]);
                assert(ks[k] == wm[k - n2]);
                assert(names@[k]@ == ks[k]);
            } else {
                assert(ks[k] == file_stem@);
                assert(names@[k]@ == ks[k]);
            }
        }
    }
    let mut j: usize = 0;
    proof {
        assert(ks.take(0) =~= Seq::<Seq<char>>::empty());
    }
    while j < names.len()
        invariant
            j <= names@.len() == ks.len(),
            forall|k: int| 0 <= k < names@.len() ==> #[trigger] names@[k]@ == ks[k],
            out@ == add_keys(old(out)@, ks.take(j as int), icon@),
        decreases names.len() - j,
    {
        proof {
            assert(ks.take(j + 1).drop_last() =~= ks.take(j as int));
            assert(ks.take(j + 1).last() == names@[j as int]@);
        }
        let name = string_of(&names[j]);
        let lower = chars_of(to_lowercase(name.as_str()).as_str());
        out.insert_if_absent(lower, clone_chars(&icon));
        j += 1;
    }
    proof {
        assert(ks.take(names.len() as int) =~= ks);
    }
}

// ---------------------------------------------------------------------------
// The order in which icon names are tried for a process.
// ---------------------------------------------------------------------------

/// Key `a` is preferred over key `b` as a prefix match: more bytes, or as
/// many bytes and lexicographically smaller.
pub open spec fn key_beats(a: Seq<char>, b: Seq<char>) -> bool {
    byte_len(a) > byte_len(b) || (byte_len(a) == byte_len(b) && lex_lt(a, b))
}

/// Index of the preferred prefix-matching entry, if any entry matches.
pub open spec fn best_prefix(es: Seq<(Seq<char>, Seq<char>)>, p: Seq<char>) -> Option<int>
    decreases es.len(),
{
    if es.len() == 0 {
        None
    } else {
        let prev = best_prefix(es.drop_last(), p);
        let i = es.len() - 1;
        if !prefix_hit(es[i].0, p) {
            prev
        } else {
            match prev {
                None => Some(i),
                Some(j) => if key_beats(es[i].0, es[j].0) {
                    Some(i)
                } else {
                    prev
                },
            }
        }
    }
}

/// The preferred prefix match beats every other prefix-matching key, and no
/// entry matches when there is none.
pub proof fn lemma_best_prefix(es: Seq<(Seq<char>, Seq<char>)>, p: Seq<char>)
    requires
        distinct_keys(es),
    ensures
        match best_prefix(es, p) {
            Some(j) => 0 <= j < es.len() && prefix_hit(es[j].0, p) && forall|i: int|
                0 <= i < es.len() && i != j && prefix_hit(#[trigger] es[i].0, p) ==> key_beats(
                    es[j].0,
                    es[i].0,
                ),
            None => forall|i: int| 0 <= i < es.len() ==> !prefix_hit(#[trigger] es[i].0, p),
        },
    decreases es.len(),
{
    if es.len() > 0 {
        let d = es.drop_last();
        assert(distinct_keys(d)) by {
            assert forall|a: int, b: int| 0 <= a < b < d.len() implies d[a].0 != d[b].0 by {
                assert(d[a] == es[a] && d[b] == es[b]);
            }
        }
        lemma_best_prefix(d, p);
        let i = es.len() - 1;
        assert forall|k: int| 0 <= k < d.len() implies #[trigger] d[k] == es[k] by {}
        match best_prefix(d, p) {
            Some(j) => {
                let b = es[j].0;
                assert(d[j] == es[j]);
                if prefix_hit(es[i].0, p) {
                    let a = es[i].0;
                    assert(a != b);
                    lemma_lex_total(a, b);
                    lemma_lex_asymmetric(a, b);
                    if key_beats(a, b) {
                        assert forall|k: int|
                            0 <= k < es.len() && k != i && prefix_hit(#[trigger] es[k].0, p) implies key_beats(
                            a,
                            es[k].0,
                        ) by {
                            if k != j {
                                assert(d[k] == es[k]);
                                assert(key_beats(b, d[k].0));
                                lemma_lex_transitive(a, b, es[k].0);
                            }
                        }
                    } else {
                        assert(key_beats(b, a));
                        assert forall|k: int|
                            0 <= k < es.len() && k != j && prefix_hit(#[trigger] es[k].0, p) implies key_beats(
                            b,
                            es[k].0,
                        ) by {
                            if k != i {
                                assert(d[k] == es[k]);
                                assert(key_beats(b, d[k].0));
                            }
                        }
                    }
                } else {
                    assert forall|k: int|
                        0 <= k < es.len() && k != j && prefix_hit(#[trigger] es[k].0, p) implies key_beats(
                        b,
                        es[k].0,
                    ) by {
                        if k != i {
                            assert(d[k] == es[k]);
                            assert(key_beats(b, d[k].0));
                        }
                    }
                }
            },
            None => {
                assert forall|k: int| 0 <= k < i implies !prefix_hit(#[trigger] es[k].0, p) by {
                    assert(d[k] == es[k]);
                }
            },
        }
    }
}

/// The icon of the preferred prefix match, as a zero- or one-element list.
pub open spec fn prefix_icon(es: Seq<(Seq<char>, Seq<char>)>, p: Seq<char>) -> Seq<Seq<char>> {
    match best_prefix(es, p) {
        Some(j) => seq![es[j].1],
        None => Seq::empty(),
    }
}

/// Icons the index holds for the non-empty candidate keys, in order.
pub open spec fn indexed_icons(es: Seq<(Seq<char>, Seq<char>)>, cs: Seq<Seq<char>>) -> Seq<
    Seq<char>,
>
    decreases cs.len(),
{
    if cs.len() == 0 {
        Seq::empty()
    } else {
        let c = cs.last();
        indexed_icons(es, cs.drop_last()) + if c.len() > 0 && lookup(es, c) is Some {
            seq![lookup(es, c).unwrap()]
        } else {
            Seq::empty()
        }
    }
}

/// The non-empty candidate keys, in order.
pub open spec fn nonempty(cs: Seq<Seq<char>>) -> Seq<Seq<char>>
    decreases cs.len(),
{
    if cs.len() == 0 {
        Seq::empty()
    } else {
        nonempty(cs.drop_last()) + if cs.last().len() > 0 {
            seq![cs.last()]
        } else {
            Seq::empty()
        }
    }
}

/// Icon names to try for a process, first to last: the icons the index gives
/// for its candidate keys, the icon of the preferred prefix match, the
/// candidate keys themselves as icon names, then the generic executable icon.
/// The first name that resolves to a file is the process's icon.
pub open spec fn icon_order(
    es: Seq<(Seq<char>, Seq<char>)>,
    proc_name: Seq<char>,
    exe_path: Seq<char>,
) -> Seq<Seq<char>> {
    let cs = candidates(proc_name, exe_path);
    indexed_icons(es, cs) + prefix_icon(es, lowercase(proc_name)) + nonempty(cs) + seq![
        "application-x-executable"@,
    ]
}

pub fn byte_len_of(v: &Vec<char>) -> (r: usize)
    ensures
        r == byte_len(v@),
{
    let s = string_of(v);
    s.as_str().as_bytes().len()
}

fn push_all(out: &mut Vec<Vec<char>>, extra: Vec<Vec<char>>)
    ensures
        final(out)@.len() == old(out)@.len() + extra@.len(),
        forall|k: int| 0 <= k < old(out)@.len() ==> #[trigger] final(out)@[k] == old(out)@[k],
        forall|k: int| 0 <= k < extra@.len() ==> #[trigger] final(out)@[old(out)@.len() + k]@ == extra@[k]@,
{
    let mut i: usize = 0;
    let ghost start = out@;
    while i < extra.len()
        invariant
            i <= extra@.len(),
            out@.len() == start.len() + i,
            forall|k: int| 0 <= k < start.len() ==> #[trigger] out@[k] == start[k],
            forall|k: int| 0 <= k < i ==> #[trigger] out@[start.len() + k]@ == extra@[k]@,
        decreases extra.len() - i,
    {
        out.push(clone_chars(&extra[i]));
        proof {
            assert(out@[start.len() + i]@ == extra@[i as int]@);
        }
        i += 1;
    }
}

/// Icon names to try for a process, in order (see `icon_order`).
pub fn icon_candidates(index: &DesktopIndex, proc_name: &str, exe_path: &str) -> (r: Vec<String>)
    ensures
        r@.len() == icon_order(index@, proc_name@, exe_path@).len(),
        forall|k: int| 0 <= k < r@.len() ==> #[trigger] r@[k]@ == icon_order(index@, proc_name@, exe_path@)[k],
{
    let cands = candidates_chars(proc_name, exe_path);
    let ghost cs = candidates(proc_name@, exe_path@);
    let ghost es = index@;
    let n = index.len();
    // Icons the index holds for the candidates.
    let mut first: Vec<Vec<char>> = Vec::new();
    let mut i: usize = 0;
    proof {
        assert(cs.take(0) =~= Seq::<Seq<char>>::empty());
    }
    while i < cands.len()
        invariant
            i <= cands@.len() == cs.len(),
            es == index@,
            forall|k: int| 0 <= k < cands@.len() ==> #[trigger] cands@[k]@ == cs[k],
            first@.len() == indexed_icons(es, cs.take(i as int)).len(),
            forall|k: int| 0 <= k < first@.len() ==> #[trigger] first@[k]@ == indexed_icons(es, cs.take(i as int))[k],
        decreases cands.len() - i,
    {
        proof {
            assert(cs.take(i + 1).drop_last() =~= cs.take(i as int));
            assert(cs.take(i + 1).last() == cands@[i as int]@);
        }
        if cands[i].len() > 0 {
            match index.get_chars(&cands[i]) {
                Some(icon) => {
                    first.push(icon);
                },
                None => {},
            }
        }
        i += 1;
    }
    proof {
        assert(cs.take(cands.len() as int) =~= cs);
    }
    // The preferred prefix match.
    let proc_lower = chars_of(to_lowercase(proc_name).as_str());
    let ghost p = proc_lower@;
    let mut best: Option<usize> = None;
    let mut best_key: Vec<char> = Vec::new();
    let mut best_len: usize = 0;
    let mut j: usize = 0;
    let plen = byte_len_of(&proc_lower);
    proof {
        assert(es.take(0) =~= Seq::<(Seq<char>, Seq<char>)>::empty());
    }
    while j < n
        invariant
            j <= n == es.len(),
            es == index@,
            plen == byte_len(p),
            p == proc_lower@,
            best_prefix(es.take(j as int), p) == match best {
                Some(b) => Some(b as int),
                None => None::<int>,
            },
            best matches Some(b) ==> b < j && best_key@ == es[b as int].0 && best_len == byte_len(best_key@),
        decreases n - j,
    {
        let (key, _icon) = index.entry(j);
        proof {
            assert(es.take(j + 1).drop_last() =~= es.take(j as int));
            assert(es.take(j + 1)[j as int] == es[j as int]);
            assert forall|k: int| 0 <= k < j implies #[trigger] es.take(j + 1)[k] == es[k] by {}
        }
        let klen = byte_len_of(&key);
        let hit = (starts_with(&key, &proc_lower) && plen >= MIN_PREFIX_LEN) || (starts_with(
            &proc_lower,
            &key,
        ) && klen >= MIN_PREFIX_LEN);
        if hit {
            let better = match best {
                None => true,
                Some(_) => klen > best_len || (klen == best_len && lex_order(&key, &best_key) == -1),
            };
            if better {
                best = Some(j);
                best_len = klen;
                best_key = key;
            }
        }
        j += 1;
    }
    proof {
        assert(es.take(n as int) =~= es);
    }
    let mut middle: Vec<Vec<char>> = Vec::new();
    match best {
        Some(b) => {
            let (_k, icon) = index.entry(b);
            middle.push(icon);
        },
        None => {},
    }
    // The candidates themselves.
    let mut third: Vec<Vec<char>> = Vec::new();
    let mut m: usize = 0;
    while m < cands.len()
        invariant
            m <= cands@.len() == cs.len(),
            forall|k: int| 0 <= k < cands@.len() ==> #[trigger] cands@[k]@ == cs[k],
            third@.len() == nonempty(cs.take(m as int)).len(),
            forall|k: int| 0 <= k < third@.len() ==> #[trigger] third@[k]@ == nonempty(cs.take(m as int))[k],
        decreases cands.len() - m,
    {
        proof {
            assert(cs.take(m + 1).drop_last() =~= cs.take(m as int));
            assert(cs.take(m + 1).last() == cands@[m as int]@);
        }
        if cands[m].len() > 0 {
            third.push(clone_chars(&cands[m]));
        }
        m += 1;
    }
    proof {
        assert(cs.take(cands.len() as int) =~= cs);
    }
    let mut all: Vec<Vec<char>> = Vec::new();
    let ghost fv = first@;
    let ghost mv = middle@;
    let ghost tv = third@;
    push_all(&mut all, first);
    let ghost a0 = all@;
    push_all(&mut all, middle);
    let ghost a1 = all@;
    push_all(&mut all, third);
    let ghost a2 = all@;
    all.push(chars_of("application-x-executable"));
    proof {
        let order = icon_order(es, proc_name@, exe_path@);
        let f = indexed_icons(es, cs);
        let mi = prefix_icon(es, lowercase(proc_name@));
        let t = nonempty(cs);
        assert(mi.len() == middle@.len());
        assert forall|k: int| 0 <= k < mi.len() implies #[trigger] middle@[k]@ == mi[k] by {}
        assert(all@.len() == order.len());
        assert forall|k: int| 0 <= k < all@.len() implies #[trigger] all@[k]@ == order[k] by {
            if k < f.len() {
                assert(order[k] == f[k]);
                assert(all@[k] == a2[k]);
                assert(a2[k] == a1[k]);
                assert(a1[k] == a0[k]);
                assert(a0[0 + k]@ == fv[k]@);
            } else if k < f.len() + mi.len() {
                assert(order[k] == mi[k - f.len()]);
                assert(all@[k] == a2[k]);
                assert(a2[k] == a1[k]);
                assert(a1[f.len() + (k - f.len())]@ == mv[k - f.len()]@);
            } else if k < f.len() + mi.len() + t.len() {
                assert(order[k] == t[k - f.len() - mi.len()]);
                assert(all@[k] == a2[k]);
                assert(a2[(f.len() + mi.len()) + (k - f.len() - mi.len())]@ == tv[k - f.len() - mi.len()]@);
            } else {
                assert(order[k] == "application-x-executable"@);
            }
        }
    }
    strings_of(&all)
}

} // verus!
