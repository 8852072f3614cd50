//! Where an icon name is looked for: the chain of icon themes (the active
//! one, what it inherits, then common defaults) and the ordered list of file
//! paths to probe for a name. Reading `index.theme` files and probing paths
//! is the caller's.
use vstd::prelude::*;
use crate::text::{
    chars_eq, chars_of, clone_chars, has_prefix, has_suffix, lines, lines_of, push_lit, slice_chars,
    split_char, split_chars, starts_with_lit, string_of, trim, trim_chars,
};

verus! {

// ---------------------------------------------------------------------------
// Paths.
// ---------------------------------------------------------------------------

/// `Path::join` on Unix: an absolute component replaces the base; otherwise
/// a `/` goes between them unless the base is empty or already ends in one.
pub open spec fn join(base: Seq<char>, comp: Seq<char>) -> Seq<char> {
    if comp.len() > 0 && comp[0] == '/' {
        comp
    } else if base.len() == 0 || base.last() == '/' {
        base + comp
    } else {
        base + seq!['/'] + comp
    }
}

pub fn join_path(base: &str, comp: &str) -> (r: String)
    ensures
        r@ == join(base@, comp@),
{
    let b = chars_of(base);
    let c = chars_of(comp);
    let mut out = String::new();
    if c.len() > 0 && c[0] == '/' {
        push_lit(&mut out, comp);
    } else if b.len() == 0 || b[b.len() - 1] == '/' {
        push_lit(&mut out, base);
        push_lit(&mut out, comp);
    } else {
        push_lit(&mut out, base);
        crate::text::push_char(&mut out, '/');
        push_lit(&mut out, comp);
        proof {
            assert(out@ =~= base@ + seq!['/'] + comp@);
        }
    }
    out
}

/// Every base joined with every component, bases outermost.
pub open spec fn product(bases: Seq<Seq<char>>, comps: Seq<Seq<char>>) -> Seq<Seq<char>>
    decreases bases.len(),
{
    if bases.len() == 0 {
        Seq::empty()
    } else {
        product(bases.drop_last(), comps) + comps.map_values(|c: Seq<char>| join(bases.last(), c))
    }
}

pub open spec fn strings_view(v: Seq<String>) -> Seq<Seq<char>> {
    v.map_values(|s: String| s@)
}

pub fn join_all(bases: &Vec<String>, comps: &Vec<String>) -> (r: Vec<String>)
    ensures
        strings_view(r@) == product(strings_view(bases@), strings_view(comps@)),
{
    let mut out: Vec<String> = Vec::new();
    let mut i: usize = 0;
    proof {
        assert(strings_view(bases@).take(0) =~= Seq::<Seq<char>>::empty());
        assert(strings_view(out@) =~= Seq::<Seq<char>>::empty());
    }
    while i < bases.len()
        invariant
            i <= bases@.len(),
            strings_view(out@) == product(strings_view(bases@).take(i as int), strings_view(comps@)),
        decreases bases.len() - i,
    {
        let ghost before = strings_view(out@);
        let mut j: usize = 0;
        while j < comps.len()
            invariant
                i < bases@.len(),
                j <= comps@.len(),
                strings_view(out@) == before + strings_view(comps@).take(j as int).map_values(
                    |c: Seq<char>| join(bases@[i as int]@, c),
                ),
            decreases comps.len() - j,
        {
            let p = join_path(bases[i].as_str(), comps[j].as_str());
            let ghost prev = out@;
            out.push(p);
            proof {
                assert(strings_view(out@) =~= strings_view(prev).push(p@));
                assert(strings_view(comps@).take(j + 1) =~= strings_view(comps@).take(j as int).push(
                    comps@[j as int]@,
                ));
                assert(strings_view(out@) =~= before + strings_view(comps@).take(j + 1).map_values(
                    |c: Seq<char>| join(bases@[i as int]@, c),
                ));
            }
            j += 1;
        }
        proof {
            let bs = strings_view(bases@);
            assert(strings_view(comps@).take(comps@.len() as int) =~= strings_view(comps@));
            assert(bs.take(i + 1).drop_last() =~= bs.take(i as int));
            assert(bs.take(i + 1).last() == bases@[i as int]@);
        }
        i += 1;
    }
    proof {
        assert(strings_view(bases@).take(bases@.len() as int) =~= strings_view(bases@));
    }
    out
}

// ---------------------------------------------------------------------------
// The theme chain.
// ---------------------------------------------------------------------------

/// The parents an `index.theme` lists on its `Inherits=` lines, in order:
/// comma-separated, trimmed, empty names skipped.
pub open spec fn inherits_in(ls: Seq<Seq<char>>) -> Seq<Seq<char>>
    decreases ls.len(),
{
    if ls.len() == 0 {
        Seq::empty()
    } else {
        inherits_in(ls.drop_last()) + if has_prefix(ls.last(), "Inherits="@) {
            names_in(split_char(ls.last().skip(9), ','))
        } else {
            Seq::empty()
        }
    }
}

/// The trimmed, non-empty pieces.
pub open spec fn names_in(pieces: Seq<Seq<char>>) -> Seq<Seq<char>>
    decreases pieces.len(),
{
    if pieces.len() == 0 {
        Seq::empty()
    } else {
        names_in(pieces.drop_last()) + if trim(pieces.last()).len() > 0 {
            seq![trim(pieces.last())]
        } else {
            Seq::empty()
        }
    }
}

pub fn inherits_of(content: &str) -> (r: Vec<Vec<char>>)
    ensures
        r@.len() == inherits_in(lines(content@)).len(),
        forall|k: int| 0 <= k < r@.len() ==> #[trigger] r@[k]@ == inherits_in(lines(content@))[k],
{
    let ls = lines_of(&chars_of(content));
    let ghost all = lines(content@);
    let mut out: Vec<Vec<char>> = Vec::new();
    let mut i: usize = 0;
    proof {
        assert(all.take(0) =~= Seq::<Seq<char>>::empty());
    }
    while i < ls.len()
        invariant
            i <= ls@.len() == all.len(),
            all == lines(content@),
            forall|k: int| 0 <= k < ls@.len() ==> #[trigger] ls@[k]@ == all[k],
            out@.len() == inherits_in(all.take(i as int)).len(),
            forall|k: int| 0 <= k < out@.len() ==> #[trigger] out@[k]@ == inherits_in(all.take(i as int))[k],
        decreases ls.len() - i,
    {
        let line = &ls[i];
        let ghost before = inherits_in(all.take(i as int));
        proof {
            reveal_strlit("Inherits=");
            assert(all.take(i + 1).drop_last() =~= all.take(i as int));
            assert(all.take(i + 1).last() == line@);
        }
        if starts_with_lit(line, "Inherits=") {
            let rest = slice_chars(line, 9, line.len());
            proof {
                assert(rest@ =~= line@.skip(9));
            }
            let pieces = split_chars(&rest, ',');
            let ghost ps = split_char(rest@, ',');
            let mut j: usize = 0;
            let ghost base = out@.len();
            proof {
                assert(ps.take(0) =~= Seq::<Seq<char>>::empty());
            }
            while j < pieces.len()
                invariant
                    j <= pieces@.len() == ps.len(),
                    forall|k: int| 0 <= k < pieces@.len() ==> #[trigger] pieces@[k]@ == ps[k],
                    base == before.len(),
                    out@.len() == base + names_in(ps.take(j as int)).len(),
                    forall|k: int| 0 <= k < base ==> #[trigger] out@[k]@ == before[k],
                    forall|k: int| base <= k < out@.len() ==> #[trigger] out@[k]@ == names_in(ps.take(j as int))[k - base],
                decreases pieces.len() - j,
            {
                let t = trim_chars(&pieces[j]);
                proof {
                    assert(ps.take(j + 1).drop_last() =~= ps.take(j as int));
                    assert(ps.take(j + 1).last() == pieces@[j as int]@);
                }
                if t.len() > 0 {
                    out.push(t);
                }
                j += 1;
            }
            proof {
                assert(ps.take(ps.len() as int) =~= ps);
            }
        }
        i += 1;
    }
    proof {
        assert(all.take(all.len() as int) =~= all);
    }
    out
}

/// `ts` with each of `ps` appended that it does not hold yet, in order.
pub open spec fn extend_unique(ts: Seq<Seq<char>>, ps: Seq<Seq<char>>) -> Seq<Seq<char>>
    decreases ps.len(),
{
    if ps.len() == 0 {
        ts
    } else {
        let prev = extend_unique(ts, ps.drop_last());
        if prev.contains(ps.last()) {
            prev
        } else {
            prev.push(ps.last())
        }
    }
}

/// The themes searched, in order: the active theme and, breadth-first, the
/// themes it inherits (each once), then `hicolor`, `Adwaita`, `breeze` and
/// `breeze-dark` where not already present. `next` is the first theme whose
/// `index.theme` files have not been read.
pub struct ThemeChain {
    themes: Vec<Vec<char>>,
    next: usize,
}

impl ThemeChain {
    pub closed spec fn themes_view(&self) -> Seq<Seq<char>> {
        self.themes@.map_values(|t: Vec<char>| t@)
    }

    pub closed spec fn next_view(&self) -> nat {
        self.next as nat
    }

    /// A chain starting at the active theme.
    pub fn new(active: &str) -> (r: Self)
        ensures
            r.themes_view() == seq![active@],
            r.next_view() == 0,
    {
        let mut themes: Vec<Vec<char>> = Vec::new();
        themes.push(chars_of(active));
        let r = ThemeChain { themes, next: 0 };
        proof {
            assert(r.themes_view() =~= seq![active@]);
        }
        r
    }

    /// The theme whose `index.theme` files are to be read next, if any.
    pub fn pending(&self) -> (r: Option<String>)
        ensures
            match r {
                Some(t) => self.next_view() < self.themes_view().len() && t@ == self.themes_view()[self.next_view() as int],
                None => self.next_view() >= self.themes_view().len(),
            },
    {
        if self.next < self.themes.len() {
            Some(string_of(&self.themes[self.next]))
        } else {
            None
        }
    }

    fn contains(&self, t: &Vec<char>) -> (r: bool)
        ensures
            r == self.themes_view().contains(t@),
    {
        let mut i: usize = 0;
        while i < self.themes.len()
            invariant
                i <= self.themes@.len(),
                forall|k: int| 0 <= k < i ==> self.themes_view()[k] != t@,
            decreases self.themes.len() - i,
        {
            if chars_eq(&self.themes[i], t) {
                proof {
                    assert(self.themes_view()[i as int] == t@);
                }
                return true;
            }
            i += 1;
        }
        false
    }

    fn push_new(&mut self, t: Vec<char>)
        ensures
            final(self).next_view() == old(self).next_view(),
            final(self).themes_view() == (if old(self).themes_view().contains(t@) {
                old(self).themes_view()
            } else {
                old(self).themes_view().push(t@)
            }),
    {
        if !self.contains(&t) {
            let ghost before = self.themes_view();
            self.themes.push(t);
            proof {
                assert(self.themes_view() =~= before.push(t@));
            }
        }
    }

    /// Appends the parents listed in one `index.theme` of the pending theme.
    pub fn add_parents(&mut self, content: &str)
        ensures
            final(self).next_view() == old(self).next_view(),
            final(self).themes_view() == extend_unique(old(self).themes_view(), inherits_in(lines(content@))),
    {
        let ps = inherits_of(content);
        let ghost ts0 = self.themes_view();
        let ghost all = inherits_in(lines(content@));
        let mut i: usize = 0;
        proof {
            assert(all.take(0) =~= Seq::<Seq<char>>::empty());
        }
        while i < ps.len()
            invariant
                i <= ps@.len() == all.len(),
                forall|k: int| 0 <= k < ps@.len() ==> #[trigger] ps@[k]@ == all[k],
                self.next_view() == old(self).next_view(),
                self.themes_view() == extend_unique(ts0, all.take(i as int)),
            decreases ps.len() - i,
        {
            let t = clone_chars(&ps[i]);
            proof {
                assert(all.take(i + 1).drop_last() =~= all.take(i as int));
                assert(all.take(i + 1).last() == t@);
            }
            self.push_new(t);
            i += 1;
        }
        proof {
            assert(all.take(all.len() as int) =~= all);
        }
    }

    /// Moves past the pending theme.
    pub fn advance(&mut self)
        ensures
            final(self).themes_view() == old(self).themes_view(),
            final(self).next_view() == if old(self).next_view() < old(self).themes_view().len() {
                old(self).next_view() + 1
            } else {
                old(self).next_view()
            },
    {
        if self.next < self.themes.len() {
            self.next = self.next + 1;
        }
    }

    /// The themes to search: the chain followed by the common defaults it
    /// does not hold yet.
    pub fn finish(self) -> (r: Vec<String>)
        ensures
            strings_view(r@) == extend_unique(
                self.themes_view(),
                seq!["hicolor"@, "Adwaita"@, "breeze"@, "breeze-dark"@],
            ),
    {
        let mut s = self;
        let ghost ts0 = s.themes_view();
        let ghost d = seq!["hicolor"@, "Adwaita"@, "breeze"@, "breeze-dark"@];
        proof {
            assert(d.take(0) =~= Seq::<Seq<char>>::empty());
            assert(d.take(1).drop_last() =~= d.take(0));
            assert(d.take(2).drop_last() =~= d.take(1));
            assert(d.take(3).drop_last() =~= d.take(2));
            assert(d.take(4).drop_last() =~= d.take(3));
            assert(d.take(4) =~= d);
            assert(extend_unique(ts0, d.take(0)) == ts0);
            assert(d.take(1).last() == d[0] && d[0] == "hicolor"@);
            assert(d.take(2).last() == d[1] && d[1] == "Adwaita"@);
            assert(d.take(3).last() == d[2] && d[2] == "breeze"@);
            assert(d.take(4).last() == d[3] && d[3] == "breeze-dark"@);
        }
        s.push_new(chars_of("hicolor"));
        assert(s.themes_view() == extend_unique(ts0, d.take(1)));
        s.push_new(chars_of("Adwaita"));
        assert(s.themes_view() == extend_unique(ts0, d.take(2)));
        s.push_new(chars_of("breeze"));
        assert(s.themes_view() == extend_unique(ts0, d.take(3)));
        s.push_new(chars_of("breeze-dark"));
        assert(s.themes_view() == extend_unique(ts0, d.take(4)));
        let mut out: Vec<String> = Vec::new();
        let mut i: usize = 0;
        while i < s.themes.len()
            invariant
                i <= s.themes@.len(),
                s.themes_view() == extend_unique(ts0, d),
                strings_view(out@) == s.themes_view().take(i as int),
            decreases s.themes.len() - i,
        {
            let ghost prev = out@;
            let t = string_of(&s.themes[i]);
            out.push(t);
            proof {
                assert(s.themes_view()[i as int] == s.themes@[i as int]@);
                assert(strings_view(out@) =~= strings_view(prev).push(t@));
                assert(s.themes_view().take(i + 1) =~= s.themes_view().take(i as int).push(s.themes_view()[i as int]));
            }
            i += 1;
        }
        proof {
            assert(s.themes_view().take(s.themes@.len() as int) =~= s.themes_view());
        }
        out
    }
}

/// Appending unseen names keeps a list free of repeats, keeps what was
/// there in front, and leaves every appended name in the list.
pub proof fn lemma_extend_unique(ts: Seq<Seq<char>>, ps: Seq<Seq<char>>)
    requires
        ts.no_duplicates(),
    ensures
        extend_unique(ts, ps).no_duplicates(),
        extend_unique(ts, ps).len() >= ts.len(),
        extend_unique(ts, ps).take(ts.len() as int) == ts,
        forall|k: int| 0 <= k < ps.len() ==> extend_unique(ts, ps).contains(#[trigger] ps[k]),
    decreases ps.len(),
{
    if ps.len() > 0 {
        lemma_extend_unique(ts, ps.drop_last());
        let prev = extend_unique(ts, ps.drop_last());
        assert forall|k: int| 0 <= k < ps.len() implies extend_unique(ts, ps).contains(#[trigger] ps[k]) by {
            if k < ps.len() - 1 {
                assert(ps.drop_last()[k] == ps[k]);
                assert(prev.contains(ps[k]));
                if !prev.contains(ps.last()) {
                    let j = choose|j: int| 0 <= j < prev.len() && prev[j] == ps[k];
                    assert(prev.push(ps.last())[j] == ps[k]);
                }
            } else if !prev.contains(ps.last()) {
                assert(prev.push(ps.last())[prev.len() as int] == ps.last());
            }
        }
        if !prev.contains(ps.last()) {
            assert(prev.push(ps.last()).take(ts.len() as int) =~= prev.take(ts.len() as int));
        }
    } else {
        assert(ts.take(ts.len() as int) =~= ts);
    }
}

/// The theme directories searched: each theme under each base, themes
/// outermost.
pub open spec fn dirs_of(themes: Seq<Seq<char>>, bases: Seq<Seq<char>>) -> Seq<Seq<char>>
    decreases themes.len(),
{
    if themes.len() == 0 {
        Seq::empty()
    } else {
        dirs_of(themes.drop_last(), bases) + bases.map_values(|b: Seq<char>| join(b, themes.last()))
    }
}

pub fn theme_dirs(themes: &Vec<String>, bases: &Vec<String>) -> (r: Vec<String>)
    ensures
        strings_view(r@) == dirs_of(strings_view(themes@), strings_view(bases@)),
{
    let mut out: Vec<String> = Vec::new();
    let mut i: usize = 0;
    proof {
        assert(strings_view(themes@).take(0) =~= Seq::<Seq<char>>::empty());
        assert(strings_view(out@) =~= Seq::<Seq<char>>::empty());
    }
    while i < themes.len()
        invariant
            i <= themes@.len(),
            strings_view(out@) == dirs_of(strings_view(themes@).take(i as int), strings_view(bases@)),
        decreases themes.len() - i,
    {
        let ghost before = strings_view(out@);
        let mut j: usize = 0;
        while j < bases.len()
            invariant
                i < themes@.len(),
                j <= bases@.len(),
                strings_view(out@) == before + strings_view(bases@).take(j as int).map_values(
                    |b: Seq<char>| join(b, themes@[i as int]@),
                ),
            decreases bases.len() - j,
        {
            let p = join_path(bases[j].as_str(), themes[i].as_str());
            let ghost prev = out@;
            out.push(p);
            proof {
                assert(strings_view(out@) =~= strings_view(prev).push(p@));
                assert(strings_view(bases@).take(j + 1) =~= strings_view(bases@).take(j as int).push(
                    bases@[j as int]@,
                ));
                assert(strings_view(out@) =~= before + strings_view(bases@).take(j + 1).map_values(
                    |b: Seq<char>| join(b, themes@[i as int]@),
                ));
            }
            j += 1;
        }
        proof {
            let ts = strings_view(themes@);
            assert(strings_view(bases@).take(bases@.len() as int) =~= strings_view(bases@));
            assert(ts.take(i + 1).drop_last() =~= ts.take(i as int));
            assert(ts.take(i + 1).last() == themes@[i as int]@);
        }
        i += 1;
    }
    proof {
        assert(strings_view(themes@).take(themes@.len() as int) =~= strings_view(themes@));
    }
    out
}

/// The active theme from `gsettings`'s output: trimmed, without its quotes,
/// `hicolor` when there is none.
pub open spec fn trim_quotes(s: Seq<char>) -> Seq<char>
    decreases s.len(),
{
    if s.len() > 0 && s[0] == '\'' {
        trim_quotes(s.drop_first())
    } else if s.len() > 0 && s.last() == '\'' {
        trim_quotes(s.drop_last())
    } else {
        s
    }
}

pub open spec fn active_theme_of(output: Option<Seq<char>>) -> Seq<char> {
    match output {
        Some(o) => if trim_quotes(trim(o)).len() > 0 {
            trim_quotes(trim(o))
        } else {
            "hicolor"@
        },
        None => "hicolor"@,
    }
}

pub fn active_theme(output: Option<&str>) -> (r: String)
    ensures
        r@ == active_theme_of(match output {
            Some(o) => Some(o@),
            None => None,
        }),
{
    let mut fallback = String::new();
    push_lit(&mut fallback, "hicolor");
    match output {
        None => fallback,
        Some(o) => {
            let t = trim_chars(&chars_of(o));
            let mut lo: usize = 0;
            let mut hi: usize = t.len();
            proof {
                assert(t@.subrange(0, t@.len() as int) =~= t@);
            }
            while lo < hi && (t[lo] == '\'' || t[hi - 1] == '\'')
                invariant
                    lo <= hi <= t@.len(),
                    trim_quotes(t@) == trim_quotes(t@.subrange(lo as int, hi as int)),
                decreases hi - lo,
            {
                if t[lo] == '\'' {
                    proof {
                        assert(t@.subrange(lo as int, hi as int).drop_first() =~= t@.subrange(lo + 1, hi as int));
                    }
                    lo += 1;
                } else {
                    proof {
                        assert(t@.subrange(lo as int, hi as int).drop_last() =~= t@.subrange(lo as int, hi - 1));
                    }
                    hi -= 1;
                }
            }
            if lo == hi {
                proof {
                    assert(t@.subrange(lo as int, hi as int).len() == 0);
                }
                fallback
            } else {
                string_of(&slice_chars(&t, lo, hi))
            }
        },
    }
}

// ---------------------------------------------------------------------------
// The probe list.
// ---------------------------------------------------------------------------

pub open spec fn sizes() -> Seq<Seq<char>> {
    seq!["48x48"@, "64x64"@, "128x128"@, "32x32"@, "24x24"@, "22x22"@, "16x16"@, "scalable"@]
}

pub open spec fn categories() -> Seq<Seq<char>> {
    seq!["apps"@, "devices"@, "places"@, "categories"@, "status"@, "emblems"@, "mimetypes"@]
}

pub open spec fn icon_exts() -> Seq<Seq<char>> {
    seq!["svg"@, "png"@, "jpg"@, "jpeg"@]
}

/// The names tried for an icon: itself, then itself without `-symbolic`.
pub open spec fn names_to_try(name: Seq<char>) -> Seq<Seq<char>> {
    let stripped = if has_suffix(name, "-symbolic"@) {
        name.subrange(0, name.len() - 9)
    } else {
        name
    };
    seq![name, stripped]
}

/// `<name>.<ext>` for each drawable extension.
pub open spec fn file_names(name: Seq<char>) -> Seq<Seq<char>> {
    icon_exts().map_values(|e: Seq<char>| name + seq!['.'] + e)
}

/// The paths probed for one name: each theme directory, each size, each
/// category, each extension, in that nesting.
pub open spec fn themed_paths(dirs: Seq<Seq<char>>, name: Seq<char>) -> Seq<Seq<char>> {
    product(product(product(dirs, sizes()), categories()), file_names(name))
}

/// Everything probed for an icon name, in order: both names through the
/// themes, then both names in the flat pixmap directories.
pub open spec fn probe_order(name: Seq<char>, dirs: Seq<Seq<char>>, pixmaps: Seq<Seq<char>>) -> Seq<Seq<char>> {
    let ns = names_to_try(name);
    themed_paths(dirs, ns[0]) + themed_paths(dirs, ns[1]) + product(pixmaps, file_names(ns[0])) + product(
        pixmaps,
        file_names(ns[1]),
    )
}

fn lit_strings4(a: &str, b: &str, c: &str, d: &str) -> (r: Vec<String>)
    ensures
        strings_view(r@) == seq![a@, b@, c@, d@],
{
    let mut v: Vec<String> = Vec::new();
    v.push(string_of(&chars_of(a)));
    v.push(string_of(&chars_of(b)));
    v.push(string_of(&chars_of(c)));
    v.push(string_of(&chars_of(d)));
    proof {
        assert(strings_view(v@) =~= seq![a@, b@, c@, d@]);
    }
    v
}

fn size_dirs() -> (r: Vec<String>)
    ensures
        strings_view(r@) == sizes(),
{
    let a = lit_strings4("48x48", "64x64", "128x128", "32x32");
    let b = lit_strings4("24x24", "22x22", "16x16", "scalable");
    let mut v = a;
    let mut bb = b;
    let ghost va = strings_view(v@);
    let ghost vb = strings_view(bb@);
    v.append(&mut bb);
    proof {
        assert(strings_view(v@) =~= va + vb);
        assert(va + vb =~= sizes());
    }
    v
}

fn category_dirs() -> (r: Vec<String>)
    ensures
        strings_view(r@) == categories(),
{
    let a = lit_strings4("apps", "devices", "places", "categories");
    let mut v = a;
    let ghost va = strings_view(v@);
    let s1 = string_of(&chars_of("status"));
    let s2 = string_of(&chars_of("emblems"));
    let s3 = string_of(&chars_of("mimetypes"));
    v.push(s1);
    v.push(s2);
    v.push(s3);
    proof {
        assert(strings_view(v@) =~= va.push(s1@).push(s2@).push(s3@));
        assert(strings_view(v@) =~= categories());
    }
    v
}

fn file_names_of(name: &str) -> (r: Vec<String>)
    ensures
        strings_view(r@) == file_names(name@),
{
    let exts = lit_strings4("svg", "png", "jpg", "jpeg");
    let mut out: Vec<String> = Vec::new();
    let mut i: usize = 0;
    while i < exts.len()
        invariant
            i <= exts@.len(),
            strings_view(exts@) == icon_exts(),
            strings_view(out@) == icon_exts().take(i as int).map_values(|e: Seq<char>| name@ + seq!['.'] + e),
        decreases exts.len() - i,
    {
        let mut f = String::new();
        push_lit(&mut f, name);
        crate::text::push_char(&mut f, '.');
        push_lit(&mut f, exts[i].as_str());
        let ghost prev = out@;
        proof {
            assert(f@ =~= name@ + seq!['.'] + exts@[i as int]@);
        }
        out.push(f);
        proof {
            assert(strings_view(out@) =~= strings_view(prev).push(f@));
            assert(strings_view(exts@)[i as int] == exts@[i as int]@);
            assert(icon_exts().take(i + 1) =~= icon_exts().take(i as int).push(icon_exts()[i as int]));
            assert(strings_view(out@) =~= icon_exts().take(i + 1).map_values(|e: Seq<char>| name@ + seq!['.'] + e));
        }
        i += 1;
    }
    proof {
        assert(icon_exts().take(4) =~= icon_exts());
    }
    out
}

fn strip_symbolic(name: &str) -> (r: String)
    ensures
        r@ == names_to_try(name@)[1],
{
    let n = chars_of(name);
    let suffix = chars_of("-symbolic");
    proof {
        reveal_strlit("-symbolic");
    }
    if crate::text::ends_with(&n, &suffix) {
        string_of(&slice_chars(&n, 0, n.len() - 9))
    } else {
        string_of(&n)
    }
}

fn append_all(out: &mut Vec<String>, more: Vec<String>)
    ensures
        strings_view(final(out)@) == strings_view(old(out)@) + strings_view(more@),
{
    let mut m = more;
    let ghost a = strings_view(out@);
    let ghost b = strings_view(m@);
    out.append(&mut m);
    proof {
        assert(strings_view(out@) =~= a + b);
    }
}

/// The paths to probe for an icon name, in order (see `probe_order`); the
/// first that exists is the icon.
pub fn icon_probe_paths(name: &str, dirs: &Vec<String>, pixmaps: &Vec<String>) -> (r: Vec<String>)
    ensures
        strings_view(r@) == probe_order(name@, strings_view(dirs@), strings_view(pixmaps@)),
{
    let second = strip_symbolic(name);
    let sz = size_dirs();
    let cats = category_dirs();
    let f1 = file_names_of(name);
    let f2 = file_names_of(second.as_str());
    let by_size = join_all(dirs, &sz);
    let by_cat = join_all(&by_size, &cats);
    let mut out = join_all(&by_cat, &f1);
    append_all(&mut out, join_all(&by_cat, &f2));
    append_all(&mut out, join_all(pixmaps, &f1));
    append_all(&mut out, join_all(pixmaps, &f2));
    proof {
        assert(names_to_try(name@)[0] == name@);
    }
    out
}

} // verus!
