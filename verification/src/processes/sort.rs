//! The process table's sort column and its on-disk preference text.
//!
//! The preference is two lines, `sort=<Key>` and `descending=<bool>`. Reading
//! takes the last line of each kind and refuses a text that lacks either.
use vstd::prelude::*;
use crate::text::{
    chars_eq_lit, chars_of, has_prefix, lines, lines_of, push_lit, slice_chars, split_char,
    starts_with_lit, strip_cr, trim, trim_chars,
};

verus! {

/// The column the process table is ordered by.
#[derive(Clone, Copy, Debug, PartialEq, Eq, Structural)]
pub enum SortKey {
    Name,
    Pid,
    User,
    Cpu,
    Mem,
    Disk,
    Status,
}

impl Default for SortKey {
    fn default() -> (r: Self)
        ensures
            r == SortKey::Cpu,
    {
        SortKey::Cpu
    }
}

/// The name a key is stored under.
pub open spec fn key_name(k: SortKey) -> Seq<char> {
    match k {
        SortKey::Name => "Name"@,
        SortKey::Pid => "Pid"@,
        SortKey::User => "User"@,
        SortKey::Cpu => "Cpu"@,
        SortKey::Mem => "Mem"@,
        SortKey::Disk => "Disk"@,
        SortKey::Status => "Status"@,
    }
}

/// The key stored under a name; names are case-sensitive.
pub open spec fn key_of_name(s: Seq<char>) -> Option<SortKey> {
    if s == "Name"@ {
        Some(SortKey::Name)
    } else if s == "Pid"@ {
        Some(SortKey::Pid)
    } else if s == "User"@ {
        Some(SortKey::User)
    } else if s == "Cpu"@ {
        Some(SortKey::Cpu)
    } else if s == "Mem"@ {
        Some(SortKey::Mem)
    } else if s == "Disk"@ {
        Some(SortKey::Disk)
    } else if s == "Status"@ {
        Some(SortKey::Status)
    } else {
        None
    }
}

impl SortKey {
    pub fn as_str(self) -> (r: &'static str)
        ensures
            r@ == key_name(self),
    {
        match self {
            SortKey::Name => "Name",
            SortKey::Pid => "Pid",
            SortKey::User => "User",
            SortKey::Cpu => "Cpu",
            SortKey::Mem => "Mem",
            SortKey::Disk => "Disk",
            SortKey::Status => "Status",
        }
    }

    pub fn from_str(s: &str) -> (r: Option<SortKey>)
        ensures
            r == key_of_name(s@),
    {
        let v = chars_of(s);
        if chars_eq_lit(&v, "Name") {
            Some(SortKey::Name)
        } else if chars_eq_lit(&v, "Pid") {
            Some(SortKey::Pid)
        } else if chars_eq_lit(&v, "User") {
            Some(SortKey::User)
        } else if chars_eq_lit(&v, "Cpu") {
            Some(SortKey::Cpu)
        } else if chars_eq_lit(&v, "Mem") {
            Some(SortKey::Mem)
        } else if chars_eq_lit(&v, "Disk") {
            Some(SortKey::Disk)
        } else if chars_eq_lit(&v, "Status") {
            Some(SortKey::Status)
        } else {
            None
        }
    }
}

/// Every key reads back from the name it is stored under.
pub proof fn lemma_sort_key_roundtrip(k: SortKey)
    ensures
        key_of_name(key_name(k)) == Some(k),
{
    reveal_strlit("Name");
    reveal_strlit("Pid");
    reveal_strlit("User");
    reveal_strlit("Cpu");
    reveal_strlit("Mem");
    reveal_strlit("Disk");
    reveal_strlit("Status");
    let n = key_name(k);
    assert(n != "Name"@ ==> k != SortKey::Name);
    match k {
        SortKey::Name => {},
        SortKey::Pid => {
            assert(n[0] != "Name"@[0]);
        },
        SortKey::User => {
            assert(n[0] != "Name"@[0] && n[0] != "Pid"@[0]);
        },
        SortKey::Cpu => {
            assert(n[0] != "Name"@[0] && n[0] != "Pid"@[0] && n[0] != "User"@[0]);
        },
        SortKey::Mem => {
            assert(n[0] != "Name"@[0] && n[0] != "Pid"@[0] && n[0] != "User"@[0] && n[0]
                != "Cpu"@[0]);
        },
        SortKey::Disk => {
            assert(n[0] != "Name"@[0] && n[0] != "Pid"@[0] && n[0] != "User"@[0] && n[0]
                != "Cpu"@[0] && n[0] != "Mem"@[0]);
        },
        SortKey::Status => {
            assert(n[0] != "Name"@[0] && n[0] != "Pid"@[0] && n[0] != "User"@[0] && n[0]
                != "Cpu"@[0] && n[0] != "Mem"@[0] && n[0] != "Disk"@[0]);
        },
    }
}

// ---------------------------------------------------------------------------
// The preference text.
// ---------------------------------------------------------------------------

pub open spec fn bool_text(b: bool) -> Seq<char> {
    if b {
        "true"@
    } else {
        "false"@
    }
}

/// What is written: `sort=<Key>\ndescending=<bool>\n`.
pub open spec fn prefs_text(k: SortKey, descending: bool) -> Seq<char> {
    "sort="@ + key_name(k) + "\ndescending="@ + bool_text(descending) + "\n"@
}

/// What one line does to the pair read so far.
pub open spec fn prefs_step(
    line: Seq<char>,
    acc: (Option<SortKey>, Option<bool>),
) -> (Option<SortKey>, Option<bool>) {
    if has_prefix(line, "sort="@) {
        (key_of_name(trim(line.skip(5))), acc.1)
    } else if has_prefix(line, "descending="@) {
        let v = trim(line.skip(11));
        (acc.0, if v == "true"@ {
            Some(true)
        } else if v == "false"@ {
            Some(false)
        } else {
            None
        })
    } else {
        acc
    }
}

pub open spec fn prefs_scan(ls: Seq<Seq<char>>) -> (Option<SortKey>, Option<bool>)
    decreases ls.len(),
{
    if ls.len() == 0 {
        (None, None)
    } else {
        prefs_step(ls.last(), prefs_scan(ls.drop_last()))
    }
}

proof fn lemma_scan_missing(ls: Seq<Seq<char>>)
    ensures
        (forall|i: int| 0 <= i < ls.len() ==> !has_prefix(#[trigger] ls[i], "sort="@)) ==> prefs_scan(ls).0 is None,
        (forall|i: int| 0 <= i < ls.len() ==> !has_prefix(#[trigger] ls[i], "descending="@)) ==> prefs_scan(ls).1 is None,
    decreases ls.len(),
{
    if ls.len() > 0 {
        let init = ls.drop_last();
        lemma_scan_missing(init);
        assert forall|i: int| 0 <= i < init.len() implies #[trigger] init[i] == ls[i] by {}
        assert(ls.last() == ls[ls.len() - 1]);
    }
}

/// A half-saved text, with no `sort=` line or no `descending=` line, holds
/// no preference: one half is never applied alone.
pub proof fn lemma_half_saved_prefs(s: Seq<char>)
    requires
        (forall|i: int| 0 <= i < lines(s).len() ==> !has_prefix(#[trigger] lines(s)[i], "sort="@)) || (forall|i: int|
            0 <= i < lines(s).len() ==> !has_prefix(#[trigger] lines(s)[i], "descending="@)),
    ensures
        prefs_of(s) is None,
{
    lemma_scan_missing(lines(s));
}

/// The preference a text holds: both lines must have been read, the last of
/// each kind winning.
pub open spec fn prefs_of(s: Seq<char>) -> Option<(SortKey, bool)> {
    let (k, d) = prefs_scan(lines(s));
    match (k, d) {
        (Some(k), Some(d)) => Some((k, d)),
        _ => None,
    }
}

pub fn render_sort_prefs(sort: SortKey, descending: bool) -> (r: String)
    ensures
        r@ == prefs_text(sort, descending),
{
    let mut out = String::new();
    push_lit(&mut out, "sort=");
    push_lit(&mut out, sort.as_str());
    push_lit(&mut out, "\ndescending=");
    if descending {
        push_lit(&mut out, "true");
    } else {
        push_lit(&mut out, "false");
    }
    push_lit(&mut out, "\n");
    out
}

fn step_line(
    line: &Vec<char>,
    sort: Option<SortKey>,
    desc: Option<bool>,
) -> (r: (Option<SortKey>, Option<bool>))
    ensures
        r == prefs_step(line@, (sort, desc)),
{
    proof {
        reveal_strlit("sort=");
        reveal_strlit("descending=");
    }
    if starts_with_lit(line, "sort=") {
        let rest = slice_chars(line, 5, line.len());
        let t = trim_chars(&rest);
        let s = crate::text::string_of(&t);
        proof {
            assert(rest@ =~= line@.skip(5));
        }
        (SortKey::from_str(s.as_str()), desc)
    } else if starts_with_lit(line, "descending=") {
        let rest = slice_chars(line, 11, line.len());
        let t = trim_chars(&rest);
        proof {
            assert(rest@ =~= line@.skip(11));
        }
        let d = if chars_eq_lit(&t, "true") {
            Some(true)
        } else if chars_eq_lit(&t, "false") {
            Some(false)
        } else {
            None
        };
        (sort, d)
    } else {
        (sort, desc)
    }
}

/// Reads the preference text back; `None` unless both lines are there and
/// well formed.
pub fn parse_sort_prefs(content: &str) -> (r: Option<(SortKey, bool)>)
    ensures
        r == prefs_of(content@),
{
    let chars = chars_of(content);
    let ls = lines_of(&chars);
    let mut sort: Option<SortKey> = None;
    let mut desc: Option<bool> = None;
    let mut i: usize = 0;
    while i < ls.len()
        invariant
            i <= ls@.len() == lines(content@).len(),
            chars@ == content@,
            forall|k: int| 0 <= k < ls@.len() ==> #[trigger] ls@[k]@ == lines(content@)[k],
            (sort, desc) == prefs_scan(lines(content@).take(i as int)),
        decreases ls.len() - i,
    {
        let (s, d) = step_line(&ls[i], sort, desc);
        proof {
            let all = lines(content@);
            assert(all.take(i + 1).drop_last() =~= all.take(i as int));
            assert(all.take(i + 1).last() == ls@[i as int]@);
        }
        sort = s;
        desc = d;
        i += 1;
    }
    proof {
        assert(lines(content@).take(ls@.len() as int) =~= lines(content@));
    }
    match (sort, desc) {
        (Some(k), Some(d)) => Some((k, d)),
        _ => None,
    }
}

// ---------------------------------------------------------------------------
// The round trip.
// ---------------------------------------------------------------------------

proof fn lemma_no_newline(s: Seq<char>)
    requires
        s == "Name"@ || s == "Pid"@ || s == "User"@ || s == "Cpu"@ || s == "Mem"@ || s
            == "Disk"@ || s == "Status"@ || s == "true"@ || s == "false"@ || s == "sort="@ || s
            == "descending="@,
    ensures
        !s.contains('\n'),
        s.len() > 0,
        s.last() != '\r',
        trim(s) == s,
{
    reveal_strlit("Name");
    reveal_strlit("Pid");
    reveal_strlit("User");
    reveal_strlit("Cpu");
    reveal_strlit("Mem");
    reveal_strlit("Disk");
    reveal_strlit("Status");
    reveal_strlit("true");
    reveal_strlit("false");
    reveal_strlit("sort=");
    reveal_strlit("descending=");
    assert(!s.contains('\n')) by {
        if s.contains('\n') {
            let k = choose|k: int| 0 <= k < s.len() && s[k] == '\n';
        }
    }
    assert(trim(s) == s) by {
        reveal_with_fuel(crate::text::trim_start, 2);
        reveal_with_fuel(crate::text::trim_end, 2);
    }
}

/// A preference read back from the text written for it is the same
/// preference.
pub proof fn lemma_sort_prefs_roundtrip(k: SortKey, descending: bool)
    ensures
        prefs_of(prefs_text(k, descending)) == Some((k, descending)),
{
    reveal_strlit("sort=");
    reveal_strlit("\ndescending=");
    reveal_strlit("descending=");
    reveal_strlit("\n");
    reveal_strlit("true");
    reveal_strlit("false");
    let name = key_name(k);
    let b = bool_text(descending);
    let first = "sort="@ + name;
    let second = "descending="@ + b;
    lemma_no_newline(name);
    lemma_no_newline(b);
    lemma_no_newline("sort="@);
    lemma_no_newline("descending="@);
    assert(!first.contains('\n')) by {
        if first.contains('\n') {
            let j = choose|j: int| 0 <= j < first.len() && first[j] == '\n';
            if j < 5 {
                assert("sort="@[j] == '\n');
            } else {
                assert(name[j - 5] == '\n');
            }
        }
    }
    assert(!second.contains('\n')) by {
        if second.contains('\n') {
            let j = choose|j: int| 0 <= j < second.len() && second[j] == '\n';
            if j < 11 {
                assert("descending="@[j] == '\n');
            } else {
                assert(b[j - 11] == '\n');
            }
        }
    }
    let text = prefs_text(k, descending);
    assert(text =~= first.push('\n') + (second.push('\n') + Seq::<char>::empty()));
    crate::text::lemma_split_concat(first, second.push('\n') + Seq::<char>::empty(), '\n');
    crate::text::lemma_split_concat(second, Seq::<char>::empty(), '\n');
    assert(split_char(Seq::<char>::empty(), '\n') == seq![Seq::<char>::empty()]);
    let p = split_char(text, '\n');
    assert(p =~= seq![first, second, Seq::<char>::empty()]);
    assert(strip_cr(first) == first) by {
        assert(first.last() == name.last());
    }
    assert(strip_cr(second) == second) by {
        assert(second.last() == b.last());
    }
    let ls = lines(text);
    assert(ls =~= seq![first, second]);
    assert(has_prefix(first, "sort="@)) by {
        assert(first.subrange(0, 5) =~= "sort="@);
    }
    assert(first.skip(5) =~= name);
    assert(!has_prefix(second, "sort="@)) by {
        assert(second[0] == 'd');
        assert("sort="@[0] == 's');
        if has_prefix(second, "sort="@) {
            assert(second.subrange(0, 5)[0] == second[0]);
        }
    }
    assert(has_prefix(second, "descending="@)) by {
        assert(second.subrange(0, 11) =~= "descending="@);
    }
    assert(second.skip(11) =~= b);
    lemma_sort_key_roundtrip(k);
    assert(ls.drop_last() =~= seq![first]);
    assert(seq![first].drop_last() =~= Seq::<Seq<char>>::empty());
    assert(prefs_scan(Seq::<Seq<char>>::empty()) == (None::<SortKey>, None::<bool>));
    assert(prefs_scan(seq![first]) == (Some(k), None::<bool>));
    assert(trim(second.skip(11)) == b);
    assert(prefs_scan(ls) == (Some(k), Some(descending)));
}

} // verus!
