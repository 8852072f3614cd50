//! What `Path::file_name` and `Path::extension` give for a Unix path string.
//!
//! A path is split at `/`; empty pieces and `.` pieces are not components
//! (`Path::components` drops repeated separators and `.`); the file name is the
//! last component unless that component is `..`.
use vstd::prelude::*;
use crate::text::{clone_chars, slice_chars, split_char, split_chars};

verus! {

/// Whether a piece between `/` separators is a path component.
pub open spec fn is_component(p: Seq<char>) -> bool {
    p.len() > 0 && p != seq!['.']
}

/// The last piece that is a component.
pub open spec fn last_component(ps: Seq<Seq<char>>) -> Option<Seq<char>>
    decreases ps.len(),
{
    if ps.len() == 0 {
        None
    } else if is_component(ps.last()) {
        Some(ps.last())
    } else {
        last_component(ps.drop_last())
    }
}

/// `Path::new(s).file_name()`.
pub open spec fn file_name(s: Seq<char>) -> Option<Seq<char>> {
    match last_component(split_char(s, '/')) {
        Some(c) => if c == seq!['.', '.'] {
            None
        } else {
            Some(c)
        },
        None => None,
    }
}

/// `file_name(s)`, or the empty string when there is none.
pub open spec fn file_name_or_empty(s: Seq<char>) -> Seq<char> {
    match file_name(s) {
        Some(f) => f,
        None => Seq::empty(),
    }
}

/// Index of the last `c` in `s`, or -1.
pub open spec fn rfind_char(s: Seq<char>, c: char) -> int
    decreases s.len(),
{
    if s.len() == 0 {
        -1
    } else if s.last() == c {
        s.len() - 1
    } else {
        rfind_char(s.drop_last(), c)
    }
}

/// The extension of a file name: the text after its last `.`, unless the
/// name has no `.` or its only leading part before the last `.` is empty.
pub open spec fn name_extension(f: Seq<char>) -> Option<Seq<char>> {
    let i = rfind_char(f, '.');
    if i <= 0 {
        None
    } else {
        Some(f.subrange(i + 1, f.len() as int))
    }
}

/// `Path::new(s).extension()`.
pub open spec fn extension(s: Seq<char>) -> Option<Seq<char>> {
    match file_name(s) {
        Some(f) => name_extension(f),
        None => None,
    }
}

pub fn file_name_of(s: &Vec<char>) -> (r: Option<Vec<char>>)
    ensures
        match r {
            Some(f) => file_name(s@) == Some(f@),
            None => file_name(s@) is None,
        },
{
    let parts = split_chars(s, '/');
    let ghost ps = split_char(s@, '/');
    let mut j = parts.len();
    proof {
        assert(ps.take(j as int) =~= ps);
    }
    while j > 0
        invariant
            j <= parts@.len() == ps.len(),
            ps == split_char(s@, '/'),
            forall|k: int| 0 <= k < parts@.len() ==> #[trigger] parts@[k]@ == ps[k],
            last_component(ps) == last_component(ps.take(j as int)),
        decreases j,
    {
        let p = &parts[j - 1];
        proof {
            assert(parts@[j - 1]@ == ps[j - 1]);
            assert(ps.take(j as int).last() == ps[j - 1]);
            assert(ps.take(j as int).drop_last() =~= ps.take(j - 1));
        }
        let dot = p.len() == 1 && p[0] == '.';
        let comp = p.len() > 0 && !dot;
        proof {
            if p@.len() == 1 {
                assert(dot == (p@ =~= seq!['.']));
            } else {
                assert(p@.len() != seq!['.'].len());
            }
            assert(comp == is_component(ps[j - 1]));
        }
        if comp {
            let dotdot = p.len() == 2 && p[0] == '.' && p[1] == '.';
            proof {
                assert(last_component(ps) == Some(ps[j - 1]));
                if dotdot {
                    assert(p@ =~= seq!['.', '.']);
                } else if p@ == seq!['.', '.'] {
                    assert(p@[0] == '.' && p@[1] == '.');
                }
            }
            if dotdot {
                return None;
            }
            let f = clone_chars(p);
            return Some(f);
        }
        j -= 1;
    }
    None
}

pub fn rfind(s: &Vec<char>, c: char) -> (r: Option<usize>)
    ensures
        match r {
            Some(i) => i == rfind_char(s@, c) && i < s.len(),
            None => rfind_char(s@, c) == -1,
        },
{
    let mut j = s.len();
    proof {
        assert(s@.take(j as int) =~= s@);
    }
    while j > 0
        invariant
            j <= s.len(),
            rfind_char(s@, c) == rfind_char(s@.take(j as int), c),
        decreases j,
    {
        proof {
            assert(s@.take(j as int).drop_last() =~= s@.take(j - 1));
        }
        if s[j - 1] == c {
            return Some(j - 1);
        }
        j -= 1;
    }
    None
}

pub fn extension_of(s: &Vec<char>) -> (r: Option<Vec<char>>)
    ensures
        match r {
            Some(e) => extension(s@) == Some(e@),
            None => extension(s@) is None,
        },
{
    match file_name_of(s) {
        Some(f) => {
            match rfind(&f, '.') {
                Some(i) => {
                    if i == 0 {
                        None
                    } else {
                        Some(slice_chars(&f, i + 1, f.len()))
                    }
                },
                None => None,
            }
        },
        None => None,
    }
}

} // verus!
