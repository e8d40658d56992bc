//! Unix path syntax as `std::path::Path` reads it: the final component of a
//! path, its extension, and joining two paths.
use vstd::prelude::*;

use crate::text::{chars_of, lemma_rfind_char, lemma_split_char_len, lemma_split_char_step, rfind_char, rfind_in, split_char};

verus! {

/// The last component of `parts` that is neither empty nor `.`.
pub open spec fn last_component(parts: Seq<Seq<char>>) -> Option<Seq<char>>
    decreases parts.len(),
{
    if parts.len() == 0 {
        None
    } else if parts.last().len() == 0 || parts.last() == seq!['.'] {
        last_component(parts.drop_last())
    } else {
        Some(parts.last())
    }
}

/// `Path::file_name`: the final component of the path, unless the path
/// has none or ends in `..`.
pub open spec fn file_name(p: Seq<char>) -> Option<Seq<char>> {
    match last_component(split_char(p, '/')) {
        Some(c) => if c == seq!['.', '.'] {
            None
        } else {
            Some(c)
        },
        None => None,
    }
}

/// `Path::extension` of a file name: the part after the last `.`, unless
/// there is no `.` or the only `.` starts the name.
pub open spec fn name_extension(name: Seq<char>) -> Option<Seq<char>> {
    match rfind_char(name, '.') {
        Some(d) => if d > 0 {
            Some(name.skip(d + 1))
        } else {
            None
        },
        None => None,
    }
}

/// `Path::extension`.
pub open spec fn path_extension(p: Seq<char>) -> Option<Seq<char>> {
    match file_name(p) {
        Some(n) => name_extension(n),
        None => None,
    }
}

/// Is `v[lo..hi]` a component that `Path` skips (empty or `.`)?
fn skipped_component(v: &Vec<char>, lo: usize, hi: usize) -> (r: bool)
    requires
        lo <= hi <= v.len(),
    ensures
        r == (v@.subrange(lo as int, hi as int).len() == 0 || v@.subrange(lo as int, hi as int)
            == seq!['.']),
{
    if lo == hi {
        return true;
    }
    if hi - lo == 1 && v[lo] == '.' {
        assert(v@.subrange(lo as int, hi as int) =~= seq!['.']);
        return true;
    }
    assert(seq!['.'].len() == 1);
    if hi - lo == 1 {
        assert(v@.subrange(lo as int, hi as int)[0] == v@[lo as int]);
        assert(seq!['.'][0] == '.');
    }
    false
}

/// Bounds, in `p`'s characters, of `Path::file_name(p)`.
pub fn file_name_bounds(v: &Vec<char>) -> (r: Option<(usize, usize)>)
    ensures
        match r {
            Some((a, b)) => a <= b <= v.len() && file_name(v@) == Some(v@.subrange(a as int, b as int)),
            None => file_name(v@) is None,
        },
{
    let n = v.len();
    let mut last: Option<(usize, usize)> = None;
    let mut start: usize = 0;
    let mut i: usize = 0;
    assert(v@.take(0) =~= Seq::<char>::empty());
    while i < n
        invariant
            start <= i <= n == v.len(),
            split_char(v@.take(i as int), '/').last() == v@.subrange(start as int, i as int),
            match last {
                Some((a, b)) => a <= b <= n && last_component(split_char(v@.take(i as int), '/').drop_last())
                    == Some(v@.subrange(a as int, b as int)),
                None => last_component(split_char(v@.take(i as int), '/').drop_last()) is None,
            },
        decreases n - i,
    {
        proof {
            lemma_split_char_step(v@, i as int, start as int, '/');
            lemma_split_char_len(v@.take(i as int), '/');
        }
        if v[i] == '/' {
            let ghost parts = split_char(v@.take(i as int), '/');
            proof {
                assert(parts.drop_last().push(parts.last()) =~= parts);
                assert(parts.push(Seq::<char>::empty()).drop_last() =~= parts);
            }
            if !skipped_component(v, start, i) {
                last = Some((start, i));
            }
            start = i + 1;
            assert(v@.subrange(start as int, (i + 1) as int) =~= Seq::<char>::empty());
        } else {
            proof {
                let parts = split_char(v@.take(i as int), '/');
                let np = parts.update(parts.len() - 1, v@.subrange(start as int, i + 1));
                assert(np.drop_last() =~= parts.drop_last());
            }
        }
        i = i + 1;
    }
    proof {
        assert(v@.take(n as int) =~= v@);
        let parts = split_char(v@, '/');
        lemma_split_char_len(v@, '/');
        assert(parts.drop_last().push(parts.last()) =~= parts);
    }
    if !skipped_component(v, start, n) {
        last = Some((start, n));
    }
    assert(match last {
        Some((a, b)) => a <= b <= n && last_component(split_char(v@, '/')) == Some(v@.subrange(a as int, b as int)),
        None => last_component(split_char(v@, '/')) is None,
    });
    assert(seq!['.', '.'].len() == 2);
    match last {
        Some((a, b)) => {
            if b - a == 2 && v[a] == '.' && v[a + 1] == '.' {
                assert(v@.subrange(a as int, b as int) =~= seq!['.', '.']);
                None
            } else {
                if b - a == 2 {
                    assert(v@.subrange(a as int, b as int)[0] == v@[a as int]);
                    assert(v@.subrange(a as int, b as int)[1] == v@[a + 1]);
                    assert(seq!['.', '.'][0] == '.' && seq!['.', '.'][1] == '.');
                }
                Some((a, b))
            }
        },
        None => None,
    }
}

/// Bounds, in `v`'s characters, of the extension of the name `v[a..b]`.
pub fn extension_bounds(v: &Vec<char>, a: usize, b: usize) -> (r: Option<(usize, usize)>)
    requires
        a <= b <= v.len(),
    ensures
        match r {
            Some((x, y)) => a <= x <= y == b && name_extension(v@.subrange(a as int, b as int))
                == Some(v@.subrange(x as int, y as int)),
            None => name_extension(v@.subrange(a as int, b as int)) is None,
        },
{
    let ghost name = v@.subrange(a as int, b as int);
    let mut k = b;
    assert(name.take((k - a) as int) =~= name);
    while k > a
        invariant
            a <= k <= b <= v.len(),
            name == v@.subrange(a as int, b as int),
            rfind_char(name, '.') == rfind_char(name.take((k - a) as int), '.'),
        decreases k - a,
    {
        if v[k - 1] == '.' {
            assert(name.take((k - a) as int).last() == '.');
            if k - 1 > a {
                assert(name.skip(k - a) =~= v@.subrange(k as int, b as int));
                return Some((k, b));
            } else {
                return None;
            }
        }
        assert(name.take((k - a) as int).drop_last() =~= name.take((k - 1 - a) as int));
        k = k - 1;
    }
    None
}

/// `Path::new(base).join(rel)` on Unix: `rel` if it is absolute, otherwise
/// `base` and `rel` with a `/` between them unless `base` is empty or
/// already ends in `/`.
pub open spec fn path_join(base: Seq<char>, rel: Seq<char>) -> Seq<char> {
    if rel.len() > 0 && rel[0] == '/' {
        rel
    } else if base.len() > 0 && base.last() != '/' {
        base + seq!['/'] + rel
    } else {
        base + rel
    }
}

/// `Path::new(base).join(rel)`, as a string.
pub fn join_paths(base: &str, rel: &str) -> (r: String)
    ensures
        r@ == path_join(base@, rel@),
{
    let bv = chars_of(base);
    let rv = chars_of(rel);
    proof {
        reveal_strlit("/");
    }
    if rv.len() > 0 && rv[0] == '/' {
        return rel.to_string();
    }
    let mut out = base.to_string();
    if bv.len() > 0 && bv[bv.len() - 1] != '/' {
        out.append("/");
    }
    out.append(rel);
    out
}

} // verus!
