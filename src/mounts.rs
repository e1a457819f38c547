//! Which mounts lie below a directory, and the order to unmount them in.
use vstd::prelude::*;
use crate::text::{char_is_whitespace, is_whitespace};

verus! {

/// Length of the run of non-whitespace characters that starts `s`.
pub open spec fn word_end(s: Seq<char>) -> nat
    decreases s.len(),
{
    if s.len() == 0 || is_whitespace(s[0]) {
        0
    } else {
        1 + word_end(s.drop_first())
    }
}

proof fn lemma_word_end(s: Seq<char>)
    ensures
        word_end(s) <= s.len(),
        s.len() > 0 && !is_whitespace(s[0]) ==> word_end(s) >= 1,
        forall|j: int| 0 <= j < word_end(s) ==> !is_whitespace(#[trigger] s[j]),
        word_end(s) < s.len() ==> is_whitespace(s[word_end(s) as int]),
    decreases s.len(),
{
    if s.len() > 0 && !is_whitespace(s[0]) {
        lemma_word_end(s.drop_first());
        assert forall|j: int| 0 <= j < word_end(s) implies !is_whitespace(#[trigger] s[j]) by {
            if j > 0 {
                assert(s[j] == s.drop_first()[j - 1]);
            }
        }
    }
}

/// The whitespace-separated words of a line, as `str::split_whitespace`
/// gives them.
pub open spec fn words(s: Seq<char>) -> Seq<Seq<char>>
    decreases s.len(),
{
    if s.len() == 0 {
        Seq::empty()
    } else if is_whitespace(s[0]) {
        words(s.drop_first())
    } else {
        let k = word_end(s);
        if 0 < k <= s.len() {
            seq![s.take(k as int)] + words(s.skip(k as int))
        } else {
            Seq::empty()
        }
    }
}

/// The word at position `n` of a line, if it has that many.
pub fn nth_word(line: &str, n: usize) -> (r: Option<String>)
    ensures
        match r {
            Some(w) => n < words(line@).len() && w@ == words(line@)[n as int],
            None => n >= words(line@).len(),
        },
{
    let len = line.unicode_len();
    let mut pos: usize = 0;
    let mut count: usize = 0;
    assert(line@.skip(0) =~= line@);
    while pos < len
        invariant
            pos <= len,
            len == line@.len(),
            count <= n,
            words(line@).len() == count + words(line@.skip(pos as int)).len(),
            forall|j: int| 0 <= j < words(line@.skip(pos as int)).len() ==>
                #[trigger] words(line@.skip(pos as int))[j] == words(line@)[count + j],
        decreases len - pos,
    {
        let ghost rest = line@.skip(pos as int);
        if char_is_whitespace(line.get_char(pos)) {
            assert(rest.drop_first() =~= line@.skip(pos as int + 1));
            pos += 1;
        } else {
            let mut k: usize = pos;
            while k < len && !char_is_whitespace(line.get_char(k))
                invariant
                    pos <= k <= len,
                    len == line@.len(),
                    forall|j: int| pos <= j < k ==> !is_whitespace(#[trigger] line@[j]),
                decreases len - k,
            {
                k += 1;
            }
            proof {
                lemma_word_end(rest);
                lemma_word_end_is(rest, (k - pos) as int);
                assert(rest.take((k - pos) as int) =~= line@.subrange(pos as int, k as int));
                assert(rest.skip((k - pos) as int) =~= line@.skip(k as int));
                assert(words(rest) == seq![rest.take((k - pos) as int)] + words(line@.skip(k as int)));
            }
            if count == n {
                let w = line.substring_char(pos, k);
                assert(words(rest)[0] == w@);
                return Some(String::from_str(w));
            }
            proof {
                let tail = words(line@.skip(k as int));
                assert forall|j: int| 0 <= j < tail.len() implies #[trigger] tail[j] == words(line@)[count + 1 + j] by {
                    assert(words(rest)[j + 1] == tail[j]);
                }
            }
            count += 1;
            pos = k;
        }
    }
    assert(line@.skip(len as int) =~= Seq::<char>::empty());
    None
}

proof fn lemma_word_end_is(s: Seq<char>, k: int)
    requires
        0 <= k <= s.len(),
        forall|j: int| 0 <= j < k ==> !is_whitespace(#[trigger] s[j]),
        k == s.len() || is_whitespace(s[k]),
    ensures
        word_end(s) == k,
    decreases k,
{
    if k > 0 {
        lemma_word_end_is(s.drop_first(), k - 1);
    }
}

/// `p` is `t` or lies below it, comparing whole path components.
pub open spec fn is_under(p: Seq<char>, t: Seq<char>) -> bool {
    p == t || (p.len() > t.len() && p.take(t.len() as int) == t && ((t.len() > 0 && t.last() == '/')
        || p[t.len() as int] == '/'))
}

/// Whether a path is a target directory or lies below it.
pub fn path_is_under(p: &str, t: &str) -> (r: bool)
    ensures
        r == is_under(p@, t@),
{
    let lp = p.unicode_len();
    let lt = t.unicode_len();
    if lp < lt {
        return false;
    }
    let head = p.substring_char(0, lt);
    assert(head@ =~= p@.take(lt as int));
    if !crate::text::str_eq(head, t) {
        proof {
            if p@ == t@ {
                assert(p@.take(lt as int) =~= p@);
            }
        }
        return false;
    }
    if lp == lt {
        assert(p@ =~= t@);
        return true;
    }
    (lt > 0 && t.get_char(lt - 1) == '/') || p.get_char(lt) == '/'
}

/// Number of components of a path: runs of characters other than `/`.
pub open spec fn depth(p: Seq<char>) -> nat
    decreases p.len(),
{
    if p.len() == 0 {
        0
    } else {
        depth(p.drop_last()) + if p.last() != '/' && (p.len() == 1 || p[p.len() - 2] == '/') {
            1nat
        } else {
            0nat
        }
    }
}

/// Counts the components of a path.
pub fn path_depth(p: &str) -> (r: usize)
    ensures
        r == depth(p@),
{
    let len = p.unicode_len();
    let mut d: usize = 0;
    let mut i: usize = 0;
    while i < len
        invariant
            i <= len,
            len == p@.len(),
            d == depth(p@.take(i as int)),
            d <= i,
        decreases len - i,
    {
        let ghost t = p@.take(i as int + 1);
        assert(t.drop_last() =~= p@.take(i as int));
        let c = p.get_char(i);
        if c != '/' && (i == 0 || p.get_char(i - 1) == '/') {
            d += 1;
        }
        i += 1;
    }
    assert(p@.take(len as int) =~= p@);
    d
}

/// Where `x` goes in a list ordered deepest first: after every path at
/// least as deep.
pub open spec fn insert_position(sorted: Seq<Seq<char>>, x: Seq<char>) -> int
    decreases sorted.len(),
{
    if sorted.len() == 0 {
        0
    } else if depth(sorted[0]) < depth(x) {
        0
    } else {
        1 + insert_position(sorted.drop_first(), x)
    }
}

/// Paths ordered deepest first; paths of equal depth keep their order.
pub open spec fn deepest_first(s: Seq<Seq<char>>) -> Seq<Seq<char>>
    decreases s.len(),
{
    if s.len() == 0 {
        s
    } else {
        let sorted = deepest_first(s.drop_last());
        sorted.insert(insert_position(sorted, s.last()), s.last())
    }
}

proof fn lemma_insert_position(sorted: Seq<Seq<char>>, x: Seq<char>, k: int)
    requires
        0 <= k <= sorted.len(),
        forall|j: int| 0 <= j < k ==> depth(#[trigger] sorted[j]) >= depth(x),
        k == sorted.len() || depth(sorted[k]) < depth(x),
    ensures
        insert_position(sorted, x) == k,
    decreases k,
{
    if k > 0 {
        lemma_insert_position(sorted.drop_first(), x, k - 1);
    }
}

/// The mount points that mountinfo lines list: the fifth word of each line
/// that has one, kept where it lies below `target`.
pub open spec fn mounts_listed(lines: Seq<Seq<char>>, target: Seq<char>) -> Seq<Seq<char>>
    decreases lines.len(),
{
    if lines.len() == 0 {
        Seq::empty()
    } else {
        let rest = mounts_listed(lines.drop_last(), target);
        let ws = words(lines.last());
        if ws.len() >= 5 && is_under(ws[4], target) {
            rest.push(ws[4])
        } else {
            rest
        }
    }
}

/// The mounts at or below `target` among the lines of `/proc/self/mountinfo`,
/// deepest first so that children are unmounted before their parents.
#[verifier::loop_isolation(false)]
pub fn mounts_under(lines: &Vec<String>, target: &str) -> (r: Vec<String>)
    ensures
        r@.map_values(|s: String| s@) == deepest_first(
            mounts_listed(lines@.map_values(|s: String| s@), target@),
        ),
{
    let ghost ls = lines@.map_values(|s: String| s@);
    let mut out: Vec<String> = Vec::new();
    let mut depths: Vec<usize> = Vec::new();
    let mut i: usize = 0;
    while i < lines.len()
        invariant
            i <= lines.len(),
            ls == lines@.map_values(|s: String| s@),
            out@.map_values(|s: String| s@) == deepest_first(mounts_listed(ls.take(i as int), target@)),
            depths@.len() == out@.len(),
            forall|j: int| 0 <= j < out@.len() ==> depths@[j] == depth(#[trigger] out@[j]@),
        decreases lines.len() - i,
    {
        let ghost t = ls.take(i as int + 1);
        assert(t.drop_last() =~= ls.take(i as int));
        assert(t.last() == lines@[i as int]@);
        let ghost prev_listed = mounts_listed(ls.take(i as int), target@);
        match nth_word(lines[i].as_str(), 4) {
            None => {
                assert(mounts_listed(t, target@) == prev_listed);
            },
            Some(mp) => {
                if !path_is_under(mp.as_str(), target) {
                    assert(mounts_listed(t, target@) == prev_listed);
                }
                if path_is_under(mp.as_str(), target) {
                    assert(mounts_listed(t, target@) == prev_listed.push(mp@));
                    let d = path_depth(mp.as_str());
                    let ghost sorted = out@.map_values(|s: String| s@);
                    let mut k: usize = 0;
                    while k < out.len() && depths[k] >= d
                        invariant
                            k <= out@.len(),
                            depths@.len() == out@.len(),
                            sorted == out@.map_values(|s: String| s@),
                            forall|j: int| 0 <= j < out@.len() ==> depths@[j] == depth(#[trigger] out@[j]@),
                            forall|j: int| 0 <= j < k ==> depth(#[trigger] sorted[j]) >= depth(mp@),
                        decreases out@.len() - k,
                    {
                        assert(sorted[k as int] == out@[k as int]@);
                        assert(depths@[k as int] == depth(out@[k as int]@));
                        assert(depth(sorted[k as int]) >= depth(mp@));
                        k += 1;
                    }
                    proof {
                        if k < out@.len() {
                            assert(sorted[k as int] == out@[k as int]@);
                        }
                        lemma_insert_position(sorted, mp@, k as int);
                    }
                    let ghost before = out@;
                    let ghost before_depths = depths@;
                    let ghost mpv = mp@;
                    let ghost listed = prev_listed.push(mpv);
                    assert(listed.drop_last() =~= prev_listed);
                    assert(listed.last() == mpv);
                    assert(deepest_first(listed) == sorted.insert(k as int, mpv));
                    out.insert(k, mp);
                    depths.insert(k, d);
                    assert(out@.map_values(|s: String| s@) =~= sorted.insert(k as int, out@[k as int]@));
                    assert forall|j: int| 0 <= j < out@.len() implies depths@[j] == depth(#[trigger] out@[j]@) by {
                        if j < k {
                            assert(out@[j] == before[j]);
                        } else if j > k {
                            assert(out@[j] == before[j - 1]);
                            assert(depths@[j] == before_depths[j - 1]);
                        }
                    }
                }
            },
        }
        i += 1;
    }
    assert(ls.take(lines.len() as int) =~= ls);
    out
}

} // verus!
