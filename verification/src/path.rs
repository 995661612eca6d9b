use vstd::prelude::*;
use vstd::string::StringExecFns;
use crate::text::chars_of;

verus! {

/// The character that parts the segments of a path.
pub const SEPARATOR: char = '/';

/// A name is one literal path segment: not empty, without a separator, and
/// neither the segment that refers to the directory itself nor the one that
/// refers to its parent.
pub open spec fn single_segment(name: Seq<char>) -> bool {
    &&& name.len() > 0
    &&& !name.contains(SEPARATOR)
    &&& name != seq!['.']
    &&& name != seq!['.', '.']
}

/// Whether `name` consists of dots only, one or two of them.
spec fn dots_only(name: Seq<char>) -> bool {
    name == seq!['.'] || name == seq!['.', '.']
}

/// Tests whether `name` is one literal path segment.
pub fn is_single_segment(name: &str) -> (r: bool)
    ensures
        r == single_segment(name@),
{
    let chars = chars_of(name);
    let n: usize = chars.len();
    if n == 0 {
        return false;
    }
    let mut i: usize = 0;
    while i < n
        invariant
            chars@ == name@,
            n == chars@.len(),
            i <= n,
            forall|j: int| 0 <= j < i ==> chars@[j] != SEPARATOR,
        decreases n - i,
    {
        if chars[i] == SEPARATOR {
            return false;
        }
        i = i + 1;
    }
    if n == 1 && chars[0] == '.' {
        assert(chars@ =~= seq!['.']);
        return false;
    }
    if n == 2 && chars[0] == '.' && chars[1] == '.' {
        assert(chars@ =~= seq!['.', '.']);
        return false;
    }
    proof {
        if chars@ == seq!['.'] {
            assert(chars@[0] == '.');
        }
        if chars@ == seq!['.', '.'] {
            assert(chars@[0] == '.' && chars@[1] == '.');
        }
    }
    true
}

/// A name that starts with a dot is hidden.
pub open spec fn hidden(name: Seq<char>) -> bool {
    name.len() > 0 && name[0] == '.'
}

/// Tests whether `name` is hidden.
pub fn is_hidden(name: &str) -> (r: bool)
    ensures
        r == hidden(name@),
{
    let chars = chars_of(name);
    chars.len() > 0 && chars[0] == '.'
}

/// `name` put under the directory `base`: a name that starts at the root
/// stands alone, and a separator is put between the two unless `base` is
/// empty or ends in one.
pub open spec fn joined(base: Seq<char>, name: Seq<char>) -> Seq<char> {
    if name.len() > 0 && name[0] == SEPARATOR {
        name
    } else if base.len() == 0 || base.last() == SEPARATOR {
        base + name
    } else {
        base + seq![SEPARATOR] + name
    }
}

/// The path of `name` under the directory `base`.
pub fn join(base: &str, name: &str) -> (r: String)
    ensures
        r@ == joined(base@, name@),
{
    let b = chars_of(base);
    let c = chars_of(name);
    if c.len() > 0 && c[0] == SEPARATOR {
        return String::from_str(name);
    }
    let mut r = String::from_str(base);
    if b.len() > 0 && b[b.len() - 1] != SEPARATOR {
        proof {
            reveal_strlit("/");
            assert("/"@ =~= seq![SEPARATOR]);
        }
        r.append("/");
    }
    r.append(name);
    r
}

/// What follows the last separator of `path`; all of `path` where it holds
/// none, and nothing where it ends in one.
pub open spec fn final_segment(path: Seq<char>) -> Seq<char>
    decreases path.len(),
{
    if path.len() == 0 || path.last() == SEPARATOR {
        Seq::empty()
    } else {
        final_segment(path.drop_last()).push(path.last())
    }
}

/// The final segment is the longest tail of `path` without a separator.
pub proof fn lemma_final_segment(path: Seq<char>, start: int)
    requires
        0 <= start <= path.len(),
        start == 0 || path[start - 1] == SEPARATOR,
        forall|j: int| start <= j < path.len() ==> path[j] != SEPARATOR,
    ensures
        final_segment(path) == path.subrange(start, path.len() as int),
    decreases path.len() - start,
{
    if start == path.len() {
        assert(path.subrange(start, path.len() as int) =~= Seq::<char>::empty());
    } else {
        let shorter = path.drop_last();
        lemma_final_segment(shorter, start);
        assert(shorter.subrange(start, shorter.len() as int).push(path.last()) =~= path.subrange(
            start,
            path.len() as int,
        ));
    }
}

/// The final segment of `path`.
pub fn final_component(path: &str) -> (r: String)
    ensures
        r@ == final_segment(path@),
{
    let chars = chars_of(path);
    let n: usize = chars.len();
    let mut start: usize = n;
    while start > 0 && chars[start - 1] != SEPARATOR
        invariant
            n == chars@.len(),
            start <= n,
            forall|j: int| start <= j < n ==> chars@[j] != SEPARATOR,
        decreases start,
    {
        start = start - 1;
    }
    proof {
        lemma_final_segment(path@, start as int);
    }
    String::from_str(path.substring_char(start, n))
}

} // verus!
