use vstd::prelude::*;
use vstd::string::StringExecFns;

verus! {

/// The strings of `parts` in a row, with `separator` between each two.
pub open spec fn joined_parts(parts: Seq<Seq<char>>, separator: Seq<char>) -> Seq<char>
    decreases parts.len(),
{
    if parts.len() == 0 {
        Seq::empty()
    } else if parts.len() == 1 {
        parts[0]
    } else {
        joined_parts(parts.drop_last(), separator) + separator + parts.last()
    }
}

/// Puts the strings of `parts` in a row, with `separator` between each two.
pub fn join_parts(parts: &Vec<String>, separator: &str) -> (r: String)
    ensures
        r@ == joined_parts(parts.deep_view(), separator@),
{
    let mut r = String::new();
    let n: usize = parts.len();
    let mut i: usize = 0;
    while i < n
        invariant
            n == parts@.len(),
            i <= n,
            r@ == joined_parts(parts.deep_view().take(i as int), separator@),
        decreases n - i,
    {
        proof {
            let all = parts.deep_view();
            assert(all.take(i + 1).drop_last() =~= all.take(i as int));
            assert(all.take(i + 1).last() == parts@[i as int]@);
            assert(all.take(0).len() == 0);
        }
        if i > 0 {
            r.append(separator);
        }
        r.append(parts[i].as_str());
        proof {
            if i == 0 {
                assert(r@ =~= parts@[0]@);
            }
        }
        i = i + 1;
    }
    proof {
        assert(parts.deep_view().take(n as int) =~= parts.deep_view());
    }
    r
}

/// The text that stands for a workspace in a list: its name, and in round
/// brackets what is to be said of its links. In a detailed list the parts
/// are parted by a comma and the brackets are always there; otherwise they
/// are parted by a semicolon, and a workspace without links has its name only.
pub open spec fn labelled(name: Seq<char>, parts: Seq<Seq<char>>, detail: bool) -> Seq<char> {
    if detail {
        name + " ("@ + joined_parts(parts, ", "@) + ")"@
    } else if parts.len() == 0 {
        name
    } else {
        name + " ("@ + joined_parts(parts, "; "@) + ")"@
    }
}

/// The text that stands for the workspace `name` in a list.
pub fn item_text(name: &str, parts: &Vec<String>, detail: bool) -> (r: String)
    ensures
        r@ == labelled(name@, parts.deep_view(), detail),
{
    let mut r = String::from_str(name);
    if !detail && parts.len() == 0 {
        return r;
    }
    let inner = if detail {
        join_parts(parts, ", ")
    } else {
        join_parts(parts, "; ")
    };
    r.append(" (");
    r.append(inner.as_str());
    r.append(")");
    r
}

} // verus!
