//! Character-level helpers: locating the last `/` of a `$ref` pointer and
//! taking the trailing name segment that serves as the registry lookup key.

use vstd::prelude::*;
use vstd::string::StrSliceExecFns;

verus! {

/// Index of the last `/` in `s`, or `-1` when `s` holds none.
pub open spec fn last_slash(s: Seq<char>) -> int
    decreases s.len(),
{
    if s.len() == 0 {
        -1
    } else if s[s.len() - 1] == '/' {
        s.len() - 1
    } else {
        last_slash(s.drop_last())
    }
}

/// The lookup key of a pointer: everything after its last `/`.
pub open spec fn pointer_key(s: Seq<char>) -> Seq<char> {
    s.subrange(last_slash(s) + 1, s.len() as int)
}

/// `last_slash` is `-1` exactly when no `/` occurs, and otherwise names the
/// position of a `/` that no later `/` follows.
pub proof fn lemma_last_slash(s: Seq<char>)
    ensures
        last_slash(s) >= -1,
        last_slash(s) == -1 ==> forall|j: int| 0 <= j < s.len() ==> s[j] != '/',
        last_slash(s) >= 0 ==> last_slash(s) < s.len() && s[last_slash(s)] == '/' && (forall|
            j: int,
        |
            last_slash(s) < j < s.len() ==> s[j] != '/'),
    decreases s.len(),
{
    if s.len() == 0 {
    } else if s[s.len() - 1] == '/' {
    } else {
        lemma_last_slash(s.drop_last());
        assert(forall|j: int| 0 <= j < s.len() - 1 ==> s[j] == s.drop_last()[j]);
    }
}

/// A `/` that no later `/` follows stands at `last_slash`.
pub proof fn lemma_last_slash_at(s: Seq<char>, k: int)
    requires
        0 <= k < s.len(),
        s[k] == '/',
        forall|j: int| k < j < s.len() ==> s[j] != '/',
    ensures
        last_slash(s) == k,
    decreases s.len(),
{
    if k == s.len() - 1 {
    } else {
        assert(s.drop_last()[k] == s[k]);
        lemma_last_slash_at(s.drop_last(), k);
    }
}

/// Index of the first `/` in `s`, or `-1` when `s` holds none.
pub open spec fn first_slash(s: Seq<char>) -> int
    decreases s.len(),
{
    if s.len() == 0 {
        -1
    } else if s[0] == '/' {
        0
    } else if first_slash(s.drop_first()) == -1 {
        -1
    } else {
        first_slash(s.drop_first()) + 1
    }
}

/// `first_slash` is `-1` exactly when no `/` occurs, and otherwise names
/// the position of a `/` that no earlier `/` precedes.
pub proof fn lemma_first_slash(s: Seq<char>)
    ensures
        first_slash(s) >= -1,
        first_slash(s) == -1 ==> forall|j: int| 0 <= j < s.len() ==> s[j] != '/',
        first_slash(s) >= 0 ==> first_slash(s) < s.len() && s[first_slash(s)] == '/' && (forall|
            j: int,
        |
            0 <= j < first_slash(s) ==> s[j] != '/'),
    decreases s.len(),
{
    if s.len() == 0 {
    } else if s[0] == '/' {
    } else {
        lemma_first_slash(s.drop_first());
        assert(forall|j: int| 1 <= j < s.len() ==> s[j] == s.drop_first()[j - 1]);
    }
}

/// A `/` that no earlier `/` precedes stands at `first_slash`.
pub proof fn lemma_first_slash_at(s: Seq<char>, k: int)
    requires
        0 <= k < s.len(),
        s[k] == '/',
        forall|j: int| 0 <= j < k ==> s[j] != '/',
    ensures
        first_slash(s) == k,
    decreases s.len(),
{
    if k == 0 {
    } else {
        assert(forall|j: int| 0 <= j < k - 1 ==> s.drop_first()[j] == s[j + 1]);
        assert(s.drop_first()[k - 1] == s[k]);
        lemma_first_slash_at(s.drop_first(), k - 1);
    }
}

/// The segments of `s` between its `/` separators: splitting keeps empty
/// segments, so a leading, trailing or doubled `/` contributes an empty
/// segment, and a string with no `/` is one segment.
pub open spec fn split_slash(s: Seq<char>) -> Seq<Seq<char>>
    decreases s.len(),
{
    let f = first_slash(s);
    if 0 <= f < s.len() {
        seq![s.subrange(0, f)] + split_slash(s.subrange(f + 1, s.len() as int))
    } else {
        seq![s]
    }
}

/// The segments of `s` between its `/` separators.
pub fn split_slash_str(s: &str) -> (r: Vec<String>)
    ensures
        r@.map_values(|x: String| x@) == split_slash(s@),
{
    let n = s.unicode_len();
    let mut out: Vec<String> = Vec::new();
    let mut pos: usize = 0;
    let mut i: usize = 0;
    proof {
        assert(s@.subrange(0, n as int) =~= s@);
        assert(out@.map_values(|x: String| x@) =~= Seq::<Seq<char>>::empty());
    }
    while i < n
        invariant
            pos <= i <= n,
            n == s@.len(),
            forall|j: int| pos <= j < i ==> s@[j] != '/',
            split_slash(s@) =~= out@.map_values(|x: String| x@) + split_slash(
                s@.subrange(pos as int, n as int),
            ),
        decreases n - i,
    {
        let c = s.get_char(i);
        if c == '/' {
            let seg = s.substring_char(pos, i).to_owned();
            proof {
                let rest = s@.subrange(pos as int, n as int);
                assert(rest[i - pos] == s@[i as int]);
                assert(forall|j: int| 0 <= j < i - pos ==> rest[j] == s@[j + pos]);
                lemma_first_slash_at(rest, i - pos);
                assert(rest.subrange(0, i - pos) =~= s@.subrange(pos as int, i as int));
                assert(rest.subrange(i - pos + 1, rest.len() as int) =~= s@.subrange(
                    i + 1,
                    n as int,
                ));
                assert((out@ + seq![seg]).map_values(|x: String| x@) =~= out@.map_values(
                    |x: String| x@,
                ) + seq![seg@]);
            }
            out.push(seg);
            pos = i + 1;
        }
        i = i + 1;
    }
    let last = s.substring_char(pos, n).to_owned();
    proof {
        let rest = s@.subrange(pos as int, n as int);
        lemma_first_slash(rest);
        assert(forall|j: int| 0 <= j < rest.len() ==> rest[j] == s@[j + pos]);
        if first_slash(rest) >= 0 {
            assert(rest[first_slash(rest)] == '/');
            assert(false);
        }
        assert(split_slash(rest) =~= seq![last@]);
        assert((out@ + seq![last]).map_values(|x: String| x@) =~= out@.map_values(|x: String| x@)
            + seq![last@]);
    }
    out.push(last);
    out
}

/// Position of the last `/` in `s`, or `None` when `s` holds none.
pub fn rfind_slash(s: &str) -> (r: Option<usize>)
    ensures
        match r {
            Some(i) => last_slash(s@) == i as int,
            None => last_slash(s@) == -1,
        },
{
    let n = s.unicode_len();
    let mut i = n;
    while i > 0
        invariant
            i <= n,
            n == s@.len(),
            forall|j: int| i <= j < s@.len() ==> s@[j] != '/',
        decreases i,
    {
        let c = s.get_char(i - 1);
        if c == '/' {
            proof {
                lemma_last_slash_at(s@, i - 1);
            }
            return Some(i - 1);
        }
        i = i - 1;
    }
    proof {
        lemma_last_slash(s@);
    }
    None
}

} // verus!
