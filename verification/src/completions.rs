//! File-path completion: the pure half. The prefix is split after its last
//! path separator into a directory part and a base name; of the names the
//! directory holds (read by the caller), those starting with the base name
//! are completed. When the prefix has no separator, the whole
//! prefix is taken as the directory part and every name matches the empty
//! base.

use vstd::prelude::*;
use vstd::string::{StrSliceExecFns, StringExecFns};

verus! {

/// Whether a character separates path segments.
pub open spec fn is_sep(c: char) -> bool {
    c == '/' || c == '\\'
}

/// The index of the last separator, or -1 when there is none.
pub open spec fn last_sep_pos(s: Seq<char>) -> int
    decreases s.len(),
{
    if s.len() == 0 {
        -1
    } else if is_sep(s.last()) {
        s.len() - 1
    } else {
        last_sep_pos(s.drop_last())
    }
}

/// Where the prefix splits into directory and base name: right after the
/// last separator, or at its end when it has none.
pub open spec fn split_point(s: Seq<char>) -> int {
    if last_sep_pos(s) == -1 {
        s.len() as int
    } else {
        last_sep_pos(s) + 1
    }
}

/// Whether `s` starts with `base`.
pub open spec fn starts_with(s: Seq<char>, base: Seq<char>) -> bool {
    s.len() >= base.len() && s.take(base.len() as int) == base
}

/// The completions among `names`, in order: each name starting with `base`,
/// prefixed by `dir`.
pub open spec fn completions_of(names: Seq<Seq<char>>, dir: Seq<char>, base: Seq<char>) -> Seq<
    Seq<char>,
>
    decreases names.len(),
{
    if names.len() == 0 {
        Seq::empty()
    } else {
        let rest = completions_of(names.drop_last(), dir, base);
        if starts_with(names.last(), base) {
            rest.push(dir + names.last())
        } else {
            rest
        }
    }
}

/// A scan from the end that saw no separator above `p`, and one (or the
/// start) at `p`, has found the last separator.
proof fn lemma_last_sep_is(s: Seq<char>, p: int)
    requires
        -1 <= p < s.len(),
        p >= 0 ==> is_sep(s[p]),
        forall|i: int| p < i < s.len() ==> !is_sep(#[trigger] s[i]),
    ensures
        last_sep_pos(s) == p,
    decreases s.len(),
{
    if s.len() == 0 {
    } else if is_sep(s.last()) {
        assert(p == s.len() - 1);
    } else {
        assert(p < s.len() - 1);
        assert(forall|i: int| 0 <= i < s.len() - 1 ==> #[trigger] s.drop_last()[i] == s[i]);
        lemma_last_sep_is(s.drop_last(), p);
    }
}

/// Whether one text starts with another.
fn str_starts_with(s: &str, base: &str) -> (r: bool)
    ensures
        r == starts_with(s@, base@),
{
    let n = s.unicode_len();
    let b = base.unicode_len();
    if n < b {
        return false;
    }
    let mut i: usize = 0;
    while i < b
        invariant
            0 <= i <= b,
            b <= n,
            n == s@.len(),
            b == base@.len(),
            forall|j: int| 0 <= j < i ==> #[trigger] s@[j] == base@[j],
        decreases b - i,
    {
        let cs = s.get_char(i);
        let cb = base.get_char(i);
        if cs as u32 != cb as u32 {
            proof {
                assert(s@[i as int] != base@[i as int]);
                assert(s@.take(b as int)[i as int] == s@[i as int]);
            }
            return false;
        }
        proof {
            assert(cs as u32 == cs as int && cb as u32 == cb as int);
        }
        i += 1;
    }
    proof {
        assert(s@.take(b as int) =~= base@);
    }
    true
}

/// Completes a file-path prefix against the names of the directory it
/// points into. The caller reads the directory; this decides the split
/// and the matches.
pub fn complete_file_path(prefix: &str, names: &Vec<String>) -> (r: Vec<String>)
    requires
        prefix@.len() >= 1,
    ensures
        r@.map_values(|s: String| s@) =~= completions_of(
            names@.map_values(|s: String| s@),
            prefix@.take(split_point(prefix@)),
            prefix@.skip(split_point(prefix@)),
        ),
{
    let len = prefix.unicode_len();
    let mut i: usize = len;
    let mut sp: usize = len;
    loop
        invariant_except_break
            0 <= i <= len,
            len == prefix@.len(),
            forall|j: int| i <= j < len ==> !is_sep(#[trigger] prefix@[j]),
            sp == len,
        ensures
            len == prefix@.len(),
            sp <= len,
            sp as int == split_point(prefix@),
        decreases i,
    {
        if i == 0 {
            proof {
                lemma_last_sep_is(prefix@, -1);
            }
            break;
        }
        let c = prefix.get_char(i - 1);
        let cu = c as u32;
        if cu == 47 || cu == 92 {
            proof {
                assert(is_sep(prefix@[i - 1]));
                lemma_last_sep_is(prefix@, i - 1);
            }
            sp = i;
            break;
        }
        i = i - 1;
    }
    let dir = prefix.substring_char(0, sp);
    let base = prefix.substring_char(sp, len);
    proof {
        assert(dir@ =~= prefix@.take(sp as int));
        assert(base@ =~= prefix@.skip(sp as int));
    }
    let ghost gnames = names@.map_values(|s: String| s@);
    let mut out: Vec<String> = Vec::new();
    let mut i: usize = 0;
    while i < names.len()
        invariant
            0 <= i <= names@.len(),
            gnames == names@.map_values(|s: String| s@),
            dir@ == prefix@.take(split_point(prefix@)),
            base@ == prefix@.skip(split_point(prefix@)),
            out@.map_values(|s: String| s@) =~= completions_of(
                gnames.take(i as int),
                dir@,
                base@,
            ),
        decreases names@.len() - i,
    {
        proof {
            assert(gnames.take(i + 1).drop_last() =~= gnames.take(i as int));
            assert(gnames.take(i + 1).last() == gnames[i as int]);
        }
        if str_starts_with(names[i].as_str(), base) {
            let mut completed = dir.to_owned();
            completed.append(names[i].as_str());
            out.push(completed);
            proof {
                assert(out@.map_values(|s: String| s@) =~= completions_of(
                    gnames.take(i + 1),
                    dir@,
                    base@,
                ));
            }
        } else {
            proof {
                assert(out@.map_values(|s: String| s@) =~= completions_of(
                    gnames.take(i + 1),
                    dir@,
                    base@,
                ));
            }
        }
        i += 1;
    }
    proof {
        assert(gnames.take(gnames.len() as int) =~= gnames);
    }
    out
}

} // verus!
