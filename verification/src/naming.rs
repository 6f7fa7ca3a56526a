//! Deriving an alias name from a path: the final path segment, stripped of
//! any extension and lowercased.

use vstd::prelude::*;
use crate::text::{ascii_lower, lower_of, lowercase};

verus! {

/// The exclusive end of the final path segment of `s`: the position just
/// past the last character that is not a separator, once trailing
/// separators are ignored.  Zero when `s` is empty or consists of
/// separators alone.
pub open spec fn seg_end(s: Seq<char>) -> int
    decreases s.len(),
{
    if s.len() == 0 {
        0
    } else if s.last() == '/' {
        seg_end(s.drop_last())
    } else {
        s.len() as int
    }
}

/// The start of the segment that ends at `e`: the position just after the
/// separator that precedes it, or the start of `s`.
pub open spec fn seg_start(s: Seq<char>, e: int) -> int
    decreases e,
{
    if e <= 0 {
        0
    } else if s[e - 1] == '/' {
        e
    } else {
        seg_start(s, e - 1)
    }
}

/// The final path segment of `s`.
pub open spec fn final_segment(s: Seq<char>) -> Seq<char> {
    s.subrange(seg_start(s, seg_end(s)), seg_end(s))
}

/// The index of the last `.` of `seg`, or -1 when there is none.
pub open spec fn last_dot(seg: Seq<char>) -> int
    decreases seg.len(),
{
    if seg.len() == 0 {
        -1
    } else if seg.last() == '.' {
        seg.len() - 1
    } else {
        last_dot(seg.drop_last())
    }
}

/// The stem of a segment: everything before the last `.`, unless that dot
/// is the segment's first character, in which case the whole segment.
pub open spec fn stem_of(seg: Seq<char>) -> Seq<char> {
    if last_dot(seg) > 0 {
        seg.subrange(0, last_dot(seg))
    } else {
        seg
    }
}

/// The stem of the final path segment of `path`.
pub open spec fn stem_spec(path: Seq<char>) -> Seq<char> {
    stem_of(final_segment(path))
}

/// A segment consisting of dots alone (such as the current- or
/// parent-directory segments) carries no name to derive an alias from.
pub open spec fn all_dots(seg: Seq<char>) -> bool {
    forall|i: int| 0 <= i < seg.len() ==> seg[i] == '.'
}

/// The alias name derived from `path`: the lowercase stem of its final
/// segment, or nothing when the path has no segment to derive from —
/// it is empty, holds separators alone, or its final segment is dots
/// alone.
pub open spec fn derive_key(path: Seq<char>) -> Option<Seq<char>> {
    if seg_end(path) == 0 || all_dots(final_segment(path)) {
        Option::None
    } else {
        Option::Some(lower_of(stem_spec(path)))
    }
}

/// Derives the alias name for `path`: the final `/`-separated segment,
/// stripped of any extension after its first character, lowercased.
/// Returns nothing when the path has no derivable segment: it is empty,
/// holds separators alone, or its final segment is dots alone.
pub fn derive_alias(path: &str) -> (r: Option<String>)
    ensures
        r is Some <==> derive_key(path@) is Some,
        r matches Some(a) ==> {
            &&& a@ == derive_key(path@).unwrap()
            &&& a@ == lower_of(stem_spec(path@))
            &&& vstd::utf8::is_ascii_chars(stem_spec(path@)) ==> a@ == ascii_lower(
                stem_spec(path@),
            )
        },
{
    let ghost s = path@;
    let n = path.unicode_len();

    // Skip trailing separators to find the end of the final segment.
    let mut e = n;
    proof {
        assert(s.take(n as int) =~= s);
    }
    loop
        invariant
            e <= n,
            n == s.len(),
            n == path@.len(),
            s == path@,
            seg_end(s) == seg_end(s.take(e as int)),
        ensures
            e <= n,
            seg_end(s) == e as int,
        decreases e,
    {
        if e == 0 {
            proof {
                assert(seg_end(s.take(0)) == 0);
            }
            break;
        }
        let ch = path.get_char(e - 1);
        if ch != '/' {
            proof {
                assert(s.take(e as int).last() == s[e as int - 1]);
                assert(seg_end(s.take(e as int)) == e as int);
            }
            break;
        }
        proof {
            assert(s.take(e as int).last() == s[e as int - 1]);
            assert(s.take(e as int).drop_last() =~= s.take(e as int - 1));
        }
        e = e - 1;
    }
    if e == 0 {
        return None;
    }

    // Walk back to the separator that starts the segment.
    let mut start = e;
    loop
        invariant
            start <= e,
            e <= n,
            n == s.len(),
            n == path@.len(),
            s == path@,
            seg_start(s, e as int) == seg_start(s, start as int),
        ensures
            start <= e,
            seg_start(s, e as int) == start as int,
        decreases start,
    {
        if start == 0 {
            proof {
                assert(seg_start(s, 0) == 0);
            }
            break;
        }
        let ch = path.get_char(start - 1);
        if ch == '/' {
            proof {
                assert(seg_start(s, start as int) == start as int);
            }
            break;
        }
        proof {
            assert(seg_start(s, start as int) == seg_start(s, start as int - 1));
        }
        start = start - 1;
    }
    let ghost seg = s.subrange(start as int, e as int);
    proof {
        assert(final_segment(s) == seg);
    }

    // A segment of dots alone has nothing to derive a name from.
    let mut j = start;
    loop
        invariant
            start <= j <= e,
            e <= n,
            n == s.len(),
            n == path@.len(),
            s == path@,
            seg == s.subrange(start as int, e as int),
            forall|i: int| start <= i < j ==> s[i] == '.',
        ensures
            start <= j <= e,
            j == e ==> all_dots(seg),
            j < e ==> !all_dots(seg),
        decreases e - j,
    {
        if j == e {
            proof {
                assert forall|i: int| 0 <= i < seg.len() implies seg[i] == '.' by {
                    assert(seg[i] == s[start as int + i]);
                }
            }
            break;
        }
        let ch = path.get_char(j);
        if ch != '.' {
            proof {
                assert(seg[j as int - start as int] == s[j as int]);
            }
            break;
        }
        j = j + 1;
    }
    if j == e {
        return None;
    }

    // Find the last dot inside the segment.
    let mut k = e;
    proof {
        assert(seg.take(e as int - start as int) =~= seg);
    }
    loop
        invariant
            start <= k <= e,
            e <= n,
            n == s.len(),
            n == path@.len(),
            s == path@,
            seg == s.subrange(start as int, e as int),
            last_dot(seg) == last_dot(seg.take(k as int - start as int)),
        ensures
            start <= k <= e,
            last_dot(seg) == (if k == start {
                -1
            } else {
                k - 1 - start
            }),
        decreases k,
    {
        if k == start {
            proof {
                assert(last_dot(seg.take(0)) == -1);
            }
            break;
        }
        let ch = path.get_char(k - 1);
        let ghost m = k as int - start as int;
        if ch == '.' {
            proof {
                assert(seg.take(m).last() == seg[m - 1]);
                assert(seg[m - 1] == s[k as int - 1]);
                assert(last_dot(seg.take(m)) == m - 1);
            }
            break;
        }
        proof {
            assert(seg.take(m).last() == seg[m - 1]);
            assert(seg[m - 1] == s[k as int - 1]);
            assert(seg.take(m).drop_last() =~= seg.take(m - 1));
        }
        k = k - 1;
    }

    // The stem: up to the last dot unless the dot starts the segment.
    let stem: &str = if k - start > 1 {
        proof {
            assert(seg.subrange(0, k as int - 1 - start as int) =~= s.subrange(
                start as int,
                k as int - 1,
            ));
        }
        path.substring_char(start, k - 1)
    } else {
        proof {
            assert(stem_of(seg) == seg);
        }
        path.substring_char(start, e)
    };
    Some(lowercase(stem))
}

} // verus!
