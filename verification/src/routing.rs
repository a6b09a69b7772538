//! Translating a request path into the fields a command context needs:
//! `<group>/<namespace>/<kind>[/<name>[/<subresource...>]]`, with an
//! optional `/api` prefix and blank segments dropped.

use vstd::prelude::*;

use crate::error::CommandError;
use crate::store::str_views;
use crate::text::{is_prefix_of, starts_with_str, strip_chars};

verus! {

/// A whitespace character, as path segments are trimmed.
pub open spec fn is_blank_char(c: char) -> bool {
    c == ' ' || c == '\t' || c == '\r' || c == '\n'
}

/// A segment that trims to nothing.
pub open spec fn is_blank(s: Seq<char>) -> bool {
    forall|i: int| 0 <= i < s.len() ==> is_blank_char(#[trigger] s[i])
}

/// The path with a leading `/api/` or `/api` removed.
pub open spec fn stripped_of(s: Seq<char>) -> Seq<char> {
    if is_prefix_of("/api/"@, s) {
        s.subrange(5, s.len() as int)
    } else if is_prefix_of("/api"@, s) {
        s.subrange(4, s.len() as int)
    } else {
        s
    }
}

/// The characters of the segment still open at the end of `s`.
pub open spec fn seg_cur(s: Seq<char>) -> Seq<char>
    decreases s.len(),
{
    if s.len() == 0 {
        Seq::empty()
    } else if s.last() == '/' {
        Seq::empty()
    } else {
        seg_cur(s.drop_last()).push(s.last())
    }
}

/// The non-blank segments already closed by a slash in `s`, in order.
pub open spec fn segs_kept(s: Seq<char>) -> Seq<Seq<char>>
    decreases s.len(),
{
    if s.len() == 0 {
        Seq::empty()
    } else if s.last() == '/' {
        segs_kept(s.drop_last()) + (if is_blank(seg_cur(s.drop_last())) {
            Seq::empty()
        } else {
            seq![seg_cur(s.drop_last())]
        })
    } else {
        segs_kept(s.drop_last())
    }
}

/// The non-blank segments of `s`, in order.
pub open spec fn segments_of(s: Seq<char>) -> Seq<Seq<char>> {
    segs_kept(s) + (if is_blank(seg_cur(s)) {
        Seq::empty()
    } else {
        seq![seg_cur(s)]
    })
}

/// The segments joined back with slashes.
pub open spec fn join_slash(ss: Seq<Seq<char>>) -> Seq<char>
    decreases ss.len(),
{
    if ss.len() == 0 {
        Seq::empty()
    } else if ss.len() == 1 {
        ss[0]
    } else {
        join_slash(ss.drop_last()) + seq!['/'] + ss.last()
    }
}

/// What an HTTP path addresses: the API group, the namespace, the kind,
/// and optionally a name and a subresource path.
pub struct ResourceDescriptor {
    pub group: String,
    pub namespace: String,
    pub kind: String,
    pub name: Option<String>,
    pub subresource: Option<String>,
}

/// Whether one segment trims to nothing.
fn is_blank_str(s: &str) -> (r: bool)
    ensures
        r == is_blank(s@),
{
    let n = s.unicode_len();
    let mut i: usize = 0;
    while i < n
        invariant
            i <= n == s@.len(),
            forall|j: int| 0 <= j < i ==> is_blank_char(#[trigger] s@[j]),
        decreases n - i,
    {
        let c = s.get_char(i);
        if !(c == ' ' || c == '\t' || c == '\r' || c == '\n') {
            return false;
        }
        i += 1;
    }
    true
}

/// Splits a path on slashes, dropping blank segments.
fn split_segments(s: &str) -> (r: Vec<String>)
    ensures
        str_views(r@) == segments_of(s@),
{
    let n = s.unicode_len();
    let mut kept: Vec<String> = Vec::new();
    let mut start: usize = 0;
    let mut i: usize = 0;
    while i < n
        invariant
            i <= n == s@.len(),
            start <= i,
            str_views(kept@) =~= segs_kept(s@.take(i as int)),
            seg_cur(s@.take(i as int)) =~= s@.subrange(start as int, i as int),
        decreases n - i,
    {
        let c = s.get_char(i);
        proof {
            assert(s@.take(i + 1 as int).drop_last() =~= s@.take(i as int));
            assert(s@.take(i + 1 as int).last() == s@[i as int]);
        }
        if c == '/' {
            let seg = s.substring_char(start, i);
            if !is_blank_str(seg) {
                let ghost prev = kept@;
                kept.push(seg.to_owned());
                proof {
                    assert(str_views(kept@) =~= str_views(prev).push(seg@));
                }
            } else {
                proof {
                    assert(str_views(kept@) =~= segs_kept(s@.take(i + 1 as int)));
                }
            }
            start = i + 1;
            proof {
                assert(s@.subrange(start as int, i + 1 as int) =~= Seq::<char>::empty());
            }
        } else {
            proof {
                assert(s@.subrange(start as int, i + 1 as int) =~= s@.subrange(
                    start as int,
                    i as int,
                ).push(s@[i as int]));
            }
        }
        i += 1;
    }
    proof {
        assert(s@.take(n as int) =~= s@);
    }
    let tail = s.substring_char(start, n);
    if !is_blank_str(tail) {
        let ghost prev = kept@;
        kept.push(tail.to_owned());
        proof {
            assert(str_views(kept@) =~= str_views(prev).push(tail@));
            assert(str_views(kept@) =~= segments_of(s@));
        }
    } else {
        proof {
            assert(str_views(kept@) =~= segments_of(s@));
        }
    }
    kept
}

impl ResourceDescriptor {
    /// Parses a path into a descriptor: at least `group/namespace/kind`,
    /// with a fourth segment as the name and anything further joined back
    /// as the subresource. A leading `/api` is ignored, as are blank
    /// segments.
    pub fn parse(path: &str) -> (r: Result<ResourceDescriptor, CommandError>)
        ensures
            ({
                let segs = segments_of(stripped_of(path@));
                &&& r is Ok <==> segs.len() >= 3
                &&& r is Err ==> r == Err::<ResourceDescriptor, CommandError>(
                    CommandError::InvalidInput,
                )
                &&& r is Ok ==> {
                    let d = r.unwrap();
                    &&& d.group@ == segs[0]
                    &&& d.namespace@ == segs[1]
                    &&& d.kind@ == segs[2]
                    &&& if segs.len() >= 4 {
                        d.name is Some && d.name.unwrap()@ == segs[3]
                    } else {
                        d.name is None
                    }
                    &&& if segs.len() > 4 {
                        d.subresource is Some && d.subresource.unwrap()@ == join_slash(
                            segs.subrange(4, segs.len() as int),
                        )
                    } else {
                        d.subresource is None
                    }
                }
            }),
    {
        proof {
            reveal_strlit("/api/");
            reveal_strlit("/api");
            assert("/api/"@.len() == 5);
            assert("/api"@.len() == 4);
        }
        let stripped: &str = if starts_with_str(path, "/api/") {
            strip_chars(path, 5)
        } else if starts_with_str(path, "/api") {
            strip_chars(path, 4)
        } else {
            path
        };
        let segments = split_segments(stripped);
        let ghost segs = segments_of(stripped_of(path@));
        proof {
            assert(str_views(segments@) == segs);
        }
        if segments.len() < 3 {
            return Err(CommandError::InvalidInput);
        }
        let group = segments[0].clone();
        let namespace = segments[1].clone();
        let kind = segments[2].clone();
        let name: Option<String> = if segments.len() >= 4 {
            Some(segments[3].clone())
        } else {
            None
        };
        let subresource: Option<String> = if segments.len() > 4 {
            let mut joined = segments[4].clone();
            let m = segments.len();
            let mut a: usize = 5;
            proof {
                assert(segs.subrange(4, 5) =~= seq![segs[4]]);
                assert(joined@ == join_slash(segs.subrange(4, 5)));
            }
            while a < m
                invariant
                    5 <= a <= m == segments@.len(),
                    segs == str_views(segments@),
                    joined@ == join_slash(segs.subrange(4, a as int)),
                decreases m - a,
            {
                joined.append("/");
                joined.append(segments[a].as_str());
                proof {
                    reveal_strlit("/");
                    assert("/"@ =~= seq!['/']);
                    assert(segs.subrange(4, a + 1 as int).drop_last() =~= segs.subrange(
                        4,
                        a as int,
                    ));
                    assert(segs.subrange(4, a + 1 as int).last() == segs[a as int]);
                }
                a += 1;
            }
            proof {
                assert(segs.subrange(4, m as int) =~= segs.subrange(4, segs.len() as int));
            }
            Some(joined)
        } else {
            None
        };
        Ok(ResourceDescriptor { group, namespace, kind, name, subresource })
    }
}

} // verus!
