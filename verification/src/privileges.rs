//! The privilege encoder: turns the raw comma-separated privilege string
//! into the ordered key/value directives the remote service understands.
//! Duplicate keys are preserved in order; nothing is deduplicated.
use vstd::prelude::*;
use vstd::string::StrSliceExecFns;

use crate::models::session::KalturaSession;

verus! {

/// The whitespace trimmed from the ends of a privilege segment.
pub open spec fn is_space(c: char) -> bool {
    c == ' ' || c == '\t' || c == '\n' || c == '\r'
}

/// A segment with its leading whitespace removed.
pub open spec fn trim_front(s: Seq<char>) -> Seq<char>
    decreases s.len(),
{
    if s.len() > 0 && is_space(s[0]) {
        trim_front(s.drop_first())
    } else {
        s
    }
}

/// A segment with its trailing whitespace removed.
pub open spec fn trim_back(s: Seq<char>) -> Seq<char>
    decreases s.len(),
{
    if s.len() > 0 && is_space(s.last()) {
        trim_back(s.drop_last())
    } else {
        s
    }
}

/// A segment with whitespace removed from both ends.
pub open spec fn trim_spec(s: Seq<char>) -> Seq<char> {
    trim_back(trim_front(s))
}

/// Splits a segment at its first `:`; the key is what stands before it,
/// the value everything after it.
pub open spec fn split_colon(s: Seq<char>) -> (Seq<char>, Seq<char>)
    decreases s.len(),
{
    if s.len() == 0 {
        (Seq::empty(), Seq::empty())
    } else if s[0] == ':' {
        (Seq::empty(), s.drop_first())
    } else {
        let r = split_colon(s.drop_first());
        (seq![s[0]] + r.0, r.1)
    }
}

/// The directive one trimmed segment stands for: `*` grants all, a segment
/// with `:` is a key/value pair, and anything else is a bare key.
pub open spec fn directive_of(seg: Seq<char>) -> (Seq<char>, Seq<char>) {
    let t = trim_spec(seg);
    if t == seq!['*'] {
        (seq!['a', 'l', 'l'], seq!['*'])
    } else if t.contains(':') {
        split_colon(t)
    } else {
        (t, Seq::<char>::empty())
    }
}

/// The comma-separated segments of a string; a trailing comma opens a new
/// empty segment, and the empty string has one empty segment.
pub open spec fn segments(s: Seq<char>) -> Seq<Seq<char>>
    decreases s.len(),
{
    if s.len() == 0 {
        seq![Seq::<char>::empty()]
    } else if s.last() == ',' {
        segments(s.drop_last()) + seq![Seq::<char>::empty()]
    } else {
        let prev = segments(s.drop_last());
        prev.update(prev.len() - 1, prev.last().push(s.last()))
    }
}

/// The directives of a list of segments, in order.
pub open spec fn directives_of(segs: Seq<Seq<char>>) -> Seq<(Seq<char>, Seq<char>)> {
    segs.map_values(|seg: Seq<char>| directive_of(seg))
}

/// The ordered privilege directives of a raw privilege string. The empty
/// string yields no directives at all.
pub open spec fn parse_privileges(s: Seq<char>) -> Seq<(Seq<char>, Seq<char>)> {
    if s.len() == 0 {
        Seq::empty()
    } else {
        directives_of(segments(s))
    }
}

/// Whether a directive key collides with one of the reserved v2 field keys
/// `_e`, `_u`, `_t`. The reserved fields take precedence over such a
/// directive.
pub open spec fn reserved_key(k: Seq<char>) -> bool {
    k == seq!['_', 'e'] || k == seq!['_', 'u'] || k == seq!['_', 't']
}

/// The views of a list of directive strings.
pub open spec fn directive_views(ds: Seq<(String, String)>) -> Seq<(Seq<char>, Seq<char>)> {
    ds.map_values(|d: (String, String)| (d.0@, d.1@))
}

proof fn lemma_directive_views_push(ds: Seq<(String, String)>, d: (String, String))
    ensures
        directive_views(ds.push(d)) =~= directive_views(ds) + seq![(d.0@, d.1@)],
{
}

proof fn lemma_directives_of_split(segs: Seq<Seq<char>>)
    requires
        segs.len() >= 1,
    ensures
        directives_of(segs) =~= directives_of(segs.drop_last()) + seq![
            directive_of(segs.last()),
        ],
{
}

proof fn lemma_segments_len(s: Seq<char>)
    ensures
        segments(s).len() >= 1,
    decreases s.len(),
{
    if s.len() > 0 {
        lemma_segments_len(s.drop_last());
    }
}

proof fn lemma_trim_front_skip(s: Seq<char>, lo: int)
    requires
        0 <= lo <= s.len(),
        forall|j: int| 0 <= j < lo ==> is_space(s[j]),
    ensures
        trim_front(s) == trim_front(s.skip(lo)),
    decreases lo,
{
    if lo > 0 {
        assert(is_space(s[0]));
        assert(s.drop_first() =~= s.skip(1));
        lemma_trim_front_skip(s.skip(1), lo - 1);
        assert(s.skip(1).skip(lo - 1) =~= s.skip(lo));
    } else {
        assert(s.skip(0) =~= s);
    }
}

proof fn lemma_trim_back_take(s: Seq<char>, hi: int)
    requires
        0 <= hi <= s.len(),
        forall|j: int| hi <= j < s.len() ==> is_space(s[j]),
    ensures
        trim_back(s) == trim_back(s.take(hi)),
    decreases s.len() - hi,
{
    if hi < s.len() {
        assert(is_space(s.last()));
        assert(s.drop_last() =~= s.take(s.len() - 1));
        lemma_trim_back_take(s.take(s.len() - 1), hi);
        assert(s.take(s.len() - 1).take(hi) =~= s.take(hi));
    } else {
        assert(s.take(s.len() as int) =~= s);
    }
}

proof fn lemma_split_colon_at(s: Seq<char>, k: int)
    requires
        0 <= k < s.len(),
        s[k] == ':',
        forall|j: int| 0 <= j < k ==> s[j] != ':',
    ensures
        split_colon(s) == (s.take(k), s.skip(k + 1)),
    decreases k,
{
    if k == 0 {
        assert(s.drop_first() =~= s.skip(1));
        assert(s.take(0) =~= Seq::<char>::empty());
    } else {
        assert(s[0] != ':');
        lemma_split_colon_at(s.drop_first(), k - 1);
        assert(s.drop_first().take(k - 1) =~= s.skip(1).take(k - 1));
        assert(seq![s[0]] + s.drop_first().take(k - 1) =~= s.take(k));
        assert(s.drop_first().skip(k - 1 + 1) =~= s.skip(k + 1));
    }
}

/// Trims whitespace from both ends of an ASCII-indexed character range,
/// returning the trimmed bounds.
fn trim_bounds(s: &str, n: usize) -> (r: (usize, usize))
    requires
        n == s@.len(),
    ensures
        r.0 <= r.1 <= n,
        trim_spec(s@) == s@.subrange(r.0 as int, r.1 as int),
{
    let mut lo: usize = 0;
    let mut lo_stop = false;
    while lo < n && !lo_stop
        invariant
            lo <= n == s@.len(),
            forall|j: int| 0 <= j < lo ==> is_space(s@[j]),
            lo_stop ==> lo < n && !is_space(s@[lo as int]),
        decreases n - lo + (if lo_stop {
            0int
        } else {
            1int
        }),
    {
        let c = s.get_char(lo);
        if c == ' ' || c == '\t' || c == '\n' || c == '\r' {
            lo = lo + 1;
        } else {
            lo_stop = true;
        }
    }
    proof {
        lemma_trim_front_skip(s@, lo as int);
        if lo < n {
            assert(!is_space(s@.skip(lo as int)[0]));
        }
        assert(trim_front(s@) == s@.skip(lo as int));
    }
    let mut hi: usize = n;
    let mut hi_stop = false;
    while hi > lo && !hi_stop
        invariant
            lo <= hi <= n == s@.len(),
            forall|j: int| hi <= j < n ==> is_space(s@[j]),
            hi_stop ==> hi > lo && !is_space(s@[hi as int - 1]),
        decreases hi - lo + (if hi_stop {
            0int
        } else {
            1int
        }),
    {
        let c = s.get_char(hi - 1);
        if c == ' ' || c == '\t' || c == '\n' || c == '\r' {
            hi = hi - 1;
        } else {
            hi_stop = true;
        }
    }
    proof {
        let t = s@.skip(lo as int);
        assert(forall|j: int| hi - lo <= j < t.len() ==> is_space(t[j]));
        lemma_trim_back_take(t, hi - lo);
        if hi > lo {
            assert(!is_space(t.take(hi - lo).last()));
        }
        assert(trim_back(t) == t.take(hi - lo));
        assert(t.take(hi - lo) =~= s@.subrange(lo as int, hi as int));
    }
    (lo, hi)
}

/// The directive one raw segment stands for.
fn directive_of_segment(seg: &str) -> (r: (String, String))
    ensures
        (r.0@, r.1@) == directive_of(seg@),
{
    let n = seg.unicode_len();
    let (lo, hi) = trim_bounds(seg, n);
    let trimmed = seg.substring_char(lo, hi);
    let m = hi - lo;
    proof {
        assert(trimmed@ == trim_spec(seg@));
    }
    if m == 1 && trimmed.get_char(0) == '*' {
        proof {
            assert(trimmed@ =~= seq!['*']);
            reveal_strlit("all");
            reveal_strlit("*");
            assert(("all")@ =~= seq!['a', 'l', 'l']);
            assert(("*")@ =~= seq!['*']);
        }
        return (("all").to_owned(), ("*").to_owned());
    }
    proof {
        if trimmed@ == seq!['*'] {
            assert(trimmed@.len() == 1);
            assert(trimmed@[0] == '*');
        }
    }
    let mut k: usize = 0;
    let mut found = false;
    while k < m && !found
        invariant
            0 <= k <= m == trimmed@.len(),
            !found ==> forall|j: int| 0 <= j < k ==> trimmed@[j] != ':',
            found ==> k < m && trimmed@[k as int] == ':' && forall|j: int|
                0 <= j < k ==> trimmed@[j] != ':',
        decreases m - k + (if found {
            0int
        } else {
            1int
        }),
    {
        if trimmed.get_char(k) == ':' {
            found = true;
        } else {
            k = k + 1;
        }
    }
    if found {
        proof {
            lemma_split_colon_at(trimmed@, k as int);
            assert(trimmed@.contains(':'));
        }
        let key = trimmed.substring_char(0, k);
        let value = trimmed.substring_char(k + 1, m);
        proof {
            assert(key@ =~= trimmed@.take(k as int));
            assert(value@ =~= trimmed@.skip(k as int + 1));
        }
        (key.to_owned(), value.to_owned())
    } else {
        proof {
            assert(forall|j: int| 0 <= j < trimmed@.len() ==> trimmed@[j] != ':');
            assert(!trimmed@.contains(':'));
            reveal_strlit("");
            assert(("")@ =~= Seq::<char>::empty());
        }
        (trimmed.to_owned(), ("").to_owned())
    }
}

/// Encodes the session's raw privilege string as ordered directives:
/// `*` becomes `("all", "*")`, a segment with `:` splits at its first `:`
/// into key and value, and any other segment is a key with an empty value.
/// The empty string yields no directives.
pub fn generate_privileges(session: &KalturaSession) -> (r: Vec<(String, String)>)
    ensures
        directive_views(r@) == parse_privileges(session.privileges@),
{
    let s: &str = session.privileges.as_str();
    let n = s.unicode_len();
    let mut done: Vec<(String, String)> = Vec::new();
    if n == 0 {
        proof {
            assert(directive_views(done@) =~= parse_privileges(s@));
        }
        return done;
    }
    let mut start: usize = 0;
    let mut i: usize = 0;
    while i < n
        invariant
            0 < n == s@.len(),
            0 <= start <= i <= n,
            segments(s@.take(i as int)).len() == done@.len() + 1,
            directive_views(done@) =~= directives_of(
                segments(s@.take(i as int)).drop_last(),
            ),
            segments(s@.take(i as int)).last() == s@.subrange(start as int, i as int),
        decreases n - i,
    {
        let c = s.get_char(i);
        proof {
            lemma_segments_len(s@.take(i as int));
            assert(s@.take(i + 1 as int).drop_last() =~= s@.take(i as int));
            assert(s@.take(i + 1 as int).last() == s@[i as int]);
        }
        if c == ',' {
            let seg = s.substring_char(start, i);
            proof {
                assert(seg@ =~= segments(s@.take(i as int)).last());
            }
            let d = directive_of_segment(seg);
            let ghost prev = done@;
            done.push(d);
            proof {
                let old_segs = segments(s@.take(i as int));
                let new_segs = segments(s@.take(i + 1 as int));
                assert(new_segs =~= old_segs + seq![Seq::<char>::empty()]);
                assert(new_segs.drop_last() =~= old_segs);
                lemma_directive_views_push(prev, d);
                lemma_directives_of_split(old_segs);
                assert(directive_views(done@) =~= directives_of(old_segs));
                assert(s@.subrange(i + 1 as int, i + 1 as int) =~= Seq::<char>::empty());
            }
            start = i + 1;
        } else {
            proof {
                let old_segs = segments(s@.take(i as int));
                let new_segs = segments(s@.take(i + 1 as int));
                assert(new_segs == old_segs.update(
                    old_segs.len() - 1,
                    old_segs.last().push(s@[i as int]),
                ));
                assert(new_segs.drop_last() =~= old_segs.drop_last());
                assert(directive_views(done@) =~= directives_of(new_segs.drop_last()));
                assert(new_segs.last() =~= s@.subrange(start as int, i + 1 as int));
            }
        }
        i = i + 1;
    }
    let seg = s.substring_char(start, n);
    proof {
        assert(s@.take(n as int) =~= s@);
        assert(seg@ =~= segments(s@).last());
    }
    let d = directive_of_segment(seg);
    let ghost prev = done@;
    done.push(d);
    proof {
        lemma_segments_len(s@);
        lemma_directive_views_push(prev, d);
        lemma_directives_of_split(segments(s@));
        assert(directive_views(done@) =~= directives_of(segments(s@)));
    }
    done
}

} // verus!
