//! Matching a topic against a subscription filter with the wildcards `+`
//! (one level) and `#` (any number of trailing levels).
use vstd::prelude::*;
use vstd::slice::slice_subrange;
use vstd::string::StringSliceAdditionalSpecFns;

verus! {

/// The level separator `/`.
pub const SEPARATOR: u8 = 47;

/// The single-level wildcard `+`.
pub const SINGLE_LEVEL: u8 = 43;

/// The multi-level wildcard `#`.
pub const MULTI_LEVEL: u8 = 35;

/// The index of the first `b` in `s`, or the length of `s` if there is none.
pub open spec fn first_index(s: Seq<u8>, b: u8) -> nat
    decreases s.len(),
{
    if s.len() == 0 {
        0
    } else if s[0] == b {
        0
    } else {
        1 + first_index(s.drop_first(), b)
    }
}

/// Whether `s` holds the byte `b`.
pub open spec fn has_byte(s: Seq<u8>, b: u8) -> bool {
    exists|i: int| 0 <= i < s.len() && s[i] == b
}

/// A level of a filter matches a level of a topic: it is `+`, or the same.
pub open spec fn level_matches(f: Seq<u8>, t: Seq<u8>) -> bool {
    f == seq![SINGLE_LEVEL] || f == t
}

/// The filter and the topic have as many levels, and each level of the
/// filter matches the level of the topic at the same place.
pub open spec fn levels_match(f: Seq<u8>, t: Seq<u8>) -> bool
    decreases f.len(),
{
    let i = first_index(f, SEPARATOR);
    let j = first_index(t, SEPARATOR);
    &&& level_matches(f.subrange(0, i as int), t.subrange(0, j as int))
    &&& if i >= f.len() {
        j >= t.len()
    } else {
        j < t.len() && levels_match(f.subrange((i + 1) as int, f.len() as int), t.subrange((j + 1) as int, t.len() as int))
    }
}

/// Whether the topic `t` matches the subscription filter `f`: without
/// wildcards the two are equal; with `#`, the topic starts with what comes
/// before the first `#`; with `+` alone, the levels match one by one.
pub open spec fn topic_matches(f: Seq<u8>, t: Seq<u8>) -> bool {
    if has_byte(f, MULTI_LEVEL) {
        let p = f.subrange(0, first_index(f, MULTI_LEVEL) as int);
        p.len() <= t.len() && t.subrange(0, p.len() as int) == p
    } else if has_byte(f, SINGLE_LEVEL) {
        levels_match(f, t)
    } else {
        f == t
    }
}

/// The first index is the first place that holds the byte.
proof fn lemma_first_index(s: Seq<u8>, b: u8, r: int)
    requires
        0 <= r <= s.len(),
        forall|k: int| 0 <= k < r ==> s[k] != b,
        r == s.len() || s[r] == b,
    ensures
        first_index(s, b) == r as nat,
    decreases s.len(),
{
    if s.len() > 0 && s[0] != b {
        assert forall|k: int| 0 <= k < r - 1 implies s.drop_first()[k] != b by {
            assert(s.drop_first()[k] == s[k + 1]);
        }
        lemma_first_index(s.drop_first(), b, r - 1);
    }
}

/// The index of the first `b` in `s`, or the length of `s`.
pub fn find(s: &[u8], b: u8) -> (r: usize)
    ensures
        r as int == first_index(s@, b),
        r <= s@.len(),
        has_byte(s@, b) <==> r < s@.len(),
{
    let mut i: usize = 0;
    while i < s.len()
        invariant
            i <= s@.len(),
            forall|k: int| 0 <= k < i ==> s@[k] != b,
        decreases s@.len() - i,
    {
        if s[i] == b {
            proof {
                lemma_first_index(s@, b, i as int);
            }
            return i;
        }
        i = i + 1;
    }
    proof {
        lemma_first_index(s@, b, i as int);
    }
    i
}

/// Whether two byte strings are equal.
pub fn bytes_equal(a: &[u8], b: &[u8]) -> (r: bool)
    ensures
        r == (a@ == b@),
{
    if a.len() != b.len() {
        return false;
    }
    let mut i: usize = 0;
    while i < a.len()
        invariant
            i <= a@.len(),
            a@.len() == b@.len(),
            forall|k: int| 0 <= k < i ==> a@[k] == b@[k],
        decreases a@.len() - i,
    {
        if a[i] != b[i] {
            return false;
        }
        i = i + 1;
    }
    proof {
        assert(a@ =~= b@);
    }
    true
}

/// Whether the levels of a filter with `+` match those of a topic.
fn levels_match_exec(filter: &[u8], topic: &[u8]) -> (r: bool)
    ensures
        r == levels_match(filter@, topic@),
{
    let mut f = filter;
    let mut t = topic;
    loop
        invariant
            levels_match(filter@, topic@) == levels_match(f@, t@),
        decreases f@.len(),
    {
        let i = find(f, SEPARATOR);
        let j = find(t, SEPARATOR);
        let fl = slice_subrange(f, 0, i);
        let tl = slice_subrange(t, 0, j);
        let plus = fl.len() == 1 && fl[0] == SINGLE_LEVEL;
        proof {
            if fl@.len() == 1 && fl@[0] == SINGLE_LEVEL {
                assert(fl@ =~= seq![SINGLE_LEVEL]);
            }
        }
        if !plus && !bytes_equal(fl, tl) {
            return false;
        }
        if i >= f.len() {
            return j >= t.len();
        }
        if j >= t.len() {
            return false;
        }
        f = slice_subrange(f, i + 1, f.len());
        t = slice_subrange(t, j + 1, t.len());
    }
}

/// Whether `topic` matches the subscription filter `subscription`.
pub fn does_topic_match_subscription(subscription: &str, topic: &str) -> (r: bool)
    ensures
        r == topic_matches(subscription.spec_bytes(), topic.spec_bytes()),
{
    let f = subscription.as_bytes();
    let t = topic.as_bytes();
    let hash = find(f, MULTI_LEVEL);
    if hash < f.len() {
        let prefix = slice_subrange(f, 0, hash);
        if prefix.len() > t.len() {
            return false;
        }
        return bytes_equal(slice_subrange(t, 0, prefix.len()), prefix);
    }
    let plus = find(f, SINGLE_LEVEL);
    if plus < f.len() {
        return levels_match_exec(f, t);
    }
    bytes_equal(f, t)
}

} // verus!
