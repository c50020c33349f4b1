//! Wildcard patterns: `*` stands for any run of characters, `?` for any one character.

use vstd::prelude::*;

use crate::text::{chars_of, lowercase, to_lowercase};

verus! {

/// Whether the value is made of what the pattern's characters stand for, one after the
/// other.
pub open spec fn glob_matches(pattern: Seq<char>, value: Seq<char>) -> bool
    decreases pattern.len(), value.len(),
{
    if pattern.len() == 0 {
        value.len() == 0
    } else if pattern[0] == '*' {
        ||| glob_matches(pattern.drop_first(), value)
        ||| value.len() > 0 && glob_matches(pattern, value.drop_first())
    } else {
        &&& value.len() > 0
        &&& pattern[0] == '?' || pattern[0] == value[0]
        &&& glob_matches(pattern.drop_first(), value.drop_first())
    }
}

/// Whether nothing but `*` is left of the pattern.
pub open spec fn only_stars(pattern: Seq<char>) -> bool {
    forall|i: int| 0 <= i < pattern.len() ==> pattern[i] == '*'
}

/// How a scan of `value` from `v` on ends that is at `p` in the pattern. `star` is the
/// index of the `*` that the scan goes back to, or -1, and `mark` is where what that `*`
/// stands for ends at present.
///
/// A `*` that faces a `*` in the value stands for that character alone and is not gone
/// back to; on values without `*` the scan agrees with `glob_matches`.
pub open spec fn scan(
    pattern: Seq<char>,
    value: Seq<char>,
    p: int,
    v: int,
    star: int,
    mark: int,
) -> bool
    decreases pattern.len() - star, value.len() - mark, value.len() - v,
    when -1 <= star < p <= pattern.len() && mark <= v <= value.len()
{
    if v == value.len() {
        only_stars(pattern.skip(p))
    } else if p < pattern.len() && (pattern[p] == '?' || pattern[p] == value[v]) {
        scan(pattern, value, p + 1, v + 1, star, mark)
    } else if p < pattern.len() && pattern[p] == '*' {
        scan(pattern, value, p + 1, v, p, v)
    } else if star >= 0 {
        scan(pattern, value, star + 1, mark + 1, star, mark + 1)
    } else {
        false
    }
}

/// Whether what is left of the pattern fits the value from some index after `mark` on.
spec fn fits_later(pattern: Seq<char>, value: Seq<char>, mark: int) -> bool {
    exists|k: int| mark < k <= value.len() && glob_matches(pattern, #[trigger] value.skip(k))
}

/// A pattern of stars alone fits the empty value, and no other pattern does.
proof fn lemma_empty_value(pattern: Seq<char>)
    ensures
        glob_matches(pattern, Seq::empty()) == only_stars(pattern),
    decreases pattern.len(),
{
    if pattern.len() > 0 {
        let rest = pattern.drop_first();
        lemma_empty_value(rest);
        if pattern[0] == '*' {
            if only_stars(rest) {
                assert forall|i: int| 0 <= i < pattern.len() implies pattern[i] == '*' by {
                    if i > 0 {
                        assert(pattern[i] == rest[i - 1]);
                    }
                }
            }
            if only_stars(pattern) {
                assert forall|i: int| 0 <= i < rest.len() implies rest[i] == '*' by {
                    assert(rest[i] == pattern[i + 1]);
                }
            }
        }
    }
}

/// A leading `*` fits where the rest of the pattern fits here or later.
proof fn lemma_star(pattern: Seq<char>, value: Seq<char>, v: int)
    requires
        pattern.len() > 0,
        pattern[0] == '*',
        0 <= v <= value.len(),
    ensures
        glob_matches(pattern, value.skip(v)) == (glob_matches(pattern.drop_first(), value.skip(v))
            || fits_later(pattern.drop_first(), value, v)),
    decreases value.len() - v,
{
    let rest = pattern.drop_first();
    if v < value.len() {
        lemma_star(pattern, value, v + 1);
        assert(value.skip(v).drop_first() =~= value.skip(v + 1));
        if fits_later(rest, value, v) {
            let k = choose|k: int|
                v < k <= value.len() && glob_matches(rest, #[trigger] value.skip(k));
            if k > v + 1 {
                assert(fits_later(rest, value, v + 1));
            }
        }
        if fits_later(rest, value, v + 1) {
            let k = choose|k: int|
                v + 1 < k <= value.len() && glob_matches(rest, #[trigger] value.skip(k));
            assert(fits_later(rest, value, v));
        }
        if glob_matches(rest, value.skip(v + 1)) {
            assert(fits_later(rest, value, v));
        }
    } else {
        assert(value.skip(v) =~= Seq::empty());
    }
}

/// Where a pattern begins with `n` characters other than `*`, a value that it fits goes
/// on after `n` characters with what the rest of the pattern fits.
proof fn lemma_literals(pattern: Seq<char>, value: Seq<char>, n: int)
    requires
        0 <= n <= pattern.len(),
        forall|i: int| 0 <= i < n ==> pattern[i] != '*',
        glob_matches(pattern, value),
    ensures
        n <= value.len(),
        glob_matches(pattern.skip(n), value.skip(n)),
    decreases n,
{
    if n == 0 {
        assert(pattern.skip(0) =~= pattern);
        assert(value.skip(0) =~= value);
    } else {
        assert(pattern[0] != '*');
        lemma_literals(pattern.drop_first(), value.drop_first(), n - 1);
        assert(pattern.drop_first().skip(n - 1) =~= pattern.skip(n));
        assert(value.drop_first().skip(n - 1) =~= value.skip(n));
    }
}

/// The scan finds out what `glob_matches` says, on a value without `*`.
proof fn lemma_scan(pattern: Seq<char>, value: Seq<char>, p: int, v: int, star: int, mark: int)
    requires
        -1 <= star < p <= pattern.len(),
        0 <= mark <= v <= value.len(),
        !value.contains('*'),
        star >= 0 ==> pattern[star] == '*' && v - mark == p - star - 1,
        forall|i: int| star < i < p ==> pattern[i] != '*',
    ensures
        scan(pattern, value, p, v, star, mark) == (glob_matches(pattern.skip(p), value.skip(v)) || (
        star >= 0 && fits_later(pattern.skip(star + 1), value, mark))),
    decreases pattern.len() - star, value.len() - mark, value.len() - v,
{
    let rest = pattern.skip(p);
    let seen = pattern.skip(star + 1);
    if v == value.len() {
        assert(value.skip(v) =~= Seq::empty());
        lemma_empty_value(rest);
        if star >= 0 && fits_later(seen, value, mark) {
            let k = choose|k: int|
                mark < k <= value.len() && glob_matches(seen, #[trigger] value.skip(k));
            lemma_literals(seen, value.skip(k), p - star - 1);
        }
    } else if p < pattern.len() && (pattern[p] == '?' || pattern[p] == value[v]) {
        assert(value.contains(value[v]));
        assert(pattern[p] != '*');
        assert(rest.drop_first() =~= pattern.skip(p + 1));
        assert(value.skip(v).drop_first() =~= value.skip(v + 1));
        lemma_scan(pattern, value, p + 1, v + 1, star, mark);
    } else if p < pattern.len() && pattern[p] == '*' {
        lemma_scan(pattern, value, p + 1, v, p, v);
        assert(rest.drop_first() =~= pattern.skip(p + 1));
        lemma_star(rest, value, v);
        if star >= 0 && fits_later(seen, value, mark) {
            let k = choose|k: int|
                mark < k <= value.len() && glob_matches(seen, #[trigger] value.skip(k));
            let n = p - star - 1;
            lemma_literals(seen, value.skip(k), n);
            assert(seen.skip(n) =~= rest);
            assert(value.skip(k).skip(n) =~= value.skip(k + n));
            lemma_star(rest, value, k + n);
            if fits_later(rest.drop_first(), value, k + n) {
                let m = choose|m: int|
                    k + n < m <= value.len() && glob_matches(
                        rest.drop_first(),
                        #[trigger] value.skip(m),
                    );
                assert(fits_later(rest.drop_first(), value, v));
            }
            assert(fits_later(rest.drop_first(), value, v));
        }
    } else if star >= 0 {
        lemma_scan(pattern, value, star + 1, mark + 1, star, mark + 1);
        if fits_later(seen, value, mark) {
            let k = choose|k: int|
                mark < k <= value.len() && glob_matches(seen, #[trigger] value.skip(k));
            if k > mark + 1 {
                assert(fits_later(seen, value, mark + 1));
            }
        }
        if fits_later(seen, value, mark + 1) {
            let k = choose|k: int|
                mark + 1 < k <= value.len() && glob_matches(seen, #[trigger] value.skip(k));
            assert(fits_later(seen, value, mark));
        }
        if glob_matches(seen, value.skip(mark + 1)) {
            assert(fits_later(seen, value, mark));
        }
    }
}

/// The scan of a whole value without `*` finds out what `glob_matches` says.
pub proof fn lemma_scan_agrees(pattern: Seq<char>, value: Seq<char>)
    requires
        !value.contains('*'),
    ensures
        scan(pattern, value, 0, 0, -1, 0) == glob_matches(pattern, value),
{
    assert(pattern.skip(0) =~= pattern);
    assert(value.skip(0) =~= value);
    lemma_scan(pattern, value, 0, 0, -1, 0);
}

/// A pattern without wildcards fits itself and nothing else.
pub proof fn law_plain_pattern(pattern: Seq<char>, value: Seq<char>)
    requires
        !pattern.contains('*'),
        !pattern.contains('?'),
    ensures
        glob_matches(pattern, value) == (pattern == value),
    decreases pattern.len(),
{
    if pattern.len() == 0 {
        if value.len() == 0 {
            assert(pattern =~= value);
        }
    } else {
        let rest = pattern.drop_first();
        assert(pattern.contains(pattern[0]));
        assert forall|c: char| rest.contains(c) implies pattern.contains(c) by {
            let i = choose|i: int| 0 <= i < rest.len() && rest[i] == c;
            assert(pattern[i + 1] == c);
        }
        if value.len() > 0 {
            law_plain_pattern(rest, value.drop_first());
            if rest == value.drop_first() && pattern[0] == value[0] {
                assert(pattern =~= value) by {
                    assert(pattern =~= seq![pattern[0]] + rest);
                    assert(value =~= seq![value[0]] + value.drop_first());
                }
            }
        }
    }
}

/// The pattern `*` fits every value.
pub proof fn law_star_fits_all(value: Seq<char>)
    ensures
        glob_matches(seq!['*'], value),
    decreases value.len(),
{
    let pattern = seq!['*'];
    if value.len() == 0 {
        assert(glob_matches(pattern.drop_first(), value));
    } else {
        law_star_fits_all(value.drop_first());
    }
}

/// Whether the pattern fits the value. Both are taken character by character.
pub fn wildcard_match_inner(pattern: &[char], value: &[char]) -> (r: bool)
    ensures
        r == scan(pattern@, value@, 0, 0, -1, 0),
        !value@.contains('*') ==> r == glob_matches(pattern@, value@),
{
    proof {
        assert(pattern@.skip(0) =~= pattern@);
        assert(value@.skip(0) =~= value@);
        if !value@.contains('*') {
            lemma_scan(pattern@, value@, 0, 0, -1, 0);
        }
    }
    let mut p: usize = 0;
    let mut v: usize = 0;
    let mut star: Option<usize> = None;
    let mut mark: usize = 0;
    let ghost mut s: int = -1;
    while v < value.len()
        invariant
            s == (match star {
                Some(i) => i as int,
                None => -1int,
            }),
            s < p <= pattern@.len(),
            mark <= v <= value@.len(),
            !value@.contains('*') ==> scan(pattern@, value@, 0, 0, -1, 0) == glob_matches(
                pattern@,
                value@,
            ),
            scan(pattern@, value@, 0, 0, -1, 0) == scan(
                pattern@,
                value@,
                p as int,
                v as int,
                s,
                mark as int,
            ),
        decreases pattern@.len() - s, value@.len() - mark, value@.len() - v,
    {
        if p < pattern.len() && (pattern[p] == '?' || pattern[p] == value[v]) {
            p += 1;
            v += 1;
        } else if p < pattern.len() && pattern[p] == '*' {
            star = Some(p);
            mark = v;
            p += 1;
            proof {
                s = p - 1;
            }
        } else if let Some(at) = star {
            p = at + 1;
            mark += 1;
            v = mark;
        } else {
            return false;
        }
    }
    while p < pattern.len() && pattern[p] == '*'
        invariant
            p <= pattern@.len(),
            scan(pattern@, value@, 0, 0, -1, 0) == only_stars(pattern@.skip(p as int)),
        decreases pattern@.len() - p,
    {
        proof {
            let a = pattern@.skip(p as int);
            let b = pattern@.skip(p as int + 1);
            if only_stars(b) {
                assert forall|i: int| 0 <= i < a.len() implies a[i] == '*' by {
                    if i > 0 {
                        assert(a[i] == b[i - 1]);
                    }
                }
            }
            if only_stars(a) {
                assert forall|i: int| 0 <= i < b.len() implies b[i] == '*' by {
                    assert(b[i] == a[i + 1]);
                }
            }
        }
        p += 1;
    }
    proof {
        if p < pattern@.len() {
            assert(pattern@.skip(p as int)[0] == pattern@[p as int]);
        }
    }
    p == pattern.len()
}

/// Whether the pattern fits the value, in lower case both.
pub open spec fn fits(pattern: Seq<char>, value: Seq<char>) -> bool {
    scan(lowercase(pattern), lowercase(value), 0, 0, -1, 0)
}

/// Whether the pattern fits the value, letters compared without regard to case.
pub fn wildcard_match(pattern: &str, value: &str) -> (r: bool)
    ensures
        r == fits(pattern@, value@),
        !lowercase(value@).contains('*') ==> r == glob_matches(
            lowercase(pattern@),
            lowercase(value@),
        ),
{
    let p = chars_of(to_lowercase(pattern).as_str());
    let v = chars_of(to_lowercase(value).as_str());
    wildcard_match_inner(p.as_slice(), v.as_slice())
}

} // verus!
