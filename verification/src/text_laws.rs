//! What holds of searching, splitting, trimming and joining, whatever the text.

use vstd::prelude::*;

use crate::glob::{fits, glob_matches, scan};
use crate::order::before;
use crate::text::{
    after_last, before_last, contains_text, decimal, digit, digits, is_white_space, join, just,
    last_index, lemma_last_index, lowercase, occurs_at, replace_char, split_on, strip_back,
    strip_front, trimmed, trimmed_of, white_space,
};

verus! {

/// A text stands in another if that is made of something, the text, and something more.
pub proof fn law_contained_text_is_surrounded(hay: Seq<char>, needle: Seq<char>)
    ensures
        contains_text(hay, needle) <==> exists|a: Seq<char>, b: Seq<char>|
            hay == #[trigger] (a + needle + b),
{
    if contains_text(hay, needle) {
        let i = choose|i: int| occurs_at(hay, needle, i);
        let n = i + needle.len();
        assert(hay =~= hay.take(i) + needle + hay.skip(n)) by {
            assert forall|k: int| 0 <= k < needle.len() implies hay[i + k] == needle[k] by {
                assert(hay.subrange(i, n)[k] == needle[k]);
            }
        }
    }
    if exists|a: Seq<char>, b: Seq<char>| hay == #[trigger] (a + needle + b) {
        let (a, b) = choose|a: Seq<char>, b: Seq<char>| hay == #[trigger] (a + needle + b);
        assert(hay.subrange(a.len() as int, (a.len() + needle.len()) as int) =~= needle);
        assert(occurs_at(hay, needle, a.len() as int));
    }
}

/// The last separator is the one that none follows: what stands before it and what stands after
/// it are the two halves of the text.
pub proof fn law_text_parts_at_its_last_separator(a: Seq<char>, b: Seq<char>, c: char)
    requires
        !b.contains(c),
    ensures
        last_index(a.push(c) + b, c) == a.len(),
        before_last(a.push(c) + b, c) == a,
        after_last(a.push(c) + b, c) == b,
        last_index(b, c) == -1,
        before_last(b, c) == Seq::<char>::empty(),
        after_last(b, c) == b,
{
    let s = a.push(c) + b;
    lemma_last_index(s, c);
    lemma_last_index(b, c);
    assert(s[a.len() as int] == c);
    assert(s.contains(c));
    let i = last_index(s, c);
    if i > a.len() {
        assert(s[i] == b[i - a.len() - 1]);
        assert(b.contains(b[i - a.len() - 1]));
    }
    assert(i == a.len());
    assert(s.take(i) =~= a);
    assert(s.skip(i + 1) =~= b);
    assert(b.skip(0) =~= b);
}

/// Lists that are joined one after the other give what each of them gives, with the separator
/// between; one part alone is joined to itself, and none to nothing.
pub proof fn law_joined_lists_follow_each_other(
    a: Seq<Seq<char>>,
    b: Seq<Seq<char>>,
    part: Seq<char>,
    sep: Seq<char>,
)
    ensures
        join(Seq::empty(), sep) == Seq::<char>::empty(),
        join(seq![part], sep) == part,
        a.len() > 0 && b.len() > 0 ==> join(a + b, sep) == join(a, sep) + sep + join(b, sep),
    decreases b.len(),
{
    if a.len() > 0 && b.len() > 0 {
        let all = a + b;
        if b.len() == 1 {
            assert(all.drop_last() =~= a);
            assert(join(all, sep) =~= join(a, sep) + sep + join(b, sep));
        } else {
            law_joined_lists_follow_each_other(a, b.drop_last(), part, sep);
            assert(all.drop_last() =~= a + b.drop_last());
            assert(join(all, sep) =~= join(a, sep) + sep + join(b, sep));
        }
    }
}

/// A text that is split is the text again when its parts are joined, and no part holds the
/// separator.
pub proof fn law_split_text_joins_again(s: Seq<char>, sep: char)
    ensures
        split_on(s, sep).len() > 0,
        join(split_on(s, sep), seq![sep]) == s,
        forall|i: int|
            0 <= i < split_on(s, sep).len() ==> !(#[trigger] split_on(s, sep)[i]).contains(sep),
    decreases s.len(),
{
    let parts = split_on(s, sep);
    if s.len() == 0 {
        assert(join(parts, seq![sep]) =~= s);
    } else {
        let rest = s.drop_last();
        let before = split_on(rest, sep);
        law_split_text_joins_again(rest, sep);
        assert(s =~= rest.push(s.last()));
        if s.last() == sep {
            assert(parts.drop_last() =~= before);
            assert(join(parts, seq![sep]) =~= s);
        } else {
            let last = before.last().push(s.last());
            assert(parts.drop_last() =~= before.drop_last());
            assert forall|i: int| 0 <= i < parts.len() implies !(#[trigger] parts[i]).contains(
                sep,
            ) by {
                if i < parts.len() - 1 {
                    assert(parts[i] == before[i]);
                } else {
                    assert(!before[before.len() - 1].contains(sep));
                    if last.contains(sep) {
                        let k = choose|k: int| 0 <= k < last.len() && last[k] == sep;
                        assert(before.last()[k] == sep);
                    }
                }
            }
            assert(join(parts, seq![sep]) =~= s);
        }
    }
}

/// Replacing a character changes it wherever it stands, and nothing else.
pub proof fn law_replaced_characters(s: Seq<char>, from: char, to: char, i: int)
    requires
        0 <= i < s.len(),
    ensures
        replace_char(s, from, to).len() == s.len(),
        s[i] == from ==> replace_char(s, from, to)[i] == to,
        s[i] != from ==> replace_char(s, from, to)[i] == s[i],
{
}

/// What is stripped off the front is all of it in the set, and what is left does not begin with
/// a member.
pub proof fn law_stripped_front(s: Seq<char>, p: spec_fn(char) -> bool)
    ensures
        ({
            let r = strip_front(s, p);
            let k = s.len() - r.len();
            &&& 0 <= k
            &&& r == s.skip(k)
            &&& forall|i: int| 0 <= i < k ==> p(#[trigger] s[i])
            &&& r.len() > 0 ==> !p(r[0])
        }),
    decreases s.len(),
{
    if s.len() > 0 && p(s.first()) {
        let t = s.drop_first();
        law_stripped_front(t, p);
        let r = strip_front(t, p);
        let k = t.len() - r.len();
        assert(t.skip(k) =~= s.skip(k + 1));
        assert forall|i: int| 0 <= i < k + 1 implies p(#[trigger] s[i]) by {
            if i > 0 {
                assert(t[i - 1] == s[i]);
            }
        }
    } else {
        assert(s.skip(0) =~= s);
    }
}

/// What is stripped off the end is all of it in the set, and what is left does not end with a
/// member.
pub proof fn law_stripped_back(s: Seq<char>, p: spec_fn(char) -> bool)
    ensures
        ({
            let r = strip_back(s, p);
            &&& r.len() <= s.len()
            &&& r == s.take(r.len() as int)
            &&& forall|i: int| r.len() <= i < s.len() ==> p(#[trigger] s[i])
            &&& r.len() > 0 ==> !p(r.last())
        }),
    decreases s.len(),
{
    if s.len() > 0 && p(s.last()) {
        let t = s.drop_last();
        law_stripped_back(t, p);
        let r = strip_back(t, p);
        assert(t.take(r.len() as int) =~= s.take(r.len() as int));
        assert forall|i: int| r.len() <= i < s.len() implies p(#[trigger] s[i]) by {
            if i < t.len() {
                assert(t[i] == s[i]);
            }
        }
    } else {
        assert(s.take(s.len() as int) =~= s);
    }
}

/// Whether `s` is `bare` between two runs of members of `p`, and `bare` neither begins nor ends
/// with one.
pub open spec fn is_bare_of(s: Seq<char>, bare: Seq<char>, p: spec_fn(char) -> bool) -> bool {
    &&& bare.len() > 0 ==> !p(bare[0]) && !p(bare.last())
    &&& exists|a: Seq<char>, b: Seq<char>|
        s == #[trigger] (a + bare + b) && (forall|i: int| 0 <= i < a.len() ==> p(#[trigger] a[i]))
            && forall|i: int| 0 <= i < b.len() ==> p(#[trigger] b[i])
}

/// Stripping both ends takes away what is in the set and leaves the rest.
proof fn lemma_bare(s: Seq<char>, p: spec_fn(char) -> bool)
    ensures
        is_bare_of(s, strip_back(strip_front(s, p), p), p),
{
    law_stripped_front(s, p);
    let t = strip_front(s, p);
    law_stripped_back(t, p);
    let bare = strip_back(t, p);
    let k = s.len() - t.len();
    let a = s.take(k);
    let b = t.skip(bare.len() as int);
    assert(s =~= a + bare + b);
    assert forall|i: int| 0 <= i < a.len() implies p(#[trigger] a[i]) by {
        assert(a[i] == s[i]);
    }
    assert forall|i: int| 0 <= i < b.len() implies p(#[trigger] b[i]) by {
        assert(b[i] == t[bare.len() + i]);
    }
    if bare.len() > 0 {
        assert(bare[0] == t[0]);
    }
}

/// Trimming takes away white space at the ends, all of it and nothing else.
pub proof fn law_trimmed_text(s: Seq<char>, c: char)
    ensures
        is_bare_of(s, trimmed(s), |x: char| is_white_space(x)),
        is_bare_of(s, trimmed_of(s, c), |x: char| x == c),
{
    lemma_bare(s, white_space());
    lemma_bare(s, just(c));
    assert(white_space() =~= (|x: char| is_white_space(x)));
    assert(just(c) =~= (|x: char| x == c));
}

/// The white-space characters.
pub proof fn law_white_space(c: char)
    ensures
        is_white_space(c) <==> {
            ||| c == '\t' || c == '\n' || c == '\u{b}' || c == '\u{c}' || c == '\r' || c == ' '
            ||| c == '\u{85}' || c == '\u{a0}' || c == '\u{1680}' || ('\u{2000}' <= c && c
                <= '\u{200a}')
            ||| c == '\u{2028}' || c == '\u{2029}' || c == '\u{202f}' || c == '\u{205f}' || c
                == '\u{3000}'
        },
{
}

/// The number that decimal digits are read as.
pub open spec fn number_read(s: Seq<char>) -> int
    decreases s.len(),
{
    if s.len() == 0 {
        0
    } else {
        10 * number_read(s.drop_last()) + (s.last() as int - '0' as int)
    }
}

/// The digits of a number are read as that number, are digits all of them, and do not begin
/// with a needless zero.
pub proof fn law_digits_read_as_the_number(n: nat)
    ensures
        number_read(digits(n)) == n,
        digits(n).len() > 0,
        forall|i: int| 0 <= i < digits(n).len() ==> '0' <= #[trigger] digits(n)[i] <= '9',
        digits(n)[0] == '0' ==> n == 0,
    decreases n,
{
    let s = digits(n);
    if n < 10 {
        assert(s.drop_last() =~= Seq::<char>::empty());
        assert(number_read(s.drop_last()) == 0);
    } else {
        law_digits_read_as_the_number(n / 10);
        assert(s.drop_last() =~= digits(n / 10));
        assert(s[0] == digits(n / 10)[0]);
        assert(digit(n % 10) as int == 48 + n % 10);
    }
}

/// Different numbers have different digits.
pub proof fn law_digits_tell_numbers_apart(a: nat, b: nat)
    requires
        digits(a) == digits(b),
    ensures
        a == b,
{
    law_digits_read_as_the_number(a);
    law_digits_read_as_the_number(b);
}

/// The decimal notation of a number is read as that number: a negative one as a minus and its
/// magnitude.
pub proof fn law_decimal_reads_as_the_number(n: int)
    ensures
        n >= 0 ==> number_read(decimal(n)) == n && decimal(n)[0] != '-',
        n < 0 ==> decimal(n)[0] == '-' && number_read(decimal(n).skip(1)) == -n,
{
    if n >= 0 {
        law_digits_read_as_the_number(n as nat);
        assert('0' <= digits(n as nat)[0]);
    } else {
        law_digits_read_as_the_number((-n) as nat);
        assert(decimal(n).skip(1) =~= digits((-n) as nat));
    }
}

/// Whether the two texts begin with the same `k` characters, and the first then ends or has the
/// smaller character.
pub open spec fn falls_behind_at(a: Seq<char>, b: Seq<char>, k: int) -> bool {
    &&& 0 <= k <= a.len()
    &&& k < b.len()
    &&& a.take(k) == b.take(k)
    &&& k == a.len() || a[k] < b[k]
}

/// One text comes before another if, after what they begin with in common, it has the smaller
/// character or ends first.
pub proof fn law_order_of_texts(a: Seq<char>, b: Seq<char>)
    ensures
        before(a, b) <==> exists|k: int| falls_behind_at(a, b, k),
    decreases a.len(),
{
    if b.len() == 0 {
    } else if a.len() == 0 {
        assert(a.take(0) =~= b.take(0));
        assert(falls_behind_at(a, b, 0));
    } else if a[0] != b[0] {
        assert(a.take(0) =~= b.take(0));
        assert forall|k: int| falls_behind_at(a, b, k) implies k == 0 by {
            if k > 0 {
                assert(a.take(k)[0] == b.take(k)[0]);
            }
        }
        if a[0] < b[0] {
            assert(falls_behind_at(a, b, 0));
        }
    } else {
        let x = a.drop_first();
        let y = b.drop_first();
        law_order_of_texts(x, y);
        if before(a, b) {
            let k = choose|k: int| falls_behind_at(x, y, k);
            assert(a.take(k + 1) =~= seq![a[0]] + x.take(k));
            assert(b.take(k + 1) =~= seq![b[0]] + y.take(k));
            assert(falls_behind_at(a, b, k + 1));
        }
        if exists|k: int| falls_behind_at(a, b, k) {
            let k = choose|k: int| falls_behind_at(a, b, k);
            assert(k > 0);
            assert(x.take(k - 1) =~= a.take(k).drop_first());
            assert(y.take(k - 1) =~= b.take(k).drop_first());
            assert(falls_behind_at(x, y, k - 1));
        }
    }
}

/// Whether the first `k` characters fit the one pattern and the others the other.
pub open spec fn fit_in_turn(p: Seq<char>, q: Seq<char>, value: Seq<char>, k: int) -> bool {
    0 <= k <= value.len() && glob_matches(p, value.take(k)) && glob_matches(q, value.skip(k))
}

/// A pattern made of two fits what is made of something that the first fits and something that
/// the second fits.
pub proof fn law_pattern_of_two(p: Seq<char>, q: Seq<char>, value: Seq<char>)
    ensures
        glob_matches(p + q, value) <==> exists|k: int| fit_in_turn(p, q, value, k),
    decreases p.len(), value.len(),
{
    if p.len() == 0 {
        assert(p + q =~= q);
        assert(value.skip(0) =~= value);
        if glob_matches(q, value) {
            assert(fit_in_turn(p, q, value, 0));
        }
        assert forall|k: int| fit_in_turn(p, q, value, k) implies k == 0 by {}
    } else {
        let rest = p.drop_first();
        let tail = value.drop_first();
        assert((p + q).drop_first() =~= rest + q);
        assert((p + q)[0] == p[0]);
        law_pattern_of_two(rest, q, value);
        if value.len() > 0 {
            if p[0] == '*' {
                law_pattern_of_two(p, q, tail);
            } else {
                law_pattern_of_two(rest, q, tail);
            }
        }
        if glob_matches(p + q, value) {
            if p[0] == '*' && glob_matches(rest + q, value) {
                let k = choose|k: int| fit_in_turn(rest, q, value, k);
                assert(fit_in_turn(p, q, value, k));
            } else {
                let inner = if p[0] == '*' {
                    p
                } else {
                    rest
                };
                let k = choose|k: int| fit_in_turn(inner, q, tail, k);
                assert(value.take(k + 1).drop_first() =~= tail.take(k));
                assert(value.take(k + 1)[0] == value[0]);
                assert(value.skip(k + 1) =~= tail.skip(k));
                assert(fit_in_turn(p, q, value, k + 1));
            }
        }
        if exists|k: int| fit_in_turn(p, q, value, k) {
            let k = choose|k: int| fit_in_turn(p, q, value, k);
            let head = value.take(k);
            if p[0] == '*' && glob_matches(rest, head) {
                assert(fit_in_turn(rest, q, value, k));
            } else {
                assert(k > 0);
                assert(head.drop_first() =~= tail.take(k - 1));
                assert(value.skip(k) =~= tail.skip(k - 1));
                assert(head[0] == value[0]);
                if p[0] == '*' {
                    assert(fit_in_turn(p, q, tail, k - 1));
                } else {
                    assert(fit_in_turn(rest, q, tail, k - 1));
                }
            }
        }
    }
}

/// What a pattern of one character fits: `*` everything, `?` any one character, and any other
/// character itself.
pub proof fn law_pattern_of_one(c: char, value: Seq<char>)
    ensures
        glob_matches(Seq::empty(), value) <==> value.len() == 0,
        c == '*' ==> glob_matches(seq![c], value),
        c == '?' ==> (glob_matches(seq![c], value) <==> value.len() == 1),
        c != '*' && c != '?' ==> (glob_matches(seq![c], value) <==> value == seq![c]),
{
    let pattern = seq![c];
    assert(pattern.drop_first() =~= Seq::<char>::empty());
    if c == '*' {
        crate::glob::law_star_fits_all(value);
    } else {
        reveal_with_fuel(glob_matches, 2);
        if value.len() > 0 {
            assert(value.drop_first().len() == value.len() - 1);
        }
        if value.len() == 1 && value[0] == c {
            assert(value =~= seq![c]);
        }
    }
}

/// A pattern fits a value in which there is no `*` as its characters say, letters compared in
/// lower case; and every text fits itself as a pattern.
pub proof fn law_names_fit_patterns(pattern: Seq<char>, value: Seq<char>)
    ensures
        !lowercase(value).contains('*') ==> (fits(pattern, value) <==> glob_matches(
            lowercase(pattern),
            lowercase(value),
        )),
        lowercase(pattern) == lowercase(value) ==> fits(pattern, value),
{
    let p = lowercase(pattern);
    let v = lowercase(value);
    if !v.contains('*') {
        crate::glob::lemma_scan_agrees(p, v);
    }
    if p == v {
        lemma_fits_itself(v, 0);
    }
}

/// A scan of a text by itself goes through, from wherever it is.
proof fn lemma_fits_itself(v: Seq<char>, i: int)
    requires
        0 <= i <= v.len(),
    ensures
        scan(v, v, i, i, -1, 0),
    decreases v.len() - i,
{
    if i < v.len() {
        lemma_fits_itself(v, i + 1);
    }
}

} // verus!
