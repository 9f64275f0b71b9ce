//! What holds of texts: case folding, searching, trimming, taking apart and putting together.
use vstd::prelude::*;

use crate::text;

verus! {

/// Folding keeps the length of a text and changes nothing but the letters `A` to `Z`, each of
/// which becomes its small letter.
pub proof fn law_folding_is_ascii(s: Seq<char>, i: int)
    requires
        0 <= i < s.len(),
    ensures
        text::lower(s).len() == s.len(),
        65 <= s[i] as u32 <= 90 ==> text::lower(s)[i] as u32 == s[i] as u32 + 32,
        !(65 <= s[i] as u32 <= 90) ==> text::lower(s)[i] == s[i],
{
}

/// Folding twice is folding once, and a text is folded part by part.
pub proof fn law_folding_goes_part_by_part(a: Seq<char>, b: Seq<char>)
    ensures
        text::lower(text::lower(a)) == text::lower(a),
        text::lower(a + b) == text::lower(a) + text::lower(b),
        text::lower(a).len() == a.len(),
{
    assert(text::lower(text::lower(a)) =~= text::lower(a));
    assert(text::lower(a + b) =~= text::lower(a) + text::lower(b));
}

/// A text occurs in another exactly if the other is some text, then it, then some text.
pub proof fn law_to_occur_is_to_be_a_part(hay: Seq<char>, needle: Seq<char>)
    ensures
        text::occurs(hay, needle) <==> exists|a: Seq<char>, b: Seq<char>|
            hay == #[trigger] (a + needle + b),
{
    if text::occurs(hay, needle) {
        let at = choose|at: int| text::occurs_at(hay, needle, at);
        assert(hay =~= hay.take(at) + needle + hay.skip(at + needle.len()));
    }
    if exists|a: Seq<char>, b: Seq<char>| hay == #[trigger] (a + needle + b) {
        let (a, b) = choose|a: Seq<char>, b: Seq<char>| hay == #[trigger] (a + needle + b);
        assert(hay.subrange(a.len() as int, (a.len() + needle.len()) as int) =~= needle);
        assert(text::occurs_at(hay, needle, a.len() as int));
    }
}

/// The value of a digit: `0` to `9`, then `a` on for ten and more.
pub open spec fn digit_value(c: char) -> int {
    if '0' <= c <= '9' {
        c as u32 - 48
    } else {
        c as u32 - 87
    }
}

/// The number that digits stand for in a base.
pub open spec fn digits_value(s: Seq<char>, base: nat) -> int
    decreases s.len(),
{
    if s.len() == 0 {
        0
    } else {
        digits_value(s.drop_last(), base) * base + digit_value(s.last())
    }
}

/// A numeral is made of digits below its base, has its number as value, and does not start with
/// a zero unless it is zero.
pub proof fn law_a_numeral_has_its_value(n: nat, base: nat)
    requires
        2 <= base <= 16,
    ensures
        digits_value(text::numeral(n, base), base) == n,
        text::numeral(n, base).len() >= 1,
        forall|i: int|
            0 <= i < text::numeral(n, base).len() ==> {
                let c = #[trigger] text::numeral(n, base)[i];
                ('0' <= c <= '9' || 'a' <= c <= 'f') && 0 <= digit_value(c) < base
            },
        n > 0 ==> text::numeral(n, base)[0] != '0',
        n == 0 ==> text::numeral(n, base) == seq!['0'],
    decreases n,
{
    let s = text::numeral(n, base);
    if n < base {
        assert(s =~= seq![text::digit_char(n)]);
        assert(s.drop_last() =~= Seq::empty());
        assert(digits_value(s.drop_last(), base) == 0);
        assert(0 * base == 0) by (nonlinear_arith);
        if n == 0 {
            assert(s =~= seq!['0']);
        }
    } else {
        assert(n / base < n && n / base >= 1) by (nonlinear_arith)
            requires
                2 <= base <= n,
        ;
        law_a_numeral_has_its_value(n / base, base);
        let t = text::numeral(n / base, base);
        assert(s =~= t.push(text::digit_char(n % base)));
        assert(s.drop_last() =~= t);
        vstd::arithmetic::div_mod::lemma_fundamental_div_mod(n as int, base as int);
        assert(n == (n / base) * base + n % base) by (nonlinear_arith)
            requires
                n == base * (n / base) + n % base,
        ;
        assert(0 <= n % base < base) by (nonlinear_arith)
            requires
                base >= 2,
        ;
        assert(digit_value(text::digit_char(n % base)) == n % base);
        assert forall|i: int| 0 <= i < s.len() implies ({
            let c = #[trigger] s[i];
            ('0' <= c <= '9' || 'a' <= c <= 'f') && 0 <= digit_value(c) < base
        }) by {
            if i < t.len() {
                assert(s[i] == t[i]);
            }
        }
        assert(s[0] == t[0]);
    }
}

/// Numbers with the same numeral are the same.
pub proof fn law_numerals_differ(m: nat, n: nat, base: nat)
    requires
        2 <= base <= 16,
        text::numeral(m, base) == text::numeral(n, base),
    ensures
        m == n,
{
    law_a_numeral_has_its_value(m, base);
    law_a_numeral_has_its_value(n, base);
}

/// Trimming takes white space away at both ends and nothing else: what is left is a stretch of
/// the text with only white space around it, and neither starts nor ends with any.
pub proof fn law_trimming_takes_the_ends(t: Seq<char>)
    ensures
        exists|a: Seq<char>, b: Seq<char>|
            t == #[trigger] (a + text::trim(t) + b) && all_white(a) && all_white(b),
        text::trim(t).len() > 0 ==> !text::is_white(text::trim(t)[0]) && !text::is_white(
            text::trim(t).last(),
        ),
{
    lemma_trim_start(t);
    let m = text::trim_start(t);
    let a = choose|a: Seq<char>| t == #[trigger] (a + m) && all_white(a);
    lemma_trim_end(m);
    let b = choose|b: Seq<char>| m == #[trigger] (text::trim(t) + b) && all_white(b);
    assert(t =~= a + text::trim(t) + b);
    if text::trim(t).len() > 0 {
        assert(m[0] == text::trim(t)[0]);
    }
}

pub open spec fn all_white(s: Seq<char>) -> bool {
    forall|i: int| 0 <= i < s.len() ==> text::is_white(#[trigger] s[i])
}

proof fn lemma_trim_start(t: Seq<char>)
    ensures
        exists|a: Seq<char>| t == #[trigger] (a + text::trim_start(t)) && all_white(a),
        text::trim_start(t).len() > 0 ==> !text::is_white(text::trim_start(t)[0]),
    decreases t.len(),
{
    let r = text::trim_start(t);
    if t.len() > 0 && text::is_white(t[0]) {
        lemma_trim_start(t.skip(1));
        assert(r == text::trim_start(t.skip(1)));
        let a = choose|a: Seq<char>| t.skip(1) == #[trigger] (a + r) && all_white(a);
        let b = seq![t[0]] + a;
        assert(t =~= seq![t[0]] + t.skip(1));
        assert(b + r =~= seq![t[0]] + (a + r));
        assert forall|i: int| 0 <= i < b.len() implies text::is_white(#[trigger] b[i]) by {
            if i > 0 {
                assert(b[i] == a[i - 1]);
            }
        }
    } else {
        assert(t =~= Seq::<char>::empty() + r);
    }
}

proof fn lemma_trim_end(t: Seq<char>)
    ensures
        exists|b: Seq<char>| t == #[trigger] (text::trim_end(t) + b) && all_white(b),
        text::trim_end(t).len() > 0 ==> !text::is_white(text::trim_end(t).last()),
    decreases t.len(),
{
    let r = text::trim_end(t);
    if t.len() > 0 && text::is_white(t.last()) {
        lemma_trim_end(t.drop_last());
        assert(r == text::trim_end(t.drop_last()));
        let b = choose|b: Seq<char>| t.drop_last() == #[trigger] (r + b) && all_white(b);
        let c = b.push(t.last());
        assert(t =~= t.drop_last().push(t.last()));
        assert(r + c =~= (r + b).push(t.last()));
    } else {
        assert(t =~= r + Seq::<char>::empty());
    }
}

/// `k` copies of a text.
pub open spec fn copies(tail: Seq<char>, k: nat) -> Seq<char>
    decreases k,
{
    if k == 0 {
        Seq::empty()
    } else {
        copies(tail, (k - 1) as nat) + tail
    }
}

/// Stripping takes away whole copies of the tail, and all of them that the text ends with.
pub proof fn law_stripping_takes_every_copy(s: Seq<char>, tail: Seq<char>)
    requires
        tail.len() > 0,
    ensures
        exists|k: nat| s == text::strip_tails(s, tail) + #[trigger] copies(tail, k),
        !(exists|rest: Seq<char>| text::strip_tails(s, tail) == #[trigger] (rest + tail)),
    decreases s.len(),
{
    let r = text::strip_tails(s, tail);
    if text::ends_with(s, tail) {
        let shorter = s.take(s.len() - tail.len());
        law_stripping_takes_every_copy(shorter, tail);
        let k = choose|k: nat| shorter == r + #[trigger] copies(tail, k);
        assert(s =~= shorter + tail);
        assert(s =~= r + copies(tail, k + 1));
    } else {
        assert(s =~= r + copies(tail, 0));
        if exists|rest: Seq<char>| r == #[trigger] (rest + tail) {
            let rest = choose|rest: Seq<char>| r == #[trigger] (rest + tail);
            assert(s.skip(s.len() - tail.len()) =~= tail);
        }
    }
}

/// Nothing joined is nothing, one part joined is that part, and between two lists of parts stands
/// the separator.
pub proof fn law_joining_separates(a: Seq<Seq<char>>, b: Seq<Seq<char>>, sep: Seq<char>)
    ensures
        a.len() == 0 ==> text::joined(a, sep) == Seq::<char>::empty(),
        a.len() == 1 ==> text::joined(a, sep) == a[0],
        a.len() > 0 && b.len() > 0 ==> text::joined(a + b, sep) == text::joined(a, sep) + sep
            + text::joined(b, sep),
    decreases b.len(),
{
    if a.len() > 0 && b.len() > 0 {
        let all = a + b;
        assert(all.drop_last() =~= a + b.drop_last());
        if b.len() == 1 {
            assert(all.drop_last() =~= a);
            assert(text::joined(all, sep) =~= text::joined(a, sep) + sep + text::joined(b, sep));
        } else {
            law_joining_separates(a, b.drop_last(), sep);
            assert(text::joined(all, sep) =~= text::joined(a, sep) + sep + text::joined(b, sep));
        }
    }
}

/// No part of a split text holds a separator, and joining the parts with the one separator gives
/// the text back, the other separator replaced by it.
pub proof fn law_splitting_is_undone_by_joining(s: Seq<char>, a: char, b: char)
    ensures
        text::split(s, a, b).len() >= 1,
        forall|i: int|
            0 <= i < text::split(s, a, b).len() ==> !(#[trigger] text::split(s, a, b)[i]).contains(a)
                && !text::split(s, a, b)[i].contains(b),
        text::joined(text::split(s, a, b), seq![a]) == s.map_values(
            |c: char|
                if c == b {
                    a
                } else {
                    c
                },
        ),
    decreases s.len(),
{
    let f = |c: char|
        if c == b {
            a
        } else {
            c
        };
    let parts = text::split(s, a, b);
    let sep = seq![a];
    if s.len() == 0 {
        assert(text::joined(parts, sep) =~= s.map_values(f));
    } else {
        let t = s.drop_last();
        let c = s.last();
        let before = text::split(t, a, b);
        law_splitting_is_undone_by_joining(t, a, b);
        assert(s.map_values(f) =~= t.map_values(f).push(f(c)));
        let last = parts.len() - 1;
        if c == a || c == b {
            assert(parts.drop_last() =~= before);
            assert(text::joined(parts, sep) =~= s.map_values(f));
            assert forall|i: int| 0 <= i < parts.len() implies !(#[trigger] parts[i]).contains(a)
                && !parts[i].contains(b) by {
                if i < last {
                    assert(parts[i] == before[i]);
                }
            }
        } else {
            let head = before.drop_last();
            assert(parts.drop_last() =~= head);
            if head.len() > 0 {
                assert(text::joined(before, sep) == text::joined(head, sep) + sep
                    + before.last());
            }
            assert(text::joined(parts, sep) =~= s.map_values(f));
            assert forall|i: int| 0 <= i < parts.len() implies !(#[trigger] parts[i]).contains(a)
                && !parts[i].contains(b) by {
                if i < last {
                    assert(parts[i] == before[i]);
                } else {
                    let p = before[last];
                    assert(parts[i] == p.push(c));
                    assert(!p.contains(a) && !p.contains(b));
                    assert forall|k: int| 0 <= k < parts[i].len() implies #[trigger] parts[i][k] != a
                        && parts[i][k] != b by {
                        if k < p.len() {
                            assert(p[k] == parts[i][k]);
                            assert(p.contains(p[k]));
                        }
                    }
                }
            }
        }
    }
}

/// Texts are ordered as words in a dictionary of code points: the empty one first, what two of
/// them start with alike does not matter, and the first difference decides.
pub proof fn law_texts_are_ordered_by_the_first_difference(
    p: Seq<char>,
    x: Seq<char>,
    y: Seq<char>,
)
    ensures
        text::text_le(p + x, p + y) == text::text_le(x, y),
        x.len() == 0 ==> text::text_le(x, y),
        x.len() > 0 && y.len() == 0 ==> !text::text_le(x, y),
        x.len() > 0 && y.len() > 0 && x[0] != y[0] ==> (text::text_le(x, y) <==> x[0]
            < y[0]),
    decreases p.len(),
{
    if p.len() == 0 {
        assert(p + x =~= x);
        assert(p + y =~= y);
    } else {
        law_texts_are_ordered_by_the_first_difference(p.skip(1), x, y);
        assert((p + x).skip(1) =~= p.skip(1) + x);
        assert((p + y).skip(1) =~= p.skip(1) + y);
    }
}

/// Of two texts one comes no later than the other, and both do only if they are the same.
pub proof fn law_the_order_of_texts_is_total(a: Seq<char>, b: Seq<char>)
    ensures
        text::text_le(a, b) || text::text_le(b, a),
        text::text_le(a, b) && text::text_le(b, a) <==> a == b,
    decreases a.len(),
{
    if a.len() > 0 && b.len() > 0 {
        law_the_order_of_texts_is_total(a.skip(1), b.skip(1));
        if a[0] == b[0] && a.skip(1) == b.skip(1) {
            assert(a =~= seq![a[0]] + a.skip(1));
            assert(b =~= seq![b[0]] + b.skip(1));
        }
    } else if a.len() == 0 && b.len() == 0 {
        assert(a =~= b);
    }
}

/// A digit of an id counts the same in either case, a digit more shifts the number by one place,
/// and zeros in front do not count.
pub proof fn law_hex_digits_have_their_places(s: Seq<char>, c: char)
    ensures
        text::hex_digit(c) == text::hex_digit(text::ascii_lower(c)),
        text::hex_digit(c) is Some <==> '0' <= c <= '9' || 'a' <= c <= 'f' || 'A' <= c <= 'F',
        '0' <= c <= '9' || 'a' <= c <= 'f' ==> text::hex_digit(c)->0 == digit_value(c),
        text::hex_digit(c) is Some ==> text::hex_value(s.push(c)) == 16 * text::hex_value(s)
            + text::hex_digit(c)->0,
        text::hex_value(seq!['0'] + s) == text::hex_value(s),
        s.len() == 0 ==> text::hex_value(s) == 0,
    decreases s.len(),
{
    assert(s.push(c).drop_last() =~= s);
    if s.len() > 0 {
        law_hex_digits_have_their_places(s.drop_last(), c);
        assert((seq!['0'] + s).drop_last() =~= seq!['0'] + s.drop_last());
    } else {
        assert(seq!['0'] + s =~= seq!['0']);
        assert(seq!['0'].drop_last() =~= Seq::empty());
        assert(text::hex_value(seq!['0'].drop_last()) == 0);
    }
}

/// A text that is there is read as it is, and one that is not is read as the empty one.
pub proof fn law_an_absent_text_is_empty(s: Option<String>)
    ensures
        s is None ==> text::opt_view(s) is None,
        s matches Some(t) ==> text::opt_view(s) == Some(t@) && text::or_empty(text::opt_view(s))
            == t@,
        s is None ==> text::or_empty(text::opt_view(s)).len() == 0,
{
}

/// The texts of a list are those of its strings, one for one.
pub proof fn law_a_list_is_read_one_for_one(parts: Seq<String>, i: int)
    requires
        0 <= i < parts.len(),
    ensures
        text::views(parts).len() == parts.len(),
        text::views(parts)[i] == parts[i]@,
{
}

}
