//! Text as sequences of characters: case folding, substring search, trimming and numerals.
use vstd::prelude::*;
use vstd::string::*;

verus! {

/// `String::push`: the character comes last, everything before it stays.
pub assume_specification[ String::push ](s: &mut String, c: char)
    ensures
        final(s)@ == old(s)@.push(c),
;

/// ASCII upper case folded to lower case; every other character stays.
pub open spec fn ascii_lower(c: char) -> char {
    if 'A' <= c <= 'Z' {
        (c as u32 + 32) as char
    } else {
        c
    }
}

pub open spec fn lower(s: Seq<char>) -> Seq<char> {
    s.map_values(|c: char| ascii_lower(c))
}

/// `needle` stands in `hay` from position `at` on.
pub open spec fn occurs_at(hay: Seq<char>, needle: Seq<char>, at: int) -> bool {
    0 <= at <= hay.len() - needle.len() && hay.subrange(at, at + needle.len()) == needle
}

/// `needle` stands somewhere in `hay`.
pub open spec fn occurs(hay: Seq<char>, needle: Seq<char>) -> bool {
    exists|at: int| occurs_at(hay, needle, at)
}

pub open spec fn digit_char(d: nat) -> char {
    if d < 10 {
        ('0' as u32 + d) as char
    } else {
        ('a' as u32 + (d - 10)) as char
    }
}

/// `n` in the given base, most significant digit first, without leading zeros.
pub open spec fn numeral(n: nat, base: nat) -> Seq<char>
    decreases n,
{
    if base < 2 || n < base {
        seq![digit_char(n)]
    } else {
        proof {
            assert(n / base < n) by (nonlinear_arith)
                requires
                    2 <= base <= n,
            ;
        }
        numeral(n / base, base).push(digit_char(n % base))
    }
}

/// The value of a hexadecimal digit in either case.
pub open spec fn hex_digit(c: char) -> Option<nat> {
    if '0' <= c <= '9' {
        Some((c as u32 - '0' as u32) as nat)
    } else if 'a' <= c <= 'f' {
        Some((c as u32 - 'a' as u32 + 10) as nat)
    } else if 'A' <= c <= 'F' {
        Some((c as u32 - 'A' as u32 + 10) as nat)
    } else {
        None
    }
}

pub open spec fn all_hex(s: Seq<char>) -> bool {
    forall|i: int| 0 <= i < s.len() ==> hex_digit(#[trigger] s[i]) is Some
}

/// The number that a sequence of hexadecimal digits stands for.
pub open spec fn hex_value(s: Seq<char>) -> nat
    decreases s.len(),
{
    if s.len() == 0 {
        0
    } else {
        hex_value(s.drop_last()) * 16 + hex_digit(s.last())->0
    }
}

/// The characters with the Unicode property `White_Space`.
pub open spec fn is_white(c: char) -> bool {
    ||| '\u{9}' <= c <= '\u{d}'
    ||| c == '\u{20}'
    ||| c == '\u{85}'
    ||| c == '\u{a0}'
    ||| c == '\u{1680}'
    ||| '\u{2000}' <= c <= '\u{200a}'
    ||| c == '\u{2028}'
    ||| c == '\u{2029}'
    ||| c == '\u{202f}'
    ||| c == '\u{205f}'
    ||| c == '\u{3000}'
}

pub open spec fn trim_start(s: Seq<char>) -> Seq<char>
    decreases s.len(),
{
    if s.len() > 0 && is_white(s[0]) {
        trim_start(s.skip(1))
    } else {
        s
    }
}

pub open spec fn trim_end(s: Seq<char>) -> Seq<char>
    decreases s.len(),
{
    if s.len() > 0 && is_white(s.last()) {
        trim_end(s.drop_last())
    } else {
        s
    }
}

/// `s` without the white space at its ends.
pub open spec fn trim(s: Seq<char>) -> Seq<char> {
    trim_end(trim_start(s))
}

pub open spec fn ends_with(s: Seq<char>, tail: Seq<char>) -> bool {
    tail.len() <= s.len() && s.skip(s.len() - tail.len()) == tail
}

/// `s` without the copies of `tail` that it ends with.
pub open spec fn strip_tails(s: Seq<char>, tail: Seq<char>) -> Seq<char>
    decreases s.len(),
{
    if tail.len() > 0 && ends_with(s, tail) {
        strip_tails(s.take(s.len() - tail.len()), tail)
    } else {
        s
    }
}

/// The parts, in order, with `sep` between each two of them.
pub open spec fn joined(parts: Seq<Seq<char>>, sep: Seq<char>) -> Seq<char>
    decreases parts.len(),
{
    if parts.len() == 0 {
        Seq::empty()
    } else if parts.len() == 1 {
        parts[0]
    } else {
        joined(parts.drop_last(), sep) + sep + parts.last()
    }
}

/// The stretches of `s` between the characters `a` and `b`: one more than there are such
/// characters, some of them perhaps empty.
pub open spec fn split(s: Seq<char>, a: char, b: char) -> Seq<Seq<char>>
    decreases s.len(),
{
    if s.len() == 0 {
        seq![Seq::empty()]
    } else {
        let parts = split(s.drop_last(), a, b);
        if s.last() == a || s.last() == b {
            parts.push(Seq::empty())
        } else {
            parts.drop_last().push(parts.last().push(s.last()))
        }
    }
}

/// The order of texts by their code points, a text before every longer one that it starts.
pub open spec fn text_le(a: Seq<char>, b: Seq<char>) -> bool
    decreases a.len(),
{
    if a.len() == 0 {
        true
    } else if b.len() == 0 {
        false
    } else {
        a[0] < b[0] || (a[0] == b[0] && text_le(a.skip(1), b.skip(1)))
    }
}

pub open spec fn views(parts: Seq<String>) -> Seq<Seq<char>> {
    parts.map_values(|p: String| p@)
}

/// An absent text reads as the empty one.
pub open spec fn or_empty(s: Option<Seq<char>>) -> Seq<char> {
    match s {
        Some(s) => s,
        None => Seq::empty(),
    }
}

pub open spec fn opt_view(s: Option<String>) -> Option<Seq<char>> {
    match s {
        Some(s) => Some(s@),
        None => None,
    }
}

/// The characters of `s`, in order.
pub fn to_chars(s: &str) -> (r: Vec<char>)
    ensures
        r@ == s@,
{
    let mut r: Vec<char> = Vec::new();
    for c in it: s.chars()
        invariant
            it.seq() == s@,
            r@ == s@.take(it.index()),
    {
        r.push(c);
    }
    r
}

pub fn from_chars(cs: &[char]) -> (r: String)
    ensures
        r@ == cs@,
{
    let mut r = String::new();
    let mut i: usize = 0;
    while i < cs.len()
        invariant
            i <= cs.len(),
            r@ == cs@.take(i as int),
        decreases cs.len() - i,
    {
        r.push(cs[i]);
        i += 1;
    }
    r
}

pub fn lower_char(c: char) -> (r: char)
    ensures
        r == ascii_lower(c),
{
    if 'A' <= c && c <= 'Z' {
        (c as u8 + 32) as char
    } else {
        c
    }
}

pub fn digit(d: u8) -> (r: char)
    requires
        d < 36,
    ensures
        r == digit_char(d as nat),
{
    if d < 10 {
        (48u8 + d) as char
    } else {
        (97u8 + (d - 10)) as char
    }
}


/// `n` written in base `base`.
pub fn numeral_text(n: u128, base: u128) -> (r: String)
    requires
        2 <= base <= 16,
    ensures
        r@ == numeral(n as nat, base as nat),
    decreases n,
{
    if n < base {
        let mut r = String::new();
        r.push(digit(n as u8));
        assert(r@ =~= seq![digit_char(n as nat)]);
        r
    } else {
        assert(n / base < n) by (nonlinear_arith)
            requires
                2 <= base <= n,
        ;
        assert(n % base < base) by (nonlinear_arith)
            requires
                2 <= base,
        ;
        let mut r = numeral_text(n / base, base);
        r.push(digit((n % base) as u8));
        r
    }
}

pub fn is_white_char(c: char) -> (r: bool)
    ensures
        r == is_white(c),
{
    ('\u{9}' <= c && c <= '\u{d}') || c == '\u{20}' || c == '\u{85}' || c == '\u{a0}' || c == '\u{1680}'
        || ('\u{2000}' <= c && c <= '\u{200a}') || c == '\u{2028}' || c == '\u{2029}' || c
        == '\u{202f}' || c == '\u{205f}' || c == '\u{3000}'
}

pub fn hex_digit_of(c: char) -> (r: Option<u8>)
    ensures
        r is Some == hex_digit(c) is Some,
        r is Some ==> r->0 == hex_digit(c)->0 && r->0 < 16,
{
    if '0' <= c && c <= '9' {
        Some(c as u8 - 48)
    } else if 'a' <= c && c <= 'f' {
        Some(c as u8 - 87)
    } else if 'A' <= c && c <= 'F' {
        Some(c as u8 - 55)
    } else {
        None
    }
}

pub fn same_chars(a: &[char], b: &[char]) -> (r: bool)
    ensures
        r == (a@ == b@),
{
    if a.len() != b.len() {
        return false;
    }
    let mut i: usize = 0;
    while i < a.len()
        invariant
            i <= a.len(),
            a.len() == b.len(),
            forall|k: int| 0 <= k < i ==> a@[k] == b@[k],
        decreases a.len() - i,
    {
        if a[i] != b[i] {
            return false;
        }
        i += 1;
    }
    assert(a@ =~= b@);
    true
}

pub fn same_text(a: &str, b: &str) -> (r: bool)
    ensures
        r == (a@ == b@),
{
    same_chars(&to_chars(a), &to_chars(b))
}

pub fn lower_chars(s: &str) -> (r: Vec<char>)
    ensures
        r@ == lower(s@),
{
    let cs = to_chars(s);
    let mut r: Vec<char> = Vec::new();
    let mut i: usize = 0;
    while i < cs.len()
        invariant
            i <= cs.len(),
            cs@ == s@,
            r@ == lower(s@).take(i as int),
        decreases cs.len() - i,
    {
        r.push(lower_char(cs[i]));
        i += 1;
    }
    assert(r@ =~= lower(s@));
    r
}

/// Are the two texts equal up to the case of ASCII letters?
pub fn same_text_ci(a: &str, b: &str) -> (r: bool)
    ensures
        r == (lower(a@) == lower(b@)),
{
    same_chars(&lower_chars(a), &lower_chars(b))
}

pub fn stands_at(hay: &[char], needle: &[char], at: usize) -> (r: bool)
    requires
        at + needle@.len() <= hay@.len(),
    ensures
        r == occurs_at(hay@, needle@, at as int),
{
    let total: usize = hay.len();
    let mut i: usize = 0;
    while i < needle.len()
        invariant
            i <= needle.len(),
            at + needle@.len() <= hay@.len(),
            total == hay@.len(),
            forall|k: int| 0 <= k < i ==> hay@[at + k] == needle@[k],
        decreases needle.len() - i,
    {
        if hay[at + i] != needle[i] {
            assert(hay@.subrange(at as int, at + needle@.len())[i as int] != needle@[i as int]);
            return false;
        }
        i += 1;
    }
    assert(hay@.subrange(at as int, at + needle@.len()) =~= needle@);
    true
}

pub fn contains_chars(hay: &[char], needle: &[char]) -> (r: bool)
    ensures
        r == occurs(hay@, needle@),
{
    if needle.len() > hay.len() {
        return false;
    }
    let mut at: usize = 0;
    while at <= hay.len() - needle.len()
        invariant
            at <= hay@.len() - needle@.len() + 1,
            needle@.len() <= hay@.len(),
            forall|k: int| 0 <= k < at ==> !occurs_at(hay@, needle@, k),
        decreases hay.len() - needle.len() + 1 - at,
    {
        if stands_at(hay, needle, at) {
            return true;
        }
        if at == hay.len() - needle.len() {
            return false;
        }
        at += 1;
    }
    false
}

/// Case-insensitive substring test (ASCII-folded, matching how a role is compared).
pub fn contains_ci(hay: &str, needle: &str) -> (r: bool)
    ensures
        r == occurs(lower(hay@), lower(needle@)),
{
    contains_chars(&lower_chars(hay), &lower_chars(needle))
}

/// `s` without the white space at its ends.
pub fn trim_text(s: &str) -> (r: Vec<char>)
    ensures
        r@ == trim(s@),
{
    let cs = to_chars(s);
    let mut from: usize = 0;
    assert(s@.skip(0) =~= s@);
    while from < cs.len() && is_white_char(cs[from])
        invariant
            from <= cs.len(),
            cs@ == s@,
            trim_start(s@.skip(from as int)) == trim_start(s@),
        decreases cs.len() - from,
    {
        assert(s@.skip(from as int).skip(1) =~= s@.skip(from + 1));
        from += 1;
    }
    let mut to: usize = cs.len();
    assert(s@.subrange(from as int, to as int) =~= s@.skip(from as int));
    assert(trim_start(s@) == s@.skip(from as int));
    while from < to && is_white_char(cs[to - 1])
        invariant
            from <= to <= cs.len(),
            cs@ == s@,
            trim_end(s@.subrange(from as int, to as int)) == trim(s@),
        decreases to - from,
    {
        assert(s@.subrange(from as int, to as int).drop_last() =~= s@.subrange(
            from as int,
            to - 1,
        ));
        to -= 1;
    }
    let mut r: Vec<char> = Vec::new();
    let mut i: usize = from;
    while i < to
        invariant
            from <= i <= to <= cs.len(),
            cs@ == s@,
            r@ == s@.subrange(from as int, i as int),
        decreases to - i,
    {
        r.push(cs[i]);
        i += 1;
    }
    r
}

/// `cs` without the copies of `tail` that it ends with.
pub fn strip_tail_copies(cs: Vec<char>, tail: &[char]) -> (r: Vec<char>)
    ensures
        r@ == strip_tails(cs@, tail@),
{
    let mut r = cs;
    if tail.len() == 0 {
        return r;
    }
    while r.len() >= tail.len() && stands_at(&r, tail, r.len() - tail.len())
        invariant
            tail@.len() > 0,
            strip_tails(r@, tail@) == strip_tails(cs@, tail@),
        decreases r.len(),
    {
        let ghost before = r@;
        let keep: usize = r.len() - tail.len();
        r.truncate(keep);
        proof {
            assert(before.skip(before.len() - tail@.len()) =~= before.subrange(
                keep as int,
                keep + tail@.len(),
            ));
            assert(r@ =~= before.take(before.len() - tail@.len()));
        }
    }
    proof {
        if ends_with(r@, tail@) {
            assert(r@.skip(r@.len() - tail@.len()) =~= r@.subrange(
                r@.len() - tail@.len(),
                r@.len() - tail@.len() + tail@.len(),
            ));
        }
    }
    r
}

pub fn join(parts: &Vec<String>, sep: &str) -> (r: String)
    ensures
        r@ == joined(views(parts@), sep@),
{
    let mut r = String::new();
    let mut i: usize = 0;
    while i < parts.len()
        invariant
            i <= parts.len(),
            r@ == joined(views(parts@).take(i as int), sep@),
        decreases parts.len() - i,
    {
        if i > 0 {
            r.append(sep);
        }
        r.append(parts[i].as_str());
        assert(views(parts@).take(i + 1).drop_last() =~= views(parts@).take(i as int));
        i += 1;
    }
    assert(views(parts@).take(i as int) =~= views(parts@));
    r
}

/// The stretches of `s` between the characters `a` and `b`.
pub fn split_text(s: &str, a: char, b: char) -> (r: Vec<String>)
    ensures
        views(r@) == split(s@, a, b),
        r.len() >= 1,
{
    let cs = to_chars(s);
    let mut r: Vec<String> = Vec::new();
    let mut part = String::new();
    let mut i: usize = 0;
    assert(s@.take(0) =~= Seq::empty());
    assert(views(r@).push(part@) =~= split(s@.take(0), a, b));
    while i < cs.len()
        invariant
            i <= cs.len(),
            cs@ == s@,
            views(r@).push(part@) == split(s@.take(i as int), a, b),
        decreases cs.len() - i,
    {
        let c = cs[i];
        let ghost before = views(r@).push(part@);
        assert(s@.take(i + 1).drop_last() =~= s@.take(i as int));
        assert(before.drop_last() =~= views(r@));
        if c == a || c == b {
            r.push(part);
            part = String::new();
            assert(views(r@) =~= before);
        } else {
            part.push(c);
        }
        i += 1;
    }
    assert(s@.take(i as int) =~= s@);
    let ghost before = views(r@).push(part@);
    r.push(part);
    assert(views(r@) =~= before);
    r
}

/// Does `a` stand no later than `b` in the order of texts?
pub fn text_no_later(a: &str, b: &str) -> (r: bool)
    ensures
        r == text_le(a@, b@),
{
    let x = to_chars(a);
    let y = to_chars(b);
    let mut i: usize = 0;
    assert(a@.skip(0) =~= a@);
    assert(b@.skip(0) =~= b@);
    while i < x.len() && i < y.len()
        invariant
            i <= x.len(),
            i <= y.len(),
            x@ == a@,
            y@ == b@,
            text_le(a@, b@) == text_le(a@.skip(i as int), b@.skip(i as int)),
        decreases x.len() - i,
    {
        if x[i] != y[i] {
            return x[i] < y[i];
        }
        assert(a@.skip(i as int).skip(1) =~= a@.skip(i + 1));
        assert(b@.skip(i as int).skip(1) =~= b@.skip(i + 1));
        i += 1;
    }
    i == x.len()
}

}
