//! Widget ids and their text form.
use vstd::prelude::*;
use vstd::string::*;

use crate::text;

verus! {

/// A widget id: the number of an accessibility node, written as lower-case hex with no prefix.
///
/// Hex keeps ids short, which matters because a widget tree is mostly ids. The type exists so
/// that a malformed id is rejected where it is read, rather than silently becoming "no id".
#[derive(Debug, Clone, Copy, PartialEq, Eq, Structural, PartialOrd, Ord, Hash)]
pub struct Id(pub u64);

/// How many digits an id can have: sixteen say every number of sixty-four bits.
pub const MAX_ID_DIGITS: usize = 16;

/// Why a text is no id.
#[derive(Debug, Clone, Copy, PartialEq, Eq, Structural)]
pub enum IdFault {
    /// There is nothing but white space.
    Empty,
    /// A character is no hexadecimal digit.
    InvalidDigit,
    /// There are more than [`MAX_ID_DIGITS`] digits.
    TooLarge,
}

/// The text starts with more hexadecimal digits than an id can have.
pub open spec fn overlong(s: Seq<char>) -> bool {
    s.len() > MAX_ID_DIGITS && text::all_hex(s.take(MAX_ID_DIGITS + 1))
}

/// What a text stands for, read as an id: one to [`MAX_ID_DIGITS`] hexadecimal digits, with
/// nothing but white space around them.
pub open spec fn parsed(text: Seq<char>) -> Result<Id, IdFault> {
    let s = text::trim(text);
    if s.len() == 0 {
        Err(IdFault::Empty)
    } else if overlong(s) {
        Err(IdFault::TooLarge)
    } else if text::all_hex(s) {
        Ok(Id(text::hex_value(s) as u64))
    } else {
        Err(IdFault::InvalidDigit)
    }
}

impl IdFault {
    pub open spec fn spec_words(self) -> Seq<char> {
        match self {
            IdFault::Empty => "cannot parse integer from empty string"@,
            IdFault::InvalidDigit => "invalid digit found in string"@,
            IdFault::TooLarge => "number too large to fit in target type"@,
        }
    }

    pub fn words(self) -> (r: &'static str)
        ensures
            r@ == self.spec_words(),
            self is Empty ==> r@ == "cannot parse integer from empty string"@,
            self is InvalidDigit ==> r@ == "invalid digit found in string"@,
            self is TooLarge ==> r@ == "number too large to fit in target type"@,
    {
        match self {
            IdFault::Empty => "cannot parse integer from empty string",
            IdFault::InvalidDigit => "invalid digit found in string",
            IdFault::TooLarge => "number too large to fit in target type",
        }
    }
}

/// What the reader of a malformed id is told.
pub open spec fn malformed(text: Seq<char>, fault: IdFault) -> Seq<char> {
    "invalid widget id `"@ + text + "` ("@ + fault.spec_words()
        + ") — pass an `id` exactly as `widget_tree` returned it"@
}

impl Id {
    /// The id as text: lower-case hex, without prefix or padding.
    pub open spec fn spec_text(self) -> Seq<char> {
        text::numeral(self.0 as nat, 16)
    }

    /// The id as text: lower-case hex, without prefix or padding.
    pub fn text(&self) -> (r: String)
        ensures
            r@ == self.spec_text(),
            r@ == text::numeral(self.0 as nat, 16),
    {
        text::numeral_text(self.0 as u128, 16)
    }

    /// Reads an id, or says why the text is none.
    pub fn parse(text: &str) -> (r: Result<Id, String>)
        ensures
            match parsed(text@) {
                Ok(id) => r == Ok::<Id, String>(id),
                Err(fault) => r is Err && r->Err_0@ == malformed(text@, fault),
            },
            text::trim(text@).len() == 0 ==> r is Err && r->Err_0@ == "invalid widget id `"@ + text@
                + "` ("@ + "cannot parse integer from empty string"@
                + ") — pass an `id` exactly as `widget_tree` returned it"@,
            1 <= text::trim(text@).len() <= 16 && text::all_hex(text::trim(text@)) ==> (r matches Ok(
                id,
            ) && id.0 == text::hex_value(text::trim(text@))),
            text::trim(text@).len() > 16 && text::all_hex(text::trim(text@).take(17)) ==> r is Err
                && r->Err_0@ == "invalid widget id `"@ + text@ + "` ("@
                + "number too large to fit in target type"@
                + ") — pass an `id` exactly as `widget_tree` returned it"@,
            text::trim(text@).len() > 0 && !text::all_hex(text::trim(text@)) && !(text::trim(
                text@,
            ).len() > 16 && text::all_hex(text::trim(text@).take(17))) ==> r is Err && r->Err_0@
                == "invalid widget id `"@ + text@ + "` ("@ + "invalid digit found in string"@
                + ") — pass an `id` exactly as `widget_tree` returned it"@,
    {
        proof {
            law_an_id_is_plain_hex(text@);
        }
        match read_digits(text) {
            Ok(id) => Ok(id),
            Err(fault) => {
                let mut message = "invalid widget id `".to_owned();
                message.append(text);
                message.append("` (");
                message.append(fault.words());
                message.append(") — pass an `id` exactly as `widget_tree` returned it");
                Err(message)
            },
        }
    }
}

impl std::str::FromStr for Id {
    type Err = String;

    fn from_str(text: &str) -> (r: Result<Id, String>)
        ensures
            match parsed(text@) {
                Ok(id) => r == Ok::<Id, String>(id),
                Err(fault) => r is Err && r->Err_0@ == malformed(text@, fault),
            },
            text::trim(text@).len() == 0 ==> r is Err && r->Err_0@ == "invalid widget id `"@ + text@
                + "` ("@ + "cannot parse integer from empty string"@
                + ") — pass an `id` exactly as `widget_tree` returned it"@,
            1 <= text::trim(text@).len() <= 16 && text::all_hex(text::trim(text@)) ==> (r matches Ok(
                id,
            ) && id.0 == text::hex_value(text::trim(text@))),
            text::trim(text@).len() > 16 && text::all_hex(text::trim(text@).take(17)) ==> r is Err
                && r->Err_0@ == "invalid widget id `"@ + text@ + "` ("@
                + "number too large to fit in target type"@
                + ") — pass an `id` exactly as `widget_tree` returned it"@,
            text::trim(text@).len() > 0 && !text::all_hex(text::trim(text@)) && !(text::trim(
                text@,
            ).len() > 16 && text::all_hex(text::trim(text@).take(17))) ==> r is Err && r->Err_0@
                == "invalid widget id `"@ + text@ + "` ("@ + "invalid digit found in string"@
                + ") — pass an `id` exactly as `widget_tree` returned it"@,
    {
        Id::parse(text)
    }
}

/// Reads the digits of an id.
pub fn read_digits(text: &str) -> (r: Result<Id, IdFault>)
    ensures
        r == parsed(text@),
{
    let s = text::trim_text(text);
    if s.len() == 0 {
        return Err(IdFault::Empty);
    }
    let mut value: u64 = 0;
    let mut i: usize = 0;
    assert(s@.take(0) =~= Seq::empty());
    while i < s.len()
        invariant
            i <= s.len(),
            i <= MAX_ID_DIGITS,
            s@ == text::trim(text@),
            s@.len() > 0,
            text::all_hex(s@.take(i as int)),
            value == text::hex_value(s@.take(i as int)),
        decreases s.len() - i,
    {
        let ghost head = s@.take(i + 1);
        assert(head.drop_last() =~= s@.take(i as int));
        assert(head.last() == s@[i as int]);
        let d: u8 = match text::hex_digit_of(s[i]) {
            Some(d) => d,
            None => {
                assert(!overlong(s@)) by {
                    if s@.len() > MAX_ID_DIGITS {
                        assert(s@.take(MAX_ID_DIGITS + 1)[i as int] == s@[i as int]);
                    }
                }
                return Err(IdFault::InvalidDigit);
            },
        };
        assert(text::all_hex(head)) by {
            assert forall|j: int| 0 <= j < head.len() implies text::hex_digit(#[trigger] head[j]) is Some by {
                if j < i {
                    assert(s@.take(i as int)[j] == head[j]);
                }
            }
        }
        if i == MAX_ID_DIGITS {
            return Err(IdFault::TooLarge);
        }
        proof {
            lemma_hex_value_fits(head);
        }
        value = value * 16 + d as u64;
        i += 1;
    }
    assert(s@.take(i as int) =~= s@);
    Ok(Id(value))
}

/// How many numbers there are of up to `n` hexadecimal digits.
spec fn numbers_of(n: nat) -> nat
    decreases n,
{
    if n == 0 {
        1
    } else {
        16 * numbers_of((n - 1) as nat)
    }
}

proof fn lemma_numbers_of(n: nat)
    requires
        n <= MAX_ID_DIGITS,
    ensures
        numbers_of(n) <= numbers_of(MAX_ID_DIGITS as nat) == u64::MAX + 1,
    decreases MAX_ID_DIGITS - n,
{
    reveal_with_fuel(numbers_of, 17);
    if n < MAX_ID_DIGITS {
        lemma_numbers_of(n + 1);
    }
}

proof fn lemma_hex_value_bound(s: Seq<char>)
    requires
        text::all_hex(s),
    ensures
        text::hex_value(s) < numbers_of(s.len()),
    decreases s.len(),
{
    if s.len() > 0 {
        let t = s.drop_last();
        assert forall|j: int| 0 <= j < t.len() implies text::hex_digit(#[trigger] t[j]) is Some by {
            assert(s[j] == t[j]);
        }
        lemma_hex_value_bound(t);
        assert(text::hex_digit(s[s.len() - 1]) is Some);
    }
}

/// The digits of an id are those of a number of sixty-four bits.
proof fn lemma_hex_value_fits(s: Seq<char>)
    requires
        text::all_hex(s),
        s.len() <= MAX_ID_DIGITS,
    ensures
        text::hex_value(s) <= u64::MAX,
{
    lemma_hex_value_bound(s);
    lemma_numbers_of(s.len());
}

/// A number below `numbers_of(k)` is written with up to `k` digits.
proof fn lemma_numeral_len(n: nat, k: nat)
    requires
        n < numbers_of(k),
        k >= 1,
    ensures
        text::numeral(n, 16).len() <= k,
    decreases n,
{
    if n >= 16 {
        reveal_with_fuel(numbers_of, 2);
        lemma_numeral_len(n / 16, (k - 1) as nat);
    }
}

/// The digits of a numeral are lower-case hexadecimal and have its value.
proof fn lemma_numeral_reads_back(n: nat)
    ensures
        text::all_hex(text::numeral(n, 16)),
        text::hex_value(text::numeral(n, 16)) == n,
        text::numeral(n, 16).len() >= 1,
        forall|i: int|
            0 <= i < text::numeral(n, 16).len() ==> is_id_char(#[trigger] text::numeral(n, 16)[i]),
        n > 0 ==> text::numeral(n, 16)[0] != '0',
    decreases n,
{
    let s = text::numeral(n, 16);
    if n < 16 {
        assert(s =~= seq![text::digit_char(n)]);
        assert(s.drop_last() =~= Seq::empty());
        assert(text::hex_value(s.drop_last()) == 0);
    } else {
        lemma_numeral_reads_back(n / 16);
        let t = text::numeral(n / 16, 16);
        assert(s.drop_last() =~= t);
        assert(s.last() == text::digit_char(n % 16));
        assert forall|i: int| 0 <= i < s.len() implies is_id_char(#[trigger] s[i]) by {
            if i < t.len() {
                assert(s[i] == t[i]);
            }
        }
        assert(s[0] == t[0]);
    }
}

/// The characters that an id is written with.
pub open spec fn is_id_char(c: char) -> bool {
    '0' <= c <= '9' || 'a' <= c <= 'f'
}

/// An id is written with lower-case hexadecimal digits alone, one to [`MAX_ID_DIGITS`] of them,
/// and does not start with a zero unless it is zero.
pub proof fn law_id_text_is_bare_hex(id: Id)
    ensures
        1 <= id.spec_text().len() <= MAX_ID_DIGITS,
        forall|i: int| 0 <= i < id.spec_text().len() ==> is_id_char(#[trigger] id.spec_text()[i]),
        id.0 > 0 ==> id.spec_text()[0] != '0',
{
    lemma_numeral_reads_back(id.0 as nat);
    lemma_numbers_of(MAX_ID_DIGITS as nat);
    lemma_numeral_len(id.0 as nat, MAX_ID_DIGITS as nat);
}

/// A text is read as an id exactly if one to [`MAX_ID_DIGITS`] hexadecimal digits are left when
/// the white space around it is gone, and then the id is the number that they stand for.
pub proof fn law_an_id_is_plain_hex(t: Seq<char>)
    ensures
        parsed(t) is Ok <==> {
            &&& 1 <= text::trim(t).len() <= MAX_ID_DIGITS
            &&& text::all_hex(text::trim(t))
        },
        parsed(t) matches Ok(id) ==> id.0 == text::hex_value(text::trim(t)),
{
    let s = text::trim(t);
    if text::all_hex(s) {
        if s.len() > MAX_ID_DIGITS {
            let head = s.take(MAX_ID_DIGITS + 1);
            assert forall|j: int| 0 <= j < head.len() implies text::hex_digit(#[trigger] head[j]) is Some by {
                assert(s[j] == head[j]);
            }
        } else {
            lemma_hex_value_fits(s);
        }
    }
}

/// Reading an id's own text gives the id back.
pub proof fn law_id_reads_back(id: Id)
    ensures
        parsed(id.spec_text()) == Ok::<Id, IdFault>(id),
{
    lemma_numeral_reads_back(id.0 as nat);
    law_id_text_is_bare_hex(id);
    let s = id.spec_text();
    assert(is_id_char(s[0]) && is_id_char(s.last()));
    assert(text::trim_start(s) == s);
    assert(text::trim_end(s) == s);
}

/// Two ids with the same text are the same id.
pub proof fn law_id_text_is_unambiguous(a: Id, b: Id)
    requires
        a.spec_text() == b.spec_text(),
    ensures
        a == b,
{
    law_id_reads_back(a);
    law_id_reads_back(b);
}

/// A text that holds a character other than a hexadecimal digit or white space is never read as
/// an id: a sign, or a prefix such as `0x`, is rejected.
pub proof fn law_foreign_characters_are_rejected(t: Seq<char>, i: int)
    requires
        0 <= i < t.len(),
        text::hex_digit(t[i]) is None,
        !text::is_white(t[i]),
    ensures
        parsed(t) is Err,
{
    lemma_trim_keeps(t, i);
    let s = text::trim(t);
    let k = choose|k: int| 0 <= k < s.len() && s[k] == t[i];
    assert(text::hex_digit(s[k]) is None);
}

/// Trimming keeps every character that is no white space.
proof fn lemma_trim_keeps(t: Seq<char>, i: int)
    requires
        0 <= i < t.len(),
        !text::is_white(t[i]),
    ensures
        text::trim(t).contains(t[i]),
{
    lemma_trim_start_keeps(t, i);
    let m = text::trim_start(t);
    let j = choose|j: int| 0 <= j < m.len() && m[j] == t[i];
    lemma_trim_end_keeps(m, j);
}

proof fn lemma_trim_start_keeps(t: Seq<char>, i: int)
    requires
        0 <= i < t.len(),
        !text::is_white(t[i]),
    ensures
        text::trim_start(t).contains(t[i]),
    decreases t.len(),
{
    if text::is_white(t[0]) {
        assert(t.skip(1)[i - 1] == t[i]);
        lemma_trim_start_keeps(t.skip(1), i - 1);
        assert(text::trim_start(t) == text::trim_start(t.skip(1)));
    } else {
        assert(text::trim_start(t)[i] == t[i]);
    }
}

proof fn lemma_trim_end_keeps(t: Seq<char>, i: int)
    requires
        0 <= i < t.len(),
        !text::is_white(t[i]),
    ensures
        text::trim_end(t).contains(t[i]),
    decreases t.len(),
{
    if text::is_white(t.last()) {
        assert(t.drop_last()[i] == t[i]);
        lemma_trim_end_keeps(t.drop_last(), i);
    } else {
        assert(text::trim_end(t)[i] == t[i]);
    }
}

}
