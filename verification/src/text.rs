//! Reading what people type: numbers, lists and names.
use vstd::prelude::*;

verus! {

/// Whether the character is one of the ten digits.
pub open spec fn is_digit(c: char) -> bool {
    '0' <= c <= '9'
}

/// The value of a digit.
pub open spec fn digit(c: char) -> int {
    c as int - '0' as int
}

/// The value of a row of digits.
pub open spec fn digits_value(s: Seq<char>) -> int
    decreases s.len(),
{
    if s.len() == 0 {
        0
    } else {
        10 * digits_value(s.drop_last()) + digit(s.last())
    }
}

/// What follows an optional plus sign.
pub open spec fn unsigned(s: Seq<char>) -> Seq<char> {
    if s.len() > 0 && s[0] == '+' {
        s.skip(1)
    } else {
        s
    }
}

/// The number that a text spells: an optional plus sign, then digits, at least
/// one, and nothing else.
pub open spec fn decimal(s: Seq<char>) -> Option<int> {
    let digits = unsigned(s);
    if digits.len() > 0 && forall|i: int| 0 <= i < digits.len() ==> is_digit(#[trigger] digits[i]) {
        Some(digits_value(digits))
    } else {
        None
    }
}

/// The number that a text spells, where it is at most `max`.
pub open spec fn decimal_within(s: Seq<char>, max: int) -> Option<int> {
    match decimal(s) {
        Some(n) => if n <= max {
            Some(n)
        } else {
            None
        },
        None => None,
    }
}

/// The pieces between the commas of a text, one more than there are commas.
pub open spec fn pieces(s: Seq<char>) -> Seq<Seq<char>>
    decreases s.len(),
{
    if s.len() == 0 {
        seq![Seq::<char>::empty()]
    } else {
        let before = pieces(s.drop_last());
        if s.last() == ',' {
            before.push(Seq::<char>::empty())
        } else {
            before.drop_last().push(before.last().push(s.last()))
        }
    }
}

/// Whether `needle` occurs in `hay`.
pub open spec fn occurs(needle: Seq<char>, hay: Seq<char>) -> bool {
    exists|i: int|
        0 <= i <= hay.len() - needle.len() && #[trigger] hay.subrange(i, i + needle.len())
            == needle
}

/// Reading on only makes the value of a row of digits larger.
proof fn lemma_digits_grow(s: Seq<char>, k: int)
    requires
        0 <= k <= s.len(),
        forall|i: int| 0 <= i < s.len() ==> is_digit(#[trigger] s[i]),
    ensures
        0 <= digits_value(s.take(k)) <= digits_value(s),
    decreases s.len(),
{
    if s.len() == 0 {
        assert(s.take(k) =~= s);
    } else if k == s.len() {
        assert(s.take(k) =~= s);
        lemma_digits_grow(s.drop_last(), 0);
        assert(s.drop_last().take(0) =~= Seq::<char>::empty());
    } else {
        lemma_digits_grow(s.drop_last(), k);
        assert(s.drop_last().take(k) =~= s.take(k));
    }
}

/// Whether two texts are the same.
pub fn same(a: &str, b: &str) -> (r: bool)
    ensures
        r == (a@ == b@),
{
    a.to_owned() == b.to_owned()
}

/// The characters of a text.
pub fn chars_of(s: &str) -> (r: Vec<char>)
    ensures
        r@ == s@,
{
    let mut chars: Vec<char> = Vec::new();
    for c in it: s.chars()
        invariant
            it.seq() == s@,
            chars@ == s@.take(it.index()),
    {
        proof {
            assert(s@.take(it.index() + 1) =~= s@.take(it.index()).push(c));
        }
        chars.push(c);
    }
    proof {
        assert(s@.take(s@.len() as int) =~= s@);
    }
    chars
}

/// Reads a number of at most `max`.
pub fn parse_decimal(s: &[char], max: u64) -> (r: Option<u64>)
    ensures
        (r matches Some(n) ==> decimal_within(s@, max as int) == Some(n as int)),
        r is None ==> decimal_within(s@, max as int) is None,
{
    let size: usize = s.len();
    let mut i: usize = if size > 0 && s[0] == '+' {
        1
    } else {
        0
    };
    let ghost digits = unsigned(s@);
    let ghost skipped = i as int;
    if i == size {
        return None;
    }
    let mut value: u64 = 0;
    assert(digits.take(0) =~= Seq::<char>::empty());
    while i < size
        invariant
            size == s@.len(),
            digits == unsigned(s@),
            digits == s@.skip(skipped),
            0 <= skipped <= i <= size,
            digits.len() > 0,
            value <= max,
            value == digits_value(digits.take(i - skipped)),
            forall|k: int| 0 <= k < i - skipped ==> is_digit(#[trigger] digits[k]),
        decreases size - i,
    {
        let c: char = s[i];
        proof {
            assert(digits[i - skipped] == c);
        }
        if c < '0' || '9' < c {
            return None;
        }
        let d: u64 = (c as u32 - '0' as u32) as u64;
        proof {
            let longer = digits.take(i - skipped + 1);
            assert(longer.drop_last() =~= digits.take(i - skipped));
            if forall|k: int| 0 <= k < digits.len() ==> is_digit(#[trigger] digits[k]) {
                lemma_digits_grow(digits, i - skipped + 1);
            }
        }
        if value > max / 10 || d > max - 10 * value {
            return None;
        }
        value = 10 * value + d;
        i = i + 1;
    }
    proof {
        assert(digits.take(size - skipped) =~= digits);
    }
    Some(value)
}

/// Whether `needle` occurs in `hay`.
pub fn contains(hay: &[char], needle: &[char]) -> (r: bool)
    ensures
        r == occurs(needle@, hay@),
{
    if needle.len() > hay.len() {
        return false;
    }
    let room: usize = hay.len() - needle.len();
    let mut i: usize = 0;
    loop
        invariant
            room == hay@.len() - needle@.len(),
            0 <= i <= room,
            forall|k: int|
                0 <= k < i ==> #[trigger] hay@.subrange(k, k + needle@.len()) != needle@,
        decreases room - i,
    {
        if starts_at(hay, needle, i) {
            assert(hay@.subrange(i as int, i + needle@.len()) == needle@);
            return true;
        }
        if i == room {
            return false;
        }
        i = i + 1;
    }
}

/// Whether `needle` stands in `hay` at place `at`.
fn starts_at(hay: &[char], needle: &[char], at: usize) -> (r: bool)
    requires
        at + needle@.len() <= hay@.len(),
    ensures
        r == (hay@.subrange(at as int, at + needle@.len()) == needle@),
{
    let size: usize = needle.len();
    let total: usize = hay.len();
    let mut i: usize = 0;
    while i < size
        invariant
            size == needle@.len(),
            total == hay@.len(),
            at + size <= total,
            0 <= i <= size,
            forall|k: int| 0 <= k < i ==> hay@[at + k] == #[trigger] needle@[k],
        decreases size - i,
    {
        if hay[at + i] != needle[i] {
            proof {
                assert(hay@.subrange(at as int, at + size)[i as int] != needle@[i as int]);
            }
            return false;
        }
        i = i + 1;
    }
    proof {
        assert(hay@.subrange(at as int, at + size) =~= needle@);
    }
    true
}

/// Cuts a text at its commas.
pub fn split_commas(s: &[char]) -> (r: Vec<Vec<char>>)
    ensures
        r@.len() == pieces(s@).len(),
        r@.len() >= 1,
        forall|k: int| 0 <= k < r@.len() ==> (#[trigger] r@[k])@ == pieces(s@)[k],
{
    let mut done: Vec<Vec<char>> = Vec::new();
    let mut current: Vec<char> = Vec::new();
    let size: usize = s.len();
    let mut i: usize = 0;
    assert(s@.take(0) =~= Seq::<char>::empty());
    while i < size
        invariant
            size == s@.len(),
            0 <= i <= size,
            pieces(s@.take(i as int)).len() == done@.len() + 1,
            pieces(s@.take(i as int)).last() == current@,
            forall|k: int|
                0 <= k < done@.len() ==> (#[trigger] done@[k])@ == pieces(s@.take(i as int))[k],
        decreases size - i,
    {
        let c: char = s[i];
        proof {
            assert(s@.take(i + 1).drop_last() =~= s@.take(i as int));
            assert(s@.take(i + 1).last() == c);
        }
        if c == ',' {
            done.push(current);
            current = Vec::new();
        } else {
            current.push(c);
        }
        i = i + 1;
    }
    proof {
        assert(s@.take(size as int) =~= s@);
    }
    done.push(current);
    done
}

/// A text in lower case.
pub uninterp spec fn lowercased(s: Seq<char>) -> Seq<char>;

/// std's `str::to_lowercase`. Which characters that maps to which is Unicode's to
/// say; the result is named.
#[verifier::external_body]
pub(crate) fn to_lowercase(s: &str) -> (r: String)
    ensures
        r@ == lowercased(s@),
{
    s.to_lowercase()
}

/// One more digit makes a number ten times as large, plus the digit; a first
/// digit stands for itself.
pub proof fn law_digits_are_decimal(s: Seq<char>, d: int)
    requires
        0 <= d <= 9,
    ensures
        decimal(seq![(d + 48) as char]) == Some(d),
        decimal(s) matches Some(n) ==> decimal(s.push((d + 48) as char)) == Some(10 * n + d),
{
    let c = (d + 48) as char;
    assert(is_digit(c) && digit(c) == d);
    let one = seq![c];
    assert(unsigned(one) == one);
    assert(one.drop_last() =~= Seq::<char>::empty());
    reveal_with_fuel(digits_value, 2);
    if decimal(s) is Some {
        let longer = s.push(c);
        assert(unsigned(longer) =~= unsigned(s).push(c));
        assert(unsigned(longer).drop_last() =~= unsigned(s));
        assert forall|i: int| 0 <= i < unsigned(longer).len() implies is_digit(
            #[trigger] unsigned(longer)[i],
        ) by {
            if i < unsigned(s).len() {
                assert(is_digit(unsigned(s)[i]));
            }
        }
    }
}

/// A plus sign before a number changes nothing, and anything but digits after it
/// makes a text spell none.
pub proof fn law_only_digits_spell_numbers(s: Seq<char>, i: int)
    ensures
        s.len() > 0 && s[0] != '+' ==> decimal(seq!['+'] + s) == decimal(s),
        0 <= i < s.len() && !('0' <= s[i] <= '9') && !(i == 0 && s[0] == '+') ==> decimal(
            s,
        ) is None,
        decimal(Seq::empty()) is None,
        decimal(seq!['+']) is None,
{
    let plus = seq!['+'] + s;
    assert(plus.skip(1) =~= s);
    assert(seq!['+'].skip(1) =~= Seq::<char>::empty());
    if 0 <= i < s.len() && !('0' <= s[i] <= '9') && !(i == 0 && s[0] == '+') {
        let at = if s[0] == '+' {
            i - 1
        } else {
            i
        };
        assert(unsigned(s)[at] == s[i]);
        assert(!is_digit(unsigned(s)[at]));
    }
}

/// A number counts up to its bound, and not beyond.
pub proof fn law_numbers_count_up_to_their_bound(s: Seq<char>, max: int)
    ensures
        decimal_within(s, max) is Some <==> (decimal(s) matches Some(n) && n <= max),
        decimal_within(s, max) is Some ==> decimal_within(s, max) == decimal(s),
{
}

/// The pieces with commas between them.
pub open spec fn joined(listed: Seq<Seq<char>>) -> Seq<char>
    decreases listed.len(),
{
    if listed.len() == 0 {
        Seq::empty()
    } else if listed.len() == 1 {
        listed[0]
    } else {
        joined(listed.drop_last()).push(',') + listed.last()
    }
}

/// Cutting a text at its commas undoes joining: the pieces, with commas between
/// them, are the text, and no piece holds a comma.
pub proof fn law_pieces_make_the_text(s: Seq<char>)
    ensures
        joined(pieces(s)) == s,
        pieces(s).len() >= 1,
        forall|k: int, i: int|
            0 <= k < pieces(s).len() && 0 <= i < pieces(s)[k].len() ==> #[trigger] pieces(
                s,
            )[k][i] != ',',
    decreases s.len(),
{
    if s.len() > 0 {
        let before = pieces(s.drop_last());
        law_pieces_make_the_text(s.drop_last());
        assert(s =~= s.drop_last().push(s.last()));
        let all = pieces(s);
        if s.last() == ',' {
            assert(all.drop_last() =~= before);
            assert(joined(all) =~= joined(before).push(',') + Seq::<char>::empty());
        } else {
            let last = before.last().push(s.last());
            assert(all =~= before.drop_last().push(last));
            assert(all.drop_last() =~= before.drop_last());
            if before.len() == 1 {
                assert(joined(before) == before[0] && joined(all) == last);
            } else {
                assert(joined(all) =~= (joined(before.drop_last()).push(',') + before.last()).push(
                    s.last(),
                ));
            }
        }
        assert forall|k: int, i: int|
            0 <= k < all.len() && 0 <= i < all[k].len() implies #[trigger] all[k][i] != ',' by {
            if k < before.len() && i < before[k].len() {
                assert(before[k][i] != ',');
            }
        }
    }
}

/// A text occurs in another just where that is something, the text, and something.
pub proof fn law_occurs_between_two_texts(
    needle: Seq<char>,
    before: Seq<char>,
    after: Seq<char>,
    hay: Seq<char>,
)
    ensures
        occurs(needle, before + needle + after),
        occurs(needle, hay) ==> exists|i: int|
            0 <= i <= hay.len() && needle.len() <= hay.len() - i && hay == #[trigger] hay.take(i)
                + needle + hay.skip(i + needle.len()),
{
    let whole = before + needle + after;
    let at = before.len() as int;
    assert(whole.subrange(at, at + needle.len()) =~= needle);
    if occurs(needle, hay) {
        let i = choose|i: int|
            0 <= i <= hay.len() - needle.len() && #[trigger] hay.subrange(i, i + needle.len())
                == needle;
        assert(hay =~= hay.take(i) + hay.subrange(i, i + needle.len()) + hay.skip(
            i + needle.len(),
        ));
    }
}

} // verus!
