//! Text as sequences of characters: comparison, building, joining, and the
//! decimal notation of unsigned numbers.

use vstd::prelude::*;

verus! {

/// `String::push`, as std documents it: the character is appended at the end.
pub assume_specification[ String::push ](text: &mut String, c: char)
    ensures
        final(text)@ == old(text)@.push(c),
;

/// The views of a list of strings, element by element.
pub open spec fn texts(list: Seq<String>) -> Seq<Seq<char>> {
    Seq::new(list.len(), |i: int| list[i]@)
}

/// The view of a string that may be missing.
pub open spec fn text_if(text: Option<String>) -> Option<Seq<char>> {
    match text {
        Some(text) => Some(text@),
        None => None,
    }
}

/// The characters of `text`, in order.
pub fn chars_of(text: &str) -> (out: Vec<char>)
    ensures
        out@ == text@,
{
    let mut out: Vec<char> = Vec::new();
    for c in it: text.chars()
        invariant
            out@ == it.seq().take(it.index() as int),
    {
        out.push(c);
    }
    out
}

/// The text made of the characters `chars[from..to]`.
pub(crate) fn text_of(chars: &Vec<char>, from: usize, to: usize) -> (out: String)
    requires
        from <= to <= chars.len(),
    ensures
        out@ == chars@.subrange(from as int, to as int),
{
    let mut out = String::new();
    let mut i: usize = from;
    while i < to
        invariant
            from <= i <= to <= chars.len(),
            out@ == chars@.subrange(from as int, i as int),
        decreases to - i,
    {
        out.push(chars[i]);
        i += 1;
    }
    out
}

/// Whether two lists of characters hold the same characters.
pub fn same_chars(a: &Vec<char>, b: &Vec<char>) -> (same: bool)
    ensures
        same == (a@ == b@),
{
    if a.len() != b.len() {
        return false;
    }
    let mut i: usize = 0;
    while i < a.len()
        invariant
            i <= a.len() == b.len(),
            a@.take(i as int) == b@.take(i as int),
        decreases a.len() - i,
    {
        if a[i] != b[i] {
            return false;
        }
        assert(a@.take(i + 1) == a@.take(i as int).push(a@[i as int]));
        assert(b@.take(i + 1) == b@.take(i as int).push(b@[i as int]));
        i += 1;
    }
    assert(a@ == a@.take(a.len() as int));
    assert(b@ == b@.take(b.len() as int));
    true
}

/// Whether two texts are the same text.
pub fn same_text(a: &str, b: &str) -> (same: bool)
    ensures
        same == (a@ == b@),
{
    let a_chars = chars_of(a);
    let b_chars = chars_of(b);
    same_chars(&a_chars, &b_chars)
}

/// Whether `item` stands at `i` in `list` and nowhere before.
pub open spec fn is_first_at(list: Seq<Seq<char>>, item: Seq<char>, i: int) -> bool {
    &&& 0 <= i < list.len()
    &&& list[i] == item
    &&& forall|j: int| 0 <= j < i ==> list[j] != item
}

/// The first index at which `item` stands in `list`, for a list that holds it.
pub open spec fn first_index(list: Seq<Seq<char>>, item: Seq<char>) -> int {
    choose|i: int| is_first_at(list, item, i)
}

/// The first index at which `item` stands in `list`, if it stands there at all.
pub fn position_of(list: &Vec<String>, item: &str) -> (found: Option<usize>)
    ensures
        match found {
            Some(i) => is_first_at(texts(list@), item@, i as int) && first_index(
                texts(list@),
                item@,
            ) == i,
            None => !texts(list@).contains(item@),
        },
{
    let wanted = chars_of(item);
    let mut i: usize = 0;
    while i < list.len()
        invariant
            i <= list.len(),
            wanted@ == item@,
            forall|j: int| 0 <= j < i ==> texts(list@)[j] != item@,
        decreases list.len() - i,
    {
        let here = chars_of(list[i].as_str());
        if same_chars(&here, &wanted) {
            assert(texts(list@)[i as int] == item@);
            assert(is_first_at(texts(list@), item@, i as int));
            return Some(i);
        }
        assert(texts(list@)[i as int] == list[i as int]@);
        i += 1;
    }
    None
}

/// Whether `item` is one of the texts of `list`.
pub fn contains_text(list: &Vec<String>, item: &str) -> (found: bool)
    ensures
        found == texts(list@).contains(item@),
{
    let at = position_of(list, item);
    at.is_some()
}

/// A copy of a list of strings.
pub fn copy_texts(list: &Vec<String>) -> (out: Vec<String>)
    ensures
        texts(out@) == texts(list@),
{
    let mut out: Vec<String> = Vec::new();
    let mut i: usize = 0;
    while i < list.len()
        invariant
            i <= list.len(),
            out.len() == i,
            forall|j: int| 0 <= j < i ==> out[j]@ == list[j]@,
        decreases list.len() - i,
    {
        out.push(list[i].clone());
        i += 1;
    }
    assert(texts(out@) =~= texts(list@));
    out
}

/// The parts of `parts` written one after the other, with `separator` between
/// each two neighbours.
pub open spec fn joined(parts: Seq<Seq<char>>, separator: Seq<char>) -> Seq<char>
    decreases parts.len(),
{
    if parts.len() == 0 {
        Seq::empty()
    } else if parts.len() == 1 {
        parts[0]
    } else {
        joined(parts.drop_last(), separator) + separator + parts.last()
    }
}

/// Joins `parts` with `separator` between each two neighbours.
pub fn join(parts: &Vec<String>, separator: &str) -> (out: String)
    ensures
        out@ == joined(texts(parts@), separator@),
{
    let mut out = String::new();
    let mut i: usize = 0;
    while i < parts.len()
        invariant
            i <= parts.len(),
            out@ == joined(texts(parts@).take(i as int), separator@),
        decreases parts.len() - i,
    {
        let ghost before = texts(parts@).take(i as int);
        let ghost after = texts(parts@).take(i + 1);
        proof {
            assert(after.drop_last() == before);
            assert(after.last() == parts[i as int]@);
        }
        if i > 0 {
            out.append(separator);
        }
        out.append(parts[i].as_str());
        proof {
            if i == 0 {
                assert(out@ == parts[0]@);
            }
        }
        i += 1;
    }
    assert(texts(parts@).take(parts.len() as int) == texts(parts@));
    out
}

/// The index of the first `c` in `s`; the length of `s` where it holds none.
pub open spec fn first_at(s: Seq<char>, c: char) -> int
    decreases s.len(),
{
    if s.len() == 0 || s[0] == c {
        0
    } else {
        1 + first_at(s.skip(1), c)
    }
}

/// `first_at` is the one index before which no `c` stands and at which one
/// does, or the text ends.
pub proof fn lemma_first_at(s: Seq<char>, c: char, at: int)
    requires
        0 <= at <= s.len(),
        forall|i: int| 0 <= i < at ==> s[i] != c,
        at < s.len() ==> s[at] == c,
    ensures
        first_at(s, c) == at,
    decreases s.len(),
{
    if s.len() == 0 || s[0] == c {
    } else {
        let rest = s.skip(1);
        assert forall|i: int| 0 <= i < at - 1 implies rest[i] != c by {
            assert(rest[i] == s[i + 1]);
        }
        lemma_first_at(rest, c, at - 1);
    }
}

/// Where the first `c` stands in `chars[from..]`, counted from the start of
/// `chars`; the length of `chars` where there is none.
pub(crate) fn find_char(chars: &Vec<char>, from: usize, c: char) -> (at: usize)
    requires
        from <= chars.len(),
    ensures
        from <= at <= chars.len(),
        at - from == first_at(chars@.subrange(from as int, chars.len() as int), c),
        forall|i: int| from <= i < at ==> chars@[i] != c,
        at < chars.len() ==> chars@[at as int] == c,
{
    let mut at: usize = from;
    while at < chars.len() && chars[at] != c
        invariant
            from <= at <= chars.len(),
            forall|i: int| from <= i < at ==> chars@[i] != c,
        decreases chars.len() - at,
    {
        at += 1;
    }
    proof {
        let rest = chars@.subrange(from as int, chars.len() as int);
        assert forall|i: int| 0 <= i < at - from implies rest[i] != c by {
            assert(rest[i] == chars@[from + i]);
        }
        lemma_first_at(rest, c, at - from);
    }
    at
}

/// Whether `c` is one of the ten decimal digits.
pub open spec fn is_digit(c: char) -> bool {
    '0' <= c <= '9'
}

/// The number that the digit `c` stands for.
pub open spec fn digit_value(c: char) -> nat {
    (c as int - '0' as int) as nat
}

/// Whether `s` is made of decimal digits alone (the empty sequence is).
pub open spec fn all_digits(s: Seq<char>) -> bool {
    forall|i: int| 0 <= i < s.len() ==> is_digit(#[trigger] s[i])
}

/// The number that the decimal digits `s` denote, leading zeros allowed; 0 for
/// the empty sequence.
pub open spec fn digits_value(s: Seq<char>) -> nat
    decreases s.len(),
{
    if s.len() == 0 {
        0
    } else {
        digits_value(s.drop_last()) * 10 + digit_value(s.last())
    }
}

/// The digit for a number below ten.
pub open spec fn digit_of(d: nat) -> char {
    (d + '0' as nat) as char
}

/// The decimal notation of `n` without leading zeros; `"0"` for zero.
pub open spec fn decimal(n: nat) -> Seq<char>
    decreases n,
{
    if n < 10 {
        seq![digit_of(n)]
    } else {
        decimal(n / 10).push(digit_of(n % 10))
    }
}

/// Whether `s` is the notation of a number as `decimal` writes it: digits,
/// at least one, and no leading zero but in `"0"` itself.
pub open spec fn is_canonical(s: Seq<char>) -> bool {
    &&& s.len() > 0
    &&& all_digits(s)
    &&& s.len() > 1 ==> s[0] != '0'
}

/// `decimal` writes digits only, and reading them gives the number back.
pub proof fn lemma_decimal_value(n: nat)
    ensures
        is_canonical(decimal(n)),
        digits_value(decimal(n)) == n,
        n > 0 ==> decimal(n)[0] != '0',
    decreases n,
{
    if n < 10 {
        let s = decimal(n);
        assert(s.drop_last() =~= Seq::<char>::empty());
        assert(digits_value(s.drop_last()) == 0);
    } else {
        lemma_decimal_value(n / 10);
        let s = decimal(n);
        assert(s.drop_last() =~= decimal(n / 10));
        assert(s[0] == decimal(n / 10)[0]);
    }
}

/// A canonical notation is the one that `decimal` writes for its value.
pub proof fn lemma_canonical_decimal(s: Seq<char>)
    requires
        is_canonical(s),
    ensures
        decimal(digits_value(s)) == s,
    decreases s.len(),
{
    if s.len() == 1 {
        assert(s.drop_last() =~= Seq::<char>::empty());
        assert(digits_value(s.drop_last()) == 0);
        assert(is_digit(s[0]));
        assert(decimal(digits_value(s)) =~= s);
    } else {
        let head = s.drop_last();
        assert(is_digit(s.last()));
        assert(is_canonical(head)) by {
            assert forall|i: int| 0 <= i < head.len() implies is_digit(#[trigger] head[i]) by {
                assert(head[i] == s[i]);
            }
        }
        lemma_canonical_decimal(head);
        lemma_leading_digit(head);
        let v = digits_value(head);
        assert(v > 0);
        assert(digits_value(s) == v * 10 + digit_value(s.last()));
        assert(digits_value(s) / 10 == v);
        assert(digits_value(s) % 10 == digit_value(s.last()));
        assert(decimal(digits_value(s)) =~= s);
    }
}

/// Digits that do not start with a zero denote a positive number.
pub proof fn lemma_leading_digit(s: Seq<char>)
    requires
        s.len() > 0,
        all_digits(s),
        s[0] != '0',
    ensures
        digits_value(s) > 0,
    decreases s.len(),
{
    if s.len() == 1 {
        assert(s.drop_last() =~= Seq::<char>::empty());
        assert(is_digit(s[0]));
    } else {
        let head = s.drop_last();
        assert forall|i: int| 0 <= i < head.len() implies is_digit(#[trigger] head[i]) by {
            assert(head[i] == s[i]);
        }
        lemma_leading_digit(head);
    }
}

/// Ten to the power of `n`.
pub open spec fn pow10(n: nat) -> nat
    decreases n,
{
    if n == 0 {
        1
    } else {
        10 * pow10((n - 1) as nat)
    }
}

/// Digits denote a number below ten to the power of their count, and their
/// value is the first digit times its power of ten plus the value of the rest.
pub proof fn lemma_digits_from_front(s: Seq<char>)
    requires
        all_digits(s),
        s.len() > 0,
    ensures
        digits_value(s) < pow10(s.len()),
        digits_value(s) == digit_value(s[0]) * pow10((s.len() - 1) as nat) + digits_value(
            s.skip(1),
        ),
    decreases s.len(),
{
    let head = s.drop_last();
    assert(is_digit(s.last()));
    if s.len() == 1 {
        assert(head =~= Seq::<char>::empty());
        assert(s.skip(1) =~= Seq::<char>::empty());
        assert(digits_value(head) == 0);
        assert(pow10(1) == 10 * pow10(0));
    } else {
        assert forall|i: int| 0 <= i < head.len() implies is_digit(#[trigger] head[i]) by {
            assert(head[i] == s[i]);
        }
        lemma_digits_from_front(head);
        let rest = s.skip(1);
        assert(rest.drop_last() =~= head.skip(1));
        assert(rest.last() == s.last());
        assert(head[0] == s[0]);
        let p = pow10((head.len() - 1) as nat);
        let d = digit_value(s[0]);
        let r = digits_value(head.skip(1));
        let l = digit_value(s.last());
        assert(pow10(head.len()) == 10 * p);
        assert(pow10(s.len()) == 10 * pow10(head.len()));
        assert(digits_value(head) == d * p + r);
        assert(digits_value(s) == (d * p + r) * 10 + l);
        assert(digits_value(rest) == r * 10 + l);
        assert((d * p + r) * 10 + l == d * (10 * p) + (r * 10 + l)) by (nonlinear_arith);
        assert(digits_value(s) < 10 * pow10(head.len())) by (nonlinear_arith)
            requires
                digits_value(s) == digits_value(head) * 10 + l,
                digits_value(head) < pow10(head.len()),
                l < 10,
        ;
    }
}

/// The digits of `a` followed by those of `b` denote the value of `a`, moved
/// up by as many places as `b` has digits, plus the value of `b`.
pub proof fn lemma_digits_concat(a: Seq<char>, b: Seq<char>)
    ensures
        digits_value(a + b) == digits_value(a) * pow10(b.len()) + digits_value(b),
    decreases b.len(),
{
    if b.len() == 0 {
        assert(a + b =~= a);
        assert(pow10(0) == 1);
        assert(digits_value(b) == 0);
        assert(digits_value(a) * 1 == digits_value(a));
    } else {
        lemma_digits_concat(a, b.drop_last());
        let whole = a + b;
        assert(whole.drop_last() =~= a + b.drop_last());
        assert(whole.last() == b.last());
        let p = pow10((b.len() - 1) as nat);
        let va = digits_value(a);
        let vb = digits_value(b.drop_last());
        let l = digit_value(b.last());
        assert(pow10(b.len()) == 10 * p);
        assert(digits_value(whole) == digits_value(whole.drop_last()) * 10 + l);
        assert(digits_value(whole.drop_last()) == va * p + vb);
        assert(digits_value(b) == vb * 10 + l);
        assert((va * p + vb) * 10 + l == va * (10 * p) + (vb * 10 + l)) by (nonlinear_arith);
    }
}

/// The decimal notation of `n`.
pub fn decimal_text(n: u16) -> (out: String)
    ensures
        out@ == decimal(n as nat),
{
    let mut digits: Vec<char> = Vec::new();
    let mut rest: u16 = n;
    // The digits come out lowest first.
    while rest >= 10
        invariant
            decimal(n as nat) == decimal(rest as nat) + digits@.reverse(),
        decreases rest,
    {
        let d: u8 = (rest % 10) as u8;
        let ghost before = digits@;
        digits.push((48u8 + d) as char);
        proof {
            assert(digits@.reverse() =~= seq![digit_of((rest % 10) as nat)] + before.reverse());
            assert(decimal(rest as nat) == decimal((rest / 10) as nat).push(
                digit_of((rest % 10) as nat),
            ));
            assert(decimal(n as nat) =~= decimal((rest / 10) as nat) + digits@.reverse());
        }
        rest = rest / 10;
    }
    let ghost before = digits@;
    digits.push((48u8 + (rest as u8)) as char);
    proof {
        assert(digits@.reverse() =~= seq![digit_of(rest as nat)] + before.reverse());
        assert(decimal(n as nat) =~= digits@.reverse());
    }
    let mut out = String::new();
    let mut i: usize = digits.len();
    while i > 0
        invariant
            i <= digits.len(),
            out@ == digits@.reverse().take(digits.len() - i),
        decreases i,
    {
        i -= 1;
        out.push(digits[i]);
        proof {
            let r = digits@.reverse();
            assert(r.take(digits.len() - i) =~= r.take(digits.len() - i - 1).push(
                digits@[i as int],
            ));
        }
    }
    assert(digits@.reverse().take(digits.len() as int) =~= digits@.reverse());
    out
}

/// Reads the digits `chars[from..to]` as a number, stopping short at `limit`:
/// `None` where a character is no digit, else the smaller of the value and
/// `limit`.
pub(crate) fn read_digits(chars: &Vec<char>, from: usize, to: usize, limit: u32) -> (out: Option<u32>)
    requires
        from <= to <= chars.len(),
        limit <= 0x0fff_ffff,
    ensures
        out is Some == all_digits(chars@.subrange(from as int, to as int)),
        out matches Some(v) ==> v as nat == if digits_value(
            chars@.subrange(from as int, to as int),
        ) < limit {
            digits_value(chars@.subrange(from as int, to as int))
        } else {
            limit as nat
        },
{
    let mut value: u32 = 0;
    let mut i: usize = from;
    while i < to
        invariant
            from <= i <= to <= chars.len(),
            limit <= 0x0fff_ffff,
            all_digits(chars@.subrange(from as int, i as int)),
            value as nat == if digits_value(chars@.subrange(from as int, i as int)) < limit {
                digits_value(chars@.subrange(from as int, i as int))
            } else {
                limit as nat
            },
        decreases to - i,
    {
        let c = chars[i];
        let ghost seen = chars@.subrange(from as int, i as int);
        let ghost next = chars@.subrange(from as int, i + 1);
        proof {
            assert(next.drop_last() =~= seen);
            assert(next.last() == c);
        }
        if !('0' <= c && c <= '9') {
            proof {
                let whole = chars@.subrange(from as int, to as int);
                assert(whole[i - from] == c);
            }
            return None;
        }
        let d: u32 = (c as u32) - ('0' as u32);
        value = value * 10 + d;
        if value > limit {
            value = limit;
        }
        proof {
            assert(digits_value(next) == digits_value(seen) * 10 + digit_value(c));
            assert forall|j: int| 0 <= j < next.len() implies is_digit(#[trigger] next[j]) by {
                if j < seen.len() {
                    assert(next[j] == seen[j]);
                }
            }
        }
        i += 1;
    }
    Some(value)
}

/// Whether `c` is white space, as `char::is_whitespace` of std tells.
pub uninterp spec fn is_white_space(c: char) -> bool;

/// Calls `char::is_whitespace` of std, which tells whether the character has
/// the property White_Space of Unicode. The contract gives the answer the
/// name `is_white_space` and claims no more of it.
#[verifier::external_body]
pub(crate) fn is_whitespace(c: char) -> (white: bool)
    ensures
        white == is_white_space(c),
{
    c.is_whitespace()
}

/// `s` without the white space at its start.
pub open spec fn without_leading_space(s: Seq<char>) -> Seq<char>
    decreases s.len(),
{
    if s.len() > 0 && is_white_space(s[0]) {
        without_leading_space(s.skip(1))
    } else {
        s
    }
}

/// `s` without the white space at its end.
pub open spec fn without_trailing_space(s: Seq<char>) -> Seq<char>
    decreases s.len(),
{
    if s.len() > 0 && is_white_space(s.last()) {
        without_trailing_space(s.drop_last())
    } else {
        s
    }
}

/// `s` without the white space at its start and at its end.
pub open spec fn trimmed(s: Seq<char>) -> Seq<char> {
    without_trailing_space(without_leading_space(s))
}

/// How many characters stand in `s` before its first white space; all of
/// them where it has none.
pub open spec fn word_length(s: Seq<char>) -> int
    decreases s.len(),
{
    if s.len() == 0 || is_white_space(s[0]) {
        0
    } else {
        1 + word_length(s.skip(1))
    }
}

/// The first word of `s`: what stands between the white space at its start
/// and the next white space. None where `s` holds white space only.
pub open spec fn first_word(s: Seq<char>) -> Option<Seq<char>> {
    let rest = without_leading_space(s);
    if rest.len() == 0 {
        None
    } else {
        Some(rest.take(word_length(rest)))
    }
}

/// Where the white space at the start of `chars[from..to]` ends.
pub(crate) fn skip_space(chars: &Vec<char>, from: usize, to: usize) -> (at: usize)
    requires
        from <= to <= chars.len(),
    ensures
        from <= at <= to,
        chars@.subrange(at as int, to as int) == without_leading_space(
            chars@.subrange(from as int, to as int),
        ),
{
    let mut at: usize = from;
    while at < to && is_whitespace(chars[at])
        invariant
            from <= at <= to <= chars.len(),
            without_leading_space(chars@.subrange(at as int, to as int)) == without_leading_space(
                chars@.subrange(from as int, to as int),
            ),
        decreases to - at,
    {
        proof {
            let here = chars@.subrange(at as int, to as int);
            assert(here[0] == chars@[at as int]);
            assert(here.skip(1) == chars@.subrange(at + 1, to as int));
        }
        at += 1;
    }
    proof {
        let here = chars@.subrange(at as int, to as int);
        if at < to {
            assert(here[0] == chars@[at as int]);
        }
    }
    at
}

/// Where the first word of `chars[from..to]` ends, for a word that starts at
/// `from`.
pub(crate) fn skip_word(chars: &Vec<char>, from: usize, to: usize) -> (at: usize)
    requires
        from <= to <= chars.len(),
    ensures
        from <= at <= to,
        at - from == word_length(chars@.subrange(from as int, to as int)),
{
    let mut at: usize = from;
    while at < to && !is_whitespace(chars[at])
        invariant
            from <= at <= to <= chars.len(),
            word_length(chars@.subrange(from as int, to as int)) == at - from + word_length(
                chars@.subrange(at as int, to as int),
            ),
        decreases to - at,
    {
        proof {
            let here = chars@.subrange(at as int, to as int);
            assert(here[0] == chars@[at as int]);
            assert(here.skip(1) == chars@.subrange(at + 1, to as int));
        }
        at += 1;
    }
    proof {
        let here = chars@.subrange(at as int, to as int);
        if at < to {
            assert(here[0] == chars@[at as int]);
        }
    }
    at
}

/// Where the white space at the end of `chars[from..to]` starts.
pub(crate) fn skip_space_back(chars: &Vec<char>, from: usize, to: usize) -> (at: usize)
    requires
        from <= to <= chars.len(),
    ensures
        from <= at <= to,
        chars@.subrange(from as int, at as int) == without_trailing_space(
            chars@.subrange(from as int, to as int),
        ),
{
    let mut at: usize = to;
    while at > from && is_whitespace(chars[at - 1])
        invariant
            from <= at <= to <= chars.len(),
            without_trailing_space(chars@.subrange(from as int, at as int))
                == without_trailing_space(chars@.subrange(from as int, to as int)),
        decreases at,
    {
        proof {
            let here = chars@.subrange(from as int, at as int);
            assert(here.last() == chars@[at - 1]);
            assert(here.drop_last() == chars@.subrange(from as int, at - 1));
        }
        at -= 1;
    }
    proof {
        let here = chars@.subrange(from as int, at as int);
        if at > from {
            assert(here.last() == chars@[at - 1]);
        }
    }
    at
}

/// `text` without the white space at its start and at its end.
pub fn trim(text: &str) -> (out: String)
    ensures
        out@ == trimmed(text@),
{
    let chars = chars_of(text);
    assert(chars@.subrange(0, chars.len() as int) == chars@);
    let from = skip_space(&chars, 0, chars.len());
    let to = skip_space_back(&chars, from, chars.len());
    text_of(&chars, from, to)
}

} // verus!
