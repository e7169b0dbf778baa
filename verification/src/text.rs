//! Strings as sequences of characters: the few text operations that the rest of the
//! library needs, each stated over `Seq<char>`.

use vstd::prelude::*;

verus! {

/// `String::push` appends one character to the end of the string and changes nothing
/// before it.
pub assume_specification[ String::push ](s: &mut String, c: char)
    ensures
        final(s)@ == old(s)@.push(c),
;

/// The characters of `s`, in order.
pub fn chars_of(s: &str) -> (out: Vec<char>)
    ensures
        out@ == s@,
{
    let mut out: Vec<char> = Vec::new();
    for c in iter: s.chars()
        invariant
            iter.seq() == s@,
            out@ == s@.take(iter.index() as int),
    {
        out.push(c);
    }
    proof {
        assert(s@.take(s@.len() as int) == s@);
    }
    out
}

/// The string made of `chars`, in order.
pub fn string_of(chars: &[char]) -> (out: String)
    ensures
        out@ == chars@,
{
    let mut out: String = String::new();
    let mut i: usize = 0;
    while i < chars.len()
        invariant
            i <= chars.len(),
            out@ == chars@.take(i as int),
        decreases chars.len() - i,
    {
        out.push(chars[i]);
        i += 1;
    }
    proof {
        assert(chars@.take(chars@.len() as int) == chars@);
    }
    out
}

/// The string made of `chars[from..to]`.
pub fn string_of_range(chars: &[char], from: usize, to: usize) -> (out: String)
    requires
        from <= to <= chars@.len(),
    ensures
        out@ == chars@.subrange(from as int, to as int),
{
    let mut out: String = String::new();
    let mut i: usize = from;
    while i < to
        invariant
            from <= i <= to <= chars@.len(),
            out@ == chars@.subrange(from as int, i as int),
        decreases to - i,
    {
        out.push(chars[i]);
        i += 1;
    }
    out
}

/// Whether two strings hold the same characters.
pub fn same_text(a: &str, b: &str) -> (same: bool)
    ensures
        same == (a@ == b@),
{
    let left: Vec<char> = chars_of(a);
    let right: Vec<char> = chars_of(b);
    if left.len() != right.len() {
        return false;
    }
    let mut i: usize = 0;
    while i < left.len()
        invariant
            i <= left.len(),
            left@ == a@,
            right@ == b@,
            left.len() == right.len(),
            forall|k: int| 0 <= k < i ==> left@[k] == right@[k],
        decreases left.len() - i,
    {
        if left[i] != right[i] {
            return false;
        }
        i += 1;
    }
    assert(a@ =~= b@);
    true
}

/// The decimal digits of `n`, most significant first, without leading zeros.
pub open spec fn decimal(n: nat) -> Seq<char>
    decreases n,
{
    if n < 10 {
        seq![digit_char(n)]
    } else {
        decimal(n / 10).push(digit_char(n % 10))
    }
}

/// The character of one decimal digit.
pub open spec fn digit_char(d: nat) -> char {
    ('0' as nat + d) as char
}

/// The decimal form of a signed number: a minus sign before the digits of a negative one.
pub open spec fn signed_decimal(n: int) -> Seq<char> {
    if n < 0 {
        seq!['-'] + decimal((-n) as nat)
    } else {
        decimal(n as nat)
    }
}

/// Appends the decimal form of `n`.
pub fn push_decimal(out: &mut String, n: u64)
    ensures
        final(out)@ == old(out)@ + decimal(n as nat),
    decreases n,
{
    if n < 10 {
        out.push((48u8 + n as u8) as char);
    } else {
        push_decimal(out, n / 10);
        out.push((48u8 + (n % 10) as u8) as char);
    }
}

/// Appends the signed decimal form of `n`.
pub fn push_signed_decimal(out: &mut String, n: i32)
    ensures
        final(out)@ == old(out)@ + signed_decimal(n as int),
{
    push_signed_decimal_wide(out, n as i64)
}

/// Appends the signed decimal form of `n`.
pub fn push_signed_decimal_wide(out: &mut String, n: i64)
    ensures
        final(out)@ == old(out)@ + signed_decimal(n as int),
{
    if n < 0 {
        out.push('-');
        push_decimal(out, (-(n as i128)) as u64);
    } else {
        push_decimal(out, n as u64);
    }
}

/// Whether `c` is one of the ten decimal digits.
pub open spec fn is_digit(c: char) -> bool {
    '0' <= c <= '9'
}

/// The number that a run of decimal digits stands for.
pub open spec fn digits_value(s: Seq<char>) -> nat
    decreases s.len(),
{
    if s.len() == 0 {
        0
    } else {
        digits_value(s.drop_last()) * 10 + (s.last() as nat - '0' as nat) as nat
    }
}

/// What remains of a numeral without its plus sign.
pub open spec fn unsigned_body(s: Seq<char>) -> Seq<char> {
    if s.len() > 0 && s[0] == '+' {
        s.skip(1)
    } else {
        s
    }
}

/// The number that a text stands for as an unsigned decimal numeral: one plus sign at most,
/// then digits and nothing else, and no more than `max`.
pub open spec fn numeral(s: Seq<char>, max: nat) -> Option<nat> {
    let body = unsigned_body(s);
    if body.len() > 0 && (forall|i: int| 0 <= i < body.len() ==> is_digit(#[trigger] body[i]))
        && digits_value(body) <= max {
        Some(digits_value(body))
    } else {
        None
    }
}

proof fn lemma_digits_value_grows(s: Seq<char>, n: int)
    requires
        0 <= n <= s.len(),
        forall|i: int| 0 <= i < s.len() ==> is_digit(#[trigger] s[i]),
    ensures
        digits_value(s.take(n)) <= digits_value(s),
    decreases s.len() - n,
{
    if n < s.len() {
        lemma_digits_value_grows(s, n + 1);
        assert(s.take(n + 1).drop_last() == s.take(n));
    } else {
        assert(s.take(n) == s);
    }
}

/// Reads an unsigned decimal numeral of at most `max`.
pub fn parse_unsigned(s: &str, max: u32) -> (n: Option<u32>)
    ensures
        n matches Some(v) ==> numeral(s@, max as nat) == Some(v as nat),
        n is None ==> numeral(s@, max as nat) is None,
{
    let chars: Vec<char> = chars_of(s);
    let mut i: usize = 0;
    if chars.len() > 0 && chars[0] == '+' {
        i = 1;
    }
    let ghost from: int = i as int;
    let ghost body = unsigned_body(s@);
    assert(body == s@.skip(from));
    if i >= chars.len() {
        return None;
    }
    let mut value: u64 = 0;
    while i < chars.len()
        invariant
            from <= i <= chars.len(),
            chars@ == s@,
            body == s@.skip(from),
            body == unsigned_body(s@),
            0 <= from <= s@.len(),
            forall|k: int| 0 <= k < i - from ==> is_digit(#[trigger] body[k]),
            value == digits_value(body.take(i - from)),
            value <= max,
        decreases chars.len() - i,
    {
        let c: char = chars[i];
        assert(body[i - from] == c);
        if !('0' <= c && c <= '9') {
            return None;
        }
        proof {
            assert(body.take(i - from + 1).drop_last() == body.take(i - from));
            assert(body.take(i - from + 1).last() == c);
        }
        value = value * 10 + (c as u32 - '0' as u32) as u64;
        if value > max as u64 {
            proof {
                if forall|k: int| 0 <= k < body.len() ==> is_digit(#[trigger] body[k]) {
                    lemma_digits_value_grows(body, i - from + 1);
                }
            }
            return None;
        }
        i += 1;
    }
    assert(body.take(body.len() as int) == body);
    Some(value as u32)
}

/// A literal as an owned string.
pub fn owned(s: &str) -> (out: String)
    ensures
        out@ == s@,
{
    s.to_owned()
}

/// The two texts one after the other.
pub fn joined(a: &str, b: &str) -> (out: String)
    ensures
        out@ == a@ + b@,
{
    let mut out: String = a.to_owned();
    out.append(b);
    out
}

/// Whether `pat` stands at position `i` of `s`.
pub open spec fn occurs(s: Seq<char>, pat: Seq<char>, i: int) -> bool {
    0 <= i && i + pat.len() <= s.len() && s.subrange(i, i + pat.len()) == pat
}

/// The first position from `i` on at which `pat` stands.
pub open spec fn find_from(s: Seq<char>, pat: Seq<char>, i: int) -> Option<int>
    decreases s.len() - i + 1,
{
    if i < 0 || i + pat.len() > s.len() {
        None
    } else if occurs(s, pat, i) {
        Some(i)
    } else {
        find_from(s, pat, i + 1)
    }
}

/// What stands after the first `pat` in `s`.
pub open spec fn after_first(s: Seq<char>, pat: Seq<char>) -> Option<Seq<char>> {
    match find_from(s, pat, 0) {
        Some(i) => Some(s.skip(i + pat.len())),
        None => None,
    }
}

/// The first position of `pat` in `chars`.
pub fn find(chars: &[char], pat: &[char]) -> (r: Option<usize>)
    ensures
        match r {
            Some(i) => find_from(chars@, pat@, 0) == Some(i as int) && i + pat@.len()
                <= chars@.len(),
            None => find_from(chars@, pat@, 0) is None,
        },
{
    if pat.len() > chars.len() {
        return None;
    }
    let last: usize = chars.len() - pat.len();
    let mut i: usize = 0;
    while i < last
        invariant
            i <= last,
            last + pat@.len() == chars@.len(),
            find_from(chars@, pat@, 0) == find_from(chars@, pat@, i as int),
        decreases last - i,
    {
        if stands_at(chars, pat, i) {
            return Some(i);
        }
        i += 1;
    }
    if stands_at(chars, pat, last) {
        Some(last)
    } else {
        assert(find_from(chars@, pat@, last + 1) is None);
        None
    }
}

fn stands_at(chars: &[char], pat: &[char], i: usize) -> (r: bool)
    requires
        i + pat@.len() <= chars@.len(),
    ensures
        r == occurs(chars@, pat@, i as int),
{
    let n: usize = chars.len();
    let mut k: usize = 0;
    while k < pat.len()
        invariant
            k <= pat@.len(),
            i + pat@.len() <= n == chars@.len(),
            forall|j: int| 0 <= j < k ==> chars@[i + j] == pat@[j],
        decreases pat.len() - k,
    {
        if chars[i + k] != pat[k] {
            assert(chars@.subrange(i as int, i + pat@.len())[k as int] != pat@[k as int]);
            return false;
        }
        k += 1;
    }
    assert(chars@.subrange(i as int, i + pat@.len()) =~= pat@);
    true
}

/// The characters of `chars[from..to]`.
pub fn copy_range(chars: &[char], from: usize, to: usize) -> (out: Vec<char>)
    requires
        from <= to <= chars@.len(),
    ensures
        out@ == chars@.subrange(from as int, to as int),
{
    let mut out: Vec<char> = Vec::new();
    let mut i: usize = from;
    while i < to
        invariant
            from <= i <= to <= chars@.len(),
            out@ == chars@.subrange(from as int, i as int),
        decreases to - i,
    {
        out.push(chars[i]);
        i += 1;
    }
    out
}

/// What stands after the first `pat` in `chars`.
pub fn rest_after(chars: &[char], pat: &[char]) -> (r: Option<Vec<char>>)
    ensures
        match r {
            Some(v) => after_first(chars@, pat@) == Some(v@),
            None => after_first(chars@, pat@) is None,
        },
{
    match find(chars, pat) {
        None => None,
        Some(i) => {
            let n: usize = chars.len();
            let rest: Vec<char> = copy_range(chars, i + pat.len(), n);
            assert(rest@ =~= chars@.skip(i + pat@.len()));
            Some(rest)
        },
    }
}

/// What `Debug` shows of a text: the text in double quotes, with what could be misread in it
/// escaped.
pub uninterp spec fn quoted(s: Seq<char>) -> Seq<char>;

/// `Debug` for `str`, through `format!`: the shown text is a function of the text. Which
/// characters are escaped, and how, is left unsaid.
#[verifier::external_body]
pub(crate) fn quote(s: &str) -> (out: String)
    ensures
        out@ == quoted(s@),
{
    format!("{:?}", s)
}

/// `String::from_utf8` gives the text that the bytes encode in UTF-8, where they are valid
/// UTF-8, and refuses any others.
#[verifier::external_body]
pub(crate) fn text_from_utf8(bytes: Vec<u8>) -> (r: Option<String>)
    ensures
        match r {
            Some(s) => vstd::utf8::valid_utf8(bytes@) && s@ == vstd::utf8::decode_utf8(bytes@),
            None => !vstd::utf8::valid_utf8(bytes@),
        },
{
    String::from_utf8(bytes).ok()
}

/// Whether a text holds the character.
pub fn holds(s: &str, c: char) -> (r: bool)
    ensures
        r == s@.contains(c),
{
    let chars: Vec<char> = chars_of(s);
    let mut i: usize = 0;
    while i < chars.len()
        invariant
            i <= chars.len(),
            chars@ == s@,
            forall|k: int| 0 <= k < i ==> s@[k] != c,
        decreases chars.len() - i,
    {
        if chars[i] == c {
            assert(s@[i as int] == c);
            return true;
        }
        i += 1;
    }
    false
}

/// A 64-bit count as a signed number of 64 bits: from 2 to the power of 63 on it is negative.
pub open spec fn signed_count(n: u64) -> int {
    if n <= i64::MAX {
        n as int
    } else {
        n - 0x1_0000_0000_0000_0000
    }
}

/// A 64-bit count as a signed number of 64 bits.
pub fn to_signed(n: u64) -> (r: i64)
    ensures
        r == signed_count(n),
{
    if n <= 0x7fff_ffff_ffff_ffff {
        n as i64
    } else {
        -((0xffff_ffff_ffff_ffff - n) as i64) - 1
    }
}

/// Reading the decimal form of a number gives the number back: it is made of digits alone, and
/// starts with 0 only where it is the number 0.
pub proof fn lemma_decimals_read_back(n: nat)
    ensures
        decimal(n).len() >= 1,
        forall|i: int| 0 <= i < decimal(n).len() ==> '0' <= #[trigger] decimal(n)[i] <= '9',
        digits_value(decimal(n)) == n,
        n > 0 ==> decimal(n)[0] != '0',
        numeral(decimal(n), n) == Some(n),
        n < 10 ==> decimal(n) == seq![(48 + n) as char],
    decreases n,
{
    if n < 10 {
        assert(decimal(n).drop_last() =~= seq![]);
        assert(digits_value(decimal(n).drop_last()) == 0);
    } else {
        lemma_decimals_read_back(n / 10);
        assert(decimal(n).drop_last() =~= decimal(n / 10));
        assert(decimal(n).last() == digit_char(n % 10));
    }
    assert(unsigned_body(decimal(n)) == decimal(n));
}

/// Numbers with the same decimal form are the same.
pub proof fn lemma_decimals_differ(a: nat, b: nat)
    requires
        decimal(a) == decimal(b),
    ensures
        a == b,
{
    lemma_decimals_read_back(a);
    lemma_decimals_read_back(b);
}

/// A negative number is shown as a minus sign and the decimal form of its distance from 0, and
/// any other one as its decimal form.
pub proof fn lemma_signs_are_shown(n: int)
    ensures
        n < 0 ==> signed_decimal(n)[0] == '-' && digits_value(signed_decimal(n).skip(1)) == -n,
        n >= 0 ==> signed_decimal(n)[0] != '-' && digits_value(signed_decimal(n)) == n,
{
    if n < 0 {
        lemma_decimals_read_back((-n) as nat);
        assert(signed_decimal(n).skip(1) =~= decimal((-n) as nat));
    } else {
        lemma_decimals_read_back(n as nat);
    }
}

/// One more digit makes a number ten times as large, and adds itself.
pub proof fn lemma_digits_have_places(s: Seq<char>, c: char)
    requires
        '0' <= c <= '9',
    ensures
        digits_value(s.push(c)) == 10 * digits_value(s) + (c as nat - 48),
        digits_value(seq![]) == 0,
{
    assert(s.push(c).drop_last() =~= s);
}

/// Digits are read as the number that they stand for, with a plus sign before them or without,
/// where that is no more than the limit.
pub proof fn lemma_digits_are_read(s: Seq<char>, max: nat)
    requires
        s.len() > 0,
        forall|i: int| 0 <= i < s.len() ==> '0' <= #[trigger] s[i] <= '9',
    ensures
        digits_value(s) <= max ==> numeral(s, max) == Some(digits_value(s)) && numeral(
            seq!['+'] + s,
            max,
        ) == Some(digits_value(s)),
        digits_value(s) > max ==> numeral(s, max) is None && numeral(seq!['+'] + s, max) is None,
{
    assert(s[0] != '+');
    assert((seq!['+'] + s).skip(1) =~= s);
}

/// Nothing else is read as a number: no empty text, no sign alone, and no text with anything
/// but digits behind its first character, or anything but a digit or a plus sign there.
pub proof fn lemma_nothing_else_is_a_number(s: Seq<char>, max: nat, i: int)
    requires
        s.len() == 0 || (s.len() == 1 && s[0] == '+') || (0 <= i < s.len() && !('0' <= s[i]
            <= '9') && (i > 0 || s[0] != '+')),
    ensures
        numeral(s, max) is None,
{
    let body = unsigned_body(s);
    if body.len() > 0 {
        if s[0] == '+' {
            assert(body[i - 1] == s[i]);
        } else {
            assert(body[i] == s[i]);
        }
    }
}

/// What is found is the first place at which the text stands, and where nothing is found it
/// stands nowhere.
pub proof fn lemma_the_first_place_is_found(s: Seq<char>, pat: Seq<char>, from: int)
    requires
        0 <= from,
    ensures
        match find_from(s, pat, from) {
            Some(k) => {
                &&& from <= k
                &&& k + pat.len() <= s.len()
                &&& s.subrange(k, k + pat.len()) == pat
                &&& forall|j: int|
                    from <= j < k ==> #[trigger] s.subrange(j, j + pat.len()) != pat
            },
            None => forall|j: int|
                from <= j && j + pat.len() <= s.len() ==> #[trigger] s.subrange(j, j + pat.len())
                    != pat,
        },
    decreases s.len() - from + 1,
{
    if from + pat.len() <= s.len() && !occurs(s, pat, from) {
        lemma_the_first_place_is_found(s, pat, from + 1);
    }
}

/// What stands behind the first place of a text is found as it is.
pub proof fn lemma_what_follows_is_found(before: Seq<char>, pat: Seq<char>, after: Seq<char>)
    requires
        forall|j: int|
            0 <= j < before.len() ==> #[trigger] (before + pat + after).subrange(j, j + pat.len())
                != pat,
    ensures
        after_first(before + pat + after, pat) == Some(after),
{
    let s = before + pat + after;
    let n = before.len() as int;
    assert(s.subrange(n, n + pat.len()) =~= pat);
    lemma_the_first_place_is_found(s, pat, 0);
    match find_from(s, pat, 0) {
        Some(k) => {
            assert(k <= n);
            if k < n {
                assert(s.subrange(k, k + pat.len()) != pat);
            }
            assert(s.skip(n + pat.len()) =~= after);
        },
        None => {},
    }
}

/// A mark of one character is found where it first stands.
pub proof fn lemma_a_mark_is_found(before: Seq<char>, mark: char, after: Seq<char>)
    requires
        !before.contains(mark),
    ensures
        find_from(before + seq![mark] + after, seq![mark], 0) == Some(before.len() as int),
        after_first(before + seq![mark] + after, seq![mark]) == Some(after),
{
    let s = before + seq![mark] + after;
    assert forall|j: int| 0 <= j < before.len() implies #[trigger] s.subrange(j, j + 1)
        != seq![mark] by {
        assert(s.subrange(j, j + 1)[0] == before[j]);
        assert(seq![mark][0] == mark);
    }
    lemma_what_follows_is_found(before, seq![mark], after);
    lemma_the_first_place_is_found(s, seq![mark], 0);
    let n = before.len() as int;
    assert(s.subrange(n, n + 1) =~= seq![mark]);
}

/// A signed count differs from the count by a multiple of 2 to the power of 64 and fits in 64
/// bits.
pub proof fn lemma_signed_counts_wrap(n: u64)
    ensures
        -0x8000_0000_0000_0000 <= signed_count(n) <= 0x7fff_ffff_ffff_ffff,
        signed_count(n) == n || signed_count(n) == n - 0x1_0000_0000_0000_0000,
{
}

} // verus!
