//! Character-level primitives shared by the parser and the serializer:
//! whitespace, words, trimming, searching, and decimal numerals.

use vstd::prelude::*;
use vstd::string::StringExecFns;

verus! {

/// The characters with the Unicode `White_Space` property.
pub open spec fn is_whitespace(c: char) -> bool {
    let u = c as u32;
    ||| 0x09 <= u <= 0x0D
    ||| u == 0x20
    ||| u == 0x85
    ||| u == 0xA0
    ||| u == 0x1680
    ||| 0x2000 <= u <= 0x200A
    ||| u == 0x2028
    ||| u == 0x2029
    ||| u == 0x202F
    ||| u == 0x205F
    ||| u == 0x3000
}

/// Tells whether `c` is a whitespace character.
pub fn whitespace(c: char) -> (b: bool)
    ensures
        b == is_whitespace(c),
{
    let u: u32 = c as u32;
    (0x09 <= u && u <= 0x0D) || u == 0x20 || u == 0x85 || u == 0xA0 || u == 0x1680 || (0x2000 <= u
        && u <= 0x200A) || u == 0x2028 || u == 0x2029 || u == 0x202F || u == 0x205F || u == 0x3000
}

/// The first position at or after `from` that holds no whitespace, or the
/// length of `s` if only whitespace follows.
pub open spec fn skip_whitespace(s: Seq<char>, from: int) -> int
    decreases s.len() - from,
{
    if 0 <= from < s.len() && is_whitespace(s[from]) {
        skip_whitespace(s, from + 1)
    } else {
        from
    }
}

/// The first position at or after `from` that holds whitespace, or the
/// length of `s` if none follows.
pub open spec fn skip_word(s: Seq<char>, from: int) -> int
    decreases s.len() - from,
{
    if 0 <= from < s.len() && !is_whitespace(s[from]) {
        skip_word(s, from + 1)
    } else {
        from
    }
}

/// Where the scan over whitespace stops: only whitespace lies before, and
/// none at the stop.
pub proof fn lemma_skip_whitespace(s: Seq<char>, from: int)
    requires
        0 <= from <= s.len(),
    ensures
        from <= skip_whitespace(s, from) <= s.len(),
        forall|k: int| from <= k < skip_whitespace(s, from) ==> is_whitespace(#[trigger] s[k]),
        skip_whitespace(s, from) < s.len() ==> !is_whitespace(s[skip_whitespace(s, from)]),
    decreases s.len() - from,
{
    if from < s.len() && is_whitespace(s[from]) {
        lemma_skip_whitespace(s, from + 1);
    }
}

/// Scans forward from `from` over whitespace.
pub fn scan_whitespace(s: &Vec<char>, from: usize) -> (to: usize)
    requires
        from <= s.len(),
    ensures
        to == skip_whitespace(s@, from as int),
        from <= to <= s.len(),
{
    let mut i: usize = from;
    while i < s.len() && whitespace(s[i])
        invariant
            from <= i <= s.len(),
            skip_whitespace(s@, from as int) == skip_whitespace(s@, i as int),
        decreases s.len() - i,
    {
        i += 1;
    }
    i
}

/// Scans forward from `from` over characters that are not whitespace.
pub fn scan_word(s: &Vec<char>, from: usize) -> (to: usize)
    requires
        from <= s.len(),
    ensures
        to == skip_word(s@, from as int),
        from <= to <= s.len(),
{
    let mut i: usize = from;
    while i < s.len() && !whitespace(s[i])
        invariant
            from <= i <= s.len(),
            skip_word(s@, from as int) == skip_word(s@, i as int),
        decreases s.len() - i,
    {
        i += 1;
    }
    i
}

/// The first word of `s`: its first run of characters that are not
/// whitespace, if it has one.
pub open spec fn first_word(s: Seq<char>) -> Option<Seq<char>> {
    let start = skip_whitespace(s, 0);
    if start < s.len() {
        Some(s.subrange(start, skip_word(s, start)))
    } else {
        None
    }
}

/// What follows the first word of `s`.
pub open spec fn after_first_word(s: Seq<char>) -> Seq<char> {
    s.skip(skip_word(s, skip_whitespace(s, 0)))
}

/// The first position at or after `from` that holds `c`, or the length of `s`
/// if `c` does not occur from there on.
pub open spec fn find(s: Seq<char>, c: char, from: int) -> int
    decreases s.len() - from,
{
    if 0 <= from < s.len() && s[from] != c {
        find(s, c, from + 1)
    } else {
        from
    }
}

/// Where the search for `c` stops: no `c` lies before, and `c` at the stop
/// unless it is the end.
pub proof fn lemma_find(s: Seq<char>, c: char, from: int)
    requires
        0 <= from <= s.len(),
    ensures
        from <= find(s, c, from) <= s.len(),
        forall|k: int| from <= k < find(s, c, from) ==> #[trigger] s[k] != c,
        find(s, c, from) < s.len() ==> s[find(s, c, from)] == c,
    decreases s.len() - from,
{
    if from < s.len() && s[from] != c {
        lemma_find(s, c, from + 1);
    }
}

/// Scans forward from `from` for the character `c`.
pub fn scan_for(s: &Vec<char>, c: char, from: usize) -> (to: usize)
    requires
        from <= s.len(),
    ensures
        to == find(s@, c, from as int),
        from <= to <= s.len(),
{
    let mut i: usize = from;
    while i < s.len() && s[i] != c
        invariant
            from <= i <= s.len(),
            find(s@, c, from as int) == find(s@, c, i as int),
        decreases s.len() - i,
    {
        i += 1;
    }
    i
}

/// The length of `s` without its trailing whitespace.
pub open spec fn trim_end_len(s: Seq<char>) -> int
    decreases s.len(),
{
    if s.len() > 0 && is_whitespace(s.last()) {
        trim_end_len(s.drop_last())
    } else {
        s.len() as int
    }
}

/// `s` without its leading and trailing whitespace.
pub open spec fn trimmed(s: Seq<char>) -> Seq<char> {
    let kept = s.take(trim_end_len(s));
    kept.skip(skip_whitespace(kept, 0))
}

/// Where the trailing whitespace starts: only whitespace lies behind, and
/// none just before.
pub proof fn lemma_trim_end_len(s: Seq<char>)
    ensures
        0 <= trim_end_len(s) <= s.len(),
        forall|k: int| trim_end_len(s) <= k < s.len() ==> is_whitespace(#[trigger] s[k]),
        trim_end_len(s) > 0 ==> !is_whitespace(s[trim_end_len(s) - 1]),
    decreases s.len(),
{
    if s.len() > 0 && is_whitespace(s.last()) {
        let shorter = s.drop_last();
        lemma_trim_end_len(shorter);
        assert forall|k: int| trim_end_len(s) <= k < s.len() implies is_whitespace(
            #[trigger] s[k],
        ) by {
            if k < shorter.len() {
                assert(s[k] == shorter[k]);
            }
        }
    }
}

/// The scan over whitespace in a prefix stops where it stops in the whole,
/// or at the end of the prefix.
proof fn lemma_skip_whitespace_take(s: Seq<char>, end: int, from: int)
    requires
        0 <= from <= end <= s.len(),
    ensures
        skip_whitespace(s.take(end), from) == if skip_whitespace(s, from) < end {
            skip_whitespace(s, from)
        } else {
            end
        },
    decreases end - from,
{
    if from < end && is_whitespace(s[from]) {
        lemma_skip_whitespace_take(s, end, from + 1);
    } else if from == end {
        lemma_skip_whitespace(s, from);
    }
}

/// The characters of `s`, one by one.
pub fn chars_of(s: &str) -> (v: Vec<char>)
    ensures
        v@ == s@,
{
    let mut v: Vec<char> = Vec::new();
    for c in it: s.chars()
        invariant
            it.seq() == s@,
            v@ == it.seq().take(it.index()),
    {
        v.push(c);
    }
    v
}

/// Scans backward from the end of `s` over whitespace.
pub fn scan_trailing_whitespace(s: &Vec<char>) -> (end: usize)
    ensures
        end == trim_end_len(s@),
        end <= s.len(),
{
    let mut i: usize = s.len();
    proof {
        assert(s@.take(i as int) == s@);
    }
    while i > 0 && whitespace(s[i - 1])
        invariant
            i <= s.len(),
            trim_end_len(s@) == trim_end_len(s@.take(i as int)),
        decreases i,
    {
        proof {
            assert(s@.take(i as int).drop_last() == s@.take(i - 1));
        }
        i -= 1;
    }
    i
}

/// Copies `s` without its leading and trailing whitespace.
pub fn trim(s: &str) -> (r: String)
    ensures
        r@ == trimmed(s@),
{
    let v = chars_of(s);
    let end = scan_trailing_whitespace(&v);
    let start = scan_whitespace(&v, 0);
    proof {
        lemma_skip_whitespace_take(s@, end as int, 0);
    }
    if start < end {
        s.substring_char(start, end).to_owned()
    } else {
        proof {
            assert(trimmed(s@) == Seq::<char>::empty());
        }
        String::new()
    }
}

/// The decimal digits `0` to `9`.
pub open spec fn is_digit(c: char) -> bool {
    '0' <= c <= '9'
}

/// The value of a decimal digit.
pub open spec fn digit_value(c: char) -> nat
    recommends
        is_digit(c),
{
    (c as u32 - '0' as u32) as nat
}

/// The number that a string of decimal digits denotes; 0 for the empty one.
pub open spec fn digits_value(s: Seq<char>) -> nat
    decreases s.len(),
{
    if s.len() == 0 {
        0
    } else {
        digits_value(s.drop_last()) * 10 + digit_value(s.last())
    }
}

/// Every character of `s` is a decimal digit.
pub open spec fn all_digits(s: Seq<char>) -> bool {
    forall|i: int| 0 <= i < s.len() ==> is_digit(#[trigger] s[i])
}

/// The number that `s` denotes as an unsigned decimal numeral: an optional
/// `+`, then one or more decimal digits and nothing else.
pub open spec fn parse_number(s: Seq<char>) -> Option<nat> {
    let digits = if s.len() > 0 && s[0] == '+' {
        s.drop_first()
    } else {
        s
    };
    if digits.len() > 0 && all_digits(digits) {
        Some(digits_value(digits))
    } else {
        None
    }
}

/// The number that `s` denotes, if it is a numeral and fits the machine word.
pub open spec fn parse_usize_spec(s: Seq<char>) -> Option<usize> {
    match parse_number(s) {
        Some(n) => if n <= usize::MAX {
            Some(n as usize)
        } else {
            None
        },
        None => None,
    }
}

/// A prefix of a digit string denotes no more than the whole.
proof fn lemma_digits_value_prefix(s: Seq<char>, k: int)
    requires
        0 <= k <= s.len(),
    ensures
        digits_value(s.take(k)) <= digits_value(s),
    decreases s.len(),
{
    if k < s.len() {
        assert(s.drop_last().take(k) == s.take(k));
        lemma_digits_value_prefix(s.drop_last(), k);
    } else {
        assert(s.take(k) == s);
    }
}

/// Reads `s` as an unsigned decimal numeral.
pub fn parse_usize(s: &str) -> (r: Option<usize>)
    ensures
        r == parse_usize_spec(s@),
{
    let v = chars_of(s);
    let start: usize = if v.len() > 0 && v[0] == '+' {
        1
    } else {
        0
    };
    if start == v.len() {
        return None;
    }
    let ghost digits = if s@.len() > 0 && s@[0] == '+' {
        s@.drop_first()
    } else {
        s@
    };
    proof {
        assert(digits == s@.skip(start as int));
    }
    let mut acc: usize = 0;
    let mut i: usize = start;
    while i < v.len()
        invariant
            start <= i <= v.len(),
            v@ == s@,
            digits == s@.skip(start as int),
            digits.len() > 0,
            parse_number(s@) == if all_digits(digits) {
                Some(digits_value(digits))
            } else {
                None
            },
            forall|k: int| 0 <= k < i - start ==> is_digit(#[trigger] digits[k]),
            acc == digits_value(digits.take(i - start)),
        decreases v.len() - i,
    {
        let c = v[i];
        if !('0' <= c && c <= '9') {
            proof {
                assert(digits[i - start] == c);
            }
            return None;
        }
        let d: usize = (c as u32 - '0' as u32) as usize;
        proof {
            assert(digits[i - start] == c);
            assert(digits.take(i - start + 1).drop_last() == digits.take(i - start));
            lemma_digits_value_prefix(digits, i - start + 1);
        }
        match acc.checked_mul(10) {
            None => {
                return None;
            },
            Some(tens) => match tens.checked_add(d) {
                None => {
                    return None;
                },
                Some(next) => {
                    acc = next;
                },
            },
        }
        i += 1;
    }
    proof {
        assert(digits.take(i - start) == digits);
    }
    Some(acc)
}

/// The character that stands for a value below ten.
pub open spec fn digit_char(d: nat) -> char
    recommends
        d < 10,
{
    ('0' as u32 + d as u32) as char
}

/// The decimal numeral of `n`, without sign or leading zeros.
pub open spec fn decimal(n: nat) -> Seq<char>
    decreases n,
{
    if n < 10 {
        seq![digit_char(n)]
    } else {
        decimal(n / 10).push(digit_char(n % 10))
    }
}

/// The numeral of a value below ten.
fn digit_text(d: usize) -> (r: &'static str)
    requires
        d < 10,
    ensures
        r@ == seq![digit_char(d as nat)],
{
    proof {
        reveal_strlit("0");
        reveal_strlit("1");
        reveal_strlit("2");
        reveal_strlit("3");
        reveal_strlit("4");
        reveal_strlit("5");
        reveal_strlit("6");
        reveal_strlit("7");
        reveal_strlit("8");
        reveal_strlit("9");
    }
    let r = if d == 0 {
        "0"
    } else if d == 1 {
        "1"
    } else if d == 2 {
        "2"
    } else if d == 3 {
        "3"
    } else if d == 4 {
        "4"
    } else if d == 5 {
        "5"
    } else if d == 6 {
        "6"
    } else if d == 7 {
        "7"
    } else if d == 8 {
        "8"
    } else {
        "9"
    };
    proof {
        assert(r@ =~= seq![digit_char(d as nat)]);
    }
    r
}

/// Writes `n` as a decimal numeral.
pub fn to_decimal(n: usize) -> (r: String)
    ensures
        r@ == decimal(n as nat),
    decreases n,
{
    if n < 10 {
        digit_text(n).to_owned()
    } else {
        let mut r = to_decimal(n / 10);
        r.append(digit_text(n % 10));
        r
    }
}

/// The code of `c` with the ASCII capitals folded onto their small letters.
pub open spec fn lower_code(c: char) -> u32 {
    let u = c as u32;
    if 0x41 <= u <= 0x5A {
        (u + 0x20) as u32
    } else {
        u
    }
}

/// Equality of two strings up to the case of ASCII letters.
pub open spec fn eq_ignore_ascii_case(a: Seq<char>, b: Seq<char>) -> bool {
    &&& a.len() == b.len()
    &&& forall|i: int| 0 <= i < a.len() ==> lower_code(#[trigger] a[i]) == lower_code(b[i])
}

/// The code of `c` with the ASCII capitals folded onto their small letters.
fn fold_case(c: char) -> (u: u32)
    ensures
        u == lower_code(c),
{
    let u: u32 = c as u32;
    if 0x41 <= u && u <= 0x5A {
        u + 0x20
    } else {
        u
    }
}

/// Compares two strings up to the case of ASCII letters.
pub fn same_ignoring_case(a: &str, b: &str) -> (r: bool)
    ensures
        r == eq_ignore_ascii_case(a@, b@),
{
    let x = chars_of(a);
    let y = chars_of(b);
    if x.len() != y.len() {
        return false;
    }
    let mut i: usize = 0;
    while i < x.len()
        invariant
            i <= x.len(),
            x.len() == y.len(),
            x@ == a@,
            y@ == b@,
            forall|k: int| 0 <= k < i ==> lower_code(#[trigger] x@[k]) == lower_code(y@[k]),
        decreases x.len() - i,
    {
        if fold_case(x[i]) != fold_case(y[i]) {
            return false;
        }
        i += 1;
    }
    true
}

/// Compares two strings character by character.
pub fn same_text(a: &str, b: &str) -> (r: bool)
    ensures
        r == (a@ == b@),
{
    let x = chars_of(a);
    let y = chars_of(b);
    if x.len() != y.len() {
        return false;
    }
    let mut i: usize = 0;
    while i < x.len()
        invariant
            i <= x.len(),
            x.len() == y.len(),
            x@ == a@,
            y@ == b@,
            forall|k: int| 0 <= k < i ==> x@[k] == y@[k],
        decreases x.len() - i,
    {
        if x[i] != y[i] {
            return false;
        }
        i += 1;
    }
    proof {
        assert(x@ =~= y@);
    }
    true
}

/// Whitespace from `from` up to `to`, and none at `to`: the scan stops at `to`.
pub proof fn lemma_skip_whitespace_run(s: Seq<char>, from: int, to: int)
    requires
        0 <= from <= to <= s.len(),
        forall|k: int| from <= k < to ==> is_whitespace(#[trigger] s[k]),
        to < s.len() ==> !is_whitespace(s[to]),
    ensures
        skip_whitespace(s, from) == to,
    decreases to - from,
{
    if from < to {
        lemma_skip_whitespace_run(s, from + 1, to);
    }
}

/// No whitespace from `from` up to `to`, and whitespace or the end at `to`:
/// the word ends at `to`.
pub proof fn lemma_skip_word_run(s: Seq<char>, from: int, to: int)
    requires
        0 <= from <= to <= s.len(),
        forall|k: int| from <= k < to ==> !is_whitespace(#[trigger] s[k]),
        to < s.len() ==> is_whitespace(s[to]),
    ensures
        skip_word(s, from) == to,
    decreases to - from,
{
    if from < to {
        lemma_skip_word_run(s, from + 1, to);
    }
}

/// No `c` from `from` up to `to`, and `c` or the end at `to`: the search
/// stops at `to`.
pub proof fn lemma_find_run(s: Seq<char>, c: char, from: int, to: int)
    requires
        0 <= from <= to <= s.len(),
        forall|k: int| from <= k < to ==> #[trigger] s[k] != c,
        to < s.len() ==> s[to] == c,
    ensures
        find(s, c, from) == to,
    decreases to - from,
{
    if from < to {
        lemma_find_run(s, c, from + 1, to);
    }
}

/// Every character of `s` is whitespace.
pub open spec fn all_whitespace(s: Seq<char>) -> bool {
    forall|i: int| 0 <= i < s.len() ==> is_whitespace(#[trigger] s[i])
}

/// `s` neither starts nor ends with whitespace.
pub open spec fn is_trimmed(s: Seq<char>) -> bool {
    s.len() > 0 ==> !is_whitespace(s.first()) && !is_whitespace(s.last())
}

/// Trimming takes away the whitespace around a text that has none at its
/// ends, and nothing else.
pub proof fn lemma_trimmed(lead: Seq<char>, core: Seq<char>, trail: Seq<char>)
    requires
        all_whitespace(lead),
        all_whitespace(trail),
        is_trimmed(core),
    ensures
        trimmed(lead + core + trail) == core,
{
    let s = lead + core + trail;
    lemma_trim_end_len(s);
    let end = trim_end_len(s);
    if core.len() == 0 {
        if end > 0 {
            assert(is_whitespace(s[end - 1]));
        }
        assert(s.take(end).skip(skip_whitespace(s.take(end), 0)) =~= core);
    } else {
        let last = lead.len() + core.len();
        assert(s[last - 1] == core.last());
        if end < last {
            assert(is_whitespace(s[last - 1]));
        }
        if end > last {
            assert(s[end - 1] == trail[end - 1 - last]);
        }
        assert(end == last);
        let kept = s.take(end);
        assert(kept[lead.len() as int] == core.first());
        assert forall|k: int| 0 <= k < lead.len() implies is_whitespace(#[trigger] kept[k]) by {
            assert(kept[k] == lead[k]);
        }
        lemma_skip_whitespace_run(kept, 0, lead.len() as int);
        assert(kept.skip(lead.len() as int) =~= core);
    }
}

/// One more digit at the end: ten times the value so far, and the digit.
proof fn lemma_digits_value_push(s: Seq<char>, c: char)
    ensures
        digits_value(s.push(c)) == digits_value(s) * 10 + digit_value(c),
{
    assert(s.push(c).drop_last() == s);
}

/// The decimal numeral of a number denotes that number.
pub proof fn lemma_decimal_round_trip(n: nat)
    ensures
        decimal(n).len() > 0,
        all_digits(decimal(n)),
        digits_value(decimal(n)) == n,
        parse_number(decimal(n)) == Some(n),
    decreases n,
{
    let d = digit_char(n % 10);
    assert(is_digit(d) && digit_value(d) == n % 10);
    if n < 10 {
        lemma_digits_value_push(Seq::empty(), d);
        assert(Seq::<char>::empty().push(d) == seq![d]);
    } else {
        lemma_decimal_round_trip(n / 10);
        lemma_digits_value_push(decimal(n / 10), d);
    }
    assert(decimal(n)[0] != '+');
}

} // verus!
