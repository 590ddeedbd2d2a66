//! Plain-text utilities the two codecs share: decimal rendering and parsing
//! of numbers, and splitting, trimming and searching of character sequences.

use vstd::prelude::*;
use vstd::string::StringExecFns;

verus! {

/// The numeric value of a digit character; 10 for anything that is not a
/// digit.
pub open spec fn digit_value(c: char) -> nat {
    if c == '0' {
        0
    } else if c == '1' {
        1
    } else if c == '2' {
        2
    } else if c == '3' {
        3
    } else if c == '4' {
        4
    } else if c == '5' {
        5
    } else if c == '6' {
        6
    } else if c == '7' {
        7
    } else if c == '8' {
        8
    } else if c == '9' {
        9
    } else {
        10
    }
}

/// Whether the character is a decimal digit.
pub open spec fn is_digit(c: char) -> bool {
    digit_value(c) < 10
}

/// The digit character for a value below ten.
pub open spec fn digit_char(d: nat) -> char {
    if d == 0 {
        '0'
    } else if d == 1 {
        '1'
    } else if d == 2 {
        '2'
    } else if d == 3 {
        '3'
    } else if d == 4 {
        '4'
    } else if d == 5 {
        '5'
    } else if d == 6 {
        '6'
    } else if d == 7 {
        '7'
    } else if d == 8 {
        '8'
    } else {
        '9'
    }
}

/// The decimal rendering of a number, most significant digit first, with no
/// sign and no leading zeros (a single zero for zero itself).
pub open spec fn dec_digits(n: nat) -> Seq<char>
    decreases n,
{
    if n < 10 {
        seq![digit_char(n)]
    } else {
        dec_digits(n / 10).push(digit_char(n % 10))
    }
}

/// The numeric value of a digit string, most significant digit first.
pub open spec fn dec_value(s: Seq<char>) -> nat
    decreases s.len(),
{
    if s.len() == 0 {
        0
    } else {
        dec_value(s.drop_last()) * 10 + digit_value(s.last())
    }
}

/// Whether every character of the string is a decimal digit.
pub open spec fn all_digits(s: Seq<char>) -> bool {
    forall|i: int| 0 <= i < s.len() ==> is_digit(#[trigger] s[i])
}

/// A string parses as a 16-bit number when it is nonempty, all digits, and
/// its value fits.
pub open spec fn parses_u16(s: Seq<char>) -> bool {
    &&& s.len() > 0
    &&& all_digits(s)
    &&& dec_value(s) <= u16::MAX
}

/// Rendering a number gives a nonempty digit string that parses back to the
/// same number.
pub proof fn lemma_dec_digits_value(n: nat)
    ensures
        dec_value(dec_digits(n)) == n,
        all_digits(dec_digits(n)),
        dec_digits(n).len() >= 1,
    decreases n,
{
    if n < 10 {
        assert(seq![digit_char(n)].drop_last() =~= Seq::<char>::empty());
        assert(digit_value(digit_char(n)) == n);
        assert(dec_digits(n).last() == digit_char(n));
        assert(dec_value(dec_digits(n)) == dec_value(Seq::<char>::empty()) * 10 + digit_value(
            digit_char(n),
        ));
    } else {
        lemma_dec_digits_value(n / 10);
        assert(dec_digits(n).drop_last() =~= dec_digits(n / 10));
        assert(dec_digits(n).last() == digit_char(n % 10));
        assert(digit_value(digit_char(n % 10)) == n % 10);
        assert(n / 10 * 10 + n % 10 == n) by {
            vstd::arithmetic::div_mod::lemma_fundamental_div_mod(n as int, 10);
        }
        assert(dec_value(dec_digits(n)) == dec_value(dec_digits(n / 10)) * 10 + digit_value(
            digit_char(n % 10),
        ));
        assert forall|i: int| 0 <= i < dec_digits(n).len() implies is_digit(
            #[trigger] dec_digits(n)[i],
        ) by {
            if i < dec_digits(n).len() - 1 {
                assert(dec_digits(n)[i] == dec_digits(n / 10)[i]);
            } else {
                assert(dec_digits(n)[i] == digit_char(n % 10));
                assert(digit_value(digit_char(n % 10)) == n % 10);
            }
        }
    }
}

/// Extending a digit string to the right never lowers its value.
pub proof fn lemma_dec_value_prefix(s: Seq<char>, m: int)
    requires
        0 <= m <= s.len(),
    ensures
        dec_value(s) >= dec_value(s.take(m)),
    decreases s.len() - m,
{
    if m < s.len() {
        lemma_dec_value_prefix(s, m + 1);
        assert(s.take(m + 1).drop_last() =~= s.take(m));
        assert(dec_value(s.take(m + 1)) == dec_value(s.take(m)) * 10 + digit_value(
            s.take(m + 1).last(),
        ));
    } else {
        assert(s.take(m) =~= s);
    }
}

/// Whether `i` is the position of the first occurrence of `sep` in `s`.
pub open spec fn found_at(s: Seq<char>, sep: char, i: int) -> bool {
    &&& 0 <= i < s.len()
    &&& s[i] == sep
    &&& forall|j: int| 0 <= j < i ==> s[j] != sep
}

/// The position of the first occurrence of `sep` in `s`, or -1 if there is
/// none.
pub open spec fn find_char(s: Seq<char>, sep: char) -> int {
    if exists|i: int| found_at(s, sep, i) {
        choose|i: int| found_at(s, sep, i)
    } else {
        -1
    }
}

/// The first occurrence is unique, so finding any witness settles the value.
pub proof fn lemma_find_char_is(s: Seq<char>, sep: char, i: int)
    requires
        found_at(s, sep, i),
    ensures
        find_char(s, sep) == i,
{
    let w = choose|w: int| found_at(s, sep, w);
    if w < i {
        assert(s[w] == sep);
        assert(false);
    }
    if i < w {
        assert(s[i] == sep);
        assert(false);
    }
}

/// The string split at every occurrence of `sep` (the separators are
/// dropped; `n` pieces for `n - 1` separators, empty pieces kept).
pub open spec fn split_on(s: Seq<char>, sep: char) -> Seq<Seq<char>>
    decreases s.len(),
{
    let i = find_char(s, sep);
    if i == -1 {
        seq![s]
    } else {
        seq![s.subrange(0, i)] + split_on(s.subrange(i + 1, s.len() as int), sep)
    }
}

/// A string free of the separator splits into itself alone.
pub proof fn lemma_split_none(x: Seq<char>, sep: char)
    requires
        forall|j: int| 0 <= j < x.len() ==> #[trigger] x[j] != sep,
    ensures
        split_on(x, sep) == seq![x],
{
    if exists|i: int| found_at(x, sep, i) {
        let i = choose|i: int| found_at(x, sep, i);
        assert(x[i] != sep);
        assert(false);
    }
}

/// Splitting peels off a separator-free prefix.
pub proof fn lemma_split_prefix(x: Seq<char>, y: Seq<char>, sep: char)
    requires
        forall|j: int| 0 <= j < x.len() ==> #[trigger] x[j] != sep,
    ensures
        split_on(x + seq![sep] + y, sep) == seq![x] + split_on(y, sep),
{
    let s = x + seq![sep] + y;
    assert(s[x.len() as int] == sep);
    assert forall|j: int| 0 <= j < x.len() implies s[j] != sep by {
        assert(s[j] == x[j]);
    }
    assert(found_at(s, sep, x.len() as int));
    lemma_find_char_is(s, sep, x.len() as int);
    assert(s.subrange(0, x.len() as int) =~= x);
    assert(s.subrange(x.len() as int + 1, s.len() as int) =~= y);
}

/// Whether the character counts as blank padding around an operand.
pub open spec fn is_space(c: char) -> bool {
    c == ' ' || c == '\t' || c == '\r'
}

/// The string with its leading blanks dropped.
pub open spec fn trim_front(s: Seq<char>) -> Seq<char>
    decreases s.len(),
{
    if s.len() > 0 && is_space(s[0]) {
        trim_front(s.subrange(1, s.len() as int))
    } else {
        s
    }
}

/// The string with its trailing blanks dropped.
pub open spec fn trim_back(s: Seq<char>) -> Seq<char>
    decreases s.len(),
{
    if s.len() > 0 && is_space(s.last()) {
        trim_back(s.drop_last())
    } else {
        s
    }
}

/// The string with blanks dropped from both ends.
pub open spec fn trim_spec(s: Seq<char>) -> Seq<char> {
    trim_back(trim_front(s))
}

/// Dropping leading blanks is taking the suffix from the first non-blank.
pub proof fn lemma_trim_front_at(s: Seq<char>, a: int)
    requires
        0 <= a <= s.len(),
        forall|j: int| 0 <= j < a ==> is_space(#[trigger] s[j]),
        a == s.len() || !is_space(s[a]),
    ensures
        trim_front(s) == s.subrange(a, s.len() as int),
    decreases a,
{
    if a == 0 {
        assert(s.subrange(0, s.len() as int) =~= s);
    } else {
        assert(is_space(s[0]));
        let t = s.subrange(1, s.len() as int);
        lemma_trim_front_at(t, a - 1);
        assert(t.subrange(a - 1, t.len() as int) =~= s.subrange(a, s.len() as int));
    }
}

/// Dropping trailing blanks is taking the prefix up to the last non-blank.
pub proof fn lemma_trim_back_at(s: Seq<char>, b: int)
    requires
        0 <= b <= s.len(),
        forall|j: int| b <= j < s.len() ==> is_space(#[trigger] s[j]),
        b == 0 || !is_space(s[b - 1]),
    ensures
        trim_back(s) == s.take(b),
    decreases s.len() - b,
{
    if b == s.len() {
        assert(s.take(b) =~= s);
    } else {
        assert(is_space(s.last()));
        lemma_trim_back_at(s.drop_last(), b);
    }
}

/// A string without blanks at either end trims to itself.
pub proof fn lemma_trim_clean(s: Seq<char>)
    requires
        s.len() > 0,
        !is_space(s[0]),
        !is_space(s.last()),
    ensures
        trim_spec(s) == s,
{
    lemma_trim_front_at(s, 0);
    assert(s.subrange(0, s.len() as int) =~= s);
    lemma_trim_back_at(s, s.len() as int);
    assert(s.take(s.len() as int) =~= s);
}

/// Relies on `String::push`: appends exactly the given character.
pub assume_specification[ String::push ](s: &mut String, ch: char)
    ensures
        final(s)@ == old(s)@.push(ch),
;

/// A string holding exactly the given characters.
pub fn chars_to_string(v: &Vec<char>) -> (r: String)
    ensures
        r@ == v@,
{
    let mut r = String::new();
    let mut k: usize = 0;
    while k < v.len()
        invariant
            k <= v@.len(),
            r@ == v@.take(k as int),
        decreases v@.len() - k,
    {
        r.push(v[k]);
        k = k + 1;
        proof {
            assert(r@ =~= v@.take(k as int));
        }
    }
    proof {
        assert(v@.take(v@.len() as int) =~= v@);
    }
    r
}

/// The characters of a string slice, one by one.
pub fn string_to_chars(text: &str) -> (r: Vec<char>)
    ensures
        r@ == text@,
{
    let n = text.unicode_len();
    let mut r: Vec<char> = Vec::new();
    let mut k: usize = 0;
    while k < n
        invariant
            k <= n,
            n == text@.len(),
            r@ == text@.take(k as int),
        decreases n - k,
    {
        r.push(text.get_char(k));
        k = k + 1;
        proof {
            assert(r@ =~= text@.take(k as int));
        }
    }
    proof {
        assert(text@.take(n as int) =~= text@);
    }
    r
}

/// A copy of the characters in the half-open range `start .. end`.
pub fn copy_range(v: &Vec<char>, start: usize, end: usize) -> (r: Vec<char>)
    requires
        start <= end <= v@.len(),
    ensures
        r@ == v@.subrange(start as int, end as int),
{
    let mut r: Vec<char> = Vec::new();
    let mut k: usize = start;
    while k < end
        invariant
            start <= k <= end <= v@.len(),
            r@ == v@.subrange(start as int, k as int),
        decreases end - k,
    {
        r.push(v[k]);
        k = k + 1;
        proof {
            assert(r@ =~= v@.subrange(start as int, k as int));
        }
    }
    r
}

/// The position of the first occurrence of `sep`, if any.
pub fn find_in(v: &Vec<char>, sep: char) -> (r: Option<usize>)
    ensures
        match r {
            Some(i) => i < v@.len() && find_char(v@, sep) == i,
            None => find_char(v@, sep) == -1,
        },
{
    let mut k: usize = 0;
    while k < v.len()
        invariant
            k <= v@.len(),
            forall|j: int| 0 <= j < k ==> v@[j] != sep,
        decreases v@.len() - k,
    {
        if v[k] == sep {
            proof {
                lemma_find_char_is(v@, sep, k as int);
            }
            return Some(k);
        }
        k = k + 1;
    }
    proof {
        if exists|i: int| found_at(v@, sep, i) {
            let i = choose|i: int| found_at(v@, sep, i);
            assert(v@[i] != sep);
            assert(false);
        }
    }
    None
}

/// The pieces of `v` between occurrences of `sep`.
pub fn split_chars(v: &Vec<char>, sep: char) -> (r: Vec<Vec<char>>)
    ensures
        r@.len() == split_on(v@, sep).len(),
        forall|i: int| 0 <= i < r@.len() ==> #[trigger] r@[i]@ == split_on(v@, sep)[i],
    decreases v@.len(),
{
    match find_in(v, sep) {
        None => {
            let piece = copy_range(v, 0, v.len());
            let mut out: Vec<Vec<char>> = Vec::new();
            proof {
                assert(piece@ =~= v@);
            }
            out.push(piece);
            out
        }
        Some(i) => {
            let n = v.len();
            let piece = copy_range(v, 0, i);
            let rest_chars = copy_range(v, i + 1, n);
            let mut rest = split_chars(&rest_chars, sep);
            let mut out: Vec<Vec<char>> = Vec::new();
            out.push(piece);
            out.append(&mut rest);
            proof {
                assert(rest_chars@ =~= v@.subrange(i + 1, v@.len() as int));
                assert forall|j: int| 0 <= j < out@.len() implies #[trigger] out@[j]@ == split_on(
                    v@,
                    sep,
                )[j] by {
                    if j > 0 {
                        assert(out@[j]@ == split_on(rest_chars@, sep)[j - 1]);
                    }
                }
            }
            out
        }
    }
}

/// The trimmed copy: blanks dropped from both ends.
pub fn trim_chars(v: &Vec<char>) -> (r: Vec<char>)
    ensures
        r@ == trim_spec(v@),
{
    let mut a: usize = 0;
    while a < v.len() && is_space_exec(v[a])
        invariant
            a <= v@.len(),
            forall|j: int| 0 <= j < a ==> is_space(#[trigger] v@[j]),
        decreases v@.len() - a,
    {
        a = a + 1;
    }
    let mut b: usize = v.len();
    while b > a && is_space_exec(v[b - 1])
        invariant
            a <= b <= v@.len(),
            forall|j: int| 0 <= j < a ==> is_space(#[trigger] v@[j]),
            a == v@.len() || !is_space(v@[a as int]),
            forall|j: int| b <= j < v@.len() ==> is_space(#[trigger] v@[j]),
        decreases b,
    {
        b = b - 1;
    }
    let r = copy_range(v, a, b);
    proof {
        lemma_trim_front_at(v@, a as int);
        let t = v@.subrange(a as int, v@.len() as int);
        lemma_trim_back_at(t, b - a);
        assert(t.take(b - a) =~= v@.subrange(a as int, b as int));
    }
    r
}

/// Whether the character counts as blank padding.
fn is_space_exec(c: char) -> (r: bool)
    ensures
        r == is_space(c),
{
    c == ' ' || c == '\t' || c == '\r'
}

/// The numeric value of a decimal digit string, if it is one and fits in 16
/// bits.
pub fn parse_u16(v: &Vec<char>) -> (r: Option<u16>)
    ensures
        match r {
            Some(n) => parses_u16(v@) && n == dec_value(v@),
            None => !parses_u16(v@),
        },
{
    if v.len() == 0 {
        return None;
    }
    let mut value: u32 = 0;
    let mut k: usize = 0;
    while k < v.len()
        invariant
            k <= v@.len(),
            value == dec_value(v@.take(k as int)),
            value <= u16::MAX,
            forall|j: int| 0 <= j < k ==> is_digit(#[trigger] v@[j]),
        decreases v@.len() - k,
    {
        let d: u32 = match v[k] {
            '0' => 0,
            '1' => 1,
            '2' => 2,
            '3' => 3,
            '4' => 4,
            '5' => 5,
            '6' => 6,
            '7' => 7,
            '8' => 8,
            '9' => 9,
            _ => {
                proof {
                    assert(!is_digit(v@[k as int]));
                }
                return None;
            }
        };
        proof {
            assert(d == digit_value(v@[k as int]));
            assert(v@.take(k + 1).drop_last() =~= v@.take(k as int));
        }
        let next: u32 = value * 10 + d;
        if next > u16::MAX as u32 {
            proof {
                assert(dec_value(v@.take(k + 1)) == next);
                lemma_dec_value_prefix(v@, k + 1);
            }
            return None;
        }
        value = next;
        k = k + 1;
    }
    proof {
        assert(v@.take(v@.len() as int) =~= v@);
    }
    Some(value as u16)
}

/// A single-digit string.
fn digit_str(d: u16) -> (r: &'static str)
    requires
        d < 10,
    ensures
        r@ == seq![digit_char(d as nat)],
{
    proof {
        reveal_strlit("0");
        reveal_strlit("1");
        reveal_strlit("2");
        reveal_strlit("3");
        reveal_strlit("4");
        reveal_strlit("5");
        reveal_strlit("6");
        reveal_strlit("7");
        reveal_strlit("8");
        reveal_strlit("9");
    }
    let r = match d {
        0 => "0",
        1 => "1",
        2 => "2",
        3 => "3",
        4 => "4",
        5 => "5",
        6 => "6",
        7 => "7",
        8 => "8",
        _ => "9",
    };
    proof {
        assert(r@ =~= seq![digit_char(d as nat)]);
    }
    r
}

/// The decimal rendering of a 16-bit number.
pub fn u16_to_dec(n: u16) -> (r: String)
    ensures
        r@ == dec_digits(n as nat),
    decreases n,
{
    if n < 10 {
        let mut s = String::new();
        s.append(digit_str(n));
        proof {
            assert(s@ =~= dec_digits(n as nat));
        }
        s
    } else {
        let mut s = u16_to_dec(n / 10);
        s.append(digit_str(n % 10));
        proof {
            assert(s@ =~= dec_digits(n as nat));
        }
        s
    }
}

} // verus!
