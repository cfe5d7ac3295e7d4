//! Character classes and low-level text scanning for the reminder command
//! grammar: maximal runs of a class, decimal digit strings, whitespace
//! trimming, and conversions between `&str`, `String` and `Vec<char>`.
use vstd::prelude::*;

verus! {

/// One character class of the reminder grammar.
#[derive(Clone, Copy, Debug, PartialEq, Eq, Structural)]
pub enum CharClass {
    /// A space.
    Space,
    /// A decimal digit.
    Digit,
    /// A separator between numbers: anything that is neither a digit nor a
    /// unit letter.
    Sep,
    /// An interval-unit letter: m, h or d, either case.
    Unit,
    /// Whitespace, as trimming understands it.
    White,
    /// Anything but a decimal digit.
    NonDigit,
}

pub open spec fn is_digit(c: char) -> bool {
    '0' <= c && c <= '9'
}

pub open spec fn is_unit_letter(c: char) -> bool {
    c == 'm' || c == 'M' || c == 'h' || c == 'H' || c == 'd' || c == 'D'
}

/// The whitespace characters that trimming removes, following the Unicode
/// white space property that `str::trim` uses.
pub open spec fn is_white(c: char) -> bool {
    ||| c == ' ' || c == '\t' || c == '\n' || c == '\r'
    ||| c == '\u{b}' || c == '\u{c}' || c == '\u{85}' || c == '\u{a0}'
    ||| c == '\u{1680}'
    ||| ('\u{2000}' <= c && c <= '\u{200a}')
    ||| c == '\u{2028}' || c == '\u{2029}' || c == '\u{202f}' || c == '\u{205f}'
    ||| c == '\u{3000}'
}

pub open spec fn class_pred(cc: CharClass, c: char) -> bool {
    match cc {
        CharClass::Space => c == ' ',
        CharClass::Digit => is_digit(c),
        CharClass::Sep => !is_digit(c) && !is_unit_letter(c),
        CharClass::Unit => is_unit_letter(c),
        CharClass::White => is_white(c),
        CharClass::NonDigit => !is_digit(c),
    }
}

pub fn char_in_class(cc: CharClass, c: char) -> (b: bool)
    ensures
        b == class_pred(cc, c),
{
    match cc {
        CharClass::Space => c == ' ',
        CharClass::Digit => '0' <= c && c <= '9',
        CharClass::Sep => {
            !('0' <= c && c <= '9') && !(c == 'm' || c == 'M' || c == 'h' || c == 'H' || c == 'd'
                || c == 'D')
        },
        CharClass::Unit => c == 'm' || c == 'M' || c == 'h' || c == 'H' || c == 'd' || c == 'D',
        CharClass::White => {
            c == ' ' || c == '\t' || c == '\n' || c == '\r' || c == '\u{b}' || c == '\u{c}'
                || c == '\u{85}' || c == '\u{a0}' || c == '\u{1680}' || ('\u{2000}' <= c && c
                <= '\u{200a}') || c == '\u{2028}' || c == '\u{2029}' || c == '\u{202f}' || c
                == '\u{205f}' || c == '\u{3000}'
        },
        CharClass::NonDigit => !('0' <= c && c <= '9'),
    }
}

/// The first position at or after `i` whose character leaves class `cc`
/// (or the end of the text): the end of the maximal run of `cc` at `i`.
pub open spec fn run_end(s: Seq<char>, i: int, cc: CharClass) -> int
    decreases s.len() - i,
{
    if i < 0 || i >= s.len() {
        i
    } else if class_pred(cc, s[i]) {
        run_end(s, i + 1, cc)
    } else {
        i
    }
}

pub proof fn lemma_run_end(s: Seq<char>, i: int, cc: CharClass)
    requires
        0 <= i <= s.len(),
    ensures
        i <= run_end(s, i, cc) <= s.len(),
        forall|j: int| i <= j < run_end(s, i, cc) ==> class_pred(cc, s[j]),
        run_end(s, i, cc) == s.len() || !class_pred(cc, s[run_end(s, i, cc)]),
    decreases s.len() - i,
{
    if i < s.len() && class_pred(cc, s[i]) {
        lemma_run_end(s, i + 1, cc);
    }
}

/// The end of a maximal run is determined by its characterization: if every
/// character in `[i, e)` is in the class and `e` is the end of the text or
/// leaves the class, then `e` is the run's end.
pub proof fn lemma_run_end_is(s: Seq<char>, i: int, cc: CharClass, e: int)
    requires
        0 <= i <= e <= s.len(),
        forall|j: int| i <= j < e ==> class_pred(cc, s[j]),
        e == s.len() || !class_pred(cc, s[e]),
    ensures
        run_end(s, i, cc) == e,
    decreases e - i,
{
    if i < e {
        assert(class_pred(cc, s[i]));
        lemma_run_end_is(s, i + 1, cc, e);
    }
}

pub fn scan_run(v: &Vec<char>, i: usize, cc: CharClass) -> (j: usize)
    requires
        i <= v.len(),
    ensures
        j == run_end(v@, i as int, cc),
        i <= j <= v.len(),
{
    let mut j: usize = i;
    while j < v.len() && char_in_class(cc, v[j])
        invariant
            i <= j <= v.len(),
            forall|k: int| i <= k < j ==> class_pred(cc, v@[k]),
        decreases v.len() - j,
    {
        j = j + 1;
    }
    proof {
        lemma_run_end_is(v@, i as int, cc, j as int);
    }
    j
}

/// The numeric value of one decimal digit.
pub open spec fn digit_val(c: char) -> int {
    c as u32 - '0' as u32
}

/// The value of a decimal digit string, most significant digit first.
pub open spec fn digits_val(s: Seq<char>) -> int
    decreases s.len(),
{
    if s.len() == 0 {
        0
    } else {
        digits_val(s.drop_last()) * 10 + digit_val(s.last())
    }
}

pub proof fn lemma_digits_val_bounds(s: Seq<char>)
    requires
        forall|j: int| 0 <= j < s.len() ==> is_digit(s[j]),
    ensures
        digits_val(s) >= 0,
    decreases s.len(),
{
    if s.len() > 0 {
        lemma_digits_val_bounds(s.drop_last());
    }
}

/// Appending further digits never decreases the value of a digit string.
pub proof fn lemma_digits_val_monotone(s: Seq<char>, e: int)
    requires
        0 <= e <= s.len(),
        forall|j: int| 0 <= j < s.len() ==> is_digit(s[j]),
    ensures
        digits_val(s) >= digits_val(s.subrange(0, e)),
    decreases s.len() - e,
{
    if e < s.len() {
        lemma_digits_val_monotone(s, e + 1);
        let t = s.subrange(0, e + 1);
        assert(t.drop_last() =~= s.subrange(0, e));
        assert(forall|j: int| 0 <= j < t.len() ==> is_digit(t[j]));
        lemma_digits_val_bounds(s.subrange(0, e));
        assert(digits_val(t) == digits_val(s.subrange(0, e)) * 10 + digit_val(t.last()));
        assert(digit_val(t.last()) >= 0);
    } else {
        assert(s.subrange(0, e) =~= s);
    }
}

/// Reads the digit run `v[start..end]` as an unsigned integer; `None` when
/// its value exceeds `u64::MAX`.
pub fn parse_digits(v: &Vec<char>, start: usize, end: usize) -> (r: Option<u64>)
    requires
        start <= end <= v.len(),
        forall|k: int| start <= k < end ==> is_digit(v@[k]),
    ensures
        match r {
            Some(n) => n == digits_val(v@.subrange(start as int, end as int)),
            None => digits_val(v@.subrange(start as int, end as int)) > u64::MAX,
        },
{
    let ghost whole = v@.subrange(start as int, end as int);
    proof {
        assert(forall|j: int| 0 <= j < whole.len() ==> is_digit(whole[j]));
    }
    let mut acc: u64 = 0;
    let mut k: usize = start;
    while k < end
        invariant
            start <= k <= end <= v.len(),
            forall|j: int| start <= j < end ==> is_digit(v@[j]),
            whole == v@.subrange(start as int, end as int),
            acc == digits_val(v@.subrange(start as int, k as int)),
        decreases end - k,
    {
        let c = v[k];
        let d: u64 = ((c as u32) - ('0' as u32)) as u64;
        let ghost prefix = v@.subrange(start as int, k as int);
        let ghost next_prefix = v@.subrange(start as int, k as int + 1);
        proof {
            assert(next_prefix.drop_last() =~= prefix);
            assert(next_prefix.last() == v@[k as int]);
            assert(digits_val(next_prefix) == digits_val(prefix) * 10 + digit_val(v@[k as int]));
        }
        if acc > (u64::MAX - d) / 10 {
            proof {
                assert(digits_val(next_prefix) > u64::MAX);
                assert(forall|j: int| 0 <= j < whole.len() ==> is_digit(whole[j]));
                lemma_digits_val_monotone(whole, k as int + 1 - start);
                assert(whole.subrange(0, k as int + 1 - start) =~= next_prefix);
            }
            return None;
        }
        acc = acc * 10 + d;
        k = k + 1;
    }
    Some(acc)
}

/// The decimal rendering of a nonnegative integer, without leading zeros.
pub open spec fn digit_char(d: int) -> char {
    ((d + 48) as u8) as char
}

pub open spec fn digits_of(n: int) -> Seq<char>
    decreases n,
{
    if n < 10 {
        seq![digit_char(n)]
    } else {
        digits_of(n / 10).push(digit_char(n % 10))
    }
}

pub proof fn lemma_digits_of_digits(n: int)
    requires
        n >= 0,
    ensures
        digits_of(n).len() >= 1,
        forall|j: int| 0 <= j < digits_of(n).len() ==> is_digit(digits_of(n)[j]),
    decreases n,
{
    if n >= 10 {
        lemma_digits_of_digits(n / 10);
    }
}

/// Rendering an integer and reading the digits back yields the integer.
pub proof fn lemma_digits_of_val(n: int)
    requires
        n >= 0,
    ensures
        digits_val(digits_of(n)) == n,
    decreases n,
{
    if n < 10 {
        assert(digits_of(n) == seq![digit_char(n)]);
        let e = digits_of(n).drop_last();
        assert(e =~= Seq::<char>::empty());
        assert(digits_val(e) == 0);
        assert(digits_of(n).last() == digit_char(n));
        assert(digits_val(digits_of(n)) == digits_val(e) * 10 + digit_val(digit_char(n)));
        assert(digit_val(digit_char(n)) == n);
    } else {
        lemma_digits_of_val(n / 10);
        assert(digits_of(n).drop_last() =~= digits_of(n / 10));
        assert(digits_of(n).last() == digit_char(n % 10));
        assert(digits_val(digits_of(n)) == digits_val(digits_of(n / 10)) * 10 + digit_val(
            digit_char(n % 10),
        ));
        assert(digit_val(digit_char(n % 10)) == n % 10);
    }
}

/// Renders `n` in decimal.
pub fn u64_digits(n: u64) -> (v: Vec<char>)
    ensures
        v@ == digits_of(n as int),
    decreases n,
{
    if n < 10 {
        let c: char = (((n as u8) + 48)) as char;
        let mut v: Vec<char> = Vec::new();
        v.push(c);
        proof {
            assert(v@ =~= digits_of(n as int));
        }
        v
    } else {
        let mut v = u64_digits(n / 10);
        let c: char = ((((n % 10) as u8) + 48)) as char;
        v.push(c);
        proof {
            assert(v@ =~= digits_of(n as int));
        }
        v
    }
}

/// The length that remains after removing trailing whitespace.
pub open spec fn trim_right_len(s: Seq<char>) -> int
    decreases s.len(),
{
    if s.len() > 0 && is_white(s.last()) {
        trim_right_len(s.drop_last())
    } else {
        s.len() as int
    }
}

pub proof fn lemma_trim_right_len(s: Seq<char>)
    ensures
        0 <= trim_right_len(s) <= s.len(),
        forall|j: int| trim_right_len(s) <= j < s.len() ==> is_white(s[j]),
        trim_right_len(s) == 0 || !is_white(s[trim_right_len(s) - 1]),
    decreases s.len(),
{
    if s.len() > 0 && is_white(s.last()) {
        lemma_trim_right_len(s.drop_last());
        assert(forall|j: int| 0 <= j < s.len() - 1 ==> s.drop_last()[j] == s[j]);
    }
}

pub proof fn lemma_trim_right_len_is(s: Seq<char>, b: int)
    requires
        0 <= b <= s.len(),
        forall|j: int| b <= j < s.len() ==> is_white(s[j]),
        b == 0 || !is_white(s[b - 1]),
    ensures
        trim_right_len(s) == b,
    decreases s.len(),
{
    if s.len() > 0 && is_white(s.last()) {
        assert(b < s.len());
        assert(forall|j: int| b <= j < s.len() - 1 ==> is_white(s.drop_last()[j]));
        lemma_trim_right_len_is(s.drop_last(), b);
    }
}

/// `s` with leading and trailing whitespace removed.
pub open spec fn spec_trim(s: Seq<char>) -> Seq<char> {
    let a = run_end(s, 0, CharClass::White);
    let b = trim_right_len(s);
    if b <= a {
        Seq::<char>::empty()
    } else {
        s.subrange(a, b)
    }
}

/// Removes leading and trailing whitespace.
pub fn trim_chars(v: &Vec<char>) -> (r: Vec<char>)
    ensures
        r@ == spec_trim(v@),
{
    let a = scan_run(v, 0, CharClass::White);
    let mut b: usize = v.len();
    while b > 0 && char_in_class(CharClass::White, v[b - 1])
        invariant
            b <= v.len(),
            forall|j: int| b <= j < v.len() ==> is_white(v@[j]),
        decreases b,
    {
        b = b - 1;
    }
    proof {
        lemma_trim_right_len_is(v@, b as int);
    }
    let mut r: Vec<char> = Vec::new();
    if b <= a {
        proof {
            assert(r@ =~= spec_trim(v@));
        }
        return r;
    }
    let mut k: usize = a;
    while k < b
        invariant
            a <= k <= b <= v.len(),
            r@ == v@.subrange(a as int, k as int),
        decreases b - k,
    {
        r.push(v[k]);
        proof {
            assert(r@ =~= v@.subrange(a as int, k as int + 1));
        }
        k = k + 1;
    }
    proof {
        assert(r@ =~= spec_trim(v@));
    }
    r
}

/// Copies `v[start..end]` into a fresh vector.
pub fn copy_range(v: &Vec<char>, start: usize, end: usize) -> (r: Vec<char>)
    requires
        start <= end <= v.len(),
    ensures
        r@ == v@.subrange(start as int, end as int),
{
    let mut r: Vec<char> = Vec::new();
    let mut k: usize = start;
    while k < end
        invariant
            start <= k <= end <= v.len(),
            r@ == v@.subrange(start as int, k as int),
        decreases end - k,
    {
        r.push(v[k]);
        proof {
            assert(r@ =~= v@.subrange(start as int, k as int + 1));
        }
        k = k + 1;
    }
    r
}

/// Relies on `String::push`: appends exactly the given character.
#[verifier::external_body]
fn push_char(s: &mut String, c: char)
    ensures
        final(s)@ == old(s)@.push(c),
{
    s.push(c);
}

/// Builds a `String` whose characters are exactly `v`.
pub fn string_from_chars(v: &Vec<char>) -> (s: String)
    ensures
        s@ == v@,
{
    let mut s = String::new();
    let mut k: usize = 0;
    while k < v.len()
        invariant
            k <= v.len(),
            s@ == v@.subrange(0, k as int),
        decreases v.len() - k,
    {
        push_char(&mut s, v[k]);
        proof {
            assert(s@ =~= v@.subrange(0, k as int + 1));
        }
        k = k + 1;
    }
    proof {
        assert(s@ =~= v@);
    }
    s
}

/// An ASCII capital letter folded to lower case; all else unchanged.
pub open spec fn to_lower(c: char) -> char {
    if 'A' <= c && c <= 'Z' {
        (((c as u8) + 32) as char)
    } else {
        c
    }
}

/// Compares two strings character by character.
pub fn str_eq(a: &str, b: &str) -> (r: bool)
    ensures
        r == (a@ == b@),
{
    let va = chars_vec(a);
    let vb = chars_vec(b);
    if va.len() != vb.len() {
        return false;
    }
    let mut k: usize = 0;
    while k < va.len()
        invariant
            k <= va.len(),
            va.len() == vb.len(),
            va@ == a@,
            vb@ == b@,
            forall|j: int| 0 <= j < k ==> a@[j] == b@[j],
        decreases va.len() - k,
    {
        if va[k] != vb[k] {
            return false;
        }
        k = k + 1;
    }
    proof {
        assert(a@ =~= b@);
    }
    true
}

/// Collects the characters of `text` into a vector.
pub fn chars_vec(text: &str) -> (v: Vec<char>)
    ensures
        v@ == text@,
{
    let mut v: Vec<char> = Vec::new();
    let it = text.chars();
    for c in it2: it
        invariant
            it2.seq() == text@,
            v@ == it2.seq().subrange(0, it2.index() as int),
    {
        v.push(c);
        proof {
            assert(v@ =~= it2.seq().subrange(0, it2.index() as int + 1));
        }
    }
    proof {
        assert(v@ =~= text@);
    }
    v
}

} // verus!
