//! Text: decimal numerals, substrings and letter case.

use vstd::prelude::*;

verus! {

/// The character of one decimal digit.
pub open spec fn digit_char(d: nat) -> char {
    (48 + d) as char
}

/// The decimal numeral of `n`, without leading zeros.
pub open spec fn numeral(n: nat) -> Seq<char>
    decreases n,
{
    if n < 10 {
        seq![digit_char(n)]
    } else {
        numeral(n / 10).push(digit_char(n % 10))
    }
}

/// The last `width` decimal digits of `n`, zeros in front where `n` is short.
pub open spec fn padded(n: nat, width: nat) -> Seq<char>
    decreases width,
{
    if width == 0 {
        Seq::empty()
    } else {
        padded(n / 10, (width - 1) as nat).push(digit_char(n % 10))
    }
}

/// Ten to the power of `n`.
pub open spec fn pow10(n: nat) -> nat
    decreases n,
{
    if n == 0 {
        1
    } else {
        10 * pow10((n - 1) as nat)
    }
}

/// The decimal numeral of a signed number.
pub open spec fn signed_numeral(i: int) -> Seq<char> {
    if i < 0 {
        seq!['-'] + numeral((-i) as nat)
    } else {
        numeral(i as nat)
    }
}

pub open spec fn is_digit(c: char) -> bool {
    '0' <= c <= '9'
}

pub open spec fn all_digits(s: Seq<char>) -> bool {
    forall|i: int| 0 <= i < s.len() ==> is_digit(#[trigger] s[i])
}

/// The number that a run of decimal digits denotes.
pub open spec fn digits_value(s: Seq<char>) -> nat
    decreases s.len(),
{
    if s.len() == 0 {
        0
    } else {
        digits_value(s.drop_last()) * 10 + (s.last() as nat - 48) as nat
    }
}

/// What a numeral of a 64-bit signed integer reads as: an optional sign, then
/// at least one digit and nothing else, in range.
pub open spec fn read_i64(s: Seq<char>) -> Option<int> {
    let signed = s.len() > 0 && (s[0] == '-' || s[0] == '+');
    let body = if signed {
        s.skip(1)
    } else {
        s
    };
    let value = if signed && s[0] == '-' {
        -digits_value(body)
    } else {
        digits_value(body) as int
    };
    if body.len() > 0 && all_digits(body) && i64::MIN <= value <= i64::MAX {
        Some(value)
    } else {
        None
    }
}

/// Where `mark` stands last in `s`, or -1.
pub open spec fn last_index(s: Seq<char>, mark: char) -> int
    decreases s.len(),
{
    if s.len() == 0 {
        -1
    } else if s.last() == mark {
        s.len() - 1
    } else {
        last_index(s.drop_last(), mark)
    }
}

/// What follows the last `mark` in `s`; all of `s` where there is none.
pub open spec fn after_last(s: Seq<char>, mark: char) -> Seq<char> {
    s.skip(last_index(s, mark) + 1)
}

/// `part` stands somewhere in `s`.
pub open spec fn holds(s: Seq<char>, part: Seq<char>) -> bool {
    exists|i: int| 0 <= i <= s.len() - part.len() && #[trigger] s.subrange(i, i + part.len()) == part
}

/// The text is made of ASCII characters.
pub open spec fn all_ascii(s: Seq<char>) -> bool {
    forall|i: int| 0 <= i < s.len() ==> (#[trigger] s[i] as int) < 128
}

/// An ASCII character in lower case.
pub open spec fn ascii_lower(c: char) -> char {
    if 'A' <= c <= 'Z' {
        (c as int + 32) as char
    } else {
        c
    }
}

/// The lower-case form of a text that goes beyond ASCII.
pub uninterp spec fn unicode_lower(s: Seq<char>) -> Seq<char>;

/// The lower-case form of a text.
pub open spec fn lower(s: Seq<char>) -> Seq<char> {
    if all_ascii(s) {
        Seq::new(s.len(), |i: int| ascii_lower(s[i]))
    } else {
        unicode_lower(s)
    }
}

/// Calls `str::to_lowercase`: the letters A to Z of an ASCII text become a to z.
/// Of another text, which is mapped by the Unicode tables, the contract only
/// says that the result depends on the text alone.
#[verifier::external_body]
pub(crate) fn lowercase(s: &str) -> (r: String)
    ensures
        r@ == lower(s@),
        !all_ascii(s@) ==> r@ == unicode_lower(s@),
{
    s.to_lowercase()
}

/// The characters with the Unicode property `White_Space`.
pub open spec fn is_space(c: char) -> bool {
    ||| 0x9 <= c as int <= 0xD
    ||| c as int == 0x20
    ||| c as int == 0x85
    ||| c as int == 0xA0
    ||| c as int == 0x1680
    ||| 0x2000 <= c as int <= 0x200A
    ||| c as int == 0x2028
    ||| c as int == 0x2029
    ||| c as int == 0x202F
    ||| c as int == 0x205F
    ||| c as int == 0x3000
}

/// A text without the white space in front of it.
pub open spec fn trimmed_left(s: Seq<char>) -> Seq<char>
    decreases s.len(),
{
    if s.len() > 0 && is_space(s[0]) {
        trimmed_left(s.skip(1))
    } else {
        s
    }
}

/// A text without the white space behind it.
pub open spec fn trimmed_right(s: Seq<char>) -> Seq<char>
    decreases s.len(),
{
    if s.len() > 0 && is_space(s.last()) {
        trimmed_right(s.drop_last())
    } else {
        s
    }
}

/// A text without the white space around it.
pub open spec fn trimmed(s: Seq<char>) -> Seq<char> {
    trimmed_right(trimmed_left(s))
}

fn space(c: char) -> (r: bool)
    ensures
        r == is_space(c),
{
    let n: u32 = c as u32;
    (0x9 <= n && n <= 0xD) || n == 0x20 || n == 0x85 || n == 0xA0 || n == 0x1680 || (0x2000 <= n
        && n <= 0x200A) || n == 0x2028 || n == 0x2029 || n == 0x202F || n == 0x205F || n == 0x3000
}

/// A text without the white space around it.
pub fn trim(s: &str) -> (r: &str)
    ensures
        r@ == trimmed(s@),
{
    let n: usize = s.unicode_len();
    let mut a: usize = 0;
    assert(s@.skip(0) =~= s@);
    while a < n && space(s.get_char(a))
        invariant
            n == s@.len(),
            a <= n,
            trimmed_left(s@) == trimmed_left(s@.skip(a as int)),
        decreases n - a,
    {
        assert(s@.skip(a as int).skip(1) =~= s@.skip(a + 1));
        assert(s@.skip(a as int)[0] == s@[a as int]);
        a = a + 1;
    }
    let ghost rest = s@.skip(a as int);
    assert(a < n ==> rest[0] == s@[a as int]);
    let mut b: usize = n;
    assert(s@.subrange(a as int, n as int) =~= rest);
    while a < b && space(s.get_char(b - 1))
        invariant
            n == s@.len(),
            a <= b <= n,
            trimmed_right(rest) == trimmed_right(s@.subrange(a as int, b as int)),
        decreases b,
    {
        assert(s@.subrange(a as int, b as int).drop_last() =~= s@.subrange(a as int, b - 1));
        assert(s@.subrange(a as int, b as int).last() == s@[b - 1]);
        b = b - 1;
    }
    assert(a < b ==> s@.subrange(a as int, b as int).last() == s@[b - 1]);
    s.substring_char(a, b)
}

proof fn lemma_digit_char(d: nat)
    requires
        d < 10,
    ensures
        is_digit(digit_char(d)),
        digit_char(d) as nat - 48 == d,
{
}

/// A numeral is made of digits and denotes the number that it was made from.
pub proof fn numeral_reads_back(n: nat)
    ensures
        numeral(n).len() > 0,
        all_digits(numeral(n)),
        digits_value(numeral(n)) == n,
    decreases n,
{
    lemma_digit_char(n % 10);
    if n < 10 {
        assert(numeral(n).drop_last() =~= Seq::empty());
        assert(digits_value(Seq::<char>::empty()) == 0);
    } else {
        numeral_reads_back(n / 10);
        assert(numeral(n).drop_last() =~= numeral(n / 10));
    }
}

/// The last digits of a number that has no more denote the number.
pub proof fn padded_reads_back(n: nat, width: nat)
    ensures
        padded(n, width).len() == width,
        all_digits(padded(n, width)),
        n < pow10(width) ==> digits_value(padded(n, width)) == n,
    decreases width,
{
    if width > 0 {
        lemma_digit_char(n % 10);
        padded_reads_back(n / 10, (width - 1) as nat);
        assert(padded(n, width).drop_last() =~= padded(n / 10, (width - 1) as nat));
    }
}

/// A signed numeral in range reads as the number that it was made from.
pub proof fn signed_numeral_reads_back(i: int)
    requires
        i64::MIN <= i <= i64::MAX,
    ensures
        read_i64(signed_numeral(i)) == Some(i),
{
    let n = if i < 0 {
        (-i) as nat
    } else {
        i as nat
    };
    numeral_reads_back(n);
    let s = signed_numeral(i);
    if i < 0 {
        assert(s.skip(1) =~= numeral(n));
    } else {
        assert(is_digit(s[0]));
    }
}

proof fn lemma_last_index(s: Seq<char>, mark: char)
    ensures
        -1 <= last_index(s, mark) < s.len(),
        last_index(s, mark) >= 0 ==> s[last_index(s, mark)] == mark,
        forall|i: int| last_index(s, mark) < i < s.len() ==> s[i] != mark,
    decreases s.len(),
{
    if s.len() > 0 && s.last() != mark {
        lemma_last_index(s.drop_last(), mark);
        assert forall|i: int| last_index(s, mark) < i < s.len() implies s[i] != mark by {
            if i < s.len() - 1 {
                assert(s.drop_last()[i] == s[i]);
            }
        }
    }
}

/// The mark does not stand in what follows it last.
pub proof fn after_last_holds_no_mark(s: Seq<char>, mark: char)
    ensures
        !after_last(s, mark).contains(mark),
{
    lemma_last_index(s, mark);
    let k = last_index(s, mark);
    assert forall|i: int| 0 <= i < after_last(s, mark).len() implies after_last(s, mark)[i]
        != mark by {
        assert(after_last(s, mark)[i] == s[i + k + 1]);
    }
}

/// Where `tail` does not hold the mark, it is what follows the last mark of
/// `head + mark + tail`.
pub proof fn after_last_of_joined(head: Seq<char>, tail: Seq<char>, mark: char)
    requires
        !tail.contains(mark),
    ensures
        after_last(head.push(mark) + tail, mark) == tail,
{
    let s = head.push(mark) + tail;
    lemma_last_index(s, mark);
    let k = last_index(s, mark);
    if k < head.len() {
        assert(s[head.len() as int] == mark);
    }
    if k > head.len() {
        assert(tail[k - head.len() - 1] == mark);
    }
    assert(s.skip(k + 1) =~= tail);
}

/// The characters of a text, one by one.
pub(crate) fn chars_of(s: &str) -> (r: Vec<char>)
    ensures
        r@ == s@,
{
    let n: usize = s.unicode_len();
    let mut out: Vec<char> = Vec::new();
    let mut i: usize = 0;
    while i < n
        invariant
            n == s@.len(),
            i <= n,
            out@ == s@.take(i as int),
        decreases n - i,
    {
        out.push(s.get_char(i));
        i = i + 1;
        assert(s@.take(i as int) =~= s@.take(i - 1).push(s@[i - 1]));
    }
    assert(s@.take(n as int) =~= s@);
    out
}

/// Two texts are the same.
pub(crate) fn same(a: &str, b: &str) -> (r: bool)
    ensures
        r == (a@ == b@),
{
    a.to_owned() == b.to_owned()
}

fn digit_text(d: u128) -> (r: &'static str)
    requires
        d < 10,
    ensures
        r@ == seq![digit_char(d as nat)],
{
    proof {
        reveal_strlit("0");
        reveal_strlit("1");
        reveal_strlit("2");
        reveal_strlit("3");
        reveal_strlit("4");
        reveal_strlit("5");
        reveal_strlit("6");
        reveal_strlit("7");
        reveal_strlit("8");
        reveal_strlit("9");
        assert("0"@ =~= seq![digit_char(0)]);
        assert("1"@ =~= seq![digit_char(1)]);
        assert("2"@ =~= seq![digit_char(2)]);
        assert("3"@ =~= seq![digit_char(3)]);
        assert("4"@ =~= seq![digit_char(4)]);
        assert("5"@ =~= seq![digit_char(5)]);
        assert("6"@ =~= seq![digit_char(6)]);
        assert("7"@ =~= seq![digit_char(7)]);
        assert("8"@ =~= seq![digit_char(8)]);
        assert("9"@ =~= seq![digit_char(9)]);
    }
    if d == 0 {
        "0"
    } else if d == 1 {
        "1"
    } else if d == 2 {
        "2"
    } else if d == 3 {
        "3"
    } else if d == 4 {
        "4"
    } else if d == 5 {
        "5"
    } else if d == 6 {
        "6"
    } else if d == 7 {
        "7"
    } else if d == 8 {
        "8"
    } else {
        "9"
    }
}

/// Appends the numeral of `n`.
pub(crate) fn push_numeral(out: &mut String, n: u128)
    ensures
        final(out)@ == old(out)@ + numeral(n as nat),
    decreases n,
{
    let ghost before = out@;
    if n >= 10 {
        push_numeral(out, n / 10);
    }
    out.append(digit_text(n % 10));
    assert(out@ =~= before + numeral(n as nat));
}

/// The numeral of `n`.
pub fn number_text(n: u64) -> (r: String)
    ensures
        r@ == numeral(n as nat),
{
    let mut out = String::new();
    push_numeral(&mut out, n as u128);
    assert(out@ =~= numeral(n as nat));
    out
}

/// The numeral of `i`, a minus sign in front where it is negative.
pub fn signed_text(i: i64) -> (r: String)
    ensures
        r@ == signed_numeral(i as int),
{
    let mut out = String::new();
    if i < 0 {
        proof {
            reveal_strlit("-");
        }
        out.append("-");
        push_numeral(&mut out, (-(i as i128)) as u128);
    } else {
        push_numeral(&mut out, i as u128);
    }
    assert(out@ =~= signed_numeral(i as int));
    out
}

proof fn lemma_digits_value_grows(s: Seq<char>, k: int)
    requires
        all_digits(s),
        0 <= k <= s.len(),
    ensures
        digits_value(s.take(k)) <= digits_value(s),
    decreases s.len() - k,
{
    if k < s.len() {
        lemma_digits_value_grows(s, k + 1);
        assert(s.take(k + 1).drop_last() =~= s.take(k));
    } else {
        assert(s.take(k) =~= s);
    }
}

/// Reads a numeral of a 64-bit signed integer.
pub fn parse_i64(s: &str) -> (r: Option<i64>)
    ensures
        match r {
            Some(v) => read_i64(s@) == Some(v as int),
            None => read_i64(s@) is None,
        },
{
    let chars = chars_of(s);
    let n: usize = chars.len();
    let signed: bool = n > 0 && (chars[0] == '-' || chars[0] == '+');
    let negative: bool = n > 0 && chars[0] == '-';
    let start: usize = if signed {
        1
    } else {
        0
    };
    if start == n {
        return None;
    }
    let ghost body = s@.skip(start as int);
    assert(!signed ==> body =~= s@);
    let mut value: i128 = 0;
    let mut i: usize = start;
    while i < n
        invariant
            n == s@.len(),
            chars@ == s@,
            start <= i <= n,
            body == s@.skip(start as int),
            signed == (n > 0 && (s@[0] == '-' || s@[0] == '+')),
            negative == (n > 0 && s@[0] == '-'),
            start == (if signed { 1int } else { 0int }),
            !signed ==> body == s@,
            body.len() > 0,
            all_digits(body.take(i - start)),
            value == digits_value(body.take(i - start)),
            0 <= value <= 0x8000_0000_0000_0000,
        decreases n - i,
    {
        let c: char = chars[i];
        let ghost k = i - start;
        assert(body[k] == c);
        if !('0' <= c && c <= '9') {
            assert(!is_digit(body[k]));
            return None;
        }
        let d: i128 = (c as u32 - 48) as i128;
        value = value * 10 + d;
        assert(body.take(k + 1).drop_last() =~= body.take(k));
        assert forall|j: int| 0 <= j < k + 1 implies is_digit(#[trigger] body.take(k + 1)[j]) by {
            if j < k {
                assert(body.take(k)[j] == body.take(k + 1)[j]);
            }
        }
        if value > 0x8000_0000_0000_0000 {
            proof {
                if all_digits(body) {
                    lemma_digits_value_grows(body, k + 1);
                }
            }
            return None;
        }
        i = i + 1;
    }
    assert(body.take(n - start) =~= body);
    if negative {
        Some((-value) as i64)
    } else if value <= i64::MAX as i128 {
        Some(value as i64)
    } else {
        None
    }
}

/// What follows the last `mark` in `s`.
pub(crate) fn tail_after(s: &str, mark: char) -> (r: &str)
    ensures
        r@ == after_last(s@, mark),
{
    let n: usize = s.unicode_len();
    let mut i: usize = n;
    assert(s@.take(n as int) =~= s@);
    while i > 0
        invariant
            n == s@.len(),
            i <= n,
            last_index(s@, mark) == last_index(s@.take(i as int), mark),
        decreases i,
    {
        assert(s@.take(i as int).drop_last() =~= s@.take(i - 1));
        assert(s@.take(i as int).last() == s@[i - 1]);
        if s.get_char(i - 1) == mark {
            assert(s@.subrange(i as int, n as int) =~= s@.skip(i as int));
            return s.substring_char(i, n);
        }
        i = i - 1;
    }
    assert(s@.skip(0) =~= s@);
    s
}

/// Whether `part` stands somewhere in `s`.
pub fn contains(s: &str, part: &str) -> (r: bool)
    ensures
        r == holds(s@, part@),
{
    let a = chars_of(s);
    let b = chars_of(part);
    let n: usize = a.len();
    let m: usize = b.len();
    if m > n {
        return false;
    }
    let mut i: usize = 0;
    while i <= n - m
        invariant
            a@ == s@,
            b@ == part@,
            n == a@.len(),
            m == b@.len(),
            m <= n,
            i <= n - m + 1,
            forall|k: int| 0 <= k < i ==> #[trigger] s@.subrange(k, k + m) != part@,
        decreases n - m + 1 - i,
    {
        let mut j: usize = 0;
        while j < m && a[i + j] == b[j]
            invariant
                a@ == s@,
                b@ == part@,
                n == a@.len(),
                m == b@.len(),
                i + m <= n,
                j <= m,
                forall|k: int| 0 <= k < j ==> s@[i + k] == part@[k],
            decreases m - j,
        {
            j = j + 1;
        }
        if j == m {
            assert(s@.subrange(i as int, i + m) =~= part@);
            return true;
        }
        assert(s@.subrange(i as int, i + m)[j as int] != part@[j as int]);
        i = i + 1;
    }
    false
}

/// A text holds whatever it was joined from, and is joined from whatever it
/// holds.
pub proof fn texts_hold_their_parts(head: Seq<char>, part: Seq<char>, tail: Seq<char>, s: Seq<char>)
    ensures
        holds(head + part + tail, part),
        holds(s, part) ==> exists|i: int|
            0 <= i <= s.len() - part.len() && s == #[trigger] s.take(i) + part + s.skip(
                i + part.len(),
            ),
        part.len() > s.len() ==> !holds(s, part),
{
    let all = head + part + tail;
    let i = head.len() as int;
    assert(all.subrange(i, i + part.len()) =~= part);
    if holds(s, part) {
        let k = choose|k: int|
            0 <= k <= s.len() - part.len() && #[trigger] s.subrange(k, k + part.len()) == part;
        assert forall|j: int| 0 <= j < part.len() implies s[k + j] == part[j] by {
            assert(s.subrange(k, k + part.len())[j] == part[j]);
        }
        assert(s =~= s.take(k) + part + s.skip(k + part.len()));
    }
}

/// A numeral has no zero in front of other digits.
pub proof fn numerals_have_no_leading_zero(n: nat)
    ensures
        numeral(n).len() > 0,
        n > 0 ==> numeral(n)[0] != '0',
        numeral(n).len() > 1 ==> numeral(n)[0] != '0',
    decreases n,
{
    if n >= 10 {
        numerals_have_no_leading_zero(n / 10);
    }
}

/// Trimming takes white space off both ends, all of it, and nothing else.
pub proof fn trimming_takes_white_space_only(s: Seq<char>)
    ensures
        exists|i: int, j: int|
            {
                &&& 0 <= i <= j <= s.len()
                &&& trimmed(s) == #[trigger] s.subrange(i, j)
                &&& forall|k: int| 0 <= k < i ==> is_space(#[trigger] s[k])
                &&& forall|k: int| j <= k < s.len() ==> is_space(#[trigger] s[k])
                &&& i < j ==> !is_space(s[i]) && !is_space(s[j - 1])
            },
{
    let left = trimmed_left(s);
    let i = lemma_trimmed_left(s);
    let n = lemma_trimmed_right(left);
    let j = i + n;
    assert(trimmed(s) =~= s.subrange(i, j));
    assert forall|k: int| j <= k < s.len() implies is_space(#[trigger] s[k]) by {
        assert(left[k - i] == s[k]);
    }
    if i < j {
        assert(left[0] == s[i]);
        assert(left[n - 1] == s[j - 1]);
    }
}

proof fn lemma_trimmed_left(s: Seq<char>) -> (i: int)
    ensures
        0 <= i <= s.len(),
        trimmed_left(s) == s.skip(i),
        forall|k: int| 0 <= k < i ==> is_space(#[trigger] s[k]),
        i < s.len() ==> !is_space(s[i]),
    decreases s.len(),
{
    if s.len() > 0 && is_space(s[0]) {
        let rest = s.skip(1);
        let j = lemma_trimmed_left(rest);
        assert(rest.skip(j) =~= s.skip(j + 1));
        assert forall|k: int| 0 <= k < j + 1 implies is_space(#[trigger] s[k]) by {
            if k > 0 {
                assert(rest[k - 1] == s[k]);
            }
        }
        if j < rest.len() {
            assert(rest[j] == s[j + 1]);
        }
        j + 1
    } else {
        assert(s.skip(0) =~= s);
        0
    }
}

proof fn lemma_trimmed_right(s: Seq<char>) -> (n: int)
    ensures
        0 <= n <= s.len(),
        trimmed_right(s) == s.take(n),
        forall|k: int| n <= k < s.len() ==> is_space(#[trigger] s[k]),
        n > 0 ==> !is_space(s[n - 1]),
    decreases s.len(),
{
    if s.len() > 0 && is_space(s.last()) {
        let rest = s.drop_last();
        let n = lemma_trimmed_right(rest);
        assert(rest.take(n) =~= s.take(n));
        assert forall|k: int| n <= k < s.len() implies is_space(#[trigger] s[k]) by {
            if k < rest.len() {
                assert(rest[k] == s[k]);
            }
        }
        if n > 0 {
            assert(rest[n - 1] == s[n - 1]);
        }
        n
    } else {
        assert(s.take(s.len() as int) =~= s);
        s.len() as int
    }
}

/// A number is read off digits alone: one sign may stand in front, and it counts;
/// any other character makes the text no number, as does the want of a digit.
pub proof fn numbers_are_read_off_digits(n: nat, s: Seq<char>, i: int)
    requires
        n <= i64::MAX,
    ensures
        read_i64(numeral(n)) == Some(n as int),
        read_i64(seq!['+'] + numeral(n)) == Some(n as int),
        read_i64(seq!['-'] + numeral(n)) == Some(-(n as int)),
        0 <= i < s.len() && !is_digit(s[i]) && (i > 0 || (s[0] != '-' && s[0] != '+'))
            ==> read_i64(s) is None,
        s.len() == 0 ==> read_i64(s) is None,
        s.len() == 1 && !is_digit(s[0]) ==> read_i64(s) is None,
{
    numeral_reads_back(n);
    let t = numeral(n);
    assert(is_digit(t[0]));
    assert((seq!['+'] + t).skip(1) =~= t);
    assert((seq!['-'] + t).skip(1) =~= t);
    if 0 <= i < s.len() && !is_digit(s[i]) {
        let signed = s[0] == '-' || s[0] == '+';
        let body = if signed {
            s.skip(1)
        } else {
            s
        };
        if i > 0 || !signed {
            let k = if signed {
                i - 1
            } else {
                i
            };
            assert(body[k] == s[i]);
        }
    }
}

/// The lower-case form of an ASCII text has its length and no capital letter,
/// and differs from it in nothing else.
pub proof fn lower_case_has_no_capitals(s: Seq<char>, i: int)
    requires
        all_ascii(s),
    ensures
        lower(s).len() == s.len(),
        0 <= i < s.len() ==> !('A' <= lower(s)[i] <= 'Z'),
        0 <= i < s.len() && 'A' <= s[i] <= 'Z' ==> lower(s)[i] as int == s[i] as int + 32,
        0 <= i < s.len() && !('A' <= s[i] <= 'Z') ==> lower(s)[i] == s[i],
{
}

} // verus!
