//! Text as sequences of characters: trimming, case, numbers in decimal, and
//! the few string builders that messages and statements are put together with.
use vstd::prelude::*;

verus! {

/// `String::push` appends one character.
pub assume_specification[ String::push ](s: &mut String, c: char)
    ensures
        final(s)@ == old(s)@.push(c),
;

/// What `char::is_alphanumeric` answers, which only matters outside ASCII.
pub uninterp spec fn unicode_alphanumeric(c: char) -> bool;

/// What `str::to_lowercase` gives, which only matters for text outside ASCII.
pub uninterp spec fn unicode_lowercase(s: Seq<char>) -> Seq<char>;

/// What `str::to_uppercase` gives, which only matters for text outside ASCII.
pub uninterp spec fn unicode_uppercase(s: Seq<char>) -> Seq<char>;

/// How the `Debug` form of a character reads, quotes and escapes with it.
pub uninterp spec fn debug_char(c: char) -> Seq<char>;

/// Calls `char::is_alphanumeric`; the answer depends on the character alone.
#[verifier::external_body]
fn char_is_alphanumeric(c: char) -> (r: bool)
    ensures
        r == unicode_alphanumeric(c),
{
    c.is_alphanumeric()
}

/// Calls `str::to_lowercase`; the result depends on the text alone.
#[verifier::external_body]
fn str_to_lowercase(s: &str) -> (r: String)
    ensures
        r@ == unicode_lowercase(s@),
{
    s.to_lowercase()
}

/// Calls `str::to_uppercase`; the result depends on the text alone.
#[verifier::external_body]
fn str_to_uppercase(s: &str) -> (r: String)
    ensures
        r@ == unicode_uppercase(s@),
{
    s.to_uppercase()
}

/// Formats a character with `{:?}`; the result depends on the character alone.
#[verifier::external_body]
pub(crate) fn char_debug(c: char) -> (r: String)
    ensures
        r@ == debug_char(c),
{
    format!("{c:?}")
}

pub open spec fn is_digit(c: char) -> bool {
    '0' <= c <= '9'
}

pub open spec fn is_ascii_letter(c: char) -> bool {
    'a' <= c <= 'z' || 'A' <= c <= 'Z'
}

pub open spec fn is_ascii_char(c: char) -> bool {
    (c as u32) < 128
}

pub open spec fn is_ascii_text(s: Seq<char>) -> bool {
    forall|i: int| 0 <= i < s.len() ==> is_ascii_char(#[trigger] s[i])
}

/// Letters and digits of any script.
pub open spec fn is_alnum(c: char) -> bool {
    if is_ascii_char(c) {
        is_ascii_letter(c) || is_digit(c)
    } else {
        unicode_alphanumeric(c)
    }
}

/// The characters with the Unicode property White_Space.
pub open spec fn is_space(c: char) -> bool {
    let u = c as u32;
    ||| 0x9 <= u <= 0xD
    ||| u == 0x20
    ||| u == 0x85
    ||| u == 0xA0
    ||| u == 0x1680
    ||| 0x2000 <= u <= 0x200A
    ||| u == 0x2028
    ||| u == 0x2029
    ||| u == 0x202F
    ||| u == 0x205F
    ||| u == 0x3000
}

pub open spec fn lower_char(c: char) -> char {
    if 'A' <= c <= 'Z' {
        ((c as u32) + 32) as char
    } else {
        c
    }
}

pub open spec fn upper_char(c: char) -> char {
    if 'a' <= c <= 'z' {
        ((c as u32) - 32) as char
    } else {
        c
    }
}

/// The text with its ASCII letters in lower case.
pub open spec fn ascii_lower(s: Seq<char>) -> Seq<char> {
    Seq::new(s.len(), |i: int| lower_char(s[i]))
}

/// The text with its ASCII letters in upper case.
pub open spec fn ascii_upper(s: Seq<char>) -> Seq<char> {
    Seq::new(s.len(), |i: int| upper_char(s[i]))
}

/// The text in lower case.
pub open spec fn lower(s: Seq<char>) -> Seq<char> {
    if is_ascii_text(s) {
        ascii_lower(s)
    } else {
        unicode_lowercase(s)
    }
}

/// The text in upper case.
pub open spec fn upper(s: Seq<char>) -> Seq<char> {
    if is_ascii_text(s) {
        ascii_upper(s)
    } else {
        unicode_uppercase(s)
    }
}

/// The texts differ at most in the case of ASCII letters.
pub open spec fn same_ignoring_case(a: Seq<char>, b: Seq<char>) -> bool {
    ascii_lower(a) == ascii_lower(b)
}

pub open spec fn trim_start(s: Seq<char>) -> Seq<char>
    decreases s.len(),
{
    if s.len() > 0 && is_space(s[0]) {
        trim_start(s.skip(1))
    } else {
        s
    }
}

pub open spec fn trim_end(s: Seq<char>) -> Seq<char>
    decreases s.len(),
{
    if s.len() > 0 && is_space(s.last()) {
        trim_end(s.drop_last())
    } else {
        s
    }
}

/// The text without white space at either end.
pub open spec fn trim(s: Seq<char>) -> Seq<char> {
    trim_end(trim_start(s))
}

pub open spec fn digit_char(d: int) -> char {
    (('0' as int) + d) as char
}

/// A natural number in decimal, without leading zeros.
pub open spec fn nat_text(n: nat) -> Seq<char>
    decreases n,
{
    if n < 10 {
        seq![digit_char(n as int)]
    } else {
        nat_text(n / 10).push(digit_char((n % 10) as int))
    }
}

/// An integer in decimal.
pub open spec fn int_text(v: int) -> Seq<char> {
    if v < 0 {
        seq!['-'] + nat_text((-v) as nat)
    } else {
        nat_text(v as nat)
    }
}

pub open spec fn all_digits(s: Seq<char>) -> bool {
    forall|i: int| 0 <= i < s.len() ==> is_digit(#[trigger] s[i])
}

/// The number that a run of digits stands for.
pub open spec fn digits_value(s: Seq<char>) -> nat
    decreases s.len(),
{
    if s.len() == 0 {
        0
    } else {
        10 * digits_value(s.drop_last()) + ((s.last() as int) - ('0' as int)) as nat
    }
}

/// The integer that a text of an optional sign and at least one digit stands for.
pub open spec fn read_int(s: Seq<char>) -> Option<int> {
    let signed = s.len() > 0 && (s[0] == '-' || s[0] == '+');
    let digits = if signed {
        s.skip(1)
    } else {
        s
    };
    if digits.len() == 0 || !all_digits(digits) {
        None
    } else if s[0] == '-' {
        Some(-(digits_value(digits) as int))
    } else {
        Some(digits_value(digits) as int)
    }
}

/// The integer of that text where it is one that `i64` holds.
pub open spec fn read_i64(s: Seq<char>) -> Option<i64> {
    match read_int(s) {
        Some(v) => if i64::MIN <= v <= i64::MAX {
            Some(v as i64)
        } else {
            None
        },
        None => None,
    }
}

/// The texts one after the other with `sep` between neighbours.
pub open spec fn join_seq(parts: Seq<Seq<char>>, sep: Seq<char>) -> Seq<char>
    decreases parts.len(),
{
    if parts.len() == 0 {
        seq![]
    } else if parts.len() == 1 {
        parts[0]
    } else {
        join_seq(parts.drop_last(), sep) + sep + parts.last()
    }
}

/// The texts that the strings of a vector hold.
pub open spec fn views(v: Seq<String>) -> Seq<Seq<char>> {
    Seq::new(v.len(), |i: int| v[i]@)
}

/// The text that an optional string holds.
pub open spec fn opt_view(s: Option<String>) -> Option<Seq<char>> {
    match s {
        Some(x) => Some(x@),
        None => None,
    }
}

pub proof fn lemma_views_push(v: Seq<String>, s: String)
    ensures
        views(v.push(s)) == views(v).push(s@),
{
    assert(views(v.push(s)) =~= views(v).push(s@));
}

/// The characters of a text.
pub fn chars_of(s: &str) -> (r: Vec<char>)
    ensures
        r@ == s@,
{
    let mut v: Vec<char> = Vec::new();
    for c in it: s.chars()
        invariant
            it.seq() == s@,
            v@ == it.seq().take(it.index() as int),
    {
        v.push(c);
    }
    v
}

/// The text that part of a vector of characters spells.
pub fn text_of(chars: &Vec<char>, from: usize, to: usize) -> (r: String)
    requires
        from <= to <= chars@.len(),
    ensures
        r@ == chars@.subrange(from as int, to as int),
{
    let mut s: String = String::new();
    let mut i: usize = from;
    while i < to
        invariant
            from <= i <= to <= chars@.len(),
            s@ == chars@.subrange(from as int, i as int),
        decreases to - i,
    {
        s.push(chars[i]);
        i += 1;
    }
    s
}

/// Compares two texts with `==`, which holds exactly when they have the same characters.
#[verifier::external_body]
pub(crate) fn same(a: &str, b: &str) -> (r: bool)
    ensures
        r == (a@ == b@),
{
    a == b
}

pub fn cat(a: &str, b: &str) -> (r: String)
    ensures
        r@ == a@ + b@,
{
    let mut s: String = a.to_string();
    s.append(b);
    s
}

pub fn cat3(a: &str, b: &str, c: &str) -> (r: String)
    ensures
        r@ == a@ + b@ + c@,
{
    let mut s: String = cat(a, b);
    s.append(c);
    s
}

pub fn cat4(a: &str, b: &str, c: &str, d: &str) -> (r: String)
    ensures
        r@ == a@ + b@ + c@ + d@,
{
    let mut s: String = cat3(a, b, c);
    s.append(d);
    s
}

pub fn cat5(a: &str, b: &str, c: &str, d: &str, e: &str) -> (r: String)
    ensures
        r@ == a@ + b@ + c@ + d@ + e@,
{
    let mut s: String = cat4(a, b, c, d);
    s.append(e);
    s
}

/// Whether a character is a letter or digit of any script.
pub fn alnum(c: char) -> (r: bool)
    ensures
        r == is_alnum(c),
{
    if (c as u32) < 128 {
        ('a' <= c && c <= 'z') || ('A' <= c && c <= 'Z') || ('0' <= c && c <= '9')
    } else {
        char_is_alphanumeric(c)
    }
}

/// Whether a character is white space.
pub fn space(c: char) -> (r: bool)
    ensures
        r == is_space(c),
{
    let u: u32 = c as u32;
    (0x9 <= u && u <= 0xD) || u == 0x20 || u == 0x85 || u == 0xA0 || u == 0x1680 || (0x2000 <= u
        && u <= 0x200A) || u == 0x2028 || u == 0x2029 || u == 0x202F || u == 0x205F || u == 0x3000
}

/// Whether a text is all ASCII.
fn ascii_only(chars: &Vec<char>) -> (r: bool)
    ensures
        r == is_ascii_text(chars@),
{
    let mut i: usize = 0;
    while i < chars.len()
        invariant
            i <= chars@.len(),
            forall|j: int| 0 <= j < i ==> is_ascii_char(#[trigger] chars@[j]),
        decreases chars@.len() - i,
    {
        if chars[i] as u32 >= 128 {
            assert(!is_ascii_char(chars@[i as int]));
            return false;
        }
        i += 1;
    }
    true
}

fn lowered(c: char) -> (r: char)
    ensures
        r == lower_char(c),
{
    if 'A' <= c && c <= 'Z' {
        (c as u8 + 32) as char
    } else {
        c
    }
}

fn raised(c: char) -> (r: char)
    ensures
        r == upper_char(c),
{
    if 'a' <= c && c <= 'z' {
        (c as u8 - 32) as char
    } else {
        c
    }
}

/// The text with its ASCII letters in lower case.
pub fn to_ascii_lower(s: &str) -> (r: String)
    ensures
        r@ == ascii_lower(s@),
{
    let chars: Vec<char> = chars_of(s);
    let mut t: String = String::new();
    let mut i: usize = 0;
    while i < chars.len()
        invariant
            i <= chars@.len(),
            chars@ == s@,
            t@ == ascii_lower(s@).take(i as int),
        decreases chars@.len() - i,
    {
        t.push(lowered(chars[i]));
        i += 1;
        assert(t@ =~= ascii_lower(s@).take(i as int));
    }
    t
}

/// The text in lower case.
pub fn to_lower(s: &str) -> (r: String)
    ensures
        r@ == lower(s@),
{
    let chars: Vec<char> = chars_of(s);
    if ascii_only(&chars) {
        to_ascii_lower(s)
    } else {
        str_to_lowercase(s)
    }
}

/// The text in upper case.
pub fn to_upper(s: &str) -> (r: String)
    ensures
        r@ == upper(s@),
{
    let chars: Vec<char> = chars_of(s);
    if ascii_only(&chars) {
        let mut t: String = String::new();
        let mut i: usize = 0;
        while i < chars.len()
            invariant
                i <= chars@.len(),
                chars@ == s@,
                t@ == ascii_upper(s@).take(i as int),
            decreases chars@.len() - i,
        {
            t.push(raised(chars[i]));
            i += 1;
            assert(t@ =~= ascii_upper(s@).take(i as int));
        }
        t
    } else {
        str_to_uppercase(s)
    }
}

/// Whether two texts differ at most in the case of ASCII letters.
pub fn eq_ignore_case(a: &str, b: &str) -> (r: bool)
    ensures
        r == same_ignoring_case(a@, b@),
{
    let x: String = to_ascii_lower(a);
    let y: String = to_ascii_lower(b);
    same(x.as_str(), y.as_str())
}

/// The text without white space at either end.
pub fn trimmed(s: &str) -> (r: String)
    ensures
        r@ == trim(s@),
{
    let chars: Vec<char> = chars_of(s);
    let mut a: usize = 0;
    assert(chars@.skip(0) =~= chars@);
    while a < chars.len() && space(chars[a])
        invariant
            a <= chars@.len(),
            trim_start(chars@.skip(a as int)) == trim_start(chars@),
        decreases chars@.len() - a,
    {
        assert(chars@.skip(a as int).skip(1) =~= chars@.skip(a + 1));
        a += 1;
    }
    let ghost rest = chars@.skip(a as int);
    assert(trim_start(chars@) == rest);
    let mut b: usize = chars.len();
    assert(chars@.subrange(a as int, b as int) =~= rest);
    while a < b && space(chars[b - 1])
        invariant
            a <= b <= chars@.len(),
            trim_end(chars@.subrange(a as int, b as int)) == trim_end(rest),
        decreases b,
    {
        assert(chars@.subrange(a as int, b as int).drop_last() =~= chars@.subrange(
            a as int,
            b - 1,
        ));
        b -= 1;
    }
    text_of(&chars, a, b)
}

/// A natural number in decimal.
pub fn u64_text(n: u64) -> (r: String)
    ensures
        r@ == nat_text(n as nat),
{
    u128_text(n as u128)
}

/// A natural number in decimal.
pub fn u128_text(n: u128) -> (r: String)
    ensures
        r@ == nat_text(n as nat),
    decreases n,
{
    let d: u8 = 48u8 + (n % 10) as u8;
    let c: char = d as char;
    if n < 10 {
        let mut s: String = String::new();
        s.push(c);
        assert(s@ =~= nat_text(n as nat));
        s
    } else {
        let mut s: String = u128_text(n / 10);
        s.push(c);
        s
    }
}

/// A size in decimal.
pub fn usize_text(n: usize) -> (r: String)
    ensures
        r@ == nat_text(n as nat),
{
    u64_text(n as u64)
}

/// An integer in decimal.
pub fn i64_text(v: i64) -> (r: String)
    ensures
        r@ == int_text(v as int),
{
    if v < 0 {
        let n: u64 = if v == i64::MIN {
            9223372036854775808u64
        } else {
            (-v) as u64
        };
        proof {
            reveal_strlit("-");
            assert("-"@ =~= seq!['-']);
        }
        cat("-", u64_text(n).as_str())
    } else {
        u64_text(v as u64)
    }
}

proof fn lemma_digits_grow(s: Seq<char>, i: int)
    requires
        all_digits(s),
        0 <= i <= s.len(),
    ensures
        digits_value(s.take(i)) <= digits_value(s),
    decreases s.len() - i,
{
    if i < s.len() {
        lemma_digits_grow(s, i + 1);
        assert(s.take(i + 1).drop_last() =~= s.take(i));
    } else {
        assert(s.take(i) =~= s);
    }
}

/// Reads an integer: an optional sign and at least one digit, within `i64`.
pub fn parse_i64(s: &str) -> (r: Option<i64>)
    ensures
        r == read_i64(s@),
{
    let chars: Vec<char> = chars_of(s);
    let n: usize = chars.len();
    let signed: bool = n > 0 && (chars[0] == '-' || chars[0] == '+');
    let negative: bool = n > 0 && chars[0] == '-';
    let from: usize = if signed {
        1
    } else {
        0
    };
    let ghost digits = s@.skip(from as int);
    assert(s@.skip(0) =~= s@);
    if n == from {
        return None;
    }
    let mut i: usize = from;
    let mut total: i128 = 0;
    while i < n
        invariant
            from <= i <= n,
            n == chars@.len(),
            chars@ == s@,
            from <= 1,
            digits == s@.skip(from as int),
            all_digits(digits.take(i - from)),
            total == digits_value(digits.take(i - from)),
            0 <= total <= 9223372036854775808,
            read_int(s@) == (if digits.len() == 0 || !all_digits(digits) {
                None::<int>
            } else if negative {
                Some(-(digits_value(digits) as int))
            } else {
                Some(digits_value(digits) as int)
            }),
        decreases n - i,
    {
        let c: char = chars[i];
        assert(digits[i - from] == c);
        if !('0' <= c && c <= '9') {
            assert(!is_digit(digits[i - from]));
            return None;
        }
        let d: i128 = (c as u8 - 48u8) as i128;
        assert(digits.take(i - from + 1).drop_last() =~= digits.take(i - from));
        total = total * 10 + d;
        i += 1;
        if total > 9223372036854775808 {
            proof {
                if all_digits(digits) {
                    lemma_digits_grow(digits, i - from);
                }
            }
            return None;
        }
    }
    assert(digits.take(n - from) =~= digits);
    if negative {
        Some((-total) as i64)
    } else if total <= 9223372036854775807 {
        Some(total as i64)
    } else {
        None
    }
}

/// The texts one after the other with `sep` between neighbours.
pub fn join(parts: &Vec<String>, sep: &str) -> (r: String)
    ensures
        r@ == join_seq(views(parts@), sep@),
{
    let mut s: String = String::new();
    let mut i: usize = 0;
    while i < parts.len()
        invariant
            i <= parts@.len(),
            s@ == join_seq(views(parts@).take(i as int), sep@),
        decreases parts@.len() - i,
    {
        let ghost before = s@;
        if i > 0 {
            s.append(sep);
        }
        s.append(parts[i].as_str());
        proof {
            let all = views(parts@);
            assert(all.take(i + 1).drop_last() =~= all.take(i as int));
            if i == 0 {
                assert(s@ =~= parts@[0]@);
            }
        }
        i += 1;
    }
    assert(views(parts@).take(i as int) =~= views(parts@));
    s
}

/// Whether `text` is among the strings.
pub fn contains(v: &Vec<String>, text: &str) -> (r: bool)
    ensures
        r == views(v@).contains(text@),
{
    let mut i: usize = 0;
    while i < v.len()
        invariant
            i <= v@.len(),
            forall|j: int| 0 <= j < i ==> views(v@)[j] != text@,
        decreases v@.len() - i,
    {
        if same(v[i].as_str(), text) {
            assert(views(v@)[i as int] == text@);
            return true;
        }
        i += 1;
    }
    false
}

/// A text with no white space at its ends stays as it is.
pub(crate) proof fn lemma_trimmed(s: Seq<char>)
    requires
        s.len() > 0,
        !is_space(s[0]),
        !is_space(s.last()),
    ensures
        trim(s) == s,
{
}

/// A trimmed text has no white space at its ends.
pub(crate) proof fn lemma_trim_ends(s: Seq<char>)
    ensures
        trim(s).len() > 0 ==> !is_space(trim(s)[0]) && !is_space(
            trim(s).last(),
        ),
{
    lemma_trim_start(s);
    lemma_trim_end(trim_start(s));
}

proof fn lemma_trim_start(s: Seq<char>)
    ensures
        trim_start(s).len() > 0 ==> !is_space(trim_start(s)[0]),
    decreases s.len(),
{
    if s.len() > 0 && is_space(s[0]) {
        lemma_trim_start(s.skip(1));
    }
}

proof fn lemma_trim_end(s: Seq<char>)
    ensures
        trim_end(s).len() <= s.len(),
        trim_end(s).len() > 0 ==> !is_space(trim_end(s).last())
            && trim_end(s)[0] == s[0],
    decreases s.len(),
{
    if s.len() > 0 && is_space(s.last()) {
        lemma_trim_end(s.drop_last());
    }
}

/// Trimming takes white space from the ends and nothing else: what is left is a part
/// of the text with only white space around it, and neither starts nor ends with any.
pub proof fn law_trimming_takes_white_space(s: Seq<char>) -> (r: (int, int))
    ensures
        0 <= r.0 <= r.1 <= s.len(),
        trim(s) == s.subrange(r.0, r.1),
        forall|i: int| 0 <= i < r.0 || r.1 <= i < s.len() ==> is_space(#[trigger] s[i]),
        r.0 < r.1 ==> !is_space(s[r.0]) && !is_space(s[r.1 - 1]),
{
    lemma_trim_ends(s);
    let i = lemma_start_part(s);
    let t = trim_start(s);
    let n = lemma_end_part(t);
    assert(trim(s) =~= s.subrange(i, i + n));
    assert forall|k: int| 0 <= k < i || i + n <= k < s.len() implies is_space(#[trigger] s[k]) by {
        if k >= i + n {
            assert(t[k - i] == s[k]);
        }
    }
    if n > 0 {
        assert(trim(s)[0] == s[i]);
        assert(trim(s).last() == s[i + n - 1]);
    }
    (i, i + n)
}

proof fn lemma_start_part(s: Seq<char>) -> (i: int)
    ensures
        0 <= i <= s.len(),
        trim_start(s) == s.skip(i),
        forall|k: int| 0 <= k < i ==> is_space(#[trigger] s[k]),
    decreases s.len(),
{
    if s.len() > 0 && is_space(s[0]) {
        let i = lemma_start_part(s.skip(1));
        assert(s.skip(1).skip(i) =~= s.skip(i + 1));
        assert forall|k: int| 0 <= k < i + 1 implies is_space(#[trigger] s[k]) by {
            if k > 0 {
                assert(s.skip(1)[k - 1] == s[k]);
            }
        }
        i + 1
    } else {
        assert(s.skip(0) =~= s);
        0
    }
}

proof fn lemma_end_part(s: Seq<char>) -> (n: int)
    ensures
        0 <= n <= s.len(),
        trim_end(s) == s.take(n),
        forall|k: int| n <= k < s.len() ==> is_space(#[trigger] s[k]),
    decreases s.len(),
{
    if s.len() > 0 && is_space(s.last()) {
        let n = lemma_end_part(s.drop_last());
        assert(s.drop_last().take(n) =~= s.take(n));
        assert forall|k: int| n <= k < s.len() implies is_space(#[trigger] s[k]) by {
            if k < s.len() - 1 {
                assert(s.drop_last()[k] == s[k]);
            }
        }
        n
    } else {
        assert(s.take(s.len() as int) =~= s);
        s.len() as int
    }
}

/// Only the 26 letters have case: a letter and its other case are 32 apart, changing case
/// back and forth comes back, and everything else stays as it is.
pub proof fn law_letters_change_case(c: char)
    ensures
        'A' <= c <= 'Z' ==> lower_char(c) as u32 == c as u32 + 32 && 'a' <= lower_char(c) <= 'z'
            && upper_char(lower_char(c)) == c,
        'a' <= c <= 'z' ==> upper_char(c) as u32 == c as u32 - 32 && 'A' <= upper_char(c) <= 'Z'
            && lower_char(upper_char(c)) == c,
        !('A' <= c <= 'Z') ==> lower_char(c) == c,
        !('a' <= c <= 'z') ==> upper_char(c) == c,
        lower_char(lower_char(c)) == lower_char(c),
        lower_char(upper_char(c)) == lower_char(c),
{
}

/// Texts that differ in case alone are the same ignoring case, whatever their case.
pub proof fn law_case_is_ignored(s: Seq<char>, t: Seq<char>)
    ensures
        same_ignoring_case(s, ascii_upper(s)),
        same_ignoring_case(s, ascii_lower(s)),
        same_ignoring_case(s, t) <==> s.len() == t.len() && forall|i: int|
            0 <= i < s.len() ==> lower_char(#[trigger] s[i]) == lower_char(t[i]),
        is_ascii_text(s) ==> lower(upper(s)) == lower(s) && upper(lower(s)) == upper(s),
{
    assert forall|i: int| 0 <= i < s.len() implies lower_char(upper_char(s[i])) == lower_char(
        s[i],
    ) && lower_char(lower_char(s[i])) == lower_char(s[i]) && upper_char(lower_char(s[i]))
        == upper_char(s[i]) by {
        law_letters_change_case(s[i]);
    }
    assert(ascii_lower(ascii_upper(s)) =~= ascii_lower(s));
    assert(ascii_lower(ascii_lower(s)) =~= ascii_lower(s));
    assert(ascii_upper(ascii_lower(s)) =~= ascii_upper(s));
    if s.len() == t.len() && forall|i: int|
        0 <= i < s.len() ==> lower_char(#[trigger] s[i]) == lower_char(t[i]) {
        assert(ascii_lower(s) =~= ascii_lower(t));
    }
    if same_ignoring_case(s, t) {
        assert(ascii_lower(s).len() == s.len() && ascii_lower(t).len() == t.len());
        assert forall|i: int| 0 <= i < s.len() implies lower_char(#[trigger] s[i]) == lower_char(
            t[i],
        ) by {
            assert(ascii_lower(s)[i] == ascii_lower(t)[i]);
        }
    }
    if is_ascii_text(s) {
        assert forall|i: int| 0 <= i < s.len() implies is_ascii_char(#[trigger] ascii_upper(s)[i])
            && is_ascii_char(ascii_lower(s)[i]) by {
            assert(is_ascii_char(s[i]));
        }
        assert(is_ascii_text(ascii_upper(s)));
        assert(is_ascii_text(ascii_lower(s)));
    }
}

/// In ASCII white space is the blank and the characters from the tab to the carriage
/// return; the ideographic space counts too, and letters, digits and punctuation do not.
pub proof fn law_white_space(c: char)
    ensures
        (c as u32) < 128 ==> (is_space(c) <==> c == ' ' || '\t' <= c <= '\r'),
        is_space('\u{3000}'),
        is_digit(c) || is_ascii_letter(c) ==> !is_space(c),
{
}

/// Joined texts are the texts with the separator between neighbours: one text more adds
/// the separator and that text, and as many characters.
pub proof fn law_texts_are_joined(parts: Seq<Seq<char>>, last: Seq<char>, sep: Seq<char>)
    ensures
        join_seq(seq![], sep) == Seq::<char>::empty(),
        join_seq(seq![last], sep) == last,
        parts.len() > 0 ==> join_seq(parts.push(last), sep) == join_seq(parts, sep) + sep + last,
{
    assert(parts.push(last).drop_last() =~= parts);
}

/// A number is read back from its digits, with or without a sign in front, and leading
/// zeros do not change it.
pub proof fn law_digits_say_their_number(s: Seq<char>)
    requires
        s.len() > 0,
        all_digits(s),
    ensures
        read_int(s) == Some(digits_value(s) as int),
        read_int(seq!['+'] + s) == read_int(s),
        read_int(seq!['-'] + s) == Some(-(digits_value(s) as int)),
        digits_value(seq!['0'] + s) == digits_value(s),
        read_int(seq![]) is None,
        read_int(seq!['-']) is None,
{
    assert(is_digit(s[0]));
    assert((seq!['+'] + s).skip(1) =~= s);
    assert((seq!['-'] + s).skip(1) =~= s);
    assert(seq!['-'].skip(1) =~= seq![]);
    lemma_leading_zero(s);
}

proof fn lemma_leading_zero(s: Seq<char>)
    ensures
        digits_value(seq!['0'] + s) == digits_value(s),
    decreases s.len(),
{
    let t = seq!['0'] + s;
    if s.len() == 0 {
        assert(t.drop_last() =~= seq![]);
        assert(digits_value(t.drop_last()) == 0);
        assert(t.last() == '0');
    } else {
        assert(t.drop_last() =~= seq!['0'] + s.drop_last());
        assert(t.last() == s.last());
        lemma_leading_zero(s.drop_last());
    }
}

} // verus!
