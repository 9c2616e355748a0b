//! Taking texts apart: splitting, trimming, comparing without case and reading
//! numbers.
use vstd::prelude::*;

verus! {

/// Where `c` stands first in `s`.
pub open spec fn char_index(s: Seq<char>, c: char) -> Option<int>
    decreases s.len(),
{
    if s.len() == 0 {
        None
    } else if s[0] == c {
        Some(0)
    } else {
        match char_index(s.drop_first(), c) {
            Some(i) => Some(i + 1),
            None => None,
        }
    }
}

/// What stands before the first `c`: all of `s` where there is none.
pub open spec fn before_char(s: Seq<char>, c: char) -> Seq<char> {
    match char_index(s, c) {
        Some(i) => s.take(i),
        None => s,
    }
}

/// What stands behind the first `c`, where there is one.
pub open spec fn after_char(s: Seq<char>, c: char) -> Option<Seq<char>> {
    match char_index(s, c) {
        Some(i) => Some(s.skip(i + 1)),
        None => None,
    }
}

pub proof fn lemma_char_index(s: Seq<char>, c: char)
    ensures
        match char_index(s, c) {
            Some(i) => 0 <= i < s.len() && s[i] == c && forall|j: int| 0 <= j < i ==> s[j] != c,
            None => forall|j: int| 0 <= j < s.len() ==> s[j] != c,
        },
    decreases s.len(),
{
    if s.len() > 0 && s[0] != c {
        let t = s.drop_first();
        lemma_char_index(t, c);
        match char_index(s, c) {
            Some(i) => {
                assert forall|j: int| 0 <= j < i implies s[j] != c by {
                    if j > 0 {
                        assert(t[j - 1] == s[j]);
                    }
                }
            },
            None => {
                assert forall|j: int| 0 <= j < s.len() implies s[j] != c by {
                    if j > 0 {
                        assert(t[j - 1] == s[j]);
                    }
                }
            },
        }
    }
}

/// Finds where `c` stands first.
pub fn find_char(s: &Vec<char>, c: char) -> (r: Option<usize>)
    ensures
        match r {
            Some(i) => i < s@.len() && char_index(s@, c) == Some(i as int),
            None => char_index(s@, c) is None,
        },
{
    let mut i: usize = 0;
    assert(s@.skip(0) =~= s@);
    while i < s.len()
        invariant
            i <= s@.len(),
            char_index(s@, c) == match char_index(s@.skip(i as int), c) {
                Some(n) => Some(n + i),
                None => None,
            },
        decreases s.len() - i,
    {
        assert(s@.skip(i as int).drop_first() =~= s@.skip(i + 1));
        if s[i] == c {
            return Some(i);
        }
        i = i + 1;
    }
    None
}

/// The characters `s[start..end]`.
pub fn part(s: &Vec<char>, start: usize, end: usize) -> (r: Vec<char>)
    requires
        start <= end <= s@.len(),
    ensures
        r@ == s@.subrange(start as int, end as int),
{
    vstd::slice::slice_to_vec(vstd::slice::slice_subrange(s.as_slice(), start, end))
}

/// An optional character vector, viewed.
pub open spec fn chars_option(r: Option<Vec<char>>) -> Option<Seq<char>> {
    match r {
        Some(v) => Some(v@),
        None => None,
    }
}

/// Splits at the first `c`.
pub fn split_at_char(s: &Vec<char>, c: char) -> (r: (Vec<char>, Option<Vec<char>>))
    ensures
        r.0@ == before_char(s@, c),
        chars_option(r.1) == after_char(s@, c),
        r.1 matches Some(v) ==> v@.len() < s@.len(),
{
    let len: usize = s.len();
    match find_char(s, c) {
        Some(i) => {
            assert(i < len);
            let front = part(s, 0, i);
            let back = part(s, i + 1, s.len());
            assert(front@ =~= s@.take(i as int));
            assert(back@ =~= s@.skip(i + 1));
            (front, Some(back))
        },
        None => {
            let all = part(s, 0, s.len());
            assert(all@ =~= s@);
            (all, None)
        },
    }
}

/// A character of Unicode's `White_Space` property.
pub open spec fn is_space(c: char) -> bool {
    ||| 0x09 <= c as u32 <= 0x0D
    ||| c as u32 == 0x20
    ||| c as u32 == 0x85
    ||| c as u32 == 0xA0
    ||| c as u32 == 0x1680
    ||| 0x2000 <= c as u32 <= 0x200A
    ||| c as u32 == 0x2028
    ||| c as u32 == 0x2029
    ||| c as u32 == 0x202F
    ||| c as u32 == 0x205F
    ||| c as u32 == 0x3000
}

/// Whether a character is white space.
pub fn space(c: char) -> (r: bool)
    ensures
        r == is_space(c),
{
    let u: u32 = c as u32;
    (0x09 <= u && u <= 0x0D) || u == 0x20 || u == 0x85 || u == 0xA0 || u == 0x1680 || (0x2000 <= u
        && u <= 0x200A) || u == 0x2028 || u == 0x2029 || u == 0x202F || u == 0x205F || u == 0x3000
}

/// `s` without the characters of a kind at its end.
pub open spec fn trim_end_of(s: Seq<char>, kind: spec_fn(char) -> bool) -> Seq<char>
    decreases s.len(),
{
    if s.len() > 0 && kind(s.last()) {
        trim_end_of(s.drop_last(), kind)
    } else {
        s
    }
}

/// `s` without the characters of a kind at its start.
pub open spec fn trim_start_of(s: Seq<char>, kind: spec_fn(char) -> bool) -> Seq<char>
    decreases s.len(),
{
    if s.len() > 0 && kind(s[0]) {
        trim_start_of(s.drop_first(), kind)
    } else {
        s
    }
}

/// `s` without white space at its ends.
pub open spec fn trimmed(s: Seq<char>) -> Seq<char> {
    trim_start_of(trim_end_of(s, |c: char| is_space(c)), |c: char| is_space(c))
}

/// Cuts white space off both ends.
pub fn trim(s: &Vec<char>) -> (r: Vec<char>)
    ensures
        r@ == trimmed(s@),
{
    let ghost kind = |c: char| is_space(c);
    let mut end: usize = s.len();
    assert(s@.take(end as int) =~= s@);
    while end > 0 && space(s[end - 1])
        invariant
            kind == (|c: char| is_space(c)),
            end <= s@.len(),
            trim_end_of(s@, kind) == trim_end_of(s@.take(end as int), kind),
        decreases end,
    {
        assert(s@.take(end as int).drop_last() =~= s@.take(end - 1));
        end = end - 1;
    }
    let ghost body = s@.take(end as int);
    assert(trim_end_of(s@, kind) == body);
    let mut start: usize = 0;
    assert(body.skip(0) =~= body);
    while start < end && space(s[start])
        invariant
            kind == (|c: char| is_space(c)),
            start <= end <= s@.len(),
            body == s@.take(end as int),
            trim_start_of(body, kind) == trim_start_of(body.skip(start as int), kind),
        decreases end - start,
    {
        assert(body.skip(start as int).drop_first() =~= body.skip(start + 1));
        start = start + 1;
    }
    assert(body.skip(start as int) =~= s@.subrange(start as int, end as int));
    part(s, start, end)
}

/// A carriage return, or a line feed where `lf` says so.
pub open spec fn is_line_mark(c: char, lf: bool) -> bool {
    c == '\r' || (lf && c == '\n')
}

/// `s` without carriage returns, and line feeds where `lf` says so, at its end.
pub open spec fn without_line_end(s: Seq<char>, lf: bool) -> Seq<char> {
    trim_end_of(s, |c: char| is_line_mark(c, lf))
}

/// Cuts the line end off.
pub fn cut_line_end(s: &Vec<char>, lf: bool) -> (r: Vec<char>)
    ensures
        r@ == without_line_end(s@, lf),
{
    let ghost kind = |c: char| is_line_mark(c, lf);
    let mut end: usize = s.len();
    assert(s@.take(end as int) =~= s@);
    while end > 0 && (s[end - 1] == '\r' || (lf && s[end - 1] == '\n'))
        invariant
            kind == (|c: char| is_line_mark(c, lf)),
            end <= s@.len(),
            trim_end_of(s@, kind) == trim_end_of(s@.take(end as int), kind),
        decreases end,
    {
        assert(s@.take(end as int).drop_last() =~= s@.take(end - 1));
        end = end - 1;
    }
    assert(s@.take(end as int) =~= s@.subrange(0, end as int));
    part(s, 0, end)
}

/// `s` without the slashes at its start.
pub open spec fn without_slashes(s: Seq<char>) -> Seq<char> {
    trim_start_of(s, |c: char| c == '/')
}

/// Cuts the slashes at the start off.
pub fn cut_slashes(s: &Vec<char>) -> (r: Vec<char>)
    ensures
        r@ == without_slashes(s@),
{
    let ghost kind = |c: char| c == '/';
    let mut start: usize = 0;
    assert(s@.skip(0) =~= s@);
    while start < s.len() && s[start] == '/'
        invariant
            kind == (|c: char| c == '/'),
            start <= s@.len(),
            trim_start_of(s@, kind) == trim_start_of(s@.skip(start as int), kind),
        decreases s.len() - start,
    {
        assert(s@.skip(start as int).drop_first() =~= s@.skip(start + 1));
        start = start + 1;
    }
    assert(s@.skip(start as int) =~= s@.subrange(start as int, s@.len() as int));
    part(s, start, s.len())
}

/// An ASCII letter in lower case, any other character as it is.
pub open spec fn ascii_lower(c: char) -> char {
    if 'A' <= c && c <= 'Z' {
        ((c as u32 + 32) as u32) as char
    } else {
        c
    }
}

/// The same text, up to the case of ASCII letters.
pub open spec fn same_ignoring_case(a: Seq<char>, b: Seq<char>) -> bool {
    a.len() == b.len() && forall|i: int|
        0 <= i < a.len() ==> ascii_lower(#[trigger] a[i]) == ascii_lower(b[i])
}

/// An ASCII letter in lower case.
fn lower(c: char) -> (r: char)
    ensures
        r == ascii_lower(c),
{
    if 'A' <= c && c <= 'Z' {
        ((c as u8) + 32u8) as char
    } else {
        c
    }
}

/// Compares without regard to the case of ASCII letters.
pub fn eq_ignore_ascii_case(a: &Vec<char>, b: &str) -> (r: bool)
    ensures
        r == same_ignoring_case(a@, b@),
{
    let other = crate::text::chars_of(b);
    if a.len() != other.len() {
        return false;
    }
    let mut i: usize = 0;
    while i < a.len()
        invariant
            other@ == b@,
            i <= a@.len() == b@.len(),
            forall|j: int| 0 <= j < i ==> ascii_lower(#[trigger] a@[j]) == ascii_lower(b@[j]),
        decreases a.len() - i,
    {
        if lower(a[i]) != lower(other[i]) {
            assert(ascii_lower(a@[i as int]) != ascii_lower(b@[i as int]));
            return false;
        }
        i = i + 1;
    }
    true
}

/// The value of decimal digits.
pub open spec fn digits_value(s: Seq<char>) -> nat
    decreases s.len(),
{
    if s.len() == 0 {
        0
    } else {
        10 * digits_value(s.drop_last()) + ((s.last() as nat - '0' as nat) as nat)
    }
}

/// One or more decimal digits.
pub open spec fn all_digits(s: Seq<char>) -> bool {
    s.len() > 0 && forall|i: int| 0 <= i < s.len() ==> '0' <= #[trigger] s[i] && s[i] <= '9'
}

/// An unsigned number: decimal digits, with a plus sign in front or not, whose
/// value a `usize` holds.
pub open spec fn unsigned_number(s: Seq<char>) -> Option<usize> {
    let digits = if s.len() > 0 && s[0] == '+' {
        s.drop_first()
    } else {
        s
    };
    if all_digits(digits) && digits_value(digits) <= usize::MAX {
        Some(digits_value(digits) as usize)
    } else {
        None
    }
}

proof fn lemma_digits_prefix(s: Seq<char>, i: int)
    requires
        all_digits(s),
        0 <= i <= s.len(),
    ensures
        digits_value(s.take(i)) <= digits_value(s),
    decreases s.len() - i,
{
    if i < s.len() {
        lemma_digits_prefix(s, i + 1);
        assert(s.take(i + 1).drop_last() =~= s.take(i));
    } else {
        assert(s.take(i) =~= s);
    }
}

/// Reads an unsigned number.
pub fn parse_unsigned(s: &Vec<char>) -> (r: Option<usize>)
    ensures
        r == unsigned_number(s@),
{
    let start: usize = if s.len() > 0 && s[0] == '+' {
        1
    } else {
        0
    };
    let ghost digits = s@.skip(start as int);
    proof {
        if start == 1 {
            assert(digits =~= s@.drop_first());
        } else {
            assert(digits =~= s@);
        }
    }
    assert(unsigned_number(s@) == if all_digits(digits) && digits_value(digits) <= usize::MAX {
        Some(digits_value(digits) as usize)
    } else {
        None
    });
    if s.len() == start {
        return None;
    }
    let mut i: usize = start;
    while i < s.len()
        invariant
            start <= i <= s@.len(),
            digits == s@.skip(start as int),
            unsigned_number(s@) == if all_digits(digits) && digits_value(digits) <= usize::MAX {
                Some(digits_value(digits) as usize)
            } else {
                None
            },
            forall|j: int| start <= j < i ==> '0' <= #[trigger] s@[j] && s@[j] <= '9',
        decreases s.len() - i,
    {
        if !('0' <= s[i] && s[i] <= '9') {
            assert(digits[i - start] == s@[i as int]);
            return None;
        }
        i = i + 1;
    }
    assert(all_digits(digits));
    let mut value: usize = 0;
    let mut k: usize = start;
    assert(digits.take(0) =~= Seq::empty());
    while k < s.len()
        invariant
            start <= k <= s@.len(),
            digits == s@.skip(start as int),
            unsigned_number(s@) == if all_digits(digits) && digits_value(digits) <= usize::MAX {
                Some(digits_value(digits) as usize)
            } else {
                None
            },
            all_digits(digits),
            value == digits_value(digits.take(k - start)),
        decreases s.len() - k,
    {
        let ghost at = k - start;
        proof {
            assert(digits.take(at + 1).drop_last() =~= digits.take(at));
            assert(digits[at] == s@[k as int]);
            lemma_digits_prefix(digits, at + 1);
        }
        let d: usize = ((s[k] as u8) - 48u8) as usize;
        match value.checked_mul(10) {
            Some(v) => match v.checked_add(d) {
                Some(w) => {
                    value = w;
                },
                None => {
                    return None;
                },
            },
            None => {
                return None;
            },
        }
        k = k + 1;
    }
    assert(digits.take(s@.len() - start) =~= digits);
    Some(value)
}

/// A text is cut at the first place where a character stands, and nowhere else.
pub proof fn law_text_is_cut_at_the_first_mark(front: Seq<char>, c: char, back: Seq<char>)
    requires
        forall|i: int| 0 <= i < front.len() ==> #[trigger] front[i] != c,
    ensures
        before_char(front + seq![c] + back, c) == front,
        after_char(front + seq![c] + back, c) == Some(back),
        before_char(front, c) == front,
        after_char(front, c) is None,
{
    let s = front + seq![c] + back;
    lemma_char_index(s, c);
    lemma_char_index(front, c);
    assert(s[front.len() as int] == c);
    let i = char_index(s, c)->0;
    if i < front.len() {
        assert(s[i] == front[i]);
    }
    assert(s.take(front.len() as int) =~= front);
    assert(s.skip(front.len() as int + 1) =~= back);
    if let Some(j) = char_index(front, c) {
        assert(front[j] != c);
    }
}

proof fn lemma_trim_end(s: Seq<char>, tail: Seq<char>, kind: spec_fn(char) -> bool)
    requires
        forall|i: int| 0 <= i < tail.len() ==> kind(#[trigger] tail[i]),
        s.len() > 0 ==> !kind(s.last()),
    ensures
        trim_end_of(s + tail, kind) == s,
    decreases tail.len(),
{
    if tail.len() > 0 {
        assert((s + tail).last() == tail[tail.len() - 1]);
        assert((s + tail).drop_last() =~= s + tail.drop_last());
        assert forall|i: int| 0 <= i < tail.drop_last().len() implies kind(
            #[trigger] tail.drop_last()[i],
        ) by {
            assert(tail.drop_last()[i] == tail[i]);
        }
        lemma_trim_end(s, tail.drop_last(), kind);
    } else {
        assert(s + tail =~= s);
    }
}

proof fn lemma_trim_start(head: Seq<char>, s: Seq<char>, kind: spec_fn(char) -> bool)
    requires
        forall|i: int| 0 <= i < head.len() ==> kind(#[trigger] head[i]),
        s.len() > 0 ==> !kind(s[0]),
    ensures
        trim_start_of(head + s, kind) == s,
    decreases head.len(),
{
    if head.len() > 0 {
        assert((head + s)[0] == head[0]);
        assert((head + s).drop_first() =~= head.drop_first() + s);
        assert forall|i: int| 0 <= i < head.drop_first().len() implies kind(
            #[trigger] head.drop_first()[i],
        ) by {
            assert(head.drop_first()[i] == head[i + 1]);
        }
        lemma_trim_start(head.drop_first(), s, kind);
    } else {
        assert(head + s =~= s);
    }
}

/// White space is cut off both ends, and nothing else: what starts and ends with other
/// characters stays whole. A blank and the control characters from tab to carriage
/// return are the white space of ASCII.
pub proof fn law_white_space_is_cut_off(head: Seq<char>, s: Seq<char>, tail: Seq<char>, c: char)
    requires
        forall|i: int| 0 <= i < head.len() ==> is_space(#[trigger] head[i]),
        forall|i: int| 0 <= i < tail.len() ==> is_space(#[trigger] tail[i]),
        s.len() > 0 ==> !is_space(s[0]) && !is_space(s.last()),
    ensures
        trimmed(head + s + tail) == s,
        (c as u32) < 0x80 ==> (is_space(c) <==> c == ' ' || '\t' <= c <= '\r'),
        c as u32 >= 0x80 && is_space(c) ==> c as u32 == 0x85 || c as u32 == 0xA0 || c as u32
            == 0x1680 || 0x2000 <= c as u32 <= 0x200A || c as u32 == 0x2028 || c as u32 == 0x2029
            || c as u32 == 0x202F || c as u32 == 0x205F || c as u32 == 0x3000,
        c as u32 == 0x85 || c as u32 == 0xA0 || c as u32 == 0x1680 || 0x2000 <= c as u32 <= 0x200A
            || c as u32 == 0x2028 || c as u32 == 0x2029 || c as u32 == 0x202F || c as u32 == 0x205F
            || c as u32 == 0x3000 ==> is_space(c),
{
    let kind = |x: char| is_space(x);
    if s.len() > 0 {
        assert((head + s).last() == s.last());
        lemma_trim_end(head + s, tail, kind);
        lemma_trim_start(head, s, kind);
    } else {
        let all = head + s + tail;
        assert forall|i: int| 0 <= i < all.len() implies kind(#[trigger] all[i]) by {
            if i < head.len() {
                assert(all[i] == head[i]);
            } else {
                assert(all[i] == tail[i - head.len()]);
            }
        }
        lemma_trim_end(Seq::empty(), all, kind);
        assert(Seq::<char>::empty() + all =~= all);
        assert(s =~= Seq::empty());
    }
}

/// The line end that is cut off is the run of carriage returns at the end, of line
/// feeds too where these are asked for.
pub proof fn law_line_end_is_cut_off(s: Seq<char>, tail: Seq<char>, lf: bool)
    requires
        forall|i: int|
            0 <= i < tail.len() ==> #[trigger] tail[i] == '\r' || (lf && tail[i] == '\n'),
        s.len() > 0 ==> s.last() != '\r' && (lf ==> s.last() != '\n'),
    ensures
        without_line_end(s + tail, lf) == s,
{
    lemma_trim_end(s, tail, |c: char| is_line_mark(c, lf));
}

/// The slashes at the start are cut off, and nothing behind them.
pub proof fn law_slashes_are_cut_off(head: Seq<char>, s: Seq<char>)
    requires
        forall|i: int| 0 <= i < head.len() ==> #[trigger] head[i] == '/',
        s.len() > 0 ==> s[0] != '/',
    ensures
        without_slashes(head + s) == s,
{
    lemma_trim_start(head, s, |c: char| c == '/');
}

/// Two texts are the same up to case where each character of one is that of the other,
/// or the same ASCII letter in the other case.
pub proof fn law_only_the_case_may_differ(a: Seq<char>, b: Seq<char>)
    ensures
        same_ignoring_case(a, b) <==> a.len() == b.len() && forall|i: int|
            0 <= i < a.len() ==> #[trigger] a[i] == b[i] || ('A' <= a[i] <= 'Z' && b[i] as u32
                == a[i] as u32 + 32) || ('A' <= b[i] <= 'Z' && a[i] as u32 == b[i] as u32 + 32),
{
    if a.len() == b.len() {
        assert forall|i: int| 0 <= i < a.len() implies (ascii_lower(a[i]) == ascii_lower(b[i])
            <==> #[trigger] a[i] == b[i] || ('A' <= a[i] <= 'Z' && b[i] as u32 == a[i] as u32 + 32)
            || ('A' <= b[i] <= 'Z' && a[i] as u32 == b[i] as u32 + 32)) by {}
    }
}

proof fn lemma_digits_of_decimal(n: nat)
    ensures
        digits_value(crate::text::decimal(n)) == n,
        all_digits(crate::text::decimal(n)),
    decreases n,
{
    reveal_with_fuel(digits_value, 2);
    let d = crate::text::decimal(n);
    crate::text::law_decimal_digits_stand_for_the_number(n);
    if n < 10 {
        assert(d.drop_last() =~= Seq::empty());
    } else {
        lemma_digits_of_decimal(n / 10);
        assert(d.drop_last() =~= crate::text::decimal(n / 10));
    }
}

/// A number that was written in decimal is read back, with a plus sign in front too;
/// a digit behind a number makes it ten times as large and adds the digit.
pub proof fn law_numbers_are_read_back(n: usize, s: Seq<char>, c: char)
    ensures
        unsigned_number(crate::text::decimal(n as nat)) == Some(n),
        unsigned_number(seq!['+'] + crate::text::decimal(n as nat)) == Some(n),
        unsigned_number(Seq::<char>::empty()) is None,
        unsigned_number(seq!['+']) is None,
        '0' <= c <= '9' && unsigned_number(s) is Some ==> unsigned_number(s.push(c)) == if 10
            * unsigned_number(s)->0 + (c as u32 - '0' as u32) <= usize::MAX {
            Some((10 * unsigned_number(s)->0 + (c as u32 - '0' as u32)) as usize)
        } else {
            None
        },
        !('0' <= c <= '9') ==> unsigned_number(s.push(c)) is None,
{
    let d = crate::text::decimal(n as nat);
    lemma_digits_of_decimal(n as nat);
    assert(d[0] != '+');
    assert((seq!['+'] + d).drop_first() =~= d);
    assert(seq!['+'].drop_first() =~= Seq::empty());
    let t = s.push(c);
    if s.len() > 0 {
        assert(t[0] == s[0]);
        let a = if s[0] == '+' {
            s.drop_first()
        } else {
            s
        };
        let b = if t[0] == '+' {
            t.drop_first()
        } else {
            t
        };
        assert(b =~= a.push(c));
        assert(b.drop_last() =~= a);
        assert(b.last() == c);
        assert(b[b.len() - 1] == c);
        if all_digits(a) && '0' <= c && c <= '9' {
            assert forall|i: int| 0 <= i < b.len() implies '0' <= #[trigger] b[i] && b[i]
                <= '9' by {
                if i < a.len() {
                    assert(b[i] == a[i]);
                }
            }
        }
    } else {
        assert(t[0] == c);
        if c == '+' {
            assert(t.drop_first() =~= Seq::empty());
        }
    }
}

} // verus!
