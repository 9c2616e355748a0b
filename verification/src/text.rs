//! Text helpers shared by the other modules: building strings character by
//! character, comparing, searching and printing numbers.
use vstd::prelude::*;
use vstd::utf8::{decode_utf8, valid_utf8};

verus! {

/// `std::string::FromUtf8Error`, carried as an opaque value.
#[verifier::external_type_specification]
#[verifier::external_body]
pub struct ExFromUtf8Error(std::string::FromUtf8Error);

/// `String::push` appends one character at the end.
pub assume_specification[ String::push ](s: &mut String, c: char)
    ensures
        final(s)@ == old(s)@.push(c),
;

/// `String::from_utf8` decodes a byte vector, and fails exactly on byte
/// sequences that are not valid UTF-8.
pub assume_specification[ String::from_utf8 ](bytes: Vec<u8>) -> (r: Result<
    String,
    std::string::FromUtf8Error,
>)
    ensures
        r is Ok <==> valid_utf8(bytes@),
        r matches Ok(s) ==> s@ == decode_utf8(bytes@),
;

/// The text that `bytes` encode, or nothing where they are not valid UTF-8.
pub open spec fn utf8_text(bytes: Seq<u8>) -> Option<Seq<char>> {
    if valid_utf8(bytes) {
        Some(decode_utf8(bytes))
    } else {
        None
    }
}

/// Views an optional string as an optional character sequence.
pub open spec fn text_option(s: Option<String>) -> Option<Seq<char>> {
    match s {
        Some(t) => Some(t@),
        None => None,
    }
}

/// Decodes `bytes[start..end]` as UTF-8.
pub fn decode_text(bytes: &[u8], start: usize, end: usize) -> (r: Option<String>)
    requires
        start <= end <= bytes@.len(),
    ensures
        text_option(r) == utf8_text(bytes@.subrange(start as int, end as int)),
{
    let part: &[u8] = vstd::slice::slice_subrange(bytes, start, end);
    match String::from_utf8(vstd::slice::slice_to_vec(part)) {
        Ok(s) => Some(s),
        Err(_) => None,
    }
}

/// The text of the error that std reports for bytes that are not valid UTF-8.
pub uninterp spec fn utf8_error_text(bytes: Seq<u8>) -> Seq<char>;

/// Calls `std::str::from_utf8` and formats its error with `Display`. The text
/// depends on the bytes alone.
#[verifier::external_body]
fn utf8_error(bytes: &[u8]) -> (text: String)
    requires
        !valid_utf8(bytes@),
    ensures
        text@ == utf8_error_text(bytes@),
{
    std::str::from_utf8(bytes).err().map_or(String::new(), |e| e.to_string())
}

/// The text that `bytes` encode, or the text of the error.
pub open spec fn utf8_result(bytes: Seq<u8>) -> Result<Seq<char>, Seq<char>> {
    match utf8_text(bytes) {
        Some(text) => Ok(text),
        None => Err(utf8_error_text(bytes)),
    }
}

/// Decodes `bytes[start..end]` as UTF-8, or tells what is wrong with them.
pub fn decode_or_error(bytes: &[u8], start: usize, end: usize) -> (r: Result<String, String>)
    requires
        start <= end <= bytes@.len(),
    ensures
        match r {
            Ok(s) => utf8_result(bytes@.subrange(start as int, end as int)) == Ok::<
                Seq<char>,
                Seq<char>,
            >(s@),
            Err(e) => utf8_result(bytes@.subrange(start as int, end as int)) == Err::<
                Seq<char>,
                Seq<char>,
            >(e@),
        },
{
    match decode_text(bytes, start, end) {
        Some(s) => Ok(s),
        None => Err(utf8_error(vstd::slice::slice_subrange(bytes, start, end))),
    }
}

/// Bytes as text, where what is not valid UTF-8 is replaced, as
/// `String::from_utf8_lossy` does it.
pub uninterp spec fn lossy_text(bytes: Seq<u8>) -> Seq<char>;

/// Calls `String::from_utf8_lossy`. The text depends on the bytes alone; it is the
/// text that the bytes encode where they are valid UTF-8.
#[verifier::external_body]
pub(crate) fn lossy(bytes: &Vec<u8>) -> (text: String)
    ensures
        text@ == lossy_text(bytes@),
        valid_utf8(bytes@) ==> text@ == decode_utf8(bytes@),
{
    String::from_utf8_lossy(bytes).into_owned()
}

/// The characters of `s` as a vector.
pub fn chars_of(s: &str) -> (v: Vec<char>)
    ensures
        v@ == s@,
{
    let mut v: Vec<char> = Vec::new();
    for c in it: s.chars()
        invariant
            it.seq() == s@,
            v@ == s@.take(it.index()),
    {
        v.push(c);
        assert(s@.take(it.index() + 1) =~= s@.take(it.index()).push(c));
    }
    assert(s@.take(s@.len() as int) =~= s@);
    v
}

/// The characters `v[start..end]` as a string.
pub fn string_of(v: &Vec<char>, start: usize, end: usize) -> (s: String)
    requires
        start <= end <= v@.len(),
    ensures
        s@ == v@.subrange(start as int, end as int),
{
    let mut s: String = String::new();
    let mut i: usize = start;
    while i < end
        invariant
            start <= i <= end <= v@.len(),
            s@ == v@.subrange(start as int, i as int),
        decreases end - i,
    {
        s.push(v[i]);
        assert(v@.subrange(start as int, i + 1) =~= v@.subrange(start as int, i as int).push(
            v@[i as int],
        ));
        i = i + 1;
    }
    s
}

/// Whether two strings hold the same characters.
pub fn same_text(a: &str, b: &str) -> (r: bool)
    ensures
        r == (a@ == b@),
{
    a.to_owned() == b.to_owned()
}

/// `text` in double quotes with its special characters escaped, as the `Debug`
/// format of `str` writes it.
pub uninterp spec fn quoted(text: Seq<char>) -> Seq<char>;

/// Formats `text` with std's `Debug` for `str`. The result depends on the text
/// alone.
#[verifier::external_body]
pub(crate) fn quote(text: &str) -> (r: String)
    ensures
        r@ == quoted(text@),
{
    format!("{:?}", text)
}

/// The digit for a number below ten.
pub open spec fn digit(n: nat) -> char {
    (('0' as nat) + n) as char
}

/// `n` in decimal digits, without leading zeros.
pub open spec fn decimal(n: nat) -> Seq<char>
    decreases n,
{
    if n < 10 {
        seq![digit(n)]
    } else {
        decimal(n / 10).push(digit(n % 10))
    }
}

/// Writes `n` in decimal.
pub fn decimal_text(n: u64) -> (text: String)
    ensures
        text@ == decimal(n as nat),
    decreases n,
{
    if n < 10 {
        let mut text: String = String::new();
        text.push((48u8 + n as u8) as char);
        assert(text@ =~= decimal(n as nat));
        text
    } else {
        let mut text = decimal_text(n / 10);
        text.push((48u8 + (n % 10) as u8) as char);
        text
    }
}

/// `a` stands before `b` in the order of their characters' code points, which is
/// also the order of their UTF-8 bytes.
pub open spec fn precedes(a: Seq<char>, b: Seq<char>) -> bool
    decreases a.len(),
{
    if b.len() == 0 {
        false
    } else if a.len() == 0 {
        true
    } else if a[0] != b[0] {
        a[0] < b[0]
    } else {
        precedes(a.drop_first(), b.drop_first())
    }
}

/// Whether `a` stands before `b`.
pub fn text_precedes(a: &str, b: &str) -> (r: bool)
    ensures
        r == precedes(a@, b@),
{
    let x = chars_of(a);
    let y = chars_of(b);
    let mut i: usize = 0;
    assert(x@.skip(0) =~= x@);
    assert(y@.skip(0) =~= y@);
    while i < x.len() && i < y.len()
        invariant
            x@ == a@,
            y@ == b@,
            i <= x@.len(),
            i <= y@.len(),
            precedes(x@, y@) == precedes(x@.skip(i as int), y@.skip(i as int)),
        decreases x.len() - i,
    {
        assert(x@.skip(i as int).drop_first() =~= x@.skip(i + 1));
        assert(y@.skip(i as int).drop_first() =~= y@.skip(i + 1));
        if x[i] != y[i] {
            return x[i] < y[i];
        }
        i = i + 1;
    }
    i < y.len()
}

/// The order is strict.
pub proof fn lemma_precedes_irreflexive(a: Seq<char>)
    ensures
        !precedes(a, a),
    decreases a.len(),
{
    if a.len() > 0 {
        lemma_precedes_irreflexive(a.drop_first());
    }
}

/// The order is transitive.
pub proof fn lemma_precedes_transitive(a: Seq<char>, b: Seq<char>, c: Seq<char>)
    requires
        precedes(a, b),
        precedes(b, c),
    ensures
        precedes(a, c),
    decreases a.len(),
{
    if a.len() > 0 && b.len() > 0 && c.len() > 0 && a[0] == b[0] && b[0] == c[0] {
        lemma_precedes_transitive(a.drop_first(), b.drop_first(), c.drop_first());
    }
}

/// The order is total.
pub proof fn lemma_precedes_total(a: Seq<char>, b: Seq<char>)
    ensures
        precedes(a, b) || precedes(b, a) || a == b,
    decreases a.len(),
{
    if a.len() == 0 && b.len() == 0 {
        assert(a =~= b);
    } else if a.len() > 0 && b.len() > 0 && a[0] == b[0] {
        lemma_precedes_total(a.drop_first(), b.drop_first());
        if a.drop_first() == b.drop_first() {
            assert(a =~= seq![a[0]] + a.drop_first());
            assert(b =~= seq![b[0]] + b.drop_first());
        }
    }
}

/// `needle` stands in `text` at `i`.
pub open spec fn stands_at(text: Seq<char>, needle: Seq<char>, i: int) -> bool {
    0 <= i && i + needle.len() <= text.len() && text.subrange(i, i + needle.len()) == needle
}

/// `needle` stands somewhere in `text`.
pub open spec fn contains_seq(text: Seq<char>, needle: Seq<char>) -> bool {
    exists|i: int| stands_at(text, needle, i)
}

/// A text contains another exactly where it can be split around it.
pub proof fn law_containing_is_splitting(text: Seq<char>, needle: Seq<char>)
    ensures
        contains_seq(text, needle) <==> exists|a: Seq<char>, b: Seq<char>| text == a + needle + b,
{
    if contains_seq(text, needle) {
        let i = choose|i: int| stands_at(text, needle, i);
        let a = text.take(i);
        let b = text.skip(i + needle.len());
        assert(text =~= a + needle + b);
    }
    assert forall|a: Seq<char>, b: Seq<char>| text == a + needle + b implies contains_seq(
        text,
        needle,
    ) by {
        assert(text.subrange(a.len() as int, (a.len() + needle.len()) as int) =~= needle);
        assert(stands_at(text, needle, a.len() as int));
    }
}

/// Whether `needle` stands in `text` at `i`.
fn matches_at(text: &Vec<char>, needle: &Vec<char>, i: usize) -> (r: bool)
    requires
        i + needle@.len() <= text@.len(),
    ensures
        r == stands_at(text@, needle@, i as int),
{
    let len: usize = text.len();
    let mut j: usize = 0;
    while j < needle.len()
        invariant
            i + needle@.len() <= len == text@.len(),
            j <= needle@.len(),
            forall|k: int| 0 <= k < j ==> text@[i + k] == #[trigger] needle@[k],
        decreases needle.len() - j,
    {
        if text[i + j] != needle[j] {
            assert(text@.subrange(i as int, i + needle@.len())[j as int] != needle@[j as int]);
            return false;
        }
        j = j + 1;
    }
    assert(text@.subrange(i as int, i + needle@.len()) =~= needle@);
    true
}

/// Whether `needle` stands somewhere in `text`.
pub fn contains_text(text: &str, needle: &str) -> (r: bool)
    ensures
        r == contains_seq(text@, needle@),
{
    let t = chars_of(text);
    let n = chars_of(needle);
    if n.len() > t.len() {
        return false;
    }
    let last: usize = t.len() - n.len();
    let mut i: usize = 0;
    while i <= last
        invariant
            t@ == text@,
            n@ == needle@,
            last == t@.len() - n@.len(),
            i <= last + 1,
            forall|k: int| 0 <= k < i ==> !#[trigger] stands_at(text@, needle@, k),
        decreases last + 1 - i,
    {
        if matches_at(&t, &n, i) {
            return true;
        }
        if i == last {
            assert forall|k: int| !#[trigger] stands_at(text@, needle@, k) by {
                if 0 <= k <= last && k < i {
                    assert(!stands_at(text@, needle@, k));
                }
            }
            return false;
        }
        i = i + 1;
    }
    false
}

/// A text starts with its own beginning.
pub proof fn lemma_prefix_is_contained(prefix: Seq<char>, rest: Seq<char>)
    ensures
        contains_seq(prefix + rest, prefix),
{
    assert((prefix + rest).subrange(0, prefix.len() as int) =~= prefix);
    assert(stands_at(prefix + rest, prefix, 0));
}

/// `text` in lower case, as std's `str::to_lowercase` gives it.
pub uninterp spec fn lowercase(text: Seq<char>) -> Seq<char>;

/// Calls `str::to_lowercase`. The result depends on the text alone.
#[verifier::external_body]
pub(crate) fn lower_text(text: &str) -> (r: String)
    ensures
        r@ == lowercase(text@),
{
    text.to_lowercase()
}

/// The first difference decides the order, and a text goes before its continuations.
pub proof fn law_first_difference_decides(
    same: Seq<char>,
    x: char,
    y: char,
    a: Seq<char>,
    b: Seq<char>,
)
    ensures
        x != y ==> precedes(same.push(x) + a, same.push(y) + b) == (x < y),
        precedes(same, same.push(y) + b),
        !precedes(same.push(y) + b, same),
        !precedes(same, same),
    decreases same.len(),
{
    let s = same.push(x) + a;
    let t = same.push(y) + b;
    if same.len() > 0 {
        let rest = same.drop_first();
        law_first_difference_decides(rest, x, y, a, b);
        assert(s.drop_first() =~= rest.push(x) + a);
        assert(t.drop_first() =~= rest.push(y) + b);
    } else {
        assert(s[0] == x && t[0] == y);
    }
}

/// The number that decimal digits stand for.
pub open spec fn value_of(digits: Seq<char>) -> int
    decreases digits.len(),
{
    if digits.len() == 0 {
        0
    } else {
        10 * value_of(digits.drop_last()) + (digits.last() as int - 48)
    }
}

/// A number is written in decimal digits that stand for it, the first of which is a
/// zero only where it is the only one.
pub proof fn law_decimal_digits_stand_for_the_number(n: nat)
    ensures
        decimal(n).len() > 0,
        forall|i: int| 0 <= i < decimal(n).len() ==> '0' <= #[trigger] decimal(n)[i] <= '9',
        value_of(decimal(n)) == n,
        decimal(n)[0] == '0' <==> n == 0,
    decreases n,
{
    if n < 10 {
        assert(decimal(n).drop_last() =~= Seq::empty());
        reveal_with_fuel(value_of, 2);
    } else {
        law_decimal_digits_stand_for_the_number(n / 10);
        assert(decimal(n).drop_last() =~= decimal(n / 10));
    }
}

/// What stands between two texts is contained in the whole.
pub proof fn lemma_middle_is_contained(a: Seq<char>, needle: Seq<char>, b: Seq<char>)
    ensures
        contains_seq(a + needle + b, needle),
        contains_seq(a + needle, needle),
{
    assert((a + needle + b).subrange(a.len() as int, (a.len() + needle.len()) as int) =~= needle);
    assert(stands_at(a + needle + b, needle, a.len() as int));
    assert((a + needle).subrange(a.len() as int, (a.len() + needle.len()) as int) =~= needle);
    assert(stands_at(a + needle, needle, a.len() as int));
}

/// Bytes are read as text exactly where they are the encoding of it.
pub proof fn law_text_is_what_encodes_to_the_bytes(bytes: Seq<u8>, text: Seq<char>)
    ensures
        utf8_text(bytes) == Some(text) <==> vstd::utf8::encode_utf8(text) == bytes,
        utf8_text(bytes) is None <==> !vstd::utf8::valid_utf8(bytes),
        utf8_result(bytes) is Ok <==> utf8_text(bytes) is Some,
        utf8_result(bytes) matches Ok(t) ==> utf8_text(bytes) == Some(t),
{
    vstd::utf8::encode_utf8_decode_utf8(text);
    vstd::utf8::encode_utf8_valid_utf8(text);
    if vstd::utf8::valid_utf8(bytes) {
        vstd::utf8::decode_utf8_encode_utf8(bytes);
    }
}

} // verus!
