//! HTML listings of directories.
use crate::text::{
    chars_of, decimal, decimal_text, lemma_precedes_irreflexive, lemma_precedes_total,
    lemma_precedes_transitive, lower_text, lowercase, precedes, text_precedes,
};
use vstd::prelude::*;
use vstd::string::StringExecFns;

verus! {

/// One child of a directory.
#[derive(Debug)]
pub struct ListingEntry {
    pub name: String,
    pub is_dir: bool,
    pub size: u64,
}

/// What a [`ListingEntry`] stands for.
pub struct EntryView {
    pub name: Seq<char>,
    pub is_dir: bool,
    pub size: u64,
}

impl View for ListingEntry {
    type V = EntryView;

    open spec fn view(&self) -> EntryView {
        EntryView { name: self.name@, is_dir: self.is_dir, size: self.size }
    }
}

/// Views a list of entries.
pub open spec fn entry_views(entries: Seq<ListingEntry>) -> Seq<EntryView> {
    entries.map_values(|e: ListingEntry| e@)
}

// ---------------------------------------------------------------------------
// Escaping
// ---------------------------------------------------------------------------

/// What a character is written as in HTML.
pub open spec fn escaped_char(c: char) -> Seq<char> {
    if c == '&' {
        "&amp;"@
    } else if c == '<' {
        "&lt;"@
    } else if c == '>' {
        "&gt;"@
    } else if c == '"' {
        "&quot;"@
    } else if c == '\'' {
        "&#39;"@
    } else {
        seq![c]
    }
}

/// A text as it is written in HTML.
pub open spec fn escaped(s: Seq<char>) -> Seq<char>
    decreases s.len(),
{
    if s.len() == 0 {
        Seq::empty()
    } else {
        escaped(s.drop_last()) + escaped_char(s.last())
    }
}

/// Escapes a text for HTML.
pub fn html_escape(s: &str) -> (r: String)
    ensures
        r@ == escaped(s@),
{
    let chars = chars_of(s);
    let mut out: String = String::new();
    let mut i: usize = 0;
    assert(chars@.take(0) =~= Seq::empty());
    while i < chars.len()
        invariant
            i <= chars@.len(),
            out@ == escaped(chars@.take(i as int)),
        decreases chars.len() - i,
    {
        let c: char = chars[i];
        assert(chars@.take(i + 1).drop_last() =~= chars@.take(i as int));
        let ghost before = out@;
        if c == '&' {
            out.append("&amp;");
        } else if c == '<' {
            out.append("&lt;");
        } else if c == '>' {
            out.append("&gt;");
        } else if c == '"' {
            out.append("&quot;");
        } else if c == '\'' {
            out.append("&#39;");
        } else {
            out.push(c);
            assert(out@ =~= before + seq![c]);
        }
        i = i + 1;
    }
    assert(chars@.take(chars@.len() as int) =~= chars@);
    out
}

/// A character that ends a text or an attribute in HTML.
pub open spec fn is_markup(c: char) -> bool {
    c == '<' || c == '>' || c == '"' || c == '\''
}

/// An escaped text holds no character that ends a text or an attribute.
pub proof fn law_escaped_text_is_inert(s: Seq<char>)
    ensures
        forall|i: int| 0 <= i < escaped(s).len() ==> !is_markup(#[trigger] escaped(s)[i]),
    decreases s.len(),
{
    reveal_strlit("&amp;");
    reveal_strlit("&lt;");
    reveal_strlit("&gt;");
    reveal_strlit("&quot;");
    reveal_strlit("&#39;");
    if s.len() > 0 {
        let front = escaped(s.drop_last());
        let back = escaped_char(s.last());
        law_escaped_text_is_inert(s.drop_last());
        assert forall|i: int| 0 <= i < escaped(s).len() implies !is_markup(
            #[trigger] escaped(s)[i],
        ) by {
            if i < front.len() {
                assert(escaped(s)[i] == front[i]);
            } else {
                assert(escaped(s)[i] == back[i - front.len()]);
            }
        }
    }
}

/// A text without special characters is written as it is.
pub proof fn law_plain_text_is_unchanged(s: Seq<char>)
    requires
        forall|i: int| 0 <= i < s.len() ==> !is_markup(#[trigger] s[i]) && s[i] != '&',
    ensures
        escaped(s) == s,
    decreases s.len(),
{
    if s.len() > 0 {
        law_plain_text_is_unchanged(s.drop_last());
        assert(escaped(s) =~= s);
    } else {
        assert(escaped(s) =~= s);
    }
}

// ---------------------------------------------------------------------------
// Links
// ---------------------------------------------------------------------------

/// `s` without its pairs of dots, taken from the left.
pub open spec fn without_dot_dot(s: Seq<char>) -> Seq<char>
    decreases s.len(),
{
    if s.len() == 0 {
        s
    } else if s.len() >= 2 && s[0] == '.' && s[1] == '.' {
        without_dot_dot(s.skip(2))
    } else {
        seq![s[0]] + without_dot_dot(s.skip(1))
    }
}

/// Takes the pairs of dots out of a text.
pub fn strip_dot_dot(s: &str) -> (r: String)
    ensures
        r@ == without_dot_dot(s@),
{
    let chars = chars_of(s);
    let mut out: String = String::new();
    let mut i: usize = 0;
    assert(chars@.skip(0) =~= chars@);
    assert(out@ + without_dot_dot(chars@.skip(0)) =~= without_dot_dot(chars@));
    while i < chars.len()
        invariant
            chars@ == s@,
            i <= chars@.len(),
            out@ + without_dot_dot(chars@.skip(i as int)) == without_dot_dot(s@),
        decreases chars.len() - i,
    {
        let ghost rest = chars@.skip(i as int);
        let ghost before = out@;
        if chars.len() - i >= 2 && chars[i] == '.' && chars[i + 1] == '.' {
            assert(rest.skip(2) =~= chars@.skip(i + 2));
            i = i + 2;
        } else {
            out.push(chars[i]);
            assert(rest.skip(1) =~= chars@.skip(i + 1));
            assert(before + (seq![rest[0]] + without_dot_dot(rest.skip(1))) =~= out@
                + without_dot_dot(chars@.skip(i + 1)));
            i = i + 1;
        }
    }
    assert(out@ + without_dot_dot(chars@.skip(chars@.len() as int)) =~= out@);
    out
}

/// Two dots in a row stand in `s` at `i`.
pub open spec fn dots_at(s: Seq<char>, i: int) -> bool {
    0 <= i && i + 1 < s.len() && s[i] == '.' && s[i + 1] == '.'
}

/// A stripped link has no two dots in a row, so that it cannot lead upwards.
pub proof fn law_stripped_link_stays_below(s: Seq<char>)
    ensures
        forall|i: int| !#[trigger] dots_at(without_dot_dot(s), i),
        s.len() > 0 && s[0] != '.' ==> without_dot_dot(s).len() > 0 && without_dot_dot(s)[0]
            == s[0],
    decreases s.len(),
{
    if s.len() == 0 {
        assert(without_dot_dot(s) == s);
        assert(forall|i: int| !#[trigger] dots_at(without_dot_dot(s), i));
    } else if s.len() >= 2 && s[0] == '.' && s[1] == '.' {
        law_stripped_link_stays_below(s.skip(2));
        assert(without_dot_dot(s) == without_dot_dot(s.skip(2)));
        assert(forall|i: int| !#[trigger] dots_at(without_dot_dot(s), i));
    } else {
        let tail = s.skip(1);
        let rest = without_dot_dot(tail);
        let all = without_dot_dot(s);
        law_stripped_link_stays_below(tail);
        assert(all == seq![s[0]] + rest);
        assert forall|i: int| !#[trigger] dots_at(all, i) by {
            if i > 0 {
                assert(!dots_at(rest, i - 1));
            } else if i == 0 && s.len() >= 2 && s[0] == '.' {
                assert(tail[0] == s[1]);
                assert(rest[0] == s[1]);
            } else if i == 0 && s.len() == 1 {
                assert(tail =~= Seq::empty());
                assert(rest =~= Seq::empty());
            }
        }
    }
}

/// The path of a child below the root: that of its directory, then its name.
pub open spec fn child_path(rel_dir: Seq<char>, name: Seq<char>) -> Seq<char> {
    if rel_dir.len() == 0 {
        name
    } else {
        rel_dir + "/"@ + name
    }
}

/// The link to a child, with a slash behind a directory.
pub open spec fn child_link(rel_dir: Seq<char>, e: EntryView) -> Seq<char> {
    let path = child_path(rel_dir, e.name);
    without_dot_dot(
        if e.is_dir {
            path + "/"@
        } else {
            path
        },
    )
}

/// Makes the link to a child.
fn link_text(rel_dir: &str, e: &ListingEntry) -> (r: String)
    ensures
        r@ == child_link(rel_dir@, e@),
{
    let path = if rel_dir.is_empty() {
        e.name.clone()
    } else {
        rel_dir.to_owned().concat("/").concat(e.name.as_str())
    };
    if e.is_dir {
        strip_dot_dot(path.concat("/").as_str())
    } else {
        strip_dot_dot(path.as_str())
    }
}

// ---------------------------------------------------------------------------
// Sizes
// ---------------------------------------------------------------------------

/// The nearest number to `n` that has 53 significant bits where `unit` is the
/// weight of the last of them, the even one of two.
pub open spec fn nearest_multiple(n: int, unit: int) -> int {
    let q = n / unit;
    let r = n % unit;
    if 2 * r > unit || (2 * r == unit && q % 2 == 1) {
        (q + 1) * unit
    } else {
        q * unit
    }
}

/// The weight of the last of 53 significant bits, from `unit` on.
pub open spec fn bit_weight(n: int, unit: int) -> int
    decreases n / unit,
    when unit > 0
{
    if n < 0x20_0000_0000_0000 * unit {
        unit
    } else {
        proof {
            assert(n / (2 * unit) < n / unit) by (nonlinear_arith)
                requires
                    n >= 0x20_0000_0000_0000 * unit,
                    unit > 0,
            ;
            assert(n / (2 * unit) >= 0) by (nonlinear_arith)
                requires
                    n >= 0x20_0000_0000_0000 * unit,
                    unit > 0,
            ;
        }
        bit_weight(n, 2 * unit)
    }
}

/// `n` rounded to double precision.
pub open spec fn double_precision(n: int) -> int {
    nearest_multiple(n, bit_weight(n, 1))
}

/// `n / d` in tenths, rounded to the nearest, to the even one of two.
pub open spec fn tenths(n: int, d: int) -> int {
    let q = (10 * n) / d;
    let r = (10 * n) % d;
    if 2 * r > d || (2 * r == d && q % 2 == 1) {
        q + 1
    } else {
        q
    }
}

/// A number of tenths with one decimal place.
pub open spec fn one_decimal(t: int) -> Seq<char> {
    decimal((t / 10) as nat) + "."@ + decimal((t % 10) as nat)
}

/// The size of a file for the reader: in bytes below 1 KiB, and else in KiB or
/// MiB with one decimal place.
pub open spec fn size_label(size: u64) -> Seq<char> {
    if size < 1024 {
        decimal(size as nat) + " B"@
    } else if size < 1024 * 1024 {
        one_decimal(tenths(size as int, 1024)) + " KB"@
    } else {
        one_decimal(tenths(double_precision(size as int), 0x10_0000)) + " MB"@
    }
}

/// Rounds to double precision.
fn round_to_double(n: u64) -> (r: u128)
    ensures
        r == double_precision(n as int),
        r <= 2 * 0x1_0000_0000_0000_0000,
{
    let mut unit: u128 = 1;
    while n as u128 / unit >= 0x20_0000_0000_0000
        invariant
            1 <= unit <= 0x1000,
            bit_weight(n as int, 1) == bit_weight(n as int, unit as int),
        decreases n as u128 / unit,
    {
        proof {
            assert(n >= 0x20_0000_0000_0000 * unit) by (nonlinear_arith)
                requires
                    n as int / unit as int >= 0x20_0000_0000_0000,
                    unit >= 1,
            ;
            assert(unit < 0x1000) by (nonlinear_arith)
                requires
                    n >= 0x20_0000_0000_0000 * unit,
                    n <= u64::MAX,
            ;
            assert(n as int / (2 * unit) < n as int / unit as int) by (nonlinear_arith)
                requires
                    n >= 0x20_0000_0000_0000 * unit,
                    unit >= 1,
            ;
            lemma_unit_bound(n, unit);
        }
        unit = 2 * unit;
    }
    proof {
        assert(n < 0x20_0000_0000_0000 * unit) by (nonlinear_arith)
            requires
                n as int / (unit as int) < 0x20_0000_0000_0000,
                unit >= 1,
        ;
    }
    let q: u128 = n as u128 / unit;
    let r: u128 = n as u128 % unit;
    proof {
        assert(q * unit <= n) by (nonlinear_arith)
            requires
                q == n as int / unit as int,
                unit >= 1,
        ;
        assert((q + 1) * unit == q * unit + unit) by (nonlinear_arith);
    }
    if 2 * r > unit || (2 * r == unit && q % 2 == 1) {
        (q + 1) * unit
    } else {
        q * unit
    }
}

proof fn lemma_unit_bound(n: u64, unit: u128)
    requires
        n >= 0x20_0000_0000_0000 * unit,
        unit >= 1,
    ensures
        2 * unit <= 0x1000,
{
    assert(2 * unit <= 0x1000) by (nonlinear_arith)
        requires
            n >= 0x20_0000_0000_0000 * unit,
            n <= u64::MAX,
            unit >= 1,
    ;
}

/// Divides into tenths.
fn to_tenths(n: u128, d: u128) -> (t: u64)
    requires
        n <= 2 * 0x1_0000_0000_0000_0000,
        1024 <= d,
    ensures
        t == tenths(n as int, d as int),
{
    let q: u128 = (10 * n) / d;
    let r: u128 = (10 * n) % d;
    assert(q <= 20 * 0x1_0000_0000_0000_0000 / 1024) by (nonlinear_arith)
        requires
            q == (10 * n) / (d as int),
            n <= 2 * 0x1_0000_0000_0000_0000,
            1024 <= d,
    ;
    assert(r < d);
    if r > d - r || (r == d - r && q % 2 == 1) {
        (q + 1) as u64
    } else {
        q as u64
    }
}

/// Writes a number of tenths.
fn one_decimal_text(t: u64) -> (r: String)
    ensures
        r@ == one_decimal(t as int),
{
    decimal_text(t / 10).concat(".").concat(decimal_text(t % 10).as_str())
}

/// Writes the size of a file.
pub fn size_text(size: u64) -> (r: String)
    ensures
        r@ == size_label(size),
{
    if size < 1024 {
        decimal_text(size).concat(" B")
    } else if size < 1024 * 1024 {
        one_decimal_text(to_tenths(size as u128, 1024)).concat(" KB")
    } else {
        one_decimal_text(to_tenths(round_to_double(size), 1024 * 1024)).concat(" MB")
    }
}

// ---------------------------------------------------------------------------
// Order
// ---------------------------------------------------------------------------

/// `a` goes behind `b`: directories come first, then the names in order without
/// regard to case.
pub open spec fn goes_after(a: EntryView, b: EntryView) -> bool {
    (b.is_dir && !a.is_dir) || (a.is_dir == b.is_dir && precedes(
        lowercase(b.name),
        lowercase(a.name),
    ))
}

/// An ordered list with one more entry, behind all that do not go after it.
pub open spec fn inserted(list: Seq<EntryView>, e: EntryView) -> Seq<EntryView>
    decreases list.len(),
{
    if list.len() > 0 && goes_after(list.last(), e) {
        inserted(list.drop_last(), e).push(list.last())
    } else {
        list.push(e)
    }
}

/// The entries in the order of the listing.
pub open spec fn ordered(entries: Seq<EntryView>) -> Seq<EntryView>
    decreases entries.len(),
{
    if entries.len() == 0 {
        Seq::empty()
    } else {
        inserted(ordered(entries.drop_last()), entries.last())
    }
}

/// Nothing goes after what follows it.
pub open spec fn is_ordered(list: Seq<EntryView>) -> bool {
    forall|i: int, j: int|
        0 <= i < j < list.len() ==> !goes_after(#[trigger] list[i], #[trigger] list[j])
}

/// Two entries that the order does not tell apart.
pub open spec fn same_rank(a: EntryView, b: EntryView) -> bool {
    a.is_dir == b.is_dir && lowercase(a.name) == lowercase(b.name)
}

proof fn lemma_not_after_transitive(a: EntryView, b: EntryView, c: EntryView)
    requires
        !goes_after(a, b),
        !goes_after(b, c),
    ensures
        !goes_after(a, c),
{
    let x = lowercase(a.name);
    let y = lowercase(b.name);
    let z = lowercase(c.name);
    if goes_after(a, c) {
        lemma_precedes_total(x, y);
        lemma_precedes_total(y, z);
        lemma_precedes_irreflexive(x);
        lemma_precedes_irreflexive(y);
        if a.is_dir == c.is_dir && a.is_dir == b.is_dir {
            if precedes(x, y) && precedes(y, z) {
                lemma_precedes_transitive(x, y, z);
            }
            if precedes(x, z) {
                lemma_precedes_transitive(x, z, x);
            }
        }
    }
}

proof fn lemma_after_asymmetric(a: EntryView, b: EntryView)
    requires
        goes_after(a, b),
    ensures
        !goes_after(b, a),
{
    let x = lowercase(a.name);
    let y = lowercase(b.name);
    lemma_precedes_irreflexive(x);
    if a.is_dir == b.is_dir && precedes(x, y) {
        lemma_precedes_transitive(x, y, x);
    }
}

proof fn lemma_inserted_members(list: Seq<EntryView>, e: EntryView)
    ensures
        inserted(list, e).len() == list.len() + 1,
        forall|i: int|
            0 <= i < inserted(list, e).len() ==> #[trigger] inserted(list, e)[i] == e
                || list.contains(inserted(list, e)[i]),
    decreases list.len(),
{
    let r = inserted(list, e);
    if list.len() > 0 && goes_after(list.last(), e) {
        let front = list.drop_last();
        lemma_inserted_members(front, e);
        assert forall|i: int| 0 <= i < r.len() implies #[trigger] r[i] == e || list.contains(
            r[i],
        ) by {
            if i < r.len() - 1 {
                assert(r[i] == inserted(front, e)[i]);
                if r[i] != e {
                    let k = front.index_of(r[i]);
                    assert(list[k] == r[i]);
                }
            } else {
                assert(list[list.len() - 1] == r[i]);
            }
        }
    } else {
        assert forall|i: int| 0 <= i < r.len() implies #[trigger] r[i] == e || list.contains(
            r[i],
        ) by {
            if i < list.len() {
                assert(list[i] == r[i]);
            }
        }
    }
}

proof fn lemma_inserted_is_ordered(list: Seq<EntryView>, e: EntryView)
    requires
        is_ordered(list),
    ensures
        is_ordered(inserted(list, e)),
    decreases list.len(),
{
    let r = inserted(list, e);
    if list.len() > 0 && goes_after(list.last(), e) {
        let front = list.drop_last();
        assert(is_ordered(front)) by {
            assert forall|i: int, j: int| 0 <= i < j < front.len() implies !goes_after(
                #[trigger] front[i],
                #[trigger] front[j],
            ) by {
                assert(!goes_after(list[i], list[j]));
            }
        }
        let q = inserted(front, e);
        lemma_inserted_is_ordered(front, e);
        lemma_inserted_members(front, e);
        lemma_after_asymmetric(list.last(), e);
        assert forall|i: int, j: int| 0 <= i < j < r.len() implies !goes_after(
            #[trigger] r[i],
            #[trigger] r[j],
        ) by {
            assert(r[i] == q[i]);
            if j < q.len() {
                assert(r[j] == q[j]);
            } else if q[i] != e {
                let k = front.index_of(q[i]);
                assert(!goes_after(list[k], list[list.len() - 1]));
            }
        }
    } else {
        assert forall|i: int, j: int| 0 <= i < j < r.len() implies !goes_after(
            #[trigger] r[i],
            #[trigger] r[j],
        ) by {
            assert(r[i] == list[i]);
            if j < list.len() {
                assert(r[j] == list[j]);
            } else if i < list.len() - 1 {
                assert(!goes_after(list[i], list[list.len() - 1]));
                lemma_not_after_transitive(list[i], list.last(), e);
            }
        }
    }
}

/// A listing is in order: directories first, then by name without regard to
/// case.
pub proof fn law_listing_is_in_order(entries: Seq<EntryView>)
    ensures
        is_ordered(ordered(entries)),
    decreases entries.len(),
{
    if entries.len() > 0 {
        law_listing_is_in_order(entries.drop_last());
        lemma_inserted_is_ordered(ordered(entries.drop_last()), entries.last());
    }
}

proof fn lemma_inserted_multiset(list: Seq<EntryView>, e: EntryView)
    ensures
        inserted(list, e).to_multiset() == list.to_multiset().insert(e),
    decreases list.len(),
{
    broadcast use vstd::seq_lib::group_to_multiset_ensures;

    if list.len() > 0 && goes_after(list.last(), e) {
        let front = list.drop_last();
        lemma_inserted_multiset(front, e);
        assert(list =~= front.push(list.last()));
        assert(inserted(list, e).to_multiset() =~= list.to_multiset().insert(e));
    }
}

/// A listing has the entries of the directory, each as often as it is there.
pub proof fn law_listing_is_complete(entries: Seq<EntryView>)
    ensures
        ordered(entries).to_multiset() == entries.to_multiset(),
    decreases entries.len(),
{
    broadcast use vstd::seq_lib::group_to_multiset_ensures;

    if entries.len() > 0 {
        let front = entries.drop_last();
        law_listing_is_complete(front);
        lemma_inserted_multiset(ordered(front), entries.last());
        assert(entries =~= front.push(entries.last()));
    } else {
        assert(ordered(entries) =~= entries);
    }
}

/// Those entries of `list` that the order does not tell from `k`.
pub open spec fn of_rank(list: Seq<EntryView>, k: EntryView) -> Seq<EntryView>
    decreases list.len(),
{
    if list.len() == 0 {
        Seq::empty()
    } else {
        let front = of_rank(list.drop_last(), k);
        if same_rank(list.last(), k) {
            front.push(list.last())
        } else {
            front
        }
    }
}

proof fn lemma_inserted_keeps_rank(list: Seq<EntryView>, e: EntryView, k: EntryView)
    ensures
        of_rank(inserted(list, e), k) == of_rank(list.push(e), k),
    decreases list.len(),
{
    assert(list.push(e).drop_last() =~= list);
    if list.len() > 0 && goes_after(list.last(), e) {
        let front = list.drop_last();
        let last = list.last();
        lemma_inserted_keeps_rank(front, e, k);
        assert(inserted(list, e).drop_last() =~= inserted(front, e));
        assert(front.push(e).drop_last() =~= front);
        lemma_precedes_irreflexive(lowercase(e.name));
        assert(!(same_rank(last, k) && same_rank(e, k)));
        let r = inserted(list, e);
        assert(r.last() == last);
        assert(list.push(e).last() == e);
        assert(front.push(e).last() == e);
        assert(of_rank(list, k) == if same_rank(last, k) {
            of_rank(front, k).push(last)
        } else {
            of_rank(front, k)
        });
        assert(of_rank(r, k) == if same_rank(last, k) {
            of_rank(front.push(e), k).push(last)
        } else {
            of_rank(front.push(e), k)
        });
    }
}

/// Entries that the order does not tell apart stand as they came.
pub proof fn law_listing_is_stable(entries: Seq<EntryView>, k: EntryView)
    ensures
        of_rank(ordered(entries), k) == of_rank(entries, k),
    decreases entries.len(),
{
    if entries.len() > 0 {
        let front = entries.drop_last();
        let e = entries.last();
        law_listing_is_stable(front, k);
        lemma_inserted_keeps_rank(ordered(front), e, k);
        assert(ordered(front).push(e).drop_last() =~= ordered(front));
    }
}

/// Inserting `e` at `j`, where all from `j` on go after it and the one before
/// does not.
proof fn lemma_inserted_at(list: Seq<EntryView>, e: EntryView, j: int)
    requires
        0 <= j <= list.len(),
        forall|k: int| j <= k < list.len() ==> goes_after(#[trigger] list[k], e),
        j > 0 ==> !goes_after(list[j - 1], e),
    ensures
        inserted(list, e) == list.insert(j, e),
    decreases list.len(),
{
    if j < list.len() {
        let front = list.drop_last();
        assert forall|k: int| j <= k < front.len() implies goes_after(#[trigger] front[k], e) by {
            assert(front[k] == list[k]);
        }
        lemma_inserted_at(front, e, j);
        assert(list.insert(j, e) =~= front.insert(j, e).push(list.last()));
    } else {
        assert(list.insert(j, e) =~= list.push(e));
    }
}

/// Views the entries at some indices.
spec fn at_indices(entries: Seq<ListingEntry>, order: Seq<usize>) -> Seq<EntryView> {
    Seq::new(order.len(), |i: int| entries[order[i] as int]@)
}

/// Whether `a` goes after `b`, whose names in lower case are given.
fn is_after(a: &ListingEntry, a_key: &str, b: &ListingEntry, b_key: &str) -> (r: bool)
    requires
        a_key@ == lowercase(a.name@),
        b_key@ == lowercase(b.name@),
    ensures
        r == goes_after(a@, b@),
{
    (b.is_dir && !a.is_dir) || (a.is_dir == b.is_dir && text_precedes(b_key, a_key))
}

/// The indices of the entries in the order of the listing.
fn listing_order(entries: &Vec<ListingEntry>) -> (order: Vec<usize>)
    ensures
        forall|i: int| 0 <= i < order@.len() ==> (#[trigger] order@[i]) < entries@.len(),
        at_indices(entries@, order@) == ordered(entry_views(entries@)),
{
    let mut keys: Vec<String> = Vec::new();
    let mut order: Vec<usize> = Vec::new();
    let mut i: usize = 0;
    let ghost views = entry_views(entries@);
    assert(views.take(0) =~= Seq::empty());
    assert(at_indices(entries@, order@) =~= Seq::empty());
    while i < entries.len()
        invariant
            i <= entries@.len(),
            views == entry_views(entries@),
            keys@.len() == i,
            forall|k: int| 0 <= k < i ==> (#[trigger] keys@[k])@ == lowercase(entries@[k].name@),
            order@.len() == i,
            forall|k: int| 0 <= k < order@.len() ==> (#[trigger] order@[k]) < i,
            at_indices(entries@, order@) == ordered(views.take(i as int)),
        decreases entries.len() - i,
    {
        keys.push(lower_text(entries[i].name.as_str()));
        let ghost list = at_indices(entries@, order@);
        let ghost e = entries@[i as int]@;
        let mut j: usize = order.len();
        while j > 0 && is_after(
            &entries[order[j - 1]],
            keys[order[j - 1]].as_str(),
            &entries[i],
            keys[i].as_str(),
        )
            invariant
                i < entries@.len(),
                keys@.len() == i + 1,
                forall|k: int|
                    0 <= k <= i ==> (#[trigger] keys@[k])@ == lowercase(entries@[k].name@),
                order@.len() == i,
                forall|k: int| 0 <= k < order@.len() ==> (#[trigger] order@[k]) < i,
                list == at_indices(entries@, order@),
                e == entries@[i as int]@,
                j <= order@.len(),
                forall|k: int| j <= k < list.len() ==> goes_after(#[trigger] list[k], e),
            decreases j,
        {
            assert(goes_after(list[j - 1], e));
            j = j - 1;
        }
        let ghost before = order@;
        order.insert(j, i);
        proof {
            lemma_inserted_at(list, e, j as int);
            assert(at_indices(entries@, order@) =~= list.insert(j as int, e));
            assert(views.take(i + 1).drop_last() =~= views.take(i as int));
            assert forall|k: int| 0 <= k < order@.len() implies (#[trigger] order@[k]) < i + 1 by {
                if k < j {
                    assert(order@[k] == before[k]);
                } else if k > j {
                    assert(order@[k] == before[k - 1]);
                }
            }
        }
        i = i + 1;
    }
    assert(views.take(views.len() as int) =~= views);
    order
}

// ---------------------------------------------------------------------------
// The page
// ---------------------------------------------------------------------------

/// The path that a listing is titled with.
pub open spec fn listing_title(rel_dir: Seq<char>) -> Seq<char> {
    "/"@ + rel_dir
}

/// What stands before the rows.
pub open spec fn page_head(rel_dir: Seq<char>) -> Seq<char> {
    let top = "<!DOCTYPE html>\n<html><head><meta charset=\"utf-8\"><title>Index of "@
        + listing_title(rel_dir) + "</title><style>"@
        + "body{font-family:system-ui,sans-serif;margin:1.5em;max-width:60em}"@
        + "table{border-collapse:collapse;width:100%}"@
        + "th,td{padding:0.3em 0.6em;text-align:left;border-bottom:1px solid #eee}"@
        + "a{text-decoration:none;color:#04c}a:hover{text-decoration:underline}"@
        + ".size{text-align:right;font-variant-numeric:tabular-nums;color:#888}"@
        + "</style></head><body><h1>Index of "@ + listing_title(rel_dir) + "</h1>"@
        + "<table><thead><tr><th>Name</th><th class=\"size\">Size</th></tr></thead><tbody>"@;
    if rel_dir.len() == 0 {
        top
    } else {
        top + "<tr><td><a href=\"../\">../</a></td><td class=\"size\">\u{2014}</td></tr>"@
    }
}

/// What stands behind the rows.
pub open spec fn page_foot() -> Seq<char> {
    "</tbody></table></body></html>"@
}

/// The row of one entry.
pub open spec fn page_row(rel_dir: Seq<char>, e: EntryView) -> Seq<char> {
    "<tr><td><a href=\""@ + escaped(child_link(rel_dir, e)) + "\">"@ + escaped(
        if e.is_dir {
            e.name + "/"@
        } else {
            e.name
        },
    ) + "</a></td><td class=\"size\">"@ + (if e.is_dir {
        "\u{2014}"@
    } else {
        size_label(e.size)
    }) + "</td></tr>"@
}

/// The rows of a list of entries.
pub open spec fn page_rows(rel_dir: Seq<char>, list: Seq<EntryView>) -> Seq<char>
    decreases list.len(),
{
    if list.len() == 0 {
        Seq::empty()
    } else {
        page_rows(rel_dir, list.drop_last()) + page_row(rel_dir, list.last())
    }
}

/// The listing of the directory `rel_dir` below the root, with a link to the
/// parent unless it is the root itself.
pub open spec fn listing_page(rel_dir: Seq<char>, entries: Seq<EntryView>) -> Seq<char> {
    page_head(rel_dir) + page_rows(rel_dir, ordered(entries)) + page_foot()
}

/// Writes what stands before the rows.
fn head_text(rel_dir: &str) -> (r: String)
    ensures
        r@ == page_head(rel_dir@),
{
    let title = "/".to_owned().concat(rel_dir);
    let top = "<!DOCTYPE html>\n<html><head><meta charset=\"utf-8\"><title>Index of ".to_owned()
        .concat(title.as_str())
        .concat("</title><style>")
        .concat("body{font-family:system-ui,sans-serif;margin:1.5em;max-width:60em}")
        .concat("table{border-collapse:collapse;width:100%}")
        .concat("th,td{padding:0.3em 0.6em;text-align:left;border-bottom:1px solid #eee}")
        .concat("a{text-decoration:none;color:#04c}a:hover{text-decoration:underline}")
        .concat(".size{text-align:right;font-variant-numeric:tabular-nums;color:#888}")
        .concat("</style></head><body><h1>Index of ")
        .concat(title.as_str())
        .concat("</h1>")
        .concat("<table><thead><tr><th>Name</th><th class=\"size\">Size</th></tr></thead><tbody>");
    if rel_dir.is_empty() {
        top
    } else {
        top.concat(
            "<tr><td><a href=\"../\">../</a></td><td class=\"size\">\u{2014}</td></tr>",
        )
    }
}

/// Writes the row of one entry.
fn row_text(rel_dir: &str, e: &ListingEntry) -> (r: String)
    ensures
        r@ == page_row(rel_dir@, e@),
{
    let link = html_escape(link_text(rel_dir, e).as_str());
    let name = if e.is_dir {
        html_escape(e.name.clone().concat("/").as_str())
    } else {
        html_escape(e.name.as_str())
    };
    let size = if e.is_dir {
        "\u{2014}".to_owned()
    } else {
        size_text(e.size)
    };
    "<tr><td><a href=\"".to_owned().concat(link.as_str()).concat("\">").concat(name.as_str()).concat(
        "</a></td><td class=\"size\">",
    ).concat(size.as_str()).concat("</td></tr>")
}

/// Renders the listing of the directory `rel_dir` below the root.
pub fn render_directory_listing(rel_dir: &str, entries: &Vec<ListingEntry>) -> (page: String)
    ensures
        page@ == listing_page(rel_dir@, entry_views(entries@)),
{
    let order = listing_order(entries);
    let ghost list = at_indices(entries@, order@);
    let mut page = head_text(rel_dir);
    let ghost head = page@;
    let mut i: usize = 0;
    assert(list.take(0) =~= Seq::empty());
    assert(page@ =~= head + page_rows(rel_dir@, list.take(0)));
    while i < order.len()
        invariant
            i <= order@.len(),
            list == at_indices(entries@, order@),
            forall|k: int| 0 <= k < order@.len() ==> (#[trigger] order@[k]) < entries@.len(),
            page@ == head + page_rows(rel_dir@, list.take(i as int)),
        decreases order.len() - i,
    {
        let ghost before = page@;
        let row = row_text(rel_dir, &entries[order[i]]);
        page.append(row.as_str());
        proof {
            assert(list.take(i + 1).drop_last() =~= list.take(i as int));
            assert(list.take(i + 1).last() == entries@[order@[i as int] as int]@);
            assert(page@ =~= head + page_rows(rel_dir@, list.take(i + 1)));
        }
        i = i + 1;
    }
    assert(list.take(list.len() as int) =~= list);
    page.append("</tbody></table></body></html>");
    page
}

/// Escaping goes character by character; the five characters that matter to HTML become
/// entities, and any other stays.
pub proof fn law_escaping_goes_by_characters(a: Seq<char>, b: Seq<char>, c: char)
    ensures
        escaped(a + b) == escaped(a) + escaped(b),
        escaped(seq!['&']) == "&amp;"@,
        escaped(seq!['<']) == "&lt;"@,
        escaped(seq!['>']) == "&gt;"@,
        escaped(seq!['"']) == "&quot;"@,
        escaped(seq!['\'']) == "&#39;"@,
        c != '&' && c != '<' && c != '>' && c != '"' && c != '\'' ==> escaped(seq![c]) == seq![c],
    decreases b.len(),
{
    if b.len() > 0 {
        law_escaping_goes_by_characters(a, b.drop_last(), c);
        assert((a + b).drop_last() =~= a + b.drop_last());
        assert((a + b).last() == b.last());
        assert(escaped(a + b) =~= escaped(a) + escaped(b));
    } else {
        assert(a + b =~= a);
        assert(escaped(a + b) =~= escaped(a) + escaped(b));
    }
    lemma_escaped_one('&');
    lemma_escaped_one('<');
    lemma_escaped_one('>');
    lemma_escaped_one('"');
    lemma_escaped_one('\'');
    lemma_escaped_one(c);
}

proof fn lemma_escaped_one(c: char)
    ensures
        escaped(seq![c]) == escaped_char(c),
{
    reveal_with_fuel(escaped, 2);
    assert(seq![c].drop_last() =~= Seq::empty());
    assert(Seq::empty() + escaped_char(c) =~= escaped_char(c));
}

proof fn lemma_no_dots_to_strip(s: Seq<char>)
    requires
        forall|i: int| 0 <= i < s.len() - 1 ==> !(#[trigger] s[i] == '.' && s[i + 1] == '.'),
    ensures
        without_dot_dot(s) == s,
    decreases s.len(),
{
    if s.len() > 0 {
        assert forall|i: int| 0 <= i < s.skip(1).len() - 1 implies !(#[trigger] s.skip(1)[i] == '.'
            && s.skip(1)[i + 1] == '.') by {
            assert(s.skip(1)[i] == s[i + 1] && s.skip(1)[i + 1] == s[i + 2]);
        }
        lemma_no_dots_to_strip(s.skip(1));
        assert(seq![s[0]] + s.skip(1) =~= s);
    }
}

/// The link to a child is its path below the root: the directory's, a slash and the
/// name, and a slash behind a directory. Only pairs of dots are taken out.
pub proof fn law_links_lead_to_the_child(
    dir: Seq<char>,
    e: EntryView,
    link: Seq<char>,
    a: Seq<char>,
    b: Seq<char>,
)
    requires
        forall|i: int| 0 <= i < link.len() - 1 ==> !(#[trigger] link[i] == '.' && link[i + 1] == '.'),
        forall|i: int| 0 <= i < a.len() ==> #[trigger] a[i] != '.',
    ensures
        dir.len() == 0 && !e.is_dir && link == e.name ==> child_link(dir, e) == link,
        dir.len() == 0 && e.is_dir && link == e.name + seq!['/'] ==> child_link(dir, e) == link,
        dir.len() > 0 && !e.is_dir && link == dir + seq!['/'] + e.name ==> child_link(dir, e)
            == link,
        dir.len() > 0 && e.is_dir && link == dir + seq!['/'] + e.name + seq!['/'] ==> child_link(
            dir,
            e,
        ) == link,
        without_dot_dot(a + seq!['.', '.'] + b) == a + without_dot_dot(b),
{
    reveal_strlit("/");
    assert("/"@ =~= seq!['/']);
    lemma_no_dots_to_strip(link);
    lemma_dots_are_stripped(a, b);
}

proof fn lemma_dots_are_stripped(a: Seq<char>, b: Seq<char>)
    requires
        forall|i: int| 0 <= i < a.len() ==> #[trigger] a[i] != '.',
    ensures
        without_dot_dot(a + seq!['.', '.'] + b) == a + without_dot_dot(b),
    decreases a.len(),
{
    let s = a + seq!['.', '.'] + b;
    if a.len() == 0 {
        assert(s.skip(2) =~= b);
        assert(a + without_dot_dot(b) =~= without_dot_dot(b));
    } else {
        assert(s[0] == a[0]);
        let t = a.skip(1);
        assert forall|i: int| 0 <= i < t.len() implies #[trigger] t[i] != '.' by {
            assert(t[i] == a[i + 1]);
        }
        assert(s.skip(1) =~= t + seq!['.', '.'] + b);
        lemma_dots_are_stripped(t, b);
        assert(seq![a[0]] + (t + without_dot_dot(b)) =~= a + without_dot_dot(b));
    }
}

proof fn lemma_bit_weight(n: int, unit: int)
    requires
        unit > 0,
        n >= 0,
    ensures
        bit_weight(n, unit) >= unit,
        n < 0x20_0000_0000_0000 * bit_weight(n, unit),
        bit_weight(n, unit) == unit || n >= 0x10_0000_0000_0000 * bit_weight(n, unit),
    decreases n / unit,
{
    if n >= 0x20_0000_0000_0000 * unit {
        assert(n / (2 * unit) < n / unit) by (nonlinear_arith)
            requires
                n >= 0x20_0000_0000_0000 * unit,
                unit > 0,
        ;
        assert(n / (2 * unit) >= 0) by (nonlinear_arith)
            requires
                n >= 0x20_0000_0000_0000 * unit,
                unit > 0,
        ;
        lemma_bit_weight(n, 2 * unit);
    }
}

proof fn lemma_nearest_multiple(n: int, unit: int)
    by (nonlinear_arith)
    requires
        unit > 0,
        n >= 0,
    ensures
        -unit <= 2 * (nearest_multiple(n, unit) - n) <= unit,
        unit == 1 ==> nearest_multiple(n, unit) == n,
{
    let q = n / unit;
    let r = n % unit;
    assert(n == q * unit + r);
    assert((q + 1) * unit == q * unit + unit);
}

/// The size that is shown is right: the bytes themselves below 1 KiB, else KiB below
/// 1 MiB and MiB from there on, in tenths that are off by half a tenth at most, which
/// double precision makes a little more from 2^53 bytes on.
pub proof fn law_sizes_are_right(size: u64)
    ensures
        size < 1024 ==> size_label(size) == decimal(size as nat) + " B"@,
        1024 <= size < 0x10_0000 ==> exists|t: int|
            size_label(size) == #[trigger] one_decimal(t) + " KB"@ && t >= 0 && -512 <= 1024 * t - 10
                * size <= 512,
        0x10_0000 <= size < 0x20_0000_0000_0000 ==> exists|t: int|
            size_label(size) == #[trigger] one_decimal(t) + " MB"@ && t >= 0 && -0x8_0000
                <= 0x10_0000 * t - 10 * size <= 0x8_0000,
        size >= 0x20_0000_0000_0000 ==> exists|t: int, m: int|
            #![trigger one_decimal(t), nearest_multiple(m, 1)]
            size_label(size) == one_decimal(t) + " MB"@ && t >= 0 && -0x8_0000 <= 0x10_0000 * t - 10
                * m <= 0x8_0000 && -(size as int) <= 0x20_0000_0000_0000 * (m - size) <= size,
        forall|whole: nat, tenth: nat|
            tenth < 10 ==> #[trigger] one_decimal((10 * whole + tenth) as int) == decimal(whole)
                + "."@ + decimal(tenth),
{
    let n = size as int;
    lemma_bit_weight(n, 1);
    let unit = bit_weight(n, 1);
    lemma_nearest_multiple(n, unit);
    let m = double_precision(n);
    lemma_nearest_multiple(m, 1);
    if size >= 0x20_0000_0000_0000 {
        assert(0x20_0000_0000_0000 * (m - n) <= n && -n <= 0x20_0000_0000_0000 * (m - n))
            by (nonlinear_arith)
            requires
                -unit <= 2 * (m - n) <= unit,
                n >= 0x10_0000_0000_0000 * unit,
        ;
    }
    if 1024 <= size < 0x10_0000 {
        assert(size_label(size) == one_decimal(tenths(n, 1024)) + " KB"@);
    }
    if size >= 0x10_0000 {
        assert(m >= 0);
        assert(size_label(size) == one_decimal(tenths(m, 0x10_0000)) + " MB"@);
        assert(-0x8_0000 <= 0x10_0000 * tenths(m, 0x10_0000) - 10 * m <= 0x8_0000);
        assert(nearest_multiple(m, 1) == m);
    }
    assert forall|whole: nat, tenth: nat| tenth < 10 implies #[trigger] one_decimal(
        (10 * whole + tenth) as int,
    ) == decimal(whole) + "."@ + decimal(tenth) by {
        assert((10 * whole + tenth) / 10 == whole);
        assert((10 * whole + tenth) % 10 == tenth);
    }
}

proof fn lemma_row_is_there(dir: Seq<char>, list: Seq<EntryView>, i: int)
    requires
        0 <= i < list.len(),
    ensures
        page_rows(dir, list) == page_rows(dir, list.take(i)) + page_row(dir, list[i]) + page_rows(
            dir,
            list.skip(i + 1),
        ),
    decreases list.len(),
{
    let last = list.len() - 1;
    let front = list.drop_last();
    if i == last {
        assert(list.take(i) =~= front);
        assert(list.skip(i + 1) =~= Seq::empty());
        assert(page_rows(dir, list.skip(i + 1)) =~= Seq::empty());
    } else {
        lemma_row_is_there(dir, front, i);
        assert(front.take(i) =~= list.take(i));
        assert(front.skip(i + 1) =~= list.skip(i + 1).drop_last());
        assert(list.skip(i + 1).last() == list.last());
        assert(page_rows(dir, list) =~= page_rows(dir, list.take(i)) + page_row(dir, list[i])
            + page_rows(dir, list.skip(i + 1)));
    }
}

/// A page has a row for every child, with a link, the name, marked by a slash where it
/// is a directory, and the size of a file, both escaped.
pub proof fn law_every_child_has_a_row(dir: Seq<char>, entries: Seq<EntryView>, e: EntryView)
    requires
        entries.contains(e),
    ensures
        e.is_dir ==> crate::text::contains_seq(
            listing_page(dir, entries),
            "<tr><td><a href=\""@ + escaped(child_link(dir, e)) + "\">"@ + escaped(e.name + "/"@)
                + "</a></td><td class=\"size\">"@ + "\u{2014}"@ + "</td></tr>"@,
        ),
        !e.is_dir ==> crate::text::contains_seq(
            listing_page(dir, entries),
            "<tr><td><a href=\""@ + escaped(child_link(dir, e)) + "\">"@ + escaped(e.name)
                + "</a></td><td class=\"size\">"@ + size_label(e.size) + "</td></tr>"@,
        ),
{
    broadcast use vstd::seq_lib::group_to_multiset_ensures;

    let list = ordered(entries);
    law_listing_is_complete(entries);
    assert(entries.to_multiset().count(e) > 0);
    assert(list.contains(e));
    let i = list.index_of(e);
    assert(list[i] == e);
    lemma_row_is_there(dir, list, i);
    let page = listing_page(dir, entries);
    let a = page_head(dir) + page_rows(dir, list.take(i));
    let b = page_rows(dir, list.skip(i + 1)) + page_foot();
    let row = page_row(dir, e);
    assert(page =~= a + row + b);
    crate::text::law_containing_is_splitting(page, row);
}

/// A page has one row per child, in the order of the listing, between its head and its
/// foot; the head is titled with the directory's path, and only below the root does it
/// end with a row that leads to the parent.
pub proof fn law_page_has_its_parts(dir: Seq<char>, list: Seq<EntryView>, e: EntryView)
    ensures
        page_rows(dir, Seq::<EntryView>::empty()).len() == 0,
        page_rows(dir, list.push(e)) == page_rows(dir, list) + page_row(dir, e),
        listing_page(dir, list) == page_head(dir) + page_rows(dir, ordered(list))
            + "</tbody></table></body></html>"@,
        crate::text::contains_seq(page_head(dir), "<title>Index of "@ + ("/"@ + dir) + "</title>"@),
        crate::text::contains_seq(page_head(dir), "<h1>Index of "@ + ("/"@ + dir) + "</h1>"@),
        exists|top: Seq<char>|
            page_head(dir) == #[trigger] (top
                + "<table><thead><tr><th>Name</th><th class=\"size\">Size</th></tr></thead><tbody>"@)
                + if dir.len() == 0 {
                Seq::<char>::empty()
            } else {
                "<tr><td><a href=\"../\">../</a></td><td class=\"size\">\u{2014}</td></tr>"@
            },
{
    assert(list.push(e).drop_last() =~= list);
    let title = "/"@ + dir;
    let lead = "<!DOCTYPE html>\n<html><head><meta charset=\"utf-8\"><title>Index of "@;
    let mid = "</title><style>"@;
    let css = "body{font-family:system-ui,sans-serif;margin:1.5em;max-width:60em}"@
        + "table{border-collapse:collapse;width:100%}"@
        + "th,td{padding:0.3em 0.6em;text-align:left;border-bottom:1px solid #eee}"@
        + "a{text-decoration:none;color:#04c}a:hover{text-decoration:underline}"@
        + ".size{text-align:right;font-variant-numeric:tabular-nums;color:#888}"@;
    let body = "</style></head><body><h1>Index of "@;
    let table = "<table><thead><tr><th>Name</th><th class=\"size\">Size</th></tr></thead><tbody>"@;
    let tail = if dir.len() == 0 {
        Seq::<char>::empty()
    } else {
        "<tr><td><a href=\"../\">../</a></td><td class=\"size\">\u{2014}</td></tr>"@
    };
    let top = lead + title + mid + css + body + title + "</h1>"@;
    assert(page_head(dir) =~= (top + table) + tail);
    reveal_strlit("<!DOCTYPE html>\n<html><head><meta charset=\"utf-8\"><title>Index of ");
    reveal_strlit("<title>Index of ");
    reveal_strlit("</title><style>");
    reveal_strlit("</title>");
    reveal_strlit("</style></head><body><h1>Index of ");
    reveal_strlit("<h1>Index of ");
    let open = "<title>Index of "@;
    let close = "</title>"@;
    let k = lead.len() - open.len();
    assert(lead =~= lead.take(k) + open);
    assert(mid =~= close + mid.skip(close.len() as int));
    let needle = open + title + close;
    let after = mid.skip(close.len() as int) + css + body + title + "</h1>"@ + table + tail;
    assert(page_head(dir) =~= lead.take(k) + needle + after);
    crate::text::law_containing_is_splitting(page_head(dir), needle);
    let open2 = "<h1>Index of "@;
    let k2 = body.len() - open2.len();
    assert(body =~= body.take(k2) + open2);
    let needle2 = open2 + title + "</h1>"@;
    let before2 = lead + title + mid + css + body.take(k2);
    assert(page_head(dir) =~= before2 + needle2 + (table + tail));
    crate::text::law_containing_is_splitting(page_head(dir), needle2);
}

/// A listing has its directories before its files, and each of both by name without
/// regard to case.
pub proof fn law_directories_come_first(entries: Seq<EntryView>, i: int, j: int)
    requires
        0 <= i < j < ordered(entries).len(),
    ensures
        ordered(entries)[j].is_dir ==> ordered(entries)[i].is_dir,
        ordered(entries)[i].is_dir == ordered(entries)[j].is_dir ==> !precedes(
            lowercase(ordered(entries)[j].name),
            lowercase(ordered(entries)[i].name),
        ),
{
    law_listing_is_in_order(entries);
    assert(!goes_after(ordered(entries)[i], ordered(entries)[j]));
}

/// Entries that differ neither in kind nor, case aside, in name are those that stand as
/// they came.
pub proof fn law_ranks_are_kind_and_name(list: Seq<EntryView>, e: EntryView, k: EntryView)
    ensures
        of_rank(Seq::<EntryView>::empty(), k).len() == 0,
        e.is_dir == k.is_dir && lowercase(e.name) == lowercase(k.name) ==> of_rank(list.push(e), k)
            == of_rank(list, k).push(e),
        e.is_dir != k.is_dir || lowercase(e.name) != lowercase(k.name) ==> of_rank(list.push(e), k)
            == of_rank(list, k),
{
    assert(list.push(e).drop_last() =~= list);
}

} // verus!
