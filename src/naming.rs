use vstd::prelude::*;

verus! {

/// One media item of an album, as the album's metadata lists it.
pub struct MediaItem {
    /// Where the item's bytes are fetched from.
    pub url: String,
    /// File extension, used verbatim in the item's file name.
    pub ext: String,
    /// Byte size that the metadata reports for the item.
    pub size: u64,
}

/// Number of decimal digits of `n` (zero has one).
pub open spec fn digits(n: nat) -> nat
    decreases n,
{
    if n < 10 {
        1
    } else {
        1 + digits(n / 10)
    }
}

/// The character of a single decimal digit.
pub open spec fn digit_char(d: nat) -> char {
    if d == 0 { '0' }
    else if d == 1 { '1' }
    else if d == 2 { '2' }
    else if d == 3 { '3' }
    else if d == 4 { '4' }
    else if d == 5 { '5' }
    else if d == 6 { '6' }
    else if d == 7 { '7' }
    else if d == 8 { '8' }
    else { '9' }
}

/// Decimal representation of `n`, without leading zeroes.
pub open spec fn decimal(n: nat) -> Seq<char>
    decreases n,
{
    if n < 10 {
        seq![digit_char(n)]
    } else {
        decimal(n / 10).push(digit_char(n % 10))
    }
}

/// Decimal representation of `n`, padded on the left with `0` to `width`
/// characters.
pub open spec fn padded_decimal(n: nat, width: nat) -> Seq<char> {
    Seq::new((width - digits(n)) as nat, |i: int| '0') + decimal(n)
}

/// File name of the item at `index` in an album of `count` items: the index
/// padded to as many digits as the largest index has, a `.`, and `ext`.
pub open spec fn file_name_of(index: nat, count: nat, ext: Seq<char>) -> Seq<char> {
    padded_decimal(index, digits((count - 1) as nat)) + seq!['.'] + ext
}

pub proof fn lemma_decimal_len(n: nat)
    ensures
        decimal(n).len() == digits(n),
    decreases n,
{
    if n >= 10 {
        lemma_decimal_len(n / 10);
    }
}

proof fn lemma_digits_at_most(n: nat)
    requires
        n >= 1,
    ensures
        digits(n) <= n,
    decreases n,
{
    if n >= 10 {
        lemma_digits_at_most(n / 10);
    }
}

/// The number of digits never decreases as the number grows.
pub proof fn lemma_digits_monotonic(a: nat, b: nat)
    requires
        a <= b,
    ensures
        digits(a) <= digits(b),
    decreases b,
{
    if b >= 10 && a >= 10 {
        lemma_digits_monotonic(a / 10, b / 10);
    }
    if a >= 10 && b >= 10 {
    } else if b >= 10 {
        assert(digits(b) >= 1);
    }
}

/// Every name of an album of `count` items is its index padded to the same
/// width, the number of digits of `count - 1` (at least one), then `.` and
/// the extension.
pub proof fn lemma_file_name_width(index: nat, count: nat, ext: Seq<char>)
    requires
        index < count,
    ensures
        file_name_of(index, count, ext) == padded_decimal(index, digits((count - 1) as nat))
            + seq!['.'] + ext,
        padded_decimal(index, digits((count - 1) as nat)).len() == digits((count - 1) as nat),
        digits((count - 1) as nat) >= 1,
{
    lemma_decimal_len(index);
    lemma_digits_monotonic(index, (count - 1) as nat);
}

/// `a` comes before `b` in character order.
pub open spec fn lex_less(a: Seq<char>, b: Seq<char>) -> bool {
    exists|k: int|
        0 <= k < a.len() && k < b.len() && (a[k] as u32) < (b[k] as u32) && forall|m: int|
            0 <= m < k ==> a[m] == b[m]
}

spec fn is_digit(c: char) -> bool {
    '0' <= c && c <= '9'
}

spec fn digit_value(c: char) -> int {
    c as int - '0' as int
}

/// The number that a string of decimal digits spells.
spec fn value(s: Seq<char>) -> int
    decreases s.len(),
{
    if s.len() == 0 {
        0
    } else {
        value(s.drop_last()) * 10 + digit_value(s.last())
    }
}

proof fn lemma_digit_char(d: nat)
    requires
        d < 10,
    ensures
        is_digit(digit_char(d)),
        digit_value(digit_char(d)) == d,
{
}

proof fn lemma_value_decimal(n: nat)
    ensures
        value(decimal(n)) == n,
        forall|i: int| 0 <= i < decimal(n).len() ==> is_digit(#[trigger] decimal(n)[i]),
    decreases n,
{
    if n < 10 {
        lemma_digit_char(n);
        assert(decimal(n).drop_last() == Seq::<char>::empty());
        assert(value(Seq::<char>::empty()) == 0);
    } else {
        lemma_value_decimal(n / 10);
        lemma_digit_char(n % 10);
        assert(decimal(n).drop_last() == decimal(n / 10));
        assert(decimal(n).last() == digit_char(n % 10));
        assert(value(decimal(n)) == (n / 10) * 10 + n % 10);
        assert forall|i: int| 0 <= i < decimal(n).len() implies is_digit(
            #[trigger] decimal(n)[i],
        ) by {
            if i < decimal(n).len() - 1 {
                assert(decimal(n)[i] == decimal(n / 10)[i]);
            }
        }
    }
}

proof fn lemma_value_leading_zero(s: Seq<char>)
    ensures
        value(seq!['0'] + s) == value(s),
    decreases s.len(),
{
    if s.len() > 0 {
        lemma_value_leading_zero(s.drop_last());
        assert((seq!['0'] + s).drop_last() == seq!['0'] + s.drop_last());
        assert((seq!['0'] + s).last() == s.last());
    } else {
        assert(seq!['0'] + s == seq!['0']);
        assert(seq!['0'].drop_last() == Seq::<char>::empty());
        assert(value(Seq::<char>::empty()) == 0);
    }
}

proof fn lemma_value_leading_zeroes(k: nat, s: Seq<char>)
    ensures
        value(Seq::new(k, |i: int| '0') + s) == value(s),
    decreases k,
{
    if k > 0 {
        lemma_value_leading_zeroes((k - 1) as nat, s);
        lemma_value_leading_zero(Seq::new((k - 1) as nat, |i: int| '0') + s);
        assert(Seq::new(k, |i: int| '0') + s == seq!['0'] + (Seq::new((k - 1) as nat, |i: int| '0')
            + s));
    }
}

proof fn lemma_padded_decimal(n: nat, width: nat)
    requires
        digits(n) <= width,
    ensures
        value(padded_decimal(n, width)) == n,
        padded_decimal(n, width).len() == width,
        forall|i: int|
            0 <= i < padded_decimal(n, width).len() ==> is_digit(#[trigger] padded_decimal(n, width)[i]),
{
    let z = Seq::new((width - digits(n)) as nat, |i: int| '0');
    lemma_value_decimal(n);
    lemma_decimal_len(n);
    lemma_value_leading_zeroes((width - digits(n)) as nat, decimal(n));
    assert forall|i: int|
        0 <= i < padded_decimal(n, width).len() implies is_digit(#[trigger] padded_decimal(n, width)[i]) by {
        if i >= z.len() {
            assert(padded_decimal(n, width)[i] == decimal(n)[i - z.len()]);
        }
    }
}

proof fn lemma_value_bounds(s: Seq<char>)
    requires
        forall|i: int| 0 <= i < s.len() ==> is_digit(#[trigger] s[i]),
    ensures
        value(s) >= 0,
    decreases s.len(),
{
    if s.len() > 0 {
        lemma_value_bounds(s.drop_last());
        assert(is_digit(s[s.len() - 1]));
    }
}

proof fn lemma_value_injective(a: Seq<char>, b: Seq<char>)
    requires
        a.len() == b.len(),
        forall|i: int| 0 <= i < a.len() ==> is_digit(#[trigger] a[i]),
        forall|i: int| 0 <= i < b.len() ==> is_digit(#[trigger] b[i]),
        value(a) == value(b),
    ensures
        a == b,
    decreases a.len(),
{
    if a.len() > 0 {
        let (a1, b1) = (a.drop_last(), b.drop_last());
        assert(is_digit(a[a.len() - 1]) && is_digit(b[b.len() - 1]));
        let (x, y) = (value(a1), value(b1));
        let (da, db) = (digit_value(a.last()), digit_value(b.last()));
        assert(x == y && da == db) by (nonlinear_arith)
            requires
                x * 10 + da == y * 10 + db,
                0 <= da < 10,
                0 <= db < 10,
        {
        }
        lemma_value_injective(a1, b1);
        assert(a == a1.push(a.last()));
        assert(b == b1.push(b.last()));
    }
}

proof fn lemma_value_order(a: Seq<char>, b: Seq<char>)
    requires
        a.len() == b.len(),
        forall|i: int| 0 <= i < a.len() ==> is_digit(#[trigger] a[i]),
        forall|i: int| 0 <= i < b.len() ==> is_digit(#[trigger] b[i]),
        value(a) < value(b),
    ensures
        lex_less(a, b),
    decreases a.len(),
{
    let (a1, b1) = (a.drop_last(), b.drop_last());
    assert(is_digit(a[a.len() - 1]) && is_digit(b[b.len() - 1]));
    lemma_value_bounds(a1);
    lemma_value_bounds(b1);
    let (x, y) = (value(a1), value(b1));
    let (da, db) = (digit_value(a.last()), digit_value(b.last()));
    assert(x <= y) by (nonlinear_arith)
        requires
            x * 10 + da < y * 10 + db,
            0 <= da < 10,
            0 <= db < 10,
    {
    }
    if x < y {
        lemma_value_order(a1, b1);
        let k = choose|k: int|
            0 <= k < a1.len() && k < b1.len() && (a1[k] as u32) < (b1[k] as u32) && forall|m: int|
                0 <= m < k ==> a1[m] == b1[m];
        assert forall|m: int| 0 <= m < k implies a[m] == b[m] by {
            assert(a1[m] == b1[m]);
        }
        assert((a[k] as u32) < (b[k] as u32));
    } else {
        lemma_value_injective(a1, b1);
        let k = a.len() - 1;
        assert forall|m: int| 0 <= m < k implies a[m] == b[m] by {
            assert(a[m] == a1[m] && b[m] == b1[m]);
        }
        assert((a[k] as u32) < (b[k] as u32));
    }
}

/// Names of one album sort as their indices do: character by character, the
/// name of a smaller index comes first.
pub proof fn lemma_names_sort_as_indices(i: nat, j: nat, count: nat, ext_i: Seq<char>, ext_j: Seq<char>)
    requires
        i < j < count,
    ensures
        lex_less(file_name_of(i, count, ext_i), file_name_of(j, count, ext_j)),
{
    let w = digits((count - 1) as nat);
    lemma_digits_monotonic(i, (count - 1) as nat);
    lemma_digits_monotonic(j, (count - 1) as nat);
    lemma_padded_decimal(i, w);
    lemma_padded_decimal(j, w);
    let (a, b) = (padded_decimal(i, w), padded_decimal(j, w));
    lemma_value_order(a, b);
    let k = choose|k: int|
        0 <= k < a.len() && k < b.len() && (a[k] as u32) < (b[k] as u32) && forall|m: int|
            0 <= m < k ==> a[m] == b[m];
    let (na, nb) = (file_name_of(i, count, ext_i), file_name_of(j, count, ext_j));
    assert(na[k] == a[k] && nb[k] == b[k]);
    assert forall|m: int| 0 <= m < k implies na[m] == nb[m] by {
        assert(na[m] == a[m] && nb[m] == b[m]);
    }
}

/// Number of decimal digits of `n`; zero has one.
pub fn digits_in_decmial_representation(n: usize) -> (r: usize)
    ensures
        r == digits(n as nat),
{
    let mut m: usize = n;
    let mut r: usize = 1;
    while m >= 10
        invariant
            1 <= r,
            r + digits(m as nat) == 1 + digits(n as nat),
            r <= digits(n as nat),
            m <= n,
        decreases m,
    {
        proof {
            lemma_digits_at_most(n as nat);
            assert(digits((m / 10) as nat) >= 1);
        }
        m = m / 10;
        r = r + 1;
    }
    r
}

/// The `&str` of one decimal digit.
fn digit_str(d: usize) -> (r: &'static str)
    requires
        d < 10,
    ensures
        r@ == seq![digit_char(d as nat)],
{
    proof {
        reveal_strlit("0");
        reveal_strlit("1");
        reveal_strlit("2");
        reveal_strlit("3");
        reveal_strlit("4");
        reveal_strlit("5");
        reveal_strlit("6");
        reveal_strlit("7");
        reveal_strlit("8");
        reveal_strlit("9");
    }
    match d {
        0 => "0",
        1 => "1",
        2 => "2",
        3 => "3",
        4 => "4",
        5 => "5",
        6 => "6",
        7 => "7",
        8 => "8",
        _ => "9",
    }
}

/// Appends the decimal representation of `n` to `s`.
fn push_decimal(s: &mut String, n: usize)
    ensures
        final(s)@ == old(s)@ + decimal(n as nat),
    decreases n,
{
    if n >= 10 {
        push_decimal(s, n / 10);
    }
    s.append(digit_str(n % 10));
    proof {
        if n < 10 {
            assert(decimal(n as nat) == seq![digit_char(n as nat)]);
        }
    }
}

/// File name of the item at `index` among `media_count` items: the index,
/// padded with leading zeroes to the number of digits of `media_count - 1`,
/// then `.` and the item's extension. Names of one album sort as their
/// indices do.
pub fn file_name(media: &MediaItem, index: usize, media_count: usize) -> (r: String)
    requires
        index < media_count,
    ensures
        r@ == file_name_of(index as nat, media_count as nat, media.ext@),
{
    let max_digits = digits_in_decmial_representation(media_count - 1);
    let index_digits = digits_in_decmial_representation(index);
    proof {
        lemma_digits_monotonic(index as nat, (media_count - 1) as nat);
    }
    let leading_zeroes = max_digits - index_digits;
    let mut name = String::new();
    let mut i: usize = 0;
    while i < leading_zeroes
        invariant
            i <= leading_zeroes,
            name@ == Seq::new(i as nat, |j: int| '0'),
        decreases leading_zeroes - i,
    {
        proof {
            reveal_strlit("0");
        }
        name.append("0");
        assert(name@ == Seq::new((i + 1) as nat, |j: int| '0'));
        i = i + 1;
    }
    push_decimal(&mut name, index);
    proof {
        reveal_strlit(".");
    }
    name.append(".");
    name.append(media.ext.as_str());
    assert(name@ == file_name_of(index as nat, media_count as nat, media.ext@));
    name
}

} // verus!
