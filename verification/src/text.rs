//! Text building blocks: decimal rendering, whitespace trimming and splitting.

use vstd::prelude::*;

verus! {

/// The character for a decimal digit value `d < 10`.
pub open spec fn digit_char(d: nat) -> char {
    (48 + d) as char
}

/// The decimal digits of `n`, most significant first, without leading zeros
/// (zero itself is the single digit `0`).
pub open spec fn decimal_digits(n: nat) -> Seq<char>
    decreases n,
{
    if n < 10 {
        seq![digit_char(n)]
    } else {
        decimal_digits(n / 10).push(digit_char(n % 10))
    }
}

/// `count` copies of the character `0`.
pub open spec fn zeros(count: nat) -> Seq<char> {
    Seq::new(count, |i: int| '0')
}

/// The decimal rendering of `n` left-padded with zeros to at least `width`
/// characters, as the `{:0width$}` format does for an unsigned integer.
pub open spec fn padded_decimal(n: nat, width: nat) -> Seq<char> {
    let digits = decimal_digits(n);
    if digits.len() < width {
        zeros((width - digits.len()) as nat) + digits
    } else {
        digits
    }
}

/// `String::push`: afterwards the string is the old one with `c` appended
/// at the end.
#[verifier::external_body]
pub(crate) fn push_char(s: &mut String, c: char)
    ensures
        final(s)@ == old(s)@.push(c),
{
    s.push(c);
}

fn digit_to_char(d: u64) -> (c: char)
    requires
        d < 10,
    ensures
        c == digit_char(d as nat),
{
    let b: u8 = 48u8 + (d as u8);
    b as char
}

/// Appends the decimal digits of `n`.
pub fn push_decimal(s: &mut String, n: u64)
    ensures
        final(s)@ == old(s)@ + decimal_digits(n as nat),
    decreases n,
{
    if n >= 10 {
        push_decimal(s, n / 10);
    }
    push_char(s, digit_to_char(n % 10));
    proof {
        assert(old(s)@ + decimal_digits(n as nat) =~= s@);
    }
}

/// The number of decimal digits of `n`.
pub fn decimal_width(n: u64) -> (w: u64)
    ensures
        w == decimal_digits(n as nat).len(),
        1 <= w <= 20,
    decreases n,
{
    if n < 10 {
        1
    } else {
        let inner = decimal_width(n / 10);
        assert(inner <= 19) by {
            lemma_decimal_len_bound((n / 10) as nat);
        }
        inner + 1
    }
}

/// A number below `10^k` has at most `k` digits; used to bound `u64` widths.
proof fn lemma_decimal_len_bound(n: nat)
    requires
        n <= 0x1999_9999_9999_9999,
    ensures
        decimal_digits(n).len() <= 19,
{
    reveal_with_fuel(pow10, 20);
    lemma_decimal_len_le(n, 19);
}

pub(crate) proof fn lemma_decimal_len_le(n: nat, k: nat)
    requires
        k >= 1,
        n < pow10(k),
    ensures
        decimal_digits(n).len() <= k,
    decreases k,
{
    reveal_with_fuel(pow10, 2);
    if n >= 10 {
        assert(k > 1);
        lemma_decimal_len_le(n / 10, (k - 1) as nat);
    }
}

/// `10^k`.
pub open spec fn pow10(k: nat) -> nat
    decreases k,
{
    if k == 0 { 1 } else { 10 * pow10((k - 1) as nat) }
}

/// Appends `n` in decimal, left-padded with zeros to at least `width` characters.
pub fn push_padded(s: &mut String, n: u64, width: u64)
    ensures
        final(s)@ == old(s)@ + padded_decimal(n as nat, width as nat),
{
    let w = decimal_width(n);
    let mut k: u64 = w;
    while k < width
        invariant
            w <= k,
            k <= width || k == w,
            w == decimal_digits(n as nat).len(),
            s@ == old(s)@ + zeros((k - w) as nat),
        decreases width - k,
    {
        push_char(s, '0');
        proof {
            assert(old(s)@ + zeros((k + 1 - w) as nat) =~= (old(s)@ + zeros((k - w) as nat)).push('0'));
        }
        k = k + 1;
    }
    let ghost before = s@;
    push_decimal(s, n);
    proof {
        assert(s@ == before + decimal_digits(n as nat));
        if w < width {
            assert(s@ =~= old(s)@ + padded_decimal(n as nat, width as nat));
        } else {
            assert(zeros(0) =~= Seq::<char>::empty());
            assert(s@ =~= old(s)@ + padded_decimal(n as nat, width as nat));
        }
    }
}


/// A number below `10^width` is rendered in exactly `width` characters.
pub(crate) proof fn lemma_padded_len(n: nat, width: nat)
    requires
        width >= 1,
        n < pow10(width),
    ensures
        padded_decimal(n, width).len() == width,
{
    lemma_decimal_len_le(n, width);
}


// ---------------------------------------------------------------------------
// Lexicographic order.

/// `a` sorts strictly before `b` in character-code order (the order of
/// `str`'s `<`): at the first place where they differ `a` has the smaller
/// character, or `a` is a proper prefix of `b`.
pub open spec fn lex_less(a: Seq<char>, b: Seq<char>) -> bool {
    ||| exists|i: int|
        #![trigger a[i], b[i]]
        0 <= i < a.len() && i < b.len() && a.take(i) == b.take(i) && (a[i] as u32) < (b[i] as u32)
    ||| (a.len() < b.len() && a == b.take(a.len() as int))
}

/// Of two equally long texts, an order fixed in the leading parts stays.
proof fn lemma_lex_extend(a: Seq<char>, b: Seq<char>, c: Seq<char>, d: Seq<char>)
    requires
        a.len() == b.len(),
        lex_less(a, b),
    ensures
        lex_less(a + c, b + d),
{
    let i = choose|i: int|
        #![trigger a[i], b[i]]
        0 <= i < a.len() && i < b.len() && a.take(i) == b.take(i) && (a[i] as u32) < (b[i]
            as u32);
    assert((a + c).take(i) =~= a.take(i));
    assert((b + d).take(i) =~= b.take(i));
    assert((a + c)[i] == a[i] && (b + d)[i] == b[i]);
}

/// A common leading part keeps the order of what follows it.
proof fn lemma_lex_after_common(a: Seq<char>, c: Seq<char>, d: Seq<char>)
    requires
        c.len() == d.len(),
        lex_less(c, d),
    ensures
        lex_less(a + c, a + d),
{
    let i = choose|i: int|
        #![trigger c[i], d[i]]
        0 <= i < c.len() && i < d.len() && c.take(i) == d.take(i) && (c[i] as u32) < (d[i]
            as u32);
    let j = a.len() + i;
    assert((a + c).take(j) =~= a + c.take(i));
    assert((a + d).take(j) =~= a + d.take(i));
    assert((a + c)[j] == c[i] && (a + d)[j] == d[i]);
}

/// The blocks laid end to end.
pub open spec fn concat_blocks(blocks: Seq<Seq<char>>) -> Seq<char>
    decreases blocks.len(),
{
    if blocks.len() == 0 {
        Seq::<char>::empty()
    } else {
        concat_blocks(blocks.drop_last()) + blocks.last()
    }
}

proof fn lemma_concat_blocks_len(x1: Seq<Seq<char>>, x2: Seq<Seq<char>>)
    requires
        x1.len() == x2.len(),
        forall|i: int| 0 <= i < x1.len() ==> (#[trigger] x1[i]).len() == x2[i].len(),
    ensures
        concat_blocks(x1).len() == concat_blocks(x2).len(),
    decreases x1.len(),
{
    if x1.len() > 0 {
        lemma_concat_blocks_len(x1.drop_last(), x2.drop_last());
        assert(x1.last().len() == x2.last().len());
    }
}

/// Texts made of blocks of equal widths sort by the first block that differs.
pub(crate) proof fn lemma_lex_blocks(x1: Seq<Seq<char>>, x2: Seq<Seq<char>>, k: int)
    requires
        x1.len() == x2.len(),
        forall|i: int| 0 <= i < x1.len() ==> (#[trigger] x1[i]).len() == x2[i].len(),
        0 <= k < x1.len(),
        forall|i: int| 0 <= i < k ==> #[trigger] x1[i] == x2[i],
        lex_less(x1[k], x2[k]),
    ensures
        lex_less(concat_blocks(x1), concat_blocks(x2)),
    decreases x1.len(),
{
    let d1 = x1.drop_last();
    let d2 = x2.drop_last();
    if k < x1.len() - 1 {
        assert forall|i: int| 0 <= i < d1.len() implies (#[trigger] d1[i]).len() == d2[i].len() by {
            assert(d1[i] == x1[i] && d2[i] == x2[i]);
        }
        assert forall|i: int| 0 <= i < k implies #[trigger] d1[i] == d2[i] by {
            assert(d1[i] == x1[i] && d2[i] == x2[i]);
        }
        lemma_lex_blocks(d1, d2, k);
        lemma_concat_blocks_len(d1, d2);
        lemma_lex_extend(concat_blocks(d1), concat_blocks(d2), x1.last(), x2.last());
    } else {
        assert(d1 =~= d2) by {
            assert forall|i: int| 0 <= i < d1.len() implies d1[i] == d2[i] by {
                assert(d1[i] == x1[i] && d2[i] == x2[i]);
            }
        }
        assert(x1.last().len() == x2.last().len());
        lemma_lex_after_common(concat_blocks(d1), x1.last(), x2.last());
    }
}

/// The last `width` decimal digits of `n`, most significant first.
pub open spec fn fixed_digits(n: nat, width: nat) -> Seq<char>
    decreases width,
{
    if width == 0 {
        Seq::<char>::empty()
    } else {
        fixed_digits(n / 10, (width - 1) as nat).push(digit_char(n % 10))
    }
}

proof fn lemma_fixed_zero(width: nat)
    ensures
        fixed_digits(0, width) == zeros(width),
    decreases width,
{
    if width > 0 {
        lemma_fixed_zero((width - 1) as nat);
        assert(zeros((width - 1) as nat).push('0') =~= zeros(width));
    }
}

proof fn lemma_fixed_len(n: nat, width: nat)
    ensures
        fixed_digits(n, width).len() == width,
    decreases width,
{
    if width > 0 {
        lemma_fixed_len(n / 10, (width - 1) as nat);
    }
}

/// Below `10^width`, the zero-padded rendering is exactly `width` digits.
proof fn lemma_padded_is_fixed(n: nat, width: nat)
    requires
        width >= 1,
        n < pow10(width),
    ensures
        padded_decimal(n, width) == fixed_digits(n, width),
    decreases width,
{
    reveal_with_fuel(pow10, 2);
    if n < 10 {
        lemma_fixed_zero((width - 1) as nat);
        assert(n / 10 == 0);
        assert(padded_decimal(n, width) =~= zeros((width - 1) as nat).push(digit_char(n)));
    } else {
        assert(width >= 2);
        let w1 = (width - 1) as nat;
        lemma_decimal_len_le(n / 10, w1);
        lemma_padded_is_fixed(n / 10, w1);
        let dq = decimal_digits(n / 10);
        if dq.len() < w1 {
            assert(padded_decimal(n, width) =~= padded_decimal(n / 10, w1).push(digit_char(n % 10)));
        } else {
            assert(padded_decimal(n, width) =~= padded_decimal(n / 10, w1).push(digit_char(n % 10)));
        }
    }
}

proof fn lemma_fixed_order(n: nat, m: nat, width: nat)
    requires
        n < m < pow10(width),
    ensures
        lex_less(fixed_digits(n, width), fixed_digits(m, width)),
    decreases width,
{
    reveal_with_fuel(pow10, 1);
    if width == 0 {
        assert(false);
    }
    let w1 = (width - 1) as nat;
    let a = fixed_digits(n / 10, w1);
    let b = fixed_digits(m / 10, w1);
    lemma_fixed_len(n / 10, w1);
    lemma_fixed_len(m / 10, w1);
    if n / 10 == m / 10 {
        let x = a.push(digit_char(n % 10));
        let y = b.push(digit_char(m % 10));
        assert(x.take(w1 as int) =~= a);
        assert(y.take(w1 as int) =~= b);
        assert(x[w1 as int] == digit_char(n % 10) && y[w1 as int] == digit_char(m % 10));
        assert((x[w1 as int] as u32) < (y[w1 as int] as u32));
    } else {
        lemma_fixed_order(n / 10, m / 10, w1);
        lemma_lex_extend(a, b, seq![digit_char(n % 10)], seq![digit_char(m % 10)]);
        assert(a + seq![digit_char(n % 10)] =~= a.push(digit_char(n % 10)));
        assert(b + seq![digit_char(m % 10)] =~= b.push(digit_char(m % 10)));
    }
}

/// Zero-padded renderings of the same width sort as their numbers do.
pub(crate) proof fn lemma_padded_order(n: nat, m: nat, width: nat)
    requires
        width >= 1,
        n < m < pow10(width),
    ensures
        lex_less(padded_decimal(n, width), padded_decimal(m, width)),
        padded_decimal(n, width).len() == width,
        padded_decimal(m, width).len() == width,
{
    lemma_padded_is_fixed(n, width);
    lemma_padded_is_fixed(m, width);
    lemma_fixed_order(n, m, width);
    lemma_fixed_len(n, width);
    lemma_fixed_len(m, width);
}

// ---------------------------------------------------------------------------
// Whitespace and leading-character trimming.

/// Unicode `White_Space` characters: what `char::is_whitespace` accepts.
pub open spec fn is_unicode_whitespace(c: char) -> bool {
    let v = c as u32;
    ||| 0x09 <= v <= 0x0D
    ||| v == 0x20
    ||| v == 0x85
    ||| v == 0xA0
    ||| v == 0x1680
    ||| 0x2000 <= v <= 0x200A
    ||| v == 0x2028
    ||| v == 0x2029
    ||| v == 0x202F
    ||| v == 0x205F
    ||| v == 0x3000
}

/// Length of the longest prefix of `s` whose characters all satisfy `p`.
pub open spec fn leading_run(s: Seq<char>, p: spec_fn(char) -> bool) -> nat
    decreases s.len(),
{
    if s.len() > 0 && p(s[0]) {
        1 + leading_run(s.drop_first(), p)
    } else {
        0
    }
}

/// Length of the longest suffix of `s` whose characters all satisfy `p`.
pub open spec fn trailing_run(s: Seq<char>, p: spec_fn(char) -> bool) -> nat
    decreases s.len(),
{
    if s.len() > 0 && p(s.last()) {
        1 + trailing_run(s.drop_last(), p)
    } else {
        0
    }
}

pub open spec fn whitespace_pred() -> spec_fn(char) -> bool {
    |c: char| is_unicode_whitespace(c)
}

pub open spec fn dot_pred() -> spec_fn(char) -> bool {
    |c: char| c == '.'
}

/// `s` with leading and trailing whitespace removed (`str::trim`).
pub open spec fn trimmed(s: Seq<char>) -> Seq<char> {
    let t = s.skip(leading_run(s, whitespace_pred()) as int);
    t.take(t.len() - trailing_run(t, whitespace_pred()))
}

/// `s` with all leading `.` removed (`str::trim_start_matches('.')`).
pub open spec fn without_leading_dots(s: Seq<char>) -> Seq<char> {
    s.skip(leading_run(s, dot_pred()) as int)
}

proof fn lemma_leading_run(s: Seq<char>, p: spec_fn(char) -> bool, i: int)
    requires
        0 <= i <= s.len(),
        forall|k: int| 0 <= k < i ==> p(#[trigger] s[k]),
        i == s.len() || !p(s[i]),
    ensures
        leading_run(s, p) == i,
    decreases i,
{
    if i > 0 {
        let t = s.drop_first();
        assert forall|k: int| 0 <= k < i - 1 implies p(#[trigger] t[k]) by {
            assert(t[k] == s[k + 1]);
        }
        if i - 1 < t.len() {
            assert(t[i - 1] == s[i]);
        }
        lemma_leading_run(t, p, i - 1);
    }
}

proof fn lemma_trailing_run(s: Seq<char>, p: spec_fn(char) -> bool, j: int)
    requires
        0 <= j <= s.len(),
        forall|k: int| j <= k < s.len() ==> p(#[trigger] s[k]),
        j == 0 || !p(s[j - 1]),
    ensures
        trailing_run(s, p) == s.len() - j,
    decreases s.len() - j,
{
    if j < s.len() {
        let t = s.drop_last();
        assert forall|k: int| j <= k < t.len() implies p(#[trigger] t[k]) by {
            assert(t[k] == s[k]);
        }
        if j > 0 {
            assert(t[j - 1] == s[j - 1]);
        }
        lemma_trailing_run(t, p, j);
    }
}

proof fn lemma_leading_run_le(s: Seq<char>, p: spec_fn(char) -> bool)
    ensures
        leading_run(s, p) <= s.len(),
    decreases s.len(),
{
    if s.len() > 0 {
        lemma_leading_run_le(s.drop_first(), p);
    }
}

/// A leading `.` makes no difference once leading dots are dropped.
pub proof fn lemma_leading_dot_ignored(s: Seq<char>)
    ensures
        without_leading_dots(seq!['.'] + s) == without_leading_dots(s),
{
    let t = seq!['.'] + s;
    assert(t.drop_first() =~= s);
    lemma_leading_run_le(s, dot_pred());
    assert(leading_run(t, dot_pred()) == 1 + leading_run(s, dot_pred()));
    assert(t.skip(1 + leading_run(s, dot_pred()) as int) =~= s.skip(leading_run(s, dot_pred()) as int));
}

/// `char::is_whitespace`.
pub fn is_whitespace(c: char) -> (res: bool)
    ensures
        res == is_unicode_whitespace(c),
{
    let v = c as u32;
    (0x09 <= v && v <= 0x0D) || v == 0x20 || v == 0x85 || v == 0xA0 || v == 0x1680
        || (0x2000 <= v && v <= 0x200A) || v == 0x2028 || v == 0x2029 || v == 0x202F
        || v == 0x205F || v == 0x3000
}

/// Removes leading and trailing Unicode whitespace (`str::trim`).
pub fn trim_whitespace(s: &str) -> (res: &str)
    ensures
        res@ == trimmed(s@),
{
    let len = s.unicode_len();
    let mut i: usize = 0;
    while i < len && is_whitespace(s.get_char(i))
        invariant
            len == s@.len(),
            i <= len,
            forall|k: int| 0 <= k < i ==> is_unicode_whitespace(#[trigger] s@[k]),
        decreases len - i,
    {
        i = i + 1;
    }
    let mut j: usize = len;
    while j > i && is_whitespace(s.get_char(j - 1))
        invariant
            len == s@.len(),
            i <= j <= len,
            forall|k: int| j <= k < len ==> is_unicode_whitespace(#[trigger] s@[k]),
        decreases j,
    {
        j = j - 1;
    }
    proof {
        let p = whitespace_pred();
        lemma_leading_run(s@, p, i as int);
        let t = s@.skip(i as int);
        assert forall|k: int| j - i <= k < t.len() implies p(#[trigger] t[k]) by {
            assert(t[k] == s@[k + i]);
        }
        if j > i {
            assert(t[j - i - 1] == s@[j - 1]);
        }
        lemma_trailing_run(t, p, j - i);
        assert(trimmed(s@) =~= s@.subrange(i as int, j as int));
    }
    s.substring_char(i, j)
}

/// Removes every leading `.` (`str::trim_start_matches('.')`).
pub fn strip_leading_dots(s: &str) -> (res: &str)
    ensures
        res@ == without_leading_dots(s@),
{
    let len = s.unicode_len();
    let mut i: usize = 0;
    while i < len && s.get_char(i) == '.'
        invariant
            len == s@.len(),
            i <= len,
            forall|k: int| 0 <= k < i ==> #[trigger] s@[k] == '.',
        decreases len - i,
    {
        i = i + 1;
    }
    proof {
        lemma_leading_run(s@, dot_pred(), i as int);
        assert(without_leading_dots(s@) =~= s@.subrange(i as int, len as int));
    }
    s.substring_char(i, len)
}


// ---------------------------------------------------------------------------
// Splitting.

/// The fields of `s` between occurrences of `sep` (`str::split` on a
/// character): there is always one field more than there are separators.
pub open spec fn split_fields(s: Seq<char>, sep: char) -> Seq<Seq<char>>
    decreases s.len(),
{
    if s.len() == 0 {
        seq![Seq::<char>::empty()]
    } else {
        let before = split_fields(s.drop_last(), sep);
        if s.last() == sep {
            before.push(Seq::<char>::empty())
        } else {
            before.update(before.len() - 1, before.last().push(s.last()))
        }
    }
}

proof fn lemma_split_fields_nonempty(s: Seq<char>, sep: char)
    ensures
        split_fields(s, sep).len() >= 1,
    decreases s.len(),
{
    if s.len() > 0 {
        lemma_split_fields_nonempty(s.drop_last(), sep);
    }
}

/// The number of occurrences of `c` in `s`.
pub open spec fn count_char(s: Seq<char>, c: char) -> nat
    decreases s.len(),
{
    if s.len() == 0 {
        0
    } else {
        count_char(s.drop_last(), c) + if s.last() == c { 1nat } else { 0nat }
    }
}

/// Splitting gives one field more than there are separators.
pub proof fn lemma_split_fields_count(s: Seq<char>, sep: char)
    ensures
        split_fields(s, sep).len() == count_char(s, sep) + 1,
    decreases s.len(),
{
    if s.len() > 0 {
        lemma_split_fields_count(s.drop_last(), sep);
        lemma_split_fields_nonempty(s.drop_last(), sep);
    }
}

/// The fields joined back together with `sep` between neighbours.
pub open spec fn join_fields(fields: Seq<Seq<char>>, sep: char) -> Seq<char>
    decreases fields.len(),
{
    if fields.len() == 0 {
        Seq::<char>::empty()
    } else if fields.len() == 1 {
        fields[0]
    } else {
        join_fields(fields.drop_last(), sep).push(sep) + fields.last()
    }
}

proof fn lemma_join_extend_last(fields: Seq<Seq<char>>, sep: char, c: char)
    requires
        fields.len() >= 1,
    ensures
        join_fields(fields.update(fields.len() - 1, fields.last().push(c)), sep)
            == join_fields(fields, sep).push(c),
{
    let updated = fields.update(fields.len() - 1, fields.last().push(c));
    if fields.len() > 1 {
        assert(updated.drop_last() =~= fields.drop_last());
        assert(join_fields(updated, sep) =~= join_fields(fields, sep).push(c));
    }
}

/// Splitting at `sep` and joining the fields again with `sep` gives back
/// the original text.
pub proof fn lemma_split_then_join(s: Seq<char>, sep: char)
    ensures
        join_fields(split_fields(s, sep), sep) == s,
    decreases s.len(),
{
    if s.len() > 0 {
        let before = split_fields(s.drop_last(), sep);
        lemma_split_then_join(s.drop_last(), sep);
        lemma_split_fields_nonempty(s.drop_last(), sep);
        if s.last() == sep {
            let after = before.push(Seq::<char>::empty());
            assert(after.drop_last() =~= before);
            assert(join_fields(after, sep) =~= s);
        } else {
            lemma_join_extend_last(before, sep, s.last());
            assert(s.drop_last().push(s.last()) =~= s);
        }
    }
}

/// No field of a split contains the separator.
pub proof fn lemma_split_fields_free_of_sep(s: Seq<char>, sep: char, i: int)
    requires
        0 <= i < split_fields(s, sep).len(),
    ensures
        !split_fields(s, sep)[i].contains(sep),
    decreases s.len(),
{
    if s.len() > 0 {
        let before = split_fields(s.drop_last(), sep);
        lemma_split_fields_nonempty(s.drop_last(), sep);
        if s.last() == sep {
            if i < before.len() {
                lemma_split_fields_free_of_sep(s.drop_last(), sep, i);
            }
        } else {
            lemma_split_fields_free_of_sep(s.drop_last(), sep, i);
            if i == before.len() - 1 {
                let f = before.last().push(s.last());
                assert forall|k: int| 0 <= k < f.len() implies f[k] != sep by {
                    if k < f.len() - 1 {
                        assert(f[k] == before.last()[k]);
                    }
                }
            }
        }
    }
}

/// Splits `text` at every `sep` (`str::split(sep)`, collected).
pub fn split_on(text: &str, sep: char) -> (fields: Vec<String>)
    ensures
        fields.deep_view() == split_fields(text@, sep),
{
    let len = text.unicode_len();
    let mut fields: Vec<String> = Vec::new();
    let mut current = String::new();
    let mut k: usize = 0;
    proof {
        assert(text@.take(0) =~= Seq::<char>::empty());
        assert(fields.deep_view().push(current@) =~= split_fields(text@.take(0), sep));
    }
    while k < len
        invariant
            len == text@.len(),
            k <= len,
            fields.deep_view().push(current@) == split_fields(text@.take(k as int), sep),
        decreases len - k,
    {
        let c = text.get_char(k);
        let ghost prefix = text@.take(k as int);
        let ghost next = text@.take(k + 1);
        proof {
            assert(next.drop_last() =~= prefix);
            assert(next.last() == c);
            lemma_split_fields_nonempty(prefix, sep);
        }
        if c == sep {
            let ghost before = fields.deep_view();
            fields.push(current);
            current = String::new();
            proof {
                assert(fields.deep_view() =~= before.push(split_fields(prefix, sep).last()));
                assert(fields.deep_view().push(current@) =~= split_fields(next, sep));
            }
        } else {
            push_char(&mut current, c);
            proof {
                assert(fields.deep_view().push(current@) =~= split_fields(next, sep));
            }
        }
        k = k + 1;
    }
    proof {
        assert(text@.take(len as int) =~= text@);
    }
    let ghost before = fields.deep_view();
    fields.push(current);
    proof {
        assert(fields.deep_view() =~= before.push(current@));
    }
    fields
}

} // verus!
