//! Small text builders used by the status and table strings.

use vstd::prelude::*;

verus! {

/// `String::push` appends one character at the end of the string.
pub assume_specification[ String::push ](s: &mut String, ch: char)
    ensures
        final(s)@ == old(s)@.push(ch),
;

/// The character of a decimal digit.
pub open spec fn digit_char(d: nat) -> char {
    ((48 + d) as u8) as char
}

/// Decimal digits of `n`, most significant first, without leading zeros.
pub open spec fn decimal(n: nat) -> Seq<char>
    decreases n,
{
    if n < 10 {
        seq![digit_char(n)]
    } else {
        decimal(n / 10).push(digit_char(n % 10))
    }
}

pub fn digit(d: u64) -> (c: char)
    requires
        d < 10,
    ensures
        c == digit_char(d as nat),
{
    let b: u8 = 48u8 + (d as u8);
    b as char
}

/// Appends the decimal digits of `n` to `out`.
pub fn push_decimal(out: &mut String, n: u64)
    ensures
        final(out)@ == old(out)@ + decimal(n as nat),
    decreases n,
{
    if n < 10 {
        out.push(digit(n));
    } else {
        push_decimal(out, n / 10);
        out.push(digit(n % 10));
    }
}

} // verus!

verus! {

/// The characters of `s`, in order.
pub fn chars_of(s: &str) -> (v: Vec<char>)
    ensures
        v@ == s@,
{
    broadcast use vstd::string::axiom_spec_iter;

    let mut v: Vec<char> = Vec::new();
    for c in it: s.chars()
        invariant
            v@ == it.seq().take(it.index() as int),
    {
        v.push(c);
    }
    v
}

} // verus!

verus! {

/// A string holding the characters of `v`, in order.
pub fn string_of(v: &[char]) -> (s: String)
    ensures
        s@ == v@,
{
    let mut s = String::new();
    let n = v.len();
    for i in 0..n
        invariant
            n == v@.len(),
            s@ == v@.take(i as int),
    {
        s.push(v[i]);
        assert(v@.take(i + 1) == v@.take(i as int).push(v@[i as int]));
    }
    assert(v@.take(n as int) == v@);
    s
}

/// Whether two character sequences are equal.
pub fn chars_eq(a: &[char], b: &[char]) -> (r: bool)
    ensures
        r == (a@ == b@),
{
    if a.len() != b.len() {
        return false;
    }
    let n = a.len();
    for i in 0..n
        invariant
            n == a@.len(),
            n == b@.len(),
            forall|k: int| 0 <= k < i ==> a@[k] == b@[k],
    {
        if a[i] != b[i] {
            return false;
        }
    }
    assert(a@ =~= b@);
    true
}

/// The pieces of `s` between occurrences of `sep`, as `str::split` with a
/// character pattern yields them: always at least one piece, empty pieces kept.
pub open spec fn split_on(s: Seq<char>, sep: char) -> Seq<Seq<char>>
    decreases s.len(),
{
    if s.len() == 0 {
        seq![Seq::<char>::empty()]
    } else {
        let init = split_on(s.drop_last(), sep);
        if s.last() == sep {
            init.push(Seq::<char>::empty())
        } else {
            init.update(init.len() - 1, init.last().push(s.last()))
        }
    }
}

pub proof fn lemma_split_on_nonempty(s: Seq<char>, sep: char)
    ensures
        split_on(s, sep).len() >= 1,
    decreases s.len(),
{
    if s.len() > 0 {
        lemma_split_on_nonempty(s.drop_last(), sep);
    }
}

/// Text after a separator splits into the pieces of what came before it,
/// then the pieces of what follows: splitting `a`, `sep`, `b` gives the
/// pieces of `a` and, as the last piece, the last piece of `b`.
pub proof fn lemma_split_on_last(a: Seq<char>, b: Seq<char>, sep: char)
    ensures
        split_on(a + seq![sep] + b, sep).len() >= 1,
        split_on(b, sep).len() >= 1,
        split_on(a + seq![sep] + b, sep).last() == split_on(b, sep).last(),
    decreases b.len(),
{
    lemma_split_on_nonempty(a + seq![sep] + b, sep);
    lemma_split_on_nonempty(b, sep);
    let x = a + seq![sep] + b;
    if b.len() == 0 {
        assert(x.drop_last() =~= a);
    } else {
        lemma_split_on_last(a, b.drop_last(), sep);
        assert(x.drop_last() =~= a + seq![sep] + b.drop_last());
        assert(x.last() == b.last());
    }
}

/// Splitting `x`, `sep`, `y` gives the pieces of `x` followed by the
/// pieces of `y`.
pub proof fn lemma_split_on_concat(x: Seq<char>, y: Seq<char>, sep: char)
    ensures
        split_on(x + seq![sep] + y, sep) == split_on(x, sep) + split_on(y, sep),
    decreases y.len(),
{
    lemma_split_on_nonempty(x, sep);
    let z = x + seq![sep] + y;
    if y.len() == 0 {
        assert(z.drop_last() =~= x);
        assert(y =~= Seq::<char>::empty());
        assert(split_on(x, sep).push(Seq::<char>::empty()) =~= split_on(x, sep) + seq![
            Seq::<char>::empty(),
        ]);
    } else {
        lemma_split_on_concat(x, y.drop_last(), sep);
        lemma_split_on_nonempty(y.drop_last(), sep);
        assert(z.drop_last() =~= x + seq![sep] + y.drop_last());
        assert(z.last() == y.last());
        let a = split_on(x, sep);
        let b = split_on(y.drop_last(), sep);
        if y.last() == sep {
            assert((a + b).push(Seq::<char>::empty()) =~= a + b.push(Seq::<char>::empty()));
        } else {
            assert((a + b).last() == b.last());
            assert((a + b).update((a + b).len() - 1, b.last().push(y.last())) =~= a + b.update(
                b.len() - 1,
                b.last().push(y.last()),
            ));
        }
    }
}

/// Text without a separator is one piece.
pub proof fn lemma_split_on_single(s: Seq<char>, sep: char)
    requires
        !s.contains(sep),
    ensures
        split_on(s, sep) == seq![s],
    decreases s.len(),
{
    if s.len() > 0 {
        assert(!s.drop_last().contains(sep)) by {
            if s.drop_last().contains(sep) {
                let i = choose|i: int| 0 <= i < s.drop_last().len() && s.drop_last()[i] == sep;
                assert(s[i] == sep);
            }
        }
        lemma_split_on_single(s.drop_last(), sep);
        assert(s[s.len() - 1] == s.last());
        assert(s.last() != sep);
        assert(s.drop_last().push(s.last()) =~= s);
        assert(seq![s.drop_last()].update(0, s.drop_last().push(s.last())) =~= seq![s]);
    } else {
        assert(s =~= Seq::<char>::empty());
    }
}

/// A word, a separator and text without one split into the word and the
/// text.
pub proof fn lemma_split_on_pair(a: Seq<char>, b: Seq<char>, sep: char)
    requires
        !a.contains(sep),
        !b.contains(sep),
    ensures
        split_on(a + seq![sep] + b, sep) == seq![a, b],
    decreases b.len(),
{
    lemma_split_on_single(a, sep);
    let x = a + seq![sep] + b;
    if b.len() == 0 {
        assert(x.drop_last() =~= a);
        assert(b =~= Seq::<char>::empty());
        assert(seq![a].push(Seq::<char>::empty()) =~= seq![a, b]);
    } else {
        assert(!b.drop_last().contains(sep)) by {
            if b.drop_last().contains(sep) {
                let i = choose|i: int| 0 <= i < b.drop_last().len() && b.drop_last()[i] == sep;
                assert(b[i] == sep);
            }
        }
        lemma_split_on_pair(a, b.drop_last(), sep);
        assert(x.drop_last() =~= a + seq![sep] + b.drop_last());
        assert(x.last() == b.last());
        assert(b[b.len() - 1] == b.last());
        assert(b.last() != sep);
        assert(b.drop_last().push(b.last()) =~= b);
        assert(seq![a, b.drop_last()].update(1, b.drop_last().push(b.last())) =~= seq![a, b]);
    }
}

/// The view of a vector of character vectors.
pub open spec fn views(v: Seq<Vec<char>>) -> Seq<Seq<char>> {
    v.map_values(|p: Vec<char>| p@)
}

/// Splits `s` at every `sep`.
pub fn split_chars(s: &[char], sep: char) -> (parts: Vec<Vec<char>>)
    ensures
        views(parts@) == split_on(s@, sep),
        parts@.len() >= 1,
{
    let mut parts: Vec<Vec<char>> = Vec::new();
    let mut cur: Vec<char> = Vec::new();
    let n = s.len();
    for i in 0..n
        invariant
            n == s@.len(),
            views(parts@).push(cur@) == split_on(s@.take(i as int), sep),
    {
        proof {
            lemma_split_on_nonempty(s@.take(i as int), sep);
            assert(s@.take(i + 1).drop_last() == s@.take(i as int));
        }
        let c = s[i];
        if c == sep {
            let done = cur;
            parts.push(done);
            cur = Vec::new();
            assert(views(parts@).push(cur@) =~= split_on(s@.take(i as int), sep).push(
                Seq::<char>::empty(),
            ));
        } else {
            let ghost before = views(parts@).push(cur@);
            cur.push(c);
            assert(views(parts@).push(cur@) =~= before.update(
                before.len() - 1,
                before.last().push(c),
            ));
        }
    }
    assert(s@.take(n as int) == s@);
    let last = cur;
    parts.push(last);
    assert(views(parts@) =~= split_on(s@, sep));
    parts
}

} // verus!

verus! {

/// Whether `c` has the Unicode `White_Space` property (PropList.txt), which
/// is what `char::is_whitespace` reports: tab through carriage return,
/// space, next line, no-break space, ogham space mark, the spaces from en
/// quad to hair space, line and paragraph separators, narrow no-break space,
/// medium mathematical space and ideographic space.
pub open spec fn unicode_white_space(c: char) -> bool {
    let v = c as u32;
    ||| 0x09 <= v <= 0x0d
    ||| v == 0x20
    ||| v == 0x85
    ||| v == 0xa0
    ||| v == 0x1680
    ||| 0x2000 <= v <= 0x200a
    ||| v == 0x2028
    ||| v == 0x2029
    ||| v == 0x202f
    ||| v == 0x205f
    ||| v == 0x3000
}

/// `str::to_lowercase`: the lowercase equivalent of a string under the
/// Unicode `Lowercase` mapping.
pub uninterp spec fn unicode_lowercase(s: Seq<char>) -> Seq<char>;

/// `c` with ASCII `A`..`Z` mapped to `a`..`z`, other characters kept, as
/// `to_ascii_lowercase` maps them.
pub open spec fn ascii_lower(c: char) -> char {
    if 'A' <= c && c <= 'Z' {
        ((c as u32) + 32) as char
    } else {
        c
    }
}

/// Every character of `s` is ASCII.
pub open spec fn all_ascii(s: Seq<char>) -> bool {
    forall|i: int| 0 <= i < s.len() ==> (#[trigger] s[i] as u32) < 128
}

/// The lowercase of `s` as `str::to_lowercase` gives it: ASCII letters
/// lowered one by one when `s` is all ASCII, the Unicode mapping otherwise.
pub open spec fn lowercase(s: Seq<char>) -> Seq<char> {
    if all_ascii(s) {
        s.map_values(|c: char| ascii_lower(c))
    } else {
        unicode_lowercase(s)
    }
}

/// Whether `c` is white space, as `char::is_whitespace` answers.
pub fn is_whitespace(c: char) -> (r: bool)
    ensures
        r == unicode_white_space(c),
{
    let v = c as u32;
    (0x09 <= v && v <= 0x0d) || v == 0x20 || v == 0x85 || v == 0xa0 || v == 0x1680 || (0x2000
        <= v && v <= 0x200a) || v == 0x2028 || v == 0x2029 || v == 0x202f || v == 0x205f || v
        == 0x3000
}

/// Calls `str::to_lowercase`. Claims that the result depends on the
/// characters of `s` alone, and that text of ASCII characters only comes
/// back with `A`..`Z` mapped to `a`..`z` and nothing else changed (the
/// Unicode lowercase mapping of those characters, as the documentation's
/// `"HELLO"` example shows); the mapping of other characters is not
/// restated here.
#[verifier::external_body]
pub fn to_lowercase(s: &str) -> (r: String)
    ensures
        r@ == unicode_lowercase(s@),
        all_ascii(s@) ==> r@ == s@.map_values(|c: char| ascii_lower(c)),
{
    s.to_lowercase()
}

/// `s` without its leading white space.
pub open spec fn trim_start(s: Seq<char>) -> Seq<char>
    decreases s.len(),
{
    if s.len() > 0 && unicode_white_space(s[0]) {
        trim_start(s.drop_first())
    } else {
        s
    }
}

/// `s` without its trailing white space.
pub open spec fn trim_end(s: Seq<char>) -> Seq<char>
    decreases s.len(),
{
    if s.len() > 0 && unicode_white_space(s.last()) {
        trim_end(s.drop_last())
    } else {
        s
    }
}

/// `s` without leading and trailing white space, as `str::trim` gives it.
pub open spec fn trim(s: Seq<char>) -> Seq<char> {
    trim_end(trim_start(s))
}

proof fn lemma_trim_start(s: Seq<char>, i: int)
    requires
        0 <= i <= s.len(),
        forall|k: int| 0 <= k < i ==> unicode_white_space(#[trigger] s[k]),
        i == s.len() || !unicode_white_space(s[i]),
    ensures
        trim_start(s) == s.subrange(i, s.len() as int),
    decreases i,
{
    if i > 0 {
        let t = s.drop_first();
        assert forall|k: int| 0 <= k < i - 1 implies unicode_white_space(#[trigger] t[k]) by {
            assert(t[k] == s[k + 1]);
        }
        lemma_trim_start(t, i - 1);
        assert(t.subrange(i - 1, t.len() as int) =~= s.subrange(i, s.len() as int));
    } else {
        assert(s.subrange(0, s.len() as int) =~= s);
    }
}

proof fn lemma_trim_end(s: Seq<char>, j: int)
    requires
        0 <= j <= s.len(),
        forall|k: int| j <= k < s.len() ==> unicode_white_space(#[trigger] s[k]),
        j == 0 || !unicode_white_space(s[j - 1]),
    ensures
        trim_end(s) == s.subrange(0, j),
    decreases s.len() - j,
{
    if j < s.len() {
        let t = s.drop_last();
        assert forall|k: int| j <= k < t.len() implies unicode_white_space(#[trigger] t[k]) by {
            assert(t[k] == s[k]);
        }
        lemma_trim_end(t, j);
        assert(t.subrange(0, j) =~= s.subrange(0, j));
    } else {
        assert(s.subrange(0, s.len() as int) =~= s);
    }
}

/// `s` without leading and trailing white space.
pub fn trim_chars(s: &[char]) -> (r: Vec<char>)
    ensures
        r@ == trim(s@),
{
    let n = s.len();
    let mut i: usize = 0;
    while i < n && is_whitespace(s[i])
        invariant
            n == s@.len(),
            i <= n,
            forall|k: int| 0 <= k < i ==> unicode_white_space(#[trigger] s@[k]),
        decreases n - i,
    {
        i = i + 1;
    }
    proof {
        lemma_trim_start(s@, i as int);
    }
    let ghost mid = s@.subrange(i as int, n as int);
    let mut j: usize = n;
    while j > i && is_whitespace(s[j - 1])
        invariant
            n == s@.len(),
            i <= j <= n,
            mid == s@.subrange(i as int, n as int),
            forall|k: int| j <= k < n ==> unicode_white_space(#[trigger] s@[k]),
        decreases j,
    {
        j = j - 1;
    }
    proof {
        assert forall|k: int| j - i <= k < mid.len() implies unicode_white_space(
            #[trigger] mid[k],
        ) by {
            assert(mid[k] == s@[k + i]);
        }
        if j > i {
            assert(mid[j - i - 1] == s@[j - 1]);
        }
        lemma_trim_end(mid, j - i);
        assert(mid.subrange(0, j - i) =~= s@.subrange(i as int, j as int));
    }
    let mut r: Vec<char> = Vec::new();
    let mut k: usize = i;
    while k < j
        invariant
            n == s@.len(),
            i <= k <= j <= n,
            r@ == s@.subrange(i as int, k as int),
        decreases j - k,
    {
        r.push(s[k]);
        assert(s@.subrange(i as int, k + 1) == s@.subrange(i as int, k as int).push(s@[k as int]));
        k = k + 1;
    }
    r
}

} // verus!

verus! {

/// `s` padded on the left with `fill` up to `width` characters; longer text
/// is kept whole.
pub open spec fn pad_left(s: Seq<char>, width: nat, fill: char) -> Seq<char> {
    if s.len() >= width {
        s
    } else {
        Seq::new((width - s.len()) as nat, |_i: int| fill) + s
    }
}

/// The decimal text of a signed number, with a leading `-` when negative.
pub open spec fn signed_decimal(n: int) -> Seq<char> {
    if n < 0 {
        seq!['-'] + decimal((-n) as nat)
    } else {
        decimal(n as nat)
    }
}

/// Ten to the power `k`.
pub open spec fn pow10(k: nat) -> nat
    decreases k,
{
    if k == 0 {
        1
    } else {
        10 * pow10((k - 1) as nat)
    }
}

pub proof fn lemma_decimal_len_bound(n: nat, k: nat)
    requires
        n < pow10(k),
        k >= 1,
    ensures
        decimal(n).len() <= k,
    decreases n,
{
    if n >= 10 {
        assert(pow10(1) == 10) by {
            reveal_with_fuel(pow10, 2);
        }
        assert(k >= 2);
        assert(n / 10 < pow10((k - 1) as nat));
        lemma_decimal_len_bound(n / 10, (k - 1) as nat);
    }
}

/// The number of decimal digits of `n`.
pub fn decimal_len(n: u64) -> (r: usize)
    ensures
        r == decimal(n as nat).len(),
        r <= 20,
    decreases n,
{
    proof {
        reveal_with_fuel(pow10, 21);
        assert(pow10(20) == 100000000000000000000nat);
        lemma_decimal_len_bound(n as nat, 20);
    }
    if n < 10 {
        1
    } else {
        let k = decimal_len(n / 10);
        k + 1
    }
}

/// Appends `count` copies of `c`.
pub fn push_repeated(out: &mut String, c: char, count: usize)
    ensures
        final(out)@ == old(out)@ + Seq::new(count as nat, |_i: int| c),
{
    let mut i: usize = 0;
    while i < count
        invariant
            i <= count,
            out@ == old(out)@ + Seq::new(i as nat, |_i: int| c),
        decreases count - i,
    {
        out.push(c);
        i = i + 1;
        assert(out@ =~= old(out)@ + Seq::new(i as nat, |_i: int| c));
    }
}

/// Appends the decimal digits of `n`, padded on the left with zeros to
/// `width` characters (as `{:0width$}` writes an unsigned number).
pub fn push_zero_padded(out: &mut String, n: u64, width: usize)
    ensures
        final(out)@ == old(out)@ + pad_left(decimal(n as nat), width as nat, '0'),
{
    let len = decimal_len(n);
    if len < width {
        push_repeated(out, '0', width - len);
    }
    push_decimal(out, n);
    assert(out@ =~= old(out)@ + pad_left(decimal(n as nat), width as nat, '0'));
}

/// Appends the decimal text of `n`, padded on the left with spaces to
/// `width` characters (as `{:width$}` writes a signed number).
pub fn push_space_padded(out: &mut String, n: i64, width: usize)
    ensures
        final(out)@ == old(out)@ + pad_left(signed_decimal(n as int), width as nat, ' '),
{
    let negative = n < 0;
    let magnitude: u64 = if negative {
        (0i128 - (n as i128)) as u64
    } else {
        n as u64
    };
    let digits = decimal_len(magnitude);
    let len = if negative {
        digits + 1
    } else {
        digits
    };
    assert(len == signed_decimal(n as int).len());
    if len < width {
        push_repeated(out, ' ', width - len);
    }
    if negative {
        out.push('-');
    }
    push_decimal(out, magnitude);
    assert(out@ =~= old(out)@ + pad_left(signed_decimal(n as int), width as nat, ' '));
}

} // verus!

verus! {

/// Whether `c` is an ASCII decimal digit.
pub open spec fn is_digit(c: char) -> bool {
    '0' <= c && c <= '9'
}

/// The value of a string of decimal digits.
pub open spec fn digits_value(s: Seq<char>) -> nat
    decreases s.len(),
{
    if s.len() == 0 {
        0
    } else {
        10 * digits_value(s.drop_last()) + ((s.last() as u32) - 48) as nat
    }
}

/// `s` without one leading `+`.
pub open spec fn strip_plus(s: Seq<char>) -> Seq<char> {
    if s.len() > 0 && s[0] == '+' {
        s.drop_first()
    } else {
        s
    }
}

/// Every character of `s` is a decimal digit.
pub open spec fn all_digits(s: Seq<char>) -> bool {
    forall|i: int| 0 <= i < s.len() ==> is_digit(#[trigger] s[i])
}

/// What `str::parse::<u64>` accepts: an optional `+`, then one or more
/// decimal digits whose value fits in 64 bits.
pub open spec fn parse_u64_spec(s: Seq<char>) -> Option<u64> {
    let body = strip_plus(s);
    if body.len() == 0 || !all_digits(body) {
        None
    } else if digits_value(body) > u64::MAX {
        None
    } else {
        Some(digits_value(body) as u64)
    }
}

proof fn lemma_digits_value_grows(s: Seq<char>, i: int)
    requires
        0 <= i <= s.len(),
        forall|k: int| 0 <= k < s.len() ==> is_digit(s[k]),
    ensures
        digits_value(s.take(i)) <= digits_value(s),
    decreases s.len() - i,
{
    if i < s.len() {
        let t = s.drop_last();
        assert(t.take(i) =~= s.take(i));
        assert forall|k: int| 0 <= k < t.len() implies is_digit(t[k]) by {
            assert(t[k] == s[k]);
        }
        lemma_digits_value_grows(t, i);
        assert(s.take(s.len() as int) =~= s);
    } else {
        assert(s.take(i) =~= s);
    }
}

/// Parses a number the way `str::parse::<u64>` does.
pub fn parse_u64(s: &str) -> (r: Option<u64>)
    ensures
        r == parse_u64_spec(s@),
{
    let chars = chars_of(s);
    let n = chars.len();
    let start: usize = if n > 0 && chars[0] == '+' {
        1
    } else {
        0
    };
    let ghost body = strip_plus(s@);
    assert(body =~= chars@.subrange(start as int, n as int));
    if start == n {
        return None;
    }
    for i in start..n
        invariant
            n == chars@.len(),
            start <= n,
            body == chars@.subrange(start as int, n as int),
            body == strip_plus(s@),
            forall|k: int| 0 <= k < i - start ==> is_digit(body[k]),
    {
        assert(body[i - start] == chars@[i as int]);
        if !('0' <= chars[i] && chars[i] <= '9') {
            assert(!is_digit(body[i - start]));
            return None;
        }
    }
    let mut acc: u64 = 0;
    for i in start..n
        invariant
            n == chars@.len(),
            start < n,
            body == chars@.subrange(start as int, n as int),
            body == strip_plus(s@),
            forall|k: int| 0 <= k < body.len() ==> is_digit(body[k]),
            acc == digits_value(body.take(i - start)),
    {
        let c = chars[i];
        assert(c == body[i - start]);
        let d: u64 = ((c as u32) - 48) as u64;
        assert(body.take(i - start + 1).drop_last() =~= body.take(i - start));
        assert(body.take(i - start + 1).last() == c);
        assert(digits_value(body.take(i - start + 1)) == 10 * acc + d);
        if acc > (u64::MAX - d) / 10 {
            proof {
                lemma_digits_value_grows(body, i - start + 1);
                assert(10 * acc + d > u64::MAX);
            }
            return None;
        }
        acc = acc * 10 + d;
    }
    assert(body.take(n - start) =~= body);
    Some(acc)
}

} // verus!

verus! {

/// The first `max_chars` characters of `s` (all of `s` when it is shorter).
pub fn truncate_str(s: &str, max_chars: usize) -> (r: String)
    ensures
        r@ == if s@.len() <= max_chars {
            s@
        } else {
            s@.take(max_chars as int)
        },
{
    let chars = chars_of(s);
    if chars.len() <= max_chars {
        string_of(chars.as_slice())
    } else {
        let mut r = String::new();
        for i in 0..max_chars
            invariant
                max_chars < chars@.len(),
                chars@ == s@,
                r@ == chars@.take(i as int),
        {
            r.push(chars[i]);
            assert(chars@.take(i + 1) == chars@.take(i as int).push(chars@[i as int]));
        }
        r
    }
}

} // verus!

verus! {

/// `s` with ASCII letters lowered.
pub open spec fn lower_ascii(s: Seq<char>) -> Seq<char> {
    s.map_values(|c: char| ascii_lower(c))
}

pub proof fn lemma_lower_char(c: char)
    ensures
        (c as u32) < 128 ==> (ascii_lower(c) as u32) < 128,
        ascii_lower(ascii_lower(c)) == ascii_lower(c),
        (ascii_lower(c) == '+') == (c == '+'),
        unicode_white_space(ascii_lower(c)) == unicode_white_space(c),
{
}

proof fn lemma_lower_push(s: Seq<char>, c: char)
    ensures
        lower_ascii(s.push(c)) == lower_ascii(s).push(ascii_lower(c)),
{
    assert(lower_ascii(s.push(c)) =~= lower_ascii(s).push(ascii_lower(c)));
}

/// Lowering ASCII letters commutes with splitting at `+`, and the pieces of
/// ASCII text are ASCII.
pub proof fn lemma_split_lower(s: Seq<char>)
    requires
        all_ascii(s),
    ensures
        split_on(lower_ascii(s), '+') == split_on(s, '+').map_values(|p: Seq<char>| lower_ascii(p)),
        forall|i: int| 0 <= i < split_on(s, '+').len() ==> all_ascii(#[trigger] split_on(s, '+')[i]),
    decreases s.len(),
{
    lemma_split_on_nonempty(s, '+');
    let l = lower_ascii(s);
    if s.len() == 0 {
        assert(l =~= s);
        assert(s =~= Seq::<char>::empty());
        assert(lower_ascii(Seq::<char>::empty()) =~= Seq::<char>::empty());
        assert(split_on(s, '+').map_values(|p: Seq<char>| lower_ascii(p)) =~= seq![
            Seq::<char>::empty(),
        ]);
    } else {
        let d = s.drop_last();
        let c = s.last();
        assert(all_ascii(d)) by {
            assert forall|i: int| 0 <= i < d.len() implies (#[trigger] d[i] as u32) < 128 by {
                assert(d[i] == s[i]);
            }
        }
        assert((c as u32) < 128) by {
            assert(s[s.len() - 1] == c);
        }
        lemma_split_lower(d);
        lemma_split_on_nonempty(d, '+');
        assert(l.drop_last() =~= lower_ascii(d));
        assert(l.last() == ascii_lower(c));
        lemma_lower_char(c);
        let init = split_on(d, '+');
        let g = |p: Seq<char>| lower_ascii(p);
        if c == '+' {
            assert(split_on(s, '+') == init.push(Seq::<char>::empty()));
            assert(init.push(Seq::<char>::empty()).map_values(g) =~= init.map_values(g).push(
                Seq::<char>::empty(),
            )) by {
                assert(lower_ascii(Seq::<char>::empty()) =~= Seq::<char>::empty());
            }
            assert forall|i: int| 0 <= i < split_on(s, '+').len() implies all_ascii(
                #[trigger] split_on(s, '+')[i],
            ) by {
                if i < init.len() {
                    assert(split_on(s, '+')[i] == init[i]);
                }
            }
        } else {
            let last = init.last();
            assert(split_on(s, '+') == init.update(init.len() - 1, last.push(c)));
            lemma_lower_push(last, c);
            assert(init.map_values(g).last() == lower_ascii(last));
            assert(init.update(init.len() - 1, last.push(c)).map_values(g) =~= init.map_values(
                g,
            ).update(init.len() - 1, lower_ascii(last).push(ascii_lower(c))));
            assert forall|i: int| 0 <= i < split_on(s, '+').len() implies all_ascii(
                #[trigger] split_on(s, '+')[i],
            ) by {
                if i < init.len() - 1 {
                    assert(split_on(s, '+')[i] == init[i]);
                } else {
                    let q = last.push(c);
                    assert(split_on(s, '+')[i] == q);
                    assert(all_ascii(last)) by {
                        assert(init[init.len() - 1] == last);
                    }
                    assert forall|j: int| 0 <= j < q.len() implies (#[trigger] q[j] as u32) < 128 by {
                        if j < last.len() {
                            assert(q[j] == last[j]);
                        }
                    }
                }
            }
        }
    }
}

/// Lowering ASCII letters commutes with trimming white space, and trimmed
/// ASCII text is ASCII.
pub proof fn lemma_trim_lower(s: Seq<char>)
    requires
        all_ascii(s),
    ensures
        trim(lower_ascii(s)) == lower_ascii(trim(s)),
        all_ascii(trim(s)),
{
    lemma_trim_start_lower(s);
    lemma_trim_end_lower(trim_start(s));
}

proof fn lemma_trim_start_lower(s: Seq<char>)
    requires
        all_ascii(s),
    ensures
        trim_start(lower_ascii(s)) == lower_ascii(trim_start(s)),
        all_ascii(trim_start(s)),
    decreases s.len(),
{
    if s.len() > 0 {
        lemma_lower_char(s[0]);
        let l = lower_ascii(s);
        assert(l[0] == ascii_lower(s[0]));
        if unicode_white_space(s[0]) {
            let t = s.drop_first();
            assert(all_ascii(t)) by {
                assert forall|i: int| 0 <= i < t.len() implies (#[trigger] t[i] as u32) < 128 by {
                    assert(t[i] == s[i + 1]);
                }
            }
            assert(l.drop_first() =~= lower_ascii(t));
            lemma_trim_start_lower(t);
        }
    } else {
        assert(lower_ascii(s) =~= s);
    }
}

proof fn lemma_trim_end_lower(s: Seq<char>)
    requires
        all_ascii(s),
    ensures
        trim_end(lower_ascii(s)) == lower_ascii(trim_end(s)),
        all_ascii(trim_end(s)),
    decreases s.len(),
{
    if s.len() > 0 {
        lemma_lower_char(s.last());
        let l = lower_ascii(s);
        assert(s[s.len() - 1] == s.last());
        assert(l.last() == ascii_lower(s.last()));
        if unicode_white_space(s.last()) {
            let t = s.drop_last();
            assert(all_ascii(t)) by {
                assert forall|i: int| 0 <= i < t.len() implies (#[trigger] t[i] as u32) < 128 by {
                    assert(t[i] == s[i]);
                }
            }
            assert(l.drop_last() =~= lower_ascii(t));
            lemma_trim_end_lower(t);
        }
    } else {
        assert(lower_ascii(s) =~= s);
    }
}

/// ASCII text lowers to ASCII text, and lowering it again changes nothing.
pub proof fn lemma_lowercase_lower(s: Seq<char>)
    requires
        all_ascii(s),
    ensures
        all_ascii(lower_ascii(s)),
        lowercase(lower_ascii(s)) == lowercase(s),
{
    let l = lower_ascii(s);
    assert forall|i: int| 0 <= i < l.len() implies (#[trigger] l[i] as u32) < 128 by {
        lemma_lower_char(s[i]);
    }
    assert forall|i: int| 0 <= i < l.len() implies #[trigger] lower_ascii(l)[i] == l[i] by {
        lemma_lower_char(s[i]);
    }
    assert(lower_ascii(l) =~= l);
}

/// `c` with ASCII `a`..`z` mapped to `A`..`Z`, other characters kept, as
/// `to_ascii_uppercase` maps them.
pub open spec fn ascii_upper(c: char) -> char {
    if 'a' <= c && c <= 'z' {
        ((c as u32) - 32) as char
    } else {
        c
    }
}

/// `s` with ASCII letters raised.
pub open spec fn upper_ascii(s: Seq<char>) -> Seq<char> {
    s.map_values(|c: char| ascii_upper(c))
}

/// Raising the ASCII letters of ASCII text keeps it ASCII, and lowering it
/// afterwards is lowering it.
pub proof fn lemma_upper_then_lower(s: Seq<char>)
    requires
        all_ascii(s),
    ensures
        all_ascii(upper_ascii(s)),
        lower_ascii(upper_ascii(s)) == lower_ascii(s),
{
    let u = upper_ascii(s);
    assert forall|i: int| 0 <= i < u.len() implies (#[trigger] u[i] as u32) < 128 by {
        assert(u[i] == ascii_upper(s[i]));
    }
    assert forall|i: int| 0 <= i < u.len() implies #[trigger] lower_ascii(u)[i] == lower_ascii(
        s,
    )[i] by {
        assert(u[i] == ascii_upper(s[i]));
    }
    assert(lower_ascii(u) =~= lower_ascii(s));
}

} // verus!
