//! Text of identifiers, paths and file names: splitting, trimming, and
//! decimal reading and writing of years.

use vstd::prelude::*;

verus! {

/// `String::push`: appends `c` to `s`.
#[verifier::external_body]
fn push_char(s: &mut String, c: char)
    ensures
        final(s)@ == old(s)@.push(c),
{
    s.push(c)
}

/// The upper-case form of `s` by the Unicode `Uppercase` mapping, as
/// `str::to_uppercase` makes it.
pub uninterp spec fn unicode_uppercase(s: Seq<char>) -> Seq<char>;

/// Whether every character of `s` is ASCII.
pub open spec fn all_ascii(s: Seq<char>) -> bool {
    forall|i: int| 0 <= i < s.len() ==> (#[trigger] s[i]) as int <= 0x7f
}

/// The ASCII upper case of `c`: `a` to `z` become `A` to `Z`.
pub open spec fn ascii_upper(c: char) -> char {
    if 'a' as int <= c as int <= 'z' as int {
        (c as int - 32) as char
    } else {
        c
    }
}

/// The ASCII lower case of `c`: `A` to `Z` become `a` to `z`.
pub open spec fn ascii_lower(c: char) -> char {
    if 'A' as int <= c as int <= 'Z' as int {
        (c as int + 32) as char
    } else {
        c
    }
}

/// `s` in ASCII upper case, character by character.
pub open spec fn ascii_upper_text(s: Seq<char>) -> Seq<char> {
    s.map_values(|c: char| ascii_upper(c))
}

/// `s` in ASCII lower case, character by character.
pub open spec fn ascii_lower_text(s: Seq<char>) -> Seq<char> {
    s.map_values(|c: char| ascii_lower(c))
}

/// `str::to_uppercase`: the text of `s` in upper case. Its result is named;
/// of an ASCII text it is the ASCII upper case, letter by letter. The Unicode
/// case mapping of other characters is left unsaid.
#[verifier::external_body]
pub(crate) fn to_uppercase(s: &str) -> (r: String)
    ensures
        r@ == unicode_uppercase(s@),
        all_ascii(s@) ==> r@ == ascii_upper_text(s@),
{
    s.to_uppercase()
}

/// The decimal digit character of `d` (0 to 9).
pub open spec fn digit_char(d: int) -> char {
    if d == 0 {
        '0'
    } else if d == 1 {
        '1'
    } else if d == 2 {
        '2'
    } else if d == 3 {
        '3'
    } else if d == 4 {
        '4'
    } else if d == 5 {
        '5'
    } else if d == 6 {
        '6'
    } else if d == 7 {
        '7'
    } else if d == 8 {
        '8'
    } else {
        '9'
    }
}

/// The decimal digits of `m`, most significant first, with no leading zero.
pub open spec fn digits_of(m: nat) -> Seq<char>
    decreases m,
{
    if m < 10 {
        seq![digit_char(m as int)]
    } else {
        digits_of(m / 10).push(digit_char((m % 10) as int))
    }
}

/// The decimal text of `n`: a `-` before the digits of a negative number.
pub open spec fn decimal(n: int) -> Seq<char> {
    if n < 0 {
        seq!['-'] + digits_of((-n) as nat)
    } else {
        digits_of(n as nat)
    }
}

fn digit_to_char(d: u64) -> (c: char)
    requires
        d < 10,
    ensures
        c == digit_char(d as int),
{
    if d == 0 {
        '0'
    } else if d == 1 {
        '1'
    } else if d == 2 {
        '2'
    } else if d == 3 {
        '3'
    } else if d == 4 {
        '4'
    } else if d == 5 {
        '5'
    } else if d == 6 {
        '6'
    } else if d == 7 {
        '7'
    } else if d == 8 {
        '8'
    } else {
        '9'
    }
}

/// Appends the decimal text of `n` to `out`, as `{}` formats an integer.
pub fn push_decimal(out: &mut String, n: i32)
    ensures
        final(out)@ == old(out)@ + decimal(n as int),
{
    let neg = n < 0;
    let orig: u64 = if neg {
        (0i64 - (n as i64)) as u64
    } else {
        n as u64
    };
    let mut cur: u64 = orig;
    let mut rev: Vec<char> = Vec::new();
    while cur >= 10
        invariant
            digits_of(orig as nat) == digits_of(cur as nat) + rev@.reverse(),
        decreases cur,
    {
        let d = cur % 10;
        let c = digit_to_char(d);
        proof {
            assert(digits_of(cur as nat) == digits_of((cur / 10) as nat).push(c));
            assert(rev@.push(c).reverse() =~= seq![c] + rev@.reverse());
            assert(digits_of((cur / 10) as nat).push(c) + rev@.reverse() =~= digits_of(
                (cur / 10) as nat,
            ) + (seq![c] + rev@.reverse()));
        }
        rev.push(c);
        cur = cur / 10;
    }
    let first = digit_to_char(cur);
    rev.push(first);
    assert(rev@.reverse() =~= seq![first] + rev@.drop_last().reverse());
    assert(digits_of(orig as nat) == rev@.reverse());
    let ghost start = out@;
    if neg {
        push_char(out, '-');
    }
    let ghost head = out@;
    let mut k: usize = rev.len();
    while k > 0
        invariant
            k <= rev@.len(),
            out@ == head + rev@.reverse().take(rev@.len() - k),
        decreases k,
    {
        let c = rev[k - 1];
        push_char(out, c);
        k = k - 1;
        assert(rev@.reverse().take(rev@.len() - k) =~= rev@.reverse().take(rev@.len() - k - 1).push(c));
    }
    assert(rev@.reverse().take(rev@.len() as int) =~= rev@.reverse());
    proof {
        if neg {
            assert((-(n as int)) as nat == orig as nat);
            assert(out@ =~= start + decimal(n as int));
        } else {
            assert(out@ =~= start + decimal(n as int));
        }
    }
}

/// The pieces of `s` between occurrences of `sep`, as `str::split` yields
/// them: one more piece than there are separators, empty ones included.
pub open spec fn split_on(s: Seq<char>, sep: char) -> Seq<Seq<char>>
    decreases s.len(),
{
    if s.len() == 0 {
        seq![Seq::<char>::empty()]
    } else {
        let parts = split_on(s.drop_last(), sep);
        if s.last() == sep {
            parts.push(Seq::<char>::empty())
        } else {
            parts.update(parts.len() - 1, parts.last().push(s.last()))
        }
    }
}

pub proof fn lemma_split_nonempty(s: Seq<char>, sep: char)
    ensures
        split_on(s, sep).len() >= 1,
    decreases s.len(),
{
    if s.len() > 0 {
        lemma_split_nonempty(s.drop_last(), sep);
    }
}

/// Splitting a text mapped character by character gives the pieces mapped,
/// when the map keeps the separator and makes no other character one.
pub proof fn lemma_split_map(s: Seq<char>, sep: char, f: spec_fn(char) -> char)
    requires
        forall|c: char| (#[trigger] f(c) == sep) == (c == sep),
    ensures
        split_on(s.map_values(f), sep) =~~= split_on(s, sep).map_values(
            |p: Seq<char>| p.map_values(f),
        ),
    decreases s.len(),
{
    let g = |p: Seq<char>| p.map_values(f);
    let t = s.map_values(f);
    if s.len() == 0 {
        assert(t =~= Seq::<char>::empty());
        assert(Seq::<char>::empty().map_values(f) =~= Seq::<char>::empty());
    } else {
        assert(t.drop_last() =~= s.drop_last().map_values(f));
        assert(t.last() == f(s.last()));
        lemma_split_map(s.drop_last(), sep, f);
        lemma_split_nonempty(s.drop_last(), sep);
        let parts = split_on(s.drop_last(), sep);
        if s.last() == sep {
            assert(Seq::<char>::empty().map_values(f) =~= Seq::<char>::empty());
            assert(parts.push(Seq::<char>::empty()).map_values(g) =~~= parts.map_values(g).push(
                Seq::<char>::empty(),
            ));
        } else {
            let k = parts.len() - 1;
            assert(parts.last().push(s.last()).map_values(f) =~= parts.last().map_values(f).push(
                f(s.last()),
            ));
            assert(parts.update(k, parts.last().push(s.last())).map_values(g) =~~= parts.map_values(
                g,
            ).update(k, parts.map_values(g).last().push(f(s.last()))));
        }
    }
}

/// The pieces of an ASCII text are ASCII.
pub proof fn lemma_split_ascii(s: Seq<char>, sep: char)
    requires
        all_ascii(s),
    ensures
        forall|k: int| 0 <= k < split_on(s, sep).len() ==> all_ascii(#[trigger] split_on(s, sep)[k]),
    decreases s.len(),
{
    if s.len() > 0 {
        assert(all_ascii(s.drop_last())) by {
            assert forall|i: int| 0 <= i < s.drop_last().len() implies (
            #[trigger] s.drop_last()[i]) as int <= 0x7f by {
                assert(s.drop_last()[i] == s[i]);
            }
        }
        lemma_split_ascii(s.drop_last(), sep);
        lemma_split_nonempty(s.drop_last(), sep);
        let parts = split_on(s.drop_last(), sep);
        assert(s.last() as int <= 0x7f) by {
            assert(s.last() == s[s.len() - 1]);
        }
        if s.last() != sep {
            let k = parts.len() - 1;
            assert(all_ascii(parts[k]));
            assert forall|i: int| 0 <= i < parts.last().push(s.last()).len() implies (
            #[trigger] parts.last().push(s.last())[i]) as int <= 0x7f by {
                if i < parts.last().len() {
                    assert(parts.last()[i] == parts[k][i]);
                }
            }
        }
    }
}

/// The ASCII upper case of a text is unchanged by putting the text in ASCII
/// upper or lower case first.
pub proof fn lemma_upper_absorbs(p: Seq<char>)
    ensures
        ascii_upper_text(ascii_upper_text(p)) == ascii_upper_text(p),
        ascii_upper_text(ascii_lower_text(p)) == ascii_upper_text(p),
{
    assert(ascii_upper_text(ascii_upper_text(p)) =~= ascii_upper_text(p));
    assert(ascii_upper_text(ascii_lower_text(p)) =~= ascii_upper_text(p));
}

/// Putting an ASCII text in ASCII upper or lower case keeps it ASCII.
pub proof fn lemma_case_keeps_ascii(s: Seq<char>)
    requires
        all_ascii(s),
    ensures
        all_ascii(ascii_upper_text(s)),
        all_ascii(ascii_lower_text(s)),
{
    assert forall|i: int| 0 <= i < ascii_upper_text(s).len() implies (
    #[trigger] ascii_upper_text(s)[i]) as int <= 0x7f by {
        assert(s[i] as int <= 0x7f);
    }
    assert forall|i: int| 0 <= i < ascii_lower_text(s).len() implies (
    #[trigger] ascii_lower_text(s)[i]) as int <= 0x7f by {
        assert(s[i] as int <= 0x7f);
    }
}

/// The texts of a list of strings.
pub open spec fn texts(v: Seq<String>) -> Seq<Seq<char>> {
    v.map_values(|p: String| p@)
}

/// `s.split(sep)`, collected.
pub fn split(s: &str, sep: char) -> (r: Vec<String>)
    ensures
        texts(r@) == split_on(s@, sep),
{
    let n = s.unicode_len();
    let mut parts: Vec<String> = Vec::new();
    let mut cur = String::new();
    let mut i: usize = 0;
    while i < n
        invariant
            n == s@.len(),
            0 <= i <= n,
            texts(parts@).push(cur@) == split_on(s@.take(i as int), sep),
        decreases n - i,
    {
        let c = s.get_char(i);
        proof {
            assert(s@.take(i + 1).drop_last() =~= s@.take(i as int));
            lemma_split_nonempty(s@.take(i as int), sep);
        }
        if c == sep {
            let done = cur;
            parts.push(done);
            cur = String::new();
            assert(texts(parts@).push(cur@) =~= split_on(s@.take(i + 1), sep));
        } else {
            let ghost before = texts(parts@).push(cur@);
            push_char(&mut cur, c);
            assert(texts(parts@).push(cur@) =~= before.update(before.len() - 1, before.last().push(c)));
        }
        i = i + 1;
    }
    assert(s@.take(n as int) =~= s@);
    parts.push(cur);
    assert(texts(parts@) =~= split_on(s@, sep));
    parts
}

/// Whether `c` has the Unicode `White_Space` property, which `char::is_whitespace`
/// and `str::trim` go by.
pub open spec fn is_white_space(c: char) -> bool {
    let u = c as int;
    (0x9 <= u <= 0xd) || u == 0x20 || u == 0x85 || u == 0xa0 || u == 0x1680 || (0x2000 <= u
        <= 0x200a) || u == 0x2028 || u == 0x2029 || u == 0x202f || u == 0x205f || u == 0x3000
}

fn white_space(c: char) -> (r: bool)
    ensures
        r == is_white_space(c),
{
    let u = c as u32;
    (0x9 <= u && u <= 0xd) || u == 0x20 || u == 0x85 || u == 0xa0 || u == 0x1680 || (0x2000 <= u
        && u <= 0x200a) || u == 0x2028 || u == 0x2029 || u == 0x202f || u == 0x205f || u == 0x3000
}

/// The number of white-space characters that `s` begins with.
pub open spec fn leading_white(s: Seq<char>) -> nat
    decreases s.len(),
{
    if s.len() > 0 && is_white_space(s[0]) {
        1 + leading_white(s.drop_first())
    } else {
        0
    }
}

/// The number of white-space characters that `s` ends with.
pub open spec fn trailing_white(s: Seq<char>) -> nat
    decreases s.len(),
{
    if s.len() > 0 && is_white_space(s.last()) {
        1 + trailing_white(s.drop_last())
    } else {
        0
    }
}

/// `s` without its leading and trailing white space, as `str::trim` gives it.
pub open spec fn trimmed(s: Seq<char>) -> Seq<char> {
    let rest = s.subrange(leading_white(s) as int, s.len() as int);
    rest.subrange(0, rest.len() - trailing_white(rest))
}

pub proof fn lemma_leading_white(s: Seq<char>, i: int)
    requires
        0 <= i <= s.len(),
        forall|j: int| 0 <= j < i ==> is_white_space(s[j]),
        i == s.len() || !is_white_space(s[i]),
    ensures
        leading_white(s) == i,
    decreases i,
{
    if i > 0 {
        lemma_leading_white(s.drop_first(), i - 1);
    }
}

pub proof fn lemma_trailing_white(s: Seq<char>, k: int)
    requires
        0 <= k <= s.len(),
        forall|j: int| s.len() - k <= j < s.len() ==> is_white_space(s[j]),
        k == s.len() || !is_white_space(s[s.len() - k - 1]),
    ensures
        trailing_white(s) == k,
    decreases k,
{
    if k > 0 {
        lemma_trailing_white(s.drop_last(), k - 1);
    }
}

/// `s.trim()`.
pub fn trim(s: &str) -> (r: &str)
    ensures
        r@ == trimmed(s@),
{
    let n = s.unicode_len();
    let mut a: usize = 0;
    while a < n && white_space(s.get_char(a))
        invariant
            n == s@.len(),
            0 <= a <= n,
            forall|j: int| 0 <= j < a ==> is_white_space(s@[j]),
        decreases n - a,
    {
        a = a + 1;
    }
    proof {
        lemma_leading_white(s@, a as int);
    }
    let rest = s.substring_char(a, n);
    let m = n - a;
    let mut k: usize = 0;
    while k < m && white_space(rest.get_char(m - k - 1))
        invariant
            m == rest@.len(),
            0 <= k <= m,
            forall|j: int| m - k <= j < m ==> is_white_space(rest@[j]),
        decreases m - k,
    {
        k = k + 1;
    }
    proof {
        lemma_trailing_white(rest@, k as int);
    }
    rest.substring_char(0, m - k)
}

/// Whether `c` is a decimal digit.
pub open spec fn is_digit(c: char) -> bool {
    '0' as int <= c as int <= '9' as int
}

/// The value of the decimal digits `ds`.
pub open spec fn digits_value(ds: Seq<char>) -> int
    decreases ds.len(),
{
    if ds.len() == 0 {
        0
    } else {
        digits_value(ds.drop_last()) * 10 + (ds.last() as int - '0' as int)
    }
}

/// Whether every character of `ds` is a decimal digit.
pub open spec fn all_digits(ds: Seq<char>) -> bool {
    forall|i: int| 0 <= i < ds.len() ==> is_digit(#[trigger] ds[i])
}

/// Whether `s` begins with a sign, `+` or `-`.
pub open spec fn has_sign(s: Seq<char>) -> bool {
    s.len() > 0 && (s[0] == '-' || s[0] == '+')
}

/// `s` without its leading sign, if it has one.
pub open spec fn unsigned_part(s: Seq<char>) -> Seq<char> {
    if has_sign(s) {
        s.drop_first()
    } else {
        s
    }
}

/// The `i32` that `s` writes, as `str::parse::<i32>` reads it: an optional `+`
/// or `-`, then one or more decimal digits, and a value in range; `None` for
/// any other text.
pub open spec fn parse_i32(s: Seq<char>) -> Option<i32> {
    let ds = unsigned_part(s);
    let v = if s.len() > 0 && s[0] == '-' {
        -digits_value(ds)
    } else {
        digits_value(ds)
    };
    if ds.len() > 0 && all_digits(ds) && i32::MIN <= v <= i32::MAX {
        Some(v as i32)
    } else {
        None
    }
}

proof fn lemma_value_grows(ds: Seq<char>, k: int)
    requires
        0 <= k <= ds.len(),
        all_digits(ds),
    ensures
        0 <= digits_value(ds.take(k)) <= digits_value(ds),
    decreases ds.len(),
{
    if ds.len() > 0 {
        if k == ds.len() {
            assert(ds.take(k) =~= ds);
            lemma_value_grows(ds.drop_last(), ds.len() - 1);
            assert(ds.drop_last().take(ds.len() - 1) =~= ds.drop_last());
        } else {
            lemma_value_grows(ds.drop_last(), k);
            assert(ds.drop_last().take(k) =~= ds.take(k));
            lemma_value_grows(ds.drop_last(), ds.len() - 1);
            assert(ds.drop_last().take(ds.len() - 1) =~= ds.drop_last());
            assert(is_digit(ds[ds.len() - 1]));
        }
    } else {
        assert(ds.take(k) =~= ds);
    }
}

proof fn lemma_digit_char(d: int)
    requires
        0 <= d < 10,
    ensures
        is_digit(digit_char(d)),
        digit_char(d) as int - '0' as int == d,
{
}

/// The digits of a number are digits, at least one, and have its value.
pub proof fn lemma_digits_of(m: nat)
    ensures
        digits_of(m).len() >= 1,
        all_digits(digits_of(m)),
        digits_value(digits_of(m)) == m,
    decreases m,
{
    lemma_digit_char((m % 10) as int);
    if m < 10 {
        let d = digits_of(m);
        assert(d.drop_last() =~= Seq::<char>::empty());
        assert(digits_value(Seq::<char>::empty()) == 0);
        assert(digits_value(d) == digits_value(d.drop_last()) * 10 + (d.last() as int - '0' as int));
    }
    if m >= 10 {
        lemma_digits_of(m / 10);
        let d = digits_of(m);
        assert(d.last() == digit_char((m % 10) as int));
        assert((m / 10) * 10 + m % 10 == m);
        assert(digits_value(d) == digits_value(d.drop_last()) * 10 + (d.last() as int - '0' as int));
        assert(d.drop_last() =~= digits_of(m / 10));
        assert forall|i: int| 0 <= i < d.len() implies is_digit(#[trigger] d[i]) by {
            if i < d.len() - 1 {
                assert(d[i] == digits_of(m / 10)[i]);
            }
        }
    }
}

/// Reading the decimal text of a number gives the number back.
pub proof fn lemma_parse_decimal(n: i32)
    ensures
        parse_i32(decimal(n as int)) == Some(n),
{
    if n < 0 {
        let m = (-n) as nat;
        lemma_digits_of(m);
        let d = decimal(n as int);
        assert(d.drop_first() =~= digits_of(m));
        assert(has_sign(d));
        assert(unsigned_part(d) == digits_of(m));
    } else {
        let m = n as nat;
        lemma_digits_of(m);
        let d = decimal(n as int);
        assert(is_digit(d[0]));
        assert(!has_sign(d));
    }
}

/// The decimal text of a number neither begins nor ends with white space, and
/// holds no `.`.
pub proof fn lemma_decimal_plain(n: i32)
    ensures
        decimal(n as int).len() >= 1,
        !is_white_space(decimal(n as int)[0]),
        !is_white_space(decimal(n as int).last()),
        forall|i: int| 0 <= i < decimal(n as int).len() ==> #[trigger] decimal(n as int)[i] != '.',
{
    let m = if n < 0 {
        (-n) as nat
    } else {
        n as nat
    };
    lemma_digits_of(m);
    let d = decimal(n as int);
    assert forall|i: int| 0 <= i < d.len() implies #[trigger] d[i] != '.' by {
        if n < 0 {
            if i > 0 {
                assert(d[i] == digits_of(m)[i - 1]);
                assert(is_digit(digits_of(m)[i - 1]));
            }
        } else {
            assert(is_digit(digits_of(m)[i]));
        }
    }
    if n < 0 {
        assert(d.last() == digits_of(m).last());
        assert(is_digit(digits_of(m)[digits_of(m).len() - 1]));
    } else {
        assert(is_digit(digits_of(m)[0]));
        assert(is_digit(digits_of(m)[digits_of(m).len() - 1]));
    }
}

/// `s.parse::<i32>().ok()`.
pub fn parse_i32_text(s: &str) -> (r: Option<i32>)
    ensures
        r == parse_i32(s@),
{
    let n = s.unicode_len();
    if n == 0 {
        return None;
    }
    let c0 = s.get_char(0);
    let neg = c0 == '-';
    let start: usize = if c0 == '-' || c0 == '+' {
        1
    } else {
        0
    };
    let ghost ds = unsigned_part(s@);
    assert(ds =~= s@.subrange(start as int, n as int));
    if start == n {
        return None;
    }
    let mut acc: u64 = 0;
    let mut i: usize = start;
    while i < n
        invariant
            n == s@.len(),
            start <= i <= n,
            ds == s@.subrange(start as int, n as int),
            n > 0,
            ds == unsigned_part(s@),
            acc == digits_value(ds.take(i - start)),
            acc <= 2147483648,
            forall|j: int| 0 <= j < i - start ==> is_digit(#[trigger] ds[j]),
        decreases n - i,
    {
        let c = s.get_char(i);
        assert(c == ds[i - start]);
        if !('0' <= c && c <= '9') {
            proof {
                assert(!is_digit(ds[i - start]));
                assert(!all_digits(ds));
            }
            return None;
        }
        let d = (c as u32 - '0' as u32) as u64;
        assert(ds.take(i - start + 1).drop_last() =~= ds.take(i - start));
        acc = acc * 10 + d;
        i = i + 1;
        assert(acc == digits_value(ds.take(i - start)));
        if acc > 2147483648 {
            proof {
                if all_digits(ds) {
                    lemma_value_grows(ds, i - start);
                }
            }
            return None;
        }
    }
    assert(ds.take(n - start) =~= ds);
    if neg {
        if acc <= 2147483648 {
            Some((0i64 - acc as i64) as i32)
        } else {
            None
        }
    } else {
        if acc <= 2147483647 {
            Some(acc as i32)
        } else {
            None
        }
    }
}

/// The index of the last `.` in `s`, if any.
pub open spec fn last_dot(s: Seq<char>) -> Option<int>
    decreases s.len(),
{
    if s.len() == 0 {
        None
    } else if s.last() == '.' {
        Some(s.len() - 1)
    } else {
        last_dot(s.drop_last())
    }
}

/// The stem of a file name, as `Path::file_stem` takes it: the name before its
/// last `.`, or the whole name where there is no `.`, where the only `.` begins
/// it, or where the name is `..`.
pub open spec fn file_stem(name: Seq<char>) -> Seq<char> {
    if name == seq!['.', '.'] {
        name
    } else {
        match last_dot(name) {
            Some(i) => if i == 0 {
                name
            } else {
                name.subrange(0, i)
            },
            None => name,
        }
    }
}

pub proof fn lemma_last_dot(s: Seq<char>, k: int)
    requires
        -1 <= k < s.len(),
        forall|j: int| k < j < s.len() ==> s[j] != '.',
        k == -1 || s[k] == '.',
    ensures
        last_dot(s) == if k == -1 {
            None::<int>
        } else {
            Some(k)
        },
    decreases s.len(),
{
    if s.len() > 0 && k != s.len() - 1 {
        lemma_last_dot(s.drop_last(), k);
    }
}

/// The stem of file name `name`.
pub fn stem(name: &str) -> (r: &str)
    ensures
        r@ == file_stem(name@),
{
    let n = name.unicode_len();
    if n == 2 && name.get_char(0) == '.' && name.get_char(1) == '.' {
        assert(name@ =~= seq!['.', '.']);
        return name;
    }
    assert(name@ != seq!['.', '.']);
    let mut k: usize = n;
    while k > 0 && name.get_char(k - 1) != '.'
        invariant
            n == name@.len(),
            0 <= k <= n,
            forall|j: int| k <= j < n ==> name@[j] != '.',
        decreases k,
    {
        k = k - 1;
    }
    proof {
        lemma_last_dot(name@, k - 1);
    }
    if k <= 1 {
        name
    } else {
        name.substring_char(0, k - 1)
    }
}

} // verus!
