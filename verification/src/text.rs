use vstd::prelude::*;

verus! {

/// `String::push` appends one character to the end of the string.
pub assume_specification[ String::push ](s: &mut String, ch: char)
    ensures
        final(s)@ == old(s)@.push(ch),
;

/// The characters of `s`, in order.
pub fn chars_of(s: &str) -> (r: Vec<char>)
    ensures
        r@ == s@,
{
    let mut out: Vec<char> = Vec::new();
    for c in it: s.chars()
        invariant
            it.seq() == s@,
            out@.len() == it.index(),
            forall|i: int| 0 <= i < out@.len() ==> out@[i] == it.seq()[i],
    {
        out.push(c);
    }
    assert(out@ =~= s@);
    out
}

/// The string made of the characters of `v`, in order.
pub fn string_of(v: &Vec<char>) -> (r: String)
    ensures
        r@ == v@,
{
    let mut out = String::new();
    let mut i: usize = 0;
    while i < v.len()
        invariant
            i <= v.len(),
            out@ == v@.subrange(0, i as int),
        decreases v.len() - i,
    {
        out.push(v[i]);
        i += 1;
        assert(out@ =~= v@.subrange(0, i as int));
    }
    assert(v@.subrange(0, v@.len() as int) =~= v@);
    out
}

/// Whether `c` is one of the ten decimal digits.
pub open spec fn is_digit_char(c: char) -> bool {
    '0' <= c && c <= '9'
}

/// The character that writes the digit `d`.
pub open spec fn digit_char_of(d: int) -> char
    recommends
        0 <= d <= 9,
{
    (('0' as int + d) as u32) as char
}

/// The digit that `c` writes.
pub open spec fn digit_value_of(c: char) -> int
    recommends
        is_digit_char(c),
{
    c as int - '0' as int
}

/// The decimal digits of `n`, most significant first, without leading
/// zeros; zero is written `0`.
pub open spec fn decimal(n: nat) -> Seq<char>
    decreases n,
{
    if n < 10 {
        seq![digit_char_of(n as int)]
    } else {
        decimal(n / 10).push(digit_char_of((n % 10) as int))
    }
}

/// The character that writes a digit.
pub fn digit_char(d: u8) -> (c: char)
    requires
        d <= 9,
    ensures
        c == digit_char_of(d as int),
        is_digit_char(c),
        digit_value_of(c) == d,
{
    (48u8 + d) as char
}

/// Whether a character is one of the ten decimal digits.
pub fn is_digit(c: char) -> (b: bool)
    ensures
        b == is_digit_char(c),
{
    c >= '0' && c <= '9'
}

/// The digit that a character writes.
pub fn digit_value(c: char) -> (d: u8)
    requires
        is_digit_char(c),
    ensures
        d == digit_value_of(c),
        d <= 9,
        digit_char_of(d as int) == c,
{
    (c as u32 - 48u32) as u8
}

/// Appends the decimal digits of `n` to `out`.
pub fn push_decimal(out: &mut Vec<char>, n: u64)
    ensures
        final(out)@ == old(out)@ + decimal(n as nat),
    decreases n,
{
    if n < 10 {
        out.push(digit_char(n as u8));
        assert(out@ =~= old(out)@ + decimal(n as nat));
    } else {
        push_decimal(out, n / 10);
        out.push(digit_char((n % 10) as u8));
        assert(out@ =~= old(out)@ + decimal(n as nat));
    }
}

/// Appends the characters of `s` to `out`.
pub fn push_str(out: &mut Vec<char>, s: &str)
    ensures
        final(out)@ == old(out)@ + s@,
{
    let mut v = chars_of(s);
    out.append(&mut v);
}

/// Appends the characters of `v` to `out`.
pub fn push_chars(out: &mut Vec<char>, v: &Vec<char>)
    ensures
        final(out)@ == old(out)@ + v@,
{
    let mut i: usize = 0;
    while i < v.len()
        invariant
            i <= v.len(),
            out@ == old(out)@ + v@.subrange(0, i as int),
        decreases v.len() - i,
    {
        out.push(v[i]);
        i += 1;
        assert(out@ =~= old(out)@ + v@.subrange(0, i as int));
    }
    assert(v@.subrange(0, v@.len() as int) =~= v@);
}


/// Whether two texts hold the same characters.
pub fn chars_equal(a: &Vec<char>, b: &Vec<char>) -> (r: bool)
    ensures
        r == (a@ == b@),
{
    if a.len() != b.len() {
        return false;
    }
    let mut i: usize = 0;
    while i < a.len()
        invariant
            i <= a.len(),
            a.len() == b.len(),
            a@.subrange(0, i as int) == b@.subrange(0, i as int),
        decreases a.len() - i,
    {
        if a[i] != b[i] {
            return false;
        }
        i += 1;
        assert(a@.subrange(0, i as int) =~= a@.subrange(0, i as int - 1).push(a@[i as int - 1]));
        assert(b@.subrange(0, i as int) =~= b@.subrange(0, i as int - 1).push(b@[i as int - 1]));
    }
    assert(a@ =~= a@.subrange(0, a@.len() as int));
    assert(b@ =~= b@.subrange(0, b@.len() as int));
    true
}

/// Whether a character is white space: the characters with the Unicode
/// property `White_Space`.
pub open spec fn is_white_space(c: char) -> bool {
    let code = c as u32;
    ||| 0x09 <= code <= 0x0D
    ||| code == 0x20
    ||| code == 0x85
    ||| code == 0xA0
    ||| code == 0x1680
    ||| 0x2000 <= code <= 0x200A
    ||| code == 0x2028
    ||| code == 0x2029
    ||| code == 0x202F
    ||| code == 0x205F
    ||| code == 0x3000
}

/// Whether a character is white space.
pub fn is_whitespace(c: char) -> (b: bool)
    ensures
        b == is_white_space(c),
{
    let code: u32 = c as u32;
    (0x09 <= code && code <= 0x0D) || code == 0x20 || code == 0x85 || code == 0xA0 || code
        == 0x1680 || (0x2000 <= code && code <= 0x200A) || code == 0x2028 || code == 0x2029
        || code == 0x202F || code == 0x205F || code == 0x3000
}

/// A text without the white space at its start.
pub open spec fn trim_start_of(s: Seq<char>) -> Seq<char>
    decreases s.len(),
{
    if s.len() > 0 && is_white_space(s[0]) {
        trim_start_of(s.subrange(1, s.len() as int))
    } else {
        s
    }
}

/// A text without the white space at its end.
pub open spec fn trim_end_of(s: Seq<char>) -> Seq<char>
    decreases s.len(),
{
    if s.len() > 0 && is_white_space(s[s.len() - 1]) {
        trim_end_of(s.subrange(0, s.len() - 1))
    } else {
        s
    }
}

/// A text without the white space at its start and at its end.
pub open spec fn trimmed(s: Seq<char>) -> Seq<char> {
    trim_end_of(trim_start_of(s))
}

/// A text without the white space at its start and at its end.
pub fn trim(s: &Vec<char>) -> (r: Vec<char>)
    ensures
        r@ == trimmed(s@),
{
    let n = s.len();
    let mut start: usize = 0;
    proof {
        assert(s@.subrange(0, n as int) =~= s@);
    }
    while start < n && is_whitespace(s[start])
        invariant
            start <= n,
            n == s.len(),
            trim_start_of(s@.subrange(start as int, n as int)) == trim_start_of(s@),
        decreases n - start,
    {
        proof {
            let rest = s@.subrange(start as int, n as int);
            assert(rest[0] == s@[start as int]);
            assert(rest.subrange(1, rest.len() as int) =~= s@.subrange(start as int + 1, n as int));
        }
        start += 1;
    }
    proof {
        let rest = s@.subrange(start as int, n as int);
        if start < n {
            assert(rest[0] == s@[start as int]);
        }
        assert(trim_start_of(s@) == rest);
        assert(s@ =~= s@.subrange(0, n as int));
    }
    let mut end: usize = n;
    while end > start && is_whitespace(s[end - 1])
        invariant
            start <= end <= n,
            n == s.len(),
            trim_end_of(s@.subrange(start as int, end as int)) == trimmed(s@),
        decreases end - start,
    {
        proof {
            let part = s@.subrange(start as int, end as int);
            assert(part[part.len() - 1] == s@[end as int - 1]);
            assert(part.subrange(0, part.len() - 1) =~= s@.subrange(start as int, end as int - 1));
        }
        end -= 1;
    }
    proof {
        let part = s@.subrange(start as int, end as int);
        if end > start {
            assert(part[part.len() - 1] == s@[end as int - 1]);
        }
        assert(trimmed(s@) == part);
    }
    let mut out: Vec<char> = Vec::new();
    let mut i: usize = start;
    while i < end
        invariant
            start <= i <= end <= n,
            n == s.len(),
            out@ == s@.subrange(start as int, i as int),
        decreases end - i,
    {
        out.push(s[i]);
        i += 1;
        assert(out@ =~= s@.subrange(start as int, i as int));
    }
    out
}

/// The pieces of a text between the occurrences of a separator: one more
/// piece than the separator occurs, and the only piece of an empty text is
/// empty.
pub open spec fn split_on(s: Seq<char>, separator: char) -> Seq<Seq<char>>
    decreases s.len(),
{
    if s.len() == 0 {
        seq![Seq::<char>::empty()]
    } else {
        let before = split_on(s.subrange(0, s.len() - 1), separator);
        if s[s.len() - 1] == separator {
            before.push(Seq::<char>::empty())
        } else {
            before.update(before.len() - 1, before[before.len() - 1].push(s[s.len() - 1]))
        }
    }
}

/// The views of the texts of a list, in order.
pub open spec fn views_of(parts: Seq<Vec<char>>) -> Seq<Seq<char>> {
    parts.map_values(|p: Vec<char>| p@)
}

/// The pieces of a text between the occurrences of a separator.
pub fn split(s: &Vec<char>, separator: char) -> (r: Vec<Vec<char>>)
    ensures
        views_of(r@) == split_on(s@, separator),
        r@.len() >= 1,
{
    let mut parts: Vec<Vec<char>> = Vec::new();
    let mut current: Vec<char> = Vec::new();
    let mut i: usize = 0;
    while i < s.len()
        invariant
            i <= s.len(),
            views_of(parts@).push(current@) == split_on(s@.subrange(0, i as int), separator),
        decreases s.len() - i,
    {
        let ghost before = split_on(s@.subrange(0, i as int), separator);
        let ghost old_parts = views_of(parts@);
        let ghost old_current = current@;
        proof {
            let next = s@.subrange(0, i as int + 1);
            assert(next.subrange(0, next.len() - 1) =~= s@.subrange(0, i as int));
            assert(next[next.len() - 1] == s@[i as int]);
            assert(before.len() == old_parts.len() + 1);
            assert(before[before.len() - 1] == old_current);
        }
        if s[i] == separator {
            parts.push(current);
            current = Vec::new();
            proof {
                assert(views_of(parts@) =~= old_parts.push(old_current));
                assert(views_of(parts@).push(current@) =~= before.push(Seq::<char>::empty()));
            }
        } else {
            current.push(s[i]);
            proof {
                assert(views_of(parts@).push(current@) =~= before.update(
                    before.len() - 1,
                    old_current.push(s@[i as int]),
                ));
            }
        }
        i += 1;
    }
    proof {
        assert(s@.subrange(0, s@.len() as int) =~= s@);
    }
    let ghost old_parts = views_of(parts@);
    let ghost last = current@;
    parts.push(current);
    proof {
        assert(views_of(parts@) =~= old_parts.push(last));
    }
    parts
}

/// Whether `pattern` stands in `s` at place `at`.
pub open spec fn occurs_at(s: Seq<char>, pattern: Seq<char>, at: int) -> bool {
    0 <= at && at + pattern.len() <= s.len() && s.subrange(at, at + pattern.len()) == pattern
}

/// Whether `pattern` stands somewhere in `s`.
pub open spec fn occurs_in(s: Seq<char>, pattern: Seq<char>) -> bool {
    exists|at: int| occurs_at(s, pattern, at)
}

/// Whether `pattern` stands in `s` at place `at`.
pub fn matches_at(s: &Vec<char>, pattern: &Vec<char>, at: usize) -> (r: bool)
    requires
        at <= s.len(),
    ensures
        r == occurs_at(s@, pattern@, at as int),
{
    let m = pattern.len();
    if m > s.len() - at {
        return false;
    }
    let mut j: usize = 0;
    while j < m
        invariant
            j <= m,
            m == pattern.len(),
            at + m <= s.len(),
            s@.subrange(at as int, at as int + j as int) == pattern@.subrange(0, j as int),
        decreases m - j,
    {
        if s[at + j] != pattern[j] {
            proof {
                let window = s@.subrange(at as int, at as int + m as int);
                assert(window[j as int] == s@[at as int + j as int]);
            }
            return false;
        }
        j += 1;
        proof {
            assert(s@.subrange(at as int, at as int + j as int) =~= s@.subrange(
                at as int,
                at as int + j as int - 1,
            ).push(s@[at as int + j as int - 1]));
            assert(pattern@.subrange(0, j as int) =~= pattern@.subrange(0, j as int - 1).push(
                pattern@[j as int - 1],
            ));
        }
    }
    proof {
        assert(pattern@.subrange(0, m as int) =~= pattern@);
    }
    true
}

/// Whether a text starts with `pattern`.
pub fn starts_with(s: &Vec<char>, pattern: &Vec<char>) -> (r: bool)
    ensures
        r == occurs_at(s@, pattern@, 0),
{
    matches_at(s, pattern, 0)
}

/// Whether `pattern` stands somewhere in `s`.
pub fn contains(s: &Vec<char>, pattern: &Vec<char>) -> (r: bool)
    ensures
        r == occurs_in(s@, pattern@),
{
    let mut at: usize = 0;
    while at < s.len()
        invariant
            at <= s.len(),
            forall|k: int| 0 <= k < at ==> !occurs_at(s@, pattern@, k),
        decreases s.len() - at,
    {
        if matches_at(s, pattern, at) {
            return true;
        }
        at += 1;
    }
    matches_at(s, pattern, at)
}

/// A text in which every occurrence of a pattern is replaced, the
/// occurrences found from left to right and none of them overlapping another.
/// With an empty pattern the text stays as it is.
pub open spec fn replaced(s: Seq<char>, pattern: Seq<char>, with: Seq<char>) -> Seq<char>
    decreases s.len(),
{
    if pattern.len() == 0 || s.len() == 0 {
        s
    } else if occurs_at(s, pattern, 0) {
        with + replaced(s.subrange(pattern.len() as int, s.len() as int), pattern, with)
    } else {
        seq![s[0]] + replaced(s.subrange(1, s.len() as int), pattern, with)
    }
}

/// A text in which every occurrence of a pattern is replaced.
pub fn replace_all(s: &Vec<char>, pattern: &Vec<char>, with: &Vec<char>) -> (r: Vec<char>)
    ensures
        r@ == replaced(s@, pattern@, with@),
{
    let n = s.len();
    let m = pattern.len();
    let mut out: Vec<char> = Vec::new();
    if m == 0 {
        push_chars(&mut out, s);
        return out;
    }
    let mut i: usize = 0;
    proof {
        assert(s@.subrange(0, n as int) =~= s@);
    }
    while i < n
        invariant
            i <= n,
            n == s.len(),
            m == pattern.len(),
            m > 0,
            out@ + replaced(s@.subrange(i as int, n as int), pattern@, with@) == replaced(
                s@,
                pattern@,
                with@,
            ),
        decreases n - i,
    {
        let ghost rest = s@.subrange(i as int, n as int);
        let ghost done = out@;
        if matches_at(s, pattern, i) {
            proof {
                assert(rest.subrange(0, m as int) =~= s@.subrange(i as int, i as int + m as int));
                assert(occurs_at(rest, pattern@, 0));
                assert(rest.subrange(m as int, rest.len() as int) =~= s@.subrange(
                    i as int + m as int,
                    n as int,
                ));
            }
            push_chars(&mut out, with);
            i += m;
            proof {
                assert(out@ + replaced(s@.subrange(i as int, n as int), pattern@, with@) =~= done + (
                with@ + replaced(s@.subrange(i as int, n as int), pattern@, with@)));
            }
        } else {
            proof {
                if occurs_at(rest, pattern@, 0) {
                    assert(rest.subrange(0, m as int) =~= s@.subrange(
                        i as int,
                        i as int + m as int,
                    ));
                }
                assert(!occurs_at(rest, pattern@, 0));
                assert(rest[0] == s@[i as int]);
                assert(rest.subrange(1, rest.len() as int) =~= s@.subrange(i as int + 1, n as int));
            }
            out.push(s[i]);
            i += 1;
            proof {
                assert(out@ + replaced(s@.subrange(i as int, n as int), pattern@, with@) =~= done + (
                seq![s@[i as int - 1]] + replaced(
                    s@.subrange(i as int, n as int),
                    pattern@,
                    with@,
                )));
            }
        }
    }
    proof {
        assert(out@ + Seq::<char>::empty() =~= out@);
    }
    out
}

/// The texts of a list one after the other, the separator between each two.
pub open spec fn joined(parts: Seq<Seq<char>>, separator: Seq<char>) -> Seq<char>
    decreases parts.len(),
{
    if parts.len() == 0 {
        Seq::<char>::empty()
    } else if parts.len() == 1 {
        parts[0]
    } else {
        joined(parts.subrange(0, parts.len() - 1), separator) + separator + parts[parts.len() - 1]
    }
}

/// The views of the strings of a list, in order.
pub open spec fn string_views_of(parts: Seq<String>) -> Seq<Seq<char>> {
    parts.map_values(|p: String| p@)
}

/// The strings of a list one after the other, the separator between each
/// two.
pub fn join(parts: &Vec<String>, separator: &str) -> (r: Vec<char>)
    ensures
        r@ == joined(string_views_of(parts@), separator@),
{
    let mut out: Vec<char> = Vec::new();
    let mut i: usize = 0;
    while i < parts.len()
        invariant
            i <= parts.len(),
            out@ == joined(string_views_of(parts@).subrange(0, i as int), separator@),
        decreases parts.len() - i,
    {
        let ghost before = string_views_of(parts@).subrange(0, i as int);
        let ghost next = string_views_of(parts@).subrange(0, i as int + 1);
        proof {
            assert(next.subrange(0, next.len() - 1) =~= before);
            assert(next[next.len() - 1] == parts@[i as int]@);
        }
        if i > 0 {
            push_str(&mut out, separator);
        }
        push_str(&mut out, parts[i].as_str());
        proof {
            if i == 0 {
                assert(out@ =~= parts@[0]@);
            }
        }
        i += 1;
    }
    proof {
        assert(string_views_of(parts@).subrange(0, parts@.len() as int) =~= string_views_of(
            parts@,
        ));
    }
    out
}


/// The number of bytes that a text takes in UTF-8, as `str::len` counts
/// them.
pub open spec fn byte_len(s: Seq<char>) -> usize {
    vstd::utf8::encode_utf8(s).len() as usize
}

/// The number of bytes that a text takes in UTF-8.
pub fn byte_len_of(s: &str) -> (r: usize)
    ensures
        r == byte_len(s@),
{
    s.len()
}

/// Whether every character of a text is a decimal digit.
pub open spec fn all_digits(s: Seq<char>) -> bool {
    forall|i: int| 0 <= i < s.len() ==> is_digit_char(#[trigger] s[i])
}

/// The number that a text of decimal digits writes; 0 for the empty text.
pub open spec fn digits_value(s: Seq<char>) -> nat
    decreases s.len(),
{
    if s.len() == 0 {
        0
    } else {
        (digits_value(s.subrange(0, s.len() - 1)) * 10 + digit_value_of(s[s.len() - 1])) as nat
    }
}

/// The number below 2^32 that a text writes: decimal digits, at least one,
/// and nothing else. Any other text writes no number.
pub open spec fn parsed_u32(s: Seq<char>) -> Option<u32> {
    if s.len() == 0 || !all_digits(s) || digits_value(s) > u32::MAX {
        None
    } else {
        Some(digits_value(s) as u32)
    }
}

/// A text of digits writes at least the number that any of its starts
/// writes.
pub proof fn lemma_digits_value_grows(s: Seq<char>, upto: int)
    requires
        all_digits(s),
        0 <= upto <= s.len(),
    ensures
        digits_value(s.subrange(0, upto)) <= digits_value(s),
    decreases s.len() - upto,
{
    if upto < s.len() {
        let next = s.subrange(0, upto + 1);
        assert(next.subrange(0, next.len() - 1) =~= s.subrange(0, upto));
        assert(is_digit_char(s[upto]));
        assert(next[next.len() - 1] == s[upto]);
        lemma_digits_value_grows(s, upto + 1);
    } else {
        assert(s.subrange(0, upto) =~= s);
    }
}

/// The number below 2^32 that a text writes, if it writes one.
pub fn parse_u32(s: &Vec<char>) -> (r: Option<u32>)
    ensures
        r == parsed_u32(s@),
{
    let n = s.len();
    if n == 0 {
        return None;
    }
    let mut value: u64 = 0;
    let mut i: usize = 0;
    while i < n
        invariant
            i <= n,
            n == s.len(),
            all_digits(s@.subrange(0, i as int)),
            value == digits_value(s@.subrange(0, i as int)),
            value <= u32::MAX,
        decreases n - i,
    {
        let c = s[i];
        let ghost before = s@.subrange(0, i as int);
        let ghost next = s@.subrange(0, i as int + 1);
        proof {
            assert(next.subrange(0, next.len() - 1) =~= before);
            assert(next[next.len() - 1] == s@[i as int]);
        }
        if !is_digit(c) {
            proof {
                assert(!is_digit_char(s@[i as int]));
            }
            return None;
        }
        let grown: u64 = value * 10 + digit_value(c) as u64;
        proof {
            assert forall|k: int| 0 <= k < next.len() implies is_digit_char(#[trigger] next[k]) by {
                if k < next.len() - 1 {
                    assert(next[k] == before[k]);
                }
            }
            assert(grown == digits_value(next));
        }
        if grown > 0xFFFF_FFFF {
            proof {
                if all_digits(s@) {
                    lemma_digits_value_grows(s@, i as int + 1);
                }
            }
            return None;
        }
        value = grown;
        i += 1;
    }
    proof {
        assert(s@.subrange(0, n as int) =~= s@);
    }
    Some(value as u32)
}

} // verus!
