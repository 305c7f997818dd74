use vstd::prelude::*;

verus! {

// ---------------------------------------------------------------------------------------
// Building and reading strings
// ---------------------------------------------------------------------------------------

/// Appends one character to a string.
///
/// Trusted: `String::push`; claims that the new contents are the old ones followed by `c`.
#[verifier::external_body]
pub(crate) fn push_char(s: &mut String, c: char)
    ensures
        final(s)@ == old(s)@.push(c),
{
    s.push(c)
}

/// The characters of `s`, in order.
pub fn chars_of(s: &str) -> (v: Vec<char>)
    ensures
        v@ == s@,
{
    let mut v: Vec<char> = Vec::new();
    for c in it: s.chars()
        invariant
            v@ == it.seq().take(it.index() as int),
    {
        v.push(c);
    }
    v
}

/// A string holding the characters of `s[from..to]`.
pub fn string_from_range(s: &Vec<char>, from: usize, to: usize) -> (r: String)
    requires
        from <= to <= s.len(),
    ensures
        r@ == s@.subrange(from as int, to as int),
{
    let mut r = String::new();
    let mut i = from;
    while i < to
        invariant
            from <= i <= to <= s.len(),
            r@ == s@.subrange(from as int, i as int),
        decreases to - i,
    {
        push_char(&mut r, s[i]);
        i = i + 1;
        assert(r@ =~= s@.subrange(from as int, i as int));
    }
    r
}

/// A string holding the characters of `s`.
pub fn string_from_chars(s: &Vec<char>) -> (r: String)
    ensures
        r@ == s@,
{
    let r = string_from_range(s, 0, s.len());
    assert(s@.subrange(0, s@.len() as int) =~= s@);
    r
}

/// A string holding the characters of a literal or other `&str`.
pub fn owned(s: &str) -> (r: String)
    ensures
        r@ == s@,
{
    s.to_owned()
}

/// `a` followed by `b`.
pub fn concat(a: &str, b: &str) -> (r: String)
    ensures
        r@ == a@ + b@,
{
    let mut r = a.to_owned();
    r.append(b);
    r
}

/// Whether two strings hold the same characters.
pub fn str_eq(a: &str, b: &str) -> (r: bool)
    ensures
        r == (a@ == b@),
{
    let x = a.to_owned();
    let y = b.to_owned();
    x == y
}

/// A copy of every string of `v`.
pub fn clone_strings(v: &Vec<String>) -> (r: Vec<String>)
    ensures
        r.deep_view() == v.deep_view(),
{
    let mut r: Vec<String> = Vec::new();
    let mut i: usize = 0;
    while i < v.len()
        invariant
            i <= v.len(),
            r.len() == i,
            forall|j: int| 0 <= j < i ==> #[trigger] r@[j]@ == v@[j]@,
        decreases v.len() - i,
    {
        r.push(v[i].clone());
        i = i + 1;
    }
    assert(r.deep_view() =~= v.deep_view());
    r
}

// ---------------------------------------------------------------------------------------
// Prefixes, suffixes, searching
// ---------------------------------------------------------------------------------------

/// `s` begins with `p`.
pub open spec fn spec_starts_with(s: Seq<char>, p: Seq<char>) -> bool {
    p.len() <= s.len() && s.subrange(0, p.len() as int) == p
}

/// `s` ends with `p`.
pub open spec fn spec_ends_with(s: Seq<char>, p: Seq<char>) -> bool {
    p.len() <= s.len() && s.subrange(s.len() - p.len(), s.len() as int) == p
}

/// The index of the first `c` in `s`, if there is one.
pub open spec fn spec_find_char(s: Seq<char>, c: char) -> Option<int>
    decreases s.len(),
{
    if s.len() == 0 {
        None
    } else if s[0] == c {
        Some(0)
    } else {
        match spec_find_char(s.drop_first(), c) {
            Some(i) => Some(i + 1),
            None => None,
        }
    }
}

/// Whether `s` begins with `p` (`str::starts_with`).
pub fn starts_with(s: &str, p: &str) -> (r: bool)
    ensures
        r == spec_starts_with(s@, p@),
{
    let sv = chars_of(s);
    let pv = chars_of(p);
    if pv.len() > sv.len() {
        return false;
    }
    let mut i: usize = 0;
    while i < pv.len()
        invariant
            pv.len() <= sv.len(),
            i <= pv.len(),
            sv@ == s@,
            pv@ == p@,
            sv@.subrange(0, i as int) == pv@.subrange(0, i as int),
        decreases pv.len() - i,
    {
        if sv[i] != pv[i] {
            assert(sv@.subrange(0, pv@.len() as int)[i as int] != pv@[i as int]);
            return false;
        }
        i = i + 1;
        assert(sv@.subrange(0, i as int) =~= pv@.subrange(0, i as int));
    }
    assert(pv@.subrange(0, i as int) =~= pv@);
    true
}

/// Whether `s` ends with `p` (`str::ends_with`).
pub fn ends_with(s: &str, p: &str) -> (r: bool)
    ensures
        r == spec_ends_with(s@, p@),
{
    let sv = chars_of(s);
    let pv = chars_of(p);
    if pv.len() > sv.len() {
        return false;
    }
    let off = sv.len() - pv.len();
    let mut i: usize = 0;
    while i < pv.len()
        invariant
            pv.len() <= sv.len(),
            off == sv.len() - pv.len(),
            i <= pv.len(),
            sv@ == s@,
            pv@ == p@,
            sv@.subrange(off as int, off + i) == pv@.subrange(0, i as int),
        decreases pv.len() - i,
    {
        if sv[off + i] != pv[i] {
            assert(sv@.subrange(off as int, sv@.len() as int)[i as int] != pv@[i as int]);
            return false;
        }
        i = i + 1;
        assert(sv@.subrange(off as int, off + i) =~= pv@.subrange(0, i as int));
    }
    assert(pv@.subrange(0, i as int) =~= pv@);
    true
}

/// The index of the first `c` in `s`.
pub fn find_char(s: &Vec<char>, c: char) -> (r: Option<usize>)
    ensures
        match r {
            Some(i) => spec_find_char(s@, c) == Some(i as int),
            None => spec_find_char(s@, c) is None,
        },
{
    let mut i: usize = 0;
    while i < s.len()
        invariant
            i <= s.len(),
            forall|j: int| 0 <= j < i ==> s@[j] != c,
        decreases s.len() - i,
    {
        if s[i] == c {
            proof {
                lemma_find_char_at(s@, c, i as int);
            }
            return Some(i);
        }
        i = i + 1;
    }
    proof {
        lemma_find_char_none(s@, c);
    }
    None
}

/// The first `c` of `s` is at `i` when no earlier character is `c`.
pub proof fn lemma_find_char_at(s: Seq<char>, c: char, i: int)
    requires
        0 <= i < s.len(),
        s[i] == c,
        forall|j: int| 0 <= j < i ==> s[j] != c,
    ensures
        spec_find_char(s, c) == Some(i),
    decreases i,
{
    if i > 0 {
        lemma_find_char_at(s.drop_first(), c, i - 1);
    }
}

/// There is no first `c` in `s` when no character is `c`.
pub proof fn lemma_find_char_none(s: Seq<char>, c: char)
    requires
        forall|j: int| 0 <= j < s.len() ==> s[j] != c,
    ensures
        spec_find_char(s, c) is None,
    decreases s.len(),
{
    if s.len() > 0 {
        lemma_find_char_none(s.drop_first(), c);
    }
}

/// What `spec_find_char` finds is a `c`, and no earlier character is one.
pub proof fn lemma_find_char_found(s: Seq<char>, c: char)
    ensures
        spec_find_char(s, c) matches Some(i) ==> 0 <= i < s.len() && s[i] == c && forall|j: int|
            0 <= j < i ==> s[j] != c,
        spec_find_char(s, c) is None ==> forall|j: int| 0 <= j < s.len() ==> s[j] != c,
    decreases s.len(),
{
    if s.len() > 0 {
        lemma_find_char_found(s.drop_first(), c);
        if s[0] != c {
            assert forall|j: int| 1 <= j < s.len() implies s[j] == s.drop_first()[j - 1] by {}
        }
    }
}

/// Whether `c` occurs in `s`.
pub fn contains_char(s: &str, c: char) -> (r: bool)
    ensures
        r == s@.contains(c),
{
    let v = chars_of(s);
    let found = find_char(&v, c);
    proof {
        lemma_find_char_found(s@, c);
    }
    found.is_some()
}

/// `s` split at its first `c`: the text before it and the text after it (`str::split_once`).
pub open spec fn spec_split_once(s: Seq<char>, c: char) -> Option<(Seq<char>, Seq<char>)> {
    match spec_find_char(s, c) {
        Some(i) => Some((s.subrange(0, i), s.subrange(i + 1, s.len() as int))),
        None => None,
    }
}

/// `s` split at its first `c` (`str::split_once` with a one-character pattern).
pub fn split_once(s: &str, c: char) -> (r: Option<(String, String)>)
    ensures
        match r {
            Some((a, b)) => spec_split_once(s@, c) == Some((a@, b@)),
            None => spec_split_once(s@, c) is None,
        },
{
    let v = chars_of(s);
    match find_char(&v, c) {
        Some(i) => {
            proof {
                lemma_find_char_found(s@, c);
            }
            let a = string_from_range(&v, 0, i);
            let b = string_from_range(&v, i + 1, v.len());
            Some((a, b))
        },
        None => None,
    }
}

/// `s` without its first and last character: what is left of a quoted value once the
/// quotes are taken off. Shorter strings come out empty.
pub open spec fn spec_strip_ends(s: Seq<char>) -> Seq<char> {
    if s.len() >= 2 {
        s.subrange(1, s.len() - 1)
    } else {
        Seq::empty()
    }
}

/// `s` without its first and last character.
pub fn strip_ends(s: &str) -> (r: String)
    ensures
        r@ == spec_strip_ends(s@),
{
    let v = chars_of(s);
    if v.len() >= 2 {
        string_from_range(&v, 1, v.len() - 1)
    } else {
        String::new()
    }
}

// ---------------------------------------------------------------------------------------
// Lines
// ---------------------------------------------------------------------------------------

/// A line without the carriage return that a `\r\n` ending leaves on it.
pub open spec fn spec_trim_cr(line: Seq<char>) -> Seq<char> {
    if line.len() > 0 && line.last() == '\r' {
        line.drop_last()
    } else {
        line
    }
}

/// The lines that `s` finishes, and the unfinished line at its end.
pub open spec fn spec_lines_fold(s: Seq<char>) -> (Seq<Seq<char>>, Seq<char>)
    decreases s.len(),
{
    if s.len() == 0 {
        (Seq::empty(), Seq::empty())
    } else {
        let (done, cur) = spec_lines_fold(s.drop_last());
        if s.last() == '\n' {
            (done.push(spec_trim_cr(cur)), Seq::empty())
        } else {
            (done, cur.push(s.last()))
        }
    }
}

/// The lines of `s` as `str::lines` yields them: split at `\n`, a `\r` before the `\n`
/// dropped, and no empty line after a final line ending.
pub open spec fn spec_lines(s: Seq<char>) -> Seq<Seq<char>> {
    let (done, cur) = spec_lines_fold(s);
    if cur.len() == 0 {
        done
    } else {
        done.push(cur)
    }
}

/// The lines of `s` (`str::lines`).
pub fn lines(s: &str) -> (r: Vec<String>)
    ensures
        r.deep_view() == spec_lines(s@),
{
    let v = chars_of(s);
    let mut done: Vec<String> = Vec::new();
    let mut start: usize = 0;
    let mut i: usize = 0;
    while i < v.len()
        invariant
            v@ == s@,
            start <= i <= v.len(),
            spec_lines_fold(v@.subrange(0, i as int)) == (done.deep_view(), v@.subrange(
                start as int,
                i as int,
            )),
        decreases v.len() - i,
    {
        let ghost pre = v@.subrange(0, i as int);
        assert(v@.subrange(0, i + 1).drop_last() =~= pre);
        if v[i] == '\n' {
            let mut end = i;
            if end > start && v[end - 1] == '\r' {
                end = end - 1;
            }
            let line = string_from_range(&v, start, end);
            proof {
                assert(line@ =~= spec_trim_cr(v@.subrange(start as int, i as int)));
            }
            done.push(line);
            start = i + 1;
            i = i + 1;
            proof {
                assert(done.deep_view() =~= spec_lines_fold(pre).0.push(line@));
                assert(v@.subrange(start as int, i as int) =~= Seq::<char>::empty());
            }
        } else {
            i = i + 1;
            proof {
                assert(v@.subrange(start as int, i as int) =~= v@.subrange(
                    start as int,
                    i - 1,
                ).push(v@[i - 1]));
            }
        }
    }
    assert(v@.subrange(0, i as int) =~= s@);
    if start < v.len() {
        let last = string_from_range(&v, start, v.len());
        done.push(last);
        proof {
            assert(done.deep_view() =~= spec_lines_fold(s@).0.push(last@));
        }
    }
    done
}

// ---------------------------------------------------------------------------------------
// Numbers
// ---------------------------------------------------------------------------------------

/// The decimal digit for `d`.
pub open spec fn spec_digit_char(d: nat) -> char {
    (('0' as nat) + d) as char
}

/// `n` written in decimal, without leading zeros.
pub open spec fn spec_decimal(n: nat) -> Seq<char>
    decreases n,
{
    if n < 10 {
        seq![spec_digit_char(n)]
    } else {
        spec_decimal(n / 10).push(spec_digit_char(n % 10))
    }
}

/// `n` written in decimal with a `-` in front when negative (`i32::to_string`).
pub open spec fn spec_int_string(n: int) -> Seq<char> {
    if n < 0 {
        seq!['-'] + spec_decimal((-n) as nat)
    } else {
        spec_decimal(n as nat)
    }
}

fn digit_char(d: u64) -> (c: char)
    requires
        d < 10,
    ensures
        c == spec_digit_char(d as nat),
{
    if d == 0 { '0' }
    else if d == 1 { '1' }
    else if d == 2 { '2' }
    else if d == 3 { '3' }
    else if d == 4 { '4' }
    else if d == 5 { '5' }
    else if d == 6 { '6' }
    else if d == 7 { '7' }
    else if d == 8 { '8' }
    else { '9' }
}

fn decimal_digits(n: u64, out: &mut String)
    ensures
        final(out)@ == old(out)@ + spec_decimal(n as nat),
    decreases n,
{
    if n < 10 {
        push_char(out, digit_char(n));
        assert(out@ =~= old(out)@ + spec_decimal(n as nat));
    } else {
        decimal_digits(n / 10, out);
        push_char(out, digit_char(n % 10));
        assert(out@ =~= old(out)@ + spec_decimal(n as nat));
    }
}

/// `n` in decimal (`u64::to_string`).
pub fn u64_to_string(n: u64) -> (r: String)
    ensures
        r@ == spec_decimal(n as nat),
{
    let mut r = String::new();
    decimal_digits(n, &mut r);
    assert(r@ =~= spec_decimal(n as nat));
    r
}

/// `n` in decimal, with a `-` when negative (`i64::to_string`).
pub fn i64_to_string(n: i64) -> (r: String)
    ensures
        r@ == spec_int_string(n as int),
{
    let mut r = String::new();
    if n < 0 {
        push_char(&mut r, '-');
        let m: u64 = if n == i64::MIN {
            9223372036854775808u64
        } else {
            (-n) as u64
        };
        decimal_digits(m, &mut r);
        assert(r@ =~= spec_int_string(n as int));
    } else {
        decimal_digits(n as u64, &mut r);
        assert(r@ =~= spec_int_string(n as int));
    }
    r
}

/// Whether every character of `s` is an ASCII digit.
pub open spec fn spec_all_digits(s: Seq<char>) -> bool {
    forall|i: int| 0 <= i < s.len() ==> '0' <= #[trigger] s[i] <= '9'
}

/// The number that the ASCII digits `s` stand for.
pub open spec fn spec_digits_value(s: Seq<char>) -> int
    decreases s.len(),
{
    if s.len() == 0 {
        0
    } else {
        spec_digits_value(s.drop_last()) * 10 + (s.last() as int - '0' as int)
    }
}

/// What `str::parse::<i32>` gives: an optional `+` or `-`, then at least one ASCII digit,
/// and a value within the range of `i32`.
pub open spec fn spec_parse_i32(s: Seq<char>) -> Option<i32> {
    let neg = s.len() > 0 && s[0] == '-';
    let body = if s.len() > 0 && (s[0] == '-' || s[0] == '+') {
        s.drop_first()
    } else {
        s
    };
    if body.len() == 0 || !spec_all_digits(body) {
        None
    } else {
        let v = if neg {
            -spec_digits_value(body)
        } else {
            spec_digits_value(body)
        };
        if i32::MIN <= v <= i32::MAX {
            Some(v as i32)
        } else {
            None
        }
    }
}

proof fn lemma_digits_value_grows(s: Seq<char>, k: int)
    requires
        0 <= k <= s.len(),
        spec_all_digits(s),
    ensures
        spec_digits_value(s.subrange(0, k)) <= spec_digits_value(s),
        0 <= spec_digits_value(s.subrange(0, k)),
    decreases s.len() - k,
{
    if k < s.len() {
        let t = s.subrange(0, k + 1);
        assert(t.drop_last() =~= s.subrange(0, k));
        assert(spec_all_digits(t));
        lemma_digits_value_grows(s, k + 1);
    } else {
        assert(s.subrange(0, k) =~= s);
        lemma_digits_value_nonneg(s);
    }
}

proof fn lemma_digits_value_nonneg(s: Seq<char>)
    requires
        spec_all_digits(s),
    ensures
        0 <= spec_digits_value(s),
    decreases s.len(),
{
    if s.len() > 0 {
        assert(spec_all_digits(s.drop_last()));
        lemma_digits_value_nonneg(s.drop_last());
    }
}

/// `s` read as an `i32` (`str::parse::<i32>`), or `None` where that gives an error.
pub fn parse_i32(s: &str) -> (r: Option<i32>)
    ensures
        r == spec_parse_i32(s@),
{
    let v = chars_of(s);
    let neg = v.len() > 0 && v[0] == '-';
    let start: usize = if v.len() > 0 && (v[0] == '-' || v[0] == '+') {
        1
    } else {
        0
    };
    let ghost body = if s@.len() > 0 && (s@[0] == '-' || s@[0] == '+') {
        s@.drop_first()
    } else {
        s@
    };
    assert(body =~= v@.subrange(start as int, v@.len() as int));
    if start == v.len() {
        return None;
    }
    let mut acc: i64 = 0;
    let mut i = start;
    while i < v.len()
        invariant
            v@ == s@,
            start < v.len(),
            start <= i <= v.len(),
            body == v@.subrange(start as int, v@.len() as int),
            body == (if s@.len() > 0 && (s@[0] == '-' || s@[0] == '+') {
                s@.drop_first()
            } else {
                s@
            }),
            spec_all_digits(v@.subrange(start as int, i as int)),
            acc as int == spec_digits_value(v@.subrange(start as int, i as int)),
            0 <= acc <= 2147483648,
        decreases v.len() - i,
    {
        let c = v[i];
        if c < '0' || c > '9' {
            assert(body[i - start] == c);
            return None;
        }
        let d = (c as u32 - '0' as u32) as i64;
        let ghost prev = v@.subrange(start as int, i as int);
        assert(v@.subrange(start as int, i + 1).drop_last() =~= prev);
        let next = acc * 10 + d;
        if next > 2147483648 {
            proof {
                assert(spec_all_digits(v@.subrange(start as int, i + 1)));
                if spec_all_digits(body) {
                    assert(body.subrange(0, i + 1 - start) =~= v@.subrange(start as int, i + 1));
                    lemma_digits_value_grows(body, i + 1 - start);
                }
            }
            return None;
        }
        acc = next;
        i = i + 1;
    }
    assert(v@.subrange(start as int, i as int) =~= body);
    let value: i64 = if neg {
        -acc
    } else {
        acc
    };
    if value < -2147483648 || value > 2147483647 {
        None
    } else {
        Some(value as i32)
    }
}

// ---------------------------------------------------------------------------------------
// Escaping
// ---------------------------------------------------------------------------------------

/// The lowercase hexadecimal digit for `d`.
pub open spec fn spec_hex_char(d: nat) -> char {
    if d < 10 {
        (('0' as nat) + d) as char
    } else {
        (('a' as nat) + d - 10) as char
    }
}

/// `n` in lowercase hexadecimal, without leading zeros.
pub open spec fn spec_hex(n: nat) -> Seq<char>
    decreases n,
{
    if n < 16 {
        seq![spec_hex_char(n)]
    } else {
        spec_hex(n / 16).push(spec_hex_char(n % 16))
    }
}

/// What `char::escape_default` makes of `c`: a backslash escape for tab, carriage return,
/// line feed, backslash and the two quotes, printable ASCII as it is, and `\u{..}` with the
/// code point in hexadecimal for everything else.
pub open spec fn spec_escape_char(c: char) -> Seq<char> {
    if c == '\t' {
        seq!['\\', 't']
    } else if c == '\r' {
        seq!['\\', 'r']
    } else if c == '\n' {
        seq!['\\', 'n']
    } else if c == '\\' || c == '\'' || c == '"' {
        seq!['\\', c]
    } else if ' ' <= c <= '~' {
        seq![c]
    } else {
        seq!['\\', 'u', '{'] + spec_hex(c as nat) + seq!['}']
    }
}

/// `s` with every character escaped as `spec_escape_char` says (`str::escape_default`).
pub open spec fn spec_escape_default(s: Seq<char>) -> Seq<char>
    decreases s.len(),
{
    if s.len() == 0 {
        Seq::empty()
    } else {
        spec_escape_default(s.drop_last()) + spec_escape_char(s.last())
    }
}

fn hex_char(d: u32) -> (c: char)
    requires
        d < 16,
    ensures
        c == spec_hex_char(d as nat),
{
    if d < 10 {
        digit_char(d as u64)
    } else if d == 10 {
        'a'
    } else if d == 11 {
        'b'
    } else if d == 12 {
        'c'
    } else if d == 13 {
        'd'
    } else if d == 14 {
        'e'
    } else {
        'f'
    }
}

fn hex_digits(n: u32, out: &mut String)
    ensures
        final(out)@ == old(out)@ + spec_hex(n as nat),
    decreases n,
{
    if n < 16 {
        push_char(out, hex_char(n));
        assert(out@ =~= old(out)@ + spec_hex(n as nat));
    } else {
        hex_digits(n / 16, out);
        push_char(out, hex_char(n % 16));
        assert(out@ =~= old(out)@ + spec_hex(n as nat));
    }
}

fn escape_char_into(c: char, out: &mut String)
    ensures
        final(out)@ == old(out)@ + spec_escape_char(c),
{
    if c == '\t' {
        push_char(out, '\\');
        push_char(out, 't');
    } else if c == '\r' {
        push_char(out, '\\');
        push_char(out, 'r');
    } else if c == '\n' {
        push_char(out, '\\');
        push_char(out, 'n');
    } else if c == '\\' || c == '\'' || c == '"' {
        push_char(out, '\\');
        push_char(out, c);
    } else if ' ' <= c && c <= '~' {
        push_char(out, c);
    } else {
        push_char(out, '\\');
        push_char(out, 'u');
        push_char(out, '{');
        hex_digits(c as u32, out);
        push_char(out, '}');
    }
    assert(out@ =~= old(out)@ + spec_escape_char(c));
}

/// `s` with every character escaped (`str::escape_default`).
pub fn escape_default(s: &str) -> (r: String)
    ensures
        r@ == spec_escape_default(s@),
{
    let v = chars_of(s);
    let mut r = String::new();
    let mut i: usize = 0;
    while i < v.len()
        invariant
            i <= v.len(),
            v@ == s@,
            r@ == spec_escape_default(v@.subrange(0, i as int)),
        decreases v.len() - i,
    {
        escape_char_into(v[i], &mut r);
        i = i + 1;
        assert(v@.subrange(0, i as int).drop_last() =~= v@.subrange(0, i - 1));
    }
    assert(v@.subrange(0, i as int) =~= s@);
    r
}

// ---------------------------------------------------------------------------------------
// Paths
// ---------------------------------------------------------------------------------------

/// The path separator (`/`, as on Unix).
pub open spec fn is_sep(c: char) -> bool {
    c == '/'
}

/// The components list after one more piece of a path: empty pieces (from repeated
/// separators) and `.` pieces add nothing.
pub open spec fn spec_push_component(done: Seq<Seq<char>>, piece: Seq<char>) -> Seq<Seq<char>> {
    if piece.len() == 0 || piece == seq!['.'] {
        done
    } else {
        done.push(piece)
    }
}

/// The components that `s` finishes, and the piece after its last separator.
pub open spec fn spec_path_fold(s: Seq<char>) -> (Seq<Seq<char>>, Seq<char>)
    decreases s.len(),
{
    if s.len() == 0 {
        (Seq::empty(), Seq::empty())
    } else {
        let (done, cur) = spec_path_fold(s.drop_last());
        if is_sep(s.last()) {
            (spec_push_component(done, cur), Seq::empty())
        } else {
            (done, cur.push(s.last()))
        }
    }
}

/// The named components of path `s`, in order.
pub open spec fn spec_path_parts(s: Seq<char>) -> Seq<Seq<char>> {
    let (done, cur) = spec_path_fold(s);
    spec_push_component(done, cur)
}

/// The name of the directory that holds the file at `s`: the last component of the parent
/// path, unless that is `..` or there is none.
pub open spec fn spec_parent_dir_name(s: Seq<char>) -> Option<Seq<char>> {
    let p = spec_path_parts(s);
    if p.len() >= 2 && p[p.len() - 2] != seq!['.', '.'] {
        Some(p[p.len() - 2])
    } else {
        None
    }
}

/// The named components of `s`.
pub fn path_parts(s: &str) -> (r: Vec<String>)
    ensures
        r.deep_view() == spec_path_parts(s@),
{
    let v = chars_of(s);
    let mut done: Vec<String> = Vec::new();
    let mut start: usize = 0;
    let mut i: usize = 0;
    while i < v.len()
        invariant
            v@ == s@,
            start <= i <= v.len(),
            spec_path_fold(v@.subrange(0, i as int)) == (done.deep_view(), v@.subrange(
                start as int,
                i as int,
            )),
        decreases v.len() - i,
    {
        let ghost pre = v@.subrange(0, i as int);
        assert(v@.subrange(0, i + 1).drop_last() =~= pre);
        if v[i] == '/' {
            push_piece(&mut done, &v, start, i);
            start = i + 1;
            i = i + 1;
            assert(v@.subrange(start as int, i as int) =~= Seq::<char>::empty());
        } else {
            i = i + 1;
            assert(v@.subrange(start as int, i as int) =~= v@.subrange(start as int, i - 1).push(
                v@[i - 1],
            ));
        }
    }
    assert(v@.subrange(0, i as int) =~= s@);
    push_piece(&mut done, &v, start, v.len());
    done
}

fn push_piece(done: &mut Vec<String>, v: &Vec<char>, start: usize, end: usize)
    requires
        start <= end <= v.len(),
    ensures
        final(done).deep_view() == spec_push_component(
            old(done).deep_view(),
            v@.subrange(start as int, end as int),
        ),
{
    let ghost piece = v@.subrange(start as int, end as int);
    if start == end || (end == start + 1 && v[start] == '.') {
        assert(start == end ==> piece =~= Seq::<char>::empty());
        assert(end == start + 1 && v@[start as int] == '.' ==> piece =~= seq!['.']);
    } else {
        let s = string_from_range(v, start, end);
        assert(piece != seq!['.']) by {
            if piece.len() == 1 {
                assert(piece[0] == v@[start as int]);
            }
        }
        done.push(s);
        assert(final(done).deep_view() =~= old(done).deep_view().push(piece));
    }
}

/// The name of the directory that holds the file at `path` (`Path::parent` then
/// `Path::file_name`), with no check that it exists.
pub fn parent_dir_name(path: &str) -> (r: Option<String>)
    ensures
        match r {
            Some(n) => spec_parent_dir_name(path@) == Some(n@),
            None => spec_parent_dir_name(path@) is None,
        },
{
    let parts = path_parts(path);
    let n = parts.len();
    if n < 2 {
        return None;
    }
    let dots = owned("..");
    proof {
        reveal_strlit("..");
        assert(dots@ =~= seq!['.', '.']);
    }
    if parts[n - 2] == dots {
        return None;
    }
    assert(parts.deep_view()[n - 2] == parts@[n - 2]@);
    Some(parts[n - 2].clone())
}

/// `s` without the separators at its end.
pub open spec fn spec_trim_seps(s: Seq<char>) -> Seq<char>
    decreases s.len(),
{
    if s.len() > 0 && is_sep(s.last()) {
        spec_trim_seps(s.drop_last())
    } else {
        s
    }
}

/// `s` without the name at its end (the characters after its last separator).
pub open spec fn spec_trim_name(s: Seq<char>) -> Seq<char>
    decreases s.len(),
{
    if s.len() > 0 && !is_sep(s.last()) {
        spec_trim_name(s.drop_last())
    } else {
        s
    }
}

/// The parent of path `s`: the text before its last component, without the separators
/// between them. When only a root separator is left before the last component, the parent
/// is that root; a single relative component has the empty parent.
pub open spec fn spec_parent_path(s: Seq<char>) -> Seq<char> {
    let a = spec_trim_name(spec_trim_seps(s));
    let b = spec_trim_seps(a);
    if b.len() == 0 && a.len() > 0 {
        s.subrange(0, 1)
    } else {
        b
    }
}

proof fn lemma_trim_seps_step(s: Seq<char>, end: int)
    requires
        0 < end <= s.len(),
        is_sep(s[end - 1]),
    ensures
        spec_trim_seps(s.subrange(0, end)) == spec_trim_seps(s.subrange(0, end - 1)),
{
    assert(s.subrange(0, end).drop_last() =~= s.subrange(0, end - 1));
}

proof fn lemma_trim_name_step(s: Seq<char>, end: int)
    requires
        0 < end <= s.len(),
        !is_sep(s[end - 1]),
    ensures
        spec_trim_name(s.subrange(0, end)) == spec_trim_name(s.subrange(0, end - 1)),
{
    assert(s.subrange(0, end).drop_last() =~= s.subrange(0, end - 1));
}

/// The parent of path `s` (see `spec_parent_path`).
pub fn parent_path(path: &str) -> (r: String)
    ensures
        r@ == spec_parent_path(path@),
{
    let v = chars_of(path);
    let ghost s = v@;
    let mut end = v.len();
    assert(s.subrange(0, end as int) =~= s);
    while end > 0 && v[end - 1] == '/'
        invariant
            end <= v.len(),
            s == v@,
            spec_trim_seps(s.subrange(0, end as int)) == spec_trim_seps(s),
        decreases end,
    {
        proof {
            lemma_trim_seps_step(s, end as int);
        }
        end = end - 1;
    }
    let ghost t = s.subrange(0, end as int);
    assert(spec_trim_seps(t) == t);
    assert(t == spec_trim_seps(s));
    while end > 0 && v[end - 1] != '/'
        invariant
            end <= t.len(),
            t.len() <= v.len(),
            s == v@,
            t == s.subrange(0, t.len() as int),
            spec_trim_name(s.subrange(0, end as int)) == spec_trim_name(t),
        decreases end,
    {
        proof {
            lemma_trim_name_step(s, end as int);
        }
        end = end - 1;
    }
    let cut = end;
    let ghost a = s.subrange(0, cut as int);
    assert(spec_trim_name(a) == a);
    assert(a == spec_trim_name(spec_trim_seps(s)));
    while end > 0 && v[end - 1] == '/'
        invariant
            end <= cut <= v.len(),
            s == v@,
            a == s.subrange(0, cut as int),
            spec_trim_seps(s.subrange(0, end as int)) == spec_trim_seps(a),
        decreases end,
    {
        proof {
            lemma_trim_seps_step(s, end as int);
        }
        end = end - 1;
    }
    assert(spec_trim_seps(s.subrange(0, end as int)) == s.subrange(0, end as int));
    if end == 0 && cut > 0 {
        string_from_range(&v, 0, 1)
    } else {
        string_from_range(&v, 0, end)
    }
}

/// `rel` put under `base` as `PathBuf::push` does: an absolute `rel` replaces `base`, and
/// a `/` goes between them unless `base` is empty or ends with a separator.
pub open spec fn spec_join(base: Seq<char>, rel: Seq<char>) -> Seq<char> {
    if rel.len() > 0 && is_sep(rel[0]) {
        rel
    } else if base.len() == 0 {
        rel
    } else if is_sep(base.last()) {
        base + rel
    } else {
        base + seq!['/'] + rel
    }
}

/// `rel` put under `base` (`PathBuf::push`).
pub fn join(base: &str, rel: &str) -> (r: String)
    ensures
        r@ == spec_join(base@, rel@),
{
    let b = chars_of(base);
    let rv = chars_of(rel);
    if rv.len() > 0 && rv[0] == '/' {
        return rel.to_owned();
    }
    if b.len() == 0 {
        return rel.to_owned();
    }
    let last = b[b.len() - 1];
    assert(last == base@.last());
    let mut r = base.to_owned();
    if last != '/' {
        push_char(&mut r, '/');
    }
    r.append(rel);
    r
}

/// Whether something exists at `path` on disk.
///
/// Trusted: `Path::exists`; nothing is claimed of the answer, which depends on the disk.
#[verifier::external_body]
pub(crate) fn path_exists(path: &str) -> bool {
    std::path::Path::new(path).exists()
}

/// Asks the disk check `check` about `path`: the answer is one that `check` gives for `path`.
pub(crate) fn ask_disk<F: Fn(&str) -> bool>(check: &F, path: &str) -> (r: bool)
    requires
        forall|s: &str| #[trigger] call_requires(*check, (s,)),
    ensures
        call_ensures(*check, (path,), r),
{
    check(path)
}

/// Whether `answer` is what the disk answered when asked whether something exists at
/// `path` (`Path::exists`). The disk itself is not modelled: this records which question
/// an answer belongs to, so that an answer cannot be made up or taken from another path.
pub closed spec fn spec_disk_exists(path: Seq<char>, answer: bool) -> bool {
    exists|p: &str| p@ == path && #[trigger] call_ensures(path_exists, (p,), answer)
}

/// Whether something exists at `path` on disk; the answer is the disk's (see
/// `spec_disk_exists`).
pub(crate) fn exists_on_disk(path: &str) -> (r: bool)
    ensures
        spec_disk_exists(path@, r),
{
    let r = ask_disk(&path_exists, path);
    assert(call_ensures(path_exists, (path,), r));
    r
}

/// The name of the folder that holds the file at `path`, given whether that folder exists
/// on disk: none when it does not (or when the path names no such folder).
pub open spec fn spec_dir_name(path: Seq<char>, parent_exists: bool) -> Option<Seq<char>> {
    if parent_exists {
        spec_parent_dir_name(path)
    } else {
        None
    }
}

/// The name of the folder that holds the file at `path` while the folders `disk` exist.
pub open spec fn spec_dir_name_on(path: Seq<char>, disk: Set<Seq<char>>) -> Option<Seq<char>> {
    spec_dir_name(path, disk.contains(spec_parent_path(path)))
}

/// The name of the folder that holds the file at `path`, given whether that folder exists
/// on disk (see `spec_dir_name`).
pub fn dir_name_given(path: &str, parent_exists: bool) -> (r: Option<String>)
    ensures
        r.deep_view() == spec_dir_name(path@, parent_exists),
{
    if !parent_exists {
        return None;
    }
    parent_dir_name(path)
}

/// The name of the folder that holds the file at `path`, when that folder exists on disk
/// (`PathBuf::pop`, `Path::exists`, `Path::file_name`): `spec_dir_name` for the disk's
/// answer on the folder `spec_parent_path(path)`.
pub fn dir_name(path: &str) -> (r: Option<String>)
    ensures
        exists|e: bool| r.deep_view() == #[trigger] spec_dir_name(path@, e),
        exists|e: bool|
            #![trigger spec_dir_name(path@, e)]
            spec_disk_exists(spec_parent_path(path@), e) && r.deep_view() == spec_dir_name(path@, e),
{
    let parent = parent_path(path);
    let exists = exists_on_disk(parent.as_str());
    dir_name_given(path, exists)
}

/// A file whose path is empty lies in no named folder.
pub proof fn lemma_empty_path_no_dir_name(disk: Set<Seq<char>>, e: bool)
    ensures
        spec_parent_dir_name(Seq::empty()) is None,
        spec_dir_name(Seq::empty(), e) is None,
        spec_dir_name_on(Seq::empty(), disk) is None,
{
    assert(spec_path_fold(Seq::<char>::empty()) == (Seq::<Seq<char>>::empty(), Seq::<char>::empty()));
}

/// Whether `v` holds a string with the characters of `s`.
pub fn strings_contain(v: &Vec<String>, s: &str) -> (r: bool)
    ensures
        r == v.deep_view().contains(s@),
{
    let k = s.to_owned();
    let mut i: usize = 0;
    while i < v.len()
        invariant
            i <= v.len(),
            k@ == s@,
            forall|j: int| 0 <= j < i ==> v@[j]@ != s@,
        decreases v.len() - i,
    {
        if v[i] == k {
            assert(v.deep_view()[i as int] == s@);
            return true;
        }
        i = i + 1;
    }
    assert forall|j: int| 0 <= j < v.deep_view().len() implies v.deep_view()[j] != s@ by {
        assert(v.deep_view()[j] == v@[j]@);
    }
    false
}

// ---------------------------------------------------------------------------------------
// Replacing
// ---------------------------------------------------------------------------------------

/// `s` with each occurrence of `pat`, taken from the left without overlap, replaced by
/// `rep` (`str::replace`).
pub open spec fn spec_replace(s: Seq<char>, pat: Seq<char>, rep: Seq<char>) -> Seq<char>
    decreases s.len(),
{
    if s.len() == 0 {
        Seq::empty()
    } else if pat.len() > 0 && spec_starts_with(s, pat) {
        rep + spec_replace(s.skip(pat.len() as int), pat, rep)
    } else {
        seq![s[0]] + spec_replace(s.drop_first(), pat, rep)
    }
}

fn matches_at(v: &Vec<char>, i: usize, p: &Vec<char>) -> (r: bool)
    requires
        i <= v.len(),
    ensures
        r == spec_starts_with(v@.skip(i as int), p@),
{
    if p.len() > v.len() - i {
        return false;
    }
    let mut j: usize = 0;
    while j < p.len()
        invariant
            i + p.len() <= v.len(),
            j <= p.len(),
            v@.skip(i as int).subrange(0, j as int) == p@.subrange(0, j as int),
        decreases p.len() - j,
    {
        if v[i + j] != p[j] {
            assert(v@.skip(i as int).subrange(0, p@.len() as int)[j as int] != p@[j as int]);
            return false;
        }
        j = j + 1;
        assert(v@.skip(i as int).subrange(0, j as int) =~= p@.subrange(0, j as int));
    }
    assert(p@.subrange(0, j as int) =~= p@);
    true
}

/// `s` with every `pat` replaced by `rep`, going from left to right without overlaps (as
/// `str::replace` does for a pattern that is not empty).
pub fn replace(s: &str, pat: &str, rep: &str) -> (r: String)
    requires
        pat@.len() > 0,
    ensures
        r@ == spec_replace(s@, pat@, rep@),
{
    let v = chars_of(s);
    let p = chars_of(pat);
    let mut out = String::new();
    let mut i: usize = 0;
    assert(v@.skip(0) =~= s@);
    while i < v.len()
        invariant
            v@ == s@,
            p@ == pat@,
            p@.len() > 0,
            i <= v.len(),
            out@ + spec_replace(v@.skip(i as int), p@, rep@) == spec_replace(s@, p@, rep@),
        decreases v.len() - i,
    {
        let ghost rest = v@.skip(i as int);
        if matches_at(&v, i, &p) {
            out.append(rep);
            assert(rest.skip(p@.len() as int) =~= v@.skip(i + p@.len()));
            i = i + p.len();
            assert(out@ + spec_replace(v@.skip(i as int), p@, rep@) =~= spec_replace(s@, p@, rep@));
        } else {
            push_char(&mut out, v[i]);
            assert(rest.drop_first() =~= v@.skip(i + 1));
            assert(rest[0] == v@[i as int]);
            i = i + 1;
            assert(out@ + spec_replace(v@.skip(i as int), p@, rep@) =~= spec_replace(s@, p@, rep@));
        }
    }
    assert(v@.skip(i as int) =~= Seq::<char>::empty());
    assert(out@ =~= spec_replace(s@, p@, rep@));
    out
}

} // verus!
