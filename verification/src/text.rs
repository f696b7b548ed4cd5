use vstd::prelude::*;

verus! {

broadcast use vstd::string::group_string_axioms;

/// White space in the sense of `char::is_whitespace` (the Unicode `White_Space` property),
/// which `str::split_whitespace` and `str::trim` use.
pub open spec fn is_unicode_ws(c: char) -> bool {
    let u = c as u32;
    ||| 0x09 <= u <= 0x0D
    ||| u == 0x20
    ||| u == 0x85
    ||| u == 0xA0
    ||| u == 0x1680
    ||| 0x2000 <= u <= 0x200A
    ||| u == 0x2028
    ||| u == 0x2029
    ||| u == 0x202F
    ||| u == 0x205F
    ||| u == 0x3000
}

/// White space in the sense of `u8::is_ascii_whitespace`, which `str::split_ascii_whitespace`
/// uses: space, tab, line feed, form feed and carriage return (not the vertical tab).
pub open spec fn is_ascii_ws(c: char) -> bool {
    c == ' ' || c == '\t' || c == '\n' || c == '\x0C' || c == '\r'
}

pub open spec fn is_ws(c: char, ascii: bool) -> bool {
    if ascii {
        is_ascii_ws(c)
    } else {
        is_unicode_ws(c)
    }
}

/// The maximal runs of non-white-space characters of `s`, in order: what
/// `split_ascii_whitespace` (`ascii`) or `split_whitespace` (otherwise) yields.
pub open spec fn split_tokens(s: Seq<char>, ascii: bool) -> Seq<Seq<char>>
    decreases s.len(),
{
    if s.len() == 0 {
        seq![]
    } else {
        let prev = split_tokens(s.drop_last(), ascii);
        let c = s.last();
        if is_ws(c, ascii) {
            prev
        } else if s.len() >= 2 && !is_ws(s[s.len() - 2], ascii) {
            prev.drop_last().push(prev.last().push(c))
        } else {
            prev.push(seq![c])
        }
    }
}

/// The line is a single `#` with nothing but white space around it (`line.trim() == "#"`).
pub open spec fn is_separator(s: Seq<char>) -> bool {
    exists|k: int|
        0 <= k < s.len() && s[k] == '#' && forall|j: int|
            0 <= j < s.len() && j != k ==> is_unicode_ws(#[trigger] s[j])
}

pub open spec fn is_digit(c: char) -> bool {
    '0' <= c <= '9'
}

pub open spec fn digit_value(c: char) -> nat {
    (c as u32 - '0' as u32) as nat
}

/// The number that the decimal digits `s` spell.
pub open spec fn decimal_value(s: Seq<char>) -> nat
    decreases s.len(),
{
    if s.len() == 0 {
        0
    } else {
        decimal_value(s.drop_last()) * 10 + digit_value(s.last())
    }
}

pub open spec fn all_digits(s: Seq<char>) -> bool {
    forall|i: int| 0 <= i < s.len() ==> is_digit(#[trigger] s[i])
}

/// What `str::parse::<usize>` gives: an optional `+`, then one or more decimal digits whose
/// value fits in a `usize`.
pub open spec fn parse_usize_spec(s: Seq<char>) -> Option<usize> {
    let body = if s.len() > 0 && s[0] == '+' {
        s.drop_first()
    } else {
        s
    };
    if body.len() > 0 && all_digits(body) && decimal_value(body) <= usize::MAX {
        Some(decimal_value(body) as usize)
    } else {
        None
    }
}

pub fn is_unicode_whitespace(c: char) -> (b: bool)
    ensures
        b == is_unicode_ws(c),
{
    let u = c as u32;
    (0x09 <= u && u <= 0x0D) || u == 0x20 || u == 0x85 || u == 0xA0 || u == 0x1680 || (0x2000
        <= u && u <= 0x200A) || u == 0x2028 || u == 0x2029 || u == 0x202F || u == 0x205F || u
        == 0x3000
}

pub fn is_ascii_whitespace(c: char) -> (b: bool)
    ensures
        b == is_ascii_ws(c),
{
    c == ' ' || c == '\t' || c == '\n' || c == '\x0C' || c == '\r'
}

fn is_whitespace(c: char, ascii: bool) -> (b: bool)
    ensures
        b == is_ws(c, ascii),
{
    if ascii {
        is_ascii_whitespace(c)
    } else {
        is_unicode_whitespace(c)
    }
}

/// The characters of `s`, one by one.
pub fn chars_of(s: &str) -> (v: Vec<char>)
    ensures
        v@ == s@,
{
    let mut v: Vec<char> = Vec::new();
    for c in it: s.chars()
        invariant
            it.seq() == s@,
            v@ == it.seq().take(it.index() as int),
    {
        v.push(c);
    }
    v
}

/// `std`'s `FromIterator<char>` for `String`: the string made of the given characters.
#[verifier::external_body]
fn string_from_chars(chars: &[char]) -> (s: String)
    ensures
        s@ == chars@,
{
    chars.iter().collect()
}

/// Splits `s` at white space (ASCII white space where `ascii`, Unicode white space otherwise),
/// as `split_ascii_whitespace` and `split_whitespace` do.
pub fn split_tokens_of(s: &str, ascii: bool) -> (tokens: Vec<String>)
    ensures
        tokens.deep_view() == split_tokens(s@, ascii),
{
    let chars = chars_of(s);
    let mut done: Vec<String> = Vec::new();
    let mut cur: Vec<char> = Vec::new();
    let mut i: usize = 0;
    while i < chars.len()
        invariant
            i <= chars.len(),
            chars@ == s@,
            cur.len() > 0 <==> (i > 0 && !is_ws(chars@[i - 1], ascii)),
            split_tokens(chars@.take(i as int), ascii) == done.deep_view() + (if cur.len() > 0 {
                seq![cur@]
            } else {
                seq![]
            }),
        decreases chars.len() - i,
    {
        let c = chars[i];
        let ghost prefix = chars@.take(i as int);
        let ghost old_done = done.deep_view();
        let ghost old_cur = cur@;
        let ghost next = chars@.take(i + 1);
        assert(next.drop_last() =~= prefix);
        assert(next.last() == c);
        assert(next.len() >= 2 ==> next[next.len() - 2] == chars@[i - 1]);
        if is_whitespace(c, ascii) {
            if cur.len() > 0 {
                let t = string_from_chars(cur.as_slice());
                done.push(t);
                assert(done.deep_view() =~= old_done.push(old_cur));
                cur = Vec::new();
            }
            assert(split_tokens(next, ascii) == split_tokens(prefix, ascii));
        } else {
            cur.push(c);
            proof {
                if old_cur.len() > 0 {
                    assert(split_tokens(prefix, ascii) =~= old_done.push(old_cur));
                    assert(split_tokens(next, ascii) =~= old_done.push(old_cur.push(c)));
                } else {
                    assert(split_tokens(prefix, ascii) =~= old_done);
                    assert(split_tokens(next, ascii) =~= old_done.push(seq![c]));
                    assert(cur@ =~= seq![c]);
                }
            }
        }
        i = i + 1;
    }
    if cur.len() > 0 {
        let ghost before = done.deep_view();
        let t = string_from_chars(cur.as_slice());
        done.push(t);
        assert(done.deep_view() =~= before.push(cur@));
    }
    assert(chars@.take(chars.len() as int) == chars@);
    done
}

/// Whether two strings are equal.
pub fn str_equal(a: &str, b: &str) -> (r: bool)
    ensures
        r == (a@ == b@),
{
    let x = chars_of(a);
    let y = chars_of(b);
    if x.len() != y.len() {
        return false;
    }
    let mut i: usize = 0;
    while i < x.len()
        invariant
            i <= x.len(),
            x.len() == y.len(),
            x@ == a@,
            y@ == b@,
            forall|j: int| 0 <= j < i ==> x@[j] == y@[j],
        decreases x.len() - i,
    {
        if x[i] != y[i] {
            return false;
        }
        i = i + 1;
    }
    assert(x@ =~= y@);
    true
}

/// What `str::parse::<i32>` gives: an optional sign, then one or more decimal digits whose
/// signed value fits in an `i32`.
pub open spec fn parse_i32_spec(s: Seq<char>) -> Option<i32> {
    let signed = s.len() > 0 && (s[0] == '-' || s[0] == '+');
    let negative = s.len() > 0 && s[0] == '-';
    let body = if signed {
        s.drop_first()
    } else {
        s
    };
    let v: int = if negative {
        -(decimal_value(body) as int)
    } else {
        decimal_value(body) as int
    };
    if body.len() > 0 && all_digits(body) && i32::MIN <= v <= i32::MAX {
        Some(v as i32)
    } else {
        None
    }
}

/// Parses a decimal `i32` as `str::parse::<i32>` does.
pub fn parse_i32(s: &str) -> (r: Option<i32>)
    ensures
        r == parse_i32_spec(s@),
{
    let chars = chars_of(s);
    let signed = chars.len() > 0 && (chars[0] == '-' || chars[0] == '+');
    let negative = chars.len() > 0 && chars[0] == '-';
    let start: usize = if signed {
        1
    } else {
        0
    };
    let ghost body = if signed {
        chars@.drop_first()
    } else {
        chars@
    };
    assert(body =~= chars@.subrange(start as int, chars@.len() as int));
    if start == chars.len() {
        return None;
    }
    let limit: u64 = 2147483648;
    let mut v: u64 = 0;
    let mut i: usize = start;
    while i < chars.len()
        invariant
            start <= i <= chars.len(),
            chars@ == s@,
            body == chars@.subrange(start as int, chars@.len() as int),
            body.len() > 0,
            all_digits(body.take(i - start)),
            v == decimal_value(body.take(i - start)),
            v <= limit,
            limit == 2147483648,
            signed == (chars@.len() > 0 && (chars@[0] == '-' || chars@[0] == '+')),
            negative == (chars@.len() > 0 && chars@[0] == '-'),
            body == (if signed {
                chars@.drop_first()
            } else {
                chars@
            }),
        decreases chars.len() - i,
    {
        let c = chars[i];
        let ghost n: int = i - start;
        assert(body[n] == c);
        assert(body.take(n + 1).drop_last() =~= body.take(n));
        if !('0' <= c && c <= '9') {
            assert(!is_digit(body[n]));
            return None;
        }
        let d = (c as u32 - '0' as u32) as u64;
        if v > (limit - d) / 10 {
            proof {
                assert(decimal_value(body.take(n + 1)) == v * 10 + d);
                lemma_decimal_value_monotonic(body, n + 1, body.len() as int);
                assert(body.take(body.len() as int) =~= body);
            }
            return None;
        }
        v = v * 10 + d;
        i = i + 1;
        proof {
            assert forall|j: int| 0 <= j < n + 1 implies is_digit(#[trigger] body.take(n + 1)[j]) by {
                if j < n {
                    assert(body.take(n + 1)[j] == body.take(n)[j]);
                }
            }
        }
    }
    assert(body.take(body.len() as int) =~= body);
    if negative {
        Some((0 - (v as i64)) as i32)
    } else if v < limit {
        Some(v as i32)
    } else {
        None
    }
}

/// Whether the line is a lone `#` (`line.trim() == "#"`), the frame separator of the
/// coordinate format.
pub fn is_separator_line(s: &str) -> (b: bool)
    ensures
        b == is_separator(s@),
{
    let chars = chars_of(s);
    let mut found: Option<usize> = None;
    let mut i: usize = 0;
    while i < chars.len()
        invariant
            i <= chars.len(),
            chars@ == s@,
            match found {
                None => forall|j: int| 0 <= j < i ==> is_unicode_ws(#[trigger] chars@[j]),
                Some(k) => k < i && !is_unicode_ws(chars@[k as int]) && forall|j: int|
                    0 <= j < i && j != k ==> is_unicode_ws(#[trigger] chars@[j]),
            },
        decreases chars.len() - i,
    {
        if !is_unicode_whitespace(chars[i]) {
            if found.is_some() {
                let k = found.unwrap();
                proof {
                    assert forall|k2: int|
                        0 <= k2 < chars@.len() && chars@[k2] == '#' implies !(forall|j: int|
                        0 <= j < chars@.len() && j != k2 ==> is_unicode_ws(#[trigger] chars@[j])) by {
                        if k2 == k {
                            assert(!is_unicode_ws(chars@[i as int]));
                        } else {
                            assert(!is_unicode_ws(chars@[k as int]));
                        }
                    }
                }
                return false;
            }
            found = Some(i);
        }
        i = i + 1;
    }
    match found {
        None => {
            assert forall|k: int| 0 <= k < chars@.len() implies chars@[k] != '#' by {
                assert(is_unicode_ws(chars@[k]));
            }
            false
        },
        Some(k) => {
            if chars[k] == '#' {
                true
            } else {
                assert forall|k2: int|
                    0 <= k2 < chars@.len() && chars@[k2] == '#' implies !(forall|j: int|
                    0 <= j < chars@.len() && j != k2 ==> is_unicode_ws(#[trigger] chars@[j])) by {
                    if k2 != k {
                        assert(!is_unicode_ws(chars@[k as int]));
                    } else {
                        assert(is_unicode_ws(chars@[k2]));
                    }
                }
                false
            }
        },
    }
}

proof fn lemma_decimal_value_monotonic(s: Seq<char>, j: int, k: int)
    requires
        0 <= j <= k <= s.len(),
    ensures
        decimal_value(s.take(j)) <= decimal_value(s.take(k)),
    decreases k - j,
{
    if j < k {
        lemma_decimal_value_monotonic(s, j, k - 1);
        assert(s.take(k).drop_last() == s.take(k - 1));
    }
}

/// Parses a decimal `usize` as `str::parse::<usize>` does.
pub fn parse_usize(s: &str) -> (r: Option<usize>)
    ensures
        r == parse_usize_spec(s@),
{
    let chars = chars_of(s);
    let start: usize = if chars.len() > 0 && chars[0] == '+' {
        1
    } else {
        0
    };
    let ghost body = if chars@.len() > 0 && chars@[0] == '+' {
        chars@.drop_first()
    } else {
        chars@
    };
    assert(body =~= chars@.subrange(start as int, chars@.len() as int));
    if start == chars.len() {
        return None;
    }
    let mut v: usize = 0;
    let mut i: usize = start;
    while i < chars.len()
        invariant
            start <= i <= chars.len(),
            chars@ == s@,
            body == chars@.subrange(start as int, chars@.len() as int),
            body == (if chars@.len() > 0 && chars@[0] == '+' {
                chars@.drop_first()
            } else {
                chars@
            }),
            body.len() > 0,
            all_digits(body.take(i - start)),
            v == decimal_value(body.take(i - start)),
        decreases chars.len() - i,
    {
        let c = chars[i];
        let ghost n: int = i - start;
        assert(body[n] == c);
        assert(body.take(n + 1).drop_last() =~= body.take(n));
        if !('0' <= c && c <= '9') {
            assert(!is_digit(body[n]));
            return None;
        }
        let d = (c as u32 - '0' as u32) as usize;
        if v > (usize::MAX - d) / 10 {
            proof {
                assert(decimal_value(body.take(n + 1)) == v * 10 + d);
                lemma_decimal_value_monotonic(body, n + 1, body.len() as int);
                assert(body.take(body.len() as int) =~= body);
            }
            return None;
        }
        v = v * 10 + d;
        i = i + 1;
        proof {
            assert forall|j: int| 0 <= j < n + 1 implies is_digit(#[trigger] body.take(n + 1)[j]) by {
                if j < n {
                    assert(body.take(n + 1)[j] == body.take(n)[j]);
                }
            }
        }
    }
    assert(body.take(body.len() as int) =~= body);
    Some(v)
}

/// Every field that splitting yields is non-empty and free of white space.
pub proof fn law_tokens_have_no_white_space(s: Seq<char>, ascii: bool)
    ensures
        forall|i: int|
            0 <= i < split_tokens(s, ascii).len() ==> (#[trigger] split_tokens(s, ascii)[i]).len() > 0
                && forall|j: int|
                0 <= j < split_tokens(s, ascii)[i].len() ==> !is_ws(#[trigger] split_tokens(s, ascii)[i][j], ascii),
    decreases s.len(),
{
    if s.len() > 0 {
        let prev = split_tokens(s.drop_last(), ascii);
        law_tokens_have_no_white_space(s.drop_last(), ascii);
        let c = s.last();
        let cur = split_tokens(s, ascii);
        if !is_ws(c, ascii) {
            if s.len() >= 2 && !is_ws(s[s.len() - 2], ascii) {
                assert(prev.len() > 0) by {
                    lemma_nonempty_when_last_is_token(s.drop_last(), ascii);
                }
                assert forall|i: int| 0 <= i < cur.len() implies (#[trigger] cur[i]).len() > 0 && forall|j: int|
                    0 <= j < cur[i].len() ==> !is_ws(#[trigger] cur[i][j], ascii) by {
                    if i < cur.len() - 1 {
                        assert(cur[i] == prev[i]);
                    } else {
                        let last = prev.last();
                        assert(cur[i] == last.push(c));
                        assert forall|j: int| 0 <= j < cur[i].len() implies !is_ws(#[trigger] cur[i][j], ascii) by {
                            if j < last.len() {
                                assert(cur[i][j] == prev[prev.len() - 1][j]);
                            }
                        }
                    }
                }
            } else {
                assert forall|i: int| 0 <= i < cur.len() implies (#[trigger] cur[i]).len() > 0 && forall|j: int|
                    0 <= j < cur[i].len() ==> !is_ws(#[trigger] cur[i][j], ascii) by {
                    if i < cur.len() - 1 {
                        assert(cur[i] == prev[i]);
                    } else {
                        assert(cur[i] == seq![c]);
                    }
                }
            }
        }
    }
}

/// The number of positions of `s` where a field starts: a character that is not white space,
/// first or after white space.
pub open spec fn field_starts(s: Seq<char>, ascii: bool) -> nat {
    Set::new(|i: int| 0 <= i < s.len() && !is_ws(s[i], ascii) && (i == 0 || is_ws(s[i - 1], ascii))).len()
}

proof fn lemma_field_starts_step(s: Seq<char>, ascii: bool)
    requires
        s.len() > 0,
    ensures
        field_starts(s, ascii) == field_starts(s.drop_last(), ascii) + if !is_ws(s.last(), ascii) && (s.len() == 1 || is_ws(
            s[s.len() - 2],
            ascii,
        )) {
            1nat
        } else {
            0nat
        },
        Set::new(|i: int| 0 <= i < s.len() && !is_ws(s[i], ascii) && (i == 0 || is_ws(s[i - 1], ascii))).finite(),
    decreases s.len(),
{
    let p = s.drop_last();
    let sp = Set::new(|i: int| 0 <= i < p.len() && !is_ws(p[i], ascii) && (i == 0 || is_ws(p[i - 1], ascii)));
    let ss = Set::new(|i: int| 0 <= i < s.len() && !is_ws(s[i], ascii) && (i == 0 || is_ws(s[i - 1], ascii)));
    let n = s.len() - 1;
    assert(sp.subset_of(Set::new(|i: int| 0 <= i < p.len())));
    vstd::set_lib::lemma_int_range(0, p.len() as int);
    assert(Set::new(|i: int| 0 <= i < p.len()) =~= vstd::set_lib::set_int_range(0, p.len() as int));
    vstd::set_lib::lemma_len_subset(sp, vstd::set_lib::set_int_range(0, p.len() as int));
    let starts_here = !is_ws(s.last(), ascii) && (s.len() == 1 || is_ws(s[s.len() - 2], ascii));
    if starts_here {
        assert(ss =~= sp.insert(n));
        assert(!sp.contains(n));
    } else {
        assert(ss =~= sp);
    }
}

/// Splitting loses no character but white space, and yields one field per field start:
/// the fields, put together, are `s` without its white space, and there are as many fields
/// as positions where a non-white-space character follows white space or starts `s`.
pub proof fn law_fields_are_the_runs(s: Seq<char>, ascii: bool)
    ensures
        split_tokens(s, ascii).flatten() == s.filter(|c: char| !is_ws(c, ascii)),
        split_tokens(s, ascii).len() == field_starts(s, ascii),
    decreases s.len(),
{
    reveal_with_fuel(Seq::<char>::filter, 1);
    let t = split_tokens(s, ascii);
    t.lemma_flatten_and_flatten_alt_are_equivalent();
    if s.len() == 0 {
        assert(field_starts(s, ascii) == 0) by {
            assert(Set::new(|i: int| 0 <= i < s.len() && !is_ws(s[i], ascii) && (i == 0 || is_ws(s[i - 1], ascii)))
                =~= Set::<int>::empty());
        }
    } else {
        let p = s.drop_last();
        let prev = split_tokens(p, ascii);
        law_fields_are_the_runs(p, ascii);
        prev.lemma_flatten_and_flatten_alt_are_equivalent();
        lemma_field_starts_step(s, ascii);
        let c = s.last();
        if !is_ws(c, ascii) {
            if s.len() >= 2 && !is_ws(s[s.len() - 2], ascii) {
                assert(p.last() == s[s.len() - 2]);
                lemma_nonempty_when_last_is_token(p, ascii);
                let q = prev.drop_last();
                assert(t.drop_last() =~= q);
                assert(prev =~= q.push(prev.last()));
                assert(prev.flatten_alt() =~= q.flatten_alt() + prev.last()) by {
                    assert(prev.drop_last() =~= q);
                }
                assert(t.flatten_alt() =~= q.flatten_alt() + prev.last().push(c));
                assert(t.flatten_alt() =~= prev.flatten_alt().push(c));
            } else {
                assert(t.drop_last() =~= prev);
                assert(t.flatten_alt() =~= prev.flatten_alt() + seq![c]);
            }
        }
    }
}

/// Decimal notation is positional: a digit string's value is the value of its first part
/// shifted by the length of the rest, plus the value of the rest; one digit is worth itself.
pub proof fn law_decimal_is_positional(a: Seq<char>, b: Seq<char>, d: char)
    requires
        is_digit(d),
    ensures
        decimal_value(a + b) == decimal_value(a) * vstd::arithmetic::power::pow(10, b.len()) + decimal_value(b),
        decimal_value(seq![d]) == (d as u32) - ('0' as u32),
    decreases b.len(),
{
    assert(seq![d].drop_last() =~= Seq::<char>::empty());
    assert(decimal_value(Seq::<char>::empty()) == 0);
    vstd::arithmetic::power::lemma_pow0(10);
    if b.len() == 0 {
        assert(a + b =~= a);
    } else {
        law_decimal_is_positional(a, b.drop_last(), d);
        assert((a + b).drop_last() =~= a + b.drop_last());
        assert((a + b).last() == b.last());
        vstd::arithmetic::power::lemma_pow_adds(10, (b.len() - 1) as nat, 1);
        vstd::arithmetic::power::lemma_pow1(10);
        let x = decimal_value(a) as int;
        let p = vstd::arithmetic::power::pow(10, (b.len() - 1) as nat);
        let y = decimal_value(b.drop_last()) as int;
        assert((x * p + y) * 10 == x * (p * 10) + y * 10) by (nonlinear_arith);
    }
}

/// A `usize` reads back from a plain digit string (or one with a leading `+`) exactly when its
/// value fits; a leading `-` or any other character is refused.
pub proof fn law_parse_usize_reads_digits(s: Seq<char>)
    ensures
        s.len() > 0 && all_digits(s) && decimal_value(s) <= usize::MAX ==> parse_usize_spec(s) == Some(decimal_value(s) as usize),
        s.len() > 0 && all_digits(s) && decimal_value(s) > usize::MAX ==> parse_usize_spec(s) is None,
        s.len() > 0 && s[0] == '-' ==> parse_usize_spec(s) is None,
        s.len() == 0 ==> parse_usize_spec(s) is None,
        parse_usize_spec(s) is Some ==> s.len() > 0 && (s[0] == '+' || is_digit(s[0])),
{
    if s.len() > 0 && s[0] == '-' {
        assert(!is_digit(s[0]));
        if s[0] != '+' {
            assert(!all_digits(s));
        }
    }
    if s.len() > 0 && all_digits(s) {
        assert(is_digit(s[0]));
    }
    if parse_usize_spec(s) is Some && s.len() > 0 && s[0] != '+' {
        assert(is_digit(s[0]));
    }
}

proof fn lemma_nonempty_when_last_is_token(s: Seq<char>, ascii: bool)
    requires
        s.len() > 0,
        !is_ws(s.last(), ascii),
    ensures
        split_tokens(s, ascii).len() > 0,
{
}

} // verus!
