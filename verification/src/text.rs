//! Text as a sequence of characters: searching, splitting, trimming, and the
//! few number formats that messages use.
use vstd::prelude::*;

verus! {

/// Number of characters in front of the first `sep`; the whole length where
/// there is none.
pub open spec fn split_point(s: Seq<char>, sep: char) -> int
    decreases s.len(),
{
    if s.len() == 0 || s[0] == sep {
        0
    } else {
        1 + split_point(s.drop_first(), sep)
    }
}

/// `split_point` is the one position with no `sep` in front of it that holds a
/// `sep` or ends the text.
pub proof fn lemma_split_point(s: Seq<char>, sep: char, k: int)
    requires
        0 <= k <= s.len(),
        forall|i: int| 0 <= i < k ==> s[i] != sep,
        k < s.len() ==> s[k] == sep,
    ensures
        split_point(s, sep) == k,
    decreases s.len(),
{
    if k > 0 {
        let rest = s.drop_first();
        assert forall|i: int| 0 <= i < k - 1 implies rest[i] != sep by {
            assert(rest[i] == s[i + 1]);
        }
        lemma_split_point(rest, sep, k - 1);
    }
}

/// No `sep` stands in front of `split_point`, and one stands at it unless the
/// text ends there.
pub proof fn lemma_split_point_holds(s: Seq<char>, sep: char)
    ensures
        0 <= split_point(s, sep) <= s.len(),
        forall|i: int| 0 <= i < split_point(s, sep) ==> s[i] != sep,
        split_point(s, sep) < s.len() ==> s[split_point(s, sep)] == sep,
    decreases s.len(),
{
    if s.len() > 0 && s[0] != sep {
        let rest = s.drop_first();
        lemma_split_point_holds(rest, sep);
        assert forall|i: int| 0 <= i < split_point(s, sep) implies s[i] != sep by {
            if i > 0 {
                assert(rest[i - 1] == s[i]);
            }
        }
    }
}

/// The piece with number `n` (from 0) of a text cut at every `sep`.
pub open spec fn spec_field(s: Seq<char>, sep: char, n: nat) -> Option<Seq<char>>
    decreases n,
{
    let k = split_point(s, sep);
    if n == 0 {
        Some(s.take(k))
    } else if k >= s.len() {
        None
    } else {
        spec_field(s.skip(k + 1), sep, (n - 1) as nat)
    }
}

/// The characters that Unicode counts as white space.
pub open spec fn spec_is_white(c: char) -> bool {
    ||| 0x9 <= c as u32 <= 0xd
    ||| c as u32 == 0x20
    ||| c as u32 == 0x85
    ||| c as u32 == 0xa0
    ||| c as u32 == 0x1680
    ||| 0x2000 <= c as u32 <= 0x200a
    ||| c as u32 == 0x2028
    ||| c as u32 == 0x2029
    ||| c as u32 == 0x202f
    ||| c as u32 == 0x205f
    ||| c as u32 == 0x3000
}

/// `s` without its leading white space.
pub open spec fn trim_front(s: Seq<char>) -> Seq<char>
    decreases s.len(),
{
    if s.len() > 0 && spec_is_white(s[0]) {
        trim_front(s.drop_first())
    } else {
        s
    }
}

/// `s` without its trailing white space.
pub open spec fn trim_back(s: Seq<char>) -> Seq<char>
    decreases s.len(),
{
    if s.len() > 0 && spec_is_white(s.last()) {
        trim_back(s.drop_last())
    } else {
        s
    }
}

/// `s` without the white space at its two ends.
pub open spec fn spec_trimmed(s: Seq<char>) -> Seq<char> {
    trim_back(trim_front(s))
}

/// A trimmed text neither begins nor ends with white space.
pub proof fn law_trimmed_ends(s: Seq<char>)
    ensures
        spec_trimmed(s).len() > 0 ==> !spec_is_white(spec_trimmed(s)[0]) && !spec_is_white(
            spec_trimmed(s).last(),
        ),
{
    lemma_trim_front(s);
    lemma_trim_back(trim_front(s));
}

/// A trimmed text is a part of the text, and only white space stands around
/// it.
pub proof fn law_trimmed_is_a_part(s: Seq<char>)
    ensures
        exists|from: int, to: int|
            {
                &&& 0 <= from <= to <= s.len()
                &&& #[trigger] s.subrange(from, to) == spec_trimmed(s)
                &&& forall|i: int| 0 <= i < from ==> spec_is_white(#[trigger] s[i])
                &&& forall|i: int| to <= i < s.len() ==> spec_is_white(#[trigger] s[i])
            },
{
    lemma_trim_front(s);
    let inner = trim_front(s);
    lemma_trim_back(inner);
    let from = s.len() - inner.len();
    let to = from + trim_back(inner).len();
    assert(s.subrange(from, to) =~= spec_trimmed(s));
    assert forall|i: int| to <= i < s.len() implies spec_is_white(#[trigger] s[i]) by {
        assert(s[i] == inner[i - from]);
    }
}

proof fn lemma_trim_front(s: Seq<char>)
    ensures
        trim_front(s).len() <= s.len(),
        trim_front(s) == s.skip(s.len() - trim_front(s).len()),
        trim_front(s).len() > 0 ==> !spec_is_white(trim_front(s)[0]),
        forall|i: int| 0 <= i < s.len() - trim_front(s).len() ==> spec_is_white(#[trigger] s[i]),
    decreases s.len(),
{
    if s.len() > 0 && spec_is_white(s[0]) {
        let rest = s.drop_first();
        lemma_trim_front(rest);
        assert(trim_front(s) =~= s.skip(s.len() - trim_front(s).len()));
        assert forall|i: int| 0 <= i < s.len() - trim_front(s).len() implies spec_is_white(
            #[trigger] s[i],
        ) by {
            if i > 0 {
                assert(rest[i - 1] == s[i]);
            }
        }
    } else {
        assert(s =~= s.skip(0));
    }
}

proof fn lemma_trim_back(s: Seq<char>)
    ensures
        trim_back(s).len() <= s.len(),
        trim_back(s) == s.take(trim_back(s).len() as int),
        trim_back(s).len() > 0 ==> !spec_is_white(trim_back(s).last()),
        trim_back(s).len() > 0 ==> trim_back(s)[0] == s[0],
        forall|i: int| trim_back(s).len() <= i < s.len() ==> spec_is_white(#[trigger] s[i]),
    decreases s.len(),
{
    if s.len() > 0 && spec_is_white(s.last()) {
        let rest = s.drop_last();
        lemma_trim_back(rest);
        assert(trim_back(s) =~= s.take(trim_back(s).len() as int));
        assert forall|i: int| trim_back(s).len() <= i < s.len() implies spec_is_white(
            #[trigger] s[i],
        ) by {
            if i < rest.len() {
                assert(rest[i] == s[i]);
            }
        }
    } else {
        assert(s =~= s.take(s.len() as int));
    }
}

/// `needle` stands in `s` from position `i` on.
pub open spec fn occurs_at(s: Seq<char>, needle: Seq<char>, i: int) -> bool {
    0 <= i && i + needle.len() <= s.len() && s.subrange(i, i + needle.len()) == needle
}

/// `needle` stands somewhere in `s`.
pub open spec fn occurs(s: Seq<char>, needle: Seq<char>) -> bool {
    exists|i: int| #[trigger] occurs_at(s, needle, i)
}

/// What follows `prefix` on the first line of `text` that starts with it. A
/// line ends with a line feed, or a carriage return and a line feed, or the
/// end of the text.
pub open spec fn spec_tagged_line(text: Seq<char>, prefix: Seq<char>) -> Option<Seq<char>>
    decreases text.len(),
{
    let k = split_point(text, '\n');
    let line = if 0 < k < text.len() && text[k - 1] == '\r' {
        text.take(k - 1)
    } else {
        text.take(k)
    };
    if prefix.is_prefix_of(line) {
        Some(line.skip(prefix.len() as int))
    } else if 0 <= k < text.len() {
        spec_tagged_line(text.skip(k + 1), prefix)
    } else {
        None
    }
}

/// The value of one hexadecimal digit, in either case.
pub open spec fn spec_hex_digit(c: char) -> Option<nat> {
    if '0' <= c <= '9' {
        Some((c as u32 - '0' as u32) as nat)
    } else if 'a' <= c <= 'f' {
        Some((c as u32 - 'a' as u32 + 10) as nat)
    } else if 'A' <= c <= 'F' {
        Some((c as u32 - 'A' as u32 + 10) as nat)
    } else {
        None
    }
}

/// The number that a run of hexadecimal digits spells; an empty run spells 0.
pub open spec fn hex_value(s: Seq<char>) -> Option<nat>
    decreases s.len(),
{
    if s.len() == 0 {
        Some(0)
    } else {
        match (hex_value(s.drop_last()), spec_hex_digit(s.last())) {
            (Some(high), Some(low)) => Some(high * 16 + low),
            _ => None,
        }
    }
}

/// The digits of a number: what is left after one optional `+`.
pub open spec fn unsigned_part(s: Seq<char>) -> Seq<char> {
    if s.len() > 0 && s[0] == '+' {
        s.skip(1)
    } else {
        s
    }
}

/// An optional `+` and at least one hexadecimal digit, spelling a number that
/// 32 bits hold.
pub open spec fn spec_hex_number(s: Seq<char>) -> Option<nat> {
    let digits = unsigned_part(s);
    match hex_value(digits) {
        Some(v) => if digits.len() > 0 && v <= u32::MAX {
            Some(v)
        } else {
            None
        },
        None => None,
    }
}

/// The text of one digit, in lower case.
pub open spec fn digit_char(d: int) -> char {
    if d < 10 {
        ('0' as u32 + d) as char
    } else {
        ('a' as u32 + (d - 10)) as char
    }
}

/// Two hexadecimal digits.
pub open spec fn hex_text(b: u8) -> Seq<char> {
    seq![digit_char(b as int / 16), digit_char(b as int % 16)]
}

/// Decimal digits without leading zeros.
pub open spec fn decimal_text(n: nat) -> Seq<char>
    decreases n,
{
    if n < 10 {
        seq![digit_char(n as int)]
    } else {
        decimal_text(n / 10).push(digit_char(n as int % 10))
    }
}

/// `None`, or `Some` with the number in brackets.
pub open spec fn spec_option_text(b: Option<u8>) -> Seq<char> {
    match b {
        None => "None"@,
        Some(v) => "Some("@ + decimal_text(v as nat) + ")"@,
    }
}

/// The characters of a text, one by one.
pub fn chars_of(s: &str) -> (v: Vec<char>)
    ensures
        v@ == s@,
{
    let mut v: Vec<char> = Vec::new();
    for c in it: s.chars()
        invariant
            it.seq() == s@,
            v@ == s@.take(it.index()),
    {
        v.push(c);
    }
    v
}

/// The position of the first `sep` from `from` on; the length where there is
/// none.
fn scan(v: &Vec<char>, sep: char, from: usize) -> (end: usize)
    requires
        from <= v.len(),
    ensures
        from <= end <= v.len(),
        end - from == split_point(v@.skip(from as int), sep),
        forall|i: int| from <= i < end ==> v[i] != sep,
        end < v.len() ==> v[end as int] == sep,
{
    let mut end: usize = from;
    while end < v.len() && v[end] != sep
        invariant
            from <= end <= v.len(),
            forall|i: int| from <= i < end ==> v[i] != sep,
        decreases v.len() - end,
    {
        end = end + 1;
    }
    proof {
        lemma_split_point(v@.skip(from as int), sep, end - from);
    }
    end
}

/// The piece with number `n` (from 0) of `s` cut at every `sep`.
pub fn field<'a>(s: &'a str, sep: char, n: usize) -> (piece: Option<&'a str>)
    ensures
        match piece {
            Some(p) => spec_field(s@, sep, n as nat) == Some(p@),
            None => spec_field(s@, sep, n as nat) is None,
        },
{
    let v = chars_of(s);
    let mut from: usize = 0;
    let mut left: usize = n;
    assert(s@.skip(0) == s@);
    loop
        invariant
            v@ == s@,
            from <= v.len(),
            spec_field(s@, sep, n as nat) == spec_field(s@.skip(from as int), sep, left as nat),
        decreases left,
    {
        let end: usize = scan(&v, sep, from);
        if left == 0 {
            assert(s@.skip(from as int).take(end - from) == s@.subrange(from as int, end as int));
            return Some(s.substring_char(from, end));
        }
        if end == v.len() {
            return None;
        }
        assert(s@.skip(from as int).skip(end - from + 1) == s@.skip(end + 1));
        from = end + 1;
        left = left - 1;
    }
}

/// Whether Unicode counts `c` as white space.
pub fn is_white(c: char) -> (white: bool)
    ensures
        white == spec_is_white(c),
{
    let n: u32 = c as u32;
    (0x9 <= n && n <= 0xd) || n == 0x20 || n == 0x85 || n == 0xa0 || n == 0x1680 || (0x2000 <= n
        && n <= 0x200a) || n == 0x2028 || n == 0x2029 || n == 0x202f || n == 0x205f || n == 0x3000
}

/// `s` without the white space at its two ends.
pub fn trimmed<'a>(s: &'a str) -> (t: &'a str)
    ensures
        t@ == spec_trimmed(s@),
{
    let v = chars_of(s);
    let mut from: usize = 0;
    assert(s@.skip(0) == s@);
    while from < v.len() && is_white(v[from])
        invariant
            v@ == s@,
            from <= v.len(),
            trim_front(s@) == trim_front(s@.skip(from as int)),
        decreases v.len() - from,
    {
        assert(s@.skip(from as int).drop_first() == s@.skip(from + 1));
        from = from + 1;
    }
    let mut to: usize = v.len();
    assert(s@.skip(from as int) == s@.subrange(from as int, to as int));
    while to > from && is_white(v[to - 1])
        invariant
            v@ == s@,
            from <= to <= v.len(),
            spec_trimmed(s@) == trim_back(s@.subrange(from as int, to as int)),
        decreases to,
    {
        assert(s@.subrange(from as int, to as int).drop_last() == s@.subrange(
            from as int,
            to - 1,
        ));
        to = to - 1;
    }
    s.substring_char(from, to)
}

/// Whether `needle` stands in `v` from position `i` on.
fn matches_at(v: &Vec<char>, needle: &Vec<char>, i: usize) -> (found: bool)
    requires
        i + needle.len() <= v.len(),
    ensures
        found == occurs_at(v@, needle@, i as int),
{
    let mut j: usize = 0;
    while j < needle.len()
        invariant
            j <= needle.len(),
            i + needle.len() <= v.len(),
            forall|k: int| 0 <= k < j ==> v[i + k] == needle[k],
        decreases needle.len() - j,
    {
        if v[i + j] != needle[j] {
            assert(v@.subrange(i as int, i + needle.len())[j as int] != needle@[j as int]);
            return false;
        }
        j = j + 1;
    }
    assert(v@.subrange(i as int, i + needle.len()) == needle@);
    true
}

/// Whether `s` begins with `prefix`.
pub fn starts_with(s: &str, prefix: &str) -> (yes: bool)
    ensures
        yes == prefix@.is_prefix_of(s@),
{
    let v = chars_of(s);
    let p = chars_of(prefix);
    if p.len() > v.len() {
        return false;
    }
    matches_at(&v, &p, 0)
}

/// Whether `needle` stands somewhere in `s`.
pub fn contains_text(s: &str, needle: &str) -> (yes: bool)
    ensures
        yes == occurs(s@, needle@),
{
    let v = chars_of(s);
    let p = chars_of(needle);
    if p.len() > v.len() {
        return false;
    }
    let last: usize = v.len() - p.len();
    let mut i: usize = 0;
    while i <= last
        invariant
            v@ == s@,
            p@ == needle@,
            p.len() <= v.len(),
            last == v.len() - p.len(),
            i <= last + 1,
            forall|k: int| 0 <= k < i ==> !occurs_at(s@, needle@, k),
        decreases last + 1 - i,
    {
        if matches_at(&v, &p, i) {
            return true;
        }
        if i == last {
            return false;
        }
        i = i + 1;
    }
    false
}

/// What follows `prefix` on the first line of `text` that starts with it.
pub fn tagged_line<'a>(text: &'a str, prefix: &str) -> (rest: Option<&'a str>)
    ensures
        match rest {
            Some(r) => spec_tagged_line(text@, prefix@) == Some(r@),
            None => spec_tagged_line(text@, prefix@) is None,
        },
{
    let v = chars_of(text);
    let mut from: usize = 0;
    assert(text@.skip(0) == text@);
    loop
        invariant
            v@ == text@,
            from <= v.len(),
            spec_tagged_line(text@, prefix@) == spec_tagged_line(
                text@.skip(from as int),
                prefix@,
            ),
        decreases v.len() - from,
    {
        let end: usize = scan(&v, '\n', from);
        let stop: usize = if end < v.len() && end > from && v[end - 1] == '\r' {
            end - 1
        } else {
            end
        };
        let ghost tail = text@.skip(from as int);
        assert(tail.take(stop - from) == text@.subrange(from as int, stop as int));
        let line = text.substring_char(from, stop);
        if starts_with(line, prefix) {
            let width: usize = prefix.unicode_len();
            let length: usize = line.unicode_len();
            assert(line@.skip(width as int) == line@.subrange(width as int, length as int));
            return Some(line.substring_char(width, length));
        }
        if end == v.len() {
            return None;
        }
        assert(tail.skip(end - from + 1) == text@.skip(end + 1));
        from = end + 1;
    }
}

/// The value of one hexadecimal digit, in either case.
pub fn hex_digit(c: char) -> (d: Option<u32>)
    ensures
        match d {
            Some(v) => spec_hex_digit(c) == Some(v as nat) && v < 16,
            None => spec_hex_digit(c) is None,
        },
{
    if '0' <= c && c <= '9' {
        Some(c as u32 - '0' as u32)
    } else if 'a' <= c && c <= 'f' {
        Some(c as u32 - 'a' as u32 + 10)
    } else if 'A' <= c && c <= 'F' {
        Some(c as u32 - 'A' as u32 + 10)
    } else {
        None
    }
}

/// A run of digits spells no less than any of its beginnings.
proof fn lemma_hex_value_prefix(s: Seq<char>, n: int)
    requires
        0 <= n <= s.len(),
    ensures
        hex_value(s) is Some ==> hex_value(s.take(n)) is Some && hex_value(s.take(n))->0
            <= hex_value(s)->0,
    decreases s.len(),
{
    if n < s.len() {
        assert(s.drop_last().take(n) == s.take(n));
        lemma_hex_value_prefix(s.drop_last(), n);
    } else {
        assert(s.take(n) == s);
    }
}

/// Reads a number of at most 32 bits in hexadecimal, after an optional `+`.
pub fn hex_number(s: &str) -> (number: Option<u32>)
    ensures
        match number {
            Some(v) => spec_hex_number(s@) == Some(v as nat),
            None => spec_hex_number(s@) is None,
        },
{
    let v = chars_of(s);
    let start: usize = if v.len() > 0 && v[0] == '+' {
        1
    } else {
        0
    };
    let ghost digits = unsigned_part(s@);
    assert(digits == s@.skip(start as int));
    if start == v.len() {
        return None;
    }
    let mut at: usize = start;
    let mut sum: u32 = 0;
    while at < v.len()
        invariant
            v@ == s@,
            start <= at <= v.len(),
            start < v.len(),
            digits == unsigned_part(s@),
            digits == s@.skip(start as int),
            hex_value(digits.take(at - start)) == Some(sum as nat),
        decreases v.len() - at,
    {
        proof {
            assert(digits.take(at - start + 1).drop_last() == digits.take(at - start));
            assert(digits.take(at - start + 1).last() == v@[at as int]);
            lemma_hex_value_prefix(digits, at - start + 1);
        }
        match hex_digit(v[at]) {
            None => {
                return None;
            },
            Some(d) => {
                if sum > 0x0fff_ffff {
                    return None;
                }
                sum = sum * 16 + d;
            },
        }
        at = at + 1;
    }
    assert(digits.take(at - start) == digits);
    Some(sum)
}

/// The text of one hexadecimal digit.
fn digit_str(d: u8) -> (s: &'static str)
    requires
        d < 16,
    ensures
        s@ == seq![digit_char(d as int)],
{
    proof {
        reveal_strlit("0");
        reveal_strlit("1");
        reveal_strlit("2");
        reveal_strlit("3");
        reveal_strlit("4");
        reveal_strlit("5");
        reveal_strlit("6");
        reveal_strlit("7");
        reveal_strlit("8");
        reveal_strlit("9");
        reveal_strlit("a");
        reveal_strlit("b");
        reveal_strlit("c");
        reveal_strlit("d");
        reveal_strlit("e");
        reveal_strlit("f");
    }
    match d {
        0 => "0",
        1 => "1",
        2 => "2",
        3 => "3",
        4 => "4",
        5 => "5",
        6 => "6",
        7 => "7",
        8 => "8",
        9 => "9",
        10 => "a",
        11 => "b",
        12 => "c",
        13 => "d",
        14 => "e",
        _ => "f",
    }
}

/// A byte as two hexadecimal digits.
pub fn byte_hex(b: u8) -> (s: String)
    ensures
        s@ == hex_text(b),
{
    let mut s: String = String::new();
    s.append(digit_str(b / 16));
    s.append(digit_str(b % 16));
    s
}

/// A byte in decimal.
pub fn byte_decimal(b: u8) -> (s: String)
    ensures
        s@ == decimal_text(b as nat),
    decreases b,
{
    let mut s: String = if b < 10 {
        String::new()
    } else {
        byte_decimal(b / 10)
    };
    s.append(digit_str(b % 10));
    s
}

/// `None`, or `Some` with the byte in brackets.
pub fn option_text(b: Option<u8>) -> (s: String)
    ensures
        s@ == spec_option_text(b),
{
    match b {
        None => "None".to_owned(),
        Some(v) => {
            let mut s: String = "Some(".to_owned();
            s.append(byte_decimal(v).as_str());
            s.append(")");
            s
        },
    }
}

/// The number that decimal digits spell.
pub open spec fn decimal_value(s: Seq<char>) -> Option<nat>
    decreases s.len(),
{
    if s.len() == 0 {
        Some(0)
    } else if '0' <= s.last() <= '9' {
        match decimal_value(s.drop_last()) {
            Some(high) => Some(high * 10 + (s.last() as u32 - 0x30) as nat),
            None => None,
        }
    } else {
        None
    }
}

/// At least one decimal digit, and no zero in front of others.
pub open spec fn is_plain_decimal(s: Seq<char>) -> bool {
    &&& s.len() > 0
    &&& s.len() > 1 ==> s[0] != '0'
}

/// Hexadecimal digits in lower case.
pub open spec fn is_plain_hex(s: Seq<char>) -> bool {
    forall|i: int|
        0 <= i < s.len() ==> '0' <= #[trigger] s[i] <= '9' || 'a' <= s[i] <= 'f'
}

/// A text says `None`, or `Some` with a number in brackets.
pub open spec fn tells_option(s: Seq<char>, b: Option<u8>) -> bool {
    match b {
        None => s == "None"@,
        Some(v) => exists|digits: Seq<char>|
            {
                &&& s == "Some("@ + digits + ")"@
                &&& #[trigger] is_plain_decimal(digits)
                &&& decimal_value(digits) == Some(v as nat)
            },
    }
}

/// A number in decimal reads back as itself, and has no needless zeros.
pub proof fn law_number_is_told_in_decimal(n: nat)
    ensures
        decimal_value(decimal_text(n)) == Some(n),
        is_plain_decimal(decimal_text(n)),
        n > 0 ==> decimal_text(n)[0] != '0',
    decreases n,
{
    let s = decimal_text(n);
    if n < 10 {
        assert(s.drop_last() =~= Seq::empty());
        assert(decimal_value(s.drop_last()) == Some(0nat));
    } else {
        law_number_is_told_in_decimal(n / 10);
        assert(s.drop_last() =~= decimal_text(n / 10));
    }
}

/// A byte in hexadecimal reads back as itself, from two digits in lower case.
pub proof fn law_byte_is_told_in_hexadecimal(b: u8)
    ensures
        hex_text(b).len() == 2,
        is_plain_hex(hex_text(b)),
        hex_value(hex_text(b)) == Some(b as nat),
        spec_hex_number(hex_text(b)) == Some(b as nat),
{
    let s = hex_text(b);
    assert(s.drop_last() =~= seq![s[0]]);
    assert(s.drop_last().drop_last() =~= Seq::empty());
    reveal_with_fuel(hex_value, 3);
}

/// An optional byte is told in decimal, or as missing.
pub proof fn law_option_is_told(b: Option<u8>)
    ensures
        tells_option(spec_option_text(b), b),
{
    if let Some(v) = b {
        law_number_is_told_in_decimal(v as nat);
        assert(is_plain_decimal(decimal_text(v as nat)));
    }
}

/// Texts in a row with `sep` between them.
pub open spec fn joined_by(pieces: Seq<Seq<char>>, sep: char) -> Seq<char>
    decreases pieces.len(),
{
    if pieces.len() == 0 {
        Seq::empty()
    } else if pieces.len() == 1 {
        pieces[0]
    } else {
        pieces[0].push(sep) + joined_by(pieces.drop_first(), sep)
    }
}

/// None of some texts holds `sep`.
pub open spec fn free_of(pieces: Seq<Seq<char>>, sep: char) -> bool {
    forall|i: int| 0 <= i < pieces.len() ==> !(#[trigger] pieces[i]).contains(sep)
}

/// Cutting undoes joining: the pieces of a joined text are those that were
/// joined, in order, and there are no more of them.
pub proof fn law_cutting_undoes_joining(pieces: Seq<Seq<char>>, sep: char, n: nat)
    requires
        pieces.len() > 0,
        free_of(pieces, sep),
    ensures
        spec_field(joined_by(pieces, sep), sep, n) == (if n < pieces.len() {
            Some(pieces[n as int])
        } else {
            None
        }),
    decreases n,
{
    lemma_first_piece(pieces, sep);
    if n > 0 && pieces.len() > 1 {
        let rest = pieces.drop_first();
        assert forall|i: int| 0 <= i < rest.len() implies !(#[trigger] rest[i]).contains(sep) by {
            assert(rest[i] == pieces[i + 1]);
        }
        law_cutting_undoes_joining(rest, sep, (n - 1) as nat);
    }
}

/// Where the first piece of a joined text ends, and what follows it.
proof fn lemma_first_piece(pieces: Seq<Seq<char>>, sep: char)
    requires
        pieces.len() > 0,
        free_of(pieces, sep),
    ensures
        ({
            let s = joined_by(pieces, sep);
            let k = pieces[0].len() as int;
            &&& split_point(s, sep) == k
            &&& k <= s.len()
            &&& s.take(k) == pieces[0]
            &&& pieces.len() == 1 ==> s.len() == k
            &&& pieces.len() > 1 ==> k < s.len() && s.skip(k + 1) == joined_by(
                pieces.drop_first(),
                sep,
            )
        }),
{
    let s = joined_by(pieces, sep);
    let k = pieces[0].len() as int;
    assert forall|i: int| 0 <= i < k implies s[i] != sep by {
        assert(pieces[0][i] == s[i]);
        assert(pieces[0].contains(s[i]));
    }
    lemma_split_point(s, sep, k);
    assert(s.take(k) =~= pieces[0]);
    if pieces.len() > 1 {
        assert(s.skip(k + 1) =~= joined_by(pieces.drop_first(), sep));
    }
}

/// Line number `i` of some lines that are joined with line feeds: a carriage
/// return in front of a line feed is no part of the line.
pub open spec fn shorn(lines: Seq<Seq<char>>, i: int) -> Seq<char> {
    if i + 1 < lines.len() && lines[i].len() > 0 && lines[i].last() == '\r' {
        lines[i].drop_last()
    } else {
        lines[i]
    }
}

/// The first line that starts with a tag counts: what follows the tag on it is
/// found, and nothing is found where no line starts with the tag.
pub proof fn law_first_tagged_line_counts(lines: Seq<Seq<char>>, prefix: Seq<char>, k: int)
    requires
        0 <= k <= lines.len(),
        lines.len() > 0,
        free_of(lines, '\n'),
        forall|i: int| 0 <= i < k ==> !prefix.is_prefix_of(#[trigger] shorn(lines, i)),
        k < lines.len() ==> prefix.is_prefix_of(shorn(lines, k)),
    ensures
        spec_tagged_line(joined_by(lines, '\n'), prefix) == (if k < lines.len() {
            Some(shorn(lines, k).skip(prefix.len() as int))
        } else {
            None
        }),
    decreases lines.len(),
{
    lemma_first_piece(lines, '\n');
    let s = joined_by(lines, '\n');
    let n = lines[0].len() as int;
    let line = if 0 < n < s.len() && s[n - 1] == '\r' {
        s.take(n - 1)
    } else {
        s.take(n)
    };
    assert(n > 0 ==> s[n - 1] == s.take(n)[n - 1]);
    assert(line =~= shorn(lines, 0));
    if k > 0 {
        assert(!prefix.is_prefix_of(shorn(lines, 0)));
        if lines.len() > 1 {
            let rest = lines.drop_first();
            assert forall|i: int| 0 <= i < rest.len() implies !(#[trigger] rest[i]).contains(
                '\n',
            ) by {
                assert(rest[i] == lines[i + 1]);
            }
            assert forall|i: int| 0 <= i < rest.len() implies #[trigger] shorn(rest, i) == shorn(
                lines,
                i + 1,
            ) by {
                assert(rest[i] == lines[i + 1]);
            }
            law_first_tagged_line_counts(rest, prefix, k - 1);
        }
    }
}

/// Trimming takes away the white space at the two ends, all of it and nothing
/// else.
pub proof fn law_trimming_finds_the_core(front: Seq<char>, core: Seq<char>, back: Seq<char>)
    requires
        forall|i: int| 0 <= i < front.len() ==> spec_is_white(#[trigger] front[i]),
        forall|i: int| 0 <= i < back.len() ==> spec_is_white(#[trigger] back[i]),
        core.len() > 0 ==> !spec_is_white(core[0]) && !spec_is_white(core.last()),
    ensures
        spec_trimmed(front + core + back) == core,
{
    let s = front + core + back;
    law_trimmed_ends(s);
    law_trimmed_is_a_part(s);
    let (from, to) = choose|from: int, to: int|
        {
            &&& 0 <= from <= to <= s.len()
            &&& #[trigger] s.subrange(from, to) == spec_trimmed(s)
            &&& forall|i: int| 0 <= i < from ==> spec_is_white(#[trigger] s[i])
            &&& forall|i: int| to <= i < s.len() ==> spec_is_white(#[trigger] s[i])
        };
    let a = front.len() as int;
    let b = a + core.len();
    assert forall|i: int| 0 <= i < a implies spec_is_white(#[trigger] s[i]) by {
        assert(s[i] == front[i]);
    }
    assert forall|i: int| b <= i < s.len() implies spec_is_white(#[trigger] s[i]) by {
        assert(s[i] == back[i - b]);
    }
    let t = spec_trimmed(s);
    if core.len() > 0 {
        assert(s[a] == core[0]);
        assert(s[b - 1] == core.last());
        assert(from <= a && b <= to);
        assert(t[0] == s[from]);
        assert(t.last() == s[to - 1]);
        assert(from == a && to == b);
        assert(t =~= core);
    } else {
        if t.len() > 0 {
            assert(t[0] == s[from]);
            assert(spec_is_white(s[from]));
        }
        assert(t =~= core);
    }
}

/// White space is the tab, the line feed and the three controls after them, the
/// blank, and the other spaces and separators of Unicode.
pub proof fn law_white_space(c: char)
    ensures
        spec_is_white(c) <==> set![
            0x9u32, 0xau32, 0xbu32, 0xcu32, 0xdu32, 0x20u32, 0x85u32, 0xa0u32, 0x1680u32,
            0x2000u32, 0x2001u32, 0x2002u32, 0x2003u32, 0x2004u32, 0x2005u32, 0x2006u32,
            0x2007u32, 0x2008u32, 0x2009u32, 0x200au32, 0x2028u32, 0x2029u32, 0x202fu32,
            0x205fu32, 0x3000u32,
        ].contains(c as u32),
{
}

/// A text is found in any text around it, and where it is found it stands.
pub proof fn law_finding_a_text(s: Seq<char>, needle: Seq<char>, before: Seq<char>, after: Seq<char>)
    ensures
        occurs(before + needle + after, needle),
        occurs(s, needle) ==> exists|a: Seq<char>, b: Seq<char>| s == #[trigger] (a + needle + b),
{
    let whole = before + needle + after;
    let at = before.len() as int;
    assert(whole.subrange(at, at + needle.len()) =~= needle);
    assert(occurs_at(whole, needle, at));
    if occurs(s, needle) {
        let i = choose|i: int| #[trigger] occurs_at(s, needle, i);
        assert(s =~= s.take(i) + s.subrange(i, i + needle.len()) + s.skip(i + needle.len()));
        assert(s == s.take(i) + needle + s.skip(i + needle.len()));
    }
}

/// The sixteen hexadecimal digits, the letters in either case, and no others.
pub proof fn law_hex_digits(c: char, d: int)
    ensures
        0 <= d < 10 ==> spec_hex_digit((0x30 + d) as char) == Some(d as nat),
        10 <= d < 16 ==> spec_hex_digit((0x61 + d - 10) as char) == Some(d as nat)
            && spec_hex_digit((0x41 + d - 10) as char) == Some(d as nat),
        spec_hex_digit(c) is Some ==> '0' <= c <= '9' || 'a' <= c <= 'f' || 'A' <= c <= 'F',
{
}

/// One more digit makes sixteen times as much and the digit.
pub proof fn law_one_more_hex_digit(s: Seq<char>, c: char)
    ensures
        hex_value(Seq::empty()) == Some(0nat),
        hex_value(s.push(c)) == (match (hex_value(s), spec_hex_digit(c)) {
            (Some(high), Some(low)) => Some(16 * high + low),
            _ => None,
        }),
{
    assert(s.push(c).drop_last() =~= s);
}

/// Hexadecimal digits are read as the number that they spell where 32 bits hold
/// it, and not at all where they do not. A plus in front changes nothing, two
/// are too many, and without a digit there is no number.
pub proof fn law_hex_number(digits: Seq<char>)
    requires
        digits.len() > 0 ==> digits[0] != '+',
    ensures
        spec_hex_number(digits) == (match hex_value(digits) {
            Some(n) => if digits.len() > 0 && n < 0x1_0000_0000 {
                Some(n)
            } else {
                None
            },
            None => None,
        }),
        spec_hex_number(seq!['+'] + digits) == spec_hex_number(digits),
        spec_hex_number(seq!['+', '+'] + digits) is None,
{
    assert((seq!['+'] + digits).skip(1) =~= digits);
    let twice = seq!['+', '+'] + digits;
    let once = seq!['+'] + digits;
    assert(twice.skip(1) =~= once);
    lemma_hex_value_prefix(once, 1);
    assert(once.take(1) =~= seq!['+']);
    assert(seq!['+'].drop_last() =~= Seq::empty());
    assert(hex_value(seq!['+']) is None);
}

} // verus!
