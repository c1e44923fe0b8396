//! Text as a sequence of characters: the searching, trimming and number reading
//! that the rest of the library is written in.

use vstd::prelude::*;
use vstd::slice::slice_subrange;

verus! {

/// The characters with the Unicode property White_Space.
pub open spec fn is_white(c: char) -> bool {
    let n = c as u32;
    ||| 0x9 <= n <= 0xd
    ||| n == 0x20
    ||| n == 0x85
    ||| n == 0xa0
    ||| n == 0x1680
    ||| 0x2000 <= n <= 0x200a
    ||| n == 0x2028
    ||| n == 0x2029
    ||| n == 0x202f
    ||| n == 0x205f
    ||| n == 0x3000
}

/// `s` without its leading white space.
pub open spec fn trimmed_start(s: Seq<char>) -> Seq<char>
    decreases s.len(),
{
    if s.len() > 0 && is_white(s[0]) {
        trimmed_start(s.drop_first())
    } else {
        s
    }
}

/// `s` without its trailing white space.
pub open spec fn trimmed_end(s: Seq<char>) -> Seq<char>
    decreases s.len(),
{
    if s.len() > 0 && is_white(s.last()) {
        trimmed_end(s.drop_last())
    } else {
        s
    }
}

/// `s` without the white space at either end.
pub open spec fn trimmed(s: Seq<char>) -> Seq<char> {
    trimmed_end(trimmed_start(s))
}

/// `s` without its leading characters that occur in `unwanted`.
pub open spec fn without_leading(s: Seq<char>, unwanted: Seq<char>) -> Seq<char>
    decreases s.len(),
{
    if s.len() > 0 && unwanted.contains(s[0]) {
        without_leading(s.drop_first(), unwanted)
    } else {
        s
    }
}

/// `s` without its trailing characters that occur in `unwanted`.
pub open spec fn without_trailing(s: Seq<char>, unwanted: Seq<char>) -> Seq<char>
    decreases s.len(),
{
    if s.len() > 0 && unwanted.contains(s.last()) {
        without_trailing(s.drop_last(), unwanted)
    } else {
        s
    }
}

/// `p` stands in `s` from position `i` on.
pub open spec fn occurs_at(s: Seq<char>, p: Seq<char>, i: int) -> bool {
    &&& 0 <= i
    &&& i + p.len() <= s.len()
    &&& s.subrange(i, i + p.len()) == p
}

/// `p` stands somewhere in `s`.
pub open spec fn contains_text(s: Seq<char>, p: Seq<char>) -> bool {
    exists|i: int| occurs_at(s, p, i)
}

/// `s` begins with `p`.
pub open spec fn begins_with(s: Seq<char>, p: Seq<char>) -> bool {
    occurs_at(s, p, 0)
}

/// The first position from `i` on at which `p` stands in `s`.
pub open spec fn found_from(s: Seq<char>, p: Seq<char>, i: nat) -> Option<nat>
    decreases s.len() - i,
{
    if i + p.len() > s.len() {
        None
    } else if occurs_at(s, p, i as int) {
        Some(i)
    } else if i < s.len() {
        found_from(s, p, i + 1)
    } else {
        None
    }
}

/// The first position at which `p` stands in `s`.
pub open spec fn found(s: Seq<char>, p: Seq<char>) -> Option<nat> {
    found_from(s, p, 0)
}

/// The last position below `n` at which `c` stands in `s`.
pub open spec fn last_below(s: Seq<char>, c: char, n: nat) -> Option<nat>
    decreases n,
{
    if n == 0 {
        None
    } else if s[n - 1] == c {
        Some((n - 1) as nat)
    } else {
        last_below(s, c, (n - 1) as nat)
    }
}

/// `s` with every occurrence of `p` taken out, found from left to right.
pub open spec fn without_text(s: Seq<char>, p: Seq<char>) -> Seq<char>
    decreases s.len(),
{
    match found(s, p) {
        Some(i) if p.len() > 0 && i + p.len() <= s.len() => s.take(i as int) + without_text(
            s.skip((i + p.len()) as int),
            p,
        ),
        _ => s,
    }
}

/// A line without the carriage return that belongs to its line ending.
pub open spec fn without_return(s: Seq<char>) -> Seq<char> {
    if s.len() > 0 && s.last() == '\r' {
        s.drop_last()
    } else {
        s
    }
}

/// The first position from `i` on at which `c` stands in `s`, or the length of `s`.
pub open spec fn next_position(s: Seq<char>, c: char, i: nat) -> nat
    decreases s.len() - i,
{
    if i >= s.len() {
        s.len()
    } else if s[i as int] == c {
        i
    } else {
        next_position(s, c, i + 1)
    }
}

/// The lines of `s`. A line ends in a line feed, or in a carriage return and a line
/// feed; the last line may lack its ending.
pub open spec fn lines_of(s: Seq<char>) -> Seq<Seq<char>>
    decreases s.len(),
{
    if s.len() == 0 {
        Seq::empty()
    } else {
        let k = next_position(s, '\n', 0);
        if k >= s.len() {
            seq![s]
        } else {
            seq![without_return(s.take(k as int))] + lines_of(s.skip(k as int + 1))
        }
    }
}

pub open spec fn is_digit(c: char) -> bool {
    '0' <= c && c <= '9'
}

pub open spec fn all_digits(s: Seq<char>) -> bool {
    forall|i: int| 0 <= i < s.len() ==> is_digit(#[trigger] s[i])
}

/// The number that a sequence of decimal digits writes.
pub open spec fn digits_value(s: Seq<char>) -> nat
    decreases s.len(),
{
    if s.len() == 0 {
        0
    } else {
        (digits_value(s.drop_last()) * 10 + (s.last() as u32 - '0' as u32)) as nat
    }
}

/// What an unsigned 32-bit number is read from: digits, with a plus sign before them or
/// not, whose value fits.
pub open spec fn parsed_u32(s: Seq<char>) -> Option<u32> {
    let digits = if s.len() > 0 && s[0] == '+' {
        s.drop_first()
    } else {
        s
    };
    if digits.len() > 0 && all_digits(digits) && digits_value(digits) <= u32::MAX {
        Some(digits_value(digits) as u32)
    } else {
        None
    }
}

/// The decimal digit for a number below ten.
pub open spec fn digit(n: nat) -> char {
    ('0' as u32 + n) as char
}

/// `n` written in decimal.
pub open spec fn decimal(n: nat) -> Seq<char>
    decreases n,
{
    if n < 10 {
        seq![digit(n)]
    } else {
        decimal(n / 10).push(digit(n % 10))
    }
}

/// The views of a sequence of texts.
pub open spec fn texts(v: Seq<&[char]>) -> Seq<Seq<char>> {
    v.map_values(|x: &[char]| x@)
}

/// Every character of `s` is an ASCII character.
pub open spec fn all_ascii(s: Seq<char>) -> bool {
    forall|i: int| 0 <= i < s.len() ==> (#[trigger] s[i]) as u32 <= 0x7f
}

/// The lower-case form of an ASCII character.
pub open spec fn ascii_lower(c: char) -> char {
    if 'A' <= c && c <= 'Z' {
        (c as u32 + 0x20) as char
    } else {
        c
    }
}

/// The digit of a hexadecimal number for a value below sixteen.
pub open spec fn hex_digit(n: int) -> char {
    if n < 10 {
        ('0' as u32 + n) as char
    } else {
        ('a' as u32 + (n - 10)) as char
    }
}

/// What `str::to_lowercase` makes of a text.
pub uninterp spec fn lowercase(s: Seq<char>) -> Seq<char>;

/// `str::to_lowercase`: its result is a function of the text alone, called `lowercase`.
/// On an ASCII text it puts each capital letter in lower case and changes nothing else.
/// What it makes of other texts is left to Unicode's tables.
pub assume_specification[ str::to_lowercase ](s: &str) -> (r: String)
    ensures
        r@ == lowercase(s@),
        all_ascii(s@) ==> r@ == s@.map_values(|c: char| ascii_lower(c)),
;

/// `String::push`: appends one character.
pub assume_specification[ String::push ](s: &mut String, c: char)
    ensures
        final(s)@ == old(s)@.push(c),
;

/// The characters of a string.
pub fn chars_of(s: &str) -> (r: Vec<char>)
    ensures
        r@ == s@,
{
    let mut v: Vec<char> = Vec::new();
    for c in it: s.chars()
        invariant
            it.seq() == s@,
            v@ == s@.take(it.index() as int),
    {
        v.push(c);
        assert(s@.take(it.index() as int + 1) =~= s@.take(it.index() as int).push(c));
    }
    assert(s@.take(s@.len() as int) =~= s@);
    v
}

/// The string of the given characters.
pub fn string_of(s: &[char]) -> (r: String)
    ensures
        r@ == s@,
{
    let mut out = String::new();
    let mut i: usize = 0;
    while i < s.len()
        invariant
            i <= s@.len(),
            out@ == s@.take(i as int),
        decreases s@.len() - i,
    {
        out.push(s[i]);
        i += 1;
        assert(s@.take(i as int) =~= s@.take(i - 1).push(s@[i - 1]));
    }
    assert(s@.take(s@.len() as int) =~= s@);
    out
}

/// Whether a character is white space.
pub fn white(c: char) -> (r: bool)
    ensures
        r == is_white(c),
{
    let n: u32 = c as u32;
    (0x9 <= n && n <= 0xd) || n == 0x20 || n == 0x85 || n == 0xa0 || n == 0x1680 || (0x2000 <= n
        && n <= 0x200a) || n == 0x2028 || n == 0x2029 || n == 0x202f || n == 0x205f || n == 0x3000
}

/// Takes the white space off both ends.
pub fn trim<'a>(s: &'a [char]) -> (r: &'a [char])
    ensures
        r@ == trimmed(s@),
{
    let n: usize = s.len();
    let mut start: usize = 0;
    assert(s@.skip(0) =~= s@);
    while start < n && white(s[start])
        invariant
            n == s@.len(),
            start <= n,
            trimmed_start(s@.skip(start as int)) == trimmed_start(s@),
        decreases n - start,
    {
        assert(s@.skip(start as int).drop_first() =~= s@.skip(start + 1));
        start += 1;
    }
    assert(trimmed_start(s@) == s@.skip(start as int));
    let mut end: usize = n;
    assert(s@.subrange(start as int, n as int) =~= s@.skip(start as int));
    while end > start && white(s[end - 1])
        invariant
            n == s@.len(),
            start <= end <= n,
            trimmed_end(s@.subrange(start as int, end as int)) == trimmed_end(
                s@.skip(start as int),
            ),
        decreases end - start,
    {
        assert(s@.subrange(start as int, end as int).drop_last() =~= s@.subrange(
            start as int,
            end - 1,
        ));
        end -= 1;
    }
    slice_subrange(s, start, end)
}

/// Whether a character occurs in a text.
pub fn has_char(s: &[char], c: char) -> (r: bool)
    ensures
        r == s@.contains(c),
{
    let mut i: usize = 0;
    while i < s.len()
        invariant
            i <= s@.len(),
            forall|j: int| 0 <= j < i ==> s@[j] != c,
        decreases s@.len() - i,
    {
        if s[i] == c {
            return true;
        }
        i += 1;
    }
    false
}

/// Takes the leading characters that occur in `unwanted` off.
pub fn strip_leading<'a>(s: &'a [char], unwanted: &str) -> (r: &'a [char])
    ensures
        r@ == without_leading(s@, unwanted@),
{
    let set = chars_of(unwanted);
    let n: usize = s.len();
    let mut start: usize = 0;
    assert(s@.skip(0) =~= s@);
    while start < n && has_char(&set, s[start])
        invariant
            n == s@.len(),
            start <= n,
            set@ == unwanted@,
            without_leading(s@.skip(start as int), unwanted@) == without_leading(s@, unwanted@),
        decreases n - start,
    {
        assert(s@.skip(start as int).drop_first() =~= s@.skip(start + 1));
        start += 1;
    }
    assert(s@.subrange(start as int, n as int) =~= s@.skip(start as int));
    slice_subrange(s, start, n)
}

/// Takes the trailing characters that occur in `unwanted` off.
pub fn strip_trailing<'a>(s: &'a [char], unwanted: &str) -> (r: &'a [char])
    ensures
        r@ == without_trailing(s@, unwanted@),
{
    let set = chars_of(unwanted);
    let mut end: usize = s.len();
    assert(s@.take(end as int) =~= s@);
    while end > 0 && has_char(&set, s[end - 1])
        invariant
            end <= s@.len(),
            set@ == unwanted@,
            without_trailing(s@.take(end as int), unwanted@) == without_trailing(s@, unwanted@),
        decreases end,
    {
        assert(s@.take(end as int).drop_last() =~= s@.take(end - 1));
        end -= 1;
    }
    assert(s@.subrange(0, end as int) =~= s@.take(end as int));
    slice_subrange(s, 0, end)
}

/// Whether `p` stands in `s` at position `i`.
pub fn stands_at(s: &[char], p: &[char], i: usize) -> (r: bool)
    ensures
        r == occurs_at(s@, p@, i as int),
{
    if i > s.len() || p.len() > s.len() - i {
        return false;
    }
    let n: usize = s.len();
    let mut j: usize = 0;
    while j < p.len()
        invariant
            n == s@.len(),
            i + p@.len() <= n,
            j <= p@.len(),
            forall|k: int| 0 <= k < j ==> s@[i + k] == p@[k],
        decreases p@.len() - j,
    {
        if s[i + j] != p[j] {
            assert(s@.subrange(i as int, i + p@.len())[j as int] != p@[j as int]);
            return false;
        }
        j += 1;
    }
    assert(s@.subrange(i as int, i + p@.len()) =~= p@);
    true
}

/// Whether `s` begins with `p`.
pub fn starts_with(s: &[char], p: &str) -> (r: bool)
    ensures
        r == begins_with(s@, p@),
{
    let wanted = chars_of(p);
    stands_at(s, &wanted, 0)
}

/// The first position of `p` in `s`.
pub fn find_chars(s: &[char], p: &[char]) -> (r: Option<usize>)
    ensures
        match r {
            Some(i) => found(s@, p@) == Some(i as nat) && occurs_at(s@, p@, i as int),
            None => found(s@, p@) is None,
        },
{
    let mut i: usize = 0;
    loop
        invariant
            i <= s@.len(),
            found(s@, p@) == found_from(s@, p@, i as nat),
        decreases s@.len() - i,
    {
        if p.len() > s.len() - i {
            return None;
        }
        if stands_at(s, p, i) {
            return Some(i);
        }
        if i == s.len() {
            return None;
        }
        i += 1;
    }
}

/// The first position of a string in `s`.
pub fn find(s: &[char], p: &str) -> (r: Option<usize>)
    ensures
        match r {
            Some(i) => found(s@, p@) == Some(i as nat) && occurs_at(s@, p@, i as int),
            None => found(s@, p@) is None,
        },
{
    let wanted = chars_of(p);
    find_chars(s, &wanted)
}

/// What `found_from` finds is the first occurrence, and it finds one where there is one.
proof fn lemma_found_from(s: Seq<char>, p: Seq<char>, i: nat)
    ensures
        match found_from(s, p, i) {
            Some(k) => i <= k && occurs_at(s, p, k as int) && forall|j: int|
                i <= j < k ==> !occurs_at(s, p, j),
            None => forall|j: int| i <= j ==> !occurs_at(s, p, j),
        },
    decreases s.len() - i,
{
    if i + p.len() <= s.len() && !occurs_at(s, p, i as int) && i < s.len() {
        lemma_found_from(s, p, i + 1);
    }
}

/// The position that `found` gives is the first at which the text stands; it gives none
/// only where the text stands nowhere.
pub proof fn lemma_found(s: Seq<char>, p: Seq<char>)
    ensures
        found(s, p) is Some <==> contains_text(s, p),
        found(s, p) matches Some(k) ==> occurs_at(s, p, k as int) && forall|j: int|
            0 <= j < k ==> !occurs_at(s, p, j),
{
    lemma_found_from(s, p, 0);
}

/// Whether `p` stands somewhere in `s`.
pub fn contains_chars(s: &[char], p: &[char]) -> (r: bool)
    ensures
        r == contains_text(s@, p@),
{
    proof {
        lemma_found(s@, p@);
    }
    find_chars(s, p).is_some()
}

/// Whether a string stands somewhere in `s`.
pub fn contains(s: &[char], p: &str) -> (r: bool)
    ensures
        r == contains_text(s@, p@),
{
    let wanted = chars_of(p);
    contains_chars(s, &wanted)
}

/// The last position of `c` in `s`.
pub fn rfind(s: &[char], c: char) -> (r: Option<usize>)
    ensures
        match r {
            Some(i) => last_below(s@, c, s@.len()) == Some(i as nat) && i < s@.len(),
            None => last_below(s@, c, s@.len()) is None,
        },
{
    let mut i: usize = s.len();
    while i > 0
        invariant
            i <= s@.len(),
            last_below(s@, c, s@.len()) == last_below(s@, c, i as nat),
        decreases i,
    {
        if s[i - 1] == c {
            return Some(i - 1);
        }
        i -= 1;
    }
    None
}

/// Takes every occurrence of `p` out of `s`.
pub fn remove_text(s: &[char], p: &str) -> (r: Vec<char>)
    ensures
        r@ == without_text(s@, p@),
{
    let mut out: Vec<char> = Vec::new();
    let n: usize = s.len();
    let width: usize = chars_of(p).len();
    let mut start: usize = 0;
    assert(s@.skip(0) =~= s@);
    assert(out@ + without_text(s@, p@) =~= without_text(s@, p@));
    loop
        invariant
            n == s@.len(),
            start <= n,
            width == p@.len(),
            out@ + without_text(s@.skip(start as int), p@) == without_text(s@, p@),
        decreases n - start,
    {
        let ghost before = out@;
        let rest = slice_subrange(s, start, n);
        assert(rest@ =~= s@.skip(start as int));
        match find(rest, p) {
            Some(i) if width > 0 => {
                push_all(&mut out, slice_subrange(rest, 0, i));
                assert(rest@.subrange(0, i as int) =~= rest@.take(i as int));
                assert(rest@.skip(i + width) =~= s@.skip(start + i + width));
                assert(out@ + without_text(s@.skip(start + i + width), p@) =~= before + (rest@.take(
                    i as int,
                ) + without_text(s@.skip(start + i + width), p@)));
                start = start + i + width;
            },
            _ => {
                push_all(&mut out, rest);
                return out;
            },
        }
    }
}

/// Appends characters.
pub fn push_all(out: &mut Vec<char>, s: &[char])
    ensures
        final(out)@ == old(out)@ + s@,
{
    let mut i: usize = 0;
    while i < s.len()
        invariant
            i <= s@.len(),
            out@ == old(out)@ + s@.take(i as int),
        decreases s@.len() - i,
    {
        out.push(s[i]);
        i += 1;
        assert(old(out)@ + s@.take(i as int) =~= (old(out)@ + s@.take(i - 1)).push(s@[i - 1]));
    }
    assert(s@.take(s@.len() as int) =~= s@);
}

/// Splits a text into its lines.
pub fn lines<'a>(s: &'a [char]) -> (r: Vec<&'a [char]>)
    ensures
        texts(r@) == lines_of(s@),
{
    let mut out: Vec<&'a [char]> = Vec::new();
    let n: usize = s.len();
    let mut start: usize = 0;
    assert(s@.skip(0) =~= s@);
    assert(texts(out@) + lines_of(s@) =~= lines_of(s@));
    while start < n
        invariant
            n == s@.len(),
            start <= n,
            texts(out@) + lines_of(s@.skip(start as int)) == lines_of(s@),
        decreases n - start,
    {
        let ghost rest = s@.skip(start as int);
        let ghost before = out@;
        let mut k: usize = start;
        while k < n && s[k] != '\n'
            invariant
                n == s@.len(),
                start <= k <= n,
                rest == s@.skip(start as int),
                next_position(rest, '\n', 0) == next_position(rest, '\n', (k - start) as nat),
            decreases n - k,
        {
            assert(rest[k - start] == s@[k as int]);
            k += 1;
        }
        assert(k < n ==> rest[k - start] == s@[k as int]);
        assert(next_position(rest, '\n', 0) == (k - start) as nat);
        if k == n {
            let line = slice_subrange(s, start, n);
            assert(line@ =~= rest);
            out.push(line);
            start = n;
            assert(s@.skip(n as int) =~= Seq::empty());
            assert(texts(out@) =~= texts(before) + seq![rest]);
        } else {
            let end: usize = if k > start && s[k - 1] == '\r' {
                k - 1
            } else {
                k
            };
            let line = slice_subrange(s, start, end);
            assert(rest.take(k - start) =~= s@.subrange(start as int, k as int));
            assert(line@ =~= without_return(rest.take(k - start)));
            out.push(line);
            assert(texts(out@) =~= texts(before) + seq![line@]);
            assert(rest.skip(k - start + 1) =~= s@.skip(k + 1));
            assert(lines_of(rest) == seq![line@] + lines_of(s@.skip(k + 1)));
            assert(texts(out@) + lines_of(s@.skip(k + 1)) =~= texts(before) + lines_of(rest));
            start = k + 1;
        }
    }
    assert(s@.skip(start as int) =~= Seq::empty());
    assert(texts(out@) + lines_of(s@.skip(start as int)) =~= texts(out@));
    out
}

proof fn lemma_digits_grow(s: Seq<char>, i: int)
    requires
        0 <= i <= s.len(),
        all_digits(s),
    ensures
        digits_value(s.take(i)) <= digits_value(s),
    decreases s.len(),
{
    if i == s.len() {
        assert(s.take(i) =~= s);
    } else {
        lemma_digits_grow(s.drop_last(), i);
        assert(s.drop_last().take(i) =~= s.take(i));
    }
}

/// Reads an unsigned number: digits, with or without a plus sign before them.
pub fn parse_u32(s: &[char]) -> (r: Option<u32>)
    ensures
        r == parsed_u32(s@),
{
    let start: usize = if s.len() > 0 && s[0] == '+' {
        1
    } else {
        0
    };
    let ghost digits = s@.skip(start as int);
    assert(start == 1 ==> s@.drop_first() =~= digits);
    assert(start == 0 ==> s@ =~= digits);
    if start == s.len() {
        return None;
    }
    let mut value: u32 = 0;
    let mut i: usize = start;
    assert(digits.take(0) =~= Seq::empty());
    while i < s.len()
        invariant
            start <= i <= s@.len(),
            start <= 1,
            digits == s@.skip(start as int),
            value == digits_value(digits.take(i - start)),
            forall|j: int| start <= j < i ==> is_digit(#[trigger] s@[j]),
            digits.len() > 0 && all_digits(digits) && digits_value(digits) <= u32::MAX ==> parsed_u32(
                s@,
            ) == Some(digits_value(digits) as u32),
            !(digits.len() > 0 && all_digits(digits) && digits_value(digits) <= u32::MAX)
                ==> parsed_u32(s@) is None,
        decreases s@.len() - i,
    {
        let c: char = s[i];
        if !('0' <= c && c <= '9') {
            assert(!is_digit(digits[i - start]));
            return None;
        }
        let d: u32 = c as u32 - '0' as u32;
        proof {
            assert(digits.take(i - start + 1).drop_last() =~= digits.take(i - start));
            assert(digits.take(i - start + 1).last() == c);
            if all_digits(digits) {
                lemma_digits_grow(digits, i - start + 1);
            }
        }
        let next: u64 = value as u64 * 10 + d as u64;
        if next > u32::MAX as u64 {
            return None;
        }
        value = next as u32;
        i += 1;
    }
    assert(digits.take(i - start) =~= digits);
    assert forall|j: int| 0 <= j < digits.len() implies is_digit(#[trigger] digits[j]) by {
        assert(is_digit(s@[j + start]));
    }
    Some(value)
}

fn decimal_chars(n: u64) -> (r: Vec<char>)
    ensures
        r@ == decimal(n as nat),
    decreases n,
{
    if n < 10 {
        let mut v: Vec<char> = Vec::new();
        v.push(decimal_digit(n));
        v
    } else {
        let mut v = decimal_chars(n / 10);
        v.push(decimal_digit(n % 10));
        v
    }
}

fn decimal_digit(n: u64) -> (c: char)
    requires
        n < 10,
    ensures
        c == digit(n as nat),
{
    (('0' as u8) + (n as u8)) as char
}

/// Writes a number in decimal.
pub fn decimal_string(n: u64) -> (r: String)
    ensures
        r@ == decimal(n as nat),
{
    let v = decimal_chars(n);
    string_of(&v)
}

/// Whether two texts are the same.
pub fn same(a: &[char], b: &[char]) -> (r: bool)
    ensures
        r == (a@ == b@),
{
    if a.len() != b.len() {
        return false;
    }
    let r = stands_at(a, b, 0);
    assert(a@.subrange(0, b@.len() as int) =~= a@);
    r
}

/// Whether two strings are the same.
pub fn same_str(a: &str, b: &str) -> (r: bool)
    ensures
        r == (a@ == b@),
{
    let a = chars_of(a);
    let b = chars_of(b);
    same(&a, &b)
}

/// A copy of a string slice.
pub fn owned(s: &str) -> (r: String)
    ensures
        r@ == s@,
{
    s.to_owned()
}

/// The lower-case form of a text.
pub fn lowered(s: &[char]) -> (r: Vec<char>)
    ensures
        r@ == lowercase(s@),
{
    let whole = string_of(s);
    let lower = whole.as_str().to_lowercase();
    chars_of(&lower)
}

/// The view of a string that may be missing.
pub open spec fn optional_view(s: Option<String>) -> Option<Seq<char>> {
    match s {
        Some(s) => Some(s@),
        None => None,
    }
}

/// The view of a string slice that may be missing.
pub open spec fn str_view(s: Option<&str>) -> Option<Seq<char>> {
    match s {
        Some(s) => Some(s@),
        None => None,
    }
}

/// The views of a list of strings.
pub open spec fn string_views(v: Seq<String>) -> Seq<Seq<char>> {
    v.map_values(|s: String| s@)
}

/// The outcome of an operation that gives a text, as sequences of characters.
pub open spec fn text_view(r: Result<String, String>) -> Result<Seq<char>, Seq<char>> {
    match r {
        Ok(value) => Ok(value@),
        Err(message) => Err(message@),
    }
}

/// White space is these characters and no others.
pub proof fn the_white_space_characters(c: char)
    ensures
        is_white(c) <==> seq![
            '\t', '\n', '\u{b}', '\u{c}', '\r', ' ', '\u{85}', '\u{a0}', '\u{1680}',
            '\u{2000}', '\u{2001}', '\u{2002}', '\u{2003}', '\u{2004}', '\u{2005}', '\u{2006}',
            '\u{2007}', '\u{2008}', '\u{2009}', '\u{200a}', '\u{2028}', '\u{2029}', '\u{202f}',
            '\u{205f}', '\u{3000}',
        ].contains(c),
{
    let all = seq![
        '\t', '\n', '\u{b}', '\u{c}', '\r', ' ', '\u{85}', '\u{a0}', '\u{1680}', '\u{2000}',
        '\u{2001}', '\u{2002}', '\u{2003}', '\u{2004}', '\u{2005}', '\u{2006}', '\u{2007}',
        '\u{2008}', '\u{2009}', '\u{200a}', '\u{2028}', '\u{2029}', '\u{202f}', '\u{205f}',
        '\u{3000}',
    ];
    let n = c as u32;
    if is_white(c) {
        let k: int = if n <= 0xd {
            n - 0x9
        } else if n == 0x20 {
            5
        } else if n == 0x85 {
            6
        } else if n == 0xa0 {
            7
        } else if n == 0x1680 {
            8
        } else if n <= 0x200a {
            n - 0x2000 + 9
        } else if n == 0x2028 {
            20
        } else if n == 0x2029 {
            21
        } else if n == 0x202f {
            22
        } else if n == 0x205f {
            23
        } else {
            24
        };
        assert(all[k] == c);
    }
}

proof fn lemma_trimmed_start(s: Seq<char>) -> (a: int)
    ensures
        0 <= a <= s.len(),
        trimmed_start(s) == s.skip(a),
        forall|i: int| 0 <= i < a ==> is_white(#[trigger] s[i]),
        a < s.len() ==> !is_white(s[a]),
    decreases s.len(),
{
    if s.len() > 0 && is_white(s[0]) {
        let b = lemma_trimmed_start(s.drop_first());
        assert(s.drop_first().skip(b) =~= s.skip(b + 1));
        assert forall|i: int| 0 <= i < b + 1 implies is_white(#[trigger] s[i]) by {
            if i > 0 {
                assert(s.drop_first()[i - 1] == s[i]);
            }
        }
        b + 1
    } else {
        assert(s.skip(0) =~= s);
        0
    }
}

proof fn lemma_trimmed_end(s: Seq<char>) -> (b: int)
    ensures
        0 <= b <= s.len(),
        trimmed_end(s) == s.take(b),
        forall|i: int| b <= i < s.len() ==> is_white(#[trigger] s[i]),
        b > 0 ==> !is_white(s[b - 1]),
    decreases s.len(),
{
    if s.len() > 0 && is_white(s.last()) {
        let b = lemma_trimmed_end(s.drop_last());
        assert(s.drop_last().take(b) =~= s.take(b));
        assert forall|i: int| b <= i < s.len() implies is_white(#[trigger] s[i]) by {
            if i < s.len() - 1 {
                assert(s.drop_last()[i] == s[i]);
            }
        }
        b
    } else {
        assert(s.take(s.len() as int) =~= s);
        s.len() as int
    }
}

/// Trimming leaves a stretch of the text, unchanged, and takes off white space alone; the
/// stretch neither begins nor ends with white space.
pub proof fn trimming_takes_off_white_space_alone(s: Seq<char>) -> (r: (int, int))
    ensures
        0 <= r.0 <= r.1 <= s.len(),
        trimmed(s) == s.subrange(r.0, r.1),
        forall|i: int| 0 <= i < r.0 ==> is_white(#[trigger] s[i]),
        forall|i: int| r.1 <= i < s.len() ==> is_white(#[trigger] s[i]),
        r.0 < r.1 ==> !is_white(s[r.0]) && !is_white(s[r.1 - 1]),
{
    let a = lemma_trimmed_start(s);
    let rest = s.skip(a);
    let b = lemma_trimmed_end(rest);
    assert(rest.take(b) =~= s.subrange(a, a + b));
    assert forall|i: int| a + b <= i < s.len() implies is_white(#[trigger] s[i]) by {
        assert(rest[i - a] == s[i]);
    }
    if b > 0 {
        assert(rest[0] == s[a]);
        assert(rest[b - 1] == s[a + b - 1]);
    }
    (a, a + b)
}

/// A text between white space is what trimming leaves, whatever that white space is.
pub proof fn white_space_around_a_text_is_dropped(before: Seq<char>, s: Seq<char>, after: Seq<char>)
    requires
        forall|i: int| 0 <= i < before.len() ==> is_white(#[trigger] before[i]),
        forall|i: int| 0 <= i < after.len() ==> is_white(#[trigger] after[i]),
        s.len() > 0 ==> !is_white(s[0]) && !is_white(s.last()),
    ensures
        trimmed(before + s + after) == s,
{
    let whole = before + s + after;
    let (a, b) = trimming_takes_off_white_space_alone(whole);
    let n = before.len() as int;
    assert forall|i: int| 0 <= i < whole.len() implies whole[i] == (if i < n {
        before[i]
    } else if i < n + s.len() {
        s[i - n]
    } else {
        after[i - n - s.len()]
    }) by {}
    if s.len() > 0 {
        assert(whole[n] == s[0]);
        assert(whole[n + s.len() - 1] == s.last());
        assert(a <= n);
        assert(b >= n + s.len());
        assert(a == n) by {
            if a < n {
                assert(is_white(whole[a]));
            }
        }
        assert(b == n + s.len()) by {
            if b > n + s.len() {
                assert(whole[b - 1] == after[b - 1 - n - s.len()]);
                assert(is_white(whole[b - 1]));
            }
        }
        assert(whole.subrange(a, b) =~= s);
    } else {
        if a < b {
            assert(is_white(whole[a]));
        }
        assert(whole.subrange(a, b) =~= s);
    }
}

/// Taking unwanted characters off the front leaves an end of the text, unchanged: every
/// character that is gone is unwanted, and the first that is left is not.
pub proof fn only_unwanted_characters_leave_the_front(s: Seq<char>, unwanted: Seq<char>) -> (a: int)
    ensures
        0 <= a <= s.len(),
        without_leading(s, unwanted) == s.skip(a),
        forall|i: int| 0 <= i < a ==> unwanted.contains(#[trigger] s[i]),
        a < s.len() ==> !unwanted.contains(s[a]),
    decreases s.len(),
{
    if s.len() > 0 && unwanted.contains(s[0]) {
        let b = only_unwanted_characters_leave_the_front(s.drop_first(), unwanted);
        assert(s.drop_first().skip(b) =~= s.skip(b + 1));
        assert forall|i: int| 0 <= i < b + 1 implies unwanted.contains(#[trigger] s[i]) by {
            if i > 0 {
                assert(s.drop_first()[i - 1] == s[i]);
            }
        }
        b + 1
    } else {
        assert(s.skip(0) =~= s);
        0
    }
}

/// Taking unwanted characters off the end leaves a start of the text, unchanged: every
/// character that is gone is unwanted, and the last that is left is not.
pub proof fn only_unwanted_characters_leave_the_end(s: Seq<char>, unwanted: Seq<char>) -> (b: int)
    ensures
        0 <= b <= s.len(),
        without_trailing(s, unwanted) == s.take(b),
        forall|i: int| b <= i < s.len() ==> unwanted.contains(#[trigger] s[i]),
        b > 0 ==> !unwanted.contains(s[b - 1]),
    decreases s.len(),
{
    if s.len() > 0 && unwanted.contains(s.last()) {
        let b = only_unwanted_characters_leave_the_end(s.drop_last(), unwanted);
        assert(s.drop_last().take(b) =~= s.take(b));
        assert forall|i: int| b <= i < s.len() implies unwanted.contains(#[trigger] s[i]) by {
            if i < s.len() - 1 {
                assert(s.drop_last()[i] == s[i]);
            }
        }
        b
    } else {
        assert(s.take(s.len() as int) =~= s);
        s.len() as int
    }
}

/// A text behind unwanted characters is what is left once they are taken off.
pub proof fn unwanted_characters_before_a_text_are_dropped(
    before: Seq<char>,
    s: Seq<char>,
    unwanted: Seq<char>,
)
    requires
        forall|i: int| 0 <= i < before.len() ==> unwanted.contains(#[trigger] before[i]),
        s.len() > 0 ==> !unwanted.contains(s[0]),
    ensures
        without_leading(before + s, unwanted) == s,
{
    let whole = before + s;
    let a = only_unwanted_characters_leave_the_front(whole, unwanted);
    let n = before.len() as int;
    if a < n {
        assert(whole[a] == before[a]);
    }
    if a > n {
        assert(whole[n] == s[0]);
    }
    assert(whole.skip(a) =~= s);
}

/// A text before unwanted characters is what is left once they are taken off.
pub proof fn unwanted_characters_behind_a_text_are_dropped(
    s: Seq<char>,
    after: Seq<char>,
    unwanted: Seq<char>,
)
    requires
        forall|i: int| 0 <= i < after.len() ==> unwanted.contains(#[trigger] after[i]),
        s.len() > 0 ==> !unwanted.contains(s.last()),
    ensures
        without_trailing(s + after, unwanted) == s,
{
    let whole = s + after;
    let b = only_unwanted_characters_leave_the_end(whole, unwanted);
    let n = s.len() as int;
    if b > n {
        assert(whole[b - 1] == after[b - 1 - n]);
    }
    if b < n {
        assert(whole[n - 1] == s.last());
    }
    assert(whole.take(b) =~= s);
}

/// A text stands at a place exactly where every one of its characters does.
pub proof fn a_text_stands_where_its_characters_do(s: Seq<char>, p: Seq<char>, i: int)
    ensures
        occurs_at(s, p, i) <==> 0 <= i && i + p.len() <= s.len() && forall|k: int|
            0 <= k < p.len() ==> s[i + k] == #[trigger] p[k],
        begins_with(s, p) <==> p.len() <= s.len() && forall|k: int|
            0 <= k < p.len() ==> s[k] == #[trigger] p[k],
{
    if 0 <= i && i + p.len() <= s.len() {
        if forall|k: int| 0 <= k < p.len() ==> s[i + k] == #[trigger] p[k] {
            assert(s.subrange(i, i + p.len()) =~= p);
        }
        if s.subrange(i, i + p.len()) == p {
            assert forall|k: int| 0 <= k < p.len() implies s[i + k] == #[trigger] p[k] by {
                assert(s.subrange(i, i + p.len())[k] == s[i + k]);
            }
        }
    }
    if p.len() <= s.len() {
        if forall|k: int| 0 <= k < p.len() ==> s[k] == #[trigger] p[k] {
            assert(s.subrange(0, p.len() as int) =~= p);
        }
        if s.subrange(0, p.len() as int) == p {
            assert forall|k: int| 0 <= k < p.len() implies s[k] == #[trigger] p[k] by {
                assert(s.subrange(0, p.len() as int)[k] == s[k]);
            }
        }
    }
}

/// A text holds another one exactly where it is that one with something before it and
/// something behind it.
pub proof fn a_text_holds_what_stands_in_it(before: Seq<char>, p: Seq<char>, after: Seq<char>)
    ensures
        contains_text(before + p + after, p),
        begins_with(p + after, p),
{
    a_text_stands_where_its_characters_do(before + p + after, p, before.len() as int);
    assert(occurs_at(before + p + after, p, before.len() as int));
    a_text_stands_where_its_characters_do(p + after, p, 0);
}

/// The last place of a character is one at which it stands, and it stands nowhere behind
/// it; there is none exactly where it stands nowhere.
pub proof fn the_last_place_of_a_character(s: Seq<char>, c: char, n: nat)
    requires
        n <= s.len(),
    ensures
        match last_below(s, c, n) {
            Some(k) => k < n && s[k as int] == c && forall|j: int| k < j < n ==> s[j] != c,
            None => forall|j: int| 0 <= j < n ==> s[j] != c,
        },
    decreases n,
{
    if n > 0 && s[n - 1] != c {
        the_last_place_of_a_character(s, c, (n - 1) as nat);
    }
}

/// Taking a text out removes its first occurrence and goes on behind it; a text in which it
/// does not occur stays as it is.
pub proof fn every_occurrence_is_taken_out(before: Seq<char>, p: Seq<char>, after: Seq<char>)
    requires
        p.len() > 0,
        forall|j: int| 0 <= j < before.len() ==> !occurs_at(before + p + after, p, j),
    ensures
        without_text(before + p + after, p) == before + without_text(after, p),
        !contains_text(after, p) ==> without_text(after, p) == after,
{
    let whole = before + p + after;
    let n = before.len() as int;
    assert(found(whole, p) == Some(before.len())) by {
        lemma_found(whole, p);
        assert(occurs_at(whole, p, n)) by {
            assert(whole.subrange(n, n + p.len()) =~= p);
        }
        assert(contains_text(whole, p));
    }
    assert(whole.take(n) =~= before);
    assert(whole.skip((before.len() + p.len()) as int) =~= after);
    if !contains_text(after, p) {
        assert(found(after, p) is None) by {
            lemma_found(after, p);
        }
    }
}

proof fn lemma_next_position(s: Seq<char>, c: char, i: nat)
    requires
        i <= s.len(),
    ensures
        i <= next_position(s, c, i) <= s.len(),
        next_position(s, c, i) < s.len() ==> s[next_position(s, c, i) as int] == c,
        forall|j: int| i <= j < next_position(s, c, i) ==> s[j] != c,
    decreases s.len() - i,
{
    if i < s.len() && s[i as int] != c {
        lemma_next_position(s, c, i + 1);
    }
}

/// A text without a line feed that is not empty is one line; a line and its line feed put
/// before a text put that line before its lines, without the carriage return that may
/// belong to the line feed. Nothing else is dropped.
pub proof fn a_line_ends_at_its_line_feed(line: Seq<char>, rest: Seq<char>)
    requires
        !line.contains('\n'),
    ensures
        lines_of(line.push('\n') + rest) == seq![
            if line.len() > 0 && line.last() == '\r' {
                line.drop_last()
            } else {
                line
            },
        ] + lines_of(rest),
        line.len() > 0 ==> lines_of(line) == seq![line],
        line.len() == 0 ==> lines_of(line).len() == 0,
{
    let s = line.push('\n') + rest;
    let n = line.len() as int;
    lemma_next_position(s, '\n', 0);
    let k = next_position(s, '\n', 0);
    assert(s[n] == '\n');
    assert forall|j: int| 0 <= j < n implies s[j] != '\n' by {
        assert(s[j] == line[j]);
        assert(line.contains(line[j]));
    }
    assert(k == n);
    assert(s.take(n) =~= line);
    assert(s.skip(n + 1) =~= rest);
    lemma_next_position(line, '\n', 0);
    let m = next_position(line, '\n', 0);
    if m < line.len() {
        assert(line.contains(line[m as int]));
    }
}

/// The lines, each with a line feed behind it.
pub open spec fn with_line_feeds(lines: Seq<Seq<char>>) -> Seq<char>
    decreases lines.len(),
{
    if lines.len() == 0 {
        Seq::empty()
    } else {
        lines[0].push('\n') + with_line_feeds(lines.drop_first())
    }
}

/// Lines that are written one after the other, each with a line feed behind it, are read
/// back as they are, and so are the lines of what follows them.
pub proof fn lines_read_back(lines: Seq<Seq<char>>, rest: Seq<char>)
    requires
        forall|i: int|
            0 <= i < lines.len() ==> !(#[trigger] lines[i]).contains('\n') && (lines[i].len() > 0
                ==> lines[i].last() != '\r'),
    ensures
        lines_of(with_line_feeds(lines) + rest) == lines + lines_of(rest),
    decreases lines.len(),
{
    if lines.len() == 0 {
        assert(with_line_feeds(lines) + rest =~= rest);
        assert(lines + lines_of(rest) =~= lines_of(rest));
    } else {
        let tail = lines.drop_first();
        assert forall|i: int| 0 <= i < tail.len() implies !(#[trigger] tail[i]).contains('\n') && (
        tail[i].len() > 0 ==> tail[i].last() != '\r') by {
            assert(tail[i] == lines[i + 1]);
        }
        lines_read_back(tail, rest);
        let after = with_line_feeds(tail) + rest;
        assert(!lines[0].contains('\n'));
        a_line_ends_at_its_line_feed(lines[0], after);
        assert(with_line_feeds(lines) + rest =~= lines[0].push('\n') + after);
        assert(seq![lines[0]] + (tail + lines_of(rest)) =~= lines + lines_of(rest));
    }
}

/// A number in decimal is digits alone, begins with a zero only where it is zero, and reads
/// back as the number.
pub proof fn a_number_reads_back(n: nat)
    ensures
        decimal(n).len() > 0,
        all_digits(decimal(n)),
        n > 0 ==> decimal(n)[0] != '0',
        n == 0 ==> decimal(n) == seq!['0'],
        digits_value(decimal(n)) == n,
        n <= u32::MAX ==> parsed_u32(decimal(n)) == Some(n as u32),
        n <= u32::MAX ==> parsed_u32(seq!['+'] + decimal(n)) == Some(n as u32),
        n > u32::MAX ==> parsed_u32(decimal(n)) is None,
    decreases n,
{
    if n < 10 {
        assert(decimal(n).drop_last() =~= Seq::empty());
        assert(digits_value(Seq::<char>::empty()) == 0);
    } else {
        a_number_reads_back(n / 10);
        let front = decimal(n / 10);
        assert(decimal(n).drop_last() =~= front);
        assert(decimal(n)[0] == front[0]);
    }
    assert(is_digit(decimal(n)[0]));
    let signed = seq!['+'] + decimal(n);
    assert(signed.drop_first() =~= decimal(n));
}

/// The digits of a number count by their place: those behind a first part carry on from it.
pub proof fn digits_count_by_their_place(a: Seq<char>, d: nat)
    requires
        d < 10,
    ensures
        digits_value(a.push(digit(d))) == digits_value(a) * 10 + d,
        digit(d) as u32 == '0' as u32 + d,
        digits_value(Seq::<char>::empty()) == 0,
{
    assert(a.push(digit(d)).drop_last() =~= a);
}

/// Only digits, with one plus sign before them or none, are read as a number: there has to
/// be one, and nothing else may stand among them. Zeros before them change nothing.
pub proof fn only_digits_are_a_number(s: Seq<char>)
    ensures
        s.len() == 0 ==> parsed_u32(s) is None,
        s == seq!['+'] ==> parsed_u32(s) is None,
        forall|i: int|
            0 <= i < s.len() && !is_digit(#[trigger] s[i]) && !(i == 0 && s[0] == '+')
                ==> parsed_u32(s) is None,
        all_digits(s) && s.len() > 0 ==> parsed_u32(seq!['0'] + s) == parsed_u32(s),
{
    if exists|i: int|
        0 <= i < s.len() && !is_digit(#[trigger] s[i]) && !(i == 0 && s[0] == '+') {
        let i = choose|i: int|
            0 <= i < s.len() && !is_digit(#[trigger] s[i]) && !(i == 0 && s[0] == '+');
        if s[0] == '+' {
            assert(s.drop_first()[i - 1] == s[i]);
        }
    }
    if all_digits(s) && s.len() > 0 {
        assert(is_digit(s[0]));
        lemma_leading_zero(s);
        let z = seq!['0'] + s;
        assert forall|i: int| 0 <= i < z.len() implies is_digit(#[trigger] z[i]) by {
            if i > 0 {
                assert(is_digit(s[i - 1]));
            }
        }
    }
}

proof fn lemma_leading_zero(s: Seq<char>)
    ensures
        digits_value(seq!['0'] + s) == digits_value(s),
    decreases s.len(),
{
    let z = seq!['0'] + s;
    if s.len() == 0 {
        assert(z =~= seq!['0']);
        assert(z.drop_last() =~= Seq::empty());
        assert(digits_value(Seq::<char>::empty()) == 0);
    } else {
        lemma_leading_zero(s.drop_last());
        assert(z.drop_last() =~= seq!['0'] + s.drop_last());
    }
}

/// The hexadecimal digits, and the ten decimal ones.
pub proof fn the_digits(n: int)
    requires
        0 <= n < 16,
    ensures
        hex_digit(n) == "0123456789abcdef"@[n],
        n < 10 ==> digit(n as nat) == "0123456789abcdef"@[n],
        is_digit("0123456789abcdef"@[n]) <==> n < 10,
{
    reveal_strlit("0123456789abcdef");
}

} // verus!
