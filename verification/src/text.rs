use vstd::prelude::*;

use vstd::string::StrSliceExecFns;

verus! {

// ---------------------------------------------------------------------------
// Bridges to std's string machinery. The byte/character correspondence is
// vstd's UTF-8 model (`valid_utf8`, `decode_utf8`, `encode_utf8`).
// ---------------------------------------------------------------------------
/// Relies on str::from_utf8: it accepts exactly the valid UTF-8 byte
/// sequences.
#[verifier::external_body]
pub(crate) fn utf8_check(b: &[u8]) -> (r: bool)
    ensures
        r == vstd::utf8::valid_utf8(b@),
{
    std::str::from_utf8(b).is_ok()
}

/// Relies on String::from_utf8: it succeeds exactly on valid UTF-8 and then
/// returns the string those bytes encode.
#[verifier::external_body]
pub(crate) fn bytes_to_string(b: &[u8]) -> (r: Option<String>)
    ensures
        r is Some <==> vstd::utf8::valid_utf8(b@),
        r matches Some(s) ==> s@ == vstd::utf8::decode_utf8(b@),
{
    String::from_utf8(b.to_vec()).ok()
}

/// The characters of a string, as a vector.
pub fn collect_chars(s: &str) -> (r: Vec<char>)
    ensures
        r@ == s@,
{
    let n = s.unicode_len();
    let mut r: Vec<char> = Vec::new();
    let mut i: usize = 0;
    while i < n
        invariant
            0 <= i <= n,
            n == s@.len(),
            r@ == s@.take(i as int),
        decreases n - i,
    {
        let c = s.get_char(i);
        r.push(c);
        proof {
            assert(r@ =~= s@.take(i + 1 as int));
        }
        i += 1;
    }
    proof {
        assert(s@.take(n as int) =~= s@);
    }
    r
}

/// Relies on String::from_iter: collecting characters yields the string of
/// exactly those characters.
#[verifier::external_body]
pub(crate) fn chars_to_string(cs: &Vec<char>) -> (r: String)
    ensures
        r@ == cs@,
{
    cs.iter().collect()
}

/// ASCII letters 'A' to 'Z', lowered; every other character unchanged.
pub open spec fn lower_char(c: char) -> char {
    if c == 'A' {
        'a'
    } else if c == 'B' {
        'b'
    } else if c == 'C' {
        'c'
    } else if c == 'D' {
        'd'
    } else if c == 'E' {
        'e'
    } else if c == 'F' {
        'f'
    } else if c == 'G' {
        'g'
    } else if c == 'H' {
        'h'
    } else if c == 'I' {
        'i'
    } else if c == 'J' {
        'j'
    } else if c == 'K' {
        'k'
    } else if c == 'L' {
        'l'
    } else if c == 'M' {
        'm'
    } else if c == 'N' {
        'n'
    } else if c == 'O' {
        'o'
    } else if c == 'P' {
        'p'
    } else if c == 'Q' {
        'q'
    } else if c == 'R' {
        'r'
    } else if c == 'S' {
        's'
    } else if c == 'T' {
        't'
    } else if c == 'U' {
        'u'
    } else if c == 'V' {
        'v'
    } else if c == 'W' {
        'w'
    } else if c == 'X' {
        'x'
    } else if c == 'Y' {
        'y'
    } else if c == 'Z' {
        'z'
    } else {
        c
    }
}

/// A character sequence with its ASCII letters lowered.
pub open spec fn lower_chars(s: Seq<char>) -> Seq<char> {
    s.map_values(|c: char| lower_char(c))
}

/// Relies on str::to_ascii_lowercase: ASCII letters 'A' to 'Z' are mapped to
/// 'a' to 'z' and all other characters are unchanged.
#[verifier::external_body]
pub(crate) fn ascii_lower_str(s: &str) -> (r: String)
    ensures
        r@ == lower_chars(s@),
{
    s.to_ascii_lowercase()
}

// ---------------------------------------------------------------------------
// Decimal rendering.
// ---------------------------------------------------------------------------
/// The decimal digit character for a value below ten.
pub open spec fn digit_char(d: int) -> char {
    if d == 0 {
        '0'
    } else if d == 1 {
        '1'
    } else if d == 2 {
        '2'
    } else if d == 3 {
        '3'
    } else if d == 4 {
        '4'
    } else if d == 5 {
        '5'
    } else if d == 6 {
        '6'
    } else if d == 7 {
        '7'
    } else if d == 8 {
        '8'
    } else {
        '9'
    }
}

/// The decimal digits of a non-negative number, most significant first.
pub open spec fn dec_chars(n: int) -> Seq<char>
    decreases n,
{
    if n < 10 {
        seq![digit_char(n)]
    } else {
        dec_chars(n / 10) + seq![digit_char(n % 10)]
    }
}

/// The single-character string for a decimal digit.
pub fn digit_str(d: u8) -> (r: &'static str)
    requires
        d < 10,
    ensures
        r@ == seq![digit_char(d as int)],
{
    proof {
        reveal_strlit("0");
        reveal_strlit("1");
        reveal_strlit("2");
        reveal_strlit("3");
        reveal_strlit("4");
        reveal_strlit("5");
        reveal_strlit("6");
        reveal_strlit("7");
        reveal_strlit("8");
        reveal_strlit("9");
    }
    let r: &'static str = if d == 0 {
        "0"
    } else if d == 1 {
        "1"
    } else if d == 2 {
        "2"
    } else if d == 3 {
        "3"
    } else if d == 4 {
        "4"
    } else if d == 5 {
        "5"
    } else if d == 6 {
        "6"
    } else if d == 7 {
        "7"
    } else if d == 8 {
        "8"
    } else {
        "9"
    };
    proof {
        assert(r@ =~= seq![digit_char(d as int)]);
    }
    r
}

/// Render a number in decimal.
pub fn usize_to_string(n: usize) -> (r: String)
    ensures
        r@ == dec_chars(n as int),
    decreases n,
{
    if n < 10 {
        digit_str(n as u8).to_owned()
    } else {
        let mut s = usize_to_string(n / 10);
        s.append(digit_str((n % 10) as u8));
        s
    }
}

// ---------------------------------------------------------------------------
// Byte-level text scanning: the request head is parsed over raw bytes.
// ---------------------------------------------------------------------------
pub const CR: u8 = 13;

pub const LF: u8 = 10;

pub const SP: u8 = 32;

pub const TAB: u8 = 9;

/// Horizontal whitespace inside a header line.
pub open spec fn is_ws(b: u8) -> bool {
    b == SP || b == TAB
}

/// The four-byte header terminator CR LF CR LF starts at `i`.
pub open spec fn is_terminator_at(s: Seq<u8>, i: int) -> bool {
    &&& 0 <= i
    &&& i + 4 <= s.len()
    &&& s[i] == CR
    &&& s[i + 1] == LF
    &&& s[i + 2] == CR
    &&& s[i + 3] == LF
}

/// The first position of the header terminator at or after `i`.
pub open spec fn spec_find_terminator_from(s: Seq<u8>, i: int) -> Option<int>
    decreases s.len() - i,
{
    if !(0 <= i && i + 4 <= s.len()) {
        None
    } else if is_terminator_at(s, i) {
        Some(i)
    } else {
        spec_find_terminator_from(s, i + 1)
    }
}

/// The first position of the header terminator, if any.
pub open spec fn spec_find_terminator(s: Seq<u8>) -> Option<int> {
    spec_find_terminator_from(s, 0)
}

/// A found terminator really is one.
pub proof fn lemma_find_terminator_some(s: Seq<u8>, i: int, j: int)
    requires
        spec_find_terminator_from(s, i) == Some(j),
    ensures
        is_terminator_at(s, j),
        i <= j,
    decreases s.len() - i,
{
    if 0 <= i && i + 4 <= s.len() && !is_terminator_at(s, i) {
        lemma_find_terminator_some(s, i + 1, j);
    }
}

/// Find the header terminator CR LF CR LF.
pub fn find_terminator(data: &[u8]) -> (r: Option<usize>)
    ensures
        match r {
            Some(i) => spec_find_terminator(data@) == Some(i as int) && i + 4 <= data@.len()
                && is_terminator_at(data@, i as int),
            None => spec_find_terminator(data@) is None,
        },
{
    let n = data.len();
    if n < 4 {
        return None;
    }
    let mut i: usize = 0;
    while i <= n - 4
        invariant
            n == data@.len(),
            4 <= n,
            0 <= i <= n - 3,
            spec_find_terminator(data@) == spec_find_terminator_from(data@, i as int),
        decreases n - i,
    {
        if data[i] == 13 && data[i + 1] == 10 && data[i + 2] == 13 && data[i + 3] == 10 {
            return Some(i);
        }
        i += 1;
    }
    None
}

/// The first position of byte `b` at or after `i`.
pub open spec fn spec_find_byte_from(s: Seq<u8>, b: u8, i: int) -> Option<int>
    decreases s.len() - i,
{
    if !(0 <= i < s.len()) {
        None
    } else if s[i] == b {
        Some(i)
    } else {
        spec_find_byte_from(s, b, i + 1)
    }
}

/// The first position of byte `b`, if any.
pub open spec fn spec_find_byte(s: Seq<u8>, b: u8) -> Option<int> {
    spec_find_byte_from(s, b, 0)
}

/// Find the first occurrence of a byte.
pub fn find_byte(data: &[u8], b: u8) -> (r: Option<usize>)
    ensures
        match r {
            Some(i) => spec_find_byte(data@, b) == Some(i as int) && i < data@.len()
                && data@[i as int] == b,
            None => spec_find_byte(data@, b) is None,
        },
{
    let n = data.len();
    let mut i: usize = 0;
    while i < n
        invariant
            n == data@.len(),
            0 <= i <= n,
            spec_find_byte(data@, b) == spec_find_byte_from(data@, b, i as int),
        decreases n - i,
    {
        if data[i] == b {
            return Some(i);
        }
        i += 1;
    }
    None
}

/// Copy of a byte range.
pub fn subrange_vec(data: &[u8], from: usize, to: usize) -> (r: Vec<u8>)
    requires
        from <= to <= data@.len(),
    ensures
        r@ == data@.subrange(from as int, to as int),
{
    let mut r: Vec<u8> = Vec::new();
    let mut i: usize = from;
    while i < to
        invariant
            from <= i <= to <= data@.len(),
            r@ == data@.subrange(from as int, i as int),
        decreases to - i,
    {
        let b = data[i];
        r.push(b);
        proof {
            assert(r@ =~= data@.subrange(from as int, i + 1 as int));
        }
        i += 1;
    }
    r
}

/// Splitting on CR LF, running state: the finished lines and the bytes of
/// the line still open.
pub open spec fn spec_lines_state(s: Seq<u8>) -> (Seq<Seq<u8>>, Seq<u8>)
    decreases s.len(),
{
    if s.len() == 0 {
        (Seq::empty(), Seq::empty())
    } else {
        let (lines, cur) = spec_lines_state(s.drop_last());
        let b = s.last();
        if b == LF && cur.len() > 0 && cur.last() == CR {
            (lines.push(cur.drop_last()), Seq::empty())
        } else {
            (lines, cur.push(b))
        }
    }
}

/// The pieces of `s` split on CR LF; like str::split, the result always has
/// one more piece than there are separators.
pub open spec fn spec_split_crlf(s: Seq<u8>) -> Seq<Seq<u8>> {
    let (lines, cur) = spec_lines_state(s);
    lines.push(cur)
}

/// Split a byte range on CR LF.
pub fn split_crlf(data: &[u8]) -> (r: Vec<Vec<u8>>)
    ensures
        r.deep_view() == spec_split_crlf(data@),
        r@.len() >= 1,
{
    let n = data.len();
    let mut lines: Vec<Vec<u8>> = Vec::new();
    let mut cur: Vec<u8> = Vec::new();
    let mut i: usize = 0;
    while i < n
        invariant
            n == data@.len(),
            0 <= i <= n,
            lines.deep_view() == spec_lines_state(data@.take(i as int)).0,
            cur@ == spec_lines_state(data@.take(i as int)).1,
        decreases n - i,
    {
        let b = data[i];
        if b == 10 && cur.len() > 0 && cur[cur.len() - 1] == 13 {
            cur.pop();
            lines.push(cur);
            cur = Vec::new();
        } else {
            cur.push(b);
        }
        proof {
            assert(data@.take(i + 1 as int).drop_last() =~= data@.take(i as int));
            assert(data@.take(i + 1 as int).last() == data@[i as int]);
            assert(lines.deep_view() =~~= spec_lines_state(data@.take(i + 1 as int)).0);
            assert(cur@ =~= spec_lines_state(data@.take(i + 1 as int)).1);
        }
        i += 1;
    }
    proof {
        assert(data@.take(n as int) =~= data@);
    }
    lines.push(cur);
    proof {
        assert(lines.deep_view() =~~= spec_split_crlf(data@));
    }
    lines
}

/// Whitespace tokenising, running state: the finished tokens and the token
/// still open.
pub open spec fn spec_tokens_state(s: Seq<u8>) -> (Seq<Seq<u8>>, Seq<u8>)
    decreases s.len(),
{
    if s.len() == 0 {
        (Seq::empty(), Seq::empty())
    } else {
        let (toks, cur) = spec_tokens_state(s.drop_last());
        let b = s.last();
        if is_ws(b) {
            if cur.len() > 0 {
                (toks.push(cur), Seq::empty())
            } else {
                (toks, Seq::empty())
            }
        } else {
            (toks, cur.push(b))
        }
    }
}

/// The whitespace-separated tokens of `s`: maximal runs of non-blank bytes.
pub open spec fn spec_ws_tokens(s: Seq<u8>) -> Seq<Seq<u8>> {
    let (toks, cur) = spec_tokens_state(s);
    if cur.len() > 0 {
        toks.push(cur)
    } else {
        toks
    }
}

/// Split a byte range into whitespace-separated tokens.
pub fn ws_tokens(data: &[u8]) -> (r: Vec<Vec<u8>>)
    ensures
        r.deep_view() == spec_ws_tokens(data@),
{
    let n = data.len();
    let mut toks: Vec<Vec<u8>> = Vec::new();
    let mut cur: Vec<u8> = Vec::new();
    let mut i: usize = 0;
    while i < n
        invariant
            n == data@.len(),
            0 <= i <= n,
            toks.deep_view() == spec_tokens_state(data@.take(i as int)).0,
            cur@ == spec_tokens_state(data@.take(i as int)).1,
        decreases n - i,
    {
        let b = data[i];
        if b == 32 || b == 9 {
            if cur.len() > 0 {
                toks.push(cur);
                cur = Vec::new();
            }
        } else {
            cur.push(b);
        }
        proof {
            assert(data@.take(i + 1 as int).drop_last() =~= data@.take(i as int));
            assert(data@.take(i + 1 as int).last() == data@[i as int]);
            assert(toks.deep_view() =~~= spec_tokens_state(data@.take(i + 1 as int)).0);
            assert(cur@ =~= spec_tokens_state(data@.take(i + 1 as int)).1);
        }
        i += 1;
    }
    proof {
        assert(data@.take(n as int) =~= data@);
    }
    if cur.len() > 0 {
        toks.push(cur);
    }
    proof {
        assert(toks.deep_view() =~~= spec_ws_tokens(data@));
    }
    toks
}

/// `s` with leading and trailing blanks removed.
pub open spec fn spec_trim(s: Seq<u8>) -> Seq<u8>
    decreases s.len(),
{
    if s.len() == 0 {
        s
    } else if is_ws(s.first()) {
        spec_trim(s.drop_first())
    } else if is_ws(s.last()) {
        spec_trim(s.drop_last())
    } else {
        s
    }
}

proof fn lemma_trim_all_ws(s: Seq<u8>)
    requires
        forall|j: int| 0 <= j < s.len() ==> is_ws(s[j]),
    ensures
        spec_trim(s).len() == 0,
    decreases s.len(),
{
    if s.len() > 0 {
        lemma_trim_all_ws(s.drop_first());
    }
}

proof fn lemma_trim_range(s: Seq<u8>, a: int, b: int)
    requires
        0 <= a <= b <= s.len(),
        forall|j: int| 0 <= j < a ==> is_ws(s[j]),
        forall|j: int| b <= j < s.len() ==> is_ws(s[j]),
        a < b ==> !is_ws(s[a]) && !is_ws(s[b - 1]),
    ensures
        spec_trim(s) == s.subrange(a, b),
    decreases s.len(),
{
    if a == b {
        lemma_trim_all_ws(s);
        assert(spec_trim(s) =~= s.subrange(a, b));
    } else if is_ws(s.first()) {
        assert(a >= 1);
        let t = s.drop_first();
        assert(forall|j: int| 0 <= j < a - 1 ==> is_ws(t[j]));
        assert(forall|j: int| b - 1 <= j < t.len() ==> is_ws(t[j]));
        lemma_trim_range(t, a - 1, b - 1);
        assert(t.subrange(a - 1, b - 1) =~= s.subrange(a, b));
    } else if is_ws(s.last()) {
        assert(b <= s.len() - 1);
        let t = s.drop_last();
        lemma_trim_range(t, a, b);
        assert(t.subrange(a, b) =~= s.subrange(a, b));
    } else {
        assert(a == 0);
        assert(b == s.len());
        assert(spec_trim(s) =~= s.subrange(a, b));
    }
}

/// Remove leading and trailing blanks.
pub fn trim_bytes(data: &[u8]) -> (r: Vec<u8>)
    ensures
        r@ == spec_trim(data@),
{
    let n = data.len();
    let mut a: usize = 0;
    while a < n && (data[a] == 32 || data[a] == 9)
        invariant
            n == data@.len(),
            0 <= a <= n,
            forall|j: int| 0 <= j < a ==> is_ws(data@[j]),
        decreases n - a,
    {
        a += 1;
    }
    let mut b: usize = n;
    while b > a && (data[b - 1] == 32 || data[b - 1] == 9)
        invariant
            n == data@.len(),
            a <= b <= n,
            forall|j: int| 0 <= j < a ==> is_ws(data@[j]),
            forall|j: int| b <= j < n ==> is_ws(data@[j]),
            a < n ==> !is_ws(data@[a as int]),
        decreases b - a,
    {
        b -= 1;
    }
    proof {
        lemma_trim_range(data@, a as int, b as int);
    }
    subrange_vec(data, a, b)
}

/// The byte, ASCII-lowered.
pub open spec fn lower_byte(b: u8) -> u8 {
    if 65 <= b <= 90 {
        (b + 32) as u8
    } else {
        b
    }
}

/// The byte sequence, ASCII-lowered.
pub open spec fn lower_bytes(s: Seq<u8>) -> Seq<u8> {
    s.map_values(|b: u8| lower_byte(b))
}

/// ASCII-lower a byte range.
pub fn to_lower_bytes(data: &[u8]) -> (r: Vec<u8>)
    ensures
        r@ == lower_bytes(data@),
{
    let n = data.len();
    let mut r: Vec<u8> = Vec::new();
    let mut i: usize = 0;
    while i < n
        invariant
            n == data@.len(),
            0 <= i <= n,
            r@ == lower_bytes(data@.take(i as int)),
        decreases n - i,
    {
        let b = data[i];
        if 65 <= b && b <= 90 {
            r.push(b + 32);
        } else {
            r.push(b);
        }
        proof {
            assert(r@ =~= lower_bytes(data@.take(i + 1 as int)));
        }
        i += 1;
    }
    proof {
        assert(data@.take(n as int) =~= data@);
    }
    r
}

// ---------------------------------------------------------------------------
// Decimal parsing of a Content-Length value, over characters.
// ---------------------------------------------------------------------------
pub open spec fn is_digit(c: char) -> bool {
    48 <= c as u32 <= 57
}

pub open spec fn digit_val(c: char) -> int {
    c as u32 - 48
}

/// The value of a digit string, most significant first.
pub open spec fn spec_digits_val(s: Seq<char>) -> int
    decreases s.len(),
{
    if s.len() == 0 {
        0
    } else {
        spec_digits_val(s.drop_last()) * 10 + digit_val(s.last())
    }
}

/// The character sequence with one optional leading '+' removed.
pub open spec fn spec_plus_stripped(s: Seq<char>) -> Seq<char> {
    if s.len() > 0 && s[0] == '+' {
        s.drop_first()
    } else {
        s
    }
}

pub open spec fn spec_all_digits(s: Seq<char>) -> bool {
    forall|j: int| 0 <= j < s.len() ==> is_digit(s[j])
}

/// What usize::from_str accepts: an optional leading '+', then at least one
/// digit, nothing else, and a value that fits the machine word.
pub open spec fn spec_parse_usize(s: Seq<char>) -> Option<int> {
    if spec_plus_stripped(s).len() > 0 && spec_all_digits(spec_plus_stripped(s))
        && spec_digits_val(spec_plus_stripped(s)) <= usize::MAX {
        Some(spec_digits_val(spec_plus_stripped(s)))
    } else {
        None
    }
}

proof fn lemma_digits_val_nonneg(s: Seq<char>)
    requires
        forall|j: int| 0 <= j < s.len() ==> is_digit(s[j]),
    ensures
        spec_digits_val(s) >= 0,
    decreases s.len(),
{
    if s.len() > 0 {
        lemma_digits_val_nonneg(s.drop_last());
    }
}

proof fn lemma_digits_val_prefix(s: Seq<char>, i: int)
    requires
        0 <= i <= s.len(),
        forall|j: int| 0 <= j < s.len() ==> is_digit(s[j]),
    ensures
        spec_digits_val(s) >= spec_digits_val(s.take(i)),
    decreases s.len() - i,
{
    if i < s.len() {
        lemma_digits_val_prefix(s, i + 1);
        assert(s.take(i + 1).drop_last() =~= s.take(i));
        lemma_digits_val_nonneg(s.take(i));
        assert(spec_digits_val(s.take(i + 1)) == spec_digits_val(s.take(i)) * 10 + digit_val(
            s.take(i + 1).last(),
        ));
    } else {
        assert(s.take(i) =~= s);
    }
}

/// Parse a run of characters as a decimal number the way usize::from_str
/// does: an optional '+', then digits; anything else, or overflow, fails.
#[verifier::rlimit(50)]
pub fn parse_usize_chars(cs: &Vec<char>) -> (r: Option<usize>)
    ensures
        match r {
            Some(v) => spec_parse_usize(cs@) == Some(v as int),
            None => spec_parse_usize(cs@) is None,
        },
{
    let n = cs.len();
    let start: usize = if n > 0 && cs[0] == '+' {
        1
    } else {
        0
    };
    let ghost body = spec_plus_stripped(cs@);
    proof {
        assert(body =~= cs@.subrange(start as int, n as int));
    }
    if start >= n {
        return None;
    }
    let mut val: usize = 0;
    let mut i: usize = start;
    #[verifier::loop_isolation(false)]
    while i < n
        invariant
            start <= i <= n,
            n == cs@.len(),
            start <= 1,
            body == cs@.subrange(start as int, n as int),
            forall|j: int| start <= j < i ==> is_digit(cs@[j]),
            val as int == spec_digits_val(body.take(i - start)),
        decreases n - i,
    {
        let c = cs[i];
        let u = c as u32;
        if u < 48 || u > 57 {
            proof {
                assert(!is_digit(body[i - start]));
                assert(!spec_all_digits(body));
            }
            return None;
        }
        let d = (u - 48) as usize;
        if val > (usize::MAX - d) / 10 {
            proof {
                assert(body.take(i - start + 1).drop_last() =~= body.take(i - start));
                assert(spec_digits_val(body.take(i - start + 1)) == val as int * 10 + d);
                assert(val as int * 10 + d > usize::MAX);
                if spec_all_digits(body) {
                    lemma_digits_val_prefix(body, i - start + 1);
                }
            }
            return None;
        }
        val = val * 10 + d;
        proof {
            assert(body.take(i - start + 1).drop_last() =~= body.take(i - start));
        }
        i += 1;
    }
    proof {
        assert(body.take(n - start) =~= body);
    }
    Some(val)
}

// ---------------------------------------------------------------------------
// Character-level scanning, for query strings.
// ---------------------------------------------------------------------------
/// The first position of character `c` at or after `i`.
pub open spec fn spec_find_char_from(s: Seq<char>, c: char, i: int) -> Option<int>
    decreases s.len() - i,
{
    if !(0 <= i < s.len()) {
        None
    } else if s[i] == c {
        Some(i)
    } else {
        spec_find_char_from(s, c, i + 1)
    }
}

/// The first position of character `c`, if any.
pub open spec fn spec_find_char(s: Seq<char>, c: char) -> Option<int> {
    spec_find_char_from(s, c, 0)
}

/// Find the first occurrence of a character.
pub fn find_char(data: &Vec<char>, c: char) -> (r: Option<usize>)
    ensures
        match r {
            Some(i) => spec_find_char(data@, c) == Some(i as int) && i < data@.len()
                && data@[i as int] == c,
            None => spec_find_char(data@, c) is None,
        },
{
    let n = data.len();
    let mut i: usize = 0;
    #[verifier::loop_isolation(false)]
    while i < n
        invariant
            n == data@.len(),
            0 <= i <= n,
            spec_find_char(data@, c) == spec_find_char_from(data@, c, i as int),
        decreases n - i,
    {
        if data[i] == c {
            return Some(i);
        }
        i += 1;
    }
    None
}

/// Copy of a character range.
pub fn subrange_chars(data: &Vec<char>, from: usize, to: usize) -> (r: Vec<char>)
    requires
        from <= to <= data@.len(),
    ensures
        r@ == data@.subrange(from as int, to as int),
{
    let mut r: Vec<char> = Vec::new();
    let mut i: usize = from;
    while i < to
        invariant
            from <= i <= to <= data@.len(),
            r@ == data@.subrange(from as int, i as int),
        decreases to - i,
    {
        let c = data[i];
        r.push(c);
        proof {
            assert(r@ =~= data@.subrange(from as int, i + 1 as int));
        }
        i += 1;
    }
    r
}

/// Splitting on one character, running state: the finished pieces and the
/// piece still open.
pub open spec fn spec_split_char_state(s: Seq<char>, sep: char) -> (Seq<Seq<char>>, Seq<char>)
    decreases s.len(),
{
    if s.len() == 0 {
        (Seq::empty(), Seq::empty())
    } else {
        let (ps, cur) = spec_split_char_state(s.drop_last(), sep);
        let c = s.last();
        if c == sep {
            (ps.push(cur), Seq::empty())
        } else {
            (ps, cur.push(c))
        }
    }
}

/// The pieces of `s` split on `sep`; like str::split, the result always has
/// one more piece than there are separators.
pub open spec fn spec_split_char(s: Seq<char>, sep: char) -> Seq<Seq<char>> {
    let (ps, cur) = spec_split_char_state(s, sep);
    ps.push(cur)
}

/// Split a character range on a separator.
pub fn split_char(data: &Vec<char>, sep: char) -> (r: Vec<Vec<char>>)
    ensures
        r.deep_view() == spec_split_char(data@, sep),
        r@.len() >= 1,
{
    let n = data.len();
    let mut ps: Vec<Vec<char>> = Vec::new();
    let mut cur: Vec<char> = Vec::new();
    let mut i: usize = 0;
    while i < n
        invariant
            n == data@.len(),
            0 <= i <= n,
            ps.deep_view() == spec_split_char_state(data@.take(i as int), sep).0,
            cur@ == spec_split_char_state(data@.take(i as int), sep).1,
        decreases n - i,
    {
        let c = data[i];
        if c == sep {
            ps.push(cur);
            cur = Vec::new();
        } else {
            cur.push(c);
        }
        proof {
            assert(data@.take(i + 1 as int).drop_last() =~= data@.take(i as int));
            assert(data@.take(i + 1 as int).last() == data@[i as int]);
            assert(ps.deep_view() =~~= spec_split_char_state(data@.take(i + 1 as int), sep).0);
            assert(cur@ =~= spec_split_char_state(data@.take(i + 1 as int), sep).1);
        }
        i += 1;
    }
    proof {
        assert(data@.take(n as int) =~= data@);
    }
    ps.push(cur);
    proof {
        assert(ps.deep_view() =~~= spec_split_char(data@, sep));
    }
    ps
}


} // verus!
