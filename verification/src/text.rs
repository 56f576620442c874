//! Small verified text building blocks: decimal formatting and ASCII
//! character classification, shared by the date formatter and the editor's
//! text generators.

use vstd::prelude::*;

verus! {

/// The decimal digit character for a value below ten.
pub open spec fn spec_digit_char(d: int) -> char {
    if d == 0 {
        '0'
    } else if d == 1 {
        '1'
    } else if d == 2 {
        '2'
    } else if d == 3 {
        '3'
    } else if d == 4 {
        '4'
    } else if d == 5 {
        '5'
    } else if d == 6 {
        '6'
    } else if d == 7 {
        '7'
    } else if d == 8 {
        '8'
    } else {
        '9'
    }
}

/// Decimal notation of a non-negative number, without padding.
pub open spec fn spec_dec(n: int) -> Seq<char>
    decreases n,
{
    if n < 10 {
        seq![spec_digit_char(n)]
    } else {
        spec_dec(n / 10).push(spec_digit_char(n % 10))
    }
}

/// Decimal notation of a signed number: a minus sign for negative values.
pub open spec fn spec_dec_signed(n: int) -> Seq<char> {
    if n < 0 {
        seq!['-'] + spec_dec(-n)
    } else {
        spec_dec(n)
    }
}

/// Two-digit zero-padded notation of a value below one hundred.
pub open spec fn spec_dec2(n: int) -> Seq<char> {
    seq![spec_digit_char(n / 10), spec_digit_char(n % 10)]
}

/// Year notation: zero-padded to four digits, wider or signed if needed.
pub open spec fn spec_dec_year(y: int) -> Seq<char> {
    if 0 <= y <= 9999 {
        seq![
            spec_digit_char(y / 1000),
            spec_digit_char(y / 100 % 10),
            spec_digit_char(y / 10 % 10),
            spec_digit_char(y % 10),
        ]
    } else {
        spec_dec_signed(y)
    }
}

/// The one-character string for a decimal digit.
pub fn digit_str(d: u64) -> (r: &'static str)
    requires
        d < 10,
    ensures
        r@ == seq![spec_digit_char(d as int)],
{
    proof {
        reveal_strlit("0");
        reveal_strlit("1");
        reveal_strlit("2");
        reveal_strlit("3");
        reveal_strlit("4");
        reveal_strlit("5");
        reveal_strlit("6");
        reveal_strlit("7");
        reveal_strlit("8");
        reveal_strlit("9");
    }
    if d == 0 {
        "0"
    } else if d == 1 {
        "1"
    } else if d == 2 {
        "2"
    } else if d == 3 {
        "3"
    } else if d == 4 {
        "4"
    } else if d == 5 {
        "5"
    } else if d == 6 {
        "6"
    } else if d == 7 {
        "7"
    } else if d == 8 {
        "8"
    } else {
        "9"
    }
}

/// Unpadded decimal notation of a non-negative number.
pub fn fmt_u64(n: u64) -> (r: String)
    ensures
        r@ == spec_dec(n as int),
    decreases n,
{
    if n < 10 {
        digit_str(n).to_owned()
    } else {
        let prefix = fmt_u64(n / 10);
        prefix.concat(digit_str(n % 10))
    }
}

/// Decimal notation of a signed number.
pub fn fmt_i64(n: i64) -> (r: String)
    ensures
        r@ == spec_dec_signed(n as int),
{
    if n < 0 {
        proof {
            reveal_strlit("-");
        }
        let magnitude: u64 = if n == i64::MIN {
            0x8000_0000_0000_0000u64
        } else {
            (-n) as u64
        };
        let mut out = "-".to_owned();
        out.append(fmt_u64(magnitude).as_str());
        out
    } else {
        fmt_u64(n as u64)
    }
}

/// Two-digit zero-padded decimal notation.
pub fn fmt_2digits(n: u8) -> (r: String)
    requires
        n < 100,
    ensures
        r@ == spec_dec2(n as int),
{
    let mut out = digit_str((n / 10) as u64).to_owned();
    out.append(digit_str((n % 10) as u64));
    out
}

/// Year notation, zero-padded to four digits for the common range.
pub fn fmt_year(y: i32) -> (r: String)
    ensures
        r@ == spec_dec_year(y as int),
{
    if 0 <= y && y <= 9999 {
        let mut out = digit_str((y / 1000) as u64).to_owned();
        out.append(digit_str((y / 100 % 10) as u64));
        out.append(digit_str((y / 10 % 10) as u64));
        out.append(digit_str((y % 10) as u64));
        out
    } else {
        fmt_i64(y as i64)
    }
}

/// ASCII lowercase folding of one character; anything else is unchanged.
pub open spec fn spec_lower_char(c: char) -> char {
    if 'A' <= c <= 'Z' {
        ((c as u32) + 32) as char
    } else {
        c
    }
}

/// Executable ASCII lowercase folding.
pub fn lower_char(c: char) -> (r: char)
    ensures
        r == spec_lower_char(c),
{
    match c {
        'A' => 'a',
        'B' => 'b',
        'C' => 'c',
        'D' => 'd',
        'E' => 'e',
        'F' => 'f',
        'G' => 'g',
        'H' => 'h',
        'I' => 'i',
        'J' => 'j',
        'K' => 'k',
        'L' => 'l',
        'M' => 'm',
        'N' => 'n',
        'O' => 'o',
        'P' => 'p',
        'Q' => 'q',
        'R' => 'r',
        'S' => 's',
        'T' => 't',
        'U' => 'u',
        'V' => 'v',
        'W' => 'w',
        'X' => 'x',
        'Y' => 'y',
        'Z' => 'z',
        _ => c,
    }
}

/// Whether the needle occurs in the haystack when both are folded to ASCII
/// lowercase, starting at position `k`.
pub open spec fn spec_matches_at(h: Seq<char>, n: Seq<char>, k: int) -> bool {
    forall|j: int| 0 <= j < n.len() ==> spec_lower_char(h[k + j]) == spec_lower_char(n[j])
}

/// Whether the needle occurs anywhere in the haystack, ASCII
/// case-insensitively. An empty needle occurs in everything.
pub open spec fn spec_contains_ci(h: Seq<char>, n: Seq<char>) -> bool {
    exists|k: int| 0 <= k <= h.len() - n.len() && spec_matches_at(h, n, k)
}

/// Executable ASCII case-insensitive substring search.
pub fn contains_ci(hay: &str, needle: &str) -> (r: bool)
    ensures
        r == spec_contains_ci(hay@, needle@),
{
    let hlen = hay.unicode_len();
    let nlen = needle.unicode_len();
    if nlen > hlen {
        return false;
    }
    let mut k: usize = 0;
    while k <= hlen - nlen
        invariant
            nlen <= hlen,
            hlen == hay@.len(),
            nlen == needle@.len(),
            0 <= k <= hlen - nlen + 1,
            forall|t: int| 0 <= t < k ==> !spec_matches_at(hay@, needle@, t),
        decreases hlen - nlen - k + 1,
    {
        let mut j: usize = 0;
        let mut ok = true;
        while j < nlen && ok
            invariant
                nlen <= hlen,
                hlen == hay@.len(),
                nlen == needle@.len(),
                0 <= k <= hlen - nlen,
                0 <= j <= nlen,
                ok ==> forall|u: int|
                    0 <= u < j ==> spec_lower_char(hay@[k + u]) == spec_lower_char(needle@[u]),
                !ok ==> !spec_matches_at(hay@, needle@, k as int),
            decreases nlen - j, (if ok { 1int } else { 0int }),
        {
            if lower_char(hay.get_char(k + j)) == lower_char(needle.get_char(j)) {
                j = j + 1;
            } else {
                ok = false;
            }
        }
        if ok {
            proof {
                assert(spec_matches_at(hay@, needle@, k as int));
            }
            return true;
        }
        k = k + 1;
    }
    proof {
        assert(forall|t: int| 0 <= t <= hlen - nlen ==> !spec_matches_at(hay@, needle@, t));
    }
    false
}

/// The text with its leading spaces removed.
pub open spec fn spec_trim_front(s: Seq<char>) -> Seq<char>
    decreases s.len(),
{
    if s.len() > 0 && s[0] == ' ' {
        spec_trim_front(s.drop_first())
    } else {
        s
    }
}

/// The text with its trailing spaces removed.
pub open spec fn spec_trim_back(s: Seq<char>) -> Seq<char>
    decreases s.len(),
{
    if s.len() > 0 && s.last() == ' ' {
        spec_trim_back(s.drop_last())
    } else {
        s
    }
}

/// The text with leading and trailing spaces removed.
pub open spec fn spec_trim(s: Seq<char>) -> Seq<char> {
    spec_trim_back(spec_trim_front(s))
}

proof fn lemma_trim_front_skip(s: Seq<char>, a: int)
    requires
        0 <= a <= s.len(),
        forall|j: int| 0 <= j < a ==> s[j] == ' ',
        a == s.len() || s[a] != ' ',
    ensures
        spec_trim_front(s) == s.skip(a),
    decreases a,
{
    if a == 0 {
        assert(s.skip(0) =~= s);
    } else {
        lemma_trim_front_skip(s.drop_first(), a - 1);
        assert(s.drop_first().skip(a - 1) =~= s.skip(a));
    }
}

proof fn lemma_trim_back_take(s: Seq<char>, b: int)
    requires
        0 <= b <= s.len(),
        forall|j: int| b <= j < s.len() ==> s[j] == ' ',
        b == 0 || s[b - 1] != ' ',
    ensures
        spec_trim_back(s) == s.take(b),
    decreases s.len(),
{
    if b == s.len() {
        assert(s.take(b) =~= s);
    } else {
        lemma_trim_back_take(s.drop_last(), b);
        assert(s.drop_last().take(b) =~= s.take(b));
    }
}

/// Removes leading and trailing spaces.
pub fn trim_spaces(s: &str) -> (r: String)
    ensures
        r@ == spec_trim(s@),
{
    let len = s.unicode_len();
    let mut a: usize = 0;
    while a < len && s.get_char(a) == ' '
        invariant
            0 <= a <= len == s@.len(),
            forall|j: int| 0 <= j < a ==> s@[j] == ' ',
        decreases len - a,
    {
        a = a + 1;
    }
    if a == len {
        proof {
            lemma_trim_front_skip(s@, a as int);
            assert(spec_trim_front(s@) =~= Seq::<char>::empty());
            assert(spec_trim_back(spec_trim_front(s@)) == spec_trim_front(s@));
        }
        return String::new();
    }
    let mut b: usize = len;
    while b > a && s.get_char(b - 1) == ' '
        invariant
            0 <= a <= b <= len == s@.len(),
            forall|j: int| 0 <= j < a ==> s@[j] == ' ',
            a == len || s@[a as int] != ' ',
            forall|j: int| b <= j < len ==> s@[j] == ' ',
            a < len,
        decreases b,
    {
        b = b - 1;
    }
    proof {
        lemma_trim_front_skip(s@, a as int);
        assert(b > a);
        assert(s@[a as int] != ' ');
        assert(b == a + 1 ==> s@[b - 1] != ' ');
        lemma_trim_back_take(s@.skip(a as int), b as int - a as int);
        assert(s@.skip(a as int).take(b as int - a as int) =~= s@.subrange(a as int, b as int));
    }
    let piece = s.substring_char(a, b);
    piece.to_owned()
}

/// Whether two texts hold the same characters.
pub fn str_eq(a: &str, b: &str) -> (r: bool)
    ensures
        r == (a@ == b@),
{
    let s1 = a.to_owned();
    let s2 = b.to_owned();
    s1 == s2
}

/// The value of a decimal digit character, if it is one.
pub open spec fn spec_digit_val(c: char) -> Option<int> {
    if c == '0' {
        Some(0int)
    } else if c == '1' {
        Some(1int)
    } else if c == '2' {
        Some(2int)
    } else if c == '3' {
        Some(3int)
    } else if c == '4' {
        Some(4int)
    } else if c == '5' {
        Some(5int)
    } else if c == '6' {
        Some(6int)
    } else if c == '7' {
        Some(7int)
    } else if c == '8' {
        Some(8int)
    } else if c == '9' {
        Some(9int)
    } else {
        None
    }
}

/// Executable digit lookup.
pub fn digit_val(c: char) -> (r: Option<u8>)
    ensures
        match r {
            Some(v) => spec_digit_val(c) == Some(v as int),
            None => spec_digit_val(c) is None,
        },
{
    match c {
        '0' => Some(0),
        '1' => Some(1),
        '2' => Some(2),
        '3' => Some(3),
        '4' => Some(4),
        '5' => Some(5),
        '6' => Some(6),
        '7' => Some(7),
        '8' => Some(8),
        '9' => Some(9),
        _ => None,
    }
}

} // verus!
