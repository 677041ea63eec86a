//! Text: decimal numbers, white space, words, and the passage between bytes and
//! characters.
use vstd::prelude::*;

verus! {

/// `String::push` appends one character.
pub assume_specification[ String::push ](s: &mut String, c: char)
    ensures
        final(s)@ == old(s)@.push(c),
;

// ---------------------------------------------------------------------------
// Characters and strings
// ---------------------------------------------------------------------------
/// The characters of a string, one by one.
pub fn chars_of(s: &str) -> (r: Vec<char>)
    ensures
        r@ == s@,
{
    let mut out: Vec<char> = Vec::new();
    for c in it: s.chars()
        invariant
            out@ == it.seq().take(it.index()),
            it.seq() == s@,
    {
        proof {
            assert(it.seq().take(it.index() + 1) == it.seq().take(it.index()).push(c));
        }
        out.push(c);
    }
    proof {
        assert(s@.take(s@.len() as int) == s@);
    }
    out
}

/// The string made of the characters `from..to` of `chars`.
pub fn string_of(chars: &Vec<char>, from: usize, to: usize) -> (r: String)
    requires
        from <= to <= chars@.len(),
    ensures
        r@ == chars@.subrange(from as int, to as int),
{
    let mut out = String::new();
    let mut i: usize = from;
    while i < to
        invariant
            from <= i <= to <= chars@.len(),
            out@ == chars@.subrange(from as int, i as int),
        decreases to - i,
    {
        out.push(chars[i]);
        i = i + 1;
        proof {
            assert(chars@.subrange(from as int, i as int) == chars@.subrange(
                from as int,
                i - 1,
            ).push(chars@[i - 1]));
        }
    }
    out
}

/// Whether two strings hold the same characters.
pub fn same_text(a: &str, b: &str) -> (r: bool)
    ensures
        r == (a@ == b@),
{
    let x = a.as_bytes();
    let y = b.as_bytes();
    proof {
        vstd::utf8::encode_utf8_decode_utf8(a@);
        vstd::utf8::encode_utf8_decode_utf8(b@);
    }
    if x.len() != y.len() {
        return false;
    }
    let mut i: usize = 0;
    while i < x.len()
        invariant
            i <= x@.len(),
            x@.len() == y@.len(),
            x@ == vstd::utf8::encode_utf8(a@),
            y@ == vstd::utf8::encode_utf8(b@),
            x@.take(i as int) == y@.take(i as int),
        decreases x@.len() - i,
    {
        if x[i] != y[i] {
            proof {
                assert(x@ != y@);
            }
            return false;
        }
        i = i + 1;
        proof {
            assert(x@.take(i as int) == x@.take(i - 1).push(x@[i - 1]));
            assert(y@.take(i as int) == y@.take(i - 1).push(y@[i - 1]));
        }
    }
    proof {
        assert(x@.take(x@.len() as int) == x@);
        assert(y@.take(y@.len() as int) == y@);
    }
    true
}

/// An owned copy of a string slice.
pub fn owned(s: &str) -> (r: String)
    ensures
        r@ == s@,
{
    s.to_owned()
}

/// Appends a text.
pub fn append(out: &mut String, s: &str)
    ensures
        final(out)@ == old(out)@ + s@,
{
    out.append(s);
}

/// Whether `s` begins with `prefix`.
pub open spec fn has_prefix(s: Seq<char>, prefix: Seq<char>) -> bool {
    prefix.len() <= s.len() && s.take(prefix.len() as int) == prefix
}

/// Whether `s`, from position `from` on, begins with `prefix`.
pub fn starts_with_at(s: &Vec<char>, from: usize, prefix: &Vec<char>) -> (r: bool)
    requires
        from <= s@.len(),
    ensures
        r == has_prefix(s@.skip(from as int), prefix@),
{
    if s.len() - from < prefix.len() {
        return false;
    }
    let mut i: usize = 0;
    while i < prefix.len()
        invariant
            i <= prefix@.len(),
            from <= s@.len(),
            prefix.len() <= s.len() - from,
            forall|j: int| 0 <= j < i ==> s@[from + j] == prefix@[j],
        decreases prefix@.len() - i,
    {
        if s[from + i] != prefix[i] {
            proof {
                assert(s@.skip(from as int).take(prefix@.len() as int)[i as int] != prefix@[i as int]);
            }
            return false;
        }
        i = i + 1;
    }
    proof {
        assert(s@.skip(from as int).take(prefix@.len() as int) =~= prefix@);
    }
    true
}

// ---------------------------------------------------------------------------
// White space and words
// ---------------------------------------------------------------------------
/// The characters with Unicode's `White_Space` property.
pub open spec fn is_space(c: char) -> bool {
    let n = c as u32;
    ||| 0x09 <= n <= 0x0d
    ||| n == 0x20
    ||| n == 0x85
    ||| n == 0xa0
    ||| n == 0x1680
    ||| 0x2000 <= n <= 0x200a
    ||| n == 0x2028
    ||| n == 0x2029
    ||| n == 0x202f
    ||| n == 0x205f
    ||| n == 0x3000
}

/// Whether a character is white space.
pub fn is_whitespace(c: char) -> (r: bool)
    ensures
        r == is_space(c),
{
    let n: u32 = c as u32;
    (0x09 <= n && n <= 0x0d) || n == 0x20 || n == 0x85 || n == 0xa0 || n == 0x1680 || (0x2000 <= n
        && n <= 0x200a) || n == 0x2028 || n == 0x2029 || n == 0x202f || n == 0x205f || n == 0x3000
}

/// The length of the longest prefix of `s` that holds no white space.
pub open spec fn word_len(s: Seq<char>) -> nat
    decreases s.len(),
{
    if s.len() == 0 || is_space(s[0]) {
        0
    } else {
        1 + word_len(s.skip(1))
    }
}

pub proof fn lemma_word_len(s: Seq<char>)
    ensures
        word_len(s) <= s.len(),
        forall|i: int| 0 <= i < word_len(s) ==> !is_space(#[trigger] s[i]),
        word_len(s) < s.len() ==> is_space(s[word_len(s) as int]),
    decreases s.len(),
{
    if s.len() > 0 && !is_space(s[0]) {
        lemma_word_len(s.skip(1));
        let n = word_len(s.skip(1));
        assert(word_len(s) == n + 1);
        assert forall|i: int| 0 <= i < word_len(s) implies !is_space(#[trigger] s[i]) by {
            if i > 0 {
                assert(s.skip(1)[i - 1] == s[i]);
            }
        }
        if n < s.len() - 1 {
            assert(s.skip(1)[n as int] == s[n as int + 1]);
        }
    }
}

/// The words of `s`: its maximal runs of characters that are not white space, in order.
pub open spec fn words(s: Seq<char>) -> Seq<Seq<char>>
    decreases s.len(),
    via words_decreases
{
    if s.len() == 0 {
        Seq::empty()
    } else if is_space(s[0]) {
        words(s.skip(1))
    } else {
        seq![s.take(word_len(s) as int)] + words(s.skip(word_len(s) as int))
    }
}

#[via_fn]
proof fn words_decreases(s: Seq<char>) {
    lemma_word_len(s);
}

/// The views of a vector of strings.
pub open spec fn texts(v: Seq<String>) -> Seq<Seq<char>> {
    v.map_values(|s: String| s@)
}

/// The texts of a list with one more string.
pub proof fn lemma_texts_push(v: Seq<String>, s: String)
    ensures
        texts(v.push(s)) == texts(v).push(s@),
{
    assert(texts(v.push(s)) =~= texts(v).push(s@));
}

/// Splits a text into its words.
pub fn split_whitespace(s: &str) -> (r: Vec<String>)
    ensures
        texts(r@) == words(s@),
{
    let chars = chars_of(s);
    proof {
        assert(chars@.subrange(0, chars@.len() as int) =~= chars@);
    }
    words_of(&chars, 0, chars.len())
}

/// The words of the characters `from..to`.
pub fn words_of(chars: &Vec<char>, from: usize, to: usize) -> (r: Vec<String>)
    requires
        from <= to <= chars@.len(),
    ensures
        texts(r@) == words(chars@.subrange(from as int, to as int)),
{
    let mut out: Vec<String> = Vec::new();
    let mut i: usize = from;
    proof {
        assert(texts(out@) + words(chars@.subrange(from as int, to as int)) =~= words(
            chars@.subrange(from as int, to as int),
        ));
    }
    while i < to
        invariant
            from <= i <= to <= chars@.len(),
            texts(out@) + words(chars@.subrange(i as int, to as int)) == words(
                chars@.subrange(from as int, to as int),
            ),
        decreases to - i,
    {
        let ghost rest = chars@.subrange(i as int, to as int);
        if is_whitespace(chars[i]) {
            proof {
                assert(rest.skip(1) =~= chars@.subrange(i + 1, to as int));
            }
            i = i + 1;
        } else {
            let start: usize = i;
            while i < to && !is_whitespace(chars[i])
                invariant
                    start <= i <= to <= chars@.len(),
                    rest == chars@.subrange(start as int, to as int),
                    forall|j: int| 0 <= j < i - start ==> !is_space(#[trigger] rest[j]),
                decreases to - i,
            {
                proof {
                    assert(rest[i - start] == chars@[i as int]);
                }
                i = i + 1;
            }
            let word = string_of(chars, start, i);
            let ghost before = out@;
            out.push(word);
            proof {
                lemma_word_len(rest);
                let n = (i - start) as nat;
                let w = word_len(rest);
                if w < n {
                    assert(!is_space(rest[w as int]));
                    assert(false);
                }
                if n < w {
                    assert(rest[n as int] == chars@[i as int]);
                    assert(false);
                }
                assert(rest.take(n as int) =~= word@);
                assert(rest.skip(n as int) =~= chars@.subrange(i as int, to as int));
                assert(texts(out@) =~= texts(before).push(word@));
                assert(texts(before) + (seq![word@] + words(rest.skip(n as int)))
                    =~= texts(before).push(word@) + words(rest.skip(n as int)));
            }
        }
    }
    proof {
        assert(chars@.subrange(to as int, to as int) =~= Seq::<char>::empty());
        assert(texts(out@) + Seq::<Seq<char>>::empty() =~= texts(out@));
    }
    out
}

// ---------------------------------------------------------------------------
// Decimal numbers
// ---------------------------------------------------------------------------
/// The character of a decimal digit.
pub open spec fn digit_char(d: nat) -> char {
    (48 + d) as char
}

/// The decimal digits of a number, without leading zeros.
pub open spec fn dec(n: nat) -> Seq<char>
    decreases n,
{
    if n < 10 {
        seq![digit_char(n)]
    } else {
        dec(n / 10).push(digit_char(n % 10))
    }
}

/// Appends the decimal digits of a number.
pub fn push_dec(out: &mut String, n: u128)
    ensures
        final(out)@ == old(out)@ + dec(n as nat),
    decreases n,
{
    if n >= 10 {
        push_dec(out, n / 10);
    }
    let d: u8 = (n % 10) as u8;
    let c: char = (48 + d) as char;
    proof {
        assert(c == digit_char((n % 10) as nat));
    }
    out.push(c);
    proof {
        if n >= 10 {
            assert((old(out)@ + dec((n / 10) as nat)).push(c) =~= old(out)@ + dec(
                (n / 10) as nat,
            ).push(c));
        } else {
            assert(old(out)@.push(c) =~= old(out)@ + seq![c]);
        }
    }
}

/// Whether a character is an ASCII digit.
pub open spec fn is_digit(c: char) -> bool {
    48 <= c as u32 <= 57
}

/// The number that a run of digits stands for.
pub open spec fn digits_value(s: Seq<char>) -> nat
    decreases s.len(),
{
    if s.len() == 0 {
        0
    } else {
        (digits_value(s.drop_last()) * 10 + (s.last() as u32 - 48)) as nat
    }
}

/// Whether `s` is a nonempty run of digits.
pub open spec fn all_digits(s: Seq<char>) -> bool {
    s.len() > 0 && forall|i: int| 0 <= i < s.len() ==> is_digit(#[trigger] s[i])
}

/// The number that `s` stands for, where it is a nonempty run of digits of a number up to
/// `max`.
pub open spec fn decimal(s: Seq<char>, max: nat) -> Option<nat> {
    if all_digits(s) && digits_value(s) <= max {
        Some(digits_value(s))
    } else {
        None
    }
}

/// Reads the digits `from..` of `chars` as a number up to `max`.
pub fn read_decimal(chars: &Vec<char>, from: usize, max: u64) -> (r: Option<u64>)
    requires
        from <= chars@.len(),
    ensures
        match r {
            Some(v) => decimal(chars@.skip(from as int), max as nat) == Some(v as nat),
            None => decimal(chars@.skip(from as int), max as nat) is None,
        },
{
    let ghost s = chars@.skip(from as int);
    if from == chars.len() {
        return None;
    }
    let mut value: u64 = 0;
    let mut over: bool = false;
    let mut i: usize = from;
    while i < chars.len()
        invariant
            from <= i <= chars@.len(),
            s == chars@.skip(from as int),
            forall|j: int| 0 <= j < i - from ==> is_digit(#[trigger] s[j]),
            !over ==> value == digits_value(s.take(i - from)) && value <= max,
            over ==> digits_value(s.take(i - from)) > max,
        decreases chars@.len() - i,
    {
        let c = chars[i];
        proof {
            assert(s[i - from] == c);
        }
        let n: u32 = c as u32;
        if n < 48 || n > 57 {
            return None;
        }
        let ghost t = s.take(i - from + 1);
        proof {
            assert(t.drop_last() =~= s.take(i - from));
            assert(t.last() == c);
        }
        if !over {
            let next: u128 = value as u128 * 10 + (n - 48) as u128;
            if next > max as u128 {
                over = true;
            } else {
                value = next as u64;
            }
        }
        i = i + 1;
    }
    proof {
        assert(s.take(s.len() as int) =~= s);
    }
    if over {
        None
    } else {
        Some(value)
    }
}

/// `s` without one leading plus sign.
pub open spec fn unsigned_digits(s: Seq<char>) -> Seq<char> {
    if s.len() > 0 && s[0] == '+' {
        s.skip(1)
    } else {
        s
    }
}

/// Reads an unsigned number, which one plus sign may precede.
pub fn parse_unsigned(s: &str, max: u64) -> (r: Option<u64>)
    ensures
        match r {
            Some(v) => decimal(unsigned_digits(s@), max as nat) == Some(v as nat),
            None => decimal(unsigned_digits(s@), max as nat) is None,
        },
{
    let chars = chars_of(s);
    proof {
        assert(chars@.skip(0) =~= chars@);
    }
    if chars.len() > 0 && chars[0] == '+' {
        read_decimal(&chars, 1, max)
    } else {
        read_decimal(&chars, 0, max)
    }
}

/// The number that `s` stands for, where it is digits after at most one sign and fits an
/// `i32`.
pub open spec fn signed_decimal(s: Seq<char>) -> Option<int> {
    if s.len() > 0 && s[0] == '-' {
        match decimal(s.skip(1), 0x8000_0000) {
            Some(v) => Some(-(v as int)),
            None => None,
        }
    } else {
        match decimal(unsigned_digits(s), 0x7fff_ffff) {
            Some(v) => Some(v as int),
            None => None,
        }
    }
}

/// Reads the characters `from..` as a signed number.
pub fn read_signed(chars: &Vec<char>, from: usize) -> (r: Option<i32>)
    requires
        from <= chars@.len(),
    ensures
        match r {
            Some(v) => signed_decimal(chars@.skip(from as int)) == Some(v as int),
            None => signed_decimal(chars@.skip(from as int)) is None,
        },
{
    proof {
        if from < chars@.len() {
            assert(chars@.skip(from as int).skip(1) =~= chars@.skip(from + 1));
        }
    }
    if from < chars.len() && chars[from] == '-' {
        match read_decimal(chars, from + 1, 0x8000_0000) {
            Some(v) => Some((-(v as i64)) as i32),
            None => None,
        }
    } else {
        let start: usize = if from < chars.len() && chars[from] == '+' {
            from + 1
        } else {
            from
        };
        match read_decimal(chars, start, 0x7fff_ffff) {
            Some(v) => Some(v as i32),
            None => None,
        }
    }
}

// ---------------------------------------------------------------------------
// Bytes and characters
// ---------------------------------------------------------------------------
/// What `String::from_utf8_lossy` makes of `bytes`.
pub uninterp spec fn utf8_lossy(bytes: Seq<u8>) -> Seq<char>;

/// `String::from_utf8_lossy`: the text of `bytes`, with U+FFFD in the place of what is no
/// UTF-8. Bytes that are valid UTF-8 give the text that they encode.
#[verifier::external_body]
pub(crate) fn lossy_text(bytes: &[u8]) -> (r: String)
    ensures
        r@ == utf8_lossy(bytes@),
        vstd::utf8::valid_utf8(bytes@) ==> r@ == vstd::utf8::decode_utf8(bytes@),
{
    String::from_utf8_lossy(bytes).into_owned()
}

/// `std::str::from_utf8`: the text that `bytes` encode, where they are valid UTF-8.
#[verifier::external_body]
pub(crate) fn checked_text(bytes: &[u8]) -> (r: Option<String>)
    ensures
        match r {
            Some(s) => vstd::utf8::valid_utf8(bytes@) && s@ == vstd::utf8::decode_utf8(bytes@),
            None => !vstd::utf8::valid_utf8(bytes@),
        },
{
    match std::str::from_utf8(bytes) {
        Ok(s) => Some(s.to_string()),
        Err(_) => None,
    }
}

/// The bytes of a text.
pub fn bytes_of(s: &str) -> (r: Vec<u8>)
    ensures
        r@ == vstd::utf8::encode_utf8(s@),
{
    vstd::slice::slice_to_vec(s.as_bytes())
}

} // verus!
