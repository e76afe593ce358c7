//! Text: the few operations on strings that names, flags, hashes and messages need, over the
//! sequence of characters that a string holds.
use vstd::prelude::*;

verus! {

/// `String::push` appends one character to the end of the string.
pub assume_specification[ String::push ](s: &mut String, c: char)
    ensures
        final(s)@ == old(s)@.push(c),
;

/// What `str::to_lowercase` gives: the Unicode lowercase equivalent of a text.
pub uninterp spec fn lowercase(s: Seq<char>) -> Seq<char>;

/// The lowercase form of an ASCII character.
pub open spec fn ascii_lower(c: char) -> char {
    if 'A' <= c && c <= 'Z' {
        (c as int + 32) as char
    } else {
        c
    }
}

/// Is every character ASCII?
pub open spec fn is_ascii_text(s: Seq<char>) -> bool {
    forall|i: int| 0 <= i < s.len() ==> (#[trigger] s[i] as int) < 128
}

/// Calls `str::to_lowercase`. The result is a function of the text alone; on a text of ASCII
/// characters it maps `A` to `Z` to `a` to `z` and keeps every other character.
#[verifier::external_body]
fn to_lowercase(s: &str) -> (r: String)
    ensures
        r@ == lowercase(s@),
        is_ascii_text(s@) ==> r@ == s@.map_values(|c: char| ascii_lower(c)),
{
    s.to_lowercase()
}

/// The characters with the Unicode property `White_Space`.
pub open spec fn white_space(c: char) -> bool {
    let n = c as int;
    ||| 0x09 <= n <= 0x0D
    ||| n == 0x20
    ||| n == 0x85
    ||| n == 0xA0
    ||| n == 0x1680
    ||| 0x2000 <= n <= 0x200A
    ||| n == 0x2028
    ||| n == 0x2029
    ||| n == 0x202F
    ||| n == 0x205F
    ||| n == 0x3000
}

pub fn is_white_space(c: char) -> (r: bool)
    ensures
        r == white_space(c),
{
    let n: u32 = c as u32;
    (0x09 <= n && n <= 0x0D) || n == 0x20 || n == 0x85 || n == 0xA0 || n == 0x1680 || (0x2000 <= n
        && n <= 0x200A) || n == 0x2028 || n == 0x2029 || n == 0x202F || n == 0x205F || n == 0x3000
}

/// A text without its leading white space.
pub open spec fn without_leading(s: Seq<char>) -> Seq<char>
    decreases s.len(),
{
    if s.len() > 0 && white_space(s[0]) {
        without_leading(s.drop_first())
    } else {
        s
    }
}

/// A text without its trailing white space.
pub open spec fn without_trailing(s: Seq<char>) -> Seq<char>
    decreases s.len(),
{
    if s.len() > 0 && white_space(s.last()) {
        without_trailing(s.drop_last())
    } else {
        s
    }
}

/// A text without its leading and trailing white space.
pub open spec fn trimmed(s: Seq<char>) -> Seq<char> {
    without_trailing(without_leading(s))
}

/// The characters of a text.
pub fn chars_of(s: &str) -> (v: Vec<char>)
    ensures
        v@ == s@,
{
    let mut v: Vec<char> = Vec::new();
    for c in it: s.chars()
        invariant
            v@ == it.seq().take(it.index() as int),
            it.seq() == s@,
    {
        v.push(c);
    }
    v
}

/// The text of a slice of characters.
pub fn text_of(chars: &[char]) -> (s: String)
    ensures
        s@ == chars@,
{
    let mut s = String::new();
    let mut i: usize = 0;
    while i < chars.len()
        invariant
            i <= chars.len(),
            s@ == chars@.take(i as int),
        decreases chars.len() - i,
    {
        s.push(chars[i]);
        i += 1;
    }
    assert(chars@.take(chars@.len() as int) == chars@);
    s
}

/// Do two texts hold the same characters?
pub fn same_text(a: &str, b: &str) -> (r: bool)
    ensures
        r == (a@ == b@),
{
    a.to_owned() == b.to_owned()
}

/// Appends `tail` to `head`.
pub fn join(head: String, tail: &str) -> (r: String)
    ensures
        r@ == head@ + tail@,
{
    let mut r = head;
    r.append(tail);
    r
}

fn leading_white_space(v: &[char]) -> (n: usize)
    ensures
        n <= v@.len(),
        without_leading(v@) == v@.skip(n as int),
{
    let mut n: usize = 0;
    assert(v@.skip(0) == v@);
    while n < v.len() && is_white_space(v[n])
        invariant
            n <= v@.len(),
            without_leading(v@) == without_leading(v@.skip(n as int)),
        decreases v@.len() - n,
    {
        assert(v@.skip(n as int).drop_first() == v@.skip(n + 1));
        n += 1;
    }
    n
}

/// The text after its leading white space.
pub fn trim_start(s: &str) -> (r: String)
    ensures
        r@ == without_leading(s@),
{
    let v = chars_of(s);
    let n: usize = leading_white_space(&v);
    let len: usize = v.len();
    let rest = vstd::slice::slice_subrange(v.as_slice(), n, len);
    assert(rest@ == v@.skip(n as int));
    text_of(rest)
}

/// The text between its leading and trailing white space.
pub fn trim(s: &str) -> (r: String)
    ensures
        r@ == trimmed(s@),
{
    let v = chars_of(s);
    let n: usize = leading_white_space(&v);
    let mut end: usize = v.len();
    let ghost rest = v@.skip(n as int);
    assert(rest.take(end - n) == rest);
    while end > n && is_white_space(v[end - 1])
        invariant
            n <= end <= v@.len(),
            rest == v@.skip(n as int),
            without_trailing(rest) == without_trailing(rest.take(end - n)),
        decreases end,
    {
        assert(rest.take(end - n).drop_last() == rest.take(end - n - 1));
        assert(rest.take(end - n).last() == v@[end - 1]);
        end -= 1;
    }
    let kept = vstd::slice::slice_subrange(v.as_slice(), n, end);
    assert(kept@ == rest.take(end - n));
    text_of(kept)
}

/// The text that names are looked up by: without surrounding white space, in lower case.
pub open spec fn folded(s: Seq<char>) -> Seq<char> {
    lowercase(trimmed(s))
}

/// What `folded` is for a text of ASCII characters.
pub open spec fn ascii_folded(s: Seq<char>) -> Seq<char> {
    trimmed(s).map_values(|c: char| ascii_lower(c))
}

/// The text that names are looked up by.
pub fn fold(s: &str) -> (r: String)
    ensures
        r@ == folded(s@),
        is_ascii_text(trimmed(s@)) ==> folded(s@) == ascii_folded(s@) && r@ == ascii_folded(s@),
{
    let t = trim(s);
    to_lowercase(t.as_str())
}

/// The character for one digit, `0` to `9` and then `a` to `f`.
pub open spec fn digit(d: int) -> char {
    if d < 10 {
        (48 + d) as char
    } else {
        (87 + d) as char
    }
}

fn digit_char(d: u8) -> (c: char)
    requires
        d < 16,
    ensures
        c == digit(d as int),
{
    if d < 10 {
        (48u8 + d) as char
    } else {
        (87u8 + d) as char
    }
}

/// A number in decimal, without leading zeros.
pub open spec fn decimal_text(n: nat) -> Seq<char>
    decreases n,
{
    if n < 10 {
        seq![digit(n as int)]
    } else {
        decimal_text(n / 10).push(digit((n % 10) as int))
    }
}

/// A number in decimal.
pub fn decimal(n: u64) -> (s: String)
    ensures
        s@ == decimal_text(n as nat),
    decreases n,
{
    if n < 10 {
        let mut s = String::new();
        s.push(digit_char(n as u8));
        assert(s@ == seq![digit(n as int)]);
        s
    } else {
        let mut s = decimal(n / 10);
        s.push(digit_char((n % 10) as u8));
        s
    }
}

/// The low `len` hexadecimal digits of a number, most significant first.
pub open spec fn hex_text(n: nat, len: nat) -> Seq<char>
    decreases len,
{
    if len == 0 {
        Seq::empty()
    } else {
        hex_text(n / 16, (len - 1) as nat).push(digit((n % 16) as int))
    }
}

/// The low `len` hexadecimal digits of a number.
pub fn hex(n: u64, len: usize) -> (s: String)
    ensures
        s@ == hex_text(n as nat, len as nat),
    decreases len,
{
    if len == 0 {
        String::new()
    } else {
        let mut s = hex(n / 16, len - 1);
        s.push(digit_char((n % 16) as u8));
        s
    }
}

/// Numbers with the same low `len` digits differ by a multiple of sixteen to the power of `len`.
pub proof fn lemma_hex_text_tells_apart(a: nat, b: nat, len: nat) -> (k: int)
    requires
        hex_text(a, len) == hex_text(b, len),
    ensures
        a - b == k * vstd::arithmetic::power::pow(16, len),
    decreases len,
{
    reveal(vstd::arithmetic::power::pow);
    if len == 0 {
        a - b
    } else {
        let p = hex_text(a / 16, (len - 1) as nat);
        let q = hex_text(b / 16, (len - 1) as nat);
        assert(p.push(digit((a % 16) as int)).drop_last() == p);
        assert(q.push(digit((b % 16) as int)).drop_last() == q);
        assert(p.push(digit((a % 16) as int)).last() == digit((a % 16) as int));
        assert(q.push(digit((b % 16) as int)).last() == digit((b % 16) as int));
        assert(digit((a % 16) as int) as int == digit((b % 16) as int) as int);
        let k = lemma_hex_text_tells_apart(a / 16, b / 16, (len - 1) as nat);
        let below = vstd::arithmetic::power::pow(16, (len - 1) as nat);
        assert(16 * (k * below) == k * (16 * below)) by (nonlinear_arith);
        k
    }
}

/// `hex_text` has the asked length.
pub proof fn lemma_hex_text_len(n: nat, len: nat)
    ensures
        hex_text(n, len).len() == len,
    decreases len,
{
    if len > 0 {
        lemma_hex_text_len(n / 16, (len - 1) as nat);
    }
}

/// Are all characters decimal digits?
pub open spec fn all_digits(s: Seq<char>) -> bool {
    forall|i: int| 0 <= i < s.len() ==> '0' <= #[trigger] s[i] && s[i] <= '9'
}

/// The number that a sequence of decimal digits writes.
pub open spec fn digits_value(s: Seq<char>) -> nat
    decreases s.len(),
{
    if s.len() == 0 {
        0
    } else {
        digits_value(s.drop_last()) * 10 + (s.last() as int - 48) as nat
    }
}

/// The unsigned number that a text writes: decimal digits, at least one, after an optional
/// plus sign.
pub open spec fn unsigned_value(s: Seq<char>) -> Option<nat> {
    let body = if s.len() > 0 && s[0] == '+' {
        s.drop_first()
    } else {
        s
    };
    if body.len() > 0 && all_digits(body) {
        Some(digits_value(body))
    } else {
        None
    }
}

proof fn lemma_digits_value_grows(s: Seq<char>, n: int)
    requires
        all_digits(s),
        0 <= n <= s.len(),
    ensures
        digits_value(s.take(n)) <= digits_value(s),
    decreases s.len() - n,
{
    if n < s.len() {
        lemma_digits_value_grows(s, n + 1);
        assert(s.take(n + 1).drop_last() == s.take(n));
    } else {
        assert(s.take(n) == s);
    }
}

/// Reads an unsigned number that is at most `max`.
fn parse_up_to(s: &str, max: u64) -> (r: Option<u64>)
    ensures
        match unsigned_value(s@) {
            Some(v) => if v <= max {
                r == Some(v as u64)
            } else {
                r is None
            },
            None => r is None,
        },
{
    let v = chars_of(s);
    let start: usize = if v.len() > 0 && v[0] == '+' {
        1
    } else {
        0
    };
    let ghost body = v@.skip(start as int);
    assert(start == 1 ==> body == s@.drop_first());
    assert(start == 0 ==> body == s@);
    if start == v.len() {
        return None;
    }
    let mut acc: u64 = 0;
    let mut i: usize = start;
    assert(body.take(0) == Seq::<char>::empty());
    while i < v.len()
        invariant
            start <= i <= v@.len(),
            body == v@.skip(start as int),
            body.len() > 0,
            unsigned_value(s@) == (if all_digits(body) {
                Some(digits_value(body))
            } else {
                None
            }),
            forall|j: int| 0 <= j < i - start ==> '0' <= #[trigger] body[j] && body[j] <= '9',
            acc as nat == digits_value(body.take(i - start)),
            acc <= max,
        decreases v@.len() - i,
    {
        let c = v[i];
        assert(c == body[i - start]);
        if c < '0' || c > '9' {
            return None;
        }
        let d: u64 = (c as u32 - 48) as u64;
        assert(body.take(i - start + 1).drop_last() == body.take(i - start));
        assert(digits_value(body.take(i - start + 1)) == acc * 10 + d);
        if acc > max / 10 || d > max - acc * 10 {
            proof {
                if all_digits(body) {
                    lemma_digits_value_grows(body, i - start + 1);
                }
            }
            return None;
        }
        acc = acc * 10 + d;
        i += 1;
    }
    assert(body.take(i - start) == body);
    Some(acc)
}

/// Reads a `u64`, as `str::parse` does.
pub fn parse_u64(s: &str) -> (r: Option<u64>)
    ensures
        match unsigned_value(s@) {
            Some(v) => if v <= u64::MAX {
                r == Some(v as u64)
            } else {
                r is None
            },
            None => r is None,
        },
{
    parse_up_to(s, u64::MAX)
}

/// Reads a `usize`, as `str::parse` does.
pub fn parse_usize(s: &str) -> (r: Option<usize>)
    ensures
        match unsigned_value(s@) {
            Some(v) => if v <= usize::MAX {
                r == Some(v as usize)
            } else {
                r is None
            },
            None => r is None,
        },
{
    match parse_up_to(s, usize::MAX as u64) {
        Some(v) => Some(v as usize),
        None => None,
    }
}

/// The characters between the pieces of a text: commas, semicolons and white space.
pub open spec fn separator(c: char) -> bool {
    c == ',' || c == ';' || white_space(c)
}

/// The non-empty pieces of a text between separators, in order. `word` is the piece that the
/// text before `s` left open.
pub open spec fn pieces(word: Seq<char>, s: Seq<char>) -> Seq<Seq<char>>
    decreases s.len(),
{
    if s.len() == 0 {
        if word.len() > 0 {
            seq![word]
        } else {
            Seq::empty()
        }
    } else if separator(s[0]) {
        if word.len() > 0 {
            seq![word] + pieces(Seq::empty(), s.drop_first())
        } else {
            pieces(Seq::empty(), s.drop_first())
        }
    } else {
        pieces(word.push(s[0]), s.drop_first())
    }
}

/// The characters of each string of a sequence.
pub open spec fn texts(v: Seq<String>) -> Seq<Seq<char>> {
    v.map_values(|s: String| s@)
}

/// The non-empty pieces of a text between commas, semicolons and white space.
pub fn split_pieces(s: &str) -> (r: Vec<String>)
    ensures
        texts(r@) == pieces(Seq::empty(), s@),
{
    let v = chars_of(s);
    let mut r: Vec<String> = Vec::new();
    let mut word = String::new();
    let mut started: bool = false;
    let mut i: usize = 0;
    assert(v@.skip(0) == v@);
    assert(texts(r@) + pieces(word@, v@.skip(0)) == pieces(Seq::empty(), s@));
    while i < v.len()
        invariant
            i <= v@.len(),
            v@ == s@,
            started == (word@.len() > 0),
            texts(r@) + pieces(word@, v@.skip(i as int)) == pieces(Seq::empty(), s@),
        decreases v@.len() - i,
    {
        let c = v[i];
        let ghost rest = v@.skip(i as int);
        assert(rest.drop_first() == v@.skip(i + 1));
        assert(rest[0] == c);
        let ghost before = r@;
        let ghost tail = pieces(Seq::empty(), rest.drop_first());
        if c == ',' || c == ';' || is_white_space(c) {
            if started {
                let ghost w = word@;
                r.push(word);
                word = String::new();
                started = false;
                assert(texts(r@) == texts(before).push(w));
                assert(texts(before) + (seq![w] + tail) == texts(r@) + tail);
                assert(word@ == Seq::<char>::empty());
            } else {
                assert(word@ == Seq::<char>::empty());
            }
        } else {
            word.push(c);
            started = true;
        }
        i += 1;
    }
    assert(v@.skip(i as int) == Seq::<char>::empty());
    if started {
        let ghost before = r@;
        let ghost w = word@;
        r.push(word);
        assert(texts(r@) == texts(before) + seq![w]);
    } else {
        assert(pieces(word@, v@.skip(i as int)) == Seq::<Seq<char>>::empty());
    }
    r
}

} // verus!
