//! What the operations on text do: trimming, lower case, numbers written and read, and the pieces
//! between separators.
use vstd::arithmetic::power::pow;
use vstd::prelude::*;

verus! {

/// White space is the tab to the carriage return, the space, the next line, the no-break space
/// and the spaces and breaks beyond Latin, and nothing else.
pub proof fn law_white_space(c: char, r: bool)
    requires
        call_ensures(crate::text::is_white_space, (c,), r),
    ensures
        r == crate::text::white_space(c),
        ({
            let n = c as int;
            r <==> n == 9 || n == 10 || n == 11 || n == 12 || n == 13 || n == 32 || n == 133 || n
                == 160 || n == 5760 || 8192 <= n <= 8202 || n == 8232 || n == 8233 || n == 8239 || n
                == 8287 || n == 12288
        }),
{
}

proof fn lemma_leading(s: Seq<char>) -> (n: int)
    ensures
        0 <= n <= s.len(),
        crate::text::without_leading(s) == s.skip(n),
        forall|i: int| 0 <= i < n ==> crate::text::white_space(#[trigger] s[i]),
        n < s.len() ==> !crate::text::white_space(s[n]),
    decreases s.len(),
{
    if s.len() > 0 && crate::text::white_space(s[0]) {
        let rest = s.drop_first();
        let m = lemma_leading(rest);
        assert(rest.skip(m) =~= s.skip(m + 1));
        assert forall|i: int| 0 <= i < m + 1 implies crate::text::white_space(
            #[trigger] s[i],
        ) by {
            if i > 0 {
                assert(rest[i - 1] == s[i]);
            }
        }
        m + 1
    } else {
        assert(s.skip(0) =~= s);
        0
    }
}

proof fn lemma_trailing(s: Seq<char>) -> (n: int)
    ensures
        0 <= n <= s.len(),
        crate::text::without_trailing(s) == s.take(n),
        forall|i: int| n <= i < s.len() ==> crate::text::white_space(#[trigger] s[i]),
        n > 0 ==> !crate::text::white_space(s[n - 1]),
    decreases s.len(),
{
    if s.len() > 0 && crate::text::white_space(s.last()) {
        let rest = s.drop_last();
        let m = lemma_trailing(rest);
        assert(rest.take(m) =~= s.take(m));
        assert forall|i: int| m <= i < s.len() implies crate::text::white_space(
            #[trigger] s[i],
        ) by {
            if i < s.len() - 1 {
                assert(rest[i] == s[i]);
            }
        }
        m
    } else {
        assert(s.take(s.len() as int) =~= s);
        s.len() as int
    }
}

/// A text trimmed at its start is what follows its leading white space, all of it: it does not
/// begin with white space.
pub proof fn law_trim_start(s: &str, r: String) -> (n: int)
    requires
        call_ensures(crate::text::trim_start, (s,), r),
    ensures
        0 <= n <= s@.len(),
        r@ == s@.skip(n),
        forall|i: int| 0 <= i < n ==> crate::text::white_space(#[trigger] s@[i]),
        r@.len() > 0 ==> !crate::text::white_space(r@[0]),
{
    lemma_leading(s@)
}

/// A trimmed text is what lies between the white space at its two ends, all of it: it neither
/// begins nor ends with white space.
pub proof fn law_trim(s: &str, r: String) -> (ends: (int, int))
    requires
        call_ensures(crate::text::trim, (s,), r),
    ensures
        0 <= ends.0 <= ends.1 <= s@.len(),
        r@ == s@.subrange(ends.0, ends.1),
        forall|i: int|
            0 <= i < ends.0 || ends.1 <= i < s@.len() ==> crate::text::white_space(
                #[trigger] s@[i],
            ),
        r@.len() > 0 ==> !crate::text::white_space(r@[0]) && !crate::text::white_space(r@.last()),
{
    let n = lemma_leading(s@);
    let rest = s@.skip(n);
    let m = lemma_trailing(rest);
    assert(rest.take(m) =~= s@.subrange(n, n + m));
    assert forall|i: int| 0 <= i < n || n + m <= i < s@.len() implies crate::text::white_space(
        #[trigger] s@[i],
    ) by {
        if i >= n + m {
            assert(rest[i - n] == s@[i]);
        }
    }
    if m > 0 {
        assert(rest[0] == s@[n]);
    }
    (n, n + m)
}

/// The text that names are looked up by is the trimmed text in lower case: of ASCII characters,
/// each letter in its lower case and every other as it is.
pub proof fn law_fold(s: &str, t: String, r: String, i: int)
    requires
        call_ensures(crate::text::trim, (s,), t),
        call_ensures(crate::text::fold, (s,), r),
        forall|j: int| 0 <= j < t@.len() ==> (#[trigger] t@[j] as int) < 128,
        0 <= i < t@.len(),
    ensures
        r@.len() == t@.len(),
        65 <= t@[i] as int <= 90 ==> r@[i] as int == t@[i] as int + 32,
        !(65 <= t@[i] as int <= 90) ==> r@[i] == t@[i],
{
    assert(crate::text::is_ascii_text(crate::text::trimmed(s@)));
}

/// A number is written with decimal digits alone, without a leading zero unless it is zero, and
/// its text reads back as the number.
pub proof fn law_decimal_reads_back(n: u64, s: String, t: &str, r: Option<u64>)
    requires
        call_ensures(crate::text::decimal, (n,), s),
        t@ == s@,
        call_ensures(crate::text::parse_u64, (t,), r),
    ensures
        r == Some(n),
        s@.len() > 0,
        forall|i: int| 0 <= i < s@.len() ==> 48 <= #[trigger] s@[i] as int <= 57,
        n > 0 ==> s@[0] as int != 48,
        n == 0 ==> s@.len() == 1,
{
    lemma_decimal(n as nat);
}

proof fn lemma_decimal(n: nat)
    ensures
        crate::text::decimal_text(n).len() > 0,
        n > 0 ==> crate::text::decimal_text(n)[0] as int != 48,
        n == 0 ==> crate::text::decimal_text(n).len() == 1,
        crate::text::all_digits(crate::text::decimal_text(n)),
        crate::text::digits_value(crate::text::decimal_text(n)) == n,
    decreases n,
{
    let t = crate::text::decimal_text(n);
    reveal_with_fuel(crate::text::digits_value, 2);
    if n < 10 {
        assert(t.drop_last() =~= Seq::<char>::empty());
    } else {
        lemma_decimal(n / 10);
        assert(t.drop_last() =~= crate::text::decimal_text(n / 10));
    }
}

/// An unsigned number is read from its digits: one digit is its value, and one more digit behind
/// gives ten times the number and the digit, where that fits.
pub proof fn law_numbers_grow_by_digits(
    s: &str,
    t: &str,
    c: char,
    v: Option<u64>,
    w: Option<u64>,
)
    requires
        call_ensures(crate::text::parse_u64, (s,), v),
        call_ensures(crate::text::parse_u64, (t,), w),
        forall|i: int| 0 <= i < s@.len() ==> 48 <= #[trigger] s@[i] as int <= 57,
        t@ == s@.push(c),
    ensures
        s@.len() == 0 ==> v is None,
        s@.len() == 0 && 48 <= c as int <= 57 ==> w == Some((c as int - 48) as u64),
        48 <= c as int <= 57 && v is Some && v->0 * 10 + (c as int - 48) <= u64::MAX ==> w == Some(
            (v->0 * 10 + (c as int - 48)) as u64,
        ),
        48 <= c as int <= 57 && v is Some && v->0 * 10 + (c as int - 48) > u64::MAX ==> w is None,
        s@.len() > 0 && v is None ==> w is None,
        !(48 <= c as int <= 57) ==> w is None,
{
    reveal_with_fuel(crate::text::digits_value, 2);
    assert(t@.drop_last() =~= s@);
    assert(crate::text::all_digits(s@));
    assert(t@.last() == c);
    if 48 <= c as int <= 57 {
        assert(t@[0] as int >= 48) by {
            if s@.len() > 0 {
                assert(t@[0] == s@[0]);
            }
        }
        assert(crate::text::all_digits(t@)) by {
            assert forall|i: int| 0 <= i < t@.len() implies '0' <= #[trigger] t@[i] && t@[i]
                <= '9' by {
                if i < s@.len() {
                    assert(t@[i] == s@[i]);
                }
            }
        }
    } else {
        if s@.len() > 0 {
            assert(t@[0] == s@[0]);
            assert(t@[s@.len() as int] == c);
        } else {
            assert(t@[0] == c);
            assert(t@.drop_first() =~= Seq::<char>::empty());
        }
    }
}

/// A plus sign before digits changes nothing; a sign before a sign, or any text with something
/// but digits behind its first character, is no number.
pub proof fn law_sign_of_numbers(s: &str, t: &str, v: Option<u64>, w: Option<u64>)
    requires
        call_ensures(crate::text::parse_u64, (s,), v),
        call_ensures(crate::text::parse_u64, (t,), w),
        t@ == seq!['+'] + s@,
    ensures
        (s@.len() == 0 || s@[0] != '+') ==> v == w,
        s@.len() > 0 && s@[0] == '+' ==> w is None,
        (exists|i: int| 0 < i < s@.len() && !(48 <= #[trigger] s@[i] as int <= 57)) ==> v is None,
{
    assert(t@.drop_first() =~= s@);
    if exists|i: int| 0 < i < s@.len() && !(48 <= #[trigger] s@[i] as int <= 57) {
        let i = choose|i: int| 0 < i < s@.len() && !(48 <= #[trigger] s@[i] as int <= 57);
        assert(s@.drop_first()[i - 1] == s@[i]);
    }
}

/// A size is read as the number is, where it fits.
pub proof fn law_sizes_are_numbers(s: &str, v: Option<u64>, r: Option<usize>)
    requires
        call_ensures(crate::text::parse_u64, (s,), v),
        call_ensures(crate::text::parse_usize, (s,), r),
    ensures
        v is Some && v->0 <= usize::MAX ==> r == Some(v->0 as usize),
        v is None || v->0 > usize::MAX ==> r is None,
{
}

/// The digits of a number in hexadecimal: as many as were asked for, the last for what is left of
/// sixteens, each before it for the number divided by sixteen once more.
pub proof fn law_hex(n: u64, len: usize, s: String, i: int)
    requires
        call_ensures(crate::text::hex, (n, len), s),
        0 <= i < len,
    ensures
        s@.len() == len,
        ({
            let d = (n as int / pow(16, (len - 1 - i) as nat)) % 16;
            s@[i] as int == (if d < 10 {
                48 + d
            } else {
                97 + (d - 10)
            })
        }),
{
    crate::text::lemma_hex_text_len(n as nat, len as nat);
    lemma_hex(n as nat, len as nat, i);
}

proof fn lemma_hex(n: nat, len: nat, i: int)
    requires
        0 <= i < len,
    ensures
        ({
            let d = (n as int / pow(16, (len - 1 - i) as nat)) % 16;
            crate::text::hex_text(n, len)[i] as int == (if d < 10 {
                48 + d
            } else {
                97 + (d - 10)
            })
        }),
    decreases len,
{
    let below = (len - 1) as nat;
    crate::text::lemma_hex_text_len(n / 16, below);
    vstd::arithmetic::power::lemma_pow0(16);
    if i < below {
        lemma_hex(n / 16, below, i);
        let k = (len - 2 - i) as nat;
        reveal(pow);
        assert(pow(16, k + 1) == 16 * pow(16, k));
        vstd::arithmetic::power::lemma_pow_positive(16, k);
        vstd::arithmetic::div_mod::lemma_div_denominator(n as int, 16, pow(16, k));
    }
}

/// No piece of a text is empty or holds a separator: a comma, a semicolon or white space.
pub proof fn law_pieces_hold_no_separator(s: &str, r: Vec<String>, i: int, j: int)
    requires
        call_ensures(crate::text::split_pieces, (s,), r),
        0 <= i < r@.len(),
        0 <= j < r@[i]@.len(),
    ensures
        r@[i]@[j] != ',',
        r@[i]@[j] != ';',
        !crate::text::white_space(r@[i]@[j]),
{
    lemma_pieces(Seq::empty(), s@, i);
    assert(crate::text::texts(r@)[i] == r@[i]@);
}

proof fn lemma_pieces(word: Seq<char>, s: Seq<char>, i: int)
    requires
        forall|j: int| 0 <= j < word.len() ==> !crate::text::separator(#[trigger] word[j]),
        0 <= i < crate::text::pieces(word, s).len(),
    ensures
        crate::text::pieces(word, s)[i].len() > 0,
        forall|j: int|
            0 <= j < crate::text::pieces(word, s)[i].len() ==> !crate::text::separator(
                #[trigger] crate::text::pieces(word, s)[i][j],
            ),
    decreases s.len(),
{
    if s.len() > 0 {
        if crate::text::separator(s[0]) {
            if word.len() == 0 {
                lemma_pieces(Seq::empty(), s.drop_first(), i);
            } else if i > 0 {
                lemma_pieces(Seq::empty(), s.drop_first(), i - 1);
            }
        } else {
            lemma_pieces(word.push(s[0]), s.drop_first(), i);
        }
    }
}

/// A text without a separator is its only piece, and an empty text has none.
pub proof fn law_word_is_its_only_piece(s: &str, r: Vec<String>)
    requires
        call_ensures(crate::text::split_pieces, (s,), r),
        forall|j: int|
            0 <= j < s@.len() ==> #[trigger] s@[j] != ',' && s@[j] != ';'
                && !crate::text::white_space(s@[j]),
    ensures
        s@.len() == 0 ==> r@.len() == 0,
        s@.len() > 0 ==> r@.len() == 1 && r@[0]@ == s@,
{
    lemma_word(Seq::empty(), s@);
    assert(Seq::<char>::empty() + s@ =~= s@);
    assert(crate::text::texts(r@).len() == r@.len());
    if s@.len() > 0 {
        assert(crate::text::pieces(Seq::empty(), s@) == seq![s@]);
        assert(crate::text::texts(r@)[0] == r@[0]@);
    }
}

proof fn lemma_word(word: Seq<char>, s: Seq<char>)
    requires
        forall|j: int| 0 <= j < s.len() ==> !crate::text::separator(#[trigger] s[j]),
    ensures
        word.len() + s.len() == 0 ==> crate::text::pieces(word, s).len() == 0,
        word.len() + s.len() > 0 ==> crate::text::pieces(word, s) == seq![word + s],
    decreases s.len(),
{
    if s.len() > 0 {
        let rest = s.drop_first();
        assert forall|j: int| 0 <= j < rest.len() implies !crate::text::separator(
            #[trigger] rest[j],
        ) by {
            assert(rest[j] == s[j + 1]);
        }
        lemma_word(word.push(s[0]), rest);
        assert(word.push(s[0]) + rest =~= word + s);
    } else {
        assert(word + s =~= word);
    }
}

/// The pieces of two texts with a separator between them are those of the first and then those of
/// the second.
pub proof fn law_pieces_of_a_joined_text(
    a: &str,
    b: &str,
    c: char,
    s: &str,
    r: Vec<String>,
    p: Vec<String>,
    q: Vec<String>,
)
    requires
        c == ',' || c == ';' || crate::text::white_space(c),
        s@ == a@ + seq![c] + b@,
        call_ensures(crate::text::split_pieces, (a,), p),
        call_ensures(crate::text::split_pieces, (b,), q),
        call_ensures(crate::text::split_pieces, (s,), r),
    ensures
        crate::text::texts(r@) == crate::text::texts(p@) + crate::text::texts(q@),
{
    lemma_pieces_join(Seq::empty(), a@, c, b@);
}

proof fn lemma_pieces_join(word: Seq<char>, a: Seq<char>, c: char, b: Seq<char>)
    requires
        crate::text::separator(c),
    ensures
        crate::text::pieces(word, a + seq![c] + b) == crate::text::pieces(word, a)
            + crate::text::pieces(Seq::empty(), b),
    decreases a.len(),
{
    let s = a + seq![c] + b;
    if a.len() == 0 {
        assert(s.drop_first() =~= b);
        assert(s[0] == c);
        assert(crate::text::pieces(word, s) =~= crate::text::pieces(word, a)
            + crate::text::pieces(Seq::empty(), b));
    } else {
        let rest = a.drop_first();
        assert(s.drop_first() =~= rest + seq![c] + b);
        assert(s[0] == a[0]);
        if crate::text::separator(a[0]) {
            lemma_pieces_join(Seq::empty(), rest, c, b);
            assert(crate::text::pieces(word, s) =~= crate::text::pieces(word, a)
                + crate::text::pieces(Seq::empty(), b));
        } else {
            lemma_pieces_join(word.push(a[0]), rest, c, b);
        }
    }
}

} // verus!
