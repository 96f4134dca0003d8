//! Plain text helpers the rest of the library builds on: splitting a
//! subject line into whitespace-separated words, rendering unsigned
//! numbers in decimal, zero-padding, and character-wise string equality.

use vstd::prelude::*;

verus! {

/// The Unicode white-space characters: the set `str::split_whitespace`
/// separates on.
pub open spec fn is_space_char(c: char) -> bool {
    c == '\u{0009}' || c == '\u{000A}' || c == '\u{000B}' || c == '\u{000C}'
        || c == '\u{000D}' || c == ' ' || c == '\u{0085}' || c == '\u{00A0}'
        || c == '\u{1680}' || c == '\u{2000}' || c == '\u{2001}' || c == '\u{2002}'
        || c == '\u{2003}' || c == '\u{2004}' || c == '\u{2005}' || c == '\u{2006}'
        || c == '\u{2007}' || c == '\u{2008}' || c == '\u{2009}' || c == '\u{200A}'
        || c == '\u{2028}' || c == '\u{2029}' || c == '\u{202F}' || c == '\u{205F}'
        || c == '\u{3000}'
}

pub fn is_space(c: char) -> (r: bool)
    ensures
        r == is_space_char(c),
{
    c == '\u{0009}' || c == '\u{000A}' || c == '\u{000B}' || c == '\u{000C}'
        || c == '\u{000D}' || c == ' ' || c == '\u{0085}' || c == '\u{00A0}'
        || c == '\u{1680}' || c == '\u{2000}' || c == '\u{2001}' || c == '\u{2002}'
        || c == '\u{2003}' || c == '\u{2004}' || c == '\u{2005}' || c == '\u{2006}'
        || c == '\u{2007}' || c == '\u{2008}' || c == '\u{2009}' || c == '\u{200A}'
        || c == '\u{2028}' || c == '\u{2029}' || c == '\u{202F}' || c == '\u{205F}'
        || c == '\u{3000}'
}

/// The words remaining in `s`, given that the characters of an unfinished
/// word `cur` have already been read.
pub open spec fn split_ws_at(s: Seq<char>, cur: Seq<char>) -> Seq<Seq<char>>
    decreases s.len(),
{
    if s.len() == 0 {
        if cur.len() > 0 {
            seq![cur]
        } else {
            Seq::empty()
        }
    } else if is_space_char(s[0]) {
        if cur.len() > 0 {
            seq![cur] + split_ws_at(s.subrange(1, s.len() as int), Seq::empty())
        } else {
            split_ws_at(s.subrange(1, s.len() as int), Seq::empty())
        }
    } else {
        split_ws_at(s.subrange(1, s.len() as int), cur.push(s[0]))
    }
}

/// The whitespace-separated words of `s`, in order, each non-empty and
/// free of white space.
pub open spec fn words_of(s: Seq<char>) -> Seq<Seq<char>> {
    split_ws_at(s, Seq::empty())
}

/// Splits `s` into its whitespace-separated words.
pub fn split_words(s: &str) -> (r: Vec<String>)
    ensures
        r@.map_values(|w: String| w@) == words_of(s@),
{
    let n = s.unicode_len();
    let mut out: Vec<String> = Vec::new();
    let mut i: usize = 0;
    let mut start: usize = 0;
    let mut in_word: bool = false;
    proof {
        assert(s@.subrange(0, n as int) =~= s@);
    }
    while i < n
        invariant
            n == s@.len(),
            i <= n,
            in_word ==> start < i,
            in_word ==> out@.map_values(|w: String| w@) + split_ws_at(
                s@.subrange(i as int, n as int),
                s@.subrange(start as int, i as int),
            ) == words_of(s@),
            !in_word ==> out@.map_values(|w: String| w@) + split_ws_at(
                s@.subrange(i as int, n as int),
                Seq::empty(),
            ) == words_of(s@),
        decreases n - i,
    {
        let ghost rem = s@.subrange(i as int, n as int);
        proof {
            assert(rem[0] == s@[i as int]);
            assert(rem.subrange(1, rem.len() as int) =~= s@.subrange(i + 1, n as int));
        }
        let c = s.get_char(i);
        if is_space(c) {
            if in_word {
                let ghost cur = s@.subrange(start as int, i as int);
                let w = s.substring_char(start, i);
                let word = String::from_str(w);
                proof {
                    assert(split_ws_at(rem, cur) =~~= seq![cur] + split_ws_at(
                        s@.subrange(i + 1, n as int),
                        Seq::empty(),
                    ));
                    assert(out@.push(word).map_values(|x: String| x@) =~~= out@.map_values(
                        |x: String| x@,
                    ).push(cur));
                }
                out.push(word);
                in_word = false;
            }
        } else {
            if !in_word {
                start = i;
                in_word = true;
                proof {
                    assert(s@.subrange(start as int, i + 1) =~= Seq::empty().push(s@[i as int]));
                }
            } else {
                proof {
                    assert(s@.subrange(start as int, i + 1) =~= s@.subrange(
                        start as int,
                        i as int,
                    ).push(s@[i as int]));
                }
            }
        }
        i = i + 1;
    }
    if in_word {
        let ghost cur = s@.subrange(start as int, n as int);
        let w = s.substring_char(start, n);
        let word = String::from_str(w);
        proof {
            assert(s@.subrange(n as int, n as int) =~= Seq::<char>::empty());
            assert(split_ws_at(s@.subrange(n as int, n as int), cur) =~~= seq![cur]);
            assert(out@.push(word).map_values(|x: String| x@) =~~= out@.map_values(
                |x: String| x@,
            ).push(cur));
        }
        out.push(word);
    } else {
        proof {
            assert(s@.subrange(n as int, n as int) =~= Seq::<char>::empty());
        }
    }
    out
}

/// The character for one decimal digit.
pub open spec fn digit_char(d: int) -> char {
    if d == 0 {
        '0'
    } else if d == 1 {
        '1'
    } else if d == 2 {
        '2'
    } else if d == 3 {
        '3'
    } else if d == 4 {
        '4'
    } else if d == 5 {
        '5'
    } else if d == 6 {
        '6'
    } else if d == 7 {
        '7'
    } else if d == 8 {
        '8'
    } else {
        '9'
    }
}

/// The decimal rendering of `n`, most significant digit first, with no
/// leading zeroes (a single `'0'` for zero itself).
pub open spec fn dec_digits(n: nat) -> Seq<char>
    decreases n,
{
    if n < 10 {
        seq![digit_char(n as int)]
    } else {
        dec_digits(n / 10).push(digit_char((n % 10) as int))
    }
}

/// One decimal digit as text.
fn digit_str(d: u64) -> (r: &'static str)
    requires
        d < 10,
    ensures
        r@ =~= seq![digit_char(d as int)],
{
    let r: &'static str = if d == 0 {
        "0"
    } else if d == 1 {
        "1"
    } else if d == 2 {
        "2"
    } else if d == 3 {
        "3"
    } else if d == 4 {
        "4"
    } else if d == 5 {
        "5"
    } else if d == 6 {
        "6"
    } else if d == 7 {
        "7"
    } else if d == 8 {
        "8"
    } else {
        "9"
    };
    proof {
        reveal_strlit("0");
        reveal_strlit("1");
        reveal_strlit("2");
        reveal_strlit("3");
        reveal_strlit("4");
        reveal_strlit("5");
        reveal_strlit("6");
        reveal_strlit("7");
        reveal_strlit("8");
        reveal_strlit("9");
    }
    r
}

/// The digit characters of `ds`, read back to front.
spec fn rev_digit_chars(ds: Seq<u64>) -> Seq<char> {
    Seq::new(ds.len(), |j: int| digit_char(ds[ds.len() - 1 - j] as int))
}

/// Renders `n` in decimal.
pub fn u64_to_string(n: u64) -> (r: String)
    ensures
        r@ == dec_digits(n as nat),
        r@.len() >= 1,
{
    let mut low: Vec<u64> = Vec::new();
    let mut m: u64 = n;
    while m >= 10
        invariant
            dec_digits(n as nat) == dec_digits(m as nat) + rev_digit_chars(low@),
            forall|j: int| 0 <= j < low@.len() ==> low@[j] < 10,
        decreases m,
    {
        let d = m % 10;
        proof {
            assert(rev_digit_chars(low@.push(d)) =~= seq![digit_char(d as int)] + rev_digit_chars(
                low@,
            ));
            assert(dec_digits(m as nat) =~= dec_digits((m as nat) / 10).push(
                digit_char(((m as nat) % 10) as int),
            ));
            assert(dec_digits(n as nat) =~= dec_digits((m / 10) as nat) + rev_digit_chars(
                low@.push(d),
            ));
        }
        low.push(d);
        m = m / 10;
    }
    let mut r = String::new();
    r.append(digit_str(m));
    let ghost first = seq![digit_char(m as int)];
    assert(r@ =~= first + rev_digit_chars(low@).take(0));
    let mut k = low.len();
    while k > 0
        invariant
            k <= low@.len(),
            dec_digits(n as nat) == dec_digits(m as nat) + rev_digit_chars(low@),
            m < 10,
            first == seq![digit_char(m as int)],
            forall|j: int| 0 <= j < low@.len() ==> low@[j] < 10,
            r@ == first + rev_digit_chars(low@).take(low@.len() - k),
        decreases k,
    {
        k = k - 1;
        let d = low[k];
        r.append(digit_str(d));
        proof {
            assert(rev_digit_chars(low@).take(low@.len() - k) =~= rev_digit_chars(low@).take(
                low@.len() - (k + 1),
            ).push(digit_char(low@[k as int] as int)));
        }
    }
    proof {
        assert(rev_digit_chars(low@).take(low@.len() as int) =~= rev_digit_chars(low@));
        assert(dec_digits(m as nat) =~= first);
        assert(r@ =~= dec_digits(n as nat));
    }
    r
}

/// A run of `k` zero characters (none when `k` is not positive).
pub open spec fn zeros(k: int) -> Seq<char> {
    Seq::new(if k > 0 { k as nat } else { 0 }, |j: int| '0')
}

/// Renders `n` in decimal, left-padded with zeroes to at least `width`
/// characters.
pub fn pad_u64(n: u64, width: usize) -> (r: String)
    ensures
        r@ == zeros(width - dec_digits(n as nat).len()) + dec_digits(n as nat),
{
    let s = u64_to_string(n);
    let len = s.unicode_len();
    let mut r = String::new();
    let mut k = len;
    proof {
        assert(r@ =~= zeros(0));
    }
    while k < width
        invariant
            len <= k,
            k <= width || k == len,
            len == dec_digits(n as nat).len(),
            r@ == zeros(k - len),
        decreases width - k,
    {
        r.append("0");
        k = k + 1;
        proof {
            reveal_strlit("0");
            assert(r@ =~= zeros(k - len));
        }
    }
    r.append(s.as_str());
    proof {
        assert(zeros(k - len) =~= zeros(width - len));
        assert(r@ =~= zeros(width - dec_digits(n as nat).len()) + dec_digits(n as nat));
    }
    r
}

/// Character-wise equality of two strings.
pub fn str_eq(a: &str, b: &str) -> (r: bool)
    ensures
        r == (a@ == b@),
{
    let n = a.unicode_len();
    if n != b.unicode_len() {
        return false;
    }
    let mut i: usize = 0;
    while i < n
        invariant
            i <= n,
            n == a@.len(),
            n == b@.len(),
            forall|j: int| 0 <= j < i ==> a@[j] == b@[j],
        decreases n - i,
    {
        if a.get_char(i) != b.get_char(i) {
            return false;
        }
        i = i + 1;
    }
    proof {
        assert(a@ =~= b@);
    }
    true
}

} // verus!
