//! Decimal numbers as text, and the splitting of text on a separator byte.

use vstd::prelude::*;
use vstd::string::StringExecFns;

verus! {

/// The character of the decimal digit `d`.
pub open spec fn digit_char(d: nat) -> char {
    if d == 0 {
        '0'
    } else if d == 1 {
        '1'
    } else if d == 2 {
        '2'
    } else if d == 3 {
        '3'
    } else if d == 4 {
        '4'
    } else if d == 5 {
        '5'
    } else if d == 6 {
        '6'
    } else if d == 7 {
        '7'
    } else if d == 8 {
        '8'
    } else {
        '9'
    }
}

/// `n` written in decimal, without leading zeros, as `to_string` writes it.
pub open spec fn decimal(n: nat) -> Seq<char>
    decreases n,
{
    if n < 10 {
        seq![digit_char(n)]
    } else {
        decimal(n / 10).push(digit_char(n % 10))
    }
}

fn digit_str(d: usize) -> (s: &'static str)
    requires
        d < 10,
    ensures
        s@ == seq![digit_char(d as nat)],
{
    if d == 0 {
        proof {
            reveal_strlit("0");
        }
        "0"
    } else if d == 1 {
        proof {
            reveal_strlit("1");
        }
        "1"
    } else if d == 2 {
        proof {
            reveal_strlit("2");
        }
        "2"
    } else if d == 3 {
        proof {
            reveal_strlit("3");
        }
        "3"
    } else if d == 4 {
        proof {
            reveal_strlit("4");
        }
        "4"
    } else if d == 5 {
        proof {
            reveal_strlit("5");
        }
        "5"
    } else if d == 6 {
        proof {
            reveal_strlit("6");
        }
        "6"
    } else if d == 7 {
        proof {
            reveal_strlit("7");
        }
        "7"
    } else if d == 8 {
        proof {
            reveal_strlit("8");
        }
        "8"
    } else {
        proof {
            reveal_strlit("9");
        }
        "9"
    }
}

/// `n` written in decimal.
pub fn decimal_string(n: usize) -> (s: String)
    ensures
        s@ == decimal(n as nat),
    decreases n,
{
    if n < 10 {
        digit_str(n).to_owned()
    } else {
        let mut s = decimal_string(n / 10);
        s.append(digit_str(n % 10));
        s
    }
}

/// The number that the decimal digit characters `s` denote.
pub open spec fn decimal_value(s: Seq<char>) -> int
    decreases s.len(),
{
    if s.len() == 0 {
        0
    } else {
        decimal_value(s.drop_last()) * 10 + (s.last() as int - 48)
    }
}

/// Whether the character `c` is a decimal digit.
pub open spec fn is_digit_char(c: char) -> bool {
    48 <= c as int <= 57
}

/// The decimal text of `n` is one or more digits that denote `n`.
pub proof fn lemma_decimal_digits(n: nat)
    ensures
        decimal(n).len() >= 1,
        forall|i: int| 0 <= i < decimal(n).len() ==> is_digit_char(#[trigger] decimal(n)[i]),
        decimal_value(decimal(n)) == n,
    decreases n,
{
    let d = n % 10;
    assert(digit_char(d) as int == 48 + d) by {
        assert(d < 10);
    }
    if n >= 10 {
        lemma_decimal_digits(n / 10);
        let s = decimal(n);
        assert(s.drop_last() =~= decimal(n / 10));
        assert(s.last() == digit_char(d));
        assert(decimal_value(s) == decimal_value(decimal(n / 10)) * 10 + (digit_char(d) as int - 48));
        assert(n == (n / 10) * 10 + n % 10);
    } else {
        let s = decimal(n);
        assert(s.drop_last() =~= Seq::<char>::empty());
        assert(decimal_value(s) == decimal_value(s.drop_last()) * 10 + (s.last() as int - 48));
        assert(decimal_value(s) == digit_char(d) as int - 48);
    }
}

/// Different numbers have different decimal texts.
pub proof fn lemma_decimal_injective(a: nat, b: nat)
    ensures
        decimal(a) == decimal(b) ==> a == b,
{
    lemma_decimal_digits(a);
    lemma_decimal_digits(b);
}

/// Whether the byte `b` is an ASCII decimal digit.
pub open spec fn is_digit(b: u8) -> bool {
    48 <= b <= 57
}

/// Whether every byte of `s` is a decimal digit.
pub open spec fn all_digits(s: Seq<u8>) -> bool {
    forall|i: int| 0 <= i < s.len() ==> is_digit(#[trigger] s[i])
}

/// The number that the decimal digits `s` denote, most significant first.
pub open spec fn digits_value(s: Seq<u8>) -> nat
    decreases s.len(),
{
    if s.len() == 0 {
        0
    } else {
        digits_value(s.drop_last()) * 10 + (s.last() - 48) as nat
    }
}

/// `s` without the one `+` sign that may lead it.
pub open spec fn unsigned_digits(s: Seq<u8>) -> Seq<u8> {
    if s.len() > 0 && s[0] == 43 {
        s.drop_first()
    } else {
        s
    }
}

/// The `u32` that the text `s` denotes, as `str::parse::<u32>` reads it:
/// an optional `+`, then one or more decimal digits, the value below 2^32.
pub open spec fn parse_u32(s: Seq<u8>) -> Option<u32> {
    let d = unsigned_digits(s);
    if d.len() > 0 && all_digits(d) && digits_value(d) <= u32::MAX {
        Some(digits_value(d) as u32)
    } else {
        None
    }
}

/// A longer run of digits is worth at least as much as its prefix.
pub proof fn lemma_digits_prefix(s: Seq<u8>, k: int)
    requires
        0 <= k <= s.len(),
        all_digits(s),
    ensures
        digits_value(s.subrange(0, k)) <= digits_value(s),
    decreases s.len(),
{
    if k < s.len() {
        let t = s.drop_last();
        assert(t.subrange(0, k) =~= s.subrange(0, k));
        lemma_digits_prefix(t, k);
    } else {
        assert(s.subrange(0, k) =~= s);
    }
}

/// The ASCII bytes of the characters `s`.
pub open spec fn ascii_bytes(s: Seq<char>) -> Seq<u8> {
    s.map_values(|c: char| c as u8)
}

/// Reading the decimal text of a number gives the number back.
pub proof fn law_parse_decimal(n: nat)
    requires
        n <= u32::MAX,
    ensures
        parse_u32(ascii_bytes(decimal(n))) == Some(n as u32),
{
    lemma_decimal_ascii(n);
    lemma_decimal_digits(n);
    let b = ascii_bytes(decimal(n));
    assert(b[0] != 43);
    assert(unsigned_digits(b) == b);
}

proof fn lemma_decimal_ascii(n: nat)
    ensures
        all_digits(ascii_bytes(decimal(n))),
        digits_value(ascii_bytes(decimal(n))) == n,
        ascii_bytes(decimal(n)).len() == decimal(n).len(),
        forall|i: int| 0 <= i < decimal(n).len() ==> #[trigger] ascii_bytes(decimal(n))[i] as int == decimal(n)[i] as int,
    decreases n,
{
    lemma_decimal_digits(n);
    let s = decimal(n);
    let b = ascii_bytes(s);
    assert forall|i: int| 0 <= i < s.len() implies #[trigger] b[i] as int == s[i] as int by {
        assert(is_digit_char(s[i]));
    }
    let d = n % 10;
    assert(digit_char(d) as int == 48 + d) by {
        assert(d < 10);
    }
    if n >= 10 {
        lemma_decimal_ascii(n / 10);
        assert(b.drop_last() =~= ascii_bytes(decimal(n / 10)));
        assert(s.last() == digit_char(d));
        assert(b.last() as int == 48 + d);
        assert(digits_value(b) == digits_value(b.drop_last()) * 10 + (b.last() - 48) as nat);
        assert(n == (n / 10) * 10 + n % 10);
    } else {
        assert(b.drop_last() =~= Seq::<u8>::empty());
        assert(b.last() as int == 48 + d);
        assert(digits_value(b) == digits_value(b.drop_last()) * 10 + (b.last() - 48) as nat);
    }
}

/// Reads the decimal `u32` that is the whole of `s`.
pub fn parse_u32_bytes(s: &[u8]) -> (r: Option<u32>)
    ensures
        r == parse_u32(s@),
{
    let len = s.len();
    let start: usize = if len > 0 && s[0] == 43 {
        1
    } else {
        0
    };
    let ghost d = unsigned_digits(s@);
    assert(d =~= s@.subrange(start as int, len as int));
    if start >= len {
        return None;
    }
    let mut acc: u64 = 0;
    let mut i: usize = start;
    while i < len
        invariant
            len == s@.len(),
            start < len,
            start <= i <= len,
            d == s@.subrange(start as int, len as int),
            d == unsigned_digits(s@),
            all_digits(s@.subrange(start as int, i as int)),
            acc as nat == digits_value(s@.subrange(start as int, i as int)),
            acc <= u32::MAX,
        decreases len - i,
    {
        let c = s[i];
        let ghost done = s@.subrange(start as int, i as int);
        let ghost next = s@.subrange(start as int, i + 1);
        assert(next.drop_last() =~= done);
        assert(d[i - start] == c);
        if c < 48 || c > 57 {
            assert(!is_digit(d[i - start]));
            return None;
        }
        acc = acc * 10 + (c - 48) as u64;
        assert(next.last() == c);
        assert(acc as nat == digits_value(next));
        assert(all_digits(next));
        if acc > 0xffff_ffff {
            proof {
                if all_digits(d) {
                    assert(d.subrange(0, i + 1 - start) =~= next);
                    lemma_digits_prefix(d, i + 1 - start);
                }
            }
            return None;
        }
        i = i + 1;
    }
    assert(s@.subrange(start as int, i as int) =~= d);
    Some(acc as u32)
}

/// The pieces of `s` between the occurrences of `sep`, as `str::split` gives
/// them for a one-character pattern: `k` separators make `k + 1` pieces.
pub open spec fn split_on(s: Seq<u8>, sep: u8) -> Seq<Seq<u8>>
    decreases s.len(),
{
    if s.len() == 0 {
        seq![Seq::empty()]
    } else {
        let rest = split_on(s.drop_first(), sep);
        if s[0] == sep {
            seq![Seq::<u8>::empty()] + rest
        } else {
            rest.update(0, seq![s[0]] + rest[0])
        }
    }
}

pub proof fn lemma_split_nonempty(s: Seq<u8>, sep: u8)
    ensures
        split_on(s, sep).len() >= 1,
    decreases s.len(),
{
    if s.len() > 0 {
        lemma_split_nonempty(s.drop_first(), sep);
    }
}

/// The pieces joined back together with `sep` between each two.
pub open spec fn join_with(pieces: Seq<Seq<u8>>, sep: u8) -> Seq<u8>
    decreases pieces.len(),
{
    if pieces.len() == 0 {
        Seq::empty()
    } else if pieces.len() == 1 {
        pieces[0]
    } else {
        pieces[0] + seq![sep] + join_with(pieces.drop_first(), sep)
    }
}

/// Splitting on `sep` cuts `s` exactly at its separators: no piece holds
/// `sep`, and joining the pieces with `sep` gives `s` back.
pub proof fn law_split_on(s: Seq<u8>, sep: u8)
    ensures
        join_with(split_on(s, sep), sep) == s,
        forall|k: int, i: int|
            0 <= k < split_on(s, sep).len() && 0 <= i < split_on(s, sep)[k].len() ==> #[trigger] split_on(
                s,
                sep,
            )[k][i] != sep,
    decreases s.len(),
{
    if s.len() == 0 {
    } else {
        let t = s.drop_first();
        let rest = split_on(t, sep);
        law_split_on(t, sep);
        lemma_split_nonempty(t, sep);
        let pieces = split_on(s, sep);
        if s[0] == sep {
            assert(pieces == seq![Seq::<u8>::empty()] + rest);
            assert(pieces.drop_first() =~= rest);
            assert(join_with(pieces, sep) =~= Seq::<u8>::empty() + seq![sep] + t);
            assert(s =~= seq![sep] + t);
            assert forall|k: int, i: int|
                0 <= k < pieces.len() && 0 <= i < pieces[k].len() implies #[trigger] pieces[k][i]
                != sep by {
                assert(pieces[k] == rest[k - 1]);
                assert(rest[k - 1][i] == split_on(t, sep)[k - 1][i]);
            }
        } else {
            let first = seq![s[0]] + rest[0];
            assert(pieces == rest.update(0, first));
            if rest.len() == 1 {
                assert(join_with(rest, sep) == rest[0]);
                assert(join_with(pieces, sep) == first);
                assert(s =~= first);
            } else {
                assert(pieces.drop_first() =~= rest.drop_first());
                assert(join_with(rest, sep) == rest[0] + seq![sep] + join_with(rest.drop_first(), sep));
                assert(join_with(pieces, sep) =~= seq![s[0]] + join_with(rest, sep));
                assert(s =~= seq![s[0]] + t);
            }
            assert forall|k: int, i: int|
                0 <= k < pieces.len() && 0 <= i < pieces[k].len() implies #[trigger] pieces[k][i]
                != sep by {
                if k == 0 {
                    if i > 0 {
                        assert(first[i] == rest[0][i - 1]);
                        assert(rest[0][i - 1] == split_on(t, sep)[0][i - 1]);
                    }
                } else {
                    assert(pieces[k] == rest[k]);
                    assert(rest[k][i] == split_on(t, sep)[k][i]);
                }
            }
        }
    }
}

/// Splits `s` into the pieces between the occurrences of `sep`.
pub fn split_bytes(s: &[u8], sep: u8) -> (pieces: Vec<Vec<u8>>)
    ensures
        pieces@.len() == split_on(s@, sep).len(),
        forall|k: int| 0 <= k < pieces@.len() ==> (#[trigger] pieces@[k])@ == split_on(s@, sep)[k],
{
    let len = s.len();
    let mut pieces: Vec<Vec<u8>> = Vec::new();
    let ghost mut done: Seq<Seq<u8>> = Seq::empty();
    let mut cur: Vec<u8> = Vec::new();
    let mut i: usize = 0;
    assert(s@.subrange(0, len as int) =~= s@);
    proof {
        let t = split_on(s@, sep);
        lemma_split_nonempty(s@, sep);
        assert(cur@ + t[0] =~= t[0]);
        assert(done + seq![cur@ + t[0]] + t.drop_first() =~= t);
    }
    while i < len
        invariant
            len == s@.len(),
            i <= len,
            pieces@.len() == done.len(),
            forall|k: int| 0 <= k < done.len() ==> (#[trigger] pieces@[k])@ == done[k],
            ({
                let tail = split_on(s@.subrange(i as int, len as int), sep);
                split_on(s@, sep) == done + seq![cur@ + tail[0]] + tail.drop_first()
            }),
        decreases len - i,
    {
        let c = s[i];
        let ghost here = s@.subrange(i as int, len as int);
        let ghost after = s@.subrange(i + 1, len as int);
        let ghost tail = split_on(after, sep);
        proof {
            assert(here.drop_first() =~= after);
            assert(here[0] == c);
            lemma_split_nonempty(after, sep);
        }
        if c == sep {
            let ghost old_cur = cur@;
            let piece = cur;
            pieces.push(piece);
            cur = Vec::new();
            proof {
                assert(split_on(here, sep) =~= seq![Seq::<u8>::empty()] + tail);
                let old_done = done;
                done = done.push(old_cur);
                assert(cur@ + tail[0] =~= tail[0]);
                assert(old_done + seq![old_cur + Seq::<u8>::empty()] + (seq![Seq::<u8>::empty()]
                    + tail).drop_first() =~= done + seq![cur@ + tail[0]] + tail.drop_first()) by {
                    assert(old_cur + Seq::<u8>::empty() =~= old_cur);
                    assert((seq![Seq::<u8>::empty()] + tail).drop_first() =~= tail);
                    assert(tail =~= seq![tail[0]] + tail.drop_first());
                }
            }
        } else {
            let ghost old_cur = cur@;
            cur.push(c);
            proof {
                let t = tail.update(0, seq![c] + tail[0]);
                assert(split_on(here, sep) == t);
                assert(t[0] == seq![c] + tail[0]);
                assert(t.drop_first() =~= tail.drop_first());
                assert(old_cur + t[0] =~= cur@ + tail[0]);
            }
        }
        i = i + 1;
    }
    proof {
        assert(s@.subrange(len as int, len as int) =~= Seq::<u8>::empty());
        assert(cur@ + Seq::<u8>::empty() =~= cur@);
    }
    let ghost last = cur@;
    pieces.push(cur);
    proof {
        done = done.push(last);
        assert(split_on(s@, sep) =~= done);
    }
    pieces
}

} // verus!
