use vstd::prelude::*;

verus! {

/// Why a padding string was rejected.
#[derive(Clone, Debug)]
pub enum PaddingError {
    /// Some whitespace-separated token is not a valid non-negative integer;
    /// carries the offending input.
    Parse { input: String },
    /// The token count is not between one and four.
    InvalidArity,
}

/// A character with the Unicode `White_Space` property, the set that
/// whitespace splitting goes by.
pub open spec fn is_space(c: char) -> bool {
    ||| c == ' '
    ||| c == '\t'
    ||| c == '\n'
    ||| c == '\u{000B}'
    ||| c == '\u{000C}'
    ||| c == '\r'
    ||| c == '\u{0085}'
    ||| c == '\u{00A0}'
    ||| c == '\u{1680}'
    ||| (0x2000 <= (c as int) && (c as int) <= 0x200A)
    ||| c == '\u{2028}'
    ||| c == '\u{2029}'
    ||| c == '\u{202F}'
    ||| c == '\u{205F}'
    ||| c == '\u{3000}'
}

fn is_space_char(c: char) -> (b: bool)
    ensures
        b == is_space(c),
{
    c == ' ' || c == '\t' || c == '\n' || c == '\u{000B}' || c == '\u{000C}' || c == '\r'
        || c == '\u{0085}' || c == '\u{00A0}' || c == '\u{1680}'
        || (0x2000 <= (c as u32) && (c as u32) <= 0x200A) || c == '\u{2028}' || c == '\u{2029}'
        || c == '\u{202F}' || c == '\u{205F}' || c == '\u{3000}'
}

/// A decimal digit.
pub open spec fn is_digit(c: char) -> bool {
    48 <= (c as u32) && (c as u32) <= 57
}

/// The numeric value of a decimal digit.
pub open spec fn digit_val(c: char) -> nat
    recommends
        is_digit(c),
{
    ((c as u32) - 48) as nat
}

/// The value of a sequence of decimal digits, most significant first.
pub open spec fn dec_value(t: Seq<char>) -> nat
    decreases t.len(),
{
    if t.len() == 0 {
        0
    } else {
        dec_value(t.drop_last()) * 10 + digit_val(t.last())
    }
}

/// The digit part of an integer token: a single leading `+` sign is
/// stripped, everything else is kept.
pub open spec fn digits_of(t: Seq<char>) -> Seq<char> {
    if t.len() > 0 && t[0] == '+' {
        t.skip(1)
    } else {
        t
    }
}

/// Whether a token is a valid non-negative integer that fits in `u32`:
/// after an optional `+` sign, one or more decimal digits whose value is at
/// most `u32::MAX`.
pub open spec fn is_u32_token(t: Seq<char>) -> bool {
    &&& digits_of(t).len() > 0
    &&& (forall|i: int| 0 <= i < digits_of(t).len() ==> is_digit(digits_of(t)[i]))
    &&& dec_value(digits_of(t)) <= u32::MAX
}

/// The numeric value of a valid integer token.
pub open spec fn token_u32(t: Seq<char>) -> nat
    recommends
        is_u32_token(t),
{
    dec_value(digits_of(t))
}

/// The length of the leading run of non-whitespace characters.
pub open spec fn run_len(s: Seq<char>) -> nat
    decreases s.len(),
{
    if s.len() == 0 || is_space(s[0]) {
        0
    } else {
        1 + run_len(s.skip(1))
    }
}

proof fn lemma_run_len_le(s: Seq<char>)
    ensures
        run_len(s) <= s.len(),
    decreases s.len(),
{
    if s.len() != 0 && !is_space(s[0]) {
        lemma_run_len_le(s.skip(1));
    }
}

/// A leading run of exactly `n` non-whitespace characters, delimited by the
/// end of the sequence or a whitespace character, has `run_len` equal to
/// `n`.
proof fn lemma_run_len_exact(s: Seq<char>, n: int)
    requires
        0 <= n <= s.len(),
        forall|i: int| 0 <= i < n ==> !is_space(s[i]),
        n == s.len() || is_space(s[n]),
    ensures
        run_len(s) == n,
    decreases n,
{
    if n == 0 {
    } else {
        assert(!is_space(s[0]));
        let t = s.skip(1);
        assert forall|i: int| 0 <= i < n - 1 implies !is_space(t[i]) by {
            assert(t[i] == s[i + 1]);
        }
        if n - 1 < t.len() {
            assert(t[n - 1] == s[n]);
        }
        lemma_run_len_exact(t, n - 1);
    }
}

/// The whitespace-separated tokens of a character sequence: the maximal
/// runs of non-whitespace characters, in order.
pub open spec fn tokens_of(s: Seq<char>) -> Seq<Seq<char>>
    decreases s.len(),
    via tokens_of_decreases
{
    if s.len() == 0 {
        seq![]
    } else if is_space(s[0]) {
        tokens_of(s.skip(1))
    } else {
        seq![s.take(run_len(s) as int)] + tokens_of(s.skip(run_len(s) as int))
    }
}

#[via_fn]
proof fn tokens_of_decreases(s: Seq<char>) {
    if s.len() != 0 && !is_space(s[0]) {
        lemma_run_len_le(s);
    }
}

/// The explicit `(top, right, bottom, left)` tuple named by one to four
/// valid integer tokens, following the CSS box-model shorthand: one value
/// covers all sides; two are vertical then horizontal; three are top,
/// horizontal, bottom; four are top, right, bottom, left.
pub open spec fn expand_shorthand(toks: Seq<Seq<char>>) -> (u32, u32, u32, u32)
    recommends
        1 <= toks.len() <= 4,
        forall|k: int| 0 <= k < toks.len() ==> is_u32_token(toks[k]),
{
    if toks.len() == 1 {
        let v = token_u32(toks[0]) as u32;
        (v, v, v, v)
    } else if toks.len() == 2 {
        let vert = token_u32(toks[0]) as u32;
        let horiz = token_u32(toks[1]) as u32;
        (vert, horiz, vert, horiz)
    } else if toks.len() == 3 {
        let top = token_u32(toks[0]) as u32;
        let horiz = token_u32(toks[1]) as u32;
        let bot = token_u32(toks[2]) as u32;
        (top, horiz, bot, horiz)
    } else {
        let top = token_u32(toks[0]) as u32;
        let right = token_u32(toks[1]) as u32;
        let bot = token_u32(toks[2]) as u32;
        let left = token_u32(toks[3]) as u32;
        (top, right, bot, left)
    }
}

/// Appending digits never lowers the value of the prefix read so far.
proof fn lemma_dec_value_prefix_mono(t: Seq<char>, a: int, b: int)
    requires
        0 <= a <= b <= t.len(),
    ensures
        dec_value(t.subrange(0, a)) <= dec_value(t.subrange(0, b)),
    decreases b,
{
    if a < b {
        lemma_dec_value_prefix_mono(t, a, b - 1);
        assert(t.subrange(0, b).drop_last() =~= t.subrange(0, b - 1));
        assert(dec_value(t.subrange(0, b))
            == dec_value(t.subrange(0, b - 1)) * 10 + digit_val(t.subrange(0, b).last()));
    }
}

/// Parses one token as a non-negative `u32`, accepting exactly what
/// `is_u32_token` admits.
fn parse_u32_token(tok: &Vec<char>) -> (r: Option<u32>)
    ensures
        match r {
            Option::Some(v) => is_u32_token(tok@) && v == token_u32(tok@),
            Option::None => !is_u32_token(tok@),
        },
{
    let len = tok.len();
    let mut start: usize = 0;
    if len > 0 && tok[0] == '+' {
        start = 1;
    }
    let ghost d = digits_of(tok@);
    proof {
        assert(d =~= tok@.skip(start as int));
    }
    if start == len {
        return None;
    }
    let mut j: usize = start;
    let mut acc: u64 = 0;
    while j < len
        invariant
            start <= j <= len,
            len == tok@.len(),
            start <= 1,
            d == digits_of(tok@),
            d =~= tok@.skip(start as int),
            forall|k: int| start <= k < j ==> is_digit(tok@[k]),
            acc == dec_value(tok@.subrange(start as int, j as int)),
            acc <= u32::MAX,
        decreases len - j,
    {
        let c = tok[j];
        let u = c as u32;
        if u < 48 || u > 57 {
            proof {
                assert(d[j - start] == tok@[j as int]);
                assert(!is_digit(d[j - start]));
            }
            return None;
        }
        let dig: u64 = (u - 48) as u64;
        acc = acc * 10 + dig;
        proof {
            let pre = tok@.subrange(start as int, j as int);
            let cur = tok@.subrange(start as int, j + 1);
            assert(cur.len() > 0);
            assert(cur.drop_last() =~= pre);
            assert(cur.last() == tok@[j as int]);
            assert(is_digit(c));
            assert(dec_value(cur) == dec_value(cur.drop_last()) * 10 + digit_val(cur.last()));
            assert(dec_value(cur.drop_last()) == dec_value(pre));
            assert(digit_val(cur.last()) == u - 48);
            assert(acc == dec_value(cur));
        }
        if acc > 0xFFFF_FFFFu64 {
            proof {
                let m = j + 1 - start;
                assert(tok@.subrange(start as int, j + 1) =~= d.subrange(0, m));
                lemma_dec_value_prefix_mono(d, m, d.len() as int);
                assert(d.subrange(0, d.len() as int) =~= d);
                assert(dec_value(d) > u32::MAX);
            }
            return None;
        }
        j += 1;
    }
    proof {
        assert(tok@.subrange(start as int, len as int) =~= d);
        assert(d.len() > 0);
        assert forall|i: int| 0 <= i < d.len() implies is_digit(d[i]) by {
            assert(d[i] == tok@[i + start]);
        }
    }
    Some(acc as u32)
}

/// Parses a CSS-style padding shorthand: one to four whitespace-separated
/// non-negative integers, expanded to an explicit
/// `(top, right, bottom, left)` tuple.
///
/// A token that is not a valid non-negative integer gives
/// `PaddingError::Parse` naming the input; a token count outside one to
/// four gives `PaddingError::InvalidArity`.
pub fn parse_padding(s: &str) -> (r: Result<(u32, u32, u32, u32), PaddingError>)
    ensures
        match r {
            Result::Ok(t) => {
                &&& (forall|k: int|
                    0 <= k < tokens_of(s@).len() ==> is_u32_token(tokens_of(s@)[k]))
                &&& 1 <= tokens_of(s@).len() <= 4
                &&& t == expand_shorthand(tokens_of(s@))
            },
            Result::Err(e) => match e {
                PaddingError::Parse { input } => {
                    &&& input@ == s@
                    &&& (exists|k: int|
                        0 <= k < tokens_of(s@).len() && !is_u32_token(tokens_of(s@)[k]))
                },
                PaddingError::InvalidArity => {
                    &&& (forall|k: int|
                        0 <= k < tokens_of(s@).len() ==> is_u32_token(tokens_of(s@)[k]))
                    &&& !(1 <= tokens_of(s@).len() <= 4)
                },
            },
        },
{
    let n = s.unicode_len();
    let mut i: usize = 0;
    let mut vals: Vec<u32> = Vec::new();
    proof {
        assert(s@.skip(0) =~= s@);
        assert(tokens_of(s@).subrange(0, 0) + tokens_of(s@.skip(0)) =~= tokens_of(s@));
    }
    while i < n
        invariant
            0 <= i <= n,
            n == s@.len(),
            tokens_of(s@) =~= tokens_of(s@).subrange(0, vals@.len() as int)
                + tokens_of(s@.skip(i as int)),
            vals@.len() <= tokens_of(s@).len(),
            forall|k: int|
                0 <= k < vals@.len() ==> is_u32_token(#[trigger] tokens_of(s@)[k]) && vals@[k]
                    == token_u32(tokens_of(s@)[k]),
        decreases n - i,
    {
        let c = s.get_char(i);
        if is_space_char(c) {
            proof {
                let rest = s@.skip(i as int);
                assert(rest[0] == s@[i as int]);
                assert(rest.skip(1) =~= s@.skip(i + 1));
                assert(tokens_of(rest) == tokens_of(s@.skip(i + 1)));
            }
            i += 1;
        } else {
            let ghost prev = vals@.len() as int;
            let start = i;
            let mut tok: Vec<char> = Vec::new();
            tok.push(c);
            i += 1;
            while i < n
                invariant
                    start < i <= n,
                    n == s@.len(),
                    tok@ =~= s@.subrange(start as int, i as int),
                    forall|k: int| start <= k < i ==> !is_space(s@[k]),
                ensures
                    i == n || is_space(s@[i as int]),
                decreases n - i,
            {
                let c2 = s.get_char(i);
                if is_space_char(c2) {
                    break;
                }
                tok.push(c2);
                i += 1;
            }
            proof {
                let rest = s@.skip(start as int);
                assert forall|k: int| 0 <= k < i - start implies !is_space(rest[k]) by {
                    assert(rest[k] == s@[k + start]);
                }
                if i - start < rest.len() {
                    assert(rest[i - start] == s@[i as int]);
                }
                lemma_run_len_exact(rest, i - start);
                assert(rest.take((i - start) as int) =~= tok@);
                assert(rest.skip((i - start) as int) =~= s@.skip(i as int));
                assert(tokens_of(rest) == seq![tok@] + tokens_of(s@.skip(i as int)));
                assert(tokens_of(s@)[prev] == tok@);
            }
            match parse_u32_token(&tok) {
                Some(v) => {
                    let ghost vals0 = vals@;
                    vals.push(v);
                    proof {
                        assert(tokens_of(s@).subrange(0, prev + 1)
                            =~= tokens_of(s@).subrange(0, prev) + seq![tok@]);
                        assert forall|k: int|
                            0 <= k < vals@.len() implies is_u32_token(tokens_of(s@)[k])
                            && vals@[k] == token_u32(tokens_of(s@)[k]) by {
                            if k < prev {
                                assert(vals@[k] == vals0[k]);
                            } else {
                                assert(k == prev);
                                assert(vals@[k] == v);
                                assert(tokens_of(s@)[prev] == tok@);
                            }
                        }
                    }
                },
                None => {
                    proof {
                        assert(!is_u32_token(tokens_of(s@)[prev]));
                    }
                    return Err(PaddingError::Parse { input: s.to_owned() });
                },
            }
        }
    }
    proof {
        assert(s@.skip(n as int) =~= Seq::<char>::empty());
        assert(tokens_of(Seq::<char>::empty()) =~= Seq::<Seq<char>>::empty());
        assert(tokens_of(s@) =~= tokens_of(s@).subrange(0, vals@.len() as int));
        assert(tokens_of(s@).len() == vals@.len());
    }
    if vals.len() == 1 {
        let v = vals[0];
        Ok((v, v, v, v))
    } else if vals.len() == 2 {
        let vert = vals[0];
        let horiz = vals[1];
        Ok((vert, horiz, vert, horiz))
    } else if vals.len() == 3 {
        let top = vals[0];
        let horiz = vals[1];
        let bot = vals[2];
        Ok((top, horiz, bot, horiz))
    } else if vals.len() == 4 {
        let top = vals[0];
        let right = vals[1];
        let bot = vals[2];
        let left = vals[3];
        Ok((top, right, bot, left))
    } else {
        Err(PaddingError::InvalidArity)
    }
}

} // verus!
