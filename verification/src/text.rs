//! Turning scalar object values into display text: UTF-8 best-effort
//! decoding of string and name bytes, and decimal rendering of integers.

use vstd::prelude::*;
use vstd::string::StringExecFns;
use vstd::utf8::{decode_utf8, valid_utf8};

verus! {

/// What `String::from_utf8_lossy` yields on bytes that are not valid
/// UTF-8: the best-effort decoding with every ill-formed sequence
/// replaced. Named rather than spelled out; valid input is pinned to
/// `decode_utf8` below.
pub uninterp spec fn lossy_decode(bytes: Seq<u8>) -> Seq<char>;

/// Relies on `String::from_utf8_lossy`: valid UTF-8 decodes to exactly the
/// characters it encodes, and never fails on invalid input.
#[verifier::external_body]
pub(crate) fn decode_text(bytes: &[u8]) -> (r: String)
    ensures
        valid_utf8(bytes@) ==> r@ == decode_utf8(bytes@),
        !valid_utf8(bytes@) ==> r@ == lossy_decode(bytes@),
{
    String::from_utf8_lossy(bytes).into_owned()
}

/// The character for one decimal digit.
pub open spec fn digit_char(d: nat) -> char {
    if d == 0 {
        '0'
    } else if d == 1 {
        '1'
    } else if d == 2 {
        '2'
    } else if d == 3 {
        '3'
    } else if d == 4 {
        '4'
    } else if d == 5 {
        '5'
    } else if d == 6 {
        '6'
    } else if d == 7 {
        '7'
    } else if d == 8 {
        '8'
    } else {
        '9'
    }
}

/// The decimal digits of `n`, most significant first, no leading zeros
/// except for zero itself.
pub open spec fn dec_digits(n: nat) -> Seq<char>
    decreases n,
{
    if n < 10 {
        seq![digit_char(n)]
    } else {
        dec_digits(n / 10).push(digit_char(n % 10))
    }
}

/// The decimal text of a signed integer.
pub open spec fn spec_int_text(i: int) -> Seq<char> {
    if i < 0 {
        seq!['-'] + dec_digits((-i) as nat)
    } else {
        dec_digits(i as nat)
    }
}

/// The characters of digits collected least significant first, read back
/// most significant first.
spec fn rev_digit_chars(s: Seq<u64>) -> Seq<char> {
    Seq::new(s.len(), |k: int| digit_char(s[s.len() - 1 - k] as nat))
}

proof fn lemma_rev_push(s: Seq<u64>, x: u64)
    ensures
        rev_digit_chars(s.push(x)) == seq![digit_char(x as nat)] + rev_digit_chars(s),
{
    assert(rev_digit_chars(s.push(x)) =~= seq![digit_char(x as nat)] + rev_digit_chars(s));
}

/// One decimal digit as text.
fn digit_str(d: u64) -> (r: &'static str)
    requires
        d < 10,
    ensures
        r@ == seq![digit_char(d as nat)],
{
    match d {
        0 => {
            proof {
                reveal_strlit("0");
            }
            "0"
        },
        1 => {
            proof {
                reveal_strlit("1");
            }
            "1"
        },
        2 => {
            proof {
                reveal_strlit("2");
            }
            "2"
        },
        3 => {
            proof {
                reveal_strlit("3");
            }
            "3"
        },
        4 => {
            proof {
                reveal_strlit("4");
            }
            "4"
        },
        5 => {
            proof {
                reveal_strlit("5");
            }
            "5"
        },
        6 => {
            proof {
                reveal_strlit("6");
            }
            "6"
        },
        7 => {
            proof {
                reveal_strlit("7");
            }
            "7"
        },
        8 => {
            proof {
                reveal_strlit("8");
            }
            "8"
        },
        _ => {
            proof {
                reveal_strlit("9");
            }
            "9"
        },
    }
}

/// The decimal textual form of an integer, sign included.
pub fn i64_to_string(i: i64) -> (r: String)
    ensures
        r@ == spec_int_text(i as int),
{
    let neg = i < 0;
    let m: u64 = if i >= 0 {
        i as u64
    } else {
        (-(i as i128)) as u64
    };
    let ghost mag: int = if i >= 0 {
        i as int
    } else {
        -(i as int)
    };
    proof {
        assert(m == mag);
    }
    let mut digs: Vec<u64> = Vec::new();
    digs.push(m % 10);
    let mut n: u64 = m / 10;
    proof {
        lemma_rev_push(Seq::<u64>::empty(), m % 10);
        assert(rev_digit_chars(Seq::<u64>::empty()) =~= Seq::<char>::empty());
        if m >= 10 {
            assert(dec_digits(m as nat) == dec_digits((m / 10) as nat).push(
                digit_char((m % 10) as nat),
            ));
            assert(dec_digits((m / 10) as nat).push(digit_char((m % 10) as nat))
                =~= dec_digits((m / 10) as nat) + rev_digit_chars(digs@));
        }
    }
    while n > 0
        invariant
            digs@.len() >= 1,
            forall|j: int| 0 <= j < digs@.len() ==> digs@[j] < 10,
            dec_digits(m as nat) == (if n > 0 {
                dec_digits(n as nat) + rev_digit_chars(digs@)
            } else {
                rev_digit_chars(digs@)
            }),
        decreases n,
    {
        let d = n % 10;
        let ghost pre = digs@;
        digs.push(d);
        proof {
            lemma_rev_push(pre, d);
            if n >= 10 {
                assert(dec_digits(n as nat) == dec_digits((n / 10) as nat).push(
                    digit_char((n % 10) as nat),
                ));
                assert(dec_digits((n / 10) as nat).push(digit_char(d as nat)) =~= dec_digits(
                    (n / 10) as nat,
                ) + seq![digit_char(d as nat)]);
                assert(dec_digits(m as nat) =~= dec_digits((n / 10) as nat) + rev_digit_chars(
                    digs@,
                ));
            } else {
                assert(dec_digits(n as nat) == seq![digit_char(n as nat)]);
                assert(dec_digits(m as nat) =~= rev_digit_chars(digs@));
            }
        }
        n = n / 10;
    }
    let mut r = String::new();
    let ghost sign: Seq<char> = if neg {
        seq!['-']
    } else {
        Seq::<char>::empty()
    };
    if neg {
        r.append("-");
        proof {
            reveal_strlit("-");
            assert(r@ =~= sign);
        }
    }
    let mut j: usize = digs.len();
    proof {
        assert(r@ =~= sign + rev_digit_chars(digs@).subrange(0, 0));
    }
    while j > 0
        invariant
            j <= digs@.len(),
            forall|k: int| 0 <= k < digs@.len() ==> digs@[k] < 10,
            r@ == sign + rev_digit_chars(digs@).subrange(0, digs@.len() - j),
        decreases j,
    {
        j = j - 1;
        let ghost before = r@;
        r.append(digit_str(digs[j]));
        proof {
            let rc = rev_digit_chars(digs@);
            assert(rc[digs@.len() - 1 - (j as int)] == digit_char(digs@[j as int] as nat));
            assert(rc.subrange(0, digs@.len() - j) =~= rc.subrange(0, digs@.len() - 1 - (j as int))
                + seq![digit_char(digs@[j as int] as nat)]);
            assert(r@ =~= sign + rc.subrange(0, digs@.len() - j));
        }
    }
    proof {
        assert(rev_digit_chars(digs@).subrange(0, digs@.len() as int) =~= rev_digit_chars(digs@));
        assert(dec_digits(mag as nat) == rev_digit_chars(digs@));
        if neg {
            assert(r@ =~= seq!['-'] + dec_digits((-(i as int)) as nat));
        }
    }
    r
}

} // verus!
