//! Decimal rendering of small integers, used to build exact error messages.

use vstd::prelude::*;
use vstd::string::StringExecFns;

verus! {

/// The character for one decimal digit value.
pub open spec fn dec_digit_char(d: int) -> char
    recommends
        0 <= d <= 9,
{
    if d == 0 {
        '0'
    } else if d == 1 {
        '1'
    } else if d == 2 {
        '2'
    } else if d == 3 {
        '3'
    } else if d == 4 {
        '4'
    } else if d == 5 {
        '5'
    } else if d == 6 {
        '6'
    } else if d == 7 {
        '7'
    } else if d == 8 {
        '8'
    } else {
        '9'
    }
}

/// The usual decimal rendering of a non-negative integer, without leading
/// zeros.
pub open spec fn dec_str(n: int) -> Seq<char>
    recommends
        n >= 0,
    decreases n,
{
    if n <= 9 {
        seq![dec_digit_char(n)]
    } else {
        dec_str(n / 10) + seq![dec_digit_char(n % 10)]
    }
}

/// The digit characters of `ds` in reverse order: `ds` holds digit values
/// least-significant first, as a division loop produces them.
spec fn digit_chars_rev(ds: Seq<u8>) -> Seq<char>
    decreases ds.len(),
{
    if ds.len() == 0 {
        Seq::<char>::empty()
    } else {
        seq![dec_digit_char(ds.last() as int)] + digit_chars_rev(ds.drop_last())
    }
}

proof fn lemma_digit_chars_rev_cons(d: u8, t: Seq<u8>)
    ensures
        digit_chars_rev(seq![d] + t) == digit_chars_rev(t) + seq![dec_digit_char(d as int)],
    decreases t.len(),
{
    let s = seq![d] + t;
    assert(s.len() == 1 + t.len());
    if t.len() == 0 {
        assert(s.last() == d);
        assert(s.drop_last() =~= Seq::<u8>::empty());
        assert(digit_chars_rev(s.drop_last()) =~= Seq::<char>::empty());
        assert(digit_chars_rev(t) =~= Seq::<char>::empty());
        assert(digit_chars_rev(s) =~= digit_chars_rev(t) + seq![dec_digit_char(d as int)]);
    } else {
        assert(s.last() == t.last());
        assert(s.drop_last() =~= seq![d] + t.drop_last());
        lemma_digit_chars_rev_cons(d, t.drop_last());
        assert(digit_chars_rev(s) == seq![dec_digit_char(t.last() as int)] + digit_chars_rev(
            seq![d] + t.drop_last(),
        ));
        assert(digit_chars_rev(s) =~= digit_chars_rev(t) + seq![dec_digit_char(d as int)]);
    }
}

/// The string for one decimal digit value.
fn dec_digit(d: u8) -> (r: &'static str)
    requires
        d <= 9,
    ensures
        r@ == seq![dec_digit_char(d as int)],
{
    let r = if d == 0 {
        "0"
    } else if d == 1 {
        "1"
    } else if d == 2 {
        "2"
    } else if d == 3 {
        "3"
    } else if d == 4 {
        "4"
    } else if d == 5 {
        "5"
    } else if d == 6 {
        "6"
    } else if d == 7 {
        "7"
    } else if d == 8 {
        "8"
    } else {
        "9"
    };
    proof {
        reveal_strlit("0");
        reveal_strlit("1");
        reveal_strlit("2");
        reveal_strlit("3");
        reveal_strlit("4");
        reveal_strlit("5");
        reveal_strlit("6");
        reveal_strlit("7");
        reveal_strlit("8");
        reveal_strlit("9");
        assert(r@ =~= seq![dec_digit_char(d as int)]);
    }
    r
}

/// Renders `v` in decimal.
pub fn u16_dec(v: u16) -> (s: String)
    ensures
        s@ == dec_str(v as int),
{
    let mut ds: Vec<u8> = Vec::new();
    let mut x = v;
    if x == 0 {
        ds.push(0);
        proof {
            assert(ds@ =~= seq![0u8]);
            assert(ds@.last() == 0u8);
            assert(ds@.drop_last() =~= Seq::<u8>::empty());
            assert(digit_chars_rev(ds@.drop_last()) =~= Seq::<char>::empty());
            assert(digit_chars_rev(ds@) =~= dec_str(v as int));
        }
    } else {
        while x > 0
            invariant
                0 <= x <= v,
                x > 0 ==> dec_str(v as int) == dec_str(x as int) + digit_chars_rev(ds@),
                x == 0 ==> dec_str(v as int) == digit_chars_rev(ds@),
                forall|t: int| 0 <= t < ds@.len() ==> #[trigger] ds@[t] <= 9,
                v > 0,
            decreases x,
        {
            let d = (x % 10) as u8;
            let ghost pre = ds@;
            ds.push(d);
            proof {
                assert(ds@.drop_last() =~= pre);
                assert(digit_chars_rev(ds@) == seq![dec_digit_char(d as int)] + digit_chars_rev(
                    pre,
                ));
            }
            let x2 = x / 10;
            proof {
                if x2 > 0 {
                    assert(x >= 10);
                    assert(dec_str(x as int) == dec_str(x as int / 10) + seq![
                        dec_digit_char(x as int % 10),
                    ]);
                    assert(x as int / 10 == x2 as int);
                    assert(x as int % 10 == d as int);
                    assert(dec_str(x2 as int) + digit_chars_rev(ds@) =~= dec_str(x2 as int) + (seq![
                        dec_digit_char(d as int),
                    ] + digit_chars_rev(pre)));
                    assert(dec_str(x2 as int) + (seq![dec_digit_char(d as int)] + digit_chars_rev(
                        pre,
                    )) =~= (dec_str(x2 as int) + seq![dec_digit_char(d as int)])
                        + digit_chars_rev(pre));
                    assert(dec_str(v as int) == dec_str(x2 as int) + digit_chars_rev(ds@));
                } else {
                    assert(x <= 9);
                    assert(dec_str(x as int) == seq![dec_digit_char(x as int)]);
                    assert(d as int == x as int);
                    assert(seq![dec_digit_char(d as int)] + digit_chars_rev(pre)
                        == digit_chars_rev(ds@));
                    assert(dec_str(v as int) =~= digit_chars_rev(ds@));
                }
            }
            x = x2;
        }
    }
    // Digits were collected least-significant first; emit them in reverse.
    let mut s = String::new();
    let mut j = ds.len();
    proof {
        assert(ds@.skip(j as int) =~= Seq::<u8>::empty());
    }
    while j > 0
        invariant
            0 <= j <= ds@.len(),
            forall|t: int| 0 <= t < ds@.len() ==> #[trigger] ds@[t] <= 9,
            s@ == digit_chars_rev(ds@.skip(j as int)),
        decreases j,
    {
        j = j - 1;
        let piece = dec_digit(ds[j]);
        s = s.concat(piece);
        proof {
            assert(ds@.skip(j as int) =~= seq![ds@[j as int]] + ds@.skip(j as int + 1));
            lemma_digit_chars_rev_cons(ds@[j as int], ds@.skip(j as int + 1));
        }
    }
    proof {
        assert(ds@.skip(0) =~= ds@);
    }
    s
}

} // verus!
