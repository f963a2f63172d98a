//! Decimal text of integers.

use vstd::prelude::*;

verus! {

pub open spec fn digit_char(d: nat) -> char {
    if d == 0 {
        '0'
    } else if d == 1 {
        '1'
    } else if d == 2 {
        '2'
    } else if d == 3 {
        '3'
    } else if d == 4 {
        '4'
    } else if d == 5 {
        '5'
    } else if d == 6 {
        '6'
    } else if d == 7 {
        '7'
    } else if d == 8 {
        '8'
    } else {
        '9'
    }
}

/// Decimal digits of `n`, most significant first, without leading zeros.
pub open spec fn nat_text(n: nat) -> Seq<char>
    decreases n,
{
    if n < 10 {
        seq![digit_char(n)]
    } else {
        nat_text(n / 10) + seq![digit_char(n % 10)]
    }
}

/// Decimal text of an integer, with a leading `-` when it is negative.
pub open spec fn int_text(n: int) -> Seq<char> {
    if n < 0 {
        seq!['-'] + nat_text((-n) as nat)
    } else {
        nat_text(n as nat)
    }
}

/// Digits stored least significant first, as text most significant first.
spec fn reversed_digits(ds: Seq<u64>) -> Seq<char>
    decreases ds.len(),
{
    if ds.len() == 0 {
        Seq::empty()
    } else {
        seq![digit_char(ds.last() as nat)] + reversed_digits(ds.drop_last())
    }
}

fn digit_str(d: u64) -> (r: &'static str)
    requires
        d < 10,
    ensures
        r@ == seq![digit_char(d as nat)],
{
    proof {
        reveal_strlit("0");
        reveal_strlit("1");
        reveal_strlit("2");
        reveal_strlit("3");
        reveal_strlit("4");
        reveal_strlit("5");
        reveal_strlit("6");
        reveal_strlit("7");
        reveal_strlit("8");
        reveal_strlit("9");
    }
    if d == 0 {
        "0"
    } else if d == 1 {
        "1"
    } else if d == 2 {
        "2"
    } else if d == 3 {
        "3"
    } else if d == 4 {
        "4"
    } else if d == 5 {
        "5"
    } else if d == 6 {
        "6"
    } else if d == 7 {
        "7"
    } else if d == 8 {
        "8"
    } else {
        "9"
    }
}

/// Appends the decimal digits of `n`.
fn push_nat(r: &mut String, n: u64)
    ensures
        final(r)@ == old(r)@ + nat_text(n as nat),
{
    let mut q: u64 = n;
    let mut acc: Vec<u64> = Vec::new();
    while q >= 10
        invariant
            nat_text(n as nat) == nat_text(q as nat) + reversed_digits(acc@),
            forall|i: int| 0 <= i < acc.len() ==> acc@[i] < 10,
        decreases q,
    {
        let ghost old_acc = acc@;
        acc.push(q % 10);
        proof {
            assert(acc@.drop_last() =~= old_acc);
            assert(nat_text(q as nat) == nat_text((q / 10) as nat) + seq![digit_char((q % 10) as nat)]);
            assert(nat_text(n as nat) =~= nat_text((q / 10) as nat) + reversed_digits(acc@));
        }
        q = q / 10;
    }
    let ghost start = r@;
    r.append(digit_str(q));
    let mut j: usize = acc.len();
    proof {
        assert(acc@.take(j as int) =~= acc@);
        assert(r@ + reversed_digits(acc@.take(j as int)) =~= start + nat_text(n as nat));
    }
    while j > 0
        invariant
            j <= acc.len(),
            forall|i: int| 0 <= i < acc.len() ==> acc@[i] < 10,
            r@ + reversed_digits(acc@.take(j as int)) == old(r)@ + nat_text(n as nat),
        decreases j,
    {
        let ghost before = r@;
        r.append(digit_str(acc[j - 1]));
        proof {
            let t = acc@.take(j as int);
            assert(t.drop_last() =~= acc@.take(j - 1));
            assert(t.last() == acc@[j - 1]);
            assert(before + reversed_digits(t) =~= r@ + reversed_digits(acc@.take(j - 1)));
        }
        j = j - 1;
    }
    proof {
        assert(acc@.take(0) =~= Seq::<u64>::empty());
        assert(r@ + reversed_digits(acc@.take(0)) =~= r@);
    }
}

/// The decimal text of `n`, as Rust's `Display` writes it.
pub fn nat_to_text(n: u64) -> (r: String)
    ensures
        r@ == nat_text(n as nat),
{
    let mut r = String::new();
    push_nat(&mut r, n);
    proof {
        assert(r@ =~= nat_text(n as nat));
    }
    r
}

/// The decimal text of `n`, as Rust's `Display` writes it.
pub fn int_to_text(n: i64) -> (r: String)
    ensures
        r@ == int_text(n as int),
{
    let mut r = String::new();
    if n < 0 {
        r.append("-");
        proof {
            reveal_strlit("-");
        }
        let m: u64 = (-(n as i128)) as u64;
        push_nat(&mut r, m);
        proof {
            assert(r@ =~= int_text(n as int));
        }
    } else {
        push_nat(&mut r, n as u64);
        proof {
            assert(r@ =~= int_text(n as int));
        }
    }
    r
}

} // verus!
