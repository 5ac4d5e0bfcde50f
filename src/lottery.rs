//! Lottery numbers: the winning numbers drawn from a random hash, and the
//! ranking of tickets against them.
use vstd::prelude::*;
use vstd::string::StringExecFns;

verus! {

/// The prize a ticket wins.
#[derive(Clone, Copy, Debug, PartialEq, Eq, Structural)]
pub enum Rank {
    NoPrize,
    FirstPrize,
    SecondPrize,
    ThirdPrize,
}

/// How many of the first `n` positions hold the same number in `a` and `b`.
pub open spec fn same_positions(a: Seq<u32>, b: Seq<u32>, n: int) -> nat
    decreases n,
{
    if n <= 0 {
        0
    } else {
        same_positions(a, b, n - 1) + if a[n - 1] == b[n - 1] {
            1nat
        } else {
            0nat
        }
    }
}

/// The rank for `count` numbers in their right place.
pub open spec fn rank_of(count: nat) -> Rank {
    if count == 3 {
        Rank::FirstPrize
    } else if count == 2 {
        Rank::SecondPrize
    } else if count == 1 {
        Rank::ThirdPrize
    } else {
        Rank::NoPrize
    }
}

/// Ranks a ticket of three numbers against the winning numbers, by how many
/// positions agree (over the positions that both have).
pub fn rank(numbers: &Vec<u32>, win_num: &Vec<u32>) -> (r: Rank)
    requires
        numbers@.len() == 3,
    ensures
        r == rank_of(
            same_positions(
                numbers@,
                win_num@,
                if win_num@.len() < 3 {
                    win_num@.len() as int
                } else {
                    3
                },
            ),
        ),
{
    let n: usize = if win_num.len() < 3 {
        win_num.len()
    } else {
        3
    };
    let mut count: usize = 0;
    let mut i: usize = 0;
    while i < n
        invariant
            0 <= i <= n <= 3,
            n <= win_num@.len(),
            numbers@.len() == 3,
            count == same_positions(numbers@, win_num@, i as int),
            count <= i,
        decreases n - i,
    {
        if numbers[i] == win_num[i] {
            count = count + 1;
        }
        i = i + 1;
    }
    if count == 3 {
        Rank::FirstPrize
    } else if count == 2 {
        Rank::SecondPrize
    } else if count == 1 {
        Rank::ThirdPrize
    } else {
        Rank::NoPrize
    }
}

/// The lower-case hexadecimal digit of `d` (below 16).
pub open spec fn hex_char(d: u8) -> char {
    if d == 0 { '0' } else if d == 1 { '1' } else if d == 2 { '2' } else if d == 3 { '3' }
    else if d == 4 { '4' } else if d == 5 { '5' } else if d == 6 { '6' } else if d == 7 { '7' }
    else if d == 8 { '8' } else if d == 9 { '9' } else if d == 10 { 'a' } else if d == 11 { 'b' }
    else if d == 12 { 'c' } else if d == 13 { 'd' } else if d == 14 { 'e' } else { 'f' }
}

/// The hexadecimal digits of `b` without a leading zero: one below 16, else two.
pub open spec fn byte_nibbles(b: u8) -> Seq<u8> {
    if b < 16 {
        seq![b]
    } else {
        seq![b / 16, b % 16]
    }
}

/// The hexadecimal digits of all `bytes`, each byte without a leading zero.
pub open spec fn nibbles(bytes: Seq<u8>) -> Seq<u8>
    decreases bytes.len(),
{
    if bytes.len() == 0 {
        Seq::empty()
    } else {
        nibbles(bytes.drop_last()) + byte_nibbles(bytes.last())
    }
}

/// The digits of `ns` as characters.
pub open spec fn hex_text(ns: Seq<u8>) -> Seq<char> {
    ns.map_values(|d: u8| hex_char(d))
}

/// The digits of `ns` that are decimal, in order.
pub open spec fn decimal_digits(ns: Seq<u8>) -> Seq<u32>
    decreases ns.len(),
{
    if ns.len() == 0 {
        Seq::empty()
    } else {
        decimal_digits(ns.drop_last()) + if ns.last() < 10 {
            seq![ns.last() as u32]
        } else {
            Seq::empty()
        }
    }
}

/// At most the first three of `s`.
pub open spec fn first_three(s: Seq<u32>) -> Seq<u32> {
    if s.len() <= 3 {
        s
    } else {
        s.take(3)
    }
}

fn hex_digit(d: u8) -> (r: &'static str)
    requires
        d < 16,
    ensures
        r@ == seq![hex_char(d)],
{
    proof {
        reveal_strlit("0"); reveal_strlit("1"); reveal_strlit("2"); reveal_strlit("3");
        reveal_strlit("4"); reveal_strlit("5"); reveal_strlit("6"); reveal_strlit("7");
        reveal_strlit("8"); reveal_strlit("9"); reveal_strlit("a"); reveal_strlit("b");
        reveal_strlit("c"); reveal_strlit("d"); reveal_strlit("e"); reveal_strlit("f");
    }
    let r = match d {
        0 => "0", 1 => "1", 2 => "2", 3 => "3", 4 => "4", 5 => "5", 6 => "6", 7 => "7",
        8 => "8", 9 => "9", 10 => "a", 11 => "b", 12 => "c", 13 => "d", 14 => "e", _ => "f",
    };
    assert(r@ =~= seq![hex_char(d)]);
    r
}

fn push_nibble(seed: &mut String, win: &mut Vec<u32>, d: u8, Ghost(done): Ghost<Seq<u8>>)
    requires
        d < 16,
        old(seed)@ == hex_text(done),
        old(win)@ == first_three(decimal_digits(done)),
    ensures
        final(seed)@ == hex_text(done.push(d)),
        final(win)@ == first_three(decimal_digits(done.push(d))),
{
    seed.append(hex_digit(d));
    assert(done.push(d).drop_last() =~= done);
    assert(seed@ =~= hex_text(done.push(d)));
    let ghost digits = decimal_digits(done);
    if d < 10 && win.len() < 3 {
        win.push(d as u32);
        assert(win@ =~= first_three(digits.push(d as u32)));
        assert(decimal_digits(done.push(d)) =~= digits.push(d as u32));
    } else if d < 10 {
        assert(decimal_digits(done.push(d)) =~= digits.push(d as u32));
        assert(first_three(digits.push(d as u32)) =~= first_three(digits));
    } else {
        assert(decimal_digits(done.push(d)) =~= digits);
    }
}

/// The random hash as lower-case hexadecimal text, each byte written
/// without a leading zero, and the first three decimal digits of that text:
/// the winning numbers.
pub fn get_winning_number(random: &[u8; 32]) -> (r: (String, Vec<u32>))
    ensures
        r.0@ == hex_text(nibbles(random@)),
        r.1@ == first_three(decimal_digits(nibbles(random@))),
{
    let mut seed = String::new();
    let mut win: Vec<u32> = Vec::new();
    let ghost mut done: Seq<u8> = Seq::empty();
    let mut i: usize = 0;
    assert(seed@ =~= hex_text(done));
    while i < 32
        invariant
            0 <= i <= 32,
            random@.len() == 32,
            done == nibbles(random@.subrange(0, i as int)),
            seed@ == hex_text(done),
            win@ == first_three(decimal_digits(done)),
        decreases 32 - i,
    {
        let b = random[i];
        proof {
            assert(random@.subrange(0, i + 1).drop_last() =~= random@.subrange(0, i as int));
        }
        if b < 16 {
            push_nibble(&mut seed, &mut win, b, Ghost(done));
            proof {
                done = done.push(b);
            }
        } else {
            push_nibble(&mut seed, &mut win, b / 16, Ghost(done));
            proof {
                done = done.push(b / 16);
            }
            push_nibble(&mut seed, &mut win, b % 16, Ghost(done));
            proof {
                done = done.push(b % 16);
            }
        }
        proof {
            assert(done =~= nibbles(random@.subrange(0, i + 1)));
        }
        i = i + 1;
    }
    assert(random@.subrange(0, 32) =~= random@);
    (seed, win)
}

} // verus!
