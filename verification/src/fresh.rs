//! Short names for generated variables: `a` to `z`, then `aa`, `ab`, and so
//! on, in bijective base 26.

use vstd::prelude::*;
use crate::lexer::push_char;

verus! {

/// The lower-case letter with the given position in the alphabet, from 0.
pub open spec fn letter(digit: int) -> char {
    ((97 + digit) as u8) as char
}

/// The name with the given number: one letter for the numbers below 26;
/// beyond, the name of `numb / 26 - 1` followed by the letter of `numb %
/// 26`.
pub open spec fn name_of(numb: nat) -> Seq<char>
    decreases numb,
{
    if numb < 26 {
        seq![letter(numb as int)]
    } else {
        name_of((numb / 26 - 1) as nat).push(letter((numb % 26) as int))
    }
}

/// The letters of a list of digits, last digit first.
pub open spec fn letters_reversed(digits: Seq<u8>) -> Seq<char> {
    Seq::new(digits.len(), |i: int| letter(digits[digits.len() - 1 - i] as int))
}

/// The name with the given number.
pub fn name(numb: usize) -> (res: String)
    ensures
        res@ == name_of(numb as nat),
{
    let mut digits: Vec<u8> = Vec::new();
    let mut rest: usize = numb;
    assert(name_of(rest as nat) + letters_reversed(digits@) =~= name_of(numb as nat));
    while rest >= 26
        invariant
            forall|i: int| 0 <= i < digits.len() ==> digits@[i] < 26,
            name_of(numb as nat) == name_of(rest as nat) + letters_reversed(digits@),
        decreases rest,
    {
        let digit = (rest % 26) as u8;
        let ghost before = digits@;
        let ghost head = name_of((rest / 26 - 1) as nat);
        digits.push(digit);
        proof {
            assert(letters_reversed(digits@) =~= seq![letter(digit as int)] + letters_reversed(
                before,
            ));
            assert(head.push(letter(digit as int)) + letters_reversed(before) =~= head + (
            seq![letter(digit as int)] + letters_reversed(before)));
        }
        rest = rest / 26 - 1;
    }
    let mut res = String::new();
    push_char(&mut res, (97 + rest as u8) as char);
    let ghost first = res@;
    assert(first == name_of(rest as nat));
    let mut i: usize = digits.len();
    while i > 0
        invariant
            i <= digits.len(),
            forall|k: int| 0 <= k < digits.len() ==> digits@[k] < 26,
            res@ == first + letters_reversed(digits@).take(digits.len() - i),
        decreases i,
    {
        i -= 1;
        let digit = digits[i];
        proof {
            let all = letters_reversed(digits@);
            assert(all.take(digits.len() - i) =~= all.take(digits.len() - i - 1).push(
                letter(digit as int),
            ));
            assert(first + all.take(digits.len() - i - 1).push(letter(digit as int)) =~= (first
                + all.take(digits.len() - i - 1)).push(letter(digit as int)));
        }
        push_char(&mut res, (97 + digit) as char);
    }
    assert(letters_reversed(digits@).take(digits.len() as int) =~= letters_reversed(digits@));
    res
}

} // verus!
