//! Helpers of the tracker: reading a participant with an initiative, taking
//! an element out of a list, changing one element of a list, and dice.

use crate::combat_state::{
    participant_of, ParseError, Participant, ParticipantModel,
};
use crate::text::{lines_of, parse_unsigned, parse_unsigned_spec, split_at_char, split_text, trim_text, trimmed};
use rand::distributions::Uniform;
use rand::seq::IteratorRandom;
use rand::Rng;
use vstd::prelude::*;

verus! {

/// What the pieces of a line say about a participant and an initiative. With
/// more than two pieces the last is the initiative and the rest is the
/// participant; with fewer there is no initiative.
pub open spec fn participant_with_ini_of(splits: Seq<Seq<char>>) -> Result<
    (Option<u8>, ParticipantModel),
    ParseError,
> {
    if splits.len() > 2 {
        match parse_unsigned_spec(trimmed(splits.last()), 0xff) {
            Some(ini) => match participant_of(splits.drop_last()) {
                Ok(p) => Ok((Some(ini as u8), p)),
                Err(e) => Err(e),
            },
            None => Err(ParseError::InvalidInitiative),
        }
    } else {
        match participant_of(splits) {
            Ok(p) => Ok((None, p)),
            Err(e) => Err(e),
        }
    }
}

/// The mathematical value of a parsed participant with initiative, or of
/// the failure.
pub open spec fn participant_with_ini_view(r: Result<(Option<u8>, Participant), ParseError>) -> Result<
    (Option<u8>, ParticipantModel),
    ParseError,
> {
    match r {
        Ok((ini, p)) => Ok((ini, p.deep_view())),
        Err(e) => Err(e),
    }
}

/// Reads a participant from a line `name: hit points` or
/// `name: hit points: initiative`.
pub fn parse_participant_with_ini(s: &str) -> (r: Result<(Option<u8>, Participant), ParseError>)
    ensures
        participant_with_ini_view(r) == participant_with_ini_of(split_at_char(s@, ':')),
{
    let mut splits = split_text(s, ':');
    let ghost all = lines_of(splits@);
    let ini = if splits.len() > 2 {
        let last = splits.pop().unwrap();
        proof {
            assert(all.last() == last@);
            assert(lines_of(splits@) =~= all.drop_last());
        }
        let ini_text = trim_text(last.as_str());
        match parse_unsigned(ini_text.as_str(), 0xff) {
            Some(ini) => Some(ini as u8),
            None => {
                return Err(ParseError::InvalidInitiative);
            },
        }
    } else {
        None
    };
    match Participant::parse_splits(splits) {
        Ok(p) => Ok((ini, p)),
        Err(e) => Err(e),
    }
}

/// The `n`-th element of a list, and the list without it.
pub fn with_popped_n<T>(xs: Vec<T>, n: usize) -> (res: (T, Vec<T>))
    requires
        n < xs@.len(),
    ensures
        res.0 == xs@[n as int],
        res.1@ == xs@.remove(n as int),
{
    let mut xs = xs;
    let elem = xs.remove(n);
    (elem, xs)
}

/// `slice::swap`: exchanges the elements at two places.
#[verifier::external_body]
pub(crate) fn swap_items<T>(list: &mut Vec<T>, a: usize, b: usize)
    requires
        a < old(list)@.len(),
        b < old(list)@.len(),
    ensures
        final(list)@ == old(list)@.update(a as int, old(list)@[b as int]).update(
            b as int,
            old(list)@[a as int],
        ),
{
    list.swap(a, b)
}

/// `rand::Rng::sample` on `rand::thread_rng()` with the distribution
/// `Uniform::new_inclusive(1, dice)`: some number from 1 to `dice`.
#[verifier::external_body]
fn sample_die(dice: u8) -> (pips: u8)
    requires
        dice >= 1,
    ensures
        1 <= pips <= dice,
{
    rand::thread_rng().sample(Uniform::new_inclusive(1, dice))
}

/// `rand::seq::IteratorRandom::choose_multiple` on the numbers below `len`,
/// with `rand::thread_rng()`: `amount` different numbers below `len` in some
/// order, or all of them where there are fewer.
#[verifier::external_body]
pub(crate) fn pick_positions(len: usize, amount: usize) -> (picked: Vec<usize>)
    requires
        amount * 8 <= isize::MAX,
    ensures
        picked@.len() == if amount < len {
            amount
        } else {
            len
        },
        forall|i: int| 0 <= i < picked@.len() ==> #[trigger] picked@[i] < len,
        picked@.no_duplicates(),
{
    (0..len).choose_multiple(&mut rand::thread_rng(), amount)
}

/// The sum of `n` throws of a die with `dice` faces.
pub fn roll(n: u8, dice: u8) -> (sum: u8)
    requires
        dice >= 1,
        n * dice <= u8::MAX,
    ensures
        n <= sum <= n * dice,
{
    let mut sum: u8 = 0;
    let mut thrown: u8 = 0;
    while thrown < n
        invariant
            thrown <= n,
            dice >= 1,
            n * dice <= u8::MAX,
            thrown <= sum <= thrown * dice,
        decreases n - thrown,
    {
        let pips = sample_die(dice);
        proof {
            assert((thrown + 1) * dice == thrown * dice + dice) by (nonlinear_arith);
            assert((thrown + 1) * dice <= n * dice) by (nonlinear_arith)
                requires
                    thrown + 1 <= n,
            ;
        }
        sum = sum + pips;
        thrown = thrown + 1;
    }
    sum
}

/// The list with its `n`-th element replaced by what `f` makes of it; the
/// list as it is when it has no `n`-th element.
pub fn update_nth<T, F>(xs: Vec<T>, n: usize, f: F) -> (res: Vec<T>) where F: FnOnce(&T) -> T
    requires
        n < xs@.len() ==> f.requires((&xs@[n as int],)),
    ensures
        n >= xs@.len() ==> res@ == xs@,
        n < xs@.len() ==> res@.len() == xs@.len() && f.ensures((&xs@[n as int],), res@[n as int])
            && forall|i: int| 0 <= i < xs@.len() && i != n ==> res@[i] == xs@[i],
{
    let mut xs = xs;
    if n < xs.len() {
        let changed = f(&xs[n]);
        xs[n] = changed;
    }
    xs
}

} // verus!
