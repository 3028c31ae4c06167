//! Random identifiers and timestamps.
use vstd::prelude::*;
use chrono::{Datelike, Timelike};
use rand::Rng;
use crate::text::push_char;

verus! {

/// The alphabet of generated identifiers: digits, then lower-case letters.
pub open spec fn id_alphabet() -> Seq<char> {
    seq![
        '0', '1', '2', '3', '4', '5', '6', '7', '8', '9', 'a', 'b', 'c', 'd', 'e', 'f', 'g', 'h',
        'i', 'j', 'k', 'l', 'm', 'n', 'o', 'p', 'q', 'r', 's', 't', 'u', 'v', 'w', 'x', 'y', 'z',
    ]
}

/// Relies on `rand::Rng::gen_range` over `rand::thread_rng()`: a value in
/// `0..bound`, which must not be empty.
#[verifier::external_body]
fn random_below(bound: usize) -> (r: usize)
    requires
        bound > 0,
    ensures
        r < bound,
{
    rand::thread_rng().gen_range(0..bound)
}

/// Every character of `s` is in the identifier alphabet.
pub open spec fn is_id_text(s: Seq<char>) -> bool {
    forall|i: int| 0 <= i < s.len() ==> id_alphabet().contains(#[trigger] s[i])
}

/// The characters of the identifier alphabet at positions `draws`.
pub open spec fn chars_at(draws: Seq<usize>) -> Seq<char> {
    draws.map_values(|d: usize| id_alphabet()[d as int])
}

/// The identifier whose characters sit at positions `draws` of the alphabet.
pub fn string_from_draws(draws: &Vec<usize>) -> (r: String)
    requires
        forall|i: int| 0 <= i < draws@.len() ==> #[trigger] draws@[i] < 36,
    ensures
        r@ == chars_at(draws@),
        is_id_text(r@),
{
    let chars: Vec<char> = vec![
        '0', '1', '2', '3', '4', '5', '6', '7', '8', '9', 'a', 'b', 'c', 'd', 'e', 'f', 'g', 'h',
        'i', 'j', 'k', 'l', 'm', 'n', 'o', 'p', 'q', 'r', 's', 't', 'u', 'v', 'w', 'x', 'y', 'z',
    ];
    let mut chosen = String::new();
    let mut i: usize = 0;
    while i < draws.len()
        invariant
            i <= draws@.len(),
            chars@ == id_alphabet(),
            forall|k: int| 0 <= k < draws@.len() ==> #[trigger] draws@[k] < 36,
            chosen@ == chars_at(draws@.subrange(0, i as int)),
        decreases draws@.len() - i,
    {
        push_char(&mut chosen, chars[draws[i]]);
        i = i + 1;
        assert(chosen@ =~= chars_at(draws@.subrange(0, i as int)));
    }
    assert(draws@.subrange(0, draws@.len() as int) =~= draws@);
    assert forall|k: int| 0 <= k < chosen@.len() implies id_alphabet().contains(#[trigger] chosen@[k]) by {
        assert(chosen@[k] == id_alphabet()[draws@[k] as int]);
    }
    chosen
}

/// `len` characters drawn at random from the identifier alphabet: one draw
/// below 36 per character, each picking that position of the alphabet.
pub fn generate_random_string(len: u8) -> (r: String)
    ensures
        r@.len() == len,
        is_id_text(r@),
        exists|draws: Seq<usize>|
            draws.len() == len && (forall|i: int| 0 <= i < draws.len() ==> #[trigger] draws[i] < 36)
                && r@ == chars_at(draws),
{
    let mut draws: Vec<usize> = Vec::new();
    let mut i: u8 = 0;
    while i < len
        invariant
            i <= len,
            draws@.len() == i,
            forall|k: int| 0 <= k < draws@.len() ==> #[trigger] draws@[k] < 36,
        decreases len - i,
    {
        draws.push(random_below(36));
        i = i + 1;
    }
    string_from_draws(&draws)
}

/// A calendar date and time of day, in UTC, to the second.
#[derive(Clone, Copy, Debug, PartialEq, Eq, Structural)]
pub struct Timestamp {
    pub year: i32,
    pub month: u32,
    pub day: u32,
    pub hour: u32,
    pub minute: u32,
    pub second: u32,
}

impl Timestamp {
    pub open spec fn wf(&self) -> bool {
        &&& 1 <= self.month <= 12
        &&& 1 <= self.day <= 31
        &&& self.hour <= 23
        &&& self.minute <= 59
        &&& self.second <= 59
    }
}

/// Relies on `chrono::Utc::now().naive_utc()` and the field accessors of
/// `Datelike` and `Timelike`, whose documented ranges are month 1 to 12, day 1
/// to 31, hour 0 to 23, minute and second 0 to 59.
#[verifier::external_body]
pub(crate) fn now_utc() -> (r: Timestamp)
    ensures
        r.wf(),
{
    let t = chrono::Utc::now().naive_utc();
    Timestamp {
        year: t.year(),
        month: t.month(),
        day: t.day(),
        hour: t.hour(),
        minute: t.minute(),
        second: t.second(),
    }
}

} // verus!
